//! Parser combinators. A parser is any function from a cursor to a match,
//! which is a value with the cursor behind it, or to no match. A combinator
//! makes a parser of parsers and functions; what the new parser may answer is
//! stated over what its parts may answer.
use crate::input::{Input, Res};
use vstd::prelude::*;

verus! {

/// `p` may be called on every cursor.
pub open spec fn total<O, P: Fn(Input) -> O>(p: P) -> bool {
    forall|s: Input| #[trigger] p.requires((s,))
}

/// Every match of `p` ends behind the cursor it started at.
pub open spec fn consuming<T, P: Fn(Input) -> Res<T>>(p: P) -> bool {
    forall|s: Input, t: T, rest: Input| #[trigger]
        p.ensures((s,), Some((t, rest))) ==> rest.remaining() < s.remaining()
}

/// The answer of [`any`]: the character under the cursor, if there is one.
pub open spec fn any_at(s: Input) -> Res<char> {
    if s.remaining() > 0 {
        Some((s.head(), s.tail()))
    } else {
        None
    }
}

/// Consumes one character; no match at the end of the text.
pub fn any(s: Input) -> (out: Res<char>)
    ensures
        out == any_at(s),
        out is Some ==> (out->0).1.remaining() == s.remaining() - 1,
{
    proof {
        s.lemma_tail();
    }
    if s.pos < s.text.len() {
        Some((s.text[s.pos], Input { text: s.text, pos: s.pos + 1 }))
    } else {
        None
    }
}

/// What `map(p, f)` may answer on `s`: no match where `p` has none, else the
/// match of `p` with its value handed through `f`.
pub open spec fn map_post<T, E, P, F>(p: P, f: F, s: Input, out: Res<E>) -> bool where
    P: Fn(Input) -> Res<T>,
    F: Fn(T) -> E,
 {
    exists|found: Res<T>| #[trigger]
        p.ensures((s,), found) && match found {
            Some((t, rest)) => out is Some && (out->0).1 == rest && f.ensures((t,), (out->0).0),
            None => out is None,
        }
}

/// Runs `p` and applies `f` to the value of a match.
pub fn map<T, E, P, F>(p: P, f: F) -> (q: impl Fn(Input) -> Res<E>) where
    P: Fn(Input) -> Res<T>,
    F: Fn(T) -> E,

    requires
        total(p),
        forall|s: Input, t: T, rest: Input| #[trigger]
            p.ensures((s,), Some((t, rest))) ==> f.requires((t,)),
    ensures
        total(q),
        forall|s: Input, out: Res<E>| #[trigger]
            q.ensures((s,), out) ==> map_post(p, f, s, out),
{
    move |s: Input| -> (out: Res<E>)
        ensures
            map_post(p, f, s, out),
        {
            match p(s) {
                Some((t, rest)) => Some((f(t), rest)),
                None => None,
            }
        }
}

/// What `filter(p, f)` may answer on `s`: the match of `p` where `f` holds of
/// its value, and no match otherwise.
pub open spec fn filter_post<T, P, F>(p: P, f: F, s: Input, out: Res<T>) -> bool where
    P: Fn(Input) -> Res<T>,
    F: Fn(&T) -> bool,
 {
    exists|found: Res<T>| #[trigger]
        p.ensures((s,), found) && match found {
            Some((t, rest)) => {
                ||| f.ensures((&t,), true) && out == found
                ||| f.ensures((&t,), false) && out is None
            },
            None => out is None,
        }
}

/// Runs `p` and keeps its match only if `f` holds of the value.
pub fn filter<T, P, F>(p: P, f: F) -> (q: impl Fn(Input) -> Res<T>) where
    P: Fn(Input) -> Res<T>,
    F: Fn(&T) -> bool,

    requires
        total(p),
        forall|s: Input, t: T, rest: Input| #[trigger]
            p.ensures((s,), Some((t, rest))) ==> f.requires((&t,)),
    ensures
        total(q),
        forall|s: Input, out: Res<T>| #[trigger]
            q.ensures((s,), out) ==> filter_post(p, f, s, out),
{
    move |s: Input| -> (out: Res<T>)
        ensures
            filter_post(p, f, s, out),
        {
            match p(s) {
                Some((t, rest)) => if f(&t) {
                    Some((t, rest))
                } else {
                    None
                },
                None => None,
            }
        }
}

/// What `filter_map(p, f)` may answer on `s`: the match of `p` with the value
/// that `f` makes of its value, and no match where `f` makes none.
pub open spec fn filter_map_post<T, E, P, F>(
    p: P,
    f: F,
    s: Input,
    out: Res<E>,
) -> bool where P: Fn(Input) -> Res<T>, F: Fn(T) -> Option<E> {
    exists|found: Res<T>| #[trigger]
        p.ensures((s,), found) && match found {
            Some((t, rest)) => {
                ||| out is Some && (out->0).1 == rest && f.ensures((t,), Some((out->0).0))
                ||| out is None && f.ensures((t,), None)
            },
            None => out is None,
        }
}

/// Runs `p` and hands the value of a match to `f`, which may refuse it.
pub fn filter_map<T, E, P, F>(p: P, f: F) -> (q: impl Fn(Input) -> Res<E>) where
    P: Fn(Input) -> Res<T>,
    F: Fn(T) -> Option<E>,

    requires
        total(p),
        forall|s: Input, t: T, rest: Input| #[trigger]
            p.ensures((s,), Some((t, rest))) ==> f.requires((t,)),
    ensures
        total(q),
        forall|s: Input, out: Res<E>| #[trigger]
            q.ensures((s,), out) ==> filter_map_post(p, f, s, out),
{
    move |s: Input| -> (out: Res<E>)
        ensures
            filter_map_post(p, f, s, out),
        {
            match p(s) {
                Some((t, rest)) => match f(t) {
                    Some(e) => Some((e, rest)),
                    None => None,
                },
                None => None,
            }
        }
}

/// What `and(l, r)` may answer on `s`: the values of `l` and of `r`, run one
/// behind the other, where both match; no match where either has none.
pub open spec fn and_post<L, R, LT, RT>(l: L, r: R, s: Input, out: Res<(LT, RT)>) -> bool where
    L: Fn(Input) -> Res<LT>,
    R: Fn(Input) -> Res<RT>,
 {
    exists|left: Res<LT>| #[trigger]
        l.ensures((s,), left) && match left {
            Some(_) => exists|right: Res<RT>| #[trigger]
                r.ensures(((left->0).1,), right) && match right {
                    Some(_) => out == Some((((left->0).0, (right->0).0), (right->0).1)),
                    None => out is None,
                },
            None => out is None,
        }
}

/// Runs `l`, then `r` where `l` stopped.
pub fn and<L, R, LT, RT>(l: L, r: R) -> (q: impl Fn(Input) -> Res<(LT, RT)>) where
    L: Fn(Input) -> Res<LT>,
    R: Fn(Input) -> Res<RT>,

    requires
        total(l),
        total(r),
    ensures
        total(q),
        forall|s: Input, out: Res<(LT, RT)>| #[trigger]
            q.ensures((s,), out) ==> and_post(l, r, s, out),
{
    move |s: Input| -> (out: Res<(LT, RT)>)
        ensures
            and_post(l, r, s, out),
        {
            match l(s) {
                Some((lt, s)) => match r(s) {
                    Some((rt, s)) => Some(((lt, rt), s)),
                    None => None,
                },
                None => None,
            }
        }
}

/// What `or(l, r)` may answer on `s`: the match of `l`, or, where `l` has
/// none, whatever `r` answers on the same cursor.
pub open spec fn or_post<L, R, T>(l: L, r: R, s: Input, out: Res<T>) -> bool where
    L: Fn(Input) -> Res<T>,
    R: Fn(Input) -> Res<T>,
 {
    ||| out is Some && l.ensures((s,), out)
    ||| l.ensures((s,), None) && r.ensures((s,), out)
}

/// Ordered choice: `l`, and `r` on the same cursor where `l` does not match.
pub fn or<L, R, T>(l: L, r: R) -> (q: impl Fn(Input) -> Res<T>) where
    L: Fn(Input) -> Res<T>,
    R: Fn(Input) -> Res<T>,

    requires
        total(l),
        total(r),
    ensures
        total(q),
        forall|s: Input, out: Res<T>| #[trigger]
            q.ensures((s,), out) ==> or_post(l, r, s, out),
{
    move |s: Input| -> (out: Res<T>)
        ensures
            or_post(l, r, s, out),
        {
            match l(s) {
                Some(found) => Some(found),
                None => r(s),
            }
        }
}

/// Where `l` has no match on `s`, `or(l, r)` answers on `s` nothing but what
/// `r` answers on that same cursor: nothing that `l` read is lost to `r`.
pub proof fn lemma_or_falls_through<L, R, T>(l: L, r: R, s: Input, out: Res<T>) where
    L: Fn(Input) -> Res<T>,
    R: Fn(Input) -> Res<T>,

    requires
        or_post(l, r, s, out),
        forall|found: Res<T>| l.ensures((s,), found) ==> found is None,
    ensures
        r.ensures((s,), out),
{
}

/// `n` matches of `p` in a row, each folded into the accumulator by `f`, lead
/// from the cursor `from` with the accumulator `seed` to the cursor `to` with
/// the accumulator `e`.
pub open spec fn fold_steps<T, E, P, F>(
    p: P,
    f: F,
    seed: E,
    from: Input,
    n: nat,
    e: E,
    to: Input,
) -> bool where P: Fn(Input) -> Res<T>, F: Fn(E, T) -> E
    decreases n,
{
    if n == 0 {
        e == seed && to == from
    } else {
        exists|before: E, at: Input, t: T|
            #![trigger p.ensures((at,), Some((t, to))), f.ensures((before, t), e)]
            fold_steps(p, f, seed, from, (n - 1) as nat, before, at) && p.ensures(
                (at,),
                Some((t, to)),
            ) && f.ensures((before, t), e)
    }
}

/// What `fold(p, init, f)` may answer on `s`: always a match; its value is a
/// seed of `init` with the values of as many matches of `p` as there are in a
/// row folded into it, and its cursor is the one where `p` matched no more.
pub open spec fn fold_post<T, E, P, I, F>(
    p: P,
    init: I,
    f: F,
    s: Input,
    out: Res<E>,
) -> bool where P: Fn(Input) -> Res<T>, I: Fn() -> E, F: Fn(E, T) -> E {
    exists|seed: E, n: nat, e: E, to: Input|
        init.ensures((), seed) && #[trigger] fold_steps(p, f, seed, s, n, e, to) && p.ensures(
            (to,),
            None,
        ) && out == Some((e, to))
}

/// Runs `p` as often as it matches, starting from a seed of `init` and taking
/// each value into the accumulator with `f`. Every match of `p` has to consume
/// something: the repetition would not end otherwise.
pub fn fold<P, I, F, T, E>(p: P, init: I, f: F) -> (q: impl Fn(Input) -> Res<E>) where
    P: Fn(Input) -> Res<T>,
    I: Fn() -> E,
    F: Fn(E, T) -> E,

    requires
        total(p),
        consuming(p),
        init.requires(()),
        forall|e: E, t: T| #[trigger] f.requires((e, t)),
    ensures
        total(q),
        forall|s: Input, out: Res<E>| #[trigger]
            q.ensures((s,), out) ==> fold_post(p, init, f, s, out),
{
    move |s: Input| -> (out: Res<E>)
        ensures
            fold_post(p, init, f, s, out),
        {
            let mut e = init();
            let mut i = s;
            let ghost seed = e;
            let ghost mut n: nat = 0;
            loop
                invariant
                    total(p),
                    consuming(p),
                    forall|e: E, t: T| #[trigger] f.requires((e, t)),
                    init.ensures((), seed),
                    fold_steps(p, f, seed, s, n, e, i),
                ensures
                    p.ensures((i,), None),
                decreases i.remaining(),
            {
                match p(i) {
                    Some((t, next)) => {
                        e = f(e, t);
                        proof {
                            n = n + 1;
                        }
                        i = next;
                    },
                    None => {
                        break ;
                    },
                }
            }
            Some((e, i))
        }
}

/// A fold over a parser that never matches answers a seed of `init` as it
/// is, with the cursor that it was given.
pub proof fn lemma_fold_of_no_match<T, E, P, I, F>(
    p: P,
    init: I,
    f: F,
    s: Input,
    out: Res<E>,
) where P: Fn(Input) -> Res<T>, I: Fn() -> E, F: Fn(E, T) -> E
    requires
        fold_post(p, init, f, s, out),
        forall|at: Input, found: Res<T>| p.ensures((at,), found) ==> found is None,
    ensures
        out is Some,
        (out->0).1 == s,
        init.ensures((), (out->0).0),
{
}

} // verus!
