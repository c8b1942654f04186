//! Parsers of digits and of unsigned integers in a given base.
use crate::combinators::{
    any, consuming, filter_map, filter_map_post, fold, fold_post, fold_steps, total,
};
use crate::input::{Input, Res};
use vstd::arithmetic::div_mod::{lemma_add_mod_noop, lemma_mul_mod_noop_left, lemma_small_mod};
use vstd::prelude::*;

verus! {

/// The value of `c` as a digit in base `radix`: `'0'` to `'9'` stand for zero
/// to nine and the letters, in either case, for ten to thirty-five. A
/// character whose value is not below `radix` is no digit in that base.
pub open spec fn digit_value(c: char, radix: u32) -> Option<u32> {
    let v: int = if '0' <= c <= '9' {
        c as int - '0' as int
    } else if 'a' <= c <= 'z' {
        c as int - 'a' as int + 10
    } else if 'A' <= c <= 'Z' {
        c as int - 'A' as int + 10
    } else {
        36
    };
    if v < radix {
        Some(v as u32)
    } else {
        None
    }
}

/// The answer of `digit(radix)` on `s`: the value of the character under the
/// cursor, where it is a digit in base `radix`.
pub open spec fn digit_at(s: Input, radix: u32) -> Res<u32> {
    if s.remaining() > 0 && digit_value(s.head(), radix) is Some {
        Some((digit_value(s.head(), radix)->0, s.tail()))
    } else {
        None
    }
}

/// How many digits in base `radix` stand in a row in `text` from index `from`
/// on.
pub open spec fn digit_run(text: Seq<char>, from: int, radix: u32) -> nat
    decreases text.len() - from,
{
    if 0 <= from < text.len() && digit_value(text[from], radix) is Some {
        1 + digit_run(text, from + 1, radix)
    } else {
        0
    }
}

/// The number that the digits `text[from..to]` spell in base `radix`, the
/// most significant digit first.
pub open spec fn number(text: Seq<char>, from: int, to: int, radix: u32) -> int
    decreases to - from,
{
    if to <= from {
        0
    } else {
        number(text, from, to - 1, radix) * radix + digit_value(text[to - 1], radix)->0
    }
}

/// `i * radix + d`, kept to 64 bits.
pub open spec fn merge(i: u64, d: u32, radix: u32) -> u64 {
    ((i * radix + d) % 0x1_0000_0000_0000_0000) as u64
}

/// The answer of `integer(radix)` on `s`: the longest run of digits at the
/// cursor, read as a number in base `radix` and kept to 64 bits; no match
/// where no digit stands at the cursor.
pub open spec fn integer_at(s: Input, radix: u32) -> Res<u64> {
    let n = digit_run(s.text@, s.pos as int, radix);
    if n == 0 {
        None
    } else {
        Some(
            (
                (number(s.text@, s.pos as int, s.pos + n, radix) % 0x1_0000_0000_0000_0000) as u64,
                s.at(s.pos + n),
            ),
        )
    }
}

/// The value of `c` as a digit in base `radix`.
fn digit_of(c: char, radix: u32) -> (d: Option<u32>)
    requires
        2 <= radix <= 36,
    ensures
        d == digit_value(c, radix),
{
    let v: u32 = if '0' <= c && c <= '9' {
        c as u32 - '0' as u32
    } else if 'a' <= c && c <= 'z' {
        c as u32 - 'a' as u32 + 10
    } else if 'A' <= c && c <= 'Z' {
        c as u32 - 'A' as u32 + 10
    } else {
        36
    };
    if v < radix {
        Some(v)
    } else {
        None
    }
}

/// A parser of one digit in base `radix`; it answers the digit's value.
pub fn digit(radix: u32) -> (q: impl Fn(Input) -> Res<u32>)
    requires
        2 <= radix <= 36,
    ensures
        total(q),
        consuming(q),
        forall|s: Input, out: Res<u32>| #[trigger]
            q.ensures((s,), out) ==> out == digit_at(s, radix),
{
    let decode = move |c: char| -> (d: Option<u32>)
        ensures
            d == digit_value(c, radix),
        {
            digit_of(c, radix)
        };
    filter_map(any, decode)
}

/// The number `i` with the digit `d` behind it, kept to 64 bits.
fn merge_integer(i: u64, d: u32, radix: u32) -> (r: u64)
    ensures
        r == merge(i, d, radix),
{
    proof {
        lemma_add_mod_noop(i * radix, d as int, 0x1_0000_0000_0000_0000);
        lemma_small_mod(d as nat, 0x1_0000_0000_0000_0000);
    }
    i.wrapping_mul(radix as u64).wrapping_add(d as u64)
}

/// The digits `text[from..to]` are all there is of the run that starts at
/// `from`, if each is a digit and the next character is none.
proof fn lemma_digit_run(text: Seq<char>, from: int, to: int, radix: u32)
    requires
        0 <= from <= to <= text.len(),
        forall|k: int| from <= k < to ==> digit_value(#[trigger] text[k], radix) is Some,
        to < text.len() ==> digit_value(text[to], radix) is None,
    ensures
        digit_run(text, from, radix) == to - from,
    decreases to - from,
{
    if from < to {
        lemma_digit_run(text, from + 1, to, radix);
    }
}

/// A run of digits starts in the text where it is not empty, and ends in it.
pub proof fn lemma_digit_run_ends(text: Seq<char>, from: int, radix: u32)
    ensures
        digit_run(text, from, radix) > 0 ==> 0 <= from < text.len(),
        0 <= from ==> from + digit_run(text, from, radix) <= text.len() || digit_run(
            text,
            from,
            radix,
        ) == 0,
    decreases text.len() - from,
{
    if 0 <= from < text.len() && digit_value(text[from], radix) is Some {
        lemma_digit_run_ends(text, from + 1, radix);
    }
}

/// What `n` digits folded into an accumulator that started empty have led
/// to: the cursor behind them, and the number that they spell.
proof fn lemma_fold_digits<P, F>(
    p: P,
    f: F,
    radix: u32,
    s: Input,
    n: nat,
    e: Option<u64>,
    to: Input,
) where P: Fn(Input) -> Res<u32>, F: Fn(Option<u64>, u32) -> Option<u64>
    requires
        forall|at: Input, found: Res<u32>| #[trigger]
            p.ensures((at,), found) ==> found == digit_at(at, radix),
        forall|a: Option<u64>, d: u32, o: Option<u64>| #[trigger]
            f.ensures((a, d), o) ==> o == Some(merge(a.unwrap_or(0), d, radix)),
        fold_steps(p, f, None, s, n, e, to),
    ensures
        n > 0 ==> s.pos + n <= s.text@.len(),
        forall|k: int| s.pos <= k < s.pos + n ==> digit_value(#[trigger] s.text@[k], radix) is Some,
        to == s.at(s.pos + n),
        to.pos == s.pos + n,
        e == if n == 0 {
            None
        } else {
            Some((number(s.text@, s.pos as int, s.pos + n, radix) % 0x1_0000_0000_0000_0000) as u64)
        },
    decreases n,
{
    if n > 0 {
        let (before, at, d) = choose|before: Option<u64>, at: Input, d: u32|
            fold_steps(p, f, None, s, (n - 1) as nat, before, at) && #[trigger] p.ensures(
                (at,),
                Some((d, to)),
            ) && #[trigger] f.ensures((before, d), e);
        lemma_fold_digits(p, f, radix, s, (n - 1) as nat, before, at);
        at.lemma_tail();
        let m = 0x1_0000_0000_0000_0000int;
        let high = number(s.text@, s.pos as int, s.pos + n - 1, radix);
        assert(((high % m) * radix + d) % m == (high * radix + d) % m) by {
            lemma_mul_mod_noop_left(high, radix as int, m);
            lemma_add_mod_noop((high % m) * radix, d as int, m);
            lemma_add_mod_noop(high * radix, d as int, m);
        }
    }
}

/// A parser of an unsigned integer in base `radix`: one digit or more, as
/// many as stand in a row, the most significant first. A number that does
/// not fit 64 bits wraps round.
pub fn integer(radix: u32) -> (q: impl Fn(Input) -> Res<u64>)
    requires
        2 <= radix <= 36,
    ensures
        total(q),
        forall|s: Input, out: Res<u64>| #[trigger]
            q.ensures((s,), out) ==> out == integer_at(s, radix),
{
    let one = digit(radix);
    let init = || -> (o: Option<u64>)
        ensures
            o is None,
        {
            None
        };
    let push = move |a: Option<u64>, d: u32| -> (o: Option<u64>)
        ensures
            o == Some(merge(a.unwrap_or(0), d, radix)),
        {
            Some(merge_integer(a.unwrap_or(0), d, radix))
        };
    let digits = fold(one, init, push);
    let some = |o: Option<u64>| -> (r: Option<u64>)
        ensures
            r == o,
        {
            o
        };
    let q = filter_map(digits, some);
    proof {
        assert forall|s: Input, out: Res<u64>| #[trigger] q.ensures((s,), out) implies out
            == integer_at(s, radix) by {
            let found = choose|found: Res<Option<u64>>| #[trigger]
                digits.ensures((s,), found) && match found {
                    Some((t, rest)) => {
                        ||| out is Some && (out->0).1 == rest && some.ensures(
                            (t,),
                            Some((out->0).0),
                        )
                        ||| out is None && some.ensures((t,), None)
                    },
                    None => out is None,
                };
            let (seed, n, e, to) = choose|seed: Option<u64>, n: nat, e: Option<u64>, to: Input|
                init.ensures((), seed) && #[trigger] fold_steps(one, push, seed, s, n, e, to)
                    && one.ensures((to,), None) && found == Some((e, to));
            lemma_fold_digits(one, push, radix, s, n, e, to);
            if n == 0 {
            } else {
                lemma_digit_run(s.text@, s.pos as int, s.pos + n, radix);
            }
        }
    }
    q
}

} // verus!
