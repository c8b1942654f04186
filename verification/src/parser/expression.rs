//! The rules of the grammar as parsers, built from the combinators, with the
//! proof that they answer what the grammar says.
use crate::ast::{pairs_view, signed, to_signed, Expression, ExpressionView, Operator};
use crate::combinators::{any, filter_map, total};
use crate::fault::Fault;
use crate::input::{Input, Res};
use crate::lexical::integer_at;
use crate::parser::grammar::{
    binary_in, chain_in, ends_ahead, factor_in, lemma_factor_ends, lemma_primary_ends,
    primary_in, term_in, well_behaved, Located,
};
use vstd::prelude::*;

verus! {

/// What a rule of the grammar answers: a match, no match, or the fault that
/// ends the whole parse.
pub type Parsed<'a, T> = Result<Res<'a, T>, Fault>;

/// An operator matched by `o` with an operand matched by `n` behind it always
/// end behind the cursor at which the operator started.
pub open spec fn progressing<O, N>(o: O, n: N) -> bool where
    O: Fn(Input) -> Res<Operator>,
    N: Fn(Input) -> Parsed<Expression>,
 {
    forall|at: Input, op: Operator, mid: Input, e: Expression, to: Input|
        #![trigger o.ensures((at,), Some((op, mid))), n.ensures((mid,), Ok(Some((e, to))))]
        o.ensures((at,), Some((op, mid))) && n.ensures((mid,), Ok(Some((e, to))))
            ==> to.remaining() < at.remaining()
}

/// The operators and operands of `pairs`, matched one behind the other by `o`
/// and `n`, lead from the cursor `from` to the cursor `to`.
pub open spec fn chain_steps<O, N>(
    o: O,
    n: N,
    from: Input,
    pairs: Seq<(Operator, Expression)>,
    to: Input,
) -> bool where O: Fn(Input) -> Res<Operator>, N: Fn(Input) -> Parsed<Expression>
    decreases pairs.len(),
{
    if pairs.len() == 0 {
        to == from
    } else {
        exists|at: Input, mid: Input| #[trigger]
            o.ensures((at,), Some((pairs.last().0, mid))) && chain_steps(
                o,
                n,
                from,
                pairs.drop_last(),
                at,
            ) && n.ensures((mid,), Ok(Some((pairs.last().1, to))))
    }
}

/// `e` is `head` alone where no pair follows it, and else the chain of
/// `head` and `pairs`.
pub open spec fn joined(
    head: Expression,
    pairs: Seq<(Operator, Expression)>,
    e: Expression,
) -> bool {
    if pairs.len() == 0 {
        e == head
    } else {
        e matches Expression::Binary { first, others } && *first == head && others@ == pairs
    }
}

/// What `n` answers at `mid`, behind an operator, makes the chain fail with
/// `out`: a fault of `n` itself, or no operand at all.
pub open spec fn operand_missing<N>(n: N, mid: Input, out: Parsed<Expression>) -> bool where
    N: Fn(Input) -> Parsed<Expression>,
 {
    exists|operand: Parsed<Expression>| #[trigger]
        n.ensures((mid,), operand) && match operand {
            Err(fault) => out == Err::<Res<Expression>, Fault>(fault),
            Ok(None) => out == Err::<Res<Expression>, Fault>(
                Fault::GrammarViolation { position: mid.pos },
            ),
            Ok(Some(_)) => false,
        }
}

/// What a chain that started with the operand `head`, which ended at `from`,
/// may answer: pairs of operator and operand as long as `o` matches, joined
/// to `head`; or the fault of an operator that no operand follows.
pub open spec fn chain_post<O, N>(
    o: O,
    n: N,
    head: Expression,
    from: Input,
    out: Parsed<Expression>,
) -> bool where O: Fn(Input) -> Res<Operator>, N: Fn(Input) -> Parsed<Expression> {
    exists|pairs: Seq<(Operator, Expression)>, to: Input| #[trigger]
        chain_steps(o, n, from, pairs, to) && exists|next: Res<Operator>| #[trigger]
            o.ensures((to,), next) && match next {
                None => out is Ok && out->Ok_0 is Some && (out->Ok_0->0).1 == to && joined(
                    head,
                    pairs,
                    (out->Ok_0->0).0,
                ),
                Some((_, mid)) => operand_missing(n, mid, out),
            }
}

/// What `binary(o, n)` may answer on `s`: what `n` answers where that is no
/// match or a fault, and else the chain that starts with the match of `n`.
pub open spec fn binary_post<O, N>(o: O, n: N, s: Input, out: Parsed<Expression>) -> bool where
    O: Fn(Input) -> Res<Operator>,
    N: Fn(Input) -> Parsed<Expression>,
 {
    exists|first: Parsed<Expression>| #[trigger]
        n.ensures((s,), first) && match first {
            Err(fault) => out == Err::<Res<Expression>, Fault>(fault),
            Ok(None) => out == Ok::<Res<Expression>, Fault>(None),
            Ok(Some((head, from))) => chain_post(o, n, head, from, out),
        }
}

/// A chain of operands matched by `n` with operators matched by `o` between
/// them. Once an operator has matched, an operand has to follow: where none
/// does, the parse ends with a fault.
pub fn binary<O, N>(o: O, n: N) -> (q: impl Fn(Input) -> Parsed<Expression>) where
    O: Fn(Input) -> Res<Operator>,
    N: Fn(Input) -> Parsed<Expression>,

    requires
        total(o),
        total(n),
        progressing(o, n),
    ensures
        total(q),
        forall|s: Input, out: Parsed<Expression>| #[trigger]
            q.ensures((s,), out) ==> binary_post(o, n, s, out),
{
    move |s: Input| -> (out: Parsed<Expression>)
        ensures
            binary_post(o, n, s, out),
        {
            match n(s) {
                Err(fault) => Err(fault),
                Ok(None) => Ok(None),
                Ok(Some((first, from))) => {
                    let mut s = from;
                    let mut others: Vec<(Operator, Expression)> = Vec::new();
                    let mut fault: Option<Fault> = None;
                    loop
                        invariant_except_break
                            fault is None,
                        invariant
                            total(o),
                            total(n),
                            progressing(o, n),
                            chain_steps(o, n, from, others@, s),
                        ensures
                            exists|next: Res<Operator>| #[trigger]
                                o.ensures((s,), next) && match next {
                                    None => fault is None,
                                    Some((_, mid)) => fault is Some && operand_missing(
                                        n,
                                        mid,
                                        Err(fault->0),
                                    ),
                                },
                        decreases s.remaining(),
                    {
                        match o(s) {
                            None => {
                                break ;
                            },
                            Some((operator, mid)) => match n(mid) {
                                Ok(Some((right, to))) => {
                                    let ghost before = others@;
                                    others.push((operator, right));
                                    proof {
                                        assert(others@.drop_last() == before);
                                        assert(o.ensures((s,), Some((others@.last().0, mid))));
                                    }
                                    s = to;
                                },
                                Ok(None) => {
                                    fault = Some(Fault::GrammarViolation { position: mid.pos });
                                    break ;
                                },
                                Err(inner) => {
                                    fault = Some(inner);
                                    break ;
                                },
                            },
                        }
                    }
                    match fault {
                        Some(fault) => Err(fault),
                        None => {
                            let e = if others.len() == 0 {
                                first
                            } else {
                                Expression::Binary { first: Box::new(first), others }
                            };
                            Ok(Some((e, s)))
                        },
                    }
                },
            }
        }
}

/// The answer of a rule with its expression as a tree.
pub open spec fn parsed_view(out: Parsed<Expression>) -> Parsed<ExpressionView> {
    match out {
        Ok(Some((e, rest))) => Ok(Some((e@, rest))),
        Ok(None) => Ok(None),
        Err(fault) => Err(fault),
    }
}

/// An answer on the text of `s`, with the cursor in place of the index.
pub open spec fn located(s: Input, answer: Located) -> Parsed<ExpressionView> {
    match answer {
        Ok(Some((tree, end))) => Ok(Some((tree, s.at(end)))),
        Ok(None) => Ok(None),
        Err(fault) => Err(fault),
    }
}

/// The answer of a parser of the one character `symbol`, which stands for
/// `operator`.
pub open spec fn operator_at(s: Input, symbol: char, operator: Operator) -> Res<Operator,
> {
    if s.remaining() > 0 && s.head() == symbol {
        Some((operator, s.tail()))
    } else {
        None
    }
}

/// The answer of the grammar's `primary` on `s`.
pub open spec fn primary_at(s: Input) -> Parsed<ExpressionView> {
    located(s, primary_in(s.text@, s.pos as int))
}

/// The answer of the grammar's `factor` on `s`.
pub open spec fn factor_at(s: Input) -> Parsed<ExpressionView> {
    located(s, factor_in(s.text@, s.pos as int))
}

/// The answer of the grammar's `term` on `s`.
pub open spec fn term_at(s: Input) -> Parsed<ExpressionView> {
    located(s, term_in(s.text@, s.pos as int))
}

/// The answer of the literal parser on `s`: the unsigned decimal integer at
/// the cursor, read as signed.
pub open spec fn literal_at(s: Input) -> Res<Expression> {
    match integer_at(s, 10) {
        Some((v, rest)) => Some((Expression::Integer(signed(v)), rest)),
        None => None,
    }
}

/// `o` is a parser of the character `symbol`, which it answers as `operator`.
pub open spec fn reads_symbol<O>(o: O, symbol: char, operator: Operator) -> bool where
    O: Fn(Input) -> Res<Operator>,
 {
    forall|at: Input, found: Res<Operator>| #[trigger]
        o.ensures((at,), found) ==> found == operator_at(at, symbol, operator)
}

/// `n` answers on every cursor what `operand` says of the text and the index.
pub open spec fn reads_operand<N>(n: N, operand: spec_fn(Seq<char>, int) -> Located) -> bool where
    N: Fn(Input) -> Parsed<Expression>,
 {
    forall|at: Input, found: Parsed<Expression>| #[trigger]
        n.ensures((at,), found) ==> parsed_view(found) == located(
            at,
            operand(at.text@, at.pos as int),
        )
}

/// With `pairs` in front of it, what a chain answers.
pub open spec fn prepended(
    pairs: Seq<(Operator, ExpressionView)>,
    chain: Result<(Seq<(Operator, ExpressionView)>, int), Fault>,
) -> Result<(Seq<(Operator, ExpressionView)>, int), Fault> {
    match chain {
        Err(fault) => Err(fault),
        Ok((others, end)) => Ok((pairs + others, end)),
    }
}

/// Pairs that parsers of `symbol` and of `operand` have matched from `from`
/// to `to` are the first pairs of the chain at `from`, and the rest of that
/// chain is the chain at `to`.
proof fn lemma_chain<O, N>(
    o: O,
    n: N,
    symbol: char,
    operator: Operator,
    operand: spec_fn(Seq<char>, int) -> Located,
    from: Input,
    pairs: Seq<(Operator, Expression)>,
    to: Input,
) where O: Fn(Input) -> Res<Operator>, N: Fn(Input) -> Parsed<Expression>
    requires
        reads_symbol(o, symbol, operator),
        reads_operand(n, operand),
        well_behaved(operand),
        chain_steps(o, n, from, pairs, to),
        from.pos <= from.text@.len(),
    ensures
        to.text == from.text,
        from.pos <= to.pos <= from.text@.len(),
        chain_in(from.text@, from.pos as int, symbol, operator, operand) == prepended(
            pairs_view(pairs),
            chain_in(from.text@, to.pos as int, symbol, operator, operand),
        ),
    decreases pairs.len(),
{
    let text = from.text@;
    let rest = chain_in(text, to.pos as int, symbol, operator, operand);
    if pairs.len() > 0 {
        let (at, mid) = choose|at: Input, mid: Input| #[trigger]
            o.ensures((at,), Some((pairs.last().0, mid))) && chain_steps(
                o,
                n,
                from,
                pairs.drop_last(),
                at,
            ) && n.ensures((mid,), Ok(Some((pairs.last().1, to))));
        lemma_chain(o, n, symbol, operator, operand, from, pairs.drop_last(), at);
        at.lemma_tail();
        let tree = pairs.last().1@;
        if rest is Ok {
            assert(pairs_view(pairs.drop_last()) + (seq![(operator, tree)] + rest->Ok_0.0)
                =~= pairs_view(pairs) + rest->Ok_0.0);
        }
    }
}

/// Parsers of `symbol` and of a well-behaved `operand` make progress
/// together.
pub proof fn lemma_progressing<O, N>(
    o: O,
    n: N,
    symbol: char,
    operator: Operator,
    operand: spec_fn(Seq<char>, int) -> Located,
) where O: Fn(Input) -> Res<Operator>, N: Fn(Input) -> Parsed<Expression>
    requires
        reads_symbol(o, symbol, operator),
        reads_operand(n, operand),
        well_behaved(operand),
    ensures
        progressing(o, n),
{
    assert forall|at: Input, op: Operator, mid: Input, e: Expression, to: Input|
        #![trigger o.ensures((at,), Some((op, mid))), n.ensures((mid,), Ok(Some((e, to))))]
        o.ensures((at,), Some((op, mid))) && n.ensures(
            (mid,),
            Ok(Some((e, to))),
        ) implies to.remaining() < at.remaining() by {
        at.lemma_tail();
    }
}

/// A chain built from parsers of `symbol` and of `operand` answers what the
/// grammar says of one level with that symbol and that operand.
pub proof fn lemma_binary<O, N>(
    o: O,
    n: N,
    symbol: char,
    operator: Operator,
    operand: spec_fn(Seq<char>, int) -> Located,
    s: Input,
    out: Parsed<Expression>,
) where O: Fn(Input) -> Res<Operator>, N: Fn(Input) -> Parsed<Expression>
    requires
        reads_symbol(o, symbol, operator),
        reads_operand(n, operand),
        well_behaved(operand),
        binary_post(o, n, s, out),
    ensures
        parsed_view(out) == located(s, binary_in(s.text@, s.pos as int, symbol, operator, operand)),
{
    let text = s.text@;
    let first = choose|first: Parsed<Expression>| #[trigger]
        n.ensures((s,), first) && match first {
            Err(fault) => out == Err::<Res<Expression>, Fault>(fault),
            Ok(None) => out == Ok::<Res<Expression>, Fault>(None),
            Ok(Some((head, from))) => chain_post(o, n, head, from, out),
        };
    if let Ok(Some((head, from))) = first {
        s.lemma_tail();
        let (pairs, to) = choose|pairs: Seq<(Operator, Expression)>, to: Input| #[trigger]
            chain_steps(o, n, from, pairs, to) && exists|next: Res<Operator>| #[trigger]
                o.ensures((to,), next) && match next {
                    None => out is Ok && out->Ok_0 is Some && (out->Ok_0->0).1 == to && joined(
                        head,
                        pairs,
                        (out->Ok_0->0).0,
                    ),
                    Some((_, mid)) => operand_missing(n, mid, out),
                };
        let next = choose|next: Res<Operator>| #[trigger]
            o.ensures((to,), next) && match next {
                None => out is Ok && out->Ok_0 is Some && (out->Ok_0->0).1 == to && joined(
                    head,
                    pairs,
                    (out->Ok_0->0).0,
                ),
                Some((_, mid)) => operand_missing(n, mid, out),
            };
        lemma_chain(o, n, symbol, operator, operand, from, pairs, to);
        to.lemma_tail();
        if next is None && pairs.len() > 0 {
            let e = (out->Ok_0->0).0;
            assert(e@->others =~= pairs_view(pairs));
        }
    }
}

/// A parser of a decimal integer literal.
pub fn integer() -> (q: impl Fn(Input) -> Res<Expression>)
    ensures
        total(q),
        forall|s: Input, out: Res<Expression>| #[trigger]
            q.ensures((s,), out) ==> out == literal_at(s),
{
    let literal = |v: u64| -> (e: Expression)
        ensures
            e == Expression::Integer(signed(v)),
        {
            Expression::Integer(to_signed(v))
        };
    crate::combinators::map(crate::lexical::integer(10), literal)
}

/// The grammar's `primary`: an integer literal.
pub fn primary() -> (q: impl Fn(Input) -> Parsed<Expression>)
    ensures
        total(q),
        forall|s: Input, out: Parsed<Expression>| #[trigger]
            q.ensures((s,), out) ==> parsed_view(out) == primary_at(s),
{
    let literal = integer();
    move |s: Input| -> (out: Parsed<Expression>)
        ensures
            out == Ok::<Res<Expression>, Fault>(literal_at(s)),
        {
            Ok(literal(s))
        }
}

/// A parser of the operator of factors.
fn factor_operator() -> (q: impl Fn(Input) -> Res<Operator>)
    ensures
        total(q),
        reads_symbol(q, '*', Operator::Multiply),
{
    let multiply = |c: char| -> (o: Option<Operator>)
        ensures
            o == if c == '*' {
                Some(Operator::Multiply)
            } else {
                None
            },
        {
            match c {
                '*' => Some(Operator::Multiply),
                _ => None,
            }
        };
    filter_map(any, multiply)
}

/// A parser of the operator of terms.
fn term_operator() -> (q: impl Fn(Input) -> Res<Operator>)
    ensures
        total(q),
        reads_symbol(q, '+', Operator::Add),
{
    let add = |c: char| -> (o: Option<Operator>)
        ensures
            o == if c == '+' {
                Some(Operator::Add)
            } else {
                None
            },
        {
            match c {
                '+' => Some(Operator::Add),
                _ => None,
            }
        };
    filter_map(any, add)
}

/// The grammar's `factor`: primaries with `*` between them.
pub fn factor() -> (q: impl Fn(Input) -> Parsed<Expression>)
    ensures
        total(q),
        forall|s: Input, out: Parsed<Expression>| #[trigger]
            q.ensures((s,), out) ==> parsed_view(out) == factor_at(s),
{
    let o = factor_operator();
    let n = primary();
    let ghost operand = |t: Seq<char>, i: int| primary_in(t, i);
    proof {
        assert forall|t: Seq<char>, i: int| ends_ahead(#[trigger] operand(t, i), t, i) by {
            lemma_primary_ends(t, i);
        }
        lemma_progressing(o, n, '*', Operator::Multiply, operand);
    }
    let q = binary(o, n);
    proof {
        assert forall|s: Input, out: Parsed<Expression>| #[trigger]
            q.ensures((s,), out) implies parsed_view(out) == factor_at(s) by {
            lemma_binary(o, n, '*', Operator::Multiply, operand, s, out);
        }
    }
    q
}

/// The grammar's `term`: factors with `+` between them.
pub fn term() -> (q: impl Fn(Input) -> Parsed<Expression>)
    ensures
        total(q),
        forall|s: Input, out: Parsed<Expression>| #[trigger]
            q.ensures((s,), out) ==> parsed_view(out) == term_at(s),
{
    let o = term_operator();
    let n = factor();
    let ghost operand = |t: Seq<char>, i: int| factor_in(t, i);
    proof {
        assert forall|t: Seq<char>, i: int| ends_ahead(#[trigger] operand(t, i), t, i) by {
            lemma_factor_ends(t, i);
        }
        lemma_progressing(o, n, '+', Operator::Add, operand);
    }
    let q = binary(o, n);
    proof {
        assert forall|s: Input, out: Parsed<Expression>| #[trigger]
            q.ensures((s,), out) implies parsed_view(out) == term_at(s) by {
            lemma_binary(o, n, '+', Operator::Add, operand, s, out);
        }
    }
    q
}

/// The parser of a whole expression: the grammar's `term`.
pub fn parser() -> (q: impl Fn(Input) -> Parsed<Expression>)
    ensures
        total(q),
        forall|s: Input, out: Parsed<Expression>| #[trigger]
            q.ensures((s,), out) ==> parsed_view(out) == term_at(s),
{
    term()
}

} // verus!
