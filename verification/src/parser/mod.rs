//! The parser of the language.
use crate::ast::Expression;
use crate::combinators::total;
use crate::input::Input;
use crate::parser::expression::{parsed_view, term_at, Parsed};
use vstd::prelude::*;

pub mod expression;
pub mod grammar;

verus! {

/// The parser of the language: on a cursor it answers the expression that
/// starts there with the cursor behind it, no match where none starts there,
/// or the fault of an operator that no operand follows.
pub fn parser() -> (q: impl Fn(Input) -> Parsed<Expression>)
    ensures
        total(q),
        forall|s: Input, out: Parsed<Expression>| #[trigger]
            q.ensures((s,), out) ==> parsed_view(out) == term_at(s),
{
    expression::parser()
}

} // verus!
