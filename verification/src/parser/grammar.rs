//! The grammar as a function of a text and an index into it:
//!
//! ```text
//! term    → factor ('+' factor)*
//! factor  → primary ('*' primary)*
//! primary → integer
//! ```
//!
//! Nothing is skipped between the characters of an expression.
use crate::ast::{signed, well_formed, ExpressionView, Operator};
use crate::fault::Fault;
use crate::lexical::{digit_run, lemma_digit_run_ends, number};
use vstd::prelude::*;

verus! {

/// What a rule of the grammar answers on a text from an index on: a tree
/// with the index behind it, no match, or a fault.
pub type Located = Result<Option<(ExpressionView, int)>, Fault>;

/// A literal at index `at` of `text`: the longest run of decimal digits
/// there, as the number that they spell, kept to 64 bits and read as signed.
pub open spec fn primary_in(text: Seq<char>, at: int) -> Located {
    let n = digit_run(text, at, 10);
    if n == 0 {
        Ok(None)
    } else {
        Ok(
            Some(
                (
                    ExpressionView::Integer(
                        signed((number(text, at, at + n, 10) % 0x1_0000_0000_0000_0000) as u64),
                    ),
                    at + n,
                ),
            ),
        )
    }
}

/// The pairs of operator and operand that follow an operand that ended at
/// index `at`, with the index behind the last of them. The chain goes on as
/// long as `symbol` stands at the index; behind `symbol` an operand has to
/// stand. (An operand that did not end behind its start would end the chain;
/// those of this grammar always do.)
pub open spec fn chain_in(
    text: Seq<char>,
    at: int,
    symbol: char,
    operator: Operator,
    operand: spec_fn(Seq<char>, int) -> Located,
) -> Result<(Seq<(Operator, ExpressionView)>, int), Fault>
    decreases text.len() - at,
{
    if 0 <= at < text.len() && text[at] == symbol {
        match operand(text, at + 1) {
            Err(fault) => Err(fault),
            Ok(None) => Err(Fault::GrammarViolation { position: (at + 1) as usize }),
            Ok(Some((tree, next))) => if at < next <= text.len() {
                match chain_in(text, next, symbol, operator, operand) {
                    Err(fault) => Err(fault),
                    Ok((others, end)) => Ok((seq![(operator, tree)] + others, end)),
                }
            } else {
                Ok((seq![(operator, tree)], next))
            },
        }
    } else {
        Ok((Seq::empty(), at))
    }
}

/// One level of the grammar at index `at` of `text`: an operand, then pairs
/// of `symbol` and operand as long as `symbol` follows. One operand alone is
/// answered as it is, more as a chain.
pub open spec fn binary_in(
    text: Seq<char>,
    at: int,
    symbol: char,
    operator: Operator,
    operand: spec_fn(Seq<char>, int) -> Located,
) -> Located {
    match operand(text, at) {
        Err(fault) => Err(fault),
        Ok(None) => Ok(None),
        Ok(Some((first, mid))) => match chain_in(text, mid, symbol, operator, operand) {
            Err(fault) => Err(fault),
            Ok((others, end)) => Ok(
                Some(
                    (
                        if others.len() == 0 {
                            first
                        } else {
                            ExpressionView::Binary { first: Box::new(first), others }
                        },
                        end,
                    ),
                ),
            ),
        },
    }
}

/// `factor → primary ('*' primary)*` at index `at` of `text`.
pub open spec fn factor_in(text: Seq<char>, at: int) -> Located {
    binary_in(text, at, '*', Operator::Multiply, |t: Seq<char>, i: int| primary_in(t, i))
}

/// `term → factor ('+' factor)*` at index `at` of `text`.
pub open spec fn term_in(text: Seq<char>, at: int) -> Located {
    binary_in(text, at, '+', Operator::Add, |t: Seq<char>, i: int| factor_in(t, i))
}

/// `answer`, given at index `at` of `text`, is no match that starts outside
/// the text or does not end behind its start.
pub open spec fn ends_ahead(answer: Located, text: Seq<char>, at: int) -> bool {
    answer matches Ok(Some((_, end))) ==> 0 <= at < end <= text.len()
}

/// A match of `operand` starts in the text and ends behind its start.
pub open spec fn well_behaved(operand: spec_fn(Seq<char>, int) -> Located) -> bool {
    forall|text: Seq<char>, at: int| ends_ahead(#[trigger] operand(text, at), text, at)
}

/// A level of the grammar over a well-behaved operand is well-behaved.
proof fn lemma_chain_ends(
    text: Seq<char>,
    at: int,
    symbol: char,
    operator: Operator,
    operand: spec_fn(Seq<char>, int) -> Located,
)
    requires
        well_behaved(operand),
        0 <= at <= text.len(),
    ensures
        chain_in(text, at, symbol, operator, operand) matches Ok((_, end)) ==> at <= end
            <= text.len(),
    decreases text.len() - at,
{
    if 0 <= at < text.len() && text[at] == symbol {
        if let Ok(Some((_, next))) = operand(text, at + 1) {
            lemma_chain_ends(text, next, symbol, operator, operand);
        }
    }
}

/// A literal starts in the text and ends behind its start.
pub proof fn lemma_primary_ends(text: Seq<char>, at: int)
    ensures
        ends_ahead(primary_in(text, at), text, at),
{
    lemma_digit_run_ends(text, at, 10);
}

/// A factor starts in the text and ends behind its start.
pub proof fn lemma_factor_ends(text: Seq<char>, at: int)
    ensures
        ends_ahead(factor_in(text, at), text, at),
{
    let primary = |t: Seq<char>, i: int| primary_in(t, i);
    assert forall|t: Seq<char>, i: int| ends_ahead(#[trigger] primary(t, i), t, i) by {
        lemma_primary_ends(t, i);
    }
    if let Ok(Some((_, mid))) = primary(text, at) {
        lemma_chain_ends(text, mid, '*', Operator::Multiply, primary);
    }
}

/// A term starts in the text and ends behind its start.
pub proof fn lemma_term_ends(text: Seq<char>, at: int)
    ensures
        ends_ahead(term_in(text, at), text, at),
{
    let factor = |t: Seq<char>, i: int| factor_in(t, i);
    assert forall|t: Seq<char>, i: int| ends_ahead(#[trigger] factor(t, i), t, i) by {
        lemma_factor_ends(t, i);
    }
    if let Ok(Some((_, mid))) = factor(text, at) {
        lemma_chain_ends(text, mid, '+', Operator::Add, factor);
    }
}

/// `answer` is no match with a tree that holds an empty chain.
pub open spec fn answers_well_formed(answer: Located) -> bool {
    answer matches Ok(Some((tree, _))) ==> well_formed(tree)
}

/// The operands of a chain over an operand that answers well-formed trees
/// are well-formed.
proof fn lemma_chain_well_formed(
    text: Seq<char>,
    at: int,
    symbol: char,
    operator: Operator,
    operand: spec_fn(Seq<char>, int) -> Located,
)
    requires
        forall|t: Seq<char>, i: int| answers_well_formed(#[trigger] operand(t, i)),
    ensures
        chain_in(text, at, symbol, operator, operand) matches Ok((others, _)) ==> forall|i: int|
            0 <= i < others.len() ==> well_formed(#[trigger] others[i].1),
    decreases text.len() - at,
{
    if 0 <= at < text.len() && text[at] == symbol {
        if let Ok(Some((_, next))) = operand(text, at + 1) {
            if at < next <= text.len() {
                lemma_chain_well_formed(text, next, symbol, operator, operand);
            }
        }
    }
}

/// A level of the grammar over an operand that answers well-formed trees
/// answers well-formed trees.
proof fn lemma_binary_well_formed(
    text: Seq<char>,
    at: int,
    symbol: char,
    operator: Operator,
    operand: spec_fn(Seq<char>, int) -> Located,
)
    requires
        forall|t: Seq<char>, i: int| answers_well_formed(#[trigger] operand(t, i)),
    ensures
        answers_well_formed(binary_in(text, at, symbol, operator, operand)),
{
    if let Ok(Some((_, mid))) = operand(text, at) {
        lemma_chain_well_formed(text, mid, symbol, operator, operand);
    }
}

/// The grammar builds a chain only where an operator follows the first
/// operand: no tree that it answers holds an empty chain.
pub proof fn lemma_term_well_formed(text: Seq<char>, at: int)
    ensures
        answers_well_formed(term_in(text, at)),
{
    let primary = |t: Seq<char>, i: int| primary_in(t, i);
    let factor = |t: Seq<char>, i: int| factor_in(t, i);
    assert forall|t: Seq<char>, i: int| answers_well_formed(#[trigger] factor(t, i)) by {
        lemma_binary_well_formed(t, i, '*', Operator::Multiply, primary);
    }
    lemma_binary_well_formed(text, at, '+', Operator::Add, factor);
}

/// Every pair of `others` holds the operator `operator` with an operand of
/// which `level` holds.
pub open spec fn chain_of(
    others: Seq<(Operator, ExpressionView)>,
    operator: Operator,
    level: spec_fn(ExpressionView) -> bool,
) -> bool {
    forall|i: int|
        0 <= i < others.len() ==> (#[trigger] others[i]).0 == operator && level(others[i].1)
}

/// `tree` is an operand of which `level` holds, or a chain of such operands
/// with `operator` between them.
pub open spec fn level_of(
    tree: ExpressionView,
    operator: Operator,
    level: spec_fn(ExpressionView) -> bool,
) -> bool {
    ||| level(tree)
    ||| tree matches ExpressionView::Binary { first, others } && level(*first) && others.len() > 0
        && chain_of(others, operator, level)
}

/// `tree` is a literal.
pub open spec fn is_primary(tree: ExpressionView) -> bool {
    tree is Integer
}

/// `tree` is a literal or a product of literals.
pub open spec fn is_factor(tree: ExpressionView) -> bool {
    level_of(tree, Operator::Multiply, |t: ExpressionView| is_primary(t))
}

/// `tree` is a literal, a product of literals, or a sum of such: no sum
/// stands below a product.
pub open spec fn is_term(tree: ExpressionView) -> bool {
    level_of(tree, Operator::Add, |t: ExpressionView| is_factor(t))
}

/// `answer` is no match with a tree of which `level` does not hold.
pub open spec fn answers_level(answer: Located, level: spec_fn(ExpressionView) -> bool) -> bool {
    answer matches Ok(Some((tree, _))) ==> level(tree)
}

/// The pairs of a chain hold its operator and what its operand answers.
proof fn lemma_chain_level(
    text: Seq<char>,
    at: int,
    symbol: char,
    operator: Operator,
    operand: spec_fn(Seq<char>, int) -> Located,
    level: spec_fn(ExpressionView) -> bool,
)
    requires
        forall|t: Seq<char>, i: int| answers_level(#[trigger] operand(t, i), level),
    ensures
        chain_in(text, at, symbol, operator, operand) matches Ok((others, _)) ==> chain_of(
            others,
            operator,
            level,
        ),
    decreases text.len() - at,
{
    if 0 <= at < text.len() && text[at] == symbol {
        assert(answers_level(operand(text, at + 1), level));
        if let Ok(Some((_, next))) = operand(text, at + 1) {
            if at < next <= text.len() {
                lemma_chain_level(text, next, symbol, operator, operand, level);
            }
        }
    }
}

/// A level of the grammar answers an operand or a chain of operands with
/// its operator between them.
proof fn lemma_binary_level(
    text: Seq<char>,
    at: int,
    symbol: char,
    operator: Operator,
    operand: spec_fn(Seq<char>, int) -> Located,
    level: spec_fn(ExpressionView) -> bool,
)
    requires
        forall|t: Seq<char>, i: int| answers_level(#[trigger] operand(t, i), level),
    ensures
        answers_level(
            binary_in(text, at, symbol, operator, operand),
            |tree: ExpressionView| level_of(tree, operator, level),
        ),
{
    assert(answers_level(operand(text, at), level));
    if let Ok(Some((_, mid))) = operand(text, at) {
        lemma_chain_level(text, mid, symbol, operator, operand, level);
    }
}

/// Multiplication binds tighter than addition: the operands of a sum that
/// the grammar answers are literals and products of literals, and those of
/// a product are literals.
pub proof fn lemma_term_levels(text: Seq<char>, at: int)
    ensures
        term_in(text, at) matches Ok(Some((tree, _))) ==> is_term(tree),
{
    let primary = |t: Seq<char>, i: int| primary_in(t, i);
    let factor = |t: Seq<char>, i: int| factor_in(t, i);
    let literal = |tree: ExpressionView| is_primary(tree);
    let product = |tree: ExpressionView| is_factor(tree);
    assert forall|t: Seq<char>, i: int| answers_level(#[trigger] factor(t, i), product) by {
        lemma_binary_level(t, i, '*', Operator::Multiply, primary, literal);
    }
    lemma_binary_level(text, at, '+', Operator::Add, factor, product);
}

} // verus!
