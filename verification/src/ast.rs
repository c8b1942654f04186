//! The syntax tree of the language and the numbers that its expressions denote.
use vstd::arithmetic::div_mod::{lemma_fundamental_div_mod, lemma_mod_multiples_basic};
use vstd::prelude::*;

verus! {

/// The two binary operators of the language.
#[derive(Clone, Copy, Debug, PartialEq, Eq, Structural)]
pub enum Operator {
    Add,
    Multiply,
}

/// An expression: a literal, or a chain of operands of one precedence level
/// that groups to the left. The parser builds a chain only where at least one
/// operator follows the first operand.
#[derive(Debug, PartialEq, Eq)]
pub enum Expression {
    Integer(i64),
    Binary { first: Box<Expression>, others: Vec<(Operator, Expression)> },
}

/// An expression as a mathematical tree: what [`Expression`] is, with a
/// sequence in place of the vector.
pub enum ExpressionView {
    Integer(i64),
    Binary { first: Box<ExpressionView>, others: Seq<(Operator, ExpressionView)> },
}

impl Expression {
    /// The tree that this expression stands for.
    pub open spec fn tree(&self) -> ExpressionView
        decreases self,
    {
        match self {
            Expression::Integer(value) => ExpressionView::Integer(*value),
            Expression::Binary { first, others } => ExpressionView::Binary {
                first: Box::new(first.tree()),
                others: Seq::new(
                    others@.len(),
                    |i: int|
                        if 0 <= i < others@.len() {
                            (others@[i].0, others@[i].1.tree())
                        } else {
                            arbitrary()
                        },
                ),
            },
        }
    }
}

impl View for Expression {
    type V = ExpressionView;

    open spec fn view(&self) -> ExpressionView {
        self.tree()
    }
}

/// No chain in `tree` is empty: behind the first operand of each stands at
/// least one operator with its operand. The parser answers no other trees.
pub open spec fn well_formed(tree: ExpressionView) -> bool
    decreases tree,
{
    match tree {
        ExpressionView::Integer(_) => true,
        ExpressionView::Binary { first, others } => {
            &&& others.len() > 0
            &&& well_formed(*first)
            &&& forall|i: int| 0 <= i < others.len() ==> well_formed(#[trigger] others[i].1)
        },
    }
}

/// The trees of the operands of a chain, each with its operator.
pub open spec fn pairs_view(pairs: Seq<(Operator, Expression)>) -> Seq<(Operator, ExpressionView)> {
    Seq::new(pairs.len(), |i: int| (pairs[i].0, pairs[i].1@))
}

/// `left operator right` in 64-bit signed arithmetic that wraps round.
pub open spec fn apply(operator: Operator, left: i64, right: i64) -> i64 {
    match operator {
        Operator::Add => left.wrapping_add(right),
        Operator::Multiply => left.wrapping_mul(right),
    }
}

/// The arithmetic wraps round: what `apply` gives is a 64-bit signed number
/// that differs from the true sum or product by a multiple of 2^64. No
/// operands are refused for being too large.
pub proof fn lemma_apply_wraps(operator: Operator, left: i64, right: i64)
    ensures
        operator == Operator::Add ==> (apply(operator, left, right) - (left + right))
            % 0x1_0000_0000_0000_0000 == 0,
        operator == Operator::Multiply ==> (apply(operator, left, right) - left * right)
            % 0x1_0000_0000_0000_0000 == 0,
{
    if operator == Operator::Multiply {
        let m = 0x1_0000_0000_0000_0000int;
        let product = left * right;
        let q = product / m;
        let d = apply(operator, left, right) - product;
        lemma_fundamental_div_mod(product, m);
        assert(d == (-q) * m || d == (-q - 1) * m) by (nonlinear_arith)
            requires
                product == m * q + product % m,
                d == product % m - product || d == product % m - m - product,
        ;
        lemma_mod_multiples_basic(-q, m);
        lemma_mod_multiples_basic(-q - 1, m);
    }
}

/// The number that an expression denotes: a chain is folded from the left,
/// each operand into what the operands before it have come to.
pub open spec fn value(e: ExpressionView) -> i64
    decreases e, 0nat,
{
    match e {
        ExpressionView::Integer(v) => v,
        ExpressionView::Binary { first, others } => chain_value(value(*first), others),
    }
}

/// `acc` with the operands of `others` folded into it from the left.
pub open spec fn chain_value(acc: i64, others: Seq<(Operator, ExpressionView)>) -> i64
    decreases others, 1nat,
{
    if others.len() == 0 {
        acc
    } else {
        chain_value(apply(others[0].0, acc, value(others[0].1)), others.drop_first())
    }
}

/// A chain groups to the left: one more pair behind it is applied to what
/// the chain before it has come to.
pub proof fn lemma_chain_groups_left(
    acc: i64,
    others: Seq<(Operator, ExpressionView)>,
    operator: Operator,
    operand: ExpressionView,
)
    ensures
        chain_value(acc, others.push((operator, operand))) == apply(
            operator,
            chain_value(acc, others),
            value(operand),
        ),
    decreases others.len(),
{
    let longer = others.push((operator, operand));
    if others.len() == 0 {
        let only = apply(operator, acc, value(operand));
        assert(chain_value(only, longer.drop_first()) == only);
    } else {
        let next = apply(others[0].0, acc, value(others[0].1));
        assert(longer.drop_first() =~= others.drop_first().push((operator, operand)));
        lemma_chain_groups_left(next, others.drop_first(), operator, operand);
    }
}

/// The 64 bits of `value` read as a signed number.
pub open spec fn signed(value: u64) -> i64 {
    if value <= i64::MAX {
        value as i64
    } else {
        (value - 0x1_0000_0000_0000_0000) as i64
    }
}

/// Reads the 64 bits of `value` as a signed number.
pub(crate) fn to_signed(value: u64) -> (v: i64)
    ensures
        v == signed(value),
{
    let v = #[verifier::truncate] (value as i64);
    assert(v == (if value <= 0x7fff_ffff_ffff_ffff {
        value as int
    } else {
        value - 0x1_0000_0000_0000_0000
    })) by (bit_vector)
        requires
            v == value as i64,
    ;
    v
}

} // verus!
