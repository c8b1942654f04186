//! The compiler from syntax trees to instructions, with the proof that the
//! code of an expression computes the value of the expression.
use crate::ast::{apply, chain_value, pairs_view, value, Expression, ExpressionView, Operator};
use crate::vm::emitter::Emitter;
use crate::vm::instruction::Instruction;
use crate::vm::state::{arithmetic, initial, run, StateView};
use vstd::prelude::*;

verus! {

/// The instruction that computes `operator`.
pub open spec fn instruction_of(operator: Operator) -> Instruction {
    match operator {
        Operator::Add => Instruction::Add,
        Operator::Multiply => Instruction::Multiply,
    }
}

/// The instructions that leave the value of `e` on top of the stack: a push
/// for a literal; for a chain the code of its first operand, then the code
/// of each further operand with the instruction of its operator behind it.
pub open spec fn code_of(e: ExpressionView) -> Seq<Instruction>
    decreases e, 0nat,
{
    match e {
        ExpressionView::Integer(value) => seq![Instruction::PushInteger(value)],
        ExpressionView::Binary { first, others } => code_of(*first) + chain_code(others),
    }
}

/// The code of the operands of `others`, each with the instruction of its
/// operator behind it.
pub open spec fn chain_code(others: Seq<(Operator, ExpressionView)>) -> Seq<Instruction>
    decreases others, 1nat,
{
    if others.len() == 0 {
        Seq::empty()
    } else {
        code_of(others[0].1).push(instruction_of(others[0].0)) + chain_code(others.drop_first())
    }
}

/// The code of a chain of pairs is the code of its first pairs with the code
/// of the rest behind it.
pub proof fn lemma_chain_code_add(
    front: Seq<(Operator, ExpressionView)>,
    back: Seq<(Operator, ExpressionView)>,
)
    ensures
        chain_code(front + back) == chain_code(front) + chain_code(back),
    decreases front.len(),
{
    if front.len() > 0 {
        lemma_chain_code_add(front.drop_first(), back);
        assert((front + back).drop_first() =~= front.drop_first() + back);
    }
}

/// Emits the code of `expression` behind what `emitter` holds.
pub fn compile(expression: &Expression, emitter: &mut Emitter)
    ensures
        final(emitter)@ == old(emitter)@ + code_of(expression@),
    decreases expression,
{
    match expression {
        Expression::Integer(value) => {
            emitter.emit(Instruction::PushInteger(*value));
        },
        Expression::Binary { first, others } => {
            compile(first, emitter);
            let ghost pairs = pairs_view(others@);
            assert(expression@->others =~= pairs);
            for i in 0..others.len()
                invariant
                    pairs == pairs_view(others@),
                    expression is Binary,
                    expression->others == others,
                    emitter@ == old(emitter)@ + code_of(first@) + chain_code(pairs.take(i as int)),
            {
                let operator = others[i].0;
                compile(&others[i].1, emitter);
                let instruction = match operator {
                    Operator::Add => Instruction::Add,
                    Operator::Multiply => Instruction::Multiply,
                };
                emitter.emit(instruction);
                proof {
                    let pair = seq![pairs[i as int]];
                    lemma_chain_code_add(pairs.take(i as int), pair);
                    assert(pairs.take(i + 1) =~= pairs.take(i as int) + pair);
                    assert(chain_code(pair.drop_first()) =~= Seq::empty());
                }
            }
            assert(pairs.take(others.len() as int) =~= pairs);
        },
    }
}

/// The code of an expression holds no `Halt`: the one that ends a program is
/// the only one in it.
pub proof fn lemma_code_never_halts(e: ExpressionView, i: int)
    requires
        0 <= i < code_of(e).len(),
    ensures
        code_of(e)[i] != Instruction::Halt,
    decreases e, 0nat,
{
    match e {
        ExpressionView::Integer(_) => {},
        ExpressionView::Binary { first, others } => {
            if i < code_of(*first).len() {
                lemma_code_never_halts(*first, i);
            } else {
                lemma_chain_code_never_halts(others, i - code_of(*first).len());
            }
        },
    }
}

/// The code of a chain of pairs holds no `Halt`.
pub proof fn lemma_chain_code_never_halts(others: Seq<(Operator, ExpressionView)>, i: int)
    requires
        0 <= i < chain_code(others).len(),
    ensures
        chain_code(others)[i] != Instruction::Halt,
    decreases others, 1nat,
{
    let head = code_of(others[0].1);
    if i < head.len() {
        lemma_code_never_halts(others[0].1, i);
    } else if i > head.len() {
        lemma_chain_code_never_halts(others.drop_first(), i - head.len() - 1);
    }
}

/// `code` holds `part` from index `at` on.
pub open spec fn holds_at(code: Seq<Instruction>, at: int, part: Seq<Instruction>) -> bool {
    0 <= at && at + part.len() <= code.len() && code.subrange(at, at + part.len()) == part
}

/// A program that holds `front + back` holds `front` at the same index and
/// `back` behind it.
proof fn lemma_holds_parts(
    code: Seq<Instruction>,
    at: int,
    front: Seq<Instruction>,
    back: Seq<Instruction>,
)
    requires
        holds_at(code, at, front + back),
    ensures
        holds_at(code, at, front),
        holds_at(code, at + front.len(), back),
{
    let whole = front + back;
    let end = at + whole.len();
    assert(code.subrange(at, at + front.len()) =~= code.subrange(at, end).subrange(
        0,
        front.len() as int,
    ));
    assert(whole.subrange(0, front.len() as int) =~= front);
    assert(code.subrange(at + front.len(), end) =~= code.subrange(at, end).subrange(
        front.len() as int,
        whole.len() as int,
    ));
    assert(whole.subrange(front.len() as int, whole.len() as int) =~= back);
}

/// Where the code of `e` stands in a program, a run that has come to it
/// goes on behind it with the value of `e` pushed.
pub proof fn lemma_code_runs(code: Seq<Instruction>, e: ExpressionView, state: StateView)
    requires
        holds_at(code, state.instruction_index as int, code_of(e)),
    ensures
        run(code, state) == run(
            code,
            StateView {
                stack: state.stack.push(value(e)),
                instruction_index: state.instruction_index + code_of(e).len(),
            },
        ),
    decreases e, 0nat,
{
    let at = state.instruction_index as int;
    match e {
        ExpressionView::Integer(v) => {
            assert(code[at] == code.subrange(at, at + 1)[0]);
        },
        ExpressionView::Binary { first, others } => {
            lemma_holds_parts(code, at, code_of(*first), chain_code(others));
            lemma_code_runs(code, *first, state);
            let pushed = StateView {
                stack: state.stack.push(value(*first)),
                instruction_index: state.instruction_index + code_of(*first).len(),
            };
            lemma_chain_runs(code, others, pushed, state.stack, value(*first));
        },
    }
}

/// Where the code of the pairs `others` stands in a program, a run that has
/// come to it with `acc` on top of the stack goes on behind it with the
/// pairs folded into `acc`.
pub proof fn lemma_chain_runs(
    code: Seq<Instruction>,
    others: Seq<(Operator, ExpressionView)>,
    state: StateView,
    below: Seq<i64>,
    acc: i64,
)
    requires
        holds_at(code, state.instruction_index as int, chain_code(others)),
        state.stack == below.push(acc),
    ensures
        run(code, state) == run(
            code,
            StateView {
                stack: below.push(chain_value(acc, others)),
                instruction_index: state.instruction_index + chain_code(others).len(),
            },
        ),
    decreases others, 1nat,
{
    if others.len() > 0 {
        let at = state.instruction_index as int;
        let operator = others[0].0;
        let operand = others[0].1;
        let head = code_of(operand);
        let instruction = seq![instruction_of(operator)];
        assert(head.push(instruction_of(operator)) =~= head + instruction);
        lemma_holds_parts(code, at, head + instruction, chain_code(others.drop_first()));
        lemma_holds_parts(code, at, head, instruction);
        assert(code[at + head.len()] == code.subrange(at + head.len(), at + head.len() + 1)[0]);
        lemma_code_runs(code, operand, state);
        let pushed = StateView {
            stack: state.stack.push(value(operand)),
            instruction_index: state.instruction_index + head.len(),
        };
        let folded = apply(operator, acc, value(operand));
        let next = StateView {
            stack: below.push(folded),
            instruction_index: pushed.instruction_index + 1,
        };
        assert(pushed.stack.take(pushed.stack.len() - 2) =~= below);
        lemma_chain_runs(code, others.drop_first(), next, below, folded);
    }
}

/// The program of an expression runs to the value of the expression, and
/// halts with the stack empty.
pub proof fn theorem_program_runs(e: ExpressionView)
    ensures
        run(code_of(e).push(Instruction::Halt), initial()) == (
            Ok::<i64, crate::fault::Fault>(value(e)),
            StateView { stack: Seq::empty(), instruction_index: code_of(e).len() + 1 },
        ),
{
    let program = code_of(e).push(Instruction::Halt);
    assert(program.subrange(0, code_of(e).len() as int) =~= code_of(e));
    lemma_code_runs(program, e, initial());
    let done = StateView {
        stack: initial().stack.push(value(e)),
        instruction_index: code_of(e).len(),
    };
    assert(done.stack.drop_last() =~= Seq::empty());
}

} // verus!
