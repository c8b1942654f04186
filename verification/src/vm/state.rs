//! The running machine and what a run comes to.
use crate::fault::Fault;
use crate::vm::instruction::Instruction;
use crate::vm::module::Module;
use vstd::prelude::*;

verus! {

/// The machine while it runs a module: the operand stack, its top last, and
/// the index of the instruction that comes next.
#[derive(Debug, PartialEq, Eq)]
pub struct State {
    stack: Vec<i64>,
    instruction_index: usize,
}

/// A state of the machine as a mathematical value.
pub struct StateView {
    pub stack: Seq<i64>,
    pub instruction_index: nat,
}

impl View for State {
    type V = StateView;

    closed spec fn view(&self) -> StateView {
        StateView { stack: self.stack@, instruction_index: self.instruction_index as nat }
    }
}

/// The state in which a run starts: nothing on the stack, the first
/// instruction next.
pub open spec fn initial() -> StateView {
    StateView { stack: Seq::empty(), instruction_index: 0 }
}

/// What `Add` and `Multiply` make of their operands; the arithmetic is that
/// of 64-bit signed numbers and wraps round.
pub open spec fn arithmetic(instruction: Instruction, left: i64, right: i64) -> i64 {
    match instruction {
        Instruction::Multiply => left.wrapping_mul(right),
        _ => left.wrapping_add(right),
    }
}

/// A run of `code` from `state`: what it returns, and the state in which the
/// machine stops. It stops at `Halt`, which pops the result, or at a fault:
/// when the next instruction lies outside `code`, or when an instruction pops
/// from the empty stack, after whatever it had popped before.
pub open spec fn run(code: Seq<Instruction>, state: StateView) -> (Result<i64, Fault>, StateView)
    decreases code.len() - state.instruction_index,
{
    if state.instruction_index >= code.len() {
        (Err(Fault::OutOfBounds), state)
    } else {
        let instruction = code[state.instruction_index as int];
        let stack = state.stack;
        let next = state.instruction_index + 1;
        let underflow = (
            Err(Fault::StackUnderflow),
            StateView { stack: Seq::empty(), instruction_index: next },
        );
        match instruction {
            Instruction::PushInteger(value) => run(
                code,
                StateView { stack: stack.push(value), instruction_index: next },
            ),
            Instruction::Add | Instruction::Multiply => if stack.len() >= 2 {
                let right = stack[stack.len() - 1];
                let left = stack[stack.len() - 2];
                run(
                    code,
                    StateView {
                        stack: stack.take(stack.len() - 2).push(
                            arithmetic(instruction, left, right),
                        ),
                        instruction_index: next,
                    },
                )
            } else {
                underflow
            },
            Instruction::Halt => if stack.len() >= 1 {
                (Ok(stack.last()), StateView { stack: stack.drop_last(), instruction_index: next })
            } else {
                underflow
            },
        }
    }
}

impl State {
    /// A machine ready to run a module from its first instruction.
    pub fn new() -> (state: Self)
        ensures
            state@ == initial(),
    {
        Self { stack: Vec::new(), instruction_index: 0 }
    }

    /// Puts `value` on top of the stack.
    fn push(&mut self, value: i64)
        ensures
            final(self)@ == (StateView { stack: old(self)@.stack.push(value), ..old(self)@ }),
    {
        self.stack.push(value);
    }

    /// Takes the top of the stack; a fault where the stack is empty.
    fn pop(&mut self) -> (r: Result<i64, Fault>)
        ensures
            old(self)@.stack.len() > 0 ==> r == Ok::<i64, Fault>(old(self)@.stack.last())
                && final(self)@ == (StateView {
                stack: old(self)@.stack.drop_last(),
                ..old(self)@
            }),
            old(self)@.stack.len() == 0 ==> r == Err::<i64, Fault>(Fault::StackUnderflow)
                && final(self)@ == old(self)@,
    {
        match self.stack.pop() {
            Some(value) => Ok(value),
            None => Err(Fault::StackUnderflow),
        }
    }

    /// Runs `module` from this state on, to its `Halt` or to a fault.
    pub fn exec(&mut self, module: &Module) -> (r: Result<i64, Fault>)
        ensures
            (r, final(self)@) == run(module@, old(self)@),
    {
        loop
            invariant
                run(module@, self@) == run(module@, old(self)@),
            decreases module@.len() - self@.instruction_index,
        {
            let instruction = match module.get(self.instruction_index) {
                Ok(instruction) => *instruction,
                Err(fault) => {
                    return Err(fault);
                },
            };
            proof {
                module.lemma_len();
            }
            let ghost before = self@;
            self.instruction_index += 1;
            match instruction {
                Instruction::PushInteger(value) => self.push(value),
                Instruction::Add | Instruction::Multiply => {
                    let right = match self.pop() {
                        Ok(value) => value,
                        Err(fault) => {
                            assert(self@.stack =~= Seq::empty());
                            return Err(fault);
                        },
                    };
                    let left = match self.pop() {
                        Ok(value) => value,
                        Err(fault) => {
                            assert(self@.stack =~= Seq::empty());
                            return Err(fault);
                        },
                    };
                    assert(self@.stack =~= before.stack.take(before.stack.len() - 2));
                    self.push(
                        match instruction {
                            Instruction::Multiply => left.wrapping_mul(right),
                            _ => left.wrapping_add(right),
                        },
                    );
                },
                Instruction::Halt => {
                    let r = self.pop();
                    assert(r is Err ==> self@.stack =~= Seq::empty());
                    return r;
                },
            }
        }
    }
}

} // verus!
