//! Compiled programs.
use crate::fault::Fault;
use crate::vm::emitter::Emitter;
use crate::vm::instruction::Instruction;
use vstd::prelude::*;
use vstd::std_specs::convert::FromSpecImpl;

verus! {

/// A compiled program: instructions in the order in which they run.
#[derive(Debug, PartialEq, Eq)]
pub struct Module {
    instructions: Vec<Instruction>,
}

impl View for Module {
    type V = Seq<Instruction>;

    closed spec fn view(&self) -> Seq<Instruction> {
        self.instructions@
    }
}

impl From<Emitter> for Module {
    /// The module of the instructions that `value` has collected.
    fn from(value: Emitter) -> (module: Module)
        ensures
            module@ == value@,
    {
        Module { instructions: value.instructions }
    }
}

impl FromSpecImpl<Emitter> for Module {
    open spec fn obeys_from_spec() -> bool {
        true
    }

    closed spec fn from_spec(value: Emitter) -> Module {
        Module { instructions: value.instructions }
    }
}

impl Module {
    /// A module is never longer than an index can tell.
    pub proof fn lemma_len(&self)
        ensures
            self@.len() <= usize::MAX,
    {
        vstd::std_specs::vec::axiom_spec_len(&self.instructions);
    }

    /// The instruction at `index`; past the last one, the fault of a
    /// program counter that left the module.
    pub fn get(&self, index: usize) -> (r: Result<&Instruction, Fault>)
        ensures
            r == if index < self@.len() {
                Ok::<&Instruction, Fault>(&self@[index as int])
            } else {
                Err::<&Instruction, Fault>(Fault::OutOfBounds)
            },
    {
        if index < self.instructions.len() {
            Ok(&self.instructions[index])
        } else {
            Err(Fault::OutOfBounds)
        }
    }
}

} // verus!
