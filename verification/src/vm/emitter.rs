//! The builder of modules.
use crate::vm::instruction::Instruction;
use vstd::prelude::*;

verus! {

/// Collects the instructions of a module one by one.
#[derive(Debug, PartialEq, Eq)]
pub struct Emitter {
    pub instructions: Vec<Instruction>,
}

impl View for Emitter {
    type V = Seq<Instruction>;

    open spec fn view(&self) -> Seq<Instruction> {
        self.instructions@
    }
}

impl Emitter {
    /// An emitter that holds no instruction yet.
    pub fn new() -> (emitter: Self)
        ensures
            emitter@ == Seq::<Instruction>::empty(),
    {
        Self { instructions: Vec::new() }
    }

    /// Adds `instruction` behind those emitted so far.
    pub fn emit(&mut self, instruction: Instruction)
        ensures
            final(self)@ == old(self)@.push(instruction),
    {
        self.instructions.push(instruction);
    }
}

} // verus!
