//! The instruction set.
use vstd::prelude::*;

verus! {

/// What the machine can be told to do.
#[derive(Clone, Copy, Debug, PartialEq, Eq, Structural)]
pub enum Instruction {
    /// Push the value.
    PushInteger(i64),
    /// Pop the right operand, then the left one, and push their sum.
    Add,
    /// Pop the right operand, then the left one, and push their product.
    Multiply,
    /// Pop the result and stop.
    Halt,
}

} // verus!
