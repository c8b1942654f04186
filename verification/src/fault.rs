//! The faults that end an evaluation.
use vstd::prelude::*;

verus! {

/// A fatal condition that ends an evaluation. A parser that merely does not
/// match is no fault: it answers `None` and the caller may try something else.
#[derive(Clone, Copy, Debug, PartialEq, Eq, Structural)]
pub enum Fault {
    /// The program counter left the module.
    OutOfBounds,
    /// An instruction needed an operand and the stack was empty.
    StackUnderflow,
    /// An expression was required at `position` and none starts there.
    GrammarViolation { position: usize },
    /// A complete expression ends at `position`, where `found` still follows.
    TrailingInput { position: usize, found: char },
}

} // verus!
