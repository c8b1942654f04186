//! The stack machine: its instructions, its programs and the state it runs in.
pub mod emitter;
pub mod instruction;
pub mod module;
pub mod state;

pub use emitter::Emitter;
pub use instruction::Instruction;
pub use module::Module;
pub use state::State;
