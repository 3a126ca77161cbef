//! A small virtual machine for the eight-instruction tape language.
//!
//! Source text is turned into [`Tokens`], whose loop brackets are checked
//! by [`Tokens::verify_blocks`], and then executed one instruction at a
//! time by an [`Interpreter`]. The interpreter itself performs no I/O: each
//! step reports the byte it wants written or that it needs a byte read, and
//! the caller moves the bytes between the machine and its channels.
mod error;
mod token;

pub use error::BrainFuckError;
pub use token::{Token, Tokens};
mod interpreter;
mod builder;

pub use builder::{InterpreterBuilder, MAX_DATA_PTR};
pub use interpreter::{Action, Interpreter, MachineState};
