//! Errors of the tokenizer, the validator, the builder and the machine.
use vstd::prelude::*;

verus! {

/// Everything that can go wrong while preparing or running a program.
#[derive(Debug, Clone, PartialEq, PartialOrd)]
pub enum BrainFuckError {
    /// A character that is not one of the eight instructions.
    BadToken(char),
    /// A cell would leave `0..=255`; carries the cell's index.
    DataOutOfRange(usize),
    /// The data pointer would leave the tape.
    DataPointerOutOfRange,
    /// A loop bracket without its partner.
    FailedToCompile,
    /// The builder was asked to build without a required part.
    InterpreterBuildError(String),
    /// The command line could not be understood.
    BadArgs,
}

} // verus!
