//! Step-by-step construction of an [`Interpreter`].
use crate::error::BrainFuckError;
use crate::interpreter::{Interpreter, MachineState};
use crate::token::{balanced, tokenize, Tokens};
use vstd::prelude::*;

verus! {

/// The tape length used when none is set.
pub const MAX_DATA_PTR: usize = 30_000;

/// The tape length that a builder with `max_data` set (or not) uses.
pub open spec fn tape_len(max_data: Option<usize>) -> nat {
    match max_data {
        Some(n) => n as nat,
        None => MAX_DATA_PTR as nat,
    }
}

/// `e` is a builder error whose message is `text`.
pub open spec fn is_build_error(e: BrainFuckError, text: Seq<char>) -> bool {
    match e {
        BrainFuckError::InterpreterBuildError(msg) => msg@ == text,
        _ => false,
    }
}

/// Collects a program and a tape length, then builds an [`Interpreter`].
pub struct InterpreterBuilder {
    tokens: Option<Tokens>,
    max_data: Option<usize>,
}

impl InterpreterBuilder {
    /// The program set so far, if any.
    pub closed spec fn spec_tokens(&self) -> Option<Seq<crate::token::Token>> {
        match self.tokens {
            Some(t) => Some(t@),
            None => None,
        }
    }

    /// The tape length set so far, if any.
    pub closed spec fn spec_max_data(&self) -> Option<usize> {
        self.max_data
    }

    /// A builder with nothing set.
    pub fn new() -> (r: Self)
        ensures
            r.spec_tokens() is None,
            r.spec_max_data() is None,
    {
        InterpreterBuilder { tokens: None, max_data: None }
    }

    /// Sets the number of cells on the tape (30,000 when not set).
    pub fn max_data(self, max_data: usize) -> (r: Self)
        ensures
            r.spec_tokens() == self.spec_tokens(),
            r.spec_max_data() == Some(max_data),
    {
        InterpreterBuilder { tokens: self.tokens, max_data: Some(max_data) }
    }

    /// Sets the program from its source text. Characters that are no
    /// instruction are skipped, so this never fails; the brackets are
    /// checked by `build`.
    pub fn tokens(self, value: &str) -> (r: Result<Self, BrainFuckError>)
        ensures
            r is Ok,
            r->Ok_0.spec_tokens() == Some(tokenize(value@)),
            r->Ok_0.spec_max_data() == self.spec_max_data(),
    {
        let tokens = Tokens::try_from(value)?;
        Ok(InterpreterBuilder { tokens: Some(tokens), max_data: self.max_data })
    }

    /// Builds a machine at the first instruction, on a tape of zeros.
    /// Fails without a program, on a program whose brackets do not pair
    /// up, and on a tape of no cells.
    pub fn build(self) -> (r: Result<Interpreter, BrainFuckError>)
        ensures
            self.spec_tokens() is None ==> r is Err && is_build_error(r->Err_0, "No tokens"@),
            self.spec_tokens() is Some && !balanced(self.spec_tokens()->0) ==> r == Err::<
                Interpreter,
                BrainFuckError,
            >(BrainFuckError::FailedToCompile),
            self.spec_tokens() is Some && balanced(self.spec_tokens()->0) && self.spec_max_data()
                == Some(0usize) ==> r is Err && is_build_error(r->Err_0, "Empty tape"@),
            self.spec_tokens() is Some && balanced(self.spec_tokens()->0) && self.spec_max_data()
                != Some(0usize) ==> r is Ok && r->Ok_0@ == (MachineState {
                tokens: self.spec_tokens()->0,
                data: Seq::new(tape_len(self.spec_max_data()), |i: int| 0u8),
                data_ptr: 0,
                ins_ptr: 0,
            }),
    {
        let tokens = match self.tokens {
            Some(t) => t,
            None => {
                return Err(BrainFuckError::InterpreterBuildError(String::from_str("No tokens")));
            },
        };
        tokens.verify_blocks()?;
        let max_data = match self.max_data {
            Some(n) => n,
            None => MAX_DATA_PTR,
        };
        if max_data == 0 {
            return Err(BrainFuckError::InterpreterBuildError(String::from_str("Empty tape")));
        }
        let data: Vec<u8> = vec![0u8; max_data];
        assert(data@ =~= Seq::new(max_data as nat, |i: int| 0u8));
        Ok(Interpreter::new(tokens, data))
    }
}

} // verus!
