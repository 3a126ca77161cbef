//! The machine: a tape of byte cells, a data pointer and an instruction
//! pointer, advanced one instruction per step.
use crate::builder::InterpreterBuilder;
use crate::error::BrainFuckError;
use crate::token::{balanced, delta, lemma_net_take_step, net, Token, Tokens};
use vstd::prelude::*;

verus! {

/// What the caller has to do after a step.
#[derive(Clone, Copy, Debug, PartialEq, Eq, Structural)]
pub enum Action {
    /// Nothing: the instruction only touched the tape or the pointers.
    Continue,
    /// Write this byte to the output channel.
    Write(u8),
    /// Read one byte from the input channel and hand it to `supply_input`.
    Read,
    /// Every instruction has run.
    Halt,
}

/// The state of a machine as plain values.
pub struct MachineState {
    pub tokens: Seq<Token>,
    pub data: Seq<u8>,
    pub data_ptr: usize,
    pub ins_ptr: usize,
}

/// A state the machine can be in: a tape of at least one cell, a data
/// pointer on it, and an instruction pointer at most one past the end.
pub open spec fn well_formed(m: MachineState) -> bool {
    &&& 0 < m.data.len()
    &&& m.data_ptr < m.data.len()
    &&& m.ins_ptr <= m.tokens.len()
}

/// `k` closes the loop whose body starts at `from`: scanning from `from`,
/// `k` is the first place where more loops have been closed than opened.
pub open spec fn is_forward_match(ts: Seq<Token>, from: int, k: int) -> bool {
    &&& 0 <= from <= k < ts.len()
    &&& net(ts.subrange(from, k + 1)) < 0
    &&& forall|j: int| from <= j < k ==> #[trigger] net(ts.subrange(from, j + 1)) >= 0
}

/// `k` opens the loop whose body ends at `from`: scanning backward from
/// `from`, `k` is the first place where more loops have been opened than
/// closed.
pub open spec fn is_backward_match(ts: Seq<Token>, from: int, k: int) -> bool {
    &&& 0 <= k <= from < ts.len()
    &&& net(ts.subrange(k, from + 1)) > 0
    &&& forall|j: int| k < j <= from ==> #[trigger] net(ts.subrange(j, from + 1)) <= 0
}

/// The closing bracket that ends a loop body starting at `from`, if any.
pub open spec fn forward_match(ts: Seq<Token>, from: int) -> Option<int> {
    if exists|k: int| is_forward_match(ts, from, k) {
        Some(choose|k: int| is_forward_match(ts, from, k))
    } else {
        None
    }
}

/// The opening bracket of a loop body ending at `from`, if any.
pub open spec fn backward_match(ts: Seq<Token>, from: int) -> Option<int> {
    if exists|k: int| is_backward_match(ts, from, k) {
        Some(choose|k: int| is_backward_match(ts, from, k))
    } else {
        None
    }
}

/// The state with the instruction pointer moved past position `k`.
pub open spec fn resume_after(m: MachineState, k: int) -> MachineState {
    MachineState { ins_ptr: (k + 1) as usize, ..m }
}

/// The state with the current cell set to `v`.
pub open spec fn with_cell(m: MachineState, v: u8) -> MachineState {
    MachineState { data: m.data.update(m.data_ptr as int, v), ..m }
}

/// The state with the data pointer set to `p`.
pub open spec fn with_data_ptr(m: MachineState, p: int) -> MachineState {
    MachineState { data_ptr: p as usize, ..m }
}

/// The machine waits on an input instruction.
pub open spec fn awaits_input(m: MachineState) -> bool {
    m.ins_ptr < m.tokens.len() && m.tokens[m.ins_ptr as int] == Token::Input
}

/// One step of the machine: the next state and what the caller must do,
/// or the error that stops the run.
pub open spec fn step_spec(m: MachineState) -> Result<(MachineState, Action), BrainFuckError> {
    let cell = m.data[m.data_ptr as int];
    let ip = m.ins_ptr as int;
    if ip >= m.tokens.len() {
        Ok((m, Action::Halt))
    } else {
        match m.tokens[ip] {
            Token::Enc => if cell == 255 {
                Err(BrainFuckError::DataOutOfRange(m.data_ptr))
            } else {
                Ok((resume_after(with_cell(m, (cell + 1) as u8), ip), Action::Continue))
            },
            Token::Dec => if cell == 0 {
                Err(BrainFuckError::DataOutOfRange(m.data_ptr))
            } else {
                Ok((resume_after(with_cell(m, (cell - 1) as u8), ip), Action::Continue))
            },
            Token::MoveLeft => if m.data_ptr == 0 {
                Err(BrainFuckError::DataPointerOutOfRange)
            } else {
                Ok((resume_after(with_data_ptr(m, m.data_ptr - 1), ip), Action::Continue))
            },
            Token::MoveRight => if m.data_ptr + 1 == m.data.len() {
                Err(BrainFuckError::DataPointerOutOfRange)
            } else {
                Ok((resume_after(with_data_ptr(m, m.data_ptr + 1), ip), Action::Continue))
            },
            Token::Output => Ok((resume_after(m, ip), Action::Write(cell))),
            Token::Input => Ok((m, Action::Read)),
            Token::BlockOpen => if cell == 0 {
                match forward_match(m.tokens, ip + 1) {
                    Some(k) => Ok((resume_after(m, k), Action::Continue)),
                    None => Err(BrainFuckError::FailedToCompile),
                }
            } else {
                Ok((resume_after(m, ip), Action::Continue))
            },
            Token::BlockClose => if cell > 0 {
                if ip == 0 {
                    Err(BrainFuckError::FailedToCompile)
                } else {
                    match backward_match(m.tokens, ip - 1) {
                        Some(k) => Ok((resume_after(m, k), Action::Continue)),
                        None => Err(BrainFuckError::FailedToCompile),
                    }
                }
            } else {
                Ok((resume_after(m, ip), Action::Continue))
            },
        }
    }
}

proof fn lemma_forward_match_unique(ts: Seq<Token>, from: int, k: int)
    requires
        is_forward_match(ts, from, k),
    ensures
        forward_match(ts, from) == Some(k),
{
    let c = choose|c: int| is_forward_match(ts, from, c);
    if c < k {
        assert(net(ts.subrange(from, c + 1)) >= 0);
    } else if c > k {
        assert(net(ts.subrange(from, k + 1)) >= 0);
    }
}

proof fn lemma_backward_match_unique(ts: Seq<Token>, from: int, k: int)
    requires
        is_backward_match(ts, from, k),
    ensures
        backward_match(ts, from) == Some(k),
{
    let c = choose|c: int| is_backward_match(ts, from, c);
    if c < k {
        assert(net(ts.subrange(k, from + 1)) <= 0);
    } else if c > k {
        assert(net(ts.subrange(c, from + 1)) <= 0);
    }
}

proof fn lemma_net_concat(a: Seq<Token>, b: Seq<Token>)
    ensures
        net(a + b) == net(a) + net(b),
    decreases b.len(),
{
    if b.len() > 0 {
        assert((a + b).drop_last() =~= a + b.drop_last());
        lemma_net_concat(a, b.drop_last());
    } else {
        assert(a + b =~= a);
    }
}

proof fn lemma_net_single(t: Token)
    ensures
        net(seq![t]) == delta(t),
{
    assert(seq![t].drop_last() =~= Seq::<Token>::empty());
    assert(net(Seq::<Token>::empty()) == 0);
    assert(seq![t].last() == t);
}

proof fn lemma_forward_match_exists(ts: Seq<Token>, from: int, e: int)
    requires
        0 <= from < e <= ts.len(),
        net(ts.subrange(from, e)) < 0,
    ensures
        forward_match(ts, from) is Some,
    decreases e - from,
{
    if exists|j: int| from <= j < e - 1 && #[trigger] net(ts.subrange(from, j + 1)) < 0 {
        let j = choose|j: int| from <= j < e - 1 && #[trigger] net(ts.subrange(from, j + 1)) < 0;
        lemma_forward_match_exists(ts, from, j + 1);
    } else {
        assert(is_forward_match(ts, from, e - 1));
    }
}

proof fn lemma_backward_match_exists(ts: Seq<Token>, from: int, s: int)
    requires
        0 <= s <= from < ts.len(),
        net(ts.subrange(s, from + 1)) > 0,
    ensures
        backward_match(ts, from) is Some,
    decreases from - s,
{
    if exists|j: int| s < j <= from && #[trigger] net(ts.subrange(j, from + 1)) > 0 {
        let j = choose|j: int| s < j <= from && #[trigger] net(ts.subrange(j, from + 1)) > 0;
        lemma_backward_match_exists(ts, from, j);
    } else {
        assert(is_backward_match(ts, from, s));
    }
}

/// An opening bracket whose loop is never closed makes a program
/// unbalanced, so the validator rejects it.
pub proof fn unmatched_open_is_rejected(ts: Seq<Token>, i: int)
    requires
        0 <= i < ts.len(),
        ts[i] == Token::BlockOpen,
        forward_match(ts, i + 1) is None,
    ensures
        !balanced(ts),
{
    if balanced(ts) {
        lemma_net_take_step(ts, i);
        assert(net(ts.take(i)) >= 0);
        lemma_net_concat(ts.take(i + 1), ts.subrange(i + 1, ts.len() as int));
        assert(ts.take(i + 1) + ts.subrange(i + 1, ts.len() as int) =~= ts);
        lemma_forward_match_exists(ts, i + 1, ts.len() as int);
    }
}

/// A closing bracket with no open loop before it makes a program
/// unbalanced, so the validator rejects it.
pub proof fn unmatched_close_is_rejected(ts: Seq<Token>, i: int)
    requires
        0 <= i < ts.len(),
        ts[i] == Token::BlockClose,
        i == 0 || backward_match(ts, i - 1) is None,
    ensures
        !balanced(ts),
{
    lemma_net_take_step(ts, i);
    assert(ts.take(0) =~= Seq::<Token>::empty());
    assert(net(ts.take(0)) == 0);
    if i > 0 && net(ts.take(i)) > 0 {
        assert(ts.subrange(0, i) =~= ts.take(i));
        lemma_backward_match_exists(ts, i - 1, 0);
    }
    assert(net(ts.take(i + 1)) < 0);
}

/// Once a program has passed the validator, every jump finds its
/// bracket: a step never fails with `FailedToCompile`.
pub proof fn balanced_program_never_fails_to_compile(m: MachineState)
    requires
        well_formed(m),
        balanced(m.tokens),
    ensures
        step_spec(m) != Err::<(MachineState, Action), BrainFuckError>(
            BrainFuckError::FailedToCompile,
        ),
{
    let ip = m.ins_ptr as int;
    if ip < m.tokens.len() {
        if m.tokens[ip] == Token::BlockOpen && forward_match(m.tokens, ip + 1) is None {
            unmatched_open_is_rejected(m.tokens, ip);
        }
        if m.tokens[ip] == Token::BlockClose && (ip == 0 || backward_match(m.tokens, ip - 1) is None) {
            unmatched_close_is_rejected(m.tokens, ip);
        }
    }
}

/// A running machine. It owns its program and its tape; the channels stay
/// with the caller, who acts on what each step returns.
pub struct Interpreter {
    tokens: Tokens,
    data_ptr: usize,
    data: Vec<u8>,
    ins_ptr: usize,
}

impl View for Interpreter {
    type V = MachineState;

    closed spec fn view(&self) -> MachineState {
        MachineState {
            tokens: self.tokens@,
            data: self.data@,
            data_ptr: self.data_ptr,
            ins_ptr: self.ins_ptr,
        }
    }
}

impl Interpreter {
    /// A builder with nothing set.
    pub fn builder() -> (r: InterpreterBuilder)
        ensures
            r.spec_tokens() is None,
            r.spec_max_data() is None,
    {
        InterpreterBuilder::new()
    }

    /// A machine at the first instruction and the first cell of `data`.
    pub fn new(tokens: Tokens, data: Vec<u8>) -> (r: Interpreter)
        requires
            data.len() > 0,
        ensures
            r@ == (MachineState { tokens: tokens@, data: data@, data_ptr: 0, ins_ptr: 0 }),
            well_formed(r@),
    {
        Interpreter { tokens, data, data_ptr: 0, ins_ptr: 0 }
    }

    /// The program being run.
    pub fn tokens(&self) -> (r: &Tokens)
        ensures
            r@ == self@.tokens,
    {
        &self.tokens
    }

    /// Runs the instruction at the instruction pointer. On an error the
    /// state is left as it was.
    pub fn step(&mut self) -> (r: Result<Action, BrainFuckError>)
        requires
            well_formed(old(self)@),
        ensures
            well_formed(final(self)@),
            match step_spec(old(self)@) {
                Ok((m, a)) => r == Ok::<Action, BrainFuckError>(a) && final(self)@ == m,
                Err(e) => r == Err::<Action, BrainFuckError>(e) && final(self)@ == old(self)@,
            },
    {
        let ins_ptr = self.ins_ptr;
        if ins_ptr >= self.tokens.0.len() {
            return Ok(Action::Halt);
        }
        let cell = self.data[self.data_ptr];
        let action = match self.tokens.0[ins_ptr] {
            Token::Enc => {
                self.enc_data()?;
                Action::Continue
            },
            Token::Dec => {
                self.dec_data()?;
                Action::Continue
            },
            Token::MoveLeft => {
                self.shift_left()?;
                Action::Continue
            },
            Token::MoveRight => {
                self.shift_right()?;
                Action::Continue
            },
            Token::Output => Action::Write(cell),
            Token::Input => {
                return Ok(Action::Read);
            },
            Token::BlockOpen => {
                if cell == 0 {
                    let end = self.find_next_matching(ins_ptr + 1)?;
                    self.ins_ptr = end;
                }
                Action::Continue
            },
            Token::BlockClose => {
                if cell > 0 {
                    if ins_ptr == 0 {
                        return Err(BrainFuckError::FailedToCompile);
                    }
                    let start = self.find_prev_matching(ins_ptr - 1)?;
                    self.ins_ptr = start;
                }
                Action::Continue
            },
        };
        self.ins_ptr = self.ins_ptr + 1;
        Ok(action)
    }

    /// Completes a pending input instruction with the byte that was read:
    /// stores it in the current cell and moves past the instruction.
    /// Returns false, and changes nothing, when no input is pending.
    pub fn supply_input(&mut self, byte: u8) -> (r: bool)
        requires
            well_formed(old(self)@),
        ensures
            well_formed(final(self)@),
            r == awaits_input(old(self)@),
            r ==> final(self)@ == resume_after(with_cell(old(self)@, byte), old(self)@.ins_ptr as int),
            !r ==> final(self)@ == old(self)@,
    {
        if self.ins_ptr < self.tokens.0.len() {
            if let Token::Input = self.tokens.0[self.ins_ptr] {
                self.data.set(self.data_ptr, byte);
                self.ins_ptr = self.ins_ptr + 1;
                return true;
            }
        }
        false
    }

    /// Adds one to the current cell, or fails where it holds 255.
    fn enc_data(&mut self) -> (r: Result<(), BrainFuckError>)
        requires
            well_formed(old(self)@),
        ensures
            final(self).ins_ptr == old(self).ins_ptr,
            old(self).data[old(self).data_ptr as int] == 255 ==> r == Err::<(), BrainFuckError>(
                BrainFuckError::DataOutOfRange(old(self).data_ptr),
            ) && final(self)@ == old(self)@,
            old(self).data[old(self).data_ptr as int] < 255 ==> r is Ok && final(self)@ == with_cell(
                old(self)@,
                (old(self).data[old(self).data_ptr as int] + 1) as u8,
            ),
    {
        let v = self.data[self.data_ptr];
        if v == u8::MAX {
            return Err(BrainFuckError::DataOutOfRange(self.data_ptr));
        }
        self.data.set(self.data_ptr, v + 1);
        Ok(())
    }

    /// Takes one from the current cell, or fails where it holds 0.
    fn dec_data(&mut self) -> (r: Result<(), BrainFuckError>)
        requires
            well_formed(old(self)@),
        ensures
            final(self).ins_ptr == old(self).ins_ptr,
            old(self).data[old(self).data_ptr as int] == 0 ==> r == Err::<(), BrainFuckError>(
                BrainFuckError::DataOutOfRange(old(self).data_ptr),
            ) && final(self)@ == old(self)@,
            old(self).data[old(self).data_ptr as int] > 0 ==> r is Ok && final(self)@ == with_cell(
                old(self)@,
                (old(self).data[old(self).data_ptr as int] - 1) as u8,
            ),
    {
        let v = self.data[self.data_ptr];
        if v == 0 {
            return Err(BrainFuckError::DataOutOfRange(self.data_ptr));
        }
        self.data.set(self.data_ptr, v - 1);
        Ok(())
    }

    /// Moves the data pointer one cell left, or fails at the first cell.
    fn shift_left(&mut self) -> (r: Result<(), BrainFuckError>)
        requires
            well_formed(old(self)@),
        ensures
            final(self).ins_ptr == old(self).ins_ptr,
            old(self).data_ptr == 0 ==> r == Err::<(), BrainFuckError>(
                BrainFuckError::DataPointerOutOfRange,
            ) && final(self)@ == old(self)@,
            old(self).data_ptr > 0 ==> r is Ok && final(self)@ == with_data_ptr(
                old(self)@,
                old(self).data_ptr - 1,
            ),
    {
        if self.data_ptr == 0 {
            return Err(BrainFuckError::DataPointerOutOfRange);
        }
        self.data_ptr = self.data_ptr - 1;
        Ok(())
    }

    /// Moves the data pointer one cell right, or fails at the last cell.
    fn shift_right(&mut self) -> (r: Result<(), BrainFuckError>)
        requires
            well_formed(old(self)@),
        ensures
            final(self).ins_ptr == old(self).ins_ptr,
            old(self).data_ptr + 1 == old(self).data.len() ==> r == Err::<(), BrainFuckError>(
                BrainFuckError::DataPointerOutOfRange,
            ) && final(self)@ == old(self)@,
            old(self).data_ptr + 1 < old(self).data.len() ==> r is Ok && final(self)@
                == with_data_ptr(old(self)@, old(self).data_ptr + 1),
    {
        let len = self.data.len();
        if self.data_ptr + 1 == len {
            return Err(BrainFuckError::DataPointerOutOfRange);
        }
        self.data_ptr = self.data_ptr + 1;
        Ok(())
    }

    /// The closing bracket of the loop whose body starts at `from`: the
    /// first closing bracket at depth zero, counting from `from`.
    fn find_next_matching(&self, from: usize) -> (r: Result<usize, BrainFuckError>)
        requires
            from <= self.tokens@.len(),
        ensures
            match r {
                Ok(k) => forward_match(self.tokens@, from as int) == Some(k as int),
                Err(e) => forward_match(self.tokens@, from as int) is None && e
                    == BrainFuckError::FailedToCompile,
            },
    {
        let ghost ts = self.tokens@;
        let n = self.tokens.0.len();
        let mut enc: usize = 0;
        let mut i: usize = from;
        while i < n
            invariant
                ts == self.tokens@,
                n == ts.len(),
                from <= i <= n,
                enc as int == net(ts.subrange(from as int, i as int)),
                enc <= i - from,
                forall|j: int| from <= j < i ==> #[trigger] net(ts.subrange(from as int, j + 1)) >= 0,
            decreases n - i,
        {
            proof {
                lemma_net_concat(ts.subrange(from as int, i as int), seq![ts[i as int]]);
                lemma_net_single(ts[i as int]);
                assert(ts.subrange(from as int, i as int) + seq![ts[i as int]] =~= ts.subrange(
                    from as int,
                    i + 1,
                ));
            }
            match self.tokens.0[i] {
                Token::BlockClose => {
                    if enc == 0 {
                        assert(is_forward_match(ts, from as int, i as int));
                        proof {
                            lemma_forward_match_unique(ts, from as int, i as int);
                        }
                        return Ok(i);
                    }
                    enc -= 1;
                },
                Token::BlockOpen => enc += 1,
                _ => {},
            }
            i += 1;
        }
        assert forall|k: int| !is_forward_match(ts, from as int, k) by {
            if is_forward_match(ts, from as int, k) {
                assert(net(ts.subrange(from as int, k + 1)) >= 0);
            }
        }
        Err(BrainFuckError::FailedToCompile)
    }

    /// The opening bracket of the loop whose body ends at `from`: the first
    /// opening bracket at depth zero, counting backward from `from`.
    fn find_prev_matching(&self, from: usize) -> (r: Result<usize, BrainFuckError>)
        requires
            from < self.tokens@.len(),
        ensures
            match r {
                Ok(k) => backward_match(self.tokens@, from as int) == Some(k as int),
                Err(e) => backward_match(self.tokens@, from as int) is None && e
                    == BrainFuckError::FailedToCompile,
            },
    {
        let ghost ts = self.tokens@;
        let n = self.tokens.0.len();
        let ghost end = from + 1;
        let mut enc: usize = 0;
        let mut i: usize = from + 1;
        while i > 0
            invariant
                ts == self.tokens@,
                from < ts.len(),
                n == ts.len(),
                end == from + 1,
                i <= end,
                enc as int == -net(ts.subrange(i as int, end)),
                enc <= end - i,
                forall|j: int| i <= j <= from ==> #[trigger] net(ts.subrange(j, end)) <= 0,
            decreases i,
        {
            i -= 1;
            proof {
                lemma_net_concat(seq![ts[i as int]], ts.subrange(i + 1, end));
                lemma_net_single(ts[i as int]);
                assert(seq![ts[i as int]] + ts.subrange(i + 1, end) =~= ts.subrange(i as int, end));
            }
            match self.tokens.0[i] {
                Token::BlockOpen => {
                    if enc == 0 {
                        assert(is_backward_match(ts, from as int, i as int));
                        proof {
                            lemma_backward_match_unique(ts, from as int, i as int);
                        }
                        return Ok(i);
                    }
                    enc -= 1;
                },
                Token::BlockClose => enc += 1,
                _ => {},
            }
        }
        assert forall|k: int| !is_backward_match(ts, from as int, k) by {
            if is_backward_match(ts, from as int, k) {
                assert(net(ts.subrange(k, end)) <= 0);
            }
        }
        Err(BrainFuckError::FailedToCompile)
    }
}

} // verus!
