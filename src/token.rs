//! The eight instructions, the tokenizer and the bracket validator.
use crate::error::BrainFuckError;
use vstd::prelude::*;

verus! {

/// One instruction of the language.
#[derive(Clone, Copy, Debug, PartialEq, Eq, Structural)]
pub enum Token {
    Enc,
    Dec,
    MoveLeft,
    MoveRight,
    Output,
    Input,
    BlockOpen,
    BlockClose,
}

/// The instruction that a character stands for, if any.
pub open spec fn token_of(c: char) -> Option<Token> {
    if c == '+' {
        Some(Token::Enc)
    } else if c == '-' {
        Some(Token::Dec)
    } else if c == '<' {
        Some(Token::MoveLeft)
    } else if c == '>' {
        Some(Token::MoveRight)
    } else if c == '.' {
        Some(Token::Output)
    } else if c == ',' {
        Some(Token::Input)
    } else if c == '[' {
        Some(Token::BlockOpen)
    } else if c == ']' {
        Some(Token::BlockClose)
    } else {
        None
    }
}

/// The instructions of a source text, in order, every other character dropped.
pub open spec fn tokenize(s: Seq<char>) -> Seq<Token>
    decreases s.len(),
{
    if s.len() == 0 {
        Seq::empty()
    } else {
        let rest = tokenize(s.drop_last());
        match token_of(s.last()) {
            Some(t) => rest.push(t),
            None => rest,
        }
    }
}

/// How an instruction changes the loop depth.
pub open spec fn delta(t: Token) -> int {
    match t {
        Token::BlockOpen => 1,
        Token::BlockClose => -1,
        _ => 0,
    }
}

/// Opening brackets minus closing brackets.
pub open spec fn net(ts: Seq<Token>) -> int
    decreases ts.len(),
{
    if ts.len() == 0 {
        0
    } else {
        net(ts.drop_last()) + delta(ts.last())
    }
}

/// The number of closing brackets.
pub open spec fn close_count(ts: Seq<Token>) -> nat
    decreases ts.len(),
{
    if ts.len() == 0 {
        0
    } else {
        close_count(ts.drop_last()) + if ts.last() == Token::BlockClose {
            1nat
        } else {
            0nat
        }
    }
}

/// Every bracket has its partner: no prefix closes more loops than it
/// opened, and the whole sequence closes all that it opens.
pub open spec fn balanced(ts: Seq<Token>) -> bool {
    &&& net(ts) == 0
    &&& forall|i: int| 0 <= i <= ts.len() ==> #[trigger] net(ts.take(i)) >= 0
}

pub(crate) proof fn lemma_net_take_step(ts: Seq<Token>, i: int)
    requires
        0 <= i < ts.len(),
    ensures
        net(ts.take(i + 1)) == net(ts.take(i)) + delta(ts[i]),
        close_count(ts.take(i + 1)) == close_count(ts.take(i)) + if ts[i] == Token::BlockClose {
            1nat
        } else {
            0nat
        },
{
    assert(ts.take(i + 1).drop_last() =~= ts.take(i));
}

proof fn lemma_tokenize_concat(x: Seq<char>, y: Seq<char>)
    ensures
        tokenize(x + y) == tokenize(x) + tokenize(y),
    decreases y.len(),
{
    if y.len() == 0 {
        assert(x + y =~= x);
        assert(tokenize(x) + tokenize(y) =~= tokenize(x));
    } else {
        assert((x + y).drop_last() =~= x + y.drop_last());
        lemma_tokenize_concat(x, y.drop_last());
        match token_of(y.last()) {
            Some(t) => assert(tokenize(x) + tokenize(y.drop_last()).push(t) =~= (tokenize(x)
                + tokenize(y.drop_last())).push(t)),
            None => {},
        }
    }
}

/// Characters that are no instruction are ignored: dropping one from
/// anywhere in a source text leaves its instructions unchanged.
pub proof fn tokenize_skips_unrecognized(before: Seq<char>, c: char, after: Seq<char>)
    requires
        token_of(c) is None,
    ensures
        tokenize(before + seq![c] + after) == tokenize(before + after),
{
    lemma_tokenize_concat(before + seq![c], after);
    lemma_tokenize_concat(before, seq![c]);
    lemma_tokenize_concat(before, after);
    assert(seq![c].drop_last() =~= Seq::<char>::empty());
    assert(seq![c].last() == c);
    assert(tokenize(Seq::<char>::empty()) =~= Seq::<Token>::empty());
    assert(tokenize(seq![c]) =~= Seq::<Token>::empty());
    assert(tokenize(before) + tokenize(seq![c]) =~= tokenize(before));
}

impl Token {
    /// The instruction that `value` stands for, or `BadToken(value)`.
    pub fn try_from(value: char) -> (r: Result<Token, BrainFuckError>)
        ensures
            r == match token_of(value) {
                Some(t) => Ok(t),
                None => Err(BrainFuckError::BadToken(value)),
            },
    {
        match value {
            '+' => Ok(Token::Enc),
            '-' => Ok(Token::Dec),
            '<' => Ok(Token::MoveLeft),
            '>' => Ok(Token::MoveRight),
            '.' => Ok(Token::Output),
            ',' => Ok(Token::Input),
            '[' => Ok(Token::BlockOpen),
            ']' => Ok(Token::BlockClose),
            _ => Err(BrainFuckError::BadToken(value)),
        }
    }
}

/// A program: its instructions in order.
#[derive(Debug, Clone)]
pub struct Tokens(pub Vec<Token>);

impl View for Tokens {
    type V = Seq<Token>;

    open spec fn view(&self) -> Seq<Token> {
        self.0@
    }
}

impl Tokens {
    /// Checks that every loop bracket has its partner and returns the
    /// number of loops, or `FailedToCompile`.
    pub fn verify_blocks(&self) -> (r: Result<usize, BrainFuckError>)
        ensures
            match r {
                Ok(n) => balanced(self@) && n == close_count(self@),
                Err(e) => !balanced(self@) && e == BrainFuckError::FailedToCompile,
            },
    {
        let ghost ts = self@;
        let mut subs: usize = 0;
        let mut enc: usize = 0;
        let n = self.0.len();
        let mut i: usize = 0;
        while i < n
            invariant
                n == ts.len(),
                ts == self@,
                i <= n,
                enc as int == net(ts.take(i as int)),
                subs as int == close_count(ts.take(i as int)),
                enc <= i,
                subs <= i,
                forall|j: int| 0 <= j <= i ==> #[trigger] net(ts.take(j)) >= 0,
            decreases n - i,
        {
            proof {
                lemma_net_take_step(ts, i as int);
            }
            match self.0[i] {
                Token::BlockOpen => enc += 1,
                Token::BlockClose => {
                    if enc == 0 {
                        return Err(BrainFuckError::FailedToCompile);
                    }
                    enc -= 1;
                    subs += 1;
                },
                _ => {},
            }
            i += 1;
        }
        assert(ts.take(n as int) =~= ts);
        if enc == 0 {
            Ok(subs)
        } else {
            Err(BrainFuckError::FailedToCompile)
        }
    }

    /// The instructions of `input`; every other character is skipped.
    pub fn try_from(input: &str) -> (r: Result<Tokens, BrainFuckError>)
        ensures
            r is Ok,
            r->Ok_0@ == tokenize(input@),
    {
        let mut tokens: Vec<Token> = Vec::new();
        for c in it: input.chars()
            invariant
                it.seq() == input@,
                tokens@ == tokenize(input@.take(it.index() as int)),
        {
            let ghost k = it.index() as int;
            assert(input@.take(k + 1).drop_last() =~= input@.take(k));
            if let Ok(token) = Token::try_from(c) {
                tokens.push(token);
            }
        }
        assert(input@.take(input@.len() as int) =~= input@);
        Ok(Tokens(tokens))
    }
}

} // verus!
