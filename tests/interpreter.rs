use brainfuck::{Action, BrainFuckError, Interpreter, Token, Tokens};
use std::io::{BufWriter, Cursor, Read, Write};

#[derive(Debug)]
enum RunError {
    Machine(BrainFuckError),
    Channel(std::io::ErrorKind),
}

/// Runs the machine to the end, moving bytes between it and the channels.
fn run(
    interpreter: &mut Interpreter,
    inbuf: &mut dyn Read,
    outbuf: &mut dyn Write,
) -> Result<(), RunError> {
    interpreter
        .tokens()
        .verify_blocks()
        .map_err(RunError::Machine)?;
    loop {
        match interpreter.step().map_err(RunError::Machine)? {
            Action::Halt => return Ok(()),
            Action::Continue => {}
            Action::Write(byte) => outbuf
                .write_all(&[byte])
                .map_err(|e| RunError::Channel(e.kind()))?,
            Action::Read => {
                let mut buf: [u8; 1] = [0];
                inbuf
                    .read_exact(&mut buf)
                    .map_err(|e| RunError::Channel(e.kind()))?;
                assert!(interpreter.supply_input(buf[0]));
            }
        }
    }
}

fn run_program(program: &str, tape: Option<usize>, input: Vec<u8>) -> (Result<(), RunError>, Vec<u8>) {
    let mut builder = Interpreter::builder();
    if let Some(n) = tape {
        builder = builder.max_data(n);
    }
    let mut interpreter = builder
        .tokens(program)
        .expect("fail")
        .build()
        .expect("failed to build");
    let mut file = Cursor::new(input);
    let mut out: Vec<u8> = Vec::new();
    let result = run(&mut interpreter, &mut file, &mut out);
    (result, out)
}

#[test]
fn test_good_verify() {
    let input = "[[]]";
    let tokens = Tokens::try_from(input).expect("failed to tokenize");
    let result = tokens.verify_blocks();
    assert!(result.is_ok());
    assert_eq!(2, result.unwrap());
}

#[test]
fn test_bad_verify_left() {
    let input = "[[]";
    let tokens = Tokens::try_from(input).expect("failed to tokenize");
    let result = tokens.verify_blocks();
    assert!(result.is_err());
}

#[test]
fn test_bad_verify_right() {
    let input = "[[]]]";
    let tokens = Tokens::try_from(input).expect("failed to tokenize");
    let result = tokens.verify_blocks();
    assert!(result.is_err());
}

#[test]
fn test_it() {
    // The result in Cell 1 is 72.
    let input = "++++++++[>+++++++++<-]>.";

    // Throw away, since there's no input.
    let mut file = Cursor::new(Vec::new());

    let mut out_buf = BufWriter::new(Vec::new());

    let mut interpreter = Interpreter::builder()
        .tokens(input)
        .expect("fail")
        .build()
        .expect("failed to build");
    let result = run(&mut interpreter, &mut file, &mut out_buf);
    assert!(result.is_ok());
    assert_eq!(vec![72], out_buf.buffer());
}

#[test]
fn tokenize_round_trip_of_nested_loops() {
    let tokens = Tokens::try_from("[[]]").expect("failed to tokenize");
    assert_eq!(
        tokens.0,
        vec![Token::BlockOpen, Token::BlockOpen, Token::BlockClose, Token::BlockClose]
    );
}

#[test]
fn tokenize_skips_garbage() {
    let a = Tokens::try_from("a+b-c").unwrap();
    let b = Tokens::try_from("+-").unwrap();
    assert_eq!(a.0, b.0);
    assert_eq!(a.0, vec![Token::Enc, Token::Dec]);
}

#[test]
fn tokenize_every_instruction() {
    let t = Tokens::try_from("+-<>.,[] x").unwrap();
    assert_eq!(
        t.0,
        vec![
            Token::Enc,
            Token::Dec,
            Token::MoveLeft,
            Token::MoveRight,
            Token::Output,
            Token::Input,
            Token::BlockOpen,
            Token::BlockClose
        ]
    );
    assert!(Tokens::try_from("hello world").unwrap().0.is_empty());
}

#[test]
fn token_from_char() {
    assert_eq!(Token::try_from('+'), Ok(Token::Enc));
    assert_eq!(Token::try_from(']'), Ok(Token::BlockClose));
    assert_eq!(Token::try_from('x'), Err(BrainFuckError::BadToken('x')));
}

#[test]
fn verify_counts_closing_brackets() {
    let t = Tokens::try_from("+[-[>.]<,[]]").unwrap();
    assert_eq!(t.verify_blocks(), Ok(3));
    assert_eq!(Tokens::try_from("").unwrap().verify_blocks(), Ok(0));
    assert_eq!(Tokens::try_from("+-.").unwrap().verify_blocks(), Ok(0));
}

#[test]
fn verify_rejects_unmatched_brackets() {
    for p in ["]", "[", "][", "[]]", "[[]", "+]+[", "[[]]][[]"] {
        let t = Tokens::try_from(p).unwrap();
        assert_eq!(t.verify_blocks(), Err(BrainFuckError::FailedToCompile), "{}", p);
    }
}

#[test]
fn decrement_at_zero_fails() {
    let (result, out) = run_program("-", None, Vec::new());
    assert!(matches!(result, Err(RunError::Machine(BrainFuckError::DataOutOfRange(0)))));
    assert!(out.is_empty());
}

#[test]
fn increment_past_255_fails() {
    let program = "+".repeat(255);
    let (result, _) = run_program(&format!("{}.", program), None, Vec::new());
    assert!(result.is_ok());
    let (result, _) = run_program(&format!(">{}+", program), None, Vec::new());
    assert!(matches!(result, Err(RunError::Machine(BrainFuckError::DataOutOfRange(1)))));
}

#[test]
fn move_left_at_start_fails() {
    let (result, _) = run_program("<", None, Vec::new());
    assert!(matches!(result, Err(RunError::Machine(BrainFuckError::DataPointerOutOfRange))));
}

#[test]
fn move_right_past_end_fails() {
    let (result, _) = run_program(">", Some(1), Vec::new());
    assert!(matches!(result, Err(RunError::Machine(BrainFuckError::DataPointerOutOfRange))));
    let (result, _) = run_program(">>", Some(3), Vec::new());
    assert!(result.is_ok());
    let (result, _) = run_program(">>>", Some(3), Vec::new());
    assert!(matches!(result, Err(RunError::Machine(BrainFuckError::DataPointerOutOfRange))));
}

#[test]
fn input_is_copied_to_output() {
    let (result, out) = run_program(",.>,.", None, vec![65, 66, 67]);
    assert!(result.is_ok());
    assert_eq!(out, vec![65, 66]);
}

#[test]
fn exhausted_input_fails() {
    let (result, _) = run_program(",", None, Vec::new());
    assert!(matches!(
        result,
        Err(RunError::Channel(std::io::ErrorKind::UnexpectedEof))
    ));
}

#[test]
fn loop_on_zero_cell_is_skipped() {
    let (result, out) = run_program("[+.[-]]+.", None, Vec::new());
    assert!(result.is_ok());
    assert_eq!(out, vec![1]);
}

#[test]
fn loop_repeats_while_cell_is_nonzero() {
    let (result, out) = run_program("+++[.-]", None, Vec::new());
    assert!(result.is_ok());
    assert_eq!(out, vec![3, 2, 1]);
}

#[test]
fn nested_loops_multiply() {
    let (result, out) = run_program("+++[>++[>+<-]<-]>>.", None, Vec::new());
    assert!(result.is_ok());
    assert_eq!(out, vec![6]);
}

#[test]
fn empty_program_halts() {
    let mut interpreter = Interpreter::builder()
        .tokens("no instructions here")
        .unwrap()
        .build()
        .unwrap();
    assert_eq!(interpreter.step(), Ok(Action::Halt));
    assert_eq!(interpreter.step(), Ok(Action::Halt));
}

#[test]
fn step_reports_actions() {
    let mut interpreter = Interpreter::new(Tokens::try_from("+.,").unwrap(), vec![0; 2]);
    assert_eq!(interpreter.step(), Ok(Action::Continue));
    assert!(!interpreter.supply_input(9));
    assert_eq!(interpreter.step(), Ok(Action::Write(1)));
    assert_eq!(interpreter.step(), Ok(Action::Read));
    assert_eq!(interpreter.step(), Ok(Action::Read));
    assert!(interpreter.supply_input(9));
    assert_eq!(interpreter.step(), Ok(Action::Halt));
}

#[test]
fn unbalanced_program_without_validation_fails_on_jump() {
    let mut interpreter = Interpreter::new(Tokens::try_from("[").unwrap(), vec![0; 1]);
    assert_eq!(interpreter.step(), Err(BrainFuckError::FailedToCompile));
    let mut interpreter = Interpreter::new(Tokens::try_from("+]").unwrap(), vec![0; 1]);
    assert_eq!(interpreter.step(), Ok(Action::Continue));
    assert_eq!(interpreter.step(), Err(BrainFuckError::FailedToCompile));
    let mut interpreter = Interpreter::new(Tokens::try_from("]").unwrap(), vec![1; 1]);
    assert_eq!(interpreter.step(), Err(BrainFuckError::FailedToCompile));
}

#[test]
fn build_errors() {
    let r = Interpreter::builder().build();
    assert!(matches!(r, Err(BrainFuckError::InterpreterBuildError(ref m)) if m == "No tokens"));
    let r = Interpreter::builder().tokens("[[]").unwrap().build();
    assert!(matches!(r, Err(BrainFuckError::FailedToCompile)));
    let r = Interpreter::builder().max_data(0).tokens("+").unwrap().build();
    assert!(matches!(r, Err(BrainFuckError::InterpreterBuildError(ref m)) if m == "Empty tape"));
}

#[test]
fn default_tape_has_thirty_thousand_cells() {
    let right = ">".repeat(29_999);
    let (result, _) = run_program(&right, None, Vec::new());
    assert!(result.is_ok());
    let (result, _) = run_program(&format!("{}>", right), None, Vec::new());
    assert!(matches!(result, Err(RunError::Machine(BrainFuckError::DataPointerOutOfRange))));
}
