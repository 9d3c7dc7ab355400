use aglang::interpreter::{Action, Interpreter};
use aglang::parser::{parse_source, Argument, Statement, StatementTypes};

fn st(t: StatementTypes, a: Option<Argument>, b: Option<Argument>) -> Statement {
    Statement { statement_type: t, arg1: a, arg2: b, loop_state: None }
}

/// How a run ended.
#[derive(Debug, PartialEq)]
enum End {
    Halted,
    Failed(String),
    Stuck,
}

/// Runs `statements`, feeding `lines` to input statements; returns what was
/// printed and how the run ended.
fn run(statements: &Vec<Statement>, lines: &[&str]) -> (String, End) {
    let mut ip = Interpreter::new();
    let mut out = String::new();
    let mut lines = lines.iter();
    match ip.try_preprocess(statements) {
        Some(Ok(())) => {}
        Some(Err(m)) => return (out, End::Failed(m)),
        None => return (out, End::Stuck),
    }
    for _ in 0..10_000 {
        match ip.try_step(statements) {
            None => return (out, End::Stuck),
            Some(Action::Continue) => {}
            Some(Action::PrintChar(c)) => out.push(char::from(c)),
            Some(Action::PrintNumber(n)) => out.push_str(&n.to_string()),
            Some(Action::ReadLine) => {
                let line = lines.next().unwrap();
                ip.complete_input(line.as_bytes().to_vec());
            }
            Some(Action::Halt) => return (out, End::Halted),
            Some(Action::Fail(m)) => return (out, End::Failed(m)),
        }
    }
    panic!("the program did not end");
}

fn print_number(a: Argument) -> Statement {
    st(StatementTypes::Copy, Some(a), Some(Argument::StdOut { as_number: true }))
}

#[test]
fn prints_characters() {
    let stmts = parse_source("1001000>';'>\\;1101001>\\".to_string()).ok().unwrap();
    assert_eq!(run(&stmts, &[]), ("Hi".to_string(), End::Halted));
}

#[test]
fn steps_one_at_a_time() {
    let stmts = parse_source("1>';'>\\".to_string()).ok().unwrap();
    let mut ip = Interpreter::new();
    assert_eq!(ip.try_step(&stmts), Some(Action::Continue));
    assert_eq!(ip.try_step(&stmts), Some(Action::PrintChar(1)));
    assert_eq!(ip.try_step(&stmts), Some(Action::Halt));
    assert_eq!(ip.try_step(&stmts), Some(Action::Halt));
}

#[test]
fn wrapping_arithmetic() {
    let mut stmts = parse_source("11111111>';'+11;''+1;''-10;'*10;'+1".to_string()).ok().unwrap();
    stmts.push(print_number(Argument::R0));
    stmts.push(print_number(Argument::R1));
    // 255 + 3 = 2 (mod 256), * 2 = 4, + 1 = 5; 0 + 1 - 2 = 255.
    assert_eq!(run(&stmts, &[]), ("5255".to_string(), End::Halted));
}

#[test]
fn add_then_subtract_restores_the_register() {
    for (x, v) in [(0u8, 0u8), (200, 100), (255, 255), (7, 250)] {
        let stmts = vec![
            st(StatementTypes::Copy, Some(Argument::Literal(x)), Some(Argument::R1)),
            st(StatementTypes::Add, Some(Argument::R1), Some(Argument::Literal(v))),
            st(StatementTypes::Subtract, Some(Argument::R1), Some(Argument::Literal(v))),
            print_number(Argument::R1),
        ];
        assert_eq!(run(&stmts, &[]), (x.to_string(), End::Halted));
    }
}

#[test]
fn push_then_remove_restores_the_stack() {
    let mut stmts = parse_source("1>:;11>:;'>:;:!".to_string()).ok().unwrap();
    stmts.push(print_number(Argument::Stack));
    assert_eq!(run(&stmts, &[]), ("3".to_string(), End::Halted));
}

#[test]
fn division_and_remainder() {
    let mut stmts = parse_source("1101>';'/10;1101>'';''%101".to_string()).ok().unwrap();
    stmts.push(print_number(Argument::R0));
    stmts.push(print_number(Argument::R1));
    assert_eq!(run(&stmts, &[]), ("63".to_string(), End::Halted));
}

#[test]
fn division_by_zero_cannot_run() {
    let stmts = parse_source("1>';'/0".to_string()).ok().unwrap();
    assert_eq!(run(&stmts, &[]), (String::new(), End::Stuck));
}

#[test]
fn input_is_read_first_byte_first() {
    let stmts = parse_source("|;:>\\;:!;:>\\;:!;:>\\;:!".to_string()).ok().unwrap();
    let mut with_zero = stmts.clone();
    with_zero.push(print_number(Argument::Stack));
    assert_eq!(run(&with_zero, &["ab\n"]), ("ab\n0".to_string(), End::Halted));
}

#[test]
fn complete_input_with_an_empty_line_pushes_the_zero() {
    let stmts = vec![st(StatementTypes::Input, None, None), print_number(Argument::Stack)];
    assert_eq!(run(&stmts, &[""]), ("0".to_string(), End::Halted));
}

#[test]
fn loop_counts_down() {
    // Push 3, then loop: print the top, decrement it through r0.
    let stmts = vec![
        st(StatementTypes::Copy, Some(Argument::Literal(3)), Some(Argument::Stack)),
        st(StatementTypes::LoopStart, None, None),
        print_number(Argument::Stack),
        st(StatementTypes::Copy, Some(Argument::Stack), Some(Argument::R0)),
        st(StatementTypes::Subtract, Some(Argument::R0), Some(Argument::Literal(1))),
        st(StatementTypes::Remove, Some(Argument::Stack), None),
        st(StatementTypes::Copy, Some(Argument::R0), Some(Argument::Stack)),
        st(StatementTypes::LoopEnd, None, None),
        print_number(Argument::Literal(9)),
    ];
    assert_eq!(run(&stmts, &[]), ("3219".to_string(), End::Halted));
}

#[test]
fn compare_then_jump() {
    // r0 counts up to 3 with a backward jump.
    let stmts = vec![
        st(StatementTypes::Label, None, Some(Argument::Label { index: 1 })),
        st(StatementTypes::Add, Some(Argument::R0), Some(Argument::Literal(1))),
        print_number(Argument::R0),
        st(StatementTypes::Compare, Some(Argument::Literal(3)), Some(Argument::R0)),
        st(StatementTypes::Greater, None, Some(Argument::Label { index: 1 })),
        st(StatementTypes::Compare, Some(Argument::R0), Some(Argument::Literal(3))),
        st(StatementTypes::Equal, None, Some(Argument::Label { index: 2 })),
        print_number(Argument::Literal(7)),
        st(StatementTypes::Label, None, Some(Argument::Label { index: 2 })),
        st(StatementTypes::Compare, Some(Argument::R0), Some(Argument::Literal(3))),
        st(StatementTypes::Less, None, Some(Argument::Label { index: 1 })),
    ];
    assert_eq!(run(&stmts, &[]), ("123".to_string(), End::Halted));
}

#[test]
fn runtime_errors() {
    let stmts = vec![print_number(Argument::Stack)];
    assert_eq!(
        run(&stmts, &[]).1,
        End::Failed("Error RuntimeError(EmptyStackRead) on statement 1: Tried to access stack, but stack is empty.".to_string())
    );
    let stmts = parse_source("1>';1>1".to_string()).ok().unwrap();
    assert_eq!(
        run(&stmts, &[]).1,
        End::Failed("Error SyntaxError(InvalidDestination) on statement 2: Cannot write to argument of type: Argument(Literal(1))".to_string())
    );
    let stmts = parse_source("1!".to_string()).ok().unwrap();
    assert_eq!(
        run(&stmts, &[]).1,
        End::Failed("Error SyntaxError(InvalidDestination) on statement 1: Cannot write to argument of type: Argument(Literal(1))".to_string())
    );
    let stmts = parse_source("1+1".to_string()).ok().unwrap();
    assert_eq!(
        run(&stmts, &[]).1,
        End::Failed("Error SyntaxError(InvalidDestination) on statement 1: Cannot write to argument of type: Argument(Literal(1))".to_string())
    );
    let stmts = parse_source("'>\\;\\>'".to_string()).ok().unwrap();
    assert_eq!(
        run(&stmts, &[]),
        (
            "\u{0}".to_string(),
            End::Failed("Error SyntaxError(InvalidSource) on statement 2: Cannot read from argument of type: Argument(StdOut { as_number: false })".to_string())
        )
    );
    let stmts = parse_source("01".to_string()).ok().unwrap();
    assert_eq!(
        run(&stmts, &[]).1,
        End::Failed("Error SyntaxError(InvalidStatement) on statement 1: Invalid statement provided.".to_string())
    );
}

#[test]
fn jump_errors() {
    let stmts = vec![st(StatementTypes::Greater, None, Some(Argument::Label { index: 0 }))];
    assert_eq!(
        run(&stmts, &[]).1,
        End::Failed("Error SyntaxError(InvalidStatement) on statement 1: Statement Greater has to be preceded by a Compare statement.".to_string())
    );
    let stmts = vec![
        st(StatementTypes::Compare, Some(Argument::R0), Some(Argument::R1)),
        st(StatementTypes::Less, None, Some(Argument::Label { index: 3 })),
    ];
    assert_eq!(
        run(&stmts, &[]).1,
        End::Failed("Error SyntaxError(InvalidArguments) on statement 2: Label ... isn't defined.".to_string())
    );
    let stmts = vec![
        st(StatementTypes::Compare, Some(Argument::R0), Some(Argument::R1)),
        st(StatementTypes::Equal, None, Some(Argument::R1)),
    ];
    assert_eq!(
        run(&stmts, &[]).1,
        End::Failed("Error SyntaxError(InvalidArguments) on statement 2: Cannot use argument R1 as label reference.".to_string())
    );
}

#[test]
fn preprocess_errors() {
    let stmts = vec![
        print_number(Argument::Literal(1)),
        st(StatementTypes::Label, None, Some(Argument::Stack)),
    ];
    assert_eq!(
        run(&stmts, &[]),
        (
            String::new(),
            End::Failed("Error SyntaxError(InvalidArguments) on statement 1: Cannot use argument of type Argument(Stack) as label definition.".to_string())
        )
    );
    let stmts = vec![st(StatementTypes::Label, None, None)];
    assert_eq!(run(&stmts, &[]), (String::new(), End::Stuck));
}

#[test]
fn loop_end_without_a_loop_cannot_run() {
    let stmts = vec![st(StatementTypes::LoopEnd, None, None)];
    assert_eq!(run(&stmts, &[]), (String::new(), End::Stuck));
    // With a 0 on top, the loop end is left without looking for a loop.
    let stmts = vec![
        st(StatementTypes::Copy, Some(Argument::Literal(0)), Some(Argument::Stack)),
        st(StatementTypes::LoopEnd, None, None),
    ];
    assert_eq!(run(&stmts, &[]), (String::new(), End::Halted));
}
