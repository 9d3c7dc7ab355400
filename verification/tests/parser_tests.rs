use aglang::error::{format_error, ErrorKind, RuntimeError, SyntaxError};
use aglang::parser::{
    parse_argument, parse_source, parse_stripped_source, Argument, LoopState, SourceError, Statement,
    StatementTypes,
};

fn statement(t: StatementTypes, a: Option<Argument>, b: Option<Argument>) -> Statement {
    Statement { statement_type: t, arg1: a, arg2: b, loop_state: None }
}

fn syntax_message(res: Result<Vec<Statement>, SourceError>) -> String {
    match res {
        Err(SourceError::Syntax(m)) => m,
        Ok(_) => panic!("expected a diagnostic, got statements"),
        Err(SourceError::UnreadableArgument(i)) => panic!("unreadable argument at {i}"),
    }
}

#[test]
fn copy_literal_to_register() {
    let got = parse_source("1>'".to_string()).ok().unwrap();
    assert_eq!(
        got,
        vec![statement(StatementTypes::Copy, Some(Argument::Literal(1)), Some(Argument::R0))]
    );
}

#[test]
fn all_argument_forms() {
    let got = parse_source("'>'';\">:;:>\\;101>'".to_string()).ok().unwrap();
    assert_eq!(
        got,
        vec![
            statement(StatementTypes::Copy, Some(Argument::R0), Some(Argument::R1)),
            statement(StatementTypes::Copy, Some(Argument::R1), Some(Argument::Stack)),
            statement(
                StatementTypes::Copy,
                Some(Argument::Stack),
                Some(Argument::StdOut { as_number: false })
            ),
            statement(StatementTypes::Copy, Some(Argument::Literal(5)), Some(Argument::R0)),
        ]
    );
}

#[test]
fn every_operation_character() {
    let got = parse_source("|;1!;'+1;'-1;'*10;'/10;'%11".to_string()).ok().unwrap();
    let r0 = Some(Argument::R0);
    assert_eq!(
        got,
        vec![
            statement(StatementTypes::Input, None, None),
            statement(StatementTypes::Remove, Some(Argument::Literal(1)), None),
            statement(StatementTypes::Add, r0, Some(Argument::Literal(1))),
            statement(StatementTypes::Subtract, r0, Some(Argument::Literal(1))),
            statement(StatementTypes::Multiply, r0, Some(Argument::Literal(2))),
            statement(StatementTypes::Divide, r0, Some(Argument::Literal(2))),
            statement(StatementTypes::Remainder, r0, Some(Argument::Literal(3))),
        ]
    );
}

#[test]
fn comments_are_removed() {
    // Without the comment removed, the statement would chain two operations.
    let got = parse_source("$ 1+1 $1>'".to_string()).ok().unwrap();
    assert_eq!(
        got,
        vec![statement(StatementTypes::Copy, Some(Argument::Literal(1)), Some(Argument::R0))]
    );
}

#[test]
fn unclosed_comment_is_kept() {
    let got = parse_source("1>' $ ".to_string()).ok().unwrap();
    assert_eq!(got.len(), 1);
}

#[test]
fn other_characters_and_empty_statements_are_dropped() {
    let got = parse_stripped_source("a 1 > ' x ;; ;").ok().unwrap();
    assert_eq!(
        got,
        vec![statement(StatementTypes::Copy, Some(Argument::Literal(1)), Some(Argument::R0))]
    );
}

#[test]
fn statement_without_operation() {
    let got = parse_source("01".to_string()).ok().unwrap();
    assert_eq!(got, vec![statement(StatementTypes::NoOp, None, None)]);
}

#[test]
fn bracket_markers() {
    let got = parse_source("[1>:;1>:];[1>:]".to_string()).ok().unwrap();
    assert_eq!(got[0].loop_state, Some(LoopState::Start));
    assert_eq!(got[1].loop_state, Some(LoopState::End));
    assert_eq!(got[2].loop_state, Some(LoopState::Both));
    assert_eq!(got[0].arg1, Some(Argument::Literal(1)));
    assert_eq!(got[2].arg2, Some(Argument::Stack));
}

#[test]
fn largest_binary_literal() {
    let got = parse_source("0011111111>'".to_string()).ok().unwrap();
    assert_eq!(got[0].arg1, Some(Argument::Literal(255)));
}

#[test]
fn binary_literal_too_large() {
    let msg = syntax_message(parse_source("100000000>'".to_string()));
    assert_eq!(
        msg,
        "Error SyntaxError(InvalidArguments) on statement 1: Invalid binary literal: 100000000"
    );
}

#[test]
fn chained_operations() {
    let msg = syntax_message(parse_source("1>'>''".to_string()));
    assert_eq!(msg, "Error SyntaxError(ChainedOperations) on statement 1: Cannot chain multiple operations.");
}

#[test]
fn wrong_argument_counts() {
    assert_eq!(
        syntax_message(parse_source("'>".to_string())),
        "Error SyntaxError(InvalidArguments) on statement 1: Copy requires 2 arguments, 1 supplied"
    );
    assert_eq!(
        syntax_message(parse_source("'|".to_string())),
        "Error SyntaxError(InvalidArguments) on statement 1: Input requires 0 arguments, 1 supplied"
    );
    assert_eq!(
        syntax_message(parse_source("1>';!".to_string())),
        "Error SyntaxError(InvalidArguments) on statement 2: Remove requires 1 argument, 0 supplied"
    );
    assert_eq!(
        syntax_message(parse_source("'%".to_string())),
        "Error SyntaxError(InvalidArguments) on statement 1: Remainder requires 2 arguments, 1 supplied"
    );
}

#[test]
fn unreadable_argument() {
    match parse_source("1>';'''>\"".to_string()) {
        Err(SourceError::UnreadableArgument(i)) => assert_eq!(i, 1),
        _ => panic!("expected an unreadable argument"),
    }
}

#[test]
fn first_failure_decides() {
    // The binary literal in the first statement is refused before the
    // unreadable argument of the second is looked at.
    let msg = syntax_message(parse_source("111111111>';'''>'".to_string()));
    assert!(msg.ends_with("Invalid binary literal: 111111111"));
}

#[test]
fn argument_display_matches_debug_form() {
    let all = [
        Argument::Literal(7),
        Argument::R0,
        Argument::R1,
        Argument::Stack,
        Argument::StdOut { as_number: true },
        Argument::StdOut { as_number: false },
        Argument::Label { index: 12 },
    ];
    for a in all {
        assert_eq!(a.display(), format!("Argument({a:?})"));
    }
    assert_eq!(Argument::Literal(200).display(), "Argument(Literal(200))");
}

#[test]
fn statement_type_names_match_debug_form() {
    for t in [StatementTypes::Copy, StatementTypes::Compare, StatementTypes::Remainder, StatementTypes::LoopEnd] {
        assert_eq!(t.name(), format!("{t:?}"));
    }
    assert_eq!(StatementTypes::NoOp.name(), "None");
}

#[test]
fn error_formatting() {
    assert_eq!(
        format_error(ErrorKind::Syntax(SyntaxError::InvalidToken), 4, "x"),
        "Error SyntaxError(InvalidToken) on statement 5: x"
    );
    assert_eq!(
        format_error(ErrorKind::Runtime(RuntimeError::EmptyStackRead), 0, "m"),
        "Error RuntimeError(EmptyStackRead) on statement 1: m"
    );
    assert_eq!(
        format_error(ErrorKind::Syntax(SyntaxError::ChainedOperations), 4294967294, ""),
        "Error SyntaxError(ChainedOperations) on statement 4294967295: "
    );
    assert_eq!(SyntaxError::InvalidDestination.display(), "SyntaxError(InvalidDestination)");
}

#[test]
fn one_statement_per_piece() {
    let got = parse_source(";;1>';;'>'';$;$;:>\\;".to_string()).ok().unwrap();
    assert_eq!(got.len(), 3);
}

#[test]
fn binary_notation_of_every_byte_reads_back() {
    for v in 0..=255u8 {
        let text = format!("{v:b}>'");
        let got = parse_source(text).ok().unwrap();
        assert_eq!(got[0].arg1, Some(Argument::Literal(v)));
    }
}

#[test]
fn binary_notation_with_leading_zeros_reads_back() {
    for v in [0u8, 1, 2, 128, 255] {
        for k in 0..12 {
            let text = format!("{}{v:b}>'", "0".repeat(k));
            let got = parse_source(text).ok().unwrap();
            assert_eq!(got[0].arg1, Some(Argument::Literal(v)));
        }
    }
}

#[test]
fn comments_end_at_the_nearest_dollar() {
    // Each comment ends at the next `$`, so the statement between two comments stays.
    let got = parse_source("$x$1>'$y$".to_string()).ok().unwrap();
    assert_eq!(
        got,
        vec![statement(StatementTypes::Copy, Some(Argument::Literal(1)), Some(Argument::R0))]
    );
}

#[test]
fn comments_pair_dollars_from_the_left() {
    // The first comment takes `$1>';$`, leaving one statement.
    let got = parse_source("$1>';$1>'';".to_string()).ok().unwrap();
    assert_eq!(
        got,
        vec![statement(StatementTypes::Copy, Some(Argument::Literal(1)), Some(Argument::R1))]
    );
}

#[test]
fn text_after_a_lone_dollar_is_read() {
    let got = parse_source("$a$1>';$10>'".to_string()).ok().unwrap();
    assert_eq!(
        got,
        vec![
            statement(StatementTypes::Copy, Some(Argument::Literal(1)), Some(Argument::R0)),
            statement(StatementTypes::Copy, Some(Argument::Literal(2)), Some(Argument::R0)),
        ]
    );
}

#[test]
fn operand_with_leading_zeros_reads_its_byte() {
    for v in [0u8, 1, 5, 128, 255] {
        for k in 0..10 {
            let chars: Vec<char> = format!("{}{v:b}", "0".repeat(k)).chars().collect();
            let got = parse_argument(&chars, 3);
            assert!(matches!(got, Ok(Some(Argument::Literal(n))) if n == v));
        }
    }
}

#[test]
fn operand_forms_and_refusals() {
    let read = |t: &str| parse_argument(&t.chars().collect(), 0);
    assert!(matches!(read("'"), Ok(Some(Argument::R0))));
    assert!(matches!(read("\""), Ok(Some(Argument::R1))));
    assert!(matches!(read(":"), Ok(Some(Argument::Stack))));
    assert!(matches!(read("x"), Ok(None)));
    assert!(matches!(read("100000000"), Err(SourceError::Syntax(_))));
}

#[test]
fn text_with_one_dollar_reads_as_without_comments() {
    let text = "1>';$10>'";
    let got = parse_source(text.to_string()).ok().unwrap();
    assert_eq!(got, parse_stripped_source(text).ok().unwrap());
    assert_eq!(got.len(), 2);
}

#[test]
fn removing_comments_twice_reads_the_same() {
    let once = parse_source("$c$1>'$d$;$x".to_string()).ok().unwrap();
    let by_hand = parse_source("1>';$x".to_string()).ok().unwrap();
    assert_eq!(once, by_hand);
    assert_eq!(once.len(), 1);
}
