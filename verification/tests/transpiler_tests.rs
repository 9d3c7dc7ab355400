use aglang::parser::{parse_source, Argument, Statement, StatementTypes};
use aglang::transpiler::{transpile_to_c, try_transpile_to_c};

fn st(t: StatementTypes, a: Option<Argument>, b: Option<Argument>) -> Statement {
    Statement { statement_type: t, arg1: a, arg2: b, loop_state: None }
}

const PRELUDE: &str = "unsigned char r0 = 0;\nunsigned char r1 = 0;\n\nunsigned char stack[1024];\nunsigned int sp = 0;\n\nvoid push(unsigned char c) { stack[sp++] = c; }\nvoid pop() { sp--; }\n\nint main() {\n";

fn program(input: bool, body: &str) -> String {
    let buffer = if input { "#include <string.h>\n\nchar buffer[256] = {0};\n\n" } else { "" };
    format!("#include <stdio.h>\n\n{buffer}{PRELUDE}{body}  return 0;\n}}\n")
}

fn transpile(src: &str) -> Result<String, String> {
    transpile_to_c(parse_source(src.to_string()).ok().unwrap())
}

#[test]
fn empty_c_program() {
    assert_eq!(transpile_to_c(vec![]), Ok(program(false, "")));
}

#[test]
fn c_copies_and_output() {
    assert_eq!(transpile("1>'"), Ok(program(false, "  r0 = 1;\n")));
    assert_eq!(transpile("'>:"), Ok(program(false, "  push(r0);\n")));
    assert_eq!(transpile(":>\\"), Ok(program(false, "  putchar(stack[sp - 1]);\n")));
    let stmts = vec![st(StatementTypes::Copy, Some(Argument::R1), Some(Argument::StdOut { as_number: true }))];
    assert_eq!(transpile_to_c(stmts), Ok(program(false, "  printf(\"%d\", r1);\n")));
}

#[test]
fn c_arithmetic_and_removal() {
    assert_eq!(
        transpile("'+1;''-';'*11;''/:;'%10;'!;:!"),
        Ok(program(
            false,
            "  r0 += 1;\n  r1 -= r0;\n  r0 *= 3;\n  r1 /= stack[sp - 1];\n  r0 %= 2;\n  r0 = 0;\n  if (sp != 0) {\n    pop();\n  } else {\n    return 110;\n  };\n"
        ))
    );
}

#[test]
fn c_input() {
    assert_eq!(
        transpile("|"),
        Ok(program(
            true,
            "  push(0);\n  if (fgets(buffer, sizeof(buffer), stdin) != NULL) {\n    buffer[strcspn(buffer, \"\\r\\n\")] = '\\0';\n    for (int i = strlen(buffer) - 1; i >= 0; i--) {\n      push(buffer[i]);\n    }\n  }\n"
        ))
    );
}

#[test]
fn c_loops_labels_and_jumps() {
    let stmts = vec![
        st(StatementTypes::LoopStart, None, None),
        st(StatementTypes::Label, None, Some(Argument::Label { index: 4 })),
        st(StatementTypes::Compare, Some(Argument::R0), Some(Argument::Literal(10))),
        st(StatementTypes::Less, None, Some(Argument::Label { index: 4 })),
        st(StatementTypes::LoopEnd, None, None),
        st(StatementTypes::Compare, Some(Argument::R0), Some(Argument::R1)),
    ];
    assert_eq!(
        transpile_to_c(stmts),
        Ok(program(
            false,
            "  do {\nlabel4:\n  if (r0 < 10) {\n    goto label4;\n  }\n  } while (stack[sp - 1] != 0);\n"
        ))
    );
}

#[test]
fn c_refusals() {
    assert_eq!(
        transpile("'>1"),
        Err("Error SyntaxError(InvalidArguments) on statement 1: Invalid arguments supplied for Copy".to_string())
    );
    assert_eq!(
        transpile("1+1"),
        Err("Error SyntaxError(InvalidArguments) on statement 1: Invalid argument supplied for Add".to_string())
    );
    assert_eq!(
        transpile("1>';\\>'"),
        Err("Error SyntaxError(InvalidArguments) on statement 2: Argument StdOut { as_number: false } is not readable.".to_string())
    );
    assert_eq!(
        transpile("1!"),
        Err("Error SyntaxError(InvalidArguments) on statement 1: Invalid argument supplied for Remove".to_string())
    );
    assert_eq!(
        transpile("01"),
        Err("Error SyntaxError(InvalidStatement) on statement 1: Invalid statement provided.".to_string())
    );
    let stmts = vec![
        st(StatementTypes::Compare, Some(Argument::R0), Some(Argument::R1)),
        st(StatementTypes::Copy, Some(Argument::R0), Some(Argument::Label { index: 1 })),
    ];
    assert_eq!(
        transpile_to_c(stmts),
        Err("Error SyntaxError(InvalidStatement) on statement 1: Statement Compare has to be preceded by a Compare statement.".to_string())
    );
    let stmts = vec![
        st(StatementTypes::Compare, Some(Argument::R0), Some(Argument::R1)),
        st(StatementTypes::Greater, None, Some(Argument::R0)),
    ];
    assert_eq!(
        transpile_to_c(stmts),
        Err("Error SyntaxError(InvalidArguments) on statement 1: Cannot use argument of type Argument(R1) as label reference.".to_string())
    );
}

#[test]
fn c_statements_that_cannot_be_translated() {
    let stmts = vec![st(StatementTypes::Label, None, None)];
    assert_eq!(try_transpile_to_c(stmts), None);
    let stmts = vec![st(StatementTypes::Add, None, Some(Argument::R0))];
    assert_eq!(try_transpile_to_c(stmts), None);
}

#[test]
fn trailing_comparison_adds_nothing() {
    let xs = parse_source("1>';'+1".to_string()).ok().unwrap();
    let mut with_compare = xs.clone();
    with_compare.push(st(StatementTypes::Compare, Some(Argument::Label { index: 1 }), None));
    assert_eq!(transpile_to_c(with_compare), transpile_to_c(xs));
}

#[test]
fn translations_concatenate() {
    let xs = parse_source("1>';'+1".to_string()).ok().unwrap();
    let ys = parse_source("''>:;:!".to_string()).ok().unwrap();
    let both: Vec<Statement> = xs.iter().chain(ys.iter()).copied().collect();
    assert_eq!(
        transpile_to_c(both),
        Ok(program(false, "  r0 = 1;\n  r0 += 1;\n  push(r1);\n  if (sp != 0) {\n    pop();\n  } else {\n    return 110;\n  };\n"))
    );
    let bad = parse_source("1+1".to_string()).ok().unwrap();
    let both: Vec<Statement> = xs.iter().chain(bad.iter()).copied().collect();
    assert_eq!(
        transpile_to_c(both),
        Err("Error SyntaxError(InvalidArguments) on statement 3: Invalid argument supplied for Add".to_string())
    );
}
