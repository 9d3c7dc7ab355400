use vstd::prelude::*;
use crate::compiler::{any_input, same_result, invalid_arguments, label_definition_error, label_reference_error, reads_input};
use crate::error::{ErrorKind, SyntaxError, error_text, format_error};
use crate::parser::{Argument, Statement, StatementTypes, argument_debug, statement_type_name};
use crate::text::{decimal, push_decimal};

verus! {

/// The languages programs can be translated into.
#[derive(Debug, Clone, Copy, PartialEq, Eq, Structural)]
pub enum Target {
    C,
}

/// The C expression for reading an operand, or the diagnostic for an
/// operand that cannot be read.
pub open spec fn c_value(a: Argument, idx: nat) -> Result<Seq<char>, Seq<char>> {
    match a {
        Argument::R0 => Ok("r0"@),
        Argument::R1 => Ok("r1"@),
        Argument::Stack => Ok("stack[sp - 1]"@),
        Argument::Literal(v) => Ok(decimal(v as nat)),
        _ => Err(
            error_text(
                ErrorKind::Syntax(SyntaxError::InvalidArguments),
                idx,
                "Argument "@ + argument_debug(a) + " is not readable."@,
            ),
        ),
    }
}

/// The outcome of translating one statement.
pub enum CStep {
    /// The C text emitted.
    Emit(Seq<char>),
    /// The diagnostic that refuses the statement.
    Fail(Seq<char>),
    /// An operand that the translation reads is missing.
    Stuck,
}

/// Translation of an operand that must be present and readable, followed by
/// `rest` applied to its C text.
pub open spec fn with_value(a: Option<Argument>, idx: nat, rest: spec_fn(Seq<char>) -> CStep) -> CStep {
    match a {
        None => CStep::Stuck,
        Some(x) => match c_value(x, idx) {
            Err(m) => CStep::Fail(m),
            Ok(v) => rest(v),
        },
    }
}

pub open spec fn invalid_argument(t: StatementTypes, idx: nat) -> Seq<char> {
    error_text(
        ErrorKind::Syntax(SyntaxError::InvalidArguments),
        idx,
        "Invalid argument supplied for "@ + statement_type_name(t),
    )
}

/// The C operator of an arithmetic statement type.
pub open spec fn c_operator(t: StatementTypes) -> Seq<char> {
    match t {
        StatementTypes::Add => " += "@,
        StatementTypes::Subtract => " -= "@,
        StatementTypes::Multiply => " *= "@,
        StatementTypes::Divide => " /= "@,
        _ => " %= "@,
    }
}

/// The C comparison of a jump statement type.
pub open spec fn c_comparison(t: StatementTypes) -> Seq<char> {
    match t {
        StatementTypes::Greater => " > "@,
        StatementTypes::Less => " < "@,
        _ => " == "@,
    }
}

/// Translation of the comparison at index `idx`, which is not the last
/// statement; the statement after it says how to jump.
pub open spec fn c_compare(stmts: Seq<Statement>, idx: int) -> CStep {
    let s = stmts[idx];
    let next = stmts[idx + 1];
    match next.arg2 {
        None => CStep::Stuck,
        Some(Argument::Label { index }) => if next.statement_type is Greater
            || next.statement_type is Less || next.statement_type is Equal {
            with_value(
                s.arg1,
                idx as nat,
                |v1: Seq<char>|
                    with_value(
                        s.arg2,
                        idx as nat,
                        |v2: Seq<char>|
                            CStep::Emit(
                                "  if ("@ + v1 + c_comparison(next.statement_type) + v2
                                    + ") {\n"@ + "    goto label"@ + decimal(index as nat)
                                    + ";\n  }\n"@,
                            ),
                    ),
            )
        } else {
            CStep::Fail(
                error_text(
                    ErrorKind::Syntax(SyntaxError::InvalidStatement),
                    idx as nat,
                    "Statement "@ + statement_type_name(s.statement_type)
                        + " has to be preceded by a "@ + statement_type_name(
                        StatementTypes::Compare,
                    ) + " statement."@,
                ),
            )
        },
        Some(_) => match s.arg2 {
            None => CStep::Stuck,
            Some(b) => CStep::Fail(label_reference_error(b, idx as nat)),
        },
    }
}

/// Translation of the copy `s`.
pub open spec fn c_copy(s: Statement, idx: nat) -> CStep {
    match s.arg2 {
        None => CStep::Stuck,
        Some(Argument::Stack) => with_value(
            s.arg1,
            idx,
            |v: Seq<char>| CStep::Emit("  push("@ + v + ");\n"@),
        ),
        Some(Argument::Literal(_)) => CStep::Fail(invalid_arguments(StatementTypes::Copy, idx)),
        Some(Argument::StdOut { as_number }) => if as_number {
            with_value(s.arg1, idx, |v: Seq<char>| CStep::Emit("  printf(\"%d\", "@ + v + ");\n"@))
        } else {
            with_value(s.arg1, idx, |v: Seq<char>| CStep::Emit("  putchar("@ + v + ");\n"@))
        },
        Some(b) => match c_value(b, idx) {
            Err(m) => CStep::Fail(m),
            Ok(v2) => with_value(
                s.arg1,
                idx,
                |v1: Seq<char>| CStep::Emit("  "@ + v2 + " = "@ + v1 + ";\n"@),
            ),
        },
    }
}

/// Translation of the statement with index `idx` of `stmts`.
pub open spec fn c_statement(stmts: Seq<Statement>, idx: int) -> CStep {
    let s = stmts[idx];
    let i = idx as nat;
    match s.statement_type {
        StatementTypes::LoopStart => CStep::Emit("  do {\n"@),
        StatementTypes::LoopEnd => CStep::Emit("  } while (stack[sp - 1] != 0);\n"@),
        StatementTypes::Label => match s.arg2 {
            None => CStep::Stuck,
            Some(Argument::Label { index }) => CStep::Emit(
                "label"@ + decimal(index as nat) + ":\n"@,
            ),
            Some(a) => CStep::Fail(label_definition_error(a, i)),
        },
        StatementTypes::Compare => if idx == stmts.len() - 1 {
            CStep::Emit(Seq::empty())
        } else {
            c_compare(stmts, idx)
        },
        StatementTypes::Greater | StatementTypes::Less | StatementTypes::Equal => CStep::Emit(
            Seq::empty(),
        ),
        StatementTypes::Copy => c_copy(s, i),
        StatementTypes::Remove => match s.arg1 {
            None => CStep::Stuck,
            Some(Argument::Stack) => CStep::Emit(
                "  if (sp != 0) {\n    pop();\n  } else {\n    return 110;\n  };\n"@,
            ),
            Some(Argument::R0) | Some(Argument::R1) => with_value(
                s.arg1,
                i,
                |v: Seq<char>| CStep::Emit("  "@ + v + " = 0;\n"@),
            ),
            Some(_) => CStep::Fail(invalid_argument(StatementTypes::Remove, i)),
        },
        StatementTypes::Input => CStep::Emit(
            "  push(0);\n  if (fgets(buffer, sizeof(buffer), stdin) != NULL) {\n    buffer[strcspn(buffer, \"\\r\\n\")] = '\\0';\n    for (int i = strlen(buffer) - 1; i >= 0; i--) {\n      push(buffer[i]);\n    }\n  }\n"@,
        ),
        StatementTypes::Add | StatementTypes::Subtract | StatementTypes::Multiply
        | StatementTypes::Divide | StatementTypes::Remainder => match s.arg1 {
            Some(Argument::Literal(_)) | Some(Argument::Stack) => CStep::Fail(
                invalid_argument(s.statement_type, i),
            ),
            _ => with_value(
                s.arg1,
                i,
                |v1: Seq<char>|
                    with_value(
                        s.arg2,
                        i,
                        |v2: Seq<char>|
                            CStep::Emit("  "@ + v1 + c_operator(s.statement_type) + v2 + ";\n"@),
                    ),
            ),
        },
        _ => CStep::Fail(
            error_text(
                ErrorKind::Syntax(SyntaxError::InvalidStatement),
                i,
                "Invalid statement provided."@,
            ),
        ),
    }
}

/// The outcome of translating a list of statements.
pub enum CRun {
    Done(Seq<char>),
    Fail(Seq<char>),
    Stuck,
}

/// Translates the first `n` statements of `stmts`, in order; the first that
/// is refused, or that cannot be translated, ends the run.
pub open spec fn c_run(stmts: Seq<Statement>, n: nat) -> CRun
    decreases n,
{
    if n == 0 {
        CRun::Done(Seq::empty())
    } else {
        match c_run(stmts, (n - 1) as nat) {
            CRun::Done(text) => match c_statement(stmts, n - 1) {
                CStep::Emit(t) => CRun::Done(text + t),
                CStep::Fail(m) => CRun::Fail(m),
                CStep::Stuck => CRun::Stuck,
            },
            other => other,
        }
    }
}

/// The text before the translated statements.
pub open spec fn c_header(stmts: Seq<Statement>) -> Seq<char> {
    "#include <stdio.h>\n\n"@ + (if reads_input(stmts) {
        "#include <string.h>\n\nchar buffer[256] = {0};\n\n"@
    } else {
        "".view()
    }) + "unsigned char r0 = 0;\nunsigned char r1 = 0;\n\n"@
        + "unsigned char stack[1024];\nunsigned int sp = 0;\n\n"@
        + "void push(unsigned char c) { stack[sp++] = c; }\nvoid pop() { sp--; }\n\n"@
        + "int main() {\n"@
}

/// The text after the translated statements.
pub open spec fn c_footer() -> Seq<char> {
    "  return 0;\n}\n"@
}

/// The C program for `stmts`, the diagnostic that refuses them, or nothing
/// where the translation cannot go on.
pub open spec fn transpile_result(stmts: Seq<Statement>) -> Option<Result<Seq<char>, Seq<char>>> {
    match c_run(stmts, stmts.len()) {
        CRun::Done(body) => Some(Ok(c_header(stmts) + body + c_footer())),
        CRun::Fail(m) => Some(Err(m)),
        CRun::Stuck => None,
    }
}


/// Reads an operand as a C expression.
fn arg_to_str(argument: Argument, statement_index: u32) -> (res: Result<String, String>)
    ensures
        match c_value(argument, statement_index as nat) {
            Ok(v) => res matches Ok(s) && s@ == v,
            Err(m) => res matches Err(e) && e@ == m,
        },
{
    match argument {
        Argument::R0 => Ok(String::from_str("r0")),
        Argument::R1 => Ok(String::from_str("r1")),
        Argument::Stack => Ok(String::from_str("stack[sp - 1]")),
        Argument::Literal(val) => {
            let mut s = String::new();
            push_decimal(&mut s, val as u64);
            assert(s@ =~= decimal(val as nat));
            Ok(s)
        },
        _ => {
            let mut msg = String::new();
            msg.append("Argument ");
            argument.push_debug(&mut msg);
            msg.append(" is not readable.");
            Err(
                format_error(
                    ErrorKind::Syntax(SyntaxError::InvalidArguments),
                    statement_index,
                    msg.as_str(),
                ),
            )
        },
    }
}

enum Value {
    Text(String),
    Refused(String),
    Missing,
}

fn value_of(a: Option<Argument>, statement_index: u32) -> (res: Value)
    ensures
        match a {
            None => res is Missing,
            Some(x) => match c_value(x, statement_index as nat) {
                Ok(v) => res matches Value::Text(s) && s@ == v,
                Err(m) => res matches Value::Refused(e) && e@ == m,
            },
        },
{
    match a {
        None => Value::Missing,
        Some(x) => match arg_to_str(x, statement_index) {
            Ok(s) => Value::Text(s),
            Err(e) => Value::Refused(e),
        },
    }
}

enum StepOutcome {
    Emitted,
    Refused(String),
    Stuck,
}

fn invalid_argument_error(t: StatementTypes, idx: u32) -> (res: String)
    ensures
        res@ == invalid_argument(t, idx as nat),
{
    let mut msg = String::new();
    msg.append("Invalid argument supplied for ");
    msg.append(t.name());
    format_error(ErrorKind::Syntax(SyntaxError::InvalidArguments), idx, msg.as_str())
}

fn invalid_arguments_message(t: StatementTypes, idx: u32) -> (res: String)
    ensures
        res@ == invalid_arguments(t, idx as nat),
{
    let mut msg = String::new();
    msg.append("Invalid arguments supplied for ");
    msg.append(t.name());
    format_error(ErrorKind::Syntax(SyntaxError::InvalidArguments), idx, msg.as_str())
}

fn label_message(a: Argument, idx: u32, definition: bool) -> (res: String)
    ensures
        definition ==> res@ == label_definition_error(a, idx as nat),
        !definition ==> res@ == label_reference_error(a, idx as nat),
{
    let mut msg = String::new();
    msg.append("Cannot use argument of type ");
    let shown = a.display();
    msg.append(shown.as_str());
    if definition {
        msg.append(" as label definition.");
    } else {
        msg.append(" as label reference.");
    }
    format_error(ErrorKind::Syntax(SyntaxError::InvalidArguments), idx, msg.as_str())
}

fn c_compare_exec(statements: &Vec<Statement>, idx: usize, out: &mut String) -> (r: StepOutcome)
    requires
        idx + 1 < statements.len(),
        idx < u32::MAX,
    ensures
        match c_compare(statements@, idx as int) {
            CStep::Emit(t) => r is Emitted && final(out)@ == old(out)@ + t,
            CStep::Fail(m) => r matches StepOutcome::Refused(e) && e@ == m,
            CStep::Stuck => r is Stuck,
        },
{
    let statement = statements[idx];
    let next_statement = statements[idx + 1];
    let i = idx as u32;
    let index = match next_statement.arg2 {
        None => {
            return StepOutcome::Stuck;
        },
        Some(Argument::Label { index }) => index,
        Some(_) => {
            return match statement.arg2 {
                None => StepOutcome::Stuck,
                Some(b) => StepOutcome::Refused(label_message(b, i, false)),
            };
        },
    };
    let op = match next_statement.statement_type {
        StatementTypes::Greater => " > ",
        StatementTypes::Less => " < ",
        StatementTypes::Equal => " == ",
        _ => {
            let mut msg = String::new();
            msg.append("Statement ");
            msg.append(statement.statement_type.name());
            msg.append(" has to be preceded by a ");
            msg.append(StatementTypes::Compare.name());
            msg.append(" statement.");
            return StepOutcome::Refused(
                format_error(ErrorKind::Syntax(SyntaxError::InvalidStatement), i, msg.as_str()),
            );
        },
    };
    assert(op@ == c_comparison(next_statement.statement_type));
    let v1 = match value_of(statement.arg1, i) {
        Value::Text(s) => s,
        Value::Refused(e) => {
            return StepOutcome::Refused(e);
        },
        Value::Missing => {
            return StepOutcome::Stuck;
        },
    };
    let v2 = match value_of(statement.arg2, i) {
        Value::Text(s) => s,
        Value::Refused(e) => {
            return StepOutcome::Refused(e);
        },
        Value::Missing => {
            return StepOutcome::Stuck;
        },
    };
    out.append("  if (");
    out.append(v1.as_str());
    out.append(op);
    out.append(v2.as_str());
    out.append(") {\n");
    out.append("    goto label");
    push_decimal(out, index as u64);
    out.append(";\n  }\n");
    assert(out@ =~= old(out)@ + c_compare(statements@, idx as int)->Emit_0);
    StepOutcome::Emitted
}


fn c_copy_exec(statement: Statement, i: u32, out: &mut String) -> (r: StepOutcome)
    ensures
        match c_copy(statement, i as nat) {
            CStep::Emit(t) => r is Emitted && final(out)@ == old(out)@ + t,
            CStep::Fail(m) => r matches StepOutcome::Refused(e) && e@ == m,
            CStep::Stuck => r is Stuck,
        },
{
    let target = match statement.arg2 {
        None => {
            return StepOutcome::Stuck;
        },
        Some(Argument::Literal(_)) => {
            return StepOutcome::Refused(invalid_arguments_message(StatementTypes::Copy, i));
        },
        Some(b) => b,
    };
    let destination = match target {
        Argument::Stack | Argument::StdOut { .. } => None,
        _ => match value_of(Some(target), i) {
            Value::Text(s) => Some(s),
            Value::Refused(e) => {
                return StepOutcome::Refused(e);
            },
            Value::Missing => {
                return StepOutcome::Stuck;
            },
        },
    };
    let v1 = match value_of(statement.arg1, i) {
        Value::Text(s) => s,
        Value::Refused(e) => {
            return StepOutcome::Refused(e);
        },
        Value::Missing => {
            return StepOutcome::Stuck;
        },
    };
    match target {
        Argument::Stack => {
            out.append("  push(");
            out.append(v1.as_str());
            out.append(");\n");
        },
        Argument::StdOut { as_number } => {
            if as_number {
                out.append("  printf(\"%d\", ");
            } else {
                out.append("  putchar(");
            }
            out.append(v1.as_str());
            out.append(");\n");
        },
        _ => {
            let v2 = destination.unwrap();
            out.append("  ");
            out.append(v2.as_str());
            out.append(" = ");
            out.append(v1.as_str());
            out.append(";\n");
        },
    }
    assert(out@ =~= old(out)@ + c_copy(statement, i as nat)->Emit_0);
    StepOutcome::Emitted
}

fn emit_c_statement(statements: &Vec<Statement>, idx: usize, out: &mut String) -> (r: StepOutcome)
    requires
        idx < statements.len(),
        idx < u32::MAX,
    ensures
        match c_statement(statements@, idx as int) {
            CStep::Emit(t) => r is Emitted && final(out)@ == old(out)@ + t,
            CStep::Fail(m) => r matches StepOutcome::Refused(e) && e@ == m,
            CStep::Stuck => r is Stuck,
        },
{
    let statement = statements[idx];
    let i = idx as u32;
    match statement.statement_type {
        StatementTypes::LoopStart => {
            out.append("  do {\n");
        },
        StatementTypes::LoopEnd => {
            out.append("  } while (stack[sp - 1] != 0);\n");
        },
        StatementTypes::Label => {
            match statement.arg2 {
                None => {
                    return StepOutcome::Stuck;
                },
                Some(Argument::Label { index }) => {
                    out.append("label");
                    push_decimal(out, index as u64);
                    out.append(":\n");
                },
                Some(a) => {
                    return StepOutcome::Refused(label_message(a, i, true));
                },
            }
        },
        StatementTypes::Compare => {
            if statements.len() - 1 != idx {
                return c_compare_exec(statements, idx, out);
            }
            assert(out@ =~= old(out)@ + Seq::<char>::empty());
        },
        StatementTypes::Greater | StatementTypes::Less | StatementTypes::Equal => {
            assert(out@ =~= old(out)@ + Seq::<char>::empty());
        },
        StatementTypes::Copy => {
            return c_copy_exec(statement, i, out);
        },
        StatementTypes::Remove => {
            match statement.arg1 {
                None => {
                    return StepOutcome::Stuck;
                },
                Some(Argument::Stack) => {
                    out.append(
                        "  if (sp != 0) {\n    pop();\n  } else {\n    return 110;\n  };\n",
                    );
                },
                Some(Argument::R0) | Some(Argument::R1) => {
                    match value_of(statement.arg1, i) {
                        Value::Text(v) => {
                            out.append("  ");
                            out.append(v.as_str());
                            out.append(" = 0;\n");
                        },
                        Value::Refused(e) => {
                            return StepOutcome::Refused(e);
                        },
                        Value::Missing => {
                            return StepOutcome::Stuck;
                        },
                    }
                },
                Some(_) => {
                    return StepOutcome::Refused(invalid_argument_error(StatementTypes::Remove, i));
                },
            }
        },
        StatementTypes::Input => {
            out.append(
                "  push(0);\n  if (fgets(buffer, sizeof(buffer), stdin) != NULL) {\n    buffer[strcspn(buffer, \"\\r\\n\")] = '\\0';\n    for (int i = strlen(buffer) - 1; i >= 0; i--) {\n      push(buffer[i]);\n    }\n  }\n",
            );
        },
        StatementTypes::Add | StatementTypes::Subtract | StatementTypes::Multiply
        | StatementTypes::Divide | StatementTypes::Remainder => {
            match statement.arg1 {
                Some(Argument::Literal(_)) | Some(Argument::Stack) => {
                    return StepOutcome::Refused(
                        invalid_argument_error(statement.statement_type, i),
                    );
                },
                _ => {},
            }
            let v1 = match value_of(statement.arg1, i) {
                Value::Text(s) => s,
                Value::Refused(e) => {
                    return StepOutcome::Refused(e);
                },
                Value::Missing => {
                    return StepOutcome::Stuck;
                },
            };
            let v2 = match value_of(statement.arg2, i) {
                Value::Text(s) => s,
                Value::Refused(e) => {
                    return StepOutcome::Refused(e);
                },
                Value::Missing => {
                    return StepOutcome::Stuck;
                },
            };
            let op = match statement.statement_type {
                StatementTypes::Add => " += ",
                StatementTypes::Subtract => " -= ",
                StatementTypes::Multiply => " *= ",
                StatementTypes::Divide => " /= ",
                _ => " %= ",
            };
            out.append("  ");
            out.append(v1.as_str());
            out.append(op);
            out.append(v2.as_str());
            out.append(";\n");
        },
        _ => {
            return StepOutcome::Refused(
                format_error(
                    ErrorKind::Syntax(SyntaxError::InvalidStatement),
                    i,
                    "Invalid statement provided.",
                ),
            );
        },
    }
    assert(out@ =~= old(out)@ + c_statement(statements@, idx as int)->Emit_0);
    StepOutcome::Emitted
}


pub(crate) proof fn lemma_c_run_stops(stmts: Seq<Statement>, k: nat, m: nat)
    requires
        k <= m,
        !(c_run(stmts, k) is Done),
    ensures
        c_run(stmts, m) == c_run(stmts, k),
    decreases m - k,
{
    if m > k {
        lemma_c_run_stops(stmts, k, (m - 1) as nat);
    }
}

enum CTranslation {
    Code(String),
    Refused(String),
    Stuck,
}

fn translate_to_c(statements: &Vec<Statement>) -> (r: CTranslation)
    requires
        statements.len() <= u32::MAX,
    ensures
        match transpile_result(statements@) {
            Some(Ok(t)) => r matches CTranslation::Code(s) && s@ == t,
            Some(Err(m)) => r matches CTranslation::Refused(e) && e@ == m,
            None => r is Stuck,
        },
{
    let mut code = String::new();
    code.append("#include <stdio.h>\n\n");
    if any_input(statements) {
        code.append("#include <string.h>\n\nchar buffer[256] = {0};\n\n");
    } else {
        code.append("");
    }
    code.append("unsigned char r0 = 0;\nunsigned char r1 = 0;\n\n");
    code.append("unsigned char stack[1024];\nunsigned int sp = 0;\n\n");
    code.append("void push(unsigned char c) { stack[sp++] = c; }\nvoid pop() { sp--; }\n\n");
    code.append("int main() {\n");
    let ghost header = code@;
    assert(header =~= c_header(statements@));
    let n = statements.len();
    for statement_index in 0..n
        invariant
            n == statements.len(),
            n <= u32::MAX,
            header == c_header(statements@),
            c_run(statements@, statement_index as nat) matches CRun::Done(body) && code@ == header
                + body,
    {
        let r = emit_c_statement(statements, statement_index, &mut code);
        match r {
            StepOutcome::Emitted => {
                assert(code@ =~= header + c_run(statements@, (statement_index + 1) as nat)->Done_0);
            },
            StepOutcome::Refused(e) => {
                proof {
                    lemma_c_run_stops(statements@, (statement_index + 1) as nat, n as nat);
                }
                return CTranslation::Refused(e);
            },
            StepOutcome::Stuck => {
                proof {
                    lemma_c_run_stops(statements@, (statement_index + 1) as nat, n as nat);
                }
                return CTranslation::Stuck;
            },
        }
    }
    code.append("  return 0;\n}\n");
    assert(code@ =~= c_header(statements@) + c_run(statements@, n as nat)->Done_0 + c_footer());
    CTranslation::Code(code)
}

/// Translates `statements` into a C program: a header, the translation of
/// each statement in order, and a footer; or the diagnostic of the first
/// statement that is refused.
pub fn transpile_to_c(statements: Vec<Statement>) -> (res: Result<String, String>)
    requires
        statements.len() <= u32::MAX,
        transpile_result(statements@) is Some,
    ensures
        same_result(res, transpile_result(statements@)->0),
{
    match translate_to_c(&statements) {
        CTranslation::Code(s) => Ok(s),
        CTranslation::Refused(e) => Err(e),
        CTranslation::Stuck => vstd::pervasive::unreached(),
    }
}

/// As `transpile_to_c`, but answers `None`, instead of a result, where a
/// statement lacks an operand that its translation reads.
pub fn try_transpile_to_c(statements: Vec<Statement>) -> (res: Option<Result<String, String>>)
    requires
        statements.len() <= u32::MAX,
    ensures
        res is None <==> transpile_result(statements@) is None,
        res matches Some(r) ==> same_result(r, transpile_result(statements@)->0),
{
    match translate_to_c(&statements) {
        CTranslation::Code(s) => Some(Ok(s)),
        CTranslation::Refused(e) => Some(Err(e)),
        CTranslation::Stuck => None,
    }
}


/// The C variable that holds a register: `r0` for the first, `r1` for the
/// second.
pub open spec fn c_register(r: Argument) -> Seq<char> {
    if r is R0 {
        "r0"@
    } else {
        "r1"@
    }
}

/// In C, each readable operand reads the variable or value it names: the
/// registers `r0` and `r1`, the top of the stack array, or the literal in
/// decimal.
pub proof fn lemma_operands_read_what_they_name(a: Argument, idx: nat)
    requires
        a is Literal || a is R0 || a is R1 || a is Stack,
    ensures
        c_value(a, idx) == Ok::<Seq<char>, Seq<char>>(
            match a {
                Argument::R0 => "r0"@,
                Argument::R1 => "r1"@,
                Argument::Stack => "stack[sp - 1]"@,
                _ => decimal(a->Literal_0 as nat),
            },
        ),
{
}

/// Removing a register assigns 0 to that same register in C.
pub proof fn lemma_remove_register_assigns_zero_to_it(stmts: Seq<Statement>, idx: int)
    requires
        0 <= idx < stmts.len(),
        stmts[idx].statement_type == StatementTypes::Remove,
        stmts[idx].arg1 == Some(Argument::R0) || stmts[idx].arg1 == Some(Argument::R1),
    ensures
        c_statement(stmts, idx) == CStep::Emit(
            if stmts[idx].arg1 == Some(Argument::R0) {
                "  r0 = 0;\n"@
            } else {
                "  r1 = 0;\n"@
            },
        ),
{
    reveal_strlit("  ");
    reveal_strlit(" = 0;\n");
    reveal_strlit("r0");
    reveal_strlit("r1");
    reveal_strlit("  r0 = 0;\n");
    reveal_strlit("  r1 = 0;\n");
    if stmts[idx].arg1 == Some(Argument::R0) {
        assert("  "@ + "r0"@ + " = 0;\n"@ =~= "  r0 = 0;\n"@);
    } else {
        assert("  "@ + "r1"@ + " = 0;\n"@ =~= "  r1 = 0;\n"@);
    }
}

/// A copy in C assigns the value read from its first operand to the
/// register it names second, pushes it onto the stack, or prints it with
/// `putchar` or as a decimal number.
pub proof fn lemma_copy_moves_the_value_in_c(stmts: Seq<Statement>, idx: int)
    requires
        0 <= idx < stmts.len(),
        stmts[idx].statement_type == StatementTypes::Copy,
        stmts[idx].arg1 matches Some(a) && (a is Literal || a is R0 || a is R1 || a is Stack),
        stmts[idx].arg2 matches Some(b) && (b is R0 || b is R1 || b is Stack || b is StdOut),
    ensures
        ({
            let v = c_value(stmts[idx].arg1->0, idx as nat)->Ok_0;
            c_statement(stmts, idx) == CStep::Emit(
                match stmts[idx].arg2->0 {
                    Argument::Stack => "  push("@ + v + ");\n"@,
                    Argument::StdOut { as_number } => if as_number {
                        "  printf(\"%d\", "@ + v + ");\n"@
                    } else {
                        "  putchar("@ + v + ");\n"@
                    },
                    b => "  "@ + c_register(b) + " = "@ + v + ";\n"@,
                },
            )
        }),
{
}

/// An arithmetic statement on a register becomes the C compound assignment
/// to that register with the operator of its type (`+=`, `-=`, `*=`, `/=`,
/// `%=`) and the value read from the second operand.
pub proof fn lemma_arithmetic_updates_register_in_c(stmts: Seq<Statement>, idx: int)
    requires
        0 <= idx < stmts.len(),
        ({
            let t = stmts[idx].statement_type;
            t is Add || t is Subtract || t is Multiply || t is Divide || t is Remainder
        }),
        stmts[idx].arg1 == Some(Argument::R0) || stmts[idx].arg1 == Some(Argument::R1),
        stmts[idx].arg2 matches Some(b) && (b is Literal || b is R0 || b is R1 || b is Stack),
    ensures
        c_statement(stmts, idx) == CStep::Emit(
            "  "@ + c_register(stmts[idx].arg1->0) + match stmts[idx].statement_type {
                StatementTypes::Add => " += "@,
                StatementTypes::Subtract => " -= "@,
                StatementTypes::Multiply => " *= "@,
                StatementTypes::Divide => " /= "@,
                _ => " %= "@,
            } + c_value(stmts[idx].arg2->0, idx as nat)->Ok_0 + ";\n"@,
        ),
{
}

/// A loop start opens a C `do` block and a loop end closes it, repeating
/// while the top of the stack is not zero.
pub proof fn lemma_loops_become_do_while(stmts: Seq<Statement>, idx: int)
    requires
        0 <= idx < stmts.len(),
        stmts[idx].statement_type is LoopStart || stmts[idx].statement_type is LoopEnd,
    ensures
        c_statement(stmts, idx) == CStep::Emit(
            if stmts[idx].statement_type is LoopStart {
                "  do {\n"@
            } else {
                "  } while (stack[sp - 1] != 0);\n"@
            },
        ),
{
}


/// A comparison followed by a conditional jump becomes one C `if` that
/// compares the two operands' values with the relation the jump tests
/// (`>`, `<` or `==`) and jumps to the label the jump names.
pub proof fn lemma_compare_then_jump_in_c(stmts: Seq<Statement>, idx: int, index: u8)
    requires
        0 <= idx < stmts.len() - 1,
        stmts[idx].statement_type == StatementTypes::Compare,
        stmts[idx].arg1 matches Some(a) && (a is Literal || a is R0 || a is R1 || a is Stack),
        stmts[idx].arg2 matches Some(b) && (b is Literal || b is R0 || b is R1 || b is Stack),
        ({
            let t = stmts[idx + 1].statement_type;
            t is Greater || t is Less || t is Equal
        }),
        stmts[idx + 1].arg2 == Some(Argument::Label { index }),
    ensures
        ({
            let t = stmts[idx + 1].statement_type;
            c_statement(stmts, idx) == CStep::Emit(
                "  if ("@ + c_value(stmts[idx].arg1->0, idx as nat)->Ok_0 + (if t is Greater {
                    " > "@
                } else if t is Less {
                    " < "@
                } else {
                    " == "@
                }) + c_value(stmts[idx].arg2->0, idx as nat)->Ok_0 + ") {\n"@ + "    goto label"@
                    + decimal(index as nat) + ";\n  }\n"@,
            )
        }),
{
}


/// A label definition becomes the C label that a jump to the same index
/// goes to: `label` followed by the index in decimal.
pub proof fn lemma_label_becomes_jump_target(stmts: Seq<Statement>, idx: int, index: u8)
    requires
        0 <= idx < stmts.len(),
        stmts[idx].statement_type == StatementTypes::Label,
        stmts[idx].arg2 == Some(Argument::Label { index }),
    ensures
        c_statement(stmts, idx) == CStep::Emit("label"@ + decimal(index as nat) + ":\n"@),
{
}

} // verus!
