use vstd::prelude::*;
use crate::text::{decimal, push_decimal};

verus! {

/// Errors in the text of a program.
#[derive(Debug, Clone, Copy, PartialEq, Eq, Structural)]
pub enum SyntaxError {
    InvalidToken,
    InvalidArguments,
    InvalidSource,
    InvalidDestination,
    InvalidStatement,
    ChainedOperations,
}

/// Errors that only show while a program runs.
#[derive(Debug, Clone, Copy, PartialEq, Eq, Structural)]
pub enum RuntimeError {
    EmptyStackRead,
}

/// Errors that the assembly generator finds.
#[derive(Debug, Clone, Copy, PartialEq, Eq, Structural)]
pub enum CompileError {
    StackUnderflow,
}

/// Any of the error kinds above, as reported in a diagnostic.
#[derive(Debug, Clone, Copy, PartialEq, Eq, Structural)]
pub enum ErrorKind {
    Syntax(SyntaxError),
    Runtime(RuntimeError),
    Compile(CompileError),
}

/// The name of a syntax error variant.
pub open spec fn syntax_error_name(e: SyntaxError) -> Seq<char> {
    match e {
        SyntaxError::InvalidToken => "InvalidToken"@,
        SyntaxError::InvalidArguments => "InvalidArguments"@,
        SyntaxError::InvalidSource => "InvalidSource"@,
        SyntaxError::InvalidDestination => "InvalidDestination"@,
        SyntaxError::InvalidStatement => "InvalidStatement"@,
        SyntaxError::ChainedOperations => "ChainedOperations"@,
    }
}

/// How an error kind is shown, e.g. `SyntaxError(InvalidArguments)`.
pub open spec fn error_kind_text(k: ErrorKind) -> Seq<char> {
    match k {
        ErrorKind::Syntax(e) => "SyntaxError("@ + syntax_error_name(e) + ")"@,
        ErrorKind::Runtime(_) => "RuntimeError(EmptyStackRead)"@,
        ErrorKind::Compile(_) => "CompileError(StackUnderflow)"@,
    }
}

/// The diagnostic reported for an error on the statement with 0-based index
/// `statement_number`; statements are counted from 1 in the text.
pub open spec fn error_text(k: ErrorKind, statement_number: nat, msg: Seq<char>) -> Seq<char> {
    "Error "@ + error_kind_text(k) + " on statement "@ + decimal(statement_number + 1) + ": "@
        + msg
}

fn syntax_error_name_str(e: SyntaxError) -> (res: &'static str)
    ensures
        res@ == syntax_error_name(e),
{
    match e {
        SyntaxError::InvalidToken => "InvalidToken",
        SyntaxError::InvalidArguments => "InvalidArguments",
        SyntaxError::InvalidSource => "InvalidSource",
        SyntaxError::InvalidDestination => "InvalidDestination",
        SyntaxError::InvalidStatement => "InvalidStatement",
        SyntaxError::ChainedOperations => "ChainedOperations",
    }
}

impl SyntaxError {
    /// The text of this error as it is displayed, e.g. `SyntaxError(InvalidToken)`.
    pub fn display(&self) -> (res: String)
        ensures
            res@ == error_kind_text(ErrorKind::Syntax(*self)),
    {
        let mut s = String::new();
        s.append("SyntaxError(");
        s.append(syntax_error_name_str(*self));
        s.append(")");
        assert(s@ =~= error_kind_text(ErrorKind::Syntax(*self)));
        s
    }
}

/// Formats the diagnostic for an error of kind `kind` on the statement with
/// 0-based index `statement_number`.
pub fn format_error(kind: ErrorKind, statement_number: u32, msg: &str) -> (res: String)
    ensures
        res@ == error_text(kind, statement_number as nat, msg@),
{
    let mut s = String::new();
    s.append("Error ");
    match kind {
        ErrorKind::Syntax(e) => {
            s.append("SyntaxError(");
            s.append(syntax_error_name_str(e));
            s.append(")");
        },
        ErrorKind::Runtime(_) => {
            s.append("RuntimeError(EmptyStackRead)");
        },
        ErrorKind::Compile(_) => {
            s.append("CompileError(StackUnderflow)");
        },
    }
    s.append(" on statement ");
    push_decimal(&mut s, statement_number as u64 + 1);
    s.append(": ");
    s.append(msg);
    assert(s@ =~= error_text(kind, statement_number as nat, msg@));
    s
}

} // verus!
