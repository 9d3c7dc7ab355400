use vstd::prelude::*;
use crate::error::{ErrorKind, SyntaxError, error_text, format_error};
use crate::text::{decimal, push_decimal, chars_of};

verus! {

/// The operation a statement performs.
#[derive(Debug, Clone, Copy, PartialEq, Eq, Structural)]
pub enum StatementTypes {
    /// A statement with no operation (named `None` in the language's own
    /// terms; that word is reserved here).
    NoOp,
    Input,
    Copy,
    Remove,
    Add,
    Subtract,
    Multiply,
    Divide,
    Remainder,
    LoopStart,
    LoopEnd,
    Label,
    Compare,
    Greater,
    Less,
    Equal,
}

/// Where a statement stands in a loop written with brackets.
#[derive(Debug, Clone, Copy, PartialEq, Eq, Structural)]
pub enum LoopState {
    Start,
    End,
    Both,
}

/// An operand of a statement.
#[derive(Debug, Clone, Copy, PartialEq, Eq, Structural)]
pub enum Argument {
    Literal(u8),
    R0,
    R1,
    Stack,
    StdOut { as_number: bool },
    Label { index: u8 },
}

/// One statement of a program.
#[derive(Debug, Clone, Copy, PartialEq, Eq, Structural)]
pub struct Statement {
    pub statement_type: StatementTypes,
    pub arg1: Option<Argument>,
    pub arg2: Option<Argument>,
    pub loop_state: Option<LoopState>,
}

/// The name of a statement type, as its debug form shows it.
pub open spec fn statement_type_name(t: StatementTypes) -> Seq<char> {
    match t {
        StatementTypes::NoOp => "None"@,
        StatementTypes::Input => "Input"@,
        StatementTypes::Copy => "Copy"@,
        StatementTypes::Remove => "Remove"@,
        StatementTypes::Add => "Add"@,
        StatementTypes::Subtract => "Subtract"@,
        StatementTypes::Multiply => "Multiply"@,
        StatementTypes::Divide => "Divide"@,
        StatementTypes::Remainder => "Remainder"@,
        StatementTypes::LoopStart => "LoopStart"@,
        StatementTypes::LoopEnd => "LoopEnd"@,
        StatementTypes::Label => "Label"@,
        StatementTypes::Compare => "Compare"@,
        StatementTypes::Greater => "Greater"@,
        StatementTypes::Less => "Less"@,
        StatementTypes::Equal => "Equal"@,
    }
}

/// The debug form of an argument, e.g. `Literal(5)` or `StdOut { as_number: true }`.
pub open spec fn argument_debug(a: Argument) -> Seq<char> {
    match a {
        Argument::Literal(v) => "Literal("@ + decimal(v as nat) + ")"@,
        Argument::R0 => "R0"@,
        Argument::R1 => "R1"@,
        Argument::Stack => "Stack"@,
        Argument::StdOut { as_number } => "StdOut { as_number: "@ + (if as_number {
            "true"@
        } else {
            "false"@
        }) + " }"@,
        Argument::Label { index } => "Label { index: "@ + decimal(index as nat) + " }"@,
    }
}

/// How an argument is displayed: `Argument(` and its debug form and `)`.
pub open spec fn argument_display(a: Argument) -> Seq<char> {
    "Argument("@ + argument_debug(a) + ")"@
}

impl StatementTypes {
    /// The name of this statement type.
    pub fn name(&self) -> (res: &'static str)
        ensures
            res@ == statement_type_name(*self),
    {
        match self {
            StatementTypes::NoOp => "None",
            StatementTypes::Input => "Input",
            StatementTypes::Copy => "Copy",
            StatementTypes::Remove => "Remove",
            StatementTypes::Add => "Add",
            StatementTypes::Subtract => "Subtract",
            StatementTypes::Multiply => "Multiply",
            StatementTypes::Divide => "Divide",
            StatementTypes::Remainder => "Remainder",
            StatementTypes::LoopStart => "LoopStart",
            StatementTypes::LoopEnd => "LoopEnd",
            StatementTypes::Label => "Label",
            StatementTypes::Compare => "Compare",
            StatementTypes::Greater => "Greater",
            StatementTypes::Less => "Less",
            StatementTypes::Equal => "Equal",
        }
    }
}

impl Argument {
    /// Appends the debug form of this argument to `out`.
    pub fn push_debug(&self, out: &mut String)
        ensures
            final(out)@ == old(out)@ + argument_debug(*self),
    {
        match *self {
            Argument::Literal(v) => {
                out.append("Literal(");
                push_decimal(out, v as u64);
                out.append(")");
            },
            Argument::R0 => out.append("R0"),
            Argument::R1 => out.append("R1"),
            Argument::Stack => out.append("Stack"),
            Argument::StdOut { as_number } => {
                out.append("StdOut { as_number: ");
                if as_number {
                    out.append("true");
                } else {
                    out.append("false");
                }
                out.append(" }");
            },
            Argument::Label { index } => {
                out.append("Label { index: ");
                push_decimal(out, index as u64);
                out.append(" }");
            },
        }
        assert(out@ =~= old(out)@ + argument_debug(*self));
    }

    /// How this argument is displayed, e.g. `Argument(R0)`.
    pub fn display(&self) -> (res: String)
        ensures
            res@ == argument_display(*self),
    {
        let mut s = String::new();
        s.append("Argument(");
        self.push_debug(&mut s);
        s.append(")");
        assert(s@ =~= argument_display(*self));
        s
    }
}

impl Statement {
    fn new() -> (res: Self)
        ensures
            res == (Statement {
                statement_type: StatementTypes::NoOp,
                arg1: None,
                arg2: None,
                loop_state: None,
            }),
    {
        Statement { statement_type: StatementTypes::NoOp, arg1: None, arg2: None, loop_state: None }
    }
}


/// The characters a program may be written with; all others are dropped.
pub open spec fn is_valid_token(c: char) -> bool {
    c == ';' || c == '0' || c == '1' || c == '[' || c == ']' || c == '\'' || c == '"' || c == ':'
        || c == '\\' || is_statement_token(c)
}

/// The characters that name an operation.
pub open spec fn is_statement_token(c: char) -> bool {
    c == '|' || c == '>' || c == '!' || c == '+' || c == '-' || c == '*' || c == '/' || c == '%'
}

/// What a text is split at.
#[derive(Clone, Copy)]
pub enum Separators {
    /// The statement separator `;`.
    Semicolon,
    /// The operation characters.
    Operators,
}

pub open spec fn separates(mode: Separators, c: char) -> bool {
    match mode {
        Separators::Semicolon => c == ';',
        Separators::Operators => is_statement_token(c),
    }
}

/// `s` with only the characters that are valid tokens, in order.
pub open spec fn keep_valid_tokens(s: Seq<char>) -> Seq<char>
    decreases s.len(),
{
    if s.len() == 0 {
        s
    } else if is_valid_token(s.last()) {
        keep_valid_tokens(s.drop_last()).push(s.last())
    } else {
        keep_valid_tokens(s.drop_last())
    }
}

/// `s` without the bracket characters `[` and `]`.
pub open spec fn strip_brackets(s: Seq<char>) -> Seq<char>
    decreases s.len(),
{
    if s.len() == 0 {
        s
    } else if s.last() != '[' && s.last() != ']' {
        strip_brackets(s.drop_last()).push(s.last())
    } else {
        strip_brackets(s.drop_last())
    }
}

/// The pieces of `s` between separators, as `str::split` yields them: one
/// more piece than there are separators, empty pieces included.
pub open spec fn split_by(s: Seq<char>, mode: Separators) -> Seq<Seq<char>>
    decreases s.len(),
{
    if s.len() == 0 {
        seq![Seq::<char>::empty()]
    } else {
        let p = split_by(s.drop_last(), mode);
        if separates(mode, s.last()) {
            p.push(Seq::<char>::empty())
        } else {
            p.update(p.len() - 1, p.last().push(s.last()))
        }
    }
}

/// The non-empty pieces, in order.
pub open spec fn drop_empty(ps: Seq<Seq<char>>) -> Seq<Seq<char>>
    decreases ps.len(),
{
    if ps.len() == 0 {
        ps
    } else if ps.last().len() > 0 {
        drop_empty(ps.drop_last()).push(ps.last())
    } else {
        drop_empty(ps.drop_last())
    }
}

/// The statements' texts: the valid tokens of `text`, split at `;`, empty
/// pieces dropped. (No white space survives the token filter, so trimming
/// the pieces changes nothing.)
pub open spec fn statement_segments(text: Seq<char>) -> Seq<Seq<char>> {
    drop_empty(split_by(keep_valid_tokens(text), Separators::Semicolon))
}

/// All characters of `s` are binary digits.
pub open spec fn is_binary(s: Seq<char>) -> bool {
    forall|i: int| 0 <= i < s.len() ==> (s[i] == '0' || s[i] == '1')
}

/// The number that the binary digits `s` denote.
pub open spec fn binary_value(s: Seq<char>) -> nat
    decreases s.len(),
{
    if s.len() == 0 {
        0
    } else {
        2 * binary_value(s.drop_last()) + (if s.last() == '1' {
            1nat
        } else {
            0nat
        })
    }
}

/// The result of parsing a piece of a program.
pub enum ParseOutcome<T> {
    /// The piece was understood.
    Done(T),
    /// An argument of the statement with this index has a form that no
    /// argument has.
    Unrecognized(u32),
    /// The piece was rejected with this diagnostic.
    Rejected(Seq<char>),
}

/// How an argument's text is read, for the statement with index `idx`.
pub open spec fn argument_outcome(arg: Seq<char>, idx: u32) -> ParseOutcome<Argument> {
    if arg == seq!['\''] {
        ParseOutcome::Done(Argument::R0)
    } else if arg == seq!['\'', '\''] || arg == seq!['"'] {
        ParseOutcome::Done(Argument::R1)
    } else if arg == seq![':'] {
        ParseOutcome::Done(Argument::Stack)
    } else if arg == seq!['\\'] {
        ParseOutcome::Done(Argument::StdOut { as_number: false })
    } else if is_binary(arg) {
        if arg.len() > 0 && binary_value(arg) < 256 {
            ParseOutcome::Done(Argument::Literal(binary_value(arg) as u8))
        } else {
            ParseOutcome::Rejected(
                error_text(
                    ErrorKind::Syntax(SyntaxError::InvalidArguments),
                    idx as nat,
                    "Invalid binary literal: "@ + arg,
                ),
            )
        }
    } else {
        ParseOutcome::Unrecognized(idx)
    }
}

/// How the operand pieces of a statement are read, in order; the first
/// failure decides.
pub open spec fn arguments_outcome(pieces: Seq<Seq<char>>, idx: u32) -> ParseOutcome<Seq<Argument>>
    decreases pieces.len(),
{
    if pieces.len() == 0 {
        ParseOutcome::Done(Seq::empty())
    } else {
        match arguments_outcome(pieces.drop_last(), idx) {
            ParseOutcome::Done(args) => {
                let a = strip_brackets(pieces.last());
                if a.len() == 0 {
                    ParseOutcome::Done(args)
                } else {
                    match argument_outcome(a, idx) {
                        ParseOutcome::Done(x) => ParseOutcome::Done(args.push(x)),
                        ParseOutcome::Unrecognized(i) => ParseOutcome::Unrecognized(i),
                        ParseOutcome::Rejected(m) => ParseOutcome::Rejected(m),
                    }
                }
            },
            ParseOutcome::Unrecognized(i) => ParseOutcome::Unrecognized(i),
            ParseOutcome::Rejected(m) => ParseOutcome::Rejected(m),
        }
    }
}

/// The loop marker of a statement: `[` at its start, `]` at its end, or both.
pub open spec fn bracket_state(seg: Seq<char>) -> Option<LoopState> {
    let starts = seg.len() > 0 && seg[0] == '[';
    let ends = seg.len() > 0 && seg.last() == ']';
    if starts && ends {
        Some(LoopState::Both)
    } else if starts {
        Some(LoopState::Start)
    } else if ends {
        Some(LoopState::End)
    } else {
        None
    }
}

/// The diagnostic for a statement of type `t` that has `supplied` arguments
/// where it needs `needed`.
pub open spec fn arity_error(t: StatementTypes, needed: nat, supplied: nat, idx: u32) -> Seq<char> {
    error_text(
        ErrorKind::Syntax(SyntaxError::InvalidArguments),
        idx as nat,
        statement_type_name(t) + (if needed == 0 {
            " requires 0 arguments, "@
        } else if needed == 1 {
            " requires 1 argument, "@
        } else {
            " requires 2 arguments, "@
        }) + decimal(supplied) + " supplied"@,
    )
}

/// A statement of type `t` with the two arguments `args`, or the arity error.
pub open spec fn binary_statement(
    t: StatementTypes,
    args: Seq<Argument>,
    loop_state: Option<LoopState>,
    idx: u32,
) -> ParseOutcome<Statement> {
    if args.len() != 2 {
        ParseOutcome::Rejected(arity_error(t, 2, args.len(), idx))
    } else {
        ParseOutcome::Done(
            Statement {
                statement_type: t,
                arg1: Some(args[0]),
                arg2: Some(args[1]),
                loop_state,
            },
        )
    }
}

/// The statement that the operation character of `seg` and the arguments
/// `args` make; the operation characters are tried in a fixed order.
pub open spec fn typed_statement(seg: Seq<char>, args: Seq<Argument>, idx: u32) -> ParseOutcome<
    Statement,
> {
    let ls = bracket_state(seg);
    if seg.contains('|') {
        if args.len() != 0 {
            ParseOutcome::Rejected(arity_error(StatementTypes::Input, 0, args.len(), idx))
        } else {
            ParseOutcome::Done(
                Statement {
                    statement_type: StatementTypes::Input,
                    arg1: None,
                    arg2: None,
                    loop_state: ls,
                },
            )
        }
    } else if seg.contains('>') {
        binary_statement(StatementTypes::Copy, args, ls, idx)
    } else if seg.contains('!') {
        if args.len() != 1 {
            ParseOutcome::Rejected(arity_error(StatementTypes::Remove, 1, args.len(), idx))
        } else {
            ParseOutcome::Done(
                Statement {
                    statement_type: StatementTypes::Remove,
                    arg1: Some(args[0]),
                    arg2: None,
                    loop_state: ls,
                },
            )
        }
    } else if seg.contains('+') {
        binary_statement(StatementTypes::Add, args, ls, idx)
    } else if seg.contains('-') {
        binary_statement(StatementTypes::Subtract, args, ls, idx)
    } else if seg.contains('*') {
        binary_statement(StatementTypes::Multiply, args, ls, idx)
    } else if seg.contains('/') {
        binary_statement(StatementTypes::Divide, args, ls, idx)
    } else if seg.contains('%') {
        binary_statement(StatementTypes::Remainder, args, ls, idx)
    } else {
        ParseOutcome::Done(
            Statement {
                statement_type: StatementTypes::NoOp,
                arg1: None,
                arg2: None,
                loop_state: ls,
            },
        )
    }
}

/// How the text of one statement, with index `idx`, is read.
pub open spec fn statement_outcome(seg: Seq<char>, idx: u32) -> ParseOutcome<Statement> {
    let pieces = split_by(seg, Separators::Operators);
    if pieces.len() > 2 {
        ParseOutcome::Rejected(
            error_text(
                ErrorKind::Syntax(SyntaxError::ChainedOperations),
                idx as nat,
                "Cannot chain multiple operations."@,
            ),
        )
    } else {
        match arguments_outcome(pieces, idx) {
            ParseOutcome::Done(args) => typed_statement(seg, args, idx),
            ParseOutcome::Unrecognized(i) => ParseOutcome::Unrecognized(i),
            ParseOutcome::Rejected(m) => ParseOutcome::Rejected(m),
        }
    }
}

/// How a list of statement texts is read, in order; the first failure decides.
pub open spec fn statements_outcome(segs: Seq<Seq<char>>) -> ParseOutcome<Seq<Statement>>
    decreases segs.len(),
{
    if segs.len() == 0 {
        ParseOutcome::Done(Seq::empty())
    } else {
        match statements_outcome(segs.drop_last()) {
            ParseOutcome::Done(ss) => match statement_outcome(
                segs.last(),
                (segs.len() - 1) as u32,
            ) {
                ParseOutcome::Done(st) => ParseOutcome::Done(ss.push(st)),
                ParseOutcome::Unrecognized(i) => ParseOutcome::Unrecognized(i),
                ParseOutcome::Rejected(m) => ParseOutcome::Rejected(m),
            },
            ParseOutcome::Unrecognized(i) => ParseOutcome::Unrecognized(i),
            ParseOutcome::Rejected(m) => ParseOutcome::Rejected(m),
        }
    }
}

/// An operand that the parser can produce: a literal, a register, the
/// stack, or character output.
pub open spec fn parsed_argument(a: Argument) -> bool {
    a is Literal || a is R0 || a is R1 || a is Stack || a == Argument::StdOut { as_number: false }
}

/// The shape of a statement the parser produces: its type is one the
/// language's operation characters name (or none), and it carries exactly
/// the operands its type reads.
pub open spec fn parsed_shape(s: Statement) -> bool {
    &&& match s.statement_type {
        StatementTypes::NoOp | StatementTypes::Input => s.arg1 is None && s.arg2 is None,
        StatementTypes::Remove => s.arg1 is Some && s.arg2 is None,
        StatementTypes::Copy | StatementTypes::Add | StatementTypes::Subtract
        | StatementTypes::Multiply | StatementTypes::Divide | StatementTypes::Remainder => s.arg1
            is Some && s.arg2 is Some,
        _ => false,
    }
    &&& (s.arg1 matches Some(a) ==> parsed_argument(a))
    &&& (s.arg2 matches Some(a) ==> parsed_argument(a))
}

/// How a program text without comments is read.
pub open spec fn source_outcome(text: Seq<char>) -> ParseOutcome<Seq<Statement>> {
    statements_outcome(statement_segments(text))
}

/// Why a program could not be read.
pub enum SourceError {
    /// A diagnostic in the form `Error <kind> on statement <n>: <message>`.
    Syntax(String),
    /// An argument of the statement with this 0-based index has a form that no
    /// argument has.
    UnreadableArgument(u32),
}

fn is_valid_token_char(c: char) -> (res: bool)
    ensures
        res == is_valid_token(c),
{
    c == ';' || c == '0' || c == '1' || c == '[' || c == ']' || c == '\'' || c == '"' || c == ':'
        || c == '\\' || is_statement_token_char(c)
}

fn is_statement_token_char(c: char) -> (res: bool)
    ensures
        res == is_statement_token(c),
{
    c == '|' || c == '>' || c == '!' || c == '+' || c == '-' || c == '*' || c == '/' || c == '%'
}

fn separates_char(mode: Separators, c: char) -> (res: bool)
    ensures
        res == separates(mode, c),
{
    match mode {
        Separators::Semicolon => c == ';',
        Separators::Operators => is_statement_token_char(c),
    }
}

fn keep_valid(chars: &Vec<char>) -> (res: Vec<char>)
    ensures
        res@ == keep_valid_tokens(chars@),
{
    let mut res: Vec<char> = Vec::new();
    for i in 0..chars.len()
        invariant
            res@ == keep_valid_tokens(chars@.take(i as int)),
    {
        assert(chars@.take(i + 1).drop_last() =~= chars@.take(i as int));
        let c = chars[i];
        if is_valid_token_char(c) {
            res.push(c);
        }
    }
    assert(chars@.take(chars.len() as int) =~= chars@);
    res
}

fn remove_brackets(chars: &Vec<char>) -> (res: Vec<char>)
    ensures
        res@ == strip_brackets(chars@),
{
    let mut res: Vec<char> = Vec::new();
    for i in 0..chars.len()
        invariant
            res@ == strip_brackets(chars@.take(i as int)),
    {
        assert(chars@.take(i + 1).drop_last() =~= chars@.take(i as int));
        let c = chars[i];
        if c != '[' && c != ']' {
            res.push(c);
        }
    }
    assert(chars@.take(chars.len() as int) =~= chars@);
    res
}

proof fn lemma_split_nonempty(s: Seq<char>, mode: Separators)
    ensures
        split_by(s, mode).len() >= 1,
    decreases s.len(),
{
    if s.len() > 0 {
        lemma_split_nonempty(s.drop_last(), mode);
    }
}

fn split_pieces(chars: &Vec<char>, mode: Separators) -> (res: Vec<Vec<char>>)
    ensures
        res.deep_view() == split_by(chars@, mode),
{
    let mut pieces: Vec<Vec<char>> = Vec::new();
    let mut cur: Vec<char> = Vec::new();
    for i in 0..chars.len()
        invariant
            pieces.deep_view().push(cur@) == split_by(chars@.take(i as int), mode),
    {
        assert(chars@.take(i + 1).drop_last() =~= chars@.take(i as int));
        proof {
            lemma_split_nonempty(chars@.take(i as int), mode);
        }
        let ghost before = pieces.deep_view();
        let ghost cur_before = cur@;
        let c = chars[i];
        if separates_char(mode, c) {
            pieces.push(cur);
            cur = Vec::new();
            assert(pieces@.last().deep_view() =~= cur_before);
            assert(pieces.deep_view() =~= before.push(cur_before));
            assert(pieces.deep_view().push(cur@) =~= split_by(chars@.take(i + 1), mode));
        } else {
            cur.push(c);
            assert(pieces.deep_view().push(cur@) =~= split_by(chars@.take(i + 1), mode));
        }
    }
    assert(chars@.take(chars.len() as int) =~= chars@);
    let ghost before = pieces.deep_view();
    let ghost last = cur@;
    pieces.push(cur);
    assert(pieces@.last().deep_view() =~= last);
    assert(pieces.deep_view() =~= before.push(last));
    pieces
}

fn non_empty_pieces(pieces: Vec<Vec<char>>) -> (res: Vec<Vec<char>>)
    ensures
        res.deep_view() == drop_empty(pieces.deep_view()),
{
    let mut res: Vec<Vec<char>> = Vec::new();
    let ghost all = pieces.deep_view();
    let mut pieces = pieces;
    let mut i: usize = 0;
    let n = pieces.len();
    while i < n
        invariant
            n == pieces.len(),
            0 <= i <= n,
            pieces.deep_view() == all,
            res.deep_view() == drop_empty(all.take(i as int)),
        decreases n - i,
    {
        assert(all.take(i + 1).drop_last() =~= all.take(i as int));
        let p = pieces[i].clone();
        assert(p@ == all[i as int]);
        if p.len() > 0 {
            let ghost before = res.deep_view();
            res.push(p);
            assert(res.deep_view() =~= before.push(all[i as int]));
        }
        i = i + 1;
    }
    assert(all.take(n as int) =~= all);
    res
}

fn has_char(chars: &Vec<char>, c: char) -> (res: bool)
    ensures
        res == chars@.contains(c),
{
    for i in 0..chars.len()
        invariant
            forall|j: int| 0 <= j < i ==> chars@[j] != c,
    {
        if chars[i] == c {
            return true;
        }
    }
    false
}


fn all_binary(arg: &Vec<char>) -> (res: bool)
    ensures
        res == is_binary(arg@),
{
    for i in 0..arg.len()
        invariant
            forall|j: int| 0 <= j < i ==> (arg@[j] == '0' || arg@[j] == '1'),
    {
        if arg[i] != '0' && arg[i] != '1' {
            return false;
        }
    }
    true
}

fn binary_literal(arg: &Vec<char>) -> (res: Option<u8>)
    requires
        is_binary(arg@),
    ensures
        match res {
            Some(v) => binary_value(arg@) < 256 && v as nat == binary_value(arg@),
            None => binary_value(arg@) >= 256,
        },
{
    let mut acc: u16 = 0;
    for i in 0..arg.len()
        invariant
            is_binary(arg@),
            acc <= 256,
            acc as nat == (if binary_value(arg@.take(i as int)) < 256 {
                binary_value(arg@.take(i as int))
            } else {
                256
            }),
    {
        assert(arg@.take(i + 1).drop_last() =~= arg@.take(i as int));
        let bit: u16 = if arg[i] == '1' {
            1
        } else {
            0
        };
        if acc < 256 {
            acc = 2 * acc + bit;
            if acc > 256 {
                acc = 256;
            }
        }
    }
    assert(arg@.take(arg.len() as int) =~= arg@);
    if acc < 256 {
        Some(acc as u8)
    } else {
        None
    }
}

/// The message for a binary literal that does not fit in a byte.
fn invalid_literal_message(arg: &Vec<char>) -> (res: String)
    requires
        is_binary(arg@),
    ensures
        res@ == "Invalid binary literal: "@ + arg@,
{
    let mut msg = String::new();
    msg.append("Invalid binary literal: ");
    for i in 0..arg.len()
        invariant
            is_binary(arg@),
            msg@ == "Invalid binary literal: "@ + arg@.take(i as int),
    {
        proof {
            reveal_strlit("0");
            reveal_strlit("1");
        }
        if arg[i] == '1' {
            msg.append("1");
        } else {
            msg.append("0");
        }
        assert(msg@ =~= "Invalid binary literal: "@ + arg@.take(i + 1));
    }
    assert(arg@.take(arg.len() as int) =~= arg@);
    msg
}

/// Reads one operand of the statement numbered `statement_index`: a register,
/// the stack, character output or a binary literal. `Ok(None)` when the text
/// is none of these; a syntax error when it is all binary digits but is empty
/// or its value does not fit in a byte.
pub fn parse_argument(arg: &Vec<char>, statement_index: u32) -> (res: Result<Option<Argument>, SourceError>)
    ensures
        match res {
            Ok(Some(a)) => argument_outcome(arg@, statement_index) == ParseOutcome::Done(a),
            Ok(None) => argument_outcome(arg@, statement_index) == ParseOutcome::<
                Argument,
            >::Unrecognized(statement_index),
            Err(SourceError::Syntax(m)) => argument_outcome(arg@, statement_index)
                == ParseOutcome::<Argument>::Rejected(m@),
            Err(_) => false,
        },
{
    let n = arg.len();
    if n == 1 && arg[0] == '\'' {
        assert(arg@ =~= seq!['\'']);
        Ok(Some(Argument::R0))
    } else if (n == 2 && arg[0] == '\'' && arg[1] == '\'') || (n == 1 && arg[0] == '"') {
        assert(arg@ =~= seq!['\'', '\''] || arg@ =~= seq!['"']);
        Ok(Some(Argument::R1))
    } else if n == 1 && arg[0] == ':' {
        assert(arg@ =~= seq![':']);
        Ok(Some(Argument::Stack))
    } else if n == 1 && arg[0] == '\\' {
        assert(arg@ =~= seq!['\\']);
        Ok(Some(Argument::StdOut { as_number: false }))
    } else if all_binary(arg) {
        assert(arg@ != seq!['\'']);
        assert(arg@ != seq!['\'', '\''] && arg@ != seq!['"']);
        assert(arg@ != seq![':']);
        assert(arg@ != seq!['\\']);
        let value = if n == 0 {
            None
        } else {
            binary_literal(arg)
        };
        match value {
            Some(v) => Ok(Some(Argument::Literal(v))),
            None => {
                let msg = invalid_literal_message(arg);
                Err(
                    SourceError::Syntax(
                        format_error(
                            ErrorKind::Syntax(SyntaxError::InvalidArguments),
                            statement_index,
                            msg.as_str(),
                        ),
                    ),
                )
            },
        }
    } else {
        assert(arg@ != seq!['\'']);
        assert(arg@ != seq!['\'', '\''] && arg@ != seq!['"']);
        assert(arg@ != seq![':']);
        assert(arg@ != seq!['\\']);
        Ok(None)
    }
}


proof fn lemma_arguments_failure_persists(pieces: Seq<Seq<char>>, k: int, m: int, idx: u32)
    requires
        0 <= k <= m <= pieces.len(),
        !(arguments_outcome(pieces.take(k), idx) is Done),
    ensures
        arguments_outcome(pieces.take(m), idx) == arguments_outcome(pieces.take(k), idx),
    decreases m - k,
{
    if m > k {
        lemma_arguments_failure_persists(pieces, k, m - 1, idx);
        assert(pieces.take(m).drop_last() =~= pieces.take(m - 1));
    }
}

fn arity_error_message(t: StatementTypes, needed: u64, supplied: usize, statement_index: u32) -> (res: String)
    requires
        needed <= 2,
    ensures
        res@ == arity_error(t, needed as nat, supplied as nat, statement_index),
{
    let mut msg = String::new();
    msg.append(t.name());
    if needed == 0 {
        msg.append(" requires 0 arguments, ");
    } else if needed == 1 {
        msg.append(" requires 1 argument, ");
    } else {
        msg.append(" requires 2 arguments, ");
    }
    push_decimal(&mut msg, supplied as u64);
    msg.append(" supplied");
    assert(msg@ =~= statement_type_name(t) + (if needed == 0 {
        " requires 0 arguments, "@
    } else if needed == 1 {
        " requires 1 argument, "@
    } else {
        " requires 2 arguments, "@
    }) + decimal(supplied as nat) + " supplied"@);
    format_error(ErrorKind::Syntax(SyntaxError::InvalidArguments), statement_index, msg.as_str())
}

fn binary_statement_exec(
    t: StatementTypes,
    args: &Vec<Argument>,
    loop_state: Option<LoopState>,
    statement_index: u32,
) -> (res: Result<Statement, SourceError>)
    ensures
        match res {
            Ok(st) => binary_statement(t, args@, loop_state, statement_index) == ParseOutcome::Done(
                st,
            ),
            Err(SourceError::Syntax(m)) => binary_statement(t, args@, loop_state, statement_index)
                == ParseOutcome::<Statement>::Rejected(m@),
            Err(_) => false,
        },
{
    if args.len() != 2 {
        Err(SourceError::Syntax(arity_error_message(t, 2, args.len(), statement_index)))
    } else {
        Ok(Statement { statement_type: t, arg1: Some(args[0]), arg2: Some(args[1]), loop_state })
    }
}

fn parse_statement(statement: &Vec<char>, statement_index: u32) -> (res: Result<Statement, SourceError>)
    ensures
        match res {
            Ok(st) => statement_outcome(statement@, statement_index) == ParseOutcome::Done(st),
            Err(SourceError::Syntax(m)) => statement_outcome(statement@, statement_index)
                == ParseOutcome::<Statement>::Rejected(m@),
            Err(SourceError::UnreadableArgument(i)) => statement_outcome(
                statement@,
                statement_index,
            ) == ParseOutcome::<Statement>::Unrecognized(i),
        },
{
    let mut statement_struct = Statement::new();
    let n = statement.len();
    let starts = n > 0 && statement[0] == '[';
    let ends = n > 0 && statement[n - 1] == ']';
    if starts && ends {
        statement_struct.loop_state = Some(LoopState::Both);
    } else if starts {
        statement_struct.loop_state = Some(LoopState::Start);
    } else if ends {
        statement_struct.loop_state = Some(LoopState::End);
    }
    assert(statement_struct.loop_state == bracket_state(statement@));

    let raw_args = split_pieces(statement, Separators::Operators);
    if raw_args.len() > 2 {
        return Err(
            SourceError::Syntax(
                format_error(
                    ErrorKind::Syntax(SyntaxError::ChainedOperations),
                    statement_index,
                    "Cannot chain multiple operations.",
                ),
            ),
        );
    }
    let ghost pieces = raw_args.deep_view();
    let mut args: Vec<Argument> = Vec::new();
    for i in 0..raw_args.len()
        invariant
            pieces == raw_args.deep_view(),
            pieces == split_by(statement@, Separators::Operators),
            pieces.len() <= 2,
            arguments_outcome(pieces.take(i as int), statement_index) == ParseOutcome::Done(args@),
    {
        assert(pieces.take(i + 1).drop_last() =~= pieces.take(i as int));
        assert(raw_args@[i as int].deep_view() =~= raw_args@[i as int]@);
        let filtered = remove_brackets(&raw_args[i]);
        if filtered.len() > 0 {
            match parse_argument(&filtered, statement_index) {
                Ok(Some(a)) => {
                    args.push(a);
                },
                Ok(None) => {
                    proof {
                        lemma_arguments_failure_persists(
                            pieces,
                            i + 1,
                            pieces.len() as int,
                            statement_index,
                        );
                        assert(pieces.take(pieces.len() as int) =~= pieces);
                    }
                    return Err(SourceError::UnreadableArgument(statement_index));
                },
                Err(e) => {
                    proof {
                        lemma_arguments_failure_persists(
                            pieces,
                            i + 1,
                            pieces.len() as int,
                            statement_index,
                        );
                        assert(pieces.take(pieces.len() as int) =~= pieces);
                    }
                    return Err(e);
                },
            }
        }
    }
    assert(pieces.take(pieces.len() as int) =~= pieces);
    let ls = statement_struct.loop_state;
    if has_char(statement, '|') {
        if args.len() != 0 {
            return Err(
                SourceError::Syntax(
                    arity_error_message(StatementTypes::Input, 0, args.len(), statement_index),
                ),
            );
        }
        statement_struct.statement_type = StatementTypes::Input;
        Ok(statement_struct)
    } else if has_char(statement, '>') {
        binary_statement_exec(StatementTypes::Copy, &args, ls, statement_index)
    } else if has_char(statement, '!') {
        if args.len() != 1 {
            return Err(
                SourceError::Syntax(
                    arity_error_message(StatementTypes::Remove, 1, args.len(), statement_index),
                ),
            );
        }
        statement_struct.statement_type = StatementTypes::Remove;
        statement_struct.arg1 = Some(args[0]);
        Ok(statement_struct)
    } else if has_char(statement, '+') {
        binary_statement_exec(StatementTypes::Add, &args, ls, statement_index)
    } else if has_char(statement, '-') {
        binary_statement_exec(StatementTypes::Subtract, &args, ls, statement_index)
    } else if has_char(statement, '*') {
        binary_statement_exec(StatementTypes::Multiply, &args, ls, statement_index)
    } else if has_char(statement, '/') {
        binary_statement_exec(StatementTypes::Divide, &args, ls, statement_index)
    } else if has_char(statement, '%') {
        binary_statement_exec(StatementTypes::Remainder, &args, ls, statement_index)
    } else {
        Ok(statement_struct)
    }
}


proof fn lemma_statements_failure_persists(segs: Seq<Seq<char>>, k: int, m: int)
    requires
        0 <= k <= m <= segs.len(),
        !(statements_outcome(segs.take(k)) is Done),
    ensures
        statements_outcome(segs.take(m)) == statements_outcome(segs.take(k)),
    decreases m - k,
{
    if m > k {
        lemma_statements_failure_persists(segs, k, m - 1);
        assert(segs.take(m).drop_last() =~= segs.take(m - 1));
    }
}

/// `res` reports the outcome `outcome` of reading a program.
pub open spec fn reports_source(
    res: Result<Vec<Statement>, SourceError>,
    outcome: ParseOutcome<Seq<Statement>>,
) -> bool {
    match res {
        Ok(v) => outcome == ParseOutcome::Done(v@),
        Err(SourceError::Syntax(m)) => outcome == ParseOutcome::<Seq<Statement>>::Rejected(m@),
        Err(SourceError::UnreadableArgument(i)) => outcome
            == ParseOutcome::<Seq<Statement>>::Unrecognized(i),
    }
}

/// Reads a program whose comments are already removed: keeps the valid
/// tokens, splits them into statements at `;` and reads each statement.
pub fn parse_stripped_source(text: &str) -> (res: Result<Vec<Statement>, SourceError>)
    ensures
        reports_source(res, source_outcome(text@)),
{
    let chars = chars_of(text);
    let filtered = keep_valid(&chars);
    let raw = split_pieces(&filtered, Separators::Semicolon);
    let raw_statements = non_empty_pieces(raw);
    let ghost segs = raw_statements.deep_view();
    assert(segs == statement_segments(text@));
    let mut statements: Vec<Statement> = Vec::new();
    for i in 0..raw_statements.len()
        invariant
            segs == raw_statements.deep_view(),
            segs == statement_segments(text@),
            statements_outcome(segs.take(i as int)) == ParseOutcome::Done(statements@),
    {
        assert(segs.take(i + 1).drop_last() =~= segs.take(i as int));
        assert(raw_statements@[i as int].deep_view() =~= raw_statements@[i as int]@);
        match parse_statement(&raw_statements[i], i as u32) {
            Ok(st) => {
                statements.push(st);
            },
            Err(e) => {
                proof {
                    lemma_statements_failure_persists(segs, i + 1, segs.len() as int);
                    assert(segs.take(segs.len() as int) =~= segs);
                }
                return Err(e);
            },
        }
    }
    assert(segs.take(segs.len() as int) =~= segs);
    Ok(statements)
}

/// The comment syntax: from a `$` to the next `$`, both included.
pub open spec fn comment_pattern() -> Seq<char> {
    "\\$[\\s\\S]*?\\$"@
}

/// The position of the first `$` in `s`, if there is one.
pub open spec fn first_dollar(s: Seq<char>) -> Option<nat>
    decreases s.len(),
{
    if s.len() == 0 {
        None
    } else if s[0] == '$' {
        Some(0)
    } else {
        match first_dollar(s.drop_first()) {
            Some(k) => Some(k + 1),
            None => None,
        }
    }
}

/// A position that `first_dollar` gives holds a `$` and no `$` comes before it;
/// where it gives none, `s` holds no `$`.
pub proof fn lemma_first_dollar(s: Seq<char>)
    ensures
        match first_dollar(s) {
            Some(k) => k < s.len() && s[k as int] == '$' && forall|i: int|
                0 <= i < k ==> s[i] != '$',
            None => forall|i: int| 0 <= i < s.len() ==> s[i] != '$',
        },
    decreases s.len(),
{
    if s.len() > 0 && s[0] != '$' {
        lemma_first_dollar(s.drop_first());
        assert forall|i: int| 1 <= i < s.len() implies s[i] == s.drop_first()[i - 1] by {}
    }
}

/// `s` with its comments taken out. Read from the left, each `$` and the
/// text up to and including the next `$` are deleted; a `$` with no `$`
/// after it stays, and so does all that follows it.
pub open spec fn strip_comments(s: Seq<char>) -> Seq<char>
    decreases s.len(),
{
    if s.len() == 0 {
        s
    } else if s[0] != '$' {
        seq![s[0]] + strip_comments(s.drop_first())
    } else {
        match first_dollar(s.drop_first()) {
            None => s,
            Some(k) => {
                proof {
                    lemma_first_dollar(s.drop_first());
                }
                strip_comments(s.skip(k + 2 as int))
            },
        }
    }
}

/// `t` holds at most one `$`.
pub open spec fn at_most_one_dollar(t: Seq<char>) -> bool {
    forall|i: int, j: int| 0 <= i < j < t.len() ==> !(#[trigger] t[i] == '$' && #[trigger] t[j] == '$')
}

/// A text with at most one `$` holds no comment: taking the comments out
/// leaves it as it is.
pub proof fn lemma_text_without_comment_is_kept(t: Seq<char>)
    requires
        at_most_one_dollar(t),
    ensures
        strip_comments(t) == t,
    decreases t.len(),
{
    if t.len() > 0 {
        let rest = t.drop_first();
        if t[0] != '$' {
            assert forall|i: int, j: int| 0 <= i < j < rest.len() implies !(#[trigger] rest[i] == '$'
                && #[trigger] rest[j] == '$') by {
                assert(rest[i] == t[i + 1] && rest[j] == t[j + 1]);
            }
            lemma_text_without_comment_is_kept(rest);
            assert(seq![t[0]] + rest =~= t);
        } else {
            lemma_first_dollar(rest);
            if first_dollar(rest) is Some {
                let k = first_dollar(rest)->0;
                assert(t[k + 1 as int] == '$');
            }
        }
    }
}

/// What comment removal leaves holds at most one `$`: a `$` with no partner.
pub proof fn lemma_stripped_text_has_at_most_one_dollar(s: Seq<char>)
    ensures
        at_most_one_dollar(strip_comments(s)),
    decreases s.len(),
{
    if s.len() > 0 {
        let rest = s.drop_first();
        if s[0] != '$' {
            lemma_stripped_text_has_at_most_one_dollar(rest);
            let r = strip_comments(rest);
            let out = seq![s[0]] + r;
            assert forall|i: int, j: int| 0 <= i < j < out.len() implies !(#[trigger] out[i] == '$'
                && #[trigger] out[j] == '$') by {
                if i > 0 {
                    assert(out[i] == r[i - 1] && out[j] == r[j - 1]);
                }
            }
        } else {
            lemma_first_dollar(rest);
            match first_dollar(rest) {
                None => {
                    assert forall|i: int, j: int| 0 <= i < j < s.len() implies !(#[trigger] s[i]
                        == '$' && #[trigger] s[j] == '$') by {
                        assert(s[j] == rest[j - 1]);
                    }
                },
                Some(k) => {
                    lemma_stripped_text_has_at_most_one_dollar(s.skip(k + 2 as int));
                },
            }
        }
    }
}

/// Comment removal leaves no comment behind: taking the comments out a second
/// time changes nothing.
pub proof fn lemma_comment_removal_is_idempotent(s: Seq<char>)
    ensures
        strip_comments(strip_comments(s)) == strip_comments(s),
{
    lemma_stripped_text_has_at_most_one_dollar(s);
    lemma_text_without_comment_is_kept(strip_comments(s));
}

/// What `regex_lite` makes of `haystack` when every match of `pattern` in it
/// is replaced by `replacement`.
pub uninterp spec fn regex_replace_all_result(
    pattern: Seq<char>,
    haystack: Seq<char>,
    replacement: Seq<char>,
) -> Seq<char>;

#[verifier::external_type_specification]
#[verifier::external_body]
pub struct ExRegexError(regex_lite::Error);

/// Compiles `pattern` with `regex_lite::Regex::new` and, when that succeeds,
/// replaces every match in `haystack` with `replacement` by
/// `regex_lite::Regex::replace_all`. The contract claims three things.
/// A success is the named result of these three texts. The comment pattern is
/// accepted: `Regex::new` refuses only a pattern that does not parse or whose
/// compiled form exceeds its size and nesting limits, and the comment pattern
/// (an escaped `$`, the classes `\s` and `\S`, a lazy `*?`) parses and is far
/// below those limits. And the comment pattern with an empty replacement
/// gives `strip_comments` of the haystack: `replace_all` walks the
/// non-overlapping matches from the left, leftmost first; a match of the
/// pattern starts at a `$` that has another `$` after it, and the lazy `*?`
/// ends it at the nearest such `$` (`[\s\S]` takes any character); each match
/// is replaced by the empty text, which holds no `$` group to expand, and the
/// text between and after the matches is kept. It says nothing of when other
/// patterns are refused, nor of what their matches are.
#[verifier::external_body]
fn replace_all_matches(pattern: &str, haystack: &str, replacement: &str) -> (res: Result<
    String,
    regex_lite::Error,
>)
    ensures
        res matches Ok(s) ==> s@ == regex_replace_all_result(pattern@, haystack@, replacement@),
        pattern@ == comment_pattern() ==> res is Ok,
        res matches Ok(s) ==> (pattern@ == comment_pattern() && replacement@.len() == 0 ==> s@
            == strip_comments(haystack@)),
{
    let re = regex_lite::Regex::new(pattern)?;
    Ok(re.replace_all(haystack, replacement).into_owned())
}

/// Reads a program: removes the `$ ... $` comments, then reads what is left
/// as `parse_stripped_source` does.
pub fn parse_source(src: String) -> (res: Result<Vec<Statement>, SourceError>)
    ensures
        reports_source(res, source_outcome(strip_comments(src@))),
{
    let pattern = "\\$[\\s\\S]*?\\$";
    let empty = "";
    proof {
        reveal_strlit("");
    }
    match replace_all_matches(pattern, src.as_str(), empty) {
        Ok(stripped) => parse_stripped_source(stripped.as_str()),
        Err(_) => vstd::pervasive::unreached(),
    }
}


proof fn lemma_arguments_parsed(pieces: Seq<Seq<char>>, idx: u32)
    ensures
        arguments_outcome(pieces, idx) matches ParseOutcome::Done(args) ==> forall|i: int|
            0 <= i < args.len() ==> parsed_argument(#[trigger] args[i]),
    decreases pieces.len(),
{
    if pieces.len() > 0 {
        lemma_arguments_parsed(pieces.drop_last(), idx);
    }
}

proof fn lemma_statement_parsed(seg: Seq<char>, idx: u32)
    ensures
        statement_outcome(seg, idx) matches ParseOutcome::Done(st) ==> parsed_shape(st),
{
    lemma_arguments_parsed(split_by(seg, Separators::Operators), idx);
}

/// Every statement that the parser reads from a text has the shape of a
/// parsed statement: an operation that the language's characters name, with
/// exactly the operands that operation reads, each a literal, a register,
/// the stack or character output.
pub proof fn lemma_parsed_statements_have_their_operands(text: Seq<char>)
    ensures
        source_outcome(text) matches ParseOutcome::Done(ss) ==> forall|i: int|
            0 <= i < ss.len() ==> parsed_shape(#[trigger] ss[i]),
{
    lemma_statements_parsed(statement_segments(text));
}

proof fn lemma_statements_parsed(segs: Seq<Seq<char>>)
    ensures
        statements_outcome(segs) matches ParseOutcome::Done(ss) ==> forall|i: int|
            0 <= i < ss.len() ==> parsed_shape(#[trigger] ss[i]),
    decreases segs.len(),
{
    if segs.len() > 0 {
        lemma_statements_parsed(segs.drop_last());
        lemma_statement_parsed(segs.last(), (segs.len() - 1) as u32);
    }
}


/// The binary notation of `n`, without leading zeros.
pub open spec fn binary_digits(n: nat) -> Seq<char>
    decreases n,
{
    if n < 2 {
        seq![if n == 1 {
            '1'
        } else {
            '0'
        }]
    } else {
        binary_digits(n / 2).push(
            if n % 2 == 1 {
                '1'
            } else {
                '0'
            },
        )
    }
}

pub(crate) proof fn lemma_binary_digits_value(n: nat)
    ensures
        is_binary(binary_digits(n)),
        binary_value(binary_digits(n)) == n,
        binary_digits(n).len() >= 1,
    decreases n,
{
    if n >= 2 {
        lemma_binary_digits_value(n / 2);
        let d = binary_digits(n);
        assert(d.drop_last() =~= binary_digits(n / 2));
        assert(d.last() == (if n % 2 == 1 {
            '1'
        } else {
            '0'
        }));
        assert(n == 2 * (n / 2) + n % 2);
        assert(binary_value(d) == 2 * binary_value(d.drop_last()) + (if d.last() == '1' {
            1nat
        } else {
            0nat
        }));
    } else {
        let d = binary_digits(n);
        assert(d.drop_last() =~= Seq::<char>::empty());
        assert(binary_value(d.drop_last()) == 0);
        assert(binary_value(d) == 2 * binary_value(d.drop_last()) + (if d.last() == '1' {
            1nat
        } else {
            0nat
        }));
    }
}

/// An argument written as the binary notation of a byte reads as that byte.
pub proof fn lemma_binary_literal_reads_its_value(v: u8, idx: u32)
    ensures
        argument_outcome(binary_digits(v as nat), idx) == ParseOutcome::Done(Argument::Literal(v)),
{
    lemma_binary_digits_value(v as nat);
    let d = binary_digits(v as nat);
    assert(d.contains(d[0]));
    assert(d != seq!['\'']) by {
        if d == seq!['\''] {
            assert(d[0] == '\'');
        }
    }
    assert(d != seq!['\'', '\'']) by {
        if d == seq!['\'', '\''] {
            assert(d[0] == '\'');
        }
    }
    assert(d != seq!['"']) by {
        if d == seq!['"'] {
            assert(d[0] == '"');
        }
    }
    assert(d != seq![':']) by {
        if d == seq![':'] {
            assert(d[0] == ':');
        }
    }
    assert(d != seq!['\\']) by {
        if d == seq!['\\'] {
            assert(d[0] == '\\');
        }
    }
}


proof fn lemma_statements_count(segs: Seq<Seq<char>>)
    ensures
        statements_outcome(segs) matches ParseOutcome::Done(ss) ==> ss.len() == segs.len(),
    decreases segs.len(),
{
    if segs.len() > 0 {
        lemma_statements_count(segs.drop_last());
    }
}

/// A program that is read has one statement for each non-empty piece of
/// its valid tokens between `;` separators.
pub proof fn lemma_one_statement_per_piece(text: Seq<char>)
    ensures
        source_outcome(text) matches ParseOutcome::Done(ss) ==> ss.len() == statement_segments(
            text,
        ).len(),
{
    lemma_statements_count(statement_segments(text));
}


/// `ls` is the loop marker that the brackets of the statement text `seg`
/// call for: a start exactly when the text opens with `[`, an end exactly
/// when it closes with `]`, both when it does both, none otherwise.
pub open spec fn marks_brackets(seg: Seq<char>, ls: Option<LoopState>) -> bool {
    &&& (ls == Some(LoopState::Start) || ls == Some(LoopState::Both)) <==> (seg.len() > 0 && seg[0]
        == '[')
    &&& (ls == Some(LoopState::End) || ls == Some(LoopState::Both)) <==> (seg.len() > 0 && seg[seg.len()
        - 1] == ']')
}

/// The statement text `seg` holds the character that names the operation
/// `t`; a statement with no operation holds none of those characters.
pub open spec fn names_operation(seg: Seq<char>, t: StatementTypes) -> bool {
    match t {
        StatementTypes::Input => seg.contains('|'),
        StatementTypes::Copy => seg.contains('>'),
        StatementTypes::Remove => seg.contains('!'),
        StatementTypes::Add => seg.contains('+'),
        StatementTypes::Subtract => seg.contains('-'),
        StatementTypes::Multiply => seg.contains('*'),
        StatementTypes::Divide => seg.contains('/'),
        StatementTypes::Remainder => seg.contains('%'),
        StatementTypes::NoOp => !seg.contains('|') && !seg.contains('>') && !seg.contains('!')
            && !seg.contains('+') && !seg.contains('-') && !seg.contains('*') && !seg.contains('/')
            && !seg.contains('%'),
        _ => false,
    }
}

proof fn lemma_statement_follows_its_text(seg: Seq<char>, idx: u32)
    ensures
        statement_outcome(seg, idx) matches ParseOutcome::Done(st) ==> marks_brackets(
            seg,
            st.loop_state,
        ) && names_operation(seg, st.statement_type),
{
}

proof fn lemma_statements_follow_their_texts(segs: Seq<Seq<char>>)
    ensures
        statements_outcome(segs) matches ParseOutcome::Done(ss) ==> ss.len() == segs.len() && forall|
            i: int,
        |
            0 <= i < ss.len() ==> marks_brackets(segs[i], #[trigger] ss[i].loop_state)
                && names_operation(segs[i], ss[i].statement_type),
    decreases segs.len(),
{
    if segs.len() > 0 {
        lemma_statements_follow_their_texts(segs.drop_last());
        lemma_statement_follows_its_text(segs.last(), (segs.len() - 1) as u32);
        if statements_outcome(segs) is Done {
            let ss = statements_outcome(segs)->Done_0;
            let prev = statements_outcome(segs.drop_last())->Done_0;
            assert forall|i: int| 0 <= i < ss.len() implies marks_brackets(
                segs[i],
                #[trigger] ss[i].loop_state,
            ) && names_operation(segs[i], ss[i].statement_type) by {
                if i < ss.len() - 1 {
                    assert(ss[i] == prev[i]);
                    assert(segs[i] == segs.drop_last()[i]);
                }
            }
        }
    }
}

/// Each statement read from a program follows its own text: its loop
/// marker is the one its brackets call for (a start when it opens with
/// `[`, an end when it closes with `]`), whatever its operation, and its
/// operation is the one whose character its text holds.
pub proof fn lemma_parsed_statements_follow_their_text(text: Seq<char>)
    ensures
        source_outcome(text) matches ParseOutcome::Done(ss) ==> ss.len() == statement_segments(
            text,
        ).len() && forall|i: int|
            0 <= i < ss.len() ==> marks_brackets(
                statement_segments(text)[i],
                #[trigger] ss[i].loop_state,
            ) && names_operation(statement_segments(text)[i], ss[i].statement_type),
{
    lemma_statements_follow_their_texts(statement_segments(text));
}


/// An operand's text names exactly one operand: `'` the first register,
/// `''` or `"` the second, `:` the stack, `\` character output, and a
/// non-empty run of binary digits whose value is below 256 the literal of
/// that value. No other text reads as an operand.
pub proof fn lemma_operand_texts_name_their_operands(arg: Seq<char>, idx: u32)
    ensures
        argument_outcome(arg, idx) == ParseOutcome::Done(Argument::R0) <==> arg == seq!['\''],
        argument_outcome(arg, idx) == ParseOutcome::Done(Argument::R1) <==> (arg == seq!['\'', '\'']
            || arg == seq!['"']),
        argument_outcome(arg, idx) == ParseOutcome::Done(Argument::Stack) <==> arg == seq![':'],
        argument_outcome(arg, idx) == ParseOutcome::Done(Argument::StdOut { as_number: false })
            <==> arg == seq!['\\'],
        argument_outcome(arg, idx) matches ParseOutcome::Done(Argument::Literal(v)) ==> arg.len() > 0
            && is_binary(arg) && binary_value(arg) == v,
        arg.len() > 0 && is_binary(arg) && binary_value(arg) < 256 ==> argument_outcome(arg, idx)
            == ParseOutcome::Done(Argument::Literal(binary_value(arg) as u8)),
        argument_outcome(arg, idx) matches ParseOutcome::Done(a) ==> (a is R0 || a is R1 || a is Stack
            || a == Argument::StdOut { as_number: false } || a is Literal),
{
    if arg == seq!['\''] || arg == seq!['\'', '\''] || arg == seq!['"'] || arg == seq![':'] || arg
        == seq!['\\'] {
        assert(!is_binary(arg)) by {
            assert(!(arg[0] == '0' || arg[0] == '1'));
        }
    }
    if arg.len() > 0 && is_binary(arg) {
        assert(arg[0] == '0' || arg[0] == '1');
        assert(arg != seq!['\'']) by {
            if arg == seq!['\''] {
                assert(arg[0] == '\'');
            }
        }
        assert(arg != seq!['\'', '\'']) by {
            if arg == seq!['\'', '\''] {
                assert(arg[0] == '\'');
            }
        }
        assert(arg != seq!['"']) by {
            if arg == seq!['"'] {
                assert(arg[0] == '"');
            }
        }
        assert(arg != seq![':']) by {
            if arg == seq![':'] {
                assert(arg[0] == ':');
            }
        }
        assert(arg != seq!['\\']) by {
            if arg == seq!['\\'] {
                assert(arg[0] == '\\');
            }
        }
    }
}

} // verus!
