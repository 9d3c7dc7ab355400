use vstd::prelude::*;
use crate::error::{CompileError, ErrorKind, SyntaxError, error_text, format_error};
use crate::parser::{Argument, LoopState, Statement, StatementTypes, argument_display, statement_type_name};
use crate::text::{decimal, push_decimal};

verus! {

/// The platform the generated assembly is meant for.
#[derive(Debug, Clone, Copy, PartialEq, Eq, Structural)]
pub enum Target {
    Linux,
    Windows,
}

/// Translates statements into x86-64 assembly. Its counters persist from
/// one translation to the next.
pub struct Compiler {
    loop_count: u32,
    active_loops: Vec<u32>,
    input_loop_count: u32,
    active_input_loops: Vec<u32>,
    decimal_print_loop_count: u32,
    pushes: u32,
    pops: u32,
}

/// The state of a `Compiler`.
pub struct CompilerState {
    /// How many loops have been opened.
    pub loop_count: u32,
    /// The numbers of the loops opened so far, in order.
    pub active_loops: Seq<u32>,
    /// How many input reads have been generated.
    pub input_loop_count: u32,
    /// The numbers of the input reads generated so far, in order.
    pub active_input_loops: Seq<u32>,
    /// How many decimal prints have been generated.
    pub decimal_print_loop_count: u32,
    /// How many values were pushed onto the stack by copies.
    pub pushes: u32,
    /// How many values were popped from the stack by removals.
    pub pops: u32,
}

impl View for Compiler {
    type V = CompilerState;

    closed spec fn view(&self) -> CompilerState {
        CompilerState {
            loop_count: self.loop_count,
            active_loops: self.active_loops@,
            input_loop_count: self.input_loop_count,
            active_input_loops: self.active_input_loops@,
            decimal_print_loop_count: self.decimal_print_loop_count,
            pushes: self.pushes,
            pops: self.pops,
        }
    }
}

/// The assembly name of a register operand (`r12`/`r13`, or their low bytes
/// `r12b`/`r13b` when `small`); other operands have none.
pub open spec fn register_text(a: Argument, small: bool) -> Seq<char> {
    match a {
        Argument::R0 => if small {
            "r12b"@
        } else {
            "r12"@
        },
        Argument::R1 => if small {
            "r13b"@
        } else {
            "r13"@
        },
        _ => "".view(),
    }
}

pub open spec fn is_register(a: Argument) -> bool {
    a is R0 || a is R1
}

/// A statement has the operands that its type reads.
pub open spec fn has_operands(s: Statement) -> bool {
    match s.statement_type {
        StatementTypes::Compare | StatementTypes::Copy | StatementTypes::Add
        | StatementTypes::Subtract | StatementTypes::Multiply | StatementTypes::Divide
        | StatementTypes::Remainder => s.arg1 is Some && s.arg2 is Some,
        StatementTypes::Label | StatementTypes::Greater | StatementTypes::Less
        | StatementTypes::Equal => s.arg2 is Some,
        StatementTypes::Remove => s.arg1 is Some,
        _ => true,
    }
}

/// The outcome of translating one statement.
pub enum AsmStep {
    /// The text emitted and the state after it.
    Emit(Seq<char>, CompilerState),
    /// The diagnostic, and the state in which the translation stopped.
    Fail(Seq<char>, CompilerState),
    /// The translation cannot go on: a needed operand is missing, or a loop
    /// end has no loop to return to.
    Stuck,
}

pub open spec fn invalid_arguments(t: StatementTypes, idx: nat) -> Seq<char> {
    error_text(
        ErrorKind::Syntax(SyntaxError::InvalidArguments),
        idx,
        "Invalid arguments supplied for "@ + statement_type_name(t),
    )
}

pub open spec fn label_reference_error(a: Argument, idx: nat) -> Seq<char> {
    error_text(
        ErrorKind::Syntax(SyntaxError::InvalidArguments),
        idx,
        "Cannot use argument of type "@ + argument_display(a) + " as label reference."@,
    )
}

pub open spec fn label_definition_error(a: Argument, idx: nat) -> Seq<char> {
    error_text(
        ErrorKind::Syntax(SyntaxError::InvalidArguments),
        idx,
        "Cannot use argument of type "@ + argument_display(a) + " as label definition."@,
    )
}

/// The text that prints the number in `rax` in decimal; `source` is what is
/// loaded into `rax` first and `c` numbers the labels used.
pub open spec fn decimal_print_text(target: Target, source: Seq<char>, c: u32) -> Seq<char> {
    match target {
        Target::Linux => "    mov rax, "@ + source
            + "\n    lea rcx, [decimal_buf + 2 + rip]\n    mov rbx, 10\n    .dec_loop"@ + decimal(
            c as nat,
        ) + ":\n    xor rdx, rdx\n    div rbx\n    add dl, '0'\n    mov [rcx], dl\n    dec rcx\n    test rax, rax\n    jnz .dec_loop"@
            + decimal(c as nat)
            + "\n    lea rdx, [decimal_buf + 2 + rip]\n    sub rdx, rcx\n    inc rcx\n    mov rsi, rcx\n    mov rax, 1\n    mov rdi, 1\n    mov rsi, rcx\n    syscall\n"@,
        Target::Windows => "    mov rax, "@ + source
            + "\n    lea rcx, [decimal_buf + 2 + rip]\n    mov r8, 10\n    .dec_loop"@ + decimal(
            c as nat,
        ) + ":\n    xor rdx, rdx\n    div r8\n    add dl, '0'\n    mov [rcx], dl\n    dec rcx\n    test rax, rax\n    jnz .dec_loop"@
            + decimal(c as nat)
            + "\n    lea rdx, [decimal_buf + 2 + rip]\n    sub rdx, rcx\n    inc rcx\n    mov r14, rcx\n    .print_loop"@
            + decimal(c as nat)
            + ":\n    movzx rcx, byte ptr [r14]\n    cmp rcx, 0\n    je .print_end"@ + decimal(
            c as nat,
        ) + "\n    mov rbp, rsp\n    and rsp, -16\n    sub rsp, 32\n    call putchar\n    mov rsp, rbp\n    inc r14\n    jmp .print_loop"@
            + decimal(c as nat) + "\n    .print_end"@ + decimal(c as nat) + ":\n"@,
    }
}

/// The text that prints one character.
pub open spec fn char_print_text(target: Target, a: Argument) -> Seq<char> {
    match (a, target) {
        (Argument::Literal(v), Target::Linux) => "    push "@ + decimal(v as nat)
            + "\n    mov rax, 1\n    mov rdi, 1\n    mov rsi, rsp\n    mov rdx, 1\n    syscall\n    pop rax\n"@,
        (Argument::Literal(v), Target::Windows) => "    mov rcx, "@ + decimal(v as nat)
            + "\n    mov rbp, rsp\n    and rsp, -16\n    sub rsp, 32\n    call putchar\n    mov rsp, rbp\n"@,
        (Argument::Stack, Target::Linux) => "    mov rax, 1\n    mov rdi, 1\n    mov rsi, rsp\n    mov rdx, 1\n    syscall\n"@,
        (Argument::Stack, Target::Windows) => "    mov rcx, [rsp]\n    mov rbp, rsp\n    and rsp, -16\n    sub rsp, 32\n    call putchar\n    mov rsp, rbp\n"@,
        (_, Target::Linux) => "    push "@ + register_text(a, false)
            + "\n    mov rax, 1\n    mov rdi, 1\n    mov rsi, rsp\n    mov rdx, 1\n    syscall\n    pop "@
            + register_text(a, false) + "\n"@,
        (_, Target::Windows) => "    push "@ + register_text(a, false)
            + "\n    pop rcx\n    mov rbp, rsp\n    and rsp, -16\n    sub rsp, 32\n    call putchar\n    mov rsp, rbp\n"@,
    }
}

/// Translation of a comparison of `a` with `b`.
pub open spec fn compare_text(a: Argument, b: Argument) -> Option<Seq<char>> {
    let second = |small: bool|
        match b {
            Argument::Literal(v) => Some(decimal(v as nat)),
            Argument::Stack => Some("[rsp]"@),
            Argument::R0 | Argument::R1 => Some(register_text(b, small)),
            _ => None,
        };
    match a {
        Argument::Literal(v) => match second(true) {
            Some(t) => Some("    mov r14, "@ + decimal(v as nat) + "\n    cmp r14, "@ + t + "\n"@),
            None => None,
        },
        Argument::R0 | Argument::R1 => match second(false) {
            Some(t) => Some("    cmp "@ + register_text(a, false) + ", "@ + t + "\n"@),
            None => None,
        },
        Argument::Stack => match second(false) {
            Some(t) => Some("    cmp [rsp], "@ + t + "\n"@),
            None => None,
        },
        _ => None,
    }
}

/// Translation of an arithmetic statement of type `t` on `a` and `b`.
pub open spec fn arithmetic_text(t: StatementTypes, a: Argument, b: Argument) -> Option<Seq<char>> {
    if !is_register(a) {
        None
    } else {
        let r = register_text(a, true);
        let source = match b {
            Argument::Literal(v) => Some(decimal(v as nat)),
            Argument::Stack => Some("[rsp]"@),
            Argument::R0 | Argument::R1 => Some(
                if t is Add {
                    register_text(b, true)
                } else {
                    r
                },
            ),
            _ => None,
        };
        match source {
            None => None,
            Some(src) => Some(
                match t {
                    StatementTypes::Add => "    add "@ + r + ", "@ + src + "\n"@,
                    StatementTypes::Subtract => "    sub "@ + r + ", "@ + src + "\n"@,
                    StatementTypes::Multiply => "    mul "@ + r + ", "@ + src + "\n"@,
                    StatementTypes::Divide => "    mov al, "@ + r + "\n    mov ah, 0\n    mov r14b, "@
                        + src + "\n    div r14b\n    mov "@ + r + ", al\n"@,
                    _ => "    mov al, "@ + r + "\n    mov ah, 0\n    mov r14b, "@ + src
                        + "\n    div r14b\n    mov "@ + r + ", ah\n"@,
                },
            ),
        }
    }
}

/// Translation of a copy from `a` to `b` in state `st`.
pub open spec fn copy_step(st: CompilerState, a: Argument, b: Argument, idx: nat, target: Target) -> AsmStep {
    match (a, b) {
        (Argument::Literal(v), Argument::R0) | (Argument::Literal(v), Argument::R1) => AsmStep::Emit(
            "    mov "@ + register_text(b, true) + ", "@ + decimal(v as nat) + "\n"@,
            st,
        ),
        (Argument::Literal(v), Argument::Stack) => AsmStep::Emit(
            "    push "@ + decimal(v as nat) + "\n"@,
            CompilerState { pushes: (st.pushes + 1) as u32, ..st },
        ),
        (Argument::Stack, Argument::R0) | (Argument::Stack, Argument::R1) => AsmStep::Emit(
            "    mov "@ + register_text(b, false) + ", [rsp]\n"@,
            st,
        ),
        (Argument::R0, Argument::Stack) | (Argument::R1, Argument::Stack) => AsmStep::Emit(
            "    push "@ + register_text(a, false) + "\n"@,
            CompilerState { pushes: (st.pushes + 1) as u32, ..st },
        ),
        (Argument::Literal(_), Argument::StdOut { as_number }) | (
            Argument::R0,
            Argument::StdOut { as_number },
        ) | (Argument::R1, Argument::StdOut { as_number }) | (
            Argument::Stack,
            Argument::StdOut { as_number },
        ) => if as_number {
            let source = match a {
                Argument::Literal(v) => decimal(v as nat),
                Argument::Stack => "[rsp]"@,
                _ => register_text(a, false),
            };
            AsmStep::Emit(
                decimal_print_text(target, source, st.decimal_print_loop_count),
                CompilerState {
                    decimal_print_loop_count: (st.decimal_print_loop_count + 1) as u32,
                    ..st
                },
            )
        } else {
            AsmStep::Emit(char_print_text(target, a), st)
        },
        _ => AsmStep::Fail(invalid_arguments(StatementTypes::Copy, idx), st),
    }
}

/// Translation of one statement, the one with index `idx`, in state `st`.
pub open spec fn asm_statement(st: CompilerState, s: Statement, idx: nat, target: Target) -> AsmStep {
    if !has_operands(s) {
        AsmStep::Stuck
    } else {
        match s.statement_type {
            StatementTypes::LoopStart => AsmStep::Emit(
                "    .l"@ + decimal(st.loop_count as nat) + ":\n"@,
                CompilerState {
                    loop_count: (st.loop_count + 1) as u32,
                    active_loops: st.active_loops.push(st.loop_count),
                    ..st
                },
            ),
            StatementTypes::LoopEnd => if st.active_loops.len() == 0 {
                AsmStep::Stuck
            } else {
                AsmStep::Emit(
                    "    cmp byte ptr [rsp], 0\n    jnz .l"@ + decimal(st.active_loops.last() as nat)
                        + "\n"@,
                    st,
                )
            },
            StatementTypes::Label => match s.arg2.unwrap() {
                Argument::Label { index } => AsmStep::Emit(
                    "    .label"@ + decimal(index as nat) + ":\n"@,
                    st,
                ),
                a => AsmStep::Fail(label_definition_error(a, idx), st),
            },
            StatementTypes::Compare => match compare_text(s.arg1.unwrap(), s.arg2.unwrap()) {
                Some(t) => AsmStep::Emit(t, st),
                None => AsmStep::Fail(invalid_arguments(StatementTypes::Compare, idx), st),
            },
            StatementTypes::Greater | StatementTypes::Less | StatementTypes::Equal => match s.arg2.unwrap() {
                Argument::Label { index } => AsmStep::Emit(
                    (match s.statement_type {
                        StatementTypes::Greater => "    jg .label"@,
                        StatementTypes::Less => "    jl .label"@,
                        _ => "    je .label"@,
                    }) + decimal(index as nat) + "\n"@,
                    st,
                ),
                a => AsmStep::Fail(label_reference_error(a, idx), st),
            },
            StatementTypes::Copy => copy_step(st, s.arg1.unwrap(), s.arg2.unwrap(), idx, target),
            StatementTypes::Remove => match s.arg1.unwrap() {
                Argument::R0 | Argument::R1 => AsmStep::Emit(
                    "    xor "@ + register_text(s.arg1.unwrap(), false) + ", "@ + register_text(
                        s.arg1.unwrap(),
                        false,
                    ) + "\n"@,
                    st,
                ),
                Argument::Stack => {
                    let st2 = CompilerState { pops: (st.pops + 1) as u32, ..st };
                    if st2.pops > st2.pushes {
                        AsmStep::Fail(
                            error_text(
                                ErrorKind::Compile(CompileError::StackUnderflow),
                                idx,
                                "Popping would underflow the stack."@,
                            ),
                            st2,
                        )
                    } else {
                        AsmStep::Emit("    pop rax\n"@, st2)
                    }
                },
                _ => AsmStep::Fail(
                    error_text(
                        ErrorKind::Syntax(SyntaxError::InvalidArguments),
                        idx,
                        "Invalid argument supplied for "@ + statement_type_name(
                            StatementTypes::Remove,
                        ),
                    ),
                    st,
                ),
            },
            StatementTypes::Input => AsmStep::Emit(
                "    mov rax, 0\n    mov rdi, 0\n    lea rsi, [rip + input_buf]\n    mov rdx, 256\n    syscall\n    mov rcx, rax\n    sub rcx, 2\n    push 0\n.input_loop"@
                    + decimal(st.input_loop_count as nat)
                    + ":\n    lea rbx, [rip + input_buf]\n    movzx rbx, byte ptr [rbx + rcx]\n    push rbx\n    dec rcx\n    cmp rcx, 0\n    jge .input_loop"@
                    + decimal(st.input_loop_count as nat) + "\n"@,
                CompilerState {
                    input_loop_count: (st.input_loop_count + 1) as u32,
                    active_input_loops: st.active_input_loops.push(st.input_loop_count),
                    ..st
                },
            ),
            StatementTypes::Add | StatementTypes::Subtract | StatementTypes::Multiply
            | StatementTypes::Divide | StatementTypes::Remainder => match arithmetic_text(
                s.statement_type,
                s.arg1.unwrap(),
                s.arg2.unwrap(),
            ) {
                Some(t) => AsmStep::Emit(t, st),
                None => AsmStep::Fail(invalid_arguments(s.statement_type, idx), st),
            },
            _ => AsmStep::Fail(
                error_text(
                    ErrorKind::Syntax(SyntaxError::InvalidStatement),
                    idx,
                    "Invalid statement provided."@,
                ),
                st,
            ),
        }
    }
}

/// The outcome of translating a list of statements.
pub enum AsmRun {
    /// All statements were translated into this text, ending in this state.
    Done(Seq<char>, CompilerState),
    /// A statement was refused with this diagnostic, in this state.
    Fail(Seq<char>, CompilerState),
    /// The translation could not go on.
    Stuck,
}

/// Translates `stmts` in order from state `st`; the first statement that is
/// refused, or that cannot be translated, ends the run.
pub open spec fn asm_run(st: CompilerState, stmts: Seq<Statement>, target: Target) -> AsmRun
    decreases stmts.len(),
{
    if stmts.len() == 0 {
        AsmRun::Done(Seq::empty(), st)
    } else {
        match asm_run(st, stmts.drop_last(), target) {
            AsmRun::Done(text, st2) => match asm_statement(
                st2,
                stmts.last(),
                (stmts.len() - 1) as nat,
                target,
            ) {
                AsmStep::Emit(t, st3) => AsmRun::Done(text + t, st3),
                AsmStep::Fail(m, st3) => AsmRun::Fail(m, st3),
                AsmStep::Stuck => AsmRun::Stuck,
            },
            other => other,
        }
    }
}

/// Some statement reads input.
pub open spec fn reads_input(stmts: Seq<Statement>) -> bool {
    exists|i: int| 0 <= i < stmts.len() && stmts[i].statement_type == StatementTypes::Input
}

/// Some statement prints a number in decimal.
pub open spec fn prints_numbers(stmts: Seq<Statement>) -> bool {
    exists|i: int|
        0 <= i < stmts.len() && stmts[i].arg2 == Some(Argument::StdOut { as_number: true })
}

/// The text before the translated statements.
pub open spec fn asm_header(stmts: Seq<Statement>, target: Target) -> Seq<char> {
    ".intel_syntax noprefix\n"@ + (if target is Linux {
        ".global _start\n\n"@
    } else {
        ".global main\n\n"@
    }) + (if reads_input(stmts) && prints_numbers(stmts) {
        ".section .bss\n.lcomm input_buf, 256\n.lcomm decimal_buf, 3\n\n"@
    } else if reads_input(stmts) {
        ".section .bss\n.lcomm input_buf, 256\n\n"@
    } else if prints_numbers(stmts) {
        ".section .bss\n.lcomm decimal_buf, 3\n\n"@
    } else {
        "".view()
    }) + ".section .text\n"@ + (if target is Linux {
        "_start:\n"@
    } else {
        "main:\n"@
    }) + "    push r12\n    xor r12, r12\n    push r13\n    xor r13, r13\n    push rbp\n    mov rbp, rsp\n"@
}

/// The text after the translated statements.
pub open spec fn asm_footer(target: Target) -> Seq<char> {
    "    mov rsp, rbp\n    pop rbp\n    pop r13\n    pop r12\n"@ + (if target is Linux {
        "    mov rax, 60\n    mov rdi, 0\n    syscall\n"@
    } else {
        "    and rsp, -16\n    sub rsp, 32\n    mov rcx, 0\n    call exit\n    add rsp, 32\n"@
    })
}


/// The result of translating one statement.
enum StepResult {
    Emitted,
    Refused(String),
    Stuck,
}

/// Operand sizes in the generated assembly: a whole register or its low byte.
#[derive(Clone, Copy, PartialEq, Eq, Structural)]
pub enum ArgSize {
    Full,
    Small,
}

/// The assembly name of a register operand of the given size; other
/// operands have none.
fn arg_to_asm_string(argument: Argument, role: ArgSize) -> (res: &'static str)
    ensures
        res@ == register_text(argument, role == ArgSize::Small),
{
    match (argument, role) {
        (Argument::R0, ArgSize::Small) => "r12b",
        (Argument::R0, ArgSize::Full) => "r12",
        (Argument::R1, ArgSize::Small) => "r13b",
        (Argument::R1, ArgSize::Full) => "r13",
        _ => "",
    }
}

fn push_register(out: &mut String, a: Argument, role: ArgSize)
    ensures
        final(out)@ == old(out)@ + register_text(a, role == ArgSize::Small),
{
    out.append(arg_to_asm_string(a, role));
}

fn write_decimal_print(out: &mut String, target: Target, a: Argument, c: u32)
    requires
        a is Literal || a is Stack || is_register(a),
    ensures
        final(out)@ == old(out)@ + decimal_print_text(
            target,
            match a {
                Argument::Literal(v) => decimal(v as nat),
                Argument::Stack => "[rsp]"@,
                _ => register_text(a, false),
            },
            c,
        ),
{
    let ghost source = match a {
        Argument::Literal(v) => decimal(v as nat),
        Argument::Stack => "[rsp]"@,
        _ => register_text(a, false),
    };
    out.append("    mov rax, ");
    match a {
        Argument::Literal(v) => push_decimal(out, v as u64),
        Argument::Stack => out.append("[rsp]"),
        _ => push_register(out, a, ArgSize::Full),
    }
    let ghost mid = out@;
    assert(mid == old(out)@ + "    mov rax, "@ + source);
    match target {
        Target::Linux => {
            out.append("\n    lea rcx, [decimal_buf + 2 + rip]\n    mov rbx, 10\n    .dec_loop");
            push_decimal(out, c as u64);
            out.append(":\n    xor rdx, rdx\n    div rbx\n    add dl, '0'\n    mov [rcx], dl\n    dec rcx\n    test rax, rax\n    jnz .dec_loop");
            push_decimal(out, c as u64);
            out.append("\n    lea rdx, [decimal_buf + 2 + rip]\n    sub rdx, rcx\n    inc rcx\n    mov rsi, rcx\n    mov rax, 1\n    mov rdi, 1\n    mov rsi, rcx\n    syscall\n");
        },
        Target::Windows => {
            out.append("\n    lea rcx, [decimal_buf + 2 + rip]\n    mov r8, 10\n    .dec_loop");
            push_decimal(out, c as u64);
            out.append(":\n    xor rdx, rdx\n    div r8\n    add dl, '0'\n    mov [rcx], dl\n    dec rcx\n    test rax, rax\n    jnz .dec_loop");
            push_decimal(out, c as u64);
            out.append("\n    lea rdx, [decimal_buf + 2 + rip]\n    sub rdx, rcx\n    inc rcx\n    mov r14, rcx\n    .print_loop");
            push_decimal(out, c as u64);
            out.append(":\n    movzx rcx, byte ptr [r14]\n    cmp rcx, 0\n    je .print_end");
            push_decimal(out, c as u64);
            out.append("\n    mov rbp, rsp\n    and rsp, -16\n    sub rsp, 32\n    call putchar\n    mov rsp, rbp\n    inc r14\n    jmp .print_loop");
            push_decimal(out, c as u64);
            out.append("\n    .print_end");
            push_decimal(out, c as u64);
            out.append(":\n");
        },
    }
    assert(out@ =~= old(out)@ + decimal_print_text(target, source, c));
}

fn write_char_print(out: &mut String, target: Target, a: Argument)
    ensures
        final(out)@ == old(out)@ + char_print_text(target, a),
{
    match (a, target) {
        (Argument::Literal(v), Target::Linux) => {
            out.append("    push ");
            push_decimal(out, v as u64);
            out.append("\n    mov rax, 1\n    mov rdi, 1\n    mov rsi, rsp\n    mov rdx, 1\n    syscall\n    pop rax\n");
        },
        (Argument::Literal(v), Target::Windows) => {
            out.append("    mov rcx, ");
            push_decimal(out, v as u64);
            out.append("\n    mov rbp, rsp\n    and rsp, -16\n    sub rsp, 32\n    call putchar\n    mov rsp, rbp\n");
        },
        (Argument::Stack, Target::Linux) => {
            out.append("    mov rax, 1\n    mov rdi, 1\n    mov rsi, rsp\n    mov rdx, 1\n    syscall\n");
        },
        (Argument::Stack, Target::Windows) => {
            out.append("    mov rcx, [rsp]\n    mov rbp, rsp\n    and rsp, -16\n    sub rsp, 32\n    call putchar\n    mov rsp, rbp\n");
        },
        (_, Target::Linux) => {
            out.append("    push ");
            push_register(out, a, ArgSize::Full);
            out.append("\n    mov rax, 1\n    mov rdi, 1\n    mov rsi, rsp\n    mov rdx, 1\n    syscall\n    pop ");
            push_register(out, a, ArgSize::Full);
            out.append("\n");
        },
        (_, Target::Windows) => {
            out.append("    push ");
            push_register(out, a, ArgSize::Full);
            out.append("\n    pop rcx\n    mov rbp, rsp\n    and rsp, -16\n    sub rsp, 32\n    call putchar\n    mov rsp, rbp\n");
        },
    }
    assert(out@ =~= old(out)@ + char_print_text(target, a));
}

/// Appends the second operand of a comparison, if it has a form that can be
/// compared.
fn push_compare_operand(out: &mut String, b: Argument, small: bool) -> (ok: bool)
    ensures
        ok == (b is Literal || b is Stack || is_register(b)),
        ok ==> final(out)@ == old(out)@ + (match b {
            Argument::Literal(v) => decimal(v as nat),
            Argument::Stack => "[rsp]"@,
            _ => register_text(b, small),
        }),
{
    match b {
        Argument::Literal(v) => {
            push_decimal(out, v as u64);
            true
        },
        Argument::Stack => {
            out.append("[rsp]");
            true
        },
        Argument::R0 | Argument::R1 => {
            push_register(out, b, if small { ArgSize::Small } else { ArgSize::Full });
            true
        },
        _ => false,
    }
}

fn compare_asm(out: &mut String, a: Argument, b: Argument) -> (ok: bool)
    ensures
        match compare_text(a, b) {
            Some(t) => ok && final(out)@ == old(out)@ + t,
            None => !ok,
        },
{
    let mut piece = String::new();
    match a {
        Argument::Literal(v) => {
            piece.append("    mov r14, ");
            push_decimal(&mut piece, v as u64);
            piece.append("\n    cmp r14, ");
            if !push_compare_operand(&mut piece, b, true) {
                return false;
            }
        },
        Argument::R0 | Argument::R1 => {
            piece.append("    cmp ");
            push_register(&mut piece, a, ArgSize::Full);
            piece.append(", ");
            if !push_compare_operand(&mut piece, b, false) {
                return false;
            }
        },
        Argument::Stack => {
            piece.append("    cmp [rsp], ");
            if !push_compare_operand(&mut piece, b, false) {
                return false;
            }
        },
        _ => {
            return false;
        },
    }
    piece.append("\n");
    assert(compare_text(a, b) == Some(piece@));
    out.append(piece.as_str());
    true
}

fn arithmetic_asm(out: &mut String, t: StatementTypes, a: Argument, b: Argument) -> (ok: bool)
    requires
        t is Add || t is Subtract || t is Multiply || t is Divide || t is Remainder,
    ensures
        match arithmetic_text(t, a, b) {
            Some(x) => ok && final(out)@ == old(out)@ + x,
            None => !ok,
        },
{
    if !(a == Argument::R0 || a == Argument::R1) {
        return false;
    }
    let mut src = String::new();
    let second = if t == StatementTypes::Add {
        b
    } else {
        a
    };
    match b {
        Argument::Literal(v) => push_decimal(&mut src, v as u64),
        Argument::Stack => src.append("[rsp]"),
        Argument::R0 | Argument::R1 => push_register(&mut src, second, ArgSize::Small),
        _ => {
            return false;
        },
    }
    let mut piece = String::new();
    match t {
        StatementTypes::Add => {
            piece.append("    add ");
            push_register(&mut piece, a, ArgSize::Small);
            piece.append(", ");
            piece.append(src.as_str());
            piece.append("\n");
        },
        StatementTypes::Subtract => {
            piece.append("    sub ");
            push_register(&mut piece, a, ArgSize::Small);
            piece.append(", ");
            piece.append(src.as_str());
            piece.append("\n");
        },
        StatementTypes::Multiply => {
            piece.append("    mul ");
            push_register(&mut piece, a, ArgSize::Small);
            piece.append(", ");
            piece.append(src.as_str());
            piece.append("\n");
        },
        StatementTypes::Divide => {
            piece.append("    mov al, ");
            push_register(&mut piece, a, ArgSize::Small);
            piece.append("\n    mov ah, 0\n    mov r14b, ");
            piece.append(src.as_str());
            piece.append("\n    div r14b\n    mov ");
            push_register(&mut piece, a, ArgSize::Small);
            piece.append(", al\n");
        },
        _ => {
            piece.append("    mov al, ");
            push_register(&mut piece, a, ArgSize::Small);
            piece.append("\n    mov ah, 0\n    mov r14b, ");
            piece.append(src.as_str());
            piece.append("\n    div r14b\n    mov ");
            push_register(&mut piece, a, ArgSize::Small);
            piece.append(", ah\n");
        },
    }
    assert(arithmetic_text(t, a, b) =~= Some(piece@));
    out.append(piece.as_str());
    true
}


/// The counters of `st` can each grow by `n` without overflow.
pub open spec fn has_room(st: CompilerState, n: nat) -> bool {
    &&& st.loop_count + n <= u32::MAX
    &&& st.input_loop_count + n <= u32::MAX
    &&& st.decimal_print_loop_count + n <= u32::MAX
    &&& st.pushes + n <= u32::MAX
    &&& st.pops + n <= u32::MAX
}

/// Each counter of `b` exceeds that of `a` by at most `n`.
pub open spec fn grew_at_most(a: CompilerState, b: CompilerState, n: nat) -> bool {
    &&& b.loop_count <= a.loop_count + n
    &&& b.input_loop_count <= a.input_loop_count + n
    &&& b.decimal_print_loop_count <= a.decimal_print_loop_count + n
    &&& b.pushes <= a.pushes + n
    &&& b.pops <= a.pops + n
}

fn invalid_arguments_error(t: StatementTypes, idx: u32) -> (res: String)
    ensures
        res@ == invalid_arguments(t, idx as nat),
{
    let mut msg = String::new();
    msg.append("Invalid arguments supplied for ");
    msg.append(t.name());
    format_error(ErrorKind::Syntax(SyntaxError::InvalidArguments), idx, msg.as_str())
}

fn label_error(a: Argument, idx: u32, definition: bool) -> (res: String)
    ensures
        definition ==> res@ == label_definition_error(a, idx as nat),
        !definition ==> res@ == label_reference_error(a, idx as nat),
{
    let mut msg = String::new();
    msg.append("Cannot use argument of type ");
    let shown = a.display();
    msg.append(shown.as_str());
    if definition {
        msg.append(" as label definition.");
    } else {
        msg.append(" as label reference.");
    }
    format_error(ErrorKind::Syntax(SyntaxError::InvalidArguments), idx, msg.as_str())
}

enum Translation {
    Asm(String),
    Refused(String),
    Stuck,
}

impl Compiler {
    /// A compiler with all counters at zero.
    pub fn new() -> (res: Self)
        ensures
            res@ == (CompilerState {
                loop_count: 0,
                active_loops: Seq::empty(),
                input_loop_count: 0,
                active_input_loops: Seq::empty(),
                decimal_print_loop_count: 0,
                pushes: 0,
                pops: 0,
            }),
    {
        Compiler {
            loop_count: 0,
            active_loops: Vec::new(),
            input_loop_count: 0,
            active_input_loops: Vec::new(),
            decimal_print_loop_count: 0,
            pushes: 0,
            pops: 0,
        }
    }

    fn copy_asm(&mut self, a: Argument, b: Argument, idx: u32, target: Target, out: &mut String) -> (r: StepResult)
        requires
            has_room(old(self)@, 1),
        ensures
            match copy_step(old(self)@, a, b, idx as nat, target) {
                AsmStep::Emit(t, st2) => r is Emitted && final(out)@ == old(out)@ + t
                    && final(self)@ == st2,
                AsmStep::Fail(m, st2) => r matches StepResult::Refused(e) && e@ == m
                    && final(self)@ == st2,
                AsmStep::Stuck => false,
            },
            grew_at_most(old(self)@, final(self)@, 1),
    {
        match (a, b) {
            (Argument::Literal(v), Argument::R0) | (Argument::Literal(v), Argument::R1) => {
                out.append("    mov ");
                push_register(out, b, ArgSize::Small);
                out.append(", ");
                push_decimal(out, v as u64);
                out.append("\n");
            },
            (Argument::Literal(v), Argument::Stack) => {
                out.append("    push ");
                push_decimal(out, v as u64);
                out.append("\n");
                self.pushes = self.pushes + 1;
            },
            (Argument::Stack, Argument::R0) | (Argument::Stack, Argument::R1) => {
                out.append("    mov ");
                push_register(out, b, ArgSize::Full);
                out.append(", [rsp]\n");
            },
            (Argument::R0, Argument::Stack) | (Argument::R1, Argument::Stack) => {
                out.append("    push ");
                push_register(out, a, ArgSize::Full);
                out.append("\n");
                self.pushes = self.pushes + 1;
            },
            (Argument::Literal(_), Argument::StdOut { as_number }) | (
                Argument::R0,
                Argument::StdOut { as_number },
            ) | (Argument::R1, Argument::StdOut { as_number }) | (
                Argument::Stack,
                Argument::StdOut { as_number },
            ) => {
                if as_number {
                    write_decimal_print(out, target, a, self.decimal_print_loop_count);
                    self.decimal_print_loop_count = self.decimal_print_loop_count + 1;
                } else {
                    write_char_print(out, target, a);
                }
            },
            _ => {
                return StepResult::Refused(invalid_arguments_error(StatementTypes::Copy, idx));
            },
        }
        proof {
            assert(out@ =~= old(out)@ + copy_step(old(self)@, a, b, idx as nat, target)->Emit_0);
        }
        StepResult::Emitted
    }

    fn emit_statement(&mut self, s: &Statement, idx: u32, target: Target, out: &mut String) -> (r: StepResult)
        requires
            has_room(old(self)@, 1),
        ensures
            match asm_statement(old(self)@, *s, idx as nat, target) {
                AsmStep::Emit(t, st2) => r is Emitted && final(out)@ == old(out)@ + t
                    && final(self)@ == st2,
                AsmStep::Fail(m, st2) => r matches StepResult::Refused(e) && e@ == m
                    && final(self)@ == st2,
                AsmStep::Stuck => r is Stuck,
            },
            grew_at_most(old(self)@, final(self)@, 1),
    {
        let ghost st = self@;
        let operands_present = match s.statement_type {
            StatementTypes::Compare | StatementTypes::Copy | StatementTypes::Add
            | StatementTypes::Subtract | StatementTypes::Multiply | StatementTypes::Divide
            | StatementTypes::Remainder => s.arg1.is_some() && s.arg2.is_some(),
            StatementTypes::Label | StatementTypes::Greater | StatementTypes::Less
            | StatementTypes::Equal => s.arg2.is_some(),
            StatementTypes::Remove => s.arg1.is_some(),
            _ => true,
        };
        if !operands_present {
            return StepResult::Stuck;
        }
        match s.statement_type {
            StatementTypes::LoopStart => {
                out.append("    .l");
                push_decimal(out, self.loop_count as u64);
                out.append(":\n");
                self.active_loops.push(self.loop_count);
                self.loop_count = self.loop_count + 1;
                assert(self@ == CompilerState {
                    loop_count: (st.loop_count + 1) as u32,
                    active_loops: st.active_loops.push(st.loop_count),
                    ..st
                });
            },
            StatementTypes::LoopEnd => {
                if self.active_loops.len() == 0 {
                    return StepResult::Stuck;
                }
                out.append("    cmp byte ptr [rsp], 0\n    jnz .l");
                let last = self.active_loops[self.active_loops.len() - 1];
                push_decimal(out, last as u64);
                out.append("\n");
            },
            StatementTypes::Label => {
                match s.arg2.unwrap() {
                    Argument::Label { index } => {
                        out.append("    .label");
                        push_decimal(out, index as u64);
                        out.append(":\n");
                    },
                    a => {
                        return StepResult::Refused(label_error(a, idx, true));
                    },
                }
            },
            StatementTypes::Compare => {
                if !compare_asm(out, s.arg1.unwrap(), s.arg2.unwrap()) {
                    return StepResult::Refused(
                        invalid_arguments_error(StatementTypes::Compare, idx),
                    );
                }
            },
            StatementTypes::Greater | StatementTypes::Less | StatementTypes::Equal => {
                match s.arg2.unwrap() {
                    Argument::Label { index } => {
                        match s.statement_type {
                            StatementTypes::Greater => out.append("    jg .label"),
                            StatementTypes::Less => out.append("    jl .label"),
                            _ => out.append("    je .label"),
                        }
                        push_decimal(out, index as u64);
                        out.append("\n");
                    },
                    a => {
                        return StepResult::Refused(label_error(a, idx, false));
                    },
                }
            },
            StatementTypes::Copy => {
                return self.copy_asm(s.arg1.unwrap(), s.arg2.unwrap(), idx, target, out);
            },
            StatementTypes::Remove => {
                match s.arg1.unwrap() {
                    Argument::R0 | Argument::R1 => {
                        out.append("    xor ");
                        push_register(out, s.arg1.unwrap(), ArgSize::Full);
                        out.append(", ");
                        push_register(out, s.arg1.unwrap(), ArgSize::Full);
                        out.append("\n");
                    },
                    Argument::Stack => {
                        self.pops = self.pops + 1;
                        if self.pops > self.pushes {
                            return StepResult::Refused(
                                format_error(
                                    ErrorKind::Compile(CompileError::StackUnderflow),
                                    idx,
                                    "Popping would underflow the stack.",
                                ),
                            );
                        }
                        out.append("    pop rax\n");
                    },
                    _ => {
                        let mut msg = String::new();
                        msg.append("Invalid argument supplied for ");
                        msg.append(StatementTypes::Remove.name());
                        return StepResult::Refused(
                            format_error(
                                ErrorKind::Syntax(SyntaxError::InvalidArguments),
                                idx,
                                msg.as_str(),
                            ),
                        );
                    },
                }
            },
            StatementTypes::Input => {
                out.append("    mov rax, 0\n    mov rdi, 0\n    lea rsi, [rip + input_buf]\n    mov rdx, 256\n    syscall\n    mov rcx, rax\n    sub rcx, 2\n    push 0\n.input_loop");
                push_decimal(out, self.input_loop_count as u64);
                out.append(":\n    lea rbx, [rip + input_buf]\n    movzx rbx, byte ptr [rbx + rcx]\n    push rbx\n    dec rcx\n    cmp rcx, 0\n    jge .input_loop");
                push_decimal(out, self.input_loop_count as u64);
                out.append("\n");
                self.active_input_loops.push(self.input_loop_count);
                self.input_loop_count = self.input_loop_count + 1;
                assert(self@ == CompilerState {
                    input_loop_count: (st.input_loop_count + 1) as u32,
                    active_input_loops: st.active_input_loops.push(st.input_loop_count),
                    ..st
                });
            },
            StatementTypes::Add | StatementTypes::Subtract | StatementTypes::Multiply
            | StatementTypes::Divide | StatementTypes::Remainder => {
                if !arithmetic_asm(out, s.statement_type, s.arg1.unwrap(), s.arg2.unwrap()) {
                    return StepResult::Refused(invalid_arguments_error(s.statement_type, idx));
                }
            },
            _ => {
                return StepResult::Refused(
                    format_error(
                        ErrorKind::Syntax(SyntaxError::InvalidStatement),
                        idx,
                        "Invalid statement provided.",
                    ),
                );
            },
        }
        proof {
            assert(out@ =~= old(out)@ + asm_statement(st, *s, idx as nat, target)->Emit_0);
        }
        StepResult::Emitted
    }
}


proof fn lemma_asm_run_stops(st: CompilerState, stmts: Seq<Statement>, target: Target, k: int, m: int)
    requires
        0 <= k <= m <= stmts.len(),
        !(asm_run(st, stmts.take(k), target) is Done),
    ensures
        asm_run(st, stmts.take(m), target) == asm_run(st, stmts.take(k), target),
    decreases m - k,
{
    if m > k {
        lemma_asm_run_stops(st, stmts, target, k, m - 1);
        assert(stmts.take(m).drop_last() =~= stmts.take(m - 1));
    }
}

pub(crate) fn any_input(stmts: &Vec<Statement>) -> (r: bool)
    ensures
        r == reads_input(stmts@),
{
    for i in 0..stmts.len()
        invariant
            forall|j: int| 0 <= j < i ==> stmts@[j].statement_type != StatementTypes::Input,
    {
        if stmts[i].statement_type == StatementTypes::Input {
            return true;
        }
    }
    false
}

fn any_number_output(stmts: &Vec<Statement>) -> (r: bool)
    ensures
        r == prints_numbers(stmts@),
{
    for i in 0..stmts.len()
        invariant
            forall|j: int|
                0 <= j < i ==> stmts@[j].arg2 != Some(Argument::StdOut { as_number: true }),
    {
        match stmts[i].arg2 {
            Some(Argument::StdOut { as_number: true }) => {
                return true;
            },
            _ => {},
        }
    }
    false
}

fn write_header(out: &mut String, stmts: &Vec<Statement>, target: Target)
    ensures
        final(out)@ == old(out)@ + asm_header(stmts@, target),
{
    out.append(".intel_syntax noprefix\n");
    if target == Target::Linux {
        out.append(".global _start\n\n");
    } else {
        out.append(".global main\n\n");
    }
    let input = any_input(stmts);
    let numbers = any_number_output(stmts);
    if input && numbers {
        out.append(".section .bss\n.lcomm input_buf, 256\n.lcomm decimal_buf, 3\n\n");
    } else if input {
        out.append(".section .bss\n.lcomm input_buf, 256\n\n");
    } else if numbers {
        out.append(".section .bss\n.lcomm decimal_buf, 3\n\n");
    } else {
        out.append("");
    }
    out.append(".section .text\n");
    if target == Target::Linux {
        out.append("_start:\n");
    } else {
        out.append("main:\n");
    }
    out.append("    push r12\n    xor r12, r12\n    push r13\n    xor r13, r13\n    push rbp\n    mov rbp, rsp\n");
    assert(out@ =~= old(out)@ + asm_header(stmts@, target));
}

fn write_footer(out: &mut String, target: Target)
    ensures
        final(out)@ == old(out)@ + asm_footer(target),
{
    out.append("    mov rsp, rbp\n    pop rbp\n    pop r13\n    pop r12\n");
    if target == Target::Linux {
        out.append("    mov rax, 60\n    mov rdi, 0\n    syscall\n");
    } else {
        out.append("    and rsp, -16\n    sub rsp, 32\n    mov rcx, 0\n    call exit\n    add rsp, 32\n");
    }
    assert(out@ =~= old(out)@ + asm_footer(target));
}

/// The assembly that the translation of `stmts` from state `st` yields, the
/// diagnostic that refuses it, or nothing where it cannot go on.
pub open spec fn compile_result(st: CompilerState, stmts: Seq<Statement>, target: Target) -> Option<
    Result<Seq<char>, Seq<char>>,
> {
    match asm_run(st, stmts, target) {
        AsmRun::Done(body, _) => Some(Ok(asm_header(stmts, target) + body + asm_footer(target))),
        AsmRun::Fail(m, _) => Some(Err(m)),
        AsmRun::Stuck => None,
    }
}

/// The compiler state after the translation of `stmts` from `st` (where it
/// does not get stuck).
pub open spec fn compile_state(st: CompilerState, stmts: Seq<Statement>, target: Target) -> CompilerState {
    match asm_run(st, stmts, target) {
        AsmRun::Done(_, st2) => st2,
        AsmRun::Fail(_, st2) => st2,
        AsmRun::Stuck => st,
    }
}

/// A result and its model agree.
pub open spec fn same_result(res: Result<String, String>, model: Result<Seq<char>, Seq<char>>) -> bool {
    match (res, model) {
        (Ok(a), Ok(b)) => a@ == b,
        (Err(a), Err(b)) => a@ == b,
        _ => false,
    }
}

impl Compiler {
    fn translate(&mut self, statements: &Vec<Statement>, target: Target) -> (r: Translation)
        requires
            has_room(old(self)@, statements.len() as nat),
        ensures
            match asm_run(old(self)@, statements@, target) {
                AsmRun::Done(body, st) => r matches Translation::Asm(s) && s@ == asm_header(
                    statements@,
                    target,
                ) + body + asm_footer(target) && final(self)@ == st,
                AsmRun::Fail(m, st) => r matches Translation::Refused(e) && e@ == m
                    && final(self)@ == st,
                AsmRun::Stuck => r is Stuck,
            },
    {
        let ghost init = self@;
        let mut code = String::new();
        write_header(&mut code, statements, target);
        let ghost header = code@;
        let n = statements.len();
        for statement_index in 0..n
            invariant
                n == statements.len(),
                init == old(self)@,
                has_room(init, n as nat),
                grew_at_most(init, self@, statement_index as nat),
                header == asm_header(statements@, target),
                asm_run(init, statements@.take(statement_index as int), target) matches AsmRun::Done(
                    body,
                    st,
                ) && code@ == header + body && self@ == st,
        {
            assert(statements@.take(statement_index + 1).drop_last() =~= statements@.take(
                statement_index as int,
            ));
            let ghost before = code@;
            let ghost st_before = self@;
            let r = self.emit_statement(&statements[statement_index], statement_index as u32, target, &mut code);
            match r {
                StepResult::Emitted => {
                    assert(code@ =~= header + asm_run(
                        init,
                        statements@.take(statement_index + 1),
                        target,
                    )->Done_0);
                },
                StepResult::Refused(e) => {
                    proof {
                        lemma_asm_run_stops(init, statements@, target, statement_index + 1, n as int);
                        assert(statements@.take(n as int) =~= statements@);
                    }
                    return Translation::Refused(e);
                },
                StepResult::Stuck => {
                    proof {
                        lemma_asm_run_stops(init, statements@, target, statement_index + 1, n as int);
                        assert(statements@.take(n as int) =~= statements@);
                    }
                    return Translation::Stuck;
                },
            }
        }
        assert(statements@.take(n as int) =~= statements@);
        let ghost body_asm = code@;
        write_footer(&mut code, target);
        assert(code@ =~= asm_header(statements@, target) + asm_run(init, statements@, target)->Done_0
            + asm_footer(target));
        Translation::Asm(code)
    }

    /// Translates `statements` into assembly for `target`: a header, the
    /// translation of each statement in order, and a footer; or the
    /// diagnostic of the first statement that is refused.
    pub fn compile_to_asm(&mut self, statements: Vec<Statement>, target: Target) -> (res: Result<
        String,
        String,
    >)
        requires
            has_room(old(self)@, statements.len() as nat),
            compile_result(old(self)@, statements@, target) is Some,
        ensures
            same_result(res, compile_result(old(self)@, statements@, target)->0),
            final(self)@ == compile_state(old(self)@, statements@, target),
    {
        match self.translate(&statements, target) {
            Translation::Asm(s) => Ok(s),
            Translation::Refused(e) => Err(e),
            Translation::Stuck => vstd::pervasive::unreached(),
        }
    }

    /// As `compile_to_asm`, but answers `None`, instead of a result, where a
    /// statement lacks an operand that its type reads or a loop end has no
    /// loop to return to.
    pub fn try_compile_to_asm(&mut self, statements: Vec<Statement>, target: Target) -> (res: Option<
        Result<String, String>,
    >)
        requires
            has_room(old(self)@, statements.len() as nat),
        ensures
            res is None <==> compile_result(old(self)@, statements@, target) is None,
            res matches Some(r) ==> same_result(r, compile_result(old(self)@, statements@, target)->0),
            res is Some ==> final(self)@ == compile_state(old(self)@, statements@, target),
    {
        match self.translate(&statements, target) {
            Translation::Asm(s) => Some(Ok(s)),
            Translation::Refused(e) => Some(Err(e)),
            Translation::Stuck => None,
        }
    }
}


/// A translation that succeeds never pops more than it pushed: if the stack
/// balance was sound before, it is sound after.
pub proof fn lemma_translation_keeps_stack_balance(st: CompilerState, stmts: Seq<Statement>, target: Target)
    requires
        st.pops <= st.pushes,
        has_room(st, stmts.len()),
    ensures
        asm_run(st, stmts, target) matches AsmRun::Done(_, st2) ==> st2.pops <= st2.pushes,
    decreases stmts.len(),
{
    lemma_run_counters(st, stmts, target);
    if stmts.len() > 0 {
        lemma_translation_keeps_stack_balance(st, stmts.drop_last(), target);
        lemma_run_counters(st, stmts.drop_last(), target);
        if let AsmRun::Done(_, st1) = asm_run(st, stmts.drop_last(), target) {
            lemma_step_counters(st1, stmts.last(), (stmts.len() - 1) as nat, target);
        }
    }
}

proof fn lemma_step_counters(st: CompilerState, s: Statement, idx: nat, target: Target)
    requires
        has_room(st, 1),
    ensures
        asm_statement(st, s, idx, target) matches AsmStep::Emit(_, st2) ==> grew_at_most(st, st2, 1)
            && st2.loop_count >= st.loop_count && st2.input_loop_count >= st.input_loop_count
            && st2.pushes >= st.pushes && st2.pops >= st.pops && (st2.pops > st.pops
            ==> st2.pops <= st2.pushes),
{
}

proof fn lemma_run_counters(st: CompilerState, stmts: Seq<Statement>, target: Target)
    requires
        has_room(st, stmts.len()),
    ensures
        asm_run(st, stmts, target) matches AsmRun::Done(_, st2) ==> grew_at_most(
            st,
            st2,
            stmts.len(),
        ) && st2.loop_count >= st.loop_count && st2.input_loop_count >= st.input_loop_count
            && st2.pushes >= st.pushes && st2.pops >= st.pops,
    decreases stmts.len(),
{
    if stmts.len() > 0 {
        lemma_run_counters(st, stmts.drop_last(), target);
        if let AsmRun::Done(_, st1) = asm_run(st, stmts.drop_last(), target) {
            lemma_step_counters(st1, stmts.last(), (stmts.len() - 1) as nat, target);
        }
    }
}

/// The loops that a successful translation opens are numbered consecutively
/// from the loop count it started with, so no two loops share a label; the
/// same holds of the input reads.
pub proof fn lemma_loop_numbers_are_consecutive(st: CompilerState, stmts: Seq<Statement>, target: Target)
    requires
        has_room(st, stmts.len()),
    ensures
        asm_run(st, stmts, target) matches AsmRun::Done(_, st2) ==> {
            &&& st2.loop_count >= st.loop_count
            &&& st2.active_loops == st.active_loops + Seq::new(
                (st2.loop_count - st.loop_count) as nat,
                |i: int| (st.loop_count + i) as u32,
            )
            &&& st2.input_loop_count >= st.input_loop_count
            &&& st2.active_input_loops == st.active_input_loops + Seq::new(
                (st2.input_loop_count - st.input_loop_count) as nat,
                |i: int| (st.input_loop_count + i) as u32,
            )
        },
    decreases stmts.len(),
{
    lemma_run_counters(st, stmts, target);
    if stmts.len() > 0 {
        lemma_run_counters(st, stmts.drop_last(), target);
        lemma_loop_numbers_are_consecutive(st, stmts.drop_last(), target);
        if let AsmRun::Done(_, st1) = asm_run(st, stmts.drop_last(), target) {
            lemma_step_counters(st1, stmts.last(), (stmts.len() - 1) as nat, target);
            if let AsmRun::Done(_, st2) = asm_run(st, stmts, target) {
                assert(st2.active_loops =~= st.active_loops + Seq::new(
                    (st2.loop_count - st.loop_count) as nat,
                    |i: int| (st.loop_count + i) as u32,
                ));
                assert(st2.active_input_loops =~= st.active_input_loops + Seq::new(
                    (st2.input_loop_count - st.input_loop_count) as nat,
                    |i: int| (st.input_loop_count + i) as u32,
                ));
            }
        }
    }
}


/// The Linux system call `write(1, rsp, 1)`: one byte, the one on top of
/// the machine stack, to standard output.
pub open spec fn linux_write_top_byte() -> Seq<char> {
    "    mov rax, 1\n    mov rdi, 1\n    mov rsi, rsp\n    mov rdx, 1\n    syscall\n"@
}

/// A call of `putchar` on Windows with the stack aligned as its calling
/// convention asks: the character is in `rcx`.
pub open spec fn windows_putchar_call() -> Seq<char> {
    "    mov rbp, rsp\n    and rsp, -16\n    sub rsp, 32\n    call putchar\n    mov rsp, rbp\n"@
}

/// The statement that prints the value of `a` as a character.
pub open spec fn char_print_statement(a: Argument) -> Statement {
    Statement {
        statement_type: StatementTypes::Copy,
        arg1: Some(a),
        arg2: Some(Argument::StdOut { as_number: false }),
        loop_state: None,
    }
}

/// On Linux, printing a character is one `write` of exactly one byte from
/// the top of the machine stack to standard output. A value from the stack
/// is written where it stands; a register or a literal is pushed first and
/// popped again after the write, so the stack is as it was. The compiler's
/// counters do not change.
pub proof fn lemma_linux_char_print_writes_one_byte(st: CompilerState, a: Argument, idx: nat, ls: Option<LoopState>)
    requires
        a is Literal || a is R0 || a is R1 || a is Stack,
    ensures
        asm_statement(st, Statement { loop_state: ls, ..char_print_statement(a) }, idx, Target::Linux)
            == AsmStep::Emit(
            match a {
                Argument::Stack => linux_write_top_byte(),
                Argument::R0 => "    push r12\n"@ + linux_write_top_byte() + "    pop r12\n"@,
                Argument::R1 => "    push r13\n"@ + linux_write_top_byte() + "    pop r13\n"@,
                _ => "    push "@ + decimal(a->Literal_0 as nat) + "\n"@ + linux_write_top_byte()
                    + "    pop rax\n"@,
            },
            st,
        ),
{
    reveal_strlit("    mov rax, 1\n    mov rdi, 1\n    mov rsi, rsp\n    mov rdx, 1\n    syscall\n");
    reveal_strlit("    push r12\n");
    reveal_strlit("    push r13\n");
    reveal_strlit("    pop r12\n");
    reveal_strlit("    pop r13\n");
    reveal_strlit("    pop rax\n");
    reveal_strlit("    push ");
    reveal_strlit("\n");
    reveal_strlit("r12");
    reveal_strlit("r13");
    reveal_strlit("\n    mov rax, 1\n    mov rdi, 1\n    mov rsi, rsp\n    mov rdx, 1\n    syscall\n    pop rax\n");
    reveal_strlit("\n    mov rax, 1\n    mov rdi, 1\n    mov rsi, rsp\n    mov rdx, 1\n    syscall\n    pop ");
    match a {
        Argument::Stack => {},
        Argument::R0 => {
            assert("    push "@ + "r12"@ + "\n    mov rax, 1\n    mov rdi, 1\n    mov rsi, rsp\n    mov rdx, 1\n    syscall\n    pop "@
                + "r12"@ + "\n"@ =~= "    push r12\n"@ + linux_write_top_byte() + "    pop r12\n"@);
        },
        Argument::R1 => {
            assert("    push "@ + "r13"@ + "\n    mov rax, 1\n    mov rdi, 1\n    mov rsi, rsp\n    mov rdx, 1\n    syscall\n    pop "@
                + "r13"@ + "\n"@ =~= "    push r13\n"@ + linux_write_top_byte() + "    pop r13\n"@);
        },
        _ => {
            let d = decimal(a->Literal_0 as nat);
            assert("    push "@ + d + "\n    mov rax, 1\n    mov rdi, 1\n    mov rsi, rsp\n    mov rdx, 1\n    syscall\n    pop rax\n"@
                =~= "    push "@ + d + "\n"@ + linux_write_top_byte() + "    pop rax\n"@);
        },
    }
}

/// On Windows, printing a character loads its value into `rcx` (from the
/// top of the machine stack, from a register by a push and pop, or as a
/// literal) and then calls `putchar` once. The compiler's counters do not
/// change.
pub proof fn lemma_windows_char_print_calls_putchar(st: CompilerState, a: Argument, idx: nat, ls: Option<LoopState>)
    requires
        a is Literal || a is R0 || a is R1 || a is Stack,
    ensures
        asm_statement(st, Statement { loop_state: ls, ..char_print_statement(a) }, idx, Target::Windows)
            == AsmStep::Emit(
            match a {
                Argument::Stack => "    mov rcx, [rsp]\n"@ + windows_putchar_call(),
                Argument::R0 => "    push r12\n    pop rcx\n"@ + windows_putchar_call(),
                Argument::R1 => "    push r13\n    pop rcx\n"@ + windows_putchar_call(),
                _ => "    mov rcx, "@ + decimal(a->Literal_0 as nat) + "\n"@ + windows_putchar_call(),
            },
            st,
        ),
{
    reveal_strlit("    mov rbp, rsp\n    and rsp, -16\n    sub rsp, 32\n    call putchar\n    mov rsp, rbp\n");
    reveal_strlit("    mov rcx, [rsp]\n    mov rbp, rsp\n    and rsp, -16\n    sub rsp, 32\n    call putchar\n    mov rsp, rbp\n");
    reveal_strlit("    mov rcx, [rsp]\n");
    reveal_strlit("    push r12\n    pop rcx\n");
    reveal_strlit("    push r13\n    pop rcx\n");
    reveal_strlit("    push ");
    reveal_strlit("    mov rcx, ");
    reveal_strlit("\n");
    reveal_strlit("r12");
    reveal_strlit("r13");
    reveal_strlit("\n    pop rcx\n    mov rbp, rsp\n    and rsp, -16\n    sub rsp, 32\n    call putchar\n    mov rsp, rbp\n");
    reveal_strlit("\n    mov rbp, rsp\n    and rsp, -16\n    sub rsp, 32\n    call putchar\n    mov rsp, rbp\n");
    match a {
        Argument::Stack => {
            assert("    mov rcx, [rsp]\n    mov rbp, rsp\n    and rsp, -16\n    sub rsp, 32\n    call putchar\n    mov rsp, rbp\n"@
                =~= "    mov rcx, [rsp]\n"@ + windows_putchar_call());
        },
        Argument::R0 => {
            assert("    push "@ + "r12"@ + "\n    pop rcx\n    mov rbp, rsp\n    and rsp, -16\n    sub rsp, 32\n    call putchar\n    mov rsp, rbp\n"@
                =~= "    push r12\n    pop rcx\n"@ + windows_putchar_call());
        },
        Argument::R1 => {
            assert("    push "@ + "r13"@ + "\n    pop rcx\n    mov rbp, rsp\n    and rsp, -16\n    sub rsp, 32\n    call putchar\n    mov rsp, rbp\n"@
                =~= "    push r13\n    pop rcx\n"@ + windows_putchar_call());
        },
        _ => {
            let d = decimal(a->Literal_0 as nat);
            assert("    mov rcx, "@ + d + "\n    mov rbp, rsp\n    and rsp, -16\n    sub rsp, 32\n    call putchar\n    mov rsp, rbp\n"@
                =~= "    mov rcx, "@ + d + "\n"@ + windows_putchar_call());
        },
    }
}

/// Removing a register clears that same register, by an exclusive or of
/// it with itself (`r12` holds the first register, `r13` the second); the
/// compiler's counters do not change.
pub proof fn lemma_remove_register_clears_same_register(st: CompilerState, s: Statement, idx: nat, target: Target)
    requires
        s.statement_type == StatementTypes::Remove,
        s.arg1 == Some(Argument::R0) || s.arg1 == Some(Argument::R1),
    ensures
        asm_statement(st, s, idx, target) == AsmStep::Emit(
            if s.arg1 == Some(Argument::R0) {
                "    xor r12, r12\n"@
            } else {
                "    xor r13, r13\n"@
            },
            st,
        ),
{
    reveal_strlit("    xor r12, r12\n");
    reveal_strlit("    xor r13, r13\n");
    reveal_strlit("    xor ");
    reveal_strlit(", ");
    reveal_strlit("\n");
    reveal_strlit("r12");
    reveal_strlit("r13");
    if s.arg1 == Some(Argument::R0) {
        assert("    xor "@ + "r12"@ + ", "@ + "r12"@ + "\n"@ =~= "    xor r12, r12\n"@);
    } else {
        assert("    xor "@ + "r13"@ + ", "@ + "r13"@ + "\n"@ =~= "    xor r13, r13\n"@);
    }
}

/// A loop end jumps back, while the top of the stack is not zero, to the
/// label that the loop start just before it defined: translating a loop
/// start and then a loop end gives the label `.l<n>` and a conditional jump
/// to that same `.l<n>`, where `n` counts the loops opened before.
pub proof fn lemma_loop_end_jumps_to_its_loop_start(
    st: CompilerState,
    start: Statement,
    end: Statement,
    idx: nat,
    target: Target,
)
    requires
        start.statement_type == StatementTypes::LoopStart,
        end.statement_type == StatementTypes::LoopEnd,
    ensures
        asm_statement(st, start, idx, target) matches AsmStep::Emit(t1, st1) && t1 == "    .l"@
            + decimal(st.loop_count as nat) + ":\n"@ && (asm_statement(st1, end, idx + 1, target)
            matches AsmStep::Emit(t2, st2) && t2 == "    cmp byte ptr [rsp], 0\n    jnz .l"@ + decimal(
            st.loop_count as nat,
        ) + "\n"@),
{
}


/// The first register lives in `r12` and the second in `r13`; a byte-sized
/// access uses their low bytes `r12b` and `r13b`.
pub proof fn lemma_registers_live_in_r12_and_r13()
    ensures
        register_text(Argument::R0, false) == "r12"@,
        register_text(Argument::R0, true) == "r12b"@,
        register_text(Argument::R1, false) == "r13"@,
        register_text(Argument::R1, true) == "r13b"@,
{
}

/// A copy moves its value to where its second operand says: a literal into
/// the low byte of the destination register or onto the machine stack (one
/// push more), the top of the machine stack into the destination register,
/// a register onto the machine stack (one push more).
pub proof fn lemma_copy_moves_to_its_destination(st: CompilerState, s: Statement, idx: nat, target: Target)
    requires
        s.statement_type == StatementTypes::Copy,
        s.arg1 matches Some(a) && (a is Literal || a is R0 || a is R1 || a is Stack),
        s.arg2 matches Some(b) && (b is R0 || b is R1 || b is Stack),
        !(s.arg1->0 is Stack && s.arg2->0 is Stack),
        !(is_register(s.arg1->0) && is_register(s.arg2->0)),
    ensures
        ({
            let a = s.arg1->0;
            let b = s.arg2->0;
            asm_statement(st, s, idx, target) == match (a, b) {
                (Argument::Literal(v), Argument::Stack) => AsmStep::Emit(
                    "    push "@ + decimal(v as nat) + "\n"@,
                    CompilerState { pushes: (st.pushes + 1) as u32, ..st },
                ),
                (Argument::Literal(v), _) => AsmStep::Emit(
                    "    mov "@ + register_text(b, true) + ", "@ + decimal(v as nat) + "\n"@,
                    st,
                ),
                (Argument::Stack, _) => AsmStep::Emit(
                    "    mov "@ + register_text(b, false) + ", [rsp]\n"@,
                    st,
                ),
                _ => AsmStep::Emit(
                    "    push "@ + register_text(a, false) + "\n"@,
                    CompilerState { pushes: (st.pushes + 1) as u32, ..st },
                ),
            }
        }),
{
}

/// Adding, subtracting or multiplying a literal into a register applies
/// that instruction to the register's low byte with the literal.
pub proof fn lemma_arithmetic_with_literal_targets_its_register(
    st: CompilerState,
    s: Statement,
    idx: nat,
    target: Target,
    v: u8,
)
    requires
        s.statement_type is Add || s.statement_type is Subtract || s.statement_type is Multiply,
        s.arg1 == Some(Argument::R0) || s.arg1 == Some(Argument::R1),
        s.arg2 == Some(Argument::Literal(v)),
    ensures
        asm_statement(st, s, idx, target) == AsmStep::Emit(
            (if s.statement_type is Add {
                "    add "@
            } else if s.statement_type is Subtract {
                "    sub "@
            } else {
                "    mul "@
            }) + register_text(s.arg1->0, true) + ", "@ + decimal(v as nat) + "\n"@,
            st,
        ),
{
}

/// A conditional jump jumps to the label its operand names, with the x86
/// condition of its type: `jg` for greater, `jl` for less, `je` for equal.
pub proof fn lemma_jump_goes_to_its_label(st: CompilerState, s: Statement, idx: nat, target: Target, index: u8)
    requires
        s.statement_type is Greater || s.statement_type is Less || s.statement_type is Equal,
        s.arg2 == Some(Argument::Label { index }),
    ensures
        asm_statement(st, s, idx, target) == AsmStep::Emit(
            (if s.statement_type is Greater {
                "    jg .label"@
            } else if s.statement_type is Less {
                "    jl .label"@
            } else {
                "    je .label"@
            }) + decimal(index as nat) + "\n"@,
            st,
        ),
{
}


/// Dividing a register by a literal divides the register's low byte, widened
/// into `ax`, by the literal placed in `r14b`, and stores back the quotient
/// (`al`) for a division or the remainder (`ah`) for a remainder.
pub proof fn lemma_division_with_literal_keeps_quotient_or_remainder(
    st: CompilerState,
    s: Statement,
    idx: nat,
    target: Target,
    v: u8,
)
    requires
        s.statement_type is Divide || s.statement_type is Remainder,
        s.arg1 == Some(Argument::R0) || s.arg1 == Some(Argument::R1),
        s.arg2 == Some(Argument::Literal(v)),
    ensures
        ({
            let r = register_text(s.arg1->0, true);
            asm_statement(st, s, idx, target) == AsmStep::Emit(
                "    mov al, "@ + r + "\n    mov ah, 0\n    mov r14b, "@ + decimal(v as nat)
                    + "\n    div r14b\n    mov "@ + r + (if s.statement_type is Divide {
                    ", al\n"@
                } else {
                    ", ah\n"@
                }),
                st,
            )
        }),
{
    let r = register_text(s.arg1->0, true);
    let d = decimal(v as nat);
    reveal_strlit(", al\n");
    reveal_strlit(", ah\n");
    reveal_strlit("\n    div r14b\n    mov ");
    assert("    mov al, "@ + r + "\n    mov ah, 0\n    mov r14b, "@ + d + "\n    div r14b\n    mov "@ + r
        + ", al\n"@ =~= "    mov al, "@ + r + "\n    mov ah, 0\n    mov r14b, "@ + d
        + "\n    div r14b\n    mov "@ + (r + ", al\n"@));
    assert("    mov al, "@ + r + "\n    mov ah, 0\n    mov r14b, "@ + d + "\n    div r14b\n    mov "@ + r
        + ", ah\n"@ =~= "    mov al, "@ + r + "\n    mov ah, 0\n    mov r14b, "@ + d
        + "\n    div r14b\n    mov "@ + (r + ", ah\n"@));
}

/// A comparison of a register or the top of the machine stack with another
/// operand is one `cmp` of the two places that hold the values: the full
/// register, `[rsp]` for the stack, or the literal itself.
pub proof fn lemma_compare_compares_both_operands(st: CompilerState, s: Statement, idx: nat, target: Target)
    requires
        s.statement_type == StatementTypes::Compare,
        s.arg1 matches Some(a) && (a is R0 || a is R1 || a is Stack),
        s.arg2 matches Some(b) && (b is Literal || b is R0 || b is R1 || b is Stack),
    ensures
        ({
            let place = |x: Argument|
                match x {
                    Argument::Literal(v) => decimal(v as nat),
                    Argument::Stack => "[rsp]"@,
                    _ => register_text(x, false),
                };
            asm_statement(st, s, idx, target) == AsmStep::Emit(
                "    cmp "@ + place(s.arg1->0) + ", "@ + place(s.arg2->0) + "\n"@,
                st,
            )
        }),
{
    reveal_strlit("    cmp ");
    reveal_strlit("    cmp [rsp], ");
    reveal_strlit("[rsp]");
    reveal_strlit(", ");
    let b = s.arg2->0;
    let t = match b {
        Argument::Literal(v) => decimal(v as nat),
        Argument::Stack => "[rsp]"@,
        _ => register_text(b, false),
    };
    assert("    cmp [rsp], "@ + t + "\n"@ =~= "    cmp "@ + "[rsp]"@ + ", "@ + t + "\n"@);
}


proof fn lemma_framed(start: Seq<char>, mid: Seq<char>, ending: Seq<char>)
    ensures
        ({
            let t = start + mid + ending;
            &&& t.len() >= start.len() + ending.len()
            &&& t.take(start.len() as int) == start
            &&& t.skip(t.len() - ending.len()) == ending
        }),
{
    let t = start + mid + ending;
    assert(t.take(start.len() as int) =~= start);
    assert(t.skip(t.len() - ending.len()) =~= ending);
}

proof fn lemma_decimal_text_frame(target: Target, place: Seq<char>, n: u32)
    ensures
        ({
            let t = decimal_print_text(target, place, n);
            let c = decimal(n as nat);
            let ending = if target is Linux {
                "    mov rax, 1\n    mov rdi, 1\n    mov rsi, rcx\n    syscall\n"@
            } else {
                "    call putchar\n    mov rsp, rbp\n    inc r14\n    jmp .print_loop"@ + c + "\n    .print_end"@ + c + ":\n"@
            };
            let start = "    mov rax, "@ + place + "\n"@;
            &&& t.len() >= start.len() + ending.len()
            &&& t.take(start.len() as int) == start
            &&& t.skip(t.len() - ending.len()) == ending
        }),
{
    let c = decimal(n as nat);
    reveal_strlit("\n");
    reveal_strlit("\n    lea rcx, [decimal_buf + 2 + rip]\n    mov rbx, 10\n    .dec_loop");
    reveal_strlit("    lea rcx, [decimal_buf + 2 + rip]\n    mov rbx, 10\n    .dec_loop");
    reveal_strlit("\n    lea rdx, [decimal_buf + 2 + rip]\n    sub rdx, rcx\n    inc rcx\n    mov rsi, rcx\n    mov rax, 1\n    mov rdi, 1\n    mov rsi, rcx\n    syscall\n");
    reveal_strlit("\n    lea rdx, [decimal_buf + 2 + rip]\n    sub rdx, rcx\n    inc rcx\n    mov rsi, rcx\n");
    reveal_strlit("    mov rax, 1\n    mov rdi, 1\n    mov rsi, rcx\n    syscall\n");
    reveal_strlit("\n    lea rcx, [decimal_buf + 2 + rip]\n    mov r8, 10\n    .dec_loop");
    reveal_strlit("    lea rcx, [decimal_buf + 2 + rip]\n    mov r8, 10\n    .dec_loop");
    reveal_strlit("\n    mov rbp, rsp\n    and rsp, -16\n    sub rsp, 32\n    call putchar\n    mov rsp, rbp\n    inc r14\n    jmp .print_loop");
    reveal_strlit("\n    mov rbp, rsp\n    and rsp, -16\n    sub rsp, 32\n");
    reveal_strlit("    call putchar\n    mov rsp, rbp\n    inc r14\n    jmp .print_loop");
    if target is Linux {
        let mid = "    lea rcx, [decimal_buf + 2 + rip]\n    mov rbx, 10\n    .dec_loop"@ + c + ":\n    xor rdx, rdx\n    div rbx\n    add dl, '0'\n    mov [rcx], dl\n    dec rcx\n    test rax, rax\n    jnz .dec_loop"@ + c + "\n    lea rdx, [decimal_buf + 2 + rip]\n    sub rdx, rcx\n    inc rcx\n    mov rsi, rcx\n"@;
        assert("    mov rax, "@ + place + "\n    lea rcx, [decimal_buf + 2 + rip]\n    mov rbx, 10\n    .dec_loop"@ + c + ":\n    xor rdx, rdx\n    div rbx\n    add dl, '0'\n    mov [rcx], dl\n    dec rcx\n    test rax, rax\n    jnz .dec_loop"@ + c + "\n    lea rdx, [decimal_buf + 2 + rip]\n    sub rdx, rcx\n    inc rcx\n    mov rsi, rcx\n    mov rax, 1\n    mov rdi, 1\n    mov rsi, rcx\n    syscall\n"@ =~= "    mov rax, "@ + place
            + "\n"@ + mid + "    mov rax, 1\n    mov rdi, 1\n    mov rsi, rcx\n    syscall\n"@);
        lemma_framed("    mov rax, "@ + place + "\n"@, mid, "    mov rax, 1\n    mov rdi, 1\n    mov rsi, rcx\n    syscall\n"@);
    } else {
        let mid = "    lea rcx, [decimal_buf + 2 + rip]\n    mov r8, 10\n    .dec_loop"@ + c + ":\n    xor rdx, rdx\n    div r8\n    add dl, '0'\n    mov [rcx], dl\n    dec rcx\n    test rax, rax\n    jnz .dec_loop"@ + c + "\n    lea rdx, [decimal_buf + 2 + rip]\n    sub rdx, rcx\n    inc rcx\n    mov r14, rcx\n    .print_loop"@ + c + ":\n    movzx rcx, byte ptr [r14]\n    cmp rcx, 0\n    je .print_end"@ + c + "\n    mov rbp, rsp\n    and rsp, -16\n    sub rsp, 32\n"@;
        let ending = "    call putchar\n    mov rsp, rbp\n    inc r14\n    jmp .print_loop"@ + c + "\n    .print_end"@ + c + ":\n"@;
        assert("    mov rax, "@ + place + "\n    lea rcx, [decimal_buf + 2 + rip]\n    mov r8, 10\n    .dec_loop"@ + c + ":\n    xor rdx, rdx\n    div r8\n    add dl, '0'\n    mov [rcx], dl\n    dec rcx\n    test rax, rax\n    jnz .dec_loop"@ + c + "\n    lea rdx, [decimal_buf + 2 + rip]\n    sub rdx, rcx\n    inc rcx\n    mov r14, rcx\n    .print_loop"@ + c + ":\n    movzx rcx, byte ptr [r14]\n    cmp rcx, 0\n    je .print_end"@ + c + "\n    mov rbp, rsp\n    and rsp, -16\n    sub rsp, 32\n    call putchar\n    mov rsp, rbp\n    inc r14\n    jmp .print_loop"@ + c
            + "\n    .print_end"@ + c + ":\n"@ =~= "    mov rax, "@ + place + "\n"@ + mid + ending);
        lemma_framed("    mov rax, "@ + place + "\n"@, mid, ending);
    }
}

/// Printing an operand as a decimal number loads its value into `rax`
/// first (the literal, `[rsp]` for the stack, or the full register) and
/// ends by handing the digits to the system: on Linux one `write` to
/// standard output from `rcx`, on Windows a `putchar` per digit in a loop
/// numbered by the count of decimal prints before it, which goes up by one.
pub proof fn lemma_decimal_print_loads_its_operand(st: CompilerState, a: Argument, idx: nat, target: Target, ls: Option<LoopState>)
    requires
        a is Literal || a is R0 || a is R1 || a is Stack,
    ensures
        ({
            let s = Statement {
                statement_type: StatementTypes::Copy,
                arg1: Some(a),
                arg2: Some(Argument::StdOut { as_number: true }),
                loop_state: ls,
            };
            let place = match a {
                Argument::Literal(v) => decimal(v as nat),
                Argument::Stack => "[rsp]"@,
                _ => register_text(a, false),
            };
            let c = decimal(st.decimal_print_loop_count as nat);
            let ending = if target is Linux {
                "    mov rax, 1\n    mov rdi, 1\n    mov rsi, rcx\n    syscall\n"@
            } else {
                "    call putchar\n    mov rsp, rbp\n    inc r14\n    jmp .print_loop"@ + c + "\n    .print_end"@ + c + ":\n"@
            };
            asm_statement(st, s, idx, target) matches AsmStep::Emit(t, st2) && st2 == (CompilerState {
                decimal_print_loop_count: (st.decimal_print_loop_count + 1) as u32,
                ..st
            }) && ({
                let start = "    mov rax, "@ + place + "\n"@;
                &&& t.len() >= start.len() + ending.len()
                &&& t.take(start.len() as int) == start
                &&& t.skip(t.len() - ending.len()) == ending
            })
        }),
{
    let place = match a {
        Argument::Literal(v) => decimal(v as nat),
        Argument::Stack => "[rsp]"@,
        _ => register_text(a, false),
    };
    lemma_decimal_text_frame(target, place, st.decimal_print_loop_count);
}

} // verus!
