use aglang::compiler::{Compiler, Target};
use aglang::interpreter::Interpreter;
use aglang::transpiler::try_transpile_to_c;
use aglang::parser::{parse_source, Argument, Statement, StatementTypes};

fn st(t: StatementTypes, a: Option<Argument>, b: Option<Argument>) -> Statement {
    Statement { statement_type: t, arg1: a, arg2: b, loop_state: None }
}

const PROLOGUE: &str =
    "    push r12\n    xor r12, r12\n    push r13\n    xor r13, r13\n    push rbp\n    mov rbp, rsp\n";
const LINUX_END: &str =
    "    mov rsp, rbp\n    pop rbp\n    pop r13\n    pop r12\n    mov rax, 60\n    mov rdi, 0\n    syscall\n";
const WINDOWS_END: &str = "    mov rsp, rbp\n    pop rbp\n    pop r13\n    pop r12\n    and rsp, -16\n    sub rsp, 32\n    mov rcx, 0\n    call exit\n    add rsp, 32\n";

fn linux(bss: &str, body: &str) -> String {
    format!(".intel_syntax noprefix\n.global _start\n\n{bss}.section .text\n_start:\n{PROLOGUE}{body}{LINUX_END}")
}

fn windows(bss: &str, body: &str) -> String {
    format!(".intel_syntax noprefix\n.global main\n\n{bss}.section .text\nmain:\n{PROLOGUE}{body}{WINDOWS_END}")
}

fn compile(src: &str, target: Target) -> Result<String, String> {
    let statements = parse_source(src.to_string()).ok().unwrap();
    Compiler::new().compile_to_asm(statements, target)
}

#[test]
fn empty_program() {
    assert_eq!(Compiler::new().compile_to_asm(vec![], Target::Linux), Ok(linux("", "")));
    assert_eq!(Compiler::new().compile_to_asm(vec![], Target::Windows), Ok(windows("", "")));
}

#[test]
fn copies() {
    assert_eq!(compile("1>'", Target::Linux), Ok(linux("", "    mov r12b, 1\n")));
    assert_eq!(compile("11>''", Target::Linux), Ok(linux("", "    mov r13b, 3\n")));
    assert_eq!(compile(":>''", Target::Linux), Ok(linux("", "    mov r13, [rsp]\n")));
    assert_eq!(
        compile("101>:;'>:;!:;!:", Target::Linux),
        Ok(linux("", "    push 5\n    push r12\n    pop rax\n    pop rax\n"))
    );
}

#[test]
fn character_output() {
    assert_eq!(
        compile("1000001>\\", Target::Linux),
        Ok(linux(
            "",
            "    push 65\n    mov rax, 1\n    mov rdi, 1\n    mov rsi, rsp\n    mov rdx, 1\n    syscall\n    pop rax\n"
        ))
    );
    assert_eq!(
        compile("'>\\", Target::Windows),
        Ok(windows(
            "",
            "    push r12\n    pop rcx\n    mov rbp, rsp\n    and rsp, -16\n    sub rsp, 32\n    call putchar\n    mov rsp, rbp\n"
        ))
    );
}

#[test]
fn decimal_output_uses_its_buffer() {
    let stmts = vec![
        st(StatementTypes::Copy, Some(Argument::Literal(7)), Some(Argument::StdOut { as_number: true })),
        st(StatementTypes::Copy, Some(Argument::R1), Some(Argument::StdOut { as_number: true })),
    ];
    let body = |src: &str, c: u32| {
        format!("    mov rax, {src}\n    lea rcx, [decimal_buf + 2 + rip]\n    mov rbx, 10\n    .dec_loop{c}:\n    xor rdx, rdx\n    div rbx\n    add dl, '0'\n    mov [rcx], dl\n    dec rcx\n    test rax, rax\n    jnz .dec_loop{c}\n    lea rdx, [decimal_buf + 2 + rip]\n    sub rdx, rcx\n    inc rcx\n    mov rsi, rcx\n    mov rax, 1\n    mov rdi, 1\n    mov rsi, rcx\n    syscall\n")
    };
    let expected = linux(
        ".section .bss\n.lcomm decimal_buf, 3\n\n",
        &format!("{}{}", body("7", 0), body("r13", 1)),
    );
    assert_eq!(Compiler::new().compile_to_asm(stmts, Target::Linux), Ok(expected));
}

#[test]
fn input_section_and_read() {
    let expected = linux(
        ".section .bss\n.lcomm input_buf, 256\n\n",
        "    mov rax, 0\n    mov rdi, 0\n    lea rsi, [rip + input_buf]\n    mov rdx, 256\n    syscall\n    mov rcx, rax\n    sub rcx, 2\n    push 0\n.input_loop0:\n    lea rbx, [rip + input_buf]\n    movzx rbx, byte ptr [rbx + rcx]\n    push rbx\n    dec rcx\n    cmp rcx, 0\n    jge .input_loop0\n",
    );
    assert_eq!(compile("|", Target::Linux), Ok(expected));
}

#[test]
fn arithmetic() {
    assert_eq!(compile("'+1", Target::Linux), Ok(linux("", "    add r12b, 1\n")));
    assert_eq!(compile("'+''", Target::Linux), Ok(linux("", "    add r12b, r13b\n")));
    // Subtraction and multiplication of two registers name the first twice.
    assert_eq!(compile("'-''", Target::Linux), Ok(linux("", "    sub r12b, r12b\n")));
    assert_eq!(compile("''*:", Target::Linux), Ok(linux("", "    mul r13b, [rsp]\n")));
    assert_eq!(
        compile("'/10", Target::Linux),
        Ok(linux("", "    mov al, r12b\n    mov ah, 0\n    mov r14b, 2\n    div r14b\n    mov r12b, al\n"))
    );
    assert_eq!(
        compile("''%:", Target::Linux),
        Ok(linux("", "    mov al, r13b\n    mov ah, 0\n    mov r14b, [rsp]\n    div r14b\n    mov r13b, ah\n"))
    );
    assert_eq!(compile("'!", Target::Linux), Ok(linux("", "    xor r12, r12\n")));
}

#[test]
fn refused_statements() {
    assert_eq!(
        compile("'>''", Target::Linux),
        Err("Error SyntaxError(InvalidArguments) on statement 1: Invalid arguments supplied for Copy".to_string())
    );
    assert_eq!(
        compile("1>';1+1", Target::Linux),
        Err("Error SyntaxError(InvalidArguments) on statement 2: Invalid arguments supplied for Add".to_string())
    );
    assert_eq!(
        compile("1!", Target::Linux),
        Err("Error SyntaxError(InvalidArguments) on statement 1: Invalid argument supplied for Remove".to_string())
    );
    assert_eq!(
        compile("01", Target::Linux),
        Err("Error SyntaxError(InvalidStatement) on statement 1: Invalid statement provided.".to_string())
    );
}

#[test]
fn stack_underflow() {
    assert_eq!(
        compile("|;:!", Target::Linux),
        Err("Error CompileError(StackUnderflow) on statement 2: Popping would underflow the stack.".to_string())
    );
}

#[test]
fn loops_labels_and_jumps() {
    let stmts = vec![
        st(StatementTypes::LoopStart, None, None),
        st(StatementTypes::Label, None, Some(Argument::Label { index: 3 })),
        st(StatementTypes::Compare, Some(Argument::R0), Some(Argument::Literal(9))),
        st(StatementTypes::Greater, None, Some(Argument::Label { index: 3 })),
        st(StatementTypes::Compare, Some(Argument::Literal(1)), Some(Argument::R1)),
        st(StatementTypes::Less, None, Some(Argument::Label { index: 3 })),
        st(StatementTypes::Compare, Some(Argument::Stack), Some(Argument::Stack)),
        st(StatementTypes::Equal, None, Some(Argument::Label { index: 3 })),
        st(StatementTypes::LoopEnd, None, None),
    ];
    let body = "    .l0:\n    .label3:\n    cmp r12, 9\n    jg .label3\n    mov r14, 1\n    cmp r14, r13b\n    jl .label3\n    cmp [rsp], [rsp]\n    je .label3\n    cmp byte ptr [rsp], 0\n    jnz .l0\n";
    let mut c = Compiler::new();
    assert_eq!(c.compile_to_asm(stmts.clone(), Target::Linux), Ok(linux("", body)));
    // The loop counter persists: a second translation opens loop 1.
    let again = c.compile_to_asm(vec![st(StatementTypes::LoopStart, None, None)], Target::Linux);
    assert_eq!(again, Ok(linux("", "    .l1:\n")));
}

#[test]
fn label_errors() {
    let stmts = vec![st(StatementTypes::Label, None, Some(Argument::R0))];
    assert_eq!(
        Compiler::new().compile_to_asm(stmts, Target::Linux),
        Err("Error SyntaxError(InvalidArguments) on statement 1: Cannot use argument of type Argument(R0) as label definition.".to_string())
    );
    let stmts = vec![st(StatementTypes::Greater, None, Some(Argument::Literal(2)))];
    assert_eq!(
        Compiler::new().compile_to_asm(stmts, Target::Linux),
        Err("Error SyntaxError(InvalidArguments) on statement 1: Cannot use argument of type Argument(Literal(2)) as label reference.".to_string())
    );
}

#[test]
fn statements_that_cannot_be_translated() {
    let stmts = vec![st(StatementTypes::LoopEnd, None, None)];
    assert_eq!(Compiler::new().try_compile_to_asm(stmts, Target::Linux), None);
    let stmts = vec![st(StatementTypes::Copy, Some(Argument::R0), None)];
    assert_eq!(Compiler::new().try_compile_to_asm(stmts, Target::Linux), None);
    // A refusal before the missing operand decides.
    let stmts = vec![
        st(StatementTypes::Remove, Some(Argument::Literal(1)), None),
        st(StatementTypes::Copy, Some(Argument::R0), None),
    ];
    assert!(matches!(Compiler::new().try_compile_to_asm(stmts, Target::Linux), Some(Err(_))));
}

#[test]
fn parsed_programs_are_always_translated() {
    for src in ["1>';'>\\", "|;:!;:!;:!", "'>'';01;1!", "[1>:;:>\\;:!]", "'/0;''%1"] {
        let statements = parse_source(src.to_string()).ok().unwrap();
        assert!(Compiler::new().try_compile_to_asm(statements.clone(), Target::Linux).is_some());
        assert!(Compiler::new().try_compile_to_asm(statements.clone(), Target::Windows).is_some());
        assert!(try_transpile_to_c(statements.clone()).is_some());
        assert_eq!(Interpreter::new().try_preprocess(&statements), Some(Ok(())));
    }
}

#[test]
fn loops_get_consecutive_numbers() {
    let stmts = vec![
        st(StatementTypes::LoopStart, None, None),
        st(StatementTypes::LoopStart, None, None),
        st(StatementTypes::LoopEnd, None, None),
        st(StatementTypes::Input, None, None),
        st(StatementTypes::Input, None, None),
    ];
    let text = Compiler::new().compile_to_asm(stmts, Target::Linux).unwrap();
    assert!(text.contains("    .l0:\n    .l1:\n    cmp byte ptr [rsp], 0\n    jnz .l1\n"));
    assert!(text.contains(".input_loop0:\n") && text.contains(".input_loop1:\n"));
}

#[test]
fn balanced_pushes_and_pops_translate() {
    assert!(compile("1>:;11>:;:!;:!", Target::Linux).is_ok());
    assert!(compile("1>:;:!;:!", Target::Linux).is_err());
}
