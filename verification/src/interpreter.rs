use vstd::prelude::*;
use crate::error::{ErrorKind, RuntimeError, SyntaxError, error_text, format_error};
use crate::parser::{
    Argument,
    Statement,
    StatementTypes,
    argument_debug,
    argument_display,
    statement_type_name,
};

verus! {

/// A jump target: the statement with index `instruction` defines label `index`.
#[derive(Debug, Clone, Copy, PartialEq, Eq, Structural)]
pub struct Label {
    pub index: u8,
    pub instruction: u32,
}

/// The outcome of the last comparison.
#[derive(Debug, Clone, Copy, PartialEq, Eq, Structural)]
pub enum Compare {
    Equal,
    Greater,
    Less,
}

/// Runs statements one at a time: two byte registers, a byte stack, the
/// index of the next statement, the open loops, the known labels and the
/// outcome of the last comparison.
pub struct Interpreter {
    r0: u8,
    r1: u8,
    stack: Vec<u8>,
    instruction_pointer: u32,
    loops: Vec<u32>,
    labels: Vec<Label>,
    current_comparison: Option<Compare>,
}

/// The state of an `Interpreter`.
pub struct Machine {
    pub r0: u8,
    pub r1: u8,
    /// The stack, bottom first.
    pub stack: Seq<u8>,
    pub instruction_pointer: u32,
    /// The indices of the loop starts entered and not yet left, in order.
    pub loops: Seq<u32>,
    pub labels: Seq<Label>,
    pub comparison: Option<Compare>,
}

impl View for Interpreter {
    type V = Machine;

    closed spec fn view(&self) -> Machine {
        Machine {
            r0: self.r0,
            r1: self.r1,
            stack: self.stack@,
            instruction_pointer: self.instruction_pointer,
            loops: self.loops@,
            labels: self.labels@,
            comparison: self.current_comparison,
        }
    }
}

/// `n` modulo 256, as a byte.
pub open spec fn wrap(n: int) -> u8 {
    (n % 256) as u8
}

/// Every jump target of `m` can be incremented without overflow.
pub open spec fn targets_fit(m: Machine) -> bool {
    &&& forall|i: int| 0 <= i < m.loops.len() ==> m.loops[i] < u32::MAX
    &&& forall|i: int| 0 <= i < m.labels.len() ==> m.labels[i].instruction < u32::MAX
}

/// The diagnostic for an error of kind `k` at the current statement.
pub open spec fn failure(m: Machine, k: ErrorKind, msg: Seq<char>) -> Seq<char> {
    error_text(k, m.instruction_pointer as nat, msg)
}

/// The value an operand reads, or the diagnostic for an operand that cannot
/// be read.
pub open spec fn read_value(m: Machine, a: Argument) -> Result<u8, Seq<char>> {
    match a {
        Argument::Literal(v) => Ok(v),
        Argument::R0 => Ok(m.r0),
        Argument::R1 => Ok(m.r1),
        Argument::Stack => if m.stack.len() > 0 {
            Ok(m.stack.last())
        } else {
            Err(
                failure(
                    m,
                    ErrorKind::Runtime(RuntimeError::EmptyStackRead),
                    "Tried to access stack, but stack is empty."@,
                ),
            )
        },
        _ => Err(
            failure(
                m,
                ErrorKind::Syntax(SyntaxError::InvalidSource),
                "Cannot read from argument of type: "@ + argument_display(a),
            ),
        ),
    }
}

/// The instruction of the first label with index `index`.
pub open spec fn find_label(labels: Seq<Label>, index: u8) -> Option<u32>
    decreases labels.len(),
{
    if labels.len() == 0 {
        None
    } else {
        match find_label(labels.drop_last(), index) {
            Some(x) => Some(x),
            None => if labels.last().index == index {
                Some(labels.last().instruction)
            } else {
                None
            },
        }
    }
}

/// `n` dots.
pub open spec fn dots(n: nat) -> Seq<char> {
    Seq::new(n, |i: int| '.')
}

/// What a step asks of the program's surroundings.
pub enum Effect {
    Nothing,
    /// Print the character with this code.
    PrintChar(u8),
    /// Print this number in decimal.
    PrintNumber(u8),
}

/// The outcome of one step.
pub enum StepModel {
    /// The next state, and what to print.
    Next(Machine, Effect),
    /// The statement reads a line of input.
    NeedsInput,
    /// No statement is left.
    Halt,
    /// The statement is refused with this diagnostic.
    Fail(Seq<char>),
    /// The statement cannot be run: an operand it reads is missing, a loop
    /// end has no loop to return to, or a division is by zero.
    Stuck,
}

/// `m` with the instruction pointer moved to the next statement.
pub open spec fn advance(m: Machine) -> Machine {
    Machine { instruction_pointer: (m.instruction_pointer + 1) as u32, ..m }
}

pub open spec fn write_error(m: Machine, a: Argument) -> Seq<char> {
    failure(
        m,
        ErrorKind::Syntax(SyntaxError::InvalidDestination),
        "Cannot write to argument of type: "@ + argument_display(a),
    )
}

/// A conditional jump, taken when the last comparison is `wanted`.
pub open spec fn jump_step(m: Machine, s: Statement, wanted: Compare) -> StepModel {
    match s.arg2 {
        None => StepModel::Stuck,
        Some(Argument::Label { index }) => match find_label(m.labels, index) {
            None => StepModel::Fail(
                failure(
                    m,
                    ErrorKind::Syntax(SyntaxError::InvalidArguments),
                    "Label "@ + dots(index as nat) + " isn't defined."@,
                ),
            ),
            Some(target) => if m.comparison == Some(wanted) {
                StepModel::Next(
                    Machine { instruction_pointer: (target + 1) as u32, ..m },
                    Effect::Nothing,
                )
            } else {
                StepModel::Next(advance(m), Effect::Nothing)
            },
        },
        Some(a) => StepModel::Fail(
            failure(
                m,
                ErrorKind::Syntax(SyntaxError::InvalidArguments),
                "Cannot use argument "@ + argument_debug(a) + " as label reference."@,
            ),
        ),
    }
}

/// An arithmetic statement of type `t`.
pub open spec fn arithmetic_step(m: Machine, s: Statement) -> StepModel {
    match s.arg2 {
        None => StepModel::Stuck,
        Some(b) => match read_value(m, b) {
            Err(e) => StepModel::Fail(e),
            Ok(v) => match s.arg1 {
                None => StepModel::Stuck,
                Some(a) => if a is R0 || a is R1 {
                    let current = if a is R0 {
                        m.r0
                    } else {
                        m.r1
                    };
                    if (s.statement_type is Divide || s.statement_type is Remainder) && v == 0 {
                        StepModel::Stuck
                    } else {
                        let result = match s.statement_type {
                            StatementTypes::Add => wrap(current + v),
                            StatementTypes::Subtract => wrap(current - v),
                            StatementTypes::Multiply => wrap(current * v),
                            StatementTypes::Divide => (current / v) as u8,
                            _ => (current % v) as u8,
                        };
                        let m2 = if a is R0 {
                            Machine { r0: result, ..m }
                        } else {
                            Machine { r1: result, ..m }
                        };
                        StepModel::Next(advance(m2), Effect::Nothing)
                    }
                } else {
                    StepModel::Fail(write_error(m, a))
                },
            },
        },
    }
}

/// A copy from the first operand to the second.
pub open spec fn copy_step(m: Machine, s: Statement) -> StepModel {
    match s.arg1 {
        None => StepModel::Stuck,
        Some(a) => match read_value(m, a) {
            Err(e) => StepModel::Fail(e),
            Ok(v) => match s.arg2 {
                None => StepModel::Stuck,
                Some(Argument::R0) => StepModel::Next(advance(Machine { r0: v, ..m }), Effect::Nothing),
                Some(Argument::R1) => StepModel::Next(advance(Machine { r1: v, ..m }), Effect::Nothing),
                Some(Argument::Stack) => StepModel::Next(
                    advance(Machine { stack: m.stack.push(v), ..m }),
                    Effect::Nothing,
                ),
                Some(Argument::StdOut { as_number }) => StepModel::Next(
                    advance(m),
                    if as_number {
                        Effect::PrintNumber(v)
                    } else {
                        Effect::PrintChar(v)
                    },
                ),
                Some(_) => StepModel::Fail(write_error(m, a)),
            },
        },
    }
}

/// Runs the statement at the instruction pointer of `m`.
pub open spec fn step_model(m: Machine, stmts: Seq<Statement>) -> StepModel {
    let ip = m.instruction_pointer as int;
    if ip >= stmts.len() {
        StepModel::Halt
    } else {
        let s = stmts[ip];
        if (s.statement_type is Greater || s.statement_type is Less || s.statement_type is Equal)
            && (ip == 0 || stmts[ip - 1].statement_type != StatementTypes::Compare) {
            StepModel::Fail(
                failure(
                    m,
                    ErrorKind::Syntax(SyntaxError::InvalidStatement),
                    "Statement "@ + statement_type_name(s.statement_type)
                        + " has to be preceded by a "@ + statement_type_name(
                        StatementTypes::Compare,
                    ) + " statement."@,
                ),
            )
        } else {
            match s.statement_type {
                StatementTypes::LoopStart => StepModel::Next(
                    advance(
                        if m.loops.contains(m.instruction_pointer) {
                            m
                        } else {
                            Machine { loops: m.loops.push(m.instruction_pointer), ..m }
                        },
                    ),
                    Effect::Nothing,
                ),
                StatementTypes::LoopEnd => if m.stack.len() == 0 || m.stack.last() != 0 {
                    if m.loops.len() == 0 {
                        StepModel::Stuck
                    } else {
                        StepModel::Next(
                            Machine { instruction_pointer: (m.loops.last() + 1) as u32, ..m },
                            Effect::Nothing,
                        )
                    }
                } else {
                    StepModel::Next(
                        advance(
                            Machine {
                                loops: if m.loops.len() > 0 {
                                    m.loops.drop_last()
                                } else {
                                    m.loops
                                },
                                ..m
                            },
                        ),
                        Effect::Nothing,
                    )
                },
                StatementTypes::Compare => match s.arg1 {
                    None => StepModel::Stuck,
                    Some(a) => match read_value(m, a) {
                        Err(e) => StepModel::Fail(e),
                        Ok(x) => match s.arg2 {
                            None => StepModel::Stuck,
                            Some(b) => match read_value(m, b) {
                                Err(e) => StepModel::Fail(e),
                                Ok(y) => StepModel::Next(
                                    advance(
                                        Machine {
                                            comparison: Some(
                                                if x == y {
                                                    Compare::Equal
                                                } else if x > y {
                                                    Compare::Greater
                                                } else {
                                                    Compare::Less
                                                },
                                            ),
                                            ..m
                                        },
                                    ),
                                    Effect::Nothing,
                                ),
                            },
                        },
                    },
                },
                StatementTypes::Greater => jump_step(m, s, Compare::Greater),
                StatementTypes::Less => jump_step(m, s, Compare::Less),
                StatementTypes::Equal => jump_step(m, s, Compare::Equal),
                StatementTypes::Copy => copy_step(m, s),
                StatementTypes::Input => StepModel::NeedsInput,
                StatementTypes::Remove => match s.arg1 {
                    None => StepModel::Stuck,
                    Some(Argument::R0) => StepModel::Next(
                        advance(Machine { r0: 0, ..m }),
                        Effect::Nothing,
                    ),
                    Some(Argument::R1) => StepModel::Next(
                        advance(Machine { r1: 0, ..m }),
                        Effect::Nothing,
                    ),
                    Some(Argument::Stack) => StepModel::Next(
                        advance(
                            Machine {
                                stack: if m.stack.len() > 0 {
                                    m.stack.drop_last()
                                } else {
                                    m.stack
                                },
                                ..m
                            },
                        ),
                        Effect::Nothing,
                    ),
                    Some(a) => StepModel::Fail(write_error(m, a)),
                },
                StatementTypes::Add | StatementTypes::Subtract | StatementTypes::Multiply
                | StatementTypes::Divide | StatementTypes::Remainder => arithmetic_step(m, s),
                StatementTypes::Label => StepModel::Next(advance(m), Effect::Nothing),
                _ => StepModel::Fail(
                    failure(
                        m,
                        ErrorKind::Syntax(SyntaxError::InvalidStatement),
                        "Invalid statement provided."@,
                    ),
                ),
            }
        }
    }
}


/// The state after a line of input is handed to a statement that reads it:
/// a 0 and then the bytes of `line` from last to first are pushed, and the
/// next statement follows.
pub open spec fn input_state(m: Machine, line: Seq<u8>) -> Machine {
    Machine {
        stack: m.stack.push(0) + line.reverse(),
        instruction_pointer: (m.instruction_pointer + 1) as u32,
        ..m
    }
}

/// The outcome of collecting the labels of a program.
pub enum Preprocessed {
    /// The labels defined, in order.
    Labels(Seq<Label>),
    /// A label definition was refused with this diagnostic, after these
    /// labels were collected.
    Fail(Seq<char>, Seq<Label>),
    /// A label definition has no operand.
    Stuck,
}

/// Collects the labels defined by the first `n` statements, in order.
pub open spec fn collect_labels(m: Machine, stmts: Seq<Statement>, n: nat) -> Preprocessed
    decreases n,
{
    if n == 0 {
        Preprocessed::Labels(Seq::empty())
    } else {
        match collect_labels(m, stmts, (n - 1) as nat) {
            Preprocessed::Labels(ls) => {
                let s = stmts[n - 1];
                if s.statement_type == StatementTypes::Label {
                    match s.arg2 {
                        None => Preprocessed::Stuck,
                        Some(Argument::Label { index }) => Preprocessed::Labels(
                            ls.push(Label { index, instruction: (n - 1) as u32 }),
                        ),
                        Some(a) => Preprocessed::Fail(
                            failure(
                                m,
                                ErrorKind::Syntax(SyntaxError::InvalidArguments),
                                "Cannot use argument of type "@ + argument_display(a)
                                    + " as label definition."@,
                            ),
                            ls,
                        ),
                    }
                } else {
                    Preprocessed::Labels(ls)
                }
            },
            other => other,
        }
    }
}

/// What the surroundings of a running program are asked to do.
#[derive(Debug, PartialEq, Eq)]
pub enum Action {
    /// Nothing: run the next step.
    Continue,
    /// Print the character with this code.
    PrintChar(u8),
    /// Print this number in decimal.
    PrintNumber(u8),
    /// Read a line of input and hand it to `complete_input`.
    ReadLine,
    /// The program has ended.
    Halt,
    /// The program is refused with this diagnostic.
    Fail(String),
}

/// `action` is what `model` asks for.
pub open spec fn reports_step(action: Action, model: StepModel) -> bool {
    match model {
        StepModel::Next(_, Effect::Nothing) => action is Continue,
        StepModel::Next(_, Effect::PrintChar(c)) => action == Action::PrintChar(c),
        StepModel::Next(_, Effect::PrintNumber(c)) => action == Action::PrintNumber(c),
        StepModel::NeedsInput => action is ReadLine,
        StepModel::Halt => action is Halt,
        StepModel::Fail(msg) => action matches Action::Fail(e) && e@ == msg,
        StepModel::Stuck => false,
    }
}

/// The state after a step.
pub open spec fn state_after(m: Machine, model: StepModel) -> Machine {
    match model {
        StepModel::Next(m2, _) => m2,
        _ => m,
    }
}

fn write_error_message(ip: u32, a: Argument) -> (res: String)
    ensures
        res@ == error_text(
            ErrorKind::Syntax(SyntaxError::InvalidDestination),
            ip as nat,
            "Cannot write to argument of type: "@ + argument_display(a),
        ),
{
    let mut msg = String::new();
    msg.append("Cannot write to argument of type: ");
    let shown = a.display();
    msg.append(shown.as_str());
    format_error(ErrorKind::Syntax(SyntaxError::InvalidDestination), ip, msg.as_str())
}

impl Interpreter {
    /// An interpreter with zeroed registers, an empty stack, no loops and no
    /// labels, at the first statement.
    pub fn new() -> (res: Self)
        ensures
            res@ == (Machine {
                r0: 0,
                r1: 0,
                stack: Seq::empty(),
                instruction_pointer: 0,
                loops: Seq::empty(),
                labels: Seq::empty(),
                comparison: None,
            }),
    {
        Interpreter {
            r0: 0,
            r1: 0,
            stack: Vec::new(),
            instruction_pointer: 0,
            loops: Vec::new(),
            labels: Vec::new(),
            current_comparison: None,
        }
    }

    /// The value that `argument` reads, or the diagnostic that refuses it.
    fn get_argument_value(&self, argument: Argument) -> (res: Result<u8, String>)
        ensures
            match read_value(self@, argument) {
                Ok(v) => res == Ok::<u8, String>(v),
                Err(m) => res matches Err(e) && e@ == m,
            },
    {
        match argument {
            Argument::Literal(v) => Ok(v),
            Argument::R0 => Ok(self.r0),
            Argument::R1 => Ok(self.r1),
            Argument::Stack => {
                if self.stack.len() > 0 {
                    Ok(self.stack[self.stack.len() - 1])
                } else {
                    Err(
                        format_error(
                            ErrorKind::Runtime(RuntimeError::EmptyStackRead),
                            self.instruction_pointer,
                            "Tried to access stack, but stack is empty.",
                        ),
                    )
                }
            },
            _ => {
                let mut msg = String::new();
                msg.append("Cannot read from argument of type: ");
                let shown = argument.display();
                msg.append(shown.as_str());
                Err(
                    format_error(
                        ErrorKind::Syntax(SyntaxError::InvalidSource),
                        self.instruction_pointer,
                        msg.as_str(),
                    ),
                )
            },
        }
    }

    fn find_label_exec(&self, label_index: u8) -> (res: Option<u32>)
        ensures
            res == find_label(self@.labels, label_index),
    {
        let n = self.labels.len();
        for i in 0..n
            invariant
                n == self.labels.len(),
                find_label(self.labels@.take(i as int), label_index) is None,
        {
            assert(self.labels@.take(i + 1).drop_last() =~= self.labels@.take(i as int));
            if self.labels[i].index == label_index {
                proof {
                    lemma_find_label_extends(self.labels@, i as int + 1, label_index);
                }
                return Some(self.labels[i].instruction);
            }
        }
        assert(self.labels@.take(n as int) =~= self.labels@);
        None
    }
}

proof fn lemma_find_label_extends(labels: Seq<Label>, k: int, index: u8)
    requires
        0 <= k <= labels.len(),
        find_label(labels.take(k), index) is Some,
    ensures
        find_label(labels, index) == find_label(labels.take(k), index),
    decreases labels.len() - k,
{
    if k < labels.len() {
        assert(labels.take(k + 1).drop_last() =~= labels.take(k));
        lemma_find_label_extends(labels, k + 1, index);
    } else {
        assert(labels.take(k) =~= labels);
    }
}


/// The result of running one statement.
enum Stepped {
    Done(Action),
    Stuck,
}

/// `r` reports `model`, and `after` is the state that `model` leads to from `before`.
pub open spec fn stepped_as(r: Option<Action>, model: StepModel, before: Machine, after: Machine) -> bool {
    match model {
        StepModel::Stuck => r is None && after == before,
        _ => r matches Some(a) && reports_step(a, model) && after == state_after(before, model),
    }
}

impl Interpreter {
    fn label_missing_message(&self, label_index: u8) -> (res: String)
        ensures
            res@ == failure(
                self@,
                ErrorKind::Syntax(SyntaxError::InvalidArguments),
                "Label "@ + dots(label_index as nat) + " isn't defined."@,
            ),
    {
        let mut msg = String::new();
        msg.append("Label ");
        let mut k: u8 = 0;
        while k < label_index
            invariant
                k <= label_index,
                msg@ == "Label "@ + dots(k as nat),
            decreases label_index - k,
        {
            proof {
                reveal_strlit(".");
            }
            msg.append(".");
            k = k + 1;
            assert(msg@ =~= "Label "@ + dots(k as nat));
        }
        msg.append(" isn't defined.");
        format_error(
            ErrorKind::Syntax(SyntaxError::InvalidArguments),
            self.instruction_pointer,
            msg.as_str(),
        )
    }

    fn jump(&mut self, s: Statement, wanted: Compare) -> (r: Option<Action>)
        requires
            old(self)@.instruction_pointer < u32::MAX,
            targets_fit(old(self)@),
        ensures
            stepped_as(r, jump_step(old(self)@, s, wanted), old(self)@, final(self)@),
    {
        let label_index = match s.arg2 {
            None => {
                return None;
            },
            Some(Argument::Label { index }) => index,
            Some(a) => {
                let mut msg = String::new();
                msg.append("Cannot use argument ");
                a.push_debug(&mut msg);
                msg.append(" as label reference.");
                return Some(
                    Action::Fail(
                        format_error(
                            ErrorKind::Syntax(SyntaxError::InvalidArguments),
                            self.instruction_pointer,
                            msg.as_str(),
                        ),
                    ),
                );
            },
        };
        match self.find_label_exec(label_index) {
            None => Some(Action::Fail(self.label_missing_message(label_index))),
            Some(target) => {
                proof {
                    lemma_find_label_member(self@.labels, label_index);
                }
                if self.current_comparison == Some(wanted) {
                    self.instruction_pointer = target + 1;
                } else {
                    self.instruction_pointer = self.instruction_pointer + 1;
                }
                Some(Action::Continue)
            },
        }
    }

    fn copy(&mut self, s: Statement) -> (r: Option<Action>)
        requires
            old(self)@.instruction_pointer < u32::MAX,
        ensures
            stepped_as(r, copy_step(old(self)@, s), old(self)@, final(self)@),
    {
        let a = match s.arg1 {
            None => {
                return None;
            },
            Some(a) => a,
        };
        let value = match self.get_argument_value(a) {
            Ok(v) => v,
            Err(e) => {
                return Some(Action::Fail(e));
            },
        };
        let action = match s.arg2 {
            None => {
                return None;
            },
            Some(Argument::R0) => {
                self.r0 = value;
                Action::Continue
            },
            Some(Argument::R1) => {
                self.r1 = value;
                Action::Continue
            },
            Some(Argument::Stack) => {
                self.stack.push(value);
                Action::Continue
            },
            Some(Argument::StdOut { as_number }) => {
                if as_number {
                    Action::PrintNumber(value)
                } else {
                    Action::PrintChar(value)
                }
            },
            Some(_) => {
                return Some(Action::Fail(write_error_message(self.instruction_pointer, a)));
            },
        };
        self.instruction_pointer = self.instruction_pointer + 1;
        Some(action)
    }

    fn arithmetic(&mut self, s: Statement) -> (r: Option<Action>)
        requires
            old(self)@.instruction_pointer < u32::MAX,
            s.statement_type is Add || s.statement_type is Subtract || s.statement_type is Multiply
                || s.statement_type is Divide || s.statement_type is Remainder,
        ensures
            stepped_as(r, arithmetic_step(old(self)@, s), old(self)@, final(self)@),
    {
        let b = match s.arg2 {
            None => {
                return None;
            },
            Some(b) => b,
        };
        let v = match self.get_argument_value(b) {
            Ok(v) => v,
            Err(e) => {
                return Some(Action::Fail(e));
            },
        };
        let a = match s.arg1 {
            None => {
                return None;
            },
            Some(a) => a,
        };
        if !(a == Argument::R0 || a == Argument::R1) {
            return Some(Action::Fail(write_error_message(self.instruction_pointer, a)));
        }
        let current = if a == Argument::R0 {
            self.r0
        } else {
            self.r1
        };
        let result = match s.statement_type {
            StatementTypes::Add => current.wrapping_add(v),
            StatementTypes::Subtract => current.wrapping_sub(v),
            StatementTypes::Multiply => current.wrapping_mul(v),
            StatementTypes::Divide => {
                if v == 0 {
                    return None;
                }
                current / v
            },
            _ => {
                if v == 0 {
                    return None;
                }
                current % v
            },
        };
        if a == Argument::R0 {
            self.r0 = result;
        } else {
            self.r1 = result;
        }
        self.instruction_pointer = self.instruction_pointer + 1;
        Some(Action::Continue)
    }
}

proof fn lemma_find_label_member(labels: Seq<Label>, index: u8)
    requires
        find_label(labels, index) is Some,
    ensures
        exists|i: int|
            0 <= i < labels.len() && labels[i].instruction == find_label(labels, index)->0,
    decreases labels.len(),
{
    if find_label(labels.drop_last(), index) is Some {
        lemma_find_label_member(labels.drop_last(), index);
        let i = choose|i: int|
            0 <= i < labels.drop_last().len() && labels.drop_last()[i].instruction == find_label(
                labels.drop_last(),
                index,
            )->0;
        assert(labels[i].instruction == find_label(labels, index)->0);
    } else {
        assert(labels[labels.len() - 1].instruction == find_label(labels, index)->0);
    }
}


fn contains_u32(v: &Vec<u32>, x: u32) -> (res: bool)
    ensures
        res == v@.contains(x),
{
    for i in 0..v.len()
        invariant
            forall|j: int| 0 <= j < i ==> v@[j] != x,
    {
        if v[i] == x {
            return true;
        }
    }
    false
}

/// What the interpreter needs of a program and of its own state to run it:
/// the program's length fits the instruction pointer, and no jump target is
/// the largest instruction pointer.
pub open spec fn runnable(m: Machine, stmts: Seq<Statement>) -> bool {
    stmts.len() <= u32::MAX && targets_fit(m)
}

impl Interpreter {
    fn run_step(&mut self, statements: &Vec<Statement>) -> (r: Option<Action>)
        requires
            runnable(old(self)@, statements@),
        ensures
            stepped_as(r, step_model(old(self)@, statements@), old(self)@, final(self)@),
            runnable(final(self)@, statements@),
    {
        let ip = self.instruction_pointer as usize;
        if ip >= statements.len() {
            return Some(Action::Halt);
        }
        let statement = statements[ip];
        if statement.statement_type == StatementTypes::Greater
            || statement.statement_type == StatementTypes::Less
            || statement.statement_type == StatementTypes::Equal {
            if ip == 0 || statements[ip - 1].statement_type != StatementTypes::Compare {
                let mut msg = String::new();
                msg.append("Statement ");
                msg.append(statement.statement_type.name());
                msg.append(" has to be preceded by a ");
                msg.append(StatementTypes::Compare.name());
                msg.append(" statement.");
                return Some(
                    Action::Fail(
                        format_error(
                            ErrorKind::Syntax(SyntaxError::InvalidStatement),
                            self.instruction_pointer,
                            msg.as_str(),
                        ),
                    ),
                );
            }
        }
        match statement.statement_type {
            StatementTypes::LoopStart => {
                let found = contains_u32(&self.loops, self.instruction_pointer);
                if !found {
                    self.loops.push(self.instruction_pointer);
                }
                self.instruction_pointer = self.instruction_pointer + 1;
                Some(Action::Continue)
            },
            StatementTypes::LoopEnd => {
                if self.stack.len() == 0 || self.stack[self.stack.len() - 1] != 0 {
                    if self.loops.len() == 0 {
                        return None;
                    }
                    let target = self.loops[self.loops.len() - 1];
                    self.instruction_pointer = target + 1;
                    } else {
                    self.loops.pop();
                    self.instruction_pointer = self.instruction_pointer + 1;
                    }
                Some(Action::Continue)
            },
            StatementTypes::Compare => {
                let a = match statement.arg1 {
                    None => {
                        return None;
                    },
                    Some(a) => a,
                };
                let first_value = match self.get_argument_value(a) {
                    Ok(v) => v,
                    Err(e) => {
                        return Some(Action::Fail(e));
                    },
                };
                let b = match statement.arg2 {
                    None => {
                        return None;
                    },
                    Some(b) => b,
                };
                let second_value = match self.get_argument_value(b) {
                    Ok(v) => v,
                    Err(e) => {
                        return Some(Action::Fail(e));
                    },
                };
                if first_value == second_value {
                    self.current_comparison = Some(Compare::Equal);
                } else if first_value > second_value {
                    self.current_comparison = Some(Compare::Greater);
                } else {
                    self.current_comparison = Some(Compare::Less);
                }
                self.instruction_pointer = self.instruction_pointer + 1;
                Some(Action::Continue)
            },
            StatementTypes::Greater => self.jump(statement, Compare::Greater),
            StatementTypes::Less => self.jump(statement, Compare::Less),
            StatementTypes::Equal => self.jump(statement, Compare::Equal),
            StatementTypes::Copy => self.copy(statement),
            StatementTypes::Input => Some(Action::ReadLine),
            StatementTypes::Remove => {
                match statement.arg1 {
                    None => {
                        return None;
                    },
                    Some(Argument::R0) => {
                        self.r0 = 0;
                    },
                    Some(Argument::R1) => {
                        self.r1 = 0;
                    },
                    Some(Argument::Stack) => {
                        self.stack.pop();
                    },
                    Some(a) => {
                        return Some(
                            Action::Fail(write_error_message(self.instruction_pointer, a)),
                        );
                    },
                }
                self.instruction_pointer = self.instruction_pointer + 1;
                Some(Action::Continue)
            },
            StatementTypes::Add | StatementTypes::Subtract | StatementTypes::Multiply
            | StatementTypes::Divide | StatementTypes::Remainder => self.arithmetic(statement),
            StatementTypes::Label => {
                self.instruction_pointer = self.instruction_pointer + 1;
                Some(Action::Continue)
            },
            _ => Some(
                Action::Fail(
                    format_error(
                        ErrorKind::Syntax(SyntaxError::InvalidStatement),
                        self.instruction_pointer,
                        "Invalid statement provided.",
                    ),
                ),
            ),
        }
    }

    /// Runs the statement at the instruction pointer and says what the
    /// surroundings have to do next. A statement that reads input changes
    /// nothing; the line read is handed to `complete_input`.
    pub fn step(&mut self, statements: &Vec<Statement>) -> (res: Action)
        requires
            runnable(old(self)@, statements@),
            !(step_model(old(self)@, statements@) is Stuck),
        ensures
            reports_step(res, step_model(old(self)@, statements@)),
            final(self)@ == state_after(old(self)@, step_model(old(self)@, statements@)),
            runnable(final(self)@, statements@),
    {
        match self.run_step(statements) {
            Some(a) => a,
            None => vstd::pervasive::unreached(),
        }
    }

    /// As `step`, but answers `None`, and changes nothing, where the
    /// statement cannot be run: an operand it reads is missing, a loop end
    /// has no loop to return to, or a division is by zero.
    pub fn try_step(&mut self, statements: &Vec<Statement>) -> (res: Option<Action>)
        requires
            runnable(old(self)@, statements@),
        ensures
            stepped_as(res, step_model(old(self)@, statements@), old(self)@, final(self)@),
            runnable(final(self)@, statements@),
    {
        self.run_step(statements)
    }

    /// Finishes a statement that reads input: pushes a 0 and then the bytes
    /// of `line` from last to first, so that the first byte is on top, and
    /// moves to the next statement.
    pub fn complete_input(&mut self, line: Vec<u8>)
        requires
            old(self)@.instruction_pointer < u32::MAX,
        ensures
            final(self)@ == input_state(old(self)@, line@),
    {
        let ghost start = self.stack@.push(0);
        self.stack.push(0);
        let n = line.len();
        let mut i = n;
        while i > 0
            invariant
                self@ == (Machine { stack: self.stack@, ..old(self)@ }),
                old(self)@.instruction_pointer < u32::MAX,
                i <= n,
                n == line.len(),
                self.stack@ == start + line@.reverse().take(n - i),
            decreases i,
        {
            i = i - 1;
            self.stack.push(line[i]);
            assert(line@.reverse().take(n - i) =~= line@.reverse().take(n - i - 1).push(line@[i as int]));
            assert(self.stack@ =~= start + line@.reverse().take(n - i));
        }
        assert(line@.reverse().take(n as int) =~= line@.reverse());
        self.instruction_pointer = self.instruction_pointer + 1;
    }
}


proof fn lemma_collect_stops(m: Machine, stmts: Seq<Statement>, k: nat, n: nat)
    requires
        k <= n,
        !(collect_labels(m, stmts, k) is Labels),
    ensures
        collect_labels(m, stmts, n) == collect_labels(m, stmts, k),
    decreases n - k,
{
    if n > k {
        lemma_collect_stops(m, stmts, k, (n - 1) as nat);
    }
}

proof fn lemma_collected_fit(m: Machine, stmts: Seq<Statement>, n: nat)
    requires
        n <= stmts.len() <= u32::MAX,
    ensures
        collect_labels(m, stmts, n) matches Preprocessed::Labels(ls) ==> forall|i: int|
            0 <= i < ls.len() ==> ls[i].instruction < n,
        collect_labels(m, stmts, n) matches Preprocessed::Fail(_, ls) ==> forall|i: int|
            0 <= i < ls.len() ==> ls[i].instruction < n,
    decreases n,
{
    if n > 0 {
        lemma_collected_fit(m, stmts, (n - 1) as nat);
    }
}

/// The labels that preprocessing adds, in order (where it does not get stuck).
pub open spec fn collected(m: Machine, stmts: Seq<Statement>) -> Seq<Label> {
    match collect_labels(m, stmts, stmts.len()) {
        Preprocessed::Labels(ls) => ls,
        Preprocessed::Fail(_, ls) => ls,
        Preprocessed::Stuck => Seq::empty(),
    }
}

/// The result of preprocessing: success, the diagnostic of the first label
/// definition refused, or nothing where a label definition has no operand.
pub open spec fn preprocess_result(m: Machine, stmts: Seq<Statement>) -> Option<Result<(), Seq<char>>> {
    match collect_labels(m, stmts, stmts.len()) {
        Preprocessed::Labels(_) => Some(Ok(())),
        Preprocessed::Fail(msg, _) => Some(Err(msg)),
        Preprocessed::Stuck => None,
    }
}

/// A result and its model agree.
pub open spec fn same_outcome(r: Result<(), String>, model: Result<(), Seq<char>>) -> bool {
    match (r, model) {
        (Ok(()), Ok(())) => true,
        (Err(e), Err(m)) => e@ == m,
        _ => false,
    }
}

impl Interpreter {
    fn collect(&mut self, statements: &Vec<Statement>) -> (r: Option<Result<(), String>>)
        requires
            runnable(old(self)@, statements@),
        ensures
            r is None <==> preprocess_result(old(self)@, statements@) is None,
            r matches Some(x) ==> same_outcome(x, preprocess_result(old(self)@, statements@)->0),
            r is None ==> final(self)@ == old(self)@,
            r is Some ==> final(self)@ == (Machine {
                labels: old(self)@.labels + collected(old(self)@, statements@),
                ..old(self)@
            }),
            runnable(final(self)@, statements@),
    {
        let ghost m = self@;
        let mut found: Vec<Label> = Vec::new();
        let n = statements.len();
        let mut failure: Option<String> = None;
        let mut i: usize = 0;
        while i < n
            invariant_except_break
                failure is None,
                collect_labels(m, statements@, i as nat) == Preprocessed::Labels(found@),
            invariant
                n == statements.len(),
                n <= u32::MAX,
                i <= n,
                m == self@,
                runnable(m, statements@),
            ensures
                failure is None ==> collect_labels(m, statements@, n as nat)
                    == Preprocessed::Labels(found@),
                failure matches Some(e) ==> collect_labels(m, statements@, n as nat)
                    == Preprocessed::Fail(e@, found@),
            decreases n - i,
        {
            let statement = statements[i];
            if statement.statement_type == StatementTypes::Label {
                match statement.arg2 {
                    None => {
                        proof {
                            lemma_collect_stops(m, statements@, (i + 1) as nat, n as nat);
                        }
                        return None;
                    },
                    Some(Argument::Label { index }) => {
                        found.push(Label { index, instruction: i as u32 });
                    },
                    Some(a) => {
                        let mut msg = String::new();
                        msg.append("Cannot use argument of type ");
                        let shown = a.display();
                        msg.append(shown.as_str());
                        msg.append(" as label definition.");
                        proof {
                            lemma_collect_stops(m, statements@, (i + 1) as nat, n as nat);
                        }
                        failure = Some(
                            format_error(
                                ErrorKind::Syntax(SyntaxError::InvalidArguments),
                                self.instruction_pointer,
                                msg.as_str(),
                            ),
                        );
                        break;
                    },
                }
            }
            i = i + 1;
        }
        proof {
            lemma_collected_fit(m, statements@, n as nat);
        }
        let mut found = found;
        self.labels.append(&mut found);
        match failure {
            None => Some(Ok(())),
            Some(e) => Some(Err(e)),
        }
    }
}


impl Interpreter {
    /// Records the labels that `statements` define, in order; refuses the
    /// first label definition whose operand is not a label.
    pub fn preprocess(&mut self, statements: &Vec<Statement>) -> (res: Result<(), String>)
        requires
            runnable(old(self)@, statements@),
            preprocess_result(old(self)@, statements@) is Some,
        ensures
            same_outcome(res, preprocess_result(old(self)@, statements@)->0),
            final(self)@ == (Machine {
                labels: old(self)@.labels + collected(old(self)@, statements@),
                ..old(self)@
            }),
            runnable(final(self)@, statements@),
    {
        match self.collect(statements) {
            Some(r) => r,
            None => vstd::pervasive::unreached(),
        }
    }

    /// As `preprocess`, but answers `None`, and changes nothing, where a label
    /// definition has no operand.
    pub fn try_preprocess(&mut self, statements: &Vec<Statement>) -> (res: Option<Result<(), String>>)
        requires
            runnable(old(self)@, statements@),
        ensures
            res is None <==> preprocess_result(old(self)@, statements@) is None,
            res matches Some(x) ==> same_outcome(x, preprocess_result(old(self)@, statements@)->0),
            res is None ==> final(self)@ == old(self)@,
            res is Some ==> final(self)@ == (Machine {
                labels: old(self)@.labels + collected(old(self)@, statements@),
                ..old(self)@
            }),
            runnable(final(self)@, statements@),
    {
        self.collect(statements)
    }
}


/// Adding a literal to a register and then subtracting the same literal
/// from it leaves the register as it was: the two steps only move on by two
/// statements.
pub proof fn lemma_add_then_subtract_restores(m: Machine, stmts: Seq<Statement>, r: Argument, v: u8)
    requires
        r == Argument::R0 || r == Argument::R1,
        m.instruction_pointer + 2 <= stmts.len() <= u32::MAX,
        stmts[m.instruction_pointer as int].statement_type == StatementTypes::Add,
        stmts[m.instruction_pointer as int].arg1 == Some(r),
        stmts[m.instruction_pointer as int].arg2 == Some(Argument::Literal(v)),
        stmts[m.instruction_pointer + 1].statement_type == StatementTypes::Subtract,
        stmts[m.instruction_pointer + 1].arg1 == Some(r),
        stmts[m.instruction_pointer + 1].arg2 == Some(Argument::Literal(v)),
    ensures
        step_model(m, stmts) matches StepModel::Next(m1, Effect::Nothing) && step_model(m1, stmts)
            matches StepModel::Next(m2, Effect::Nothing) && m2 == (Machine {
            instruction_pointer: (m.instruction_pointer + 2) as u32,
            ..m
        }),
{
    let ip = m.instruction_pointer as int;
    let x = if r == Argument::R0 {
        m.r0
    } else {
        m.r1
    };
    lemma_wrap_inverse(x, v);
    let y = wrap(x + v);
    let m1 = if r == Argument::R0 {
        Machine { r0: y, instruction_pointer: (ip + 1) as u32, ..m }
    } else {
        Machine { r1: y, instruction_pointer: (ip + 1) as u32, ..m }
    };
    assert(arithmetic_step(m, stmts[ip]) == StepModel::Next(m1, Effect::Nothing));
    assert(step_model(m, stmts) == StepModel::Next(m1, Effect::Nothing));
    let m2 = Machine { instruction_pointer: (ip + 2) as u32, ..m };
    assert(arithmetic_step(m1, stmts[ip + 1]) == StepModel::Next(m2, Effect::Nothing));
    assert(stmts[m1.instruction_pointer as int] == stmts[ip + 1]);
    assert(stmts[m1.instruction_pointer - 1].statement_type == StatementTypes::Add);
}

proof fn lemma_wrap_inverse(x: u8, v: u8)
    ensures
        wrap(wrap(x + v) - v) == x,
{
    if x + v >= 256 {
        assert((x + v) % 256 == x + v - 256);
    } else {
        assert((x + v) % 256 == x + v);
    }
    let y = wrap(x + v);
    if y >= v {
        assert((y - v) % 256 == y - v);
    } else {
        assert((y - v) % 256 == y - v + 256);
    }
}

/// Copying a value onto the stack and then removing the top of the stack
/// leaves the stack as it was.
pub proof fn lemma_push_then_remove_restores(m: Machine, stmts: Seq<Statement>, a: Argument)
    requires
        a is Literal || a is R0 || a is R1,
        m.instruction_pointer + 2 <= stmts.len() <= u32::MAX,
        stmts[m.instruction_pointer as int].statement_type == StatementTypes::Copy,
        stmts[m.instruction_pointer as int].arg1 == Some(a),
        stmts[m.instruction_pointer as int].arg2 == Some(Argument::Stack),
        stmts[m.instruction_pointer + 1].statement_type == StatementTypes::Remove,
        stmts[m.instruction_pointer + 1].arg1 == Some(Argument::Stack),
    ensures
        step_model(m, stmts) matches StepModel::Next(m1, Effect::Nothing) && step_model(m1, stmts)
            matches StepModel::Next(m2, Effect::Nothing) && m2 == (Machine {
            instruction_pointer: (m.instruction_pointer + 2) as u32,
            ..m
        }),
{
    let m1 = state_after(m, step_model(m, stmts));
    assert(m1.stack.drop_last() =~= m.stack);
}

/// A conditional jump right after a comparison is taken exactly when the
/// comparison found the relation that the jump tests: it then continues
/// after the label's definition, and otherwise with the next statement.
pub proof fn lemma_compare_then_jump(m: Machine, stmts: Seq<Statement>, index: u8)
    requires
        m.instruction_pointer + 2 <= stmts.len() <= u32::MAX,
        targets_fit(m),
        stmts[m.instruction_pointer as int].statement_type == StatementTypes::Compare,
        stmts[m.instruction_pointer as int].arg1 matches Some(a) && read_value(m, a) is Ok,
        stmts[m.instruction_pointer as int].arg2 matches Some(b) && read_value(m, b) is Ok,
        stmts[m.instruction_pointer + 1].statement_type is Greater || stmts[m.instruction_pointer
            + 1].statement_type is Less || stmts[m.instruction_pointer + 1].statement_type is Equal,
        stmts[m.instruction_pointer + 1].arg2 == Some(Argument::Label { index }),
        find_label(m.labels, index) is Some,
    ensures
        ({
            let x = read_value(m, stmts[m.instruction_pointer as int].arg1->0)->Ok_0;
            let y = read_value(m, stmts[m.instruction_pointer as int].arg2->0)->Ok_0;
            let t = stmts[m.instruction_pointer + 1].statement_type;
            let taken = if t is Greater {
                x > y
            } else if t is Less {
                x < y
            } else {
                x == y
            };
            step_model(m, stmts) matches StepModel::Next(m1, Effect::Nothing) && step_model(
                m1,
                stmts,
            ) matches StepModel::Next(m2, Effect::Nothing) && m2.instruction_pointer == (if taken {
                find_label(m.labels, index)->0 + 1
            } else {
                m.instruction_pointer + 2
            })
        }),
{
    lemma_find_label_member(m.labels, index);
    let m1 = state_after(m, step_model(m, stmts));
    assert(m1.labels == m.labels);
    assert(m1.instruction_pointer == m.instruction_pointer + 1);
}

/// After a line of input is handed over, reading the stack gives the line's
/// first byte, or the 0 pushed before it when the line is empty.
pub proof fn lemma_input_reads_first_byte_first(m: Machine, line: Seq<u8>)
    ensures
        read_value((Machine { stack: m.stack.push(0) + line.reverse(), ..m }), Argument::Stack) == Ok::<
            u8,
            Seq<char>,
        >(if line.len() > 0 {
            line[0]
        } else {
            0
        }),
{
    let st = m.stack.push(0) + line.reverse();
    if line.len() > 0 {
        assert(st.last() == line.reverse()[line.len() - 1]);
    } else {
        assert(line.reverse() =~= Seq::<u8>::empty());
        assert(st =~= m.stack.push(0));
    }
}


/// The statement at the instruction pointer of `m` has type `t`, and the
/// program is short enough for the instruction pointer to move on.
pub open spec fn runs_statement(m: Machine, stmts: Seq<Statement>, t: StatementTypes) -> bool {
    &&& m.instruction_pointer < stmts.len() <= u32::MAX
    &&& stmts[m.instruction_pointer as int].statement_type == t
}

/// Removing a register sets that register to zero and changes nothing else:
/// the other register, the stack, the open loops, the labels and the last
/// comparison stay as they were, nothing is printed, and the next statement
/// follows.
pub proof fn lemma_remove_register_clears_it(m: Machine, stmts: Seq<Statement>)
    requires
        runs_statement(m, stmts, StatementTypes::Remove),
        stmts[m.instruction_pointer as int].arg1 == Some(Argument::R0)
            || stmts[m.instruction_pointer as int].arg1 == Some(Argument::R1),
    ensures
        step_model(m, stmts) matches StepModel::Next(m2, e) && e is Nothing && m2.instruction_pointer
            == m.instruction_pointer + 1 && m2.stack == m.stack && m2.loops == m.loops && m2.labels
            == m.labels && m2.comparison == m.comparison && (if stmts[m.instruction_pointer as int].arg1
            == Some(Argument::R0) {
            m2.r0 == 0 && m2.r1 == m.r1
        } else {
            m2.r1 == 0 && m2.r0 == m.r0
        }),
{
}

/// Removing the stack's top drops its last value (an empty stack stays
/// empty) and changes nothing else.
pub proof fn lemma_remove_stack_pops_it(m: Machine, stmts: Seq<Statement>)
    requires
        runs_statement(m, stmts, StatementTypes::Remove),
        stmts[m.instruction_pointer as int].arg1 == Some(Argument::Stack),
    ensures
        step_model(m, stmts) matches StepModel::Next(m2, e) && e is Nothing && m2.instruction_pointer
            == m.instruction_pointer + 1 && m2.r0 == m.r0 && m2.r1 == m.r1 && m2.loops == m.loops
            && m2.labels == m.labels && m2.comparison == m.comparison && (if m.stack.len() > 0 {
            m2.stack + seq![m.stack.last()] == m.stack
        } else {
            m2.stack.len() == 0
        }),
{
    if m.stack.len() > 0 {
        assert(m.stack.drop_last() + seq![m.stack.last()] =~= m.stack);
    }
}

/// Entering a loop start records its own position as the innermost open
/// loop, unless that loop is open already, and moves on.
pub proof fn lemma_loop_start_opens_innermost_loop(m: Machine, stmts: Seq<Statement>)
    requires
        runs_statement(m, stmts, StatementTypes::LoopStart),
    ensures
        step_model(m, stmts) matches StepModel::Next(m2, e) && e is Nothing && m2.instruction_pointer
            == m.instruction_pointer + 1 && m2.r0 == m.r0 && m2.r1 == m.r1 && m2.stack == m.stack
            && m2.labels == m.labels && m2.comparison == m.comparison && (if m.loops.contains(
            m.instruction_pointer,
        ) {
            m2.loops == m.loops
        } else {
            m2.loops.len() == m.loops.len() + 1 && m2.loops.last() == m.instruction_pointer
                && forall|i: int| 0 <= i < m.loops.len() ==> m2.loops[i] == m.loops[i]
        }),
{
}

/// A loop end whose stack top is not zero (or whose stack is empty) goes
/// back to the statement right after the innermost open loop start, and
/// changes nothing else; with no loop open it cannot run.
pub proof fn lemma_loop_end_repeats_innermost_loop(m: Machine, stmts: Seq<Statement>)
    requires
        runs_statement(m, stmts, StatementTypes::LoopEnd),
        m.stack.len() == 0 || m.stack[m.stack.len() - 1] != 0,
        targets_fit(m),
    ensures
        m.loops.len() == 0 ==> step_model(m, stmts) is Stuck,
        m.loops.len() > 0 ==> (step_model(m, stmts) matches StepModel::Next(m2, e) && e is Nothing
            && m2.instruction_pointer == m.loops[m.loops.len() - 1] + 1 && m2.r0 == m.r0 && m2.r1
            == m.r1 && m2.stack == m.stack && m2.loops == m.loops && m2.labels == m.labels
            && m2.comparison == m.comparison),
{
    if m.loops.len() > 0 {
        assert(m.loops[m.loops.len() - 1] < u32::MAX);
    }
}

/// A loop end whose stack top is zero leaves the innermost open loop and
/// moves on to the next statement.
pub proof fn lemma_loop_end_leaves_innermost_loop(m: Machine, stmts: Seq<Statement>)
    requires
        runs_statement(m, stmts, StatementTypes::LoopEnd),
        m.stack.len() > 0 && m.stack[m.stack.len() - 1] == 0,
    ensures
        step_model(m, stmts) matches StepModel::Next(m2, e) && e is Nothing && m2.instruction_pointer
            == m.instruction_pointer + 1 && m2.r0 == m.r0 && m2.r1 == m.r1 && m2.stack == m.stack
            && m2.labels == m.labels && m2.comparison == m.comparison && (if m.loops.len() > 0 {
            m2.loops + seq![m.loops[m.loops.len() - 1]] == m.loops
        } else {
            m2.loops.len() == 0
        }),
{
    if m.loops.len() > 0 {
        assert(m.loops.drop_last() + seq![m.loops.last()] =~= m.loops);
    }
}

/// A loop that has just been entered is the one its loop end returns to:
/// after a loop start at position `p` that was not open, a loop end reached
/// with the open loops unchanged and a non-zero top continues at `p + 1`.
pub proof fn lemma_loop_end_returns_to_its_start(m: Machine, stmts: Seq<Statement>, m3: Machine)
    requires
        runs_statement(m, stmts, StatementTypes::LoopStart),
        !m.loops.contains(m.instruction_pointer),
        m.instruction_pointer < u32::MAX,
        m3.loops == state_after(m, step_model(m, stmts)).loops,
        runs_statement(m3, stmts, StatementTypes::LoopEnd),
        m3.stack.len() == 0 || m3.stack[m3.stack.len() - 1] != 0,
    ensures
        step_model(m3, stmts) matches StepModel::Next(m4, _) && m4.instruction_pointer
            == m.instruction_pointer + 1,
{
}

/// A copy reads its first operand and hands the value to its second: a
/// register receives it, the stack gets it on top, or it is printed, as a
/// character or as a number. Nothing else changes.
pub proof fn lemma_copy_moves_the_value(m: Machine, stmts: Seq<Statement>, a: Argument, b: Argument, v: u8)
    requires
        runs_statement(m, stmts, StatementTypes::Copy),
        stmts[m.instruction_pointer as int].arg1 == Some(a),
        stmts[m.instruction_pointer as int].arg2 == Some(b),
        read_value(m, a) == Ok::<u8, Seq<char>>(v),
        b is R0 || b is R1 || b is Stack || b is StdOut,
    ensures
        step_model(m, stmts) matches StepModel::Next(m2, e) && m2.instruction_pointer
            == m.instruction_pointer + 1 && m2.loops == m.loops && m2.labels == m.labels
            && m2.comparison == m.comparison && match b {
            Argument::R0 => m2.r0 == v && m2.r1 == m.r1 && m2.stack == m.stack && e is Nothing,
            Argument::R1 => m2.r1 == v && m2.r0 == m.r0 && m2.stack == m.stack && e is Nothing,
            Argument::Stack => m2.r0 == m.r0 && m2.r1 == m.r1 && m2.stack.len() == m.stack.len()
                + 1 && m2.stack[m.stack.len() as int] == v && m2.stack.take(m.stack.len() as int)
                == m.stack && e is Nothing,
            Argument::StdOut { as_number } => m2.r0 == m.r0 && m2.r1 == m.r1 && m2.stack == m.stack
                && (if as_number {
                e == Effect::PrintNumber(v)
            } else {
                e == Effect::PrintChar(v)
            }),
            _ => false,
        },
{
    if b is Stack {
        assert(m.stack.push(v).take(m.stack.len() as int) =~= m.stack);
    }
}

/// An arithmetic statement on a register replaces it with the result of
/// the operation on its value and the second operand's value `v`: sum,
/// difference and product modulo 256, quotient and remainder rounded down.
/// Nothing else changes.
pub proof fn lemma_arithmetic_updates_register(m: Machine, stmts: Seq<Statement>, a: Argument, v: u8)
    requires
        m.instruction_pointer < stmts.len() <= u32::MAX,
        ({
            let t = stmts[m.instruction_pointer as int].statement_type;
            t is Add || t is Subtract || t is Multiply || t is Divide || t is Remainder
        }),
        stmts[m.instruction_pointer as int].arg1 == Some(a),
        a is R0 || a is R1,
        stmts[m.instruction_pointer as int].arg2 matches Some(b) && read_value(m, b) == Ok::<
            u8,
            Seq<char>,
        >(v),
        (stmts[m.instruction_pointer as int].statement_type is Divide
            || stmts[m.instruction_pointer as int].statement_type is Remainder) ==> v != 0,
    ensures
        step_model(m, stmts) matches StepModel::Next(m2, e) && e is Nothing && m2.instruction_pointer
            == m.instruction_pointer + 1 && m2.stack == m.stack && m2.loops == m.loops && m2.labels
            == m.labels && m2.comparison == m.comparison && ({
            let x: int = if a is R0 {
                m.r0 as int
            } else {
                m.r1 as int
            };
            let y: int = if a is R0 {
                m2.r0 as int
            } else {
                m2.r1 as int
            };
            let other_kept = if a is R0 {
                m2.r1 == m.r1
            } else {
                m2.r0 == m.r0
            };
            other_kept && match stmts[m.instruction_pointer as int].statement_type {
                StatementTypes::Add => y == (x + v) % 256,
                StatementTypes::Subtract => y == (x - v + 256) % 256,
                StatementTypes::Multiply => y == (x * v) % 256,
                StatementTypes::Divide => y == x / (v as int),
                _ => y == x % (v as int),
            }
        }),
{
    let x: int = if a is R0 {
        m.r0 as int
    } else {
        m.r1 as int
    };
    assert((x - v + 256) % 256 == (x - v) % 256) by (nonlinear_arith);
    assert(0 <= (x * v) % 256 < 256) by (nonlinear_arith);
    assert(v != 0 ==> 0 <= x / (v as int) <= x) by (nonlinear_arith)
        requires
            0 <= x,
            0 <= v,
    ;
    assert(v != 0 ==> 0 <= x % (v as int) < v) by (nonlinear_arith);
}

/// A comparison reads both operands and records how the first relates to
/// the second: equal, greater or less. Nothing else changes.
pub proof fn lemma_compare_records_relation(m: Machine, stmts: Seq<Statement>, x: u8, y: u8)
    requires
        runs_statement(m, stmts, StatementTypes::Compare),
        stmts[m.instruction_pointer as int].arg1 matches Some(a) && read_value(m, a) == Ok::<
            u8,
            Seq<char>,
        >(x),
        stmts[m.instruction_pointer as int].arg2 matches Some(b) && read_value(m, b) == Ok::<
            u8,
            Seq<char>,
        >(y),
    ensures
        step_model(m, stmts) matches StepModel::Next(m2, e) && e is Nothing && m2.instruction_pointer
            == m.instruction_pointer + 1 && m2.r0 == m.r0 && m2.r1 == m.r1 && m2.stack == m.stack
            && m2.loops == m.loops && m2.labels == m.labels && (m2.comparison == Some(Compare::Equal)
            <==> x == y) && (m2.comparison == Some(Compare::Greater) <==> x > y) && (m2.comparison
            == Some(Compare::Less) <==> x < y),
{
}


/// After a line of input, the stack holds what it held, then a 0, then the
/// line's bytes so that the first byte is on top and each next byte lies
/// one deeper; nothing else but the instruction pointer changes.
pub proof fn lemma_input_puts_the_line_on_the_stack(m: Machine, line: Seq<u8>)
    ensures
        ({
            let m2 = input_state(m, line);
            let n = m.stack.len();
            &&& m2.stack.len() == n + 1 + line.len()
            &&& forall|i: int| 0 <= i < n ==> m2.stack[i] == m.stack[i]
            &&& m2.stack[n as int] == 0
            &&& forall|k: int| 0 <= k < line.len() ==> #[trigger] m2.stack[m2.stack.len() - 1 - k] == line[k]
            &&& m2.r0 == m.r0 && m2.r1 == m.r1 && m2.loops == m.loops && m2.labels == m.labels
            &&& m2.comparison == m.comparison
        }),
{
    let m2 = input_state(m, line);
    let n = m.stack.len();
    assert forall|k: int| 0 <= k < line.len() implies #[trigger] m2.stack[m2.stack.len() - 1 - k]
        == line[k] by {
        assert(m2.stack[m2.stack.len() - 1 - k] == line.reverse()[line.len() - 1 - k]);
    }
    assert forall|i: int| 0 <= i < n implies m2.stack[i] == m.stack[i] by {
        assert(m2.stack[i] == m.stack.push(0)[i]);
    }
    assert(m2.stack[n as int] == m.stack.push(0)[n as int]);
}

/// Reading an operand gives the value it names: a literal itself, the
/// first or second register, or the top of the stack; reading an empty
/// stack is refused as an empty-stack read.
pub proof fn lemma_operands_read_their_values(m: Machine, a: Argument)
    requires
        a is Literal || a is R0 || a is R1 || a is Stack,
    ensures
        match a {
            Argument::Literal(v) => read_value(m, a) == Ok::<u8, Seq<char>>(v),
            Argument::R0 => read_value(m, a) == Ok::<u8, Seq<char>>(m.r0),
            Argument::R1 => read_value(m, a) == Ok::<u8, Seq<char>>(m.r1),
            _ => if m.stack.len() > 0 {
                read_value(m, a) == Ok::<u8, Seq<char>>(m.stack[m.stack.len() - 1])
            } else {
                read_value(m, a) == Err::<u8, Seq<char>>(
                    error_text(
                        ErrorKind::Runtime(RuntimeError::EmptyStackRead),
                        m.instruction_pointer as nat,
                        "Tried to access stack, but stack is empty."@,
                    ),
                )
            },
        },
{
}

/// Each label that preprocessing collects from the first `n` statements
/// names a statement that defines it: the statement at its position is a
/// label definition with that index. The labels come in the order of their
/// positions, and every label definition among those statements is there.
pub proof fn lemma_collected_labels_are_definitions(m: Machine, stmts: Seq<Statement>, n: nat)
    requires
        n <= stmts.len() <= u32::MAX,
    ensures
        collect_labels(m, stmts, n) matches Preprocessed::Labels(ls) ==> {
            &&& forall|k: int|
                0 <= k < ls.len() ==> #[trigger] ls[k].instruction < n && stmts[ls[k].instruction as int].statement_type
                    == StatementTypes::Label && stmts[ls[k].instruction as int].arg2 == Some(
                    Argument::Label { index: ls[k].index },
                )
            &&& forall|k: int, j: int| 0 <= k < j < ls.len() ==> #[trigger] ls[k].instruction < #[trigger] ls[j].instruction
            &&& forall|p: int|
                0 <= p < n && #[trigger] stmts[p].statement_type == StatementTypes::Label ==> exists|
                    k: int,
                | 0 <= k < ls.len() && #[trigger] ls[k].instruction == p
        },
    decreases n,
{
    if n > 0 {
        lemma_collected_labels_are_definitions(m, stmts, (n - 1) as nat);
        if collect_labels(m, stmts, n) is Labels {
            let ls = collect_labels(m, stmts, n)->Labels_0;
            let prev = collect_labels(m, stmts, (n - 1) as nat)->Labels_0;
            let s = stmts[n - 1];
            if s.statement_type == StatementTypes::Label {
                let index = s.arg2->0->Label_index;
                assert(ls == prev.push(Label { index, instruction: (n - 1) as u32 }));
                assert forall|p: int|
                    0 <= p < n && #[trigger] stmts[p].statement_type == StatementTypes::Label implies exists|
                        k: int,
                    | 0 <= k < ls.len() && #[trigger] ls[k].instruction == p by {
                    if p == n - 1 {
                        assert(ls[ls.len() - 1].instruction == p);
                    } else {
                        let k = choose|k: int| 0 <= k < prev.len() && #[trigger] prev[k].instruction == p;
                        assert(ls[k] == prev[k]);
                    }
                }
                assert forall|k: int, j: int| 0 <= k < j < ls.len() implies #[trigger] ls[k].instruction
                    < #[trigger] ls[j].instruction by {
                    if j < prev.len() {
                        assert(ls[k] == prev[k] && ls[j] == prev[j]);
                    } else {
                        assert(ls[k] == prev[k]);
                    }
                }
                assert forall|k: int| 0 <= k < ls.len() implies #[trigger] ls[k].instruction < n
                    && stmts[ls[k].instruction as int].statement_type == StatementTypes::Label
                    && stmts[ls[k].instruction as int].arg2 == Some(
                    Argument::Label { index: ls[k].index },
                ) by {
                    if k < prev.len() {
                        assert(ls[k] == prev[k]);
                    }
                }
            } else {
                assert(ls == prev);
            }
        }
    }
}

} // verus!
