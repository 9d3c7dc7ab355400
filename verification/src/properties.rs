use vstd::prelude::*;
use crate::compiler::{CompilerState, Target, asm_run, compile_result};
use crate::interpreter::{
    Machine,
    Preprocessed,
    collect_labels,
    preprocess_result,
    read_value,
    step_model,
};
use crate::parser::{
    Argument,
    ParseOutcome,
    Statement,
    StatementTypes,
    argument_outcome,
    binary_digits,
    binary_value,
    is_binary,
    lemma_binary_digits_value,
    lemma_parsed_statements_have_their_operands,
    parsed_shape,
    source_outcome,
};
use crate::transpiler::{
    CRun,
    CStep,
    c_footer,
    c_header,
    c_run,
    c_statement,
    lemma_c_run_stops,
    transpile_result,
};
use crate::compiler::reads_input;

verus! {

/// All statements of `stmts` have the shape of parsed statements.
pub open spec fn all_parsed(stmts: Seq<Statement>) -> bool {
    forall|i: int| 0 <= i < stmts.len() ==> parsed_shape(#[trigger] stmts[i])
}

proof fn lemma_asm_run_goes_on(st: CompilerState, stmts: Seq<Statement>, target: Target)
    requires
        all_parsed(stmts),
    ensures
        !(asm_run(st, stmts, target) is Stuck),
    decreases stmts.len(),
{
    if stmts.len() > 0 {
        assert(all_parsed(stmts.drop_last())) by {
            assert forall|i: int| 0 <= i < stmts.drop_last().len() implies parsed_shape(
                #[trigger] stmts.drop_last()[i],
            ) by {
                assert(stmts.drop_last()[i] == stmts[i]);
            }
        }
        lemma_asm_run_goes_on(st, stmts.drop_last(), target);
        assert(parsed_shape(stmts[stmts.len() - 1]));
    }
}

proof fn lemma_c_run_goes_on(stmts: Seq<Statement>, n: nat)
    requires
        all_parsed(stmts),
        n <= stmts.len(),
    ensures
        !(c_run(stmts, n) is Stuck),
    decreases n,
{
    if n > 0 {
        lemma_c_run_goes_on(stmts, (n - 1) as nat);
        assert(parsed_shape(stmts[n - 1]));
    }
}

proof fn lemma_no_labels(m: Machine, stmts: Seq<Statement>, n: nat)
    requires
        all_parsed(stmts),
        n <= stmts.len(),
    ensures
        collect_labels(m, stmts, n) == Preprocessed::Labels(Seq::empty()),
    decreases n,
{
    if n > 0 {
        lemma_no_labels(m, stmts, (n - 1) as nat);
        assert(parsed_shape(stmts[n - 1]));
    }
}

/// A program that the parser reads can always be handed on: the assembly
/// generator (from any state) and the C translator each give a program or a
/// diagnostic, and collecting its labels never stops short (it defines none).
pub proof fn lemma_parsed_programs_can_be_handed_on(
    text: Seq<char>,
    st: CompilerState,
    target: Target,
    m: Machine,
)
    requires
        source_outcome(text) is Done,
    ensures
        compile_result(st, source_outcome(text)->Done_0, target) is Some,
        transpile_result(source_outcome(text)->Done_0) is Some,
        preprocess_result(m, source_outcome(text)->Done_0) == Some(Ok::<(), Seq<char>>(())),
{
    let stmts = source_outcome(text)->Done_0;
    lemma_parsed_statements_have_their_operands(text);
    lemma_asm_run_goes_on(st, stmts, target);
    lemma_c_run_goes_on(stmts, stmts.len());
    lemma_no_labels(m, stmts, stmts.len());
}

/// Running a program that the parser reads gets stuck only on a division
/// (or remainder) of a register by an operand that reads 0.
pub proof fn lemma_parsed_programs_get_stuck_only_dividing_by_zero(text: Seq<char>, m: Machine)
    requires
        source_outcome(text) is Done,
        step_model(m, source_outcome(text)->Done_0) is Stuck,
    ensures
        ({
            let s = source_outcome(text)->Done_0[m.instruction_pointer as int];
            &&& s.statement_type is Divide || s.statement_type is Remainder
            &&& s.arg1 == Some(Argument::R0) || s.arg1 == Some(
                Argument::R1,
            )
            &&& read_value(m, s.arg2->0) == Ok::<u8, Seq<char>>(0)
        }),
{
    let stmts = source_outcome(text)->Done_0;
    lemma_parsed_statements_have_their_operands(text);
    assert(parsed_shape(stmts[m.instruction_pointer as int]));
}


/// The C translation of the statement at `i` is the same in `s` and `t` when
/// the statement is the same and, for a comparison, so is what follows it.
proof fn lemma_c_statement_same(s: Seq<Statement>, t: Seq<Statement>, i: int)
    requires
        0 <= i < s.len(),
        i < t.len(),
        s[i] == t[i],
        s[i].statement_type == StatementTypes::Compare ==> ((i == s.len() - 1 && i == t.len() - 1)
            || (i + 1 < s.len() && i + 1 < t.len() && s[i + 1] == t[i + 1])),
    ensures
        c_statement(s, i) == c_statement(t, i),
{
}

/// A trailing comparison, with nothing after it to jump by, adds no C code
/// and is not checked: the translation is that of the statements before it.
pub proof fn lemma_trailing_comparison_adds_no_code(xs: Seq<Statement>, c: Statement)
    requires
        c.statement_type == StatementTypes::Compare,
        xs.len() > 0 ==> xs.last().statement_type != StatementTypes::Compare,
    ensures
        transpile_result(xs.push(c)) == transpile_result(xs),
{
    let z = xs.push(c);
    let n = xs.len();
    assert forall|k: nat| k <= n implies c_run(z, k) == c_run(xs, k) by {
        lemma_prefix_runs_agree(z, xs, k);
    }
    assert(c_statement(z, n as int) == CStep::Emit(Seq::<char>::empty()));
    if let CRun::Done(text) = c_run(xs, n) {
        assert(text + Seq::<char>::empty() =~= text);
    }
    assert(reads_input(z) == reads_input(xs)) by {
        if reads_input(z) {
            let i = choose|i: int| 0 <= i < z.len() && z[i].statement_type == StatementTypes::Input;
            assert(i < n);
            assert(xs[i] == z[i]);
        }
        if reads_input(xs) {
            let i = choose|i: int| 0 <= i < xs.len() && xs[i].statement_type == StatementTypes::Input;
            assert(z[i] == xs[i]);
        }
    }
}

/// The first `k` statements of `z` and `xs` translate alike where `xs` is a
/// prefix of `z` whose last statement, if it is among them, is no comparison.
proof fn lemma_prefix_runs_agree(z: Seq<Statement>, xs: Seq<Statement>, k: nat)
    requires
        k <= xs.len() < z.len(),
        forall|i: int| 0 <= i < xs.len() ==> z[i] == xs[i],
        xs.len() > 0 ==> xs.last().statement_type != StatementTypes::Compare,
    ensures
        c_run(z, k) == c_run(xs, k),
    decreases k,
{
    if k > 0 {
        lemma_prefix_runs_agree(z, xs, (k - 1) as nat);
        let i = k - 1;
        if i + 1 < xs.len() {
            assert(z[i + 1] == xs[i + 1]);
        }
        lemma_c_statement_same(z, xs, i);
    }
}

/// Statements whose translation depends on no other statement: neither
/// input (which changes the header), nor comparisons and jumps.
pub open spec fn independent_statements(xs: Seq<Statement>) -> bool {
    forall|i: int|
        0 <= i < xs.len() ==> !(#[trigger] xs[i].statement_type is Input
            || xs[i].statement_type is Compare || xs[i].statement_type is Greater
            || xs[i].statement_type is Less || xs[i].statement_type is Equal)
}

/// Two statements that need no neighbour translate alike wherever they stand,
/// up to the statement number in a diagnostic.
proof fn lemma_c_statement_shift(s: Seq<Statement>, t: Seq<Statement>, i: int, j: int)
    requires
        0 <= i < s.len(),
        0 <= j < t.len(),
        s[i] == t[j],
        !(s[i].statement_type is Compare),
    ensures
        c_statement(s, i) is Emit <==> c_statement(t, j) is Emit,
        c_statement(s, i) is Emit ==> c_statement(s, i) == c_statement(t, j),
        c_statement(s, i) is Fail <==> c_statement(t, j) is Fail,
        c_statement(s, i) is Stuck <==> c_statement(t, j) is Stuck,
{
}

proof fn lemma_suffix_runs(xs: Seq<Statement>, ys: Seq<Statement>, bx: Seq<char>, k: nat)
    requires
        k <= ys.len(),
        independent_statements(ys),
        c_run(xs + ys, xs.len()) == CRun::Done(bx),
    ensures
        c_run(ys, k) matches CRun::Done(b) ==> c_run(xs + ys, xs.len() + k) == CRun::Done(bx + b),
        c_run(ys, k) is Fail ==> c_run(xs + ys, xs.len() + k) is Fail,
        c_run(ys, k) is Stuck ==> c_run(xs + ys, xs.len() + k) is Stuck,
    decreases k,
{
    if k > 0 {
        lemma_suffix_runs(xs, ys, bx, (k - 1) as nat);
        let z = xs + ys;
        let j = k - 1;
        assert(z[xs.len() + j] == ys[j]);
        assert(!(ys[j].statement_type is Compare));
        lemma_c_statement_shift(z, ys, xs.len() + j, j);
        if let CRun::Done(b) = c_run(ys, j as nat) {
            if let CStep::Emit(t) = c_statement(ys, j) {
                assert(bx + b + t =~= bx + (b + t));
            }
        }
    }
}

proof fn lemma_no_input(xs: Seq<Statement>)
    requires
        independent_statements(xs),
    ensures
        c_header(xs) == c_header(Seq::<Statement>::empty()),
{
    assert(!reads_input(xs));
    assert(!reads_input(Seq::<Statement>::empty()));
}

proof fn lemma_framed_body(h: Seq<char>, b: Seq<char>, d: Seq<char>, f: Seq<char>)
    requires
        h + b + f == h + d + f,
    ensures
        b == d,
{
    assert((h + b + f).len() == (h + d + f).len());
    assert((h + b + f).len() == h.len() + b.len() + f.len());
    assert((h + d + f).len() == h.len() + d.len() + f.len());
    assert(b.len() == d.len());
    assert(b =~= (h + b + f).subrange(h.len() as int, (h.len() + b.len()) as int));
    assert(d =~= (h + d + f).subrange(h.len() as int, (h.len() + d.len()) as int));
}

/// Translating two lists of statements that need no neighbours, one after
/// the other, gives the two bodies in sequence between one header and one
/// footer; if either list is refused, so is the whole.
pub proof fn lemma_translations_concatenate(
    xs: Seq<Statement>,
    ys: Seq<Statement>,
    bx: Seq<char>,
    by: Seq<char>,
)
    requires
        independent_statements(xs),
        independent_statements(ys),
        transpile_result(xs) is Some,
        transpile_result(ys) is Some,
    ensures
        transpile_result(xs) == Some(
            Ok::<Seq<char>, Seq<char>>(c_header(Seq::empty()) + bx + c_footer()),
        ) && transpile_result(ys) == Some(
            Ok::<Seq<char>, Seq<char>>(c_header(Seq::empty()) + by + c_footer()),
        ) ==> transpile_result(xs + ys) == Some(
            Ok::<Seq<char>, Seq<char>>(c_header(Seq::empty()) + bx + by + c_footer()),
        ),
        (transpile_result(xs) matches Some(Err(_)) || transpile_result(ys) matches Some(Err(_)))
            ==> transpile_result(xs + ys) matches Some(Err(_)),
{
    let z = xs + ys;
    let h = c_header(Seq::<Statement>::empty());
    assert(independent_statements(z)) by {
        assert forall|i: int| 0 <= i < z.len() implies !(#[trigger] z[i].statement_type is Input
            || z[i].statement_type is Compare || z[i].statement_type is Greater
            || z[i].statement_type is Less || z[i].statement_type is Equal) by {
            if i < xs.len() {
                assert(z[i] == xs[i]);
            } else {
                assert(z[i] == ys[i - xs.len()]);
            }
        }
    }
    lemma_no_input(xs);
    lemma_no_input(ys);
    lemma_no_input(z);
    assert(xs.len() > 0 ==> xs.last().statement_type != StatementTypes::Compare);
    if ys.len() == 0 {
        assert(z =~= xs);
        if let CRun::Done(b) = c_run(ys, 0) {
            assert(b == Seq::<char>::empty());
        }
        if transpile_result(ys) == Some(Ok::<Seq<char>, Seq<char>>(h + by + c_footer())) {
            lemma_framed_body(h, by, Seq::<char>::empty(), c_footer());
        }
        if let CRun::Done(b) = c_run(xs, xs.len()) {
            assert(b + Seq::<char>::empty() =~= b);
            assert(h + bx + Seq::<char>::empty() =~= h + bx);
        }
        return;
    }
    assert forall|k: nat| k <= xs.len() implies c_run(z, k) == c_run(xs, k) by {
        lemma_prefix_runs_agree(z, xs, k);
    }
    match c_run(xs, xs.len()) {
        CRun::Done(cx) => {
            lemma_suffix_runs(xs, ys, cx, ys.len());
            if transpile_result(xs) == Some(Ok::<Seq<char>, Seq<char>>(h + bx + c_footer()))
                && transpile_result(ys) == Some(Ok::<Seq<char>, Seq<char>>(h + by + c_footer())) {
                lemma_framed_body(h, bx, cx, c_footer());
                let cy = c_run(ys, ys.len())->Done_0;
                lemma_framed_body(h, by, cy, c_footer());
                assert(h + (bx + by) + c_footer() =~= h + bx + by + c_footer());
            }
        },
        CRun::Fail(_) => {
            lemma_c_run_stops(z, xs.len(), z.len());
        },
        CRun::Stuck => {},
    }
}

/// The value of zeros followed by binary digits is that of the digits.
proof fn lemma_leading_zeros_value(k: nat, d: Seq<char>)
    ensures
        binary_value(Seq::new(k, |i: int| '0') + d) == binary_value(d),
    decreases d.len() + k,
{
    let z = Seq::new(k, |i: int| '0');
    if d.len() == 0 {
        assert(z + d =~= z);
        if k > 0 {
            lemma_leading_zeros_value((k - 1) as nat, d);
            assert(z.drop_last() =~= Seq::new((k - 1) as nat, |i: int| '0'));
            assert(Seq::new((k - 1) as nat, |i: int| '0') + d =~= Seq::new(
                (k - 1) as nat,
                |i: int| '0',
            ));
        }
    } else {
        lemma_leading_zeros_value(k, d.drop_last());
        assert((z + d).drop_last() =~= z + d.drop_last());
        assert((z + d).last() == d.last());
    }
}

/// A byte written in binary, with any number of leading zeros, reads as
/// that byte.
pub proof fn lemma_binary_literal_with_leading_zeros(v: u8, k: nat, idx: u32)
    ensures
        argument_outcome(Seq::new(k, |i: int| '0') + binary_digits(v as nat), idx)
            == ParseOutcome::Done(Argument::Literal(v)),
{
    let d = binary_digits(v as nat);
    let z = Seq::new(k, |i: int| '0');
    let a = z + d;
    lemma_binary_digits_value(v as nat);
    lemma_leading_zeros_value(k, d);
    assert(is_binary(a)) by {
        assert forall|i: int| 0 <= i < a.len() implies (a[i] == '0' || a[i] == '1') by {
            if i >= k {
                assert(a[i] == d[i - k]);
            }
        }
    }
    assert(a[0] == '0' || a[0] == '1');
    assert(a != seq!['\'']) by {
        if a == seq!['\''] {
            assert(a[0] == '\'');
        }
    }
    assert(a != seq!['\'', '\'']) by {
        if a == seq!['\'', '\''] {
            assert(a[0] == '\'');
        }
    }
    assert(a != seq!['"']) by {
        if a == seq!['"'] {
            assert(a[0] == '"');
        }
    }
    assert(a != seq![':']) by {
        if a == seq![':'] {
            assert(a[0] == ':');
        }
    }
    assert(a != seq!['\\']) by {
        if a == seq!['\\'] {
            assert(a[0] == '\\');
        }
    }
}

} // verus!
