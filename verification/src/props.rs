//! Proved properties of the lowering model: net stack effects, slot
//! addressing, label uniqueness, and the empty-program boundary.

use vstd::prelude::*;

use crate::ast::{ErrKind, ExpressionNode, StatementNode};
use crate::emit::{lines_seq, prologue_seq, render_seq, AsmLine, Instr, Reg};
use crate::model::{
    gen_expr_spec, gen_stmt_spec, gen_stmts_spec, lemma_gen_expr_shape, range_spec, GenState,
};

verus! {

/// How often `loop<n>:` occurs in an instruction sequence.
pub open spec fn count_loop_labels(ls: Seq<AsmLine>, n: nat) -> nat
    decreases ls.len(),
{
    if ls.len() == 0 {
        0
    } else {
        count_loop_labels(ls.drop_last(), n) + (if ls.last().instr matches Instr::LabelLoop(m)
            && m as nat == n {
            1nat
        } else {
            0nat
        })
    }
}

/// How often `exit<n>:` occurs in an instruction sequence.
pub open spec fn count_exit_labels(ls: Seq<AsmLine>, n: nat) -> nat
    decreases ls.len(),
{
    if ls.len() == 0 {
        0
    } else {
        count_exit_labels(ls.drop_last(), n) + (if ls.last().instr matches Instr::LabelExit(m)
            && m as nat == n {
            1nat
        } else {
            0nat
        })
    }
}

/// A sequence of instructions that contains no label at all.
pub open spec fn plain_lines(ls: Seq<AsmLine>) -> bool {
    forall|j: int|
        0 <= j < ls.len() ==> !(#[trigger] ls[j].instr matches Instr::LabelLoop(_)) && !(
        ls[j].instr matches Instr::LabelExit(_))
}

/// Label bookkeeping is sound: indices at or above the counter are still
/// unused, and every index below it labels exactly one `loop`/`exit` pair.
pub open spec fn labels_wf(st: GenState) -> bool {
    forall|n: nat|
        #![trigger count_loop_labels(st.lines, n)]
        #![trigger count_exit_labels(st.lines, n)]
        (n >= st.loops ==> count_loop_labels(st.lines, n) == 0 && count_exit_labels(st.lines, n)
            == 0) && (n < st.loops ==> count_loop_labels(st.lines, n) == 1 && count_exit_labels(
            st.lines,
            n,
        ) == 1)
}

/// Label counts distribute over concatenation.
proof fn lemma_count_concat(a: Seq<AsmLine>, b: Seq<AsmLine>, n: nat)
    ensures
        count_loop_labels(a + b, n) == count_loop_labels(a, n) + count_loop_labels(b, n),
        count_exit_labels(a + b, n) == count_exit_labels(a, n) + count_exit_labels(b, n),
    decreases b.len(),
{
    if b.len() == 0 {
        assert(a + b =~= a);
    } else {
        assert((a + b).drop_last() =~= a + b.drop_last());
        assert((a + b).last() == b.last());
        lemma_count_concat(a, b.drop_last(), n);
    }
}

/// A label-free sequence contributes nothing to any label count.
proof fn lemma_plain_count_zero(ls: Seq<AsmLine>, n: nat)
    requires
        plain_lines(ls),
    ensures
        count_loop_labels(ls, n) == 0,
        count_exit_labels(ls, n) == 0,
    decreases ls.len(),
{
    if ls.len() > 0 {
        assert(plain_lines(ls.drop_last()));
        lemma_plain_count_zero(ls.drop_last(), n);
    }
}

/// Appending label-free lines neither mints nor duplicates a label.
proof fn lemma_labels_wf_extend(st: GenState, st2: GenState, added: Seq<AsmLine>)
    requires
        labels_wf(st),
        st2.loops == st.loops,
        st2.lines == st.lines + added,
        plain_lines(added),
    ensures
        labels_wf(st2),
{
    assert forall|n: nat|
        #![trigger count_loop_labels(st2.lines, n)]
        #![trigger count_exit_labels(st2.lines, n)]
        (n >= st2.loops ==> count_loop_labels(st2.lines, n) == 0 && count_exit_labels(
            st2.lines,
            n,
        ) == 0) && (n < st2.loops ==> count_loop_labels(st2.lines, n) == 1 && count_exit_labels(
            st2.lines,
            n,
        ) == 1) by {
        lemma_count_concat(st.lines, added, n);
        lemma_plain_count_zero(added, n);
    }
}

/// The range lowering mints the pair for the current counter value — each
/// label exactly once — and leaves every other index untouched.
proof fn lemma_labels_wf_range(st: GenState)
    requires
        labels_wf(st),
        st.loops < usize::MAX,
    ensures
        labels_wf(range_spec(st)),
{
    let st2 = range_spec(st);
    let lbl: usize = (st.loops as usize);
    let before = seq![
        AsmLine { instr: Instr::Pop(Reg::Rax), level: 1 },
        AsmLine { instr: Instr::MovImm(Reg::Rbx, 0), level: 1 },
    ];
    let body = seq![
        AsmLine { instr: Instr::Push(Reg::Rbx), level: 2 },
        AsmLine { instr: Instr::IncRbx, level: 2 },
        AsmLine { instr: Instr::CmpRaxRbx, level: 2 },
        AsmLine { instr: Instr::JeExit(lbl), level: 2 },
        AsmLine { instr: Instr::JmpLoop(lbl), level: 2 },
    ];
    let loop_lbl = seq![AsmLine { instr: Instr::LabelLoop(lbl), level: 0 }];
    let exit_lbl = seq![AsmLine { instr: Instr::LabelExit(lbl), level: 0 }];
    assert(st2.lines =~= ((st.lines + before) + loop_lbl + body) + exit_lbl);
    assert forall|n: nat|
        #![trigger count_loop_labels(st2.lines, n)]
        #![trigger count_exit_labels(st2.lines, n)]
        (n >= st2.loops ==> count_loop_labels(st2.lines, n) == 0 && count_exit_labels(
            st2.lines,
            n,
        ) == 0) && (n < st2.loops ==> count_loop_labels(st2.lines, n) == 1 && count_exit_labels(
            st2.lines,
            n,
        ) == 1) by {
        lemma_count_concat((st.lines + before) + loop_lbl + body, exit_lbl, n);
        lemma_count_concat((st.lines + before) + loop_lbl, body, n);
        lemma_count_concat(st.lines + before, loop_lbl, n);
        lemma_count_concat(st.lines, before, n);
        lemma_plain_count_zero(before, n);
        lemma_plain_count_zero(body, n);
        reveal_with_fuel(count_loop_labels, 2);
        reveal_with_fuel(count_exit_labels, 2);
        assert(loop_lbl.drop_last() =~= Seq::<AsmLine>::empty());
        assert(exit_lbl.drop_last() =~= Seq::<AsmLine>::empty());
        assert(count_loop_labels(loop_lbl, n) == (if n == st.loops {
            1nat
        } else {
            0nat
        }));
        assert(count_exit_labels(loop_lbl, n) == 0);
        assert(count_loop_labels(exit_lbl, n) == 0);
        assert(count_exit_labels(exit_lbl, n) == (if n == st.loops {
            1nat
        } else {
            0nat
        }));
    }
}

/// Lowering an expression preserves sound label bookkeeping, as long as
/// the final counter still fits a machine word — which it always does for
/// a generator that actually ran, since the counter is a machine word.
proof fn lemma_expr_labels(e: ExpressionNode, st: GenState)
    requires
        labels_wf(st),
    ensures
        gen_expr_spec(e, st) matches Ok(st2) ==> (st2.loops <= usize::MAX ==> labels_wf(st2)),
    decreases e,
{
    match e {
        ExpressionNode::Value(v) => {
            match gen_expr_spec(e, st) {
                Ok(st2) => {
                    let added = seq![
                        AsmLine { instr: Instr::MovImm(Reg::Rax, v), level: 1 },
                        AsmLine { instr: Instr::Push(Reg::Rax), level: 1 },
                    ];
                    assert(st2.lines =~= st.lines + added);
                    lemma_labels_wf_extend(st, st2, added);
                },
                Err(_) => {},
            }
        },
        ExpressionNode::Var(name) => {
            match gen_expr_spec(e, st) {
                Ok(st2) => {
                    let d = st.vars[name@];
                    let added = seq![
                        AsmLine { instr: Instr::MovStack(((st.sp - d - 1) as usize)), level: 1 },
                        AsmLine { instr: Instr::Push(Reg::Rax), level: 1 },
                    ];
                    assert(st2.lines =~= st.lines + added);
                    lemma_labels_wf_extend(st, st2, added);
                },
                Err(_) => {},
            }
        },
        ExpressionNode::Infix(e1, op, e2) => {
            match gen_expr_spec(*e1, st) {
                Ok(st1) => {
                    match gen_expr_spec(*e2, st1) {
                        Ok(st2) => {
                            match gen_expr_spec(e, st) {
                                Ok(st3) => {
                                    lemma_gen_expr_shape(*e2, st1);
                                    if st3.loops <= usize::MAX {
                                        lemma_expr_labels(*e1, st);
                                        lemma_expr_labels(*e2, st1);
                                    }
                                    let added = seq![
                                        AsmLine { instr: Instr::Pop(Reg::Rbx), level: 1 },
                                        AsmLine { instr: Instr::Pop(Reg::Rax), level: 1 },
                                        AsmLine {
                                            instr: (if op@ == "+"@ {
                                                Instr::AddRaxRbx
                                            } else if op@ == "-"@ {
                                                Instr::SubRaxRbx
                                            } else {
                                                Instr::ImulRbx
                                            }),
                                            level: 1,
                                        },
                                        AsmLine { instr: Instr::Push(Reg::Rax), level: 1 },
                                    ];
                                    assert(st3.lines =~= st2.lines + added);
                                    if st3.loops <= usize::MAX {
                                        lemma_labels_wf_extend(st2, st3, added);
                                    }
                                },
                                Err(_) => {},
                            }
                        },
                        Err(_) => {},
                    }
                },
                Err(_) => {},
            }
        },
        ExpressionNode::Callable(name, arg) => {
            match gen_expr_spec(*arg, st) {
                Ok(st1) => {
                    match gen_expr_spec(e, st) {
                        Ok(st2) => {
                            assert(st2 == range_spec(st1));
                            if st2.loops <= usize::MAX {
                                lemma_expr_labels(*arg, st);
                                lemma_labels_wf_range(st1);
                            }
                        },
                        Err(_) => {},
                    }
                },
                Err(_) => {},
            }
        },
    }
}

/// Statement net effects: `Exit` restores the stack depth it found,
/// `Assign` and `For` deepen the stack by exactly one slot, and no
/// statement moves the label counter backwards.
pub proof fn lemma_stmt_shape(s: StatementNode, st: GenState)
    ensures
        gen_stmt_spec(s, st) matches Ok(st2) ==> st2.loops >= st.loops && (match s {
            StatementNode::Exit(_) => st2.sp == st.sp,
            StatementNode::Assign(_, _) => st2.sp == st.sp + 1,
            StatementNode::For(_, _) => st2.sp == st.sp + 1,
            StatementNode::EndFor => false,
        }),
{
    match s {
        StatementNode::Exit(e) => {
            lemma_gen_expr_shape(e, st);
        },
        StatementNode::Assign(name, e) => {
            lemma_gen_expr_shape(e, st.bind(name@));
        },
        StatementNode::For(name, e) => {
            lemma_gen_expr_shape(e, st.bind(name@));
        },
        StatementNode::EndFor => {},
    }
}

/// Lowering a statement preserves sound label bookkeeping.
proof fn lemma_stmt_labels(s: StatementNode, st: GenState)
    requires
        labels_wf(st),
    ensures
        gen_stmt_spec(s, st) matches Ok(st2) ==> (st2.loops <= usize::MAX ==> labels_wf(st2)),
{
    match s {
        StatementNode::Exit(e) => {
            match gen_expr_spec(e, st) {
                Ok(st1) => {
                    match gen_stmt_spec(s, st) {
                        Ok(st2) => {
                            if st2.loops <= usize::MAX {
                                lemma_expr_labels(e, st);
                                let added = seq![
                                    AsmLine { instr: Instr::MovImm(Reg::Rax, 60), level: 1 },
                                    AsmLine { instr: Instr::Pop(Reg::Rdi), level: 1 },
                                    AsmLine { instr: Instr::Syscall, level: 1 },
                                ];
                                assert(st2.lines =~= st1.lines + added);
                                lemma_labels_wf_extend(st1, st2, added);
                            }
                        },
                        Err(_) => {},
                    }
                },
                Err(_) => {},
            }
        },
        StatementNode::Assign(name, e) => {
            assert(labels_wf(st.bind(name@)));
            lemma_expr_labels(e, st.bind(name@));
        },
        StatementNode::For(name, e) => {
            assert(labels_wf(st.bind(name@)));
            lemma_expr_labels(e, st.bind(name@));
        },
        StatementNode::EndFor => {},
    }
}

/// The label counter never moves backwards across a statement sequence.
proof fn lemma_stmts_loops_monotone(prog: Seq<StatementNode>, st: GenState)
    ensures
        gen_stmts_spec(prog, st) matches Ok(st2) ==> st2.loops >= st.loops,
    decreases prog.len(),
{
    if prog.len() > 0 {
        lemma_stmt_shape(prog[0], st);
        match gen_stmt_spec(prog[0], st) {
            Ok(st1) => {
                lemma_stmts_loops_monotone(prog.drop_first(), st1);
            },
            Err(_) => {},
        }
    }
}

/// Lowering a statement sequence preserves sound label bookkeeping.
proof fn lemma_stmts_labels(prog: Seq<StatementNode>, st: GenState)
    requires
        labels_wf(st),
    ensures
        gen_stmts_spec(prog, st) matches Ok(st2) ==> (st2.loops <= usize::MAX ==> labels_wf(st2)),
    decreases prog.len(),
{
    if prog.len() > 0 {
        lemma_stmt_labels(prog[0], st);
        match gen_stmt_spec(prog[0], st) {
            Ok(st1) => {
                lemma_stmt_shape(prog[0], st);
                lemma_stmts_loops_monotone(prog.drop_first(), st1);
                match gen_stmts_spec(prog.drop_first(), st1) {
                    Ok(st2) => {
                        if st2.loops <= usize::MAX {
                            assert(labels_wf(st1));
                            lemma_stmts_labels(prog.drop_first(), st1);
                        }
                    },
                    Err(_) => {},
                }
            },
            Err(_) => {},
        }
    }
}


/// The number of `range` calls an expression contains.
pub open spec fn expr_ranges(e: ExpressionNode) -> nat
    decreases e,
{
    match e {
        ExpressionNode::Value(_) => 0,
        ExpressionNode::Var(_) => 0,
        ExpressionNode::Infix(e1, _, e2) => expr_ranges(*e1) + expr_ranges(*e2),
        ExpressionNode::Callable(name, arg) => expr_ranges(*arg) + (if name@ == "range"@ {
            1nat
        } else {
            0nat
        }),
    }
}

/// The number of `range` calls a statement contains.
pub open spec fn stmt_ranges(s: StatementNode) -> nat {
    match s {
        StatementNode::Exit(e) => expr_ranges(e),
        StatementNode::Assign(_, e) => expr_ranges(e),
        StatementNode::For(_, e) => expr_ranges(e),
        StatementNode::EndFor => 0,
    }
}

/// The number of `range` calls — loop constructs — in a whole program.
pub open spec fn prog_ranges(prog: Seq<StatementNode>) -> nat
    decreases prog.len(),
{
    if prog.len() == 0 {
        0
    } else {
        stmt_ranges(prog[0]) + prog_ranges(prog.drop_first())
    }
}

/// A successful expression lowering advances the label counter by exactly
/// its number of `range` calls.
proof fn lemma_expr_ranges(e: ExpressionNode, st: GenState)
    ensures
        gen_expr_spec(e, st) matches Ok(st2) ==> st2.loops == st.loops + expr_ranges(e),
    decreases e,
{
    match e {
        ExpressionNode::Value(_) => {},
        ExpressionNode::Var(_) => {},
        ExpressionNode::Infix(e1, _, e2) => {
            lemma_expr_ranges(*e1, st);
            match gen_expr_spec(*e1, st) {
                Ok(st1) => {
                    lemma_expr_ranges(*e2, st1);
                },
                Err(_) => {},
            }
        },
        ExpressionNode::Callable(_, arg) => {
            lemma_expr_ranges(*arg, st);
        },
    }
}

/// A successful statement lowering advances the label counter by exactly
/// its number of `range` calls.
proof fn lemma_stmt_ranges(s: StatementNode, st: GenState)
    ensures
        gen_stmt_spec(s, st) matches Ok(st2) ==> st2.loops == st.loops + stmt_ranges(s),
{
    match s {
        StatementNode::Exit(e) => {
            lemma_expr_ranges(e, st);
        },
        StatementNode::Assign(name, e) => {
            lemma_expr_ranges(e, st.bind(name@));
        },
        StatementNode::For(name, e) => {
            lemma_expr_ranges(e, st.bind(name@));
        },
        StatementNode::EndFor => {},
    }
}

/// A successful program lowering advances the label counter by exactly the
/// program's number of loop constructs: with the counter started at zero,
/// the labels are `loop0`/`exit0` through `loop(k-1)`/`exit(k-1)`.
pub proof fn lemma_prog_ranges(prog: Seq<StatementNode>, st: GenState)
    ensures
        gen_stmts_spec(prog, st) matches Ok(st2) ==> st2.loops == st.loops + prog_ranges(prog),
    decreases prog.len(),
{
    if prog.len() > 0 {
        lemma_stmt_ranges(prog[0], st);
        match gen_stmt_spec(prog[0], st) {
            Ok(st1) => {
                lemma_prog_ranges(prog.drop_first(), st1);
            },
            Err(_) => {},
        }
    }
}

/// Label uniqueness: compiled from a fresh generator, a program with `k`
/// loop constructs carries exactly one `loop<n>:` and one `exit<n>:` for
/// every `n` below the final counter `k`, and no label at or above it —
/// `k` distinct pairs with no collisions, however the loops are arranged.
/// (The counter fits a machine word for every run of the generator, whose
/// counter is one.)
pub proof fn theorem_labels_unique(prog: Seq<StatementNode>)
    ensures
        gen_stmts_spec(prog, GenState::initial()) matches Ok(st) ==> st.loops == prog_ranges(prog)
            && (st.loops <= usize::MAX ==> labels_wf(st)),
{
    lemma_prog_ranges(prog, GenState::initial());
    let init = GenState::initial();
    assert forall|n: nat|
        #![trigger count_loop_labels(init.lines, n)]
        #![trigger count_exit_labels(init.lines, n)]
        (n >= init.loops ==> count_loop_labels(init.lines, n) == 0 && count_exit_labels(
            init.lines,
            n,
        ) == 0) && (n < init.loops ==> count_loop_labels(init.lines, n) == 1 && count_exit_labels(
            init.lines,
            n,
        ) == 1) by {
        assert(count_loop_labels(init.lines, n) == 0);
        assert(count_exit_labels(init.lines, n) == 0);
    }
    lemma_stmts_labels(prog, init);
}

/// A literal integer lowers to exactly a load-immediate of the value
/// followed by one push: one net push, nothing else emitted.
pub proof fn lemma_literal_lowering(v: i64, st: GenState)
    ensures
        gen_expr_spec(ExpressionNode::Value(v), st) matches Ok(st2) && st2.sp == st.sp + 1
            && st2.lines == st.lines + seq![
            AsmLine { instr: Instr::MovImm(Reg::Rax, v), level: 1 },
            AsmLine { instr: Instr::Push(Reg::Rax), level: 1 },
        ],
{
    match gen_expr_spec(ExpressionNode::Value(v), st) {
        Ok(st2) => {
            assert(st2.lines =~= st.lines + seq![
                AsmLine { instr: Instr::MovImm(Reg::Rax, v), level: 1 },
                AsmLine { instr: Instr::Push(Reg::Rax), level: 1 },
            ]);
        },
        Err(_) => {},
    }
}

/// A literal consumed at once by `Exit` yields exactly: load the value,
/// push it, load the exit syscall number, pop the pushed value into the
/// syscall argument register — which therefore holds the literal — and
/// trap.  The stack depth is restored.
pub proof fn lemma_exit_literal(v: i64, st: GenState)
    ensures
        gen_stmt_spec(StatementNode::Exit(ExpressionNode::Value(v)), st) matches Ok(st2)
            && st2.sp == st.sp && st2.lines == st.lines + seq![
            AsmLine { instr: Instr::MovImm(Reg::Rax, v), level: 1 },
            AsmLine { instr: Instr::Push(Reg::Rax), level: 1 },
            AsmLine { instr: Instr::MovImm(Reg::Rax, 60), level: 1 },
            AsmLine { instr: Instr::Pop(Reg::Rdi), level: 1 },
            AsmLine { instr: Instr::Syscall, level: 1 },
        ],
{
    match gen_stmt_spec(StatementNode::Exit(ExpressionNode::Value(v)), st) {
        Ok(st2) => {
            assert(st2.lines =~= st.lines + seq![
                AsmLine { instr: Instr::MovImm(Reg::Rax, v), level: 1 },
                AsmLine { instr: Instr::Push(Reg::Rax), level: 1 },
                AsmLine { instr: Instr::MovImm(Reg::Rax, 60), level: 1 },
                AsmLine { instr: Instr::Pop(Reg::Rdi), level: 1 },
                AsmLine { instr: Instr::Syscall, level: 1 },
            ]);
        },
        Err(_) => {},
    }
}

/// `Assign(x, e)` records `x` at the stack depth found on entry — the very
/// slot `e`'s one net pushed value comes to occupy — and the new depth is
/// one deeper.
pub proof fn lemma_assign_records_slot(x: String, e: ExpressionNode, st: GenState)
    ensures
        gen_stmt_spec(StatementNode::Assign(x, e), st) matches Ok(st2) ==> st2.vars.contains_key(
            x@,
        ) && st2.vars[x@] == st.sp && st2.sp == st.sp + 1,
{
    lemma_gen_expr_shape(e, st.bind(x@));
}

/// A reference to a bound variable emits a load whose operand reaches
/// `s - d - 1` slots down from the top of a stack `s` deep — that is,
/// slot `d` counted from the bottom: exactly the slot recorded at the
/// binding, no matter how many unrelated pushes happened in between.
pub proof fn lemma_reference_addresses_slot(x: String, st: GenState)
    requires
        st.vars.contains_key(x@),
        st.vars[x@] < st.sp,
        st.sp <= usize::MAX,
    ensures
        gen_expr_spec(ExpressionNode::Var(x), st) matches Ok(st2) && st2.lines == st.lines + seq![
            AsmLine {
                instr: Instr::MovStack(((st.sp - st.vars[x@] - 1) as usize)),
                level: 1,
            },
            AsmLine { instr: Instr::Push(Reg::Rax), level: 1 },
        ] && (st.sp - 1) - ((st.sp - st.vars[x@] - 1) as usize) == st.vars[x@],
{
    match gen_expr_spec(ExpressionNode::Var(x), st) {
        Ok(st2) => {
            assert(st2.lines =~= st.lines + seq![
                AsmLine {
                    instr: Instr::MovStack(((st.sp - st.vars[x@] - 1) as usize)),
                    level: 1,
                },
                AsmLine { instr: Instr::Push(Reg::Rax), level: 1 },
            ]);
        },
        Err(_) => {},
    }
}

/// Every successful infix lowering — the operator being one of `+`, `-`
/// and `*` — changes the net stack depth by exactly plus one.
pub proof fn lemma_infix_net_depth(e: ExpressionNode, st: GenState)
    requires
        e matches ExpressionNode::Infix(_, _, _),
    ensures
        gen_expr_spec(e, st) matches Ok(st2) ==> st2.sp == st.sp + 1,
{
    lemma_gen_expr_shape(e, st);
}

/// An infix expression with a supported operator succeeds whenever both
/// of its operands lower successfully.
pub proof fn lemma_infix_supported_succeeds(e: ExpressionNode, st: GenState)
    requires
        ({
            &&& e matches ExpressionNode::Infix(e1, op, e2)
            &&& op@ == "+"@ || op@ == "-"@ || op@ == "*"@
            &&& gen_expr_spec(*e1, st) matches Ok(st1)
            &&& gen_expr_spec(*e2, st1) is Ok
        }),
    ensures
        gen_expr_spec(e, st) is Ok,
{
}

/// An infix expression whose operator lies outside `+`, `-` and `*` lowers
/// to exactly that operator's unsupported-operator error whenever both of
/// its operands lower successfully.  (When an operand itself fails, the
/// left-to-right evaluation order reports that operand's error first.)
pub proof fn lemma_unsupported_operator(e: ExpressionNode, st: GenState)
    requires
        ({
            &&& e matches ExpressionNode::Infix(e1, op, e2)
            &&& !(op@ == "+"@ || op@ == "-"@ || op@ == "*"@)
            &&& gen_expr_spec(*e1, st) matches Ok(st1)
            &&& gen_expr_spec(*e2, st1) is Ok
        }),
    ensures
        e matches ExpressionNode::Infix(e1, op, e2) ==> gen_expr_spec(e, st) == Err::<
            GenState,
            ErrKind,
        >(ErrKind::UnsupportedOperator(op@)),
{
}

/// An empty statement sequence leaves any generator state untouched.
pub proof fn lemma_empty_program(st: GenState)
    ensures
        gen_stmts_spec(Seq::empty(), st) == Ok::<GenState, ErrKind>(st),
{
}

/// From a fresh generator, an empty statement sequence renders to exactly
/// the fixed prologue and nothing more.
pub proof fn lemma_empty_program_text()
    ensures
        gen_stmts_spec(Seq::empty(), GenState::initial()) == Ok::<GenState, ErrKind>(
            GenState::initial(),
        ),
        render_seq(GenState::initial().lines) == prologue_seq(),
{
    assert(lines_seq(Seq::<AsmLine>::empty()) == Seq::<char>::empty());
    assert(prologue_seq() + Seq::<char>::empty() =~= prologue_seq());
}

} // verus!
