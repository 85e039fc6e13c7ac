//! A small machine semantics for the straight-line fragment of the emitted
//! instruction set, and proofs that the lowered code computes the right
//! values: the evaluation stack gains exactly the expression's value, a
//! variable load reads the slot its binding was recorded at, and `Exit`
//! leaves the expression's value in the syscall argument register.
//!
//! Control flow (labels, jumps, the syscall itself) is not executed here;
//! the theorems cover expressions and `Exit`, whose code is straight-line.

use vstd::prelude::*;

use crate::ast::ExpressionNode;
use crate::emit::{AsmLine, Instr, Reg};
use crate::model::{gen_expr_spec, gen_stmt_spec, lemma_gen_expr_shape, GenState};

verus! {

/// The machine: the evaluation stack, bottom first, and the three
/// registers the generator uses.
pub ghost struct Machine {
    pub stack: Seq<i64>,
    pub rax: i64,
    pub rbx: i64,
    pub rdi: i64,
}

/// Two to the sixty-fourth, the modulus of 64-bit machine arithmetic.
pub open spec fn two_64() -> int {
    0x10000000000000000
}

/// Two's-complement wrap-around of an unbounded integer into an `i64`,
/// as the machine's add, sub and multiply low-half behave.
pub open spec fn wrap_i64(x: int) -> i64 {
    let r = x % two_64();
    if r >= 0x8000000000000000 {
        (r - two_64()) as i64
    } else {
        r as i64
    }
}

/// Wrap-around is the identity on values that already fit an `i64`.
pub proof fn lemma_wrap_small(x: int)
    requires
        -0x8000000000000000 <= x < 0x8000000000000000,
    ensures
        wrap_i64(x) == x,
{
    if x >= 0 {
        assert(x % two_64() == x) by (nonlinear_arith)
            requires
                0 <= x < 0x8000000000000000,
        ;
    } else {
        assert(x % two_64() == x + two_64()) by (nonlinear_arith)
            requires
                -0x8000000000000000 <= x < 0,
        ;
    }
}

/// The value a register holds.
pub open spec fn get_reg(m: Machine, r: Reg) -> i64 {
    match r {
        Reg::Rax => m.rax,
        Reg::Rbx => m.rbx,
        Reg::Rdi => m.rdi,
    }
}

/// The machine with one register replaced.
pub open spec fn set_reg(m: Machine, r: Reg, v: i64) -> Machine {
    match r {
        Reg::Rax => Machine { rax: v, ..m },
        Reg::Rbx => Machine { rbx: v, ..m },
        Reg::Rdi => Machine { rdi: v, ..m },
    }
}

/// One step of execution.  Labels, jumps, the compare and the syscall
/// leave the modelled state untouched; a pop of an empty stack or a load
/// past the stack is stuck in place (the proofs never reach either).
pub open spec fn step(m: Machine, l: AsmLine) -> Machine {
    match l.instr {
        Instr::MovImm(r, v) => set_reg(m, r, v),
        Instr::MovStack(k) => {
            if (k as int) < m.stack.len() {
                Machine { rax: m.stack[m.stack.len() - 1 - (k as int)], ..m }
            } else {
                m
            }
        },
        Instr::Push(r) => Machine { stack: m.stack.push(get_reg(m, r)), ..m },
        Instr::Pop(r) => {
            if m.stack.len() > 0 {
                set_reg(Machine { stack: m.stack.drop_last(), ..m }, r, m.stack.last())
            } else {
                m
            }
        },
        Instr::AddRaxRbx => Machine { rax: wrap_i64(m.rax + m.rbx), ..m },
        Instr::SubRaxRbx => Machine { rax: wrap_i64(m.rax - m.rbx), ..m },
        Instr::ImulRbx => Machine { rax: wrap_i64(m.rax * m.rbx), ..m },
        Instr::IncRbx => Machine { rbx: wrap_i64(m.rbx + 1), ..m },
        Instr::CmpRaxRbx => m,
        Instr::LabelLoop(_) => m,
        Instr::LabelExit(_) => m,
        Instr::JeExit(_) => m,
        Instr::JmpLoop(_) => m,
        Instr::Syscall => m,
    }
}

/// Straight-line execution of a whole instruction sequence.
pub open spec fn run(m: Machine, ls: Seq<AsmLine>) -> Machine
    decreases ls.len(),
{
    if ls.len() == 0 {
        m
    } else {
        run(step(m, ls[0]), ls.drop_first())
    }
}

/// Execution composes over concatenation.
pub proof fn lemma_run_concat(m: Machine, a: Seq<AsmLine>, b: Seq<AsmLine>)
    ensures
        run(m, a + b) == run(run(m, a), b),
    decreases a.len(),
{
    if a.len() == 0 {
        assert(a + b =~= b);
    } else {
        assert((a + b)[0] == a[0]);
        assert((a + b).drop_first() =~= a.drop_first() + b);
        lemma_run_concat(step(m, a[0]), a.drop_first(), b);
    }
}

/// The meaning of a call-free expression under an environment of variable
/// values: `None` where the generator would report an error.
pub open spec fn eval_expr(e: ExpressionNode, env: Map<Seq<char>, i64>) -> Option<i64>
    decreases e,
{
    match e {
        ExpressionNode::Value(v) => Some(v),
        ExpressionNode::Var(name) => {
            if env.contains_key(name@) {
                Some(env[name@])
            } else {
                None
            }
        },
        ExpressionNode::Infix(e1, op, e2) => {
            match (eval_expr(*e1, env), eval_expr(*e2, env)) {
                (Some(a), Some(b)) => {
                    if op@ == "+"@ {
                        Some(wrap_i64(a + b))
                    } else if op@ == "-"@ {
                        Some(wrap_i64(a - b))
                    } else if op@ == "*"@ {
                        Some(wrap_i64(a * b))
                    } else {
                        None
                    }
                },
                _ => None,
            }
        },
        ExpressionNode::Callable(_, _) => None,
    }
}

/// An expression with no built-in calls: its lowered code is straight-line.
pub open spec fn call_free(e: ExpressionNode) -> bool
    decreases e,
{
    match e {
        ExpressionNode::Value(_) => true,
        ExpressionNode::Var(_) => true,
        ExpressionNode::Infix(e1, _, e2) => call_free(*e1) && call_free(*e2),
        ExpressionNode::Callable(_, _) => false,
    }
}

/// The number of nodes in an expression: a coarse bound on how many
/// pushes its lowering can be into at any moment.
pub open spec fn expr_nodes(e: ExpressionNode) -> nat
    decreases e,
{
    match e {
        ExpressionNode::Value(_) => 1,
        ExpressionNode::Var(_) => 1,
        ExpressionNode::Infix(e1, _, e2) => 1 + expr_nodes(*e1) + expr_nodes(*e2),
        ExpressionNode::Callable(_, arg) => 1 + expr_nodes(*arg),
    }
}

/// Every variable the expression references is recorded below `bound` —
/// its slot already exists and is no temporary of the expression itself.
pub open spec fn refs_below(e: ExpressionNode, vars: Map<Seq<char>, nat>, bound: nat) -> bool
    decreases e,
{
    match e {
        ExpressionNode::Value(_) => true,
        ExpressionNode::Var(name) => vars.contains_key(name@) ==> vars[name@] < bound,
        ExpressionNode::Infix(e1, _, e2) => refs_below(*e1, vars, bound) && refs_below(
            *e2,
            vars,
            bound,
        ),
        ExpressionNode::Callable(_, arg) => refs_below(*arg, vars, bound),
    }
}

/// The machine, the environment and the recorded bindings agree below
/// `bound`: each binding's slot holds the value the environment gives it.
pub open spec fn agrees_below(
    m: Machine,
    env: Map<Seq<char>, i64>,
    vars: Map<Seq<char>, nat>,
    bound: nat,
) -> bool {
    forall|name: Seq<char>|
        vars.contains_key(name) && vars[name] < bound ==> env.contains_key(name)
            && bound <= m.stack.len() && m.stack[#[trigger] vars[name] as int] == env[name]
}

/// Lowered code computes the lowered expression.  Executing exactly the
/// instructions a successful lowering appended, from any machine that
/// agrees with the generator's records, pushes the expression's value —
/// and nothing else — onto the stack, leaves it in the first scratch
/// register, and leaves the syscall argument register alone.
#[verifier::rlimit(50)]
pub proof fn lemma_expr_semantics(
    e: ExpressionNode,
    st: GenState,
    m: Machine,
    env: Map<Seq<char>, i64>,
    bound: nat,
)
    requires
        call_free(e),
        refs_below(e, st.vars, bound),
        bound <= st.sp,
        st.sp + expr_nodes(e) <= usize::MAX,
        m.stack.len() == st.sp,
        agrees_below(m, env, st.vars, bound),
    ensures
        gen_expr_spec(e, st) matches Ok(st2) ==> ({
            let m2 = run(m, st2.lines.skip(st.lines.len() as int));
            &&& eval_expr(e, env) is Some
            &&& m2.stack == m.stack.push(eval_expr(e, env)->Some_0)
            &&& m2.rax == eval_expr(e, env)->Some_0
            &&& m2.rdi == m.rdi
        }),
    decreases e,
{
    match gen_expr_spec(e, st) {
        Err(_) => {},
        Ok(st2) => {
            let added = st2.lines.skip(st.lines.len() as int);
            match e {
                ExpressionNode::Value(v) => {
                    let l1 = AsmLine { instr: Instr::MovImm(Reg::Rax, v), level: 1 };
                    let l2 = AsmLine { instr: Instr::Push(Reg::Rax), level: 1 };
                    assert(added =~= seq![l1] + seq![l2]);
                    lemma_run_concat(m, seq![l1], seq![l2]);
                    reveal_with_fuel(run, 2);
                    assert(seq![l1].drop_first() =~= Seq::<AsmLine>::empty());
                    assert(seq![l2].drop_first() =~= Seq::<AsmLine>::empty());
                },
                ExpressionNode::Var(name) => {
                    let d = st.vars[name@];
                    let k: usize = ((st.sp - d - 1) as usize);
                    let l1 = AsmLine { instr: Instr::MovStack(k), level: 1 };
                    let l2 = AsmLine { instr: Instr::Push(Reg::Rax), level: 1 };
                    assert(added =~= seq![l1] + seq![l2]);
                    lemma_run_concat(m, seq![l1], seq![l2]);
                    reveal_with_fuel(run, 2);
                    assert(seq![l1].drop_first() =~= Seq::<AsmLine>::empty());
                    assert(seq![l2].drop_first() =~= Seq::<AsmLine>::empty());
                    assert(d < bound);
                    assert(k as int == st.sp - d - 1);
                    assert(m.stack.len() - 1 - (k as int) == d as int);
                    assert(m.stack[d as int] == env[name@]);
                },
                ExpressionNode::Infix(e1, op, e2) => {
                    match gen_expr_spec(*e1, st) {
                        Ok(st1) => {
                            lemma_gen_expr_shape(*e1, st);
                            lemma_expr_semantics(*e1, st, m, env, bound);
                            let added1 = st1.lines.skip(st.lines.len() as int);
                            let m1 = run(m, added1);
                            let v1 = eval_expr(*e1, env)->Some_0;
                            match gen_expr_spec(*e2, st1) {
                                Ok(stb) => {
                                    lemma_gen_expr_shape(*e2, st1);
                                    lemma_expr_semantics(*e2, st1, m1, env, bound);
                                    let added2 = stb.lines.skip(st1.lines.len() as int);
                                    let m2 = run(m1, added2);
                                    let v2 = eval_expr(*e2, env)->Some_0;
                                    let l1 = AsmLine { instr: Instr::Pop(Reg::Rbx), level: 1 };
                                    let l2 = AsmLine { instr: Instr::Pop(Reg::Rax), level: 1 };
                                    let l3 = AsmLine {
                                        instr: (if op@ == "+"@ {
                                            Instr::AddRaxRbx
                                        } else if op@ == "-"@ {
                                            Instr::SubRaxRbx
                                        } else {
                                            Instr::ImulRbx
                                        }),
                                        level: 1,
                                    };
                                    let l4 = AsmLine { instr: Instr::Push(Reg::Rax), level: 1 };
                                    let tail = seq![l1] + seq![l2] + seq![l3] + seq![l4];
                                    assert(st1.lines =~= st.lines + added1);
                                    assert(stb.lines =~= st1.lines + added2);
                                    assert(added =~= added1 + added2 + tail);
                                    lemma_run_concat(m, added1 + added2, tail);
                                    lemma_run_concat(m, added1, added2);
                                    assert(added1 + added2 + tail =~= (added1 + added2) + tail);
                                    lemma_run_concat(m2, seq![l1] + seq![l2] + seq![l3], seq![l4]);
                                    lemma_run_concat(m2, seq![l1] + seq![l2], seq![l3]);
                                    lemma_run_concat(m2, seq![l1], seq![l2]);
                                    assert(tail =~= ((seq![l1] + seq![l2]) + seq![l3]) + seq![l4]);
                                    reveal_with_fuel(run, 2);
                                    assert(seq![l1].drop_first() =~= Seq::<AsmLine>::empty());
                                    assert(seq![l2].drop_first() =~= Seq::<AsmLine>::empty());
                                    assert(seq![l3].drop_first() =~= Seq::<AsmLine>::empty());
                                    assert(seq![l4].drop_first() =~= Seq::<AsmLine>::empty());
                                    assert(m2.stack =~= m.stack.push(v1).push(v2));
                                    let after_pops = step(step(m2, l1), l2);
                                    assert(after_pops.stack =~= m.stack);
                                    assert(after_pops.rbx == v2);
                                    assert(after_pops.rax == v1);
                                },
                                Err(_) => {},
                            }
                        },
                        Err(_) => {},
                    }
                },
                ExpressionNode::Callable(_, _) => {},
            }
        },
    }
}

/// Executing the code emitted for `Exit(e)` — `e` call-free, its variable
/// references all recorded below the current depth — leaves the
/// expression's value in the syscall argument register and the stack
/// exactly as it found it.  For `Exit(Value(v))` the register holds `v`.
pub proof fn lemma_exit_semantics(
    e: ExpressionNode,
    st: GenState,
    m: Machine,
    env: Map<Seq<char>, i64>,
)
    requires
        call_free(e),
        refs_below(e, st.vars, st.sp),
        st.sp + expr_nodes(e) <= usize::MAX,
        m.stack.len() == st.sp,
        agrees_below(m, env, st.vars, st.sp),
    ensures
        gen_stmt_spec(crate::ast::StatementNode::Exit(e), st) matches Ok(st2) ==> ({
            let m2 = run(m, st2.lines.skip(st.lines.len() as int));
            &&& eval_expr(e, env) is Some
            &&& m2.rdi == eval_expr(e, env)->Some_0
            &&& m2.stack == m.stack
        }),
{
    match gen_expr_spec(e, st) {
        Err(_) => {},
        Ok(st1) => {
            lemma_gen_expr_shape(e, st);
            lemma_expr_semantics(e, st, m, env, st.sp);
            match gen_stmt_spec(crate::ast::StatementNode::Exit(e), st) {
                Ok(st2) => {
                    let added1 = st1.lines.skip(st.lines.len() as int);
                    let m1 = run(m, added1);
                    let v = eval_expr(e, env)->Some_0;
                    let l1 = AsmLine { instr: Instr::MovImm(Reg::Rax, 60), level: 1 };
                    let l2 = AsmLine { instr: Instr::Pop(Reg::Rdi), level: 1 };
                    let l3 = AsmLine { instr: Instr::Syscall, level: 1 };
                    let added = st2.lines.skip(st.lines.len() as int);
                    let tail = seq![l1] + seq![l2] + seq![l3];
                    assert(st1.lines =~= st.lines + added1);
                    assert(added =~= added1 + tail);
                    lemma_run_concat(m, added1, tail);
                    lemma_run_concat(m1, seq![l1] + seq![l2], seq![l3]);
                    lemma_run_concat(m1, seq![l1], seq![l2]);
                    assert(tail =~= (seq![l1] + seq![l2]) + seq![l3]);
                    reveal_with_fuel(run, 2);
                    assert(seq![l1].drop_first() =~= Seq::<AsmLine>::empty());
                    assert(seq![l2].drop_first() =~= Seq::<AsmLine>::empty());
                    assert(seq![l3].drop_first() =~= Seq::<AsmLine>::empty());
                    assert(m1.stack =~= m.stack.push(v));
                    assert(run(m, added).stack =~= m.stack);
                },
                Err(_) => {},
            }
        },
    }
}

/// Every recorded binding's slot already exists: the state a generator is
/// in at every statement boundary.
pub open spec fn vars_live(st: GenState) -> bool {
    forall|name: Seq<char>|
        st.vars.contains_key(name) ==> #[trigger] st.vars[name] < st.sp
}

/// Executing the code emitted for `Assign(x, e)` pushes exactly `e`'s
/// value, and the machine then agrees with the generator's records under
/// the environment extended with `x`: the slot recorded for `x` holds
/// `e`'s value, so every later reference to `x` — however many unrelated
/// pushes come in between — reads exactly that value.
pub proof fn lemma_assign_semantics(
    x: String,
    e: ExpressionNode,
    st: GenState,
    m: Machine,
    env: Map<Seq<char>, i64>,
)
    requires
        call_free(e),
        refs_below(e, st.bind(x@).vars, st.sp),
        st.sp + expr_nodes(e) <= usize::MAX,
        m.stack.len() == st.sp,
        vars_live(st),
        agrees_below(m, env, st.vars, st.sp),
    ensures
        gen_stmt_spec(crate::ast::StatementNode::Assign(x, e), st) matches Ok(st2) ==> ({
            let m2 = run(m, st2.lines.skip(st.lines.len() as int));
            let env2 = env.insert(x@, eval_expr(e, env)->Some_0);
            &&& eval_expr(e, env) is Some
            &&& m2.stack == m.stack.push(eval_expr(e, env)->Some_0)
            &&& m2.rdi == m.rdi
            &&& vars_live(st2)
            &&& agrees_below(m2, env2, st2.vars, st2.sp)
        }),
{
    let st0 = st.bind(x@);
    match gen_expr_spec(e, st0) {
        Err(_) => {},
        Ok(st2) => {
            lemma_gen_expr_shape(e, st0);
            assert(agrees_below(m, env, st0.vars, st.sp)) by {
                assert forall|name: Seq<char>|
                    st0.vars.contains_key(name) && st0.vars[name] < st.sp implies env.contains_key(
                    name,
                ) && st.sp <= m.stack.len() && m.stack[#[trigger] st0.vars[name] as int]
                    == env[name] by {
                    assert(name != x@);
                    assert(st.vars.contains_key(name) && st.vars[name] == st0.vars[name]);
                }
            }
            lemma_expr_semantics(e, st0, m, env, st.sp);
            let m2 = run(m, st2.lines.skip(st.lines.len() as int));
            let v = eval_expr(e, env)->Some_0;
            let env2 = env.insert(x@, v);
            assert(vars_live(st2)) by {
                assert forall|name: Seq<char>| st2.vars.contains_key(name) implies #[trigger] st2.vars[name]
                    < st2.sp by {
                    if name != x@ {
                        assert(st.vars.contains_key(name) && st.vars[name] == st2.vars[name]);
                    }
                }
            }
            assert(agrees_below(m2, env2, st2.vars, st2.sp)) by {
                assert forall|name: Seq<char>|
                    st2.vars.contains_key(name) && st2.vars[name] < st2.sp implies env2.contains_key(
                    name,
                ) && st2.sp <= m2.stack.len() && m2.stack[#[trigger] st2.vars[name] as int]
                    == env2[name] by {
                    assert(m2.stack =~= m.stack.push(v));
                    if name == x@ {
                        assert(st2.vars[name] == st.sp);
                        assert(m2.stack[st.sp as int] == v);
                    } else {
                        assert(st.vars.contains_key(name) && st.vars[name] == st2.vars[name]);
                        assert(st.vars[name] < st.sp);
                        assert(m2.stack[st.vars[name] as int] == m.stack[st.vars[name] as int]);
                    }
                }
            }
        },
    }
}

} // verus!
