//! The mathematical model of generation: a ghost generator state and the
//! spec-level lowering functions that every executable method is proved
//! equal to.

use vstd::prelude::*;

use crate::ast::{ErrKind, ExpressionNode, StatementNode};
use crate::emit::{AsmLine, Instr, Reg};

verus! {

/// The generator state, seen mathematically.
pub ghost struct GenState {
    /// Every instruction emitted so far, in order, prologue excluded.
    pub lines: Seq<AsmLine>,
    /// The number of stack slots currently pushed.
    pub sp: nat,
    /// The next loop label index to mint.
    pub loops: nat,
    /// Each bound variable name, mapped to the stack depth recorded at its
    /// binding.
    pub vars: Map<Seq<char>, nat>,
}

impl GenState {
    /// The state of a freshly created generator.
    pub open spec fn initial() -> GenState {
        GenState { lines: Seq::empty(), sp: 0, loops: 0, vars: Map::empty() }
    }

    /// Emits one instruction; the stack depth is untouched.
    pub open spec fn emit(self, instr: Instr, level: usize) -> GenState {
        GenState { lines: self.lines.push(AsmLine { instr, level }), ..self }
    }

    /// Emits a push of `r`; the stack deepens by one slot.
    pub open spec fn emit_push(self, r: Reg, level: usize) -> GenState {
        GenState {
            lines: self.lines.push(AsmLine { instr: Instr::Push(r), level }),
            sp: self.sp + 1,
            ..self
        }
    }

    /// Emits a pop into `r`; the stack loses one slot.
    pub open spec fn emit_pop(self, r: Reg, level: usize) -> GenState {
        GenState {
            lines: self.lines.push(AsmLine { instr: Instr::Pop(r), level }),
            sp: (self.sp - 1) as nat,
            ..self
        }
    }

    /// Records `name` at the current stack depth, replacing any prior
    /// binding of the same name.
    pub open spec fn bind(self, name: Seq<char>) -> GenState {
        GenState { vars: self.vars.insert(name, self.sp), ..self }
    }
}

/// The loop scaffolding emitted for a `range` call whose bound has already
/// been lowered onto the stack: the bound is popped into the first scratch
/// register, the induction register starts at zero, and one uniquely
/// labelled compare-and-jump loop is laid down.  Label lines are bare —
/// indentation level zero — as the output contract asks; the loop body sits
/// one level deeper than statement code.  The label counter is incremented
/// here, and only here, exactly once per loop construct.
pub open spec fn range_spec(st: GenState) -> GenState {
    let n = st.loops;
    let st1 = st.emit_pop(Reg::Rax, 1)
        .emit(Instr::MovImm(Reg::Rbx, 0), 1)
        .emit(Instr::LabelLoop((n as usize)), 0)
        .emit_push(Reg::Rbx, 2)
        .emit(Instr::IncRbx, 2)
        .emit(Instr::CmpRaxRbx, 2)
        .emit(Instr::JeExit((n as usize)), 2)
        .emit(Instr::JmpLoop((n as usize)), 2)
        .emit(Instr::LabelExit((n as usize)), 0);
    GenState { loops: st1.loops + 1, ..st1 }
}

/// Lowers one expression: on success the returned state has the lowered
/// code appended and exactly one more value on the stack, holding the
/// expression's result.
pub open spec fn gen_expr_spec(e: ExpressionNode, st: GenState) -> Result<GenState, ErrKind>
    decreases e,
{
    match e {
        ExpressionNode::Value(v) => Ok(
            st.emit(Instr::MovImm(Reg::Rax, v), 1).emit_push(Reg::Rax, 1),
        ),
        ExpressionNode::Var(name) => {
            if st.vars.contains_key(name@) && st.vars[name@] < st.sp {
                let d = st.vars[name@];
                Ok(
                    st.emit(Instr::MovStack(((st.sp - d - 1) as usize)), 1).emit_push(Reg::Rax, 1),
                )
            } else {
                Err(ErrKind::UndeclaredVariable(name@))
            }
        },
        ExpressionNode::Infix(e1, op, e2) => {
            match gen_expr_spec(*e1, st) {
                Err(k) => Err(k),
                Ok(st1) => match gen_expr_spec(*e2, st1) {
                    Err(k) => Err(k),
                    Ok(st2) => {
                        let st3 = st2.emit_pop(Reg::Rbx, 1).emit_pop(Reg::Rax, 1);
                        if op@ == "+"@ {
                            Ok(st3.emit(Instr::AddRaxRbx, 1).emit_push(Reg::Rax, 1))
                        } else if op@ == "-"@ {
                            Ok(st3.emit(Instr::SubRaxRbx, 1).emit_push(Reg::Rax, 1))
                        } else if op@ == "*"@ {
                            Ok(st3.emit(Instr::ImulRbx, 1).emit_push(Reg::Rax, 1))
                        } else {
                            Err(ErrKind::UnsupportedOperator(op@))
                        }
                    },
                },
            }
        },
        ExpressionNode::Callable(name, arg) => {
            match gen_expr_spec(*arg, st) {
                Err(k) => Err(k),
                Ok(st1) => {
                    if name@ == "print"@ {
                        Err(ErrKind::NotImplemented)
                    } else if name@ == "range"@ {
                        Ok(range_spec(st1))
                    } else {
                        Err(ErrKind::UndeclaredFunction(name@))
                    }
                },
            }
        },
    }
}

/// Lowers one statement.
pub open spec fn gen_stmt_spec(s: StatementNode, st: GenState) -> Result<GenState, ErrKind> {
    match s {
        StatementNode::Exit(e) => {
            match gen_expr_spec(e, st) {
                Err(k) => Err(k),
                Ok(st1) => Ok(
                    st1.emit(Instr::MovImm(Reg::Rax, 60), 1).emit_pop(Reg::Rdi, 1).emit(
                        Instr::Syscall,
                        1,
                    ),
                ),
            }
        },
        StatementNode::Assign(name, e) => gen_expr_spec(e, st.bind(name@)),
        StatementNode::For(name, e) => gen_expr_spec(e, st.bind(name@)),
        StatementNode::EndFor => Err(ErrKind::NotImplemented),
    }
}

/// Lowers a statement sequence, first statement first, stopping at the
/// first failure.
pub open spec fn gen_stmts_spec(prog: Seq<StatementNode>, st: GenState) -> Result<
    GenState,
    ErrKind,
>
    decreases prog.len(),
{
    if prog.len() == 0 {
        Ok(st)
    } else {
        match gen_stmt_spec(prog[0], st) {
            Err(k) => Err(k),
            Ok(st1) => gen_stmts_spec(prog.drop_first(), st1),
        }
    }
}

/// A successful expression lowering appends code after what was already
/// emitted, raises the stack depth by exactly one, never forgets a
/// binding, and never rewinds the label counter.
pub proof fn lemma_gen_expr_shape(e: ExpressionNode, st: GenState)
    ensures
        gen_expr_spec(e, st) matches Ok(st2) ==> st2.sp == st.sp + 1 && st2.vars == st.vars
            && st2.loops >= st.loops && st2.lines.len() >= st.lines.len()
            && st2.lines.take(st.lines.len() as int) == st.lines,
    decreases e,
{
    match e {
        ExpressionNode::Value(_) => {
            match gen_expr_spec(e, st) {
                Ok(st2) => {
                    assert(st2.lines.take(st.lines.len() as int) =~= st.lines);
                },
                Err(_) => {},
            }
        },
        ExpressionNode::Var(_) => {
            match gen_expr_spec(e, st) {
                Ok(st2) => {
                    assert(st2.lines.take(st.lines.len() as int) =~= st.lines);
                },
                Err(_) => {},
            }
        },
        ExpressionNode::Infix(e1, _, e2) => {
            lemma_gen_expr_shape(*e1, st);
            match gen_expr_spec(*e1, st) {
                Ok(st1) => {
                    lemma_gen_expr_shape(*e2, st1);
                    match gen_expr_spec(*e2, st1) {
                        Ok(stb) => {
                            match gen_expr_spec(e, st) {
                                Ok(st2) => {
                                    assert(st2.lines.take(st.lines.len() as int) =~= st.lines);
                                },
                                Err(_) => {},
                            }
                        },
                        Err(_) => {},
                    }
                },
                Err(_) => {},
            }
        },
        ExpressionNode::Callable(_, arg) => {
            lemma_gen_expr_shape(*arg, st);
            match gen_expr_spec(*arg, st) {
                Ok(st1) => {
                    match gen_expr_spec(e, st) {
                        Ok(st2) => {
                            assert(st2.lines.take(st.lines.len() as int) =~= st.lines);
                        },
                        Err(_) => {},
                    }
                },
                Err(_) => {},
            }
        },
    }
}

} // verus!
