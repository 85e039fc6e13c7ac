//! The code generator: walks the statement sequence once, top to bottom,
//! lowering every expression by recursive descent onto the evaluation
//! stack, and returns the rendered assembly text.
//!
//! Every method is proved equal to its spec-level counterpart in
//! [`crate::model`], so the emitted text is a function of the input program
//! alone.

use vstd::prelude::*;
use vstd::string::StringExecFns;

use crate::ast::{ErrKind, ExpressionNode, GenError, StatementNode};
use crate::emit::{render, render_seq, AsmLine, Instr, Reg};
use crate::model::{gen_expr_spec, gen_stmt_spec, gen_stmts_spec, range_spec, GenState};

verus! {

/// The bindings recorded so far, later entries shadowing earlier ones.
pub open spec fn vars_view(entries: Seq<(String, usize)>) -> Map<Seq<char>, nat>
    decreases entries.len(),
{
    if entries.len() == 0 {
        Map::empty()
    } else {
        vars_view(entries.drop_last()).insert(
            entries.last().0@,
            entries.last().1 as nat,
        )
    }
}

/// Recording one more binding updates the map at that name alone.
proof fn lemma_vars_view_snoc(entries: Seq<(String, usize)>, e: (String, usize))
    ensures
        vars_view(entries.push(e)) == vars_view(entries).insert(e.0@, e.1 as nat),
{
    assert(entries.push(e).drop_last() =~= entries);
    assert(entries.push(e).last() == e);
}

/// The code generator.  It owns the emitted instructions, the logical
/// stack-depth counter, the loop label counter, and the variable bindings.
pub struct Generator {
    lines: Vec<AsmLine>,
    stack_pointer: usize,
    loops: usize,
    variables: Vec<(String, usize)>,
}

impl View for Generator {
    type V = GenState;

    closed spec fn view(&self) -> GenState {
        GenState {
            lines: self.lines@,
            sp: self.stack_pointer as nat,
            loops: self.loops as nat,
            vars: vars_view(self.variables@),
        }
    }
}

impl Generator {
    /// The counters never outrun the number of emitted lines: every push
    /// and every loop construct leaves at least one line behind.  This is
    /// what keeps the counter arithmetic below machine limits.
    pub closed spec fn wf(self) -> bool {
        self.stack_pointer <= self.lines@.len() && self.loops <= self.lines@.len()
    }

    /// A fresh generator: nothing emitted, empty stack, no labels minted,
    /// no bindings.
    pub fn new() -> (g: Generator)
        ensures
            g.wf(),
            g@ == GenState::initial(),
    {
        let g = Generator {
            lines: Vec::new(),
            stack_pointer: 0,
            loops: 0,
            variables: Vec::new(),
        };
        proof {
            assert(g@ =~= GenState::initial());
        }
        g
    }

    /// Emits a push of `register` and deepens the stack counter in the
    /// same breath.
    fn push(&mut self, register: Reg, level: usize)
        requires
            old(self).wf(),
        ensures
            final(self).wf(),
            final(self)@ == old(self)@.emit_push(register, level),
    {
        self.lines.push(AsmLine { instr: Instr::Push(register), level });
        proof {
            vstd::std_specs::vec::axiom_spec_len(&self.lines);
        }
        self.stack_pointer = self.stack_pointer + 1;
    }

    /// Emits a pop into `register` and shrinks the stack counter in the
    /// same breath.  The stack is proved never to underflow, so the
    /// counter cannot go negative.
    fn pop(&mut self, register: Reg, level: usize)
        requires
            old(self).wf(),
            old(self)@.sp >= 1,
        ensures
            final(self).wf(),
            final(self)@ == old(self)@.emit_pop(register, level),
    {
        self.lines.push(AsmLine { instr: Instr::Pop(register), level });
        self.stack_pointer = self.stack_pointer - 1;
    }

    /// Emits one instruction that touches neither counter.
    fn generic(&mut self, instr: Instr, level: usize)
        requires
            old(self).wf(),
        ensures
            final(self).wf(),
            final(self)@ == old(self)@.emit(instr, level),
    {
        self.lines.push(AsmLine { instr, level });
    }

    /// Records `name` at the current stack depth, shadowing any earlier
    /// binding of the same name.
    fn bind(&mut self, name: &String)
        requires
            old(self).wf(),
        ensures
            final(self).wf(),
            final(self)@ == old(self)@.bind(name@),
    {
        let depth = self.stack_pointer;
        let entry = (name.clone(), depth);
        proof {
            lemma_vars_view_snoc(self.variables@, entry);
        }
        self.variables.push(entry);
    }

    /// Looks `name` up among the recorded bindings; the latest binding
    /// wins, exactly as in the binding map.
    fn lookup(&self, name: &String) -> (result: Option<usize>)
        ensures
            match result {
                Some(d) => self@.vars.contains_key(name@) && self@.vars[name@] == d as nat,
                None => !self@.vars.contains_key(name@),
            },
    {
        let mut found: Option<usize> = None;
        let mut i: usize = 0;
        proof {
            assert(self.variables@.take(0) =~= Seq::<(String, usize)>::empty());
        }
        while i < self.variables.len()
            invariant
                i <= self.variables@.len(),
                match found {
                    Some(d) => vars_view(self.variables@.take(i as int)).contains_key(name@)
                        && vars_view(self.variables@.take(i as int))[name@] == d as nat,
                    None => !vars_view(self.variables@.take(i as int)).contains_key(name@),
                },
            decreases self.variables@.len() - i,
        {
            let entry = &self.variables[i];
            if entry.0 == *name {
                found = Some(entry.1);
            }
            proof {
                assert(self.variables@.take(i + 1 as int) =~= self.variables@.take(
                    i as int,
                ).push(self.variables@[i as int]));
                lemma_vars_view_snoc(self.variables@.take(i as int), self.variables@[i as int]);
            }
            i = i + 1;
        }
        proof {
            assert(self.variables@.take(self.variables@.len() as int) =~= self.variables@);
        }
        found
    }

    /// Reports that lowering `print` is deliberately unimplemented.
    fn parse_print(&mut self) -> (result: Result<(), GenError>)
        ensures
            *final(self) == *old(self),
            result matches Err(e) && e@ == ErrKind::NotImplemented,
    {
        Err(GenError::NotImplemented)
    }

    /// Lowers a `range` call whose bound is already on the stack into a
    /// uniquely labelled counting loop, per [`range_spec`].  The label
    /// counter is incremented here and nowhere else, so each loop
    /// construct consumes exactly one label index.
    fn parse_range(&mut self)
        requires
            old(self).wf(),
            old(self)@.sp >= 1,
        ensures
            final(self).wf(),
            final(self)@ == range_spec(old(self)@),
    {
        self.pop(Reg::Rax, 1);
        self.generic(Instr::MovImm(Reg::Rbx, 0), 1);
        self.generic(Instr::LabelLoop(self.loops), 0);
        self.push(Reg::Rbx, 2);
        self.generic(Instr::IncRbx, 2);
        self.generic(Instr::CmpRaxRbx, 2);
        self.generic(Instr::JeExit(self.loops), 2);
        self.generic(Instr::JmpLoop(self.loops), 2);
        self.generic(Instr::LabelExit(self.loops), 0);
        proof {
            vstd::std_specs::vec::axiom_spec_len(&self.lines);
        }
        self.loops = self.loops + 1;
    }

    /// Lowers one expression.  On success the lowered code for `expr` has
    /// been appended and the stack holds one more value: the expression's
    /// result.  On failure the error names the offending construct and the
    /// pass is abandoned.
    fn generate_expr(&mut self, expr: &ExpressionNode) -> (result: Result<(), GenError>)
        requires
            old(self).wf(),
        ensures
            final(self).wf(),
            (match result {
                Ok(_) => gen_expr_spec(*expr, old(self)@) == Ok::<GenState, ErrKind>(
                    final(self)@,
                ),
                Err(e) => gen_expr_spec(*expr, old(self)@) == Err::<GenState, ErrKind>(e@),
            }),
        decreases *expr,
    {
        match expr {
            ExpressionNode::Value(value) => {
                self.generic(Instr::MovImm(Reg::Rax, *value), 1);
                self.push(Reg::Rax, 1);
                Ok(())
            },
            ExpressionNode::Var(name) => {
                // A binding recorded for the statement being lowered has no
                // slot on the stack yet; referencing it is reported as an
                // undeclared variable rather than addressing a slot that
                // does not exist.
                match self.lookup(name) {
                    Some(d) => {
                        if d < self.stack_pointer {
                            let k = self.stack_pointer - d - 1;
                            self.generic(Instr::MovStack(k), 1);
                            self.push(Reg::Rax, 1);
                            Ok(())
                        } else {
                            Err(GenError::UndeclaredVariable(name.clone()))
                        }
                    },
                    None => Err(GenError::UndeclaredVariable(name.clone())),
                }
            },
            ExpressionNode::Infix(e1, op, e2) => {
                match self.generate_expr(&**e1) {
                    Err(e) => return Err(e),
                    Ok(_) => {},
                }
                match self.generate_expr(&**e2) {
                    Err(e) => return Err(e),
                    Ok(_) => {},
                }
                proof {
                    crate::model::lemma_gen_expr_shape(**e1, old(self)@);
                    match gen_expr_spec(**e1, old(self)@) {
                        Ok(st1) => {
                            crate::model::lemma_gen_expr_shape(**e2, st1);
                        },
                        Err(_) => {},
                    }
                }
                self.pop(Reg::Rbx, 1);
                self.pop(Reg::Rax, 1);
                if *op == "+".to_owned() {
                    self.generic(Instr::AddRaxRbx, 1);
                    self.push(Reg::Rax, 1);
                    Ok(())
                } else if *op == "-".to_owned() {
                    self.generic(Instr::SubRaxRbx, 1);
                    self.push(Reg::Rax, 1);
                    Ok(())
                } else if *op == "*".to_owned() {
                    self.generic(Instr::ImulRbx, 1);
                    self.push(Reg::Rax, 1);
                    Ok(())
                } else {
                    Err(GenError::UnsupportedOperator(op.clone()))
                }
            },
            ExpressionNode::Callable(name, arg) => {
                match self.generate_expr(&**arg) {
                    Err(e) => return Err(e),
                    Ok(_) => {},
                }
                if *name == "print".to_owned() {
                    self.parse_print()
                } else if *name == "range".to_owned() {
                    proof {
                        crate::model::lemma_gen_expr_shape(**arg, old(self)@);
                    }
                    self.parse_range();
                    Ok(())
                } else {
                    Err(GenError::UndeclaredFunction(name.clone()))
                }
            },
        }
    }

    /// Lowers one statement.
    fn generate_stmt(&mut self, stmt: &StatementNode) -> (result: Result<(), GenError>)
        requires
            old(self).wf(),
        ensures
            final(self).wf(),
            (match result {
                Ok(_) => gen_stmt_spec(*stmt, old(self)@) == Ok::<GenState, ErrKind>(
                    final(self)@,
                ),
                Err(e) => gen_stmt_spec(*stmt, old(self)@) == Err::<GenState, ErrKind>(e@),
            }),
    {
        match stmt {
            StatementNode::Exit(expr) => {
                match self.generate_expr(expr) {
                    Err(e) => return Err(e),
                    Ok(_) => {},
                }
                proof {
                    crate::model::lemma_gen_expr_shape(*expr, old(self)@);
                }
                self.generic(Instr::MovImm(Reg::Rax, 60), 1);
                self.pop(Reg::Rdi, 1);
                self.generic(Instr::Syscall, 1);
                Ok(())
            },
            StatementNode::Assign(name, expr) => {
                // The binding depth is recorded before the right-hand side
                // is lowered; the expression's single net push then lands
                // exactly in the recorded slot.
                self.bind(name);
                self.generate_expr(expr)
            },
            StatementNode::For(name, expr) => {
                // The loop variable is recorded at the depth its per-
                // iteration slot will occupy; the label counter is bumped
                // once, inside the range lowering itself.
                self.bind(name);
                self.generate_expr(expr)
            },
            StatementNode::EndFor => Err(GenError::NotImplemented),
        }
    }

    /// Lowers a whole program, first statement first, and returns the
    /// assembly text: the fixed prologue followed by every emitted
    /// instruction.  The result — success and its exact text, or the exact
    /// error — is a function of the program and the generator's prior
    /// state alone, so compiling the same program twice from fresh
    /// generators yields byte-identical output.
    pub fn generate(&mut self, program: Vec<StatementNode>) -> (result: Result<String, GenError>)
        requires
            old(self).wf(),
        ensures
            final(self).wf(),
            (match result {
                Ok(text) => gen_stmts_spec(program@, old(self)@) matches Ok(st)
                    && final(self)@ == st && text@ == render_seq(st.lines),
                Err(e) => gen_stmts_spec(program@, old(self)@) == Err::<GenState, ErrKind>(e@),
            }),
    {
        let mut i: usize = 0;
        proof {
            assert(program@.skip(0) =~= program@);
        }
        while i < program.len()
            invariant
                self.wf(),
                i <= program@.len(),
                gen_stmts_spec(program@, old(self)@) == gen_stmts_spec(
                    program@.skip(i as int),
                    self@,
                ),
            decreases program@.len() - i,
        {
            let ghost pre = self@;
            let ghost rest = program@.skip(i as int);
            let stmt = &program[i];
            proof {
                assert(rest.len() > 0);
                assert(rest[0] == program@[i as int]);
                assert(rest.drop_first() =~= program@.skip(i + 1 as int));
            }
            match self.generate_stmt(stmt) {
                Ok(_) => {},
                Err(e) => {
                    proof {
                        assert(gen_stmts_spec(rest, pre) == Err::<GenState, ErrKind>(e@));
                    }
                    return Err(e);
                },
            }
            i = i + 1;
        }
        proof {
            assert(program@.skip(program@.len() as int) =~= Seq::<StatementNode>::empty());
        }
        let text = render(&self.lines);
        Ok(text)
    }
}

} // verus!
