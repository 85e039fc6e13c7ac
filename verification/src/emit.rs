//! The emitted instruction set and its rendering as line-oriented text.
//!
//! The generator records structured instructions; `render` turns a recorded
//! sequence into the final assembly text, whose exact character content is
//! pinned down by the spec functions in this module.

use vstd::prelude::*;
use vstd::string::StringExecFns;

verus! {

/// One of the two scratch registers, or the syscall argument register.
#[derive(Clone, Copy)]
pub enum Reg {
    Rax,
    Rbx,
    Rdi,
}

/// A single emitted instruction or label.
#[derive(Clone, Copy)]
pub enum Instr {
    /// `mov <reg>, <imm>`
    MovImm(Reg, i64),
    /// `mov rax, [rsp + 8*k]`: load the stack slot `k` positions below the top.
    MovStack(usize),
    /// `push <reg>`
    Push(Reg),
    /// `pop <reg>`
    Pop(Reg),
    /// `add rax, rbx`
    AddRaxRbx,
    /// `sub rax, rbx`
    SubRaxRbx,
    /// `imul rbx`
    ImulRbx,
    /// `inc rbx`
    IncRbx,
    /// `cmp rax, rbx`
    CmpRaxRbx,
    /// `loop<n>:`
    LabelLoop(usize),
    /// `exit<n>:`
    LabelExit(usize),
    /// `je exit<n>`
    JeExit(usize),
    /// `jmp loop<n>`
    JmpLoop(usize),
    /// `syscall`
    Syscall,
}

/// An emitted line: an instruction together with its indentation level
/// (one level for top-level statement code, two inside a loop body).
#[derive(Clone, Copy)]
pub struct AsmLine {
    pub instr: Instr,
    pub level: usize,
}

/// The decimal digit `d` as a one-character sequence.
pub open spec fn digit_seq(d: int) -> Seq<char> {
    if d == 0 {
        "0"@
    } else if d == 1 {
        "1"@
    } else if d == 2 {
        "2"@
    } else if d == 3 {
        "3"@
    } else if d == 4 {
        "4"@
    } else if d == 5 {
        "5"@
    } else if d == 6 {
        "6"@
    } else if d == 7 {
        "7"@
    } else if d == 8 {
        "8"@
    } else {
        "9"@
    }
}

/// The decimal rendering of a non-negative integer, most significant digit
/// first, with no leading zeros (except for zero itself).
pub open spec fn dec_seq(n: nat) -> Seq<char>
    decreases n,
{
    if n < 10 {
        digit_seq(n as int)
    } else {
        dec_seq(n / 10) + digit_seq((n % 10) as int)
    }
}

/// The decimal rendering of a signed integer.
pub open spec fn int_seq(v: int) -> Seq<char> {
    if v < 0 {
        "-"@ + dec_seq((-v) as nat)
    } else {
        dec_seq(v as nat)
    }
}

/// The textual name of a register.
pub open spec fn reg_seq(r: Reg) -> Seq<char> {
    match r {
        Reg::Rax => "rax"@,
        Reg::Rbx => "rbx"@,
        Reg::Rdi => "rdi"@,
    }
}

/// The text of one instruction, without indentation or line break.
pub open spec fn instr_seq(i: Instr) -> Seq<char> {
    match i {
        Instr::MovImm(r, v) => "mov "@ + reg_seq(r) + ", "@ + int_seq(v as int),
        Instr::MovStack(k) => "mov rax, [rsp + "@ + dec_seq(8 * k as nat) + "]"@,
        Instr::Push(r) => "push "@ + reg_seq(r),
        Instr::Pop(r) => "pop "@ + reg_seq(r),
        Instr::AddRaxRbx => "add rax, rbx"@,
        Instr::SubRaxRbx => "sub rax, rbx"@,
        Instr::ImulRbx => "imul rbx"@,
        Instr::IncRbx => "inc rbx"@,
        Instr::CmpRaxRbx => "cmp rax, rbx"@,
        Instr::LabelLoop(n) => "loop"@ + dec_seq(n as nat) + ":"@,
        Instr::LabelExit(n) => "exit"@ + dec_seq(n as nat) + ":"@,
        Instr::JeExit(n) => "je exit"@ + dec_seq(n as nat),
        Instr::JmpLoop(n) => "jmp loop"@ + dec_seq(n as nat),
        Instr::Syscall => "syscall"@,
    }
}

/// Four spaces per indentation level.
pub open spec fn indent_seq(level: nat) -> Seq<char>
    decreases level,
{
    if level == 0 {
        Seq::<char>::empty()
    } else {
        "    "@ + indent_seq((level - 1) as nat)
    }
}

/// The full text of one emitted line.
pub open spec fn line_seq(l: AsmLine) -> Seq<char> {
    indent_seq(l.level as nat) + instr_seq(l.instr) + "\n"@
}

/// The concatenated text of a sequence of emitted lines.
pub open spec fn lines_seq(ls: Seq<AsmLine>) -> Seq<char>
    decreases ls.len(),
{
    if ls.len() == 0 {
        Seq::<char>::empty()
    } else {
        line_seq(ls[0]) + lines_seq(ls.drop_first())
    }
}

/// The fixed two-line program entry prologue.
pub open spec fn prologue_seq() -> Seq<char> {
    "global _start\n_start:\n"@
}

/// The complete assembly text: the prologue followed by every emitted line.
pub open spec fn render_seq(ls: Seq<AsmLine>) -> Seq<char> {
    prologue_seq() + lines_seq(ls)
}

/// Appending a line to a sequence appends its text to the rendering.
pub proof fn lemma_lines_seq_snoc(ls: Seq<AsmLine>, l: AsmLine)
    ensures
        lines_seq(ls.push(l)) == lines_seq(ls) + line_seq(l),
    decreases ls.len(),
{
    let whole = ls.push(l);
    assert(whole.len() == ls.len() + 1);
    if ls.len() == 0 {
        assert(whole[0] == l);
        assert(whole.drop_first() =~= Seq::<AsmLine>::empty());
        assert(lines_seq(whole.drop_first()) == Seq::<char>::empty());
        assert(lines_seq(whole) == line_seq(l) + Seq::<char>::empty());
        assert(lines_seq(whole) =~= lines_seq(ls) + line_seq(l));
    } else {
        assert(whole[0] == ls[0]);
        assert(whole.drop_first() =~= ls.drop_first().push(l));
        lemma_lines_seq_snoc(ls.drop_first(), l);
        assert(lines_seq(whole) == line_seq(ls[0]) + (lines_seq(ls.drop_first()) + line_seq(l)));
        assert(lines_seq(whole) =~= (line_seq(ls[0]) + lines_seq(ls.drop_first())) + line_seq(l));
        assert(lines_seq(ls) == line_seq(ls[0]) + lines_seq(ls.drop_first()));
        assert(lines_seq(whole) == lines_seq(ls) + line_seq(l));
    }
}

/// One decimal digit, as static text.
fn digit_str(d: u128) -> (s: &'static str)
    requires
        d < 10,
    ensures
        s@ == digit_seq(d as int),
{
    if d == 0 {
        "0"
    } else if d == 1 {
        "1"
    } else if d == 2 {
        "2"
    } else if d == 3 {
        "3"
    } else if d == 4 {
        "4"
    } else if d == 5 {
        "5"
    } else if d == 6 {
        "6"
    } else if d == 7 {
        "7"
    } else if d == 8 {
        "8"
    } else {
        "9"
    }
}

/// Appends the decimal rendering of `n` to `out`.
fn push_dec(out: &mut String, n: u128)
    ensures
        final(out)@ == old(out)@ + dec_seq(n as nat),
    decreases n,
{
    if n < 10 {
        out.append(digit_str(n));
    } else {
        push_dec(out, n / 10);
        out.append(digit_str(n % 10));
        proof {
            assert(old(out)@ + dec_seq(n as nat) =~= (old(out)@ + dec_seq((n / 10) as nat))
                + digit_seq((n % 10) as int));
        }
    }
}

/// Appends the decimal rendering of a signed value to `out`.
fn push_int(out: &mut String, v: i64)
    ensures
        final(out)@ == old(out)@ + int_seq(v as int),
{
    if v < 0 {
        out.append("-");
        let magnitude: u128 = (-(v as i128)) as u128;
        push_dec(out, magnitude);
        proof {
            assert(magnitude as nat == (-(v as int)) as nat);
            assert(old(out)@ + int_seq(v as int) =~= (old(out)@ + "-"@) + dec_seq(
                magnitude as nat,
            ));
        }
    } else {
        push_dec(out, v as u128);
    }
}

/// Appends the name of a register to `out`.
fn push_reg(out: &mut String, r: Reg)
    ensures
        final(out)@ == old(out)@ + reg_seq(r),
{
    match r {
        Reg::Rax => out.append("rax"),
        Reg::Rbx => out.append("rbx"),
        Reg::Rdi => out.append("rdi"),
    }
}

/// Appends `level` levels of four-space indentation to `out`.
fn indent(out: &mut String, level: usize)
    ensures
        final(out)@ == old(out)@ + indent_seq(level as nat),
    decreases level,
{
    if level == 0 {
        proof {
            assert(old(out)@ + indent_seq(0) =~= old(out)@);
        }
    } else {
        out.append("    ");
        indent(out, level - 1);
        proof {
            assert(old(out)@ + indent_seq(level as nat) =~= (old(out)@ + "    "@) + indent_seq(
                (level - 1) as nat,
            ));
        }
    }
}

/// Appends the text of one instruction to `out`.
fn push_instr(out: &mut String, i: Instr)
    ensures
        final(out)@ == old(out)@ + instr_seq(i),
{
    match i {
        Instr::MovImm(r, v) => {
            out.append("mov ");
            push_reg(out, r);
            out.append(", ");
            push_int(out, v);
            proof {
                assert(old(out)@ + instr_seq(i) =~= (((old(out)@ + "mov "@) + reg_seq(r)) + ", "@)
                    + int_seq(v as int));
            }
        },
        Instr::MovStack(k) => {
            out.append("mov rax, [rsp + ");
            let bytes: u128 = 8 * (k as u128);
            push_dec(out, bytes);
            out.append("]");
            proof {
                assert(bytes as nat == 8 * k as nat);
                assert(old(out)@ + instr_seq(i) =~= ((old(out)@ + "mov rax, [rsp + "@) + dec_seq(
                    8 * k as nat,
                )) + "]"@);
            }
        },
        Instr::Push(r) => {
            out.append("push ");
            push_reg(out, r);
        },
        Instr::Pop(r) => {
            out.append("pop ");
            push_reg(out, r);
        },
        Instr::AddRaxRbx => out.append("add rax, rbx"),
        Instr::SubRaxRbx => out.append("sub rax, rbx"),
        Instr::ImulRbx => out.append("imul rbx"),
        Instr::IncRbx => out.append("inc rbx"),
        Instr::CmpRaxRbx => out.append("cmp rax, rbx"),
        Instr::LabelLoop(n) => {
            out.append("loop");
            push_dec(out, n as u128);
            out.append(":");
            proof {
                assert(old(out)@ + instr_seq(i) =~= ((old(out)@ + "loop"@) + dec_seq(n as nat))
                    + ":"@);
            }
        },
        Instr::LabelExit(n) => {
            out.append("exit");
            push_dec(out, n as u128);
            out.append(":");
            proof {
                assert(old(out)@ + instr_seq(i) =~= ((old(out)@ + "exit"@) + dec_seq(n as nat))
                    + ":"@);
            }
        },
        Instr::JeExit(n) => {
            out.append("je exit");
            push_dec(out, n as u128);
            proof {
                assert(old(out)@ + instr_seq(i) =~= (old(out)@ + "je exit"@) + dec_seq(n as nat));
            }
        },
        Instr::JmpLoop(n) => {
            out.append("jmp loop");
            push_dec(out, n as u128);
            proof {
                assert(old(out)@ + instr_seq(i) =~= (old(out)@ + "jmp loop"@) + dec_seq(n as nat));
            }
        },
        Instr::Syscall => out.append("syscall"),
    }
}

/// Appends the full text of one emitted line to `out`.
fn push_line(out: &mut String, l: AsmLine)
    ensures
        final(out)@ == old(out)@ + line_seq(l),
{
    indent(out, l.level);
    push_instr(out, l.instr);
    out.append("\n");
    proof {
        assert(old(out)@ + line_seq(l) =~= ((old(out)@ + indent_seq(l.level as nat)) + instr_seq(
            l.instr,
        )) + "\n"@);
    }
}

/// Renders a recorded instruction sequence as the final assembly text:
/// the fixed prologue followed by one line per instruction.
pub fn render(lines: &Vec<AsmLine>) -> (out: String)
    ensures
        out@ == render_seq(lines@),
{
    let mut out = String::new();
    out.append("global _start\n_start:\n");
    proof {
        assert(out@ =~= prologue_seq() + lines_seq(lines@.take(0)));
    }
    let mut i: usize = 0;
    while i < lines.len()
        invariant
            i <= lines@.len(),
            out@ == prologue_seq() + lines_seq(lines@.take(i as int)),
        decreases lines@.len() - i,
    {
        let l = lines[i];
        push_line(&mut out, l);
        proof {
            lemma_lines_seq_snoc(lines@.take(i as int), l);
            assert(lines@.take(i + 1 as int) =~= lines@.take(i as int).push(l));
            assert(prologue_seq() + lines_seq(lines@.take(i + 1 as int)) =~= (prologue_seq()
                + lines_seq(lines@.take(i as int))) + line_seq(l));
        }
        i = i + 1;
    }
    proof {
        assert(lines@.take(lines@.len() as int) =~= lines@);
        assert(prologue_seq() + Seq::<char>::empty() =~= prologue_seq());
    }
    out
}

} // verus!
