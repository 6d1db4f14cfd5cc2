//! What assembly text does: the meaning of its lines on the registers of RV32IM.
//!
//! A routine here is a leaf. It touches no memory, calls nothing and never writes `ra` or `sp`:
//! a line that would do so has no meaning, and a run that reaches one does not return.

use vstd::arithmetic::power2::pow2;
use vstd::prelude::*;

use crate::rv::enc::{
    label_at, ret_asm, signed, text_len, unique_labels, AluOp, Asm, ImmOp, MulOp, ShiftOp, A0, RA,
    SP, ZERO,
};

verus! {

/// The contents of the registers.
pub type Regs = Map<u8, u32>;

/// What a register holds; `zero` always holds 0.
#[verifier::opaque]
pub open spec fn get(s: Regs, r: u8) -> u32 {
    if r == 0 {
        0
    } else {
        s[r]
    }
}

/// Writes a register.
#[verifier::opaque]
pub open spec fn wrote(s: Regs, r: u8, v: u32) -> Regs {
    if r == 0 {
        s
    } else {
        s.insert(r, v)
    }
}

/// The word of a number in `-2^31..2^32`.
pub open spec fn word(n: int) -> u32 {
    if n < 0 {
        (n + 0x1_0000_0000) as u32
    } else {
        n as u32
    }
}

pub open spec fn flag(b: bool) -> u32 {
    if b {
        1
    } else {
        0
    }
}

/// The sum, modulo 2^32.
pub open spec fn sum(x: u32, y: u32) -> u32 {
    if x + y < 0x1_0000_0000 {
        (x + y) as u32
    } else {
        (x + y - 0x1_0000_0000) as u32
    }
}

/// The difference, modulo 2^32.
pub open spec fn difference(x: u32, y: u32) -> u32 {
    if x >= y {
        (x - y) as u32
    } else {
        (x - y + 0x1_0000_0000) as u32
    }
}

pub open spec fn alu(op: AluOp, x: u32, y: u32) -> u32 {
    match op {
        AluOp::Add => sum(x, y),
        AluOp::Sub => difference(x, y),
        AluOp::Sll => x << (y & 31),
        AluOp::Slt => flag(signed(x) < signed(y)),
        AluOp::Sltu => flag(x < y),
        AluOp::Xor => x ^ y,
        AluOp::Srl => x >> (y & 31),
        AluOp::Sra => word(signed(x) / (pow2((y & 31) as nat) as int)),
        AluOp::Or => x | y,
        AluOp::And => x & y,
    }
}

/// Division rounds toward zero. The quotient by zero has all bits set, and the remainder by zero
/// is the dividend; the one quotient that overflows wraps.
pub open spec fn muldiv(op: MulOp, x: u32, y: u32) -> u32 {
    match op {
        MulOp::Mul => ((x * y) % 0x1_0000_0000) as u32,
        MulOp::Mulh => word(signed(x) * signed(y) / 0x1_0000_0000),
        MulOp::Mulhsu => word(signed(x) * y / 0x1_0000_0000),
        MulOp::Mulhu => ((x * y) / 0x1_0000_0000) as u32,
        MulOp::Div => if y == 0 {
            0xFFFF_FFFF
        } else {
            word(quotient(signed(x), signed(y)))
        },
        MulOp::Divu => if y == 0 {
            0xFFFF_FFFF
        } else {
            x / y
        },
        MulOp::Rem => if y == 0 {
            x
        } else {
            word(signed(x) - quotient(signed(x), signed(y)) * signed(y))
        },
        MulOp::Remu => if y == 0 {
            x
        } else {
            x % y
        },
    }
}

/// The quotient of two integers, rounded toward zero.
pub open spec fn quotient(x: int, y: int) -> int {
    if x >= 0 && y > 0 {
        x / y
    } else if x < 0 && y > 0 {
        -((-x) / y)
    } else if x >= 0 {
        -(x / (-y))
    } else {
        (-x) / (-y)
    }
}

pub open spec fn imm_op(op: ImmOp, x: u32, y: u32) -> u32 {
    match op {
        ImmOp::Addi => sum(x, y),
        ImmOp::Slti => flag(signed(x) < signed(y)),
        ImmOp::Sltiu => flag(x < y),
        ImmOp::Xori => x ^ y,
        ImmOp::Ori => x | y,
        ImmOp::Andi => x & y,
    }
}

pub open spec fn shift(op: ShiftOp, x: u32, n: u32) -> u32 {
    match op {
        ShiftOp::Slli => x << n,
        ShiftOp::Srli => x >> n,
        ShiftOp::Srai => word(signed(x) / (pow2(n as nat) as int)),
    }
}

/// The registers after a line that only computes.
pub open spec fn exec_line(a: Asm, s: Regs) -> Regs {
    match a {
        Asm::Alu(op, rd, rs1, rs2) => wrote(s, rd, alu(op, get(s, rs1), get(s, rs2))),
        Asm::Mul(op, rd, rs1, rs2) => wrote(s, rd, muldiv(op, get(s, rs1), get(s, rs2))),
        Asm::Imm(op, rd, rs1, imm) => wrote(s, rd, imm_op(op, get(s, rs1), word(imm))),
        Asm::Shift(op, rd, rs1, n) => wrote(s, rd, shift(op, get(s, rs1), n)),
        Asm::Lui(rd, imm20) => wrote(s, rd, imm20 << 12),
        Asm::Li(rd, imm) => wrote(s, rd, word(imm)),
        _ => s,
    }
}

/// The register that a line which only computes writes.
pub open spec fn dest_of(a: Asm) -> Option<u8> {
    match a {
        Asm::Label(_) => Some(ZERO),
        Asm::Alu(_, rd, _, _) => Some(rd),
        Asm::Mul(_, rd, _, _) => Some(rd),
        Asm::Imm(_, rd, _, _) => Some(rd),
        Asm::Shift(_, rd, _, _) => Some(rd),
        Asm::Lui(rd, _) => Some(rd),
        Asm::Li(rd, _) => Some(rd),
        _ => None,
    }
}

/// Whether a line only computes, and keeps `ra` and `sp`.
pub open spec fn computes(a: Asm) -> bool {
    dest_of(a) is Some && dest_of(a) != Some(RA) && dest_of(a) != Some(SP)
}

/// The registers after the lines from `from` up to `to`, which only compute.
pub open spec fn exec_range(lines: Seq<Asm>, from: int, to: int, s: Regs) -> Regs
    decreases to - from,
{
    if to <= from {
        s
    } else {
        exec_line(lines[to - 1], exec_range(lines, from, to - 1, s))
    }
}

/// Whether the lines from `from` up to `to` only compute, and keep `ra` and `sp`.
pub open spec fn range_computes(lines: Seq<Asm>, from: int, to: int) -> bool
    decreases to - from,
{
    to <= from || (range_computes(lines, from, to - 1) && computes(lines[to - 1]))
}

/// The line that defines a label; the last one that does.
pub open spec fn line_of(text: Seq<Asm>, name: Seq<char>) -> Option<int>
    decreases text.len(),
{
    if text.len() == 0 {
        None
    } else if text.last() == Asm::Label(name) {
        Some(text.len() - 1)
    } else {
        line_of(text.drop_last(), name)
    }
}

/// Where control goes from a line of a leaf, and with which registers.
pub open spec fn step(text: Seq<Asm>, i: int, s: Regs) -> Option<(int, Regs)> {
    if i < 0 || i >= text.len() {
        None
    } else if computes(text[i]) {
        Some((i + 1, exec_line(text[i], s)))
    } else {
        match text[i] {
            Asm::Jal(rd, l) => match line_of(text, l) {
                Some(t) => if rd == ZERO {
                    Some((t, s))
                } else {
                    None
                },
                None => None,
            },
            Asm::Branch(c, x, y, l) => match line_of(text, l) {
                Some(t) => if c.holds(get(s, x), get(s, y)) {
                    Some((t, s))
                } else {
                    Some((i + 1, s))
                },
                None => None,
            },
            _ => None,
        }
    }
}

/// Where control is after `n` lines.
pub open spec fn run(text: Seq<Asm>, i: int, s: Regs, n: nat) -> Option<(int, Regs)>
    decreases n,
{
    if n == 0 {
        Some((i, s))
    } else {
        match step(text, i, s) {
            Some((j, t)) => run(text, j, t, (n - 1) as nat),
            None => None,
        }
    }
}

/// Whether control goes from line `i` with registers `s` to line `j` with registers `t`.
#[verifier::opaque]
pub open spec fn reaches(text: Seq<Asm>, i: int, s: Regs, j: int, t: Regs) -> bool {
    exists|n: nat| run(text, i, s, n) == Some((j, t))
}

/// Whether control that enters at line `i` with registers `s` returns with `v` in `a0`.
#[verifier::opaque]
pub open spec fn gives(text: Seq<Asm>, i: int, s: Regs, v: u32) -> bool {
    exists|j: int, t: Regs|
        #![trigger reaches(text, i, s, j, t)]
        0 <= j < text.len() && text[j] == ret_asm() && get(t, A0) == v && reaches(text, i, s, j, t)
}

/// Whether the lines stand in the text from line `i` on.
#[verifier::opaque]
pub open spec fn stands(text: Seq<Asm>, i: int, lines: Seq<Asm>) -> bool {
    &&& 0 <= i
    &&& i + lines.len() <= text.len()
    &&& forall|j: int| 0 <= j < lines.len() ==> text[i + j] == #[trigger] lines[j]
}

pub broadcast proof fn lemma_get_wrote(s: Regs, r: u8, v: u32, q: u8)
    ensures
        #[trigger] get(wrote(s, r, v), q) == if q == r && r != 0 {
            v
        } else {
            get(s, q)
        },
{
    reveal(get);
    reveal(wrote);
}

pub broadcast proof fn lemma_get_zero(s: Regs)
    ensures
        #[trigger] get(s, 0) == 0,
{
    reveal(get);
}

pub broadcast proof fn lemma_stands_within(text: Seq<Asm>, i: int, lines: Seq<Asm>)
    requires
        #[trigger] stands(text, i, lines),
    ensures
        0 <= i,
        i + lines.len() <= text.len(),
{
    reveal(stands);
}

pub broadcast group group_machine {
    lemma_get_wrote,
    lemma_get_zero,
    lemma_stands_within,
}

// ---- laws ----------------------------------------------------------------------------------

/// A label is the word that follows the lines before the one that defines it.
pub proof fn law_label_is_its_line(text: Seq<Asm>, name: Seq<char>)
    ensures
        match line_of(text, name) {
            Some(i) => 0 <= i < text.len() && text[i] == Asm::Label(name) && label_at(text, name)
                == Some(text_len(text.take(i))),
            None => label_at(text, name) is None,
        },
    decreases text.len(),
{
    if text.len() > 0 {
        let front = text.drop_last();
        law_label_is_its_line(front, name);
        if text.last() == Asm::Label(name) {
            assert(text.take(text.len() - 1) =~= front);
        } else if let Some(i) = line_of(front, name) {
            assert(text.take(i) =~= front.take(i));
        }
    }
}

proof fn lemma_run_keeps(text: Seq<Asm>, i: int, s: Regs, n: nat)
    ensures
        run(text, i, s, n) matches Some(p) ==> get(p.1, RA) == get(s, RA) && get(p.1, SP) == get(
            s,
            SP,
        ),
    decreases n,
{
    broadcast use group_machine;

    if n > 0 {
        if let Some((j, t)) = step(text, i, s) {
            lemma_run_keeps(text, j, t, (n - 1) as nat);
        }
    }
}

/// A leaf keeps `ra` and `sp`.
pub proof fn law_leaf_keeps_ra_and_sp(text: Seq<Asm>, i: int, s: Regs, j: int, t: Regs)
    requires
        reaches(text, i, s, j, t),
    ensures
        get(t, RA) == get(s, RA),
        get(t, SP) == get(s, SP),
{
    reveal(reaches);
    let n = choose|n: nat| run(text, i, s, n) == Some((j, t));
    lemma_run_keeps(text, i, s, n);
}

proof fn lemma_run_split(text: Seq<Asm>, i: int, s: Regs, n: nat, m: nat)
    requires
        run(text, i, s, n) is Some,
    ensures
        run(text, i, s, n) matches Some(p) && run(text, i, s, n + m) == run(text, p.0, p.1, m),
    decreases n,
{
    if n > 0 {
        let (j, t) = step(text, i, s)->0;
        lemma_run_split(text, j, t, (n - 1) as nat, m);
    }
}

proof fn lemma_ret_stops(text: Seq<Asm>, i: int, s: Regs, n: nat)
    requires
        0 <= i < text.len(),
        text[i] == ret_asm(),
        n > 0,
    ensures
        run(text, i, s, n) is None,
{
}

/// What a routine returns is determined by where it is entered and with which registers.
pub proof fn law_result_is_unique(text: Seq<Asm>, i: int, s: Regs, v: u32, w: u32)
    requires
        gives(text, i, s, v),
        gives(text, i, s, w),
    ensures
        v == w,
{
    reveal(reaches);
    reveal(gives);
    let (j, t) = choose|j: int, t: Regs|
        #![trigger reaches(text, i, s, j, t)]
        0 <= j < text.len() && text[j] == ret_asm() && get(t, A0) == v && reaches(text, i, s, j, t);
    let (k, u) = choose|k: int, u: Regs|
        #![trigger reaches(text, i, s, k, u)]
        0 <= k < text.len() && text[k] == ret_asm() && get(u, A0) == w && reaches(text, i, s, k, u);
    let n = choose|n: nat| run(text, i, s, n) == Some((j, t));
    let m = choose|m: nat| run(text, i, s, m) == Some((k, u));
    if n < m {
        lemma_run_split(text, i, s, n, (m - n) as nat);
        lemma_ret_stops(text, j, t, (m - n) as nat);
    } else if m < n {
        lemma_run_split(text, i, s, m, (n - m) as nat);
        lemma_ret_stops(text, k, u, (n - m) as nat);
    }
}

// ---- how runs are put together -------------------------------------------------------------

pub proof fn lemma_here(text: Seq<Asm>, i: int, s: Regs)
    ensures
        reaches(text, i, s, i, s),
{
    reveal(reaches);
    assert(run(text, i, s, 0) == Some((i, s)));
}

pub proof fn lemma_join(text: Seq<Asm>, i: int, s: Regs, j: int, t: Regs, k: int, u: Regs)
    requires
        reaches(text, i, s, j, t),
        reaches(text, j, t, k, u),
    ensures
        reaches(text, i, s, k, u),
{
    reveal(reaches);
    let n = choose|n: nat| run(text, i, s, n) == Some((j, t));
    let m = choose|m: nat| run(text, j, t, m) == Some((k, u));
    lemma_run_split(text, i, s, n, m);
    assert(run(text, i, s, n + m) == Some((k, u)));
}

proof fn lemma_step(text: Seq<Asm>, i: int, s: Regs, j: int, t: Regs)
    requires
        step(text, i, s) == Some((j, t)),
    ensures
        reaches(text, i, s, j, t),
{
    reveal(reaches);
    assert(run(text, j, t, 0) == Some((j, t)));
    assert(run(text, i, s, 1) == Some((j, t)));
}

/// A return, at line `j` of a run from line `i`.
pub proof fn lemma_ret(text: Seq<Asm>, i: int, s: Regs, j: int, u: Regs)
    requires
        reaches(text, i, s, j, u),
        0 <= j < text.len(),
        text[j] == ret_asm(),
    ensures
        gives(text, i, s, get(u, A0)),
{
    reveal(gives);
}

pub proof fn lemma_line_of(text: Seq<Asm>, name: Seq<char>, i: int)
    requires
        unique_labels(text),
        0 <= i < text.len(),
        text[i] == Asm::Label(name),
    ensures
        line_of(text, name) == Some(i),
{
    law_label_is_its_line(text, name);
    lemma_line_of_some(text, name, i);
    let j = line_of(text, name)->0;
    reveal(unique_labels);
    if i < j {
        assert(text[i] != text[j]);
    } else if j < i {
        assert(text[j] != text[i]);
    }
}

proof fn lemma_line_of_some(text: Seq<Asm>, name: Seq<char>, i: int)
    requires
        0 <= i < text.len(),
        text[i] == Asm::Label(name),
    ensures
        line_of(text, name) is Some,
    decreases text.len(),
{
    if text.last() != Asm::Label(name) {
        lemma_line_of_some(text.drop_last(), name, i);
    }
}

/// A jump to line `t`, at line `j` of a run from line `i`.
pub proof fn lemma_jump(text: Seq<Asm>, i: int, s: Regs, j: int, u: Regs, t: int)
    requires
        unique_labels(text),
        reaches(text, i, s, j, u),
        0 <= j < text.len(),
        0 <= t < text.len(),
        text[j] matches Asm::Jal(rd, l) && rd == ZERO && text[t] == Asm::Label(l),
    ensures
        reaches(text, i, s, t, u),
{
    lemma_line_of(text, text[j]->Jal_1, t);
    lemma_step(text, j, u, t, u);
    lemma_join(text, i, s, j, u, t, u);
}

/// Whether the branch at a line is taken.
pub open spec fn taken(a: Asm, s: Regs) -> bool {
    match a {
        Asm::Branch(c, x, y, l) => c.holds(get(s, x), get(s, y)),
        _ => false,
    }
}

/// A branch to line `t`, at line `j` of a run from line `i`.
pub proof fn lemma_branch(text: Seq<Asm>, i: int, s: Regs, j: int, u: Regs, t: int)
    requires
        unique_labels(text),
        reaches(text, i, s, j, u),
        0 <= j < text.len(),
        0 <= t < text.len(),
        text[j] matches Asm::Branch(c, x, y, l) && text[t] == Asm::Label(l),
    ensures
        taken(text[j], u) ==> reaches(text, i, s, t, u),
        !taken(text[j], u) ==> reaches(text, i, s, j + 1, u),
{
    lemma_line_of(text, text[j]->Branch_3, t);
    if taken(text[j], u) {
        lemma_step(text, j, u, t, u);
        lemma_join(text, i, s, j, u, t, u);
    } else {
        lemma_step(text, j, u, j + 1, u);
        lemma_join(text, i, s, j, u, j + 1, u);
    }
}

/// Lines that only compute: those from `from` up to `to` of lines that stand at `at`, in a run
/// from line `i`.
pub proof fn lemma_block(
    text: Seq<Asm>,
    i: int,
    s: Regs,
    at: int,
    lines: Seq<Asm>,
    from: int,
    to: int,
    u: Regs,
)
    requires
        reaches(text, i, s, at + from, u),
        stands(text, at, lines),
        0 <= from <= to <= lines.len(),
        range_computes(lines, from, to),
    ensures
        reaches(text, i, s, at + to, exec_range(lines, from, to, u)),
    decreases to - from,
{
    if from < to {
        reveal(stands);
        let t = exec_range(lines, from, to - 1, u);
        lemma_block(text, i, s, at, lines, from, to - 1, u);
        assert(text[at + (to - 1)] == lines[to - 1]);
        lemma_step(text, at + to - 1, t, at + to, exec_line(lines[to - 1], t));
        lemma_join(text, i, s, at + to - 1, t, at + to, exec_line(lines[to - 1], t));
    }
}

/// The parts of what stands in a text stand in it.
pub proof fn lemma_stands_parts(text: Seq<Asm>, i: int, a: Seq<Asm>, b: Seq<Asm>)
    requires
        stands(text, i, a + b),
    ensures
        stands(text, i, a),
        stands(text, i + a.len(), b),
{
    reveal(stands);
    assert forall|j: int| 0 <= j < a.len() implies text[i + j] == #[trigger] a[j] by {
        assert((a + b)[j] == a[j]);
    }
    assert forall|j: int| 0 <= j < b.len() implies text[i + a.len() + j] == #[trigger] b[j] by {
        assert((a + b)[a.len() + j] == b[j]);
    }
}

} // verus!
