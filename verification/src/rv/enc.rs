//! An encoder for the RV32IM instruction set.
//!
//! Every instruction word is built from the bit-field layout of the ISA manual (the R, I, S,
//! B, U and J formats). Only uncompressed instructions are emitted, so each word is 4 bytes.
//!
//! An [`Enc`] is modelled by the assembly text written into it so far (`enc@`, a sequence of
//! [`Asm`] lines). `finish` returns the little-endian bytes of that text with every jump
//! resolved against the labels in it.
//!
//! A conditional branch reaches only 4 KiB in either direction, so `branch` always writes two
//! words: the opposite condition over one `jal`, then that `jal`, which reaches 1 MiB.

use vstd::prelude::*;

use crate::bits::{i32_to_u32, low_u32};

verus! {

/// Reads as 0; writes to it are discarded.
pub const ZERO: u8 = 0;

/// Return address.
pub const RA: u8 = 1;

/// Stack pointer.
pub const SP: u8 = 2;

pub const T0: u8 = 5;

pub const T1: u8 = 6;

pub const T2: u8 = 7;

pub const T3: u8 = 28;

pub const T4: u8 = 29;

pub const T5: u8 = 30;

pub const T6: u8 = 31;

pub const A0: u8 = 10;

pub const A1: u8 = 11;

pub const A2: u8 = 12;

pub const A3: u8 = 13;

pub const A4: u8 = 14;

pub const A5: u8 = 15;

pub const A6: u8 = 16;

pub const A7: u8 = 17;

/// The argument registers `a0` to `a7`, in passing order.
pub const ARG_REGS: [u8; 8] = [10, 11, 12, 13, 14, 15, 16, 17];

pub const S2: u8 = 18;

pub const S3: u8 = 19;

pub const S4: u8 = 20;

pub const S5: u8 = 21;

pub const S6: u8 = 22;

pub const S7: u8 = 23;

pub const S8: u8 = 24;

pub const S9: u8 = 25;

pub const S10: u8 = 26;

pub const S11: u8 = 27;

pub const OP: u32 = 0b0110011;

pub const OP_IMM: u32 = 0b0010011;

pub const LOAD: u32 = 0b0000011;

pub const STORE: u32 = 0b0100011;

pub const BRANCH: u32 = 0b1100011;

pub const JALR: u32 = 0b1100111;

pub const JAL: u32 = 0b1101111;

pub const LUI: u32 = 0b0110111;

pub const AUIPC: u32 = 0b0010111;

// ---- the instruction formats ---------------------------------------------------------------

pub open spec fn r_word(funct7: u32, rs2: u8, rs1: u8, funct3: u32, rd: u8, opcode: u32) -> u32 {
    (funct7 << 25) | ((rs2 as u32) << 20) | ((rs1 as u32) << 15) | (funct3 << 12) | ((rd as u32)
        << 7) | opcode
}

pub open spec fn i_word(imm: i32, rs1: u8, funct3: u32, rd: u8, opcode: u32) -> u32 {
    ((low_u32(imm as int) & 0xFFF) << 20) | ((rs1 as u32) << 15) | (funct3 << 12) | ((rd as u32) << 7)
        | opcode
}

pub open spec fn s_word(imm: i32, rs2: u8, rs1: u8, funct3: u32, opcode: u32) -> u32 {
    (((low_u32(imm as int) >> 5) & 0x7F) << 25) | ((rs2 as u32) << 20) | ((rs1 as u32) << 15) | (funct3
        << 12) | ((low_u32(imm as int) & 0x1F) << 7) | opcode
}

pub open spec fn b_word(imm: i32, rs2: u8, rs1: u8, funct3: u32, opcode: u32) -> u32 {
    (((low_u32(imm as int) >> 12) & 1) << 31) | (((low_u32(imm as int) >> 5) & 0x3F) << 25)
        | ((rs2 as u32)
        << 20) | ((rs1 as u32) << 15) | (funct3 << 12) | (((low_u32(imm as int) >> 1) & 0xF) << 8)
            | (((low_u32(imm as int) >> 11) & 1) << 7) | opcode
}

pub open spec fn u_word(imm20: u32, rd: u8, opcode: u32) -> u32 {
    ((imm20 & 0xFFFFF) << 12) | ((rd as u32) << 7) | opcode
}

pub open spec fn j_word(imm: i32, rd: u8, opcode: u32) -> u32 {
    (((low_u32(imm as int) >> 20) & 1) << 31) | (((low_u32(imm as int) >> 1) & 0x3FF) << 21)
        | (((low_u32(imm as int)
        >> 11) & 1) << 20) | (((low_u32(imm as int) >> 12) & 0xFF) << 12) | ((rd as u32) << 7) | opcode
}

/// Register-register format.
pub fn r_type(funct7: u32, rs2: u8, rs1: u8, funct3: u32, rd: u8, opcode: u32) -> (w: u32)
    ensures
        w == r_word(funct7, rs2, rs1, funct3, rd, opcode),
{
    (funct7 << 25) | ((rs2 as u32) << 20) | ((rs1 as u32) << 15) | (funct3 << 12) | ((rd as u32)
        << 7) | opcode
}

/// Immediate format. The low 12 bits of `imm` go into the word; a caller that means a signed
/// immediate passes one in `-2048..=2047`.
pub fn i_type(imm: i32, rs1: u8, funct3: u32, rd: u8, opcode: u32) -> (w: u32)
    ensures
        w == i_word(imm, rs1, funct3, rd, opcode),
{
    ((i32_to_u32(imm) & 0xFFF) << 20) | ((rs1 as u32) << 15) | (funct3 << 12) | ((rd as u32) << 7)
        | opcode
}

/// Store format.
pub fn s_type(imm: i32, rs2: u8, rs1: u8, funct3: u32, opcode: u32) -> (w: u32)
    ensures
        w == s_word(imm, rs2, rs1, funct3, opcode),
{
    let imm: u32 = i32_to_u32(imm);
    let lo: u32 = imm & 0x1F;
    let hi: u32 = (imm >> 5) & 0x7F;
    (hi << 25) | ((rs2 as u32) << 20) | ((rs1 as u32) << 15) | (funct3 << 12) | (lo << 7) | opcode
}

/// Branch format: `imm` is meant to be even and in `-4096..=4094`.
pub fn b_type(imm: i32, rs2: u8, rs1: u8, funct3: u32, opcode: u32) -> (w: u32)
    ensures
        w == b_word(imm, rs2, rs1, funct3, opcode),
{
    let imm: u32 = i32_to_u32(imm);
    let bit12: u32 = (imm >> 12) & 1;
    let bit11: u32 = (imm >> 11) & 1;
    let bits10_5: u32 = (imm >> 5) & 0x3F;
    let bits4_1: u32 = (imm >> 1) & 0xF;
    (bit12 << 31) | (bits10_5 << 25) | ((rs2 as u32) << 20) | ((rs1 as u32) << 15) | (funct3 << 12)
        | (bits4_1 << 8) | (bit11 << 7) | opcode
}

/// Upper-immediate format: `imm20` is the value of bits 31:12.
pub fn u_type(imm20: u32, rd: u8, opcode: u32) -> (w: u32)
    ensures
        w == u_word(imm20, rd, opcode),
{
    ((imm20 & 0xFFFFF) << 12) | ((rd as u32) << 7) | opcode
}

/// Jump format: `imm` is meant to be even and in `-1048576..=1048574`.
pub fn j_type(imm: i32, rd: u8, opcode: u32) -> (w: u32)
    ensures
        w == j_word(imm, rd, opcode),
{
    let imm: u32 = i32_to_u32(imm);
    let bit20: u32 = (imm >> 20) & 1;
    let bits10_1: u32 = (imm >> 1) & 0x3FF;
    let bit11: u32 = (imm >> 11) & 1;
    let bits19_12: u32 = (imm >> 12) & 0xFF;
    (bit20 << 31) | (bits10_1 << 21) | (bit11 << 20) | (bits19_12 << 12) | ((rd as u32) << 7)
        | opcode
}

// ---- operations ----------------------------------------------------------------------------

#[derive(Clone, Copy, PartialEq, Eq, Structural)]
pub enum AluOp {
    Add,
    Sub,
    And,
    Or,
    Xor,
    Sll,
    Srl,
    Sra,
    Slt,
    Sltu,
}

#[derive(Clone, Copy, PartialEq, Eq, Structural)]
pub enum MulOp {
    Mul,
    Mulh,
    Mulhsu,
    Mulhu,
    Div,
    Divu,
    Rem,
    Remu,
}

/// The six conditional-branch comparisons.
#[derive(Clone, Copy, PartialEq, Eq, Structural)]
pub enum BCond {
    Eq,
    Ne,
    Lt,
    Ge,
    Ltu,
    Geu,
}

/// An ALU operation with a signed 12-bit immediate.
pub enum ImmOp {
    Addi,
    Slti,
    Sltiu,
    Xori,
    Ori,
    Andi,
}

/// A shift by a constant amount.
pub enum ShiftOp {
    Slli,
    Srli,
    Srai,
}

pub enum LoadOp {
    Lb,
    Lh,
    Lw,
    Lbu,
    Lhu,
}

pub enum StoreOp {
    Sb,
    Sh,
    Sw,
}

/// `(funct7, funct3)` of a register-register ALU operation.
pub open spec fn alu_functs(op: AluOp) -> (u32, u32) {
    match op {
        AluOp::Add => (0b0000000, 0b000),
        AluOp::Sub => (0b0100000, 0b000),
        AluOp::Sll => (0b0000000, 0b001),
        AluOp::Slt => (0b0000000, 0b010),
        AluOp::Sltu => (0b0000000, 0b011),
        AluOp::Xor => (0b0000000, 0b100),
        AluOp::Srl => (0b0000000, 0b101),
        AluOp::Sra => (0b0100000, 0b101),
        AluOp::Or => (0b0000000, 0b110),
        AluOp::And => (0b0000000, 0b111),
    }
}

pub open spec fn mul_funct3(op: MulOp) -> u32 {
    match op {
        MulOp::Mul => 0b000,
        MulOp::Mulh => 0b001,
        MulOp::Mulhsu => 0b010,
        MulOp::Mulhu => 0b011,
        MulOp::Div => 0b100,
        MulOp::Divu => 0b101,
        MulOp::Rem => 0b110,
        MulOp::Remu => 0b111,
    }
}

pub open spec fn imm_funct3(op: ImmOp) -> u32 {
    match op {
        ImmOp::Addi => 0b000,
        ImmOp::Slti => 0b010,
        ImmOp::Sltiu => 0b011,
        ImmOp::Xori => 0b100,
        ImmOp::Ori => 0b110,
        ImmOp::Andi => 0b111,
    }
}

pub open spec fn load_funct3(op: LoadOp) -> u32 {
    match op {
        LoadOp::Lb => 0b000,
        LoadOp::Lh => 0b001,
        LoadOp::Lw => 0b010,
        LoadOp::Lbu => 0b100,
        LoadOp::Lhu => 0b101,
    }
}

pub open spec fn store_funct3(op: StoreOp) -> u32 {
    match op {
        StoreOp::Sb => 0b000,
        StoreOp::Sh => 0b001,
        StoreOp::Sw => 0b010,
    }
}

/// A word read as a two's-complement number.
pub open spec fn signed(x: u32) -> int {
    if x < 0x8000_0000 {
        x as int
    } else {
        x - 0x1_0000_0000
    }
}

impl BCond {
    pub open spec fn spec_funct3(self) -> u32 {
        match self {
            BCond::Eq => 0b000,
            BCond::Ne => 0b001,
            BCond::Lt => 0b100,
            BCond::Ge => 0b101,
            BCond::Ltu => 0b110,
            BCond::Geu => 0b111,
        }
    }

    pub open spec fn spec_invert(self) -> BCond {
        match self {
            BCond::Eq => BCond::Ne,
            BCond::Ne => BCond::Eq,
            BCond::Lt => BCond::Ge,
            BCond::Ge => BCond::Lt,
            BCond::Ltu => BCond::Geu,
            BCond::Geu => BCond::Ltu,
        }
    }

    /// Whether the branch is taken on the register values `x` and `y`.
    pub open spec fn holds(self, x: u32, y: u32) -> bool {
        match self {
            BCond::Eq => x == y,
            BCond::Ne => x != y,
            BCond::Lt => signed(x) < signed(y),
            BCond::Ge => signed(x) >= signed(y),
            BCond::Ltu => x < y,
            BCond::Geu => x >= y,
        }
    }

    pub fn funct3(self) -> (f: u32)
        ensures
            f == self.spec_funct3(),
    {
        match self {
            BCond::Eq => 0b000,
            BCond::Ne => 0b001,
            BCond::Lt => 0b100,
            BCond::Ge => 0b101,
            BCond::Ltu => 0b110,
            BCond::Geu => 0b111,
        }
    }

    /// The condition that holds exactly where this one does not.
    pub fn invert(self) -> (c: BCond)
        ensures
            c == self.spec_invert(),
            forall|x: u32, y: u32| #[trigger] c.holds(x, y) <==> !self.holds(x, y),
    {
        match self {
            BCond::Eq => BCond::Ne,
            BCond::Ne => BCond::Eq,
            BCond::Lt => BCond::Ge,
            BCond::Ge => BCond::Lt,
            BCond::Ltu => BCond::Geu,
            BCond::Geu => BCond::Ltu,
        }
    }
}

// ---- the model: assembly text --------------------------------------------------------------

/// One line of assembly text. Registers are numbers, labels are names.
pub enum Asm {
    /// A name for the position of the next word.
    Label(Seq<char>),
    /// `op rd, rs1, rs2`
    Alu(AluOp, u8, u8, u8),
    /// `op rd, rs1, rs2`
    Mul(MulOp, u8, u8, u8),
    /// `op rd, rs1, imm`
    Imm(ImmOp, u8, u8, int),
    /// `op rd, rs1, shamt`
    Shift(ShiftOp, u8, u8, u32),
    /// `op rd, offset(base)`: destination, offset, base.
    Load(LoadOp, u8, int, u8),
    /// `op rs2, offset(base)`: source, offset, base.
    Store(StoreOp, u8, int, u8),
    /// `lui rd, imm20`
    Lui(u8, u32),
    /// `auipc rd, imm20`
    Auipc(u8, u32),
    /// `jalr rd, offset(rs1)`: destination, base, offset.
    Jalr(u8, u8, int),
    /// `jal rd, label`
    Jal(u8, Seq<char>),
    /// Goes to the label when the condition holds of the two registers.
    Branch(BCond, u8, u8, Seq<char>),
    /// Loads a 32-bit constant.
    Li(u8, int),
}

pub open spec fn addi_asm(rd: u8, rs1: u8, imm: int) -> Asm {
    Asm::Imm(ImmOp::Addi, rd, rs1, imm)
}

pub open spec fn mv_asm(rd: u8, rs: u8) -> Asm {
    addi_asm(rd, rs, 0)
}

pub open spec fn ret_asm() -> Asm {
    Asm::Jalr(ZERO, RA, 0)
}

/// The upper 20 bits that `lui` loads on the way to `imm`.
pub open spec fn li_upper(imm: i32) -> u32 {
    (low_u32(imm + 0x800) >> 12) & 0xFFFFF
}

/// What is left to add after `lui`: in `-2048..=2047`.
pub open spec fn li_lower(imm: i32) -> i32 {
    let low = low_u32(imm as int) & 0xFFF;
    if low < 0x800 {
        low as i32
    } else {
        (low as int - 0x1000) as i32
    }
}

pub open spec fn addi_word(rd: u8, rs1: u8, imm: i32) -> u32 {
    i_word(imm, rs1, 0b000, rd, OP_IMM)
}

/// The words that load `imm` into `rd`: one `addi` when the upper part is zero, else `lui`
/// and, when something is left, an `addi`.
pub open spec fn li_words(rd: u8, imm: i32) -> Seq<u32> {
    if li_upper(imm) == 0 {
        seq![addi_word(rd, ZERO, li_lower(imm))]
    } else if li_lower(imm) == 0 {
        seq![u_word(li_upper(imm), rd, LUI)]
    } else {
        seq![u_word(li_upper(imm), rd, LUI), addi_word(rd, rd, li_lower(imm))]
    }
}

/// The words of one line; `rel` is the distance in bytes from the line's `jal` to its label.
pub open spec fn line_words(a: Asm, rel: i32) -> Seq<u32> {
    match a {
        Asm::Label(_) => Seq::empty(),
        Asm::Alu(op, rd, rs1, rs2) => seq![
            r_word(alu_functs(op).0, rs2, rs1, alu_functs(op).1, rd, OP),
        ],
        Asm::Mul(op, rd, rs1, rs2) => seq![r_word(0b0000001, rs2, rs1, mul_funct3(op), rd, OP)],
        Asm::Imm(op, rd, rs1, imm) => seq![i_word(imm as i32, rs1, imm_funct3(op), rd, OP_IMM)],
        Asm::Shift(ShiftOp::Slli, rd, rs1, shamt) => seq![
            i_word(shamt as i32, rs1, 0b001, rd, OP_IMM),
        ],
        Asm::Shift(ShiftOp::Srli, rd, rs1, shamt) => seq![
            i_word(shamt as i32, rs1, 0b101, rd, OP_IMM),
        ],
        Asm::Shift(ShiftOp::Srai, rd, rs1, shamt) => seq![
            i_word((shamt | 0x400) as i32, rs1, 0b101, rd, OP_IMM),
        ],
        Asm::Load(op, rd, offset, base) => seq![i_word(offset as i32, base, load_funct3(op), rd, LOAD)],
        Asm::Store(op, rs2, offset, base) => seq![
            s_word(offset as i32, rs2, base, store_funct3(op), STORE),
        ],
        Asm::Lui(rd, imm20) => seq![u_word(imm20, rd, LUI)],
        Asm::Auipc(rd, imm20) => seq![u_word(imm20, rd, AUIPC)],
        Asm::Jalr(rd, rs1, offset) => seq![i_word(offset as i32, rs1, 0b000, rd, JALR)],
        Asm::Jal(rd, _) => seq![j_word(rel, rd, JAL)],
        Asm::Branch(cond, rs1, rs2, _) => seq![
            b_word(8, rs2, rs1, cond.spec_invert().spec_funct3(), BRANCH),
            j_word(rel, ZERO, JAL),
        ],
        Asm::Li(rd, imm) => li_words(rd, imm as i32),
    }
}

/// How many words a line takes.
pub open spec fn line_len(a: Asm) -> nat {
    line_words(a, 0).len()
}

/// How many words a text takes.
pub open spec fn text_len(text: Seq<Asm>) -> nat
    decreases text.len(),
{
    if text.len() == 0 {
        0
    } else {
        text_len(text.drop_last()) + line_len(text.last())
    }
}

/// The word index that the label `name` stands for, if the text defines it.
pub open spec fn label_at(text: Seq<Asm>, name: Seq<char>) -> Option<nat>
    decreases text.len(),
{
    if text.len() == 0 {
        None
    } else if text.last() == Asm::Label(name) {
        Some(text_len(text.drop_last()))
    } else {
        label_at(text.drop_last(), name)
    }
}

/// Whether the text defines the label `name`.
#[verifier::opaque]
pub open spec fn defines(text: Seq<Asm>, name: Seq<char>) -> bool {
    label_at(text, name) is Some
}

/// Appending to a text one line at a time or as a whole is the same.
pub broadcast proof fn lemma_text_push(t: Seq<Asm>, s: Seq<Asm>, a: Asm)
    ensures
        #[trigger] (t + s.push(a)) == (t + s).push(a),
{
    assert(t + s.push(a) =~= (t + s).push(a));
}

pub broadcast proof fn lemma_text_empty(t: Seq<Asm>)
    ensures
        #[trigger] (t + Seq::<Asm>::empty()) == t,
{
    assert(t + Seq::<Asm>::empty() =~= t);
}

pub broadcast proof fn lemma_text_join(t: Seq<Asm>, a: Seq<Asm>, b: Seq<Asm>)
    ensures
        #[trigger] (t + (a + b)) == (t + a) + b,
{
    assert(t + (a + b) =~= (t + a) + b);
}

pub broadcast proof fn lemma_defines_push(t: Seq<Asm>, a: Asm, name: Seq<char>)
    ensures
        #[trigger] defines(t.push(a), name) <==> a == Asm::Label(name) || defines(t, name),
{
    reveal(defines);
    assert(t.push(a).drop_last() =~= t);
}

pub proof fn lemma_defines_empty()
    ensures
        forall|name: Seq<char>| !#[trigger] defines(Seq::empty(), name),
{
    reveal(defines);
}

pub broadcast group group_text {
    lemma_text_push,
    lemma_text_empty,
    lemma_text_join,
}

/// Whether no label is defined twice.
#[verifier::opaque]
pub open spec fn unique_labels(text: Seq<Asm>) -> bool {
    forall|i: int, j: int|
        0 <= i < j < text.len() && (#[trigger] text[i]) is Label ==> text[i] != #[trigger] text[j]
}

proof fn lemma_undefined(text: Seq<Asm>, name: Seq<char>, i: int)
    requires
        !defines(text, name),
        0 <= i < text.len(),
    ensures
        text[i] != Asm::Label(name),
    decreases text.len(),
{
    reveal(defines);
    if i < text.len() - 1 {
        lemma_undefined(text.drop_last(), name, i);
    }
}

/// A line keeps the labels of a text unique, unless it defines one again.
pub proof fn lemma_unique_push(text: Seq<Asm>, a: Asm)
    requires
        unique_labels(text),
        a matches Asm::Label(name) ==> !defines(text, name),
    ensures
        unique_labels(text.push(a)),
{
    reveal(unique_labels);
    let all = text.push(a);
    assert forall|i: int, j: int| 0 <= i < j < all.len() && (#[trigger] all[i]) is Label implies all[i]
        != #[trigger] all[j] by {
        assert(all[i] == text[i]);
        if j < text.len() {
            assert(all[j] == text[j]);
        } else if a is Label {
            lemma_undefined(text, a->Label_0, i);
        }
    }
}

/// The label that a line jumps to.
pub open spec fn target_of(a: Asm) -> Option<Seq<char>> {
    match a {
        Asm::Jal(_, l) => Some(l),
        Asm::Branch(_, _, _, l) => Some(l),
        _ => None,
    }
}

/// Whether a line of the text jumps to the label `name`.
#[verifier::opaque]
pub open spec fn jumps(text: Seq<Asm>, name: Seq<char>) -> bool {
    exists|i: int| 0 <= i < text.len() && #[trigger] target_of(text[i]) == Some(name)
}

pub broadcast proof fn lemma_jumps_push(t: Seq<Asm>, a: Asm, name: Seq<char>)
    ensures
        #[trigger] jumps(t.push(a), name) <==> target_of(a) == Some(name) || jumps(t, name),
{
    reveal(jumps);
    let all = t.push(a);
    if jumps(all, name) {
        let i = choose|i: int| 0 <= i < all.len() && #[trigger] target_of(all[i]) == Some(name);
        if i < t.len() {
            assert(all[i] == t[i]);
        }
    }
    if jumps(t, name) {
        let i = choose|i: int| 0 <= i < t.len() && #[trigger] target_of(t[i]) == Some(name);
        assert(all[i] == t[i]);
    }
    if target_of(a) == Some(name) {
        assert(all[t.len() as int] == a);
    }
}

pub proof fn lemma_jumps_empty()
    ensures
        forall|name: Seq<char>| !#[trigger] jumps(Seq::empty(), name),
{
    reveal(jumps);
}

/// The word index of a line's `jal`, when the line starts at word `at`.
pub open spec fn jal_at(a: Asm, at: nat) -> nat {
    if a is Branch {
        at + 1
    } else {
        at
    }
}

/// The distance in bytes from the `jal` of a line that starts at word `at` to its target.
pub open spec fn rel_of(a: Asm, at: nat, whole: Seq<Asm>) -> int {
    match target_of(a) {
        Some(l) => match label_at(whole, l) {
            Some(t) => 4 * t - 4 * jal_at(a, at),
            None => 0,
        },
        None => 0,
    }
}

/// The words of `text`, a prefix of `whole`, with jumps resolved against `whole`'s labels.
pub open spec fn linked_words(text: Seq<Asm>, whole: Seq<Asm>) -> Seq<u32>
    decreases text.len(),
{
    if text.len() == 0 {
        Seq::empty()
    } else {
        let front = text.drop_last();
        linked_words(front, whole) + line_words(
            text.last(),
            rel_of(text.last(), text_len(front), whole) as i32,
        )
    }
}

/// Whether every jump of the text is within the reach of a `jal`: 1 MiB either way.
pub open spec fn in_reach(text: Seq<Asm>) -> bool {
    forall|i: int|
        0 <= i < text.len() && #[trigger] target_of(text[i]) is Some ==> -0x10_0000 <= rel_of(
            text[i],
            text_len(text.take(i)),
            text,
        ) <= 0xF_FFFE
}

/// Whether every jump of the text has a target, and reaches it.
pub open spec fn linkable(text: Seq<Asm>) -> bool {
    &&& in_reach(text)
    &&& forall|name: Seq<char>| #[trigger] jumps(text, name) ==> defines(text, name)
}

proof fn lemma_take_len(text: Seq<Asm>, i: int)
    requires
        0 <= i <= text.len(),
    ensures
        text_len(text.take(i)) <= text_len(text),
        i < text.len() ==> text_len(text.take(i)) + line_len(text[i]) <= text_len(text),
    decreases text.len() - i,
{
    if i < text.len() {
        lemma_take_len(text, i + 1);
        assert(text.take(i + 1).drop_last() =~= text.take(i));
    } else {
        assert(text.take(i) =~= text);
    }
}

proof fn lemma_label_within(text: Seq<Asm>, name: Seq<char>)
    ensures
        label_at(text, name) matches Some(t) ==> t <= text_len(text),
    decreases text.len(),
{
    if text.len() > 0 {
        lemma_label_within(text.drop_last(), name);
    }
}

/// In a text of at most 1 MiB every jump is within reach.
pub proof fn law_short_text_is_in_reach(text: Seq<Asm>)
    requires
        4 * text_len(text) <= 0xF_FFFE,
    ensures
        in_reach(text),
{
    assert forall|i: int| 0 <= i < text.len() && #[trigger] target_of(text[i]) is Some implies
        -0x10_0000 <= rel_of(text[i], text_len(text.take(i)), text) <= 0xF_FFFE by {
        lemma_take_len(text, i);
        lemma_label_within(text, target_of(text[i])->0);
    }
}

pub open spec fn byte_of(w: u32, i: int) -> u8 {
    if i == 0 {
        (w & 0xFF) as u8
    } else if i == 1 {
        ((w >> 8) & 0xFF) as u8
    } else if i == 2 {
        ((w >> 16) & 0xFF) as u8
    } else {
        ((w >> 24) & 0xFF) as u8
    }
}

/// The little-endian bytes of a sequence of words.
pub open spec fn le_bytes(words: Seq<u32>) -> Seq<u8> {
    Seq::new(4 * words.len(), |b: int| byte_of(words[b / 4], b % 4))
}

/// The bytes that the assembly text stands for.
pub open spec fn assemble(text: Seq<Asm>) -> Seq<u8> {
    le_bytes(linked_words(text, text))
}

// ---- how the encoder holds its text --------------------------------------------------------

/// The words of one line before linking: a zero word stands for each `jal`.
spec fn raw_line(a: Asm) -> Seq<u32> {
    match a {
        Asm::Jal(_, _) => seq![0u32],
        Asm::Branch(cond, rs1, rs2, _) => seq![
            b_word(8, rs2, rs1, cond.spec_invert().spec_funct3(), BRANCH),
            0u32,
        ],
        _ => line_words(a, 0),
    }
}

spec fn raw_words(text: Seq<Asm>) -> Seq<u32>
    decreases text.len(),
{
    if text.len() == 0 {
        Seq::empty()
    } else {
        raw_words(text.drop_last()) + raw_line(text.last())
    }
}

/// A `jal` that waits for its label: the word index, the label and the link register.
struct Hole {
    at: nat,
    label: Seq<char>,
    rd: u8,
}

spec fn link_reg(a: Asm) -> u8 {
    match a {
        Asm::Jal(rd, _) => rd,
        _ => ZERO,
    }
}

spec fn holes(text: Seq<Asm>) -> Seq<Hole>
    decreases text.len(),
{
    if text.len() == 0 {
        Seq::empty()
    } else {
        let front = text.drop_last();
        let a = text.last();
        match target_of(a) {
            Some(l) => holes(front).push(
                Hole { at: jal_at(a, text_len(front)), label: l, rd: link_reg(a) },
            ),
            None => holes(front),
        }
    }
}

spec fn hole_rel(h: Hole, whole: Seq<Asm>) -> int {
    match label_at(whole, h.label) {
        Some(t) => 4 * t - 4 * h.at,
        None => 0,
    }
}

spec fn filled(words: Seq<u32>, hs: Seq<Hole>, whole: Seq<Asm>) -> Seq<u32>
    decreases hs.len(),
{
    if hs.len() == 0 {
        words
    } else {
        let h = hs.last();
        filled(words, hs.drop_last(), whole).update(
            h.at as int,
            j_word(hole_rel(h, whole) as i32, h.rd, JAL),
        )
    }
}

proof fn lemma_filled_len(words: Seq<u32>, hs: Seq<Hole>, whole: Seq<Asm>)
    requires
        forall|j: int| 0 <= j < hs.len() ==> (#[trigger] hs[j]).at < words.len(),
    ensures
        filled(words, hs, whole).len() == words.len(),
    decreases hs.len(),
{
    if hs.len() > 0 {
        lemma_filled_len(words, hs.drop_last(), whole);
        assert(hs.last() == hs[hs.len() - 1]);
    }
}

proof fn lemma_filled_front(words: Seq<u32>, more: Seq<u32>, hs: Seq<Hole>, whole: Seq<Asm>)
    requires
        forall|j: int| 0 <= j < hs.len() ==> (#[trigger] hs[j]).at < words.len(),
    ensures
        filled(words + more, hs, whole) == filled(words, hs, whole) + more,
    decreases hs.len(),
{
    if hs.len() > 0 {
        lemma_filled_front(words, more, hs.drop_last(), whole);
        lemma_filled_len(words, hs.drop_last(), whole);
        assert(hs.last() == hs[hs.len() - 1]);
        assert(filled(words + more, hs, whole) =~= filled(words, hs, whole) + more);
    }
}

proof fn lemma_raw_len(text: Seq<Asm>)
    ensures
        raw_words(text).len() == text_len(text),
    decreases text.len(),
{
    if text.len() > 0 {
        lemma_raw_len(text.drop_last());
    }
}

proof fn lemma_holes_bound(text: Seq<Asm>)
    ensures
        forall|j: int| 0 <= j < holes(text).len() ==> (#[trigger] holes(text)[j]).at < text_len(text),
    decreases text.len(),
{
    if text.len() > 0 {
        let front = text.drop_last();
        lemma_holes_bound(front);
        assert forall|j: int| 0 <= j < holes(text).len() implies (#[trigger] holes(text)[j]).at
            < text_len(text) by {
            if j < holes(front).len() {
                assert(holes(text)[j] == holes(front)[j]);
            }
        }
    }
}

/// Filling the holes of a text gives its linked words.
proof fn lemma_filled_is_linked(text: Seq<Asm>, whole: Seq<Asm>)
    ensures
        filled(raw_words(text), holes(text), whole) == linked_words(text, whole),
    decreases text.len(),
{
    if text.len() > 0 {
        let front = text.drop_last();
        let a = text.last();
        lemma_filled_is_linked(front, whole);
        lemma_holes_bound(front);
        lemma_raw_len(front);
        lemma_filled_front(raw_words(front), raw_line(a), holes(front), whole);
        lemma_filled_len(raw_words(front), holes(front), whole);
        match target_of(a) {
            Some(l) => {
                assert(holes(text).drop_last() =~= holes(front));
                assert(filled(raw_words(text), holes(text), whole) =~= linked_words(text, whole));
            },
            None => {},
        }
    } else {
        assert(filled(raw_words(text), holes(text), whole) =~= linked_words(text, whole));
    }
}

/// Every hole belongs to a line of the text.
proof fn lemma_hole_line(text: Seq<Asm>, j: int) -> (i: int)
    requires
        0 <= j < holes(text).len(),
    ensures
        0 <= i < text.len(),
        target_of(text[i]) == Some(holes(text)[j].label),
        jal_at(text[i], text_len(text.take(i))) == holes(text)[j].at,
    decreases text.len(),
{
    let front = text.drop_last();
    if target_of(text.last()) is Some && j == holes(text).len() - 1 {
        assert(text.take(text.len() - 1) =~= front);
        text.len() - 1
    } else {
        let i = lemma_hole_line(front, j);
        assert(text.take(i) =~= front.take(i));
        i
    }
}

/// Every line that jumps has a hole.
proof fn lemma_line_hole(text: Seq<Asm>, i: int) -> (j: int)
    requires
        0 <= i < text.len(),
        target_of(text[i]) is Some,
    ensures
        0 <= j < holes(text).len(),
        target_of(text[i]) == Some(holes(text)[j].label),
        jal_at(text[i], text_len(text.take(i))) == holes(text)[j].at,
    decreases text.len(),
{
    let front = text.drop_last();
    if i == text.len() - 1 {
        assert(text.take(i) =~= front);
        holes(text).len() - 1
    } else {
        let j = lemma_line_hole(front, i);
        assert(text.take(i) =~= front.take(i));
        j
    }
}

/// Whether the label of a hole is defined, and in the reach of its `jal`.
spec fn hole_ok(h: Hole, whole: Seq<Asm>) -> bool {
    label_at(whole, h.label) is Some && -0x10_0000 <= hole_rel(h, whole) <= 0xF_FFFE
}

proof fn lemma_linkable(text: Seq<Asm>)
    ensures
        linkable(text) <==> forall|j: int|
            0 <= j < holes(text).len() ==> hole_ok(#[trigger] holes(text)[j], text),
{
    reveal(jumps);
    reveal(defines);
    let hs = holes(text);
    if linkable(text) {
        assert forall|j: int| 0 <= j < hs.len() implies hole_ok(#[trigger] hs[j], text) by {
            let i = lemma_hole_line(text, j);
            assert(target_of(text[i]) is Some);
            assert(jumps(text, hs[j].label));
        }
    }
    if forall|j: int| 0 <= j < hs.len() ==> hole_ok(#[trigger] hs[j], text) {
        assert forall|i: int| 0 <= i < text.len() && #[trigger] target_of(text[i]) is Some implies
            -0x10_0000 <= rel_of(text[i], text_len(text.take(i)), text) <= 0xF_FFFE by {
            let j = lemma_line_hole(text, i);
            assert(hole_ok(hs[j], text));
        }
        assert forall|name: Seq<char>| #[trigger] jumps(text, name) implies defines(text, name) by {
            let i = choose|i: int| 0 <= i < text.len() && #[trigger] target_of(text[i]) == Some(
                name,
            );
            let j = lemma_line_hole(text, i);
            assert(hole_ok(hs[j], text));
        }
    }
}

spec fn table_get(labels: Seq<(String, usize)>, name: Seq<char>) -> Option<usize>
    decreases labels.len(),
{
    if labels.len() == 0 {
        None
    } else if labels.last().0@ == name {
        Some(labels.last().1)
    } else {
        table_get(labels.drop_last(), name)
    }
}

spec fn table_matches(labels: Seq<(String, usize)>, text: Seq<Asm>) -> bool
    decreases text.len(),
{
    if text.len() == 0 {
        labels.len() == 0
    } else {
        match text.last() {
            Asm::Label(n) => {
                &&& labels.len() > 0
                &&& labels.last().0@ == n
                &&& labels.last().1 == 4 * text_len(text.drop_last())
                &&& table_matches(labels.drop_last(), text.drop_last())
            },
            _ => table_matches(labels, text.drop_last()),
        }
    }
}

proof fn lemma_table(labels: Seq<(String, usize)>, text: Seq<Asm>, name: Seq<char>)
    requires
        table_matches(labels, text),
    ensures
        match table_get(labels, name) {
            Some(p) => label_at(text, name) is Some && p == 4 * label_at(text, name)->0,
            None => label_at(text, name) is None,
        },
    decreases text.len(),
{
    if text.len() > 0 {
        match text.last() {
            Asm::Label(n) => {
                lemma_table(labels.drop_last(), text.drop_last(), name);
            },
            _ => {
                lemma_table(labels, text.drop_last(), name);
            },
        }
    }
}

/// A pending `jal rd, label` at byte `pos`.
struct Fixup {
    pos: usize,
    label: String,
    rd: u8,
}

spec fn fixups_match(fixups: Seq<Fixup>, hs: Seq<Hole>) -> bool {
    &&& fixups.len() == hs.len()
    &&& forall|j: int|
        0 <= j < hs.len() ==> {
            &&& (#[trigger] fixups[j]).pos == 4 * hs[j].at
            &&& fixups[j].label@ == hs[j].label
            &&& fixups[j].rd == hs[j].rd
        }
}

proof fn lemma_le_push(words: Seq<u32>, w: u32)
    ensures
        le_bytes(words.push(w)) == le_bytes(words).push(byte_of(w, 0)).push(byte_of(w, 1)).push(
            byte_of(w, 2),
        ).push(byte_of(w, 3)),
{
    assert(le_bytes(words.push(w)) =~= le_bytes(words).push(byte_of(w, 0)).push(
        byte_of(w, 1),
    ).push(byte_of(w, 2)).push(byte_of(w, 3)));
}

proof fn lemma_le_update(words: Seq<u32>, i: int, w: u32)
    requires
        0 <= i < words.len(),
    ensures
        le_bytes(words.update(i, w)) == le_bytes(words).update(4 * i, byte_of(w, 0)).update(
            4 * i + 1,
            byte_of(w, 1),
        ).update(4 * i + 2, byte_of(w, 2)).update(4 * i + 3, byte_of(w, 3)),
{
    assert(le_bytes(words.update(i, w)) =~= le_bytes(words).update(4 * i, byte_of(w, 0)).update(
        4 * i + 1,
        byte_of(w, 1),
    ).update(4 * i + 2, byte_of(w, 2)).update(4 * i + 3, byte_of(w, 3)));
}

/// Looks a label up; `None` where it is not defined.
fn find_label(labels: &Vec<(String, usize)>, name: &String) -> (r: Option<usize>)
    ensures
        r == table_get(labels@, name@),
{
    let mut i: usize = labels.len();
    assert(labels@.take(i as int) =~= labels@);
    while i > 0
        invariant
            i <= labels.len(),
            table_get(labels@, name@) == table_get(labels@.take(i as int), name@),
        decreases i,
    {
        i = i - 1;
        let ghost head = labels@.take(i as int + 1);
        assert(head.last() == labels@[i as int]);
        assert(head.drop_last() =~= labels@.take(i as int));
        if labels[i].0 == *name {
            return Some(labels[i].1);
        }
    }
    None
}

/// An encoder, modelled by the assembly text written into it.
pub struct Enc {
    code: Vec<u8>,
    labels: Vec<(String, usize)>,
    fixups: Vec<Fixup>,
    text: Ghost<Seq<Asm>>,
}

impl View for Enc {
    type V = Seq<Asm>;

    closed spec fn view(&self) -> Seq<Asm> {
        self.text@
    }
}

impl Enc {
    /// The code, the label table and the pending jumps are those of the text.
    pub closed spec fn wf(&self) -> bool {
        &&& self.code@ == le_bytes(raw_words(self@))
        &&& table_matches(self.labels@, self@)
        &&& fixups_match(self.fixups@, holes(self@))
        &&& unique_labels(self@)
    }

    /// No label of an encoder's text is defined twice.
    pub proof fn law_unique_labels(self)
        requires
            self.wf(),
        ensures
            unique_labels(self@),
    {
    }

    /// An encoder with an empty text.
    pub fn new() -> (e: Enc)
        ensures
            e.wf(),
            e@ == Seq::<Asm>::empty(),
    {
        let e = Enc { code: Vec::new(), labels: Vec::new(), fixups: Vec::new(),
            text: Ghost(Seq::empty()) };
        assert(e.code@ =~= le_bytes(raw_words(e@)));
        assert(unique_labels(e@)) by {
            reveal(unique_labels);
        }
        e
    }

    /// The number of bytes written so far.
    pub fn pos(&self) -> (n: usize)
        requires
            self.wf(),
        ensures
            n == 4 * text_len(self@),
    {
        proof {
            lemma_raw_len(self@);
        }
        self.code.len()
    }

    /// Names the current position. A name stands for one position only.
    pub fn label(&mut self, name: &str)
        requires
            old(self).wf(),
            !defines(old(self)@, name@),
        ensures
            final(self).wf(),
            final(self)@ == old(self)@.push(Asm::Label(name@)),
    {
        let ghost t = self@;
        let n: usize = self.pos();
        self.labels.push((name.to_owned(), n));
        self.text = Ghost(t.push(Asm::Label(name@)));
        proof {
            assert(self@.drop_last() =~= t);
            lemma_unique_push(t, self@.last());
            assert(self.labels@.drop_last() =~= old(self).labels@);
            assert(raw_words(self@) =~= raw_words(t));
        }
    }

    /// Appends one word to the code.
    fn push(&mut self, word: u32)
        ensures
            final(self).code@ == old(self).code@.push(byte_of(word, 0)).push(byte_of(word, 1)).push(
                byte_of(word, 2),
            ).push(byte_of(word, 3)),
            final(self).labels == old(self).labels,
            final(self).fixups == old(self).fixups,
            final(self).text == old(self).text,
    {
        self.code.push((word & 0xFF) as u8);
        self.code.push(((word >> 8) & 0xFF) as u8);
        self.code.push(((word >> 16) & 0xFF) as u8);
        self.code.push(((word >> 24) & 0xFF) as u8);
    }

    /// Appends a line of one word that jumps nowhere.
    fn line(&mut self, word: u32, Ghost(a): Ghost<Asm>)
        requires
            old(self).wf(),
            !(a is Label),
            target_of(a) is None,
            line_words(a, 0) =~= seq![word],
        ensures
            final(self).wf(),
            final(self)@ == old(self)@.push(a),
    {
        let ghost t = self@;
        self.push(word);
        self.text = Ghost(t.push(a));
        proof {
            assert(self@.drop_last() =~= t);
            lemma_unique_push(t, self@.last());
            lemma_le_push(raw_words(t), word);
            assert(raw_words(self@) =~= raw_words(t).push(word));
        }
    }

    pub fn alu_reg(&mut self, op: AluOp, rd: u8, rs1: u8, rs2: u8)
        requires
            old(self).wf(),
        ensures
            final(self).wf(),
            final(self)@ == old(self)@.push(Asm::Alu(op, rd, rs1, rs2)),
    {
        let (funct7, funct3): (u32, u32) = match op {
            AluOp::Add => (0b0000000, 0b000),
            AluOp::Sub => (0b0100000, 0b000),
            AluOp::Sll => (0b0000000, 0b001),
            AluOp::Slt => (0b0000000, 0b010),
            AluOp::Sltu => (0b0000000, 0b011),
            AluOp::Xor => (0b0000000, 0b100),
            AluOp::Srl => (0b0000000, 0b101),
            AluOp::Sra => (0b0100000, 0b101),
            AluOp::Or => (0b0000000, 0b110),
            AluOp::And => (0b0000000, 0b111),
        };
        self.line(r_type(funct7, rs2, rs1, funct3, rd, OP), Ghost(Asm::Alu(op, rd, rs1, rs2)));
    }

    pub fn mul_reg(&mut self, op: MulOp, rd: u8, rs1: u8, rs2: u8)
        requires
            old(self).wf(),
        ensures
            final(self).wf(),
            final(self)@ == old(self)@.push(Asm::Mul(op, rd, rs1, rs2)),
    {
        let funct3: u32 = match op {
            MulOp::Mul => 0b000,
            MulOp::Mulh => 0b001,
            MulOp::Mulhsu => 0b010,
            MulOp::Mulhu => 0b011,
            MulOp::Div => 0b100,
            MulOp::Divu => 0b101,
            MulOp::Rem => 0b110,
            MulOp::Remu => 0b111,
        };
        self.line(r_type(0b0000001, rs2, rs1, funct3, rd, OP), Ghost(Asm::Mul(op, rd, rs1, rs2)));
    }

    pub fn addi(&mut self, rd: u8, rs1: u8, imm: i32)
        requires
            old(self).wf(),
            -2048 <= imm <= 2047,
        ensures
            final(self).wf(),
            final(self)@ == old(self)@.push(addi_asm(rd, rs1, imm as int)),
    {
        self.line(i_type(imm, rs1, 0b000, rd, OP_IMM), Ghost(addi_asm(rd, rs1, imm as int)));
    }

    /// The low 12 bits of `imm` are encoded.
    pub fn slti(&mut self, rd: u8, rs1: u8, imm: i32)
        requires
            old(self).wf(),
        ensures
            final(self).wf(),
            final(self)@ == old(self)@.push(Asm::Imm(ImmOp::Slti, rd, rs1, imm as int)),
    {
        self.line(i_type(imm, rs1, 0b010, rd, OP_IMM), Ghost(Asm::Imm(ImmOp::Slti, rd, rs1,
            imm as int)));
    }

    /// The low 12 bits of `imm` are encoded.
    pub fn sltiu(&mut self, rd: u8, rs1: u8, imm: i32)
        requires
            old(self).wf(),
        ensures
            final(self).wf(),
            final(self)@ == old(self)@.push(Asm::Imm(ImmOp::Sltiu, rd, rs1, imm as int)),
    {
        self.line(i_type(imm, rs1, 0b011, rd, OP_IMM), Ghost(Asm::Imm(ImmOp::Sltiu, rd, rs1,
            imm as int)));
    }

    /// The low 12 bits of `imm` are encoded.
    pub fn xori(&mut self, rd: u8, rs1: u8, imm: i32)
        requires
            old(self).wf(),
        ensures
            final(self).wf(),
            final(self)@ == old(self)@.push(Asm::Imm(ImmOp::Xori, rd, rs1, imm as int)),
    {
        self.line(i_type(imm, rs1, 0b100, rd, OP_IMM), Ghost(Asm::Imm(ImmOp::Xori, rd, rs1,
            imm as int)));
    }

    /// The low 12 bits of `imm` are encoded.
    pub fn ori(&mut self, rd: u8, rs1: u8, imm: i32)
        requires
            old(self).wf(),
        ensures
            final(self).wf(),
            final(self)@ == old(self)@.push(Asm::Imm(ImmOp::Ori, rd, rs1, imm as int)),
    {
        self.line(i_type(imm, rs1, 0b110, rd, OP_IMM), Ghost(Asm::Imm(ImmOp::Ori, rd, rs1, imm as int)));
    }

    /// The low 12 bits of `imm` are encoded.
    pub fn andi(&mut self, rd: u8, rs1: u8, imm: i32)
        requires
            old(self).wf(),
        ensures
            final(self).wf(),
            final(self)@ == old(self)@.push(Asm::Imm(ImmOp::Andi, rd, rs1, imm as int)),
    {
        self.line(i_type(imm, rs1, 0b111, rd, OP_IMM), Ghost(Asm::Imm(ImmOp::Andi, rd, rs1,
            imm as int)));
    }

    pub fn slli(&mut self, rd: u8, rs1: u8, shamt: u32)
        requires
            old(self).wf(),
            shamt < 32,
        ensures
            final(self).wf(),
            final(self)@ == old(self)@.push(Asm::Shift(ShiftOp::Slli, rd, rs1, shamt)),
    {
        self.line(
            i_type(shamt as i32, rs1, 0b001, rd, OP_IMM),
            Ghost(Asm::Shift(ShiftOp::Slli, rd, rs1, shamt)),
        );
    }

    pub fn srli(&mut self, rd: u8, rs1: u8, shamt: u32)
        requires
            old(self).wf(),
            shamt < 32,
        ensures
            final(self).wf(),
            final(self)@ == old(self)@.push(Asm::Shift(ShiftOp::Srli, rd, rs1, shamt)),
    {
        self.line(
            i_type(shamt as i32, rs1, 0b101, rd, OP_IMM),
            Ghost(Asm::Shift(ShiftOp::Srli, rd, rs1, shamt)),
        );
    }

    pub fn srai(&mut self, rd: u8, rs1: u8, shamt: u32)
        requires
            old(self).wf(),
            shamt < 32,
        ensures
            final(self).wf(),
            final(self)@ == old(self)@.push(Asm::Shift(ShiftOp::Srai, rd, rs1, shamt)),
    {
        assert(shamt < 32 ==> (shamt | 0x400) < 0x800) by (bit_vector);
        self.line(
            i_type((shamt | 0x400) as i32, rs1, 0b101, rd, OP_IMM),
            Ghost(Asm::Shift(ShiftOp::Srai, rd, rs1, shamt)),
        );
    }

    /// `mv rd, rs`, which is `addi rd, rs, 0`.
    pub fn mv(&mut self, rd: u8, rs: u8)
        requires
            old(self).wf(),
        ensures
            final(self).wf(),
            final(self)@ == old(self)@.push(mv_asm(rd, rs)),
    {
        self.addi(rd, rs, 0);
    }

    /// `addi zero, zero, 0`.
    pub fn nop(&mut self)
        requires
            old(self).wf(),
        ensures
            final(self).wf(),
            final(self)@ == old(self)@.push(addi_asm(ZERO, ZERO, 0)),
    {
        self.addi(ZERO, ZERO, 0);
    }

    pub fn lb(&mut self, rd: u8, offset: i32, base: u8)
        requires
            old(self).wf(),
        ensures
            final(self).wf(),
            final(self)@ == old(self)@.push(Asm::Load(LoadOp::Lb, rd, offset as int, base)),
    {
        self.line(
            i_type(offset, base, 0b000, rd, LOAD),
            Ghost(Asm::Load(LoadOp::Lb, rd, offset as int, base)),
        );
    }

    pub fn lh(&mut self, rd: u8, offset: i32, base: u8)
        requires
            old(self).wf(),
        ensures
            final(self).wf(),
            final(self)@ == old(self)@.push(Asm::Load(LoadOp::Lh, rd, offset as int, base)),
    {
        self.line(
            i_type(offset, base, 0b001, rd, LOAD),
            Ghost(Asm::Load(LoadOp::Lh, rd, offset as int, base)),
        );
    }

    pub fn lw(&mut self, rd: u8, offset: i32, base: u8)
        requires
            old(self).wf(),
        ensures
            final(self).wf(),
            final(self)@ == old(self)@.push(Asm::Load(LoadOp::Lw, rd, offset as int, base)),
    {
        self.line(
            i_type(offset, base, 0b010, rd, LOAD),
            Ghost(Asm::Load(LoadOp::Lw, rd, offset as int, base)),
        );
    }

    pub fn lbu(&mut self, rd: u8, offset: i32, base: u8)
        requires
            old(self).wf(),
        ensures
            final(self).wf(),
            final(self)@ == old(self)@.push(Asm::Load(LoadOp::Lbu, rd, offset as int, base)),
    {
        self.line(
            i_type(offset, base, 0b100, rd, LOAD),
            Ghost(Asm::Load(LoadOp::Lbu, rd, offset as int, base)),
        );
    }

    pub fn lhu(&mut self, rd: u8, offset: i32, base: u8)
        requires
            old(self).wf(),
        ensures
            final(self).wf(),
            final(self)@ == old(self)@.push(Asm::Load(LoadOp::Lhu, rd, offset as int, base)),
    {
        self.line(
            i_type(offset, base, 0b101, rd, LOAD),
            Ghost(Asm::Load(LoadOp::Lhu, rd, offset as int, base)),
        );
    }

    pub fn sb(&mut self, rs2: u8, offset: i32, base: u8)
        requires
            old(self).wf(),
        ensures
            final(self).wf(),
            final(self)@ == old(self)@.push(Asm::Store(StoreOp::Sb, rs2, offset as int, base)),
    {
        self.line(
            s_type(offset, rs2, base, 0b000, STORE),
            Ghost(Asm::Store(StoreOp::Sb, rs2, offset as int, base)),
        );
    }

    pub fn sh(&mut self, rs2: u8, offset: i32, base: u8)
        requires
            old(self).wf(),
        ensures
            final(self).wf(),
            final(self)@ == old(self)@.push(Asm::Store(StoreOp::Sh, rs2, offset as int, base)),
    {
        self.line(
            s_type(offset, rs2, base, 0b001, STORE),
            Ghost(Asm::Store(StoreOp::Sh, rs2, offset as int, base)),
        );
    }

    pub fn sw(&mut self, rs2: u8, offset: i32, base: u8)
        requires
            old(self).wf(),
        ensures
            final(self).wf(),
            final(self)@ == old(self)@.push(Asm::Store(StoreOp::Sw, rs2, offset as int, base)),
    {
        self.line(
            s_type(offset, rs2, base, 0b010, STORE),
            Ghost(Asm::Store(StoreOp::Sw, rs2, offset as int, base)),
        );
    }

    pub fn lui(&mut self, rd: u8, imm20: u32)
        requires
            old(self).wf(),
        ensures
            final(self).wf(),
            final(self)@ == old(self)@.push(Asm::Lui(rd, imm20)),
    {
        self.line(u_type(imm20, rd, LUI), Ghost(Asm::Lui(rd, imm20)));
    }

    pub fn auipc(&mut self, rd: u8, imm20: u32)
        requires
            old(self).wf(),
        ensures
            final(self).wf(),
            final(self)@ == old(self)@.push(Asm::Auipc(rd, imm20)),
    {
        self.line(u_type(imm20, rd, AUIPC), Ghost(Asm::Auipc(rd, imm20)));
    }

    /// `jalr rd, offset(rs1)`.
    pub fn jalr(&mut self, rd: u8, rs1: u8, offset: i32)
        requires
            old(self).wf(),
        ensures
            final(self).wf(),
            final(self)@ == old(self)@.push(Asm::Jalr(rd, rs1, offset as int)),
    {
        self.line(i_type(offset, rs1, 0b000, rd, JALR), Ghost(Asm::Jalr(rd, rs1, offset as int)));
    }

    /// `jalr zero, 0(ra)`.
    pub fn ret(&mut self)
        requires
            old(self).wf(),
        ensures
            final(self).wf(),
            final(self)@ == old(self)@.push(ret_asm()),
    {
        self.jalr(ZERO, RA, 0);
    }

    /// Writes a zero word for `jal rd, target_label`, to be replaced when the label is known.
    fn jal_fixup(&mut self, rd: u8, target_label: &str)
        ensures
            final(self).code@ == old(self).code@.push(byte_of(0, 0)).push(byte_of(0, 1)).push(
                byte_of(0, 2),
            ).push(byte_of(0, 3)),
            final(self).labels == old(self).labels,
            final(self).text == old(self).text,
            final(self).fixups@.len() == old(self).fixups@.len() + 1,
            final(self).fixups@.drop_last() == old(self).fixups@,
            final(self).fixups@.last().pos == old(self).code@.len(),
            final(self).fixups@.last().label@ == target_label@,
            final(self).fixups@.last().rd == rd,
    {
        let pos: usize = self.code.len();
        self.push(0);
        self.fixups.push(Fixup { pos, label: target_label.to_owned(), rd });
        assert(self.fixups@.drop_last() =~= old(self).fixups@);
    }

    /// `jal rd, target_label` as a line of its own.
    fn jal(&mut self, rd: u8, target_label: &str)
        requires
            old(self).wf(),
        ensures
            final(self).wf(),
            final(self)@ == old(self)@.push(Asm::Jal(rd, target_label@)),
    {
        let ghost t = self@;
        self.jal_fixup(rd, target_label);
        self.text = Ghost(t.push(Asm::Jal(rd, target_label@)));
        proof {
            assert(self@.drop_last() =~= t);
            lemma_unique_push(t, self@.last());
            lemma_le_push(raw_words(t), 0);
            lemma_raw_len(t);
            assert(raw_words(self@) =~= raw_words(t).push(0));
            assert forall|j: int| 0 <= j < holes(self@).len() implies {
                &&& (#[trigger] self.fixups@[j]).pos == 4 * holes(self@)[j].at
                &&& self.fixups@[j].label@ == holes(self@)[j].label
                &&& self.fixups@[j].rd == holes(self@)[j].rd
            } by {
                if j < holes(t).len() {
                    assert(self.fixups@.drop_last()[j] == self.fixups@[j]);
                }
            }
        }
    }

    /// `jal ra, target_label`: a call within the text.
    pub fn call(&mut self, target_label: &str)
        requires
            old(self).wf(),
        ensures
            final(self).wf(),
            final(self)@ == old(self)@.push(Asm::Jal(RA, target_label@)),
    {
        self.jal(RA, target_label);
    }

    /// `jal zero, target_label`: an unconditional jump.
    pub fn jump(&mut self, target_label: &str)
        requires
            old(self).wf(),
        ensures
            final(self).wf(),
            final(self)@ == old(self)@.push(Asm::Jal(ZERO, target_label@)),
    {
        self.jal(ZERO, target_label);
    }

    /// Goes to `target_label` when `cond` holds of the two registers: the opposite branch over
    /// one word, then a `jal`.
    pub fn branch(&mut self, cond: BCond, rs1: u8, rs2: u8, target_label: &str)
        requires
            old(self).wf(),
        ensures
            final(self).wf(),
            final(self)@ == old(self)@.push(Asm::Branch(cond, rs1, rs2, target_label@)),
    {
        let ghost t = self@;
        let word: u32 = b_type(8, rs2, rs1, cond.invert().funct3(), BRANCH);
        self.push(word);
        self.jal_fixup(ZERO, target_label);
        let ghost a = Asm::Branch(cond, rs1, rs2, target_label@);
        self.text = Ghost(t.push(a));
        proof {
            assert(self@.drop_last() =~= t);
            lemma_unique_push(t, self@.last());
            lemma_le_push(raw_words(t), word);
            lemma_le_push(raw_words(t).push(word), 0);
            lemma_raw_len(t);
            assert(raw_words(self@) =~= raw_words(t).push(word).push(0));
            assert forall|j: int| 0 <= j < holes(self@).len() implies {
                &&& (#[trigger] self.fixups@[j]).pos == 4 * holes(self@)[j].at
                &&& self.fixups@[j].label@ == holes(self@)[j].label
                &&& self.fixups@[j].rd == holes(self@)[j].rd
            } by {
                if j < holes(t).len() {
                    assert(self.fixups@.drop_last()[j] == self.fixups@[j]);
                }
            }
        }
    }

    /// Loads a 32-bit constant into `rd`: `lui` and `addi`, or one of them where it is enough.
    #[verifier::truncate]
    pub fn li32(&mut self, rd: u8, imm: i32)
        requires
            old(self).wf(),
        ensures
            final(self).wf(),
            final(self)@ == old(self)@.push(Asm::Li(rd, imm as int)),
    {
        let ghost t = self@;
        let imm_u: u32 = i32_to_u32(imm);
        let upper20: u32 = (imm_u.wrapping_add(0x800) >> 12) & 0xFFFFF;
        let low: u32 = imm_u & 0xFFF;
        assert(imm_u & 0xFFF <= 0xFFF) by (bit_vector);
        let lower: i32 = if low < 0x800 {
            low as i32
        } else {
            low as i32 - 0x1000
        };
        proof {
            lemma_le_push(raw_words(t), addi_word(rd, ZERO, lower));
            lemma_le_push(raw_words(t), u_word(upper20, rd, LUI));
            lemma_le_push(raw_words(t).push(u_word(upper20, rd, LUI)), addi_word(rd, rd, lower));
        }
        if upper20 == 0 {
            self.push(i_type(lower, ZERO, 0b000, rd, OP_IMM));
        } else {
            self.push(u_type(upper20, rd, LUI));
            if lower != 0 {
                self.push(i_type(lower, rd, 0b000, rd, OP_IMM));
            }
        }
        self.text = Ghost(t.push(Asm::Li(rd, imm as int)));
        proof {
            assert(self@.drop_last() =~= t);
            lemma_unique_push(t, self@.last());
            assert(upper20 == li_upper(imm)) by {
                reveal(low_u32);
            }
            assert(lower == li_lower(imm));
            if upper20 == 0 {
                assert(raw_words(self@) =~= raw_words(t).push(addi_word(rd, ZERO, lower)));
            } else if lower == 0 {
                assert(raw_words(self@) =~= raw_words(t).push(u_word(upper20, rd, LUI)));
            } else {
                assert(raw_words(self@) =~= raw_words(t).push(u_word(upper20, rd, LUI)).push(
                    addi_word(rd, rd, lower),
                ));
            }
        }
    }

    /// Whether every jump has a target in its reach, so that the code can be finished.
    pub fn is_linkable(&self) -> (r: bool)
        requires
            self.wf(),
        ensures
            r == linkable(self@),
    {
        let ghost t = self@;
        let ghost hs = holes(t);
        let mut j: usize = 0;
        while j < self.fixups.len()
            invariant
                self.wf(),
                t == self@,
                hs == holes(t),
                j <= self.fixups@.len(),
                forall|k: int| 0 <= k < j ==> hole_ok(#[trigger] hs[k], t),
            decreases self.fixups@.len() - j,
        {
            let pos: usize = self.fixups[j].pos;
            proof {
                assert(self.fixups@[j as int].pos == 4 * hs[j as int].at);
                lemma_table(self.labels@, t, hs[j as int].label);
            }
            let ok = match find_label(&self.labels, &self.fixups[j].label) {
                Some(target) => if target >= pos {
                    target - pos <= 0xF_FFFE
                } else {
                    pos - target <= 0x10_0000
                },
                None => false,
            };
            if !ok {
                proof {
                    lemma_linkable(t);
                    assert(!hole_ok(holes(t)[j as int], t));
                }
                return false;
            }
            j = j + 1;
        }
        proof {
            lemma_linkable(t);
        }
        true
    }

    /// Resolves every jump and returns the finished code.
    pub fn finish(self) -> (code: Vec<u8>)
        requires
            self.wf(),
            linkable(self@),
        ensures
            code@ == assemble(self@),
    {
        let ghost t = self@;
        let ghost hs = holes(t);
        let mut code = self.code;
        let labels = self.labels;
        let fixups = self.fixups;
        let mut j: usize = 0;
        assert(hs.take(0) =~= Seq::empty());
        proof {
            lemma_raw_len(t);
        }
        while j < fixups.len()
            invariant
                j <= fixups.len(),
                hs == holes(t),
                linkable(t),
                table_matches(labels@, t),
                fixups_match(fixups@, hs),
                raw_words(t).len() == text_len(t),
                code@ == le_bytes(filled(raw_words(t), hs.take(j as int), t)),
            decreases fixups.len() - j,
        {
            let ghost h = hs[j as int];
            let pos: usize = fixups[j].pos;
            proof {
                lemma_holes_bound(t);
                lemma_filled_len(raw_words(t), hs.take(j as int), t);
                let i = lemma_hole_line(t, j as int);
                assert(target_of(t[i]) is Some);
                assert(jumps(t, h.label)) by {
                    reveal(jumps);
                }
                lemma_table(labels@, t, h.label);
                reveal(defines);
                assert(hs.take(j as int + 1).drop_last() =~= hs.take(j as int));
                assert(hs.take(j as int + 1).last() == h);
            }
            match find_label(&labels, &fixups[j].label) {
                Some(target) => {
                    let rel: i32 = if target >= pos {
                        (target - pos) as i32
                    } else {
                        (-((pos - target) as i64)) as i32
                    };
                    assert(rel == hole_rel(h, t));
                    let word: u32 = j_type(rel, fixups[j].rd, JAL);
                    proof {
                        lemma_le_update(filled(raw_words(t), hs.take(j as int), t), h.at as int, word);
                    }
                    code.set(pos, (word & 0xFF) as u8);
                    code.set(pos + 1, ((word >> 8) & 0xFF) as u8);
                    code.set(pos + 2, ((word >> 16) & 0xFF) as u8);
                    code.set(pos + 3, ((word >> 24) & 0xFF) as u8);
                },
                None => {
                    assert(false);
                },
            }
            j = j + 1;
        }
        proof {
            assert(hs.take(hs.len() as int) =~= hs);
            lemma_filled_is_linked(t, t);
        }
        code
    }
}

impl Default for Enc {
    fn default() -> (e: Enc)
        ensures
            e.wf(),
            e@ == Seq::<Asm>::empty(),
    {
        Enc::new()
    }
}

// ---- laws ----------------------------------------------------------------------------------

/// A line takes two words at most.
pub proof fn lemma_few_words(text: Seq<Asm>)
    ensures
        text_len(text) <= 2 * text.len(),
    decreases text.len(),
{
    if text.len() > 0 {
        lemma_few_words(text.drop_last());
    }
}

pub proof fn lemma_line_counted(text: Seq<Asm>, i: int)
    requires
        0 <= i < text.len(),
    ensures
        text_len(text) >= line_len(text[i]),
{
    lemma_take_len(text, i);
}

/// Four bytes for each word.
pub proof fn law_code_is_whole_words(text: Seq<Asm>)
    ensures
        assemble(text).len() == 4 * text_len(text),
{
    lemma_linked_same(text, text, text);
}

/// Whether every jump of a text goes to a label of the text.
pub open spec fn closed(text: Seq<Asm>) -> bool {
    forall|n: Seq<char>| #[trigger] jumps(text, n) ==> defines(text, n)
}

proof fn lemma_joined_len(front: Seq<Asm>, text: Seq<Asm>)
    ensures
        text_len(front + text) == text_len(front) + text_len(text),
    decreases text.len(),
{
    if text.len() == 0 {
        assert(front + text =~= front);
    } else {
        lemma_joined_len(front, text.drop_last());
        assert((front + text).drop_last() =~= front + text.drop_last());
    }
}

/// The labels of a text that stands behind another.
proof fn lemma_joined_label(front: Seq<Asm>, text: Seq<Asm>, name: Seq<char>)
    ensures
        label_at(front + text, name) == match label_at(text, name) {
            Some(t) => Some(text_len(front) + t),
            None => label_at(front, name),
        },
    decreases text.len(),
{
    if text.len() == 0 {
        assert(front + text =~= front);
    } else {
        lemma_joined_label(front, text.drop_last(), name);
        lemma_joined_len(front, text.drop_last());
        assert((front + text).drop_last() =~= front + text.drop_last());
        assert((front + text).last() == text.last());
    }
}

/// What two texts, one behind the other, jump to and define.
pub proof fn lemma_joined_names(front: Seq<Asm>, text: Seq<Asm>, name: Seq<char>)
    ensures
        jumps(front + text, name) <==> jumps(front, name) || jumps(text, name),
        defines(front + text, name) <==> defines(front, name) || defines(text, name),
{
    reveal(jumps);
    reveal(defines);
    lemma_joined_label(front, text, name);
    let whole = front + text;
    if jumps(whole, name) {
        let i = choose|i: int| 0 <= i < whole.len() && #[trigger] target_of(whole[i]) == Some(name);
        if i < front.len() {
            assert(target_of(front[i]) == Some(name));
        } else {
            assert(target_of(text[i - front.len()]) == Some(name));
        }
    }
    if jumps(front, name) {
        let i = choose|i: int| 0 <= i < front.len() && #[trigger] target_of(front[i]) == Some(name);
        assert(target_of(whole[i]) == Some(name));
    }
    if jumps(text, name) {
        let i = choose|i: int| 0 <= i < text.len() && #[trigger] target_of(text[i]) == Some(name);
        assert(target_of(whole[i + front.len()]) == Some(name));
    }
}

/// The words of a part of a closed text that stands behind another text.
proof fn lemma_linked_moves(front: Seq<Asm>, part: Seq<Asm>, text: Seq<Asm>)
    requires
        closed(text),
        part.len() <= text.len(),
        text.take(part.len() as int) == part,
    ensures
        linked_words(front + part, front + text) == linked_words(front, front + text)
            + linked_words(part, text),
    decreases part.len(),
{
    if part.len() == 0 {
        assert(front + part =~= front);
        assert(linked_words(part, text) =~= Seq::empty());
    } else {
        let less = part.drop_last();
        let a = part.last();
        assert(text.take(less.len() as int) =~= less);
        lemma_linked_moves(front, less, text);
        lemma_joined_len(front, less);
        assert((front + part).drop_last() =~= front + less);
        assert((front + part).last() == a);
        if let Some(l) = target_of(a) {
            assert(text.take(part.len() as int)[part.len() - 1] == text[part.len() - 1]);
            reveal(jumps);
            reveal(defines);
            assert(jumps(text, l));
            lemma_joined_label(front, text, l);
        }
        assert(linked_words(front + part, front + text) =~= linked_words(front, front + text)
            + linked_words(part, text));
    }
}

/// The words of a text without jumps do not depend on labels.
proof fn lemma_linked_alone(text: Seq<Asm>, whole: Seq<Asm>)
    requires
        forall|n: Seq<char>| !#[trigger] jumps(text, n),
    ensures
        linked_words(text, whole) == linked_words(text, text),
    decreases text.len(),
{
    if text.len() > 0 {
        let front = text.drop_last();
        let a = text.last();
        assert forall|n: Seq<char>| !#[trigger] jumps(front, n) by {
            lemma_jumps_push(front, a, n);
            assert(front.push(a) =~= text);
        }
        lemma_linked_alone(front, whole);
        lemma_linked_alone(front, text);
        if let Some(l) = target_of(a) {
            lemma_jumps_push(front, a, l);
            assert(front.push(a) =~= text);
        }
    }
}

proof fn lemma_joined_bytes(a: Seq<u32>, b: Seq<u32>)
    ensures
        le_bytes(a + b) == le_bytes(a) + le_bytes(b),
{
    assert(le_bytes(a + b) =~= le_bytes(a) + le_bytes(b));
}

/// A closed text has the same bytes wherever it stands: behind another text without jumps, the
/// bytes of the one follow those of the other, and nothing gets out of reach.
pub proof fn law_closed_text_moves(front: Seq<Asm>, text: Seq<Asm>)
    requires
        closed(text),
        forall|n: Seq<char>| !#[trigger] jumps(front, n),
    ensures
        assemble(front + text) == assemble(front) + assemble(text),
        in_reach(text) ==> linkable(front + text),
{
    let whole = front + text;
    assert(text.take(text.len() as int) =~= text);
    lemma_linked_moves(front, text, text);
    lemma_linked_alone(front, whole);
    lemma_joined_bytes(linked_words(front, front), linked_words(text, text));
    if in_reach(text) {
        reveal(jumps);
        reveal(defines);
        assert forall|i: int| 0 <= i < whole.len() && #[trigger] target_of(whole[i]) is Some implies
            -0x10_0000 <= rel_of(whole[i], text_len(whole.take(i)), whole) <= 0xF_FFFE by {
            let l = target_of(whole[i])->0;
            if i < front.len() {
                assert(whole[i] == front[i]);
                assert(jumps(front, l));
            } else {
                let k = i - front.len();
                assert(whole[i] == text[k]);
                assert(target_of(text[k]) is Some);
                assert(jumps(text, l));
                assert(whole.take(i) =~= front + text.take(k));
                lemma_joined_len(front, text.take(k));
                lemma_joined_label(front, text, l);
            }
        }
        assert forall|n: Seq<char>| #[trigger] jumps(whole, n) implies defines(whole, n) by {
            let i = choose|i: int| 0 <= i < whole.len() && #[trigger] target_of(whole[i]) == Some(n);
            if i < front.len() {
                assert(target_of(front[i]) == Some(n));
                assert(jumps(front, n));
            } else {
                assert(target_of(text[i - front.len()]) == Some(n));
                assert(jumps(text, n));
                lemma_joined_label(front, text, n);
            }
        }
    }
}

/// Whether two texts are the same but for the registers that calls link in.
spec fn alike(a: Seq<Asm>, b: Seq<Asm>) -> bool {
    &&& a.len() == b.len()
    &&& forall|i: int|
        0 <= i < a.len() ==> (#[trigger] a[i] == b[i] || (a[i] is Jal && b[i] is Jal && target_of(
            a[i],
        ) == target_of(b[i])))
}

proof fn lemma_alike(a: Seq<Asm>, b: Seq<Asm>, name: Seq<char>)
    requires
        alike(a, b),
    ensures
        text_len(a) == text_len(b),
        label_at(a, name) == label_at(b, name),
    decreases a.len(),
{
    if a.len() > 0 {
        let n = a.len() - 1;
        assert(a[n] == b[n] || a[n] is Jal);
        assert forall|i: int| 0 <= i < n implies (#[trigger] a.drop_last()[i] == b.drop_last()[i]
            || (a.drop_last()[i] is Jal && b.drop_last()[i] is Jal && target_of(a.drop_last()[i])
            == target_of(b.drop_last()[i]))) by {
            assert(a.drop_last()[i] == a[i]);
        }
        lemma_alike(a.drop_last(), b.drop_last(), name);
    }
}

/// What follows in a text of one whole follows in that of another with the same labels.
proof fn lemma_linked_same(text: Seq<Asm>, a: Seq<Asm>, b: Seq<Asm>)
    requires
        forall|n: Seq<char>| #[trigger] label_at(a, n) == label_at(b, n),
    ensures
        linked_words(text, a) == linked_words(text, b),
        linked_words(text, a).len() == text_len(text),
    decreases text.len(),
{
    if text.len() > 0 {
        lemma_linked_same(text.drop_last(), a, b);
    }
}

proof fn lemma_linked_alike(
    front: Seq<Asm>,
    x: Asm,
    y: Asm,
    part: Seq<Asm>,
    a: Seq<Asm>,
    b: Seq<Asm>,
)
    requires
        forall|n: Seq<char>| #[trigger] label_at(a, n) == label_at(b, n),
        x is Jal && y is Jal && target_of(x) == target_of(y),
    ensures
        ({
            let wa = linked_words(front.push(x) + part, a);
            let wb = linked_words(front.push(y) + part, b);
            let p = text_len(front) as int;
            let rel = rel_of(x, text_len(front), a) as i32;
            &&& wa.len() == wb.len()
            &&& wa.len() == text_len(front.push(x) + part)
            &&& p < wa.len()
            &&& forall|k: int| 0 <= k < wa.len() && k != p ==> #[trigger] wa[k] == wb[k]
            &&& wa[p] == line_words(x, rel)[0]
            &&& wb[p] == line_words(y, rel)[0]
        }),
    decreases part.len(),
{
    let ta = front.push(x) + part;
    let tb = front.push(y) + part;
    if part.len() == 0 {
        assert(ta =~= front.push(x) && tb =~= front.push(y));
        assert(ta.drop_last() =~= front && tb.drop_last() =~= front);
        lemma_linked_same(front, a, b);
        assert(rel_of(x, text_len(front), a) == rel_of(y, text_len(front), b));
    } else {
        let less = part.drop_last();
        lemma_linked_alike(front, x, y, less, a, b);
        assert(ta.drop_last() =~= front.push(x) + less);
        assert(tb.drop_last() =~= front.push(y) + less);
        assert(ta.last() == part.last() && tb.last() == part.last());
        lemma_linked_same(front.push(x) + less, a, a);
        lemma_linked_same(front.push(y) + less, b, b);
        let c = part.last();
        assert(rel_of(c, text_len(ta.drop_last()), a) == rel_of(c, text_len(tb.drop_last()), b));
    }
}

/// A call is a jump that links: where the one stands in place of the other, the code differs in
/// that one word, and there only in the register, which is `ra` in place of `zero`.
pub proof fn law_call_is_a_jump_that_links(front: Seq<Asm>, back: Seq<Asm>, l: Seq<char>)
    ensures
        ({
            let a = front.push(Asm::Jal(RA, l)) + back;
            let b = front.push(Asm::Jal(ZERO, l)) + back;
            let wa = linked_words(a, a);
            let wb = linked_words(b, b);
            let p = text_len(front) as int;
            let rel = rel_of(Asm::Jal(ZERO, l), text_len(front), b) as i32;
            &&& linkable(a) <==> linkable(b)
            &&& assemble(a) == le_bytes(wa) && assemble(b) == le_bytes(wb)
            &&& wa.len() == wb.len()
            &&& p < wa.len()
            &&& forall|k: int| 0 <= k < wa.len() && k != p ==> #[trigger] wa[k] == wb[k]
            &&& wb[p] == j_word(rel, ZERO, JAL)
            &&& wa[p] == j_word(rel, RA, JAL)
            &&& wa[p] == wb[p] | 0x80
        }),
{
    let x = Asm::Jal(RA, l);
    let y = Asm::Jal(ZERO, l);
    let a = front.push(x) + back;
    let b = front.push(y) + back;
    assert(alike(a, b) && alike(b, a));
    assert forall|n: Seq<char>| #[trigger] label_at(a, n) == label_at(b, n) by {
        lemma_alike(a, b, n);
    }
    lemma_linked_alike(front, x, y, back, a, b);
    let rel = rel_of(y, text_len(front), b) as i32;
    assert(rel == rel_of(x, text_len(front), a) as i32);
    lemma_link_bit(rel);
    if linkable(a) {
        lemma_alike_linkable(a, b);
    }
    if linkable(b) {
        lemma_alike_linkable(b, a);
    }
}

proof fn lemma_link_bit(rel: i32)
    ensures
        j_word(rel, RA, JAL) == j_word(rel, ZERO, JAL) | 0x80,
{
    let i = low_u32(rel as int);
    let w = (((i >> 20) & 1) << 31) | (((i >> 1) & 0x3FF) << 21) | (((i >> 11) & 1) << 20) | (((i
        >> 12) & 0xFF) << 12);
    assert(w | (1u32 << 7) | JAL == (w | (0u32 << 7) | JAL) | 0x80) by (bit_vector);
}

proof fn lemma_alike_linkable(a: Seq<Asm>, b: Seq<Asm>)
    requires
        alike(a, b),
        linkable(a),
    ensures
        linkable(b),
{
    reveal(jumps);
    reveal(defines);
    assert forall|i: int| 0 <= i < b.len() && #[trigger] target_of(b[i]) is Some implies -0x10_0000
        <= rel_of(b[i], text_len(b.take(i)), b) <= 0xF_FFFE by {
        assert(a[i] == b[i] || a[i] is Jal);
        assert(target_of(a[i]) == target_of(b[i]));
        assert(alike(a.take(i), b.take(i))) by {
            assert forall|j: int| 0 <= j < i implies (#[trigger] a.take(i)[j] == b.take(i)[j] || (
            a.take(i)[j] is Jal && b.take(i)[j] is Jal && target_of(a.take(i)[j]) == target_of(
                b.take(i)[j],
            ))) by {
                assert(a.take(i)[j] == a[j]);
            }
        }
        lemma_alike(a.take(i), b.take(i), target_of(b[i])->0);
        lemma_alike(a, b, target_of(b[i])->0);
    }
    assert forall|n: Seq<char>| #[trigger] jumps(b, n) implies defines(b, n) by {
        let i = choose|i: int| 0 <= i < b.len() && #[trigger] target_of(b[i]) == Some(n);
        assert(a[i] == b[i] || a[i] is Jal);
        assert(target_of(a[i]) == Some(n));
        assert(jumps(a, n));
        lemma_alike(a, b, n);
    }
}

} // verus!
