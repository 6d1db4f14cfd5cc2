//! What an instruction word does, by its fields, and that the words of a line of assembly text do
//! what the line says.

use vstd::prelude::*;

use crate::bits::low_u32;
use crate::rv::enc::{
    addi_word, alu_functs, b_word, byte_of, i_word, imm_funct3, j_word, le_bytes, li_lower,
    li_upper, li_words, line_words, mul_funct3, r_word, s_word, u_word, AluOp, Asm, BCond, ImmOp,
    MulOp, ShiftOp, BRANCH, JAL, LUI, OP, OP_IMM, ZERO,
};
use crate::rv::machine::{
    alu, computes, exec_line, get, imm_op, muldiv, shift, sum, word, wrote, Regs,
};

verus! {

broadcast use crate::rv::machine::group_machine;

// ---- the fields of a word ------------------------------------------------------------------

pub open spec fn opcode_of(w: u32) -> u32 {
    w & 0x7F
}

pub open spec fn rd_of(w: u32) -> u8 {
    ((w >> 7) & 0x1F) as u8
}

pub open spec fn funct3_of(w: u32) -> u32 {
    (w >> 12) & 0x7
}

pub open spec fn rs1_of(w: u32) -> u8 {
    ((w >> 15) & 0x1F) as u8
}

pub open spec fn rs2_of(w: u32) -> u8 {
    ((w >> 20) & 0x1F) as u8
}

pub open spec fn funct7_of(w: u32) -> u32 {
    w >> 25
}

/// A number of `2 * half` values in two's complement.
pub open spec fn extended(x: u32, half: int) -> int {
    if x < half {
        x as int
    } else {
        x - 2 * half
    }
}

/// The immediate of the I format.
pub open spec fn i_imm(w: u32) -> int {
    extended(w >> 20, 0x800)
}

/// The immediate of the S format.
pub open spec fn s_imm(w: u32) -> int {
    extended(((w >> 25) << 5) | ((w >> 7) & 0x1F), 0x800)
}

/// The immediate of the B format.
pub open spec fn b_imm(w: u32) -> int {
    extended(
        ((w >> 31) << 12) | (((w >> 7) & 1) << 11) | (((w >> 25) & 0x3F) << 5) | (((w >> 8) & 0xF)
            << 1),
        0x1000,
    )
}

/// The immediate of the J format.
pub open spec fn j_imm(w: u32) -> int {
    extended(
        ((w >> 31) << 20) | (((w >> 12) & 0xFF) << 12) | (((w >> 20) & 1) << 11) | (((w >> 21)
            & 0x3FF) << 1),
        0x10_0000,
    )
}

/// The fields of a word of the R format are those that it was made of.
pub proof fn law_r_word(funct7: u32, rs2: u8, rs1: u8, funct3: u32, rd: u8, opcode: u32)
    requires
        funct7 < 0x80 && rs2 < 32 && rs1 < 32 && funct3 < 8 && rd < 32 && opcode < 0x80,
    ensures
        ({
            let w = r_word(funct7, rs2, rs1, funct3, rd, opcode);
            &&& opcode_of(w) == opcode
            &&& rd_of(w) == rd
            &&& funct3_of(w) == funct3
            &&& rs1_of(w) == rs1
            &&& rs2_of(w) == rs2
            &&& funct7_of(w) == funct7
        }),
{
    let w = r_word(funct7, rs2, rs1, funct3, rd, opcode);
    assert(w & 0x7F == opcode && (w >> 7) & 0x1F == rd as u32 && (w >> 12) & 0x7 == funct3 && (w
        >> 15) & 0x1F == rs1 as u32 && (w >> 20) & 0x1F == rs2 as u32 && w >> 25 == funct7)
        by (bit_vector)
        requires
            w == (funct7 << 25) | ((rs2 as u32) << 20) | ((rs1 as u32) << 15) | (funct3 << 12) | ((
            rd as u32) << 7) | opcode,
            funct7 < 0x80 && rs2 < 32 && rs1 < 32 && funct3 < 8 && rd < 32 && opcode < 0x80,
    ;
}

/// The fields of a word of the I format are those that it was made of.
pub proof fn law_i_word(imm: i32, rs1: u8, funct3: u32, rd: u8, opcode: u32)
    requires
        -2048 <= imm <= 2047 && rs1 < 32 && funct3 < 8 && rd < 32 && opcode < 0x80,
    ensures
        ({
            let w = i_word(imm, rs1, funct3, rd, opcode);
            &&& opcode_of(w) == opcode
            &&& rd_of(w) == rd
            &&& funct3_of(w) == funct3
            &&& rs1_of(w) == rs1
            &&& i_imm(w) == imm
            &&& 0 <= imm < 32 ==> rs2_of(w) == imm && funct7_of(w) == 0
            &&& 0x400 <= imm < 0x420 ==> rs2_of(w) == imm - 0x400 && funct7_of(w) == 0b0100000
        }),
{
    let w = i_word(imm, rs1, funct3, rd, opcode);
    let x = low_u32(imm as int);
    assert(w & 0x7F == opcode && (w >> 7) & 0x1F == rd as u32 && (w >> 12) & 0x7 == funct3 && (w
        >> 15) & 0x1F == rs1 as u32 && w >> 20 == x % 0x1000 && (w >> 20) & 0x1F == x % 32 && w
        >> 25 == (x % 0x1000) / 32) by (bit_vector)
        requires
            w == ((x & 0xFFF) << 20) | ((rs1 as u32) << 15) | (funct3 << 12) | ((rd as u32) << 7)
                | opcode,
            rs1 < 32 && funct3 < 8 && rd < 32 && opcode < 0x80,
    ;
    lemma_low_bits(imm as int);
}

/// The low bits of a small number.
proof fn lemma_low_bits(imm: int)
    requires
        -2048 <= imm <= 2047,
    ensures
        low_u32(imm) % 0x1000 == if imm < 0 {
            imm + 0x1000
        } else {
            imm
        },
        0 <= imm < 32 ==> low_u32(imm) % 32 == imm,
        0x400 <= imm < 0x420 ==> low_u32(imm) % 32 == imm - 0x400,
{
    reveal(low_u32);
}

/// The fields of a word of the S format are those that it was made of.
pub proof fn law_s_word(imm: i32, rs2: u8, rs1: u8, funct3: u32, opcode: u32)
    requires
        -2048 <= imm <= 2047 && rs2 < 32 && rs1 < 32 && funct3 < 8 && opcode < 0x80,
    ensures
        ({
            let w = s_word(imm, rs2, rs1, funct3, opcode);
            &&& opcode_of(w) == opcode
            &&& funct3_of(w) == funct3
            &&& rs1_of(w) == rs1
            &&& rs2_of(w) == rs2
            &&& s_imm(w) == imm
        }),
{
    let w = s_word(imm, rs2, rs1, funct3, opcode);
    let x = low_u32(imm as int);
    lemma_low_bits(imm as int);
    assert(w & 0x7F == opcode && (w >> 12) & 0x7 == funct3 && (w >> 15) & 0x1F == rs1 as u32 && (w
        >> 20) & 0x1F == rs2 as u32 && ((w >> 25) << 5) | ((w >> 7) & 0x1F) == x % 0x1000)
        by (bit_vector)
        requires
            w == (((x >> 5) & 0x7F) << 25) | ((rs2 as u32) << 20) | ((rs1 as u32) << 15) | (funct3
                << 12) | ((x & 0x1F) << 7) | opcode,
            rs2 < 32 && rs1 < 32 && funct3 < 8 && opcode < 0x80,
    ;
}

/// The fields of a word of the B format are those that it was made of.
pub proof fn law_b_word(imm: i32, rs2: u8, rs1: u8, funct3: u32, opcode: u32)
    requires
        -4096 <= imm <= 4094 && imm % 2 == 0 && rs2 < 32 && rs1 < 32 && funct3 < 8 && opcode < 0x80,
    ensures
        ({
            let w = b_word(imm, rs2, rs1, funct3, opcode);
            &&& opcode_of(w) == opcode
            &&& funct3_of(w) == funct3
            &&& rs1_of(w) == rs1
            &&& rs2_of(w) == rs2
            &&& b_imm(w) == imm
        }),
{
    let w = b_word(imm, rs2, rs1, funct3, opcode);
    let x = low_u32(imm as int);
    reveal(low_u32);
    assert(x % 2 == 0);
    assert(w & 0x7F == opcode && (w >> 12) & 0x7 == funct3 && (w >> 15) & 0x1F == rs1 as u32 && (w
        >> 20) & 0x1F == rs2 as u32 && ((w >> 31) << 12) | (((w >> 7) & 1) << 11) | (((w >> 25)
        & 0x3F) << 5) | (((w >> 8) & 0xF) << 1) == x % 0x2000) by (bit_vector)
        requires
            w == (((x >> 12) & 1) << 31) | (((x >> 5) & 0x3F) << 25) | ((rs2 as u32) << 20) | ((
            rs1 as u32) << 15) | (funct3 << 12) | (((x >> 1) & 0xF) << 8) | (((x >> 11) & 1) << 7)
                | opcode,
            x % 2 == 0,
            rs2 < 32 && rs1 < 32 && funct3 < 8 && opcode < 0x80,
    ;
}

/// The fields of a word of the U format are those that it was made of.
pub proof fn law_u_word(imm20: u32, rd: u8, opcode: u32)
    requires
        imm20 < 0x10_0000 && rd < 32 && opcode < 0x80,
    ensures
        ({
            let w = u_word(imm20, rd, opcode);
            &&& opcode_of(w) == opcode
            &&& rd_of(w) == rd
            &&& w & 0xFFFF_F000 == imm20 << 12
            &&& imm20 << 12 == imm20 * 0x1000
        }),
{
    let w = u_word(imm20, rd, opcode);
    assert(w & 0x7F == opcode && (w >> 7) & 0x1F == rd as u32 && w & 0xFFFF_F000 == imm20 << 12
        && imm20 << 12 == imm20 * 0x1000) by (bit_vector)
        requires
            w == ((imm20 & 0xFFFFF) << 12) | ((rd as u32) << 7) | opcode,
            imm20 < 0x10_0000 && rd < 32 && opcode < 0x80,
    ;
}

/// The fields of a word of the J format are those that it was made of.
pub proof fn law_j_word(imm: i32, rd: u8, opcode: u32)
    requires
        -0x10_0000 <= imm <= 0xF_FFFE && imm % 2 == 0 && rd < 32 && opcode < 0x80,
    ensures
        ({
            let w = j_word(imm, rd, opcode);
            &&& opcode_of(w) == opcode
            &&& rd_of(w) == rd
            &&& j_imm(w) == imm
        }),
{
    let w = j_word(imm, rd, opcode);
    let x = low_u32(imm as int);
    reveal(low_u32);
    assert(x % 2 == 0);
    assert(w & 0x7F == opcode && (w >> 7) & 0x1F == rd as u32 && ((w >> 31) << 20) | (((w >> 12)
        & 0xFF) << 12) | (((w >> 20) & 1) << 11) | (((w >> 21) & 0x3FF) << 1) == x % 0x20_0000)
        by (bit_vector)
        requires
            w == (((x >> 20) & 1) << 31) | (((x >> 1) & 0x3FF) << 21) | (((x >> 11) & 1) << 20) | (((
            x >> 12) & 0xFF) << 12) | ((rd as u32) << 7) | opcode,
            x % 2 == 0,
            rd < 32 && opcode < 0x80,
    ;
}

// ---- what a word does ----------------------------------------------------------------------

/// The operation of a register-register word of the base set.
pub open spec fn alu_at(funct7: u32, funct3: u32) -> Option<AluOp> {
    if funct7 == 0 {
        match funct3 {
            0b000 => Some(AluOp::Add),
            0b001 => Some(AluOp::Sll),
            0b010 => Some(AluOp::Slt),
            0b011 => Some(AluOp::Sltu),
            0b100 => Some(AluOp::Xor),
            0b101 => Some(AluOp::Srl),
            0b110 => Some(AluOp::Or),
            _ => Some(AluOp::And),
        }
    } else if funct7 == 0b0100000 && funct3 == 0b000 {
        Some(AluOp::Sub)
    } else if funct7 == 0b0100000 && funct3 == 0b101 {
        Some(AluOp::Sra)
    } else {
        None
    }
}

/// The operation of a register-register word of the M extension.
pub open spec fn mul_at(funct3: u32) -> MulOp {
    match funct3 {
        0b000 => MulOp::Mul,
        0b001 => MulOp::Mulh,
        0b010 => MulOp::Mulhsu,
        0b011 => MulOp::Mulhu,
        0b100 => MulOp::Div,
        0b101 => MulOp::Divu,
        0b110 => MulOp::Rem,
        _ => MulOp::Remu,
    }
}

/// The operation of a register-immediate word that is no shift.
pub open spec fn imm_at(funct3: u32) -> Option<ImmOp> {
    match funct3 {
        0b000 => Some(ImmOp::Addi),
        0b010 => Some(ImmOp::Slti),
        0b011 => Some(ImmOp::Sltiu),
        0b100 => Some(ImmOp::Xori),
        0b110 => Some(ImmOp::Ori),
        0b111 => Some(ImmOp::Andi),
        _ => None,
    }
}

/// The condition of a branch word.
pub open spec fn cond_at(funct3: u32) -> Option<BCond> {
    match funct3 {
        0b000 => Some(BCond::Eq),
        0b001 => Some(BCond::Ne),
        0b100 => Some(BCond::Lt),
        0b101 => Some(BCond::Ge),
        0b110 => Some(BCond::Ltu),
        0b111 => Some(BCond::Geu),
        _ => None,
    }
}

/// How far a word moves the program counter, in bytes, and the registers after it. Loads, stores,
/// calls and returns are left out.
pub open spec fn word_exec(w: u32, s: Regs) -> Option<(int, Regs)> {
    let x = get(s, rs1_of(w));
    let y = get(s, rs2_of(w));
    if opcode_of(w) == OP && funct7_of(w) == 1 {
        Some((4, wrote(s, rd_of(w), muldiv(mul_at(funct3_of(w)), x, y))))
    } else if opcode_of(w) == OP {
        match alu_at(funct7_of(w), funct3_of(w)) {
            Some(op) => Some((4, wrote(s, rd_of(w), alu(op, x, y)))),
            None => None,
        }
    } else if opcode_of(w) == OP_IMM && funct3_of(w) == 0b001 && funct7_of(w) == 0 {
        Some((4, wrote(s, rd_of(w), shift(ShiftOp::Slli, x, rs2_of(w) as u32))))
    } else if opcode_of(w) == OP_IMM && funct3_of(w) == 0b101 && funct7_of(w) == 0 {
        Some((4, wrote(s, rd_of(w), shift(ShiftOp::Srli, x, rs2_of(w) as u32))))
    } else if opcode_of(w) == OP_IMM && funct3_of(w) == 0b101 && funct7_of(w) == 0b0100000 {
        Some((4, wrote(s, rd_of(w), shift(ShiftOp::Srai, x, rs2_of(w) as u32))))
    } else if opcode_of(w) == OP_IMM {
        match imm_at(funct3_of(w)) {
            Some(op) => Some((4, wrote(s, rd_of(w), imm_op(op, x, word(i_imm(w)))))),
            None => None,
        }
    } else if opcode_of(w) == LUI {
        Some((4, wrote(s, rd_of(w), w & 0xFFFF_F000)))
    } else if opcode_of(w) == JAL && rd_of(w) == ZERO {
        Some((j_imm(w), s))
    } else if opcode_of(w) == BRANCH {
        match cond_at(funct3_of(w)) {
            Some(c) => Some(
                (
                    if c.holds(x, y) {
                        b_imm(w)
                    } else {
                        4
                    },
                    s,
                ),
            ),
            None => None,
        }
    } else {
        None
    }
}

/// The registers after words each of which goes on to the next.
pub open spec fn words_exec(words: Seq<u32>, s: Regs) -> Option<Regs>
    decreases words.len(),
{
    if words.len() == 0 {
        Some(s)
    } else {
        match words_exec(words.drop_last(), s) {
            Some(t) => match word_exec(words.last(), t) {
                Some((d, u)) => if d == 4 {
                    Some(u)
                } else {
                    None
                },
                None => None,
            },
            None => None,
        }
    }
}

/// Whether the registers and immediates of a line are those that a word has room for.
pub open spec fn encodable(a: Asm) -> bool {
    match a {
        Asm::Alu(_, rd, rs1, rs2) => rd < 32 && rs1 < 32 && rs2 < 32,
        Asm::Mul(_, rd, rs1, rs2) => rd < 32 && rs1 < 32 && rs2 < 32,
        Asm::Imm(_, rd, rs1, imm) => rd < 32 && rs1 < 32 && -2048 <= imm <= 2047,
        Asm::Shift(_, rd, rs1, n) => rd < 32 && rs1 < 32 && n < 32,
        Asm::Lui(rd, imm20) => rd < 32 && imm20 < 0x10_0000,
        Asm::Li(rd, imm) => 0 < rd < 32 && i32::MIN <= imm <= i32::MAX,
        Asm::Branch(_, rs1, rs2, _) => rs1 < 32 && rs2 < 32,
        Asm::Jal(rd, _) => rd < 32,
        _ => true,
    }
}

proof fn lemma_one_word(w: u32, s: Regs, t: Regs)
    requires
        word_exec(w, s) == Some((4int, t)),
    ensures
        words_exec(seq![w], s) == Some(t),
{
    reveal_with_fuel(words_exec, 2);
    assert(seq![w].drop_last() =~= Seq::empty());
}

/// The upper part of a constant, shifted, and the lower part add up to it.
pub proof fn law_constant_splits(imm: i32)
    ensures
        -2048 <= li_lower(imm) <= 2047,
        li_upper(imm) < 0x10_0000,
        sum(low_u32(li_upper(imm) * 0x1000), word(li_lower(imm) as int)) == word(imm as int),
        li_upper(imm) == 0 ==> li_lower(imm) == imm,
{
    let x = low_u32(imm as int);
    let y = low_u32(imm + 0x800);
    reveal(low_u32);
    assert(x & 0xFFF == x % 0x1000 && (y >> 12) & 0xFFFFF == y / 0x1000) by (bit_vector);
}

/// The words of a line that only computes do what the line says.
pub proof fn law_words_of_a_line(a: Asm, s: Regs)
    requires
        computes(a),
        encodable(a),
    ensures
        words_exec(line_words(a, 0), s) == Some(exec_line(a, s)),
{
    let t = exec_line(a, s);
    match a {
        Asm::Label(_) => {},
        Asm::Alu(op, rd, rs1, rs2) => {
            law_r_word(alu_functs(op).0, rs2, rs1, alu_functs(op).1, rd, OP);
            lemma_one_word(r_word(alu_functs(op).0, rs2, rs1, alu_functs(op).1, rd, OP), s, t);
        },
        Asm::Mul(op, rd, rs1, rs2) => {
            law_r_word(1, rs2, rs1, mul_funct3(op), rd, OP);
            lemma_one_word(r_word(1, rs2, rs1, mul_funct3(op), rd, OP), s, t);
        },
        Asm::Imm(op, rd, rs1, imm) => {
            law_i_word(imm as i32, rs1, imm_funct3(op), rd, OP_IMM);
            lemma_one_word(i_word(imm as i32, rs1, imm_funct3(op), rd, OP_IMM), s, t);
        },
        Asm::Shift(op, rd, rs1, n) => {
            assert(n < 32 ==> n | 0x400 == n + 0x400) by (bit_vector);
            let f = if op == ShiftOp::Slli {
                0b001u32
            } else {
                0b101
            };
            let imm = if op == ShiftOp::Srai {
                (n | 0x400) as i32
            } else {
                n as i32
            };
            law_i_word(imm, rs1, f, rd, OP_IMM);
            lemma_one_word(i_word(imm, rs1, f, rd, OP_IMM), s, t);
        },
        Asm::Lui(rd, imm20) => {
            law_u_word(imm20, rd, LUI);
            lemma_one_word(u_word(imm20, rd, LUI), s, t);
        },
        Asm::Li(rd, imm) => {
            lemma_words_of_a_constant(rd, imm as i32, s);
        },
        _ => {},
    }
}

proof fn lemma_words_of_a_constant(rd: u8, imm: i32, s: Regs)
    requires
        0 < rd < 32,
    ensures
        words_exec(li_words(rd, imm), s) == Some(wrote(s, rd, word(imm as int))),
{
    let up = li_upper(imm);
    let low = li_lower(imm);
    reveal(low_u32);
    law_constant_splits(imm);
    law_u_word(up, rd, LUI);
    law_i_word(low, ZERO, 0, rd, OP_IMM);
    law_i_word(low, rd, 0, rd, OP_IMM);
    let t = wrote(s, rd, up << 12);
    lemma_wrote_twice(s, rd, up << 12, word(imm as int));
    if up == 0 {
        lemma_one_word(addi_word(rd, ZERO, low), s, wrote(s, rd, word(imm as int)));
    } else {
        lemma_one_word(u_word(up, rd, LUI), s, t);
        if low != 0 {
            let w = seq![u_word(up, rd, LUI), addi_word(rd, rd, low)];
            assert(w.drop_last() =~= seq![u_word(up, rd, LUI)]);
            assert(word_exec(w.last(), t) == Some((4int, wrote(t, rd, word(imm as int)))));
            assert(words_exec(w, s) == Some(wrote(t, rd, word(imm as int))));
        }
    }
}

proof fn lemma_wrote_twice(s: Regs, r: u8, v: u32, w: u32)
    ensures
        wrote(wrote(s, r, v), r, w) == wrote(s, r, w),
{
    reveal(wrote);
    assert(s.insert(r, v).insert(r, w) =~= s.insert(r, w));
}

/// The word of a jump moves by its distance.
pub proof fn law_word_of_a_jump(label: Seq<char>, rel: i32, s: Regs)
    requires
        -0x10_0000 <= rel <= 0xF_FFFE && rel % 2 == 0,
    ensures
        word_exec(line_words(Asm::Jal(ZERO, label), rel)[0], s) == Some((rel as int, s)),
{
    law_j_word(rel, ZERO, JAL);
}

/// The words of a branch: where the condition holds, the first goes on to the second, which moves
/// by its distance; elsewhere the first moves past both.
pub proof fn law_words_of_a_branch(c: BCond, x: u8, y: u8, label: Seq<char>, rel: i32, s: Regs)
    requires
        x < 32 && y < 32,
        -0x10_0000 <= rel <= 0xF_FFFE && rel % 2 == 0,
    ensures
        ({
            let words = line_words(Asm::Branch(c, x, y, label), rel);
            &&& words.len() == 2
            &&& word_exec(words[0], s) == Some(
                (
                    if c.holds(get(s, x), get(s, y)) {
                        4int
                    } else {
                        8
                    },
                    s,
                ),
            )
            &&& word_exec(words[1], s) == Some((rel as int, s))
        }),
{
    law_b_word(8, y, x, c.spec_invert().spec_funct3(), BRANCH);
    law_j_word(rel, ZERO, JAL);
}

/// The word at an index of little-endian bytes.
pub open spec fn word_at(bytes: Seq<u8>, i: int) -> u32 {
    (bytes[4 * i] as u32) | ((bytes[4 * i + 1] as u32) << 8) | ((bytes[4 * i + 2] as u32) << 16) | ((
    bytes[4 * i + 3] as u32) << 24)
}

/// The words of a text are read back from its bytes.
pub proof fn law_words_are_read_back(words: Seq<u32>, i: int)
    requires
        0 <= i < words.len(),
    ensures
        word_at(le_bytes(words), i) == words[i],
{
    let w = words[i];
    let b = le_bytes(words);
    assert(b[4 * i] == byte_of(w, 0) && b[4 * i + 1] == byte_of(w, 1) && b[4 * i + 2] == byte_of(
        w,
        2,
    ) && b[4 * i + 3] == byte_of(w, 3));
    assert(((w & 0xFF) as u8) as u32 | (((((w >> 8) & 0xFF) as u8) as u32) << 8) | (((((w >> 16)
        & 0xFF) as u8) as u32) << 16) | (((((w >> 24) & 0xFF) as u8) as u32) << 24) == w)
        by (bit_vector);
}

} // verus!
