use basalt::rv::enc::{
    b_type, i_type, j_type, r_type, u_type, AluOp, BCond, Enc, MulOp, AUIPC, BRANCH, JAL, JALR, LUI, OP, RA, ZERO,
};

// The words below are what GNU as gives for the instruction named beside each.

#[test]
fn r_type_base_and_m_extension() {
    // add x1, x2, x3
    assert_eq!(r_type(0, 3, 2, 0, 1, OP), 0x003100b3);
    // sub x1, x2, x3
    assert_eq!(r_type(0b0100000, 3, 2, 0, 1, OP), 0x403100b3);
    // sll x1, x2, x3
    assert_eq!(r_type(0, 3, 2, 0b001, 1, OP), 0x003110b3);
    // slt x1, x2, x3
    assert_eq!(r_type(0, 3, 2, 0b010, 1, OP), 0x003120b3);
    // sltu x1, x2, x3
    assert_eq!(r_type(0, 3, 2, 0b011, 1, OP), 0x003130b3);
    // xor x1, x2, x3
    assert_eq!(r_type(0, 3, 2, 0b100, 1, OP), 0x003140b3);
    // srl x1, x2, x3
    assert_eq!(r_type(0, 3, 2, 0b101, 1, OP), 0x003150b3);
    // sra x1, x2, x3
    assert_eq!(r_type(0b0100000, 3, 2, 0b101, 1, OP), 0x403150b3);
    // or x1, x2, x3
    assert_eq!(r_type(0, 3, 2, 0b110, 1, OP), 0x003160b3);
    // and x1, x2, x3
    assert_eq!(r_type(0, 3, 2, 0b111, 1, OP), 0x003170b3);
    // mul x1, x2, x3
    assert_eq!(r_type(0b0000001, 3, 2, 0b000, 1, OP), 0x023100b3);
    // mulh x1, x2, x3
    assert_eq!(r_type(0b0000001, 3, 2, 0b001, 1, OP), 0x023110b3);
    // mulhsu x1, x2, x3
    assert_eq!(r_type(0b0000001, 3, 2, 0b010, 1, OP), 0x023120b3);
    // mulhu x1, x2, x3
    assert_eq!(r_type(0b0000001, 3, 2, 0b011, 1, OP), 0x023130b3);
    // div x1, x2, x3
    assert_eq!(r_type(0b0000001, 3, 2, 0b100, 1, OP), 0x023140b3);
    // divu x1, x2, x3
    assert_eq!(r_type(0b0000001, 3, 2, 0b101, 1, OP), 0x023150b3);
    // rem x1, x2, x3
    assert_eq!(r_type(0b0000001, 3, 2, 0b110, 1, OP), 0x023160b3);
    // remu x1, x2, x3
    assert_eq!(r_type(0b0000001, 3, 2, 0b111, 1, OP), 0x023170b3);
}

#[test]
fn alu_reg_and_mul_reg_match_verified_words() {
    let mut e = Enc::new();
    e.alu_reg(AluOp::Add, 1, 2, 3);
    e.alu_reg(AluOp::Sub, 1, 2, 3);
    e.alu_reg(AluOp::Sll, 1, 2, 3);
    e.alu_reg(AluOp::Slt, 1, 2, 3);
    e.alu_reg(AluOp::Sltu, 1, 2, 3);
    e.alu_reg(AluOp::Xor, 1, 2, 3);
    e.alu_reg(AluOp::Srl, 1, 2, 3);
    e.alu_reg(AluOp::Sra, 1, 2, 3);
    e.alu_reg(AluOp::Or, 1, 2, 3);
    e.alu_reg(AluOp::And, 1, 2, 3);
    e.mul_reg(MulOp::Mul, 1, 2, 3);
    e.mul_reg(MulOp::Mulh, 1, 2, 3);
    e.mul_reg(MulOp::Mulhsu, 1, 2, 3);
    e.mul_reg(MulOp::Mulhu, 1, 2, 3);
    e.mul_reg(MulOp::Div, 1, 2, 3);
    e.mul_reg(MulOp::Divu, 1, 2, 3);
    e.mul_reg(MulOp::Rem, 1, 2, 3);
    e.mul_reg(MulOp::Remu, 1, 2, 3);
    let bytes = e.finish();
    let expect: [u32; 18] = [
        0x003100b3, 0x403100b3, 0x003110b3, 0x003120b3, 0x003130b3, 0x003140b3, 0x003150b3,
        0x403150b3, 0x003160b3, 0x003170b3, 0x023100b3, 0x023110b3, 0x023120b3, 0x023130b3,
        0x023140b3, 0x023150b3, 0x023160b3, 0x023170b3,
    ];
    let words: Vec<u32> = bytes
        .chunks_exact(4)
        .map(|c| u32::from_le_bytes(c.try_into().unwrap()))
        .collect();
    assert_eq!(words, expect);
}

#[test]
fn i_type_alu_and_shifts_match_verified_words() {
    let mut e = Enc::new();
    e.addi(5, 6, 100); // addi x5, x6, 100 -> 06430293
    e.addi(5, 6, -100); // addi x5, x6, -100 -> f9c30293
    e.slti(5, 6, 100); // 06432293
    e.sltiu(5, 6, 100); // 06433293
    e.xori(5, 6, 100); // 06434293
    e.ori(5, 6, 100); // 06436293
    e.andi(5, 6, 100); // 06437293
    e.slli(5, 6, 7); // 00731293
    e.srli(5, 6, 7); // 00735293
    e.srai(5, 6, 7); // 40735293
    let bytes = e.finish();
    let words: Vec<u32> = bytes
        .chunks_exact(4)
        .map(|c| u32::from_le_bytes(c.try_into().unwrap()))
        .collect();
    assert_eq!(
        words,
        vec![
            0x06430293, 0xf9c30293, 0x06432293, 0x06433293, 0x06434293, 0x06436293, 0x06437293,
            0x00731293, 0x00735293, 0x40735293,
        ]
    );
}

#[test]
fn loads_stores_jalr_match_verified_words() {
    let mut e = Enc::new();
    e.lb(5, 16, 6); // 01030283
    e.lh(5, 16, 6); // 01031283
    e.lw(5, 16, 6); // 01032283
    e.lbu(5, 16, 6); // 01034283
    e.lhu(5, 16, 6); // 01035283
    e.jalr(1, 2, 4); // 004100e7
    e.sb(5, 16, 6); // 00530823
    e.sh(5, 16, 6); // 00531823
    e.sw(5, 16, 6); // 00532823
    let bytes = e.finish();
    let words: Vec<u32> = bytes
        .chunks_exact(4)
        .map(|c| u32::from_le_bytes(c.try_into().unwrap()))
        .collect();
    assert_eq!(
        words,
        vec![
            0x01030283, 0x01031283, 0x01032283, 0x01034283, 0x01035283, 0x004100e7, 0x00530823,
            0x00531823, 0x00532823,
        ]
    );
}

#[test]
fn branches_lui_auipc_jal_match_verified_words() {
    // Six branches at addresses 0x94/0x98/0x9c/0xa0/0xa4/0xa8, all targeting a label at 0xb8, followed
    // by `lui x5,100`, `auipc x5,100`, then `jal x1,<lbl>` at 0xb4 (imm=4).
    assert_eq!(b_type(0xb8 - 0x94, 6, 5, 0b000, BRANCH), 0x02628263); // beq
    assert_eq!(b_type(0xb8 - 0x98, 6, 5, 0b001, BRANCH), 0x02629063); // bne
    assert_eq!(b_type(0xb8 - 0x9c, 6, 5, 0b100, BRANCH), 0x0062ce63); // blt
    assert_eq!(b_type(0xb8 - 0xa0, 6, 5, 0b101, BRANCH), 0x0062dc63); // bge
    assert_eq!(b_type(0xb8 - 0xa4, 6, 5, 0b110, BRANCH), 0x0062ea63); // bltu
    assert_eq!(b_type(0xb8 - 0xa8, 6, 5, 0b111, BRANCH), 0x0062f863); // bgeu
    assert_eq!(u_type(100, 5, LUI), 0x000642b7);
    assert_eq!(u_type(100, 5, AUIPC), 0x00064297);
    assert_eq!(j_type(0xb8 - 0xb4, 1, JAL), 0x004000ef);
}

#[test]
fn li32_split_is_exact() {
    let probes: [i32; 9] = [0, 1, -1, 42, -42, 0x7ff, 0x800, 0x12345678, i32::MIN];
    for &imm in &probes {
        let imm_u = imm as u32;
        let upper20 = (imm_u.wrapping_add(0x800) >> 12) & 0xFFFFF;
        let lower = imm.wrapping_sub((upper20 as i32) << 12);
        assert!(
            (-2048..=2047).contains(&lower),
            "lower out of 12-bit range for {imm}: {lower}"
        );
        let reconstructed = ((upper20 as i32) << 12).wrapping_add(lower);
        assert_eq!(reconstructed, imm, "split did not reconstruct {imm}");
    }
}

#[test]
fn branch_expands_to_invert_and_jal() {
    let mut e = Enc::new();
    e.label("start");
    e.branch(BCond::Eq, 5, 6, "target");
    e.label("target");
    let bytes = e.finish();
    let words: Vec<u32> = bytes
        .chunks_exact(4)
        .map(|c| u32::from_le_bytes(c.try_into().unwrap()))
        .collect();
    // bne x5, x6, +8 (skip the jal when NOT equal)
    assert_eq!(words[0], b_type(8, 6, 5, BCond::Ne.funct3(), BRANCH));
    // jal x0, +4 (target is the very next instruction here)
    assert_eq!(words[1], j_type(4, ZERO, JAL));
}

#[test]
fn call_and_ret_resolve() {
    let mut e = Enc::new();
    e.call("routine");
    e.label("main_tail");
    e.jump("done");
    e.label("routine");
    e.ret();
    e.label("done");
    let bytes = e.finish();
    let words: Vec<u32> = bytes
        .chunks_exact(4)
        .map(|c| u32::from_le_bytes(c.try_into().unwrap()))
        .collect();
    assert_eq!(words[0], j_type(8, RA, JAL)); // call routine: routine is at pos 8
    assert_eq!(words[1], j_type(8, ZERO, JAL)); // jump done: done is at pos 12, jump at pos 4
    assert_eq!(words[2], i_type(0, RA, 0b000, ZERO, JALR)); // ret
}

#[test]
fn a_call_differs_from_a_jump_in_the_link_register_only() {
    let build = |linking: bool| {
        let mut e = Enc::new();
        e.addi(1, 2, 3);
        if linking {
            e.call("there");
        } else {
            e.jump("there");
        }
        e.branch(BCond::Lt, 5, 6, "there");
        e.label("there");
        e.ret();
        assert!(e.is_linkable());
        e.finish()
    };
    let (a, b) = (build(true), build(false));
    let word = |c: &[u8], i: usize| u32::from_le_bytes(c[4 * i..4 * i + 4].try_into().unwrap());
    assert_eq!(word(&a, 1), word(&b, 1) | 0x80);
    assert_eq!(word(&b, 1), j_type(12, ZERO, JAL));
    assert_eq!(a[..4], b[..4]);
    assert_eq!(a[8..], b[8..]);
}

#[test]
fn a_jump_needs_a_target_in_its_reach() {
    let mut e = Enc::new();
    e.jump("nowhere");
    assert!(!e.is_linkable());
    for (words, ok) in [(0x3_fffd, true), (0x3_fffe, true), (0x3_ffff, false)] {
        let mut e = Enc::new();
        e.jump("far");
        for _ in 0..words {
            e.nop();
        }
        e.label("far");
        assert_eq!(e.is_linkable(), ok, "{words}");
    }
    for (words, ok) in [(0x4_0000, true), (0x4_0001, false)] {
        let mut e = Enc::new();
        e.label("back");
        for _ in 0..words {
            e.nop();
        }
        e.jump("back");
        assert_eq!(e.is_linkable(), ok, "{words}");
    }
}
