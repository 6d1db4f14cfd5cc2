//! Runs the emitted RV32IM code on a small machine.

use basalt::bir::{
    AddrSpace, AtomicOp, BinOp, Block, BlockId, CastOp, FCmpPred, FloatConst, Function, ICmpPred, Inst, InstId, Module,
    Op, Scalar, Term, Ty, ValRef,
};
use basalt::rv::enc::{AluOp, BCond, Enc, MulOp, A0, A1, A2, S2, T0};
use basalt::rv::lower::Rv32;
use basalt::rv::softfloat_ref::{
    rtz_add32, rtz_cmp32, rtz_div32, rtz_f32_to_i32, rtz_f32_to_u32, rtz_i32_to_f32, rtz_mul32, rtz_sub32,
    rtz_u32_to_f32,
};

struct Machine {
    regs: [u32; 32],
    mem: Vec<u8>,
}

const MEMORY: usize = 1 << 20;

/// Where a program returns to.
const DONE: u32 = 0xffff_fff0;

impl Machine {
    fn new() -> Machine {
        Machine { regs: [0; 32], mem: vec![0; MEMORY] }
    }

    fn load(&self, at: u32, n: usize) -> u32 {
        (0..n).map(|i| (self.mem[at as usize + i] as u32) << (8 * i)).sum()
    }

    fn store(&mut self, at: u32, n: usize, v: u32) {
        for i in 0..n {
            self.mem[at as usize + i] = (v >> (8 * i)) as u8;
        }
    }

    /// Runs code that stands at address 0 until it returns.
    fn run(&mut self, code: &[u8]) {
        self.mem[..code.len()].copy_from_slice(code);
        self.regs[1] = DONE;
        self.regs[2] = MEMORY as u32 - 64;
        let mut pc = 0u32;
        for _ in 0..10_000_000 {
            if pc == DONE {
                return;
            }
            let w = self.load(pc, 4);
            let (rd, rs1, rs2) = ((w >> 7 & 31) as usize, (w >> 15 & 31) as usize, (w >> 20 & 31) as usize);
            let (f3, f7) = (w >> 12 & 7, w >> 25);
            let (a, b) = (self.regs[rs1], self.regs[rs2]);
            let imm_i = (w as i32 >> 20) as u32;
            let imm_s = ((w as i32 >> 25) << 5) as u32 | (w >> 7 & 31);
            let imm_b = ((w as i32 >> 31) << 12) as u32 | (w >> 7 & 1) << 11 | (w >> 25 & 63) << 5 | (w >> 8 & 15) << 1;
            let imm_j = ((w as i32 >> 31) << 20) as u32 | (w & 0xff000) | (w >> 20 & 1) << 11 | (w >> 21 & 1023) << 1;
            let mut next = pc.wrapping_add(4);
            let mut out = None;
            match w & 127 {
                0b0110011 | 0b0010011 => {
                    let imm = w & 127 == 0b0010011;
                    let y = if imm { imm_i } else { b };
                    out = Some(if !imm && f7 == 1 {
                        let (sa, sb) = (a as i32 as i64, y as i32 as i64);
                        match f3 {
                            0 => a.wrapping_mul(y),
                            1 => ((sa * sb) >> 32) as u32,
                            2 => ((sa * y as i64) >> 32) as u32,
                            3 => ((a as u64 * y as u64) >> 32) as u32,
                            4 => if y == 0 { u32::MAX } else { (a as i32).wrapping_div(y as i32) as u32 },
                            5 => if y == 0 { u32::MAX } else { a / y },
                            6 => if y == 0 { a } else { (a as i32).wrapping_rem(y as i32) as u32 },
                            _ => if y == 0 { a } else { a % y },
                        }
                    } else {
                        match f3 {
                            0 => if !imm && f7 == 32 { a.wrapping_sub(y) } else { a.wrapping_add(y) },
                            1 => a << (y & 31),
                            2 => ((a as i32) < y as i32) as u32,
                            3 => (a < y) as u32,
                            4 => a ^ y,
                            5 => if f7 == 32 { (a as i32 >> (y & 31)) as u32 } else { a >> (y & 31) },
                            6 => a | y,
                            _ => a & y,
                        }
                    });
                }
                0b0000011 => {
                    let at = a.wrapping_add(imm_i);
                    out = Some(match f3 {
                        0 => self.load(at, 1) as i8 as u32,
                        1 => self.load(at, 2) as i16 as u32,
                        2 => self.load(at, 4),
                        4 => self.load(at, 1),
                        _ => self.load(at, 2),
                    });
                }
                0b0100011 => self.store(a.wrapping_add(imm_s), 1 << f3, b),
                0b1100011 => {
                    let taken = match f3 {
                        0 => a == b,
                        1 => a != b,
                        4 => (a as i32) < b as i32,
                        5 => a as i32 >= b as i32,
                        6 => a < b,
                        _ => a >= b,
                    };
                    if taken {
                        next = pc.wrapping_add(imm_b);
                    }
                }
                0b1101111 => {
                    out = Some(next);
                    next = pc.wrapping_add(imm_j);
                }
                0b1100111 => {
                    out = Some(next);
                    next = a.wrapping_add(imm_i) & !1;
                }
                0b0110111 => out = Some(w & 0xffff_f000),
                0b0010111 => out = Some(pc.wrapping_add(w & 0xffff_f000)),
                other => panic!("opcode {other:b} at {pc}"),
            }
            if let Some(v) = out {
                if rd != 0 {
                    self.regs[rd] = v;
                }
            }
            pc = next;
        }
        panic!("no return");
    }
}

const I32: Ty = Ty::Scalar(Scalar::I32);
const F32: Ty = Ty::Scalar(Scalar::F32);
const I64: Ty = Ty::Scalar(Scalar::I64);
const I1: Ty = Ty::Scalar(Scalar::I1);

/// Where the kernels below store what they compute.
const OUT: u32 = 0x80000;

/// A kernel that stores through its first parameter what `op` makes of the others.
fn kernel(params: &[Ty], ty: Ty, op: Op) -> Vec<u8> {
    let mut all = vec![Ty::Ptr(AddrSpace::Global)];
    all.extend_from_slice(params);
    let f = Function {
        is_kernel: true,
        name: "k".into(),
        params: all,
        ret: Ty::Void,
        insts: vec![
            Inst { ty, op },
            Inst {
                ty: Ty::Void,
                op: Op::Store {
                    ptr: ValRef::Param(0),
                    val: ValRef::Val(InstId(0)),
                    ty,
                    space: AddrSpace::Global,
                    align: 4,
                    volatile: false,
                },
            },
        ],
        blocks: vec![Block { insts: vec![InstId(0), InstId(1)], term: Term::Ret(None) }],
    };
    let m = Module { funcs: vec![f], launch_bounds: None, shared_mem_bytes: 0, target_dtypes: vec![] };
    Rv32.emit(&m).unwrap().text
}

/// Runs a kernel for one thread. The words of the arguments follow the output pointer.
fn result(code: &[u8], args: &[u32]) -> u64 {
    let mut m = Machine::new();
    m.regs[10] = OUT;
    for (i, a) in args.iter().enumerate() {
        m.regs[11 + i] = *a;
    }
    m.regs[11 + args.len()] = 1;
    m.run(code);
    assert_eq!(m.regs[2], MEMORY as u32 - 64);
    m.load(OUT, 4) as u64 | (m.load(OUT + 4, 4) as u64) << 32
}

const FLOATS: [u32; 40] = [
    0, 0x8000_0000, 0x3f80_0000, 0xbf80_0000, 0x4000_0000, 0x3fc0_0000, 0xc020_0000, 0x7f80_0000, 0xff80_0000, 0x7fc0_0001,
    0xffc0_0000, 0x0080_0000, 0x8080_0000, 0x7f7f_ffff, 0xff7f_ffff, 0x0000_0001, 0x807f_ffff, 0x4b00_0000, 0x4b7f_ffff, 0x4b80_0000,
    0x4b80_0001, 0xcb80_0001, 0x3eaa_aaab, 0x3dcc_cccd, 0xbdcc_cccd, 0x4eff_ffff, 0x4f00_0000, 0xcf00_0000, 0xcf00_0001, 0x4f7f_ffff,
    0x4f80_0000, 0x4f8f_ffff, 0x5000_0000, 0x3f7f_ffff, 0x3f00_0000, 0xbf7f_ffff, 0x1234_5678, 0xe789_abcd, 0x3f80_0001, 0xbf80_0001,
];

#[test]
fn the_emitted_float_operations_agree_with_the_reference() {
    let p = |i: u32| ValRef::Param(i);
    let two = [F32, F32];
    let ops: [(BinOp, fn(u32, u32) -> u32); 4] =
        [(BinOp::FAdd, rtz_add32), (BinOp::FSub, rtz_sub32), (BinOp::FMul, rtz_mul32), (BinOp::FDiv, rtz_div32)];
    for (op, reference) in ops {
        let code = kernel(&two, F32, Op::Bin(op, p(1), p(2)));
        for a in FLOATS {
            for b in FLOATS {
                assert_eq!(result(&code, &[a, b]) as u32, reference(a, b), "{op:?} {a:08x} {b:08x}");
            }
        }
    }
    let preds: [(FCmpPred, fn(i32) -> bool); 8] = [
        (FCmpPred::Oeq, |c| c == 0),
        (FCmpPred::One, |c| c == -1 || c == 1),
        (FCmpPred::Olt, |c| c == -1),
        (FCmpPred::Ole, |c| c == -1 || c == 0),
        (FCmpPred::Ogt, |c| c == 1),
        (FCmpPred::Oge, |c| c == 0 || c == 1),
        (FCmpPred::Ord, |c| c != -2),
        (FCmpPred::Uno, |c| c == -2),
    ];
    for (pred, holds) in preds {
        let code = kernel(&two, I1, Op::FCmp(pred, F32, p(1), p(2)));
        for a in FLOATS {
            for b in FLOATS {
                assert_eq!(result(&code, &[a, b]) & 1 == 1, holds(rtz_cmp32(a, b)), "{pred:?} {a:08x} {b:08x}");
            }
        }
    }
}

#[test]
fn the_emitted_conversions_agree_with_the_reference() {
    let p = ValRef::Param(1);
    let ints = [0u32, 1, 2, 3, 0xff_ffff, 0x100_0000, 0x100_0001, 0x7fff_ffff, 0x8000_0000, 0x8000_0001, 0xffff_ffff, 0xffff_ff00, 0xdead_beef];
    let si = kernel(&[I32], F32, Op::Cast(CastOp::SiToFp, I32, p));
    let ui = kernel(&[I32], F32, Op::Cast(CastOp::UiToFp, I32, p));
    for i in ints {
        assert_eq!(result(&si, &[i]) as u32, rtz_i32_to_f32(i as i32), "{i:08x}");
        assert_eq!(result(&ui, &[i]) as u32, rtz_u32_to_f32(i), "{i:08x}");
    }
    let fsi = kernel(&[F32], I32, Op::Cast(CastOp::FpToSi, F32, p));
    let fui = kernel(&[F32], I32, Op::Cast(CastOp::FpToUi, F32, p));
    for x in FLOATS {
        assert_eq!(result(&fsi, &[x]) as u32, rtz_f32_to_i32(x) as u32, "{x:08x}");
        assert_eq!(result(&fui, &[x]) as u32, rtz_f32_to_u32(x), "{x:08x}");
    }
}

const LONGS: [u64; 10] =
    [0, 1, u64::MAX, 0xffff_ffff, 0x1_0000_0000, 0x7fff_ffff_ffff_ffff, 0x8000_0000_0000_0000, 0x1234_5678_9abc_def0, 0xfedc_ba98_7654_3210, 0x8000_0000];

#[test]
fn wide_integers_are_carried_in_two_words() {
    // A pair of words starts at an even register.
    let (a, b) = (ValRef::Param(1), ValRef::Param(2));
    let ops: [(BinOp, fn(u64, u64) -> u64); 6] = [
        (BinOp::Add, u64::wrapping_add),
        (BinOp::Sub, u64::wrapping_sub),
        (BinOp::Mul, u64::wrapping_mul),
        (BinOp::And, |x, y| x & y),
        (BinOp::Or, |x, y| x | y),
        (BinOp::Xor, |x, y| x ^ y),
    ];
    for (op, f) in ops {
        let code = kernel(&[I64, I64], I64, Op::Bin(op, a, b));
        for x in LONGS {
            for y in LONGS {
                let got = result(&code, &[0, x as u32, (x >> 32) as u32, y as u32, (y >> 32) as u32]);
                assert_eq!(got, f(x, y), "{op:?} {x:x} {y:x}");
            }
        }
    }
    let preds: [(ICmpPred, fn(u64, u64) -> bool); 10] = [
        (ICmpPred::Eq, |x, y| x == y),
        (ICmpPred::Ne, |x, y| x != y),
        (ICmpPred::Slt, |x, y| (x as i64) < y as i64),
        (ICmpPred::Sle, |x, y| x as i64 <= y as i64),
        (ICmpPred::Sgt, |x, y| x as i64 > y as i64),
        (ICmpPred::Sge, |x, y| x as i64 >= y as i64),
        (ICmpPred::Ult, |x, y| x < y),
        (ICmpPred::Ule, |x, y| x <= y),
        (ICmpPred::Ugt, |x, y| x > y),
        (ICmpPred::Uge, |x, y| x >= y),
    ];
    for (pred, f) in preds {
        let code = kernel(&[I64, I64], I1, Op::ICmp(pred, I64, a, b));
        for x in LONGS {
            for y in LONGS {
                let got = result(&code, &[0, x as u32, (x >> 32) as u32, y as u32, (y >> 32) as u32]);
                assert_eq!(got & 1 == 1, f(x, y), "{pred:?} {x:x} {y:x}");
            }
        }
    }
}

#[test]
fn narrow_integers_run_as_the_machine_defines_them() {
    let (a, b) = (ValRef::Param(1), ValRef::Param(2));
    let words = [0u32, 1, 2, 31, 0xffff_ffff, 0x7fff_ffff, 0x8000_0000, 0x1234_5678];
    let ops: [(BinOp, fn(u32, u32) -> u32); 9] = [
        (BinOp::Add, u32::wrapping_add),
        (BinOp::Sub, u32::wrapping_sub),
        (BinOp::Mul, u32::wrapping_mul),
        (BinOp::And, |x, y| x & y),
        (BinOp::Or, |x, y| x | y),
        (BinOp::Xor, |x, y| x ^ y),
        (BinOp::Shl, |x, y| x << (y & 31)),
        (BinOp::Lshr, |x, y| x >> (y & 31)),
        (BinOp::Ashr, |x, y| (x as i32 >> (y & 31)) as u32),
    ];
    for (op, f) in ops {
        let code = kernel(&[I32, I32], I32, Op::Bin(op, a, b));
        for x in words {
            for y in words {
                assert_eq!(result(&code, &[x, y]) as u32, f(x, y), "{op:?} {x:x} {y:x}");
            }
        }
    }
}

#[test]
fn a_kernel_runs_once_for_each_thread() {
    let ptr = Ty::Ptr(AddrSpace::Global);
    let v = |i: u32| ValRef::Val(InstId(i));
    let f = Function {
        is_kernel: true,
        name: "write_idx".into(),
        params: vec![ptr],
        ret: Ty::Void,
        insts: vec![
            Inst { ty: I32, op: Op::TidX },
            Inst { ty: I32, op: Op::ConstInt(4) },
            Inst { ty: I32, op: Op::Bin(BinOp::Mul, v(0), v(1)) },
            Inst { ty: ptr, op: Op::Cast(CastOp::Bitcast, I32, v(2)) },
            Inst { ty: ptr, op: Op::Bin(BinOp::Add, ValRef::Param(0), v(3)) },
            Inst {
                ty: Ty::Void,
                op: Op::Store { ptr: v(4), val: v(0), ty: I32, space: AddrSpace::Global, align: 4, volatile: false },
            },
        ],
        blocks: vec![Block { insts: (0..6).map(InstId).collect(), term: Term::Ret(None) }],
    };
    let m = Module { funcs: vec![f], launch_bounds: None, shared_mem_bytes: 0, target_dtypes: vec![] };
    let code = Rv32.emit(&m).unwrap().text;
    let mut machine = Machine::new();
    machine.regs[10] = OUT;
    machine.regs[11] = 5;
    machine.store(OUT + 20, 4, 99);
    machine.run(&code);
    for i in 0..5 {
        assert_eq!(machine.load(OUT + 4 * i, 4), i);
    }
    assert_eq!(machine.load(OUT + 20, 4), 99);
}

#[test]
fn constants_load_and_branches_reach_either_way() {
    for imm in [0i32, 1, -1, 2047, 2048, -2048, -2049, 0x7ff, 0x800, 0x1234_5678, i32::MIN, i32::MAX] {
        let mut e = Enc::new();
        e.li32(A0, imm);
        e.ret();
        let mut m = Machine::new();
        m.run(&e.finish());
        assert_eq!(m.regs[10], imm as u32);
    }
    // 10 + 9 + ... + 1, by a branch back and a jump forward.
    let mut e = Enc::new();
    e.li32(A1, 10);
    e.li32(A2, 0);
    e.label("again");
    e.branch(BCond::Eq, A1, 0, "out");
    e.alu_reg(AluOp::Add, A2, A2, A1);
    e.addi(A1, A1, -1);
    e.jump("again");
    e.label("out");
    e.mul_reg(MulOp::Mul, S2, A2, A2);
    e.mv(T0, S2);
    e.ret();
    let mut m = Machine::new();
    m.run(&e.finish());
    assert_eq!(m.regs[12], 55);
    assert_eq!(m.regs[5], 3025);
}

const PTR: Ty = Ty::Ptr(AddrSpace::Global);

/// Where the atomic kernels below find the value that they change.
const CELL: u32 = 0x90000;

/// Runs a kernel for one thread on a cell, whose address follows the output pointer. What the
/// instruction gave, and what is in the cell then.
fn on_cell(code: &[u8], before: u64, args: &[u32]) -> (u64, u64) {
    let mut m = Machine::new();
    m.store(CELL, 4, before as u32);
    m.store(CELL + 4, 4, (before >> 32) as u32);
    m.regs[10] = OUT;
    m.regs[11] = CELL;
    for (i, a) in args.iter().enumerate() {
        m.regs[12 + i] = *a;
    }
    m.regs[12 + args.len()] = 1;
    m.run(code);
    let word = |at: u32| m.load(at, 4) as u64 | (m.load(at + 4, 4) as u64) << 32;
    (word(OUT), word(CELL))
}

fn atomic(ty: Ty, op: AtomicOp) -> Vec<u8> {
    kernel(&[PTR, ty], ty, Op::Atomic(op, ValRef::Param(1), ValRef::Param(2), AddrSpace::Global))
}

const ATOMICS: [AtomicOp; 8] = [
    AtomicOp::Add,
    AtomicOp::Sub,
    AtomicOp::Exch,
    AtomicOp::Min,
    AtomicOp::Max,
    AtomicOp::And,
    AtomicOp::Or,
    AtomicOp::Xor,
];

fn replaced(op: AtomicOp, x: i64, y: i64) -> i64 {
    match op {
        AtomicOp::Add => x.wrapping_add(y),
        AtomicOp::Sub => x.wrapping_sub(y),
        AtomicOp::Exch => y,
        AtomicOp::Min => x.min(y),
        AtomicOp::Max => x.max(y),
        AtomicOp::And => x & y,
        AtomicOp::Or => x | y,
        AtomicOp::Xor => x ^ y,
    }
}

#[test]
fn atomic_operations_on_integers_give_the_old_value() {
    let words = [0u32, 1, 2, 0xff, 0x80, 0x7f, 0x8000, 0xffff, 0x7fff_ffff, 0x8000_0000, 0xffff_ffff, 0x1234_5678];
    for op in ATOMICS {
        let wide = atomic(I64, op);
        for x in LONGS {
            for y in LONGS {
                let got = on_cell(&wide, x, &[y as u32, (y >> 32) as u32]);
                assert_eq!(got, (x, replaced(op, x as i64, y as i64) as u64), "{op:?} {x:x} {y:x}");
            }
        }
        let word = atomic(I32, op);
        let half = atomic(Ty::Scalar(Scalar::I16), op);
        let byte = atomic(Ty::Scalar(Scalar::I8), op);
        for x in words {
            for y in words {
                let (old, new) = on_cell(&word, x as u64, &[y]);
                let want = replaced(op, x as i32 as i64, y as i32 as i64) as u32;
                assert_eq!((old as u32, new as u32), (x, want), "{op:?} {x:x} {y:x}");
                let (old, new) = on_cell(&half, x as u64, &[y]);
                let want = replaced(op, x as i16 as i64, y as i16 as i64) as u16;
                assert_eq!((old as u16, new as u16), (x as u16, want), "{op:?} {x:x} {y:x}");
                assert_eq!(new >> 16, x as u64 >> 16);
                let (old, new) = on_cell(&byte, x as u64, &[y]);
                let want = replaced(op, x as i8 as i64, y as i8 as i64) as u8;
                assert_eq!((old as u8, new as u8), (x as u8, want), "{op:?} {x:x} {y:x}");
                assert_eq!(new >> 8, x as u64 >> 8);
            }
        }
    }
}

#[test]
fn atomic_operations_on_floats_go_through_the_runtime() {
    for op in ATOMICS {
        let code = atomic(F32, op);
        for x in FLOATS {
            for y in FLOATS {
                let want = match op {
                    AtomicOp::Add => rtz_add32(x, y),
                    AtomicOp::Sub => rtz_sub32(x, y),
                    AtomicOp::Min => if rtz_cmp32(x, y) <= 0 { x } else { y },
                    AtomicOp::Max => if rtz_cmp32(x, y) >= 0 { x } else { y },
                    _ => replaced(op, x as i64, y as i64) as u32,
                };
                let (old, new) = on_cell(&code, x as u64, &[y]);
                assert_eq!((old as u32, new as u32), (x, want), "{op:?} {x:08x} {y:08x}");
            }
        }
    }
}

#[test]
fn a_swap_happens_where_the_expected_value_is_found() {
    let swap = |ty: Ty| {
        let (p, e, n) = (ValRef::Param(1), ValRef::Param(2), ValRef::Param(3));
        kernel(&[PTR, ty, ty], ty, Op::AtomicCas(p, e, n, AddrSpace::Global))
    };
    let word = swap(I32);
    assert_eq!(on_cell(&word, 7, &[7, 9]), (7, 9));
    assert_eq!(on_cell(&word, 7, &[8, 9]), (7, 7));
    let byte = swap(Ty::Scalar(Scalar::I8));
    let (old, new) = on_cell(&byte, 0x1f7, &[0xaaf7, 0xbb55]);
    assert_eq!((old as u8, new), (0xf7, 0x155));
    let wide = swap(I64);
    for x in LONGS {
        for e in LONGS {
            let got = on_cell(&wide, x, &[e as u32, (e >> 32) as u32, 0x1111, 0x2222]);
            assert_eq!(got, (x, if x == e { 0x2222_0000_1111 } else { x }), "{x:x} {e:x}");
        }
    }
}

#[test]
fn selection_copies_one_of_two_values() {
    let (c, a, b) = (ValRef::Param(1), ValRef::Param(2), ValRef::Param(3));
    let code = kernel(&[I1, I32, I32], I32, Op::Select(c, a, b));
    assert_eq!(result(&code, &[1, 5, 6]) as u32, 5);
    assert_eq!(result(&code, &[0, 5, 6]) as u32, 6);
    let code = kernel(&[I1, I64, I64], I64, Op::Select(c, a, b));
    assert_eq!(result(&code, &[1, 5, 50, 6, 60]), 50 << 32 | 5);
    assert_eq!(result(&code, &[0, 5, 50, 6, 60]), 60 << 32 | 6);
}

#[test]
fn numbers_are_extended_cut_and_carried_over() {
    let p = ValRef::Param(1);
    let cast = |from: Ty, op: CastOp, to: Ty| kernel(&[from], to, Op::Cast(op, from, p));
    let i8_ty = Ty::Scalar(Scalar::I8);
    assert_eq!(result(&cast(i8_ty, CastOp::Sext, I64), &[0x80]), -128i64 as u64);
    assert_eq!(result(&cast(i8_ty, CastOp::Zext, I64), &[0x80]), 0x80);
    assert_eq!(result(&cast(i8_ty, CastOp::Sext, I32), &[0xff80]) as u32, -128i32 as u32);
    assert_eq!(result(&cast(I32, CastOp::Zext, I64), &[0x8000_0000]), 0x8000_0000);
    assert_eq!(result(&cast(I32, CastOp::Trunc, i8_ty), &[0x1234_5678]), 0x78);
    assert_eq!(result(&cast(F32, CastOp::Bitcast, I32), &[0x3f80_0000]), 0x3f80_0000);
    let f64_ty = Ty::Scalar(Scalar::F64);
    assert_eq!(result(&cast(I64, CastOp::Bitcast, f64_ty), &[0, 7, 8]), 8 << 32 | 7);
}

#[test]
fn constants_are_stored_at_their_width() {
    let number = |n: i64, ty: Ty| result(&kernel(&[], ty, Op::ConstInt(n)), &[]);
    assert_eq!(number(-2, I64), -2i64 as u64);
    assert_eq!(number(0x1234_5678_9abc_def0, I64), 0x1234_5678_9abc_def0);
    assert_eq!(number(-2, I32), 0xffff_fffe);
    assert_eq!(number(-2, Ty::Scalar(Scalar::I16)), 0xfffe);
    let half = FloatConst { double: 0.5f64.to_bits(), single: 0.5f32.to_bits() };
    assert_eq!(result(&kernel(&[], F32, Op::ConstFloat(half)), &[]), 0x3f00_0000);
    assert_eq!(result(&kernel(&[], Ty::Scalar(Scalar::F64), Op::ConstFloat(half)), &[]), 0x3fe0_0000_0000_0000);
}

#[test]
fn the_remainder_of_floats_is_that_of_the_whole_quotient() {
    let code = kernel(&[F32, F32], F32, Op::Bin(BinOp::FRem, ValRef::Param(1), ValRef::Param(2)));
    for (x, y, want) in [(7.5f32, 2.0f32, 1.5f32), (-7.5, 2.0, -1.5), (1.0, 4.0, 1.0), (9.0, 3.0, 0.0)] {
        assert_eq!(f32::from_bits(result(&code, &[x.to_bits(), y.to_bits()]) as u32), want);
    }
}

#[test]
fn indices_of_one_block_are_fixed() {
    for (op, want) in [
        (Op::TidX, 0),
        (Op::TidY, 0),
        (Op::TidZ, 0),
        (Op::BidX, 0),
        (Op::BidY, 0),
        (Op::BidZ, 0),
        (Op::BdimX, 1),
        (Op::BdimY, 1),
        (Op::BdimZ, 1),
        (Op::GdimX, 1),
        (Op::GdimY, 1),
        (Op::GdimZ, 1),
    ] {
        let code = kernel(&[], I32, op);
        assert_eq!(result(&code, &[]), want);
    }
}

/// A kernel of one argument that goes by a switch to blocks that meet again in a phi, and
/// returns what came out of it.
fn chooser() -> Vec<u8> {
    let v = |i: u32| ValRef::Val(InstId(i));
    let arm = |id: u32| Block { insts: vec![InstId(id)], term: Term::Br(BlockId(4)) };
    let f = Function {
        is_kernel: true,
        name: "choose".into(),
        params: vec![I32],
        ret: I32,
        insts: vec![
            Inst { ty: I32, op: Op::ConstInt(100) },
            Inst { ty: I32, op: Op::ConstInt(200) },
            Inst { ty: I32, op: Op::ConstInt(300) },
            Inst { ty: I32, op: Op::Phi(vec![(BlockId(1), v(0)), (BlockId(2), v(1)), (BlockId(3), v(2))]) },
            Inst { ty: I32, op: Op::Bin(BinOp::Add, v(3), ValRef::Param(0)) },
        ],
        blocks: vec![
            Block {
                insts: vec![],
                term: Term::Switch(ValRef::Param(0), BlockId(3), vec![(1, BlockId(1)), (-5, BlockId(2))]),
            },
            arm(0),
            arm(1),
            arm(2),
            Block { insts: vec![InstId(3), InstId(4)], term: Term::Ret(Some(v(4))) },
        ],
    };
    let m = Module { funcs: vec![f], launch_bounds: None, shared_mem_bytes: 0, target_dtypes: vec![] };
    Rv32.emit(&m).unwrap().text
}

#[test]
fn a_switch_goes_to_its_case_and_a_phi_takes_the_value_of_the_edge() {
    let code = chooser();
    for (x, want) in [(1i32, 101i32), (-5, 195), (0, 300), (7, 307)] {
        let mut m = Machine::new();
        m.regs[10] = x as u32;
        m.regs[11] = 1;
        m.run(&code);
        assert_eq!(m.regs[10] as i32, want);
        assert_eq!(m.regs[2], MEMORY as u32 - 64);
    }
}

#[test]
fn no_thread_runs_where_there_are_none() {
    let code = kernel(&[I32], I32, Op::Bin(BinOp::Add, ValRef::Param(1), ValRef::Param(1)));
    for count in [0u32, 0xffff_ffff] {
        let mut m = Machine::new();
        m.regs[10] = OUT;
        m.regs[11] = 21;
        m.regs[12] = count;
        m.run(&code);
        assert_eq!(m.load(OUT, 4), 0);
    }
}
