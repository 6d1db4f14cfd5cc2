//! The RV32IM backend: one BIR function becomes one native function.
//!
//! Every value has a cell of 8 bytes in the frame, and every access computes its address into a
//! register first, so that no frame is too large for the 12-bit offset of a load or store. No
//! value stays in a register from one instruction to the next.
//!
//! A kernel runs its threads one after another: the native function takes the kernel's own
//! parameters and then the number of threads, and loops over the body. `tid.x` is the loop
//! counter, `bdim.x` the number of threads, and every other index is 0 and every other extent 1.
//!
//! Parameters follow the `ilp32` soft-float convention: one argument register each, or an even
//! pair for a value of two words. Division and remainder are signed. Single-precision arithmetic
//! calls the runtime of [`crate::rv::softfloat`], which follows the function in its text; a call
//! may change every register but `sp`, so what outlives one stays in the frame.
//!
//! Refused, as [`crate::rv::check`] says: arithmetic, conversions and atomics of `f64`, conversions
//! between `i64` and a float, shifts, division and remainder of `i64`, thread indices of 64 bits and
//! switches on them. The other operations of `i64` work on pairs of words. A function whose code is
//! too long for a `jal` to reach is refused when it is emitted.

use vstd::prelude::*;
use vstd::string::*;

use crate::bir::{
    AddrSpace, AtomicOp, BinOp, Block, BlockId, CastOp, FCmpPred, FloatConst, Function, ICmpPred,
    Inst, InstId, Module, Op, Scalar, Term, Ty, ValRef,
};
use crate::bits::{i64_to_u32, low_i32, low_u32, u32_to_i32, u64_to_u32};
use crate::diag::{Diag, DiagV, ECode};
use crate::rv::check::{
    arg_reg, args_fit, args_taken, because, check_module, classify_params, f64_ty, float_bin,
    float_ty, is_f64, is_float, is_wide, module_refusal, narrow_ty, param_loc, refuse, shift_or_div,
    wide_ty, ArgLoc,
};
use crate::rv::enc::{
    addi_asm, assemble, defines, in_reach, jumps, lemma_defines_empty, lemma_defines_push,
    lemma_jumps_empty, lemma_jumps_push, mv_asm, ret_asm, unique_labels, AluOp, Asm, BCond, Enc,
    ImmOp, LoadOp, MulOp, ShiftOp, StoreOp, A0, A1, A2, A3, RA, SP, T0, T1, T2, T3, T4, T5, T6,
    ZERO,
};
use crate::rv::softfloat_run::{has_runtime, law_runtime};
use crate::rv::softfloat::{emit_runtime, entry_name, runtime_asm, runtime_name};
use crate::text::{decimal, lemma_decimal_digits, lemma_decimal_injective, to_decimal};

verus! {

// ---- widths --------------------------------------------------------------------------------

/// The width in bytes of a value of one word or less.
#[derive(Clone, Copy, PartialEq, Eq, Structural)]
pub enum W {
    B1,
    B2,
    B4,
}

pub open spec fn width(ty: Ty) -> W {
    match ty {
        Ty::Scalar(Scalar::I1) | Ty::Scalar(Scalar::I8) => W::B1,
        Ty::Scalar(Scalar::I16) => W::B2,
        _ => W::B4,
    }
}

/// A type that a value can have in the frame.
pub open spec fn sized_ty(ty: Ty) -> bool {
    narrow_ty(ty) || wide_ty(ty)
}

fn width_of(ty: Ty) -> (w: W)
    requires
        narrow_ty(ty),
    ensures
        w == width(ty),
{
    match ty {
        Ty::Scalar(Scalar::I1) | Ty::Scalar(Scalar::I8) => W::B1,
        Ty::Scalar(Scalar::I16) => W::B2,
        _ => W::B4,
    }
}

pub open spec fn spec_local_like(space: AddrSpace) -> bool {
    space != AddrSpace::Global
}

/// Whether a constant address in this space names a cell of the frame.
#[verifier::when_used_as_spec(spec_local_like)]
pub fn local_like(space: AddrSpace) -> (r: bool)
    ensures
        r == spec_local_like(space),
{
    !matches!(space, AddrSpace::Global)
}

pub open spec fn spec_space_tag(space: AddrSpace) -> u8 {
    match space {
        AddrSpace::Global => 0,
        AddrSpace::Shared => 1,
        AddrSpace::Constant => 2,
        AddrSpace::Local => 3,
        AddrSpace::Param => 4,
    }
}

fn space_tag(space: AddrSpace) -> (t: u8)
    ensures
        t == spec_space_tag(space),
{
    match space {
        AddrSpace::Global => 0,
        AddrSpace::Shared => 1,
        AddrSpace::Constant => 2,
        AddrSpace::Local => 3,
        AddrSpace::Param => 4,
    }
}

pub open spec fn spec_low_word(n: i64) -> int {
    low_i32(n as int) as int
}

pub open spec fn spec_high_word(n: i64) -> int {
    ((n >> 32) as i32) as int
}

pub open spec fn spec_low_half(n: u64) -> int {
    low_i32(n as int) as int
}

pub open spec fn spec_high_half(n: u64) -> int {
    low_i32(n as int / 0x1_0000_0000) as int
}

pub open spec fn spec_as_word(n: u32) -> int {
    low_i32(n as int) as int
}

/// The low word of a number.
fn low_word(n: i64) -> (w: i32)
    ensures
        w == spec_low_word(n),
{
    proof {
        reveal(low_u32);
        reveal(low_i32);
    }
    u32_to_i32(i64_to_u32(n))
}

/// The high word of a number.
fn high_word(n: i64) -> (w: i32)
    ensures
        w == spec_high_word(n),
{
    assert(-0x8000_0000 <= n >> 32 <= 0x7FFF_FFFF) by (bit_vector);
    (n >> 32) as i32
}

fn low_half(n: u64) -> (w: i32)
    ensures
        w == spec_low_half(n),
{
    proof {
        reveal(low_u32);
        reveal(low_i32);
    }
    u32_to_i32(u64_to_u32(n))
}

fn high_half(n: u64) -> (w: i32)
    ensures
        w == spec_high_half(n),
{
    u32_to_i32((n / 0x1_0000_0000) as u32)
}

fn as_word(n: u32) -> (w: i32)
    ensures
        w == spec_as_word(n),
{
    u32_to_i32(n)
}

pub open spec fn spec_alu_of(op: BinOp) -> AluOp {
    match op {
        BinOp::Sub => AluOp::Sub,
        BinOp::And => AluOp::And,
        BinOp::Or => AluOp::Or,
        BinOp::Xor => AluOp::Xor,
        BinOp::Shl => AluOp::Sll,
        BinOp::Lshr => AluOp::Srl,
        BinOp::Ashr => AluOp::Sra,
        _ => AluOp::Add,
    }
}

/// The ALU operation of an integer operation that is one.
fn alu_of(op: BinOp) -> (r: AluOp)
    ensures
        r == spec_alu_of(op),
{
    match op {
        BinOp::Sub => AluOp::Sub,
        BinOp::And => AluOp::And,
        BinOp::Or => AluOp::Or,
        BinOp::Xor => AluOp::Xor,
        BinOp::Shl => AluOp::Sll,
        BinOp::Lshr => AluOp::Srl,
        BinOp::Ashr => AluOp::Sra,
        _ => AluOp::Add,
    }
}

pub open spec fn spec_less_op(signed: bool) -> AluOp {
    if signed {
        AluOp::Slt
    } else {
        AluOp::Sltu
    }
}

fn less_op(signed: bool) -> (r: AluOp)
    ensures
        r == spec_less_op(signed),
{
    if signed {
        AluOp::Slt
    } else {
        AluOp::Sltu
    }
}

// ---- the frame -----------------------------------------------------------------------------

/// Where the return address is saved.
pub open spec fn ra_home() -> int {
    0
}

/// The cells that hold values across a call of the runtime.
pub open spec fn scratch(i: int) -> int {
    8 * (1 + i)
}

pub open spec fn param_home(i: int) -> int {
    8 * (4 + i)
}

/// Where the number of threads is.
pub open spec fn nthreads_home(f: Function) -> int {
    8 * (4 + f.params@.len() as int)
}

/// Where the number of the running thread is.
pub open spec fn loopctr_home(f: Function) -> int {
    8 * (5 + f.params@.len() as int)
}

pub open spec fn retval_home(f: Function) -> int {
    8 * (6 + f.params@.len() as int)
}

/// The cell of the first instruction.
pub open spec fn first_inst_cell(f: Function) -> int {
    6 + f.params@.len() + if f.ret is Void {
        0int
    } else {
        1int
    }
}

/// Where the result of instruction `id` is.
pub open spec fn inst_home(f: Function, id: InstId) -> int {
    8 * (first_inst_cell(f) + id.0 as int)
}

/// Whether the function has an instruction `id`.
pub open spec fn inst_in(f: Function, id: InstId) -> bool {
    (id.0 as int) < f.insts@.len()
}

pub open spec fn inst_of(f: Function, id: InstId) -> Inst {
    f.insts@[id.0 as int]
}

/// The cell that a constant names, as its space and number: none, unless it is the address of
/// one.
pub open spec fn cell_key(inst: Inst) -> Option<(u8, i64)> {
    match (inst.op, inst.ty) {
        (Op::ConstInt(n), Ty::Ptr(space)) => if spec_local_like(space) {
            Some((spec_space_tag(space), n))
        } else {
            None
        },
        _ => None,
    }
}

/// The cells that the first `n` instructions name, each once, in order of first mention.
pub open spec fn cell_keys(insts: Seq<Inst>, n: nat) -> Seq<(u8, i64)>
    decreases n,
{
    if n == 0 {
        Seq::empty()
    } else {
        let keys = cell_keys(insts, (n - 1) as nat);
        match cell_key(insts[n - 1]) {
            Some(k) => if keys.contains(k) {
                keys
            } else {
                keys.push(k)
            },
            None => keys,
        }
    }
}

/// How many cells the frame has.
pub open spec fn cells(f: Function) -> int {
    first_inst_cell(f) + f.insts@.len() + cell_keys(f.insts@, f.insts@.len()).len()
}

/// Where the cell that a constant names is.
pub open spec fn const_home(f: Function, key: (u8, i64)) -> int {
    8 * (first_inst_cell(f) + f.insts@.len() + cell_keys(f.insts@, f.insts@.len()).index_of(key))
}

/// The size of the frame: a multiple of 16.
pub open spec fn frame_size(f: Function) -> int {
    (8 * cells(f) + 15) / 16 * 16
}

pub open spec fn home_of(f: Function, v: ValRef) -> int {
    match v {
        ValRef::Param(i) => param_home(i as int),
        ValRef::Val(id) => inst_home(f, id),
    }
}

pub open spec fn value_ty(f: Function, v: ValRef) -> Ty {
    match v {
        ValRef::Param(i) => f.params@[i as int],
        ValRef::Val(id) => f.insts@[id.0 as int].ty,
    }
}

proof fn lemma_cell_keys(insts: Seq<Inst>, i: nat, n: nat)
    requires
        i <= n <= insts.len(),
    ensures
        cell_keys(insts, i).len() <= cell_keys(insts, n).len() <= n,
        forall|j: int|
            0 <= j < cell_keys(insts, i).len() ==> cell_keys(insts, n)[j] == #[trigger] cell_keys(
                insts,
                i,
            )[j],
        cell_keys(insts, n).no_duplicates(),
    decreases n,
{
    if i < n {
        lemma_cell_keys(insts, i, (n - 1) as nat);
    } else if n > 0 {
        lemma_cell_keys(insts, (n - 1) as nat, (n - 1) as nat);
    }
}

/// The cell that an instruction names is one of the frame.
proof fn lemma_key_known(insts: Seq<Inst>, i: int)
    requires
        0 <= i < insts.len(),
        cell_key(insts[i]) is Some,
    ensures
        cell_keys(insts, insts.len()).contains(cell_key(insts[i])->0),
{
    let k = cell_key(insts[i])->0;
    let keys = cell_keys(insts, i as nat + 1);
    lemma_cell_keys(insts, i as nat + 1, insts.len());
    assert(keys.contains(k)) by {
        if !cell_keys(insts, i as nat).contains(k) {
            assert(keys.last() == k);
        }
    }
    let j = choose|j: int| 0 <= j < keys.len() && keys[j] == k;
    assert(cell_keys(insts, insts.len())[j] == keys[j]);
}

/// The homes of two instructions and the cells of two constants never overlap, and every home
/// lies inside the frame, whose size keeps the stack aligned.
pub proof fn law_frame_layout(f: Function, i: InstId, j: InstId, a: (u8, i64), b: (u8, i64))
    requires
        (i.0 as int) < f.insts@.len(),
        (j.0 as int) < f.insts@.len(),
    ensures
        frame_size(f) % 16 == 0,
        loopctr_home(f) + 8 <= inst_home(f, i),
        !(f.ret is Void) ==> retval_home(f) + 8 <= inst_home(f, i),
        inst_home(f, i) + 8 <= frame_size(f),
        i != j ==> inst_home(f, i) + 8 <= inst_home(f, j) || inst_home(f, j) + 8 <= inst_home(f, i),
        cell_keys(f.insts@, f.insts@.len()).contains(a) ==> {
            &&& inst_home(f, i) + 8 <= const_home(f, a)
            &&& const_home(f, a) + 8 <= frame_size(f)
            &&& cell_keys(f.insts@, f.insts@.len()).contains(b) && a != b ==> const_home(f, a) + 8
                <= const_home(f, b) || const_home(f, b) + 8 <= const_home(f, a)
        },
{
    let keys = cell_keys(f.insts@, f.insts@.len());
    if keys.contains(a) {
        let ka = keys.index_of(a);
        assert(0 <= ka < keys.len() && keys[ka] == a);
        if keys.contains(b) {
            let kb = keys.index_of(b);
            assert(0 <= kb < keys.len() && keys[kb] == b);
        }
    }
}

/// The fixed homes and those of the parameters, in order.
pub proof fn law_fixed_layout(f: Function, i: int, j: int)
    requires
        0 <= i < j < f.params@.len(),
    ensures
        ra_home() + 8 <= scratch(0),
        scratch(0) + 8 <= scratch(1),
        scratch(1) + 8 <= scratch(2),
        scratch(2) + 8 <= param_home(i),
        param_home(i) + 8 <= param_home(j),
        param_home(j) + 8 <= nthreads_home(f),
        nthreads_home(f) + 8 <= loopctr_home(f),
        loopctr_home(f) + 8 <= retval_home(f),
{
}

/// The frame of a function.
struct Frame {
    param_home: Vec<i32>,
    nthreads_home: i32,
    loopctr_home: i32,
    ra_home: i32,
    retval_home: Option<i32>,
    inst_slot: Vec<i32>,
    const_addr_disp: Vec<((u8, i64), i32)>,
    scratch0: i32,
    scratch1: i32,
    scratch2: i32,
    frame_size: i32,
}

fn next_slot(offset: &mut i32) -> (cur: i32)
    requires
        *old(offset) <= i32::MAX - 8,
    ensures
        cur == *old(offset),
        *final(offset) == *old(offset) + 8,
{
    let cur: i32 = *offset;
    *offset = cur + 8;
    cur
}

fn find_cell(cells: &Vec<((u8, i64), i32)>, key: (u8, i64)) -> (r: Option<i32>)
    ensures
        match r {
            Some(d) => exists|j: int| 0 <= j < cells@.len() && cells@[j].0 == key && cells@[j].1 == d,
            None => forall|j: int| 0 <= j < cells@.len() ==> (#[trigger] cells@[j]).0 != key,
        },
{
    let mut i: usize = 0;
    while i < cells.len()
        invariant
            i <= cells@.len(),
            forall|j: int| 0 <= j < i ==> (#[trigger] cells@[j]).0 != key,
        decreases cells@.len() - i,
    {
        let c = &cells[i];
        let k: (u8, i64) = c.0;
        if k.0 == key.0 && k.1 == key.1 {
            return Some(c.1);
        }
        i = i + 1;
    }
    None
}

impl Frame {
    /// Every home is where the layout says.
    spec fn fits(&self, f: Function) -> bool {
        &&& self.ra_home == ra_home()
        &&& self.scratch0 == scratch(0)
        &&& self.scratch1 == scratch(1)
        &&& self.scratch2 == scratch(2)
        &&& self.param_home@.len() == f.params@.len()
        &&& forall|i: int|
            0 <= i < f.params@.len() ==> #[trigger] self.param_home@[i] == param_home(i)
        &&& self.nthreads_home == nthreads_home(f)
        &&& self.loopctr_home == loopctr_home(f)
        &&& self.retval_home is None <==> f.ret is Void
        &&& self.retval_home is Some ==> self.retval_home->0 == retval_home(f)
        &&& self.inst_slot@.len() == f.insts@.len()
        &&& forall|i: int|
            0 <= i < f.insts@.len() ==> #[trigger] self.inst_slot@[i] == 8 * (first_inst_cell(f) + i)
        &&& self.const_addr_disp@.len() == cell_keys(f.insts@, f.insts@.len()).len()
        &&& forall|j: int|
            0 <= j < self.const_addr_disp@.len() ==> {
                &&& (#[trigger] self.const_addr_disp@[j]).0 == cell_keys(
                    f.insts@,
                    f.insts@.len(),
                )[j]
                &&& self.const_addr_disp@[j].1 == 8 * (first_inst_cell(f) + f.insts@.len() + j)
            }
        &&& self.frame_size == frame_size(f)
    }

    fn build(f: &Function) -> (r: Frame)
        requires
            8 * cells(*f) + 15 <= i32::MAX,
        ensures
            r.fits(*f),
    {
        proof {
            lemma_cell_keys(f.insts@, 0, f.insts@.len());
        }
        let mut offset: i32 = 0;
        let ra_home: i32 = next_slot(&mut offset);
        let scratch0: i32 = next_slot(&mut offset);
        let scratch1: i32 = next_slot(&mut offset);
        let scratch2: i32 = next_slot(&mut offset);
        let mut param_home: Vec<i32> = Vec::new();
        let mut i: usize = 0;
        while i < f.params.len()
            invariant
                i <= f.params@.len(),
                8 * cells(*f) + 15 <= i32::MAX,
                offset == 8 * (4 + i),
                param_home@.len() == i,
                forall|j: int| 0 <= j < i ==> #[trigger] param_home@[j] == self::param_home(j),
            decreases f.params@.len() - i,
        {
            param_home.push(next_slot(&mut offset));
            i = i + 1;
        }
        let nthreads_home: i32 = next_slot(&mut offset);
        let loopctr_home: i32 = next_slot(&mut offset);
        let retval_home: Option<i32> = if matches!(f.ret, Ty::Void) {
            None
        } else {
            Some(next_slot(&mut offset))
        };
        let mut inst_slot: Vec<i32> = Vec::new();
        let mut i: usize = 0;
        while i < f.insts.len()
            invariant
                i <= f.insts@.len(),
                8 * cells(*f) + 15 <= i32::MAX,
                offset == 8 * (first_inst_cell(*f) + i),
                inst_slot@.len() == i,
                forall|j: int|
                    0 <= j < i ==> #[trigger] inst_slot@[j] == 8 * (first_inst_cell(*f) + j),
            decreases f.insts@.len() - i,
        {
            inst_slot.push(next_slot(&mut offset));
            i = i + 1;
        }
        let mut const_addr_disp: Vec<((u8, i64), i32)> = Vec::new();
        let mut i: usize = 0;
        while i < f.insts.len()
            invariant
                i <= f.insts@.len(),
                8 * cells(*f) + 15 <= i32::MAX,
                offset == 8 * (first_inst_cell(*f) + f.insts@.len() + const_addr_disp@.len()),
                const_addr_disp@.len() == cell_keys(f.insts@, i as nat).len(),
                forall|j: int|
                    0 <= j < const_addr_disp@.len() ==> {
                        &&& (#[trigger] const_addr_disp@[j]).0 == cell_keys(f.insts@, i as nat)[j]
                        &&& const_addr_disp@[j].1 == 8 * (first_inst_cell(*f) + f.insts@.len() + j)
                    },
            decreases f.insts@.len() - i,
        {
            proof {
                lemma_cell_keys(f.insts@, i as nat + 1, f.insts@.len());
            }
            let ghost keys = cell_keys(f.insts@, i as nat);
            match (&f.insts[i].op, f.insts[i].ty) {
                (Op::ConstInt(n), Ty::Ptr(space)) => {
                    if local_like(space) {
                        let key: (u8, i64) = (space_tag(space), *n);
                        match find_cell(&const_addr_disp, key) {
                            Some(_) => {
                                assert(keys.contains(key));
                            },
                            None => {
                                assert(!keys.contains(key)) by {
                                    if keys.contains(key) {
                                        let j = choose|j: int| 0 <= j < keys.len() && keys[j] == key;
                                        assert(const_addr_disp@[j].0 == key);
                                    }
                                }
                                const_addr_disp.push((key, next_slot(&mut offset)));
                            },
                        }
                    }
                },
                _ => {},
            }
            i = i + 1;
        }
        let frame_size: i32 = (offset + 15) / 16 * 16;
        Frame {
            param_home,
            nthreads_home,
            loopctr_home,
            ra_home,
            retval_home,
            inst_slot,
            const_addr_disp,
            scratch0,
            scratch1,
            scratch2,
            frame_size,
        }
    }
}

// ---- phis ----------------------------------------------------------------------------------

/// What the edge between two blocks writes for a phi: the home of the phi, a value, its type.
#[derive(Clone, Copy, PartialEq, Eq, Structural)]
pub struct PhiCopy {
    pub from: u32,
    pub to: u32,
    pub dest: i32,
    pub val: ValRef,
    pub ty: Ty,
}

pub open spec fn pred_copies(
    f: Function,
    to: u32,
    id: InstId,
    preds: Seq<(BlockId, ValRef)>,
    n: nat,
) -> Seq<PhiCopy>
    decreases n,
{
    if n == 0 {
        Seq::empty()
    } else {
        let p = preds[n - 1];
        pred_copies(f, to, id, preds, (n - 1) as nat).push(
            PhiCopy {
                from: p.0.0,
                to,
                dest: inst_home(f, id) as i32,
                val: p.1,
                ty: f.insts@[id.0 as int].ty,
            },
        )
    }
}

pub open spec fn inst_copies(f: Function, to: u32, id: InstId) -> Seq<PhiCopy> {
    match f.insts@[id.0 as int].op {
        Op::Phi(preds) => pred_copies(f, to, id, preds@, preds@.len()),
        _ => Seq::empty(),
    }
}

pub open spec fn block_copies(f: Function, to: u32, ids: Seq<InstId>, n: nat) -> Seq<PhiCopy>
    decreases n,
{
    if n == 0 {
        Seq::empty()
    } else {
        block_copies(f, to, ids, (n - 1) as nat) + inst_copies(f, to, ids[n - 1])
    }
}

/// The copies into the first `n` blocks: by block, by phi, by predecessor.
pub open spec fn phi_copies(f: Function, n: nat) -> Seq<PhiCopy>
    decreases n,
{
    if n == 0 {
        Seq::empty()
    } else {
        let ids = f.blocks@[n - 1].insts@;
        phi_copies(f, (n - 1) as nat) + block_copies(f, (n - 1) as u32, ids, ids.len())
    }
}

fn build_phi_copies(f: &Function, frame: &Frame) -> (copies: Vec<PhiCopy>)
    requires
        forall|b: int| 0 <= b < f.blocks@.len() ==> block_ok(*f, #[trigger] f.blocks@[b]),
        f.blocks@.len() <= u32::MAX,
        frame.fits(*f),
    ensures
        copies@ == phi_copies(*f, f.blocks@.len()),
{
    let mut copies: Vec<PhiCopy> = Vec::new();
    let mut b: usize = 0;
    while b < f.blocks.len()
        invariant
            b <= f.blocks@.len() <= u32::MAX,
            forall|b: int| 0 <= b < f.blocks@.len() ==> block_ok(*f, #[trigger] f.blocks@[b]),
            frame.fits(*f),
            copies@ == phi_copies(*f, b as nat),
        decreases f.blocks@.len() - b,
    {
        let block = &f.blocks[b];
        let ghost before = copies@;
        let ghost ids = block.insts@;
        let mut k: usize = 0;
        while k < block.insts.len()
            invariant
                b < f.blocks@.len(),
                *block == f.blocks@[b as int],
                ids == block.insts@,
                k <= ids.len(),
                f.blocks@.len() <= u32::MAX,
                forall|b: int| 0 <= b < f.blocks@.len() ==> block_ok(*f, #[trigger] f.blocks@[b]),
                frame.fits(*f),
                copies@ == before + block_copies(*f, b as u32, ids, k as nat),
            decreases ids.len() - k,
        {
            let id = block.insts[k];
            assert(block_ok(*f, f.blocks@[b as int]));
            assert(ids[k as int] == id);
            let ghost mid = copies@;
            let inst = &f.insts[id.0 as usize];
            match &inst.op {
                Op::Phi(preds) => {
                    let dest: i32 = frame.inst_slot[id.0 as usize];
                    let mut j: usize = 0;
                    while j < preds.len()
                        invariant
                            b < f.blocks@.len(),
                            b <= u32::MAX,
                            j <= preds@.len(),
                            id.0 < f.insts@.len(),
                            dest == inst_home(*f, id),
                            inst.ty == f.insts@[id.0 as int].ty,
                            copies@ == mid + pred_copies(*f, b as u32, id, preds@, j as nat),
                        decreases preds@.len() - j,
                    {
                        let p = preds[j];
                        copies.push(PhiCopy { from: p.0.0, to: b as u32, dest, val: p.1, ty: inst.ty });
                        j = j + 1;
                        assert(copies@ =~= mid + pred_copies(*f, b as u32, id, preds@, j as nat));
                    }
                },
                _ => {},
            }
            k = k + 1;
            assert(copies@ =~= before + block_copies(*f, b as u32, ids, k as nat));
        }
        b = b + 1;
    }
    copies
}

// ---- functions that lower ------------------------------------------------------------------

pub open spec fn value_ok(f: Function, v: ValRef) -> bool {
    match v {
        ValRef::Param(i) => (i as int) < f.params@.len(),
        ValRef::Val(id) => (id.0 as int) < f.insts@.len(),
    }
}

/// Operation and type fit each other, and the backend has the operation at that type.
pub open spec fn bin_ok(op: BinOp, ty: Ty) -> bool {
    &&& sized_ty(ty)
    &&& float_ty(ty) <==> float_bin(op)
    &&& ty == Ty::Scalar(Scalar::I64) ==> !shift_or_div(op)
}

pub open spec fn cast_ok(cop: CastOp, sty: Ty, dty: Ty) -> bool {
    match cop {
        CastOp::Trunc => narrow_ty(dty),
        CastOp::Zext | CastOp::Sext => narrow_ty(sty) && sized_ty(dty),
        CastOp::Bitcast => wide_ty(sty) || sized_ty(dty),
        CastOp::FpToSi | CastOp::FpToUi => narrow_ty(dty),
        CastOp::SiToFp | CastOp::UiToFp => narrow_ty(sty),
        CastOp::FpExt | CastOp::FpTrunc => false,
    }
}

/// An instruction that is typed as BIR asks, on values that exist, and not refused.
pub open spec fn inst_ok(f: Function, inst: Inst) -> bool {
    let ty = inst.ty;
    match inst.op {
        Op::ConstInt(_) => sized_ty(ty),
        Op::ConstFloat(_) => true,
        Op::Bin(op, a, b) => bin_ok(op, ty) && value_ok(f, a) && value_ok(f, b),
        Op::ICmp(_, cty, a, b) => sized_ty(cty) && value_ok(f, a) && value_ok(f, b),
        Op::FCmp(_, _, a, b) => value_ok(f, a) && value_ok(f, b),
        Op::Select(c, a, b) => sized_ty(ty) && value_ok(f, c) && value_ok(f, a) && value_ok(f, b),
        Op::Cast(cop, sty, v) => cast_ok(cop, sty, ty) && value_ok(f, v),
        Op::Load { ptr, space, align, volatile } => sized_ty(ty) && value_ok(f, ptr),
        Op::Store { ptr, val, ty: sty, space, align, volatile } => sized_ty(sty) && value_ok(f, ptr)
            && value_ok(f, val),
        Op::Phi(_) => true,
        Op::TidX | Op::TidY | Op::TidZ | Op::BidX | Op::BidY | Op::BidZ | Op::BdimX | Op::BdimY
            | Op::BdimZ | Op::GdimX | Op::GdimY | Op::GdimZ => narrow_ty(
        ty),
        Op::Barrier => true,
        Op::Atomic(_, ptr, val, _) => sized_ty(ty) && value_ok(f, ptr) && value_ok(f, val),
        Op::AtomicCas(ptr, expect, newv, _) => sized_ty(ty) && value_ok(f, ptr) && value_ok(
            f,
            expect,
        ) && value_ok(f, newv),
        _ => false,
    }
}

pub open spec fn cases_ok(f: Function, cases: Seq<(i64, BlockId)>) -> bool {
    forall|i: int| 0 <= i < cases.len() ==> ((#[trigger] cases[i]).1.0 as int) < f.blocks@.len()
}

pub open spec fn term_ok(f: Function, term: Term) -> bool {
    match term {
        Term::Br(t) => (t.0 as int) < f.blocks@.len(),
        Term::CondBr(c, t, e) => value_ok(f, c) && (t.0 as int) < f.blocks@.len() && (e.0 as int)
            < f.blocks@.len(),
        Term::Switch(v, d, cases) => {
            &&& value_ok(f, v)
            &&& narrow_ty(value_ty(f, v))
            &&& (d.0 as int) < f.blocks@.len()
            &&& cases_ok(f, cases@)
        },
        Term::Ret(None) => true,
        Term::Ret(Some(v)) => value_ok(f, v) && sized_ty(f.ret),
    }
}

pub open spec fn block_ok(f: Function, b: Block) -> bool {
    &&& forall|k: int|
        0 <= k < b.insts@.len() ==> {
            &&& ((#[trigger] b.insts@[k]).0 as int) < f.insts@.len()
            &&& inst_ok(f, f.insts@[b.insts@[k].0 as int])
        }
    &&& term_ok(f, b.term)
}

/// How many labels a block may need.
pub open spec fn block_labels(b: Block) -> nat {
    2 * b.insts@.len() + match b.term {
        Term::Switch(_, _, cases) => cases@.len(),
        _ => 1,
    }
}

pub open spec fn labels_needed(blocks: Seq<Block>, n: nat) -> nat
    decreases n,
{
    if n == 0 {
        0
    } else {
        labels_needed(blocks, (n - 1) as nat) + block_labels(blocks[n - 1])
    }
}

proof fn lemma_labels_needed(blocks: Seq<Block>, i: nat, n: nat)
    requires
        i <= n,
    ensures
        labels_needed(blocks, i) <= labels_needed(blocks, n),
    decreases n,
{
    if i < n {
        lemma_labels_needed(blocks, i, (n - 1) as nat);
    }
}

/// A function that is typed as BIR asks and whose frame and labels can be counted in 32 bits.
pub open spec fn lowerable(f: Function) -> bool {
    &&& forall|b: int| 0 <= b < f.blocks@.len() ==> block_ok(f, #[trigger] f.blocks@[b])
    &&& f.blocks@.len() <= u32::MAX
    &&& labels_needed(f.blocks@, f.blocks@.len()) <= u32::MAX
    &&& 8 * cells(f) + 15 <= i32::MAX
    &&& forall|b: int|
        0 <= b < f.blocks@.len() ==> exits_ok(f, b as u32, (#[trigger] f.blocks@[b]).term)
}

/// A copy of a value that exists, of a type that can be in the frame.
pub open spec fn copy_ok(f: Function, c: PhiCopy) -> bool {
    value_ok(f, c.val) && sized_ty(c.ty)
}

/// Whether what the phis take on an edge can be copied.
pub open spec fn edge_ok(f: Function, from: u32, to: u32) -> bool {
    let copies = phi_copies(f, f.blocks@.len());
    forall|i: int|
        0 <= i < copies.len() && (#[trigger] copies[i]).from == from && copies[i].to == to
            ==> copy_ok(f, copies[i])
}

/// Whether what the phis take on every edge out of a block can be copied.
pub open spec fn exits_ok(f: Function, from: u32, term: Term) -> bool {
    match term {
        Term::Br(t) => edge_ok(f, from, t.0),
        Term::CondBr(_, t, e) => edge_ok(f, from, t.0) && edge_ok(f, from, e.0),
        Term::Switch(_, d, cases) => edge_ok(f, from, d.0) && forall|i: int|
            0 <= i < cases@.len() ==> edge_ok(f, from, (#[trigger] cases@[i]).1.0),
        Term::Ret(_) => true,
    }
}

fn is_narrow(ty: Ty) -> (r: bool)
    ensures
        r == narrow_ty(ty),
{
    match ty {
        Ty::Scalar(Scalar::I1) | Ty::Scalar(Scalar::I8) | Ty::Scalar(Scalar::I16) | Ty::Scalar(
            Scalar::I32,
        ) | Ty::Scalar(Scalar::F32) | Ty::Ptr(_) => true,
        _ => false,
    }
}

fn is_sized(ty: Ty) -> (r: bool)
    ensures
        r == sized_ty(ty),
{
    is_narrow(ty) || is_wide(ty)
}

fn has_value(f: &Function, v: ValRef) -> (r: bool)
    ensures
        r == value_ok(*f, v),
{
    match v {
        ValRef::Param(i) => (i as usize) < f.params.len(),
        ValRef::Val(id) => (id.0 as usize) < f.insts.len(),
    }
}

fn has_block(f: &Function, b: BlockId) -> (r: bool)
    ensures
        r == ((b.0 as int) < f.blocks@.len()),
{
    (b.0 as usize) < f.blocks.len()
}

fn has_cases(f: &Function, cases: &Vec<(i64, BlockId)>) -> (r: bool)
    ensures
        r == cases_ok(*f, cases@),
{
    let mut i: usize = 0;
    while i < cases.len()
        invariant
            i <= cases@.len(),
            forall|j: int| 0 <= j < i ==> ((#[trigger] cases@[j]).1.0 as int) < f.blocks@.len(),
        decreases cases@.len() - i,
    {
        if !has_block(f, cases[i].1) {
            assert(cases@[i as int].1.0 >= f.blocks@.len());
            return false;
        }
        i = i + 1;
    }
    true
}

fn fits_bin(op: BinOp, ty: Ty) -> (r: bool)
    ensures
        r == bin_ok(op, ty),
{
    let float = matches!(op, BinOp::FAdd | BinOp::FSub | BinOp::FMul | BinOp::FDiv | BinOp::FRem);
    let cut = matches!(op, BinOp::Shl | BinOp::Lshr | BinOp::Ashr | BinOp::Div | BinOp::Rem);
    is_sized(ty) && is_float(ty) == float && !(matches!(ty, Ty::Scalar(Scalar::I64)) && cut)
}

fn fits_cast(cop: CastOp, sty: Ty, dty: Ty) -> (r: bool)
    ensures
        r == cast_ok(cop, sty, dty),
{
    match cop {
        CastOp::Trunc => is_narrow(dty),
        CastOp::Zext | CastOp::Sext => is_narrow(sty) && is_sized(dty),
        CastOp::Bitcast => is_wide(sty) || is_sized(dty),
        CastOp::FpToSi | CastOp::FpToUi => is_narrow(dty),
        CastOp::SiToFp | CastOp::UiToFp => is_narrow(sty),
        CastOp::FpExt | CastOp::FpTrunc => false,
    }
}

fn fits_inst(f: &Function, inst: &Inst) -> (r: bool)
    ensures
        r == inst_ok(*f, *inst),
{
    let ty = inst.ty;
    match &inst.op {
        Op::ConstInt(_) => is_sized(ty),
        Op::ConstFloat(_) => true,
        Op::Bin(op, a, b) => fits_bin(*op, ty) && has_value(f, *a) && has_value(f, *b),
        Op::ICmp(_, cty, a, b) => is_sized(*cty) && has_value(f, *a) && has_value(f, *b),
        Op::FCmp(_, _, a, b) => has_value(f, *a) && has_value(f, *b),
        Op::Select(c, a, b) => is_sized(ty) && has_value(f, *c) && has_value(f, *a) && has_value(
            f,
            *b,
        ),
        Op::Cast(cop, sty, v) => fits_cast(*cop, *sty, ty) && has_value(f, *v),
        Op::Load { ptr, .. } => is_sized(ty) && has_value(f, *ptr),
        Op::Store { ptr, val, ty: sty, .. } => is_sized(*sty) && has_value(f, *ptr) && has_value(
            f,
            *val,
        ),
        Op::Phi(_) => true,
        Op::TidX | Op::TidY | Op::TidZ | Op::BidX | Op::BidY | Op::BidZ | Op::BdimX | Op::BdimY
            | Op::BdimZ | Op::GdimX | Op::GdimY | Op::GdimZ => is_narrow(ty),
        Op::Barrier => true,
        Op::Atomic(_, ptr, val, _) => is_sized(ty) && has_value(f, *ptr) && has_value(f, *val),
        Op::AtomicCas(ptr, expect, newv, _) => is_sized(ty) && has_value(f, *ptr) && has_value(
            f,
            *expect,
        ) && has_value(f, *newv),
        _ => false,
    }
}

fn fits_term(f: &Function, term: &Term) -> (r: bool)
    ensures
        r == term_ok(*f, *term),
{
    match term {
        Term::Br(t) => has_block(f, *t),
        Term::CondBr(c, t, e) => has_value(f, *c) && has_block(f, *t) && has_block(f, *e),
        Term::Switch(v, d, cases) => has_value(f, *v) && is_narrow(
            match *v {
                ValRef::Param(i) => f.params[i as usize],
                ValRef::Val(id) => f.insts[id.0 as usize].ty,
            },
        ) && has_block(f, *d) && has_cases(f, cases),
        Term::Ret(None) => true,
        Term::Ret(Some(v)) => has_value(f, *v) && is_sized(f.ret),
    }
}

fn fits_block(f: &Function, b: &Block) -> (r: bool)
    ensures
        r == block_ok(*f, *b),
{
    let mut k: usize = 0;
    while k < b.insts.len()
        invariant
            k <= b.insts@.len(),
            forall|j: int|
                0 <= j < k ==> {
                    &&& ((#[trigger] b.insts@[j]).0 as int) < f.insts@.len()
                    &&& inst_ok(*f, f.insts@[b.insts@[j].0 as int])
                },
        decreases b.insts@.len() - k,
    {
        let id: usize = b.insts[k].0 as usize;
        if id >= f.insts.len() || !fits_inst(f, &f.insts[id]) {
            assert(!(b.insts@[k as int].0 < f.insts@.len() && inst_ok(
                *f,
                f.insts@[b.insts@[k as int].0 as int],
            )));
            return false;
        }
        k = k + 1;
    }
    fits_term(f, &b.term)
}

/// Whether the labels of all blocks can be counted in 32 bits.
fn fits_labels(f: &Function) -> (r: bool)
    ensures
        r == (labels_needed(f.blocks@, f.blocks@.len()) <= u32::MAX),
{
    let mut total: u64 = 0;
    let mut b: usize = 0;
    while b < f.blocks.len()
        invariant
            b <= f.blocks@.len(),
            total == labels_needed(f.blocks@, b as nat),
            total <= u32::MAX,
        decreases f.blocks@.len() - b,
    {
        proof {
            lemma_labels_needed(f.blocks@, b as nat + 1, f.blocks@.len());
        }
        let insts: usize = f.blocks[b].insts.len();
        let others: usize = match &f.blocks[b].term {
            Term::Switch(_, _, cases) => cases.len(),
            _ => 1,
        };
        if insts > 0xFFFF_FFFF || others > 0xFFFF_FFFF {
            return false;
        }
        total = total + 2 * (insts as u64) + others as u64;
        if total > 0xFFFF_FFFF {
            return false;
        }
        b = b + 1;
    }
    true
}

/// Whether the cells of the frame can be counted in 32 bits.
fn fits_frame(f: &Function) -> (r: bool)
    ensures
        r == (8 * cells(*f) + 15 <= i32::MAX),
{
    proof {
        lemma_cell_keys(f.insts@, 0, f.insts@.len());
    }
    if f.params.len() > 0x1000_0000 || f.insts.len() > 0x1000_0000 {
        return false;
    }
    let mut keys: Vec<((u8, i64), i32)> = Vec::new();
    let mut i: usize = 0;
    while i < f.insts.len()
        invariant
            i <= f.insts@.len() <= 0x1000_0000,
            keys@.len() == cell_keys(f.insts@, i as nat).len(),
            keys@.len() <= i,
            forall|j: int|
                0 <= j < keys@.len() ==> (#[trigger] keys@[j]).0 == cell_keys(f.insts@, i as nat)[j],
        decreases f.insts@.len() - i,
    {
        let ghost known = cell_keys(f.insts@, i as nat);
        match (&f.insts[i].op, f.insts[i].ty) {
            (Op::ConstInt(n), Ty::Ptr(space)) => {
                if local_like(space) {
                    let key: (u8, i64) = (space_tag(space), *n);
                    match find_cell(&keys, key) {
                        Some(_) => {
                            assert(known.contains(key));
                        },
                        None => {
                            assert(!known.contains(key)) by {
                                if known.contains(key) {
                                    let j = choose|j: int| 0 <= j < known.len() && known[j] == key;
                                    assert(keys@[j].0 == key);
                                }
                            }
                            keys.push((key, 0));
                        },
                    }
                }
            },
            _ => {},
        }
        i = i + 1;
    }
    let first: u64 = 6 + f.params.len() as u64 + if matches!(f.ret, Ty::Void) {
        0
    } else {
        1
    };
    8 * (first + f.insts.len() as u64 + keys.len() as u64) + 15 <= 0x7FFF_FFFF
}

fn fits_edge(f: &Function, copies: &Vec<PhiCopy>, from: u32, to: u32) -> (r: bool)
    requires
        copies@ == phi_copies(*f, f.blocks@.len()),
    ensures
        r == edge_ok(*f, from, to),
{
    let mut i: usize = 0;
    while i < copies.len()
        invariant
            i <= copies@.len(),
            copies@ == phi_copies(*f, f.blocks@.len()),
            forall|j: int|
                0 <= j < i && (#[trigger] copies@[j]).from == from && copies@[j].to == to
                    ==> copy_ok(*f, copies@[j]),
        decreases copies@.len() - i,
    {
        let c = copies[i];
        if c.from == from && c.to == to && !(has_value(f, c.val) && is_sized(c.ty)) {
            assert(!copy_ok(*f, copies@[i as int]));
            return false;
        }
        i = i + 1;
    }
    true
}

fn fits_case_edges(
    f: &Function,
    copies: &Vec<PhiCopy>,
    from: u32,
    cases: &Vec<(i64, BlockId)>,
) -> (r: bool)
    requires
        copies@ == phi_copies(*f, f.blocks@.len()),
    ensures
        r == forall|i: int| 0 <= i < cases@.len() ==> edge_ok(*f, from, (#[trigger] cases@[i]).1.0),
{
    let mut i: usize = 0;
    while i < cases.len()
        invariant
            i <= cases@.len(),
            copies@ == phi_copies(*f, f.blocks@.len()),
            forall|j: int| 0 <= j < i ==> edge_ok(*f, from, (#[trigger] cases@[j]).1.0),
        decreases cases@.len() - i,
    {
        if !fits_edge(f, copies, from, cases[i].1.0) {
            assert(!edge_ok(*f, from, cases@[i as int].1.0));
            return false;
        }
        i = i + 1;
    }
    true
}

fn fits_exits(f: &Function, copies: &Vec<PhiCopy>, from: u32, term: &Term) -> (r: bool)
    requires
        copies@ == phi_copies(*f, f.blocks@.len()),
    ensures
        r == exits_ok(*f, from, *term),
{
    match term {
        Term::Br(t) => fits_edge(f, copies, from, t.0),
        Term::CondBr(_, t, e) => fits_edge(f, copies, from, t.0) && fits_edge(f, copies, from, e.0),
        Term::Switch(_, d, cases) => fits_edge(f, copies, from, d.0) && fits_case_edges(
            f,
            copies,
            from,
            cases,
        ),
        Term::Ret(_) => true,
    }
}

/// Whether a function is typed as BIR asks and its frame and labels can be counted in 32 bits.
pub fn is_lowerable(f: &Function) -> (r: bool)
    ensures
        r == lowerable(*f),
{
    if f.blocks.len() > 0xFFFF_FFFF || !fits_labels(f) || !fits_frame(f) {
        return false;
    }
    let mut b: usize = 0;
    while b < f.blocks.len()
        invariant
            b <= f.blocks@.len(),
            forall|j: int| 0 <= j < b ==> block_ok(*f, #[trigger] f.blocks@[j]),
        decreases f.blocks@.len() - b,
    {
        if !fits_block(f, &f.blocks[b]) {
            assert(!block_ok(*f, f.blocks@[b as int]));
            return false;
        }
        b = b + 1;
    }
    let frame = Frame::build(f);
    let copies = build_phi_copies(f, &frame);
    let mut b: usize = 0;
    while b < f.blocks.len()
        invariant
            b <= f.blocks@.len() <= u32::MAX,
            copies@ == phi_copies(*f, f.blocks@.len()),
            forall|j: int|
                0 <= j < b ==> exits_ok(*f, j as u32, (#[trigger] f.blocks@[j]).term),
        decreases f.blocks@.len() - b,
    {
        if !fits_exits(f, &copies, b as u32, &f.blocks[b].term) {
            assert(!exits_ok(*f, b as u32, f.blocks@[b as int].term));
            return false;
        }
        b = b + 1;
    }
    true
}

// ---- labels --------------------------------------------------------------------------------

/// The label of block `k`.
pub open spec fn block_name(k: nat) -> Seq<char> {
    "bb"@ + decimal(k)
}

/// The label made from a prefix and a number.
pub open spec fn fresh_name(p: Seq<char>, k: nat) -> Seq<char> {
    "__"@ + p + "_"@ + decimal(k)
}

/// A prefix that meets neither the runtime's entries nor the labels of the thread loop.
pub open spec fn prefix_ok(p: Seq<char>) -> bool {
    p.len() >= 2 && !(p[0] == 's' && p[1] == 'f') && p[0] != 'l'
}

/// A name that the body of a function may have defined, after `n` fresh labels and `nb` blocks.
pub open spec fn name_ok(s: Seq<char>, n: nat, nb: nat) -> bool {
    ||| s == "__loop_check"@
    ||| exists|k: nat| k < nb && s == #[trigger] block_name(k)
    ||| exists|p: Seq<char>, k: nat| k <= n && prefix_ok(p) && s == #[trigger] fresh_name(p, k)
}

pub open spec fn names_ok(t: Seq<Asm>, n: nat, nb: nat) -> bool {
    forall|s: Seq<char>| #[trigger] defines(t, s) ==> name_ok(s, n, nb)
}

pub open spec fn same_names(a: Seq<Asm>, b: Seq<Asm>) -> bool {
    forall|s: Seq<char>| #[trigger] defines(b, s) <==> defines(a, s)
}

/// A name that the text of a function jumps to and that is defined elsewhere in it: a block, the
/// thread loop or the runtime.
pub open spec fn awaited(f: Function, s: Seq<char>) -> bool {
    ||| s == "__loop_check"@
    ||| s == "__loop_incr"@
    ||| s == "__loop_end"@
    ||| exists|k: nat| k < f.blocks@.len() && s == #[trigger] block_name(k)
    ||| entry_name(s)
}

/// Whether what is added to a text defines every name that it jumps to, but for those that are
/// defined elsewhere.
spec fn settled(f: Function, a: Seq<Asm>, b: Seq<Asm>) -> bool {
    &&& forall|s: Seq<char>| #[trigger]
        jumps(b, s) ==> jumps(a, s) || defines(b, s) || awaited(f, s)
    &&& forall|s: Seq<char>| #[trigger] defines(a, s) ==> defines(b, s)
}

proof fn lemma_fresh_chars(p: Seq<char>, k: nat)
    requires
        prefix_ok(p),
    ensures
        ({
            let s = fresh_name(p, k);
            &&& s.len() == p.len() + 3 + decimal(k).len()
            &&& s[0] == '_'
            &&& s[1] == '_'
            &&& s[2] == p[0]
            &&& s[3] == p[1]
            &&& s[p.len() as int + 2] == '_'
            &&& s.subrange(p.len() as int + 3, s.len() as int) == decimal(k)
        }),
{
    reveal_strlit("__");
    reveal_strlit("_");
    lemma_decimal_digits(k);
    let s = fresh_name(p, k);
    assert(s.subrange(p.len() as int + 3, s.len() as int) =~= decimal(k));
}

/// The number of a fresh label can be read off it.
proof fn lemma_fresh_distinct(p: Seq<char>, j: nat, q: Seq<char>, k: nat)
    requires
        prefix_ok(p),
        prefix_ok(q),
        j != k,
    ensures
        fresh_name(p, j) != fresh_name(q, k),
{
    lemma_fresh_chars(p, j);
    lemma_fresh_chars(q, k);
    lemma_decimal_digits(j);
    lemma_decimal_digits(k);
    let s = fresh_name(p, j);
    if s == fresh_name(q, k) {
        if p.len() < q.len() {
            assert(decimal(j)[q.len() - p.len() - 1] == s[q.len() as int + 2]);
        } else if p.len() > q.len() {
            assert(decimal(k)[p.len() - q.len() - 1] == s[p.len() as int + 2]);
        } else {
            lemma_decimal_injective(j, k);
        }
    }
}

/// Two labels made one after the other differ.
proof fn lemma_pair_distinct(p: Seq<char>, q: Seq<char>, n: u32)
    requires
        prefix_ok(p),
        prefix_ok(q),
        n > 0,
    ensures
        fresh_name(p, (n - 1) as nat) != fresh_name(q, n as nat),
{
    lemma_fresh_distinct(p, (n - 1) as nat, q, n as nat);
}

proof fn lemma_block_chars(k: nat)
    ensures
        block_name(k).len() >= 3,
        block_name(k)[0] == 'b',
{
    reveal_strlit("bb");
    lemma_decimal_digits(k);
}

proof fn lemma_block_distinct(j: nat, k: nat)
    requires
        j != k,
    ensures
        block_name(j) != block_name(k),
{
    reveal_strlit("bb");
    if block_name(j) == block_name(k) {
        assert(block_name(j).subrange(2, block_name(j).len() as int) =~= decimal(j));
        assert(block_name(k).subrange(2, block_name(k).len() as int) =~= decimal(k));
        lemma_decimal_injective(j, k);
    }
}

/// A fresh label is none of those defined so far.
proof fn lemma_fresh_is_new(t: Seq<Asm>, n: nat, nb: nat, p: Seq<char>)
    requires
        names_ok(t, n, nb),
        prefix_ok(p),
    ensures
        !defines(t, fresh_name(p, n + 1)),
{
    let s = fresh_name(p, n + 1);
    lemma_fresh_chars(p, n + 1);
    if defines(t, s) {
        assert(name_ok(s, n, nb));
        reveal_strlit("__loop_check");
        assert("__loop_check"@[2] == 'l');
        if exists|k: nat| k < nb && s == #[trigger] block_name(k) {
            let k = choose|k: nat| k < nb && s == #[trigger] block_name(k);
            lemma_block_chars(k);
        } else {
            let (q, k) = choose|q: Seq<char>, k: nat|
                k <= n && prefix_ok(q) && s == #[trigger] fresh_name(q, k);
            lemma_fresh_distinct(p, n + 1, q, k);
        }
    }
}

/// The label of the next block is none of those defined so far.
proof fn lemma_block_is_new(t: Seq<Asm>, n: nat, nb: nat)
    requires
        names_ok(t, n, nb),
    ensures
        !defines(t, block_name(nb)),
{
    let s = block_name(nb);
    lemma_block_chars(nb);
    if defines(t, s) {
        assert(name_ok(s, n, nb));
        reveal_strlit("__loop_check");
        assert("__loop_check"@[0] == '_');
        if exists|k: nat| k < nb && s == #[trigger] block_name(k) {
            let k = choose|k: nat| k < nb && s == #[trigger] block_name(k);
            lemma_block_distinct(k, nb);
        } else {
            let (q, k) = choose|q: Seq<char>, k: nat|
                k <= n && prefix_ok(q) && s == #[trigger] fresh_name(q, k);
            lemma_fresh_chars(q, k);
        }
    }
}

/// A name of the body is no other label of the loop and none of the runtime.
proof fn lemma_name_apart(s: Seq<char>, n: nat, nb: nat)
    requires
        name_ok(s, n, nb),
    ensures
        s != "__loop_incr"@,
        s != "__loop_end"@,
        !runtime_name(s),
{
    reveal_strlit("__loop_check");
    reveal_strlit("__loop_incr");
    reveal_strlit("__loop_end");
    lemma_entries();
    assert("__loop_check"@.len() == 12 && "__loop_incr"@.len() == 11 && "__loop_end"@.len() == 10);
    assert("__loop_check"@[0] == '_' && "__loop_check"@[3] == 'o' && "__loop_check"@[2] == 'l');
    assert("__loop_incr"@[0] == '_' && "__loop_incr"@[2] == 'l');
    assert("__loop_end"@[0] == '_' && "__loop_end"@[2] == 'l');
    if s == "__loop_check"@ {
    } else if exists|k: nat| k < nb && s == #[trigger] block_name(k) {
        let k = choose|k: nat| k < nb && s == #[trigger] block_name(k);
        lemma_block_chars(k);
    } else {
        let (q, k) = choose|q: Seq<char>, k: nat|
            k <= n && prefix_ok(q) && s == #[trigger] fresh_name(q, k);
        lemma_fresh_chars(q, k);
    }
}

proof fn lemma_entries()
    ensures
        forall|s: Seq<char>| #[trigger] entry_name(s) ==> s.len() > 4 && s[0] == '_' && s[2] == 's'
            && s[3] == 'f',
{
    reveal_strlit("__sf_f32_add");
    reveal_strlit("__sf_f32_mul");
    reveal_strlit("__sf_f32_div");
    reveal_strlit("__sf_f32_cmp");
    reveal_strlit("__sf_i32_to_f32");
    reveal_strlit("__sf_u32_to_f32");
    reveal_strlit("__sf_f32_to_i32");
    reveal_strlit("__sf_f32_to_u32");
}

pub fn block_label(id: u32) -> (s: String)
    ensures
        s@ == block_name(id as nat),
{
    "bb".to_owned().concat(to_decimal(id as u64).as_str())
}

// ---- the text of a function ----------------------------------------------------------------

/// The text written so far and how many fresh labels it has used.
pub struct St {
    pub text: Seq<Asm>,
    pub labels: nat,
}

pub open spec fn put(st: St, a: Asm) -> St {
    St { text: st.text.push(a), ..st }
}

/// Puts the address `sp + disp` into `dst`.
pub open spec fn put_frame_addr(st: St, f: Function, dst: u8, disp: int) -> St {
    let st = put(st, Asm::Li(dst, disp));
    put(st, Asm::Alu(AluOp::Add, dst, dst, SP))
}

/// Saves a register in a cell of the frame, by way of `t6`.
pub open spec fn put_stash(st: St, f: Function, slot_disp: int, reg: u8) -> St {
    let st = put_frame_addr(st, f, T6, slot_disp);
    put(st, Asm::Store(StoreOp::Sw, reg, 0, T6))
}

/// Loads a register from a cell of the frame, by way of `t6`.
pub open spec fn put_unstash(st: St, f: Function, slot_disp: int, reg: u8) -> St {
    let st = put_frame_addr(st, f, T6, slot_disp);
    put(st, Asm::Load(LoadOp::Lw, reg, 0, T6))
}

/// Loads a value of width `w` at the address in `base`.
pub open spec fn put_load_from(st: St, f: Function, dst: u8, base: u8, w: W, signed: bool) -> St {
    match w {
        W::B1 => {
            if signed {
                put(st, Asm::Load(LoadOp::Lb, dst, 0, base))
            } else {
                put(st, Asm::Load(LoadOp::Lbu, dst, 0, base))
            }
        },
        W::B2 => {
            if signed {
                put(st, Asm::Load(LoadOp::Lh, dst, 0, base))
            } else {
                put(st, Asm::Load(LoadOp::Lhu, dst, 0, base))
            }
        },
        W::B4 => {
            put(st, Asm::Load(LoadOp::Lw, dst, 0, base))
        },
    }
}

/// Stores a value of width `w` at the address in `base`.
pub open spec fn put_store_to(st: St, f: Function, src: u8, base: u8, w: W) -> St {
    match w {
        W::B1 => {
            put(st, Asm::Store(StoreOp::Sb, src, 0, base))
        },
        W::B2 => {
            put(st, Asm::Store(StoreOp::Sh, src, 0, base))
        },
        W::B4 => {
            put(st, Asm::Store(StoreOp::Sw, src, 0, base))
        },
    }
}

/// Loads a value of one word or less at its own width, by way of `t4`.
pub open spec fn put_reload(st: St, f: Function, v: ValRef, dst: u8, w: W, signed: bool) -> St {
    let disp = home_of(f, v);
    let st = put_frame_addr(st, f, T4, disp);
    put_load_from(st, f, dst, T4, w, signed)
}

/// Stores the result of instruction `id`, by way of `t4`.
pub open spec fn put_store_result(st: St, f: Function, id: InstId, src: u8, w: W) -> St {
    let disp = inst_home(f, id);
    let st = put_frame_addr(st, f, T4, disp);
    put_store_to(st, f, src, T4, w)
}

/// Loads the two words of a value, by way of `t4`.
pub open spec fn put_reload_wide(st: St, f: Function, v: ValRef, lo: u8, hi: u8) -> St {
    let disp = home_of(f, v);
    let st = put_frame_addr(st, f, T4, disp);
    let st = put(st, Asm::Load(LoadOp::Lw, lo, 0, T4));
    put(st, Asm::Load(LoadOp::Lw, hi, 4, T4))
}

/// Stores the two words of the result of instruction `id`, by way of `t4`.
pub open spec fn put_store_result_wide(st: St, f: Function, id: InstId, lo: u8, hi: u8) -> St {
    let disp = inst_home(f, id);
    let st = put_frame_addr(st, f, T4, disp);
    let st = put(st, Asm::Store(StoreOp::Sw, lo, 0, T4));
    put(st, Asm::Store(StoreOp::Sw, hi, 4, T4))
}

/// Copies a value into the result of instruction `id`.
pub open spec fn put_copy_value(st: St, f: Function, v: ValRef, id: InstId, ty: Ty) -> St {
    if wide_ty(ty) {
        let st = put_reload_wide(st, f, v, T0, T1);
        put_store_result_wide(st, f, id, T0, T1)
    } else {
        let w = width(ty);
        let st = put_reload(st, f, v, T0, w, false);
        put_store_result(st, f, id, T0, w)
    }
}

/// A thread number or count from its home, at the width of the result.
pub open spec fn put_lower_reload_dyn(
    st: St,
    f: Function,
    id: InstId,
    src_disp: int,
    ty: Ty,
) -> St {
    let st = put_frame_addr(st, f, T0, src_disp);
    let st = put(st, Asm::Load(LoadOp::Lw, T0, 0, T0));
    put_store_result(st, f, id, T0, width(ty))
}

/// Two words: add, sub, mul and the bitwise operations.
pub open spec fn put_lower_bin_i64(
    st: St,
    f: Function,
    id: InstId,
    op: BinOp,
    a: ValRef,
    b: ValRef,
) -> St {
    let st = put_reload_wide(st, f, a, T0, T1);
    let st = put_reload_wide(st, f, b, T2, T3);
    match op {
        BinOp::Add => {
            let st = put(st, Asm::Alu(AluOp::Add, T6, T0, T2));
            let st = put(st, Asm::Alu(AluOp::Sltu, T5, T6, T0));
            let st = put(st, Asm::Alu(AluOp::Add, T1, T1, T3));
            let st = put(st, Asm::Alu(AluOp::Add, T1, T1, T5));
            put_store_result_wide(st, f, id, T6, T1)
        },
        BinOp::Sub => {
            let st = put(st, Asm::Alu(AluOp::Sltu, T5, T0, T2));
            let st = put(st, Asm::Alu(AluOp::Sub, T6, T0, T2));
            let st = put(st, Asm::Alu(AluOp::Sub, T1, T1, T3));
            let st = put(st, Asm::Alu(AluOp::Sub, T1, T1, T5));
            put_store_result_wide(st, f, id, T6, T1)
        },
        BinOp::Mul => {
            let st = put(st, Asm::Mul(MulOp::Mulhu, T6, T0, T2));
            let st = put(st, Asm::Mul(MulOp::Mul, T5, T0, T3));
            let st = put(st, Asm::Alu(AluOp::Add, T6, T6, T5));
            let st = put(st, Asm::Mul(MulOp::Mul, T5, T1, T2));
            let st = put(st, Asm::Alu(AluOp::Add, T6, T6, T5));
            let st = put(st, Asm::Mul(MulOp::Mul, T5, T0, T2));
            put_store_result_wide(st, f, id, T5, T6)
        },
        _ => {
            let aop = spec_alu_of(op);
            let st = put(st, Asm::Alu(aop, T6, T0, T2));
            let st = put(st, Asm::Alu(aop, T5, T1, T3));
            put_store_result_wide(st, f, id, T6, T5)
        },
    }
}

/// `a0 = a0 - trunc(a0 / a1) * a1`; what outlives a call stays in the frame.
pub open spec fn put_lower_frem32(st: St, f: Function) -> St {
    let st = put_stash(st, f, scratch(0), A0);
    let st = put_stash(st, f, scratch(1), A1);
    let st = put(st, Asm::Jal(RA, "__sf_f32_div"@));
    let st = put(st, Asm::Jal(RA, "__sf_f32_to_i32"@));
    let st = put(st, Asm::Jal(RA, "__sf_i32_to_f32"@));
    let st = put_unstash(st, f, scratch(1), A1);
    let st = put(st, Asm::Jal(RA, "__sf_f32_mul"@));
    let st = put_stash(st, f, scratch(1), A0);
    let st = put_unstash(st, f, scratch(0), A0);
    let st = put_unstash(st, f, scratch(1), A1);
    let st = put(st, Asm::Li(T0, i32::MIN as int));
    let st = put(st, Asm::Alu(AluOp::Xor, A1, A1, T0));
    put(st, Asm::Jal(RA, "__sf_f32_add"@))
}

/// A single-precision operation by a call of the runtime.
pub open spec fn put_lower_bin_f32(
    st: St,
    f: Function,
    id: InstId,
    op: BinOp,
    a: ValRef,
    b: ValRef,
) -> St {
    let st = put_reload(st, f, a, A0, W::B4, false);
    let st = put_reload(st, f, b, A1, W::B4, false);
    let st = match op {
        BinOp::FAdd => {
            put(st, Asm::Jal(RA, "__sf_f32_add"@))
        },
        BinOp::FSub => {
            let st = put(st, Asm::Li(T0, i32::MIN as int));
            let st = put(st, Asm::Alu(AluOp::Xor, A1, A1, T0));
            put(st, Asm::Jal(RA, "__sf_f32_add"@))
        },
        BinOp::FMul => {
            put(st, Asm::Jal(RA, "__sf_f32_mul"@))
        },
        BinOp::FDiv => {
            put(st, Asm::Jal(RA, "__sf_f32_div"@))
        },
        _ => {
            put_lower_frem32(st, f)
        },
    };
    put_store_result(st, f, id, A0, W::B4)
}

/// A binary operation. Division and remainder are signed.
pub open spec fn put_lower_bin(
    st: St,
    f: Function,
    id: InstId,
    op: BinOp,
    a: ValRef,
    b: ValRef,
    ty: Ty,
) -> St {
    if float_ty(ty) {
        put_lower_bin_f32(st, f, id, op, a, b)
    } else if wide_ty(ty) {
        put_lower_bin_i64(st, f, id, op, a, b)
    } else {
        let w = width(ty);
        match op {
            BinOp::Mul => {
                let st = put_reload(st, f, a, T0, w, false);
                let st = put_reload(st, f, b, T1, w, false);
                let st = put(st, Asm::Mul(MulOp::Mul, T0, T0, T1));
                put_store_result(st, f, id, T0, w)
            },
            BinOp::Div => {
                let st = put_reload(st, f, a, T0, w, true);
                let st = put_reload(st, f, b, T1, w, true);
                let st = put(st, Asm::Mul(MulOp::Div, T0, T0, T1));
                put_store_result(st, f, id, T0, w)
            },
            BinOp::Rem => {
                let st = put_reload(st, f, a, T0, w, true);
                let st = put_reload(st, f, b, T1, w, true);
                let st = put(st, Asm::Mul(MulOp::Rem, T0, T0, T1));
                put_store_result(st, f, id, T0, w)
            },
            _ => {
                let signed = (op == BinOp::Ashr);
                let aop = spec_alu_of(op);
                let st = put_reload(st, f, a, T0, w, signed);
                let st = put_reload(st, f, b, T1, w, false);
                let st = put(st, Asm::Alu(aop, T0, T0, T1));
                put_store_result(st, f, id, T0, w)
            },
        }
    }
}

/// A comparison of two-word integers: the high words decide, and where they are equal the low ones.
pub open spec fn put_lower_icmp_i64(
    st: St,
    f: Function,
    id: InstId,
    pred: ICmpPred,
    a: ValRef,
    b: ValRef,
) -> St {
    let signed = (pred == ICmpPred::Slt || pred == ICmpPred::Sle || pred == ICmpPred::Sgt
        || pred == ICmpPred::Sge);
    let st = put_reload_wide(st, f, a, T0, T1);
    let st = put_reload_wide(st, f, b, T2, T3);
    let st = put(st, Asm::Alu(AluOp::Xor, A2, T0, T2));
    let st = put(st, Asm::Alu(AluOp::Xor, T5, T1, T3));
    let st = put(st, Asm::Alu(AluOp::Or, A2, A2, T5));
    let st = put(st, Asm::Imm(ImmOp::Sltiu, A2, A2, 1));
    if (pred == ICmpPred::Eq) {
        put_store_result(st, f, id, A2, W::B1)
    } else if (pred == ICmpPred::Ne) {
        let st = put(st, Asm::Imm(ImmOp::Xori, A2, A2, 1));
        put_store_result(st, f, id, A2, W::B1)
    } else {
        let st = put(st, Asm::Alu(AluOp::Xor, T6, T1, T3));
        let st = put(st, Asm::Imm(ImmOp::Sltiu, T6, T6, 1));
        let hi_lt_op = spec_less_op(signed);
        let st = put(st, Asm::Alu(hi_lt_op, T5, T1, T3));
        let st = St { labels: st.labels + 1, ..st };
        let lo_lt_label = fresh_name("icmp64_lo_lt"@, st.labels);
        let st = St { labels: st.labels + 1, ..st };
        let combine_label = fresh_name("icmp64_combine"@, st.labels);
        let st = put(st, Asm::Branch(BCond::Ne, T6, ZERO, lo_lt_label));
        let st = put(st, Asm::Jal(ZERO, combine_label));
        let st = put(st, Asm::Label(lo_lt_label));
        let st = put(st, Asm::Alu(AluOp::Sltu, T5, T0, T2));
        let st = put(st, Asm::Label(combine_label));
        let st = match pred {
            ICmpPred::Sle | ICmpPred::Ule => {
                put(st, Asm::Alu(AluOp::Or, T5, T5, A2))
            },
            ICmpPred::Sgt | ICmpPred::Ugt => {
                let st = put(st, Asm::Alu(AluOp::Or, T5, T5, A2));
                put(st, Asm::Imm(ImmOp::Xori, T5, T5, 1))
            },
            ICmpPred::Sge | ICmpPred::Uge => {
                put(st, Asm::Imm(ImmOp::Xori, T5, T5, 1))
            },
            _ => st,
        };
        put_store_result(st, f, id, T5, W::B1)
    }
}

/// An integer comparison.
pub open spec fn put_lower_icmp(
    st: St,
    f: Function,
    id: InstId,
    pred: ICmpPred,
    cty: Ty,
    a: ValRef,
    b: ValRef,
) -> St {
    if wide_ty(cty) {
        put_lower_icmp_i64(st, f, id, pred, a, b)
    } else {
        let signed = (pred == ICmpPred::Slt || pred == ICmpPred::Sle || pred == ICmpPred::Sgt
            || pred == ICmpPred::Sge);
        let w = width(cty);
        let st = put_reload(st, f, a, T0, w, signed);
        let st = put_reload(st, f, b, T1, w, signed);
        let aop = spec_less_op(signed);
        let st = match pred {
            ICmpPred::Eq => {
                let st = put(st, Asm::Alu(AluOp::Xor, T0, T0, T1));
                put(st, Asm::Imm(ImmOp::Sltiu, T0, T0, 1))
            },
            ICmpPred::Ne => {
                let st = put(st, Asm::Alu(AluOp::Xor, T0, T0, T1));
                put(st, Asm::Alu(AluOp::Sltu, T0, ZERO, T0))
            },
            ICmpPred::Slt | ICmpPred::Ult => {
                put(st, Asm::Alu(aop, T0, T0, T1))
            },
            ICmpPred::Sgt | ICmpPred::Ugt => {
                put(st, Asm::Alu(aop, T0, T1, T0))
            },
            ICmpPred::Sle | ICmpPred::Ule => {
                let st = put(st, Asm::Alu(aop, T0, T1, T0));
                put(st, Asm::Imm(ImmOp::Xori, T0, T0, 1))
            },
            ICmpPred::Sge | ICmpPred::Uge => {
                let st = put(st, Asm::Alu(aop, T0, T0, T1));
                put(st, Asm::Imm(ImmOp::Xori, T0, T0, 1))
            },
        };
        put_store_result(st, f, id, T0, W::B1)
    }
}

/// `dst = 1` if `src` holds `target`, else 0.
pub open spec fn put_eq_const(st: St, f: Function, dst: u8, src: u8, target: int) -> St {
    let st = put(st, addi_asm(dst, src, -target));
    put(st, Asm::Imm(ImmOp::Sltiu, dst, dst, 1))
}

/// A single-precision comparison: each predicate is read off the order code.
pub open spec fn put_lower_fcmp(
    st: St,
    f: Function,
    id: InstId,
    pred: FCmpPred,
    a: ValRef,
    b: ValRef,
) -> St {
    let st = put_reload(st, f, a, A0, W::B4, false);
    let st = put_reload(st, f, b, A1, W::B4, false);
    let st = put(st, Asm::Jal(RA, "__sf_f32_cmp"@));
    let st = match pred {
        FCmpPred::Oeq => {
            put_eq_const(st, f, T0, A0, 0)
        },
        FCmpPred::Olt => {
            put_eq_const(st, f, T0, A0, -1)
        },
        FCmpPred::Ogt => {
            put_eq_const(st, f, T0, A0, 1)
        },
        FCmpPred::Uno => {
            put_eq_const(st, f, T0, A0, -2)
        },
        FCmpPred::Ord => {
            let st = put_eq_const(st, f, T0, A0, -2);
            put(st, Asm::Imm(ImmOp::Xori, T0, T0, 1))
        },
        FCmpPred::One => {
            let st = put_eq_const(st, f, T0, A0, 0);
            let st = put_eq_const(st, f, T1, A0, -2);
            let st = put(st, Asm::Alu(AluOp::Or, T0, T0, T1));
            put(st, Asm::Imm(ImmOp::Xori, T0, T0, 1))
        },
        FCmpPred::Ole => {
            let st = put_eq_const(st, f, T0, A0, -1);
            let st = put_eq_const(st, f, T1, A0, 0);
            put(st, Asm::Alu(AluOp::Or, T0, T0, T1))
        },
        FCmpPred::Oge => {
            let st = put_eq_const(st, f, T0, A0, 1);
            let st = put_eq_const(st, f, T1, A0, 0);
            put(st, Asm::Alu(AluOp::Or, T0, T0, T1))
        },
    };
    put_store_result(st, f, id, T0, W::B1)
}

/// A conversion.
pub open spec fn put_lower_cast(
    st: St,
    f: Function,
    id: InstId,
    cop: CastOp,
    sty: Ty,
    v: ValRef,
    dty: Ty,
) -> St {
    match cop {
        CastOp::Zext => {
            let st = put_reload(st, f, v, T0, width(sty), false);
            if wide_ty(dty) {
                put_store_result_wide(st, f, id, T0, ZERO)
            } else {
                put_store_result(st, f, id, T0, width(dty))
            }
        },
        CastOp::Sext => {
            let st = put_reload(st, f, v, T0, width(sty), true);
            if wide_ty(dty) {
                let st = put(st, Asm::Shift(ShiftOp::Srai, T1, T0, 31));
                put_store_result_wide(st, f, id, T0, T1)
            } else {
                put_store_result(st, f, id, T0, width(dty))
            }
        },
        CastOp::Bitcast => {
            if wide_ty(sty) || wide_ty(dty) {
                let st = put_reload_wide(st, f, v, T0, T1);
                put_store_result_wide(st, f, id, T0, T1)
            } else {
                let st = put_reload(st, f, v, T0, width(dty), false);
                put_store_result(st, f, id, T0, width(dty))
            }
        },
        CastOp::FpToSi => {
            let st = put_reload(st, f, v, A0, W::B4, false);
            let st = put(st, Asm::Jal(RA, "__sf_f32_to_i32"@));
            put_store_result(st, f, id, A0, width(dty))
        },
        CastOp::FpToUi => {
            let st = put_reload(st, f, v, A0, W::B4, false);
            let st = put(st, Asm::Jal(RA, "__sf_f32_to_u32"@));
            put_store_result(st, f, id, A0, width(dty))
        },
        CastOp::SiToFp => {
            let st = put_reload(st, f, v, A0, width(sty), true);
            let st = put(st, Asm::Jal(RA, "__sf_i32_to_f32"@));
            put_store_result(st, f, id, A0, W::B4)
        },
        CastOp::UiToFp => {
            let st = put_reload(st, f, v, A0, width(sty), false);
            let st = put(st, Asm::Jal(RA, "__sf_u32_to_f32"@));
            put_store_result(st, f, id, A0, W::B4)
        },
        _ => {
            let st = put_reload(st, f, v, T0, width(dty), false);
            put_store_result(st, f, id, T0, width(dty))
        },
    }
}

/// A load. Every address is a real one by now, whatever its space.
pub open spec fn put_lower_load(st: St, f: Function, id: InstId, ptr: ValRef, ty: Ty) -> St {
    let st = put_reload(st, f, ptr, T4, W::B4, false);
    if wide_ty(ty) {
        let st = put(st, Asm::Load(LoadOp::Lw, T0, 0, T4));
        let st = put(st, Asm::Load(LoadOp::Lw, T1, 4, T4));
        put_store_result_wide(st, f, id, T0, T1)
    } else {
        let w = width(ty);
        let st = put_load_from(st, f, T0, T4, w, false);
        put_store_result(st, f, id, T0, w)
    }
}

/// A store. The value is loaded first, since that passes through `t4`.
pub open spec fn put_lower_store(st: St, f: Function, ptr: ValRef, val: ValRef, ty: Ty) -> St {
    if wide_ty(ty) {
        let st = put_reload_wide(st, f, val, T0, T1);
        let st = put_reload(st, f, ptr, T4, W::B4, false);
        let st = put(st, Asm::Store(StoreOp::Sw, T0, 0, T4));
        put(st, Asm::Store(StoreOp::Sw, T1, 4, T4))
    } else {
        let w = width(ty);
        let st = put_reload(st, f, val, T0, w, false);
        let st = put_reload(st, f, ptr, T4, W::B4, false);
        put_store_to(st, f, T0, T4, w)
    }
}

/// Read, modify, write on two words; the result is the old value.
pub open spec fn put_lower_atomic_i64(
    st: St,
    f: Function,
    id: InstId,
    op: AtomicOp,
    ptr: ValRef,
    val: ValRef,
) -> St {
    let st = put_reload_wide(st, f, val, T0, T1);
    let st = put_reload(st, f, ptr, T4, W::B4, false);
    let st = put(st, Asm::Load(LoadOp::Lw, T2, 0, T4));
    let st = put(st, Asm::Load(LoadOp::Lw, T3, 4, T4));
    let st = put_stash(st, f, scratch(0), T2);
    let st = put_stash(st, f, scratch(1), T3);
    let st = match op {
        AtomicOp::Add => {
            let st = put(st, Asm::Alu(AluOp::Add, T5, T2, T0));
            let st = put(st, Asm::Alu(AluOp::Sltu, T6, T5, T2));
            let st = put(st, Asm::Alu(AluOp::Add, T3, T3, T1));
            let st = put(st, Asm::Alu(AluOp::Add, T3, T3, T6));
            put(st, mv_asm(T2, T5))
        },
        AtomicOp::Sub => {
            let st = put(st, Asm::Alu(AluOp::Sltu, T6, T2, T0));
            let st = put(st, Asm::Alu(AluOp::Sub, T5, T2, T0));
            let st = put(st, Asm::Alu(AluOp::Sub, T3, T3, T1));
            let st = put(st, Asm::Alu(AluOp::Sub, T3, T3, T6));
            put(st, mv_asm(T2, T5))
        },
        AtomicOp::And => {
            let st = put(st, Asm::Alu(AluOp::And, T2, T2, T0));
            put(st, Asm::Alu(AluOp::And, T3, T3, T1))
        },
        AtomicOp::Or => {
            let st = put(st, Asm::Alu(AluOp::Or, T2, T2, T0));
            put(st, Asm::Alu(AluOp::Or, T3, T3, T1))
        },
        AtomicOp::Xor => {
            let st = put(st, Asm::Alu(AluOp::Xor, T2, T2, T0));
            put(st, Asm::Alu(AluOp::Xor, T3, T3, T1))
        },
        AtomicOp::Exch => {
            let st = put(st, mv_asm(T2, T0));
            put(st, mv_asm(T3, T1))
        },
        AtomicOp::Min | AtomicOp::Max => {
            let st = St { labels: st.labels + 1, ..st };
            let old_lt_val_label = fresh_name("atomic64_minmax"@, st.labels);
            let st = St { labels: st.labels + 1, ..st };
            let done_label = fresh_name("atomic64_minmax_done"@, st.labels);
            let st = put(st, Asm::Alu(AluOp::Slt, T5, T3, T1));
            let st = put(st, Asm::Alu(AluOp::Xor, T6, T3, T1));
            let st = put(st, Asm::Branch(BCond::Ne, T6, ZERO, old_lt_val_label));
            let st = put(st, Asm::Alu(AluOp::Sltu, T5, T2, T0));
            let st = put(st, Asm::Label(old_lt_val_label));
            let st = if (op == AtomicOp::Min) {
                put(st, Asm::Branch(BCond::Ne, T5, ZERO, done_label))
            } else {
                put(st, Asm::Branch(BCond::Eq, T5, ZERO, done_label))
            };
            let st = put(st, mv_asm(T2, T0));
            let st = put(st, mv_asm(T3, T1));
            put(st, Asm::Label(done_label))
        },
    };
    let st = put(st, Asm::Store(StoreOp::Sw, T2, 0, T4));
    let st = put(st, Asm::Store(StoreOp::Sw, T3, 4, T4));
    let st = put_unstash(st, f, scratch(0), T0);
    let st = put_unstash(st, f, scratch(1), T1);
    put_store_result_wide(st, f, id, T0, T1)
}

/// Read, modify, write on a single-precision value; the result is the old value.
pub open spec fn put_lower_atomic_f32(
    st: St,
    f: Function,
    id: InstId,
    op: AtomicOp,
    ptr: ValRef,
    val: ValRef,
) -> St {
    let st = put_reload(st, f, val, T0, W::B4, false);
    let st = put_reload(st, f, ptr, T4, W::B4, false);
    let st = put(st, Asm::Load(LoadOp::Lw, T5, 0, T4));
    let st = put_stash(st, f, scratch(0), T4);
    let st = put_stash(st, f, scratch(1), T5);
    let st = put_stash(st, f, scratch(2), T0);
    let st = match op {
        AtomicOp::Add => {
            let st = put(st, mv_asm(A0, T5));
            let st = put(st, mv_asm(A1, T0));
            put(st, Asm::Jal(RA, "__sf_f32_add"@))
        },
        AtomicOp::Sub => {
            let st = put(st, mv_asm(A0, T5));
            let st = put(st, mv_asm(A1, T0));
            let st = put(st, Asm::Li(T1, i32::MIN as int));
            let st = put(st, Asm::Alu(AluOp::Xor, A1, A1, T1));
            put(st, Asm::Jal(RA, "__sf_f32_add"@))
        },
        AtomicOp::Exch => {
            put(st, mv_asm(A0, T0))
        },
        AtomicOp::And => {
            put(st, Asm::Alu(AluOp::And, A0, T5, T0))
        },
        AtomicOp::Or => {
            put(st, Asm::Alu(AluOp::Or, A0, T5, T0))
        },
        AtomicOp::Xor => {
            put(st, Asm::Alu(AluOp::Xor, A0, T5, T0))
        },
        AtomicOp::Min | AtomicOp::Max => {
            let st = put(st, mv_asm(A0, T5));
            let st = put(st, mv_asm(A1, T0));
            let st = put(st, Asm::Jal(RA, "__sf_f32_cmp"@));
            let st = St { labels: st.labels + 1, ..st };
            let keep_label = fresh_name("atomic_f32_minmax_keep_old"@, st.labels);
            let st = St { labels: st.labels + 1, ..st };
            let done_label = fresh_name("atomic_f32_minmax_done"@, st.labels);
            let st = if (op == AtomicOp::Min) {
                put(st, Asm::Branch(BCond::Ge, ZERO, A0, keep_label))
            } else {
                put(st, Asm::Branch(BCond::Ge, A0, ZERO, keep_label))
            };
            let st = put_unstash(st, f, scratch(2), A0);
            let st = put(st, Asm::Jal(ZERO, done_label));
            let st = put(st, Asm::Label(keep_label));
            let st = put_unstash(st, f, scratch(1), A0);
            put(st, Asm::Label(done_label))
        },
    };
    let st = put_unstash(st, f, scratch(0), T4);
    let st = put(st, Asm::Store(StoreOp::Sw, A0, 0, T4));
    let st = put_unstash(st, f, scratch(1), T5);
    put_store_result(st, f, id, T5, W::B4)
}

/// Read, modify, write; the result is the old value. One thread runs at a time, so plain accesses
/// do.
pub open spec fn put_lower_atomic(
    st: St,
    f: Function,
    id: InstId,
    op: AtomicOp,
    ptr: ValRef,
    val: ValRef,
    ty: Ty,
) -> St {
    if float_ty(ty) {
        put_lower_atomic_f32(st, f, id, op, ptr, val)
    } else if wide_ty(ty) {
        put_lower_atomic_i64(st, f, id, op, ptr, val)
    } else {
        let w = width(ty);
        let signed = (op == AtomicOp::Min || op == AtomicOp::Max);
        let st = put_reload(st, f, val, T0, w, signed);
        let st = put_reload(st, f, ptr, T4, W::B4, false);
        let st = put_load_from(st, f, T1, T4, w, true);
        let st = put(st, mv_asm(T5, T1));
        let st = match op {
            AtomicOp::Add => {
                put(st, Asm::Alu(AluOp::Add, T1, T1, T0))
            },
            AtomicOp::Sub => {
                put(st, Asm::Alu(AluOp::Sub, T1, T1, T0))
            },
            AtomicOp::And => {
                put(st, Asm::Alu(AluOp::And, T1, T1, T0))
            },
            AtomicOp::Or => {
                put(st, Asm::Alu(AluOp::Or, T1, T1, T0))
            },
            AtomicOp::Xor => {
                put(st, Asm::Alu(AluOp::Xor, T1, T1, T0))
            },
            AtomicOp::Exch => {
                put(st, mv_asm(T1, T0))
            },
            AtomicOp::Min | AtomicOp::Max => {
                let st = St { labels: st.labels + 1, ..st };
                let skip = fresh_name("atomic_minmax_skip"@, st.labels);
                let st = if (op == AtomicOp::Min) {
                    put(st, Asm::Alu(AluOp::Slt, T2, T0, T1))
                } else {
                    put(st, Asm::Alu(AluOp::Slt, T2, T1, T0))
                };
                let st = put(st, Asm::Branch(BCond::Eq, T2, ZERO, skip));
                let st = put(st, mv_asm(T1, T0));
                put(st, Asm::Label(skip))
            },
        };
        let st = put_store_to(st, f, T1, T4, w);
        put_store_result(st, f, id, T5, w)
    }
}

/// Compare and swap on the raw bits; the result is the old value.
pub open spec fn put_lower_atomic_cas(
    st: St,
    f: Function,
    id: InstId,
    ptr: ValRef,
    expect: ValRef,
    newv: ValRef,
    ty: Ty,
) -> St {
    if wide_ty(ty) {
        let st = put_reload_wide(st, f, expect, T0, T1);
        let st = put_reload_wide(st, f, newv, T2, T3);
        let st = put_reload(st, f, ptr, T4, W::B4, false);
        let st = put(st, Asm::Load(LoadOp::Lw, T5, 0, T4));
        let st = put(st, Asm::Load(LoadOp::Lw, T6, 4, T4));
        let st = St { labels: st.labels + 1, ..st };
        let mismatch = fresh_name("cas64_mismatch"@, st.labels);
        let st = put(st, Asm::Alu(AluOp::Xor, A2, T5, T0));
        let st = put(st, Asm::Alu(AluOp::Xor, A3, T6, T1));
        let st = put(st, Asm::Alu(AluOp::Or, A2, A2, A3));
        let st = put(st, Asm::Branch(BCond::Ne, A2, ZERO, mismatch));
        let st = put(st, Asm::Store(StoreOp::Sw, T2, 0, T4));
        let st = put(st, Asm::Store(StoreOp::Sw, T3, 4, T4));
        let st = put(st, Asm::Label(mismatch));
        put_store_result_wide(st, f, id, T5, T6)
    } else {
        let w = width(ty);
        let st = put_reload(st, f, expect, T0, w, false);
        let st = put_reload(st, f, newv, T1, w, false);
        let st = put_reload(st, f, ptr, T4, W::B4, false);
        let st = put_load_from(st, f, T2, T4, w, false);
        let st = St { labels: st.labels + 1, ..st };
        let mismatch = fresh_name("cas_mismatch"@, st.labels);
        let st = put(st, Asm::Branch(BCond::Ne, T2, T0, mismatch));
        let st = put_store_to(st, f, T1, T4, w);
        let st = put(st, Asm::Label(mismatch));
        put_store_result(st, f, id, T2, w)
    }
}

/// One of two values.
pub open spec fn put_lower_select(
    st: St,
    f: Function,
    id: InstId,
    c: ValRef,
    a: ValRef,
    b: ValRef,
    ty: Ty,
) -> St {
    let st = put_reload(st, f, c, T0, W::B1, false);
    let st = St { labels: st.labels + 1, ..st };
    let else_label = fresh_name("select_false"@, st.labels);
    let st = St { labels: st.labels + 1, ..st };
    let end_label = fresh_name("select_end"@, st.labels);
    let st = put(st, Asm::Branch(BCond::Eq, T0, ZERO, else_label));
    let st = put_copy_value(st, f, a, id, ty);
    let st = put(st, Asm::Jal(ZERO, end_label));
    let st = put(st, Asm::Label(else_label));
    let st = put_copy_value(st, f, b, id, ty);
    put(st, Asm::Label(end_label))
}

/// An integer constant, or the address of the cell that it names.
pub open spec fn put_lower_const_int(st: St, f: Function, id: InstId, n: i64, ty: Ty) -> St {
    match ty {
        Ty::Ptr(space) => {
            if spec_local_like(space) {
                let disp = const_home(f, (spec_space_tag(space), n));
                let st = put_frame_addr(st, f, T0, disp);
                put_store_result(st, f, id, T0, W::B4)
            } else {
                let st = put(st, Asm::Li(T0, spec_low_word(n)));
                put_store_result(st, f, id, T0, W::B4)
            }
        },
        _ => {
            if wide_ty(ty) {
                let st = put(st, Asm::Li(T0, spec_low_word(n)));
                let st = put(st, Asm::Li(T1, spec_high_word(n)));
                put_store_result_wide(st, f, id, T0, T1)
            } else {
                let st = put(st, Asm::Li(T0, spec_low_word(n)));
                put_store_result(st, f, id, T0, width(ty))
            }
        },
    }
}

/// A floating-point constant.
pub open spec fn put_lower_const_float(
    st: St,
    f: Function,
    id: InstId,
    c: FloatConst,
    ty: Ty,
) -> St {
    if f64_ty(ty) {
        let st = put(st, Asm::Li(T0, spec_low_half(c.double)));
        let st = put(st, Asm::Li(T1, spec_high_half(c.double)));
        put_store_result_wide(st, f, id, T0, T1)
    } else {
        let st = put(st, Asm::Li(T0, spec_as_word(c.single)));
        put_store_result(st, f, id, T0, W::B4)
    }
}

/// One instruction. A phi writes nothing here: each predecessor writes its result.
pub open spec fn put_lower_inst(st: St, f: Function, id: InstId) -> St {
    let inst = inst_of(f, id);
    let ty = inst.ty;
    match inst.op {
        Op::ConstInt(n) => {
            put_lower_const_int(st, f, id, n, ty)
        },
        Op::ConstFloat(c) => {
            put_lower_const_float(st, f, id, c, ty)
        },
        Op::Bin(op, a, b) => {
            put_lower_bin(st, f, id, op, a, b, ty)
        },
        Op::ICmp(pred, cty, a, b) => {
            put_lower_icmp(st, f, id, pred, cty, a, b)
        },
        Op::FCmp(pred, _, a, b) => {
            put_lower_fcmp(st, f, id, pred, a, b)
        },
        Op::Select(c, a, b) => {
            put_lower_select(st, f, id, c, a, b, ty)
        },
        Op::Cast(cop, sty, v) => {
            put_lower_cast(st, f, id, cop, sty, v, ty)
        },
        Op::Load { ptr, .. } => {
            put_lower_load(st, f, id, ptr, ty)
        },
        Op::Store { ptr, val, ty: sty, .. } => {
            put_lower_store(st, f, ptr, val, sty)
        },
        Op::TidX => {
            put_lower_reload_dyn(st, f, id, loopctr_home(f), ty)
        },
        Op::BdimX => {
            put_lower_reload_dyn(st, f, id, nthreads_home(f), ty)
        },
        Op::TidY | Op::TidZ | Op::BidX | Op::BidY | Op::BidZ => {
            let st = put(st, Asm::Li(T0, 0));
            put_store_result(st, f, id, T0, width(ty))
        },
        Op::BdimY | Op::BdimZ | Op::GdimX | Op::GdimY | Op::GdimZ => {
            let st = put(st, Asm::Li(T0, 1));
            put_store_result(st, f, id, T0, width(ty))
        },
        Op::Barrier => {
            put(st, addi_asm(ZERO, ZERO, 0))
        },
        Op::Atomic(aop, ptr, val, _) => {
            put_lower_atomic(st, f, id, aop, ptr, val, ty)
        },
        Op::AtomicCas(ptr, expect, newv, _) => {
            put_lower_atomic_cas(st, f, id, ptr, expect, newv, ty)
        },
        _ => st,
    }
}

/// Writes one result of a phi on an edge.
pub open spec fn put_copy(st: St, f: Function, c: PhiCopy) -> St {
    if wide_ty(c.ty) {
        let st = put_reload_wide(st, f, c.val, T0, T1);
        let st = put_frame_addr(st, f, T4, c.dest as int);
        let st = put(st, Asm::Store(StoreOp::Sw, T0, 0, T4));
        put(st, Asm::Store(StoreOp::Sw, T1, 4, T4))
    } else {
        let w = width(c.ty);
        let st = put_reload(st, f, c.val, T0, w, false);
        let st = put_frame_addr(st, f, T4, c.dest as int);
        put_store_to(st, f, T0, T4, w)
    }
}

/// Writes the results of the phis on the edge, then goes to the block.
pub open spec fn put_lower_edge(st: St, f: Function, from: u32, to: u32) -> St {
    let st = put_emit_phi_copies(st, f, from, to);
    let target = block_name(to as nat);
    put(st, Asm::Jal(ZERO, target))
}

/// Writes the return value to its home.
pub open spec fn put_return(st: St, f: Function, val: ValRef) -> St {
    let rty = f.ret;
    let disp = retval_home(f);
    if wide_ty(rty) {
        let st = put_reload_wide(st, f, val, T0, T1);
        let st = put_frame_addr(st, f, T4, disp);
        let st = put(st, Asm::Store(StoreOp::Sw, T0, 0, T4));
        put(st, Asm::Store(StoreOp::Sw, T1, 4, T4))
    } else {
        let w = width(rty);
        let st = put_reload(st, f, val, T0, w, false);
        let st = put_frame_addr(st, f, T4, disp);
        put_store_to(st, f, T0, T4, w)
    }
}

/// The copies of one edge among the first `n` of the function.
pub open spec fn put_copies(st: St, f: Function, from: u32, to: u32, n: nat) -> St
    decreases n,
{
    if n == 0 {
        st
    } else {
        let st = put_copies(st, f, from, to, (n - 1) as nat);
        let c = phi_copies(f, f.blocks@.len())[n - 1];
        if c.from == from && c.to == to {
            put_copy(st, f, c)
        } else {
            st
        }
    }
}

pub open spec fn put_emit_phi_copies(st: St, f: Function, from: u32, to: u32) -> St {
    put_copies(st, f, from, to, phi_copies(f, f.blocks@.len()).len())
}

/// The first `n` cases of a switch on the value in `t0`.
pub open spec fn put_cases(st: St, f: Function, from: u32, cases: Seq<(i64, BlockId)>, n: nat) -> St
    decreases n,
{
    if n == 0 {
        st
    } else {
        let st = put_cases(st, f, from, cases, (n - 1) as nat);
        let st = put(st, Asm::Li(T1, spec_low_word(cases[n - 1].0)));
        let st = St { labels: st.labels + 1, ..st };
        let skip = fresh_name("switch_skip"@, st.labels);
        let st = put(st, Asm::Branch(BCond::Ne, T0, T1, skip));
        let st = put_lower_edge(st, f, from, cases[n - 1].1.0);
        put(st, Asm::Label(skip))
    }
}

/// A terminator. A thread that returns goes on to the next one.
pub open spec fn put_lower_term(st: St, f: Function, from_block: u32, term: Term) -> St {
    match term {
        Term::Br(target) => put_lower_edge(st, f, from_block, target.0),
        Term::CondBr(cond, t, e) => {
            let st = put_reload(st, f, cond, T0, W::B1, false);
            let st = St { labels: st.labels + 1, ..st };
            let false_prep = fresh_name("condbr_false"@, st.labels);
            let st = put(st, Asm::Branch(BCond::Eq, T0, ZERO, false_prep));
            let st = put_lower_edge(st, f, from_block, t.0);
            let st = put(st, Asm::Label(false_prep));
            put_lower_edge(st, f, from_block, e.0)
        },
        Term::Switch(scrut, default, cases) => {
            let st = put_reload(st, f, scrut, T0, width(value_ty(f, scrut)), false);
            let st = put_cases(st, f, from_block, cases@, cases@.len());
            put_lower_edge(st, f, from_block, default.0)
        },
        Term::Ret(v) => {
            let st = match v {
                Some(val) => put_return(st, f, val),
                None => st,
            };
            put(st, Asm::Jal(ZERO, "__loop_incr"@))
        },
    }
}

pub open spec fn put_insts(st: St, f: Function, ids: Seq<InstId>, n: nat) -> St
    decreases n,
{
    if n == 0 {
        st
    } else {
        put_lower_inst(put_insts(st, f, ids, (n - 1) as nat), f, ids[n - 1])
    }
}

/// The first `n` blocks, each at its label.
pub open spec fn put_blocks(st: St, f: Function, n: nat) -> St
    decreases n,
{
    if n == 0 {
        st
    } else {
        let st = put_blocks(st, f, (n - 1) as nat);
        let b = f.blocks@[n - 1];
        let st = put(st, Asm::Label(block_name((n - 1) as nat)));
        let st = put_insts(st, f, b.insts@, b.insts@.len());
        put_lower_term(st, f, (n - 1) as u32, b.term)
    }
}

/// Saves the first `n` parameters in their homes.
pub open spec fn put_params(st: St, f: Function, n: nat) -> St
    decreases n,
{
    if n == 0 {
        st
    } else {
        let st = put_params(st, f, (n - 1) as nat);
        let st = put_frame_addr(st, f, T0, param_home(n - 1));
        match param_loc(f.params@, (n - 1) as nat) {
            ArgLoc::Single(r) => put(st, Asm::Store(StoreOp::Sw, r, 0, T0)),
            ArgLoc::Pair(lo, hi) => put(
                put(st, Asm::Store(StoreOp::Sw, lo, 0, T0)),
                Asm::Store(StoreOp::Sw, hi, 4, T0),
            ),
        }
    }
}

/// Makes the frame, saves what came in and opens the loop over the threads.
pub open spec fn put_prologue(st: St, f: Function) -> St {
    let st = put(st, Asm::Li(T0, frame_size(f)));
    let st = put(st, Asm::Alu(AluOp::Sub, SP, SP, T0));
    let st = put_frame_addr(st, f, T0, ra_home());
    let st = put(st, Asm::Store(StoreOp::Sw, RA, 0, T0));
    let st = put_params(st, f, f.params@.len());
    let st = put_frame_addr(st, f, T0, nthreads_home(f));
    let st = put(
        st,
        Asm::Store(StoreOp::Sw, arg_reg(args_taken(f.params@, f.params@.len())), 0, T0),
    );
    let st = put_frame_addr(st, f, T0, loopctr_home(f));
    let st = put(st, Asm::Store(StoreOp::Sw, ZERO, 0, T0));
    let st = put(st, Asm::Label("__loop_check"@));
    let st = put_frame_addr(st, f, T0, loopctr_home(f));
    let st = put(st, Asm::Load(LoadOp::Lw, T1, 0, T0));
    let st = put_frame_addr(st, f, T0, nthreads_home(f));
    let st = put(st, Asm::Load(LoadOp::Lw, T2, 0, T0));
    put(st, Asm::Branch(BCond::Ge, T1, T2, "__loop_end"@))
}

/// Goes on to the next thread; after the last, restores what came in and returns.
pub open spec fn put_epilogue(st: St, f: Function) -> St {
    let st = put(st, Asm::Label("__loop_incr"@));
    let st = put_frame_addr(st, f, T0, loopctr_home(f));
    let st = put(st, Asm::Load(LoadOp::Lw, T1, 0, T0));
    let st = put(st, addi_asm(T1, T1, 1));
    let st = put(st, Asm::Store(StoreOp::Sw, T1, 0, T0));
    let st = put(st, Asm::Jal(ZERO, "__loop_check"@));
    let st = put(st, Asm::Label("__loop_end"@));
    let st = if f.ret is Void {
        st
    } else {
        let st = put_frame_addr(st, f, T0, retval_home(f));
        let st = put(st, Asm::Load(LoadOp::Lw, A0, 0, T0));
        if wide_ty(f.ret) {
            put(st, Asm::Load(LoadOp::Lw, A1, 4, T0))
        } else {
            st
        }
    };
    let st = put_frame_addr(st, f, T0, ra_home());
    let st = put(st, Asm::Load(LoadOp::Lw, RA, 0, T0));
    let st = put(st, Asm::Li(T0, frame_size(f)));
    let st = put(st, Asm::Alu(AluOp::Add, SP, SP, T0));
    put(st, ret_asm())
}

/// The text of a function, followed by the runtime.
pub open spec fn function_text(f: Function) -> Seq<Asm> {
    let st = put_prologue(St { text: Seq::empty(), labels: 0 }, f);
    let st = put_blocks(st, f, f.blocks@.len());
    put_epilogue(st, f).text + runtime_asm()
}

// ---- the code generator --------------------------------------------------------------------

struct CodeGen<'a> {
    f: &'a Function,
    frame: Frame,
    enc: Enc,
    label_counter: u32,
    phi_copies: Vec<PhiCopy>,
    /// How many blocks have their label.
    done: Ghost<nat>,
}

impl<'a> CodeGen<'a> {
    spec fn st(&self) -> St {
        St { text: self.enc@, labels: self.label_counter as nat }
    }

    spec fn wf(&self) -> bool {
        &&& self.enc.wf()
        &&& lowerable(*self.f)
        &&& self.frame.fits(*self.f)
        &&& self.phi_copies@ == phi_copies(*self.f, self.f.blocks@.len())
        &&& names_ok(self.enc@, self.label_counter as nat, self.done@)
    }

    /// A label that has not been used: `__<prefix>_<number>`.
    fn fresh_label(&mut self, prefix: &str) -> (s: String)
        requires
            old(self).wf(),
            old(self).label_counter < u32::MAX,
            prefix_ok(prefix@),
        ensures
            final(self).wf(),
            final(self).f == old(self).f,
            final(self).done == old(self).done,
            final(self).enc@ == old(self).enc@,
            final(self).label_counter == old(self).label_counter + 1,
            s@ == fresh_name(prefix@, final(self).label_counter as nat),
            !defines(final(self).enc@, s@),
    {
        proof {
            lemma_fresh_is_new(self.enc@, self.label_counter as nat, self.done@, prefix@);
        }
        self.label_counter = self.label_counter + 1;
        "__".to_owned().concat(prefix).concat("_").concat(
            to_decimal(self.label_counter as u64).as_str(),
        )
    }

    fn valref_ty(&self, v: ValRef) -> (ty: Ty)
        requires
            self.wf(),
            value_ok(*self.f, v),
        ensures
            ty == value_ty(*self.f, v),
    {
        match v {
            ValRef::Param(i) => self.f.params[i as usize],
            ValRef::Val(id) => self.f.insts[id.0 as usize].ty,
        }
    }

    fn operand_disp(&self, v: ValRef) -> (d: i32)
        requires
            self.wf(),
            value_ok(*self.f, v),
        ensures
            d == home_of(*self.f, v),
    {
        match v {
            ValRef::Param(i) => self.frame.param_home[i as usize],
            ValRef::Val(id) => self.frame.inst_slot[id.0 as usize],
        }
    }

    fn inst(&self, id: InstId) -> (r: &'a Inst)
        requires
            inst_in(*self.f, id),
        ensures
            *r == inst_of(*self.f, id),
    {
        &self.f.insts[id.0 as usize]
    }

    fn inst_disp(&self, id: InstId) -> (d: i32)
        requires
            self.wf(),
            (id.0 as int) < self.f.insts@.len(),
        ensures
            d == inst_home(*self.f, id),
    {
        self.frame.inst_slot[id.0 as usize]
    }

    fn ret_disp(&self) -> (d: i32)
        requires
            self.wf(),
            !(self.f.ret is Void),
        ensures
            d == retval_home(*self.f),
    {
        match self.frame.retval_home {
            Some(d) => d,
            None => 0,
        }
    }

    fn const_disp(&self, tag: u8, n: i64) -> (d: i32)
        requires
            self.wf(),
            cell_keys(self.f.insts@, self.f.insts@.len()).contains((tag, n)),
        ensures
            d == const_home(*self.f, (tag, n)),
    {
        let ghost keys = cell_keys(self.f.insts@, self.f.insts@.len());
        proof {
            lemma_cell_keys(self.f.insts@, 0, self.f.insts@.len());
            let i = keys.index_of((tag, n));
            assert(self.frame.const_addr_disp@[i].0 == keys[i]);
        }
        match find_cell(&self.frame.const_addr_disp, (tag, n)) {
            Some(d) => d,
            None => 0,
        }
    }

    /// Puts the address `sp + disp` into `dst`.
    fn frame_addr(&mut self, dst: u8, disp: i32)
        requires
            old(self).wf(),
        ensures
            final(self).wf(),
            final(self).f == old(self).f,
            final(self).done == old(self).done,
            final(self).st() == put_frame_addr(old(self).st(), *old(self).f, dst, disp as int),
            settled(*old(self).f, old(self).enc@, final(self).enc@),
            same_names(old(self).enc@, final(self).enc@),
            final(self).label_counter == old(self).label_counter,
    {
        broadcast use {lemma_defines_push, lemma_jumps_push};

        self.enc.li32(dst, disp);
        self.enc.alu_reg(AluOp::Add, dst, dst, SP);
    }

    /// Saves a register in a cell of the frame, by way of `t6`.
    fn stash(&mut self, slot_disp: i32, reg: u8)
        requires
            old(self).wf(),
        ensures
            final(self).wf(),
            final(self).f == old(self).f,
            final(self).done == old(self).done,
            final(self).st() == put_stash(old(self).st(), *old(self).f, slot_disp as int, reg),
            settled(*old(self).f, old(self).enc@, final(self).enc@),
            same_names(old(self).enc@, final(self).enc@),
            final(self).label_counter == old(self).label_counter,
    {
        broadcast use {lemma_defines_push, lemma_jumps_push};

        self.frame_addr(T6, slot_disp);
        self.enc.sw(reg, 0, T6);
    }

    /// Loads a register from a cell of the frame, by way of `t6`.
    fn unstash(&mut self, slot_disp: i32, reg: u8)
        requires
            old(self).wf(),
        ensures
            final(self).wf(),
            final(self).f == old(self).f,
            final(self).done == old(self).done,
            final(self).st() == put_unstash(old(self).st(), *old(self).f, slot_disp as int, reg),
            settled(*old(self).f, old(self).enc@, final(self).enc@),
            same_names(old(self).enc@, final(self).enc@),
            final(self).label_counter == old(self).label_counter,
    {
        broadcast use {lemma_defines_push, lemma_jumps_push};

        self.frame_addr(T6, slot_disp);
        self.enc.lw(reg, 0, T6);
    }

    /// Loads a value of width `w` at the address in `base`.
    fn load_from(&mut self, dst: u8, base: u8, w: W, signed: bool)
        requires
            old(self).wf(),
        ensures
            final(self).wf(),
            final(self).f == old(self).f,
            final(self).done == old(self).done,
            final(self).st() == put_load_from(old(self).st(), *old(self).f, dst, base, w, signed),
            settled(*old(self).f, old(self).enc@, final(self).enc@),
            same_names(old(self).enc@, final(self).enc@),
            final(self).label_counter == old(self).label_counter,
    {
        broadcast use {lemma_defines_push, lemma_jumps_push};

        match w {
            W::B1 => {
                if signed {
                    self.enc.lb(dst, 0, base);
                } else {
                    self.enc.lbu(dst, 0, base);
                }
            },
            W::B2 => {
                if signed {
                    self.enc.lh(dst, 0, base);
                } else {
                    self.enc.lhu(dst, 0, base);
                }
            },
            W::B4 => {
                self.enc.lw(dst, 0, base);
            },
        }
    }

    /// Stores a value of width `w` at the address in `base`.
    fn store_to(&mut self, src: u8, base: u8, w: W)
        requires
            old(self).wf(),
        ensures
            final(self).wf(),
            final(self).f == old(self).f,
            final(self).done == old(self).done,
            final(self).st() == put_store_to(old(self).st(), *old(self).f, src, base, w),
            settled(*old(self).f, old(self).enc@, final(self).enc@),
            same_names(old(self).enc@, final(self).enc@),
            final(self).label_counter == old(self).label_counter,
    {
        broadcast use {lemma_defines_push, lemma_jumps_push};

        match w {
            W::B1 => {
                self.enc.sb(src, 0, base);
            },
            W::B2 => {
                self.enc.sh(src, 0, base);
            },
            W::B4 => {
                self.enc.sw(src, 0, base);
            },
        }
    }

    /// Loads a value of one word or less at its own width, by way of `t4`.
    fn reload(&mut self, v: ValRef, dst: u8, w: W, signed: bool)
        requires
            old(self).wf(),
            value_ok(*old(self).f, v),
        ensures
            final(self).wf(),
            final(self).f == old(self).f,
            final(self).done == old(self).done,
            final(self).st() == put_reload(old(self).st(), *old(self).f, v, dst, w, signed),
            settled(*old(self).f, old(self).enc@, final(self).enc@),
            same_names(old(self).enc@, final(self).enc@),
            final(self).label_counter == old(self).label_counter,
    {
        broadcast use {lemma_defines_push, lemma_jumps_push};

        let disp: i32 = self.operand_disp(v);
        self.frame_addr(T4, disp);
        self.load_from(dst, T4, w, signed);
    }

    /// Stores the result of instruction `id`, by way of `t4`.
    fn store_result(&mut self, id: InstId, src: u8, w: W)
        requires
            old(self).wf(),
            inst_in(*old(self).f, id),
            src != T4,
        ensures
            final(self).wf(),
            final(self).f == old(self).f,
            final(self).done == old(self).done,
            final(self).st() == put_store_result(old(self).st(), *old(self).f, id, src, w),
            settled(*old(self).f, old(self).enc@, final(self).enc@),
            same_names(old(self).enc@, final(self).enc@),
            final(self).label_counter == old(self).label_counter,
    {
        broadcast use {lemma_defines_push, lemma_jumps_push};

        let disp: i32 = self.inst_disp(id);
        self.frame_addr(T4, disp);
        self.store_to(src, T4, w);
    }

    /// Loads the two words of a value, by way of `t4`.
    fn reload_wide(&mut self, v: ValRef, lo: u8, hi: u8)
        requires
            old(self).wf(),
            value_ok(*old(self).f, v),
        ensures
            final(self).wf(),
            final(self).f == old(self).f,
            final(self).done == old(self).done,
            final(self).st() == put_reload_wide(old(self).st(), *old(self).f, v, lo, hi),
            settled(*old(self).f, old(self).enc@, final(self).enc@),
            same_names(old(self).enc@, final(self).enc@),
            final(self).label_counter == old(self).label_counter,
    {
        broadcast use {lemma_defines_push, lemma_jumps_push};

        let disp: i32 = self.operand_disp(v);
        self.frame_addr(T4, disp);
        self.enc.lw(lo, 0, T4);
        self.enc.lw(hi, 4, T4);
    }

    /// Stores the two words of the result of instruction `id`, by way of `t4`.
    fn store_result_wide(&mut self, id: InstId, lo: u8, hi: u8)
        requires
            old(self).wf(),
            inst_in(*old(self).f, id),
            lo != T4,
            hi != T4,
        ensures
            final(self).wf(),
            final(self).f == old(self).f,
            final(self).done == old(self).done,
            final(self).st() == put_store_result_wide(old(self).st(), *old(self).f, id, lo, hi),
            settled(*old(self).f, old(self).enc@, final(self).enc@),
            same_names(old(self).enc@, final(self).enc@),
            final(self).label_counter == old(self).label_counter,
    {
        broadcast use {lemma_defines_push, lemma_jumps_push};

        let disp: i32 = self.inst_disp(id);
        self.frame_addr(T4, disp);
        self.enc.sw(lo, 0, T4);
        self.enc.sw(hi, 4, T4);
    }

    /// Copies a value into the result of instruction `id`.
    fn copy_value(&mut self, v: ValRef, id: InstId, ty: Ty)
        requires
            old(self).wf(),
            value_ok(*old(self).f, v),
            inst_in(*old(self).f, id),
            sized_ty(ty),
        ensures
            final(self).wf(),
            final(self).f == old(self).f,
            final(self).done == old(self).done,
            final(self).st() == put_copy_value(old(self).st(), *old(self).f, v, id, ty),
            settled(*old(self).f, old(self).enc@, final(self).enc@),
            same_names(old(self).enc@, final(self).enc@),
            final(self).label_counter == old(self).label_counter,
    {
        broadcast use {lemma_defines_push, lemma_jumps_push};

        if is_wide(ty) {
            self.reload_wide(v, T0, T1);
            self.store_result_wide(id, T0, T1);
        } else {
            let w: W = width_of(ty);
            self.reload(v, T0, w, false);
            self.store_result(id, T0, w);
        }
    }

    /// A thread number or count from its home, at the width of the result.
    fn lower_reload_dyn(&mut self, id: InstId, src_disp: i32, ty: Ty)
        requires
            old(self).wf(),
            inst_in(*old(self).f, id),
            narrow_ty(ty),
        ensures
            final(self).wf(),
            final(self).f == old(self).f,
            final(self).done == old(self).done,
            final(self).st() == put_lower_reload_dyn(
                old(self).st(),
                *old(self).f,
                id,
                src_disp as int,
                ty,
            ),
            settled(*old(self).f, old(self).enc@, final(self).enc@),
            same_names(old(self).enc@, final(self).enc@),
            final(self).label_counter == old(self).label_counter,
    {
        broadcast use {lemma_defines_push, lemma_jumps_push};

        self.frame_addr(T0, src_disp);
        self.enc.lw(T0, 0, T0);
        self.store_result(id, T0, width_of(ty));
    }

    /// Two words: add, sub, mul and the bitwise operations.
    fn lower_bin_i64(&mut self, id: InstId, op: BinOp, a: ValRef, b: ValRef)
        requires
            old(self).wf(),
            value_ok(*old(self).f, a),
            value_ok(*old(self).f, b),
            inst_in(*old(self).f, id),
        ensures
            final(self).wf(),
            final(self).f == old(self).f,
            final(self).done == old(self).done,
            final(self).st() == put_lower_bin_i64(old(self).st(), *old(self).f, id, op, a, b),
            settled(*old(self).f, old(self).enc@, final(self).enc@),
            same_names(old(self).enc@, final(self).enc@),
            final(self).label_counter == old(self).label_counter,
    {
        broadcast use {lemma_defines_push, lemma_jumps_push};

        self.reload_wide(a, T0, T1);
        self.reload_wide(b, T2, T3);
        match op {
            BinOp::Add => {
                self.enc.alu_reg(AluOp::Add, T6, T0, T2);
                self.enc.alu_reg(AluOp::Sltu, T5, T6, T0);
                self.enc.alu_reg(AluOp::Add, T1, T1, T3);
                self.enc.alu_reg(AluOp::Add, T1, T1, T5);
                self.store_result_wide(id, T6, T1);
            },
            BinOp::Sub => {
                self.enc.alu_reg(AluOp::Sltu, T5, T0, T2);
                self.enc.alu_reg(AluOp::Sub, T6, T0, T2);
                self.enc.alu_reg(AluOp::Sub, T1, T1, T3);
                self.enc.alu_reg(AluOp::Sub, T1, T1, T5);
                self.store_result_wide(id, T6, T1);
            },
            BinOp::Mul => {
                self.enc.mul_reg(MulOp::Mulhu, T6, T0, T2);
                self.enc.mul_reg(MulOp::Mul, T5, T0, T3);
                self.enc.alu_reg(AluOp::Add, T6, T6, T5);
                self.enc.mul_reg(MulOp::Mul, T5, T1, T2);
                self.enc.alu_reg(AluOp::Add, T6, T6, T5);
                self.enc.mul_reg(MulOp::Mul, T5, T0, T2);
                self.store_result_wide(id, T5, T6);
            },
            _ => {
                let aop: AluOp = alu_of(op);
                self.enc.alu_reg(aop, T6, T0, T2);
                self.enc.alu_reg(aop, T5, T1, T3);
                self.store_result_wide(id, T6, T5);
            },
        }
    }

    /// `a0 = a0 - trunc(a0 / a1) * a1`; what outlives a call stays in the frame.
    fn lower_frem32(&mut self)
        requires
            old(self).wf(),
        ensures
            final(self).wf(),
            final(self).f == old(self).f,
            final(self).done == old(self).done,
            final(self).st() == put_lower_frem32(old(self).st(), *old(self).f),
            settled(*old(self).f, old(self).enc@, final(self).enc@),
            same_names(old(self).enc@, final(self).enc@),
            final(self).label_counter == old(self).label_counter,
    {
        broadcast use {lemma_defines_push, lemma_jumps_push};

        self.stash(self.frame.scratch0, A0);
        self.stash(self.frame.scratch1, A1);
        self.enc.call("__sf_f32_div");
        self.enc.call("__sf_f32_to_i32");
        self.enc.call("__sf_i32_to_f32");
        self.unstash(self.frame.scratch1, A1);
        self.enc.call("__sf_f32_mul");
        self.stash(self.frame.scratch1, A0);
        self.unstash(self.frame.scratch0, A0);
        self.unstash(self.frame.scratch1, A1);
        self.enc.li32(T0, i32::MIN);
        self.enc.alu_reg(AluOp::Xor, A1, A1, T0);
        self.enc.call("__sf_f32_add");
    }

    /// A single-precision operation by a call of the runtime.
    fn lower_bin_f32(&mut self, id: InstId, op: BinOp, a: ValRef, b: ValRef)
        requires
            old(self).wf(),
            value_ok(*old(self).f, a),
            value_ok(*old(self).f, b),
            inst_in(*old(self).f, id),
        ensures
            final(self).wf(),
            final(self).f == old(self).f,
            final(self).done == old(self).done,
            final(self).st() == put_lower_bin_f32(old(self).st(), *old(self).f, id, op, a, b),
            settled(*old(self).f, old(self).enc@, final(self).enc@),
            same_names(old(self).enc@, final(self).enc@),
            final(self).label_counter == old(self).label_counter,
    {
        broadcast use {lemma_defines_push, lemma_jumps_push};

        self.reload(a, A0, W::B4, false);
        self.reload(b, A1, W::B4, false);
        match op {
            BinOp::FAdd => {
                self.enc.call("__sf_f32_add");
            },
            BinOp::FSub => {
                self.enc.li32(T0, i32::MIN);
                self.enc.alu_reg(AluOp::Xor, A1, A1, T0);
                self.enc.call("__sf_f32_add");
            },
            BinOp::FMul => {
                self.enc.call("__sf_f32_mul");
            },
            BinOp::FDiv => {
                self.enc.call("__sf_f32_div");
            },
            _ => {
                self.lower_frem32();
            },
        }
        self.store_result(id, A0, W::B4);
    }

    /// A binary operation. Division and remainder are signed.
    fn lower_bin(&mut self, id: InstId, op: BinOp, a: ValRef, b: ValRef, ty: Ty)
        requires
            old(self).wf(),
            value_ok(*old(self).f, a),
            value_ok(*old(self).f, b),
            inst_in(*old(self).f, id),
            bin_ok(op, ty),
        ensures
            final(self).wf(),
            final(self).f == old(self).f,
            final(self).done == old(self).done,
            final(self).st() == put_lower_bin(old(self).st(), *old(self).f, id, op, a, b, ty),
            settled(*old(self).f, old(self).enc@, final(self).enc@),
            same_names(old(self).enc@, final(self).enc@),
            final(self).label_counter == old(self).label_counter,
    {
        broadcast use {lemma_defines_push, lemma_jumps_push};

        if is_float(ty) {
            self.lower_bin_f32(id, op, a, b);
        } else if is_wide(ty) {
            self.lower_bin_i64(id, op, a, b);
        } else {
            let w: W = width_of(ty);
            match op {
                BinOp::Mul => {
                    self.reload(a, T0, w, false);
                    self.reload(b, T1, w, false);
                    self.enc.mul_reg(MulOp::Mul, T0, T0, T1);
                    self.store_result(id, T0, w);
                },
                BinOp::Div => {
                    self.reload(a, T0, w, true);
                    self.reload(b, T1, w, true);
                    self.enc.mul_reg(MulOp::Div, T0, T0, T1);
                    self.store_result(id, T0, w);
                },
                BinOp::Rem => {
                    self.reload(a, T0, w, true);
                    self.reload(b, T1, w, true);
                    self.enc.mul_reg(MulOp::Rem, T0, T0, T1);
                    self.store_result(id, T0, w);
                },
                _ => {
                    let signed: bool = matches!(op, BinOp::Ashr);
                    let aop: AluOp = alu_of(op);
                    self.reload(a, T0, w, signed);
                    self.reload(b, T1, w, false);
                    self.enc.alu_reg(aop, T0, T0, T1);
                    self.store_result(id, T0, w);
                },
            }
        }
    }

    /// A comparison of two-word integers: the high words decide, and where they are equal the low
    /// ones.
    fn lower_icmp_i64(&mut self, id: InstId, pred: ICmpPred, a: ValRef, b: ValRef)
        requires
            old(self).wf(),
            value_ok(*old(self).f, a),
            value_ok(*old(self).f, b),
            inst_in(*old(self).f, id),
            old(self).label_counter <= u32::MAX - 2,
        ensures
            final(self).wf(),
            final(self).f == old(self).f,
            final(self).done == old(self).done,
            final(self).st() == put_lower_icmp_i64(old(self).st(), *old(self).f, id, pred, a, b),
            settled(*old(self).f, old(self).enc@, final(self).enc@),
            final(self).label_counter <= old(self).label_counter + 2,
    {
        broadcast use {lemma_defines_push, lemma_jumps_push};

        let signed: bool = matches!(
            pred,
            ICmpPred::Slt | ICmpPred::Sle | ICmpPred::Sgt | ICmpPred::Sge,
        );
        self.reload_wide(a, T0, T1);
        self.reload_wide(b, T2, T3);
        self.enc.alu_reg(AluOp::Xor, A2, T0, T2);
        self.enc.alu_reg(AluOp::Xor, T5, T1, T3);
        self.enc.alu_reg(AluOp::Or, A2, A2, T5);
        self.enc.sltiu(A2, A2, 1);
        if matches!(pred, ICmpPred::Eq) {
            self.store_result(id, A2, W::B1);
        } else if matches!(pred, ICmpPred::Ne) {
            self.enc.xori(A2, A2, 1);
            self.store_result(id, A2, W::B1);
        } else {
            self.enc.alu_reg(AluOp::Xor, T6, T1, T3);
            self.enc.sltiu(T6, T6, 1);
            let hi_lt_op: AluOp = less_op(signed);
            self.enc.alu_reg(hi_lt_op, T5, T1, T3);
            proof {
                reveal_strlit("icmp64_lo_lt");
            }
            let lo_lt_label = self.fresh_label("icmp64_lo_lt");
            proof {
                reveal_strlit("icmp64_combine");
            }
            let combine_label = self.fresh_label("icmp64_combine");
            self.enc.branch(BCond::Ne, T6, ZERO, lo_lt_label.as_str());
            self.enc.jump(combine_label.as_str());
            self.enc.label(lo_lt_label.as_str());
            self.enc.alu_reg(AluOp::Sltu, T5, T0, T2);
            proof { lemma_pair_distinct("icmp64_lo_lt"@, "icmp64_combine"@, self.label_counter); }
            self.enc.label(combine_label.as_str());
            match pred {
                ICmpPred::Sle | ICmpPred::Ule => {
                    self.enc.alu_reg(AluOp::Or, T5, T5, A2);
                },
                ICmpPred::Sgt | ICmpPred::Ugt => {
                    self.enc.alu_reg(AluOp::Or, T5, T5, A2);
                    self.enc.xori(T5, T5, 1);
                },
                ICmpPred::Sge | ICmpPred::Uge => {
                    self.enc.xori(T5, T5, 1);
                },
                _ => {},
            }
            self.store_result(id, T5, W::B1);
        }
    }

    /// An integer comparison.
    fn lower_icmp(&mut self, id: InstId, pred: ICmpPred, cty: Ty, a: ValRef, b: ValRef)
        requires
            old(self).wf(),
            value_ok(*old(self).f, a),
            value_ok(*old(self).f, b),
            inst_in(*old(self).f, id),
            sized_ty(cty),
            old(self).label_counter <= u32::MAX - 2,
        ensures
            final(self).wf(),
            final(self).f == old(self).f,
            final(self).done == old(self).done,
            final(self).st() == put_lower_icmp(old(self).st(), *old(self).f, id, pred, cty, a, b),
            settled(*old(self).f, old(self).enc@, final(self).enc@),
            final(self).label_counter <= old(self).label_counter + 2,
    {
        broadcast use {lemma_defines_push, lemma_jumps_push};

        if is_wide(cty) {
            self.lower_icmp_i64(id, pred, a, b);
        } else {
            let signed: bool = matches!(
                pred,
                ICmpPred::Slt | ICmpPred::Sle | ICmpPred::Sgt | ICmpPred::Sge,
            );
            let w: W = width_of(cty);
            self.reload(a, T0, w, signed);
            self.reload(b, T1, w, signed);
            let aop: AluOp = less_op(signed);
            match pred {
                ICmpPred::Eq => {
                    self.enc.alu_reg(AluOp::Xor, T0, T0, T1);
                    self.enc.sltiu(T0, T0, 1);
                },
                ICmpPred::Ne => {
                    self.enc.alu_reg(AluOp::Xor, T0, T0, T1);
                    self.enc.alu_reg(AluOp::Sltu, T0, ZERO, T0);
                },
                ICmpPred::Slt | ICmpPred::Ult => {
                    self.enc.alu_reg(aop, T0, T0, T1);
                },
                ICmpPred::Sgt | ICmpPred::Ugt => {
                    self.enc.alu_reg(aop, T0, T1, T0);
                },
                ICmpPred::Sle | ICmpPred::Ule => {
                    self.enc.alu_reg(aop, T0, T1, T0);
                    self.enc.xori(T0, T0, 1);
                },
                ICmpPred::Sge | ICmpPred::Uge => {
                    self.enc.alu_reg(aop, T0, T0, T1);
                    self.enc.xori(T0, T0, 1);
                },
            }
            self.store_result(id, T0, W::B1);
        }
    }

    /// `dst = 1` if `src` holds `target`, else 0.
    fn eq_const(&mut self, dst: u8, src: u8, target: i32)
        requires
            old(self).wf(),
            -2 <= target <= 1,
        ensures
            final(self).wf(),
            final(self).f == old(self).f,
            final(self).done == old(self).done,
            final(self).st() == put_eq_const(old(self).st(), *old(self).f, dst, src, target as int),
            settled(*old(self).f, old(self).enc@, final(self).enc@),
            same_names(old(self).enc@, final(self).enc@),
            final(self).label_counter == old(self).label_counter,
    {
        broadcast use {lemma_defines_push, lemma_jumps_push};

        self.enc.addi(dst, src, -target);
        self.enc.sltiu(dst, dst, 1);
    }

    /// A single-precision comparison: each predicate is read off the order code.
    fn lower_fcmp(&mut self, id: InstId, pred: FCmpPred, a: ValRef, b: ValRef)
        requires
            old(self).wf(),
            value_ok(*old(self).f, a),
            value_ok(*old(self).f, b),
            inst_in(*old(self).f, id),
        ensures
            final(self).wf(),
            final(self).f == old(self).f,
            final(self).done == old(self).done,
            final(self).st() == put_lower_fcmp(old(self).st(), *old(self).f, id, pred, a, b),
            settled(*old(self).f, old(self).enc@, final(self).enc@),
            same_names(old(self).enc@, final(self).enc@),
            final(self).label_counter == old(self).label_counter,
    {
        broadcast use {lemma_defines_push, lemma_jumps_push};

        self.reload(a, A0, W::B4, false);
        self.reload(b, A1, W::B4, false);
        self.enc.call("__sf_f32_cmp");
        match pred {
            FCmpPred::Oeq => {
                self.eq_const(T0, A0, 0);
            },
            FCmpPred::Olt => {
                self.eq_const(T0, A0, -1);
            },
            FCmpPred::Ogt => {
                self.eq_const(T0, A0, 1);
            },
            FCmpPred::Uno => {
                self.eq_const(T0, A0, -2);
            },
            FCmpPred::Ord => {
                self.eq_const(T0, A0, -2);
                self.enc.xori(T0, T0, 1);
            },
            FCmpPred::One => {
                self.eq_const(T0, A0, 0);
                self.eq_const(T1, A0, -2);
                self.enc.alu_reg(AluOp::Or, T0, T0, T1);
                self.enc.xori(T0, T0, 1);
            },
            FCmpPred::Ole => {
                self.eq_const(T0, A0, -1);
                self.eq_const(T1, A0, 0);
                self.enc.alu_reg(AluOp::Or, T0, T0, T1);
            },
            FCmpPred::Oge => {
                self.eq_const(T0, A0, 1);
                self.eq_const(T1, A0, 0);
                self.enc.alu_reg(AluOp::Or, T0, T0, T1);
            },
        }
        self.store_result(id, T0, W::B1);
    }

    /// A conversion.
    fn lower_cast(&mut self, id: InstId, cop: CastOp, sty: Ty, v: ValRef, dty: Ty)
        requires
            old(self).wf(),
            value_ok(*old(self).f, v),
            inst_in(*old(self).f, id),
            cast_ok(cop, sty, dty),
        ensures
            final(self).wf(),
            final(self).f == old(self).f,
            final(self).done == old(self).done,
            final(self).st() == put_lower_cast(old(self).st(), *old(self).f, id, cop, sty, v, dty),
            settled(*old(self).f, old(self).enc@, final(self).enc@),
            same_names(old(self).enc@, final(self).enc@),
            final(self).label_counter == old(self).label_counter,
    {
        broadcast use {lemma_defines_push, lemma_jumps_push};

        match cop {
            CastOp::Zext => {
                self.reload(v, T0, width_of(sty), false);
                if is_wide(dty) {
                    self.store_result_wide(id, T0, ZERO);
                } else {
                    self.store_result(id, T0, width_of(dty));
                }
            },
            CastOp::Sext => {
                self.reload(v, T0, width_of(sty), true);
                if is_wide(dty) {
                    self.enc.srai(T1, T0, 31);
                    self.store_result_wide(id, T0, T1);
                } else {
                    self.store_result(id, T0, width_of(dty));
                }
            },
            CastOp::Bitcast => {
                if is_wide(sty) || is_wide(dty) {
                    self.reload_wide(v, T0, T1);
                    self.store_result_wide(id, T0, T1);
                } else {
                    self.reload(v, T0, width_of(dty), false);
                    self.store_result(id, T0, width_of(dty));
                }
            },
            CastOp::FpToSi => {
                self.reload(v, A0, W::B4, false);
                self.enc.call("__sf_f32_to_i32");
                self.store_result(id, A0, width_of(dty));
            },
            CastOp::FpToUi => {
                self.reload(v, A0, W::B4, false);
                self.enc.call("__sf_f32_to_u32");
                self.store_result(id, A0, width_of(dty));
            },
            CastOp::SiToFp => {
                self.reload(v, A0, width_of(sty), true);
                self.enc.call("__sf_i32_to_f32");
                self.store_result(id, A0, W::B4);
            },
            CastOp::UiToFp => {
                self.reload(v, A0, width_of(sty), false);
                self.enc.call("__sf_u32_to_f32");
                self.store_result(id, A0, W::B4);
            },
            _ => {
                self.reload(v, T0, width_of(dty), false);
                self.store_result(id, T0, width_of(dty));
            },
        }
    }

    /// A load. Every address is a real one by now, whatever its space.
    fn lower_load(&mut self, id: InstId, ptr: ValRef, ty: Ty)
        requires
            old(self).wf(),
            value_ok(*old(self).f, ptr),
            inst_in(*old(self).f, id),
            sized_ty(ty),
        ensures
            final(self).wf(),
            final(self).f == old(self).f,
            final(self).done == old(self).done,
            final(self).st() == put_lower_load(old(self).st(), *old(self).f, id, ptr, ty),
            settled(*old(self).f, old(self).enc@, final(self).enc@),
            same_names(old(self).enc@, final(self).enc@),
            final(self).label_counter == old(self).label_counter,
    {
        broadcast use {lemma_defines_push, lemma_jumps_push};

        self.reload(ptr, T4, W::B4, false);
        if is_wide(ty) {
            self.enc.lw(T0, 0, T4);
            self.enc.lw(T1, 4, T4);
            self.store_result_wide(id, T0, T1);
        } else {
            let w: W = width_of(ty);
            self.load_from(T0, T4, w, false);
            self.store_result(id, T0, w);
        }
    }

    /// A store. The value is loaded first, since that passes through `t4`.
    fn lower_store(&mut self, ptr: ValRef, val: ValRef, ty: Ty)
        requires
            old(self).wf(),
            value_ok(*old(self).f, ptr),
            value_ok(*old(self).f, val),
            sized_ty(ty),
        ensures
            final(self).wf(),
            final(self).f == old(self).f,
            final(self).done == old(self).done,
            final(self).st() == put_lower_store(old(self).st(), *old(self).f, ptr, val, ty),
            settled(*old(self).f, old(self).enc@, final(self).enc@),
            same_names(old(self).enc@, final(self).enc@),
            final(self).label_counter == old(self).label_counter,
    {
        broadcast use {lemma_defines_push, lemma_jumps_push};

        if is_wide(ty) {
            self.reload_wide(val, T0, T1);
            self.reload(ptr, T4, W::B4, false);
            self.enc.sw(T0, 0, T4);
            self.enc.sw(T1, 4, T4);
        } else {
            let w: W = width_of(ty);
            self.reload(val, T0, w, false);
            self.reload(ptr, T4, W::B4, false);
            self.store_to(T0, T4, w);
        }
    }

    /// Read, modify, write on two words; the result is the old value.
    fn lower_atomic_i64(&mut self, id: InstId, op: AtomicOp, ptr: ValRef, val: ValRef)
        requires
            old(self).wf(),
            value_ok(*old(self).f, ptr),
            value_ok(*old(self).f, val),
            inst_in(*old(self).f, id),
            old(self).label_counter <= u32::MAX - 2,
        ensures
            final(self).wf(),
            final(self).f == old(self).f,
            final(self).done == old(self).done,
            final(self).st() == put_lower_atomic_i64(
                old(self).st(),
                *old(self).f,
                id,
                op,
                ptr,
                val,
            ),
            settled(*old(self).f, old(self).enc@, final(self).enc@),
            final(self).label_counter <= old(self).label_counter + 2,
    {
        broadcast use {lemma_defines_push, lemma_jumps_push};

        self.reload_wide(val, T0, T1);
        self.reload(ptr, T4, W::B4, false);
        self.enc.lw(T2, 0, T4);
        self.enc.lw(T3, 4, T4);
        self.stash(self.frame.scratch0, T2);
        self.stash(self.frame.scratch1, T3);
        match op {
            AtomicOp::Add => {
                self.enc.alu_reg(AluOp::Add, T5, T2, T0);
                self.enc.alu_reg(AluOp::Sltu, T6, T5, T2);
                self.enc.alu_reg(AluOp::Add, T3, T3, T1);
                self.enc.alu_reg(AluOp::Add, T3, T3, T6);
                self.enc.mv(T2, T5);
            },
            AtomicOp::Sub => {
                self.enc.alu_reg(AluOp::Sltu, T6, T2, T0);
                self.enc.alu_reg(AluOp::Sub, T5, T2, T0);
                self.enc.alu_reg(AluOp::Sub, T3, T3, T1);
                self.enc.alu_reg(AluOp::Sub, T3, T3, T6);
                self.enc.mv(T2, T5);
            },
            AtomicOp::And => {
                self.enc.alu_reg(AluOp::And, T2, T2, T0);
                self.enc.alu_reg(AluOp::And, T3, T3, T1);
            },
            AtomicOp::Or => {
                self.enc.alu_reg(AluOp::Or, T2, T2, T0);
                self.enc.alu_reg(AluOp::Or, T3, T3, T1);
            },
            AtomicOp::Xor => {
                self.enc.alu_reg(AluOp::Xor, T2, T2, T0);
                self.enc.alu_reg(AluOp::Xor, T3, T3, T1);
            },
            AtomicOp::Exch => {
                self.enc.mv(T2, T0);
                self.enc.mv(T3, T1);
            },
            AtomicOp::Min | AtomicOp::Max => {
                proof {
                    reveal_strlit("atomic64_minmax");
                }
                let old_lt_val_label = self.fresh_label("atomic64_minmax");
                proof {
                    reveal_strlit("atomic64_minmax_done");
                }
                let done_label = self.fresh_label("atomic64_minmax_done");
                self.enc.alu_reg(AluOp::Slt, T5, T3, T1);
                self.enc.alu_reg(AluOp::Xor, T6, T3, T1);
                self.enc.branch(BCond::Ne, T6, ZERO, old_lt_val_label.as_str());
                self.enc.alu_reg(AluOp::Sltu, T5, T2, T0);
                self.enc.label(old_lt_val_label.as_str());
                if matches!(op, AtomicOp::Min) {
                    self.enc.branch(BCond::Ne, T5, ZERO, done_label.as_str());
                } else {
                    self.enc.branch(BCond::Eq, T5, ZERO, done_label.as_str());
                }
                self.enc.mv(T2, T0);
                self.enc.mv(T3, T1);
                proof {
                    lemma_pair_distinct(
                        "atomic64_minmax"@,
                        "atomic64_minmax_done"@,
                        self.label_counter,
                    );
                }
                self.enc.label(done_label.as_str());
            },
        }
        self.enc.sw(T2, 0, T4);
        self.enc.sw(T3, 4, T4);
        self.unstash(self.frame.scratch0, T0);
        self.unstash(self.frame.scratch1, T1);
        self.store_result_wide(id, T0, T1);
    }

    /// Read, modify, write on a single-precision value; the result is the old value.
    fn lower_atomic_f32(&mut self, id: InstId, op: AtomicOp, ptr: ValRef, val: ValRef)
        requires
            old(self).wf(),
            value_ok(*old(self).f, ptr),
            value_ok(*old(self).f, val),
            inst_in(*old(self).f, id),
            old(self).label_counter <= u32::MAX - 2,
        ensures
            final(self).wf(),
            final(self).f == old(self).f,
            final(self).done == old(self).done,
            final(self).st() == put_lower_atomic_f32(
                old(self).st(),
                *old(self).f,
                id,
                op,
                ptr,
                val,
            ),
            settled(*old(self).f, old(self).enc@, final(self).enc@),
            final(self).label_counter <= old(self).label_counter + 2,
    {
        broadcast use {lemma_defines_push, lemma_jumps_push};

        self.reload(val, T0, W::B4, false);
        self.reload(ptr, T4, W::B4, false);
        self.enc.lw(T5, 0, T4);
        self.stash(self.frame.scratch0, T4);
        self.stash(self.frame.scratch1, T5);
        self.stash(self.frame.scratch2, T0);
        match op {
            AtomicOp::Add => {
                self.enc.mv(A0, T5);
                self.enc.mv(A1, T0);
                self.enc.call("__sf_f32_add");
            },
            AtomicOp::Sub => {
                self.enc.mv(A0, T5);
                self.enc.mv(A1, T0);
                self.enc.li32(T1, i32::MIN);
                self.enc.alu_reg(AluOp::Xor, A1, A1, T1);
                self.enc.call("__sf_f32_add");
            },
            AtomicOp::Exch => {
                self.enc.mv(A0, T0);
            },
            AtomicOp::And => {
                self.enc.alu_reg(AluOp::And, A0, T5, T0);
            },
            AtomicOp::Or => {
                self.enc.alu_reg(AluOp::Or, A0, T5, T0);
            },
            AtomicOp::Xor => {
                self.enc.alu_reg(AluOp::Xor, A0, T5, T0);
            },
            AtomicOp::Min | AtomicOp::Max => {
                self.enc.mv(A0, T5);
                self.enc.mv(A1, T0);
                self.enc.call("__sf_f32_cmp");
                proof {
                    reveal_strlit("atomic_f32_minmax_keep_old");
                }
                let keep_label = self.fresh_label("atomic_f32_minmax_keep_old");
                proof {
                    reveal_strlit("atomic_f32_minmax_done");
                }
                let done_label = self.fresh_label("atomic_f32_minmax_done");
                if matches!(op, AtomicOp::Min) {
                    self.enc.branch(BCond::Ge, ZERO, A0, keep_label.as_str());
                } else {
                    self.enc.branch(BCond::Ge, A0, ZERO, keep_label.as_str());
                }
                self.unstash(self.frame.scratch2, A0);
                self.enc.jump(done_label.as_str());
                self.enc.label(keep_label.as_str());
                self.unstash(self.frame.scratch1, A0);
                proof {
                    lemma_pair_distinct(
                        "atomic_f32_minmax_keep_old"@,
                        "atomic_f32_minmax_done"@,
                        self.label_counter,
                    );
                }
                self.enc.label(done_label.as_str());
            },
        }
        self.unstash(self.frame.scratch0, T4);
        self.enc.sw(A0, 0, T4);
        self.unstash(self.frame.scratch1, T5);
        self.store_result(id, T5, W::B4);
    }

    /// Read, modify, write; the result is the old value. One thread runs at a time, so plain
    /// accesses do.
    fn lower_atomic(&mut self, id: InstId, op: AtomicOp, ptr: ValRef, val: ValRef, ty: Ty)
        requires
            old(self).wf(),
            value_ok(*old(self).f, ptr),
            value_ok(*old(self).f, val),
            inst_in(*old(self).f, id),
            sized_ty(ty),
            old(self).label_counter <= u32::MAX - 2,
        ensures
            final(self).wf(),
            final(self).f == old(self).f,
            final(self).done == old(self).done,
            final(self).st() == put_lower_atomic(
                old(self).st(),
                *old(self).f,
                id,
                op,
                ptr,
                val,
                ty,
            ),
            settled(*old(self).f, old(self).enc@, final(self).enc@),
            final(self).label_counter <= old(self).label_counter + 2,
    {
        broadcast use {lemma_defines_push, lemma_jumps_push};

        if is_float(ty) {
            self.lower_atomic_f32(id, op, ptr, val);
        } else if is_wide(ty) {
            self.lower_atomic_i64(id, op, ptr, val);
        } else {
            let w: W = width_of(ty);
            let signed: bool = matches!(op, AtomicOp::Min | AtomicOp::Max);
            self.reload(val, T0, w, signed);
            self.reload(ptr, T4, W::B4, false);
            self.load_from(T1, T4, w, true);
            self.enc.mv(T5, T1);
            match op {
                AtomicOp::Add => {
                    self.enc.alu_reg(AluOp::Add, T1, T1, T0);
                },
                AtomicOp::Sub => {
                    self.enc.alu_reg(AluOp::Sub, T1, T1, T0);
                },
                AtomicOp::And => {
                    self.enc.alu_reg(AluOp::And, T1, T1, T0);
                },
                AtomicOp::Or => {
                    self.enc.alu_reg(AluOp::Or, T1, T1, T0);
                },
                AtomicOp::Xor => {
                    self.enc.alu_reg(AluOp::Xor, T1, T1, T0);
                },
                AtomicOp::Exch => {
                    self.enc.mv(T1, T0);
                },
                AtomicOp::Min | AtomicOp::Max => {
                    proof {
                        reveal_strlit("atomic_minmax_skip");
                    }
                    let skip = self.fresh_label("atomic_minmax_skip");
                    if matches!(op, AtomicOp::Min) {
                        self.enc.alu_reg(AluOp::Slt, T2, T0, T1);
                    } else {
                        self.enc.alu_reg(AluOp::Slt, T2, T1, T0);
                    }
                    self.enc.branch(BCond::Eq, T2, ZERO, skip.as_str());
                    self.enc.mv(T1, T0);
                    self.enc.label(skip.as_str());
                },
            }
            self.store_to(T1, T4, w);
            self.store_result(id, T5, w);
        }
    }

    /// Compare and swap on the raw bits; the result is the old value.
    fn lower_atomic_cas(&mut self, id: InstId, ptr: ValRef, expect: ValRef, newv: ValRef, ty: Ty)
        requires
            old(self).wf(),
            value_ok(*old(self).f, ptr),
            value_ok(*old(self).f, expect),
            value_ok(*old(self).f, newv),
            inst_in(*old(self).f, id),
            sized_ty(ty),
            old(self).label_counter <= u32::MAX - 2,
        ensures
            final(self).wf(),
            final(self).f == old(self).f,
            final(self).done == old(self).done,
            final(self).st() == put_lower_atomic_cas(
                old(self).st(),
                *old(self).f,
                id,
                ptr,
                expect,
                newv,
                ty,
            ),
            settled(*old(self).f, old(self).enc@, final(self).enc@),
            final(self).label_counter <= old(self).label_counter + 2,
    {
        broadcast use {lemma_defines_push, lemma_jumps_push};

        if is_wide(ty) {
            self.reload_wide(expect, T0, T1);
            self.reload_wide(newv, T2, T3);
            self.reload(ptr, T4, W::B4, false);
            self.enc.lw(T5, 0, T4);
            self.enc.lw(T6, 4, T4);
            proof {
                reveal_strlit("cas64_mismatch");
            }
            let mismatch = self.fresh_label("cas64_mismatch");
            self.enc.alu_reg(AluOp::Xor, A2, T5, T0);
            self.enc.alu_reg(AluOp::Xor, A3, T6, T1);
            self.enc.alu_reg(AluOp::Or, A2, A2, A3);
            self.enc.branch(BCond::Ne, A2, ZERO, mismatch.as_str());
            self.enc.sw(T2, 0, T4);
            self.enc.sw(T3, 4, T4);
            self.enc.label(mismatch.as_str());
            self.store_result_wide(id, T5, T6);
        } else {
            let w: W = width_of(ty);
            self.reload(expect, T0, w, false);
            self.reload(newv, T1, w, false);
            self.reload(ptr, T4, W::B4, false);
            self.load_from(T2, T4, w, false);
            proof {
                reveal_strlit("cas_mismatch");
            }
            let mismatch = self.fresh_label("cas_mismatch");
            self.enc.branch(BCond::Ne, T2, T0, mismatch.as_str());
            self.store_to(T1, T4, w);
            self.enc.label(mismatch.as_str());
            self.store_result(id, T2, w);
        }
    }

    /// One of two values.
    fn lower_select(&mut self, id: InstId, c: ValRef, a: ValRef, b: ValRef, ty: Ty)
        requires
            old(self).wf(),
            value_ok(*old(self).f, c),
            value_ok(*old(self).f, a),
            value_ok(*old(self).f, b),
            inst_in(*old(self).f, id),
            sized_ty(ty),
            old(self).label_counter <= u32::MAX - 2,
        ensures
            final(self).wf(),
            final(self).f == old(self).f,
            final(self).done == old(self).done,
            final(self).st() == put_lower_select(old(self).st(), *old(self).f, id, c, a, b, ty),
            settled(*old(self).f, old(self).enc@, final(self).enc@),
            final(self).label_counter <= old(self).label_counter + 2,
    {
        broadcast use {lemma_defines_push, lemma_jumps_push};

        self.reload(c, T0, W::B1, false);
        proof {
            reveal_strlit("select_false");
        }
        let else_label = self.fresh_label("select_false");
        proof {
            reveal_strlit("select_end");
        }
        let end_label = self.fresh_label("select_end");
        self.enc.branch(BCond::Eq, T0, ZERO, else_label.as_str());
        self.copy_value(a, id, ty);
        self.enc.jump(end_label.as_str());
        self.enc.label(else_label.as_str());
        self.copy_value(b, id, ty);
        proof { lemma_pair_distinct("select_false"@, "select_end"@, self.label_counter); }
        self.enc.label(end_label.as_str());
    }

    /// An integer constant, or the address of the cell that it names.
    fn lower_const_int(&mut self, id: InstId, n: i64, ty: Ty)
        requires
            old(self).wf(),
            inst_in(*old(self).f, id),
            sized_ty(ty),
            inst_of(*old(self).f, id).ty == ty,
            inst_of(*old(self).f, id).op == Op::ConstInt(n),
        ensures
            final(self).wf(),
            final(self).f == old(self).f,
            final(self).done == old(self).done,
            final(self).st() == put_lower_const_int(old(self).st(), *old(self).f, id, n, ty),
            settled(*old(self).f, old(self).enc@, final(self).enc@),
            same_names(old(self).enc@, final(self).enc@),
            final(self).label_counter == old(self).label_counter,
    {
        broadcast use {lemma_defines_push, lemma_jumps_push};

        match ty {
            Ty::Ptr(space) => {
                if local_like(space) {
                    proof { lemma_key_known(self.f.insts@, id.0 as int); }
                    let disp: i32 = self.const_disp(space_tag(space), n);
                    self.frame_addr(T0, disp);
                    self.store_result(id, T0, W::B4);
                } else {
                    self.enc.li32(T0, low_word(n));
                    self.store_result(id, T0, W::B4);
                }
            },
            _ => {
                if is_wide(ty) {
                    self.enc.li32(T0, low_word(n));
                    self.enc.li32(T1, high_word(n));
                    self.store_result_wide(id, T0, T1);
                } else {
                    self.enc.li32(T0, low_word(n));
                    self.store_result(id, T0, width_of(ty));
                }
            },
        }
    }

    /// A floating-point constant.
    fn lower_const_float(&mut self, id: InstId, c: FloatConst, ty: Ty)
        requires
            old(self).wf(),
            inst_in(*old(self).f, id),
        ensures
            final(self).wf(),
            final(self).f == old(self).f,
            final(self).done == old(self).done,
            final(self).st() == put_lower_const_float(old(self).st(), *old(self).f, id, c, ty),
            settled(*old(self).f, old(self).enc@, final(self).enc@),
            same_names(old(self).enc@, final(self).enc@),
            final(self).label_counter == old(self).label_counter,
    {
        broadcast use {lemma_defines_push, lemma_jumps_push};

        if is_f64(ty) {
            self.enc.li32(T0, low_half(c.double));
            self.enc.li32(T1, high_half(c.double));
            self.store_result_wide(id, T0, T1);
        } else {
            self.enc.li32(T0, as_word(c.single));
            self.store_result(id, T0, W::B4);
        }
    }

    /// One instruction. A phi writes nothing here: each predecessor writes its result.
    fn lower_inst(&mut self, id: InstId)
        requires
            old(self).wf(),
            inst_in(*old(self).f, id),
            inst_ok(*old(self).f, inst_of(*old(self).f, id)),
            old(self).label_counter <= u32::MAX - 2,
        ensures
            final(self).wf(),
            final(self).f == old(self).f,
            final(self).done == old(self).done,
            final(self).st() == put_lower_inst(old(self).st(), *old(self).f, id),
            settled(*old(self).f, old(self).enc@, final(self).enc@),
            final(self).label_counter <= old(self).label_counter + 2,
    {
        broadcast use {lemma_defines_push, lemma_jumps_push};

        let inst = self.inst(id);
        let ty: Ty = inst.ty;
        match &inst.op {
            Op::ConstInt(n) => {
                self.lower_const_int(id, *n, ty);
            },
            Op::ConstFloat(c) => {
                self.lower_const_float(id, *c, ty);
            },
            Op::Bin(op, a, b) => {
                self.lower_bin(id, *op, *a, *b, ty);
            },
            Op::ICmp(pred, cty, a, b) => {
                self.lower_icmp(id, *pred, *cty, *a, *b);
            },
            Op::FCmp(pred, _, a, b) => {
                self.lower_fcmp(id, *pred, *a, *b);
            },
            Op::Select(c, a, b) => {
                self.lower_select(id, *c, *a, *b, ty);
            },
            Op::Cast(cop, sty, v) => {
                self.lower_cast(id, *cop, *sty, *v, ty);
            },
            Op::Load { ptr, .. } => {
                self.lower_load(id, *ptr, ty);
            },
            Op::Store { ptr, val, ty: sty, .. } => {
                self.lower_store(*ptr, *val, *sty);
            },
            Op::TidX => {
                self.lower_reload_dyn(id, self.frame.loopctr_home, ty);
            },
            Op::BdimX => {
                self.lower_reload_dyn(id, self.frame.nthreads_home, ty);
            },
            Op::TidY | Op::TidZ | Op::BidX | Op::BidY | Op::BidZ => {
                self.enc.li32(T0, 0);
                self.store_result(id, T0, width_of(ty));
            },
            Op::BdimY | Op::BdimZ | Op::GdimX | Op::GdimY | Op::GdimZ => {
                self.enc.li32(T0, 1);
                self.store_result(id, T0, width_of(ty));
            },
            Op::Barrier => {
                self.enc.nop();
            },
            Op::Atomic(aop, ptr, val, _) => {
                self.lower_atomic(id, *aop, *ptr, *val, ty);
            },
            Op::AtomicCas(ptr, expect, newv, _) => {
                self.lower_atomic_cas(id, *ptr, *expect, *newv, ty);
            },
            _ => {},
        }
    }

    /// Writes one result of a phi on an edge.
    fn copy_phi(&mut self, c: PhiCopy)
        requires
            old(self).wf(),
            copy_ok(*old(self).f, c),
        ensures
            final(self).wf(),
            final(self).f == old(self).f,
            final(self).done == old(self).done,
            final(self).st() == put_copy(old(self).st(), *old(self).f, c),
            settled(*old(self).f, old(self).enc@, final(self).enc@),
            same_names(old(self).enc@, final(self).enc@),
            final(self).label_counter == old(self).label_counter,
    {
        broadcast use {lemma_defines_push, lemma_jumps_push};

        if is_wide(c.ty) {
            self.reload_wide(c.val, T0, T1);
            self.frame_addr(T4, c.dest);
            self.enc.sw(T0, 0, T4);
            self.enc.sw(T1, 4, T4);
        } else {
            let w: W = width_of(c.ty);
            self.reload(c.val, T0, w, false);
            self.frame_addr(T4, c.dest);
            self.store_to(T0, T4, w);
        }
    }

    /// Writes the results of the phis on the edge, then goes to the block.
    fn lower_edge(&mut self, from: u32, to: u32)
        requires
            old(self).wf(),
            (to as int) < old(self).f.blocks@.len(),
            edge_ok(*old(self).f, from, to),
        ensures
            final(self).wf(),
            final(self).f == old(self).f,
            final(self).done == old(self).done,
            final(self).st() == put_lower_edge(old(self).st(), *old(self).f, from, to),
            settled(*old(self).f, old(self).enc@, final(self).enc@),
            same_names(old(self).enc@, final(self).enc@),
            final(self).label_counter == old(self).label_counter,
    {
        broadcast use {lemma_defines_push, lemma_jumps_push};

        self.emit_phi_copies(from, to);
        let target = block_label(to);
        self.enc.jump(target.as_str());
        assert(awaited(*self.f, block_name(to as nat)));
    }

    /// Writes the return value to its home.
    fn save_return(&mut self, val: ValRef)
        requires
            old(self).wf(),
            value_ok(*old(self).f, val),
            sized_ty(old(self).f.ret),
        ensures
            final(self).wf(),
            final(self).f == old(self).f,
            final(self).done == old(self).done,
            final(self).st() == put_return(old(self).st(), *old(self).f, val),
            settled(*old(self).f, old(self).enc@, final(self).enc@),
            same_names(old(self).enc@, final(self).enc@),
            final(self).label_counter == old(self).label_counter,
    {
        broadcast use {lemma_defines_push, lemma_jumps_push};

        let rty = self.f.ret;
        let disp: i32 = self.ret_disp();
        if is_wide(rty) {
            self.reload_wide(val, T0, T1);
            self.frame_addr(T4, disp);
            self.enc.sw(T0, 0, T4);
            self.enc.sw(T1, 4, T4);
        } else {
            let w: W = width_of(rty);
            self.reload(val, T0, w, false);
            self.frame_addr(T4, disp);
            self.store_to(T0, T4, w);
        }
    }

    /// Writes the results of the phis of block `to` on the way from block `from`.
    fn emit_phi_copies(&mut self, from: u32, to: u32)
        requires
            old(self).wf(),
            edge_ok(*old(self).f, from, to),
        ensures
            final(self).wf(),
            final(self).f == old(self).f,
            final(self).done == old(self).done,
            final(self).st() == put_emit_phi_copies(old(self).st(), *old(self).f, from, to),
            settled(*old(self).f, old(self).enc@, final(self).enc@),
            same_names(old(self).enc@, final(self).enc@),
            final(self).label_counter == old(self).label_counter,
    {
        let ghost st0 = self.st();
        let ghost f = *self.f;
        let mut i: usize = 0;
        while i < self.phi_copies.len()
            invariant
                self.wf(),
                self.f == old(self).f,
                self.done == old(self).done,
                *self.f == f,
                i <= self.phi_copies@.len(),
                self.st() == put_copies(st0, f, from, to, i as nat),
                same_names(old(self).enc@, self.enc@),
                settled(f, old(self).enc@, self.enc@),
                self.label_counter == old(self).label_counter,
                edge_ok(f, from, to),
            decreases self.phi_copies@.len() - i,
        {
            let c = self.phi_copies[i];
            assert(c == phi_copies(f, f.blocks@.len())[i as int]);
            if c.from == from && c.to == to {
                self.copy_phi(c);
            }
            i = i + 1;
        }
    }

    /// The end of a block.
    fn lower_term(&mut self, from_block: u32, term: &Term)
        requires
            old(self).wf(),
            term_ok(*old(self).f, *term),
            exits_ok(*old(self).f, from_block, *term),
            old(self).label_counter + (match *term {
                Term::Switch(_, _, cases) => cases@.len(),
                _ => 1,
            }) <= u32::MAX,
        ensures
            final(self).wf(),
            final(self).f == old(self).f,
            final(self).done == old(self).done,
            final(self).st() == put_lower_term(old(self).st(), *old(self).f, from_block, *term),
            settled(*old(self).f, old(self).enc@, final(self).enc@),
            final(self).label_counter <= old(self).label_counter + (match *term {
                Term::Switch(_, _, cases) => cases@.len(),
                _ => 1,
            }),
    {
        broadcast use {lemma_defines_push, lemma_jumps_push};

        match term {
            Term::Br(target) => {
                self.lower_edge(from_block, target.0);
            },
            Term::CondBr(cond, t, e) => {
                self.reload(*cond, T0, W::B1, false);
                proof {
                    reveal_strlit("condbr_false");
                }
                let false_prep = self.fresh_label("condbr_false");
                self.enc.branch(BCond::Eq, T0, ZERO, false_prep.as_str());
                self.lower_edge(from_block, t.0);
                self.enc.label(false_prep.as_str());
                self.lower_edge(from_block, e.0);
            },
            Term::Switch(scrut, default, cases) => {
                let ty = self.valref_ty(*scrut);
                let w = width_of(ty);
                self.reload(*scrut, T0, w, false);
                let ghost st1 = self.st();
                let ghost f = *self.f;
                let mut i: usize = 0;
                while i < cases.len()
                    invariant
                        self.wf(),
                        self.f == old(self).f,
                        self.done == old(self).done,
                        *self.f == f,
                        term_ok(f, *term),
                        exits_ok(f, from_block, *term),
                        cases_ok(f, cases@),
                        *term == Term::Switch(*scrut, *default, *cases),
                        i <= cases@.len(),
                        self.label_counter == st1.labels + i,
                        st1.labels + cases@.len() <= u32::MAX,
                        self.st() == put_cases(st1, f, from_block, cases@, i as nat),
                        settled(f, old(self).enc@, self.enc@),
                    decreases cases@.len() - i,
                {
                    broadcast use {lemma_defines_push, lemma_jumps_push};

                    let c = cases[i];
                    self.enc.li32(T1, low_word(c.0));
                    proof {
                        reveal_strlit("switch_skip");
                    }
                    let skip = self.fresh_label("switch_skip");
                    self.enc.branch(BCond::Ne, T0, T1, skip.as_str());
                    assert((cases@[i as int].1.0 as int) < f.blocks@.len());
                    self.lower_edge(from_block, c.1.0);
                    self.enc.label(skip.as_str());
                    i = i + 1;
                }
                self.lower_edge(from_block, default.0);
            },
            Term::Ret(v) => {
                if let Some(val) = v {
                    self.save_return(*val);
                }
                self.enc.jump("__loop_incr");
            },
        }
    }

    fn prologue(&mut self, param_locs: &Vec<ArgLoc>, nthreads: u8)
        requires
            old(self).wf(),
            old(self).enc@ == Seq::<Asm>::empty(),
            old(self).done@ == 0,
            args_fit(old(self).f.params@),
            param_locs@.len() == old(self).f.params@.len(),
            forall|i: int|
                0 <= i < param_locs@.len() ==> #[trigger] param_locs@[i] == param_loc(
                    old(self).f.params@,
                    i as nat,
                ),
            nthreads == arg_reg(args_taken(old(self).f.params@, old(self).f.params@.len())),
        ensures
            final(self).wf(),
            final(self).f == old(self).f,
            final(self).done == old(self).done,
            final(self).st() == put_prologue(old(self).st(), *old(self).f),
            settled(*old(self).f, old(self).enc@, final(self).enc@),
            defines(final(self).enc@, "__loop_check"@),
            final(self).label_counter == old(self).label_counter,
    {
        broadcast use {lemma_defines_push, lemma_jumps_push};

        proof {
            lemma_defines_empty();
        }
        self.enc.li32(T0, self.frame.frame_size);
        self.enc.alu_reg(AluOp::Sub, SP, SP, T0);
        self.frame_addr(T0, self.frame.ra_home);
        self.enc.sw(RA, 0, T0);
        let ghost st1 = self.st();
        let ghost f = *self.f;
        let mut i: usize = 0;
        while i < param_locs.len()
            invariant
                self.wf(),
                self.f == old(self).f,
                self.done == old(self).done,
                *self.f == f,
                i <= param_locs@.len(),
                param_locs@.len() == f.params@.len(),
                forall|i: int|
                    0 <= i < param_locs@.len() ==> #[trigger] param_locs@[i] == param_loc(
                        f.params@,
                        i as nat,
                    ),
                forall|s: Seq<char>| !#[trigger] defines(self.enc@, s),
                self.label_counter == old(self).label_counter,
                self.st() == put_params(st1, f, i as nat),
                settled(f, old(self).enc@, self.enc@),
            decreases param_locs@.len() - i,
        {
            broadcast use {lemma_defines_push, lemma_jumps_push};

            let disp: i32 = self.frame.param_home[i];
            self.frame_addr(T0, disp);
            match param_locs[i] {
                ArgLoc::Single(r) => {
                    self.enc.sw(r, 0, T0);
                },
                ArgLoc::Pair(lo, hi) => {
                    self.enc.sw(lo, 0, T0);
                    self.enc.sw(hi, 4, T0);
                },
            }
            i = i + 1;
        }
        self.frame_addr(T0, self.frame.nthreads_home);
        self.enc.sw(nthreads, 0, T0);
        self.frame_addr(T0, self.frame.loopctr_home);
        self.enc.sw(ZERO, 0, T0);
        self.enc.label("__loop_check");
        self.frame_addr(T0, self.frame.loopctr_home);
        self.enc.lw(T1, 0, T0);
        self.frame_addr(T0, self.frame.nthreads_home);
        self.enc.lw(T2, 0, T0);
        self.enc.branch(BCond::Ge, T1, T2, "__loop_end");
    }

    fn blocks(&mut self)
        requires
            old(self).wf(),
            old(self).done@ == 0,
            old(self).label_counter == 0,
        ensures
            final(self).wf(),
            final(self).f == old(self).f,
            final(self).st() == put_blocks(old(self).st(), *old(self).f, old(self).f.blocks@.len()),
            settled(*old(self).f, old(self).enc@, final(self).enc@),
            forall|k: nat|
                k < old(self).f.blocks@.len() ==> defines(
                    final(self).enc@,
                    #[trigger] block_name(k),
                ),
    {
        broadcast use {lemma_defines_push, lemma_jumps_push};

        let ghost st0 = self.st();
        let f = self.f;
        let mut b: usize = 0;
        while b < f.blocks.len()
            invariant
                self.wf(),
                f == old(self).f,
                self.f == f,
                self.done@ == b,
                b <= f.blocks@.len(),
                lowerable(*f),
                self.label_counter <= labels_needed(f.blocks@, b as nat),
                self.st() == put_blocks(st0, *f, b as nat),
                settled(*f, old(self).enc@, self.enc@),
                forall|k: nat| k < b ==> defines(self.enc@, #[trigger] block_name(k)),
            decreases f.blocks@.len() - b,
        {
            broadcast use {lemma_defines_push, lemma_jumps_push};

            let block = &f.blocks[b];
            proof {
                assert(block_ok(*f, f.blocks@[b as int]));
                lemma_block_is_new(self.enc@, self.label_counter as nat, self.done@);
                lemma_labels_needed(f.blocks@, b as nat + 1, f.blocks@.len());
            }
            let name = block_label(b as u32);
            self.enc.label(name.as_str());
            self.done = Ghost(self.done@ + 1);
            assert(names_ok(self.enc@, self.label_counter as nat, self.done@)) by {
                assert(name@ == block_name(b as nat));
                assert forall|s: Seq<char>| #[trigger]
                    defines(self.enc@, s) implies name_ok(
                    s,
                    self.label_counter as nat,
                    self.done@,
                ) by {
                    if s != name@ {
                        assert(name_ok(s, self.label_counter as nat, b as nat));
                    }
                }
            }
            let ghost st1 = self.st();
            let ghost base = self.label_counter;
            let mut k: usize = 0;
            while k < block.insts.len()
                invariant
                    self.wf(),
                    self.f == f,
                    self.done@ == b + 1,
                    b < f.blocks@.len(),
                    *block == f.blocks@[b as int],
                    block_ok(*f, *block),
                    k <= block.insts@.len(),
                    base + block_labels(*block) <= u32::MAX,
                    self.label_counter <= base + 2 * k,
                    self.st() == put_insts(st1, *f, block.insts@, k as nat),
                    settled(*f, old(self).enc@, self.enc@),
                    forall|k: nat| k < b + 1 ==> defines(self.enc@, #[trigger] block_name(k)),
                decreases block.insts@.len() - k,
            {
                let id = block.insts[k];
                assert(block.insts@[k as int] == id);
                self.lower_inst(id);
                k = k + 1;
            }
            self.lower_term(b as u32, &block.term);
            b = b + 1;
        }
    }

    fn epilogue(&mut self)
        requires
            old(self).wf(),
        ensures
            final(self).enc.wf(),
            final(self).st() == put_epilogue(old(self).st(), *old(self).f),
            settled(*old(self).f, old(self).enc@, final(self).enc@),
            defines(final(self).enc@, "__loop_incr"@),
            defines(final(self).enc@, "__loop_end"@),
            forall|s: Seq<char>| #[trigger] defines(final(self).enc@, s) ==> !runtime_name(s),
    {
        broadcast use {lemma_defines_push, lemma_jumps_push};

        let ghost t0 = self.enc@;
        proof {
            reveal_strlit("__loop_incr");
            reveal_strlit("__loop_end");
            assert("__loop_incr"@.len() == 11 && "__loop_incr"@[0] == '_' && "__loop_incr"@[2] == 'l');
            assert("__loop_end"@.len() == 10 && "__loop_end"@[0] == '_' && "__loop_end"@[2] == 'l');
            lemma_entries();
            assert forall|s: Seq<char>| #[trigger] defines(t0, s) implies s != "__loop_incr"@ && s
                != "__loop_end"@ && !runtime_name(s) by {
                lemma_name_apart(s, self.label_counter as nat, self.done@);
            }
        }
        let frame_size: i32 = self.frame.frame_size;
        let loopctr: i32 = self.frame.loopctr_home;
        let ra: i32 = self.frame.ra_home;
        self.enc.label("__loop_incr");
        put_addr(&mut self.enc, T0, loopctr);
        self.enc.lw(T1, 0, T0);
        self.enc.addi(T1, T1, 1);
        self.enc.sw(T1, 0, T0);
        self.enc.jump("__loop_check");
        self.enc.label("__loop_end");
        match self.frame.retval_home {
            None => {},
            Some(disp) => {
                put_addr(&mut self.enc, T0, disp);
                self.enc.lw(A0, 0, T0);
                if is_wide(self.f.ret) {
                    self.enc.lw(A1, 4, T0);
                }
            },
        }
        put_addr(&mut self.enc, T0, ra);
        self.enc.lw(RA, 0, T0);
        self.enc.li32(T0, frame_size);
        self.enc.alu_reg(AluOp::Add, SP, SP, T0);
        self.enc.ret();
    }
}

/// `dst = sp + disp` at the end of a text.
fn put_addr(e: &mut Enc, dst: u8, disp: i32)
    requires
        old(e).wf(),
    ensures
        final(e).wf(),
        final(e)@ == old(e)@.push(Asm::Li(dst, disp as int)).push(
            Asm::Alu(AluOp::Add, dst, dst, SP),
        ),
{
    e.li32(dst, disp);
    e.alu_reg(AluOp::Add, dst, dst, SP);
}

/// A jump of the code is longer than a `jal` reaches.
pub open spec fn reach_refusal() -> DiagV {
    because(ECode::UnsupportedFeature, "a jump of the function is out of the reach of a jal"@)
}

/// The machine code of a function and its runtime; refused where a jump is out of reach.
pub fn emit_function(f: &Function) -> (r: Result<Vec<u8>, Diag>)
    requires
        args_fit(f.params@),
        lowerable(*f),
    ensures
        unique_labels(function_text(*f)),
        has_runtime(function_text(*f)),
        match r {
            Ok(code) => in_reach(function_text(*f)) && code@ == assemble(function_text(*f)),
            Err(d) => !in_reach(function_text(*f)) && d@ == reach_refusal(),
        },
{
    let frame = Frame::build(f);
    let phi_copies = build_phi_copies(f, &frame);
    let mut cg = CodeGen {
        f,
        frame,
        enc: Enc::new(),
        label_counter: 0,
        phi_copies,
        done: Ghost(0),
    };
    proof {
        lemma_defines_empty();
        lemma_jumps_empty();
    }
    match classify_params(&f.params) {
        Some((param_locs, nthreads_loc)) => {
            if let ArgLoc::Single(r) = nthreads_loc {
                cg.prologue(&param_locs, r);
            }
        },
        None => {},
    }
    cg.blocks();
    cg.epilogue();
    let mut enc = cg.enc;
    let ghost body = enc@;
    emit_runtime(&mut enc);
    proof {
        assert forall|s: Seq<char>| #[trigger] jumps(enc@, s) implies defines(enc@, s) by {
            assert(jumps(body, s) ==> defines(body, s) || awaited(*f, s));
        }
        enc.law_unique_labels();
        law_runtime(enc@, body);
    }
    if enc.is_linkable() {
        Ok(enc.finish())
    } else {
        Err(refuse(ECode::UnsupportedFeature, "a jump of the function is out of the reach of a jal"))
    }
}

// ---- the backend ---------------------------------------------------------------------------

/// Whether a backend accepts a module.
#[derive(Clone, Copy, Debug, PartialEq, Eq, Structural)]
pub enum Support {
    Supported,
    Unsupported(ECode),
}

/// What an object file is made of: the name of its one symbol, and its code.
#[derive(Debug, PartialEq, Eq)]
pub struct Object {
    pub symbol: String,
    pub text: Vec<u8>,
}

/// The model of an object.
pub struct ObjectV {
    pub symbol: Seq<char>,
    pub text: Seq<u8>,
}

impl View for Object {
    type V = ObjectV;

    open spec fn view(&self) -> ObjectV {
        ObjectV { symbol: self.symbol@, text: self.text@ }
    }
}

/// Whether the backend accepts a module, and if not, with which code it refuses.
pub open spec fn support(m: Module) -> Support {
    match module_refusal(m) {
        None => Support::Supported,
        Some(d) => Support::Unsupported(d.code),
    }
}

/// What the backend makes of a module.
pub open spec fn emitted(m: Module) -> Result<ObjectV, DiagV> {
    match module_refusal(m) {
        Some(d) => Err(d),
        None => {
            let f = m.funcs@[0];
            if in_reach(function_text(f)) {
                Ok(ObjectV { symbol: f.name@, text: assemble(function_text(f)) })
            } else {
                Err(reach_refusal())
            }
        },
    }
}

/// The RV32IM backend.
#[derive(Clone, Copy, Debug)]
pub struct Rv32;

impl Rv32 {
    pub fn name(&self) -> (s: &'static str)
        ensures
            s@ == "rv32im"@,
    {
        "rv32im"
    }

    /// Whether `emit` accepts the module, and if not, with which code it refuses.
    pub fn supports(&self, module: &Module) -> (s: Support)
        ensures
            s == support(*module),
    {
        match check_module(module) {
            Ok(_) => Support::Supported,
            Err(diag) => Support::Unsupported(diag.code),
        }
    }

    /// The object code of a module of one kernel. What `supports` refuses is refused with the
    /// same code; so is code that a `jal` cannot reach across.
    pub fn emit(&self, module: &Module) -> (r: Result<Object, Diag>)
        requires
            module_refusal(*module) is None ==> lowerable(module.funcs@[0]),
        ensures
            match r {
                Ok(o) => {
                    &&& emitted(*module) == Ok::<ObjectV, DiagV>(o@)
                    &&& unique_labels(function_text(module.funcs@[0]))
                    &&& has_runtime(function_text(module.funcs@[0]))
                },
                Err(d) => emitted(*module) == Err::<ObjectV, DiagV>(d@),
            },
    {
        match check_module(module) {
            Ok(f) => match emit_function(f) {
                Ok(text) => Ok(Object { symbol: f.name.clone(), text }),
                Err(d) => Err(d),
            },
            Err(d) => Err(d),
        }
    }
}

impl Default for Rv32 {
    fn default() -> (r: Rv32)
        ensures
            r == Rv32,
    {
        Rv32
    }
}

// ---- laws ----------------------------------------------------------------------------------

/// What is refused is refused with one code, asked or emitted; what is supported becomes an object
/// named after its function, if the jumps of its code are in reach.
pub proof fn law_support_and_emission_agree(m: Module)
    ensures
        match support(m) {
            Support::Unsupported(c) => emitted(m) matches Err(d) && d.code == c,
            Support::Supported => {
                &&& m.funcs@.len() == 1
                &&& in_reach(function_text(m.funcs@[0])) ==> (emitted(m) matches Ok(o) && o.symbol
                    == m.funcs@[0].name@)
                &&& !in_reach(function_text(m.funcs@[0])) ==> emitted(m) == Err::<ObjectV, DiagV>(
                    reach_refusal(),
                )
            },
        },
{
}

/// The same functions become the same object, whatever else the modules say.
pub proof fn law_emission_is_of_the_functions(a: Module, b: Module)
    requires
        a.funcs@ == b.funcs@,
    ensures
        support(a) == support(b),
        emitted(a) == emitted(b),
{
}

} // verus!
