//! What the RV32IM backend refuses.

use vstd::prelude::*;

use crate::bir::{BinOp, Block, CastOp, Function, Inst, Module, Op, Scalar, Term, Ty, ValRef};
use crate::diag::{diag0, Diag, DiagV, ECode};
use crate::rv::enc::ARG_REGS;

verus! {

// ---- kinds of types ------------------------------------------------------------------------

pub open spec fn f16_ty(ty: Ty) -> bool {
    ty == Ty::Scalar(Scalar::F16)
}

pub open spec fn f64_ty(ty: Ty) -> bool {
    ty == Ty::Scalar(Scalar::F64)
}

pub open spec fn i64_ty(ty: Ty) -> bool {
    ty == Ty::Scalar(Scalar::I64)
}

pub open spec fn float_ty(ty: Ty) -> bool {
    ty == Ty::Scalar(Scalar::F32) || ty == Ty::Scalar(Scalar::F64)
}

/// Takes two words.
pub open spec fn wide_ty(ty: Ty) -> bool {
    ty == Ty::Scalar(Scalar::I64) || ty == Ty::Scalar(Scalar::F64)
}

/// Takes one word or less.
pub open spec fn narrow_ty(ty: Ty) -> bool {
    match ty {
        Ty::Scalar(Scalar::I1) | Ty::Scalar(Scalar::I8) | Ty::Scalar(Scalar::I16) | Ty::Scalar(
            Scalar::I32,
        ) | Ty::Scalar(Scalar::F32) | Ty::Ptr(_) => true,
        _ => false,
    }
}

pub fn ty_is_f16(ty: Ty) -> (r: bool)
    ensures
        r == f16_ty(ty),
{
    matches!(ty, Ty::Scalar(Scalar::F16))
}

pub fn is_float(ty: Ty) -> (r: bool)
    ensures
        r == float_ty(ty),
{
    matches!(ty, Ty::Scalar(Scalar::F32) | Ty::Scalar(Scalar::F64))
}

pub fn is_f64(ty: Ty) -> (r: bool)
    ensures
        r == f64_ty(ty),
{
    matches!(ty, Ty::Scalar(Scalar::F64))
}

pub fn is_wide(ty: Ty) -> (r: bool)
    ensures
        r == wide_ty(ty),
{
    matches!(ty, Ty::Scalar(Scalar::I64) | Ty::Scalar(Scalar::F64))
}

fn is_i64(ty: Ty) -> (r: bool)
    ensures
        r == i64_ty(ty),
{
    matches!(ty, Ty::Scalar(Scalar::I64))
}

fn is_vec(ty: Ty) -> (r: bool)
    ensures
        r == (ty is Vec),
{
    matches!(ty, Ty::Vec(_, _))
}

// ---- argument registers --------------------------------------------------------------------

/// Where an argument is passed: in one register, or in a pair (low word, high word).
#[derive(Clone, Copy, PartialEq, Eq, Structural)]
pub enum ArgLoc {
    Single(u8),
    Pair(u8, u8),
}

/// The index of the first argument register of a value of type `ty` when `idx` are taken:
/// a two-word value starts at an even one.
pub open spec fn arg_start(ty: Ty, idx: nat) -> nat {
    if wide_ty(ty) && idx % 2 == 1 {
        idx + 1
    } else {
        idx
    }
}

pub open spec fn arg_words(ty: Ty) -> nat {
    if wide_ty(ty) {
        2
    } else {
        1
    }
}

/// How many argument registers the first `n` parameters take up.
pub open spec fn args_taken(params: Seq<Ty>, n: nat) -> nat
    decreases n,
{
    if n == 0 {
        0
    } else {
        let ty = params[n - 1];
        arg_start(ty, args_taken(params, (n - 1) as nat)) + arg_words(ty)
    }
}

/// The argument register `a<i>`.
pub open spec fn arg_reg(i: nat) -> u8 {
    (10 + i) as u8
}

/// Where parameter `i` is passed.
pub open spec fn param_loc(params: Seq<Ty>, i: nat) -> ArgLoc {
    let start = arg_start(params[i as int], args_taken(params, i));
    if wide_ty(params[i as int]) {
        ArgLoc::Pair(arg_reg(start), arg_reg(start + 1))
    } else {
        ArgLoc::Single(arg_reg(start))
    }
}

/// Whether the parameters and the thread count that follows them fit in the eight argument
/// registers.
pub open spec fn args_fit(params: Seq<Ty>) -> bool {
    args_taken(params, params.len()) < 8
}

pub proof fn lemma_args_taken_mono(params: Seq<Ty>, i: nat, n: nat)
    requires
        i <= n,
    ensures
        args_taken(params, i) <= args_taken(params, n),
    decreases n,
{
    if i < n {
        lemma_args_taken_mono(params, i, (n - 1) as nat);
    }
}

/// No two parameters share a register, and every pair starts at an even one.
pub proof fn law_params_are_apart(params: Seq<Ty>, i: nat, j: nat)
    requires
        i < j < params.len(),
        args_fit(params),
    ensures
        ({
            let si = arg_start(params[i as int], args_taken(params, i));
            let sj = arg_start(params[j as int], args_taken(params, j));
            &&& si + arg_words(params[i as int]) <= sj
            &&& sj + arg_words(params[j as int]) <= args_taken(params, params.len())
            &&& wide_ty(params[j as int]) ==> sj % 2 == 0
        }),
{
    lemma_args_taken_mono(params, i + 1, j);
    lemma_args_taken_mono(params, j + 1, params.len());
}

fn reg_at(i: usize) -> (r: u8)
    requires
        i < 8,
    ensures
        r == arg_reg(i as nat),
{
    ARG_REGS[i]
}

/// Where each parameter is passed, and where the thread count that follows them is; `None` if
/// they do not fit in the argument registers.
pub fn classify_params(params: &Vec<Ty>) -> (r: Option<(Vec<ArgLoc>, ArgLoc)>)
    ensures
        r is Some <==> args_fit(params@),
        r matches Some(p) ==> {
            &&& p.0@.len() == params@.len()
            &&& forall|i: int|
                0 <= i < params@.len() ==> #[trigger] p.0@[i] == param_loc(params@, i as nat)
            &&& p.1 == ArgLoc::Single(arg_reg(args_taken(params@, params@.len())))
        },
{
    let mut idx: usize = 0;
    let mut locs: Vec<ArgLoc> = Vec::new();
    let mut k: usize = 0;
    while k < params.len()
        invariant
            k <= params@.len(),
            idx == args_taken(params@, k as nat),
            idx <= 8,
            locs@.len() == k,
            forall|i: int| 0 <= i < k ==> #[trigger] locs@[i] == param_loc(params@, i as nat),
        decreases params@.len() - k,
    {
        let ty = params[k];
        proof {
            lemma_args_taken_mono(params@, k as nat + 1, params@.len());
        }
        if is_wide(ty) {
            if idx % 2 == 1 {
                idx = idx + 1;
            }
            if idx + 1 >= 8 {
                return None;
            }
            locs.push(ArgLoc::Pair(reg_at(idx), reg_at(idx + 1)));
            idx = idx + 2;
        } else {
            if idx >= 8 {
                return None;
            }
            locs.push(ArgLoc::Single(reg_at(idx)));
            idx = idx + 1;
        }
        k = k + 1;
    }
    if idx >= 8 {
        return None;
    }
    Some((locs, ArgLoc::Single(reg_at(idx))))
}

// ---- refusals ------------------------------------------------------------------------------

pub open spec fn float_bin(op: BinOp) -> bool {
    match op {
        BinOp::FAdd | BinOp::FSub | BinOp::FMul | BinOp::FDiv | BinOp::FRem => true,
        _ => false,
    }
}

/// Integer operations that need a 64-bit shift or division.
pub open spec fn shift_or_div(op: BinOp) -> bool {
    match op {
        BinOp::Shl | BinOp::Lshr | BinOp::Ashr | BinOp::Div | BinOp::Rem => true,
        _ => false,
    }
}

/// Conversions between integers and floats.
pub open spec fn int_float_cast(op: CastOp) -> bool {
    match op {
        CastOp::FpToSi | CastOp::FpToUi | CastOp::SiToFp | CastOp::UiToFp => true,
        _ => false,
    }
}

pub open spec fn because(code: ECode, why: Seq<char>) -> DiagV {
    DiagV { args: seq![why], ..diag0(code) }
}

pub open spec fn f16_refusal() -> DiagV {
    because(
        ECode::UnsupportedType,
        "f16 has no hardware or soft-float support in this backend"@,
    )
}

pub open spec fn f64_refusal() -> DiagV {
    because(
        ECode::UnsupportedType,
        "f64 arithmetic is a documented scope cut in this backend (see lower.rs's own header); f32 is fully supported"@,
    )
}

pub open spec fn f64_conversion_refusal() -> DiagV {
    because(
        ECode::UnsupportedType,
        "f64 conversions are a documented scope cut in this backend (see lower.rs's own header)"@,
    )
}

/// A thread number or count is one word.
pub open spec fn index_refusal() -> DiagV {
    because(
        ECode::UnsupportedType,
        "a thread index or extent of 64 bits has no lowering in this backend"@,
    )
}

/// A switch is on one word.
pub open spec fn switch_refusal() -> DiagV {
    because(
        ECode::UnsupportedType,
        "a switch on a value of 64 bits has no lowering in this backend"@,
    )
}

/// Why an instruction is refused, if it is.
pub open spec fn inst_refusal(inst: Inst) -> Option<DiagV> {
    if inst.ty is Vec {
        Some(because(ECode::UnsupportedType, "vector-typed instruction result"@))
    } else if f16_ty(inst.ty) {
        Some(f16_refusal())
    } else {
        match inst.op {
            Op::Shuffle(_, _, _) | Op::Ballot(_) | Op::VoteAny(_) | Op::VoteAll(_) => Some(
                because(
                    ECode::UnsupportedOp,
                    "warp-collective op has no meaning under one-thread-at-a-time execution"@,
                ),
            ),
            Op::Mma { .. } => Some(
                because(
                    ECode::MatrixPathUnsupported,
                    "no vector/matrix unit in this backend's scope"@,
                ),
            ),
            Op::Cast(cop, sty, _) => if f16_ty(sty) {
                Some(f16_refusal())
            } else if cop == CastOp::FpExt || cop == CastOp::FpTrunc || (int_float_cast(cop) && (
            f64_ty(sty) || f64_ty(inst.ty))) {
                Some(f64_conversion_refusal())
            } else if int_float_cast(cop) && (i64_ty(sty) || i64_ty(inst.ty)) {
                Some(
                    because(
                        ECode::UnsupportedType,
                        "i64<->float conversions are a documented scope cut in this backend (see lower.rs's own header)"@,
                    ),
                )
            } else {
                None
            },
            Op::FCmp(_, cty, _, _) => if f16_ty(cty) {
                Some(f16_refusal())
            } else if f64_ty(cty) {
                Some(f64_refusal())
            } else {
                None
            },
            Op::Store { ptr, val, ty, space, align, volatile } => if f16_ty(ty) {
                Some(f16_refusal())
            } else {
                None
            },
            Op::Bin(op, _, _) => if f64_ty(inst.ty) && float_bin(op) {
                Some(f64_refusal())
            } else if i64_ty(inst.ty) && shift_or_div(op) {
                Some(
                    because(
                        ECode::UnsupportedType,
                        "i64 shl/lshr/ashr/div/rem are a documented scope cut in this backend (see lower.rs's own header); i64 add/sub/mul/and/or/xor/icmp are fully supported"@,
                    ),
                )
            } else {
                None
            },
            Op::Atomic(_, _, _, _) => if f64_ty(inst.ty) {
                Some(
                    because(
                        ECode::UnsupportedType,
                        "f64 atomics are a documented scope cut in this backend (see lower.rs's own header)"@,
                    ),
                )
            } else {
                None
            },
            Op::KernelLaunch { .. } | Op::CudaMalloc { .. } | Op::CudaMemcpy { .. }
                | Op::CudaFree { .. } | Op::CudaDeviceSynchronize => Some(
                because(
                    ECode::UnsupportedOp,
                    "kernel launch / CUDA Runtime API calls are sema-only today (see Op::KernelLaunch's own doc comment); this backend has no host-side dispatch story for them yet"@,
                ),
            ),
            Op::Call { .. } => Some(
                because(
                    ECode::UnsupportedOp,
                    "function calls have no lowering in this backend yet"@,
                ),
            ),
            _ => None,
        }
    }
}

/// The refusal of the first instruction from index `i` on that is refused.
pub open spec fn insts_refusal(insts: Seq<Inst>, i: nat) -> Option<DiagV>
    decreases insts.len() - i,
{
    if i >= insts.len() {
        None
    } else {
        match inst_refusal(insts[i as int]) {
            Some(d) => Some(d),
            None => insts_refusal(insts, i + 1),
        }
    }
}

/// Whether an instruction is a thread index or extent of two words.
pub open spec fn wide_index(inst: Inst) -> bool {
    match inst.op {
        Op::TidX | Op::TidY | Op::TidZ | Op::BidX | Op::BidY | Op::BidZ | Op::BdimX | Op::BdimY
            | Op::BdimZ | Op::GdimX | Op::GdimY | Op::GdimZ => wide_ty(inst.ty),
        _ => false,
    }
}

/// Whether a block holds a thread index or extent of two words.
pub open spec fn holds_wide_index(f: Function, b: Block) -> bool {
    exists|k: int|
        0 <= k < b.insts@.len() && (#[trigger] b.insts@[k]).0 < f.insts@.len() && wide_index(
            f.insts@[b.insts@[k].0 as int],
        )
}

pub open spec fn any_wide_index(f: Function) -> bool {
    exists|i: int| 0 <= i < f.blocks@.len() && holds_wide_index(f, #[trigger] f.blocks@[i])
}

/// Whether a value takes two words.
pub open spec fn value_is_wide(f: Function, v: ValRef) -> bool {
    match v {
        ValRef::Param(i) => i < f.params@.len() && wide_ty(f.params@[i as int]),
        ValRef::Val(id) => id.0 < f.insts@.len() && wide_ty(f.insts@[id.0 as int].ty),
    }
}

/// Whether the terminator of a block is a switch on a value of two words.
pub open spec fn wide_switch(f: Function, b: Block) -> bool {
    match b.term {
        Term::Switch(v, _, _) => value_is_wide(f, v),
        _ => false,
    }
}

pub open spec fn any_wide_switch(f: Function) -> bool {
    exists|i: int| 0 <= i < f.blocks@.len() && wide_switch(f, #[trigger] f.blocks@[i])
}

pub open spec fn any_vec(tys: Seq<Ty>) -> bool {
    exists|i: int| 0 <= i < tys.len() && (#[trigger] tys[i]) is Vec
}

pub open spec fn any_f16(tys: Seq<Ty>) -> bool {
    exists|i: int| 0 <= i < tys.len() && f16_ty(#[trigger] tys[i])
}

/// Why a function is refused, if it is.
pub open spec fn function_refusal(f: Function) -> Option<DiagV> {
    if !f.is_kernel {
        Some(
            because(
                ECode::UnsupportedFeature,
                "host/non-kernel function compilation is not yet implemented"@,
            ),
        )
    } else if f.ret is Vec {
        Some(because(ECode::UnsupportedType, "vector-typed return value"@))
    } else if any_vec(f.params@) {
        Some(because(ECode::UnsupportedType, "vector-typed parameter"@))
    } else if f16_ty(f.ret) || any_f16(f.params@) {
        Some(f16_refusal())
    } else if !args_fit(f.params@) {
        Some(
            because(
                ECode::UnsupportedFeature,
                "argument classes overflow the 8 RV32 ilp32 argument registers (incl. trailing nthreads)"@,
            ),
        )
    } else {
        match insts_refusal(f.insts@, 0) {
            Some(d) => Some(d),
            None => if any_wide_index(f) {
                Some(index_refusal())
            } else if any_wide_switch(f) {
                Some(switch_refusal())
            } else {
                None
            },
        }
    }
}

/// Why a module is refused, if it is.
pub open spec fn module_refusal(m: Module) -> Option<DiagV> {
    if m.funcs@.len() != 1 {
        Some(
            because(
                ECode::UnsupportedFeature,
                "multi-function module: ElfObjectSpec names exactly one symbol"@,
            ),
        )
    } else {
        function_refusal(m.funcs@[0])
    }
}

pub fn refuse(code: ECode, why: &str) -> (d: Diag)
    ensures
        d@ == because(code, why@),
{
    let d = Diag::new(code).with_arg(why);
    assert(d@.args =~= seq![why@]);
    d
}

fn refuse_f16() -> (d: Diag)
    ensures
        d@ == f16_refusal(),
{
    refuse(
        ECode::UnsupportedType,
        "f16 has no hardware or soft-float support in this backend",
    )
}

fn refuse_f64() -> (d: Diag)
    ensures
        d@ == f64_refusal(),
{
    refuse(
        ECode::UnsupportedType,
        "f64 arithmetic is a documented scope cut in this backend (see lower.rs's own header); f32 is fully supported",
    )
}

fn check_inst(inst: &Inst) -> (r: Option<Diag>)
    ensures
        match r {
            Some(d) => inst_refusal(*inst) == Some(d@),
            None => inst_refusal(*inst) is None,
        },
{
    if is_vec(inst.ty) {
        return Some(refuse(ECode::UnsupportedType, "vector-typed instruction result"));
    }
    if ty_is_f16(inst.ty) {
        return Some(refuse_f16());
    }
    match &inst.op {
        Op::Shuffle(_, _, _) | Op::Ballot(_) | Op::VoteAny(_) | Op::VoteAll(_) => Some(
            refuse(
                ECode::UnsupportedOp,
                "warp-collective op has no meaning under one-thread-at-a-time execution",
            ),
        ),
        Op::Mma { .. } => Some(
            refuse(
                ECode::MatrixPathUnsupported,
                "no vector/matrix unit in this backend's scope",
            ),
        ),
        Op::Cast(cop, sty, _) => {
            let int_float = matches!(
                cop,
                CastOp::FpToSi | CastOp::FpToUi | CastOp::SiToFp | CastOp::UiToFp
            );
            if ty_is_f16(*sty) {
                Some(refuse_f16())
            } else if matches!(cop, CastOp::FpExt | CastOp::FpTrunc) || (int_float && (is_f64(*sty)
                || is_f64(inst.ty))) {
                Some(
                    refuse(
                        ECode::UnsupportedType,
                        "f64 conversions are a documented scope cut in this backend (see lower.rs's own header)",
                    ),
                )
            } else if int_float && (is_i64(*sty) || is_i64(inst.ty)) {
                Some(
                    refuse(
                        ECode::UnsupportedType,
                        "i64<->float conversions are a documented scope cut in this backend (see lower.rs's own header)",
                    ),
                )
            } else {
                None
            }
        },
        Op::FCmp(_, cty, _, _) => if ty_is_f16(*cty) {
            Some(refuse_f16())
        } else if is_f64(*cty) {
            Some(refuse_f64())
        } else {
            None
        },
        Op::Store { ty: sty, .. } => if ty_is_f16(*sty) {
            Some(refuse_f16())
        } else {
            None
        },
        Op::Bin(op, _, _) => if is_f64(inst.ty) && matches!(
            op,
            BinOp::FAdd | BinOp::FSub | BinOp::FMul | BinOp::FDiv | BinOp::FRem
        ) {
            Some(refuse_f64())
        } else if is_i64(inst.ty) && matches!(
            op,
            BinOp::Shl | BinOp::Lshr | BinOp::Ashr | BinOp::Div | BinOp::Rem
        ) {
            Some(
                refuse(
                    ECode::UnsupportedType,
                    "i64 shl/lshr/ashr/div/rem are a documented scope cut in this backend (see lower.rs's own header); i64 add/sub/mul/and/or/xor/icmp are fully supported",
                ),
            )
        } else {
            None
        },
        Op::Atomic(_, _, _, _) => if is_f64(inst.ty) {
            Some(
                refuse(
                    ECode::UnsupportedType,
                    "f64 atomics are a documented scope cut in this backend (see lower.rs's own header)",
                ),
            )
        } else {
            None
        },
        Op::KernelLaunch { .. } | Op::CudaMalloc { .. } | Op::CudaMemcpy { .. }
            | Op::CudaFree { .. } | Op::CudaDeviceSynchronize => Some(
            refuse(
                ECode::UnsupportedOp,
                "kernel launch / CUDA Runtime API calls are sema-only today (see Op::KernelLaunch's own doc comment); this backend has no host-side dispatch story for them yet",
            ),
        ),
        Op::Call { .. } => Some(
            refuse(ECode::UnsupportedOp, "function calls have no lowering in this backend yet"),
        ),
        _ => None,
    }
}

fn has_vec(tys: &Vec<Ty>) -> (r: bool)
    ensures
        r == any_vec(tys@),
{
    let mut i: usize = 0;
    while i < tys.len()
        invariant
            i <= tys@.len(),
            forall|j: int| 0 <= j < i ==> !((#[trigger] tys@[j]) is Vec),
        decreases tys@.len() - i,
    {
        if is_vec(tys[i]) {
            assert(tys@[i as int] is Vec);
            return true;
        }
        i = i + 1;
    }
    false
}

fn has_f16(tys: &Vec<Ty>) -> (r: bool)
    ensures
        r == any_f16(tys@),
{
    let mut i: usize = 0;
    while i < tys.len()
        invariant
            i <= tys@.len(),
            forall|j: int| 0 <= j < i ==> !f16_ty(#[trigger] tys@[j]),
        decreases tys@.len() - i,
    {
        if ty_is_f16(tys[i]) {
            assert(f16_ty(tys@[i as int]));
            return true;
        }
        i = i + 1;
    }
    false
}

fn block_has_wide_index(f: &Function, b: &Block) -> (r: bool)
    ensures
        r == holds_wide_index(*f, *b),
{
    let mut k: usize = 0;
    while k < b.insts.len()
        invariant
            k <= b.insts@.len(),
            forall|j: int|
                0 <= j < k && (#[trigger] b.insts@[j]).0 < f.insts@.len() ==> !wide_index(
                    f.insts@[b.insts@[j].0 as int],
                ),
        decreases b.insts@.len() - k,
    {
        let id: usize = b.insts[k].0 as usize;
        if id < f.insts.len() && is_wide(f.insts[id].ty) && matches!(
            f.insts[id].op,
            Op::TidX | Op::TidY | Op::TidZ | Op::BidX | Op::BidY | Op::BidZ | Op::BdimX | Op::BdimY
            | Op::BdimZ | Op::GdimX | Op::GdimY | Op::GdimZ
        ) {
            assert(wide_index(f.insts@[b.insts@[k as int].0 as int]));
            return true;
        }
        k = k + 1;
    }
    false
}

fn has_wide_index(f: &Function) -> (r: bool)
    ensures
        r == any_wide_index(*f),
{
    let mut i: usize = 0;
    while i < f.blocks.len()
        invariant
            i <= f.blocks@.len(),
            forall|j: int| 0 <= j < i ==> !holds_wide_index(*f, #[trigger] f.blocks@[j]),
        decreases f.blocks@.len() - i,
    {
        if block_has_wide_index(f, &f.blocks[i]) {
            assert(holds_wide_index(*f, f.blocks@[i as int]));
            return true;
        }
        i = i + 1;
    }
    false
}

fn has_wide_switch(f: &Function) -> (r: bool)
    ensures
        r == any_wide_switch(*f),
{
    let mut i: usize = 0;
    while i < f.blocks.len()
        invariant
            i <= f.blocks@.len(),
            forall|j: int| 0 <= j < i ==> !wide_switch(*f, #[trigger] f.blocks@[j]),
        decreases f.blocks@.len() - i,
    {
        if let Term::Switch(v, _, _) = &f.blocks[i].term {
            let wide = match *v {
                ValRef::Param(k) => (k as usize) < f.params.len() && is_wide(f.params[k as usize]),
                ValRef::Val(id) => (id.0 as usize) < f.insts.len() && is_wide(
                    f.insts[id.0 as usize].ty,
                ),
            };
            if wide {
                assert(wide_switch(*f, f.blocks@[i as int]));
                return true;
            }
        }
        i = i + 1;
    }
    false
}

/// The one function of the module, or why the module is refused.
pub fn check_module(module: &Module) -> (r: Result<&Function, Diag>)
    ensures
        match r {
            Ok(f) => module_refusal(*module) is None && *f == module.funcs@[0],
            Err(d) => module_refusal(*module) == Some(d@),
        },
{
    if module.funcs.len() != 1 {
        return Err(
            refuse(
                ECode::UnsupportedFeature,
                "multi-function module: ElfObjectSpec names exactly one symbol",
            ),
        );
    }
    let f = &module.funcs[0];
    if !f.is_kernel {
        return Err(
            refuse(
                ECode::UnsupportedFeature,
                "host/non-kernel function compilation is not yet implemented",
            ),
        );
    }
    if is_vec(f.ret) {
        return Err(refuse(ECode::UnsupportedType, "vector-typed return value"));
    }
    if has_vec(&f.params) {
        return Err(refuse(ECode::UnsupportedType, "vector-typed parameter"));
    }
    if ty_is_f16(f.ret) {
        return Err(refuse_f16());
    }
    if has_f16(&f.params) {
        return Err(refuse_f16());
    }
    if classify_params(&f.params).is_none() {
        return Err(
            refuse(
                ECode::UnsupportedFeature,
                "argument classes overflow the 8 RV32 ilp32 argument registers (incl. trailing nthreads)",
            ),
        );
    }
    let mut i: usize = 0;
    while i < f.insts.len()
        invariant
            i <= f.insts@.len(),
            *f == module.funcs@[0],
            module_refusal(*module) == function_refusal(*f),
            insts_refusal(f.insts@, 0) is Some ==> function_refusal(*f) == insts_refusal(
                f.insts@,
                0,
            ),
            insts_refusal(f.insts@, 0) is None ==> function_refusal(*f) == if any_wide_index(*f) {
                Some(index_refusal())
            } else if any_wide_switch(*f) {
                Some(switch_refusal())
            } else {
                None
            },
            insts_refusal(f.insts@, 0) == insts_refusal(f.insts@, i as nat),
        decreases f.insts@.len() - i,
    {
        if let Some(d) = check_inst(&f.insts[i]) {
            return Err(d);
        }
        i = i + 1;
    }
    if has_wide_index(f) {
        return Err(
            refuse(
                ECode::UnsupportedType,
                "a thread index or extent of 64 bits has no lowering in this backend",
            ),
        );
    }
    if has_wide_switch(f) {
        return Err(
            refuse(
                ECode::UnsupportedType,
                "a switch on a value of 64 bits has no lowering in this backend",
            ),
        );
    }
    Ok(f)
}

/// A module that is not refused holds no instruction that is, and none of its blocks a thread index
/// of two words or a switch on two words.
pub proof fn law_accepted_instructions(m: Module, i: int)
    requires
        module_refusal(m) is None,
        0 <= i < m.funcs@[0].insts@.len(),
    ensures
        inst_refusal(m.funcs@[0].insts@[i]) is None,
        forall|b: int|
            0 <= b < m.funcs@[0].blocks@.len() ==> !wide_switch(
                m.funcs@[0],
                #[trigger] m.funcs@[0].blocks@[b],
            ) && !holds_wide_index(m.funcs@[0], m.funcs@[0].blocks@[b]),
{
    lemma_insts_accepted(m.funcs@[0].insts@, 0, i);
}

proof fn lemma_insts_accepted(insts: Seq<Inst>, from: nat, i: int)
    requires
        insts_refusal(insts, from) is None,
        from <= i < insts.len(),
    ensures
        inst_refusal(insts[i]) is None,
    decreases insts.len() - from,
{
    if from < i {
        lemma_insts_accepted(insts, from + 1, i);
    }
}

} // verus!
