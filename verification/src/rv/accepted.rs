//! Which modules the RV32IM backend takes: the refused pairs of operation and type as a list, and
//! everything else accepted.

use vstd::prelude::*;

use crate::bir::{BinOp, CastOp, Function, Inst, Module, Op, Scalar, Term, Ty, ValRef};
use crate::diag::ECode;
use crate::rv::check::{
    arg_start, args_fit, args_taken, function_refusal, holds_wide_index, inst_refusal,
    insts_refusal, module_refusal, param_loc, wide_index, wide_switch, ArgLoc,
};
use crate::rv::lower::{support, Support};

verus! {

// ---- instructions --------------------------------------------------------------------------

/// The instructions without code for this machine: vectors and half floats, double-precision
/// arithmetic, comparison and conversion, shifts and divisions of 64 bits, conversions between
/// floats and integers of 64 bits, what takes a whole warp or a matrix unit, calls, and what only
/// a host does.
pub open spec fn without_code(inst: Inst) -> bool {
    ||| exists|s: Scalar, n: u8| inst.ty == Ty::Vec(s, n)
    ||| inst.ty == Ty::Scalar(Scalar::F16)
    ||| inst.op is Shuffle
    ||| inst.op is Ballot
    ||| inst.op is VoteAny
    ||| inst.op is VoteAll
    ||| inst.op is Mma
    ||| inst.op is Call
    ||| inst.op is KernelLaunch
    ||| inst.op is CudaMalloc
    ||| inst.op is CudaMemcpy
    ||| inst.op is CudaFree
    ||| inst.op is CudaDeviceSynchronize
    ||| inst.op is Atomic && inst.ty == Ty::Scalar(Scalar::F64)
    ||| (inst.op matches Op::Store { ty, .. } && ty == Ty::Scalar(Scalar::F16))
    ||| (inst.op matches Op::FCmp(_, ty, _, _) && (ty == Ty::Scalar(Scalar::F16) || ty
        == Ty::Scalar(Scalar::F64)))
    ||| (inst.op matches Op::Bin(op, _, _) && (inst.ty, op) == (
        Ty::Scalar(Scalar::F64),
        BinOp::FAdd,
    ))
    ||| (inst.op matches Op::Bin(op, _, _) && (inst.ty, op) == (
        Ty::Scalar(Scalar::F64),
        BinOp::FSub,
    ))
    ||| (inst.op matches Op::Bin(op, _, _) && (inst.ty, op) == (
        Ty::Scalar(Scalar::F64),
        BinOp::FMul,
    ))
    ||| (inst.op matches Op::Bin(op, _, _) && (inst.ty, op) == (
        Ty::Scalar(Scalar::F64),
        BinOp::FDiv,
    ))
    ||| (inst.op matches Op::Bin(op, _, _) && (inst.ty, op) == (
        Ty::Scalar(Scalar::F64),
        BinOp::FRem,
    ))
    ||| (inst.op matches Op::Bin(op, _, _) && (inst.ty, op) == (
        Ty::Scalar(Scalar::I64),
        BinOp::Shl,
    ))
    ||| (inst.op matches Op::Bin(op, _, _) && (inst.ty, op) == (
        Ty::Scalar(Scalar::I64),
        BinOp::Lshr,
    ))
    ||| (inst.op matches Op::Bin(op, _, _) && (inst.ty, op) == (
        Ty::Scalar(Scalar::I64),
        BinOp::Ashr,
    ))
    ||| (inst.op matches Op::Bin(op, _, _) && (inst.ty, op) == (
        Ty::Scalar(Scalar::I64),
        BinOp::Div,
    ))
    ||| (inst.op matches Op::Bin(op, _, _) && (inst.ty, op) == (
        Ty::Scalar(Scalar::I64),
        BinOp::Rem,
    ))
    ||| (inst.op matches Op::Cast(op, from, _) && (from == Ty::Scalar(Scalar::F16) || op
        == CastOp::FpExt || op == CastOp::FpTrunc))
    ||| (inst.op matches Op::Cast(op, from, _) && (op == CastOp::FpToSi || op == CastOp::FpToUi
        || op == CastOp::SiToFp || op == CastOp::UiToFp) && (from == Ty::Scalar(Scalar::I64)
        || from == Ty::Scalar(Scalar::F64) || inst.ty == Ty::Scalar(Scalar::I64) || inst.ty
        == Ty::Scalar(Scalar::F64)))
}

/// An instruction is refused exactly where it stands on the list of those without code.
pub proof fn law_refused_instructions(inst: Inst)
    ensures
        inst_refusal(inst) is Some <==> without_code(inst),
{
    if inst.ty is Vec {
        assert(inst.ty == Ty::Vec(inst.ty->Vec_0, inst.ty->Vec_1));
    }
}

/// What a refusal says: an operation that the machine has no counterpart of is named as such, a
/// matrix product too, and everything else is a matter of its type.
pub proof fn law_code_of_a_refusal(inst: Inst)
    requires
        inst_refusal(inst) is Some,
        !(inst.ty is Vec),
        inst.ty != Ty::Scalar(Scalar::F16),
    ensures
        inst_refusal(inst)->0.code == (if inst.op is Mma {
            ECode::MatrixPathUnsupported
        } else if inst.op is Bin || inst.op is Cast || inst.op is FCmp || inst.op is Store
            || inst.op is Atomic {
            ECode::UnsupportedType
        } else {
            ECode::UnsupportedOp
        }),
{
}

/// A type of one word or less: an integer of up to 32 bits, a single-precision float, a pointer.
pub open spec fn of_a_word(ty: Ty) -> bool {
    ||| ty == Ty::Scalar(Scalar::I1)
    ||| ty == Ty::Scalar(Scalar::I8)
    ||| ty == Ty::Scalar(Scalar::I16)
    ||| ty == Ty::Scalar(Scalar::I32)
    ||| ty == Ty::Scalar(Scalar::F32)
    ||| ty is Ptr
}

/// Every operation between two values, of whatever operator, is accepted on values of one word;
/// so are constants, loads, stores, comparisons, selections and conversions among such types,
/// thread numbers, barriers and atomics.
pub proof fn law_words_are_accepted(inst: Inst)
    requires
        of_a_word(inst.ty) || inst.ty is Void,
        match inst.op {
            Op::Bin(_, _, _) => true,
            Op::ConstInt(_) | Op::ConstFloat(_) => true,
            Op::Load { .. } => true,
            Op::Store { ty, .. } => of_a_word(ty),
            Op::ICmp(_, ty, _, _) => true,
            Op::FCmp(_, ty, _, _) => of_a_word(ty),
            Op::Select(_, _, _) | Op::Phi(_) => true,
            Op::Cast(op, from, _) => of_a_word(from) && op != CastOp::FpExt && op
                != CastOp::FpTrunc,
            Op::TidX | Op::TidY | Op::TidZ | Op::BidX | Op::BidY | Op::BidZ => true,
            Op::BdimX | Op::BdimY | Op::BdimZ | Op::GdimX | Op::GdimY | Op::GdimZ => true,
            Op::Barrier | Op::Atomic(_, _, _, _) | Op::AtomicCas(_, _, _, _) => true,
            _ => false,
        },
    ensures
        inst_refusal(inst) is None,
{
}

/// Sums, differences, products and bitwise operations of 64 bits are accepted, and so are
/// comparisons, loads, stores, constants, widenings and narrowings.
pub proof fn law_double_words_are_accepted(inst: Inst)
    requires
        inst.ty == Ty::Scalar(Scalar::I64),
        match inst.op {
            Op::Bin(op, _, _) => op == BinOp::Add || op == BinOp::Sub || op == BinOp::Mul || op
                == BinOp::And || op == BinOp::Or || op == BinOp::Xor,
            Op::ConstInt(_) | Op::Load { .. } | Op::Select(_, _, _) | Op::Phi(_) => true,
            Op::Cast(op, from, _) => (op == CastOp::Sext || op == CastOp::Zext || op
                == CastOp::Bitcast) && from != Ty::Scalar(Scalar::F16),
            Op::Atomic(_, _, _, _) | Op::AtomicCas(_, _, _, _) => true,
            _ => false,
        },
    ensures
        inst_refusal(inst) is None,
{
}

// ---- argument registers --------------------------------------------------------------------

/// Whether a type is passed in two registers.
pub open spec fn of_two_words(ty: Ty) -> bool {
    ty == Ty::Scalar(Scalar::I64) || ty == Ty::Scalar(Scalar::F64)
}

/// A way to pass `n` parameters: `starts[i]` is the number of the first register of parameter
/// `i`. They come in order and apart, and a pair starts at an even number.
pub open spec fn passes(params: Seq<Ty>, starts: Seq<int>) -> bool {
    &&& starts.len() == params.len()
    &&& forall|i: int| 0 <= i < starts.len() ==> 0 <= #[trigger] starts[i]
    &&& forall|i: int|
        0 <= i < starts.len() && of_two_words(params[i]) ==> #[trigger] starts[i] % 2 == 0
    &&& forall|i: int, j: int|
        0 <= i < j < starts.len() ==> #[trigger] starts[i] + (if of_two_words(params[i]) {
            2int
        } else {
            1int
        }) <= #[trigger] starts[j]
}

/// The number of the register behind the last parameter.
pub open spec fn passed_end(params: Seq<Ty>, starts: Seq<int>) -> int {
    if params.len() == 0 {
        0
    } else {
        starts.last() + if of_two_words(params.last()) {
            2int
        } else {
            1int
        }
    }
}

/// The register numbers that the parameters are given.
pub open spec fn starts_of(params: Seq<Ty>) -> Seq<int> {
    Seq::new(
        params.len(),
        |i: int| arg_start(params[i], args_taken(params, i as nat)) as int,
    )
}

proof fn lemma_starts(params: Seq<Ty>, n: nat)
    requires
        n <= params.len(),
    ensures
        forall|i: int, j: int|
            0 <= i < j < n ==> #[trigger] starts_of(params)[i] + (if of_two_words(params[i]) {
                2int
            } else {
                1int
            }) <= #[trigger] starts_of(params)[j],
        forall|i: int|
            0 <= i < n ==> (#[trigger] starts_of(params)[i]) + (if of_two_words(params[i]) {
                2int
            } else {
                1int
            }) <= args_taken(params, n),
    decreases n,
{
    if n > 0 {
        lemma_starts(params, (n - 1) as nat);
    }
}

proof fn lemma_least(params: Seq<Ty>, starts: Seq<int>, n: nat)
    requires
        n <= params.len(),
        passes(params, starts),
    ensures
        n > 0 ==> args_taken(params, n) <= starts[n - 1] + (if of_two_words(params[n - 1]) {
            2int
        } else {
            1int
        }),
        n > 0 ==> arg_start(params[n - 1], args_taken(params, (n - 1) as nat)) <= starts[n - 1],
    decreases n,
{
    if n > 0 {
        lemma_least(params, starts, (n - 1) as nat);
        assert(0 <= starts[n - 1]);
        if n > 1 {
            assert(starts[n - 2] + (if of_two_words(params[n - 2]) {
                2int
            } else {
                1int
            }) <= starts[n - 1]);
        }
        if of_two_words(params[n - 1]) {
            assert(starts[n - 1] % 2 == 0);
        }
    }
}

/// The registers that are given to parameters are a way to pass them, and no way gives any of
/// them a lower number. Each number `k` is the register `a<k>`, a pair is that and the next one.
pub proof fn law_registers_are_the_lowest(params: Seq<Ty>, starts: Seq<int>, i: int)
    requires
        args_fit(params),
        passes(params, starts),
        0 <= i < params.len(),
    ensures
        match param_loc(params, i as nat) {
            ArgLoc::Single(r) => !of_two_words(params[i]) && 10 <= r < 17 && r - 10 <= starts[i],
            ArgLoc::Pair(lo, hi) => of_two_words(params[i]) && 10 <= lo && hi == lo + 1 && hi < 17
                && lo - 10 <= starts[i],
        },
        passes(
            params,
            Seq::new(
                params.len(),
                |k: int|
                    match param_loc(params, k as nat) {
                        ArgLoc::Single(r) => r - 10,
                        ArgLoc::Pair(lo, hi) => lo - 10,
                    },
            ),
        ),
{
    lemma_least(params, starts, (i + 1) as nat);
    lemma_starts(params, params.len());
    let given = Seq::new(
        params.len(),
        |k: int|
            match param_loc(params, k as nat) {
                ArgLoc::Single(r) => r - 10,
                ArgLoc::Pair(lo, hi) => lo - 10,
            },
    );
    assert forall|k: int| 0 <= k < params.len() implies given[k] == starts_of(params)[k] by {
        assert(starts_of(params)[k] + 1 <= args_taken(params, params.len()));
        if of_two_words(params[k]) {
            assert(starts_of(params)[k] + 2 <= args_taken(params, params.len()));
        }
    }
    assert(given =~= starts_of(params));
    assert(starts_of(params)[i] + 1 <= args_taken(params, params.len()));
    if of_two_words(params[i]) {
        assert(starts_of(params)[i] + 2 <= args_taken(params, params.len()));
    }
}

/// Parameters fit exactly where there is a way to pass them that leaves one of the eight argument
/// registers to the thread count.
pub proof fn law_parameters_fit(params: Seq<Ty>)
    ensures
        args_fit(params) <==> exists|starts: Seq<int>| #[trigger]
            passes(params, starts) && passed_end(params, starts) <= 7,
{
    lemma_starts(params, params.len());
    assert(passes(params, starts_of(params)));
    assert(passed_end(params, starts_of(params)) == args_taken(params, params.len()));
    if exists|starts: Seq<int>| #[trigger]
        passes(params, starts) && passed_end(params, starts) <= 7 {
        let starts = choose|starts: Seq<int>| #[trigger]
            passes(params, starts) && passed_end(params, starts) <= 7;
        lemma_least(params, starts, params.len());
    }
}

/// Up to seven parameters of one word fit, in the registers `a0`, `a1` and so on; an eighth does
/// not.
pub proof fn law_words_are_passed_in_turn(params: Seq<Ty>)
    requires
        forall|i: int| 0 <= i < params.len() ==> !of_two_words(#[trigger] params[i]),
    ensures
        args_fit(params) <==> params.len() <= 7,
        params.len() <= 7 ==> forall|i: int|
            0 <= i < params.len() ==> param_loc(params, i as nat) == ArgLoc::Single(
                (10 + #[trigger] (i + 0)) as u8,
            ),
{
    assert forall|n: nat| n <= params.len() implies #[trigger] args_taken(params, n) == n by {
        lemma_words_in_turn(params, n);
    }
    assert forall|i: int| 0 <= i < params.len() && params.len() <= 7 implies param_loc(
        params,
        i as nat,
    ) == ArgLoc::Single((10 + #[trigger] (i + 0)) as u8) by {
        assert(args_taken(params, i as nat) == i);
        assert(!of_two_words(params[i]));
    }
}

proof fn lemma_words_in_turn(params: Seq<Ty>, n: nat)
    requires
        n <= params.len(),
        forall|i: int| 0 <= i < params.len() ==> !of_two_words(#[trigger] params[i]),
    ensures
        args_taken(params, n) == n,
    decreases n,
{
    if n > 0 {
        lemma_words_in_turn(params, (n - 1) as nat);
        assert(!of_two_words(params[n - 1]));
    }
}

// ---- modules -------------------------------------------------------------------------------

/// Whether a value is of two words: a parameter or an instruction of such a type.
pub open spec fn two_words(f: Function, v: ValRef) -> bool {
    match v {
        ValRef::Param(i) => i < f.params@.len() && of_two_words(f.params@[i as int]),
        ValRef::Val(id) => id.0 < f.insts@.len() && of_two_words(f.insts@[id.0 as int].ty),
    }
}

/// Whether an instruction reads a thread or block number or an extent.
pub open spec fn reads_index(op: Op) -> bool {
    ||| op is TidX
    ||| op is TidY
    ||| op is TidZ
    ||| op is BidX
    ||| op is BidY
    ||| op is BidZ
    ||| op is BdimX
    ||| op is BdimY
    ||| op is BdimZ
    ||| op is GdimX
    ||| op is GdimY
    ||| op is GdimZ
}

/// Whether a function is one that the backend takes.
pub open spec fn taken(f: Function) -> bool {
    &&& f.is_kernel
    &&& !(f.ret is Vec)
    &&& f.ret != Ty::Scalar(Scalar::F16)
    &&& forall|i: int|
        0 <= i < f.params@.len() ==> !((#[trigger] f.params@[i]) is Vec) && f.params@[i]
            != Ty::Scalar(Scalar::F16)
    &&& exists|starts: Seq<int>| #[trigger]
        passes(f.params@, starts) && passed_end(f.params@, starts) <= 7
    &&& forall|i: int| 0 <= i < f.insts@.len() ==> !without_code(#[trigger] f.insts@[i])
    &&& forall|b: int, k: int|
        0 <= b < f.blocks@.len() && 0 <= k < f.blocks@[b].insts@.len() && (
        #[trigger] f.blocks@[b].insts@[k]).0 < f.insts@.len() ==> !(reads_index(
            f.insts@[f.blocks@[b].insts@[k].0 as int].op,
        ) && of_two_words(f.insts@[f.blocks@[b].insts@[k].0 as int].ty))
    &&& forall|b: int|
        0 <= b < f.blocks@.len() ==> ((#[trigger] f.blocks@[b]).term matches Term::Switch(
            v,
            _,
            _,
        ) ==> !two_words(f, v))
}

proof fn lemma_insts(insts: Seq<Inst>, from: nat)
    requires
        from <= insts.len(),
    ensures
        insts_refusal(insts, from) is None <==> forall|i: int|
            from <= i < insts.len() ==> !without_code(#[trigger] insts[i]),
    decreases insts.len() - from,
{
    if from < insts.len() {
        lemma_insts(insts, from + 1);
        law_refused_instructions(insts[from as int]);
        if insts_refusal(insts, from) is None {
            assert forall|i: int| from <= i < insts.len() implies !without_code(
                #[trigger] insts[i],
            ) by {
                if i > from {
                    assert(insts_refusal(insts, from + 1) is None);
                }
            }
        }
    }
}

/// A module is accepted exactly where it is one kernel that the backend takes.
pub proof fn law_accepted_modules(m: Module)
    ensures
        support(m) == Support::Supported <==> m.funcs@.len() == 1 && taken(m.funcs@[0]),
        module_refusal(m) is None <==> m.funcs@.len() == 1 && taken(m.funcs@[0]),
{
    if m.funcs@.len() == 1 {
        let f = m.funcs@[0];
        law_parameters_fit(f.params@);
        lemma_insts(f.insts@, 0);
        assert forall|b: int, k: int|
            0 <= b < f.blocks@.len() && 0 <= k < f.blocks@[b].insts@.len() && (
            #[trigger] f.blocks@[b].insts@[k]).0 < f.insts@.len() && reads_index(
                f.insts@[f.blocks@[b].insts@[k].0 as int].op,
            ) && of_two_words(f.insts@[f.blocks@[b].insts@[k].0 as int].ty) implies !taken(f)
            && module_refusal(m) is Some by {
            assert(wide_index(f.insts@[f.blocks@[b].insts@[k].0 as int]));
            assert(holds_wide_index(f, f.blocks@[b]));
        }
        assert forall|b: int|
            0 <= b < f.blocks@.len() && holds_wide_index(f, #[trigger] f.blocks@[b]) implies !taken(
            f,
        ) by {
            let k = choose|k: int|
                0 <= k < f.blocks@[b].insts@.len() && (#[trigger] f.blocks@[b].insts@[k]).0
                    < f.insts@.len() && wide_index(f.insts@[f.blocks@[b].insts@[k].0 as int]);
            assert(f.blocks@[b].insts@[k].0 < f.insts@.len());
        }
        assert forall|b: int| 0 <= b < f.blocks@.len() implies wide_switch(
            f,
            #[trigger] f.blocks@[b],
        ) == (f.blocks@[b].term is Switch && two_words(f, f.blocks@[b].term->Switch_0)) by {}
        if module_refusal(m) is None {
            assert(taken(f));
        }
        if taken(f) {
            assert(function_refusal(f) is None);
        }
    }
}

/// One kernel of values of a word or less, with up to seven parameters, is supported whatever
/// operations between values it holds.
pub proof fn law_word_kernels_are_supported(m: Module)
    requires
        m.funcs@.len() == 1,
        m.funcs@[0].is_kernel,
        m.funcs@[0].ret is Void,
        m.funcs@[0].params@.len() <= 7,
        forall|i: int|
            0 <= i < m.funcs@[0].params@.len() ==> of_a_word(#[trigger] m.funcs@[0].params@[i]),
        forall|i: int|
            0 <= i < m.funcs@[0].insts@.len() ==> {
                let inst = #[trigger] m.funcs@[0].insts@[i];
                &&& of_a_word(inst.ty) || inst.ty is Void
                &&& match inst.op {
                    Op::Bin(_, _, _) | Op::ConstInt(_) | Op::ConstFloat(_) | Op::Load { .. } => true,
                    Op::Store { ty, .. } => of_a_word(ty),
                    Op::ICmp(_, ty, _, _) | Op::FCmp(_, ty, _, _) => of_a_word(ty),
                    Op::Select(_, _, _) | Op::Phi(_) | Op::Barrier => true,
                    Op::TidX | Op::BidX | Op::BdimX | Op::GdimX => true,
                    _ => false,
                }
            },
    ensures
        module_refusal(m) is None,
        support(m) == Support::Supported,
{
    let f = m.funcs@[0];
    law_accepted_modules(m);
    law_words_are_passed_in_turn(f.params@);
    law_parameters_fit(f.params@);
    assert forall|i: int| 0 <= i < f.insts@.len() implies !without_code(
        #[trigger] f.insts@[i],
    ) && !of_two_words(f.insts@[i].ty) by {
        law_words_are_accepted(f.insts@[i]);
        law_refused_instructions(f.insts@[i]);
    }
    assert forall|i: int| 0 <= i < f.params@.len() implies !of_two_words(
        #[trigger] f.params@[i],
    ) && !(f.params@[i] is Vec) by {
        assert(of_a_word(f.params@[i]));
    }
}

} // verus!
