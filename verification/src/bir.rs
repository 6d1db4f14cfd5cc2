//! BIR, the intermediate representation: functions of basic blocks over typed instructions.
//!
//! The instructions of a function stand in one arena. A value is a parameter or the result of
//! an instruction, named by its index in the arena.

use vstd::prelude::*;

verus! {

#[derive(Clone, Copy, Debug, PartialEq, Eq, Structural)]
pub enum Scalar {
    I1,
    I8,
    I16,
    I32,
    I64,
    F16,
    F32,
    F64,
}

#[derive(Clone, Copy, Debug, PartialEq, Eq, Structural)]
pub enum AddrSpace {
    Global,
    Shared,
    Constant,
    Local,
    Param,
}

#[derive(Clone, Copy, Debug, PartialEq, Eq, Structural)]
pub enum Ty {
    Scalar(Scalar),
    Ptr(AddrSpace),
    Vec(Scalar, u8),
    Void,
}

#[derive(Clone, Copy, Debug, PartialEq, Eq, Structural)]
pub enum BinOp {
    Add,
    Sub,
    Mul,
    Div,
    Rem,
    And,
    Or,
    Xor,
    Shl,
    Lshr,
    Ashr,
    FAdd,
    FSub,
    FMul,
    FDiv,
    FRem,
}

#[derive(Clone, Copy, Debug, PartialEq, Eq, Structural)]
pub enum CastOp {
    Trunc,
    Zext,
    Sext,
    FpTrunc,
    FpExt,
    FpToSi,
    FpToUi,
    SiToFp,
    UiToFp,
    Bitcast,
}

#[derive(Clone, Copy, Debug, PartialEq, Eq, Structural)]
pub enum ICmpPred {
    Eq,
    Ne,
    Slt,
    Sle,
    Sgt,
    Sge,
    Ult,
    Ule,
    Ugt,
    Uge,
}

#[derive(Clone, Copy, Debug, PartialEq, Eq, Structural)]
pub enum FCmpPred {
    Oeq,
    One,
    Olt,
    Ole,
    Ogt,
    Oge,
    Ord,
    Uno,
}

#[derive(Clone, Copy, Debug, PartialEq, Eq, Structural)]
pub enum AtomicOp {
    Add,
    Sub,
    Exch,
    Min,
    Max,
    And,
    Or,
    Xor,
}

#[derive(Clone, Copy, Debug, PartialEq, Eq, Structural)]
pub enum ShuffleKind {
    Idx,
    Up,
    Down,
    Xor,
}

#[derive(Clone, Copy, Debug, PartialEq, Eq, Structural)]
pub enum MmaLayout {
    RowMajor,
    ColMajor,
}

/// An index into a function's instruction arena.
#[derive(Clone, Copy, Debug, PartialEq, Eq, Structural)]
pub struct InstId(pub u32);

/// An index into a function's blocks.
#[derive(Clone, Copy, Debug, PartialEq, Eq, Structural)]
pub struct BlockId(pub u32);

impl View for BlockId {
    type V = BlockId;

    open spec fn view(&self) -> BlockId {
        *self
    }
}

/// A value: a parameter or the result of an instruction.
#[derive(Clone, Copy, Debug, PartialEq, Eq, Structural)]
pub enum ValRef {
    Param(u32),
    Val(InstId),
}

/// A floating-point constant by its bit patterns: in double precision, and rounded to single.
#[derive(Clone, Copy, Debug, PartialEq, Eq, Structural)]
pub struct FloatConst {
    pub double: u64,
    pub single: u32,
}

/// 0.0
pub open spec fn float_zero() -> FloatConst {
    FloatConst { double: 0, single: 0 }
}

/// 1.0
pub open spec fn float_one() -> FloatConst {
    FloatConst { double: 0x3ff0_0000_0000_0000, single: 0x3f80_0000 }
}

#[derive(Debug, PartialEq, Eq)]
pub enum Op {
    ConstInt(i64),
    ConstFloat(FloatConst),
    Bin(BinOp, ValRef, ValRef),
    ICmp(ICmpPred, Ty, ValRef, ValRef),
    FCmp(FCmpPred, Ty, ValRef, ValRef),
    Select(ValRef, ValRef, ValRef),
    Cast(CastOp, Ty, ValRef),
    Load { ptr: ValRef, space: AddrSpace, align: u32, volatile: bool },
    Store { ptr: ValRef, val: ValRef, ty: Ty, space: AddrSpace, align: u32, volatile: bool },
    Phi(Vec<(BlockId, ValRef)>),
    TidX,
    TidY,
    TidZ,
    BidX,
    BidY,
    BidZ,
    BdimX,
    BdimY,
    BdimZ,
    GdimX,
    GdimY,
    GdimZ,
    Barrier,
    Shuffle(ShuffleKind, ValRef, ValRef),
    Ballot(ValRef),
    VoteAny(ValRef),
    VoteAll(ValRef),
    Atomic(AtomicOp, ValRef, ValRef, AddrSpace),
    AtomicCas(ValRef, ValRef, ValRef, AddrSpace),
    Mma {
        a: ValRef,
        b: ValRef,
        c: ValRef,
        d: ValRef,
        m: u32,
        n: u32,
        k: u32,
        in_dtype: Scalar,
        acc_dtype: Scalar,
        layout_a: MmaLayout,
        layout_b: MmaLayout,
    },
    Call { func: String, args: Vec<ValRef> },
    KernelLaunch {
        kernel: String,
        grid: [ValRef; 3],
        block: [ValRef; 3],
        shared: ValRef,
        stream: ValRef,
        args: Vec<ValRef>,
    },
    CudaMalloc { size: ValRef },
    CudaMemcpy { dst: ValRef, src: ValRef, count: ValRef, kind: ValRef },
    CudaFree { ptr: ValRef },
    CudaDeviceSynchronize,
}

#[derive(Debug, PartialEq, Eq)]
pub struct Inst {
    pub ty: Ty,
    pub op: Op,
}

#[derive(Debug, PartialEq, Eq)]
pub enum Term {
    Br(BlockId),
    CondBr(ValRef, BlockId, BlockId),
    Switch(ValRef, BlockId, Vec<(i64, BlockId)>),
    Ret(Option<ValRef>),
}

#[derive(Debug, PartialEq, Eq)]
pub struct Block {
    pub insts: Vec<InstId>,
    pub term: Term,
}

#[derive(Debug, PartialEq, Eq)]
pub struct Function {
    pub name: String,
    pub is_kernel: bool,
    pub params: Vec<Ty>,
    pub ret: Ty,
    pub blocks: Vec<Block>,
    pub insts: Vec<Inst>,
}

#[derive(Clone, Copy, Debug, PartialEq, Eq, Structural)]
pub struct LaunchBounds {
    pub max_threads: u32,
    pub min_blocks: u32,
}

#[derive(Debug, PartialEq, Eq)]
pub struct Module {
    pub funcs: Vec<Function>,
    pub launch_bounds: Option<LaunchBounds>,
    pub shared_mem_bytes: u32,
    pub target_dtypes: Vec<Scalar>,
}

// ---- models --------------------------------------------------------------------------------

/// The model of an operation.
pub enum OpV {
    ConstInt(i64),
    ConstFloat(FloatConst),
    Bin(BinOp, ValRef, ValRef),
    ICmp(ICmpPred, Ty, ValRef, ValRef),
    FCmp(FCmpPred, Ty, ValRef, ValRef),
    Select(ValRef, ValRef, ValRef),
    Cast(CastOp, Ty, ValRef),
    Load { ptr: ValRef, space: AddrSpace, align: u32, volatile: bool },
    Store { ptr: ValRef, val: ValRef, ty: Ty, space: AddrSpace, align: u32, volatile: bool },
    Phi(Seq<(BlockId, ValRef)>),
    TidX,
    TidY,
    TidZ,
    BidX,
    BidY,
    BidZ,
    BdimX,
    BdimY,
    BdimZ,
    GdimX,
    GdimY,
    GdimZ,
    Barrier,
    Shuffle(ShuffleKind, ValRef, ValRef),
    Ballot(ValRef),
    VoteAny(ValRef),
    VoteAll(ValRef),
    Atomic(AtomicOp, ValRef, ValRef, AddrSpace),
    AtomicCas(ValRef, ValRef, ValRef, AddrSpace),
    Mma {
        a: ValRef,
        b: ValRef,
        c: ValRef,
        d: ValRef,
        m: u32,
        n: u32,
        k: u32,
        in_dtype: Scalar,
        acc_dtype: Scalar,
        layout_a: MmaLayout,
        layout_b: MmaLayout,
    },
    Call { func: Seq<char>, args: Seq<ValRef> },
    KernelLaunch {
        kernel: Seq<char>,
        grid: Seq<ValRef>,
        block: Seq<ValRef>,
        shared: ValRef,
        stream: ValRef,
        args: Seq<ValRef>,
    },
    CudaMalloc { size: ValRef },
    CudaMemcpy { dst: ValRef, src: ValRef, count: ValRef, kind: ValRef },
    CudaFree { ptr: ValRef },
    CudaDeviceSynchronize,
}

impl View for Op {
    type V = OpV;

    open spec fn view(&self) -> OpV {
        match *self {
            Op::ConstInt(v) => OpV::ConstInt(v),
            Op::ConstFloat(v) => OpV::ConstFloat(v),
            Op::Bin(b, x, y) => OpV::Bin(b, x, y),
            Op::ICmp(p, t, x, y) => OpV::ICmp(p, t, x, y),
            Op::FCmp(p, t, x, y) => OpV::FCmp(p, t, x, y),
            Op::Select(c, x, y) => OpV::Select(c, x, y),
            Op::Cast(c, t, x) => OpV::Cast(c, t, x),
            Op::Load { ptr, space, align, volatile } => OpV::Load { ptr, space, align, volatile },
            Op::Store { ptr, val, ty, space, align, volatile } => OpV::Store {
                ptr,
                val,
                ty,
                space,
                align,
                volatile,
            },
            Op::Phi(v) => OpV::Phi(v@),
            Op::TidX => OpV::TidX,
            Op::TidY => OpV::TidY,
            Op::TidZ => OpV::TidZ,
            Op::BidX => OpV::BidX,
            Op::BidY => OpV::BidY,
            Op::BidZ => OpV::BidZ,
            Op::BdimX => OpV::BdimX,
            Op::BdimY => OpV::BdimY,
            Op::BdimZ => OpV::BdimZ,
            Op::GdimX => OpV::GdimX,
            Op::GdimY => OpV::GdimY,
            Op::GdimZ => OpV::GdimZ,
            Op::Barrier => OpV::Barrier,
            Op::Shuffle(k, x, y) => OpV::Shuffle(k, x, y),
            Op::Ballot(x) => OpV::Ballot(x),
            Op::VoteAny(x) => OpV::VoteAny(x),
            Op::VoteAll(x) => OpV::VoteAll(x),
            Op::Atomic(o, p, v, s) => OpV::Atomic(o, p, v, s),
            Op::AtomicCas(p, c, n, s) => OpV::AtomicCas(p, c, n, s),
            Op::Mma { a, b, c, d, m, n, k, in_dtype, acc_dtype, layout_a, layout_b } => OpV::Mma {
                a,
                b,
                c,
                d,
                m,
                n,
                k,
                in_dtype,
                acc_dtype,
                layout_a,
                layout_b,
            },
            Op::Call { func, args } => OpV::Call { func: func@, args: args@ },
            Op::KernelLaunch { kernel, grid, block, shared, stream, args } => OpV::KernelLaunch {
                kernel: kernel@,
                grid: grid@,
                block: block@,
                shared,
                stream,
                args: args@,
            },
            Op::CudaMalloc { size } => OpV::CudaMalloc { size },
            Op::CudaMemcpy { dst, src, count, kind } => OpV::CudaMemcpy { dst, src, count, kind },
            Op::CudaFree { ptr } => OpV::CudaFree { ptr },
            Op::CudaDeviceSynchronize => OpV::CudaDeviceSynchronize,
        }
    }
}

/// The model of an instruction.
pub struct InstV {
    pub ty: Ty,
    pub op: OpV,
}

impl View for Inst {
    type V = InstV;

    open spec fn view(&self) -> InstV {
        InstV { ty: self.ty, op: self.op@ }
    }
}

pub open spec fn insts_view(v: Seq<Inst>) -> Seq<InstV> {
    v.map_values(|i: Inst| i@)
}

/// The model of a terminator.
pub enum TermV {
    Br(BlockId),
    CondBr(ValRef, BlockId, BlockId),
    Switch(ValRef, BlockId, Seq<(i64, BlockId)>),
    Ret(Option<ValRef>),
}

impl View for Term {
    type V = TermV;

    open spec fn view(&self) -> TermV {
        match *self {
            Term::Br(b) => TermV::Br(b),
            Term::CondBr(c, t, f) => TermV::CondBr(c, t, f),
            Term::Switch(v, d, cases) => TermV::Switch(v, d, cases@),
            Term::Ret(v) => TermV::Ret(v),
        }
    }
}

/// The model of a block.
pub struct BlockV {
    pub insts: Seq<InstId>,
    pub term: TermV,
}

impl View for Block {
    type V = BlockV;

    open spec fn view(&self) -> BlockV {
        BlockV { insts: self.insts@, term: self.term@ }
    }
}

pub open spec fn blocks_view(v: Seq<Block>) -> Seq<BlockV> {
    v.map_values(|b: Block| b@)
}

/// The model of a function.
pub struct FunctionV {
    pub name: Seq<char>,
    pub is_kernel: bool,
    pub params: Seq<Ty>,
    pub ret: Ty,
    pub blocks: Seq<BlockV>,
    pub insts: Seq<InstV>,
}

impl View for Function {
    type V = FunctionV;

    open spec fn view(&self) -> FunctionV {
        FunctionV {
            name: self.name@,
            is_kernel: self.is_kernel,
            params: self.params@,
            ret: self.ret,
            blocks: blocks_view(self.blocks@),
            insts: insts_view(self.insts@),
        }
    }
}

pub open spec fn funcs_view(v: Seq<Function>) -> Seq<FunctionV> {
    v.map_values(|f: Function| f@)
}

/// The model of a module.
pub struct ModuleV {
    pub funcs: Seq<FunctionV>,
    pub launch_bounds: Option<LaunchBounds>,
    pub shared_mem_bytes: u32,
    pub target_dtypes: Seq<Scalar>,
}

impl View for Module {
    type V = ModuleV;

    open spec fn view(&self) -> ModuleV {
        ModuleV {
            funcs: funcs_view(self.funcs@),
            launch_bounds: self.launch_bounds,
            shared_mem_bytes: self.shared_mem_bytes,
            target_dtypes: self.target_dtypes@,
        }
    }
}

} // verus!
