//! Building a BIR function block by block.
//!
//! Several blocks can be open at once, so that instructions are made in another order than they
//! are printed in. `linearize` puts them in order: BIR numbers the instructions of a function in
//! the order of its blocks.

use vstd::prelude::*;
use vstd::set_lib::{lemma_int_range, lemma_len_subset, set_int_range};
use vstd::string::*;

use crate::bir::{
    blocks_view, insts_view, Block, BlockId, BlockV, FunctionV, Inst, InstId, InstV, Op, OpV, Term,
    TermV, Ty, ValRef,
};

use crate::bits::{low_u32, usize_to_u32};

verus! {

// ---- renumbering ---------------------------------------------------------------------------

pub open spec fn renamed(v: ValRef, map: Seq<u32>) -> ValRef {
    match v {
        ValRef::Param(p) => ValRef::Param(p),
        ValRef::Val(id) => ValRef::Val(
            InstId(
                if (id.0 as int) < map.len() {
                    map[id.0 as int]
                } else {
                    0
                },
            ),
        ),
    }
}

pub open spec fn renamed_all(v: Seq<ValRef>, map: Seq<u32>) -> Seq<ValRef> {
    v.map_values(|x: ValRef| renamed(x, map))
}

pub open spec fn renamed_edges(v: Seq<(BlockId, ValRef)>, map: Seq<u32>) -> Seq<(BlockId, ValRef)> {
    v.map_values(|x: (BlockId, ValRef)| (x.0, renamed(x.1, map)))
}

/// An operation with every operand renumbered.
pub open spec fn renamed_op(op: OpV, m: Seq<u32>) -> OpV {
    match op {
        OpV::Bin(b, x, y) => OpV::Bin(b, renamed(x, m), renamed(y, m)),
        OpV::ICmp(p, t, x, y) => OpV::ICmp(p, t, renamed(x, m), renamed(y, m)),
        OpV::FCmp(p, t, x, y) => OpV::FCmp(p, t, renamed(x, m), renamed(y, m)),
        OpV::Select(c, x, y) => OpV::Select(renamed(c, m), renamed(x, m), renamed(y, m)),
        OpV::Cast(c, t, x) => OpV::Cast(c, t, renamed(x, m)),
        OpV::Load { ptr, space, align, volatile } => OpV::Load {
            ptr: renamed(ptr, m),
            space,
            align,
            volatile,
        },
        OpV::Store { ptr, val, ty, space, align, volatile } => OpV::Store {
            ptr: renamed(ptr, m),
            val: renamed(val, m),
            ty,
            space,
            align,
            volatile,
        },
        OpV::Phi(v) => OpV::Phi(renamed_edges(v, m)),
        OpV::Shuffle(k, x, y) => OpV::Shuffle(k, renamed(x, m), renamed(y, m)),
        OpV::Ballot(x) => OpV::Ballot(renamed(x, m)),
        OpV::VoteAny(x) => OpV::VoteAny(renamed(x, m)),
        OpV::VoteAll(x) => OpV::VoteAll(renamed(x, m)),
        OpV::Atomic(o, p, v, s) => OpV::Atomic(o, renamed(p, m), renamed(v, m), s),
        OpV::AtomicCas(p, c, n, s) => OpV::AtomicCas(
            renamed(p, m),
            renamed(c, m),
            renamed(n, m),
            s,
        ),
        OpV::Mma { a, b, c, d, m: rows, n, k, in_dtype, acc_dtype, layout_a, layout_b } => OpV::Mma {
            a: renamed(a, m),
            b: renamed(b, m),
            c: renamed(c, m),
            d: renamed(d, m),
            m: rows,
            n,
            k,
            in_dtype,
            acc_dtype,
            layout_a,
            layout_b,
        },
        OpV::Call { func, args } => OpV::Call { func, args: renamed_all(args, m) },
        OpV::KernelLaunch { kernel, grid, block, shared, stream, args } => OpV::KernelLaunch {
            kernel,
            grid: renamed_all(grid, m),
            block: renamed_all(block, m),
            shared: renamed(shared, m),
            stream: renamed(stream, m),
            args: renamed_all(args, m),
        },
        OpV::CudaMalloc { size } => OpV::CudaMalloc { size: renamed(size, m) },
        OpV::CudaMemcpy { dst, src, count, kind } => OpV::CudaMemcpy {
            dst: renamed(dst, m),
            src: renamed(src, m),
            count: renamed(count, m),
            kind: renamed(kind, m),
        },
        OpV::CudaFree { ptr } => OpV::CudaFree { ptr: renamed(ptr, m) },
        other => other,
    }
}

pub open spec fn renamed_term(t: TermV, m: Seq<u32>) -> TermV {
    match t {
        TermV::Br(b) => TermV::Br(b),
        TermV::CondBr(c, x, y) => TermV::CondBr(renamed(c, m), x, y),
        TermV::Switch(v, d, cases) => TermV::Switch(renamed(v, m), d, cases),
        TermV::Ret(None) => TermV::Ret(None),
        TermV::Ret(Some(v)) => TermV::Ret(Some(renamed(v, m))),
    }
}

fn remap_valref(v: ValRef, remap: &Vec<u32>) -> (r: ValRef)
    ensures
        r == renamed(v, remap@),
{
    match v {
        ValRef::Param(p) => ValRef::Param(p),
        ValRef::Val(id) => {
            let i: usize = id.0 as usize;
            if i < remap.len() {
                ValRef::Val(InstId(remap[i]))
            } else {
                ValRef::Val(InstId(0))
            }
        },
    }
}

fn remap_all(v: &Vec<ValRef>, remap: &Vec<u32>) -> (r: Vec<ValRef>)
    ensures
        r@ == renamed_all(v@, remap@),
{
    let mut r: Vec<ValRef> = Vec::new();
    let mut i: usize = 0;
    while i < v.len()
        invariant
            i <= v@.len(),
            r@.len() == i,
            forall|j: int| 0 <= j < i ==> #[trigger] r@[j] == renamed(v@[j], remap@),
        decreases v@.len() - i,
    {
        r.push(remap_valref(v[i], remap));
        i = i + 1;
    }
    assert(r@ =~= renamed_all(v@, remap@));
    r
}

fn remap3(v: &[ValRef; 3], remap: &Vec<u32>) -> (r: [ValRef; 3])
    ensures
        r@ == renamed_all(v@, remap@),
{
    let r = [remap_valref(v[0], remap), remap_valref(v[1], remap), remap_valref(v[2], remap)];
    assert(r@ =~= renamed_all(v@, remap@));
    r
}

fn remap_edges(v: &Vec<(BlockId, ValRef)>, remap: &Vec<u32>) -> (r: Vec<(BlockId, ValRef)>)
    ensures
        r@ == renamed_edges(v@, remap@),
{
    let mut r: Vec<(BlockId, ValRef)> = Vec::new();
    let mut i: usize = 0;
    while i < v.len()
        invariant
            i <= v@.len(),
            r@.len() == i,
            forall|j: int|
                0 <= j < i ==> #[trigger] r@[j] == (v@[j].0, renamed(v@[j].1, remap@)),
        decreases v@.len() - i,
    {
        let e = v[i];
        r.push((e.0, remap_valref(e.1, remap)));
        i = i + 1;
    }
    assert(r@ =~= renamed_edges(v@, remap@));
    r
}

fn remap_op(op: &Op, remap: &Vec<u32>) -> (r: Op)
    ensures
        r@ == renamed_op(op@, remap@),
{
    match op {
        Op::ConstInt(v) => Op::ConstInt(*v),
        Op::ConstFloat(v) => Op::ConstFloat(*v),
        Op::Bin(b, x, y) => Op::Bin(*b, remap_valref(*x, remap), remap_valref(*y, remap)),
        Op::ICmp(p, t, x, y) => Op::ICmp(
            *p,
            *t,
            remap_valref(*x, remap),
            remap_valref(*y, remap),
        ),
        Op::FCmp(p, t, x, y) => Op::FCmp(
            *p,
            *t,
            remap_valref(*x, remap),
            remap_valref(*y, remap),
        ),
        Op::Select(c, x, y) => Op::Select(
            remap_valref(*c, remap),
            remap_valref(*x, remap),
            remap_valref(*y, remap),
        ),
        Op::Cast(c, t, x) => Op::Cast(*c, *t, remap_valref(*x, remap)),
        Op::Load { ptr, space, align, volatile } => Op::Load {
            ptr: remap_valref(*ptr, remap),
            space: *space,
            align: *align,
            volatile: *volatile,
        },
        Op::Store { ptr, val, ty, space, align, volatile } => Op::Store {
            ptr: remap_valref(*ptr, remap),
            val: remap_valref(*val, remap),
            ty: *ty,
            space: *space,
            align: *align,
            volatile: *volatile,
        },
        Op::Phi(v) => Op::Phi(remap_edges(v, remap)),
        Op::TidX => Op::TidX,
        Op::TidY => Op::TidY,
        Op::TidZ => Op::TidZ,
        Op::BidX => Op::BidX,
        Op::BidY => Op::BidY,
        Op::BidZ => Op::BidZ,
        Op::BdimX => Op::BdimX,
        Op::BdimY => Op::BdimY,
        Op::BdimZ => Op::BdimZ,
        Op::GdimX => Op::GdimX,
        Op::GdimY => Op::GdimY,
        Op::GdimZ => Op::GdimZ,
        Op::Barrier => Op::Barrier,
        Op::Shuffle(k, x, y) => Op::Shuffle(
            *k,
            remap_valref(*x, remap),
            remap_valref(*y, remap),
        ),
        Op::Ballot(x) => Op::Ballot(remap_valref(*x, remap)),
        Op::VoteAny(x) => Op::VoteAny(remap_valref(*x, remap)),
        Op::VoteAll(x) => Op::VoteAll(remap_valref(*x, remap)),
        Op::Atomic(o, p, v, s) => Op::Atomic(
            *o,
            remap_valref(*p, remap),
            remap_valref(*v, remap),
            *s,
        ),
        Op::AtomicCas(p, c, n, s) => Op::AtomicCas(
            remap_valref(*p, remap),
            remap_valref(*c, remap),
            remap_valref(*n, remap),
            *s,
        ),
        Op::Mma { a, b, c, d, m, n, k, in_dtype, acc_dtype, layout_a, layout_b } => Op::Mma {
            a: remap_valref(*a, remap),
            b: remap_valref(*b, remap),
            c: remap_valref(*c, remap),
            d: remap_valref(*d, remap),
            m: *m,
            n: *n,
            k: *k,
            in_dtype: *in_dtype,
            acc_dtype: *acc_dtype,
            layout_a: *layout_a,
            layout_b: *layout_b,
        },
        Op::Call { func, args } => Op::Call { func: func.clone(), args: remap_all(args, remap) },
        Op::KernelLaunch { kernel, grid, block, shared, stream, args } => Op::KernelLaunch {
            kernel: kernel.clone(),
            grid: remap3(grid, remap),
            block: remap3(block, remap),
            shared: remap_valref(*shared, remap),
            stream: remap_valref(*stream, remap),
            args: remap_all(args, remap),
        },
        Op::CudaMalloc { size } => Op::CudaMalloc { size: remap_valref(*size, remap) },
        Op::CudaMemcpy { dst, src, count, kind } => Op::CudaMemcpy {
            dst: remap_valref(*dst, remap),
            src: remap_valref(*src, remap),
            count: remap_valref(*count, remap),
            kind: remap_valref(*kind, remap),
        },
        Op::CudaFree { ptr } => Op::CudaFree { ptr: remap_valref(*ptr, remap) },
        Op::CudaDeviceSynchronize => Op::CudaDeviceSynchronize,
    }
}

fn copy_cases(v: &Vec<(i64, BlockId)>) -> (r: Vec<(i64, BlockId)>)
    ensures
        r@ == v@,
{
    let mut r: Vec<(i64, BlockId)> = Vec::new();
    let mut i: usize = 0;
    while i < v.len()
        invariant
            i <= v@.len(),
            r@ == v@.take(i as int),
        decreases v@.len() - i,
    {
        r.push(v[i]);
        i = i + 1;
        assert(r@ =~= v@.take(i as int));
    }
    assert(r@ =~= v@);
    r
}

fn remap_term(t: &Term, remap: &Vec<u32>) -> (r: Term)
    ensures
        r@ == renamed_term(t@, remap@),
{
    match t {
        Term::Br(b) => Term::Br(*b),
        Term::CondBr(c, x, y) => Term::CondBr(remap_valref(*c, remap), *x, *y),
        Term::Switch(v, d, cases) => Term::Switch(remap_valref(*v, remap), *d, copy_cases(cases)),
        Term::Ret(None) => Term::Ret(None),
        Term::Ret(Some(v)) => Term::Ret(Some(remap_valref(*v, remap))),
    }
}

// ---- print order ---------------------------------------------------------------------------

/// The instructions of the first `n` blocks, in order.
pub open spec fn print_order(blocks: Seq<BlockV>, n: nat) -> Seq<InstId>
    decreases n,
{
    if n == 0 {
        Seq::empty()
    } else {
        print_order(blocks, (n - 1) as nat) + blocks[n - 1].insts
    }
}

/// The new number of each of `size` instructions: its place in the order, 0 if it has none.
pub open spec fn places(order: Seq<InstId>, size: nat) -> Seq<u32>
    decreases order.len(),
{
    if order.len() == 0 {
        Seq::new(size, |i: int| 0u32)
    } else {
        let m = places(order.drop_last(), size);
        let id = order.last().0 as int;
        if id < size {
            m.update(id, low_u32(order.len() - 1))
        } else {
            m
        }
    }
}

pub open spec fn place_of(id: InstId, m: Seq<u32>) -> InstId {
    InstId(
        if (id.0 as int) < m.len() {
            m[id.0 as int]
        } else {
            0
        },
    )
}

/// The instruction at a place of the order, renumbered.
pub open spec fn moved(insts: Seq<InstV>, id: InstId, m: Seq<u32>) -> InstV {
    if (id.0 as int) < insts.len() {
        let i = insts[id.0 as int];
        InstV { ty: i.ty, op: renamed_op(i.op, m) }
    } else {
        InstV { ty: Ty::Void, op: OpV::Barrier }
    }
}

/// The blocks and instructions of a function with its instructions numbered in print order.
pub open spec fn linear(blocks: Seq<BlockV>, insts: Seq<InstV>) -> (Seq<BlockV>, Seq<InstV>) {
    let order = print_order(blocks, blocks.len());
    let m = places(order, insts.len());
    (
        blocks.map_values(
            |b: BlockV|
                BlockV {
                    insts: b.insts.map_values(|id: InstId| place_of(id, m)),
                    term: renamed_term(b.term, m),
                },
        ),
        order.map_values(|id: InstId| moved(insts, id, m)),
    )
}

fn zeros(n: usize) -> (r: Vec<u32>)
    ensures
        r@ == Seq::new(n as nat, |i: int| 0u32),
{
    let mut r: Vec<u32> = Vec::new();
    let mut i: usize = 0;
    while i < n
        invariant
            i <= n,
            r@ == Seq::new(i as nat, |i: int| 0u32),
        decreases n - i,
    {
        r.push(0);
        i = i + 1;
        assert(r@ =~= Seq::new(i as nat, |i: int| 0u32));
    }
    r
}

fn block_order(blocks: &Vec<Block>) -> (order: Vec<InstId>)
    ensures
        order@ == print_order(blocks_view(blocks@), blocks@.len()),
{
    let ghost bs = blocks_view(blocks@);
    let mut order: Vec<InstId> = Vec::new();
    let mut b: usize = 0;
    while b < blocks.len()
        invariant
            b <= blocks@.len(),
            bs == blocks_view(blocks@),
            order@ == print_order(bs, b as nat),
        decreases blocks@.len() - b,
    {
        let ghost start = order@;
        let mut k: usize = 0;
        assert(start + bs[b as int].insts.take(0) =~= start);
        while k < blocks[b as usize].insts.len()
            invariant
                b < blocks@.len(),
                bs == blocks_view(blocks@),
                k <= blocks@[b as int].insts@.len(),
                order@ == start + bs[b as int].insts.take(k as int),
            decreases blocks@[b as int].insts@.len() - k,
        {
            order.push(blocks[b].insts[k]);
            k = k + 1;
            assert(order@ =~= start + bs[b as int].insts.take(k as int));
        }
        assert(bs[b as int].insts.take(k as int) =~= bs[b as int].insts);
        b = b + 1;
    }
    order
}

fn number(order: &Vec<InstId>, size: usize) -> (m: Vec<u32>)
    ensures
        m@ == places(order@, size as nat),
        m@.len() == size,
{
    let mut m = zeros(size);
    let mut i: usize = 0;
    assert(order@.take(0) =~= Seq::empty());
    while i < order.len()
        invariant
            i <= order@.len(),
            m@.len() == size,
            m@ == places(order@.take(i as int), size as nat),
        decreases order@.len() - i,
    {
        assert(order@.take(i as int + 1).drop_last() =~= order@.take(i as int));
        let id: usize = order[i].0 as usize;
        if id < size {
            m.set(id, usize_to_u32(i));
        }
        i = i + 1;
    }
    assert(order@.take(i as int) =~= order@);
    m
}

fn relocate(ids: &Vec<InstId>, m: &Vec<u32>) -> (r: Vec<InstId>)
    ensures
        r@ == ids@.map_values(|id: InstId| place_of(id, m@)),
{
    let mut r: Vec<InstId> = Vec::new();
    let mut i: usize = 0;
    while i < ids.len()
        invariant
            i <= ids@.len(),
            r@.len() == i,
            forall|j: int| 0 <= j < i ==> #[trigger] r@[j] == place_of(ids@[j], m@),
        decreases ids@.len() - i,
    {
        let k: usize = ids[i].0 as usize;
        if k < m.len() {
            r.push(InstId(m[k]));
        } else {
            r.push(InstId(0));
        }
        i = i + 1;
    }
    assert(r@ =~= ids@.map_values(|id: InstId| place_of(id, m@)));
    r
}

/// Numbers the instructions of a function in print order.
pub fn linearize_by_block_order(blocks: Vec<Block>, old_insts: Vec<Inst>) -> (r: (
    Vec<Block>,
    Vec<Inst>,
))
    ensures
        (blocks_view(r.0@), insts_view(r.1@)) == linear(
            blocks_view(blocks@),
            insts_view(old_insts@),
        ),
{
    let ghost bs = blocks_view(blocks@);
    let ghost is = insts_view(old_insts@);
    let order = block_order(&blocks);
    let remap = number(&order, old_insts.len());
    let mut new_insts: Vec<Inst> = Vec::new();
    let mut i: usize = 0;
    while i < order.len()
        invariant
            i <= order@.len(),
            is == insts_view(old_insts@),
            new_insts@.len() == i,
            forall|j: int|
                0 <= j < i ==> (#[trigger] new_insts@[j])@ == moved(is, order@[j], remap@),
        decreases order@.len() - i,
    {
        let k: usize = order[i].0 as usize;
        if k < old_insts.len() {
            let inst = &old_insts[k];
            assert(is[k as int] == inst@);
            new_insts.push(Inst { ty: inst.ty, op: remap_op(&inst.op, &remap) });
        } else {
            new_insts.push(Inst { ty: Ty::Void, op: Op::Barrier });
        }
        i = i + 1;
    }
    let mut new_blocks: Vec<Block> = Vec::new();
    let ghost f = |b: BlockV|
        BlockV {
            insts: b.insts.map_values(|id: InstId| place_of(id, remap@)),
            term: renamed_term(b.term, remap@),
        };
    let mut i: usize = 0;
    while i < blocks.len()
        invariant
            i <= blocks@.len(),
            bs == blocks_view(blocks@),
            new_blocks@.len() == i,
            forall|j: int| 0 <= j < i ==> (#[trigger] new_blocks@[j])@ == f(bs[j]),
            f == (|b: BlockV|
                BlockV {
                    insts: b.insts.map_values(|id: InstId| place_of(id, remap@)),
                    term: renamed_term(b.term, remap@),
                }),
        decreases blocks@.len() - i,
    {
        let b = &blocks[i];
        assert(bs[i as int] == b@);
        let insts = relocate(&b.insts, &remap);
        new_blocks.push(Block { insts, term: remap_term(&b.term, &remap) });
        i = i + 1;
    }
    proof {
        let l = linear(bs, is);
        assert(blocks_view(new_blocks@) =~= bs.map_values(f));
        assert(blocks_view(new_blocks@) =~= l.0);
        assert(insts_view(new_insts@) =~= l.1);
    }
    (new_blocks, new_insts)
}

// ---- the builder ---------------------------------------------------------------------------

/// A block that is being built: what was put in since it was last closed, and what it was
/// closed with.
pub struct Draft {
    pub pending: Vec<InstId>,
    pub done: Option<Block>,
}

/// The model of a block that is being built.
pub struct DraftV {
    pub pending: Seq<InstId>,
    pub done: Option<BlockV>,
}

impl View for Draft {
    type V = DraftV;

    open spec fn view(&self) -> DraftV {
        DraftV {
            pending: self.pending@,
            done: match self.done {
                Some(b) => Some(b@),
                None => None,
            },
        }
    }
}

pub open spec fn drafts_view(v: Seq<Draft>) -> Seq<DraftV> {
    v.map_values(|d: Draft| d@)
}

/// A function that is being built: its instructions in the order they were made, its blocks, and
/// the block that the next instruction goes to.
pub struct Builder {
    insts: Vec<Inst>,
    blocks: Vec<Draft>,
    pub cur: BlockId,
}

/// The model of a function that is being built.
pub struct BuildV {
    pub insts: Seq<InstV>,
    pub blocks: Seq<DraftV>,
    pub cur: BlockId,
}

impl View for Builder {
    type V = BuildV;

    closed spec fn view(&self) -> BuildV {
        BuildV { insts: insts_view(self.insts@), blocks: drafts_view(self.blocks@), cur: self.cur }
    }
}

pub open spec fn empty_build() -> BuildV {
    BuildV { insts: Seq::empty(), blocks: Seq::empty(), cur: BlockId(0) }
}

/// Appends an instruction to the current block.
pub open spec fn put_inst(b: BuildV, ty: Ty, op: OpV) -> BuildV {
    let c = b.cur.0 as int;
    BuildV {
        insts: b.insts.push(InstV { ty, op }),
        blocks: if c < b.blocks.len() {
            b.blocks.update(
                c,
                DraftV {
                    pending: b.blocks[c].pending.push(InstId(low_u32(b.insts.len() as int))),
                    ..b.blocks[c]
                },
            )
        } else {
            b.blocks
        },
        ..b
    }
}

/// The value of the next instruction.
pub open spec fn next_val(b: BuildV) -> ValRef {
    ValRef::Val(InstId(low_u32(b.insts.len() as int)))
}

pub open spec fn add_block(b: BuildV) -> BuildV {
    BuildV { blocks: b.blocks.push(DraftV { pending: Seq::empty(), done: None }), ..b }
}

pub open spec fn next_block(b: BuildV) -> BlockId {
    BlockId(low_u32(b.blocks.len() as int))
}

/// Closes the current block with what was put in since it was last closed.
pub open spec fn close_block(b: BuildV, term: TermV) -> BuildV {
    let c = b.cur.0 as int;
    if c < b.blocks.len() {
        BuildV {
            blocks: b.blocks.update(
                c,
                DraftV {
                    pending: Seq::empty(),
                    done: Some(BlockV { insts: b.blocks[c].pending, term }),
                },
            ),
            ..b
        }
    } else {
        b
    }
}

pub open spec fn at_block(b: BuildV, cur: BlockId) -> BuildV {
    BuildV { cur, ..b }
}

/// What a block was closed with; one that never was returns nothing.
pub open spec fn finished(d: DraftV) -> BlockV {
    match d.done {
        Some(b) => b,
        None => BlockV { insts: Seq::empty(), term: TermV::Ret(None) },
    }
}

/// The blocks and instructions of the built function.
pub open spec fn built(b: BuildV) -> (Seq<BlockV>, Seq<InstV>) {
    linear(b.blocks.map_values(|d: DraftV| finished(d)), b.insts)
}

/// The instructions of a block that is being built: those it was closed with, and those since.
pub open spec fn ids_of(d: DraftV) -> Seq<InstId> {
    finished(d).insts + d.pending
}

/// Whether the instructions that are in blocks have been made, and each is in one place. Beyond
/// 2^32 instructions numbers repeat, and nothing is said.
#[verifier::opaque]
pub open spec fn well_built(b: BuildV) -> bool {
    b.insts.len() <= 0xFFFF_FFFF ==> {
        &&& forall|i: int, k: int|
            0 <= i < b.blocks.len() && 0 <= k < ids_of(b.blocks[i]).len() ==> (#[trigger] ids_of(
                b.blocks[i],
            )[k]).0 < b.insts.len()
        &&& forall|i: int, k: int, j: int, l: int|
            0 <= i < b.blocks.len() && 0 <= k < ids_of(b.blocks[i]).len() && 0 <= j
                < b.blocks.len() && 0 <= l < ids_of(b.blocks[j]).len() && (#[trigger] ids_of(
                b.blocks[i],
            )[k]) == (#[trigger] ids_of(b.blocks[j])[l]) ==> i == j && k == l
    }
}

/// Whether the blocks list the instructions of a function in order, each once. Where more than
/// 2^32 instructions were made on the way, nothing is said.
pub open spec fn in_print_order(blocks: Seq<BlockV>, insts: Seq<InstV>) -> bool {
    ||| print_order(blocks, blocks.len()) == Seq::new(insts.len(), |k: int| InstId(k as u32))
    ||| exists|b: BuildV| #[trigger] built(b) == (blocks, insts) && b.insts.len() > 0xFFFF_FFFF
}

/// Whether the blocks of every function list its instructions in order.
#[verifier::opaque]
pub open spec fn all_in_print_order(funcs: Seq<FunctionV>) -> bool {
    forall|k: int|
        0 <= k < funcs.len() ==> in_print_order((#[trigger] funcs[k]).blocks, funcs[k].insts)
}

pub proof fn lemma_all_in_print_order(funcs: Seq<FunctionV>, f: FunctionV)
    requires
        in_print_order(f.blocks, f.insts),
    ensures
        all_in_print_order(funcs) ==> all_in_print_order(funcs.push(f)),
{
    reveal(all_in_print_order);
}

pub proof fn lemma_none_in_print_order()
    ensures
        all_in_print_order(Seq::empty()),
{
    reveal(all_in_print_order);
}

/// What each of a list of blocks was closed with.
fn finish_drafts(v: &mut Vec<Draft>) -> (r: Vec<Block>)
    ensures
        blocks_view(r@) == drafts_view(old(v)@).map_values(|d: DraftV| finished(d)),
    decreases old(v)@.len(),
{
    let ghost ds = drafts_view(v@);
    match v.pop() {
        None => {
            let r: Vec<Block> = Vec::new();
            assert(blocks_view(r@) =~= ds.map_values(|d: DraftV| finished(d)));
            r
        },
        Some(d) => {
            assert(ds.drop_last() =~= drafts_view(v@));
            assert(ds.last() == d@);
            let mut r = finish_drafts(v);
            let ghost front = blocks_view(r@);
            let b = match d.done {
                Some(b) => b,
                None => {
                    let b = Block { insts: Vec::new(), term: Term::Ret(None) };
                    assert(b@.insts =~= Seq::empty());
                    b
                },
            };
            r.push(b);
            assert(blocks_view(r@) =~= front.push(b@));
            assert(blocks_view(r@) =~= ds.map_values(|d: DraftV| finished(d)));
            r
        },
    }
}

impl Builder {
    /// Each instruction that is in a block has been made, and is in one place.
    pub closed spec fn wf(&self) -> bool {
        well_built(self@)
    }

    pub fn new() -> (r: Builder)
        ensures
            r.wf(),
            r@ == empty_build(),
    {
        let r = Builder { insts: Vec::new(), blocks: Vec::new(), cur: BlockId(0) };
        proof {
            reveal(well_built);
        }
        assert(r@.insts =~= Seq::empty());
        assert(r@.blocks =~= Seq::empty());
        r
    }

    pub fn current(&self) -> (b: BlockId)
        ensures
            b == self@.cur,
    {
        self.cur
    }

    pub fn set_current(&mut self, b: BlockId)
        requires
            old(self).wf(),
        ensures
            final(self).wf(),
            final(self)@ == at_block(old(self)@, b),
    {
        self.cur = b;
        proof {
            lemma_at_block(old(self)@, b);
        }
    }

    pub fn alloc_block(&mut self) -> (id: BlockId)
        requires
            old(self).wf(),
        ensures
            final(self).wf(),
            id == next_block(old(self)@),
            final(self)@ == add_block(old(self)@),
    {
        let id = BlockId(usize_to_u32(self.blocks.len()));
        let d = Draft { pending: Vec::new(), done: None };
        self.blocks.push(d);
        assert(d@.pending =~= Seq::empty());
        assert(self@.blocks =~= add_block(old(self)@).blocks);
        proof {
            lemma_add_block(old(self)@);
        }
        id
    }

    /// Appends an instruction to the current block; its value is the result.
    pub fn push(&mut self, ty: Ty, op: Op) -> (v: ValRef)
        requires
            old(self).wf(),
        ensures
            final(self).wf(),
            v == next_val(old(self)@),
            final(self)@ == put_inst(old(self)@, ty, op@),
    {
        let id = InstId(usize_to_u32(self.insts.len()));
        let i = Inst { ty, op };
        self.insts.push(i);
        assert(insts_view(self.insts@) =~= insts_view(old(self).insts@).push(i@));
        let c: usize = self.cur.0 as usize;
        if c < self.blocks.len() {
            self.blocks[c].pending.push(id);
        }
        assert(self@.blocks =~= put_inst(old(self)@, ty, op@).blocks);
        proof {
            lemma_put_inst(old(self)@, ty, op@);
        }
        ValRef::Val(id)
    }

    /// Closes the current block.
    pub fn terminate(&mut self, term: Term)
        requires
            old(self).wf(),
        ensures
            final(self).wf(),
            final(self)@ == close_block(old(self)@, term@),
    {
        let c: usize = self.cur.0 as usize;
        if c < self.blocks.len() {
            let mut ids: Vec<InstId> = Vec::new();
            core::mem::swap(&mut self.blocks[c].pending, &mut ids);
            self.blocks[c].done = Some(Block { insts: ids, term });
        }
        assert(self@.blocks =~= close_block(old(self)@, term@).blocks);
        proof {
            lemma_close_block(old(self)@, term@);
        }
    }

    /// The built function.
    pub fn finish(self) -> (r: (Vec<Block>, Vec<Inst>))
        requires
            self.wf(),
        ensures
            (blocks_view(r.0@), insts_view(r.1@)) == built(self@),
            in_print_order(blocks_view(r.0@), insts_view(r.1@)),
    {
        proof {
            lemma_built_in_order(self@);
        }
        let insts = self.insts;
        let mut drafts = self.blocks;
        let blocks = finish_drafts(&mut drafts);
        linearize_by_block_order(blocks, insts)
    }
}

proof fn lemma_at_block(b: BuildV, cur: BlockId)
    requires
        well_built(b),
    ensures
        well_built(at_block(b, cur)),
{
    reveal(well_built);
    assert(at_block(b, cur).blocks == b.blocks && at_block(b, cur).insts == b.insts);
}

proof fn lemma_add_block(b: BuildV)
    requires
        well_built(b),
    ensures
        well_built(add_block(b)),
{
    reveal(well_built);
    let c = add_block(b);
    let n = b.blocks.len() as int;
    assert(ids_of(c.blocks[n]) =~= Seq::empty());
    assert forall|i: int| 0 <= i < n implies #[trigger] c.blocks[i] == b.blocks[i] by {}
}

proof fn lemma_put_inst(b: BuildV, ty: Ty, op: OpV)
    requires
        well_built(b),
    ensures
        well_built(put_inst(b, ty, op)),
{
    reveal(well_built);
    reveal(low_u32);
    let c = put_inst(b, ty, op);
    let at = b.cur.0 as int;
    if c.insts.len() <= 0xFFFF_FFFF && at < b.blocks.len() {
        let id = InstId(low_u32(b.insts.len() as int));
        let old_ids = ids_of(b.blocks[at]);
        assert(ids_of(c.blocks[at]) =~= old_ids.push(id));
        assert forall|i: int, k: int|
            0 <= i < c.blocks.len() && 0 <= k < ids_of(c.blocks[i]).len() implies (#[trigger] ids_of(
            c.blocks[i],
        )[k]).0 < c.insts.len() by {
            if i == at && k == old_ids.len() {
            } else {
                assert(ids_of(c.blocks[i])[k] == ids_of(b.blocks[i])[k]);
            }
        }
        assert forall|i: int, k: int, j: int, l: int|
            0 <= i < c.blocks.len() && 0 <= k < ids_of(c.blocks[i]).len() && 0 <= j < c.blocks.len()
                && 0 <= l < ids_of(c.blocks[j]).len() && (#[trigger] ids_of(c.blocks[i])[k])
                == (#[trigger] ids_of(c.blocks[j])[l]) implies i == j && k == l by {
            let new_k = i == at && k == old_ids.len();
            let new_l = j == at && l == old_ids.len();
            if !new_k {
                assert(ids_of(c.blocks[i])[k] == ids_of(b.blocks[i])[k]);
            }
            if !new_l {
                assert(ids_of(c.blocks[j])[l] == ids_of(b.blocks[j])[l]);
            }
        }
    }
}

proof fn lemma_close_block(b: BuildV, term: TermV)
    requires
        well_built(b),
    ensures
        well_built(close_block(b, term)),
{
    reveal(well_built);
    let c = close_block(b, term);
    let at = b.cur.0 as int;
    if at < b.blocks.len() && b.insts.len() <= 0xFFFF_FFFF {
        let n = finished(b.blocks[at]).insts.len() as int;
        assert(ids_of(c.blocks[at]) =~= b.blocks[at].pending);
        assert forall|k: int| 0 <= k < b.blocks[at].pending.len() implies #[trigger] ids_of(
            c.blocks[at],
        )[k] == ids_of(b.blocks[at])[n + k] by {}
        assert forall|i: int, k: int|
            0 <= i < c.blocks.len() && 0 <= k < ids_of(c.blocks[i]).len() implies (#[trigger] ids_of(
            c.blocks[i],
        )[k]).0 < c.insts.len() by {
            if i == at {
                assert(ids_of(c.blocks[i])[k] == ids_of(b.blocks[i])[n + k]);
            } else {
                assert(ids_of(c.blocks[i])[k] == ids_of(b.blocks[i])[k]);
            }
        }
        assert forall|i: int, k: int, j: int, l: int|
            0 <= i < c.blocks.len() && 0 <= k < ids_of(c.blocks[i]).len() && 0 <= j < c.blocks.len()
                && 0 <= l < ids_of(c.blocks[j]).len() && (#[trigger] ids_of(c.blocks[i])[k])
                == (#[trigger] ids_of(c.blocks[j])[l]) implies i == j && k == l by {
            let p = if i == at {
                n + k
            } else {
                k
            };
            let q = if j == at {
                n + l
            } else {
                l
            };
            assert(ids_of(c.blocks[i])[k] == ids_of(b.blocks[i])[p]);
            assert(ids_of(c.blocks[j])[l] == ids_of(b.blocks[j])[q]);
        }
    }
}

/// Where an instruction of the first `n` blocks comes from.
proof fn lemma_order_from(blocks: Seq<BlockV>, n: nat, p: int) -> (at: (int, int))
    requires
        n <= blocks.len(),
        0 <= p < print_order(blocks, n).len(),
    ensures
        0 <= at.0 < n,
        0 <= at.1 < blocks[at.0].insts.len(),
        blocks[at.0].insts[at.1] == print_order(blocks, n)[p],
        p == print_order(blocks, at.0 as nat).len() + at.1,
    decreases n,
{
    let front = print_order(blocks, (n - 1) as nat);
    if p < front.len() {
        lemma_order_from(blocks, (n - 1) as nat, p)
    } else {
        (n - 1, p - front.len())
    }
}

proof fn lemma_built_in_order(b: BuildV)
    requires
        well_built(b),
    ensures
        in_print_order(built(b).0, built(b).1),
{
    reveal(well_built);
    let blocks = b.blocks.map_values(|d: DraftV| finished(d));
    let order = print_order(blocks, blocks.len());
    if b.insts.len() <= 0xFFFF_FFFF {
        assert forall|p: int| 0 <= p < order.len() implies (#[trigger] order[p].0 as int)
            < b.insts.len() by {
            let (i, k) = lemma_order_from(blocks, blocks.len(), p);
            assert(ids_of(b.blocks[i])[k] == order[p]);
        }
        assert forall|p: int, q: int| 0 <= p < order.len() && 0 <= q < order.len()
            && p != q implies order[p]
            != order[q] by {
            let (i, k) = lemma_order_from(blocks, blocks.len(), p);
            let (j, l) = lemma_order_from(blocks, blocks.len(), q);
            assert(ids_of(b.blocks[i])[k] == order[p]);
            assert(ids_of(b.blocks[j])[l] == order[q]);
        }
        assert(order.no_duplicates());
        lemma_few(order, b.insts.len());
        law_linear_is_in_print_order(blocks, b.insts);
    }
}

/// A list of different numbers below a bound is no longer than it.
proof fn lemma_few(order: Seq<InstId>, n: nat)
    requires
        order.no_duplicates(),
        forall|p: int| 0 <= p < order.len() ==> (#[trigger] order[p].0 as int) < n,
    ensures
        order.len() <= n,
{
    let s = order.map_values(|i: InstId| i.0 as int);
    assert(s.no_duplicates()) by {
        assert forall|p: int, q: int| 0 <= p < s.len() && 0 <= q < s.len() && p != q implies s[p]
            != s[q] by {
            assert(order[p] != order[q]);
        }
    }
    s.unique_seq_to_set();
    let all = set_int_range(0, n as int);
    lemma_int_range(0, n as int);
    assert(s.to_set().subset_of(all)) by {
        assert forall|x: int| s.to_set().contains(x) implies all.contains(x) by {
            let p = choose|p: int| 0 <= p < s.len() && s[p] == x;
            assert((order[p].0 as int) < n);
        }
    }
    lemma_len_subset(s.to_set(), all);
}

// ---- laws ----------------------------------------------------------------------------------

proof fn lemma_places(order: Seq<InstId>, size: nat)
    requires
        order.len() <= 0xFFFF_FFFF,
        order.no_duplicates(),
    ensures
        places(order, size).len() == size,
        forall|k: int|
            0 <= k < order.len() && (#[trigger] order[k]).0 < size ==> places(
                order,
                size,
            )[order[k].0 as int] == k,
    decreases order.len(),
{
    if order.len() > 0 {
        let front = order.drop_last();
        assert(front.no_duplicates());
        lemma_places(front, size);
        reveal(low_u32);
        assert forall|k: int| 0 <= k < order.len() && (#[trigger] order[k]).0 < size implies places(
            order,
            size,
        )[order[k].0 as int] == k by {
            if k < front.len() {
                assert(order[k] == front[k]);
                assert(order[k] != order[order.len() - 1]);
            }
        }
    }
}

/// Each instruction is found at its new number: what stood in the order at place `k` has number
/// `k`, and it is the old instruction with its operands renumbered the same way.
pub proof fn law_linear_keeps_instructions(blocks: Seq<BlockV>, insts: Seq<InstV>, k: int)
    requires
        print_order(blocks, blocks.len()).no_duplicates(),
        print_order(blocks, blocks.len()).len() <= 0xFFFF_FFFF,
        0 <= k < print_order(blocks, blocks.len()).len(),
        (print_order(blocks, blocks.len())[k].0 as int) < insts.len(),
    ensures
        ({
            let order = print_order(blocks, blocks.len());
            let m = places(order, insts.len());
            let old = insts[order[k].0 as int];
            &&& place_of(order[k], m) == InstId(k as u32)
            &&& linear(blocks, insts).1[k] == (InstV { ty: old.ty, op: renamed_op(old.op, m) })
        }),
{
    lemma_places(print_order(blocks, blocks.len()), insts.len());
}

proof fn lemma_print_order_mapped(blocks: Seq<BlockV>, m: Seq<u32>, n: nat)
    requires
        n <= blocks.len(),
    ensures
        ({
            let f = |b: BlockV|
                BlockV {
                    insts: b.insts.map_values(|id: InstId| place_of(id, m)),
                    term: renamed_term(b.term, m),
                };
            print_order(blocks.map_values(f), n) == print_order(blocks, n).map_values(
                |id: InstId| place_of(id, m),
            )
        }),
    decreases n,
{
    let f = |b: BlockV|
        BlockV {
            insts: b.insts.map_values(|id: InstId| place_of(id, m)),
            term: renamed_term(b.term, m),
        };
    let g = |id: InstId| place_of(id, m);
    if n > 0 {
        lemma_print_order_mapped(blocks, m, (n - 1) as nat);
        assert(print_order(blocks.map_values(f), n) =~= print_order(blocks, n).map_values(g));
    } else {
        assert(print_order(blocks.map_values(f), n) =~= print_order(blocks, n).map_values(g));
    }
}

/// After linearizing, the instructions of the blocks are numbered 0, 1, 2, ... in print order.
pub proof fn law_linear_is_in_print_order(blocks: Seq<BlockV>, insts: Seq<InstV>)
    requires
        print_order(blocks, blocks.len()).no_duplicates(),
        print_order(blocks, blocks.len()).len() <= 0xFFFF_FFFF,
        forall|k: int|
            0 <= k < print_order(blocks, blocks.len()).len() ==> (#[trigger] print_order(
                blocks,
                blocks.len(),
            )[k].0 as int) < insts.len(),
    ensures
        ({
            let (bs, is) = linear(blocks, insts);
            print_order(bs, bs.len()) == Seq::new(is.len(), |k: int| InstId(k as u32))
        }),
{
    let order = print_order(blocks, blocks.len());
    let m = places(order, insts.len());
    lemma_places(order, insts.len());
    lemma_print_order_mapped(blocks, m, blocks.len());
    let (bs, is) = linear(blocks, insts);
    assert(bs.len() == blocks.len());
    assert(print_order(bs, bs.len()) =~= Seq::new(is.len(), |k: int| InstId(k as u32)));
}

} // verus!
