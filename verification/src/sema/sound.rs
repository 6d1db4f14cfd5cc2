//! Functions whose instructions use what has been made, and whose branches go to blocks that
//! there are.

use vstd::prelude::*;

use crate::bir::{BlockId, FunctionV, InstId, InstV, OpV, TermV, Ty, ValRef};
use crate::bits::low_u32;
use crate::sema::builder::{
    add_block, at_block, built, close_block, empty_build, finished, moved, next_block, next_val,
    places, print_order, put_inst, renamed_op, renamed_term, BuildV, DraftV,
};

verus! {

/// Whether a value is one of `np` parameters or of the first `n` instructions.
pub open spec fn made(np: nat, n: nat, v: ValRef) -> bool {
    match v {
        ValRef::Param(i) => i < np,
        ValRef::Val(id) => id.0 < n,
    }
}

pub open spec fn all_made(np: nat, n: nat, vals: Seq<ValRef>) -> bool {
    forall|i: int| 0 <= i < vals.len() ==> made(np, n, #[trigger] vals[i])
}

pub open spec fn edges_made(np: nat, n: nat, nb: nat, edges: Seq<(BlockId, ValRef)>) -> bool {
    forall|i: int|
        0 <= i < edges.len() ==> (#[trigger] edges[i]).0.0 < nb && made(np, n, edges[i].1)
}

/// Whether the operands of an operation are parameters or of the first `n` instructions, and the
/// blocks that a phi names are of the first `nb`.
pub open spec fn op_made(np: nat, n: nat, nb: nat, op: OpV) -> bool {
    match op {
        OpV::Bin(_, x, y) | OpV::ICmp(_, _, x, y) | OpV::FCmp(_, _, x, y) => made(np, n, x)
            && made(np, n, y),
        OpV::Shuffle(_, x, y) => made(np, n, x) && made(np, n, y),
        OpV::Select(c, x, y) => made(np, n, c) && made(np, n, x) && made(np, n, y),
        OpV::Cast(_, _, x) => made(np, n, x),
        OpV::Load { ptr, .. } => made(np, n, ptr),
        OpV::Store { ptr, val, .. } => made(np, n, ptr) && made(np, n, val),
        OpV::Phi(edges) => edges_made(np, n, nb, edges),
        OpV::Ballot(x) | OpV::VoteAny(x) | OpV::VoteAll(x) => made(np, n, x),
        OpV::Atomic(_, p, v, _) => made(np, n, p) && made(np, n, v),
        OpV::AtomicCas(p, c, v, _) => made(np, n, p) && made(np, n, c) && made(np, n, v),
        OpV::Mma { a, b, c, d, .. } => made(np, n, a) && made(np, n, b) && made(np, n, c) && made(
            np,
            n,
            d,
        ),
        OpV::Call { args, .. } => all_made(np, n, args),
        OpV::KernelLaunch { grid, block, shared, stream, args, .. } => {
            &&& all_made(np, n, grid)
            &&& all_made(np, n, block)
            &&& made(np, n, shared)
            &&& made(np, n, stream)
            &&& all_made(np, n, args)
        },
        OpV::CudaMalloc { size } => made(np, n, size),
        OpV::CudaMemcpy { dst, src, count, kind } => made(np, n, dst) && made(np, n, src) && made(
            np,
            n,
            count,
        ) && made(np, n, kind),
        OpV::CudaFree { ptr } => made(np, n, ptr),
        _ => true,
    }
}

pub open spec fn cases_in(nb: nat, cases: Seq<(i64, BlockId)>) -> bool {
    forall|i: int| 0 <= i < cases.len() ==> (#[trigger] cases[i]).1.0 < nb
}

/// Whether what a terminator uses is a parameter or of the first `n` instructions, and where it
/// goes is one of the first `nb` blocks.
pub open spec fn term_made(np: nat, n: nat, nb: nat, term: TermV) -> bool {
    match term {
        TermV::Br(b) => b.0 < nb,
        TermV::CondBr(c, x, y) => made(np, n, c) && x.0 < nb && y.0 < nb,
        TermV::Switch(v, d, cases) => made(np, n, v) && d.0 < nb && cases_in(nb, cases),
        TermV::Ret(Some(v)) => made(np, n, v),
        TermV::Ret(None) => true,
    }
}

/// Whether every instruction that has been made uses parameters and instructions made before it,
/// every block that was closed goes to blocks that there are, and the current block is one.
#[verifier::opaque]
pub open spec fn sound(np: nat, b: BuildV) -> bool {
    &&& b.cur.0 < b.blocks.len()
    &&& forall|i: int|
        0 <= i < b.insts.len() ==> op_made(
            np,
            i as nat,
            b.blocks.len(),
            (#[trigger] b.insts[i]).op,
        )
    &&& forall|i: int|
        0 <= i < b.blocks.len() ==> ((#[trigger] b.blocks[i]).done matches Some(d) ==> term_made(
            np,
            b.insts.len(),
            b.blocks.len(),
            d.term,
        ))
}

pub broadcast proof fn lemma_sound_here(np: nat, b: BuildV)
    requires
        #[trigger] sound(np, b),
    ensures
        b.cur.0 < b.blocks.len(),
{
    reveal(sound);
}

pub broadcast proof fn lemma_sound_put(np: nat, b: BuildV, ty: Ty, op: OpV)
    requires
        sound(np, b),
        op_made(np, b.insts.len(), b.blocks.len(), op),
    ensures
        #[trigger] sound(np, put_inst(b, ty, op)),
{
    reveal(sound);
    let c = put_inst(b, ty, op);
    assert forall|i: int| 0 <= i < c.insts.len() implies op_made(
        np,
        i as nat,
        c.blocks.len(),
        (#[trigger] c.insts[i]).op,
    ) by {
        if i < b.insts.len() {
            assert(c.insts[i] == b.insts[i]);
        }
    }
    assert forall|i: int| 0 <= i < c.blocks.len() implies ((#[trigger] c.blocks[i]).done matches Some(
        d,
    ) ==> term_made(np, c.insts.len(), c.blocks.len(), d.term)) by {
        assert(c.blocks[i].done == b.blocks[i].done);
    }
}

pub broadcast proof fn lemma_sound_close(np: nat, b: BuildV, term: TermV)
    requires
        sound(np, b),
        term_made(np, b.insts.len(), b.blocks.len(), term),
    ensures
        #[trigger] sound(np, close_block(b, term)),
{
    reveal(sound);
    let c = close_block(b, term);
    assert forall|i: int| 0 <= i < c.blocks.len() implies ((#[trigger] c.blocks[i]).done matches Some(
        d,
    ) ==> term_made(np, c.insts.len(), c.blocks.len(), d.term)) by {
        if i != b.cur.0 {
            assert(c.blocks[i] == b.blocks[i]);
        }
    }
}

pub broadcast proof fn lemma_sound_add(np: nat, b: BuildV)
    requires
        sound(np, b),
    ensures
        #[trigger] sound(np, add_block(b)),
{
    reveal(sound);
    let c = add_block(b);
    assert forall|i: int| 0 <= i < c.insts.len() implies op_made(
        np,
        i as nat,
        c.blocks.len(),
        (#[trigger] c.insts[i]).op,
    ) by {
        assert(op_made(np, i as nat, b.blocks.len(), b.insts[i].op));
    }
    assert forall|i: int| 0 <= i < c.blocks.len() implies ((#[trigger] c.blocks[i]).done matches Some(
        d,
    ) ==> term_made(np, c.insts.len(), c.blocks.len(), d.term)) by {
        if i < b.blocks.len() {
            assert(c.blocks[i] == b.blocks[i]);
        }
    }
}

pub broadcast proof fn lemma_sound_at(np: nat, b: BuildV, cur: BlockId)
    requires
        sound(np, b),
        cur.0 < b.blocks.len(),
    ensures
        #[trigger] sound(np, at_block(b, cur)),
{
    reveal(sound);
}

/// A function that has its first block and nothing in it.
pub proof fn lemma_sound_start(np: nat)
    ensures
        ({
            let b = add_block(empty_build());
            sound(np, at_block(b, next_block(empty_build())))
        }),
{
    reveal(sound);
    reveal(low_u32);
}

pub broadcast proof fn lemma_new_value(b: BuildV)
    ensures
        (#[trigger] next_val(b)) matches ValRef::Val(id) && id.0 <= b.insts.len(),
{
    reveal(low_u32);
}

pub broadcast proof fn lemma_new_block(b: BuildV)
    ensures
        (#[trigger] next_block(b)).0 <= b.blocks.len(),
{
    reveal(low_u32);
}

/// Whether every number of a list is that of one of the first `nb` blocks.
pub open spec fn blocks_in(nb: nat, bbs: Seq<BlockId>) -> bool {
    forall|i: int| 0 <= i < bbs.len() ==> (#[trigger] bbs[i]).0 < nb
}

pub broadcast group group_sound {
    lemma_sound_here,
    lemma_sound_put,
    lemma_sound_close,
    lemma_sound_add,
    lemma_sound_at,
    lemma_new_value,
    lemma_new_block,
}

// ---- built functions -----------------------------------------------------------------------

/// Whether a function is what was built by sound steps.
pub open spec fn from_sound(f: FunctionV) -> bool {
    exists|b: BuildV| #[trigger] built(b) == (f.blocks, f.insts) && sound(f.params.len(), b)
}

/// How many numbers of values a function has: a value of one without instructions has number 0.
pub open spec fn value_count(insts: Seq<InstV>) -> nat {
    if insts.len() == 0 {
        1
    } else {
        insts.len()
    }
}

/// Whether operands and branches stay inside a function.
pub open spec fn joined_up(f: FunctionV) -> bool {
    let np = f.params.len();
    let nb = f.blocks.len();
    &&& forall|i: int|
        0 <= i < f.insts.len() ==> op_made(np, f.insts.len(), nb, (#[trigger] f.insts[i]).op)
    &&& forall|i: int|
        0 <= i < f.blocks.len() ==> term_made(
            np,
            value_count(f.insts),
            nb,
            (#[trigger] f.blocks[i]).term,
        )
}

/// Whether every new number is below a bound.
spec fn bounded(m: Seq<u32>, n: nat) -> bool {
    forall|j: int| 0 <= j < m.len() ==> #[trigger] m[j] < n
}

proof fn lemma_places_bounded(order: Seq<InstId>, size: nat, n: nat)
    requires
        order.len() <= n,
        n > 0,
    ensures
        bounded(places(order, size), n),
        places(order, size).len() == size,
    decreases order.len(),
{
    reveal(low_u32);
    if order.len() > 0 {
        lemma_places_bounded(order.drop_last(), size, n);
    }
}

proof fn lemma_renamed_op(np: nat, n: nat, nb: nat, k: nat, m: Seq<u32>, op: OpV)
    requires
        bounded(m, n),
        n > 0,
        op_made(np, k, nb, op),
    ensures
        op_made(np, n, nb, renamed_op(op, m)),
{
}

proof fn lemma_renamed_term(np: nat, n: nat, nb: nat, k: nat, m: Seq<u32>, term: TermV)
    requires
        bounded(m, n),
        n > 0,
        term_made(np, k, nb, term),
    ensures
        term_made(np, n, nb, renamed_term(term, m)),
{
}

/// A function that was built by sound steps is joined up.
pub proof fn law_sound_is_joined_up(f: FunctionV)
    requires
        from_sound(f),
    ensures
        joined_up(f),
{
    reveal(sound);
    let np = f.params.len();
    let b = choose|b: BuildV| #[trigger] built(b) == (f.blocks, f.insts) && sound(np, b);
    let nb = b.blocks.len();
    let blocks = b.blocks.map_values(|d: DraftV| finished(d));
    let order = print_order(blocks, blocks.len());
    let m = places(order, b.insts.len());
    let n = value_count(f.insts);
    assert(f.insts.len() == order.len());
    lemma_places_bounded(order, b.insts.len(), n);
    assert forall|i: int| 0 <= i < f.insts.len() implies op_made(
        np,
        f.insts.len(),
        nb,
        (#[trigger] f.insts[i]).op,
    ) by {
        let id = order[i];
        assert(f.insts[i] == moved(b.insts, id, m));
        if (id.0 as int) < b.insts.len() {
            let old_inst = b.insts[id.0 as int];
            lemma_renamed_op(np, n, nb, id.0 as nat, m, old_inst.op);
        }
    }
    assert forall|i: int| 0 <= i < f.blocks.len() implies term_made(
        np,
        n,
        nb,
        (#[trigger] f.blocks[i]).term,
    ) by {
        assert(f.blocks[i].term == renamed_term(finished(b.blocks[i]).term, m));
        lemma_renamed_term(np, n, nb, b.insts.len(), m, finished(b.blocks[i]).term);
    }
}

} // verus!
