//! Building that touches only the current block and blocks that it makes itself.

use vstd::prelude::*;

use crate::bir::{BlockId, OpV, TermV, Ty};
use crate::bits::low_u32;
use crate::sema::builder::{add_block, at_block, close_block, next_block, put_inst, BuildV};
use crate::sema::grow::{extends, group_grow};

verus! {

/// Whether a function was built on by instructions of the current block and of new ones: every
/// instruction and every other block is as it was, and the current block is the same or a new one.
/// Beyond 2^32 blocks their numbers repeat, and nothing is said of them.
#[verifier::opaque]
pub open spec fn local(a: BuildV, b: BuildV) -> bool {
    &&& extends(a.insts, b.insts)
    &&& a.blocks.len() <= b.blocks.len()
    &&& b.blocks.len() <= 0xFFFF_FFFF ==> {
        &&& b.cur == a.cur || a.blocks.len() <= b.cur.0 < b.blocks.len()
        &&& forall|i: int|
            0 <= i < a.blocks.len() && i != a.cur.0 ==> #[trigger] b.blocks[i] == a.blocks[i]
    }
}

pub broadcast proof fn lemma_local_itself(a: BuildV)
    ensures
        #[trigger] local(a, a),
{
    broadcast use group_grow;

    reveal(local);
}

pub broadcast proof fn lemma_local_on(a: BuildV, b: BuildV, c: BuildV)
    requires
        #[trigger] local(a, b),
        #[trigger] local(b, c),
    ensures
        local(a, c),
{
    broadcast use group_grow;

    reveal(local);
    assert forall|i: int|
        c.blocks.len() <= 0xFFFF_FFFF && 0 <= i < a.blocks.len() && i != a.cur.0 implies #[trigger] c.blocks[i]
        == a.blocks[i] by {
        assert(b.blocks[i] == a.blocks[i]);
    }
}

pub broadcast proof fn lemma_local_count(a: BuildV, b: BuildV)
    requires
        #[trigger] local(a, b),
    ensures
        a.blocks.len() <= b.blocks.len(),
        b.blocks.len() <= 0xFFFF_FFFF ==> b.cur == a.cur || a.blocks.len() <= b.cur.0
            < b.blocks.len(),
{
    broadcast use group_grow;

    reveal(local);
}

pub broadcast proof fn lemma_local_put(a: BuildV, b: BuildV, ty: Ty, op: OpV)
    requires
        local(a, b),
    ensures
        #[trigger] local(a, put_inst(b, ty, op)),
{
    broadcast use group_grow;

    reveal(local);
}

pub broadcast proof fn lemma_local_close(a: BuildV, b: BuildV, term: TermV)
    requires
        local(a, b),
    ensures
        #[trigger] local(a, close_block(b, term)),
{
    broadcast use group_grow;

    reveal(local);
}

pub broadcast proof fn lemma_local_add(a: BuildV, b: BuildV)
    requires
        local(a, b),
    ensures
        #[trigger] local(a, add_block(b)),
{
    broadcast use group_grow;

    reveal(local);
}

pub broadcast proof fn lemma_local_at(a: BuildV, b: BuildV, cur: BlockId)
    requires
        local(a, b),
        b.blocks.len() <= 0xFFFF_FFFF ==> cur == a.cur || a.blocks.len() <= cur.0
            < b.blocks.len(),
    ensures
        #[trigger] local(a, at_block(b, cur)),
{
    broadcast use group_grow;

    reveal(local);
}

pub broadcast proof fn lemma_next_block(b: BuildV)
    ensures
        b.blocks.len() <= 0xFFFF_FFFF ==> (#[trigger] next_block(b)).0 == b.blocks.len(),
{
    reveal(low_u32);
}

pub broadcast group group_local {
    lemma_local_itself,
    lemma_local_on,
    lemma_local_count,
    lemma_local_put,
    lemma_local_close,
    lemma_local_add,
    lemma_local_at,
    lemma_next_block,
}

} // verus!
