//! Lists that only grow at their end, and stacks that change only at their top.

use vstd::prelude::*;

verus! {

/// Whether a list goes on from another.
#[verifier::opaque]
pub open spec fn extends<T>(a: Seq<T>, b: Seq<T>) -> bool {
    a.len() <= b.len() && b.take(a.len() as int) == a
}

/// Whether two stacks differ in nothing but their top.
#[verifier::opaque]
pub open spec fn nested<T>(a: Seq<T>, b: Seq<T>) -> bool {
    a.len() > 0 && b.len() == a.len() && b.drop_last() == a.drop_last()
}

pub broadcast proof fn lemma_extends_itself<T>(a: Seq<T>)
    ensures
        #[trigger] extends(a, a),
{
    reveal(extends);
    assert(a.take(a.len() as int) =~= a);
}

pub broadcast proof fn lemma_extends_push<T>(a: Seq<T>, b: Seq<T>, d: T)
    requires
        extends(a, b),
    ensures
        #[trigger] extends(a, b.push(d)),
{
    reveal(extends);
    assert(b.push(d).take(a.len() as int) =~= b.take(a.len() as int));
}

pub broadcast proof fn lemma_extends_on<T>(a: Seq<T>, b: Seq<T>, c: Seq<T>)
    requires
        #[trigger] extends(a, b),
        #[trigger] extends(b, c),
    ensures
        extends(a, c),
{
    reveal(extends);
    assert(c.take(a.len() as int) =~= c.take(b.len() as int).take(a.len() as int));
}

pub broadcast proof fn lemma_nested_itself<T>(a: Seq<T>)
    requires
        a.len() > 0,
    ensures
        #[trigger] nested(a, a),
{
    reveal(nested);
}

pub broadcast proof fn lemma_nested_depth<T>(a: Seq<T>, b: Seq<T>)
    requires
        #[trigger] nested(a, b),
    ensures
        a.len() > 0,
        b.len() == a.len(),
{
    reveal(nested);
}

pub broadcast proof fn lemma_nested_on<T>(a: Seq<T>, b: Seq<T>, c: Seq<T>)
    requires
        #[trigger] nested(a, b),
        #[trigger] nested(b, c),
    ensures
        nested(a, c),
{
    reveal(nested);
}

pub broadcast proof fn lemma_nested_top<T>(a: Seq<T>, top: T)
    requires
        a.len() > 0,
    ensures
        nested(a, #[trigger] a.drop_last().push(top)),
{
    reveal(nested);
    assert(a.drop_last().push(top).drop_last() =~= a.drop_last());
}

/// What was pushed and taken off again has left nothing.
pub broadcast proof fn lemma_nested_closed<T>(a: Seq<T>, s: T, b: Seq<T>)
    requires
        #[trigger] nested(a.push(s), b),
    ensures
        b.drop_last() == a,
{
    reveal(nested);
    assert(a.push(s).drop_last() =~= a);
}

pub broadcast proof fn lemma_pushed_and_dropped<T>(a: Seq<T>, s: T)
    ensures
        (#[trigger] a.push(s)).drop_last() == a,
{
    assert(a.push(s).drop_last() =~= a);
}

pub broadcast group group_grow {
    lemma_extends_itself,
    lemma_extends_push,
    lemma_extends_on,
    lemma_nested_itself,
    lemma_nested_depth,
    lemma_nested_on,
    lemma_nested_top,
    lemma_nested_closed,
    lemma_pushed_and_dropped,
}

} // verus!
