//! What the statements of Triton do: which value goes to which cell or address, and on what
//! condition.

use vstd::prelude::*;

use crate::bir::{AddrSpace, BlockId, InstV, OpV, Scalar, TermV, Ty as BTy, ValRef};
use crate::bits::low_u32;
use crate::sema::triton_ast::{Expr, Stmt};
use crate::sema::triton_flow::in_bounds;
use crate::sema::triton_lower::{
    alloc_block_s, apply_binop_s, elem_in, eval_expr_s, get_or_new_scalar_var_s, load_scalar_s,
    lower_assign_s, lower_augassign_s, lower_if_s, lower_stmt_s, lower_stmts_s, set_cur_s, shape_in,
    store_element_s, store_names_s, store_scalar_s, target_names, terminate_s, var_of, Storage,
    TlState, VarV,
};
use crate::sema::triton_meaning::element_bytes;

verus! {

/// Control is handed on from what was built last: the current block is left by `term` with what it
/// holds, `new` empty blocks are added, nothing else is touched, and what is built next goes to
/// `to`.
pub open spec fn handed(a: TlState, b: TlState, term: TermV, to: BlockId, new: nat) -> bool {
    let c = a.b.cur.0 as int;
    &&& b.b.insts == a.b.insts
    &&& b.b.blocks.len() == a.b.blocks.len() + new
    &&& forall|i: int| 0 <= i < a.b.blocks.len() && i != c ==> b.b.blocks[i] == #[trigger] a.b.blocks[i]
    &&& c < a.b.blocks.len() ==> b.b.blocks[c].done is Some && b.b.blocks[c].done->0.term == term
        && b.b.blocks[c].done->0.insts == a.b.blocks[c].pending && b.b.blocks[c].pending.len() == 0
    &&& b.b.cur == to
    &&& b.diags == a.diags
    &&& b.vars == a.vars
}

/// A name for the state between two parts of a statement.
pub open spec fn between(a: TlState) -> bool {
    true
}

/// `if`: where the test holds control goes to the body, and else to the other branch; both go on to
/// one block, where what follows is built.
pub proof fn law_if(st: TlState, s: Stmt)
    requires
        s matches Stmt::If { test, .. } && shape_in(st, test) is Scalar && eval_expr_s(
            st,
            test,
            Seq::empty(),
        ).0.b.blocks.len() + 4 <= 0xffff_ffff,
    ensures
        s matches Stmt::If { test, body, orelse, .. } && ({
            let (s1, c) = eval_expr_s(st, test, Seq::empty());
            let k = s1.b.blocks.len() as int;
            let (yes, no) = (BlockId(k as u32), BlockId((k + 1) as u32));
            let out = BlockId((k + 2) as u32);
            exists|t: TlState, e: TlState| #[trigger]
                between(t) && #[trigger] between(e) && handed(
                    s1,
                    t,
                    TermV::CondBr(c, yes, no),
                    yes,
                    3,
                ) && handed(
                    lower_stmts_s(t, body@, body@.len()),
                    e,
                    TermV::Br(out),
                    no,
                    0,
                ) && handed(
                    lower_stmts_s(e, orelse@, orelse@.len()),
                    lower_stmt_s(st, s),
                    TermV::Br(out),
                    out,
                    0,
                )
        }),
{
    match s {
        Stmt::If { test, body, orelse, .. } => {
            reveal(low_u32);
            let (s1, c) = eval_expr_s(st, test, Seq::empty());
            let k = s1.b.blocks.len() as int;
            let (yes, no) = (BlockId(k as u32), BlockId((k + 1) as u32));
            let out = BlockId((k + 2) as u32);
            let s2 = alloc_block_s(alloc_block_s(alloc_block_s(s1).0).0).0;
            let t = set_cur_s(terminate_s(s2, TermV::CondBr(c, yes, no)), yes);
            let e = set_cur_s(
                terminate_s(lower_stmts_s(t, body@, body@.len()), TermV::Br(out)),
                no,
            );
            assert(lower_stmt_s(st, s) == lower_if_s(st, s));
            assert(lower_if_s(st, s) == set_cur_s(
                terminate_s(lower_stmts_s(e, orelse@, orelse@.len()), TermV::Br(out)),
                out,
            ));
            assert(handed(s1, t, TermV::CondBr(c, yes, no), yes, 3));
            assert(between(t) && between(e));
        },
        _ => {},
    }
}

/// An augmented assignment to a scalar reads its cell, evaluates the value, applies the operator to
/// both in that order, and writes the result to the cell.
pub proof fn law_augmented_assignment(st: TlState, s: Stmt, cell: VarV)
    requires
        s matches Stmt::AugAssign { target, .. } && (target matches Expr::Name { name, .. }
            && var_of(st, name@) == Some(cell) && cell.shape is Scalar),
    ensures
        s matches Stmt::AugAssign { op, value, span, .. } && ({
            let (s1, old) = load_scalar_s(st, cell);
            let (s2, v) = eval_expr_s(s1, value, Seq::empty());
            let (s3, new) = apply_binop_s(s2, op, old, v, cell.elem_bty, span);
            lower_stmt_s(st, s) == store_scalar_s(s3, cell, new)
        }),
{
    reveal(lower_augassign_s);
}

/// An assignment of a scalar to a name evaluates the value and writes it to the cell of the name,
/// which has the type of the value from then on.
pub proof fn law_scalar_assignment(st: TlState, s: Stmt)
    requires
        s matches Stmt::Assign { targets, value, .. } && targets@.len() == 1 && targets@[0] is Name
            && shape_in(st, value) is Scalar && !(value is Call),
    ensures
        s matches Stmt::Assign { targets, value, .. } && ({
            let name = targets@[0]->Name_name@;
            let (s1, v) = eval_expr_s(st, value, Seq::empty());
            let (s2, cell) = get_or_new_scalar_var_s(s1, name, elem_in(st, value));
            &&& lower_stmt_s(st, s) == store_scalar_s(s2, cell, v)
            &&& s2.vars.contains_key(name)
            &&& s2.vars[name] == cell
            &&& cell.elem_bty == elem_in(st, value)
            &&& cell.shape is Scalar
            &&& s1.vars.contains_key(name) && s1.vars[name].shape is Scalar ==> cell.storage
                == s1.vars[name].storage && s2.next_slot == s1.next_slot
            &&& !s1.vars.contains_key(name) ==> cell.storage == (Storage::Synthetic {
                slot: s1.next_slot,
                space: AddrSpace::Local,
            }) && s2.next_slot == s1.next_slot.wrapping_add(1)
        }),
{
    reveal(lower_assign_s);
    reveal(get_or_new_scalar_var_s);
    reveal_with_fuel(target_names, 3);
    reveal_with_fuel(store_names_s, 3);
    match s {
        Stmt::Assign { targets, value, span } => {
            let name = targets@[0]->Name_name@;
            assert(target_names(targets@, 1) == Some(Seq::<Seq<char>>::empty().push(name)));
        },
        _ => {},
    }
}

/// The instruction that writes an element of a type to an address.
pub open spec fn puts(i: InstV, at: ValRef, v: ValRef, of: BTy) -> bool {
    i.op matches OpV::Store { ptr, val, ty, space, align, volatile } && ptr == at && val == v && ty
        == of && space == AddrSpace::Global && align == element_bytes(of) && !volatile
}

/// An element is written to its address: always where there is no mask, and else where the mask
/// holds and nowhere else; what follows is built where both ways meet.
pub proof fn law_stored_element(
    st: TlState,
    at: ValRef,
    v: ValRef,
    of: BTy,
    mask: Option<ValRef>,
)
    requires
        in_bounds(st, 3, 1),
    ensures
        ({
            let n = st.b.insts.len() as int;
            let k = st.b.blocks.len() as int;
            let end = store_element_s(st, at, v, of, mask);
            let (yes, no) = (BlockId(k as u32), BlockId((k + 1) as u32));
            let out = BlockId((k + 2) as u32);
            &&& end.b.insts.len() == n + 1
            &&& end.b.insts.take(n) == st.b.insts
            &&& puts(end.b.insts[n], at, v, of)
            &&& mask is None ==> end.b.cur == st.b.cur && end.b.blocks[st.b.cur.0 as int].pending
                == st.b.blocks[st.b.cur.0 as int].pending.push(crate::bir::InstId(n as u32))
            &&& mask matches Some(m) ==> {
                &&& end.b.cur == out
                &&& end.b.blocks[st.b.cur.0 as int].done is Some
                &&& end.b.blocks[st.b.cur.0 as int].done->0.term == TermV::CondBr(m, yes, no)
                &&& end.b.blocks[k].done is Some
                &&& end.b.blocks[k].done->0.insts == seq![crate::bir::InstId(n as u32)]
                &&& end.b.blocks[k].done->0.term == TermV::Br(out)
                &&& end.b.blocks[k + 1].done is Some
                &&& end.b.blocks[k + 1].done->0.insts.len() == 0
                &&& end.b.blocks[k + 1].done->0.term == TermV::Br(out)
            }
        }),
{
    reveal(store_element_s);
    reveal(low_u32);
    let n = st.b.insts.len() as int;
    let k = st.b.blocks.len() as int;
    let end = store_element_s(st, at, v, of, mask);
    assert(end.b.insts.take(n) =~= st.b.insts);
    if mask is Some {
        assert(end.b.blocks[k].done->0.insts =~= seq![crate::bir::InstId(n as u32)]);
    }
}

} // verus!
