//! The parameters of Triton kernels, and the sums of a matrix product.

use vstd::prelude::*;

use crate::bir::{AddrSpace, BinOp as BBin, OpV, Scalar, Ty as BTy, ValRef};
use crate::bits::low_u32;
use crate::diag::Span;
use crate::sema::triton_ast::{attr_of, spec_is_keyword, Expr, KernelFn, Keyword, Stmt};
use crate::sema::triton_flow::{cell_of, reads, value_at, writes};
use crate::sema::triton_lower::{
    addresses_in, addresses_of, addresses_of_all, close_tile_loop_s, dot_sum_s, eval_expr_s,
    literal_of, load_scalar_s, new_slot_id_s, open_tile_loop_s, pointer_name, reached_in,
    scalar_var, seed_params_s, store_scalar_s, synthetic_addr_s, zeros_ty, TlState,
};
use crate::sema::triton_ty::{DimV, Elem};

verus! {

// ---- parameters ----------------------------------------------------------------------------

/// Whether a parameter is a constant of the kernel: `constexpr`, with a literal as its default.
pub open spec fn built_in(k: KernelFn, i: int) -> bool {
    let p = k.params@[i];
    p.is_constexpr && (p.default matches Some(d) && literal_of(d) is Some)
}

/// A constant of the kernel is not passed; every other parameter is passed behind those before it,
/// a pointer as an address and anything else as an integer of 64 bits. Tiles live behind the last
/// pointer.
pub proof fn law_parameters_are_passed(st: TlState, k: KernelFn, n: nat)
    requires
        0 < n <= k.params@.len(),
        seed_params_s(st, k, (n - 1) as nat).1.params.len() < 0x1_0000_0000,
    ensures
        ({
            let (before, p) = seed_params_s(st, k, (n - 1) as nat);
            let (end, q) = seed_params_s(st, k, n);
            let name = k.params@[n - 1].name@;
            let is_pointer = !k.params@[n - 1].is_constexpr && pointer_name(k, name);
            &&& end.vars.contains_key(name)
            &&& end.vars[name].shape is Scalar
            &&& built_in(k, n - 1) ==> {
                &&& q.params == p.params
                &&& q.stores == p.stores
                &&& end.scratch == before.scratch
                &&& q.inits.len() == p.inits.len() + 1
                &&& Some(q.inits.last().1) == literal_of(k.params@[n - 1].default->0)
                &&& q.inits.last().0 == end.vars[name]
            }
            &&& !built_in(k, n - 1) ==> {
                &&& q.inits == p.inits
                &&& q.params.len() == p.params.len() + 1
                &&& q.params.drop_last() == p.params
                &&& q.params.last() == (if is_pointer {
                    BTy::Ptr(AddrSpace::Global)
                } else {
                    BTy::Scalar(Scalar::I64)
                })
                &&& end.vars[name].elem_bty == q.params.last()
                &&& q.stores.last() == (end.vars[name], p.params.len() as u32)
                &&& end.scratch == (if is_pointer {
                    Some(p.params.len() as u32)
                } else {
                    before.scratch
                })
            }
        }),
{
    reveal(low_u32);
    let (before, p) = seed_params_s(st, k, (n - 1) as nat);
    let (end, q) = seed_params_s(st, k, n);
    if !built_in(k, n - 1) {
        assert(q.params.drop_last() =~= p.params);
    }
}

/// What a name is bound to as the address of a load or store, alone, is a pointer.
pub proof fn law_addresses_are_pointers(k: KernelFn, i: int, e: Expr, name: Seq<char>)
    requires
        0 <= i < k.body@.len(),
        k.body@[i] matches Stmt::Expr { value, .. } && value == e,
        e matches Expr::Call { func, args, keywords, .. } && (attr_of(*func) == Some("load"@)
            || attr_of(*func) == Some("store"@)) && args@.len() > 0 && (args@[0] matches Expr::Name {
            name: x,
            ..
        } && x@ == name),
    ensures
        pointer_name(k, name),
{
    let direct = addresses_of_all(k.body@, k.body@.len(), Seq::empty());
    let before = addresses_of_all(k.body@, i as nat, Seq::empty());
    lemma_address_is_found(e, before, name);
    assert(addresses_of_all(k.body@, (i + 1) as nat, Seq::empty()) == addresses_of(
        k.body@[i],
        before,
    ));
    assert(addresses_of(k.body@[i], before) == addresses_in(e, before));
    lemma_addresses_stay(k.body@, (i + 1) as nat, k.body@.len(), name);
    assert(reached_in(
        direct,
        crate::sema::triton_lower::flow_of_all(k.body@, k.body@.len()),
        name,
        0,
    ));
}

proof fn lemma_grows(e: Expr, out: Seq<Seq<char>>, name: Seq<char>)
    requires
        out.contains(name),
    ensures
        crate::sema::triton_lower::names_in(e, out).contains(name),
        addresses_in(e, out).contains(name),
    decreases e, 9nat,
{
    match e {
        Expr::Name { name: x, .. } => {
            lemma_push_keeps(out, x@, name);
        },
        Expr::BinOp { lhs, rhs, .. } => {
            lemma_grows(*lhs, out, name);
            lemma_grows(*rhs, crate::sema::triton_lower::names_in(*lhs, out), name);
            lemma_grows(*rhs, addresses_in(*lhs, out), name);
        },
        Expr::UnaryOp { operand, .. } => lemma_grows(*operand, out, name),
        Expr::Subscript { value, .. } => lemma_grows(*value, out, name),
        Expr::Call { func, args, keywords, .. } => {
            lemma_grows_all(args@, args@.len(), out, name);
            let first = if (attr_of(*func) == Some("load"@) || attr_of(*func) == Some("store"@))
                && args@.len() > 0 {
                lemma_grows(args@[0], out, name);
                crate::sema::triton_lower::names_in(args@[0], out)
            } else {
                out
            };
            lemma_grows_all(args@, args@.len(), first, name);
            let second = crate::sema::triton_lower::addresses_in_all(args@, args@.len(), first);
            lemma_grows_keywords(keywords@, keywords@.len(), second, name);
        },
        Expr::Compare { left, comparators, .. } => {
            lemma_grows(*left, out, name);
            lemma_grows_all(comparators@, comparators@.len(), addresses_in(*left, out), name);
        },
        Expr::Ternary { test, body, orelse, .. } => {
            lemma_grows(*test, out, name);
            let a = addresses_in(*test, out);
            lemma_grows(*body, a, name);
            lemma_grows(*orelse, addresses_in(*body, a), name);
        },
        Expr::Tuple { elts, .. } | Expr::List { elts, .. } => {
            lemma_grows_all(elts@, elts@.len(), out, name);
        },
        _ => {},
    }
}

proof fn lemma_push_keeps(out: Seq<Seq<char>>, x: Seq<char>, name: Seq<char>)
    requires
        out.contains(name),
    ensures
        out.push(x).contains(name),
{
    let i = choose|i: int| 0 <= i < out.len() && out[i] == name;
    assert(out.push(x)[i] == name);
}

proof fn lemma_grows_all(es: Seq<Expr>, n: nat, out: Seq<Seq<char>>, name: Seq<char>)
    requires
        out.contains(name),
    ensures
        crate::sema::triton_lower::names_in_all(es, n, out).contains(name),
        crate::sema::triton_lower::addresses_in_all(es, n, out).contains(name),
    decreases es, n,
{
    if n > 0 && n <= es.len() {
        lemma_grows_all(es, (n - 1) as nat, out, name);
        lemma_grows(
            es[n - 1],
            crate::sema::triton_lower::names_in_all(es, (n - 1) as nat, out),
            name,
        );
        lemma_grows(
            es[n - 1],
            crate::sema::triton_lower::addresses_in_all(es, (n - 1) as nat, out),
            name,
        );
    }
}

proof fn lemma_grows_keywords(
    kws: Seq<Keyword>,
    n: nat,
    out: Seq<Seq<char>>,
    name: Seq<char>,
)
    requires
        out.contains(name),
    ensures
        crate::sema::triton_lower::addresses_in_keywords(kws, n, out).contains(name),
    decreases kws, n,
{
    if n > 0 && n <= kws.len() {
        lemma_grows_keywords(kws, (n - 1) as nat, out, name);
        lemma_grows(
            kws[n - 1].value,
            crate::sema::triton_lower::addresses_in_keywords(kws, (n - 1) as nat, out),
            name,
        );
    }
}

proof fn lemma_address_is_found(e: Expr, out: Seq<Seq<char>>, name: Seq<char>)
    requires
        e matches Expr::Call { func, args, keywords, .. } && (attr_of(*func) == Some("load"@)
            || attr_of(*func) == Some("store"@)) && args@.len() > 0 && (args@[0] matches Expr::Name {
            name: x,
            ..
        } && x@ == name),
    ensures
        addresses_in(e, out).contains(name),
{
    match e {
        Expr::Call { args, keywords, .. } => {
            let first = crate::sema::triton_lower::names_in(args@[0], out);
            assert(first == out.push(name));
            assert(first[out.len() as int] == name);
            lemma_grows_all(args@, args@.len(), first, name);
            let second = crate::sema::triton_lower::addresses_in_all(args@, args@.len(), first);
            lemma_grows_keywords(keywords@, keywords@.len(), second, name);
        },
        _ => {},
    }
}

proof fn lemma_stmt_grows(s: Stmt, out: Seq<Seq<char>>, name: Seq<char>)
    requires
        out.contains(name),
    ensures
        addresses_of(s, out).contains(name),
    decreases s, 0nat,
{
    match s {
        Stmt::Expr { value, .. } => lemma_grows(value, out, name),
        Stmt::Assign { value, .. } => lemma_grows(value, out, name),
        Stmt::AugAssign { value, .. } => lemma_grows(value, out, name),
        Stmt::AnnAssign { value, .. } => {
            match value {
                Some(v) => lemma_grows(v, out, name),
                None => {},
            }
        },
        Stmt::If { body, orelse, .. } | Stmt::For { body, orelse, .. } | Stmt::While {
            body,
            orelse,
            ..
        } => {
            lemma_stmts_grow(body@, body@.len(), out, name);
            lemma_stmts_grow(
                orelse@,
                orelse@.len(),
                addresses_of_all(body@, body@.len(), out),
                name,
            );
        },
        _ => {},
    }
}

proof fn lemma_stmts_grow(ss: Seq<Stmt>, n: nat, out: Seq<Seq<char>>, name: Seq<char>)
    requires
        out.contains(name),
    ensures
        addresses_of_all(ss, n, out).contains(name),
    decreases ss, n,
{
    if n > 0 && n <= ss.len() {
        lemma_stmts_grow(ss, (n - 1) as nat, out, name);
        lemma_stmt_grows(ss[n - 1], addresses_of_all(ss, (n - 1) as nat, out), name);
    }
}

proof fn lemma_addresses_stay(ss: Seq<Stmt>, i: nat, n: nat, name: Seq<char>)
    requires
        i <= n <= ss.len(),
        addresses_of_all(ss, i, Seq::empty()).contains(name),
    ensures
        addresses_of_all(ss, n, Seq::empty()).contains(name),
    decreases n,
{
    if i < n {
        lemma_addresses_stay(ss, i, (n - 1) as nat, name);
        lemma_stmt_grows(ss[n - 1], addresses_of_all(ss, (n - 1) as nat, Seq::empty()), name);
    }
}

// ---- matrix products -----------------------------------------------------------------------

/// One turn of the inner loop of a matrix product reads `a` at the row and the turn and `b` at the
/// turn and the column, multiplies them, and adds the product to the sum so far.
pub proof fn law_matrix_product(
    st: TlState,
    a: Expr,
    b: Expr,
    k: DimV,
    row: ValRef,
    column: ValRef,
    init: ValRef,
    span: Span,
)
    requires
        ({
            let cell = scalar_var(
                st.next_slot,
                AddrSpace::Local,
                Elem::Float,
                BTy::Scalar(Scalar::F32),
            );
            let s1 = store_scalar_s(new_slot_id_s(st).0, cell, init);
            let (s2, turns) = open_tile_loop_s(s1, seq![k], 1, span);
            let (s3, x) = eval_expr_s(s2, a, seq![row, turns.idx[0]]);
            let (s4, y) = eval_expr_s(s3, b, seq![turns.idx[0], column]);
            s4.b.insts.len() + 8 < 0xffff_ffff
        }),
    ensures
        ({
            let cell = scalar_var(
                st.next_slot,
                AddrSpace::Local,
                Elem::Float,
                BTy::Scalar(Scalar::F32),
            );
            let s1 = store_scalar_s(new_slot_id_s(st).0, cell, init);
            let (s2, turns) = open_tile_loop_s(s1, seq![k], 1, span);
            let (s3, x) = eval_expr_s(s2, a, seq![row, turns.idx[0]]);
            let (s4, y) = eval_expr_s(s3, b, seq![turns.idx[0], column]);
            exists|m: TlState| #[trigger]
                one_turn(m, s4, cell, x, y) && dot_sum_s(st, a, b, k, row, column, init, span)
                    == load_scalar_s(close_tile_loop_s(m, turns.levels, turns.levels.len()), cell)
        }),
{
    reveal(dot_sum_s);
    reveal(load_scalar_s);
    reveal(store_scalar_s);
    reveal(synthetic_addr_s);
    reveal(low_u32);
    let f = BTy::Scalar(Scalar::F32);
    let cell = scalar_var(st.next_slot, AddrSpace::Local, Elem::Float, f);
    let s1 = store_scalar_s(new_slot_id_s(st).0, cell, init);
    let (s2, turns) = open_tile_loop_s(s1, seq![k], 1, span);
    let (s3, x) = eval_expr_s(s2, a, seq![row, turns.idx[0]]);
    let (s4, y) = eval_expr_s(s3, b, seq![turns.idx[0], column]);
    let (s5, p) = crate::sema::triton_lower::push_s(s4, f, OpV::Bin(BBin::FMul, x, y));
    let (s6, old) = load_scalar_s(s5, cell);
    let (s7, new) = crate::sema::triton_lower::push_s(s6, f, OpV::Bin(BBin::FAdd, old, p));
    let m = store_scalar_s(s7, cell, new);
    assert(one_turn(m, s4, cell, x, y));
}

/// Whether a state follows another by a product of two values that was added to a cell.
pub open spec fn one_turn(
    m: TlState,
    before: TlState,
    cell: crate::sema::triton_lower::VarV,
    x: ValRef,
    y: ValRef,
) -> bool {
    let n = before.b.insts.len() as int;
    let slot = cell.storage->slot;
    let f = BTy::Scalar(Scalar::F32);
    &&& m.b.insts.len() == n + 6
    &&& m.b.insts[n].ty == f
    &&& m.b.insts[n].op == OpV::Bin(BBin::FMul, x, y)
    &&& cell_of(m.b.insts[n + 1], slot, AddrSpace::Local)
    &&& reads(m.b.insts[n + 2], value_at(n + 1), cell, AddrSpace::Local)
    &&& m.b.insts[n + 3].ty == f
    &&& m.b.insts[n + 3].op == OpV::Bin(BBin::FAdd, value_at(n + 2), value_at(n))
    &&& cell_of(m.b.insts[n + 4], slot, AddrSpace::Local)
    &&& writes(m.b.insts[n + 5], value_at(n + 4), cell, AddrSpace::Local, value_at(n + 3))
}

/// `zeros` without a `dtype` is of floats; with one it is of integers exactly where that names a
/// signed integer type.
pub proof fn law_element_type_of_zeros(kws: Seq<Keyword>)
    ensures
        kws.len() == 0 ==> zeros_ty(kws) == BTy::Scalar(Scalar::F32),
        kws.len() == 1 && spec_is_keyword(kws[0], "dtype"@) ==> (
        kws[0].value matches Expr::Attribute { attr, .. } ==> {
            let whole = attr@ == "int8"@ || attr@ == "int16"@ || attr@ == "int32"@ || attr@
                == "int64"@;
            &&& whole <==> zeros_ty(kws) == BTy::Scalar(Scalar::I64)
            &&& !whole <==> zeros_ty(kws) == BTy::Scalar(Scalar::F32)
        }),
{
}

} // verus!
