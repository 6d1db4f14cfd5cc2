//! Constants and sizes of CUDA C: constant expressions have the value of their arithmetic, and the
//! fields of a struct lie one after the other.

use vstd::prelude::*;

use crate::bits::low_u32;
use crate::bir::Scalar;
use crate::sema::c_ast::{BinOp, EnumVariant, Expr, ScalarKind, UnaryOp};
use crate::sema::c_exprs::bytes;
use crate::sema::c_meaning::machine;
use crate::sema::checker::find_field;
use crate::sema::lower::{
    align_of, const_value, lower_variants_s, max_to, offset_from, offset_of, size_to, sum_to,
    LwState,
};
use crate::sema::meaning::{law_quotient_and_remainder, quotient, remainder, size_of_int};
use crate::sema::scope::{find_struct, find_union, FieldV, ScopeV};
use crate::sema::ty::TyV;
use crate::sema::typing::{is_field, number};

verus! {

// ---- constants -----------------------------------------------------------------------------

/// Whether two numbers have the same low 64 bits.
pub open spec fn same_low(a: int, b: int) -> bool {
    exists|k: int| a == b + #[trigger] (k * 0x1_0000_0000_0000_0000)
}

proof fn lemma_same_low(a: int, b: int)
    requires
        a == b || a == b - 0x1_0000_0000_0000_0000 || a == b + 0x1_0000_0000_0000_0000,
    ensures
        same_low(a, b),
{
    let m = 0x1_0000_0000_0000_0000int;
    assert(0 * m == 0);
    assert((-1) * m == -m);
    assert(1 * m == m);
    if a == b {
        assert(a == b + 0 * m);
    } else if a == b - m {
        assert(a == b + (-1) * m);
    } else {
        assert(a == b + 1 * m);
    }
}

/// The value of a constant sum or difference is that of the numbers, to 64 bits.
pub proof fn law_constant_sums(enums: Map<Seq<char>, i64>, e: Expr, l: i64, r: i64)
    requires
        e matches Expr::Binary { lhs, rhs, .. } && const_value(enums, *lhs) == Some(l)
            && const_value(enums, *rhs) == Some(r),
    ensures
        e->Binary_op == BinOp::Add ==> (const_value(enums, e) matches Some(v) && same_low(
            v as int,
            l + r,
        )),
        e->Binary_op == BinOp::Sub ==> (const_value(enums, e) matches Some(v) && same_low(
            v as int,
            l - r,
        )),
{
    if e->Binary_op == BinOp::Add {
        lemma_same_low(const_value(enums, e)->0 as int, l + r);
    }
    if e->Binary_op == BinOp::Sub {
        lemma_same_low(const_value(enums, e)->0 as int, l - r);
    }
}

/// The value of a constant product is that of the numbers where it has 64 bits.
pub proof fn law_constant_product(enums: Map<Seq<char>, i64>, e: Expr, l: i64, r: i64)
    requires
        e matches Expr::Binary { op, lhs, rhs, .. } && op == BinOp::Mul && const_value(enums, *lhs)
            == Some(l) && const_value(enums, *rhs) == Some(r),
        i64::MIN <= l * r <= i64::MAX,
    ensures
        const_value(enums, e) matches Some(v) && v == l * r,
{
}

/// The value of a constant quotient goes toward zero; by zero there is none.
pub proof fn law_constant_quotient(enums: Map<Seq<char>, i64>, e: Expr, l: i64, r: i64)
    requires
        e matches Expr::Binary { op, lhs, rhs, .. } && op == BinOp::Div && const_value(enums, *lhs)
            == Some(l) && const_value(enums, *rhs) == Some(r),
        !(l == i64::MIN && r == -1),
    ensures
        r != 0 ==> (const_value(enums, e) matches Some(v) && v == quotient(l as int, r as int)),
        r == 0 ==> const_value(enums, e) is None,
{
    if r != 0 {
        law_quotient_and_remainder(l as int, r as int);
    }
}

/// The value of a constant remainder has the sign of the dividend; by zero there is none.
pub proof fn law_constant_remainder(enums: Map<Seq<char>, i64>, e: Expr, l: i64, r: i64)
    requires
        e matches Expr::Binary { op, lhs, rhs, .. } && op == BinOp::Rem && const_value(enums, *lhs)
            == Some(l) && const_value(enums, *rhs) == Some(r),
        !(l == i64::MIN && r == -1),
    ensures
        r != 0 ==> (const_value(enums, e) matches Some(v) && v == remainder(l as int, r as int)),
        r == 0 ==> const_value(enums, e) is None,
{
    if r != 0 {
        let (a, b) = (size_of_int(l as int), size_of_int(r as int));
        let (q, d) = (a / b, r as int);
        vstd::arithmetic::div_mod::lemma_fundamental_div_mod(a, b);
        assert(b * q == q * b) by (nonlinear_arith);
        assert((-q) * d == -(q * d)) by (nonlinear_arith);
        assert(q * (-d) == -(q * d)) by (nonlinear_arith);
        if l == 0 {
            assert(0int / b == 0 && 0int % b == 0) by (nonlinear_arith)
                requires
                    b > 0,
            ;
            assert(0 * d == 0);
        }
    }
}

/// `-x` is the opposite of `x`, to 64 bits, `+x` is `x`, and `~x` is one less than `-x`.
pub proof fn law_constant_signs(enums: Map<Seq<char>, i64>, e: Expr, x: i64)
    requires
        e matches Expr::Unary { expr, .. } && const_value(enums, *expr) == Some(x),
    ensures
        e->Unary_op == UnaryOp::Neg ==> (const_value(enums, e) matches Some(v) && same_low(
            v as int,
            0 - x,
        )),
        e->Unary_op == UnaryOp::Plus ==> const_value(enums, e) == Some(x),
        e->Unary_op == UnaryOp::BitNot ==> (const_value(enums, e) matches Some(v) && v == -x - 1),
        e->Unary_op == UnaryOp::Not || e->Unary_op == UnaryOp::Deref || e->Unary_op == UnaryOp::Addr
            ==> const_value(enums, e) is None,
{
    if e->Unary_op == UnaryOp::Neg {
        lemma_same_low(const_value(enums, e)->0 as int, 0 - x);
    }
    lemma_bits(x, 0, 0, 1);
}

proof fn lemma_bits(x: i64, l: i64, k: u32, j: u32)
    ensures
        !x == -1 - x,
        l << 0u32 == l,
        0 <= l < 0x8000_0000 && k < 32 && j == k + 1 ==> l << j == 2 * (l << k),
        0 <= l < 0x8000_0000 && k < 32 ==> (l << k) >> k == l,
{
    assert(!x == -1 - x && l << 0u32 == l && (0 <= l && l < 0x8000_0000 && k < 32 && j == k + 1
        ==> l << j == 2 * (l << k)) && (0 <= l && l < 0x8000_0000 && k < 32 ==> (l << k) >> k
        == l)) by (bit_vector);
}

/// A constant shifted to the left by nothing is itself, each place more doubles it, and shifted
/// back to the right by as many it is itself again; for numbers and places below 32 bits.
pub proof fn law_constant_shifts(
    enums: Map<Seq<char>, i64>,
    left: Expr,
    more: Expr,
    back: Expr,
    l: i64,
    k: i64,
)
    requires
        0 <= l < 0x8000_0000,
        0 <= k < 31,
        left matches Expr::Binary { op, lhs, rhs, .. } && op == BinOp::Shl && const_value(
            enums,
            *lhs,
        ) == Some(l) && const_value(enums, *rhs) == Some(k),
        more matches Expr::Binary { op, lhs, rhs, .. } && op == BinOp::Shl && const_value(
            enums,
            *lhs,
        ) == Some(l) && const_value(enums, *rhs) == Some((k + 1) as i64),
        back matches Expr::Binary { op, lhs, rhs, .. } && op == BinOp::Shr && *lhs == left
            && const_value(enums, *rhs) == Some(k),
    ensures
        k == 0 ==> const_value(enums, left) == Some(l),
        match (const_value(enums, left), const_value(enums, more)) {
            (Some(a), Some(b)) => b == 2 * a,
            _ => false,
        },
        const_value(enums, back) == Some(l),
{
    reveal(low_u32);
    lemma_bits(0, l, k as u32, (k + 1) as u32);
    assert(low_u32(k as int) % 64 == k as u32);
    assert(low_u32(k + 1) % 64 == (k + 1) as u32);
}

/// The bits of a constant `l & r`, `l | r` and `l ^ r` are those of the numbers, and the name of an
/// enumerator stands for its number. What is none of these, and no literal, is no constant.
pub proof fn law_constant_bits(enums: Map<Seq<char>, i64>, e: Expr)
    ensures
        match e {
            Expr::Binary { op, lhs, rhs, .. } => match (
                const_value(enums, *lhs),
                const_value(enums, *rhs),
            ) {
                (Some(l), Some(r)) => {
                    &&& op == BinOp::BitAnd ==> const_value(enums, e) == Some(l & r)
                    &&& op == BinOp::BitOr ==> const_value(enums, e) == Some(l | r)
                    &&& op == BinOp::BitXor ==> const_value(enums, e) == Some(l ^ r)
                },
                _ => const_value(enums, e) is None,
            },
            Expr::Ident { name, .. } => (const_value(enums, e) is Some) == enums.contains_key(name@)
                && (enums.contains_key(name@) ==> const_value(enums, e) == Some(enums[name@])),
            Expr::CharLit { value, .. } => const_value(enums, e) == Some(value as i64),
            Expr::IntLit { .. } | Expr::Unary { .. } => true,
            _ => const_value(enums, e) is None,
        },
{
}

// ---- enumerations --------------------------------------------------------------------------

/// The first enumerator without a value is zero, each other one more than the one before it, and
/// one with a constant has its value; each is known by its name from then on.
pub proof fn law_enumerators(st: LwState, vs: Seq<EnumVariant>, n: nat, ty: TyV)
    requires
        0 < n <= vs.len(),
        ({
            let s1 = lower_variants_s(st, vs, (n - 1) as nat, ty).0;
            vs[n - 1].init matches Some(x) ==> const_value(s1.enums, x) is Some
        }),
    ensures
        ({
            let before = lower_variants_s(st, vs, (n - 1) as nat, ty).0;
            let (end, next) = lower_variants_s(st, vs, n, ty);
            let name = vs[n - 1].name@;
            &&& end.diags == before.diags
            &&& end.enums.contains_key(name)
            &&& match vs[n - 1].init {
                Some(x) => Some(end.enums[name]) == const_value(before.enums, x),
                None => if n == 1 {
                    end.enums[name] == 0
                } else {
                    same_low(
                        end.enums[name] as int,
                        before.enums[vs[n - 2].name@] + 1,
                    )
                },
            }
            &&& forall|x: Seq<char>|
                x != name && before.enums.contains_key(x) ==> #[trigger] end.enums.contains_key(x)
                    && end.enums[x] == before.enums[x]
        }),
{
    reveal_with_fuel(lower_variants_s, 3);
    let (before, next) = lower_variants_s(st, vs, (n - 1) as nat, ty);
    if n > 1 {
        lemma_same_low(next as int, before.enums[vs[n - 2].name@] + 1);
    }
}

// ---- sizes ---------------------------------------------------------------------------------

/// A number or pointer is as large as its machine type, and aligned to that.
pub proof fn law_sizes(scopes: Seq<ScopeV>, depth: nat, t: TyV)
    requires
        number(t) || t is Pointer,
    ensures
        size_to(scopes, depth, t) == bytes(machine(t)),
        align_of(machine(t)) == bytes(machine(t)),
{
}

/// `char` has one byte, `short` two, `int` and `float` four, `long`, `double` and a pointer eight.
pub proof fn law_sizes_of_kinds(scopes: Seq<ScopeV>, depth: nat, t: TyV)
    ensures
        size_to(scopes, depth, TyV::Scalar(ScalarKind::Char)) == 1,
        size_to(scopes, depth, TyV::Scalar(ScalarKind::Bool)) == 1,
        size_to(scopes, depth, TyV::Scalar(ScalarKind::Short)) == 2,
        size_to(scopes, depth, TyV::Scalar(ScalarKind::Int)) == 4,
        size_to(scopes, depth, TyV::Scalar(ScalarKind::UInt)) == 4,
        size_to(scopes, depth, TyV::Scalar(ScalarKind::Float)) == 4,
        size_to(scopes, depth, TyV::Scalar(ScalarKind::Long)) == 8,
        size_to(scopes, depth, TyV::Scalar(ScalarKind::LongLong)) == 8,
        size_to(scopes, depth, TyV::Scalar(ScalarKind::Double)) == 8,
        size_to(scopes, depth, TyV::Pointer(Box::new(t), false)) == 8,
        size_to(scopes, depth, TyV::Pointer(Box::new(t), true)) == 8,
        size_to(scopes, depth, TyV::Scalar(ScalarKind::Void)) == 0,
{
}

/// The size of the first `n` fields as a number without a limit.
pub open spec fn total(scopes: Seq<ScopeV>, depth: nat, fs: Seq<FieldV>, n: nat) -> nat
    decreases n,
{
    if n == 0 {
        0
    } else {
        total(scopes, depth, fs, (n - 1) as nat) + size_to(scopes, depth, fs[n - 1].ty) as nat
    }
}

proof fn lemma_total_mono(scopes: Seq<ScopeV>, depth: nat, fs: Seq<FieldV>, i: nat, n: nat)
    requires
        i <= n,
    ensures
        total(scopes, depth, fs, i) <= total(scopes, depth, fs, n),
    decreases n,
{
    if i < n {
        lemma_total_mono(scopes, depth, fs, i, (n - 1) as nat);
    }
}

proof fn lemma_sum_is_total(scopes: Seq<ScopeV>, depth: nat, fs: Seq<FieldV>, n: nat)
    requires
        n <= fs.len(),
        total(scopes, depth, fs, n) < 0x1_0000_0000_0000_0000,
    ensures
        sum_to(scopes, depth, fs, n) == total(scopes, depth, fs, n),
    decreases n,
{
    if n > 0 {
        lemma_sum_is_total(scopes, depth, fs, (n - 1) as nat);
    }
}

proof fn lemma_offset_is_total(
    scopes: Seq<ScopeV>,
    depth: nat,
    fs: Seq<FieldV>,
    name: Seq<char>,
    from: nat,
    i: nat,
)
    requires
        from <= i,
        is_field(fs, name, i as int),
        total(scopes, depth, fs, fs.len()) < 0x1_0000_0000_0000_0000,
    ensures
        offset_from(
            scopes,
            depth,
            fs,
            name,
            from,
            total(scopes, depth, fs, from) as u64,
        ) == Some((total(scopes, depth, fs, i) as u64, fs[i as int].ty)),
    decreases i - from,
{
    lemma_total_mono(scopes, depth, fs, from, fs.len());
    if from < i {
        assert(fs[from as int].name != name);
        lemma_total_mono(scopes, depth, fs, from + 1, fs.len());
        lemma_offset_is_total(scopes, depth, fs, name, from + 1, i);
    }
}

/// The fields of a struct lie one after the other, none over another, and all of them inside the
/// struct; the first lies at its start.
pub proof fn law_fields_are_apart(
    scopes: Seq<ScopeV>,
    depth: nat,
    tag: Seq<char>,
    a: Seq<char>,
    b: Seq<char>,
    i: int,
    j: int,
)
    requires
        find_struct(scopes, tag) is Some,
        is_field(find_struct(scopes, tag)->0, a, i),
        is_field(find_struct(scopes, tag)->0, b, j),
        i < j,
        ({
            let fs = find_struct(scopes, tag)->0;
            total(scopes, depth, fs, fs.len()) < 0x1_0000_0000_0000_0000
        }),
    ensures
        ({
            let fs = find_struct(scopes, tag)->0;
            let t = TyV::Struct(tag);
            match (offset_of(scopes, depth, t, a), offset_of(scopes, depth, t, b)) {
                (Some((x, ta)), Some((y, tb))) => {
                    &&& ta == fs[i].ty
                    &&& tb == fs[j].ty
                    &&& x + size_to(scopes, depth, ta) <= y
                    &&& j == i + 1 ==> x + size_to(scopes, depth, ta) == y
                    &&& y + size_to(scopes, depth, tb) <= size_to(scopes, depth + 1, t)
                    &&& j == fs.len() - 1 ==> y + size_to(scopes, depth, tb) == size_to(
                        scopes,
                        depth + 1,
                        t,
                    )
                    &&& i == 0 ==> x == 0
                },
                _ => false,
            }
        }),
{
    let fs = find_struct(scopes, tag)->0;
    lemma_offset_is_total(scopes, depth, fs, a, 0, i as nat);
    lemma_offset_is_total(scopes, depth, fs, b, 0, j as nat);
    lemma_total_mono(scopes, depth, fs, (i + 1) as nat, j as nat);
    lemma_total_mono(scopes, depth, fs, i as nat, fs.len());
    lemma_total_mono(scopes, depth, fs, j as nat, fs.len());
    lemma_total_mono(scopes, depth, fs, (j + 1) as nat, fs.len());
    lemma_sum_is_total(scopes, depth, fs, fs.len());
}

proof fn lemma_found(fs: Seq<FieldV>, name: Seq<char>, from: nat, i: nat)
    requires
        from <= i,
        is_field(fs, name, i as int),
    ensures
        find_field(fs, name, from) == Some(fs[i as int]),
    decreases i - from,
{
    if from < i {
        assert(fs[from as int].name != name);
        lemma_found(fs, name, from + 1, i);
    }
}

proof fn lemma_max(scopes: Seq<ScopeV>, depth: nat, fs: Seq<FieldV>, n: nat, i: int)
    requires
        0 <= i < n <= fs.len(),
    ensures
        size_to(scopes, depth, fs[i].ty) <= max_to(scopes, depth, fs, n),
    decreases n,
{
    if i < n - 1 {
        lemma_max(scopes, depth, fs, (n - 1) as nat, i);
    }
}

proof fn lemma_max_is_one(scopes: Seq<ScopeV>, depth: nat, fs: Seq<FieldV>, n: nat)
    requires
        n <= fs.len(),
    ensures
        max_to(scopes, depth, fs, n) == 0 || exists|i: int|
            0 <= i < n && max_to(scopes, depth, fs, n) == size_to(
                scopes,
                depth,
                (#[trigger] fs[i]).ty,
            ),
    decreases n,
{
    if n > 0 {
        lemma_max_is_one(scopes, depth, fs, (n - 1) as nat);
        assert(fs[n - 1] == fs[n - 1]);
        if max_to(scopes, depth, fs, n) != size_to(scopes, depth, fs[n - 1].ty) && max_to(
            scopes,
            depth,
            fs,
            n,
        ) != 0 {
            let i = choose|i: int|
                0 <= i < n - 1 && max_to(scopes, depth, fs, (n - 1) as nat) == size_to(
                    scopes,
                    depth,
                    (#[trigger] fs[i]).ty,
                );
            assert(0 <= i < n && max_to(scopes, depth, fs, n) == size_to(
                scopes,
                depth,
                fs[i].ty,
            ));
        }
    }
}

/// The fields of a union all lie at its start; it is as large as its largest one.
pub proof fn law_fields_of_a_union(
    scopes: Seq<ScopeV>,
    depth: nat,
    tag: Seq<char>,
    name: Seq<char>,
    i: int,
)
    requires
        find_union(scopes, tag) is Some,
        is_field(find_union(scopes, tag)->0, name, i),
    ensures
        ({
            let fs = find_union(scopes, tag)->0;
            let t = TyV::Union(tag);
            &&& offset_of(scopes, depth, t, name) == Some((0u64, fs[i].ty))
            &&& size_to(scopes, depth, fs[i].ty) <= size_to(scopes, depth + 1, t)
            &&& size_to(scopes, depth + 1, t) == 0 || exists|k: int|
                0 <= k < fs.len() && size_to(scopes, depth + 1, t) == size_to(
                    scopes,
                    depth,
                    (#[trigger] fs[k]).ty,
                )
        }),
{
    let fs = find_union(scopes, tag)->0;
    lemma_found(fs, name, 0, i as nat);
    lemma_max(scopes, depth, fs, fs.len(), i);
    lemma_max_is_one(scopes, depth, fs, fs.len());
}

} // verus!
