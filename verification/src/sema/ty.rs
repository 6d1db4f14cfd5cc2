//! The types of CUDA C, as checking sees them: two spellings of one type are one.

use vstd::prelude::*;

use crate::sema::c_ast::ScalarKind;
use crate::text::same;

verus! {

#[derive(Debug)]
pub enum Ty {
    Scalar(ScalarKind),
    /// The pointee, and whether it is `const`.
    Pointer(Box<Ty>, bool),
    Array(Box<Ty>),
    Struct(String),
    Union(String),
    Enum(String),
    Function { ret: Box<Ty>, params: Vec<Ty>, variadic: bool },
    /// A type that could not be found; compatible with every other.
    Unknown,
}

/// The model of a type.
pub enum TyV {
    Scalar(ScalarKind),
    Pointer(Box<TyV>, bool),
    Array(Box<TyV>),
    Struct(Seq<char>),
    Union(Seq<char>),
    Enum(Seq<char>),
    Function { ret: Box<TyV>, params: Seq<TyV>, variadic: bool },
    Unknown,
}

pub open spec fn ty_view(t: Ty) -> TyV
    decreases t, 0nat,
{
    match t {
        Ty::Scalar(k) => TyV::Scalar(k),
        Ty::Pointer(p, c) => TyV::Pointer(Box::new(ty_view(*p)), c),
        Ty::Array(e) => TyV::Array(Box::new(ty_view(*e))),
        Ty::Struct(n) => TyV::Struct(n@),
        Ty::Union(n) => TyV::Union(n@),
        Ty::Enum(n) => TyV::Enum(n@),
        Ty::Function { ret, params, variadic } => TyV::Function {
            ret: Box::new(ty_view(*ret)),
            params: tys_take(params@, params@.len()),
            variadic,
        },
        Ty::Unknown => TyV::Unknown,
    }
}

/// The models of the first `n` types of a list.
pub open spec fn tys_take(v: Seq<Ty>, n: nat) -> Seq<TyV>
    decreases v, n,
{
    if n == 0 || n > v.len() {
        Seq::empty()
    } else {
        tys_take(v, (n - 1) as nat).push(ty_view(v[n - 1]))
    }
}

pub open spec fn tys_view(v: Seq<Ty>) -> Seq<TyV> {
    tys_take(v, v.len())
}

/// A type without what its pointers say of `const`.
pub open spec fn plain(t: TyV) -> TyV
    decreases t, 0nat,
{
    match t {
        TyV::Pointer(p, _) => TyV::Pointer(Box::new(plain(*p)), false),
        TyV::Array(e) => TyV::Array(Box::new(plain(*e))),
        TyV::Function { ret, params, variadic } => TyV::Function {
            ret: Box::new(plain(*ret)),
            params: plain_take(params, params.len()),
            variadic,
        },
        _ => t,
    }
}

/// The first `n` types of a list without what their pointers say of `const`.
pub open spec fn plain_take(v: Seq<TyV>, n: nat) -> Seq<TyV>
    decreases v, n,
{
    if n == 0 || n > v.len() {
        Seq::empty()
    } else {
        plain_take(v, (n - 1) as nat).push(plain(v[n - 1]))
    }
}

proof fn lemma_plain_len(v: Seq<TyV>, n: nat)
    requires
        n <= v.len(),
    ensures
        plain_take(v, n).len() == n,
        forall|i: int| 0 <= i < n ==> #[trigger] plain_take(v, n)[i] == plain(v[i]),
    decreases n,
{
    if n > 0 {
        lemma_plain_len(v, (n - 1) as nat);
    }
}

impl View for Ty {
    type V = TyV;

    open spec fn view(&self) -> TyV {
        ty_view(*self)
    }
}

pub proof fn lemma_tys_take(v: Seq<Ty>, n: nat)
    requires
        n <= v.len(),
    ensures
        tys_take(v, n).len() == n,
        forall|i: int| 0 <= i < n ==> #[trigger] tys_take(v, n)[i] == v[i]@,
    decreases n,
{
    if n > 0 {
        lemma_tys_take(v, (n - 1) as nat);
    }
}

pub proof fn lemma_tys_prefix(v: Seq<Ty>, w: Seq<Ty>, n: nat)
    requires
        n <= v.len(),
        n <= w.len(),
        forall|i: int| 0 <= i < n ==> v[i]@ == (#[trigger] w[i])@,
    ensures
        tys_take(v, n) == tys_take(w, n),
{
    lemma_tys_take(v, n);
    lemma_tys_take(w, n);
    assert forall|i: int| 0 <= i < n implies tys_take(v, n)[i] == tys_take(w, n)[i] by {
        assert(v[i]@ == w[i]@);
    }
    assert(tys_take(v, n) =~= tys_take(w, n));
}

pub open spec fn integer_kind(k: ScalarKind) -> bool {
    match k {
        ScalarKind::Void | ScalarKind::Float | ScalarKind::Double | ScalarKind::LongDouble => false,
        _ => true,
    }
}

pub open spec fn float_kind(k: ScalarKind) -> bool {
    match k {
        ScalarKind::Float | ScalarKind::Double | ScalarKind::LongDouble => true,
        _ => false,
    }
}

pub open spec fn signed_kind(k: ScalarKind) -> bool {
    match k {
        ScalarKind::Bool | ScalarKind::UChar | ScalarKind::UShort | ScalarKind::UInt
            | ScalarKind::ULong | ScalarKind::ULongLong | ScalarKind::WcharT => false,
        _ => true,
    }
}

fn is_integer_kind(k: ScalarKind) -> (r: bool)
    ensures
        r == integer_kind(k),
{
    !matches!(
        k,
        ScalarKind::Void | ScalarKind::Float | ScalarKind::Double | ScalarKind::LongDouble
    )
}

fn is_float_kind(k: ScalarKind) -> (r: bool)
    ensures
        r == float_kind(k),
{
    matches!(k, ScalarKind::Float | ScalarKind::Double | ScalarKind::LongDouble)
}

/// Whether an integer kind is signed.
pub fn is_signed_kind(k: ScalarKind) -> (r: bool)
    ensures
        r == signed_kind(k),
{
    !matches!(
        k,
        ScalarKind::Bool
            | ScalarKind::UChar
            | ScalarKind::UShort
            | ScalarKind::UInt
            | ScalarKind::ULong
            | ScalarKind::ULongLong
            | ScalarKind::WcharT
    )
}

impl TyV {
    pub open spec fn pointer_like(self) -> bool {
        self is Pointer || self is Array
    }

    pub open spec fn integer(self) -> bool {
        match self {
            TyV::Scalar(k) => integer_kind(k),
            TyV::Enum(_) => true,
            _ => false,
        }
    }

    pub open spec fn float(self) -> bool {
        match self {
            TyV::Scalar(k) => float_kind(k),
            _ => false,
        }
    }

    pub open spec fn arithmetic(self) -> bool {
        self.integer() || self.float()
    }

    /// What C accepts as a condition.
    pub open spec fn condition(self) -> bool {
        self.arithmetic() || self.pointer_like()
    }

    /// What `*`, `[]` and `->` reach.
    pub open spec fn target(self) -> Option<TyV> {
        match self {
            TyV::Pointer(p, _) => Some(*p),
            TyV::Array(e) => Some(*e),
            _ => None,
        }
    }

    pub open spec fn void(self) -> bool {
        self == TyV::Scalar(ScalarKind::Void)
    }
}

pub open spec fn opt_ty(t: Option<Ty>) -> Option<TyV> {
    match t {
        Some(x) => Some(x@),
        None => None,
    }
}

impl Ty {
    pub fn is_unknown(&self) -> (r: bool)
        ensures
            r == (self@ is Unknown),
    {
        matches!(self, Ty::Unknown)
    }

    pub fn is_pointer(&self) -> (r: bool)
        ensures
            r == (self@ is Pointer),
    {
        matches!(self, Ty::Pointer(_, _))
    }

    pub fn is_pointer_like(&self) -> (r: bool)
        ensures
            r == self@.pointer_like(),
    {
        matches!(self, Ty::Pointer(_, _) | Ty::Array(_))
    }

    pub fn is_integer(&self) -> (r: bool)
        ensures
            r == self@.integer(),
    {
        match self {
            Ty::Scalar(k) => is_integer_kind(*k),
            Ty::Enum(_) => true,
            _ => false,
        }
    }

    pub fn is_float(&self) -> (r: bool)
        ensures
            r == self@.float(),
    {
        match self {
            Ty::Scalar(k) => is_float_kind(*k),
            _ => false,
        }
    }

    pub fn is_arithmetic(&self) -> (r: bool)
        ensures
            r == self@.arithmetic(),
    {
        self.is_integer() || self.is_float()
    }

    pub fn is_scalar_condition(&self) -> (r: bool)
        ensures
            r == self@.condition(),
    {
        self.is_arithmetic() || self.is_pointer_like()
    }

    pub fn is_void(&self) -> (r: bool)
        ensures
            r == self@.void(),
    {
        matches!(self, Ty::Scalar(ScalarKind::Void))
    }

    /// The pointee of a pointer or the element of an array.
    pub fn deref_target(&self) -> (r: Option<Ty>)
        ensures
            opt_ty(r) == self@.target(),
    {
        match self {
            Ty::Pointer(p, _) => Some(p.copy()),
            Ty::Array(e) => Some(e.copy()),
            _ => None,
        }
    }

    pub fn copy(&self) -> (r: Ty)
        ensures
            r@ == self@,
        decreases self, 0nat,
    {
        match self {
            Ty::Scalar(k) => Ty::Scalar(*k),
            Ty::Pointer(p, c) => Ty::Pointer(Box::new(p.copy()), *c),
            Ty::Array(e) => Ty::Array(Box::new(e.copy())),
            Ty::Struct(n) => Ty::Struct(n.clone()),
            Ty::Union(n) => Ty::Union(n.clone()),
            Ty::Enum(n) => Ty::Enum(n.clone()),
            Ty::Function { ret, params, variadic } => {
                let ps = Ty::copy_all(params, params.len());
                proof {
                    lemma_tys_prefix(ps@, params@, params@.len());
                }
                Ty::Function { ret: Box::new(ret.copy()), params: ps, variadic: *variadic }
            },
            Ty::Unknown => Ty::Unknown,
        }
    }

    /// Copies of the first `n` types of a list.
    pub fn copy_all(v: &Vec<Ty>, n: usize) -> (r: Vec<Ty>)
        requires
            n <= v@.len(),
        ensures
            r@.len() == n,
            forall|i: int| 0 <= i < n ==> (#[trigger] r@[i])@ == v@[i]@,
            n == v@.len() ==> tys_view(r@) == tys_view(v@),
        decreases v, n,
    {
        let r = if n == 0 {
            Vec::new()
        } else {
            let mut r = Ty::copy_all(v, n - 1);
            r.push(v[n - 1].copy());
            r
        };
        proof {
            assert forall|i: int| 0 <= i < n implies r@[i]@ == (#[trigger] v@[i])@ by {
                assert(r@[i]@ == v@[i]@);
            }
            lemma_tys_prefix(r@, v@, n as nat);
        }
        r
    }

    /// Whether two types are one, but for what their pointers say of `const`.
    pub fn same(&self, other: &Ty) -> (r: bool)
        ensures
            r == (plain(self@) == plain(other@)),
        decreases self, 0nat,
    {
        match (self, other) {
            (Ty::Scalar(a), Ty::Scalar(b)) => *a == *b,
            (Ty::Pointer(p, _), Ty::Pointer(q, _)) => p.same(q),
            (Ty::Array(a), Ty::Array(b)) => a.same(b),
            (Ty::Struct(a), Ty::Struct(b)) => same(a.as_str(), b.as_str()),
            (Ty::Union(a), Ty::Union(b)) => same(a.as_str(), b.as_str()),
            (Ty::Enum(a), Ty::Enum(b)) => same(a.as_str(), b.as_str()),
            (Ty::Function { ret: r0, params: p0, variadic: v0 }, Ty::Function {
                ret: r1,
                params: p1,
                variadic: v1,
            }) => {
                proof {
                    lemma_tys_take(p0@, p0@.len());
                    lemma_tys_take(p1@, p1@.len());
                    lemma_plain_len(tys_view(p0@), p0@.len());
                    lemma_plain_len(tys_view(p1@), p1@.len());
                }
                *v0 == *v1 && r0.same(r1) && p0.len() == p1.len() && Ty::same_all(p0, p1, p0.len())
            },
            (Ty::Unknown, Ty::Unknown) => true,
            _ => false,
        }
    }

    fn same_all(v: &Vec<Ty>, w: &Vec<Ty>, n: usize) -> (r: bool)
        requires
            n <= v@.len(),
            n <= w@.len(),
        ensures
            r == (plain_take(tys_view(v@), n as nat) == plain_take(tys_view(w@), n as nat)),
        decreases v, n,
    {
        if n == 0 {
            true
        } else {
            proof {
                lemma_tys_take(v@, v@.len());
                lemma_tys_take(w@, w@.len());
                let a = plain_take(tys_view(v@), n as nat);
                let b = plain_take(tys_view(w@), n as nat);
                assert(a.drop_last() =~= plain_take(tys_view(v@), (n - 1) as nat));
                assert(b.drop_last() =~= plain_take(tys_view(w@), (n - 1) as nat));
                assert(a.last() == plain(v@[n - 1]@));
                assert(b.last() == plain(w@[n - 1]@));
            }
            Ty::same_all(v, w, n - 1) && v[n - 1].same(&w[n - 1])
        }
    }
}

/// Whether a value of type `value` may stand where one of type `target` is asked for. This is
/// laxer than C: any integer may become a pointer, every scalar any other, and what a pointer says
/// of `const` is not looked at.
pub open spec fn fits(target: TyV, value: TyV) -> bool {
    if target is Unknown || value is Unknown || plain(target) == plain(value) {
        true
    } else {
        match (target, value) {
            (TyV::Scalar(a), TyV::Scalar(b)) => a != ScalarKind::Void && b != ScalarKind::Void,
            (TyV::Scalar(a), TyV::Enum(_)) => integer_kind(a),
            (TyV::Enum(_), TyV::Scalar(b)) => integer_kind(b),
            (TyV::Enum(_), TyV::Enum(_)) => true,
            (TyV::Pointer(a, _), TyV::Pointer(b, _)) => a.void() || b.void() || plain(*a) == plain(*b),
            (TyV::Pointer(a, _), TyV::Array(b)) => a.void() || plain(*a) == plain(*b),
            (TyV::Pointer(_, _), TyV::Scalar(b)) => integer_kind(b),
            _ => false,
        }
    }
}

pub fn assignable(target: &Ty, value: &Ty) -> (r: bool)
    ensures
        r == fits(target@, value@),
{
    if target.is_unknown() || value.is_unknown() {
        return true;
    }
    if target.same(value) {
        return true;
    }
    match (target, value) {
        (Ty::Scalar(a), Ty::Scalar(b)) => *a != ScalarKind::Void && *b != ScalarKind::Void,
        (Ty::Scalar(a), Ty::Enum(_)) => is_integer_kind(*a),
        (Ty::Enum(_), Ty::Scalar(b)) => is_integer_kind(*b),
        (Ty::Enum(_), Ty::Enum(_)) => true,
        (Ty::Pointer(pa, _), Ty::Pointer(pb, _)) => pa.is_void() || pb.is_void() || pa.same(pb),
        (Ty::Pointer(pa, _), Ty::Array(eb)) => pa.is_void() || pa.same(eb),
        (Ty::Pointer(_, _), Ty::Scalar(b)) => is_integer_kind(*b),
        _ => false,
    }
}

/// The rank of a scalar kind among the arithmetic types.
pub open spec fn kind_rank(k: ScalarKind) -> int {
    match k {
        ScalarKind::Void => -1,
        ScalarKind::Bool => 0,
        ScalarKind::Char | ScalarKind::SChar | ScalarKind::UChar => 1,
        ScalarKind::Short | ScalarKind::UShort => 2,
        ScalarKind::Int | ScalarKind::UInt | ScalarKind::WcharT => 3,
        ScalarKind::Long | ScalarKind::ULong => 4,
        ScalarKind::LongLong | ScalarKind::ULongLong => 5,
        ScalarKind::Float => 6,
        ScalarKind::Double => 7,
        ScalarKind::LongDouble => 8,
    }
}

fn rank(k: ScalarKind) -> (r: i32)
    ensures
        r == kind_rank(k),
{
    match k {
        ScalarKind::Void => -1,
        ScalarKind::Bool => 0,
        ScalarKind::Char | ScalarKind::SChar | ScalarKind::UChar => 1,
        ScalarKind::Short | ScalarKind::UShort => 2,
        ScalarKind::Int | ScalarKind::UInt | ScalarKind::WcharT => 3,
        ScalarKind::Long | ScalarKind::ULong => 4,
        ScalarKind::LongLong | ScalarKind::ULongLong => 5,
        ScalarKind::Float => 6,
        ScalarKind::Double => 7,
        ScalarKind::LongDouble => 8,
    }
}

pub open spec fn kind_of(t: TyV) -> ScalarKind {
    match t {
        TyV::Scalar(k) => k,
        _ => ScalarKind::Int,
    }
}

fn scalar_of(t: &Ty) -> (k: ScalarKind)
    ensures
        k == kind_of(t@),
{
    match t {
        Ty::Scalar(k) => *k,
        _ => ScalarKind::Int,
    }
}

/// The common type of two operands: the one of higher rank (the first, where they are equal),
/// and at least `int`.
pub open spec fn promoted(a: TyV, b: TyV) -> TyV {
    let k = if kind_rank(kind_of(a)) >= kind_rank(kind_of(b)) {
        kind_of(a)
    } else {
        kind_of(b)
    };
    TyV::Scalar(
        if kind_rank(k) < kind_rank(ScalarKind::Int) {
            ScalarKind::Int
        } else {
            k
        },
    )
}

pub fn promote(a: &Ty, b: &Ty) -> (r: Ty)
    ensures
        r@ == promoted(a@, b@),
{
    let ka = scalar_of(a);
    let kb = scalar_of(b);
    let k = if rank(ka) >= rank(kb) {
        ka
    } else {
        kb
    };
    if rank(k) < rank(ScalarKind::Int) {
        Ty::Scalar(ScalarKind::Int)
    } else {
        Ty::Scalar(k)
    }
}

// ---- laws ----------------------------------------------------------------------------------

/// Every type fits itself, and the unknown type fits everywhere.
pub proof fn law_fits_itself(t: TyV)
    ensures
        fits(t, t),
        fits(t, TyV::Unknown),
        fits(TyV::Unknown, t),
{
}

/// What is left out of a type is left out once.
proof fn lemma_plain_twice(t: TyV)
    ensures
        plain(plain(t)) == plain(t),
        plain(t).void() == t.void(),
    decreases t, 0nat,
{
    match t {
        TyV::Pointer(p, _) => lemma_plain_twice(*p),
        TyV::Array(e) => lemma_plain_twice(*e),
        TyV::Function { ret, params, .. } => {
            lemma_plain_twice(*ret);
            let once = plain_take(params, params.len());
            lemma_plain_len(params, params.len());
            lemma_plain_len(once, once.len());
            assert forall|i: int| 0 <= i < params.len() implies plain(plain(#[trigger] params[i]))
                == plain(params[i]) by {
                lemma_plain_twice(params[i]);
            }
            assert(plain_take(once, once.len()) =~= once);
        },
        _ => {},
    }
}

/// Whether a type fits another does not depend on what pointers say of `const`, at any depth.
pub proof fn law_const_does_not_matter(target: TyV, value: TyV)
    ensures
        fits(target, value) == fits(plain(target), plain(value)),
{
    lemma_plain_twice(target);
    lemma_plain_twice(value);
    match target {
        TyV::Pointer(p, _) => lemma_plain_twice(*p),
        _ => {},
    }
    match value {
        TyV::Pointer(p, _) => lemma_plain_twice(*p),
        TyV::Array(e) => lemma_plain_twice(*e),
        _ => {},
    }
}

/// The common type of two operands never has a lower rank than either, nor than `int`.
pub proof fn law_promotion_widens(a: TyV, b: TyV)
    ensures
        kind_rank(kind_of(promoted(a, b))) >= kind_rank(kind_of(a)),
        kind_rank(kind_of(promoted(a, b))) >= kind_rank(kind_of(b)),
        kind_rank(kind_of(promoted(a, b))) >= kind_rank(ScalarKind::Int),
{
}

/// Arithmetic on two arithmetic operands is arithmetic, and floating if one of them is.
pub proof fn law_promotion_kind(a: TyV, b: TyV)
    requires
        a.arithmetic(),
        b.arithmetic(),
    ensures
        promoted(a, b).arithmetic(),
        promoted(a, b).float() <==> a.float() || b.float(),
{
}

} // verus!
