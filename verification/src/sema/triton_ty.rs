//! The shapes of Triton tiles: rank 0, 1 or 2, each dimension a number or a name.
//!
//! A dimension whose extent only a launch decides keeps its name. Two names are one dimension
//! only where they are spelled the same: nothing is guessed about what they might turn out to
//! be.

use vstd::prelude::*;
use vstd::string::*;

use crate::text::{decimal, same, to_decimal};

verus! {

/// The element kind of a tile.
#[derive(Clone, Copy, Debug, PartialEq, Eq, Structural)]
pub enum Elem {
    Int,
    Float,
    Bool,
    /// Not tracked; compatible with every kind.
    Unknown,
}

pub open spec fn combined(a: Elem, b: Elem) -> Elem {
    if a == b {
        a
    } else {
        Elem::Unknown
    }
}

impl Elem {
    /// The kind of a value made from two others.
    pub fn combine(self, other: Elem) -> (r: Elem)
        ensures
            r == combined(self, other),
    {
        if self == other {
            self
        } else {
            Elem::Unknown
        }
    }
}

/// The extent of a dimension.
#[derive(Debug, Clone, PartialEq, Eq)]
pub enum Dim {
    Const(i64),
    /// A size that is only known by the text of its source.
    Symbolic(String),
}

/// The model of a dimension.
pub enum DimV {
    Const(i64),
    Symbolic(Seq<char>),
}

impl View for Dim {
    type V = DimV;

    open spec fn view(&self) -> DimV {
        match *self {
            Dim::Const(n) => DimV::Const(n),
            Dim::Symbolic(s) => DimV::Symbolic(s@),
        }
    }
}

/// The decimal text of an integer.
pub open spec fn int_text(n: int) -> Seq<char> {
    if n < 0 {
        "-"@ + decimal((-n) as nat)
    } else {
        decimal(n as nat)
    }
}

pub fn int_to_text(n: i64) -> (s: String)
    ensures
        s@ == int_text(n as int),
{
    if n < 0 {
        let m: u64 = (-(n as i128)) as u64;
        "-".to_owned().concat(to_decimal(m).as_str())
    } else {
        to_decimal(n as u64)
    }
}

pub open spec fn dim_text(d: DimV) -> Seq<char> {
    match d {
        DimV::Const(n) => int_text(n as int),
        DimV::Symbolic(s) => s,
    }
}

impl Dim {
    /// How the dimension is written.
    pub fn render(&self) -> (s: String)
        ensures
            s@ == dim_text(self@),
    {
        match self {
            Dim::Const(n) => int_to_text(*n),
            Dim::Symbolic(s) => s.clone(),
        }
    }

    pub fn copy(&self) -> (r: Dim)
        ensures
            r@ == self@,
    {
        match self {
            Dim::Const(n) => Dim::Const(*n),
            Dim::Symbolic(s) => Dim::Symbolic(s.clone()),
        }
    }

    pub fn same(&self, other: &Dim) -> (r: bool)
        ensures
            r == (self@ == other@),
    {
        match (self, other) {
            (Dim::Const(a), Dim::Const(b)) => *a == *b,
            (Dim::Symbolic(a), Dim::Symbolic(b)) => same(a.as_str(), b.as_str()),
            _ => false,
        }
    }
}

/// The shape of a tile.
#[derive(Debug, Clone, PartialEq, Eq)]
pub enum TileTy {
    Scalar(Elem),
    Rank1(Dim),
    Rank2(Dim, Dim),
    /// A shape that could not be found; compatible with every other.
    Unknown,
}

/// The model of a shape.
pub enum TileTyV {
    Scalar(Elem),
    Rank1(DimV),
    Rank2(DimV, DimV),
    Unknown,
}

impl View for TileTy {
    type V = TileTyV;

    open spec fn view(&self) -> TileTyV {
        match *self {
            TileTy::Scalar(e) => TileTyV::Scalar(e),
            TileTy::Rank1(d) => TileTyV::Rank1(d@),
            TileTy::Rank2(a, b) => TileTyV::Rank2(a@, b@),
            TileTy::Unknown => TileTyV::Unknown,
        }
    }
}

pub open spec fn rank_of(t: TileTyV) -> Option<u32> {
    match t {
        TileTyV::Scalar(_) => Some(0),
        TileTyV::Rank1(_) => Some(1),
        TileTyV::Rank2(_, _) => Some(2),
        TileTyV::Unknown => None,
    }
}

pub open spec fn elem_of(t: TileTyV) -> Elem {
    match t {
        TileTyV::Scalar(e) => e,
        _ => Elem::Unknown,
    }
}

/// The dimensions of a shape that is known.
pub open spec fn dims_of(t: TileTyV) -> Seq<DimV> {
    match t {
        TileTyV::Rank1(d) => seq![d],
        TileTyV::Rank2(a, b) => seq![a, b],
        _ => Seq::empty(),
    }
}

/// The shape with up to two given dimensions.
pub open spec fn shape_of_dims(dims: Seq<DimV>, elem: Elem) -> TileTyV {
    if dims.len() == 0 {
        TileTyV::Scalar(elem)
    } else if dims.len() == 1 {
        TileTyV::Rank1(dims[0])
    } else {
        TileTyV::Rank2(dims[0], dims[1])
    }
}

pub open spec fn dims_view(v: Seq<Dim>) -> Seq<DimV> {
    v.map_values(|d: Dim| d@)
}

pub open spec fn tile_text(t: TileTyV) -> Seq<char> {
    match t {
        TileTyV::Scalar(_) => "scalar"@,
        TileTyV::Rank1(d) => "["@ + dim_text(d) + "]"@,
        TileTyV::Rank2(a, b) => "["@ + dim_text(a) + ", "@ + dim_text(b) + "]"@,
        TileTyV::Unknown => "<unknown>"@,
    }
}

impl TileTy {
    pub fn rank(&self) -> (r: Option<u32>)
        ensures
            r == rank_of(self@),
    {
        match self {
            TileTy::Scalar(_) => Some(0),
            TileTy::Rank1(_) => Some(1),
            TileTy::Rank2(_, _) => Some(2),
            TileTy::Unknown => None,
        }
    }

    pub fn is_unknown(&self) -> (r: bool)
        ensures
            r == (self@ is Unknown),
    {
        matches!(self, TileTy::Unknown)
    }

    pub fn is_scalar(&self) -> (r: bool)
        ensures
            r == (self@ is Scalar),
    {
        matches!(self, TileTy::Scalar(_))
    }

    /// The element kind, whatever the shape.
    pub fn elem(&self) -> (r: Elem)
        ensures
            r == elem_of(self@),
    {
        match self {
            TileTy::Scalar(e) => *e,
            TileTy::Rank1(_) | TileTy::Rank2(_, _) => Elem::Unknown,
            TileTy::Unknown => Elem::Unknown,
        }
    }

    /// The dimensions, or `None` where the shape is not known.
    pub fn dims(&self) -> (r: Option<Vec<Dim>>)
        ensures
            r is None <==> self@ is Unknown,
            r matches Some(v) ==> dims_view(v@) == dims_of(self@),
    {
        match self {
            TileTy::Scalar(_) => {
                let v: Vec<Dim> = Vec::new();
                assert(dims_view(v@) =~= dims_of(self@));
                Some(v)
            },
            TileTy::Rank1(d) => {
                let mut v: Vec<Dim> = Vec::new();
                v.push(d.copy());
                assert(dims_view(v@) =~= dims_of(self@));
                Some(v)
            },
            TileTy::Rank2(d0, d1) => {
                let mut v: Vec<Dim> = Vec::new();
                v.push(d0.copy());
                v.push(d1.copy());
                assert(dims_view(v@) =~= dims_of(self@));
                Some(v)
            },
            TileTy::Unknown => None,
        }
    }

    /// The shape with the given dimensions.
    pub fn from_dims(dims: Vec<Dim>, elem: Elem) -> (r: TileTy)
        requires
            dims@.len() <= 2,
        ensures
            r@ == shape_of_dims(dims_view(dims@), elem),
    {
        if dims.len() == 0 {
            TileTy::Scalar(elem)
        } else if dims.len() == 1 {
            TileTy::Rank1(dims[0].copy())
        } else {
            TileTy::Rank2(dims[0].copy(), dims[1].copy())
        }
    }

    /// How the shape is written.
    pub fn render(&self) -> (s: String)
        ensures
            s@ == tile_text(self@),
    {
        match self {
            TileTy::Scalar(_) => "scalar".to_owned(),
            TileTy::Rank1(d) => "[".to_owned().concat(d.render().as_str()).concat("]"),
            TileTy::Rank2(d0, d1) => "[".to_owned().concat(d0.render().as_str()).concat(
                ", ",
            ).concat(d1.render().as_str()).concat("]"),
            TileTy::Unknown => "<unknown>".to_owned(),
        }
    }

    pub fn copy(&self) -> (r: TileTy)
        ensures
            r@ == self@,
    {
        match self {
            TileTy::Scalar(e) => TileTy::Scalar(*e),
            TileTy::Rank1(d) => TileTy::Rank1(d.copy()),
            TileTy::Rank2(d0, d1) => TileTy::Rank2(d0.copy(), d1.copy()),
            TileTy::Unknown => TileTy::Unknown,
        }
    }
}

/// Two dimensions of one axis: equal ones match, and one of size 1 gives way to the other.
pub open spec fn joined_dim(a: DimV, b: DimV) -> Option<DimV> {
    if a == DimV::Const(1) {
        Some(b)
    } else if b == DimV::Const(1) || a == b {
        Some(a)
    } else {
        None
    }
}

pub fn broadcast_dim(a: &Dim, b: &Dim) -> (r: Result<Dim, ()>)
    ensures
        match r {
            Ok(d) => joined_dim(a@, b@) == Some(d@),
            Err(_) => joined_dim(a@, b@) is None,
        },
{
    if let Dim::Const(n) = a {
        if *n == 1 {
            return Ok(b.copy());
        }
    }
    if let Dim::Const(n) = b {
        if *n == 1 {
            return Ok(a.copy());
        }
    }
    if a.same(b) {
        Ok(a.copy())
    } else {
        Err(())
    }
}

/// The shape of an elementwise operation on two shapes, if they fit each other. A scalar fits
/// every shape; two tiles must have one rank and dimensions that match.
pub open spec fn joined(a: TileTyV, b: TileTyV) -> Option<TileTyV> {
    if a is Unknown || b is Unknown {
        Some(TileTyV::Unknown)
    } else {
        match (a, b) {
            (TileTyV::Scalar(x), TileTyV::Scalar(y)) => Some(TileTyV::Scalar(combined(x, y))),
            (TileTyV::Scalar(_), t) => Some(t),
            (t, TileTyV::Scalar(_)) => Some(t),
            (TileTyV::Rank1(x), TileTyV::Rank1(y)) => match joined_dim(x, y) {
                Some(d) => Some(TileTyV::Rank1(d)),
                None => None,
            },
            (TileTyV::Rank2(x0, x1), TileTyV::Rank2(y0, y1)) => match (
                joined_dim(x0, y0),
                joined_dim(x1, y1),
            ) {
                (Some(d0), Some(d1)) => Some(TileTyV::Rank2(d0, d1)),
                _ => None,
            },
            _ => None,
        }
    }
}

/// The shape of an elementwise operation on two tiles.
pub fn broadcast(a: &TileTy, b: &TileTy) -> (r: Result<TileTy, ()>)
    ensures
        match r {
            Ok(t) => joined(a@, b@) == Some(t@),
            Err(_) => joined(a@, b@) is None,
        },
{
    if a.is_unknown() || b.is_unknown() {
        return Ok(TileTy::Unknown);
    }
    let elem = a.elem().combine(b.elem());
    match (a.dims(), b.dims()) {
        (Some(da), Some(db)) => {
            assert(dims_view(da@).len() == da@.len());
            assert(dims_view(db@).len() == db@.len());
            if da.len() == 0 {
                return Ok(TileTy::from_dims(db, elem));
            }
            if db.len() == 0 {
                return Ok(TileTy::from_dims(da, elem));
            }
            if da.len() != db.len() {
                return Err(());
            }
            let ghost (va, vb) = (dims_view(da@), dims_view(db@));
            let mut out: Vec<Dim> = Vec::new();
            let mut i: usize = 0;
            while i < da.len()
                invariant
                    va == dims_view(da@),
                    vb == dims_view(db@),
                    va == dims_of(a@),
                    vb == dims_of(b@),
                    0 < da@.len() <= 2,
                    da@.len() == db@.len(),
                    !(a@ is Unknown),
                    !(b@ is Unknown),
                    i <= da@.len(),
                    out@.len() == i,
                    forall|j: int|
                        0 <= j < i ==> joined_dim(va[j], vb[j]) == Some((#[trigger] out@[j])@),
                decreases da@.len() - i,
            {
                match broadcast_dim(&da[i], &db[i]) {
                    Ok(d) => {
                        out.push(d);
                    },
                    Err(_) => {
                        proof {
                            assert(i == 0 || i == 1);
                            assert(va.len() == da@.len() && vb.len() == db@.len());
                            match (a@, b@) {
                                (TileTyV::Rank2(x0, x1), TileTyV::Rank2(y0, y1)) => {
                                    assert(va[0] == x0 && va[1] == x1 && vb[0] == y0 && vb[1] == y1);
                                },
                                (TileTyV::Rank1(x), TileTyV::Rank1(y)) => {
                                    assert(va[0] == x && vb[0] == y);
                                },
                                _ => {},
                            }
                            assert(joined_dim(va[0], vb[0]) is None || (i == 1 && joined_dim(
                                va[1],
                                vb[1],
                            ) is None));
                        }
                        return Err(());
                    },
                }
                i = i + 1;
            }
            proof {
                assert(joined_dim(va[0], vb[0]) == Some(out@[0]@));
                if da@.len() == 2 {
                    assert(joined_dim(va[1], vb[1]) == Some(out@[1]@));
                }
            }
            Ok(TileTy::from_dims(out, elem))
        },
        _ => Ok(TileTy::Unknown),
    }
}

/// One component of a subscript: an axis that is kept, or a new axis of size 1.
#[derive(Clone, Copy, Debug, PartialEq, Eq, Structural)]
pub enum ReshapeStep {
    Keep,
    Insert,
}

/// How many of the first `n` steps keep an axis.
pub open spec fn keeps(steps: Seq<ReshapeStep>, n: nat) -> nat
    decreases n,
{
    if n == 0 {
        0
    } else {
        keeps(steps, (n - 1) as nat) + if steps[n - 1] == ReshapeStep::Keep {
            1nat
        } else {
            0nat
        }
    }
}

/// The dimension that step `i` gives.
pub open spec fn step_dim(dims: Seq<DimV>, steps: Seq<ReshapeStep>, i: nat) -> DimV {
    if steps[i as int] == ReshapeStep::Keep {
        dims[keeps(steps, i) as int]
    } else {
        DimV::Const(1)
    }
}

/// The shape that a subscript makes of a shape: every axis of it is kept, in order, and at most
/// two axes result.
pub open spec fn reshaped(base: TileTyV, steps: Seq<ReshapeStep>) -> Option<TileTyV> {
    if base is Unknown {
        Some(TileTyV::Unknown)
    } else if keeps(steps, steps.len()) != dims_of(base).len() || steps.len() > 2 {
        None
    } else {
        Some(
            shape_of_dims(
                Seq::new(steps.len(), |i: int| step_dim(dims_of(base), steps, i as nat)),
                elem_of(base),
            ),
        )
    }
}

proof fn lemma_keeps_mono(steps: Seq<ReshapeStep>, i: nat, n: nat)
    requires
        i <= n,
    ensures
        keeps(steps, i) <= keeps(steps, n) <= n,
    decreases n,
{
    if i < n {
        lemma_keeps_mono(steps, i, (n - 1) as nat);
    } else if n > 0 {
        lemma_keeps_mono(steps, (n - 1) as nat, (n - 1) as nat);
    }
}

pub fn reshape(base: &TileTy, steps: &[ReshapeStep]) -> (r: Result<TileTy, ()>)
    ensures
        match r {
            Ok(t) => reshaped(base@, steps@) == Some(t@),
            Err(_) => reshaped(base@, steps@) is None,
        },
{
    match base.dims() {
        None => Ok(TileTy::Unknown),
        Some(base_dims) => {
            let ghost dims = dims_view(base_dims@);
            let mut keep_count: usize = 0;
            let mut i: usize = 0;
            while i < steps.len()
                invariant
                    i <= steps@.len(),
                    keep_count == keeps(steps@, i as nat),
                    keep_count <= i,
                decreases steps@.len() - i,
            {
                if steps[i] == ReshapeStep::Keep {
                    keep_count = keep_count + 1;
                }
                i = i + 1;
            }
            if keep_count != base_dims.len() {
                return Err(());
            }
            if steps.len() > 2 {
                return Err(());
            }
            let mut out: Vec<Dim> = Vec::new();
            let mut i: usize = 0;
            let mut next: usize = 0;
            while i < steps.len()
                invariant
                    dims == dims_view(base_dims@),
                    i <= steps@.len() <= 2,
                    next == keeps(steps@, i as nat),
                    keeps(steps@, steps@.len()) == base_dims@.len(),
                    out@.len() == i,
                    forall|j: int|
                        0 <= j < i ==> (#[trigger] out@[j])@ == step_dim(dims, steps@, j as nat),
                decreases steps@.len() - i,
            {
                proof {
                    lemma_keeps_mono(steps@, i as nat + 1, steps@.len());
                }
                match steps[i] {
                    ReshapeStep::Keep => {
                        out.push(base_dims[next].copy());
                        next = next + 1;
                    },
                    ReshapeStep::Insert => {
                        out.push(Dim::Const(1));
                    },
                }
                i = i + 1;
            }
            assert(dims_view(out@) =~= Seq::new(
                steps@.len(),
                |i: int| step_dim(dims, steps@, i as nat),
            ));
            Ok(TileTy::from_dims(out, base.elem()))
        },
    }
}

// ---- laws ----------------------------------------------------------------------------------

/// The order of the operands does not matter.
pub proof fn law_broadcast_commutes(a: TileTyV, b: TileTyV)
    ensures
        joined(a, b) == joined(b, a),
{
}

/// A shape fits itself.
pub proof fn law_broadcast_idempotent(a: TileTyV)
    ensures
        joined(a, a) == Some(a),
{
}

/// What is unknown stays unknown, and fits everything.
pub proof fn law_unknown_stays(a: TileTyV)
    ensures
        joined(TileTyV::Unknown, a) == Some(TileTyV::Unknown),
        joined(a, TileTyV::Unknown) == Some(TileTyV::Unknown),
{
}

/// A scalar leaves a tile as it is.
pub proof fn law_scalar_fits(e: Elem, t: TileTyV)
    requires
        !(t is Scalar),
    ensures
        joined(TileTyV::Scalar(e), t) == Some(t),
{
}

/// Among known shapes, it does not matter which pair is joined first.
pub proof fn law_broadcast_associates(a: TileTyV, b: TileTyV, c: TileTyV)
    requires
        !(a is Unknown),
        !(b is Unknown),
        !(c is Unknown),
    ensures
        (match joined(a, b) {
            Some(t) => joined(t, c),
            None => None,
        }) == (match joined(b, c) {
            Some(t) => joined(a, t),
            None => None,
        }),
{
}

/// Two tiles of different rank never fit.
pub proof fn law_ranks_must_agree(a: TileTyV, b: TileTyV)
    requires
        rank_of(a) != rank_of(b),
        rank_of(a) == Some(1u32) || rank_of(a) == Some(2u32),
        rank_of(b) == Some(1u32) || rank_of(b) == Some(2u32),
    ensures
        joined(a, b) is None,
{
}

/// A subscript of bare colons, one for each axis, changes nothing.
pub proof fn law_reshape_identity(t: TileTyV)
    ensures
        rank_of(t) == Some(1u32) ==> reshaped(t, seq![ReshapeStep::Keep]) == Some(t),
        rank_of(t) == Some(2u32) ==> reshaped(t, seq![ReshapeStep::Keep, ReshapeStep::Keep])
            == Some(t),
{
    let s1 = seq![ReshapeStep::Keep];
    let s2 = seq![ReshapeStep::Keep, ReshapeStep::Keep];
    reveal_with_fuel(keeps, 3);
    assert(keeps(s1, 1) == 1);
    assert(keeps(s2, 2) == 2);
}

/// The rank of a reshaped tile is the number of components of the subscript.
pub proof fn law_reshape_rank(t: TileTyV, steps: Seq<ReshapeStep>)
    requires
        !(t is Unknown),
        reshaped(t, steps) is Some,
    ensures
        rank_of(reshaped(t, steps)->0) == Some(steps.len() as u32),
{
}

} // verus!
