//! The symbol table: a stack of scopes, each with five namespaces. Values (variables, functions
//! and enumeration constants) share one; structs, unions, enums and typedefs have one each.

use vstd::prelude::*;
use vstd::string::*;

use crate::assoc::Assoc;
use crate::sema::ty::{tys_view, Ty, TyV};

verus! {

/// A field: its name, its type, and whether it is `const`.
#[derive(Debug)]
pub struct Field {
    pub name: String,
    pub ty: Ty,
    pub is_const: bool,
}

/// The model of a field.
pub struct FieldV {
    pub name: Seq<char>,
    pub ty: TyV,
    pub is_const: bool,
}

impl View for Field {
    type V = FieldV;

    open spec fn view(&self) -> FieldV {
        FieldV { name: self.name@, ty: self.ty@, is_const: self.is_const }
    }
}

pub open spec fn fields_view(v: Seq<Field>) -> Seq<FieldV> {
    v.map_values(|f: Field| f@)
}

/// The fields of a struct or union, in order.
#[derive(Debug)]
pub struct StructInfo {
    pub fields: Vec<Field>,
}

impl View for StructInfo {
    type V = Seq<FieldV>;

    open spec fn view(&self) -> Seq<FieldV> {
        fields_view(self.fields@)
    }
}

#[derive(Debug)]
pub struct FuncSig {
    pub ret: Ty,
    pub params: Vec<Ty>,
    pub variadic: bool,
    pub is_kernel: bool,
}

/// The model of a signature.
pub struct FuncSigV {
    pub ret: TyV,
    pub params: Seq<TyV>,
    pub variadic: bool,
    pub is_kernel: bool,
}

impl View for FuncSig {
    type V = FuncSigV;

    open spec fn view(&self) -> FuncSigV {
        FuncSigV {
            ret: self.ret@,
            params: tys_view(self.params@),
            variadic: self.variadic,
            is_kernel: self.is_kernel,
        }
    }
}

impl FuncSig {
    pub fn copy(&self) -> (r: FuncSig)
        ensures
            r@ == self@,
    {
        FuncSig {
            ret: self.ret.copy(),
            params: Ty::copy_all(&self.params, self.params.len()),
            variadic: self.variadic,
            is_kernel: self.is_kernel,
        }
    }
}

#[derive(Debug)]
pub enum ValueSym {
    /// A variable, and whether it is `const`.
    Var(Ty, bool),
    Func(FuncSig),
    EnumConst(Ty),
}

/// The model of a value.
pub enum ValueSymV {
    Var(TyV, bool),
    Func(FuncSigV),
    EnumConst(TyV),
}

impl View for ValueSym {
    type V = ValueSymV;

    open spec fn view(&self) -> ValueSymV {
        match *self {
            ValueSym::Var(t, c) => ValueSymV::Var(t@, c),
            ValueSym::Func(f) => ValueSymV::Func(f@),
            ValueSym::EnumConst(t) => ValueSymV::EnumConst(t@),
        }
    }
}

/// What an enum tag stands for.
#[derive(Clone, Copy, Debug, PartialEq, Eq, Structural)]
pub struct EnumTag;

impl View for EnumTag {
    type V = EnumTag;

    open spec fn view(&self) -> EnumTag {
        *self
    }
}

#[derive(Debug)]
pub struct Scope {
    pub values: Assoc<ValueSym>,
    pub structs: Assoc<StructInfo>,
    pub unions: Assoc<StructInfo>,
    pub enums: Assoc<EnumTag>,
    pub typedefs: Assoc<Ty>,
}

/// The model of a scope.
pub struct ScopeV {
    pub values: Map<Seq<char>, ValueSymV>,
    pub structs: Map<Seq<char>, Seq<FieldV>>,
    pub unions: Map<Seq<char>, Seq<FieldV>>,
    pub enums: Map<Seq<char>, EnumTag>,
    pub typedefs: Map<Seq<char>, TyV>,
}

impl View for Scope {
    type V = ScopeV;

    open spec fn view(&self) -> ScopeV {
        ScopeV {
            values: self.values@,
            structs: self.structs@,
            unions: self.unions@,
            enums: self.enums@,
            typedefs: self.typedefs@,
        }
    }
}

pub open spec fn empty_scope() -> ScopeV {
    ScopeV {
        values: Map::empty(),
        structs: Map::empty(),
        unions: Map::empty(),
        enums: Map::empty(),
        typedefs: Map::empty(),
    }
}

/// Replaces the innermost scope.
pub open spec fn with_top(s: Seq<ScopeV>, top: ScopeV) -> Seq<ScopeV> {
    s.drop_last().push(top)
}

/// A value declared in the innermost scope.
pub open spec fn with_value(s: Seq<ScopeV>, name: Seq<char>, sym: ValueSymV) -> Seq<ScopeV> {
    with_top(s, ScopeV { values: s.last().values.insert(name, sym), ..s.last() })
}

pub open spec fn with_struct(s: Seq<ScopeV>, name: Seq<char>, info: Seq<FieldV>) -> Seq<ScopeV> {
    with_top(s, ScopeV { structs: s.last().structs.insert(name, info), ..s.last() })
}

pub open spec fn with_union(s: Seq<ScopeV>, name: Seq<char>, info: Seq<FieldV>) -> Seq<ScopeV> {
    with_top(s, ScopeV { unions: s.last().unions.insert(name, info), ..s.last() })
}

pub open spec fn with_enum(s: Seq<ScopeV>, name: Seq<char>) -> Seq<ScopeV> {
    with_top(s, ScopeV { enums: s.last().enums.insert(name, EnumTag), ..s.last() })
}

pub open spec fn with_typedef(s: Seq<ScopeV>, name: Seq<char>, ty: TyV) -> Seq<ScopeV> {
    with_top(s, ScopeV { typedefs: s.last().typedefs.insert(name, ty), ..s.last() })
}

/// What a name stands for: its binding in the innermost scope that has one.
pub open spec fn find_value(s: Seq<ScopeV>, name: Seq<char>) -> Option<ValueSymV>
    decreases s.len(),
{
    if s.len() == 0 {
        None
    } else if s.last().values.contains_key(name) {
        Some(s.last().values[name])
    } else {
        find_value(s.drop_last(), name)
    }
}

pub open spec fn find_struct(s: Seq<ScopeV>, name: Seq<char>) -> Option<Seq<FieldV>>
    decreases s.len(),
{
    if s.len() == 0 {
        None
    } else if s.last().structs.contains_key(name) {
        Some(s.last().structs[name])
    } else {
        find_struct(s.drop_last(), name)
    }
}

pub open spec fn find_union(s: Seq<ScopeV>, name: Seq<char>) -> Option<Seq<FieldV>>
    decreases s.len(),
{
    if s.len() == 0 {
        None
    } else if s.last().unions.contains_key(name) {
        Some(s.last().unions[name])
    } else {
        find_union(s.drop_last(), name)
    }
}

pub open spec fn find_enum(s: Seq<ScopeV>, name: Seq<char>) -> Option<EnumTag>
    decreases s.len(),
{
    if s.len() == 0 {
        None
    } else if s.last().enums.contains_key(name) {
        Some(s.last().enums[name])
    } else {
        find_enum(s.drop_last(), name)
    }
}

pub open spec fn find_typedef(s: Seq<ScopeV>, name: Seq<char>) -> Option<TyV>
    decreases s.len(),
{
    if s.len() == 0 {
        None
    } else if s.last().typedefs.contains_key(name) {
        Some(s.last().typedefs[name])
    } else {
        find_typedef(s.drop_last(), name)
    }
}

/// The scope stack, modelled by its scopes from the outermost to the innermost.
#[derive(Debug)]
pub struct ScopeStack {
    scopes: Vec<Scope>,
}

pub open spec fn scopes_view(v: Seq<Scope>) -> Seq<ScopeV> {
    v.map_values(|s: Scope| s@)
}

impl View for ScopeStack {
    type V = Seq<ScopeV>;

    closed spec fn view(&self) -> Seq<ScopeV> {
        scopes_view(self.scopes@)
    }
}

impl ScopeStack {
    pub fn new() -> (r: ScopeStack)
        ensures
            r@ == Seq::<ScopeV>::empty(),
    {
        let r = ScopeStack { scopes: Vec::new() };
        assert(r@ =~= Seq::<ScopeV>::empty());
        r
    }

    /// Opens a scope.
    pub fn push(&mut self)
        ensures
            final(self)@ == old(self)@.push(empty_scope()),
    {
        self.scopes.push(
            Scope {
                values: Assoc::new(),
                structs: Assoc::new(),
                unions: Assoc::new(),
                enums: Assoc::new(),
                typedefs: Assoc::new(),
            },
        );
        assert(self@ =~= old(self)@.push(empty_scope()));
    }

    /// Closes the innermost scope, if there is one.
    pub fn pop(&mut self)
        ensures
            final(self)@ == if old(self)@.len() == 0 {
                old(self)@
            } else {
                old(self)@.drop_last()
            },
    {
        self.scopes.pop();
        assert(self@ =~= if old(self)@.len() == 0 {
            old(self)@
        } else {
            old(self)@.drop_last()
        });
    }

    /// Declares a value in the innermost scope; true if that scope had one of this name.
    pub fn declare_value(&mut self, name: &str, sym: ValueSym) -> (existed: bool)
        requires
            old(self)@.len() > 0,
        ensures
            existed == old(self)@.last().values.contains_key(name@),
            final(self)@ == with_value(old(self)@, name@, sym@),
    {
        let n: usize = self.scopes.len();
        let existed = self.scopes[n - 1].values.contains(name);
        self.scopes[n - 1].values.insert(name, sym);
        assert(self@ =~= with_value(old(self)@, name@, sym@));
        existed
    }

    pub fn declare_struct(&mut self, name: &str, info: StructInfo) -> (existed: bool)
        requires
            old(self)@.len() > 0,
        ensures
            existed == old(self)@.last().structs.contains_key(name@),
            final(self)@ == with_struct(old(self)@, name@, info@),
    {
        let n: usize = self.scopes.len();
        let existed = self.scopes[n - 1].structs.contains(name);
        self.scopes[n - 1].structs.insert(name, info);
        assert(self@ =~= with_struct(old(self)@, name@, info@));
        existed
    }

    pub fn declare_union(&mut self, name: &str, info: StructInfo) -> (existed: bool)
        requires
            old(self)@.len() > 0,
        ensures
            existed == old(self)@.last().unions.contains_key(name@),
            final(self)@ == with_union(old(self)@, name@, info@),
    {
        let n: usize = self.scopes.len();
        let existed = self.scopes[n - 1].unions.contains(name);
        self.scopes[n - 1].unions.insert(name, info);
        assert(self@ =~= with_union(old(self)@, name@, info@));
        existed
    }

    pub fn declare_enum(&mut self, name: &str) -> (existed: bool)
        requires
            old(self)@.len() > 0,
        ensures
            existed == old(self)@.last().enums.contains_key(name@),
            final(self)@ == with_enum(old(self)@, name@),
    {
        let n: usize = self.scopes.len();
        let existed = self.scopes[n - 1].enums.contains(name);
        self.scopes[n - 1].enums.insert(name, EnumTag);
        assert(self@ =~= with_enum(old(self)@, name@));
        existed
    }

    pub fn declare_typedef(&mut self, name: &str, ty: Ty) -> (existed: bool)
        requires
            old(self)@.len() > 0,
        ensures
            existed == old(self)@.last().typedefs.contains_key(name@),
            final(self)@ == with_typedef(old(self)@, name@, ty@),
    {
        let n: usize = self.scopes.len();
        let existed = self.scopes[n - 1].typedefs.contains(name);
        self.scopes[n - 1].typedefs.insert(name, ty);
        assert(self@ =~= with_typedef(old(self)@, name@, ty@));
        existed
    }

    pub fn lookup_value(&self, name: &str) -> (r: Option<&ValueSym>)
        ensures
            match r {
                Some(v) => find_value(self@, name@) == Some(v@),
                None => find_value(self@, name@) is None,
            },
    {
        let mut i: usize = self.scopes.len();
        assert(self@.take(i as int) =~= self@);
        while i > 0
            invariant
                i <= self@.len(),
                self@.len() == self.scopes@.len(),
                find_value(self@, name@) == find_value(self@.take(i as int), name@),
            decreases i,
        {
            i = i - 1;
            let ghost head = self@.take(i as int + 1);
            assert(head.drop_last() =~= self@.take(i as int));
            assert(head.last() == self.scopes@[i as int]@);
            if let Some(v) = self.scopes[i].values.get(name) {
                return Some(v);
            }
        }
        None
    }

    pub fn lookup_struct(&self, name: &str) -> (r: Option<&StructInfo>)
        ensures
            match r {
                Some(v) => find_struct(self@, name@) == Some(v@),
                None => find_struct(self@, name@) is None,
            },
    {
        let mut i: usize = self.scopes.len();
        assert(self@.take(i as int) =~= self@);
        while i > 0
            invariant
                i <= self@.len(),
                self@.len() == self.scopes@.len(),
                find_struct(self@, name@) == find_struct(self@.take(i as int), name@),
            decreases i,
        {
            i = i - 1;
            let ghost head = self@.take(i as int + 1);
            assert(head.drop_last() =~= self@.take(i as int));
            assert(head.last() == self.scopes@[i as int]@);
            if let Some(v) = self.scopes[i].structs.get(name) {
                return Some(v);
            }
        }
        None
    }

    pub fn lookup_union(&self, name: &str) -> (r: Option<&StructInfo>)
        ensures
            match r {
                Some(v) => find_union(self@, name@) == Some(v@),
                None => find_union(self@, name@) is None,
            },
    {
        let mut i: usize = self.scopes.len();
        assert(self@.take(i as int) =~= self@);
        while i > 0
            invariant
                i <= self@.len(),
                self@.len() == self.scopes@.len(),
                find_union(self@, name@) == find_union(self@.take(i as int), name@),
            decreases i,
        {
            i = i - 1;
            let ghost head = self@.take(i as int + 1);
            assert(head.drop_last() =~= self@.take(i as int));
            assert(head.last() == self.scopes@[i as int]@);
            if let Some(v) = self.scopes[i].unions.get(name) {
                return Some(v);
            }
        }
        None
    }

    pub fn lookup_enum(&self, name: &str) -> (r: Option<()>)
        ensures
            r is Some <==> find_enum(self@, name@) is Some,
    {
        let mut i: usize = self.scopes.len();
        assert(self@.take(i as int) =~= self@);
        while i > 0
            invariant
                i <= self@.len(),
                self@.len() == self.scopes@.len(),
                find_enum(self@, name@) == find_enum(self@.take(i as int), name@),
            decreases i,
        {
            i = i - 1;
            let ghost head = self@.take(i as int + 1);
            assert(head.drop_last() =~= self@.take(i as int));
            assert(head.last() == self.scopes@[i as int]@);
            if self.scopes[i].enums.contains(name) {
                return Some(());
            }
        }
        None
    }

    pub fn lookup_typedef(&self, name: &str) -> (r: Option<&Ty>)
        ensures
            match r {
                Some(v) => find_typedef(self@, name@) == Some(v@),
                None => find_typedef(self@, name@) is None,
            },
    {
        let mut i: usize = self.scopes.len();
        assert(self@.take(i as int) =~= self@);
        while i > 0
            invariant
                i <= self@.len(),
                self@.len() == self.scopes@.len(),
                find_typedef(self@, name@) == find_typedef(self@.take(i as int), name@),
            decreases i,
        {
            i = i - 1;
            let ghost head = self@.take(i as int + 1);
            assert(head.drop_last() =~= self@.take(i as int));
            assert(head.last() == self.scopes@[i as int]@);
            if let Some(v) = self.scopes[i].typedefs.get(name) {
                return Some(v);
            }
        }
        None
    }
}

// ---- laws ----------------------------------------------------------------------------------

/// A name that was just declared stands for its declaration, whatever an outer scope has.
pub proof fn law_declared_is_found(s: Seq<ScopeV>, name: Seq<char>, sym: ValueSymV)
    requires
        s.len() > 0,
    ensures
        find_value(with_value(s, name, sym), name) == Some(sym),
{
}

/// A declaration leaves every other name as it was.
pub proof fn law_declaring_keeps_others(
    s: Seq<ScopeV>,
    name: Seq<char>,
    sym: ValueSymV,
    other: Seq<char>,
)
    requires
        s.len() > 0,
        other != name,
    ensures
        find_value(with_value(s, name, sym), other) == find_value(s, other),
{
    assert(with_value(s, name, sym).drop_last() =~= s.drop_last());
}

/// A new scope hides nothing, and closing a scope undoes what was declared in it.
pub proof fn law_scope_is_undone(s: Seq<ScopeV>, name: Seq<char>, sym: ValueSymV, other: Seq<char>)
    ensures
        find_value(s.push(empty_scope()), other) == find_value(s, other),
        with_value(s.push(empty_scope()), name, sym).drop_last() == s,
{
    assert(s.push(empty_scope()).drop_last() =~= s);
    assert(with_value(s.push(empty_scope()), name, sym).drop_last() =~= s);
}

/// The five namespaces are apart: a value declared under a name leaves the tags and typedefs of
/// that name alone.
pub proof fn law_namespaces_are_apart(
    s: Seq<ScopeV>,
    name: Seq<char>,
    sym: ValueSymV,
    other: Seq<char>,
)
    requires
        s.len() > 0,
    ensures
        find_struct(with_value(s, name, sym), other) == find_struct(s, other),
        find_union(with_value(s, name, sym), other) == find_union(s, other),
        find_enum(with_value(s, name, sym), other) == find_enum(s, other),
        find_typedef(with_value(s, name, sym), other) == find_typedef(s, other),
{
    assert(with_value(s, name, sym).drop_last() =~= s.drop_last());
}

} // verus!
