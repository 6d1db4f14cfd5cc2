use basalt::sema::c_ast::ScalarKind;
use basalt::sema::scope::{Field, ScopeStack, StructInfo, ValueSym};
use basalt::sema::ty::{assignable, is_signed_kind, promote, Ty};

fn int_ty() -> Ty {
    Ty::Scalar(ScalarKind::Int)
}

fn pointer(t: Ty) -> Ty {
    Ty::Pointer(Box::new(t), false)
}

fn var_ty(s: &ScopeStack, name: &str) -> Option<Ty> {
    match s.lookup_value(name) {
        Some(ValueSym::Var(t, _)) => Some(t.copy()),
        _ => None,
    }
}

#[test]
fn an_inner_declaration_hides_an_outer_one_until_its_scope_is_closed() {
    let mut s = ScopeStack::new();
    s.push();
    assert!(!s.declare_value("x", ValueSym::Var(int_ty(), false)));
    assert!(s.declare_value("x", ValueSym::Var(int_ty(), false)));
    s.push();
    assert!(!s.declare_value("x", ValueSym::Var(pointer(int_ty()), true)));
    assert!(var_ty(&s, "x").unwrap().is_pointer());
    assert!(s.lookup_value("y").is_none());
    s.pop();
    assert!(var_ty(&s, "x").unwrap().same(&int_ty()));
}

#[test]
fn tags_typedefs_and_values_of_one_name_are_apart() {
    let mut s = ScopeStack::new();
    s.push();
    let fields = vec![Field { name: "a".into(), ty: int_ty(), is_const: false }];
    assert!(!s.declare_struct("n", StructInfo { fields }));
    assert!(!s.declare_union("n", StructInfo { fields: vec![] }));
    assert!(!s.declare_enum("n"));
    assert!(!s.declare_typedef("n", pointer(int_ty())));
    assert!(s.lookup_value("n").is_none());
    assert_eq!(s.lookup_struct("n").unwrap().fields.len(), 1);
    assert_eq!(s.lookup_union("n").unwrap().fields.len(), 0);
    assert!(s.lookup_enum("n").is_some());
    assert!(s.lookup_typedef("n").unwrap().is_pointer());
    assert!(s.declare_struct("n", StructInfo { fields: vec![] }));
    assert!(s.lookup_enum("m").is_none());
}

#[test]
fn what_fits_where() {
    let kinds = [ScalarKind::Bool, ScalarKind::Char, ScalarKind::UInt, ScalarKind::Long, ScalarKind::Double];
    for a in kinds {
        for b in kinds {
            assert!(assignable(&Ty::Scalar(a), &Ty::Scalar(b)));
        }
        assert!(assignable(&Ty::Unknown, &Ty::Scalar(a)));
        assert!(assignable(&Ty::Scalar(a), &Ty::Unknown));
    }
    let s = || Ty::Struct("s".into());
    assert!(assignable(&s(), &s()));
    assert!(!assignable(&s(), &Ty::Struct("t".into())));
    assert!(!assignable(&s(), &Ty::Union("s".into())));
    assert!(!assignable(&s(), &int_ty()));
    assert!(assignable(&pointer(int_ty()), &int_ty()));
    assert!(!assignable(&pointer(int_ty()), &Ty::Scalar(ScalarKind::Float)));
    assert!(assignable(&pointer(int_ty()), &Ty::Array(Box::new(int_ty()))));
}

#[test]
fn operands_are_promoted_to_the_wider_kind() {
    let of = |a: ScalarKind, b: ScalarKind| match promote(&Ty::Scalar(a), &Ty::Scalar(b)) {
        Ty::Scalar(k) => k,
        other => panic!("{other:?}"),
    };
    assert_eq!(of(ScalarKind::Char, ScalarKind::Short), ScalarKind::Int);
    assert_eq!(of(ScalarKind::Int, ScalarKind::Long), ScalarKind::Long);
    assert_eq!(of(ScalarKind::ULongLong, ScalarKind::Float), ScalarKind::Float);
    assert_eq!(of(ScalarKind::Double, ScalarKind::Float), ScalarKind::Double);
    assert!(is_signed_kind(ScalarKind::Long));
    assert!(!is_signed_kind(ScalarKind::UChar));
}

#[test]
fn what_a_pointer_says_of_const_does_not_keep_a_value_out() {
    let to = |t: Ty, c: bool| Ty::Pointer(Box::new(t), c);
    let ch = || Ty::Scalar(ScalarKind::Char);
    let list = |c: bool| Ty::Array(Box::new(to(ch(), c)));
    let function = |c: bool| Ty::Function { ret: Box::new(to(ch(), c)), params: vec![to(ch(), !c)], variadic: false };
    for (a, b) in [
        (to(ch(), true), to(ch(), false)),
        (to(to(ch(), true), true), to(to(ch(), false), false)),
        (to(to(to(ch(), false), true), false), to(to(to(ch(), true), false), true)),
        (to(list(true), false), to(list(false), false)),
        (to(function(true), false), to(function(false), true)),
    ] {
        assert!(assignable(&a, &b) && assignable(&b, &a), "{a:?} {b:?}");
        assert!(a.same(&b));
    }
    assert!(assignable(&to(to(ch(), true), false), &list(false)));
    assert!(!assignable(&to(to(ch(), true), false), &to(to(int_ty(), true), false)));
    assert!(!assignable(&to(to(ch(), false), false), &to(ch(), false)));
}
