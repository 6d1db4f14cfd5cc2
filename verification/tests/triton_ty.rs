use basalt::sema::triton_ty::{broadcast, reshape, Dim, Elem, ReshapeStep, TileTy};

#[test]
fn scalar_broadcasts_freely_against_any_rank() {
    let s = TileTy::Scalar(Elem::Int);
    let r1 = TileTy::Rank1(Dim::Const(4));
    assert_eq!(broadcast(&s, &r1), Ok(TileTy::Rank1(Dim::Const(4))));
    assert_eq!(broadcast(&r1, &s), Ok(TileTy::Rank1(Dim::Const(4))));
}

#[test]
fn same_rank_equal_dims_match() {
    let a = TileTy::Rank1(Dim::Const(8));
    let b = TileTy::Rank1(Dim::Const(8));
    assert_eq!(broadcast(&a, &b), Ok(TileTy::Rank1(Dim::Const(8))));
}

#[test]
fn rank_mismatch_between_two_tile_ranks_is_refused() {
    let a = TileTy::Rank1(Dim::Const(8));
    let b = TileTy::Rank2(Dim::Const(8), Dim::Const(8));
    assert!(broadcast(&a, &b).is_err());
}

#[test]
fn unequal_concrete_dims_are_refused() {
    let a = TileTy::Rank1(Dim::Const(8));
    let b = TileTy::Rank1(Dim::Const(16));
    assert!(broadcast(&a, &b).is_err());
}

#[test]
fn size_one_axis_broadcasts_against_a_symbolic_dim() {
    let a = TileTy::Rank2(Dim::Const(1), Dim::Symbolic("N".to_string()));
    let b = TileTy::Rank2(Dim::Symbolic("M".to_string()), Dim::Const(1));
    assert_eq!(
        broadcast(&a, &b),
        Ok(TileTy::Rank2(
            Dim::Symbolic("M".to_string()),
            Dim::Symbolic("N".to_string())
        ))
    );
}

#[test]
fn concrete_vs_differently_named_symbolic_is_refused_not_guessed() {
    let a = TileTy::Rank1(Dim::Const(128));
    let b = TileTy::Rank1(Dim::Symbolic("BLOCK".to_string()));
    assert!(broadcast(&a, &b).is_err());
}

#[test]
fn reshape_inserts_axis_for_matmul_style_tile_construction() {
    let row = TileTy::Rank1(Dim::Symbolic("BLOCK_M".to_string()));
    let reshaped = reshape(&row, &[ReshapeStep::Keep, ReshapeStep::Insert]).unwrap();
    assert_eq!(
        reshaped,
        TileTy::Rank2(Dim::Symbolic("BLOCK_M".to_string()), Dim::Const(1))
    );
}

#[test]
fn triton_ty_reshape_beyond_rank_two_is_refused() {
    let row = TileTy::Rank1(Dim::Const(4));
    let steps = [ReshapeStep::Insert, ReshapeStep::Keep, ReshapeStep::Insert];
    assert!(reshape(&row, &steps).is_err());
}

#[test]
fn broadcasting_commutes_and_associates() {
    let name = |s: &str| Dim::Symbolic(s.to_string());
    let tiles = [
        TileTy::Unknown,
        TileTy::Scalar(Elem::Int),
        TileTy::Scalar(Elem::Float),
        TileTy::Rank1(Dim::Const(1)),
        TileTy::Rank1(Dim::Const(8)),
        TileTy::Rank1(name("B")),
        TileTy::Rank2(Dim::Const(1), name("N")),
        TileTy::Rank2(name("M"), Dim::Const(1)),
        TileTy::Rank2(name("M"), name("N")),
    ];
    for a in &tiles {
        assert_eq!(broadcast(&TileTy::Unknown, a), Ok(TileTy::Unknown));
        if !a.is_scalar() {
            assert_eq!(broadcast(a, a).as_ref(), Ok(a));
        }
        for b in &tiles {
            if !a.is_scalar() || !b.is_scalar() {
                assert_eq!(broadcast(a, b), broadcast(b, a));
            }
            if !a.is_unknown() && !b.is_unknown() && !a.is_scalar() && !b.is_scalar() && a.rank() != b.rank() {
                assert!(broadcast(a, b).is_err());
            }
        }
    }
}

#[test]
fn keeping_every_axis_changes_nothing() {
    let two = TileTy::Rank2(Dim::Const(4), Dim::Symbolic("N".to_string()));
    assert_eq!(reshape(&two, &[ReshapeStep::Keep, ReshapeStep::Keep]), Ok(two.copy()));
    let one = TileTy::Rank1(Dim::Const(4));
    assert_eq!(reshape(&one, &[ReshapeStep::Keep]), Ok(one.copy()));
    assert_eq!(
        reshape(&one, &[ReshapeStep::Insert, ReshapeStep::Keep]),
        Ok(TileTy::Rank2(Dim::Const(1), Dim::Const(4)))
    );
    assert!(reshape(&one, &[ReshapeStep::Keep, ReshapeStep::Keep]).is_err());
}
