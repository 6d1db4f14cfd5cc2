use basalt::bir::{
    AddrSpace, BinOp, Block, BlockId, CastOp, Function, ICmpPred, Inst, InstId, LaunchBounds, MmaLayout, Module, Op,
    Scalar, ShuffleKind, Term, Ty, ValRef,
};
use basalt::diag::ECode;
use basalt::rv::lower::{emit_function, is_lowerable, Object, Rv32, Support};

fn wrap(f: Function) -> Module {
    Module {
        funcs: vec![f],
        launch_bounds: None,
        shared_mem_bytes: 0,
        target_dtypes: vec![],
    }
}

/// The kernel's one symbol covers all of its code, which is whole instructions.
fn has_symbol_and_code(o: &Object, symbol: &str) {
    assert_eq!(o.symbol, symbol);
    assert!(!o.text.is_empty());
    assert_eq!(o.text.len() % 4, 0);
}

fn func_ret_const() -> Function {
    Function {
        is_kernel: true,
        name: "ret_const".into(),
        params: vec![],
        ret: Ty::Scalar(Scalar::I32),
        insts: vec![Inst {
            ty: Ty::Scalar(Scalar::I32),
            op: Op::ConstInt(42),
        }],
        blocks: vec![Block {
            insts: vec![InstId(0)],
            term: Term::Ret(Some(ValRef::Val(InstId(0)))),
        }],
    }
}

fn func_add_i32() -> Function {
    Function {
        is_kernel: true,
        name: "add_i32".into(),
        params: vec![Ty::Scalar(Scalar::I32), Ty::Scalar(Scalar::I32)],
        ret: Ty::Scalar(Scalar::I32),
        insts: vec![Inst {
            ty: Ty::Scalar(Scalar::I32),
            op: Op::Bin(BinOp::Add, ValRef::Param(0), ValRef::Param(1)),
        }],
        blocks: vec![Block {
            insts: vec![InstId(0)],
            term: Term::Ret(Some(ValRef::Val(InstId(0)))),
        }],
    }
}

fn func_max_i32() -> Function {
    Function {
        is_kernel: true,
        name: "max_i32".into(),
        params: vec![Ty::Scalar(Scalar::I32), Ty::Scalar(Scalar::I32)],
        ret: Ty::Scalar(Scalar::I32),
        insts: vec![Inst {
            ty: Ty::Scalar(Scalar::I1),
            op: Op::ICmp(
                ICmpPred::Sgt,
                Ty::Scalar(Scalar::I32),
                ValRef::Param(0),
                ValRef::Param(1),
            ),
        }],
        blocks: vec![
            Block {
                insts: vec![InstId(0)],
                term: Term::CondBr(ValRef::Val(InstId(0)), BlockId(1), BlockId(2)),
            },
            Block {
                insts: vec![],
                term: Term::Ret(Some(ValRef::Param(0))),
            },
            Block {
                insts: vec![],
                term: Term::Ret(Some(ValRef::Param(1))),
            },
        ],
    }
}

/// Exercises the thread index, pointer arithmetic and a store, once for each thread.
fn func_write_idx() -> Function {
    Function {
        is_kernel: true,
        name: "write_idx".into(),
        params: vec![Ty::Ptr(AddrSpace::Global)],
        ret: Ty::Void,
        insts: vec![
            Inst {
                ty: Ty::Scalar(Scalar::I32),
                op: Op::TidX,
            },
            Inst {
                ty: Ty::Scalar(Scalar::I32),
                op: Op::ConstInt(4),
            },
            Inst {
                ty: Ty::Scalar(Scalar::I32),
                op: Op::Bin(BinOp::Mul, ValRef::Val(InstId(0)), ValRef::Val(InstId(1))),
            },
            Inst {
                ty: Ty::Ptr(AddrSpace::Global),
                op: Op::Cast(
                    CastOp::Bitcast,
                    Ty::Scalar(Scalar::I32),
                    ValRef::Val(InstId(2)),
                ),
            },
            Inst {
                ty: Ty::Ptr(AddrSpace::Global),
                op: Op::Bin(BinOp::Add, ValRef::Param(0), ValRef::Val(InstId(3))),
            },
            Inst {
                ty: Ty::Void,
                op: Op::Store {
                    ptr: ValRef::Val(InstId(4)),
                    val: ValRef::Val(InstId(0)),
                    ty: Ty::Scalar(Scalar::I32),
                    space: AddrSpace::Global,
                    align: 4,
                    volatile: false,
                },
            },
        ],
        blocks: vec![Block {
            insts: (0..6).map(InstId).collect(),
            term: Term::Ret(None),
        }],
    }
}

/// `c[i] = a[i] + b[i]`, on floats.
fn func_vector_add() -> Function {
    let ptr_g = Ty::Ptr(AddrSpace::Global);
    let i32t = Ty::Scalar(Scalar::I32);
    let f32t = Ty::Scalar(Scalar::F32);
    Function {
        is_kernel: true,
        name: "vector_add".into(),
        params: vec![ptr_g, ptr_g, ptr_g, i32t],
        ret: Ty::Void,
        insts: vec![
            Inst {
                ty: i32t,
                op: Op::TidX,
            }, // 0
            Inst {
                ty: i32t,
                op: Op::ConstInt(4),
            }, // 1
            Inst {
                ty: i32t,
                op: Op::Bin(BinOp::Mul, ValRef::Val(InstId(0)), ValRef::Val(InstId(1))),
            }, // 2: byte offset
            Inst {
                ty: ptr_g,
                op: Op::Cast(CastOp::Bitcast, i32t, ValRef::Val(InstId(2))),
            }, // 3
            Inst {
                ty: ptr_g,
                op: Op::Bin(BinOp::Add, ValRef::Param(0), ValRef::Val(InstId(3))),
            }, // 4: &a[i]
            Inst {
                ty: ptr_g,
                op: Op::Bin(BinOp::Add, ValRef::Param(1), ValRef::Val(InstId(3))),
            }, // 5: &b[i]
            Inst {
                ty: ptr_g,
                op: Op::Bin(BinOp::Add, ValRef::Param(2), ValRef::Val(InstId(3))),
            }, // 6: &c[i]
            Inst {
                ty: f32t,
                op: Op::Load {
                    ptr: ValRef::Val(InstId(4)),
                    space: AddrSpace::Global,
                    align: 4,
                    volatile: false,
                },
            }, // 7: a[i]
            Inst {
                ty: f32t,
                op: Op::Load {
                    ptr: ValRef::Val(InstId(5)),
                    space: AddrSpace::Global,
                    align: 4,
                    volatile: false,
                },
            }, // 8: b[i]
            Inst {
                ty: f32t,
                op: Op::Bin(BinOp::FAdd, ValRef::Val(InstId(7)), ValRef::Val(InstId(8))),
            }, // 9
            Inst {
                ty: Ty::Void,
                op: Op::Store {
                    ptr: ValRef::Val(InstId(6)),
                    val: ValRef::Val(InstId(9)),
                    ty: f32t,
                    space: AddrSpace::Global,
                    align: 4,
                    volatile: false,
                },
            }, // 10
        ],
        blocks: vec![Block {
            insts: (0..11).map(InstId).collect(),
            term: Term::Ret(None),
        }],
    }
}

fn func_f64_scope_cut() -> Function {
    Function {
        is_kernel: true,
        name: "f64_add".into(),
        params: vec![Ty::Scalar(Scalar::F64), Ty::Scalar(Scalar::F64)],
        ret: Ty::Scalar(Scalar::F64),
        insts: vec![Inst {
            ty: Ty::Scalar(Scalar::F64),
            op: Op::Bin(BinOp::FAdd, ValRef::Param(0), ValRef::Param(1)),
        }],
        blocks: vec![Block {
            insts: vec![InstId(0)],
            term: Term::Ret(Some(ValRef::Val(InstId(0)))),
        }],
    }
}

#[test]
fn supports_a_module_using_only_implemented_ops() {
    assert_eq!(Rv32.supports(&wrap(func_ret_const())), Support::Supported);
    assert_eq!(Rv32.supports(&wrap(func_add_i32())), Support::Supported);
    assert_eq!(Rv32.supports(&wrap(func_max_i32())), Support::Supported);
    assert_eq!(Rv32.supports(&wrap(func_write_idx())), Support::Supported);
    assert_eq!(Rv32.supports(&wrap(func_vector_add())), Support::Supported);
}

#[test]
fn refuses_f64_arithmetic_with_e091() {
    assert_eq!(
        Rv32.supports(&wrap(func_f64_scope_cut())),
        Support::Unsupported(ECode::UnsupportedType)
    );
}

#[test]
fn refuses_mma_with_e099() {
    let f = Function {
        is_kernel: true,
        name: "mma".into(),
        params: vec![Ty::Ptr(AddrSpace::Global); 4],
        ret: Ty::Void,
        insts: vec![Inst {
            ty: Ty::Void,
            op: Op::Mma {
                a: ValRef::Param(0),
                b: ValRef::Param(1),
                c: ValRef::Param(2),
                d: ValRef::Param(3),
                m: 2,
                n: 2,
                k: 2,
                in_dtype: Scalar::F32,
                acc_dtype: Scalar::F32,
                layout_a: MmaLayout::RowMajor,
                layout_b: MmaLayout::RowMajor,
            },
        }],
        blocks: vec![Block {
            insts: vec![InstId(0)],
            term: Term::Ret(None),
        }],
    };
    assert_eq!(
        Rv32.supports(&wrap(f)),
        Support::Unsupported(ECode::MatrixPathUnsupported)
    );
}

#[test]
fn refuses_shuffle_with_e090() {
    let f = Function {
        is_kernel: true,
        name: "shuf".into(),
        params: vec![Ty::Scalar(Scalar::I32)],
        ret: Ty::Void,
        insts: vec![Inst {
            ty: Ty::Scalar(Scalar::I32),
            op: Op::Shuffle(
                ShuffleKind::Idx,
                ValRef::Param(0),
                ValRef::Param(0),
            ),
        }],
        blocks: vec![Block {
            insts: vec![InstId(0)],
            term: Term::Ret(None),
        }],
    };
    assert_eq!(
        Rv32.supports(&wrap(f)),
        Support::Unsupported(ECode::UnsupportedOp)
    );
}

#[test]
fn refuses_kernel_launch_and_cuda_runtime_api_ops_with_e090() {
    let f = Function {
        is_kernel: true,
        name: "launch_stub".into(),
        params: vec![],
        ret: Ty::Void,
        insts: vec![Inst {
            ty: Ty::Void,
            op: Op::CudaDeviceSynchronize,
        }],
        blocks: vec![Block {
            insts: vec![InstId(0)],
            term: Term::Ret(None),
        }],
    };
    assert_eq!(
        Rv32.supports(&wrap(f)),
        Support::Unsupported(ECode::UnsupportedOp)
    );
}

#[test]
fn refuses_function_call_with_e090() {
    let f = Function {
        is_kernel: true,
        name: "caller".into(),
        params: vec![Ty::Scalar(Scalar::I32)],
        ret: Ty::Scalar(Scalar::I32),
        insts: vec![Inst {
            ty: Ty::Scalar(Scalar::I32),
            op: Op::Call {
                func: "callee".into(),
                args: vec![ValRef::Param(0)],
            },
        }],
        blocks: vec![Block {
            insts: vec![InstId(0)],
            term: Term::Ret(Some(ValRef::Val(InstId(0)))),
        }],
    };
    assert_eq!(
        Rv32.supports(&wrap(f)),
        Support::Unsupported(ECode::UnsupportedOp)
    );
}

#[test]
fn refuses_multi_function_module_with_e093() {
    let module = Module {
        funcs: vec![func_ret_const(), func_add_i32()],
        launch_bounds: None,
        shared_mem_bytes: 0,
        target_dtypes: vec![],
    };
    assert_eq!(
        Rv32.supports(&module),
        Support::Unsupported(ECode::UnsupportedFeature)
    );
}

#[test]
fn refuses_non_kernel_function_with_e093() {
    let mut f = func_ret_const();
    f.is_kernel = false;
    assert_eq!(
        Rv32.supports(&wrap(f)),
        Support::Unsupported(ECode::UnsupportedFeature)
    );
}

#[test]
fn refuses_too_many_integer_params_with_e093() {
    // 8 i32 params leaves no register for the trailing nthreads argument.
    let f = Function {
        is_kernel: true,
        name: "toomany".into(),
        params: vec![Ty::Scalar(Scalar::I32); 8],
        ret: Ty::Void,
        insts: vec![],
        blocks: vec![Block {
            insts: vec![],
            term: Term::Ret(None),
        }],
    };
    assert_eq!(
        Rv32.supports(&wrap(f)),
        Support::Unsupported(ECode::UnsupportedFeature)
    );
}

#[test]
fn emits_valid_elf_for_ret_const() {
    let artifact = Rv32
        .emit(&wrap(func_ret_const()))
        .expect("emit succeeds");
    has_symbol_and_code(&artifact, "ret_const");
}

#[test]
fn emits_valid_elf_for_add_i32() {
    let artifact = Rv32
        .emit(&wrap(func_add_i32()))
        .expect("emit succeeds");
    has_symbol_and_code(&artifact, "add_i32");
}

#[test]
fn emits_valid_elf_for_condbr() {
    let artifact = Rv32
        .emit(&wrap(func_max_i32()))
        .expect("emit succeeds");
    has_symbol_and_code(&artifact, "max_i32");
}

#[test]
fn emits_valid_elf_for_thread_index_loop() {
    let artifact = Rv32
        .emit(&wrap(func_write_idx()))
        .expect("emit succeeds");
    has_symbol_and_code(&artifact, "write_idx");
}

#[test]
fn emits_valid_elf_for_vector_add() {
    let artifact = Rv32
        .emit(&wrap(func_vector_add()))
        .expect("emit succeeds");
    has_symbol_and_code(&artifact, "vector_add");
}

#[test]
fn emit_refuses_what_supports_refuses() {
    let f = Function {
        is_kernel: true,
        name: "shuf".into(),
        params: vec![Ty::Scalar(Scalar::I32)],
        ret: Ty::Void,
        insts: vec![Inst {
            ty: Ty::Scalar(Scalar::I32),
            op: Op::Shuffle(
                ShuffleKind::Idx,
                ValRef::Param(0),
                ValRef::Param(0),
            ),
        }],
        blocks: vec![Block {
            insts: vec![InstId(0)],
            term: Term::Ret(None),
        }],
    };
    let err = Rv32
        .emit(&wrap(f))
        .expect_err("must refuse, not guess");
    assert_eq!(err.code, ECode::UnsupportedOp);
}

#[test]
fn emit_is_deterministic() {
    let module = wrap(func_vector_add());
    let a = Rv32.emit(&module).unwrap();
    let b = Rv32.emit(&module).unwrap();
    assert_eq!(
        a, b,
        "same module in must yield byte-identical artifact out"
    );
}

#[test]
fn name_is_stable() {
    assert_eq!(Rv32.name(), "rv32im");
}

#[test]
fn ignores_launch_bounds_metadata() {
    let mut module = wrap(func_ret_const());
    module.launch_bounds = Some(LaunchBounds {
        max_threads: 128,
        min_blocks: 2,
    });
    assert_eq!(Rv32.supports(&module), Support::Supported);
}

#[test]
fn i64_add_sub_mul_and_icmp_are_supported() {
    let i64t = Ty::Scalar(Scalar::I64);
    for op in [
        BinOp::Add,
        BinOp::Sub,
        BinOp::Mul,
        BinOp::And,
        BinOp::Or,
        BinOp::Xor,
    ] {
        let build = || Function {
            is_kernel: true,
            name: "i64bin".into(),
            params: vec![i64t, i64t],
            ret: i64t,
            insts: vec![Inst {
                ty: i64t,
                op: Op::Bin(op, ValRef::Param(0), ValRef::Param(1)),
            }],
            blocks: vec![Block {
                insts: vec![InstId(0)],
                term: Term::Ret(Some(ValRef::Val(InstId(0)))),
            }],
        };
        assert_eq!(Rv32.supports(&wrap(build())), Support::Supported);
        let artifact = Rv32
            .emit(&wrap(build()))
            .expect("emit succeeds");
        has_symbol_and_code(&artifact, "i64bin");
    }
}

#[test]
fn i64_shift_and_div_are_refused() {
    let i64t = Ty::Scalar(Scalar::I64);
    for op in [BinOp::Shl, BinOp::Lshr, BinOp::Ashr, BinOp::Div, BinOp::Rem] {
        let f = Function {
            is_kernel: true,
            name: "i64shift".into(),
            params: vec![i64t, i64t],
            ret: i64t,
            insts: vec![Inst {
                ty: i64t,
                op: Op::Bin(op, ValRef::Param(0), ValRef::Param(1)),
            }],
            blocks: vec![Block {
                insts: vec![InstId(0)],
                term: Term::Ret(Some(ValRef::Val(InstId(0)))),
            }],
        };
        assert_eq!(
            Rv32.supports(&wrap(f)),
            Support::Unsupported(ECode::UnsupportedType)
        );
    }
}

/// A kernel of one block.
fn kernel_of(params: Vec<Ty>, insts: Vec<Inst>, term: Term) -> Function {
    let all = (0..insts.len() as u32).map(InstId).collect();
    Function {
        is_kernel: true,
        name: "k".into(),
        params,
        ret: Ty::Void,
        insts,
        blocks: vec![Block { insts: all, term }],
    }
}

#[test]
fn a_thread_index_of_64_bits_is_refused() {
    let i64_ty = Ty::Scalar(Scalar::I64);
    for op in [Op::TidX, Op::TidY, Op::BidX, Op::BdimX, Op::BdimZ, Op::GdimY] {
        let m = wrap(kernel_of(vec![], vec![Inst { ty: i64_ty, op }], Term::Ret(None)));
        assert_eq!(Rv32.supports(&m), Support::Unsupported(ECode::UnsupportedType));
        assert_eq!(Rv32.emit(&m).unwrap_err().code, ECode::UnsupportedType);
    }
    // One that stands in no block is never lowered.
    let mut unused = kernel_of(vec![], vec![Inst { ty: i64_ty, op: Op::TidX }], Term::Ret(None));
    unused.blocks[0].insts.clear();
    let m = wrap(unused);
    assert_eq!(Rv32.supports(&m), Support::Supported);
    has_symbol_and_code(&Rv32.emit(&m).unwrap(), "k");
    let m = wrap(kernel_of(vec![], vec![Inst { ty: Ty::Scalar(Scalar::I32), op: Op::TidX }], Term::Ret(None)));
    assert_eq!(Rv32.supports(&m), Support::Supported);
    has_symbol_and_code(&Rv32.emit(&m).unwrap(), "k");
}

#[test]
fn a_switch_on_64_bits_is_refused() {
    let switch = |v: ValRef| Term::Switch(v, BlockId(0), vec![(1, BlockId(0))]);
    let wide = wrap(kernel_of(vec![Ty::Scalar(Scalar::I64)], vec![], switch(ValRef::Param(0))));
    assert_eq!(Rv32.supports(&wide), Support::Unsupported(ECode::UnsupportedType));
    assert_eq!(Rv32.emit(&wide).unwrap_err().code, ECode::UnsupportedType);
    let constant = vec![Inst { ty: Ty::Scalar(Scalar::I64), op: Op::ConstInt(1) }];
    let made = wrap(kernel_of(vec![], constant, switch(ValRef::Val(InstId(0)))));
    assert_eq!(Rv32.supports(&made), Support::Unsupported(ECode::UnsupportedType));
    let word = wrap(kernel_of(vec![Ty::Scalar(Scalar::I32)], vec![], switch(ValRef::Param(0))));
    assert_eq!(Rv32.supports(&word), Support::Supported);
    has_symbol_and_code(&Rv32.emit(&word).unwrap(), "k");
}

#[test]
fn code_that_a_jump_cannot_cross_is_refused() {
    let number = || Inst { ty: Ty::Scalar(Scalar::I32), op: Op::ConstInt(0x1234_5678) };
    let long = kernel_of(vec![], (0..60_000).map(|_| number()).collect(), Term::Ret(None));
    assert!(is_lowerable(&long));
    assert_eq!(emit_function(&long).unwrap_err().code, ECode::UnsupportedFeature);
    let m = wrap(long);
    assert_eq!(Rv32.supports(&m), Support::Supported);
    assert_eq!(Rv32.emit(&m).unwrap_err().code, ECode::UnsupportedFeature);
    let short = kernel_of(vec![], (0..30_000).map(|_| number()).collect(), Term::Ret(None));
    assert!(emit_function(&short).is_ok());
}

#[test]
fn what_can_be_lowered_is_told_from_what_cannot() {
    let i32_ty = Ty::Scalar(Scalar::I32);
    let p = ValRef::Param(0);
    let one = |op: Op| kernel_of(vec![i32_ty], vec![Inst { ty: i32_ty, op }], Term::Ret(None));
    assert!(is_lowerable(&one(Op::Bin(BinOp::Add, p, p))));
    assert!(!is_lowerable(&one(Op::Bin(BinOp::FAdd, p, p))));
    assert!(!is_lowerable(&one(Op::Bin(BinOp::Add, p, ValRef::Param(1)))));
    assert!(!is_lowerable(&one(Op::Bin(BinOp::Add, p, ValRef::Val(InstId(1))))));
    // What a phi takes matters on the edges that there are.
    let phi = |from: u32| Op::Phi(vec![(BlockId(from), ValRef::Param(7))]);
    assert!(is_lowerable(&one(phi(0))));
    let again = |op: Op| kernel_of(vec![i32_ty], vec![Inst { ty: i32_ty, op }], Term::Br(BlockId(0)));
    assert!(!is_lowerable(&again(phi(0))));
    assert!(is_lowerable(&again(phi(5))));
    assert!(emit_function(&again(phi(5))).is_ok());
    assert!(is_lowerable(&again(Op::Phi(vec![(BlockId(0), p)]))));
    assert!(!is_lowerable(&kernel_of(vec![], vec![], Term::Br(BlockId(1)))));
    assert!(is_lowerable(&kernel_of(vec![], vec![], Term::Br(BlockId(0)))));
    assert!(!is_lowerable(&kernel_of(vec![i32_ty], vec![], Term::Ret(Some(p)))));
    assert!(is_lowerable(&func_ret_const()));
}

#[test]
fn what_a_module_says_beside_its_function_does_not_matter() {
    let plain = wrap(func_ret_const());
    let decorated = Module {
        funcs: vec![func_ret_const()],
        launch_bounds: Some(LaunchBounds { max_threads: 128, min_blocks: 2 }),
        shared_mem_bytes: 4096,
        target_dtypes: vec![Scalar::F16],
    };
    assert_eq!(Rv32.supports(&plain), Rv32.supports(&decorated));
    assert_eq!(Rv32.emit(&plain).unwrap(), Rv32.emit(&decorated).unwrap());
}
