//! What calls of CUDA C become: builtins by their names, functions of the module, launches, and
//! the calls of the runtime.

use vstd::prelude::*;

use crate::bir::{AddrSpace, AtomicOp, InstV, OpV, Scalar, ShuffleKind, Ty as BTy, ValRef};
use crate::sema::c_ast::{Expr, ScalarKind, UnaryOp};
use crate::sema::c_exprs::writes;
use crate::sema::lower::{
    aggregate, any_aggregate, any_unknown, bir_ty, callee_of, coerce_to_s, finish_call_s,
    lower_builtin_call_s, lower_call_args_s, lower_call_s, lower_cuda_malloc_call_s,
    lower_cuda_malloc_devptr_s, lower_expr_s, lower_kernel_launch_s, lower_launch_config_dim_s,
    lower_lvalue_s, lower_shared_s, lower_stream_s, push_s, push_void_s, store_addr_s, zero_of_s,
    LwState,
};
use crate::sema::ty::TyV;

verus! {

/// The type `int`.
pub open spec fn int_type() -> TyV {
    TyV::Scalar(ScalarKind::Int)
}

/// A call of the function of a name.
pub open spec fn calls(e: Expr, name: Seq<char>) -> bool {
    e matches Expr::Call { callee, .. } && (*callee matches Expr::Ident { name: n, .. } && n@ == name)
}

proof fn lemma_builtin(st: LwState, e: Expr, name: Seq<char>)
    requires
        calls(e, name),
        lower_builtin_call_s(st, name, e->Call_args@, e->Call_span).1 is Some,
    ensures
        ({
            let (end, r) = lower_builtin_call_s(st, name, e->Call_args@, e->Call_span);
            lower_expr_s(st, e) == (end, r->0)
        }),
{
    assert(lower_expr_s(st, e) == lower_call_s(st, e));
}

pub proof fn lemma_names()
    ensures
        "__syncthreads"@.len() == 13,
        "__shfl"@.len() == 6,
        "__shfl_up"@.len() == 9,
        "__shfl_down"@.len() == 11,
        "__shfl_xor"@.len() == 10,
        "__ballot"@.len() == 8,
        "__any"@.len() == 5,
        "__all"@.len() == 5,
        "__any"@[3] == 'n',
        "__all"@[3] == 'l',
        "__ballot"@[0] == '_',
        "__shfl_xor"@[0] == '_',
        "__shfl_up"@[0] == '_',
{
    reveal_strlit("__syncthreads");
    reveal_strlit("__shfl");
    reveal_strlit("__shfl_up");
    reveal_strlit("__shfl_down");
    reveal_strlit("__shfl_xor");
    reveal_strlit("__ballot");
    reveal_strlit("__any");
    reveal_strlit("__all");
}

pub proof fn lemma_atomic_names()
    ensures
        "atomicAdd"@.len() == 9 && "atomicAdd"@[0] == 'a' && "atomicAdd"@[6] == 'A'
            && "atomicAdd"@[7] == 'd',
        "atomicSub"@.len() == 9 && "atomicSub"@[0] == 'a' && "atomicSub"@[6] == 'S',
        "atomicExch"@.len() == 10 && "atomicExch"@[0] == 'a',
        "atomicMin"@.len() == 9 && "atomicMin"@[0] == 'a' && "atomicMin"@[6] == 'M'
            && "atomicMin"@[7] == 'i',
        "atomicMax"@.len() == 9 && "atomicMax"@[0] == 'a' && "atomicMax"@[6] == 'M'
            && "atomicMax"@[7] == 'a',
        "atomicAnd"@.len() == 9 && "atomicAnd"@[0] == 'a' && "atomicAnd"@[6] == 'A'
            && "atomicAnd"@[7] == 'n',
        "atomicOr"@.len() == 8 && "atomicOr"@[0] == 'a',
        "atomicXor"@.len() == 9 && "atomicXor"@[0] == 'a' && "atomicXor"@[6] == 'X',
        "atomicCAS"@.len() == 9 && "atomicCAS"@[0] == 'a' && "atomicCAS"@[6] == 'C',
{
    reveal_strlit("atomicAdd");
    reveal_strlit("atomicSub");
    reveal_strlit("atomicExch");
    reveal_strlit("atomicMin");
    reveal_strlit("atomicMax");
    reveal_strlit("atomicAnd");
    reveal_strlit("atomicOr");
    reveal_strlit("atomicXor");
    reveal_strlit("atomicCAS");
}

pub proof fn lemma_runtime_names()
    ensures
        "cudaMalloc"@.len() == 10 && "cudaMalloc"@[0] == 'c',
        "cudaMemcpy"@.len() == 10 && "cudaMemcpy"@[0] == 'c',
        "cudaMalloc"@[5] == 'a' && "cudaMemcpy"@[5] == 'e',
        "cudaFree"@.len() == 8 && "cudaFree"@[0] == 'c',
        "cudaDeviceSynchronize"@.len() == 21,
{
    reveal_strlit("cudaMalloc");
    reveal_strlit("cudaMemcpy");
    reveal_strlit("cudaFree");
    reveal_strlit("cudaDeviceSynchronize");
}

/// `__syncthreads()` is a barrier.
pub proof fn law_barrier(st: LwState, e: Expr)
    requires
        calls(e, "__syncthreads"@),
    ensures
        ({
            let s1 = lower_call_args_s(st, e->Call_args@, e->Call_args@.len()).0;
            let (end, (_, t)) = lower_expr_s(st, e);
            &&& t == TyV::Scalar(ScalarKind::Void)
            &&& end.b.insts.len() == s1.b.insts.len() + 2
            &&& end.b.insts[s1.b.insts.len() as int] == (InstV { ty: BTy::Void, op: OpV::Barrier })
        }),
{
    reveal(zero_of_s);
    lemma_builtin(st, e, "__syncthreads"@);
}

/// `__shfl`, `__shfl_up`, `__shfl_down` and `__shfl_xor` read their first argument from the lane
/// that the second one names: by its number, so many lower or higher, or with those bits changed.
pub proof fn law_shuffles(st: LwState, e: Expr, name: Seq<char>, kind: ShuffleKind)
    requires
        calls(e, name),
        (name, kind) == ("__shfl"@, ShuffleKind::Idx) || (name, kind) == (
            "__shfl_up"@,
            ShuffleKind::Up,
        ) || (name, kind) == ("__shfl_down"@, ShuffleKind::Down) || (name, kind) == (
            "__shfl_xor"@,
            ShuffleKind::Xor,
        ),
        ({
            let vals = lower_call_args_s(st, e->Call_args@, e->Call_args@.len()).1;
            vals.len() == 2 && !any_unknown(vals)
        }),
    ensures
        ({
            let (s1, vals) = lower_call_args_s(st, e->Call_args@, e->Call_args@.len());
            let (s2, x) = coerce_to_s(s1, vals[0].0, vals[0].1, int_type());
            let (s3, lane) = coerce_to_s(s2, vals[1].0, vals[1].1, int_type());
            let (end, (v, t)) = lower_expr_s(st, e);
            &&& (end, v) == push_s(s3, BTy::Scalar(Scalar::I32), OpV::Shuffle(kind, x, lane))
            &&& t == int_type()
        }),
{
    lemma_names();
    lemma_builtin(st, e, name);
}

/// `__ballot`, `__any` and `__all` ask every thread of the warp for its argument.
pub proof fn law_votes(st: LwState, e: Expr, name: Seq<char>)
    requires
        calls(e, name),
        name == "__ballot"@ || name == "__any"@ || name == "__all"@,
        ({
            let vals = lower_call_args_s(st, e->Call_args@, e->Call_args@.len()).1;
            vals.len() == 1 && !(vals[0].1 is Unknown)
        }),
    ensures
        ({
            let (s1, vals) = lower_call_args_s(st, e->Call_args@, e->Call_args@.len());
            let (s2, x) = coerce_to_s(s1, vals[0].0, vals[0].1, int_type());
            let (end, (v, t)) = lower_expr_s(st, e);
            let op = if name == "__ballot"@ {
                OpV::Ballot(x)
            } else if name == "__any"@ {
                OpV::VoteAny(x)
            } else {
                OpV::VoteAll(x)
            };
            &&& (end, v) == push_s(s2, BTy::Scalar(Scalar::I32), op)
            &&& t == int_type()
        }),
{
    lemma_names();
    lemma_builtin(st, e, name);
}

/// The operation of an atomic builtin.
pub open spec fn atomic_named(name: Seq<char>, op: AtomicOp) -> bool {
    ||| name == "atomicAdd"@ && op == AtomicOp::Add
    ||| name == "atomicSub"@ && op == AtomicOp::Sub
    ||| name == "atomicExch"@ && op == AtomicOp::Exch
    ||| name == "atomicMin"@ && op == AtomicOp::Min
    ||| name == "atomicMax"@ && op == AtomicOp::Max
    ||| name == "atomicAnd"@ && op == AtomicOp::And
    ||| name == "atomicOr"@ && op == AtomicOp::Or
    ||| name == "atomicXor"@ && op == AtomicOp::Xor
}

/// An atomic builtin updates what its first argument points to with its second argument, by the
/// operation of its name.
pub proof fn law_atomics(st: LwState, e: Expr, name: Seq<char>, op: AtomicOp)
    requires
        calls(e, name),
        atomic_named(name, op),
        ({
            let vals = lower_call_args_s(st, e->Call_args@, e->Call_args@.len()).1;
            vals.len() == 2 && !any_unknown(vals) && (vals[0].1 is Pointer || vals[0].1 is Array)
        }),
    ensures
        ({
            let (s1, vals) = lower_call_args_s(st, e->Call_args@, e->Call_args@.len());
            let (s2, x) = coerce_to_s(s1, vals[1].0, vals[1].1, int_type());
            let (end, (v, t)) = lower_expr_s(st, e);
            &&& (end, v) == push_s(
                s2,
                BTy::Scalar(Scalar::I32),
                OpV::Atomic(op, vals[0].0, x, AddrSpace::Global),
            )
            &&& t == int_type()
        }),
{
    lemma_names();
    lemma_atomic_names();
    lemma_builtin(st, e, name);
}

/// `atomicCAS(p, expected, new)` puts `new` where `p` points to if `expected` is there.
pub proof fn law_compare_and_swap(st: LwState, e: Expr)
    requires
        calls(e, "atomicCAS"@),
        ({
            let vals = lower_call_args_s(st, e->Call_args@, e->Call_args@.len()).1;
            vals.len() == 3 && !any_unknown(vals) && (vals[0].1 is Pointer || vals[0].1 is Array)
        }),
    ensures
        ({
            let (s1, vals) = lower_call_args_s(st, e->Call_args@, e->Call_args@.len());
            let (s2, expected) = coerce_to_s(s1, vals[1].0, vals[1].1, int_type());
            let (s3, new) = coerce_to_s(s2, vals[2].0, vals[2].1, int_type());
            let (end, (v, t)) = lower_expr_s(st, e);
            &&& (end, v) == push_s(
                s3,
                BTy::Scalar(Scalar::I32),
                OpV::AtomicCas(vals[0].0, expected, new, AddrSpace::Global),
            )
            &&& t == int_type()
        }),
{
    lemma_names();
    lemma_atomic_names();
    lemma_builtin(st, e, "atomicCAS"@);
}

/// `cudaMemcpy(to, from, count, kind)` copies as its arguments say, `cudaFree(p)` frees `p`, and
/// `cudaDeviceSynchronize()` waits; each gives the success code, zero.
pub proof fn law_runtime_calls(st: LwState, e: Expr)
    ensures
        calls(e, "cudaMemcpy"@) ==> ({
            let (s1, vals) = lower_call_args_s(st, e->Call_args@, e->Call_args@.len());
            vals.len() == 4 && !any_unknown(vals) ==> ({
                let ulong = TyV::Scalar(ScalarKind::ULong);
                let (s2, count) = coerce_to_s(s1, vals[2].0, vals[2].1, ulong);
                let (s3, kind) = coerce_to_s(s2, vals[3].0, vals[3].1, int_type());
                let s4 = push_void_s(
                    s3,
                    OpV::CudaMemcpy { dst: vals[0].0, src: vals[1].0, count, kind },
                );
                let (end, (v, t)) = lower_expr_s(st, e);
                &&& (end, v) == push_s(s4, BTy::Scalar(Scalar::I32), OpV::ConstInt(0))
                &&& t == int_type()
            })
        }),
        calls(e, "cudaFree"@) ==> ({
            let (s1, vals) = lower_call_args_s(st, e->Call_args@, e->Call_args@.len());
            vals.len() == 1 && !(vals[0].1 is Unknown) ==> ({
                let s2 = push_void_s(s1, OpV::CudaFree { ptr: vals[0].0 });
                let (end, (v, t)) = lower_expr_s(st, e);
                &&& (end, v) == push_s(s2, BTy::Scalar(Scalar::I32), OpV::ConstInt(0))
                &&& t == int_type()
            })
        }),
        calls(e, "cudaDeviceSynchronize"@) ==> ({
            let s1 = lower_call_args_s(st, e->Call_args@, e->Call_args@.len()).0;
            let s2 = push_void_s(s1, OpV::CudaDeviceSynchronize);
            let (end, (v, t)) = lower_expr_s(st, e);
            &&& (end, v) == push_s(s2, BTy::Scalar(Scalar::I32), OpV::ConstInt(0))
            &&& t == int_type()
        }),
{
    reveal(zero_of_s);
    lemma_names();
    lemma_atomic_names();
    lemma_runtime_names();
    if calls(e, "cudaMemcpy"@) {
        lemma_builtin(st, e, "cudaMemcpy"@);
    }
    if calls(e, "cudaFree"@) {
        lemma_builtin(st, e, "cudaFree"@);
    }
    if calls(e, "cudaDeviceSynchronize"@) {
        lemma_builtin(st, e, "cudaDeviceSynchronize"@);
    }
}

/// `cudaMalloc(&p, size)` allocates as many bytes and writes where they are to `p`.
pub proof fn law_allocation(st: LwState, e: Expr)
    requires
        calls(e, "cudaMalloc"@),
        e->Call_args@.len() == 2,
        e->Call_args@[0] matches Expr::Unary { op, .. } && op == UnaryOp::Addr,
        ({
            let args = e->Call_args@;
            let (s1, (_, size_ty)) = lower_expr_s(st, args[1]);
            let p = lower_lvalue_s(s1, *args[0]->Unary_expr).1;
            !(size_ty is Unknown) && p.ty is Pointer
        }),
    ensures
        ({
            let args = e->Call_args@;
            let (s1, (size_v, size_ty)) = lower_expr_s(st, args[1]);
            let (s2, p) = lower_lvalue_s(s1, *args[0]->Unary_expr);
            let (s3, size) = coerce_to_s(s2, size_v, size_ty, TyV::Scalar(ScalarKind::ULong));
            let (s4, at) = push_s(s3, BTy::Ptr(AddrSpace::Global), OpV::CudaMalloc { size });
            let (end, (v, t)) = lower_expr_s(st, e);
            let n = s4.b.insts.len() as int;
            &&& end.b.insts.len() == n + 2
            &&& end.b.insts.take(n) == s4.b.insts
            &&& writes(end.b.insts[n], p, at)
            &&& end.b.insts[n + 1] == (InstV {
                ty: BTy::Scalar(Scalar::I32),
                op: OpV::ConstInt(0),
            })
            &&& t == int_type()
        }),
{
    reveal(zero_of_s);
    reveal(store_addr_s);
    lemma_names();
    lemma_atomic_names();
    lemma_runtime_names();
    lemma_builtin(st, e, "cudaMalloc"@);
    let args = e->Call_args@;
    let (s1, (size_v, size_ty)) = lower_expr_s(st, args[1]);
    let (s2, p) = lower_lvalue_s(s1, *args[0]->Unary_expr);
    assert(lower_cuda_malloc_devptr_s(s1, args[0], e->Call_span) == (s2, p));
    let (s3, size) = coerce_to_s(s2, size_v, size_ty, TyV::Scalar(ScalarKind::ULong));
    let (s4, at) = push_s(s3, BTy::Ptr(AddrSpace::Global), OpV::CudaMalloc { size });
    let end = lower_expr_s(st, e).0;
    assert(lower_cuda_malloc_call_s(st, args, e->Call_span).0 == end);
    crate::sema::c_exprs::law_reading_and_writing(s4, p, at);
    let n = s4.b.insts.len() as int;
    assert(end.b.insts.take(n) =~= s4.b.insts);
}

/// A call of a function of the module passes the values of its arguments in order, and its value
/// has the type that the function returns.
pub proof fn law_call(st: LwState, e: Expr, name: Seq<char>)
    requires
        calls(e, name),
        lower_builtin_call_s(st, name, e->Call_args@, e->Call_span) == (
            st,
            None::<(ValRef, TyV)>,
        ),
        ({
            let found = callee_of(st.scopes, *e->Call_callee);
            let vals = lower_call_args_s(st, e->Call_args@, e->Call_args@.len()).1;
            &&& found matches Some((n, ret)) && !aggregate(ret) && !(ret is Unknown) && ret
                != TyV::Scalar(ScalarKind::Void)
            &&& !any_aggregate(vals)
        }),
    ensures
        ({
            let (s1, vals) = lower_call_args_s(st, e->Call_args@, e->Call_args@.len());
            let ret = callee_of(st.scopes, *e->Call_callee)->Some_0.1;
            let (end, (v, t)) = lower_expr_s(st, e);
            &&& t == ret
            &&& end.b.insts.drop_last() == s1.b.insts
            &&& end.b.insts.last().ty == bir_ty(ret)
            &&& end.b.insts.last().op matches OpV::Call { func, args } && func == name && args.len()
                == vals.len() && forall|i: int| 0 <= i < vals.len() ==> args[i] == #[trigger] vals[i].0
        }),
{
    reveal(finish_call_s);
    assert(lower_expr_s(st, e) == lower_call_s(st, e));
    let s1 = lower_call_args_s(st, e->Call_args@, e->Call_args@.len()).0;
    assert(lower_expr_s(st, e).0.b.insts.drop_last() =~= s1.b.insts);
}

/// The arguments of a call are evaluated from left to right, one value for each.
pub proof fn law_arguments_in_order(st: LwState, args: Seq<Expr>, n: nat)
    requires
        0 < n <= args.len(),
    ensures
        ({
            let (s1, before) = lower_call_args_s(st, args, (n - 1) as nat);
            let (s2, last) = lower_expr_s(s1, args[n - 1]);
            lower_call_args_s(st, args, n) == (s2, before.push(last))
        }),
{
}

/// A launch names its kernel, and hands over the extents of the grid and of the block, the size of
/// the shared memory, the stream and the arguments, each in its place.
pub proof fn law_launch(st: LwState, e: Expr)
    requires
        e matches Expr::KernelLaunch { kernel, .. } && *kernel is Ident,
    ensures
        e matches Expr::KernelLaunch { kernel, grid, block, shared, stream, args, .. } && ({
            let (s1, g) = lower_launch_config_dim_s(st, *grid);
            let (s2, b) = lower_launch_config_dim_s(s1, *block);
            let (s3, sh) = lower_shared_s(s2, shared);
            let (s4, sm) = lower_stream_s(s3, stream);
            let (s5, vals) = lower_call_args_s(s4, args@, args@.len());
            let end = lower_expr_s(st, e).0;
            let i = end.b.insts[s5.b.insts.len() as int];
            i.op matches OpV::KernelLaunch {
                kernel: k,
                grid: gv,
                block: bv,
                shared: sv,
                stream: mv,
                args: av,
            } && k == kernel->Ident_name@ && gv == g && bv == b && sv == sh && mv == sm && av.len()
                == vals.len() && forall|j: int| 0 <= j < vals.len() ==> av[j] == #[trigger] vals[j].0
        }),
{
    reveal(zero_of_s);
    assert(lower_expr_s(st, e) == lower_kernel_launch_s(st, e));
}

/// An extent that is a number `n` is `(n, 1, 1)`.
pub proof fn law_plain_extent(st: LwState, e: Expr)
    requires
        !crate::sema::lower::dim3_extent(st.locals, e),
        !(lower_expr_s(st, e).1.1 is Unknown),
    ensures
        ({
            let (s1, (v, t)) = lower_expr_s(st, e);
            let (s2, x) = coerce_to_s(s1, v, t, TyV::Scalar(ScalarKind::UInt));
            let (s3, one) = push_s(s2, BTy::Scalar(Scalar::I32), OpV::ConstInt(1));
            let (end, dims) = lower_launch_config_dim_s(st, e);
            &&& end == s3
            &&& dims.len() == 3
            &&& dims[0] == x
            &&& dims[1] == one
            &&& dims[2] == one
        }),
{
}

} // verus!
