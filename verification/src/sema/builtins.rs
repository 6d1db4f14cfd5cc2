//! What the names that CUDA brings along stand for.

use vstd::prelude::*;

use crate::sema::c_ast::ScalarKind;
use crate::sema::c_calls::{lemma_atomic_names, lemma_names, lemma_runtime_names};
use crate::sema::checker::{field_of, find_field, with_device_builtins, with_runtime_api};
use crate::sema::scope::{find_struct, find_value, FuncSigV, ScopeV, ValueSymV};
use crate::sema::ty::TyV;

verus! {

/// The signature of a function of the device that takes the given types and gives an `int`.
pub open spec fn gives_int(params: Seq<TyV>) -> ValueSymV {
    ValueSymV::Func(
        FuncSigV {
            ret: TyV::Scalar(ScalarKind::Int),
            params,
            variadic: false,
            is_kernel: false,
        },
    )
}

proof fn lemma_dim_names()
    ensures
        "threadIdx"@.len() == 9 && "threadIdx"@[0] == 't',
        "blockIdx"@.len() == 8 && "blockIdx"@[0] == 'b' && "blockIdx"@[5] == 'I',
        "blockDim"@.len() == 8 && "blockDim"@[0] == 'b' && "blockDim"@[5] == 'D',
        "gridDim"@.len() == 7,
        "x"@ != "y"@,
        "x"@ != "z"@,
        "y"@ != "z"@,
{
    reveal_strlit("threadIdx");
    reveal_strlit("blockIdx");
    reveal_strlit("blockDim");
    reveal_strlit("gridDim");
    reveal_strlit("x");
    reveal_strlit("y");
    reveal_strlit("z");
    assert("x"@[0] == 'x' && "y"@[0] == 'y' && "z"@[0] == 'z');
}

/// In a function of the device `threadIdx`, `blockIdx`, `blockDim` and `gridDim` have the members
/// `x`, `y` and `z`, each an unsigned integer.
pub proof fn law_coordinates_are_known(s: Seq<ScopeV>, name: Seq<char>, member: Seq<char>)
    requires
        s.len() > 0,
        name == "threadIdx"@ || name == "blockIdx"@ || name == "blockDim"@ || name == "gridDim"@,
        member == "x"@ || member == "y"@ || member == "z"@,
    ensures
        ({
            let inside = with_device_builtins(s);
            &&& find_value(inside, name) matches Some(ValueSymV::Var(t, fixed)) && !fixed && (
            t matches TyV::Struct(tag) && (find_struct(inside, tag) matches Some(fs) && (field_of(
                fs,
                member,
            ) matches Some(f) && f.ty == TyV::Scalar(ScalarKind::UInt))))
        }),
{
    lemma_dim_names();
    lemma_names();
    lemma_atomic_names();
    reveal_with_fuel(find_field, 4);
}

/// The builtins of a warp take integers and give one: a shuffle two, a vote one.
pub proof fn law_warp_builtins_are_known(s: Seq<ScopeV>, name: Seq<char>)
    requires
        s.len() > 0,
    ensures
        ({
            let i = TyV::Scalar(ScalarKind::Int);
            let inside = with_device_builtins(s);
            &&& name == "__shfl"@ || name == "__shfl_up"@ || name == "__shfl_down"@ || name
                == "__shfl_xor"@ ==> find_value(inside, name) == Some(gives_int(seq![i, i]))
            &&& name == "__ballot"@ || name == "__any"@ || name == "__all"@ ==> find_value(
                inside,
                name,
            ) == Some(gives_int(seq![i]))
        }),
{
    lemma_names();
    lemma_atomic_names();
}

/// The atomic builtins take a pointer to `int` and one `int`, a swap two, and give an `int`.
pub proof fn law_atomic_builtins_are_known(s: Seq<ScopeV>, name: Seq<char>)
    requires
        s.len() > 0,
    ensures
        ({
            let i = TyV::Scalar(ScalarKind::Int);
            let p = TyV::Pointer(Box::new(i), false);
            let inside = with_device_builtins(s);
            &&& name == "atomicAdd"@ || name == "atomicSub"@ || name == "atomicExch"@ || name
                == "atomicMin"@ || name == "atomicMax"@ || name == "atomicAnd"@ || name
                == "atomicOr"@ || name == "atomicXor"@ ==> find_value(inside, name) == Some(
                gives_int(seq![p, i]),
            )
            &&& name == "atomicCAS"@ ==> find_value(inside, name) == Some(gives_int(seq![p, i, i]))
        }),
{
    lemma_atomic_names();
}

/// Everywhere the runtime offers its calls: `cudaMalloc` takes where to put a pointer and a size,
/// `cudaMemcpy` two pointers of which the second is only read, a size and a direction, `cudaFree` a
/// pointer and `cudaDeviceSynchronize` nothing; each gives an `int`.
pub proof fn law_runtime_is_known(s: Seq<ScopeV>)
    requires
        s.len() > 0,
    ensures
        ({
            let i = TyV::Scalar(ScalarKind::Int);
            let void = TyV::Scalar(ScalarKind::Void);
            let size = TyV::Scalar(ScalarKind::ULong);
            let p = TyV::Pointer(Box::new(void), false);
            let all = with_runtime_api(s);
            &&& find_value(all, "cudaMalloc"@) == Some(
                gives_int(seq![TyV::Pointer(Box::new(p), false), size]),
            )
            &&& find_value(all, "cudaMemcpy"@) == Some(
                gives_int(seq![p, TyV::Pointer(Box::new(void), true), size, i]),
            )
            &&& find_value(all, "cudaFree"@) == Some(gives_int(seq![p]))
            &&& find_value(all, "cudaDeviceSynchronize"@) == Some(gives_int(Seq::empty()))
            &&& find_value(all, "cudaMemcpyHostToDevice"@) == Some(ValueSymV::EnumConst(i))
            &&& find_value(all, "cudaMemcpyDeviceToHost"@) == Some(ValueSymV::EnumConst(i))
        }),
{
    lemma_runtime_names();
    reveal_strlit("cudaMemcpyHostToHost");
    reveal_strlit("cudaMemcpyHostToDevice");
    reveal_strlit("cudaMemcpyDeviceToHost");
    reveal_strlit("cudaMemcpyDeviceToDevice");
    reveal_strlit("cudaMemcpyDefault");
    assert("cudaMemcpyHostToHost"@.len() == 20);
    assert("cudaMemcpyHostToDevice"@.len() == 22);
    assert("cudaMemcpyDeviceToHost"@.len() == 22);
    assert("cudaMemcpyDeviceToDevice"@.len() == 24);
    assert("cudaMemcpyDefault"@.len() == 17);
    assert("cudaMemcpyHostToDevice"@[10] != "cudaMemcpyDeviceToHost"@[10]);
}

} // verus!
