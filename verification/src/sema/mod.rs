pub mod blocks;
pub mod builder;
pub mod builtins;
pub mod c_ast;
pub mod c_calls;
pub mod c_decls;
pub mod c_exprs;
pub mod c_floats;
pub mod c_flow;
pub mod c_layout;
pub mod c_meaning;
pub mod checked;
pub mod checker;
pub mod grow;
pub mod labels;
pub mod lower;
pub mod lowered;
pub mod meaning;
pub mod scope;
pub mod sound;
pub mod triton_ast;
pub mod triton_check;
pub mod triton_flow;
pub mod triton_kernels;
pub mod triton_lower;
pub mod triton_masks;
pub mod triton_meaning;
pub mod triton_shapes;
pub mod triton_stmts;
pub mod triton_ty;
pub mod triton_uses;
pub mod ty;
pub mod typing;
pub mod typing_stmts;
pub mod uses;
