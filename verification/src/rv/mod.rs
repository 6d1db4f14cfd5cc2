pub mod accepted;
pub mod atomic;
pub mod check;
pub mod enc;
pub mod exec;
pub mod flow;
pub mod inst;
pub mod lower;
pub mod machine;
pub mod softfloat;
pub mod softfloat_ref;
pub mod softfloat_run;
pub mod thread;
pub mod word;
