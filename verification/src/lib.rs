pub mod assoc;
pub mod bir;
pub mod bits;
pub mod diag;
pub mod numeral;
pub mod rv;
pub mod sema;
pub mod text;
