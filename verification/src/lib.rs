pub mod ast;
pub mod binder;
pub mod diag;
pub mod infer;
pub mod registry;
pub mod wrap;
