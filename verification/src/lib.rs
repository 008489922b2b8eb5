//! The Vaab virtual machine: values, the instruction set, the machine that
//! runs it, the scheduler its tasks share, and the standard library pieces
//! the machine leans on.

pub mod text;
pub mod error;
pub mod value;
pub mod builtin;
pub mod query;
pub mod bytecode;
pub mod ops;
pub mod show;
pub mod outside;
pub mod concurrency;
pub mod machine;
pub mod json;
pub mod step;
pub mod static_files;
pub mod auth;
pub mod log;
pub mod jit;
pub mod store;
pub mod logbook;
pub mod types;
