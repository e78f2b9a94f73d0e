//! Decoding of WebAssembly binary modules and a single-step evaluator for
//! the numeric and memory instructions.

pub mod error;
pub mod reader;
pub mod bytes;
pub mod codec;
pub mod ty;
pub mod expr;
pub mod function;
pub mod mem;
pub mod exec;
pub mod section;
