//! Lowering of plain-old-data C++ struct declarations to a Rust
//! representation with a proven C-compatible memory layout.

pub mod ast;
pub mod diagnostics;
pub mod intern;
pub mod ir;
