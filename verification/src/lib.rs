//! A macro-assembler and executor for a minimal counter-machine language.
//!
//! Registers hold unbounded natural numbers; the only primitive operations
//! are zeroing, incrementing, moving, conditional jumping on register
//! equality, and printing.  A hygienic macro language with lexically scoped
//! registers and labels is expanded into a flat instruction stream, labels
//! are resolved to absolute addresses in two passes, and the resulting
//! program runs on an unbounded-precision register machine.

pub mod bignat;
pub mod cli_parser;
pub mod error;
pub mod lexer;
pub mod meta;
pub mod meta2;
pub mod parser;
pub mod util;
pub mod vm;
