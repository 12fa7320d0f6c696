//! A compiler for an extended tape-machine language: source text is parsed
//! into a tree of statements, which can be printed back or translated to C.
pub mod arch;
pub mod intermediate;
pub mod parser;
pub mod text;
pub mod theorems;
