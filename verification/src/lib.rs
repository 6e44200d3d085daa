//! Verified core of a small educational compiler for a toy imperative
//! language: a lexer and parser producing a typed abstract syntax tree,
//! a scoped symbol table, a generator lowering statements to a basic-block
//! intermediate representation with single-assignment values, and an
//! instruction selector emitting flat virtual-register pseudo-instructions.

pub mod ast;
pub mod codegen;
pub mod genil;
pub mod il;
pub mod lexer;
pub mod parser;
pub mod semantics;
pub mod ir;
pub mod source;
pub mod symtab;
pub mod token;
pub mod utils;
pub mod wasmgen;
pub mod value;
