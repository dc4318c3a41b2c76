//! The Bob language compiler: from source text through a resolved tree and
//! three-address code to bassembly, and the older archive compiler.
pub mod archive;
pub mod ast;
pub mod codegen;
pub mod diag;
pub mod grammar;
pub mod lexer;
pub mod loader;
pub mod op;
pub mod opt;
pub mod parser;
pub mod rast;
pub mod rlower;
pub mod source;
pub mod tac;
pub mod taclower;
pub mod ty;
