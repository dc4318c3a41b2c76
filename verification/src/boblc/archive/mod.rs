//! The archive compiler: a stack language of words, compiled straight to bassembly.
pub mod codegen;
pub mod lex;
pub mod literalpool;
pub mod opt;
pub mod parse;
pub mod resolve_links;
pub mod resolve_includes;
pub mod stackcode;
