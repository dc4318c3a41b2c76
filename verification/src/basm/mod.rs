//! The Bob assembler: bassembly text to a bobject file, in four steps: lexing,
//! parsing, laying out symbols, and generating words and relocations.
pub mod lexer;
pub mod parser;
pub mod pass1;
pub mod pass2;

use vstd::prelude::*;

verus! {

/// A value together with the source line it came from.
#[derive(Debug, Clone)]
pub struct Spanned<T> {
    pub value: T,
    pub line: usize,
}

} // verus!
