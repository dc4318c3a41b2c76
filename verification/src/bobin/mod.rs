//! The executable ("bobinary") format: the memory image of a linked program.
pub mod bobinary;
pub mod parse;
