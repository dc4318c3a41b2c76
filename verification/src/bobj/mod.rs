//! The relocatable object ("bobject") format that the assembler writes and the
//! linker reads.
pub mod bobject;
pub mod parse;
