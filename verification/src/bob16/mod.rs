//! The Bob-16 machine: instruction decoding and execution.
pub mod inst;
pub mod machine;
