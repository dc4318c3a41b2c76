//! Optimizations of archive programs.
pub mod arith_imm;
