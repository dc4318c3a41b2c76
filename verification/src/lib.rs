//! The Bob toolchain: object and executable formats, an assembler, a linker,
//! a 16-bit machine and the front and back ends of two compilers.
pub mod wire;
pub mod text;
pub mod bobin;
pub mod bobj;
pub mod bob16;
pub mod boblc;
pub mod basm;
pub mod bl;
