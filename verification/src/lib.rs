//! VINTAGE-1: a fantasy 8-bit computer built around an NMOS 6502 core,
//! with its assembler, disassembler and memory-mapped machine.

pub mod isa;
pub mod cpu;
pub mod machine;
pub mod text;
pub mod dis;
pub mod assembler;
pub mod toolchain;
