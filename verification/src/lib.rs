//! A Brainf*ck runtime: a tokeniser, a compressing and optimising
//! compiler to an instruction set, an interpreter for that instruction
//! set, and an emitter of WebAssembly code for each instruction.

pub mod tokeniser;
pub mod compiler;
pub mod instruction;
pub mod program;
