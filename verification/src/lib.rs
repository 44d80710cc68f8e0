//! A small computing platform: an assembler that turns line-oriented source
//! text into a fixed-width bytecode, and a register-based virtual machine that
//! executes that bytecode.



pub mod assembler;
pub mod instruction;
pub mod opcode;

pub mod repl;
pub mod text;
pub mod vm;

