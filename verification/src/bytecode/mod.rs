//! Bytecode: values, instructions, modules and their verification.

pub mod builder;
pub mod cap;
pub mod chunk;
pub mod disasm;
pub mod format;
pub mod instruction;
pub mod meaning;
pub mod opcode;
pub mod program;
pub mod restart;
pub mod value;
pub mod verify;
pub mod wire;
