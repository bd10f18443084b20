//! Why a trace could not be compiled.

use vstd::prelude::*;

use crate::bytecode::opcode::{opcode_name, Opcode};
use crate::text::{dec, owned, push_str, push_u64, push_usize};

verus! {

/// Why a trace could not be compiled.
#[derive(Debug)]
pub enum CompileError {
    /// The native backend refused.
    Backend(String),
    EmptyTrace { function: u32, pc: u32 },
    UndefinedRegister { reg: u8, pc: u32 },
    UnsupportedOpcode { opcode: Opcode, pc: u32 },
    TraceTooLong { pc: u32, limit: usize },
    /// The code is refused: it is not the code of a function.
    Module(String),
}

/// What is wrong with a block that runs into an effect.
pub open spec fn open_block_text(pc: u32) -> Seq<char> {
    "block at pc "@ + dec(pc as nat) + " has no terminator"@
}

/// The refusal of a block that runs into an effect.
pub fn open_block(pc: u32) -> (r: CompileError)
    ensures
        r matches CompileError::Module(msg) && msg@ == open_block_text(pc),
{
    let mut s = owned("block at pc ");
    push_u64(&mut s, pc as u64);
    push_str(&mut s, " has no terminator");
    CompileError::Module(s)
}

/// The message of a compile error.
pub open spec fn compile_error_text(e: CompileError) -> Seq<char> {
    match e {
        CompileError::Backend(msg) => "cranelift backend: "@ + msg@,
        CompileError::EmptyTrace { function, pc } => "trace empty at function "@ + dec(
            function as nat,
        ) + " pc "@ + dec(pc as nat),
        CompileError::UndefinedRegister { reg, pc } => "undefined register "@ + dec(reg as nat)
            + " at pc "@ + dec(pc as nat),
        CompileError::UnsupportedOpcode { opcode, pc } => "unsupported opcode "@ + opcode_name(
            opcode,
        ) + " at pc "@ + dec(pc as nat),
        CompileError::TraceTooLong { pc, limit } => "trace longer than "@ + dec(limit as nat)
            + " at pc "@ + dec(pc as nat),
        CompileError::Module(msg) => "module error: "@ + msg@,
    }
}

impl CompileError {
    /// The message of this error.
    pub fn text(&self) -> (r: String)
        ensures
            r@ == compile_error_text(*self),
    {
        match self {
            CompileError::Backend(msg) => {
                let mut s = owned("cranelift backend: ");
                push_str(&mut s, msg.as_str());
                s
            },
            CompileError::EmptyTrace { function, pc } => {
                let mut s = owned("trace empty at function ");
                push_u64(&mut s, *function as u64);
                push_str(&mut s, " pc ");
                push_u64(&mut s, *pc as u64);
                s
            },
            CompileError::UndefinedRegister { reg, pc } => {
                let mut s = owned("undefined register ");
                push_u64(&mut s, *reg as u64);
                push_str(&mut s, " at pc ");
                push_u64(&mut s, *pc as u64);
                s
            },
            CompileError::UnsupportedOpcode { opcode, pc } => {
                let mut s = owned("unsupported opcode ");
                push_str(&mut s, opcode.name());
                push_str(&mut s, " at pc ");
                push_u64(&mut s, *pc as u64);
                s
            },
            CompileError::TraceTooLong { pc, limit } => {
                let mut s = owned("trace longer than ");
                push_usize(&mut s, *limit);
                push_str(&mut s, " at pc ");
                push_u64(&mut s, *pc as u64);
                s
            },
            CompileError::Module(msg) => {
                let mut s = owned("module error: ");
                push_str(&mut s, msg.as_str());
                s
            },
        }
    }
}

} // verus!
