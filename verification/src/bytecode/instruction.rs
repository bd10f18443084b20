//! A single packed instruction word.

use vstd::prelude::*;

use crate::bytecode::opcode::{opcode_name, Opcode};
use crate::text::{
    dec, dec_int, dec_signed, hex_min, owned, push_hex_min, push_i64, push_signed, push_str,
    push_u64,
};

verus! {

/// Opcode, three register operands and a signed immediate. What an operand
/// means depends on the opcode.
#[derive(Clone, Copy, Debug, PartialEq, Eq, Structural, Hash)]
pub struct Instruction {
    pub op: Opcode,
    pub a: u8,
    pub b: u8,
    pub c: u8,
    pub imm: i32,
}

/// The operands of an instruction, as the listing prints them.
pub open spec fn operand_text(i: Instruction) -> Seq<char> {
    match i.op {
        Opcode::Halt
        | Opcode::Yield
        | Opcode::Nop => ""@,
        Opcode::LoadConst => " r"@ + dec(i.a as nat) + ", const["@ + dec_int(i.imm as int) + "]"@,
        Opcode::Move
        | Opcode::Neg
        | Opcode::Send
        | Opcode::ReceiveTimeout
        | Opcode::ReceiveMatch
        | Opcode::Monitor
        | Opcode::Link
        | Opcode::Whereis => " r"@ + dec(i.a as nat) + ", r"@ + dec(i.b as nat),
        Opcode::LoadImm => " r"@ + dec(i.a as nat) + ", "@ + dec_int(i.imm as int),
        Opcode::Add
        | Opcode::Sub
        | Opcode::Mul
        | Opcode::Div
        | Opcode::Mod
        | Opcode::Eq
        | Opcode::Lt
        | Opcode::Le
        | Opcode::Ask => " r"@ + dec(i.a as nat) + ", r"@ + dec(i.b as nat) + ", r"@ + dec(i.c as nat),
        Opcode::Jump => " "@ + dec_signed(i.imm as int),
        Opcode::Branch => " r"@ + dec(i.a as nat) + ", "@ + dec_signed(i.imm as int),
        Opcode::Call
        | Opcode::CallNative => " r"@ + dec(i.a as nat) + ", fn["@ + dec_int(i.imm as int) + "], argc="@ + dec(i.b as nat),
        Opcode::Return
        | Opcode::Exit
        | Opcode::Sleep
        | Opcode::Receive
        | Opcode::SelfPid
        | Opcode::FreshRequestId
        | Opcode::Demonitor
        | Opcode::Unlink
        | Opcode::RegisterName
        | Opcode::SetTrapExit => " r"@ + dec(i.a as nat),
        Opcode::Spawn => " r"@ + dec(i.a as nat) + ", fn["@ + dec_int(i.imm as int) + "], argc="@ + dec(i.b as nat) + ", rights=0x"@ + hex_min(i.c as nat),
        Opcode::ReceiveMatchImm => " r"@ + dec(i.a as nat) + ", tag="@ + dec_int(i.imm as int),
        Opcode::ReceiveMatchKind => " r"@ + dec(i.a as nat) + ", kind="@ + dec_int(i.imm as int),
        Opcode::ReceiveMatchCorr => " r"@ + dec(i.a as nat) + ", tag=r"@ + dec(i.b as nat) + ", id=r"@ + dec(i.c as nat),
        Opcode::ReceiveMatchCorrImm => " r"@ + dec(i.a as nat) + ", tag="@ + dec_int(i.imm as int) + ", id=r"@ + dec(i.b as nat),
        Opcode::AskTimeout => " r"@ + dec(i.a as nat) + ", r"@ + dec(i.b as nat) + ", r"@ + dec(i.c as nat) + ", timeout=r"@ + dec_int(i.imm as int),
        Opcode::Delegate => " r"@ + dec(i.a as nat) + ", r"@ + dec(i.b as nat) + ", rights=0x"@ + hex_min((i.imm as u32) as nat) + ", native=r"@ + dec(i.c as nat),
        Opcode::HostAwait => " r"@ + dec(i.a as nat) + ", r"@ + dec(i.b as nat) + ", op="@ + dec_int(i.imm as int),
        Opcode::SetRestartPolicy
        | Opcode::Trap => " "@ + dec_int(i.imm as int),
    }
}

/// The listing of an instruction: its name and its operands.
pub open spec fn instruction_text(i: Instruction) -> Seq<char> {
    opcode_name(i.op) + operand_text(i)
}

impl Instruction {
    pub fn new(op: Opcode, a: u8, b: u8, c: u8, imm: i32) -> (r: Self)
        ensures
            r == (Instruction { op, a, b, c, imm }),
    {
        Instruction { op, a, b, c, imm }
    }

    pub fn nullary(op: Opcode) -> (r: Self)
        ensures
            r == (Instruction { op, a: 0, b: 0, c: 0, imm: 0 }),
    {
        Instruction::new(op, 0, 0, 0, 0)
    }

    pub fn abc(op: Opcode, a: u8, b: u8, c: u8) -> (r: Self)
        ensures
            r == (Instruction { op, a, b, c, imm: 0 }),
    {
        Instruction::new(op, a, b, c, 0)
    }

    pub fn a_imm(op: Opcode, a: u8, imm: i32) -> (r: Self)
        ensures
            r == (Instruction { op, a, b: 0, c: 0, imm }),
    {
        Instruction::new(op, a, 0, 0, imm)
    }

    pub fn only_imm(op: Opcode, imm: i32) -> (r: Self)
        ensures
            r == (Instruction { op, a: 0, b: 0, c: 0, imm }),
    {
        Instruction::new(op, 0, 0, 0, imm)
    }

    /// The operands as printed.
    fn operands(&self) -> (r: String)
        ensures
            r@ == operand_text(*self),
    {
        match self.op {
            Opcode::Halt
            | Opcode::Yield
            | Opcode::Nop => {
                owned("")
            },
            Opcode::LoadConst => {
                let mut s = owned(" r");
                push_u64(&mut s, self.a as u64);
                push_str(&mut s, ", const[");
                push_i64(&mut s, self.imm as i64);
                push_str(&mut s, "]");
                s
            },
            Opcode::Move
            | Opcode::Neg
            | Opcode::Send
            | Opcode::ReceiveTimeout
            | Opcode::ReceiveMatch
            | Opcode::Monitor
            | Opcode::Link
            | Opcode::Whereis => {
                let mut s = owned(" r");
                push_u64(&mut s, self.a as u64);
                push_str(&mut s, ", r");
                push_u64(&mut s, self.b as u64);
                s
            },
            Opcode::LoadImm => {
                let mut s = owned(" r");
                push_u64(&mut s, self.a as u64);
                push_str(&mut s, ", ");
                push_i64(&mut s, self.imm as i64);
                s
            },
            Opcode::Add
            | Opcode::Sub
            | Opcode::Mul
            | Opcode::Div
            | Opcode::Mod
            | Opcode::Eq
            | Opcode::Lt
            | Opcode::Le
            | Opcode::Ask => {
                let mut s = owned(" r");
                push_u64(&mut s, self.a as u64);
                push_str(&mut s, ", r");
                push_u64(&mut s, self.b as u64);
                push_str(&mut s, ", r");
                push_u64(&mut s, self.c as u64);
                s
            },
            Opcode::Jump => {
                let mut s = owned(" ");
                push_signed(&mut s, self.imm as i64);
                s
            },
            Opcode::Branch => {
                let mut s = owned(" r");
                push_u64(&mut s, self.a as u64);
                push_str(&mut s, ", ");
                push_signed(&mut s, self.imm as i64);
                s
            },
            Opcode::Call
            | Opcode::CallNative => {
                let mut s = owned(" r");
                push_u64(&mut s, self.a as u64);
                push_str(&mut s, ", fn[");
                push_i64(&mut s, self.imm as i64);
                push_str(&mut s, "], argc=");
                push_u64(&mut s, self.b as u64);
                s
            },
            Opcode::Return
            | Opcode::Exit
            | Opcode::Sleep
            | Opcode::Receive
            | Opcode::SelfPid
            | Opcode::FreshRequestId
            | Opcode::Demonitor
            | Opcode::Unlink
            | Opcode::RegisterName
            | Opcode::SetTrapExit => {
                let mut s = owned(" r");
                push_u64(&mut s, self.a as u64);
                s
            },
            Opcode::Spawn => {
                let mut s = owned(" r");
                push_u64(&mut s, self.a as u64);
                push_str(&mut s, ", fn[");
                push_i64(&mut s, self.imm as i64);
                push_str(&mut s, "], argc=");
                push_u64(&mut s, self.b as u64);
                push_str(&mut s, ", rights=0x");
                push_hex_min(&mut s, self.c as u32);
                s
            },
            Opcode::ReceiveMatchImm => {
                let mut s = owned(" r");
                push_u64(&mut s, self.a as u64);
                push_str(&mut s, ", tag=");
                push_i64(&mut s, self.imm as i64);
                s
            },
            Opcode::ReceiveMatchKind => {
                let mut s = owned(" r");
                push_u64(&mut s, self.a as u64);
                push_str(&mut s, ", kind=");
                push_i64(&mut s, self.imm as i64);
                s
            },
            Opcode::ReceiveMatchCorr => {
                let mut s = owned(" r");
                push_u64(&mut s, self.a as u64);
                push_str(&mut s, ", tag=r");
                push_u64(&mut s, self.b as u64);
                push_str(&mut s, ", id=r");
                push_u64(&mut s, self.c as u64);
                s
            },
            Opcode::ReceiveMatchCorrImm => {
                let mut s = owned(" r");
                push_u64(&mut s, self.a as u64);
                push_str(&mut s, ", tag=");
                push_i64(&mut s, self.imm as i64);
                push_str(&mut s, ", id=r");
                push_u64(&mut s, self.b as u64);
                s
            },
            Opcode::AskTimeout => {
                let mut s = owned(" r");
                push_u64(&mut s, self.a as u64);
                push_str(&mut s, ", r");
                push_u64(&mut s, self.b as u64);
                push_str(&mut s, ", r");
                push_u64(&mut s, self.c as u64);
                push_str(&mut s, ", timeout=r");
                push_i64(&mut s, self.imm as i64);
                s
            },
            Opcode::Delegate => {
                let mut s = owned(" r");
                push_u64(&mut s, self.a as u64);
                push_str(&mut s, ", r");
                push_u64(&mut s, self.b as u64);
                push_str(&mut s, ", rights=0x");
                push_hex_min(&mut s, self.imm as u32);
                push_str(&mut s, ", native=r");
                push_u64(&mut s, self.c as u64);
                s
            },
            Opcode::HostAwait => {
                let mut s = owned(" r");
                push_u64(&mut s, self.a as u64);
                push_str(&mut s, ", r");
                push_u64(&mut s, self.b as u64);
                push_str(&mut s, ", op=");
                push_i64(&mut s, self.imm as i64);
                s
            },
            Opcode::SetRestartPolicy
            | Opcode::Trap => {
                let mut s = owned(" ");
                push_i64(&mut s, self.imm as i64);
                s
            },
        }
    }

    /// The listing of this instruction.
    pub fn text(&self) -> (r: String)
        ensures
            r@ == instruction_text(*self),
    {
        let mut s = owned(self.op.name());
        push_str(&mut s, self.operands().as_str());
        s
    }
}

} // verus!
