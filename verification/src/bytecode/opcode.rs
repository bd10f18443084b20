//! The instruction set: one byte per opcode.
//!
//! Byte values are part of the module format; existing ones never change.

use vstd::prelude::*;

verus! {

/// A single opcode.
#[derive(Clone, Copy, Debug, PartialEq, Eq, Structural, Hash)]
pub enum Opcode {
    /// Complete the flow with `r[0]`.
    Halt,
    /// `r[a] = constants[imm]`.
    LoadConst,
    /// `r[a] = r[b]`.
    Move,
    /// `r[a] = imm` as an integer.
    LoadImm,
    /// `r[a] = r[b] + r[c]`.
    Add,
    /// `r[a] = r[b] - r[c]`.
    Sub,
    /// `r[a] = r[b] * r[c]`.
    Mul,
    /// `r[a] = r[b] / r[c]`.
    Div,
    /// `r[a] = r[b] % r[c]` on integers.
    Mod,
    /// `r[a] = -r[b]`.
    Neg,
    /// `r[a] = (r[b] == r[c])`.
    Eq,
    /// `r[a] = (r[b] < r[c])`.
    Lt,
    /// `r[a] = (r[b] <= r[c])`.
    Le,
    /// Jump by `imm` instructions from the next one.
    Jump,
    /// Jump by `imm` iff `r[a]` is falsy.
    Branch,
    /// Call function `imm` with `b` arguments from `r[a..]`; the result goes to `r[a]`.
    Call,
    /// Return `r[a]` to the caller frame.
    Return,
    /// Call native slot `imm` with `b` arguments from `r[a..]`.
    CallNative,
    /// Start function `imm` as a new flow with `b` arguments from `r[a+1..]`; a capability for the child goes to `r[a]`.
    Spawn,
    /// Give the worker back to the scheduler.
    Yield,
    /// Suspend for `r[a]` milliseconds.
    Sleep,
    /// Complete the flow with `r[a]`.
    Exit,
    /// Write a capability for this flow into `r[a]`.
    SelfPid,
    /// Deliver message `r[b]` to the flow behind capability `r[a]`.
    Send,
    /// Wait for the oldest hop.
    Receive,
    /// Like `Receive`, giving up after `r[b]` milliseconds with `Unit`.
    ReceiveTimeout,
    /// Wait for the oldest message with tag `r[b]`.
    ReceiveMatch,
    /// Wait for the oldest message with tag `imm`.
    ReceiveMatchImm,
    /// Send request `r[c]` to capability `r[b]` and wait for its reply.
    Ask,
    /// Watch the flow behind capability `r[b]`; the monitor ref goes to `r[a]`.
    Monitor,
    /// Drop the monitor in `r[a]`.
    Demonitor,
    /// Link with the flow behind capability `r[b]`; the link id goes to `r[a]`.
    Link,
    /// Drop the link in `r[a]`.
    Unlink,
    /// Like `Ask`, giving up after `r[imm]` milliseconds.
    AskTimeout,
    /// Write an attenuated copy of capability `r[b]` into `r[a]`; `c = 255` keeps the native mask.
    Delegate,
    /// Write the next correlation id into `r[a]`.
    FreshRequestId,
    /// Wait for tag `r[b]` and request id `r[c]`.
    ReceiveMatchCorr,
    /// Wait for tag `imm` and request id `r[b]`.
    ReceiveMatchCorrImm,
    /// Trap linked exits iff `r[a]` is truthy.
    SetTrapExit,
    /// Fail the flow with code `imm`.
    Trap,
    /// No operation.
    Nop,
    /// Publish `r[a]` as the name of this flow.
    RegisterName,
    /// Look up name `r[b]`; a capability or `Unit` goes to `r[a]`.
    Whereis,
    /// Wait for the oldest message whose payload has wire tag `imm`.
    ReceiveMatchKind,
    /// Set the restart policy to `imm`.
    SetRestartPolicy,
    /// Park until the host completes operation `imm` with arguments `r[b]`.
    HostAwait,
}

/// Encoding of an opcode as its stable byte.
pub open spec fn opcode_byte(op: Opcode) -> u8 {
    match op {
        Opcode::Halt => 0x00,
        Opcode::LoadConst => 0x01,
        Opcode::Move => 0x02,
        Opcode::LoadImm => 0x03,
        Opcode::Add => 0x10,
        Opcode::Sub => 0x11,
        Opcode::Mul => 0x12,
        Opcode::Div => 0x13,
        Opcode::Mod => 0x14,
        Opcode::Neg => 0x15,
        Opcode::Eq => 0x18,
        Opcode::Lt => 0x19,
        Opcode::Le => 0x1A,
        Opcode::Jump => 0x20,
        Opcode::Branch => 0x21,
        Opcode::Call => 0x30,
        Opcode::Return => 0x31,
        Opcode::CallNative => 0x32,
        Opcode::Spawn => 0x40,
        Opcode::Yield => 0x41,
        Opcode::Sleep => 0x42,
        Opcode::Exit => 0x43,
        Opcode::SelfPid => 0x44,
        Opcode::Send => 0x50,
        Opcode::Receive => 0x51,
        Opcode::ReceiveTimeout => 0x52,
        Opcode::ReceiveMatch => 0x53,
        Opcode::ReceiveMatchImm => 0x54,
        Opcode::Ask => 0x55,
        Opcode::Monitor => 0x56,
        Opcode::Demonitor => 0x57,
        Opcode::Link => 0x58,
        Opcode::Unlink => 0x59,
        Opcode::AskTimeout => 0x5A,
        Opcode::Delegate => 0x5B,
        Opcode::FreshRequestId => 0x5C,
        Opcode::ReceiveMatchCorr => 0x5D,
        Opcode::ReceiveMatchCorrImm => 0x5E,
        Opcode::SetTrapExit => 0x5F,
        Opcode::Trap => 0x60,
        Opcode::Nop => 0x61,
        Opcode::RegisterName => 0x62,
        Opcode::Whereis => 0x63,
        Opcode::ReceiveMatchKind => 0x64,
        Opcode::SetRestartPolicy => 0x65,
        Opcode::HostAwait => 0x66,
    }
}

/// Decoding of a byte: the opcode that has it, if any.
pub open spec fn opcode_of(byte: u8) -> Option<Opcode> {
    match byte {
        0x00 => Some(Opcode::Halt),
        0x01 => Some(Opcode::LoadConst),
        0x02 => Some(Opcode::Move),
        0x03 => Some(Opcode::LoadImm),
        0x10 => Some(Opcode::Add),
        0x11 => Some(Opcode::Sub),
        0x12 => Some(Opcode::Mul),
        0x13 => Some(Opcode::Div),
        0x14 => Some(Opcode::Mod),
        0x15 => Some(Opcode::Neg),
        0x18 => Some(Opcode::Eq),
        0x19 => Some(Opcode::Lt),
        0x1A => Some(Opcode::Le),
        0x20 => Some(Opcode::Jump),
        0x21 => Some(Opcode::Branch),
        0x30 => Some(Opcode::Call),
        0x31 => Some(Opcode::Return),
        0x32 => Some(Opcode::CallNative),
        0x40 => Some(Opcode::Spawn),
        0x41 => Some(Opcode::Yield),
        0x42 => Some(Opcode::Sleep),
        0x43 => Some(Opcode::Exit),
        0x44 => Some(Opcode::SelfPid),
        0x50 => Some(Opcode::Send),
        0x51 => Some(Opcode::Receive),
        0x52 => Some(Opcode::ReceiveTimeout),
        0x53 => Some(Opcode::ReceiveMatch),
        0x54 => Some(Opcode::ReceiveMatchImm),
        0x55 => Some(Opcode::Ask),
        0x56 => Some(Opcode::Monitor),
        0x57 => Some(Opcode::Demonitor),
        0x58 => Some(Opcode::Link),
        0x59 => Some(Opcode::Unlink),
        0x5A => Some(Opcode::AskTimeout),
        0x5B => Some(Opcode::Delegate),
        0x5C => Some(Opcode::FreshRequestId),
        0x5D => Some(Opcode::ReceiveMatchCorr),
        0x5E => Some(Opcode::ReceiveMatchCorrImm),
        0x5F => Some(Opcode::SetTrapExit),
        0x60 => Some(Opcode::Trap),
        0x61 => Some(Opcode::Nop),
        0x62 => Some(Opcode::RegisterName),
        0x63 => Some(Opcode::Whereis),
        0x64 => Some(Opcode::ReceiveMatchKind),
        0x65 => Some(Opcode::SetRestartPolicy),
        0x66 => Some(Opcode::HostAwait),
        _ => None,
    }
}

/// Printed name of an opcode.
pub open spec fn opcode_name(op: Opcode) -> Seq<char> {
    match op {
        Opcode::Halt => "Halt"@,
        Opcode::LoadConst => "LoadConst"@,
        Opcode::Move => "Move"@,
        Opcode::LoadImm => "LoadImm"@,
        Opcode::Add => "Add"@,
        Opcode::Sub => "Sub"@,
        Opcode::Mul => "Mul"@,
        Opcode::Div => "Div"@,
        Opcode::Mod => "Mod"@,
        Opcode::Neg => "Neg"@,
        Opcode::Eq => "Eq"@,
        Opcode::Lt => "Lt"@,
        Opcode::Le => "Le"@,
        Opcode::Jump => "Jump"@,
        Opcode::Branch => "Branch"@,
        Opcode::Call => "Call"@,
        Opcode::Return => "Return"@,
        Opcode::CallNative => "CallNative"@,
        Opcode::Spawn => "Spawn"@,
        Opcode::Yield => "Yield"@,
        Opcode::Sleep => "Sleep"@,
        Opcode::Exit => "Exit"@,
        Opcode::SelfPid => "SelfPid"@,
        Opcode::Send => "Send"@,
        Opcode::Receive => "Receive"@,
        Opcode::ReceiveTimeout => "ReceiveTimeout"@,
        Opcode::ReceiveMatch => "ReceiveMatch"@,
        Opcode::ReceiveMatchImm => "ReceiveMatchImm"@,
        Opcode::Ask => "Ask"@,
        Opcode::Monitor => "Monitor"@,
        Opcode::Demonitor => "Demonitor"@,
        Opcode::Link => "Link"@,
        Opcode::Unlink => "Unlink"@,
        Opcode::AskTimeout => "AskTimeout"@,
        Opcode::Delegate => "Delegate"@,
        Opcode::FreshRequestId => "FreshRequestId"@,
        Opcode::ReceiveMatchCorr => "ReceiveMatchCorr"@,
        Opcode::ReceiveMatchCorrImm => "ReceiveMatchCorrImm"@,
        Opcode::SetTrapExit => "SetTrapExit"@,
        Opcode::Trap => "Trap"@,
        Opcode::Nop => "Nop"@,
        Opcode::RegisterName => "RegisterName"@,
        Opcode::Whereis => "Whereis"@,
        Opcode::ReceiveMatchKind => "ReceiveMatchKind"@,
        Opcode::SetRestartPolicy => "SetRestartPolicy"@,
        Opcode::HostAwait => "HostAwait"@,
    }
}

/// Encoding then decoding gives the opcode back.
pub proof fn opcode_round_trip(op: Opcode)
    ensures
        opcode_of(opcode_byte(op)) == Some(op),
{
}

/// A byte decodes to at most one opcode, and only to the opcode encoded by it.
pub proof fn opcode_decoding_is_faithful(byte: u8)
    ensures
        opcode_of(byte) matches Some(op) ==> opcode_byte(op) == byte,
{
}

impl Opcode {
    /// Decode a raw byte; bytes outside the instruction set are refused.
    pub fn from_u8(byte: u8) -> (r: Option<Opcode>)
        ensures
            r == opcode_of(byte),
    {
        match byte {
            0x00 => Some(Opcode::Halt),
            0x01 => Some(Opcode::LoadConst),
            0x02 => Some(Opcode::Move),
            0x03 => Some(Opcode::LoadImm),
            0x10 => Some(Opcode::Add),
            0x11 => Some(Opcode::Sub),
            0x12 => Some(Opcode::Mul),
            0x13 => Some(Opcode::Div),
            0x14 => Some(Opcode::Mod),
            0x15 => Some(Opcode::Neg),
            0x18 => Some(Opcode::Eq),
            0x19 => Some(Opcode::Lt),
            0x1A => Some(Opcode::Le),
            0x20 => Some(Opcode::Jump),
            0x21 => Some(Opcode::Branch),
            0x30 => Some(Opcode::Call),
            0x31 => Some(Opcode::Return),
            0x32 => Some(Opcode::CallNative),
            0x40 => Some(Opcode::Spawn),
            0x41 => Some(Opcode::Yield),
            0x42 => Some(Opcode::Sleep),
            0x43 => Some(Opcode::Exit),
            0x44 => Some(Opcode::SelfPid),
            0x50 => Some(Opcode::Send),
            0x51 => Some(Opcode::Receive),
            0x52 => Some(Opcode::ReceiveTimeout),
            0x53 => Some(Opcode::ReceiveMatch),
            0x54 => Some(Opcode::ReceiveMatchImm),
            0x55 => Some(Opcode::Ask),
            0x56 => Some(Opcode::Monitor),
            0x57 => Some(Opcode::Demonitor),
            0x58 => Some(Opcode::Link),
            0x59 => Some(Opcode::Unlink),
            0x5A => Some(Opcode::AskTimeout),
            0x5B => Some(Opcode::Delegate),
            0x5C => Some(Opcode::FreshRequestId),
            0x5D => Some(Opcode::ReceiveMatchCorr),
            0x5E => Some(Opcode::ReceiveMatchCorrImm),
            0x5F => Some(Opcode::SetTrapExit),
            0x60 => Some(Opcode::Trap),
            0x61 => Some(Opcode::Nop),
            0x62 => Some(Opcode::RegisterName),
            0x63 => Some(Opcode::Whereis),
            0x64 => Some(Opcode::ReceiveMatchKind),
            0x65 => Some(Opcode::SetRestartPolicy),
            0x66 => Some(Opcode::HostAwait),
            _ => None,
        }
    }

    /// The stable byte of this opcode.
    pub fn as_u8(self) -> (r: u8)
        ensures
            r == opcode_byte(self),
    {
        match self {
            Opcode::Halt => 0x00,
            Opcode::LoadConst => 0x01,
            Opcode::Move => 0x02,
            Opcode::LoadImm => 0x03,
            Opcode::Add => 0x10,
            Opcode::Sub => 0x11,
            Opcode::Mul => 0x12,
            Opcode::Div => 0x13,
            Opcode::Mod => 0x14,
            Opcode::Neg => 0x15,
            Opcode::Eq => 0x18,
            Opcode::Lt => 0x19,
            Opcode::Le => 0x1A,
            Opcode::Jump => 0x20,
            Opcode::Branch => 0x21,
            Opcode::Call => 0x30,
            Opcode::Return => 0x31,
            Opcode::CallNative => 0x32,
            Opcode::Spawn => 0x40,
            Opcode::Yield => 0x41,
            Opcode::Sleep => 0x42,
            Opcode::Exit => 0x43,
            Opcode::SelfPid => 0x44,
            Opcode::Send => 0x50,
            Opcode::Receive => 0x51,
            Opcode::ReceiveTimeout => 0x52,
            Opcode::ReceiveMatch => 0x53,
            Opcode::ReceiveMatchImm => 0x54,
            Opcode::Ask => 0x55,
            Opcode::Monitor => 0x56,
            Opcode::Demonitor => 0x57,
            Opcode::Link => 0x58,
            Opcode::Unlink => 0x59,
            Opcode::AskTimeout => 0x5A,
            Opcode::Delegate => 0x5B,
            Opcode::FreshRequestId => 0x5C,
            Opcode::ReceiveMatchCorr => 0x5D,
            Opcode::ReceiveMatchCorrImm => 0x5E,
            Opcode::SetTrapExit => 0x5F,
            Opcode::Trap => 0x60,
            Opcode::Nop => 0x61,
            Opcode::RegisterName => 0x62,
            Opcode::Whereis => 0x63,
            Opcode::ReceiveMatchKind => 0x64,
            Opcode::SetRestartPolicy => 0x65,
            Opcode::HostAwait => 0x66,
        }
    }

    /// The printed name.
    pub fn name(self) -> (r: &'static str)
        ensures
            r@ == opcode_name(self),
    {
        match self {
            Opcode::Halt => "Halt",
            Opcode::LoadConst => "LoadConst",
            Opcode::Move => "Move",
            Opcode::LoadImm => "LoadImm",
            Opcode::Add => "Add",
            Opcode::Sub => "Sub",
            Opcode::Mul => "Mul",
            Opcode::Div => "Div",
            Opcode::Mod => "Mod",
            Opcode::Neg => "Neg",
            Opcode::Eq => "Eq",
            Opcode::Lt => "Lt",
            Opcode::Le => "Le",
            Opcode::Jump => "Jump",
            Opcode::Branch => "Branch",
            Opcode::Call => "Call",
            Opcode::Return => "Return",
            Opcode::CallNative => "CallNative",
            Opcode::Spawn => "Spawn",
            Opcode::Yield => "Yield",
            Opcode::Sleep => "Sleep",
            Opcode::Exit => "Exit",
            Opcode::SelfPid => "SelfPid",
            Opcode::Send => "Send",
            Opcode::Receive => "Receive",
            Opcode::ReceiveTimeout => "ReceiveTimeout",
            Opcode::ReceiveMatch => "ReceiveMatch",
            Opcode::ReceiveMatchImm => "ReceiveMatchImm",
            Opcode::Ask => "Ask",
            Opcode::Monitor => "Monitor",
            Opcode::Demonitor => "Demonitor",
            Opcode::Link => "Link",
            Opcode::Unlink => "Unlink",
            Opcode::AskTimeout => "AskTimeout",
            Opcode::Delegate => "Delegate",
            Opcode::FreshRequestId => "FreshRequestId",
            Opcode::ReceiveMatchCorr => "ReceiveMatchCorr",
            Opcode::ReceiveMatchCorrImm => "ReceiveMatchCorrImm",
            Opcode::SetTrapExit => "SetTrapExit",
            Opcode::Trap => "Trap",
            Opcode::Nop => "Nop",
            Opcode::RegisterName => "RegisterName",
            Opcode::Whereis => "Whereis",
            Opcode::ReceiveMatchKind => "ReceiveMatchKind",
            Opcode::SetRestartPolicy => "SetRestartPolicy",
            Opcode::HostAwait => "HostAwait",
        }
    }
}

} // verus!
