//! What can go wrong inside a running flow.

use std::sync::Arc;

use vstd::prelude::*;

use crate::bytecode::cap::NativeIdx;
use crate::memory::{memory_error_text, MemoryError};
use crate::scheduler::quota::{quota_error_text, QuotaError};
use crate::text::{dec, dec_int, owned, push_i64, push_str, push_u64, push_usize};

verus! {

/// Why a native call was refused before it ran.
#[derive(Debug, Clone, Copy, PartialEq, Eq, Structural)]
pub enum NativeCallError {
    NoNativeRight,
    IndexNotAllowlisted(NativeIdx),
    IndexOutOfRange(NativeIdx),
    Revoked,
}

/// The message of a refused native call.
pub open spec fn native_call_text(e: NativeCallError) -> Seq<char> {
    match e {
        NativeCallError::NoNativeRight => "CALL_NATIVE: flow lacks NATIVE right"@,
        NativeCallError::IndexNotAllowlisted(idx) => "CALL_NATIVE: index "@ + dec(idx as nat)
            + " not on allowlist"@,
        NativeCallError::IndexOutOfRange(idx) => "CALL_NATIVE: index "@ + dec(idx as nat)
            + " out of range"@,
        NativeCallError::Revoked => "CALL_NATIVE: capability revoked"@,
    }
}

impl NativeCallError {
    /// The message of this error.
    pub fn text(&self) -> (r: String)
        ensures
            r@ == native_call_text(*self),
    {
        match self {
            NativeCallError::NoNativeRight => owned("CALL_NATIVE: flow lacks NATIVE right"),
            NativeCallError::IndexNotAllowlisted(idx) => {
                let mut s = owned("CALL_NATIVE: index ");
                push_u64(&mut s, *idx as u64);
                push_str(&mut s, " not on allowlist");
                s
            },
            NativeCallError::IndexOutOfRange(idx) => {
                let mut s = owned("CALL_NATIVE: index ");
                push_u64(&mut s, *idx as u64);
                push_str(&mut s, " out of range");
                s
            },
            NativeCallError::Revoked => owned("CALL_NATIVE: capability revoked"),
        }
    }
}

/// Why a native failed.
#[derive(Debug, Clone, PartialEq, Eq)]
pub enum NativeFailure {
    MissingArgument { native: &'static str, index: usize },
    NotInt { native: &'static str, index: usize },
    NotBool { native: &'static str, index: usize, got: &'static str },
    NotMessage { native: &'static str, index: usize },
    NotUnsigned { native: &'static str, index: usize, got: &'static str },
    TagTooLarge { tag: u64 },
    ClockTooLarge,
    /// A failure that the host reports.
    Host(Arc<String>),
}

/// The message of a failed native.
pub open spec fn native_failure_text(e: NativeFailure) -> Seq<char> {
    match e {
        NativeFailure::MissingArgument { native, index } => native@ + ": missing argument "@ + dec(
            index as nat,
        ),
        NativeFailure::NotInt { native, index } => native@ + ": argument "@ + dec(index as nat)
            + " is not an int"@,
        NativeFailure::NotBool { native, index, got } => native@ + ": argument "@ + dec(
            index as nat,
        ) + " is not a bool/int (got "@ + got@ + ")"@,
        NativeFailure::NotMessage { native, index } => native@ + ": argument "@ + dec(index as nat)
            + " is not a message"@,
        NativeFailure::NotUnsigned { native, index, got } => native@ + ": argument "@ + dec(
            index as nat,
        ) + " is not a non-negative int/pid (got "@ + got@ + ")"@,
        NativeFailure::TagTooLarge { tag } => "make_msg: tag "@ + dec(tag as nat)
            + " does not fit in u16"@,
        NativeFailure::ClockTooLarge => "system clock value exceeds i64"@,
        NativeFailure::Host(msg) => msg@,
    }
}

fn argument_text(native: &str, index: usize, what: &str) -> (r: String)
    ensures
        r@ == native@ + ": argument "@ + dec(index as nat) + what@,
{
    let mut s = owned(native);
    push_str(&mut s, ": argument ");
    push_usize(&mut s, index);
    push_str(&mut s, what);
    s
}

impl NativeFailure {
    /// The message of this failure.
    pub fn text(&self) -> (r: String)
        ensures
            r@ == native_failure_text(*self),
    {
        match self {
            NativeFailure::MissingArgument { native, index } => {
                let mut s = owned(native);
                push_str(&mut s, ": missing argument ");
                push_usize(&mut s, *index);
                s
            },
            NativeFailure::NotInt { native, index } => argument_text(
                native,
                *index,
                " is not an int",
            ),
            NativeFailure::NotBool { native, index, got } => {
                let mut s = argument_text(native, *index, " is not a bool/int (got ");
                push_str(&mut s, got);
                push_str(&mut s, ")");
                s
            },
            NativeFailure::NotMessage { native, index } => argument_text(
                native,
                *index,
                " is not a message",
            ),
            NativeFailure::NotUnsigned { native, index, got } => {
                let mut s = argument_text(native, *index, " is not a non-negative int/pid (got ");
                push_str(&mut s, got);
                push_str(&mut s, ")");
                s
            },
            NativeFailure::TagTooLarge { tag } => {
                let mut s = owned("make_msg: tag ");
                push_u64(&mut s, *tag);
                push_str(&mut s, " does not fit in u16");
                s
            },
            NativeFailure::ClockTooLarge => owned("system clock value exceeds i64"),
            NativeFailure::Host(msg) => owned(msg.as_str()),
        }
    }
}

/// Whose budget refused a heap charge.
#[derive(Debug, Clone, Copy, PartialEq, Eq, Structural)]
pub enum QuotaRefusal {
    Flow(QuotaError),
    Runtime(MemoryError),
}

/// The message of a refused heap charge.
pub open spec fn quota_refusal_text(e: QuotaRefusal) -> Seq<char> {
    match e {
        QuotaRefusal::Flow(e) => quota_error_text(e),
        QuotaRefusal::Runtime(e) => memory_error_text(e),
    }
}

/// Anything that can go wrong inside a flow. It ends the flow, never the
/// host.
#[derive(Debug, Clone, PartialEq, Eq)]
pub enum Fault {
    DivideByZero,
    RegisterOutOfRange { reg: u8, frame_size: u8 },
    /// A register operand plus its offset leaves the register space.
    RegisterIndexOverflow { base: u8, offset: u8 },
    BadConstant { index: u32, pool_size: u32 },
    BadFunction { index: u32, table_size: u32 },
    CallStackOverflow { depth: usize },
    TypeMismatch { expected: &'static str, got: &'static str },
    /// A native slot outside the table, or an empty one.
    BadNative { index: u32, table_size: u32 },
    /// A native failed.
    NativeError(NativeFailure),
    /// A native call was refused before it ran.
    NativeDenied(NativeCallError),
    /// The `Trap` instruction.
    Explicit(i32),
    /// A broken invariant of the machine.
    Invariant(&'static str),
    /// A heap charge was refused.
    QuotaExceeded(QuotaRefusal),
    /// A jump out of the code, where jumps are checked.
    BadJump { target: usize, code_len: usize },
}

/// The message of a fault.
pub open spec fn fault_text(f: Fault) -> Seq<char> {
    match f {
        Fault::DivideByZero => "division by zero"@,
        Fault::RegisterOutOfRange { reg, frame_size } => "register r"@ + dec(reg as nat)
            + " out of range (frame has "@ + dec(frame_size as nat) + " registers)"@,
        Fault::BadConstant { index, pool_size } => "constant index "@ + dec(index as nat)
            + " out of range (pool size "@ + dec(pool_size as nat) + ")"@,
        Fault::BadFunction { index, table_size } => "function index "@ + dec(index as nat)
            + " out of range (table size "@ + dec(table_size as nat) + ")"@,
        Fault::RegisterIndexOverflow { base, offset } => "register index r"@ + dec(base as nat)
            + "+"@ + dec(offset as nat) + " overflows the register index space (max r255)"@,
        Fault::CallStackOverflow { depth } => "call stack overflow at depth "@ + dec(depth as nat),
        Fault::TypeMismatch { expected, got } => "type mismatch: expected "@ + expected@ + ", got "@
            + got@,
        Fault::BadNative { index, table_size } => "native function index "@ + dec(index as nat)
            + " out of range (table size "@ + dec(table_size as nat) + ")"@,
        Fault::NativeError(e) => "native function error: "@ + native_failure_text(e),
        Fault::NativeDenied(e) => native_call_text(e),
        Fault::Explicit(code) => "explicit trap (code "@ + dec_int(code as int) + ")"@,
        Fault::Invariant(msg) => "vm invariant broken: "@ + msg@,
        Fault::QuotaExceeded(e) => quota_refusal_text(e),
        Fault::BadJump { target, code_len } => "jump target "@ + dec(target as nat)
            + " out of range (code length "@ + dec(code_len as nat) + ")"@,
    }
}

fn range_text(head: &str, a: u64, mid: &str, b: u64, tail: &str) -> (r: String)
    ensures
        r@ == head@ + dec(a as nat) + mid@ + dec(b as nat) + tail@,
{
    let mut s = owned(head);
    push_u64(&mut s, a);
    push_str(&mut s, mid);
    push_u64(&mut s, b);
    push_str(&mut s, tail);
    s
}

impl Fault {
    /// The message of this fault.
    pub fn text(&self) -> (r: String)
        ensures
            r@ == fault_text(*self),
    {
        match self {
            Fault::DivideByZero => owned("division by zero"),
            Fault::RegisterOutOfRange { reg, frame_size } => range_text(
                "register r",
                *reg as u64,
                " out of range (frame has ",
                *frame_size as u64,
                " registers)",
            ),
            Fault::BadConstant { index, pool_size } => range_text(
                "constant index ",
                *index as u64,
                " out of range (pool size ",
                *pool_size as u64,
                ")",
            ),
            Fault::BadFunction { index, table_size } => range_text(
                "function index ",
                *index as u64,
                " out of range (table size ",
                *table_size as u64,
                ")",
            ),
            Fault::RegisterIndexOverflow { base, offset } => range_text(
                "register index r",
                *base as u64,
                "+",
                *offset as u64,
                " overflows the register index space (max r255)",
            ),
            Fault::CallStackOverflow { depth } => {
                let mut s = owned("call stack overflow at depth ");
                push_usize(&mut s, *depth);
                s
            },
            Fault::TypeMismatch { expected, got } => {
                let mut s = owned("type mismatch: expected ");
                push_str(&mut s, expected);
                push_str(&mut s, ", got ");
                push_str(&mut s, got);
                s
            },
            Fault::BadNative { index, table_size } => range_text(
                "native function index ",
                *index as u64,
                " out of range (table size ",
                *table_size as u64,
                ")",
            ),
            Fault::NativeError(e) => {
                let mut s = owned("native function error: ");
                push_str(&mut s, e.text().as_str());
                s
            },
            Fault::NativeDenied(e) => e.text(),
            Fault::Explicit(code) => {
                let mut s = owned("explicit trap (code ");
                push_i64(&mut s, *code as i64);
                push_str(&mut s, ")");
                s
            },
            Fault::Invariant(msg) => {
                let mut s = owned("vm invariant broken: ");
                push_str(&mut s, msg);
                s
            },
            Fault::QuotaExceeded(e) => match e {
                QuotaRefusal::Flow(e) => e.text(),
                QuotaRefusal::Runtime(e) => e.text(),
            },
            Fault::BadJump { target, code_len } => range_text(
                "jump target ",
                *target as u64,
                " out of range (code length ",
                *code_len as u64,
                ")",
            ),
        }
    }
}

} // verus!
