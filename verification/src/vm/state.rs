//! Mathematical model of the interpreter: its state, one step, a slice.

use vstd::prelude::*;

use crate::bytecode::cap::{rights, CapId};
use crate::bytecode::chunk::{element, Chunk};
use crate::bytecode::instruction::Instruction;
use crate::bytecode::opcode::Opcode;
use crate::bytecode::value::{
    float_neg, int_of, kind_name_of, truthy, utf8_len, values_equal, Value,
};
use crate::memory::{charge_result, charged, MemoryBudget};
use crate::scheduler::quota::{alloc_result, allocated, freed, FlowQuota};
use crate::vm::fault::{Fault, NativeCallError, QuotaRefusal};
use crate::vm::frame::{blank_registers, FrameState};
use crate::vm::native::{gate_check, native_at, native_result, NativeFn, NativeGate};
use crate::vm::result::Effect;

verus! {

/// Most frames on the call stack.
pub const MAX_CALL_DEPTH: usize = 4096;

/// State of a machine.
#[verifier::ext_equal]
pub ghost struct VmState {
    pub chunk: Chunk,
    pub natives: Seq<Option<(Seq<char>, NativeFn)>>,
    pub gate: NativeGate,
    pub frames: Seq<FrameState>,
    pub executed: u64,
    pub next_request_id: u64,
    pub quota: Option<FlowQuota>,
    pub memory: Option<MemoryBudget>,
    pub paranoid: bool,
}

/// The fault of a machine without frames.
pub open spec fn no_frame() -> Fault {
    Fault::Invariant("empty frame stack while running")
}

/// The state with another active frame.
pub open spec fn with_top(s: VmState, f: FrameState) -> VmState {
    VmState { frames: s.frames.update(s.frames.len() - 1, f), ..s }
}

/// The state with another program counter in the active frame.
pub open spec fn with_pc(s: VmState, pc: usize) -> VmState {
    with_top(s, FrameState { pc, ..s.frames.last() })
}

/// Register `reg` of the active frame.
pub open spec fn read(s: VmState, reg: u8) -> Result<Value, Fault> {
    if s.frames.len() == 0 {
        Err(no_frame())
    } else {
        let regs = s.frames.last().registers;
        if reg < regs.len() {
            Ok(regs[reg as int])
        } else {
            Err(Fault::RegisterOutOfRange { reg, frame_size: regs.len() as u8 })
        }
    }
}

/// Heap bytes that a register holding `v` is charged for.
pub open spec fn heap_charge(v: Value) -> nat {
    match v {
        Value::Str(s) => utf8_len(s@),
        Value::Bytes(b) => b@.len(),
        _ => 0,
    }
}

/// Both budgets after a charge, and the answer. The flow's charge is taken
/// back when the runtime's budget refuses.
pub open spec fn charge_both(q: FlowQuota, m: Option<MemoryBudget>, bytes: usize) -> (
    FlowQuota,
    Option<MemoryBudget>,
    Result<(), Fault>,
) {
    if bytes == 0 {
        (q, m, Ok(()))
    } else {
        match alloc_result(q, bytes) {
            Err(e) => (q, m, Err(Fault::QuotaExceeded(QuotaRefusal::Flow(e)))),
            Ok(_) => match m {
                None => (allocated(q, bytes), m, Ok(())),
                Some(b) => match charge_result(b, bytes) {
                    Err(e) => (
                        freed(allocated(q, bytes), bytes),
                        m,
                        Err(Fault::QuotaExceeded(QuotaRefusal::Runtime(e))),
                    ),
                    Ok(_) => (allocated(q, bytes), Some(charged(b, bytes)), Ok(())),
                },
            },
        }
    }
}

/// The runtime's budget after bytes came back; never below zero.
pub open spec fn budget_freed(m: Option<MemoryBudget>, bytes: usize) -> Option<MemoryBudget> {
    match m {
        None => None,
        Some(b) => Some(
            MemoryBudget {
                used: if b.used >= bytes {
                    (b.used - bytes) as usize
                } else {
                    0
                },
                ..b
            },
        ),
    }
}

/// Heap bytes that register `reg` is charged for now.
pub open spec fn held_charge(s: VmState, reg: u8) -> nat {
    match read(s, reg) {
        Ok(v) => heap_charge(v),
        Err(_) => 0,
    }
}

/// The budgets after the growth or shrinkage that writing `v` to `reg`
/// brings. Without a quota nothing is accounted.
pub open spec fn charge_store(s: VmState, reg: u8, v: Value) -> (VmState, Result<(), Fault>) {
    match s.quota {
        None => (s, Ok(())),
        Some(q) => {
            let new = heap_charge(v);
            let held = held_charge(s, reg);
            if new > held {
                let (q2, m2, r) = charge_both(q, s.memory, (new - held) as usize);
                (VmState { quota: Some(q2), memory: m2, ..s }, r)
            } else if held > new {
                let back = (held - new) as usize;
                (
                    VmState {
                        quota: Some(freed(q, back)),
                        memory: budget_freed(s.memory, back),
                        ..s
                    },
                    Ok(()),
                )
            } else {
                (s, Ok(()))
            }
        },
    }
}

/// The state after `v` was written to `reg`, and the answer.
pub open spec fn store(s: VmState, reg: u8, v: Value) -> (VmState, Result<(), Fault>) {
    let (s1, r) = charge_store(s, reg, v);
    match r {
        Err(e) => (s1, Err(e)),
        Ok(_) => if s1.frames.len() == 0 {
            (s1, Err(no_frame()))
        } else {
            let f = s1.frames.last();
            if reg < f.registers.len() {
                (
                    with_top(
                        s1,
                        FrameState { registers: f.registers.update(reg as int, v), ..f },
                    ),
                    Ok(()),
                )
            } else {
                (
                    s1,
                    Err(Fault::RegisterOutOfRange { reg, frame_size: f.registers.len() as u8 }),
                )
            }
        },
    }
}

/// The end of a step that only writes a register.
pub open spec fn stored(s: VmState, reg: u8, v: Value) -> (VmState, Option<Effect>) {
    let (s1, r) = store(s, reg, v);
    match r {
        Ok(_) => (s1, None),
        Err(e) => (s1, Some(Effect::Trap(e))),
    }
}

/// The step stops with a fault.
pub open spec fn trap(s: VmState, f: Fault) -> (VmState, Option<Effect>) {
    (s, Some(Effect::Trap(f)))
}

/// A value has another type than an instruction needs.
pub open spec fn mismatch(expected: &'static str, got: &'static str) -> Fault {
    Fault::TypeMismatch { expected, got }
}

/// The end of the active frame with result `v`.
pub open spec fn pop(s: VmState, v: Value) -> (VmState, Option<Effect>) {
    if s.frames.len() == 0 {
        trap(s, Fault::Invariant("pop_frame on empty stack"))
    } else {
        let f = s.frames.last();
        let s1 = VmState { frames: s.frames.drop_last(), ..s };
        match f.dest_reg {
            Some(d) => stored(s1, d, v),
            None => (s1, Some(Effect::Complete(v))),
        }
    }
}

/// The absolute value.
pub open spec fn magnitude(x: int) -> int {
    if x < 0 {
        -x
    } else {
        x
    }
}

/// Division toward zero; the one quotient that does not fit wraps.
pub open spec fn quotient(x: i64, y: i64) -> i64 {
    let q = magnitude(x as int) / magnitude(y as int);
    if (x < 0) != (y < 0) {
        (-q) as i64
    } else if q > i64::MAX {
        i64::MIN
    } else {
        q as i64
    }
}

/// Remainder with the sign of the dividend.
pub open spec fn remainder(x: i64, y: i64) -> i64 {
    let r = magnitude(x as int) % magnitude(y as int);
    if x < 0 {
        (-r) as i64
    } else {
        r as i64
    }
}

/// Negation; the one result that does not fit wraps.
pub open spec fn negated(x: i64) -> i64 {
    if x == i64::MIN {
        i64::MIN
    } else {
        (-x) as i64
    }
}

/// A value that doubles can be computed from.
pub open spec fn is_number(v: Value) -> bool {
    v is Int || v is Float
}

/// Result of a binary operation.
pub ghost enum BinResult {
    Value(Value),
    /// A double operand: computed by the host.
    Float,
    Fault(Fault),
}

/// The operation on operands that are not both integers.
pub open spec fn mixed(first: Value, second: Value) -> BinResult {
    if !is_number(first) {
        BinResult::Fault(mismatch("int or float", kind_name_of(first)))
    } else if !is_number(second) {
        BinResult::Fault(mismatch("int or float", kind_name_of(second)))
    } else {
        BinResult::Float
    }
}

/// A binary operation.
pub open spec fn binary(op: Opcode, a: Value, b: Value) -> BinResult {
    match (a, b) {
        (Value::Int(x), Value::Int(y)) => match op {
            Opcode::Add => BinResult::Value(Value::Int(x.wrapping_add(y))),
            Opcode::Sub => BinResult::Value(Value::Int(x.wrapping_sub(y))),
            Opcode::Mul => BinResult::Value(Value::Int(x.wrapping_mul(y))),
            Opcode::Div => if y == 0 {
                BinResult::Fault(Fault::DivideByZero)
            } else {
                BinResult::Value(Value::Int(quotient(x, y)))
            },
            Opcode::Mod => if y == 0 {
                BinResult::Fault(Fault::DivideByZero)
            } else {
                BinResult::Value(Value::Int(remainder(x, y)))
            },
            Opcode::Eq => BinResult::Value(Value::Bool(x == y)),
            Opcode::Lt => BinResult::Value(Value::Bool(x < y)),
            _ => BinResult::Value(Value::Bool(x <= y)),
        },
        _ => match op {
            Opcode::Eq => BinResult::Value(Value::Bool(values_equal(a, b))),
            Opcode::Div => mixed(b, a),
            Opcode::Mod => BinResult::Fault(
                mismatch(
                    "int",
                    if a is Int {
                        kind_name_of(b)
                    } else {
                        kind_name_of(a)
                    },
                ),
            ),
            _ => mixed(a, b),
        },
    }
}

/// A binary operation from registers to a register.
pub open spec fn step_binary(s: VmState, i: Instruction) -> (VmState, Option<Effect>) {
    match read(s, i.b) {
        Err(e) => trap(s, e),
        Ok(a) => match read(s, i.c) {
            Err(e) => trap(s, e),
            Ok(b) => match binary(i.op, a, b) {
                BinResult::Value(v) => stored(s, i.a, v),
                BinResult::Fault(e) => trap(s, e),
                BinResult::Float => (
                    s,
                    Some(Effect::FloatOp { op: i.op, dest_reg: i.a, lhs: a, rhs: b }),
                ),
            },
        },
    }
}

/// `Neg`.
pub open spec fn step_neg(s: VmState, i: Instruction) -> (VmState, Option<Effect>) {
    match read(s, i.b) {
        Err(e) => trap(s, e),
        Ok(v) => match v {
            Value::Int(x) => stored(s, i.a, Value::Int(negated(x))),
            Value::Float(x) => stored(s, i.a, Value::Float(float_neg(x))),
            _ => trap(s, mismatch("int or float", kind_name_of(v))),
        },
    }
}

/// `LoadConst`.
pub open spec fn step_const(s: VmState, i: Instruction) -> (VmState, Option<Effect>) {
    let index = i.imm as u32;
    match element(s.chunk.constants@, index as nat) {
        Some(v) => stored(s, i.a, v),
        None => trap(
            s,
            Fault::BadConstant { index, pool_size: s.chunk.constants@.len() as u32 },
        ),
    }
}

/// `Move`.
pub open spec fn step_move(s: VmState, i: Instruction) -> (VmState, Option<Effect>) {
    match read(s, i.b) {
        Err(e) => trap(s, e),
        Ok(v) => stored(s, i.a, v),
    }
}

/// A relative jump from behind the instruction. Where jumps are not checked,
/// a wild target lies outside the code and returns from the function.
pub open spec fn jump(s: VmState, imm: i32) -> (VmState, Option<Effect>) {
    if s.frames.len() == 0 {
        trap(s, no_frame())
    } else {
        let target = s.frames.last().pc + imm;
        let len = s.chunk.code@.len() as usize;
        if s.paranoid && target < 0 {
            trap(s, Fault::BadJump { target: usize::MAX, code_len: len })
        } else if s.paranoid && target > len {
            trap(s, Fault::BadJump { target: target as usize, code_len: len })
        } else {
            (with_pc(s, target as usize), None)
        }
    }
}

/// `Branch`: jump on a falsy value.
pub open spec fn step_branch(s: VmState, i: Instruction) -> (VmState, Option<Effect>) {
    match read(s, i.a) {
        Err(e) => trap(s, e),
        Ok(v) => if truthy(v) {
            (s, None)
        } else {
            jump(s, i.imm)
        },
    }
}

/// Register `base + offset`.
pub open spec fn reg_at(base: u8, offset: nat) -> Result<u8, Fault> {
    if base + offset <= 255 {
        Ok((base + offset) as u8)
    } else {
        Err(
            Fault::RegisterIndexOverflow {
                base,
                offset: if offset <= 255 {
                    offset as u8
                } else {
                    255
                },
            },
        )
    }
}

/// The values of `n` registers from `base + first` on, or the first fault.
pub open spec fn gather(s: VmState, base: u8, first: nat, n: nat) -> Result<Seq<Value>, Fault>
    decreases n,
{
    if n == 0 {
        Ok(Seq::empty())
    } else {
        match gather(s, base, first, (n - 1) as nat) {
            Err(e) => Err(e),
            Ok(v) => match reg_at(base, (first + n - 1) as nat) {
                Err(e) => Err(e),
                Ok(reg) => match read(s, reg) {
                    Err(e) => Err(e),
                    Ok(x) => Ok(v.push(x)),
                },
            },
        }
    }
}

/// Arguments that a function of this arity takes out of `n`.
pub open spec fn taken(n: nat, arity: u8) -> nat {
    if n < arity {
        n
    } else {
        arity as nat
    }
}

/// Registers with the first arguments loaded, as many as the arity says.
pub open spec fn load_args(regs: Seq<Value>, args: Seq<Value>, arity: u8) -> Result<
    Seq<Value>,
    Fault,
> {
    let n = taken(args.len(), arity);
    if n > regs.len() {
        Err(
            Fault::RegisterOutOfRange {
                reg: regs.len() as u8,
                frame_size: regs.len() as u8,
            },
        )
    } else {
        Ok(
            Seq::new(
                regs.len(),
                |k: int|
                    if k < n {
                        args[k]
                    } else {
                        regs[k]
                    },
            ),
        )
    }
}

/// The frame of a call of `function` with `args`.
pub open spec fn entry_frame(
    chunk: Chunk,
    function: u32,
    args: Seq<Value>,
    dest_reg: Option<u8>,
) -> Result<FrameState, Fault> {
    match element(chunk.functions@, function as nat) {
        None => Err(
            Fault::BadFunction { index: function, table_size: chunk.functions@.len() as u32 },
        ),
        Some(def) => match load_args(blank_registers(def.num_registers), args, def.arity) {
            Err(e) => Err(e),
            Ok(registers) => Ok(
                FrameState { function, pc: def.entry as usize, registers, dest_reg },
            ),
        },
    }
}

/// `Call`.
pub open spec fn step_call(s: VmState, i: Instruction) -> (VmState, Option<Effect>) {
    let function = i.imm as u32;
    if s.frames.len() >= MAX_CALL_DEPTH {
        trap(s, Fault::CallStackOverflow { depth: s.frames.len() as usize })
    } else if element(s.chunk.functions@, function as nat) is None {
        trap(
            s,
            Fault::BadFunction { index: function, table_size: s.chunk.functions@.len() as u32 },
        )
    } else {
        match gather(s, i.a, 0, i.b as nat) {
            Err(e) => trap(s, e),
            Ok(args) => match entry_frame(s.chunk, function, args, Some(i.a)) {
                Err(e) => trap(s, e),
                Ok(f) => (VmState { frames: s.frames.push(f), ..s }, None),
            },
        }
    }
}

/// The fault of a refused native call.
pub open spec fn denied(e: NativeCallError, slots: nat) -> Fault {
    match e {
        NativeCallError::IndexOutOfRange(index) => Fault::BadNative {
            index,
            table_size: slots as u32,
        },
        _ => Fault::NativeDenied(e),
    }
}

/// `CallNative`.
pub open spec fn step_native(s: VmState, i: Instruction) -> (VmState, Option<Effect>) {
    let index = i.imm as u32;
    match gate_check(s.gate, s.natives.len(), index) {
        Err(e) => trap(s, denied(e, s.natives.len())),
        Ok(_) => match gather(s, i.a, 0, i.b as nat) {
            Err(e) => trap(s, e),
            Ok(args) => match native_at(s.natives, index) {
                None => trap(s, Fault::BadNative { index, table_size: s.natives.len() as u32 }),
                Some(f) => match native_result(f, args) {
                    None => (
                        s,
                        Some(
                            Effect::CallHost {
                                dest_reg: i.a,
                                native: match f {
                                    NativeFn::Host(id) => id,
                                    _ => 0,
                                },
                                args,
                            },
                        ),
                    ),
                    Some(Err(e)) => trap(s, e),
                    Some(Ok(v)) => stored(s, i.a, v),
                },
            },
        },
    }
}

/// `Return`.
pub open spec fn step_return(s: VmState, i: Instruction) -> (VmState, Option<Effect>) {
    match read(s, i.a) {
        Err(e) => trap(s, e),
        Ok(v) => pop(s, v),
    }
}

/// `Halt` and `Exit`: the flow ends with a register.
pub open spec fn step_exit(s: VmState, reg: u8) -> (VmState, Option<Effect>) {
    match read(s, reg) {
        Err(e) => trap(s, e),
        Ok(v) => (s, Some(Effect::Complete(v))),
    }
}

/// `Spawn`: the arguments follow the destination register.
pub open spec fn step_spawn(s: VmState, i: Instruction) -> (VmState, Option<Effect>) {
    match gather(s, i.a, 1, i.b as nat) {
        Err(e) => trap(s, e),
        Ok(args) => (
            s,
            Some(
                Effect::Spawn {
                    function: i.imm as u32,
                    args,
                    dest_reg: i.a,
                    requested_rights: rights(i.c as u32),
                },
            ),
        ),
    }
}

/// `FreshRequestId`.
pub open spec fn step_fresh(s: VmState, i: Instruction) -> (VmState, Option<Effect>) {
    stored(
        VmState { next_request_id: next_id(s.next_request_id), ..s },
        i.a,
        Value::Int(s.next_request_id as i64),
    )
}

/// The counter after an id was taken; it stops at the largest.
pub open spec fn next_id(id: u64) -> u64 {
    if id < u64::MAX {
        (id + 1) as u64
    } else {
        id
    }
}

/// A register as milliseconds.
pub open spec fn millis_at(s: VmState, reg: u8) -> Result<u64, Fault> {
    match read(s, reg) {
        Err(e) => Err(e),
        Ok(v) => match int_of(v) {
            Some(ms) if ms >= 0 => Ok(ms as u64),
            _ => Err(mismatch("non-negative int", kind_name_of(v))),
        },
    }
}

/// A register as a capability.
pub open spec fn cap_at(s: VmState, reg: u8) -> Result<CapId, Fault> {
    match read(s, reg) {
        Err(e) => Err(e),
        Ok(v) => match v {
            Value::Cap(c) => Ok(c),
            _ => Err(mismatch("cap", kind_name_of(v))),
        },
    }
}

/// A register that must hold a message.
pub open spec fn message_at(s: VmState, reg: u8) -> Result<Value, Fault> {
    match read(s, reg) {
        Err(e) => Err(e),
        Ok(v) => if v is Message {
            Ok(v)
        } else {
            Err(mismatch("message", kind_name_of(v)))
        },
    }
}

/// A register as a text.
pub open spec fn text_at(s: VmState, reg: u8) -> Result<std::sync::Arc<String>, Fault> {
    match read(s, reg) {
        Err(e) => Err(e),
        Ok(v) => match v {
            Value::Str(t) => Ok(t),
            _ => Err(mismatch("str", kind_name_of(v))),
        },
    }
}

/// A register as a tag.
pub open spec fn tag_at(s: VmState, reg: u8) -> Result<u16, Fault> {
    match read(s, reg) {
        Err(e) => Err(e),
        Ok(v) => match int_of(v) {
            Some(i) => if 0 <= i <= u16::MAX {
                Ok(i as u16)
            } else {
                Err(mismatch("tag u16", "int-out-of-range"))
            },
            None => Err(mismatch("int", kind_name_of(v))),
        },
    }
}

/// An immediate as a tag.
pub open spec fn tag_imm(imm: i32) -> Result<u16, Fault> {
    if 0 <= imm <= u16::MAX {
        Ok(imm as u16)
    } else {
        Err(mismatch("tag u16", "imm-out-of-range"))
    }
}

/// A register as a correlation id.
pub open spec fn request_id_at(s: VmState, reg: u8) -> Result<u64, Fault> {
    match read(s, reg) {
        Err(e) => Err(e),
        Ok(v) => match int_of(v) {
            Some(i) => if i >= 0 {
                Ok(i as u64)
            } else {
                Err(mismatch("request_id u64", "negative-int"))
            },
            None => Err(mismatch("int", kind_name_of(v))),
        },
    }
}

/// The end of a step with an effect, or the fault in making it.
pub open spec fn effect(s: VmState, r: Result<Effect, Fault>) -> (VmState, Option<Effect>) {
    match r {
        Ok(e) => (s, Some(e)),
        Err(f) => trap(s, f),
    }
}

/// A receive with the given filters.
pub open spec fn receive(
    dest_reg: u8,
    timeout: Option<u64>,
    match_tag: Option<u16>,
    match_request_id: Option<u64>,
    match_payload_kind: Option<u8>,
) -> Effect {
    Effect::Receive { dest_reg, timeout, match_tag, match_request_id, match_payload_kind }
}

/// The receives.
pub open spec fn receive_effect(s: VmState, i: Instruction) -> Result<Effect, Fault> {
    match i.op {
        Opcode::Receive => Ok(receive(i.a, None, None, None, None)),
        Opcode::ReceiveTimeout => match millis_at(s, i.b) {
            Err(e) => Err(e),
            Ok(ms) => Ok(receive(i.a, Some(ms), None, None, None)),
        },
        Opcode::ReceiveMatch => match tag_at(s, i.b) {
            Err(e) => Err(e),
            Ok(tag) => Ok(receive(i.a, None, Some(tag), None, None)),
        },
        Opcode::ReceiveMatchImm => match tag_imm(i.imm) {
            Err(e) => Err(e),
            Ok(tag) => Ok(receive(i.a, None, Some(tag), None, None)),
        },
        Opcode::ReceiveMatchCorr => match tag_at(s, i.b) {
            Err(e) => Err(e),
            Ok(tag) => match request_id_at(s, i.c) {
                Err(e) => Err(e),
                Ok(rid) => Ok(receive(i.a, None, Some(tag), Some(rid), None)),
            },
        },
        Opcode::ReceiveMatchCorrImm => match tag_imm(i.imm) {
            Err(e) => Err(e),
            Ok(tag) => match request_id_at(s, i.b) {
                Err(e) => Err(e),
                Ok(rid) => Ok(receive(i.a, None, Some(tag), Some(rid), None)),
            },
        },
        _ => if 0 <= i.imm <= 8 {
            Ok(receive(i.a, None, None, None, Some(i.imm as u8)))
        } else {
            Err(mismatch("payload kind", "imm-out-of-range"))
        },
    }
}

/// The operations that address another flow.
pub open spec fn address_effect(s: VmState, i: Instruction) -> Result<Effect, Fault> {
    match i.op {
        Opcode::Send => match cap_at(s, i.a) {
            Err(e) => Err(e),
            Ok(target_cap) => match message_at(s, i.b) {
                Err(e) => Err(e),
                Ok(message) => Ok(Effect::Send { target_cap, message }),
            },
        },
        Opcode::Ask => match cap_at(s, i.b) {
            Err(e) => Err(e),
            Ok(target_cap) => match message_at(s, i.c) {
                Err(e) => Err(e),
                Ok(request) => Ok(
                    Effect::Ask { dest_reg: i.a, target_cap, request, timeout: None },
                ),
            },
        },
        Opcode::AskTimeout => if !(0 <= i.imm <= 255) {
            Err(mismatch("millis register", "imm-out-of-range"))
        } else {
            match millis_at(s, i.imm as u8) {
                Err(e) => Err(e),
                Ok(ms) => match cap_at(s, i.b) {
                    Err(e) => Err(e),
                    Ok(target_cap) => match message_at(s, i.c) {
                        Err(e) => Err(e),
                        Ok(request) => Ok(
                            Effect::Ask { dest_reg: i.a, target_cap, request, timeout: Some(ms) },
                        ),
                    },
                },
            }
        },
        Opcode::Monitor => match cap_at(s, i.b) {
            Err(e) => Err(e),
            Ok(target_cap) => Ok(Effect::Monitor { dest_reg: i.a, target_cap }),
        },
        Opcode::Link => match cap_at(s, i.b) {
            Err(e) => Err(e),
            Ok(target_cap) => Ok(Effect::Link { dest_reg: i.a, target_cap }),
        },
        _ => match cap_at(s, i.b) {
            Err(e) => Err(e),
            Ok(src_cap) => if i.c == 255 {
                Ok(
                    Effect::Delegate {
                        dest_reg: i.a,
                        src_cap,
                        want_rights: rights(i.imm as u32),
                        want_native_cap: None,
                    },
                )
            } else {
                match cap_at(s, i.c) {
                    Err(e) => Err(e),
                    Ok(native) => Ok(
                        Effect::Delegate {
                            dest_reg: i.a,
                            src_cap,
                            want_rights: rights(i.imm as u32),
                            want_native_cap: Some(native),
                        },
                    ),
                }
            },
        },
    }
}

/// The remaining requests to the scheduler.
pub open spec fn request_effect(s: VmState, i: Instruction) -> Result<Effect, Fault> {
    match i.op {
        Opcode::Yield => Ok(Effect::Yield),
        Opcode::Sleep => match millis_at(s, i.a) {
            Err(e) => Err(e),
            Ok(ms) => Ok(Effect::Sleep(ms)),
        },
        Opcode::SelfPid => Ok(Effect::SelfPid { dest_reg: i.a }),
        Opcode::Demonitor => Ok(Effect::Demonitor { monitor_reg: i.a }),
        Opcode::Unlink => Ok(Effect::Unlink { link_reg: i.a }),
        Opcode::SetTrapExit => match read(s, i.a) {
            Err(e) => Err(e),
            Ok(v) => Ok(Effect::SetTrapExit { enabled: truthy(v) }),
        },
        Opcode::SetRestartPolicy => if 0 <= i.imm <= 2 {
            Ok(Effect::SetRestartPolicy { policy: i.imm as u8 })
        } else {
            Err(mismatch("restart policy", "imm-out-of-range"))
        },
        Opcode::HostAwait => match read(s, i.b) {
            Err(e) => Err(e),
            Ok(args) => Ok(Effect::HostAwait { dest_reg: i.a, op: i.imm as u32, args }),
        },
        Opcode::RegisterName => match text_at(s, i.a) {
            Err(e) => Err(e),
            Ok(name) => Ok(Effect::RegisterName { name }),
        },
        Opcode::Whereis => match text_at(s, i.b) {
            Err(e) => Err(e),
            Ok(name) => Ok(Effect::Whereis { dest_reg: i.a, name }),
        },
        _ => Err(Fault::Explicit(i.imm)),
    }
}

/// The families of instructions.
pub ghost enum Family {
    Local,
    Binary,
    Control,
    Receive,
    Address,
    Request,
}

/// The family of an instruction.
pub open spec fn family(op: Opcode) -> Family {
    match op {
        Opcode::Nop | Opcode::LoadConst | Opcode::LoadImm | Opcode::Move | Opcode::Neg
        | Opcode::Jump | Opcode::Branch | Opcode::FreshRequestId => Family::Local,
        Opcode::Add | Opcode::Sub | Opcode::Mul | Opcode::Div | Opcode::Mod | Opcode::Eq
        | Opcode::Lt | Opcode::Le => Family::Binary,
        Opcode::Halt | Opcode::Exit | Opcode::Call | Opcode::CallNative | Opcode::Return
        | Opcode::Spawn => Family::Control,
        Opcode::Receive | Opcode::ReceiveTimeout | Opcode::ReceiveMatch
        | Opcode::ReceiveMatchImm | Opcode::ReceiveMatchCorr | Opcode::ReceiveMatchCorrImm
        | Opcode::ReceiveMatchKind => Family::Receive,
        Opcode::Send | Opcode::Ask | Opcode::AskTimeout | Opcode::Monitor | Opcode::Link
        | Opcode::Delegate => Family::Address,
        _ => Family::Request,
    }
}

/// The instructions that only touch registers and the program counter.
pub open spec fn step_local(s: VmState, i: Instruction) -> (VmState, Option<Effect>) {
    match i.op {
        Opcode::LoadConst => step_const(s, i),
        Opcode::LoadImm => stored(s, i.a, Value::Int(i.imm as i64)),
        Opcode::Move => step_move(s, i),
        Opcode::Neg => step_neg(s, i),
        Opcode::Jump => jump(s, i.imm),
        Opcode::Branch => step_branch(s, i),
        Opcode::FreshRequestId => step_fresh(s, i),
        _ => (s, None),
    }
}

/// Calls, returns and the ends of a flow.
pub open spec fn step_control(s: VmState, i: Instruction) -> (VmState, Option<Effect>) {
    match i.op {
        Opcode::Halt => step_exit(s, 0),
        Opcode::Exit => step_exit(s, i.a),
        Opcode::Call => step_call(s, i),
        Opcode::CallNative => step_native(s, i),
        Opcode::Return => step_return(s, i),
        _ => step_spawn(s, i),
    }
}

/// One instruction, the program counter being behind it already.
pub open spec fn perform(s: VmState, i: Instruction) -> (VmState, Option<Effect>) {
    match family(i.op) {
        Family::Local => step_local(s, i),
        Family::Binary => step_binary(s, i),
        Family::Control => step_control(s, i),
        Family::Receive => effect(s, receive_effect(s, i)),
        Family::Address => effect(s, address_effect(s, i)),
        Family::Request => effect(s, request_effect(s, i)),
    }
}

/// One step: fetch and perform, or return `Unit` behind the end of the code.
pub open spec fn step(s: VmState) -> (VmState, Option<Effect>) {
    let s1 = VmState { executed: s.executed.wrapping_add(1), ..s };
    if s.frames.len() == 0 {
        trap(s1, no_frame())
    } else {
        let pc = s.frames.last().pc;
        if pc < s.chunk.code@.len() {
            perform(with_pc(s1, (pc + 1) as usize), s.chunk.code@[pc as int])
        } else {
            pop(s1, Value::Unit)
        }
    }
}

/// A slice of at most `budget` steps: it ends at the first effect, or with
/// a yield.
pub open spec fn slice(s: VmState, budget: nat) -> (VmState, Effect)
    decreases budget,
{
    if budget == 0 {
        (s, Effect::Yield)
    } else {
        let (s1, e) = step(s);
        match e {
            Some(e) => (s1, e),
            None => slice(s1, (budget - 1) as nat),
        }
    }
}

} // verus!
