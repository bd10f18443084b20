//! The interpreter.

use std::sync::Arc;

use vstd::prelude::*;

use crate::bytecode::cap::{CapId, CapRights};
use crate::bytecode::chunk::Chunk;
use crate::bytecode::instruction::Instruction;
use crate::bytecode::opcode::Opcode;
use crate::bytecode::value::{string_bytes, Value};
use crate::memory::MemoryBudget;
use crate::scheduler::quota::FlowQuota;
use crate::vm::fault::{Fault, NativeCallError, QuotaRefusal};
use crate::vm::frame::{Frame, FrameState};
use crate::vm::native::{check_native_gate, NativeFn, NativeGate, NativeTable};
use crate::vm::result::{Effect, VmResult};
use crate::vm::state::{
    address_effect, budget_freed, cap_at, charge_both, charge_store, entry_frame, family, gather,
    heap_charge, held_charge, jump, load_args, message_at, millis_at, next_id, perform, pop,
    quotient, read, receive_effect, reg_at, remainder, request_effect, request_id_at, slice, step,
    step_binary, step_control, step_local, store, stored, tag_at, tag_imm, text_at, with_pc,
    with_top, VmState,
};

pub use crate::vm::state::MAX_CALL_DEPTH;

verus! {

/// State of one flow's execution.
pub struct Vm {
    pub chunk: Arc<Chunk>,
    pub natives: Arc<NativeTable>,
    pub native_gate: NativeGate,
    pub frames: Vec<Frame>,
    /// Instructions executed so far, modulo the word size.
    pub instructions_executed: u64,
    /// Next correlation id.
    pub next_request_id: u64,
    /// The flow's budgets, while they are lent to the machine.
    pub quota: Option<FlowQuota>,
    /// The runtime's byte budget, while it is lent to the machine.
    pub memory: Option<MemoryBudget>,
    /// Check jump targets.
    pub paranoid_jumps: bool,
}

/// Models of frames.
pub open spec fn frame_states(s: Seq<Frame>) -> Seq<FrameState> {
    s.map_values(|f: Frame| f@)
}

impl View for Vm {
    type V = VmState;

    open spec fn view(&self) -> VmState {
        VmState {
            chunk: *self.chunk,
            natives: self.natives@,
            gate: self.native_gate,
            frames: frame_states(self.frames@),
            executed: self.instructions_executed,
            next_request_id: self.next_request_id,
            quota: self.quota,
            memory: self.memory,
            paranoid: self.paranoid_jumps,
        }
    }
}

/// Model of an optional result.
pub open spec fn result_view(r: Option<VmResult>) -> Option<Effect> {
    match r {
        Some(x) => Some(x@),
        None => None,
    }
}

/// A machine about to run `f`.
pub open spec fn fresh_vm(
    chunk: Chunk,
    natives: Seq<Option<(Seq<char>, NativeFn)>>,
    gate: NativeGate,
    f: FrameState,
) -> VmState {
    VmState {
        chunk,
        natives,
        gate,
        frames: seq![f],
        executed: 0,
        next_request_id: 1,
        quota: None,
        memory: None,
        paranoid: false,
    }
}

/// The budgets after every value of `regs` before `n` was charged, in order,
/// up to the first refusal.
pub open spec fn charge_registers(
    q: FlowQuota,
    m: Option<MemoryBudget>,
    regs: Seq<Value>,
    n: nat,
) -> (FlowQuota, Option<MemoryBudget>, Result<(), Fault>)
    decreases n,
{
    if n == 0 {
        (q, m, Ok(()))
    } else {
        let (q1, m1, r) = charge_registers(q, m, regs, (n - 1) as nat);
        match r {
            Err(e) => (q1, m1, Err(e)),
            Ok(_) => charge_both(q1, m1, heap_charge(regs[n - 1]) as usize),
        }
    }
}

/// The budgets after the registers of the first `n` frames were charged.
pub open spec fn charge_frames(
    q: FlowQuota,
    m: Option<MemoryBudget>,
    frames: Seq<FrameState>,
    n: nat,
) -> (FlowQuota, Option<MemoryBudget>, Result<(), Fault>)
    decreases n,
{
    if n == 0 {
        (q, m, Ok(()))
    } else {
        let (q1, m1, r) = charge_frames(q, m, frames, (n - 1) as nat);
        match r {
            Err(e) => (q1, m1, Err(e)),
            Ok(_) => {
                let regs = frames[n - 1].registers;
                charge_registers(q1, m1, regs, regs.len())
            },
        }
    }
}

fn heap_charge_of(value: &Value) -> (r: usize)
    ensures
        r == heap_charge(*value),
{
    match value {
        Value::Str(s) => string_bytes(s.as_str()),
        Value::Bytes(b) => b.len(),
        _ => 0,
    }
}

fn charge_pair(quota: &mut FlowQuota, memory: &mut Option<MemoryBudget>, bytes: usize) -> (r:
    Result<(), Fault>)
    ensures
        (*final(quota), *final(memory), r) == charge_both(*old(quota), *old(memory), bytes),
{
    if bytes == 0 {
        return Ok(());
    }
    match quota.allocate(bytes) {
        Ok(_) => {},
        Err(e) => return Err(Fault::QuotaExceeded(QuotaRefusal::Flow(e))),
    }
    if let Some(b) = *memory {
        let mut b = b;
        match b.try_charge(bytes) {
            Ok(_) => {
                *memory = Some(b);
            },
            Err(e) => {
                quota.free(bytes);
                return Err(Fault::QuotaExceeded(QuotaRefusal::Runtime(e)));
            },
        }
    }
    Ok(())
}

fn release_pair(quota: &mut FlowQuota, memory: &mut Option<MemoryBudget>, bytes: usize)
    ensures
        *final(quota) == crate::scheduler::quota::freed(*old(quota), bytes),
        *final(memory) == budget_freed(*old(memory), bytes),
{
    quota.free(bytes);
    if let Some(b) = *memory {
        let mut b = b;
        let back: usize = if b.used() >= bytes {
            bytes
        } else {
            b.used()
        };
        b.release(back);
        *memory = Some(b);
    }
}

/// Division toward zero.
pub fn divide(x: i64, y: i64) -> (r: i64)
    requires
        y != 0,
    ensures
        r == quotient(x, y),
{
    let a: u64 = unsigned(x);
    let b: u64 = unsigned(y);
    let q: u64 = a / b;
    assert(q <= a) by (nonlinear_arith)
        requires
            q == a / b,
            b > 0,
    ;
    if (x < 0) != (y < 0) {
        (-(q as i128)) as i64
    } else if q > i64::MAX as u64 {
        i64::MIN
    } else {
        q as i64
    }
}

/// Remainder with the sign of the dividend.
pub fn modulo(x: i64, y: i64) -> (r: i64)
    requires
        y != 0,
    ensures
        r == remainder(x, y),
{
    let a: u64 = unsigned(x);
    let b: u64 = unsigned(y);
    let r: u64 = a % b;
    if x < 0 {
        (-(r as i128)) as i64
    } else {
        r as i64
    }
}

fn unsigned(x: i64) -> (r: u64)
    ensures
        r == crate::vm::state::magnitude(x as int),
{
    if x < 0 {
        (-(x as i128)) as u64
    } else {
        x as u64
    }
}

fn register_at(base: u8, offset: u16) -> (r: Result<u8, Fault>)
    ensures
        r == reg_at(base, offset as nat),
{
    let sum: u32 = base as u32 + offset as u32;
    if sum <= 255 {
        Ok(sum as u8)
    } else {
        Err(
            Fault::RegisterIndexOverflow {
                base,
                offset: if offset <= 255 {
                    offset as u8
                } else {
                    255
                },
            },
        )
    }
}

fn load_frame_args(frame: &mut Frame, args: &[Value], arity: u8) -> (r: Result<(), Fault>)
    requires
        old(frame)@.registers.len() <= 255,
    ensures
        match load_args(old(frame)@.registers, args@, arity) {
            Ok(regs) => r is Ok && final(frame)@ == (FrameState {
                registers: regs,
                ..old(frame)@
            }),
            Err(e) => r == Err::<(), Fault>(e),
        },
{
    let size: usize = frame.registers.len();
    let mut k: usize = 0;
    while k < args.len() && k < arity as usize
        invariant
            size == old(frame)@.registers.len(),
            size <= 255,
            frame.registers@.len() == size,
            k <= size,
            k <= args@.len(),
            k <= arity,
            frame.function == old(frame).function,
            frame.pc == old(frame).pc,
            frame.dest_reg == old(frame).dest_reg,
            forall|j: int| 0 <= j < k ==> frame.registers@[j] == args@[j],
            forall|j: int|
                k <= j < size ==> frame.registers@[j] == old(frame)@.registers[j],
        decreases args@.len() - k,
    {
        if k >= size {
            return Err(Fault::RegisterOutOfRange { reg: k as u8, frame_size: size as u8 });
        }
        frame.registers.set(k, args[k].clone());
        k += 1;
    }
    assert(load_args(old(frame)@.registers, args@, arity) matches Ok(regs) && frame.registers@
        =~= regs);
    Ok(())
}

fn make_frame(chunk: &Chunk, function: u32, args: &[Value], dest_reg: Option<u8>) -> (r: Result<
    Frame,
    Fault,
>)
    ensures
        match entry_frame(*chunk, function, args@, dest_reg) {
            Ok(f) => r matches Ok(x) && x@ == f,
            Err(e) => r == Err::<Frame, Fault>(e),
        },
{
    let def = match chunk.function(function) {
        Some(d) => d,
        None => return Err(
            Fault::BadFunction { index: function, table_size: chunk.functions.len() as u32 },
        ),
    };
    let mut frame = Frame::new(function, def.num_registers, dest_reg);
    frame.pc = def.entry as usize;
    match load_frame_args(&mut frame, args, def.arity) {
        Ok(_) => Ok(frame),
        Err(e) => Err(e),
    }
}

/// A fault as the end of a step.
fn fail(f: Fault) -> (r: Option<VmResult>)
    ensures
        result_view(r) == Some(Effect::Trap(f)),
{
    Some(VmResult::Trap(f))
}

impl Vm {
    /// A machine about to run a function. Natives are denied.
    pub fn new(chunk: Arc<Chunk>, natives: Arc<NativeTable>, function: u32, args: &[Value]) -> (r:
        Result<Self, Fault>)
        ensures
            match entry_frame(*chunk, function, args@, None) {
                Ok(f) => r matches Ok(vm) && vm@ == fresh_vm(*chunk, natives@, vm@.gate, f)
                    && !vm@.gate.has_native && vm@.gate.mask@ == Set::<int>::empty(),
                Err(e) => r == Err::<Self, Fault>(e),
            },
    {
        let gate = NativeGate::deny(natives.len());
        Vm::with_native_gate(chunk, natives, gate, function, args)
    }

    /// A machine about to run a function, with a gate for its natives.
    pub fn with_native_gate(
        chunk: Arc<Chunk>,
        natives: Arc<NativeTable>,
        native_gate: NativeGate,
        function: u32,
        args: &[Value],
    ) -> (r: Result<Self, Fault>)
        ensures
            match entry_frame(*chunk, function, args@, None) {
                Ok(f) => r matches Ok(vm) && vm@ == fresh_vm(*chunk, natives@, native_gate, f),
                Err(e) => r == Err::<Self, Fault>(e),
            },
    {
        let frame = match make_frame(&chunk, function, args, None) {
            Ok(f) => f,
            Err(e) => return Err(e),
        };
        let ghost f = frame@;
        let mut frames: Vec<Frame> = Vec::new();
        frames.push(frame);
        assert(frame_states(frames@) =~= seq![f]);
        Ok(
            Vm {
                chunk,
                natives,
                native_gate,
                frames,
                instructions_executed: 0,
                next_request_id: 1,
                quota: None,
                memory: None,
                paranoid_jumps: false,
            },
        )
    }

    /// Check jump targets, or stop checking them.
    pub fn set_paranoid_jumps(&mut self, enabled: bool)
        ensures
            final(self)@ == (VmState { paranoid: enabled, ..old(self)@ }),
    {
        self.paranoid_jumps = enabled;
    }

    /// Attach the flow's budgets: what the registers hold is charged now.
    pub fn set_quota(&mut self, quota: FlowQuota) -> (r: Result<(), Fault>)
        ensures
            ({
                let (q, m, answer) = charge_frames(
                    quota,
                    old(self)@.memory,
                    old(self)@.frames,
                    old(self)@.frames.len(),
                );
                &&& r == answer
                &&& final(self)@ == (VmState {
                    quota: if answer is Ok {
                        Some(q)
                    } else {
                        old(self)@.quota
                    },
                    memory: m,
                    ..old(self)@
                })
            }),
    {
        let ghost q0 = quota;
        let ghost m0 = self.memory;
        let mut held = quota;
        let mut memory = self.memory;
        let mut k: usize = 0;
        while k < self.frames.len()
            invariant
                *self == *old(self),
                q0 == quota,
                m0 == old(self).memory,
                k <= self.frames@.len(),
                charge_frames(q0, m0, self@.frames, k as nat) == (
                    held,
                    memory,
                    Ok::<(), Fault>(()),
                ),
            decreases self.frames@.len() - k,
        {
            let ghost q1 = held;
            let ghost m1 = memory;
            let ghost regs = self@.frames[k as int].registers;
            let mut j: usize = 0;
            while j < self.frames[k].registers.len()
                invariant
                    *self == *old(self),
                    q0 == quota,
                    m0 == old(self).memory,
                    k < self.frames@.len(),
                    regs == self.frames@[k as int].registers@,
                    regs == self@.frames[k as int].registers,
                    charge_frames(q0, m0, self@.frames, k as nat) == (
                        q1,
                        m1,
                        Ok::<(), Fault>(()),
                    ),
                    j <= regs.len(),
                    charge_registers(q1, m1, regs, j as nat) == (
                        held,
                        memory,
                        Ok::<(), Fault>(()),
                    ),
                decreases regs.len() - j,
            {
                let bytes: usize = heap_charge_of(&self.frames[k].registers[j]);
                match charge_pair(&mut held, &mut memory, bytes) {
                    Ok(_) => {},
                    Err(e) => {
                        proof {
                            let got = (held, memory, Err::<(), Fault>(e));
                            assert(charge_registers(q1, m1, regs, (j + 1) as nat) == got);
                            lemma_registers_stop(q1, m1, regs, (j + 1) as nat, regs.len());
                            assert(charge_frames(q0, m0, self@.frames, (k + 1) as nat) == got);
                            lemma_frames_stop(
                                q0,
                                m0,
                                self@.frames,
                                (k + 1) as nat,
                                self@.frames.len(),
                            );
                        }
                        self.memory = memory;
                        return Err(e);
                    },
                }
                j += 1;
            }
            k += 1;
        }
        self.quota = Some(held);
        self.memory = memory;
        Ok(())
    }

    /// Lend the runtime's byte budget to the machine.
    pub fn set_memory_budget(&mut self, memory: MemoryBudget)
        ensures
            final(self)@ == (VmState { memory: Some(memory), ..old(self)@ }),
    {
        self.memory = Some(memory);
    }

    /// Lend the flow's budgets, which already account for the registers.
    pub fn lend_quota(&mut self, quota: FlowQuota)
        ensures
            final(self)@ == (VmState { quota: Some(quota), ..old(self)@ }),
    {
        self.quota = Some(quota);
    }

    /// Take the flow's budgets back.
    pub fn take_quota(&mut self) -> (r: Option<FlowQuota>)
        ensures
            r == old(self)@.quota,
            final(self)@ == (VmState { quota: None, ..old(self)@ }),
    {
        let q = self.quota;
        self.quota = None;
        q
    }

    /// Take the runtime's byte budget back.
    pub fn take_memory_budget(&mut self) -> (r: Option<MemoryBudget>)
        ensures
            r == old(self)@.memory,
            final(self)@ == (VmState { memory: None, ..old(self)@ }),
    {
        let m = self.memory;
        self.memory = None;
        m
    }

    /// A correlation id of this flow.
    pub fn fresh_request_id(&mut self) -> (r: u64)
        ensures
            r == old(self)@.next_request_id,
            final(self)@ == (VmState {
                next_request_id: next_id(old(self)@.next_request_id),
                ..old(self)@
            }),
    {
        let id: u64 = self.next_request_id;
        self.next_request_id = self.next_request_id.saturating_add(1);
        id
    }

    pub fn instructions_executed(&self) -> (r: u64)
        ensures
            r == self@.executed,
    {
        self.instructions_executed
    }

    /// Function of the active frame; zero without frames.
    pub fn current_function(&self) -> (r: u32)
        ensures
            r == (if self@.frames.len() > 0 {
                self@.frames.last().function
            } else {
                0
            }),
    {
        let n: usize = self.frames.len();
        if n > 0 {
            assert(self@.frames[n - 1] == self.frames@[n - 1]@);
            self.frames[n - 1].function
        } else {
            0
        }
    }

    pub fn chunk_arc(&self) -> (r: Arc<Chunk>)
        ensures
            *r == self@.chunk,
    {
        self.chunk.clone()
    }

    pub fn natives_arc(&self) -> (r: Arc<NativeTable>)
        ensures
            r@ == self@.natives,
    {
        self.natives.clone()
    }

    /// Deliver a value into the register that waits for it.
    pub fn resume_with(&mut self, dest_reg: u8, value: Value) -> (r: Result<(), Fault>)
        ensures
            (final(self)@, r) == store(old(self)@, dest_reg, value),
    {
        self.set_reg(dest_reg, value)
    }

    /// Program counter of the active frame.
    pub fn current_pc(&self) -> (r: Option<usize>)
        ensures
            r == (if self@.frames.len() > 0 {
                Some(self@.frames.last().pc)
            } else {
                None
            }),
    {
        let n: usize = self.frames.len();
        if n > 0 {
            assert(self@.frames[n - 1] == self.frames@[n - 1]@);
            Some(self.frames[n - 1].pc)
        } else {
            None
        }
    }

    /// Registers of the active frame, as a count.
    pub fn current_num_registers(&self) -> (r: Option<u8>)
        ensures
            r == (if self@.frames.len() > 0 {
                Some(self@.frames.last().registers.len() as u8)
            } else {
                None
            }),
    {
        let n: usize = self.frames.len();
        if n > 0 {
            assert(self@.frames[n - 1] == self.frames@[n - 1]@);
            Some(self.frames[n - 1].registers.len() as u8)
        } else {
            None
        }
    }

    /// Registers of the active frame.
    pub fn top_registers(&self) -> (r: Option<&[Value]>)
        ensures
            match r {
                Some(regs) => self@.frames.len() > 0 && regs@ == self@.frames.last().registers,
                None => self@.frames.len() == 0,
            },
    {
        let n: usize = self.frames.len();
        if n > 0 {
            assert(self@.frames[n - 1] == self.frames@[n - 1]@);
            Some(self.frames[n - 1].registers.as_slice())
        } else {
            None
        }
    }

    /// Registers of the active frame, to be overwritten. No charge is kept
    /// for what is written there.
    pub fn top_registers_mut(&mut self) -> (r: Option<&mut Vec<Value>>)
        ensures
            match r {
                Some(regs) => {
                    &&& old(self)@.frames.len() > 0
                    &&& regs@ == old(self)@.frames.last().registers
                    &&& final(self)@ == with_top(
                        old(self)@,
                        FrameState { registers: final(regs)@, ..old(self)@.frames.last() },
                    )
                },
                None => old(self)@.frames.len() == 0 && final(self)@ == old(self)@,
            },
    {
        let n: usize = self.frames.len();
        if n > 0 {
            assert(self@.frames[n - 1] == self.frames@[n - 1]@);
            Some(&mut self.frames[n - 1].registers)
        } else {
            None
        }
    }

    /// Set the program counter of the active frame.
    pub fn set_pc(&mut self, pc: usize)
        ensures
            final(self)@ == (if old(self)@.frames.len() > 0 {
                with_pc(old(self)@, pc)
            } else {
                old(self)@
            }),
    {
        let n: usize = self.frames.len();
        if n > 0 {
            self.frames[n - 1].pc = pc;
            proof {
                assert(old(self)@.frames[n - 1] == old(self).frames@[n - 1]@);
                assert(self@.frames =~= with_pc(old(self)@, pc).frames);
            }
        }
    }

    /// Write a register of the active frame.
    pub fn set_register(&mut self, reg: u8, value: Value) -> (r: Result<(), Fault>)
        ensures
            (final(self)@, r) == store(old(self)@, reg, value),
    {
        self.set_reg(reg, value)
    }

    /// Return from the active frame.
    pub fn return_value(&mut self, value: Value) -> (r: Result<Option<VmResult>, Fault>)
        ensures
            final(self)@ == pop(old(self)@, value).0,
            match pop(old(self)@, value).1 {
                None => r == Ok::<Option<VmResult>, Fault>(None),
                Some(Effect::Trap(f)) => r == Err::<Option<VmResult>, Fault>(f),
                Some(e) => r matches Ok(Some(x)) && x@ == e,
            },
    {
        match self.pop_frame(value) {
            Some(VmResult::Trap(f)) => Err(f),
            other => Ok(other),
        }
    }

    fn get_reg(&self, reg: u8) -> (r: Result<Value, Fault>)
        ensures
            r == read(self@, reg),
    {
        let n: usize = self.frames.len();
        if n == 0 {
            return Err(Fault::Invariant("empty frame stack while running"));
        }
        assert(self@.frames[n - 1] == self.frames@[n - 1]@);
        let frame = &self.frames[n - 1];
        if (reg as usize) < frame.registers.len() {
            Ok(frame.registers[reg as usize].clone())
        } else {
            Err(Fault::RegisterOutOfRange { reg, frame_size: frame.registers.len() as u8 })
        }
    }

    fn set_reg(&mut self, reg: u8, value: Value) -> (r: Result<(), Fault>)
        ensures
            (final(self)@, r) == store(old(self)@, reg, value),
    {
        match self.charge_register_store(reg, &value) {
            Ok(_) => {},
            Err(e) => return Err(e),
        }
        let ghost s1 = self@;
        let n: usize = self.frames.len();
        if n == 0 {
            return Err(Fault::Invariant("empty frame stack while running"));
        }
        assert(s1.frames[n - 1] == self.frames@[n - 1]@);
        let len: usize = self.frames[n - 1].registers.len();
        if (reg as usize) < len {
            self.frames[n - 1].registers.set(reg as usize, value);
            proof {
                let f = s1.frames.last();
                let want = with_top(
                    s1,
                    FrameState { registers: f.registers.update(reg as int, value), ..f },
                );
                assert(self@.frames =~= want.frames);
            }
            Ok(())
        } else {
            Err(Fault::RegisterOutOfRange { reg, frame_size: len as u8 })
        }
    }

    fn held_bytes(&self, reg: u8) -> (r: usize)
        ensures
            r == held_charge(self@, reg),
    {
        let n: usize = self.frames.len();
        if n == 0 {
            return 0;
        }
        assert(self@.frames[n - 1] == self.frames@[n - 1]@);
        let frame = &self.frames[n - 1];
        if (reg as usize) < frame.registers.len() {
            heap_charge_of(&frame.registers[reg as usize])
        } else {
            0
        }
    }

    fn charge_register_store(&mut self, reg: u8, value: &Value) -> (r: Result<(), Fault>)
        ensures
            (final(self)@, r) == charge_store(old(self)@, reg, *value),
    {
        let quota = match self.quota {
            Some(q) => q,
            None => return Ok(()),
        };
        let mut quota = quota;
        let new_bytes: usize = heap_charge_of(value);
        let old_bytes: usize = self.held_bytes(reg);
        if new_bytes > old_bytes {
            let mut memory = self.memory;
            let r = charge_pair(&mut quota, &mut memory, new_bytes - old_bytes);
            self.quota = Some(quota);
            self.memory = memory;
            return r;
        } else if old_bytes > new_bytes {
            let mut memory = self.memory;
            release_pair(&mut quota, &mut memory, old_bytes - new_bytes);
            self.quota = Some(quota);
            self.memory = memory;
        }
        Ok(())
    }

    fn write(&mut self, reg: u8, value: Value) -> (r: Option<VmResult>)
        ensures
            (final(self)@, result_view(r)) == stored(old(self)@, reg, value),
    {
        match self.set_reg(reg, value) {
            Ok(_) => None,
            Err(e) => fail(e),
        }
    }

    fn pop_frame(&mut self, value: Value) -> (r: Option<VmResult>)
        ensures
            (final(self)@, result_view(r)) == pop(old(self)@, value),
            pop(old(self)@, value).1 is None ==> r is None,
    {
        match self.frames.pop() {
            None => fail(Fault::Invariant("pop_frame on empty stack")),
            Some(finished) => {
                proof {
                    let n = old(self).frames@.len();
                    assert(old(self)@.frames[n - 1] == old(self).frames@[n - 1]@);
                    assert(self@.frames =~= old(self)@.frames.drop_last());
                }
                match finished.dest_reg {
                    Some(dest) => self.write(dest, value),
                    None => Some(VmResult::Complete(value)),
                }
            },
        }
    }

    fn cap_reg(&self, reg: u8) -> (r: Result<CapId, Fault>)
        ensures
            r == cap_at(self@, reg),
    {
        match self.get_reg(reg) {
            Err(e) => Err(e),
            Ok(v) => match v.as_cap() {
                Some(c) => Ok(c),
                None => Err(Fault::TypeMismatch { expected: "cap", got: v.kind_name() }),
            },
        }
    }

    fn message_reg(&self, reg: u8) -> (r: Result<Value, Fault>)
        ensures
            r == message_at(self@, reg),
    {
        match self.get_reg(reg) {
            Err(e) => Err(e),
            Ok(v) => if v.as_message().is_none() {
                Err(Fault::TypeMismatch { expected: "message", got: v.kind_name() })
            } else {
                Ok(v)
            },
        }
    }

    fn text_reg(&self, reg: u8) -> (r: Result<Arc<String>, Fault>)
        ensures
            r == text_at(self@, reg),
    {
        match self.get_reg(reg) {
            Err(e) => Err(e),
            Ok(v) => {
                let got = v.kind_name();
                match v {
                    Value::Str(s) => Ok(s),
                    _ => Err(Fault::TypeMismatch { expected: "str", got }),
                }
            },
        }
    }

    fn tag_reg(&self, reg: u8) -> (r: Result<u16, Fault>)
        ensures
            r == tag_at(self@, reg),
    {
        match self.get_reg(reg) {
            Err(e) => Err(e),
            Ok(v) => match v.as_int() {
                Some(i) => if 0 <= i && i <= u16::MAX as i64 {
                    Ok(i as u16)
                } else {
                    Err(Fault::TypeMismatch { expected: "tag u16", got: "int-out-of-range" })
                },
                None => Err(Fault::TypeMismatch { expected: "int", got: v.kind_name() }),
            },
        }
    }

    fn request_id_reg(&self, reg: u8) -> (r: Result<u64, Fault>)
        ensures
            r == request_id_at(self@, reg),
    {
        match self.get_reg(reg) {
            Err(e) => Err(e),
            Ok(v) => match v.as_int() {
                Some(i) => if i >= 0 {
                    Ok(i as u64)
                } else {
                    Err(Fault::TypeMismatch { expected: "request_id u64", got: "negative-int" })
                },
                None => Err(Fault::TypeMismatch { expected: "int", got: v.kind_name() }),
            },
        }
    }

    fn millis_reg(&self, reg: u8) -> (r: Result<u64, Fault>)
        ensures
            r == millis_at(self@, reg),
    {
        match self.get_reg(reg) {
            Err(e) => Err(e),
            Ok(v) => {
                if let Some(ms) = v.as_int() {
                    if ms >= 0 {
                        return Ok(ms as u64);
                    }
                }
                Err(Fault::TypeMismatch { expected: "non-negative int", got: v.kind_name() })
            },
        }
    }

    fn gather_regs(&self, base: u8, argc: u8, first_offset: u16) -> (r: Result<Vec<Value>, Fault>)
        requires
            first_offset <= 1,
        ensures
            match gather(self@, base, first_offset as nat, argc as nat) {
                Ok(args) => r matches Ok(v) && v@ == args,
                Err(e) => r == Err::<Vec<Value>, Fault>(e),
            },
    {
        let mut args: Vec<Value> = Vec::new();
        let mut k: u8 = 0;
        while k < argc
            invariant
                first_offset <= 1,
                k <= argc,
                gather(self@, base, first_offset as nat, k as nat) == Ok::<Seq<Value>, Fault>(
                    args@,
                ),
            decreases argc - k,
        {
            let reg = match register_at(base, first_offset + k as u16) {
                Ok(r) => r,
                Err(e) => {
                    proof {
                        lemma_gather_stops(
                            self@,
                            base,
                            first_offset as nat,
                            (k + 1) as nat,
                            argc as nat,
                        );
                    }
                    return Err(e);
                },
            };
            match self.get_reg(reg) {
                Ok(v) => args.push(v),
                Err(e) => {
                    proof {
                        lemma_gather_stops(
                            self@,
                            base,
                            first_offset as nat,
                            (k + 1) as nat,
                            argc as nat,
                        );
                    }
                    return Err(e);
                },
            }
            k += 1;
        }
        Ok(args)
    }

    fn relative_jump(&mut self, imm: i32) -> (r: Option<VmResult>)
        ensures
            (final(self)@, result_view(r)) == jump(old(self)@, imm),
    {
        let n: usize = self.frames.len();
        if n == 0 {
            return fail(Fault::Invariant("empty frame stack while running"));
        }
        assert(self@.frames[n - 1] == self.frames@[n - 1]@);
        let code_len: usize = self.chunk.code.len();
        let target: i128 = self.frames[n - 1].pc as i128 + imm as i128;
        if self.paranoid_jumps && target < 0 {
            return fail(Fault::BadJump { target: usize::MAX, code_len });
        }
        if self.paranoid_jumps && target > code_len as i128 {
            return fail(Fault::BadJump { target: target as usize, code_len });
        }
        self.set_pc(target as usize);
        None
    }

    fn do_binary(&mut self, i: &Instruction) -> (r: Option<VmResult>)
        requires
            family(i.op) is Binary,
        ensures
            (final(self)@, result_view(r)) == step_binary(old(self)@, *i),
    {
        let a = match self.get_reg(i.b) {
            Ok(v) => v,
            Err(e) => return fail(e),
        };
        let b = match self.get_reg(i.c) {
            Ok(v) => v,
            Err(e) => return fail(e),
        };
        if let Value::Int(x) = a {
            if let Value::Int(y) = b {
                let value = match i.op {
                    Opcode::Add => Value::Int(x.wrapping_add(y)),
                    Opcode::Sub => Value::Int(x.wrapping_sub(y)),
                    Opcode::Mul => Value::Int(x.wrapping_mul(y)),
                    Opcode::Div => {
                        if y == 0 {
                            return fail(Fault::DivideByZero);
                        }
                        Value::Int(divide(x, y))
                    },
                    Opcode::Mod => {
                        if y == 0 {
                            return fail(Fault::DivideByZero);
                        }
                        Value::Int(modulo(x, y))
                    },
                    Opcode::Eq => Value::Bool(x == y),
                    Opcode::Lt => Value::Bool(x < y),
                    _ => Value::Bool(x <= y),
                };
                return self.write(i.a, value);
            }
        }
        match i.op {
            Opcode::Eq => {
                let same: bool = a == b;
                return self.write(i.a, Value::Bool(same));
            },
            Opcode::Mod => {
                let got = if let Value::Int(_) = a {
                    b.kind_name()
                } else {
                    a.kind_name()
                };
                return fail(Fault::TypeMismatch { expected: "int", got });
            },
            _ => {},
        }
        let a_number: bool = Self::number(&a);
        let b_number: bool = Self::number(&b);
        if let Opcode::Div = i.op {
            if !b_number {
                return fail(Fault::TypeMismatch { expected: "int or float", got: b.kind_name() });
            }
        }
        if !a_number {
            return fail(Fault::TypeMismatch { expected: "int or float", got: a.kind_name() });
        }
        if !b_number {
            return fail(Fault::TypeMismatch { expected: "int or float", got: b.kind_name() });
        }
        Some(VmResult::FloatOp { op: i.op, dest_reg: i.a, lhs: a, rhs: b })
    }

    fn number(v: &Value) -> (r: bool)
        ensures
            r == crate::vm::state::is_number(*v),
    {
        match v {
            Value::Int(_) => true,
            Value::Float(_) => true,
            _ => false,
        }
    }

    fn do_local(&mut self, i: &Instruction) -> (r: Option<VmResult>)
        ensures
            (final(self)@, result_view(r)) == step_local(old(self)@, *i),
    {
        match i.op {
            Opcode::LoadConst => {
                let index: u32 = i.imm as u32;
                let konst = match self.chunk.constant(index) {
                    Some(v) => v.clone(),
                    None => return fail(
                        Fault::BadConstant {
                            index,
                            pool_size: self.chunk.constants.len() as u32,
                        },
                    ),
                };
                self.write(i.a, konst)
            },
            Opcode::LoadImm => self.write(i.a, Value::Int(i.imm as i64)),
            Opcode::Move => match self.get_reg(i.b) {
                Ok(v) => self.write(i.a, v),
                Err(e) => fail(e),
            },
            Opcode::Neg => match self.get_reg(i.b) {
                Err(e) => fail(e),
                Ok(v) => match v {
                    Value::Int(x) => {
                        let y: i64 = if x == i64::MIN {
                            x
                        } else {
                            -x
                        };
                        self.write(i.a, Value::Int(y))
                    },
                    Value::Float(x) => {
                        let y: u64 = if x < 0x8000_0000_0000_0000 {
                            x + 0x8000_0000_0000_0000
                        } else {
                            x - 0x8000_0000_0000_0000
                        };
                        self.write(i.a, Value::Float(y))
                    },
                    other => fail(
                        Fault::TypeMismatch { expected: "int or float", got: other.kind_name() },
                    ),
                },
            },
            Opcode::Jump => self.relative_jump(i.imm),
            Opcode::Branch => match self.get_reg(i.a) {
                Err(e) => fail(e),
                Ok(v) => if v.is_truthy() {
                    None
                } else {
                    self.relative_jump(i.imm)
                },
            },
            Opcode::FreshRequestId => {
                let id: u64 = self.fresh_request_id();
                self.write(i.a, Value::Int(id as i64))
            },
            _ => None,
        }
    }

    fn do_call(&mut self, i: &Instruction) -> (r: Option<VmResult>)
        ensures
            (final(self)@, result_view(r)) == crate::vm::state::step_call(old(self)@, *i),
    {
        let function: u32 = i.imm as u32;
        if self.frames.len() >= MAX_CALL_DEPTH {
            return fail(Fault::CallStackOverflow { depth: self.frames.len() });
        }
        if self.chunk.function(function).is_none() {
            return fail(
                Fault::BadFunction {
                    index: function,
                    table_size: self.chunk.functions.len() as u32,
                },
            );
        }
        let args = match self.gather_regs(i.a, i.b, 0) {
            Ok(v) => v,
            Err(e) => return fail(e),
        };
        match make_frame(&self.chunk, function, args.as_slice(), Some(i.a)) {
            Ok(f) => {
                let ghost fs = f@;
                self.frames.push(f);
                assert(self@.frames =~= old(self)@.frames.push(fs));
                None
            },
            Err(e) => fail(e),
        }
    }

    fn do_native(&mut self, i: &Instruction) -> (r: Option<VmResult>)
        ensures
            (final(self)@, result_view(r)) == crate::vm::state::step_native(old(self)@, *i),
    {
        let index: u32 = i.imm as u32;
        match check_native_gate(&self.native_gate, &self.natives, index) {
            Ok(_) => {},
            Err(NativeCallError::IndexOutOfRange(index)) => return fail(
                Fault::BadNative { index, table_size: self.natives.len() as u32 },
            ),
            Err(other) => return fail(Fault::NativeDenied(other)),
        }
        let args = match self.gather_regs(i.a, i.b, 0) {
            Ok(v) => v,
            Err(e) => return fail(e),
        };
        let f = match self.natives.get(index) {
            Some(f) => f,
            None => return fail(
                Fault::BadNative { index, table_size: self.natives.len() as u32 },
            ),
        };
        match f.call(args.as_slice()) {
            Some(Ok(v)) => self.write(i.a, v),
            Some(Err(e)) => fail(e),
            None => {
                let native: u32 = match f {
                    NativeFn::Host(id) => id,
                    _ => 0,
                };
                Some(VmResult::CallHost { dest_reg: i.a, native, args })
            },
        }
    }

    fn do_exit(&self, reg: u8) -> (r: Option<VmResult>)
        ensures
            (self@, result_view(r)) == crate::vm::state::step_exit(self@, reg),
    {
        match self.get_reg(reg) {
            Ok(v) => Some(VmResult::Complete(v)),
            Err(e) => fail(e),
        }
    }

    fn do_control(&mut self, i: &Instruction) -> (r: Option<VmResult>)
        ensures
            (final(self)@, result_view(r)) == step_control(old(self)@, *i),
    {
        match i.op {
            Opcode::Halt => self.do_exit(0),
            Opcode::Exit => self.do_exit(i.a),
            Opcode::Call => self.do_call(i),
            Opcode::CallNative => self.do_native(i),
            Opcode::Return => match self.get_reg(i.a) {
                Ok(v) => self.pop_frame(v),
                Err(e) => fail(e),
            },
            _ => match self.gather_regs(i.a, i.b, 1) {
                Ok(args) => Some(
                    VmResult::Spawn {
                        function: i.imm as u32,
                        args,
                        dest_reg: i.a,
                        requested_rights: CapRights::from_u8(i.c),
                    },
                ),
                Err(e) => fail(e),
            },
        }
    }

    fn wait(
        dest_reg: u8,
        timeout: Option<u64>,
        match_tag: Option<u16>,
        match_request_id: Option<u64>,
        match_payload_kind: Option<u8>,
    ) -> (r: Result<VmResult, Fault>)
        ensures
            r matches Ok(x) && x@ == crate::vm::state::receive(
                dest_reg,
                timeout,
                match_tag,
                match_request_id,
                match_payload_kind,
            ),
    {
        Ok(
            VmResult::Receive {
                dest_reg,
                timeout,
                match_tag,
                match_request_id,
                match_payload_kind,
            },
        )
    }

    fn imm_tag(imm: i32) -> (r: Result<u16, Fault>)
        ensures
            r == tag_imm(imm),
    {
        if 0 <= imm && imm <= u16::MAX as i32 {
            Ok(imm as u16)
        } else {
            Err(Fault::TypeMismatch { expected: "tag u16", got: "imm-out-of-range" })
        }
    }

    fn do_receive(&self, i: &Instruction) -> (r: Result<VmResult, Fault>)
        ensures
            match receive_effect(self@, *i) {
                Ok(e) => r matches Ok(x) && x@ == e,
                Err(f) => r == Err::<VmResult, Fault>(f),
            },
    {
        match i.op {
            Opcode::Receive => Self::wait(i.a, None, None, None, None),
            Opcode::ReceiveTimeout => match self.millis_reg(i.b) {
                Ok(ms) => Self::wait(i.a, Some(ms), None, None, None),
                Err(e) => Err(e),
            },
            Opcode::ReceiveMatch => match self.tag_reg(i.b) {
                Ok(tag) => Self::wait(i.a, None, Some(tag), None, None),
                Err(e) => Err(e),
            },
            Opcode::ReceiveMatchImm => match Self::imm_tag(i.imm) {
                Ok(tag) => Self::wait(i.a, None, Some(tag), None, None),
                Err(e) => Err(e),
            },
            Opcode::ReceiveMatchCorr => match self.tag_reg(i.b) {
                Ok(tag) => match self.request_id_reg(i.c) {
                    Ok(rid) => Self::wait(i.a, None, Some(tag), Some(rid), None),
                    Err(e) => Err(e),
                },
                Err(e) => Err(e),
            },
            Opcode::ReceiveMatchCorrImm => match Self::imm_tag(i.imm) {
                Ok(tag) => match self.request_id_reg(i.b) {
                    Ok(rid) => Self::wait(i.a, None, Some(tag), Some(rid), None),
                    Err(e) => Err(e),
                },
                Err(e) => Err(e),
            },
            _ => if 0 <= i.imm && i.imm <= 8 {
                Self::wait(i.a, None, None, None, Some(i.imm as u8))
            } else {
                Err(Fault::TypeMismatch { expected: "payload kind", got: "imm-out-of-range" })
            },
        }
    }

    fn do_address(&self, i: &Instruction) -> (r: Result<VmResult, Fault>)
        ensures
            match address_effect(self@, *i) {
                Ok(e) => r matches Ok(x) && x@ == e,
                Err(f) => r == Err::<VmResult, Fault>(f),
            },
    {
        match i.op {
            Opcode::Send => {
                let target_cap = match self.cap_reg(i.a) {
                    Ok(c) => c,
                    Err(e) => return Err(e),
                };
                match self.message_reg(i.b) {
                    Ok(message) => Ok(VmResult::Send { target_cap, message }),
                    Err(e) => Err(e),
                }
            },
            Opcode::Ask => {
                let target_cap = match self.cap_reg(i.b) {
                    Ok(c) => c,
                    Err(e) => return Err(e),
                };
                match self.message_reg(i.c) {
                    Ok(request) => Ok(
                        VmResult::Ask { dest_reg: i.a, target_cap, request, timeout: None },
                    ),
                    Err(e) => Err(e),
                }
            },
            Opcode::AskTimeout => {
                if !(0 <= i.imm && i.imm <= 255) {
                    return Err(
                        Fault::TypeMismatch {
                            expected: "millis register",
                            got: "imm-out-of-range",
                        },
                    );
                }
                let ms: u64 = match self.millis_reg(i.imm as u8) {
                    Ok(ms) => ms,
                    Err(e) => return Err(e),
                };
                let target_cap = match self.cap_reg(i.b) {
                    Ok(c) => c,
                    Err(e) => return Err(e),
                };
                match self.message_reg(i.c) {
                    Ok(request) => Ok(
                        VmResult::Ask { dest_reg: i.a, target_cap, request, timeout: Some(ms) },
                    ),
                    Err(e) => Err(e),
                }
            },
            Opcode::Monitor => match self.cap_reg(i.b) {
                Ok(target_cap) => Ok(VmResult::Monitor { dest_reg: i.a, target_cap }),
                Err(e) => Err(e),
            },
            Opcode::Link => match self.cap_reg(i.b) {
                Ok(target_cap) => Ok(VmResult::Link { dest_reg: i.a, target_cap }),
                Err(e) => Err(e),
            },
            _ => {
                let src_cap = match self.cap_reg(i.b) {
                    Ok(c) => c,
                    Err(e) => return Err(e),
                };
                let want_native_cap = if i.c == 255 {
                    None
                } else {
                    match self.cap_reg(i.c) {
                        Ok(c) => Some(c),
                        Err(e) => return Err(e),
                    }
                };
                Ok(
                    VmResult::Delegate {
                        dest_reg: i.a,
                        src_cap,
                        want_rights: CapRights::from_bits(i.imm as u32),
                        want_native_cap,
                    },
                )
            },
        }
    }

    fn do_request(&self, i: &Instruction) -> (r: Result<VmResult, Fault>)
        ensures
            match request_effect(self@, *i) {
                Ok(e) => r matches Ok(x) && x@ == e,
                Err(f) => r == Err::<VmResult, Fault>(f),
            },
    {
        match i.op {
            Opcode::Yield => Ok(VmResult::Yield),
            Opcode::Sleep => match self.millis_reg(i.a) {
                Ok(ms) => Ok(VmResult::Sleep(ms)),
                Err(e) => Err(e),
            },
            Opcode::SelfPid => Ok(VmResult::SelfPid { dest_reg: i.a }),
            Opcode::Demonitor => Ok(VmResult::Demonitor { monitor_reg: i.a }),
            Opcode::Unlink => Ok(VmResult::Unlink { link_reg: i.a }),
            Opcode::SetTrapExit => match self.get_reg(i.a) {
                Ok(v) => Ok(VmResult::SetTrapExit { enabled: v.is_truthy() }),
                Err(e) => Err(e),
            },
            Opcode::SetRestartPolicy => if 0 <= i.imm && i.imm <= 2 {
                Ok(VmResult::SetRestartPolicy { policy: i.imm as u8 })
            } else {
                Err(Fault::TypeMismatch { expected: "restart policy", got: "imm-out-of-range" })
            },
            Opcode::HostAwait => match self.get_reg(i.b) {
                Ok(args) => Ok(VmResult::HostAwait { dest_reg: i.a, op: i.imm as u32, args }),
                Err(e) => Err(e),
            },
            Opcode::RegisterName => match self.text_reg(i.a) {
                Ok(name) => Ok(VmResult::RegisterName { name }),
                Err(e) => Err(e),
            },
            Opcode::Whereis => match self.text_reg(i.b) {
                Ok(name) => Ok(VmResult::Whereis { dest_reg: i.a, name }),
                Err(e) => Err(e),
            },
            _ => Err(Fault::Explicit(i.imm)),
        }
    }

    fn do_instruction(&mut self, i: &Instruction) -> (r: Option<VmResult>)
        ensures
            (final(self)@, result_view(r)) == perform(old(self)@, *i),
    {
        let outcome = match i.op {
            Opcode::Nop | Opcode::LoadConst | Opcode::LoadImm | Opcode::Move | Opcode::Neg
            | Opcode::Jump | Opcode::Branch | Opcode::FreshRequestId => {
                return self.do_local(i);
            },
            Opcode::Add | Opcode::Sub | Opcode::Mul | Opcode::Div | Opcode::Mod | Opcode::Eq
            | Opcode::Lt | Opcode::Le => {
                return self.do_binary(i);
            },
            Opcode::Halt | Opcode::Exit | Opcode::Call | Opcode::CallNative | Opcode::Return
            | Opcode::Spawn => {
                return self.do_control(i);
            },
            Opcode::Receive | Opcode::ReceiveTimeout | Opcode::ReceiveMatch
            | Opcode::ReceiveMatchImm | Opcode::ReceiveMatchCorr | Opcode::ReceiveMatchCorrImm
            | Opcode::ReceiveMatchKind => self.do_receive(i),
            Opcode::Send | Opcode::Ask | Opcode::AskTimeout | Opcode::Monitor | Opcode::Link
            | Opcode::Delegate => self.do_address(i),
            _ => self.do_request(i),
        };
        match outcome {
            Ok(x) => Some(x),
            Err(e) => fail(e),
        }
    }

    fn do_step(&mut self) -> (r: Option<VmResult>)
        ensures
            (final(self)@, result_view(r)) == step(old(self)@),
    {
        self.instructions_executed = self.instructions_executed.wrapping_add(1);
        let n: usize = self.frames.len();
        if n == 0 {
            return fail(Fault::Invariant("empty frame stack while running"));
        }
        assert(self@.frames[n - 1] == self.frames@[n - 1]@);
        let pc: usize = self.frames[n - 1].pc;
        if pc < self.chunk.code.len() {
            let instr: Instruction = self.chunk.code[pc];
            self.set_pc(pc + 1);
            self.do_instruction(&instr)
        } else {
            self.pop_frame(Value::Unit)
        }
    }

    /// Run at most `budget` instructions, until the flow completes, needs an
    /// effect, or faults.
    pub fn run(&mut self, budget: u32) -> (r: VmResult)
        ensures
            (final(self)@, r@) == slice(old(self)@, budget as nat),
    {
        let mut k: u32 = 0;
        while k < budget
            invariant
                k <= budget,
                slice(old(self)@, budget as nat) == slice(self@, (budget - k) as nat),
            decreases budget - k,
        {
            match self.do_step() {
                Some(r) => return r,
                None => {},
            }
            k += 1;
        }
        VmResult::Yield
    }
}

proof fn lemma_gather_stops(s: VmState, base: u8, first: nat, k: nat, n: nat)
    requires
        k <= n,
        gather(s, base, first, k) is Err,
    ensures
        gather(s, base, first, n) == gather(s, base, first, k),
    decreases n,
{
    if k < n {
        lemma_gather_stops(s, base, first, k, (n - 1) as nat);
    }
}

proof fn lemma_registers_stop(
    q: FlowQuota,
    m: Option<MemoryBudget>,
    regs: Seq<Value>,
    k: nat,
    n: nat,
)
    requires
        k <= n,
        charge_registers(q, m, regs, k).2 is Err,
    ensures
        charge_registers(q, m, regs, n) == charge_registers(q, m, regs, k),
    decreases n,
{
    if k < n {
        lemma_registers_stop(q, m, regs, k, (n - 1) as nat);
    }
}

proof fn lemma_frames_stop(
    q: FlowQuota,
    m: Option<MemoryBudget>,
    frames: Seq<FrameState>,
    k: nat,
    n: nat,
)
    requires
        k <= n,
        charge_frames(q, m, frames, k).2 is Err,
    ensures
        charge_frames(q, m, frames, n) == charge_frames(q, m, frames, k),
    decreases n,
{
    if k < n {
        lemma_frames_stop(q, m, frames, k, (n - 1) as nat);
    }
}

} // verus!
