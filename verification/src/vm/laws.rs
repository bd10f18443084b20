//! What holds of every run.

use vstd::prelude::*;

use crate::bytecode::chunk::Chunk;
use crate::bytecode::instruction::Instruction;
use crate::bytecode::opcode::Opcode;
use crate::bytecode::value::Value;
use crate::bytecode::verify::{jump_target_of, well_formed, TrustLevel};
use crate::vm::fault::Fault;
use crate::vm::machine::fresh_vm;
use crate::vm::native::{NativeFn, NativeGate};
use crate::vm::result::Effect;
use crate::vm::state::{
    binary, charge_store, entry_frame, family, gather, jump, perform, pop, read, slice, step,
    step_binary, step_control, step_local, store, stored, with_pc, Family, VmState,
    MAX_CALL_DEPTH,
};

verus! {

/// Faults that only a broken module or a broken machine can have.
pub open spec fn structural(f: Fault) -> bool {
    f is BadConstant || f is BadFunction || f is BadJump || f is Invariant
}

/// A frame of a verified module: it is inside the code, or just behind it.
pub open spec fn frame_sound(s: VmState, k: int) -> bool {
    &&& s.frames[k].pc <= s.chunk.code@.len()
    &&& s.frames[k].dest_reg is None <==> k == 0
}

/// The flow's charges are within its limit.
pub open spec fn within_quota(s: VmState) -> bool {
    s.quota matches Some(q) ==> q.mem_used <= q.mem_limit
}

/// The runtime's charges are within its limit.
pub open spec fn within_budget(s: VmState) -> bool {
    s.memory matches Some(b) ==> b.used <= b.limit
}

/// A machine that runs a verified module.
pub open spec fn sound(s: VmState) -> bool {
    &&& well_formed(s.chunk, TrustLevel::Trusted)
    &&& 1 <= s.frames.len() <= MAX_CALL_DEPTH
    &&& forall|k: int| 0 <= k < s.frames.len() ==> #[trigger] frame_sound(s, k)
    &&& s.next_request_id >= 1
    &&& within_quota(s)
    &&& within_budget(s)
}

/// Two states of one machine that differ only in register contents and
/// accounting.
pub open spec fn same_shape(a: VmState, b: VmState) -> bool {
    &&& a.chunk == b.chunk
    &&& a.natives == b.natives
    &&& a.gate == b.gate
    &&& a.paranoid == b.paranoid
    &&& a.next_request_id == b.next_request_id
    &&& a.executed == b.executed
    &&& a.frames.len() == b.frames.len()
    &&& forall|k: int|
        0 <= k < a.frames.len() ==> (#[trigger] a.frames[k]).pc == b.frames[k].pc
            && a.frames[k].dest_reg == b.frames[k].dest_reg && a.frames[k].function
            == b.frames[k].function && a.frames[k].registers.len() == b.frames[k].registers.len()
    &&& within_quota(a) ==> within_quota(b)
    &&& within_budget(a) ==> within_budget(b)
}

proof fn lemma_store(s: VmState, reg: u8, v: Value)
    ensures
        same_shape(s, store(s, reg, v).0),
        s.frames.len() > 0 ==> (store(s, reg, v).1 matches Err(f) ==> !structural(f)),
{
    let (s1, r) = charge_store(s, reg, v);
    assert(same_shape(s, s1));
    if r is Ok && s1.frames.len() > 0 && reg < s1.frames.last().registers.len() {
        let s2 = store(s, reg, v).0;
        assert forall|k: int| 0 <= k < s.frames.len() implies (#[trigger] s.frames[k]).pc
            == s2.frames[k].pc && s.frames[k].dest_reg == s2.frames[k].dest_reg
            && s.frames[k].function == s2.frames[k].function && s.frames[k].registers.len()
            == s2.frames[k].registers.len() by {
            if k == s.frames.len() - 1 {
                assert(s1.frames.last() == s.frames[k]);
            }
        }
    }
}

/// What one instruction keeps: the module, its tables and the switches stay,
/// and a verified module runs on or ends without a structural fault.
pub open spec fn step_kept(s: VmState, s1: VmState, e: Option<Effect>) -> bool {
    &&& s1.chunk == s.chunk
    &&& s1.natives == s.natives
    &&& s1.gate == s.gate
    &&& s1.paranoid == s.paranoid
    &&& s1.next_request_id >= s.next_request_id
    &&& e matches Some(Effect::Trap(f)) ==> !structural(f)
    &&& !(e is Some && (e->Some_0 is Complete || e->Some_0 is Trap)) ==> sound(s1)
}

proof fn lemma_shape_sound(s: VmState, s1: VmState)
    requires
        sound(s),
        same_shape(s, s1),
    ensures
        sound(s1),
{
    assert forall|k: int| 0 <= k < s1.frames.len() implies #[trigger] frame_sound(s1, k) by {
        assert(frame_sound(s, k));
        assert(s.frames[k].pc == s1.frames[k].pc);
    }
}

proof fn lemma_stored(s: VmState, reg: u8, v: Value)
    requires
        sound(s),
    ensures
        step_kept(s, stored(s, reg, v).0, stored(s, reg, v).1),
{
    lemma_store(s, reg, v);
    let (s1, r) = store(s, reg, v);
    lemma_shape_sound(s, s1);
}

proof fn lemma_pop(s: VmState, v: Value)
    requires
        sound(s),
    ensures
        step_kept(s, pop(s, v).0, pop(s, v).1),
{
    assert(frame_sound(s, s.frames.len() - 1));
    let s1 = VmState { frames: s.frames.drop_last(), ..s };
    if s.frames.last().dest_reg is Some {
        assert forall|k: int| 0 <= k < s1.frames.len() implies #[trigger] frame_sound(s1, k) by {
            assert(frame_sound(s, k));
        }
        lemma_stored(s1, s.frames.last().dest_reg->Some_0, v);
    }
}

proof fn lemma_with_pc(s: VmState, pc: usize)
    requires
        sound(s),
        pc <= s.chunk.code@.len(),
    ensures
        sound(with_pc(s, pc)),
{
    let s1 = with_pc(s, pc);
    assert forall|k: int| 0 <= k < s1.frames.len() implies #[trigger] frame_sound(s1, k) by {
        assert(frame_sound(s, k));
    }
}

proof fn lemma_gather_fault(s: VmState, base: u8, first: nat, n: nat)
    requires
        s.frames.len() > 0,
    ensures
        gather(s, base, first, n) matches Err(f) ==> !structural(f),
        gather(s, base, first, n) matches Ok(v) ==> v.len() == n,
    decreases n,
{
    if n > 0 {
        lemma_gather_fault(s, base, first, (n - 1) as nat);
    }
}

/// The state between fetch and execution of the instruction at `at`.
spec fn fetched(s: VmState, at: int, i: Instruction) -> bool {
    &&& sound(s)
    &&& 0 <= at < s.chunk.code@.len()
    &&& i == s.chunk.code@[at]
    &&& s.frames.last().pc == at + 1
}

proof fn lemma_jump(s: VmState, at: int, i: Instruction)
    requires
        fetched(s, at, i),
        i.op is Jump || i.op is Branch,
    ensures
        step_kept(s, jump(s, i.imm).0, jump(s, i.imm).1),
{
    assert(0 <= jump_target_of(at, i.imm) <= s.chunk.code@.len());
    let target = s.frames.last().pc + i.imm;
    assert(target == jump_target_of(at, i.imm));
    assert(s.chunk.code@.len() <= usize::MAX) by {
        assert(s.chunk.code@.len() == s.chunk.code.len());
    }
    lemma_with_pc(s, target as usize);
}

proof fn lemma_local(s: VmState, at: int, i: Instruction)
    requires
        fetched(s, at, i),
        family(i.op) is Local,
    ensures
        step_kept(s, step_local(s, i).0, step_local(s, i).1),
{
    match i.op {
        Opcode::LoadConst => {
            let index = i.imm as u32;
            lemma_stored(s, i.a, s.chunk.constants@[index as int]);
        },
        Opcode::LoadImm => lemma_stored(s, i.a, Value::Int(i.imm as i64)),
        Opcode::Move => {
            if let Ok(v) = read(s, i.b) {
                lemma_stored(s, i.a, v);
            }
        },
        Opcode::Neg => {
            if let Ok(v) = read(s, i.b) {
                match v {
                    Value::Int(x) => lemma_stored(
                        s,
                        i.a,
                        Value::Int(crate::vm::state::negated(x)),
                    ),
                    Value::Float(x) => lemma_stored(
                        s,
                        i.a,
                        Value::Float(crate::bytecode::value::float_neg(x)),
                    ),
                    _ => {},
                }
            }
        },
        Opcode::Jump => lemma_jump(s, at, i),
        Opcode::Branch => lemma_jump(s, at, i),
        Opcode::FreshRequestId => {
            let s1 = VmState { next_request_id: crate::vm::state::next_id(s.next_request_id), ..s };
            assert forall|k: int| 0 <= k < s1.frames.len() implies #[trigger] frame_sound(
                s1,
                k,
            ) by {
                assert(frame_sound(s, k));
            }
            lemma_stored(s1, i.a, Value::Int(s.next_request_id as i64));
        },
        _ => {},
    }
}

proof fn lemma_binary(s: VmState, i: Instruction)
    requires
        sound(s),
    ensures
        step_kept(s, step_binary(s, i).0, step_binary(s, i).1),
{
    if let Ok(a) = read(s, i.b) {
        if let Ok(b) = read(s, i.c) {
            match binary(i.op, a, b) {
                crate::vm::state::BinResult::Value(v) => lemma_stored(s, i.a, v),
                _ => {},
            }
        }
    }
}

proof fn lemma_control(s: VmState, at: int, i: Instruction)
    requires
        fetched(s, at, i),
        family(i.op) is Control,
    ensures
        step_kept(s, step_control(s, i).0, step_control(s, i).1),
{
    lemma_gather_fault(s, i.a, 0, i.b as nat);
    lemma_gather_fault(s, i.a, 1, i.b as nat);
    match i.op {
        Opcode::Call => {
            let function = i.imm as u32;
            let def = s.chunk.functions@[function as int];
            assert(def.entry < s.chunk.code@.len() && def.arity <= def.num_registers);
            if s.frames.len() < MAX_CALL_DEPTH {
                if let Ok(args) = gather(s, i.a, 0, i.b as nat) {
                    let f = entry_frame(s.chunk, function, args, Some(i.a));
                    assert(f is Ok);
                    let s1 = VmState { frames: s.frames.push(f->Ok_0), ..s };
                    assert forall|k: int| 0 <= k < s1.frames.len() implies #[trigger] frame_sound(
                        s1,
                        k,
                    ) by {
                        if k < s.frames.len() {
                            assert(frame_sound(s, k));
                        }
                    }
                }
            }
        },
        Opcode::CallNative => {
            if let Ok(args) = gather(s, i.a, 0, i.b as nat) {
                let index = i.imm as u32;
                if let Some(f) = crate::vm::native::native_at(s.natives, index) {
                    if let Some(Ok(v)) = crate::vm::native::native_result(f, args) {
                        lemma_stored(s, i.a, v);
                    }
                }
            }
        },
        Opcode::Return => {
            if let Ok(v) = read(s, i.a) {
                lemma_pop(s, v);
            }
        },
        _ => {},
    }
}

proof fn lemma_perform(s: VmState, at: int, i: Instruction)
    requires
        fetched(s, at, i),
    ensures
        step_kept(s, perform(s, i).0, perform(s, i).1),
{
    match family(i.op) {
        Family::Local => lemma_local(s, at, i),
        Family::Binary => lemma_binary(s, i),
        Family::Control => lemma_control(s, at, i),
        _ => {},
    }
}

proof fn lemma_step(s: VmState)
    requires
        sound(s),
    ensures
        step_kept(s, step(s).0, step(s).1),
{
    let s1 = VmState { executed: s.executed.wrapping_add(1), ..s };
    assert forall|k: int| 0 <= k < s1.frames.len() implies #[trigger] frame_sound(s1, k) by {
        assert(frame_sound(s, k));
    }
    let pc = s.frames.last().pc;
    if pc < s.chunk.code@.len() {
        assert(s.chunk.code@.len() <= usize::MAX) by {
            assert(s.chunk.code@.len() == s.chunk.code.len());
        }
        lemma_with_pc(s1, (pc + 1) as usize);
        lemma_perform(with_pc(s1, (pc + 1) as usize), pc as int, s.chunk.code@[pc as int]);
    } else {
        lemma_pop(s1, Value::Unit);
    }
}

/// A verified module never runs into a missing constant or function, a jump
/// out of the code, or a broken machine, whether or not jumps are checked;
/// correlation ids are never zero, the call depth and both memory budgets
/// stay within their limits, and the module and its tables stay the same.
pub proof fn verified_code_runs_soundly(s: VmState, budget: nat)
    requires
        sound(s),
    ensures
        step_kept(s, slice(s, budget).0, Some(slice(s, budget).1)),
    decreases budget,
{
    if budget > 0 {
        lemma_step(s);
        let (s1, e) = step(s);
        if e is None {
            verified_code_runs_soundly(s1, (budget - 1) as nat);
        }
    }
}

/// Every function of a verified module can be entered, and the machine that
/// enters it is sound.
pub proof fn verified_functions_can_be_entered(
    chunk: Chunk,
    natives: Seq<Option<(Seq<char>, NativeFn)>>,
    gate: NativeGate,
    function: u32,
    args: Seq<Value>,
)
    requires
        well_formed(chunk, TrustLevel::Trusted),
        function < chunk.functions@.len(),
    ensures
        entry_frame(chunk, function, args, None) matches Ok(f) && sound(
            fresh_vm(chunk, natives, gate, f),
        ),
{
    let def = chunk.functions@[function as int];
    assert(def.entry < chunk.code@.len() && def.arity <= def.num_registers);
}

/// A slice takes no more steps than its budget.
pub proof fn slice_respects_budget(s: VmState, budget: nat)
    ensures
        exists|n: nat|
            n <= budget && #[trigger] advanced(s.executed, n) == slice(s, budget).0.executed,
    decreases budget,
{
    if budget == 0 {
        assert(advanced(s.executed, 0) == s.executed);
    } else {
        lemma_step_counts(s);
        let (s1, e) = step(s);
        if e is Some {
            assert(advanced(s.executed, 1) == s1.executed) by {
                reveal_with_fuel(advanced, 2);
            }
        } else {
            slice_respects_budget(s1, (budget - 1) as nat);
            let n = choose|n: nat|
                n <= budget - 1 && #[trigger] advanced(s1.executed, n) == slice(
                    s1,
                    (budget - 1) as nat,
                ).0.executed;
            lemma_advanced(s.executed, n);
            assert(advanced(s.executed, n + 1) == slice(s, budget).0.executed);
        }
    }
}

/// A machine runs one module for good.
pub proof fn slice_keeps_the_module(s: VmState, budget: nat)
    ensures
        slice(s, budget).0.chunk == s.chunk,
    decreases budget,
{
    if budget > 0 {
        lemma_step_counts(s);
        if step(s).1 is None {
            slice_keeps_the_module(step(s).0, (budget - 1) as nat);
        }
    }
}

/// A value that is stored or returned leaves the module alone.
pub proof fn delivery_keeps_the_module(s: VmState, reg: u8, v: Value)
    ensures
        store(s, reg, v).0.chunk == s.chunk,
        pop(s, v).0.chunk == s.chunk,
{
    lemma_store(s, reg, v);
    lemma_stored_counts(s, reg, v);
}

/// A counter after `n` steps, modulo the word size.
pub open spec fn advanced(count: u64, n: nat) -> u64
    decreases n,
{
    if n == 0 {
        count
    } else {
        advanced(count, (n - 1) as nat).wrapping_add(1)
    }
}

proof fn lemma_advanced(count: u64, n: nat)
    ensures
        advanced(count.wrapping_add(1), n) == advanced(count, n + 1),
    decreases n,
{
    reveal_with_fuel(advanced, 2);
    if n > 0 {
        lemma_advanced(count, (n - 1) as nat);
    }
}

proof fn lemma_stored_counts(s: VmState, reg: u8, v: Value)
    ensures
        stored(s, reg, v).0.executed == s.executed,
        stored(s, reg, v).0.chunk == s.chunk,
        pop(s, v).0.executed == s.executed,
        pop(s, v).0.chunk == s.chunk,
{
    lemma_store(s, reg, v);
    if s.frames.len() > 0 {
        let s1 = VmState { frames: s.frames.drop_last(), ..s };
        if let Some(d) = s.frames.last().dest_reg {
            lemma_store(s1, d, v);
        }
    }
}

proof fn lemma_step_counts(s: VmState)
    ensures
        step(s).0.executed == s.executed.wrapping_add(1),
        step(s).0.chunk == s.chunk,
{
    let s1 = VmState { executed: s.executed.wrapping_add(1), ..s };
    if s.frames.len() > 0 {
        let pc = s.frames.last().pc;
        if pc < s.chunk.code@.len() {
            let s2 = with_pc(s1, (pc + 1) as usize);
            let i = s.chunk.code@[pc as int];
            assert forall|reg: u8, v: Value| #![trigger stored(s2, reg, v)]
                stored(s2, reg, v).0.executed == s2.executed && stored(s2, reg, v).0.chunk
                    == s2.chunk by {
                lemma_stored_counts(s2, reg, v);
            }
            assert forall|v: Value| #![trigger pop(s2, v)] pop(s2, v).0.executed == s2.executed
                && pop(s2, v).0.chunk == s2.chunk by {
                lemma_stored_counts(s2, 0, v);
            }
            let s3 = VmState {
                next_request_id: crate::vm::state::next_id(s2.next_request_id),
                ..s2
            };
            lemma_stored_counts(s3, i.a, Value::Int(s2.next_request_id as i64));
        } else {
            lemma_stored_counts(s1, 0, Value::Unit);
        }
    }
}

} // verus!
