//! What compiled code and the interpreter have in common.

use vstd::prelude::*;

use crate::bytecode::chunk::{element, Chunk};
use crate::bytecode::instruction::Instruction;
use crate::bytecode::opcode::Opcode;
use crate::bytecode::value::{truthy, Value};
use crate::jit::compiler::{can_compile, first_open, is_open, starts_of, trace_ctx};
use crate::jit::dispatch::{
    cache_sound, cache_stays_sound, jit_run, jit_step, place_reached, shorter, slots_needed, synced,
    zeros, JitState,
};
use crate::jit::exit::{ExitReason, JIT_CONTINUE, JIT_DEOPT, JIT_TRAP};
use crate::jit::region::{ends_block, jump_pc, region_of, scalar_constant, BlockState};
use crate::jit::semantics::{
    bin_op, block_index, cached, compiled_operations_agree, flushed, instr_run, leaving, loaded,
    mem_get, reg_value, scalar, slot_of, steps, trace_run, written_back, Ctx, Leave, Mach, Out, Run,
};
use crate::jit::trace::TraceKey;
use crate::vm::fault::Fault;
use crate::vm::frame::FrameState;
use crate::vm::result::Effect;
use crate::vm::laws::{delivery_keeps_the_module, slice_keeps_the_module};
use crate::vm::state::{perform, read, slice, step, store, stored, with_pc, VmState};

verus! {

/// The compiled code is where the interpreter is: each of the `n` registers
/// of the active frame has its value in the cache or in its slot.
pub open spec fn mirrors(s: VmState, r: Run, n: nat) -> bool {
    &&& s.frames.last().registers.len() == n
    &&& shadows(s, r, n, true)
}

/// The compiled code is where the interpreter is: each of the first `n`
/// registers of the active frame has its value in the cache or in its slot.
/// In a function that compiled code called, `full` being false, a register
/// that was not set yet may be anything.
pub open spec fn shadows(s: VmState, r: Run, n: nat, full: bool) -> bool {
    &&& s.frames.len() > 0
    &&& n <= 255
    &&& forall|i: u8|
        i < n && i < s.frames.last().registers.len() && (full
            || !(s.frames.last().registers[i as int] is Unit)) ==> slot_of(
            s.frames.last().registers[i as int],
        ) == Some(#[trigger] reg_value(r, i))
}

/// The register holds an integer.
pub open spec fn holds_int(s: VmState, reg: u8) -> bool {
    read(s, reg) matches Ok(v) && v is Int
}

/// An instruction that only computes, on registers of the frame; what it
/// computes with are integers.
pub open spec fn computes(s: VmState, i: Instruction, n: nat) -> bool {
    &&& i.a < n
    &&& match i.op {
        Opcode::LoadImm => true,
        Opcode::LoadConst => scalar_constant(s.chunk, i.imm as u32) is Some,
        Opcode::Move => i.b < n,
        Opcode::Neg => i.b < n && holds_int(s, i.b),
        _ => bin_op(i.op) is Some && i.b < n && i.c < n && holds_int(s, i.b) && holds_int(s, i.c),
    }
}

proof fn lemma_written_back(mem: Seq<i64>, cache: Map<int, i64>, k: nat, i: int)
    ensures
        written_back(mem, cache, k).len() == mem.len(),
        !cache.contains_key(i) ==> mem_get(written_back(mem, cache, k), i) == mem_get(mem, i),
        0 <= i < k && i < mem.len() && cache.contains_key(i) ==> written_back(mem, cache, k)[i]
            == cache[i],
    decreases k,
{
    if k > 0 {
        lemma_written_back(mem, cache, (k - 1) as nat, i);
    }
}

/// Written back, every register has its value in its slot.
pub proof fn mirrors_when_flushed(s: VmState, r: Run, n: nat)
    requires
        mirrors(s, r, n),
    ensures
        mirrors(s, flushed(r, n), n),
        flushed(r, n).m.mem.len() == r.m.mem.len(),
        n <= r.m.mem.len() ==> forall|i: u8|
            i < n ==> slot_of(s.frames.last().registers[i as int]) == Some(
                #[trigger] flushed(r, n).m.mem[i as int],
            ),
{
    let q = flushed(r, n);
    lemma_written_back(r.m.mem, r.cache, n, 0);
    lemma_flush_shadows(s, r, n, true);
    if n <= r.m.mem.len() {
        assert forall|i: u8| i < n implies slot_of(s.frames.last().registers[i as int]) == Some(
            #[trigger] q.m.mem[i as int],
        ) by {
            lemma_written_back(r.m.mem, r.cache, n, i as int);
            assert(reg_value(q, i) == reg_value(r, i));
        }
    }
}

/// Written back, every register below `n` is in its slot and the values of
/// all registers are what they were.
#[verifier::rlimit(40)]
pub proof fn lemma_flush_shadows(s: VmState, r: Run, n: nat, full: bool)
    requires
        shadows(s, r, n, full),
    ensures
        shadows(s, flushed(r, n), n, full),
        n <= r.m.mem.len() ==> shadows(
            s,
            Run { m: flushed(r, n).m, cache: Map::empty() },
            n,
            full,
        ),
        flushed(r, n).m.mem.len() == r.m.mem.len(),
        n <= r.m.mem.len() ==> forall|i: u8|
            i < n ==> #[trigger] flushed(r, n).m.mem[i as int] == reg_value(r, i),
{
    let q = flushed(r, n);
    let e = Run { m: q.m, cache: Map::<int, i64>::empty() };
    lemma_written_back(r.m.mem, r.cache, n, 0);
    assert forall|i: u8| i < n && i < s.frames.last().registers.len() && (full
        || !(s.frames.last().registers[i as int] is Unit)) implies slot_of(
        s.frames.last().registers[i as int],
    ) == Some(#[trigger] reg_value(q, i)) by {
        lemma_written_back(r.m.mem, r.cache, n, i as int);
        assert(reg_value(q, i) == reg_value(r, i));
    }
    assert(n <= r.m.mem.len() ==> forall|i: u8|
        i < n ==> #[trigger] flushed(r, n).m.mem[i as int] == reg_value(r, i)) by {
        if n <= r.m.mem.len() {
            assert forall|i: u8| i < n implies #[trigger] flushed(r, n).m.mem[i as int]
                == reg_value(r, i) by {
                lemma_written_back(r.m.mem, r.cache, n, i as int);
            }
        }
    }
    assert(n <= r.m.mem.len() ==> shadows(s, e, n, full)) by {
        if n <= r.m.mem.len() {
            assert forall|i: u8| i < n && i < s.frames.last().registers.len() && (full
                || !(s.frames.last().registers[i as int] is Unit)) implies slot_of(
                s.frames.last().registers[i as int],
            ) == Some(#[trigger] reg_value(e, i)) by {
                assert(q.m.mem[i as int] == reg_value(r, i));
                assert(reg_value(e, i) == q.m.mem[i as int]);
            }
        }
    }
}

proof fn lemma_mirrors_load(s: VmState, r: Run, n: nat, reg: u8, full: bool)
    requires
        shadows(s, r, n, full),
    ensures
        shadows(s, loaded(r, n, reg), n, full),
        forall|i: u8| #[trigger] reg_value(loaded(r, n, reg), i) == reg_value(r, i),
{
    let q = loaded(r, n, reg);
    assert forall|i: u8| #[trigger] reg_value(q, i) == reg_value(r, i) by {}
}

pub(crate) proof fn lemma_mirrors_store(s: VmState, r: Run, n: nat, reg: u8, v: Value, x: i64, full: bool)
    requires
        shadows(s, r, n, full),
        reg < n,
        reg < s.frames.last().registers.len(),
        slot_of(v) is Some,
        full || !(v is Unit) ==> slot_of(v) == Some(x),
    ensures
        stored(s, reg, v).1 is None,
        shadows(stored(s, reg, v).0, cached(r, n, reg, x), n, full),
        stored(s, reg, v).0.frames == s.frames.update(
            s.frames.len() - 1,
            FrameState {
                registers: s.frames.last().registers.update(reg as int, v),
                ..s.frames.last()
            },
        ),
{
    let t = stored(s, reg, v).0;
    let q = cached(r, n, reg, x);
    let old_regs = s.frames.last().registers;
    if full || !(old_regs[reg as int] is Unit) {
        assert(slot_of(old_regs[reg as int]) == Some(reg_value(r, reg)));
    }
    assert(slot_of(old_regs[reg as int]) is Some);
    assert(t.frames.last().registers =~= old_regs.update(reg as int, v));
    assert forall|i: u8| i < n && i < t.frames.last().registers.len() && (full
        || !(t.frames.last().registers[i as int] is Unit)) implies slot_of(
        t.frames.last().registers[i as int],
    ) == Some(#[trigger] reg_value(q, i)) by {
        if i != reg {
            assert(reg_value(q, i) == reg_value(r, i));
        }
    }
    assert(t.frames =~= s.frames.update(
        s.frames.len() - 1,
        FrameState { registers: old_regs.update(reg as int, v), ..s.frames.last() },
    ));
}

/// An instruction that only computes does in compiled code what it does in
/// the interpreter: the registers agree afterwards, and a division by zero
/// traps in both.
pub proof fn compiled_instruction_agrees(c: Ctx, pc: u32, i: Instruction, s: VmState, r: Run)
    requires
        mirrors(s, r, c.n),
        s.chunk == c.chunk,
        computes(s, i, c.n),
    ensures
        match instr_run(c, pc, i, r) {
            Some(Out::Going(q)) => perform(s, i).1 is None && mirrors(perform(s, i).0, q, c.n)
                && q.m.budget == r.m.budget && q.m.mem.len() == r.m.mem.len(),
            Some(Out::Left(m, l)) => l == leaving(JIT_TRAP, c.trap_pc, 0) && perform(s, i).1
                == Some(Effect::Trap(Fault::DivideByZero)) && m.budget == r.m.budget,
            None => false,
        },
{
    computing_agrees(c, pc, i, s, r, true);
}

/// The frames below the active one, and what the active one returns to, are
/// the same.
pub open spec fn same_callers(s: VmState, t: VmState) -> bool {
    &&& t.chunk == s.chunk
    &&& t.paranoid == s.paranoid
    &&& t.frames.len() == s.frames.len()
    &&& t.frames.len() > 0
    &&& t.frames.drop_last() == s.frames.drop_last()
    &&& t.frames.last().dest_reg == s.frames.last().dest_reg
    &&& t.frames.last().registers.len() == s.frames.last().registers.len()
}

/// What [`compiled_instruction_agrees`] says holds in a called function too.
#[verifier::rlimit(40)]
pub proof fn computing_agrees(c: Ctx, pc: u32, i: Instruction, s: VmState, r: Run, full: bool)
    requires
        shadows(s, r, c.n, full),
        s.chunk == c.chunk,
        computes(s, i, c.n),
        i.a < s.frames.last().registers.len(),
        i.op is Move ==> i.b < s.frames.last().registers.len(),
    ensures
        match instr_run(c, pc, i, r) {
            Some(Out::Going(q)) => {
                &&& perform(s, i).1 is None
                &&& shadows(perform(s, i).0, q, c.n, full)
                &&& same_callers(s, perform(s, i).0)
                &&& perform(s, i).0.frames.last().pc == s.frames.last().pc
                &&& q.m.budget == r.m.budget
                &&& q.m.mem.len() == r.m.mem.len()
                &&& q.m.stack == r.m.stack
            },
            Some(Out::Left(m, l)) => l == leaving(JIT_TRAP, c.trap_pc, 0) && perform(s, i).1
                == Some(Effect::Trap(Fault::DivideByZero)) && m.budget == r.m.budget,
            None => false,
        },
{
    let n = c.n;
    let regs = s.frames.last().registers;
    match i.op {
        Opcode::LoadImm => {
            lemma_mirrors_store(s, r, n, i.a, Value::Int(i.imm as i64), i.imm as i64, full);
            lemma_store_keeps_callers(s, i.a, Value::Int(i.imm as i64));
        },
        Opcode::LoadConst => {
            let v = element(c.chunk.constants@, i.imm as u32 as nat)->Some_0;
            let x = scalar_constant(c.chunk, i.imm as u32)->Some_0;
            lemma_mirrors_store(s, r, n, i.a, v, x, full);
            lemma_store_keeps_callers(s, i.a, v);
        },
        Opcode::Move => {
            let x = reg_value(r, i.b);
            lemma_mirrors_load(s, r, n, i.b, full);
            if full || !(regs[i.b as int] is Unit) {
                assert(slot_of(regs[i.b as int]) == Some(reg_value(r, i.b)));
            }
            lemma_mirrors_store(s, loaded(r, n, i.b), n, i.a, regs[i.b as int], x, full);
            lemma_store_keeps_callers(s, i.a, regs[i.b as int]);
        },
        Opcode::Neg => {
            let x = reg_value(r, i.b);
            lemma_mirrors_load(s, r, n, i.b, full);
            assert(slot_of(regs[i.b as int]) == Some(reg_value(r, i.b)));
            compiled_operations_agree(Opcode::Sub, x, 0);
            let v = Value::Int(crate::vm::state::negated(x));
            lemma_mirrors_store(
                s,
                loaded(r, n, i.b),
                n,
                i.a,
                v,
                crate::vm::state::negated(x),
                full,
            );
            lemma_store_keeps_callers(s, i.a, v);
        },
        _ => {
            let op = bin_op(i.op)->Some_0;
            let a = reg_value(r, i.b);
            let b = reg_value(r, i.c);
            lemma_mirrors_load(s, r, n, i.b, full);
            let r1 = loaded(r, n, i.b);
            lemma_mirrors_load(s, r1, n, i.c, full);
            let r2 = loaded(r1, n, i.c);
            assert(reg_value(r1, i.c) == b);
            assert(slot_of(regs[i.b as int]) == Some(reg_value(r, i.b)));
            assert(slot_of(regs[i.c as int]) == Some(reg_value(r, i.c)));
            assert(read(s, i.b) == Ok::<Value, Fault>(Value::Int(a)));
            assert(read(s, i.c) == Ok::<Value, Fault>(Value::Int(b)));
            compiled_operations_agree(i.op, a, b);
            lemma_flush_shadows(s, r2, n, full);
            let zero = (i.op is Div || i.op is Mod) && b == 0;
            if !zero {
                let v = crate::vm::state::binary(i.op, Value::Int(a), Value::Int(b))->Value_0;
                if op is Div || op is Rem {
                    lemma_mirrors_store(s, flushed(r2, n), n, i.a, v, scalar(op, a, b), full);
                } else {
                    lemma_mirrors_store(s, r2, n, i.a, v, scalar(op, a, b), full);
                }
                lemma_store_keeps_callers(s, i.a, v);
            }
        },
    }
}

proof fn lemma_store_keeps_callers(s: VmState, reg: u8, v: Value)
    requires
        s.frames.len() > 0,
        reg < s.frames.last().registers.len(),
        stored(s, reg, v).1 is None,
        stored(s, reg, v).0.frames == s.frames.update(
            s.frames.len() - 1,
            FrameState {
                registers: s.frames.last().registers.update(reg as int, v),
                ..s.frames.last()
            },
        ),
    ensures
        same_callers(s, stored(s, reg, v).0),
        stored(s, reg, v).0.frames.last().pc == s.frames.last().pc,
{
    let t = stored(s, reg, v).0;
    assert(t.frames.drop_last() =~= s.frames.drop_last());
}

/// The interpreter after `k` steps.
pub open spec fn interpreted(s: VmState, k: nat) -> VmState
    decreases k,
{
    if k == 0 {
        s
    } else {
        step(interpreted(s, (k - 1) as nat)).0
    }
}

/// The interpreter is at an instruction that only computes and that does not
/// divide by zero.
pub open spec fn computes_at(c: Ctx, s: VmState, pc: u32) -> bool {
    &&& s.frames.len() > 0
    &&& s.frames.last().pc == pc
    &&& pc < s.chunk.code@.len()
    &&& s.chunk == c.chunk
    &&& computes(s, s.chunk.code@[pc as int], c.n)
    &&& step(s).1 is None
}

/// Straight code that only computes leaves the same registers behind,
/// compiled and interpreted, as long as the budget lasts.
pub proof fn straight_code_agrees(c: Ctx, pcs: Seq<u32>, k: nat, s: VmState, m: Mach)
    requires
        k <= pcs.len(),
        k <= m.budget,
        mirrors(s, Run { m, cache: Map::empty() }, c.n),
        forall|j: nat| j < k ==> #[trigger] computes_at(c, interpreted(s, j), pcs[j as int]),
    ensures
        steps(c, pcs, k, m) matches Out::Going(r) && mirrors(interpreted(s, k), r, c.n)
            && r.m.budget == m.budget - k,
    decreases k,
{
    if k > 0 {
        let j = (k - 1) as nat;
        straight_code_agrees(c, pcs, j, s, m);
        let r = steps(c, pcs, j, m)->Going_0;
        let t = interpreted(s, j);
        let pc = pcs[j as int];
        assert(computes_at(c, t, pc));
        let i = t.chunk.code@[pc as int];
        let s1 = with_pc(
            VmState { executed: t.executed.wrapping_add(1), ..t },
            (pc + 1) as usize,
        );
        let r1 = Run { m: Mach { budget: (r.m.budget - 1) as u32, ..r.m }, ..r };
        assert(s1.frames.last().registers == t.frames.last().registers);
        assert forall|x: u8| x < c.n && x < s1.frames.last().registers.len() && (true
            || !(s1.frames.last().registers[x as int] is Unit)) implies slot_of(
            s1.frames.last().registers[x as int],
        ) == Some(#[trigger] reg_value(r1, x)) by {
            assert(reg_value(r1, x) == reg_value(r, x));
        }
        assert(step(t) == perform(s1, i));
        compiled_instruction_agrees(c, pc, i, s1, r1);
    }
}

/// The block led to `pc`, within the trace or back in the interpreter.
pub open spec fn lands(c: Ctx, l: Leave, pc: u32) -> bool {
    match l {
        Leave::To(b) => 0 <= b < c.starts.len() && c.starts[b] == pc,
        Leave::Exit(x) => x.kind == JIT_CONTINUE && x.pc == pc,
    }
}

/// A block that is found starts there.
pub proof fn landing_is_found(c: Ctx, pc: u32, from: nat)
    ensures
        block_index(c.starts, pc, from) matches Some(b) ==> b < c.starts.len() && c.starts[b as int]
            == pc,
    decreases c.starts.len() - from,
{
    if from < c.starts.len() && c.starts[from as int] != pc {
        landing_is_found(c, pc, from + 1);
    }
}

/// A branch goes the same way, compiled and interpreted, within the trace or
/// out of it; every register is then in its slot.
pub proof fn compiled_branch_agrees(c: Ctx, pc: u32, i: Instruction, s: VmState, r: Run)
    requires
        mirrors(s, r, c.n),
        c.n <= r.m.mem.len(),
        i.op is Branch,
        i.a < c.n,
        pc < u32::MAX,
    ensures
        instr_run(c, pc, i, r) matches Some(Out::Left(m, l)) && {
            &&& lands(
                c,
                l,
                if truthy(s.frames.last().registers[i.a as int]) {
                    (pc + 1) as u32
                } else {
                    jump_pc(pc, i.imm)
                },
            )
            &&& forall|x: u8|
                x < c.n ==> slot_of(s.frames.last().registers[x as int]) == Some(
                    #[trigger] m.mem[x as int],
                )
        },
{
    assert(slot_of(s.frames.last().registers[i.a as int]) == Some(reg_value(r, i.a)));
    lemma_mirrors_load(s, r, c.n, i.a, true);
    mirrors_when_flushed(s, loaded(r, c.n, i.a), c.n);
    landing_is_found(c, (pc + 1) as u32, 0);
    landing_is_found(c, jump_pc(pc, i.imm), 0);
}

/// What the first `k` instructions of a block do to the budget and where
/// they can lead.
spec fn paid(c: Ctx, m: Mach, k: nat, o: Out) -> bool {
    match o {
        Out::Going(r) => r.m.budget == m.budget - k,
        Out::Left(m1, Leave::To(b)) => m1.budget < m.budget && 0 <= b < c.starts.len(),
        Out::Left(_, Leave::Exit(x)) => x.kind != JIT_DEOPT,
    }
}

proof fn lemma_paid(c: Ctx, pcs: Seq<u32>, k: nat, m: Mach)
    requires
        k <= pcs.len(),
    ensures
        paid(c, m, k, steps(c, pcs, k, m)),
    decreases k,
{
    if k > 0 {
        lemma_paid(c, pcs, (k - 1) as nat, m);
        let pc = pcs[k - 1];
        let i = c.chunk.code@[pc as int];
        landing_is_found(c, (pc + 1) as u32, 0);
        landing_is_found(c, jump_pc(pc, i.imm), 0);
        if let Some(def) = element(c.chunk.functions@, i.imm as u32 as nat) {
            landing_is_found(c, def.entry, 0);
        }
    }
}

proof fn lemma_ends(c: Ctx, pcs: Seq<u32>, k: nat, m: Mach)
    requires
        0 < k <= pcs.len(),
        ends_block(c.chunk.code@[pcs[k - 1] as int].op),
        c.chunk.code@[pcs[k - 1] as int].op is Call ==> element(
            c.chunk.functions@,
            c.chunk.code@[pcs[k - 1] as int].imm as u32 as nat,
        ) is Some,
    ensures
        steps(c, pcs, k, m) is Left,
{
}

/// Every block can be left.
spec fn closed(chunk: Chunk, blocks: Seq<BlockState>) -> bool {
    forall|b: int| 0 <= b < blocks.len() ==> leads_on(chunk, #[trigger] blocks[b])
}

spec fn leads_on(chunk: Chunk, b: BlockState) -> bool {
    let i = chunk.code@[b.pcs.last() as int];
    b.pcs.len() > 0 && ends_block(i.op) && (i.op is Call ==> element(
        chunk.functions@,
        i.imm as u32 as nat,
    ) is Some)
}

proof fn lemma_never_deopts(c: Ctx, blocks: Seq<BlockState>, b: int, m: Mach)
    requires
        c.starts == starts_of(blocks),
        closed(c.chunk, blocks),
        0 <= b < blocks.len(),
    ensures
        trace_run(c, blocks, b, m).1.kind != JIT_DEOPT,
    decreases m.budget,
{
    let pcs = blocks[b].pcs;
    assert(leads_on(c.chunk, blocks[b]));
    lemma_paid(c, pcs, pcs.len(), m);
    lemma_ends(c, pcs, pcs.len(), m);
    match steps(c, pcs, pcs.len(), m) {
        Out::Left(m1, Leave::To(j)) => {
            lemma_never_deopts(c, blocks, j, m1);
        },
        _ => {},
    }
}

proof fn lemma_closed_bad(chunk: Chunk, pcs: Seq<u32>, k: nat, n: nat, found: Option<u32>)
    requires
        0 < k <= n,
        crate::jit::compiler::first_bad(chunk, pcs, n, found) is None,
    ensures
        crate::jit::compiler::compilable(chunk, chunk.code@[pcs[k - 1] as int]),
        found is None,
    decreases n,
{
    if k < n {
        lemma_closed_bad(chunk, pcs, k, (n - 1) as nat, found);
    } else {
        lemma_found_none(chunk, pcs, n, found);
    }
}

proof fn lemma_found_none(chunk: Chunk, pcs: Seq<u32>, n: nat, found: Option<u32>)
    requires
        crate::jit::compiler::first_bad(chunk, pcs, n, found) is None,
    ensures
        found is None,
    decreases n,
{
    if n > 0 {
        lemma_found_none(chunk, pcs, (n - 1) as nat, found);
    }
}

proof fn lemma_closed(chunk: Chunk, blocks: Seq<BlockState>, n: nat)
    requires
        n <= blocks.len(),
        crate::jit::compiler::first_bad_block(chunk, blocks, n) is None,
        first_open(chunk, blocks, n) is None,
    ensures
        forall|b: int| 0 <= b < n ==> leads_on(chunk, #[trigger] blocks[b]),
    decreases n,
{
    if n > 0 {
        let last = blocks[n - 1];
        let before = crate::jit::compiler::first_bad_block(chunk, blocks, (n - 1) as nat);
        lemma_found_none(chunk, last.pcs, last.pcs.len(), before);
        lemma_closed(chunk, blocks, (n - 1) as nat);
        assert(!is_open(chunk, last));
        lemma_closed_bad(chunk, last.pcs, last.pcs.len(), last.pcs.len(), before);
    }
}

/// Every block of code that can be compiled has instructions, and ends with
/// one that leads elsewhere.
pub proof fn blocks_are_closed(chunk: Chunk, key: TraceKey)
    requires
        can_compile(chunk, key),
    ensures
        forall|b: int|
            0 <= b < region_of(chunk, key.entry_pc).len() ==> !is_open(
                chunk,
                #[trigger] region_of(chunk, key.entry_pc)[b],
            ),
{
    let blocks = region_of(chunk, key.entry_pc);
    lemma_closed(chunk, blocks, blocks.len());
    assert forall|b: int| 0 <= b < blocks.len() implies !is_open(chunk, #[trigger] blocks[b]) by {
        assert(leads_on(chunk, blocks[b]));
    }
}

/// Code that can be compiled always runs to an exit of its own: it never
/// gives up.
pub proof fn compiled_code_never_deopts(chunk: Chunk, key: TraceKey, registers: u8, m: Mach)
    requires
        can_compile(chunk, key),
    ensures
        trace_run(
            trace_ctx(chunk, key, registers),
            region_of(chunk, key.entry_pc),
            0,
            m,
        ).1.kind != JIT_DEOPT,
{
    let blocks = region_of(chunk, key.entry_pc);
    lemma_closed(chunk, blocks, blocks.len());
    lemma_never_deopts(trace_ctx(chunk, key, registers), blocks, 0, m);
}

/// However long a machine runs with compiled code, the cache holds only code
/// of its image.
pub proof fn rounds_keep_cache_sound(
    image: Chunk,
    same: bool,
    threshold: u32,
    s: VmState,
    j: JitState,
    budget: u32,
    t: VmState,
    k: JitState,
    e: Effect,
)
    requires
        cache_sound(j.cache, image),
        same ==> s.chunk == image,
        jit_run(same, threshold, s, j, budget, t, k, e),
    ensures
        cache_sound(k.cache, image),
    decreases budget,
{
    if budget > 0 {
        let (u, l, o) = choose|u: VmState, l: JitState, o: Option<Effect>| #[trigger]
            jit_step(same, threshold, s, j, budget, u, l, o) && match o {
                Some(x) => t == u && k == l && e == x,
                None => {
                    let (v, x) = slice(u, 1);
                    if x is Yield {
                        jit_run(same, threshold, v, l, (budget - 1) as u32, t, k, e)
                    } else {
                        t == v && k == l && e == x
                    }
                },
            };
        lemma_step_keeps(image, same, threshold, s, j, budget, u, l, o);
        if o is None && slice(u, 1).1 is Yield {
            slice_keeps_the_module(u, 1);
            rounds_keep_cache_sound(
                image,
                same,
                threshold,
                slice(u, 1).0,
                l,
                (budget - 1) as u32,
                t,
                k,
                e,
            );
        }
    }
}

proof fn lemma_step_keeps(
    image: Chunk,
    same: bool,
    threshold: u32,
    s: VmState,
    j: JitState,
    budget: u32,
    u: VmState,
    l: JitState,
    o: Option<Effect>,
)
    requires
        cache_sound(j.cache, image),
        same ==> s.chunk == image,
        jit_step(same, threshold, s, j, budget, u, l, o),
    ensures
        cache_sound(l.cache, image),
        u.chunk == s.chunk,
{
    if same && s.frames.len() > 0 {
        let f = s.frames.last();
        let n = slots_needed(s);
        let (slots, ok) = synced(f.registers, zeros(n), shorter(n, f.registers.len()));
        if ok {
            let key = TraceKey { function: f.function, entry_pc: f.pc as u32 };
            let (after, exit) = choose|after: Seq<i64>, exit: Option<ExitReason>| #[trigger]
                place_reached(
                    s.chunk,
                    threshold,
                    j,
                    key,
                    slots,
                    budget,
                    f.registers.len() as u8,
                    l,
                    after,
                    exit,
                ) && crate::jit::dispatch::handed_over(s, after, exit, u, o);
            if let Some(ExitReason::Return { return_reg }) = exit {
                let v = Value::Int(mem_get(after, return_reg as int));
                delivery_keeps_the_module(s, return_reg, v);
                let x = store(s, return_reg, v).0;
                if x.frames.len() > 0 {
                    let pc = x.frames.last().pc;
                    let next = if pc == usize::MAX {
                        pc
                    } else {
                        (pc + 1) as usize
                    };
                    delivery_keeps_the_module(with_pc(x, next), 0, v);
                }
            }
            cache_stays_sound(
                image,
                threshold,
                j,
                key,
                slots,
                budget,
                f.registers.len() as u8,
                l,
                after,
                exit,
            );
        }
    }
}

} // verus!
