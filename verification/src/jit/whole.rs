//! A whole trace and the interpreter.

use vstd::prelude::*;

use crate::bytecode::chunk::{element, Chunk};
use crate::bytecode::instruction::Instruction;
use crate::bytecode::opcode::Opcode;
use crate::bytecode::value::{truthy, Value};
use crate::jit::compiler::{can_compile, is_open, starts_of, trace_ctx};
use crate::jit::exit::{JitReturn, JIT_BUDGET, JIT_CONTINUE, JIT_RETURN, JIT_TRAP};
use crate::jit::laws::{
    blocks_are_closed, compiled_branch_agrees, computes, computing_agrees, interpreted,
    landing_is_found, lemma_flush_shadows, lemma_mirrors_store, mirrors, mirrors_when_flushed,
    same_callers, shadows,
};
use crate::jit::region::{
    block_is_bounded, ends_block, has_call, has_call_in, jump_pc, reached, region_of, scan, stops,
    successors, BlockState, MAX_TRACE_LENGTH,
};
use crate::jit::semantics::{
    args_copied, block_index, flushed, instr_run, loaded, reg_value, slot_of, stepped, steps,
    ticked, trace_run, Ctx, JitCallRecord, Leave, Mach, Out, Run,
};
use crate::jit::trace::TraceKey;
use crate::vm::fault::Fault;
use crate::vm::frame::FrameState;
use crate::vm::result::Effect;
use crate::vm::state::{gather, perform, pop, read, step, step_call, stored, with_pc, VmState};

verus! {

/// A jump from `pc` stays where program counters are.
pub open spec fn jump_is_tame(s: VmState, pc: u32, imm: i32) -> bool {
    &&& 0 <= pc + 1 + imm <= u32::MAX
    &&& s.paranoid ==> pc + 1 + imm <= s.chunk.code@.len() as usize
}

/// The interpreter is at an instruction that compiled code performs as it
/// does: it computes with integers only, on registers that exist; it jumps
/// within bounds; or it returns.
pub open spec fn tame(c: Ctx, s: VmState) -> bool {
    &&& s.frames.len() > 0
    &&& s.frames.last().pc < u32::MAX
    &&& s.frames.last().pc < s.chunk.code@.len()
    &&& {
        let pc = s.frames.last().pc as u32;
        let i = s.chunk.code@[pc as int];
        match i.op {
            Opcode::Nop => true,
            Opcode::Jump => jump_is_tame(s, pc, i.imm),
            Opcode::Branch => i.a < c.n && jump_is_tame(s, pc, i.imm),
            Opcode::Return => i.a < c.n,
            _ => computes(s, i, c.n) && i.a < s.frames.last().registers.len() && (i.op is Move
                ==> i.b < s.frames.last().registers.len()),
        }
    }
}

/// The interpreter is at a call that compiled code performs as it does: the
/// arguments are in registers that exist, and the call does not fault.
pub open spec fn tame_call(c: Ctx, s: VmState) -> bool {
    &&& s.frames.len() > 0
    &&& s.frames.last().pc < u32::MAX
    &&& s.frames.last().pc < s.chunk.code@.len()
    &&& {
        let i = s.chunk.code@[s.frames.last().pc as int];
        &&& i.op is Call
        &&& i.a < c.n
        &&& i.a + i.b <= c.n
        &&& step(s).1 is None
    }
}

/// The interpreter is in a called function, at an instruction that compiled
/// code performs as it does there: it does not leave the trace but by
/// returning, calls nothing, and reads no register that was not set.
pub open spec fn tame_inside(c: Ctx, s: VmState) -> bool {
    &&& tame(c, s)
    &&& {
        let pc = s.frames.last().pc as u32;
        let i = s.chunk.code@[pc as int];
        let regs = s.frames.last().registers;
        match i.op {
            Opcode::Jump => block_index(c.starts, jump_pc(pc, i.imm), 0) is Some,
            Opcode::Branch => {
                &&& i.a < regs.len()
                &&& !(regs[i.a as int] is Unit)
                &&& block_index(
                    c.starts,
                    if truthy(regs[i.a as int]) {
                        (pc + 1) as u32
                    } else {
                        jump_pc(pc, i.imm)
                    },
                    0,
                ) is Some
            },
            Opcode::Return => i.a < regs.len() && !(regs[i.a as int] is Unit),
            _ => true,
        }
    }
}

/// The interpreter is at an instruction that compiled code performs as it
/// does, in the function that the trace is of, which has `base` frames, or in
/// one that it called.
pub open spec fn follows(c: Ctx, base: nat, s: VmState) -> bool {
    if s.frames.len() == base {
        tame(c, s) || tame_call(c, s)
    } else {
        tame_inside(c, s)
    }
}

/// The instructions of a block follow each other, and only the last one
/// leads elsewhere.
pub open spec fn in_line(chunk: Chunk, start: u32, pcs: Seq<u32>) -> bool {
    &&& pcs.len() > 0
    &&& forall|k: int|
        0 <= k < pcs.len() ==> #[trigger] pcs[k] == start + k && !stops(chunk, pcs[k])
    &&& forall|k: int|
        0 <= k < pcs.len() - 1 ==> !ends_block(chunk.code@[(#[trigger] pcs[k]) as int].op)
}

proof fn lemma_scan_in_line(chunk: Chunk, pc: u32, room: nat)
    ensures
        scan(chunk, pc, room).len() > 0 ==> in_line(chunk, pc, scan(chunk, pc, room)),
    decreases room,
{
    if room > 0 && !stops(chunk, pc) && !ends_block(chunk.code@[pc as int].op) {
        let rest = scan(chunk, (pc + 1) as u32, (room - 1) as nat);
        lemma_scan_in_line(chunk, (pc + 1) as u32, (room - 1) as nat);
        let all = seq![pc] + rest;
        assert forall|k: int| 0 <= k < all.len() implies #[trigger] all[k] == pc + k && !stops(
            chunk,
            all[k],
        ) by {
            if k > 0 {
                assert(all[k] == rest[k - 1]);
            }
        }
        assert forall|k: int| 0 <= k < all.len() - 1 implies !ends_block(
            chunk.code@[(#[trigger] all[k]) as int].op,
        ) by {
            if k > 0 {
                assert(all[k] == rest[k - 1]);
            }
        }
    }
}

/// Every block is in line.
pub open spec fn all_in_line(chunk: Chunk, blocks: Seq<BlockState>) -> bool {
    forall|b: int|
        0 <= b < blocks.len() ==> in_line(
            chunk,
            (#[trigger] blocks[b]).start,
            blocks[b].pcs,
        )
}

proof fn lemma_reached_in_line(
    chunk: Chunk,
    queue: Seq<u32>,
    seen: Set<u32>,
    blocks: Seq<BlockState>,
    total: nat,
)
    requires
        all_in_line(chunk, blocks),
    ensures
        all_in_line(chunk, reached(chunk, queue, seen, blocks, total)),
        blocks.len() > 0 ==> reached(chunk, queue, seen, blocks, total).len() > 0
            && reached(chunk, queue, seen, blocks, total)[0] == blocks[0],
    decreases
            (if total < MAX_TRACE_LENGTH {
                3 * (MAX_TRACE_LENGTH - total) + queue.len()
            } else {
                queue.len() as int
            }),
{
    if queue.len() > 0 {
        let start = queue[0];
        let rest = queue.drop_first();
        if seen.contains(start) {
            lemma_reached_in_line(chunk, rest, seen, blocks, total);
        } else if total < MAX_TRACE_LENGTH {
            let room = (MAX_TRACE_LENGTH - total) as nat;
            let pcs = scan(chunk, start, room);
            block_is_bounded(chunk, start, room);
            if pcs.len() == 0 {
                lemma_reached_in_line(chunk, rest, seen.insert(start), blocks, total);
            } else {
                let next = if total + pcs.len() < MAX_TRACE_LENGTH {
                    rest + successors(chunk, pcs.last())
                } else {
                    rest
                };
                let more = blocks.push(BlockState { start, pcs });
                lemma_scan_in_line(chunk, start, room);
                assert forall|b: int| 0 <= b < more.len() implies in_line(
                    chunk,
                    (#[trigger] more[b]).start,
                    more[b].pcs,
                ) by {
                    if b < blocks.len() {
                        assert(more[b] == blocks[b]);
                    }
                }
                lemma_reached_in_line(chunk, next, seen.insert(start), more, total + pcs.len());
            }
        }
    }
}

/// The blocks of a trace are in line, and the first one starts at its
/// entry.
pub proof fn region_is_in_line(chunk: Chunk, entry: u32)
    ensures
        all_in_line(chunk, region_of(chunk, entry)),
        region_of(chunk, entry).len() > 0 ==> region_of(chunk, entry)[0].start == entry,
{
    let queue = seq![entry];
    lemma_reached_in_line(chunk, queue, Set::empty(), Seq::empty(), 0);
    let pcs = scan(chunk, entry, (MAX_TRACE_LENGTH - 0) as nat);
    let rest = queue.drop_first();
    assert(rest =~= Seq::<u32>::empty());
    if pcs.len() > 0 {
        let next = if pcs.len() < MAX_TRACE_LENGTH {
            rest + successors(chunk, pcs.last())
        } else {
            rest
        };
        let one = Seq::<BlockState>::empty().push(BlockState { start: entry, pcs });
        block_is_bounded(chunk, entry, MAX_TRACE_LENGTH as nat);
        lemma_scan_in_line(chunk, entry, MAX_TRACE_LENGTH as nat);
        assert(all_in_line(chunk, one));
        lemma_reached_in_line(
            chunk,
            next,
            Set::<u32>::empty().insert(entry),
            one,
            pcs.len(),
        );
        assert(region_of(chunk, entry) == reached(
            chunk,
            next,
            Set::<u32>::empty().insert(entry),
            one,
            0 + pcs.len(),
        ));
    } else {
        assert(reached(
            chunk,
            rest,
            Set::<u32>::empty().insert(entry),
            Seq::<BlockState>::empty(),
            0,
        ).len() == 0);
    }
}

/// The next step has no effect.
#[verifier::opaque]
pub open spec fn silent(s: VmState) -> bool {
    step(s).1 is None
}

/// No effect in the first `k` steps.
pub open spec fn quiet(s: VmState, k: nat) -> bool {
    forall|j: nat| j < k ==> silent(#[trigger] interpreted(s, j))
}

/// How many instructions were paid for.
pub open spec fn spent(m: Mach, o: Out) -> int {
    match o {
        Out::Going(r) => m.budget - r.m.budget,
        Out::Left(m1, _) => m.budget - m1.budget,
    }
}

/// The interpreter divides by zero in the `k`-th step.
pub open spec fn divides_by_zero(s: VmState, k: nat) -> bool {
    &&& k > 0
    &&& quiet(s, (k - 1) as nat)
    &&& step(interpreted(s, (k - 1) as nat)).1 == Some(Effect::Trap(Fault::DivideByZero))
}

/// The interpreter is at `pc` after `k` steps.
pub open spec fn stands_at(c: Ctx, s: VmState, k: nat, pc: int) -> bool {
    &&& interpreted(s, k).chunk == c.chunk
    &&& interpreted(s, k).frames.len() > 0
    &&& interpreted(s, k).frames.last().pc == pc
    &&& quiet(s, k)
}

/// The budget is spent, and the interpreter is where the code was left.
/// Registers that the block has set may not be in their slots yet: the cache
/// is not written back here.
pub open spec fn out_of_budget(c: Ctx, s: VmState, k: nat, m: Mach, x: JitReturn) -> bool {
    &&& x.kind == JIT_BUDGET
    &&& m.budget == 0
    &&& stands_at(c, s, k, x.pc as int)
}

/// The straight part of a block, after `k` instructions.
spec fn kept_up(
    c: Ctx,
    s: VmState,
    start: u32,
    k: nat,
    m: Mach,
    o: Out,
    full: bool,
) -> bool {
    match o {
        Out::Going(r) => {
            &&& r.m.budget == m.budget - k
            &&& r.m.mem.len() == m.mem.len()
            &&& r.m.stack == m.stack
            &&& shadows(interpreted(s, k), r, c.n, full)
            &&& same_callers(s, interpreted(s, k))
            &&& stands_at(c, s, k, start + k)
        },
        Out::Left(_, Leave::To(_)) => false,
        Out::Left(m1, Leave::Exit(x)) => {
            ||| m1.budget <= m.budget && out_of_budget(c, s, (m.budget - m1.budget) as nat, m1, x)
            ||| x.kind == JIT_TRAP && m1.budget < m.budget && divides_by_zero(
                s,
                (m.budget - m1.budget) as nat,
            )
        },
    }
}

/// The state in which the instruction at the program counter is performed.
spec fn fetched(t: VmState) -> VmState {
    with_pc(
        VmState { executed: t.executed.wrapping_add(1), ..t },
        (t.frames.last().pc + 1) as usize,
    )
}

proof fn lemma_fetched(t: VmState, r: Run, n: nat, full: bool)
    requires
        shadows(t, r, n, full),
        t.frames.last().pc < u32::MAX,
        t.frames.last().pc < t.chunk.code@.len(),
    ensures
        step(t) == perform(fetched(t), t.chunk.code@[t.frames.last().pc as int]),
        shadows(fetched(t), r, n, full),
        same_callers(t, fetched(t)),
        fetched(t).frames.last().pc == t.frames.last().pc + 1,
        fetched(t).frames.last().registers == t.frames.last().registers,
{
    let u = fetched(t);
    assert(u.frames.last().registers == t.frames.last().registers);
    assert(u.frames.drop_last() =~= t.frames.drop_last());
}

proof fn lemma_quiet_grows(s: VmState, k: nat)
    requires
        quiet(s, k),
        step(interpreted(s, k)).1 is None,
    ensures
        quiet(s, k + 1),
{
    assert(silent(interpreted(s, k))) by {
        reveal(silent);
    }
    lemma_one_more(s, k);
}

proof fn lemma_one_more(s: VmState, k: nat)
    requires
        quiet(s, k),
        silent(interpreted(s, k)),
    ensures
        quiet(s, k + 1),
{
    assert forall|j: nat| j < k + 1 implies silent(#[trigger] interpreted(s, j)) by {
        if j == k {
            assert(interpreted(s, j) == interpreted(s, k));
        }
    }
}

/// Paying for an instruction leaves the registers alone.
proof fn lemma_tick_shadows(s: VmState, r: Run, n: nat, full: bool)
    requires
        shadows(s, r, n, full),
        r.m.budget > 0,
    ensures
        shadows(
            s,
            Run { m: Mach { budget: (r.m.budget - 1) as u32, ..r.m }, ..r },
            n,
            full,
        ),
{
    let q = Run { m: Mach { budget: (r.m.budget - 1) as u32, ..r.m }, ..r };
    assert forall|x: u8| #[trigger] reg_value(q, x) == reg_value(r, x) by {}
}

/// The straight part of a block.
#[verifier::rlimit(40)]
proof fn lemma_straight(
    c: Ctx,
    start: u32,
    pcs: Seq<u32>,
    k: nat,
    s: VmState,
    m: Mach,
    full: bool,
    base: nat,
)
    requires
        in_line(c.chunk, start, pcs),
        k < pcs.len(),
        shadows(s, Run { m, cache: Map::empty() }, c.n, full),
        stands_at(c, s, 0, start as int),
        forall|j: nat|
            j < spent(m, steps(c, pcs, k, m)) ==> follows(c, base, #[trigger] interpreted(s, j)),
    ensures
        kept_up(c, s, start, k, m, steps(c, pcs, k, m), full),
    decreases k,
{
    if k > 0 {
        let j = (k - 1) as nat;
        let before = steps(c, pcs, j, m);
        let pc = pcs[j as int];
        lemma_spent_grows(c, pc, m, before);
        lemma_straight(c, start, pcs, j, s, m, full, base);
        if let Out::Going(r) = before {
            if r.m.budget > 0 {
                let t = interpreted(s, j);
                let i = c.chunk.code@[pc as int];
                let r1 = Run { m: Mach { budget: (r.m.budget - 1) as u32, ..r.m }, ..r };
                assert(!stops(c.chunk, pc));
                assert(!ends_block(i.op));
                lemma_tick_is_spent(c, pc, m, r);
                assert(follows(c, base, t));
                assert(tame(c, t));
                lemma_tick_shadows(t, r, c.n, full);
                lemma_fetched(t, r1, c.n, full);
                let u = fetched(t);
                if !(i.op is Nop) {
                    assert(computes(u, i, c.n));
                    computing_agrees(c, pc, i, u, r1, full);
                }
                if step(t).1 is None {
                    lemma_quiet_grows(s, j);
                }
            }
        }
    } else {
        assert(interpreted(s, 0) == s);
    }
}

/// Going on, a block spends no less.
proof fn lemma_spent_grows(c: Ctx, pc: u32, m: Mach, o: Out)
    ensures
        spent(m, o) <= spent(m, stepped(c, pc, o)),
{
    lemma_instr_budget(c, pc, c.chunk.code@[pc as int], o);
}

proof fn lemma_instr_budget(c: Ctx, pc: u32, i: Instruction, o: Out)
    ensures
        o matches Out::Going(r) ==> match instr_run(c, pc, i, r) {
            Some(Out::Going(q)) => q.m.budget == r.m.budget,
            Some(Out::Left(m1, _)) => m1.budget == r.m.budget,
            None => true,
        },
        o matches Out::Going(r) ==> r.m.budget > 0 ==> match instr_run(
            c,
            pc,
            i,
            ticked(r, pc)->Going_0,
        ) {
            Some(Out::Going(q)) => q.m.budget == r.m.budget - 1,
            Some(Out::Left(m1, _)) => m1.budget == r.m.budget - 1,
            None => true,
        },
{
}

proof fn lemma_tick_is_spent(c: Ctx, pc: u32, m: Mach, r: Run)
    requires
        r.m.budget > 0,
    ensures
        spent(m, stepped(c, pc, Out::Going(r))) == m.budget - r.m.budget + 1,
{
    lemma_instr_budget(c, pc, c.chunk.code@[pc as int], Out::Going(r));
}

/// Every register of the active frame is in its slot.
pub open spec fn in_slots(t: VmState, mem: Seq<i64>, n: nat) -> bool {
    &&& t.frames.len() > 0
    &&& n <= 255
    &&& n <= mem.len()
    &&& t.frames.last().registers.len() == n
    &&& forall|i: u8|
        i < n ==> slot_of(t.frames.last().registers[i as int]) == Some(#[trigger] mem[i as int])
}

/// The `k`-th step returns a register, whose value is in its slot.
pub open spec fn returns_at(c: Ctx, s: VmState, k: nat, reg: u32, mem: Seq<i64>) -> bool {
    let t = interpreted(s, (k - 1) as nat);
    let i = c.chunk.code@[t.frames.last().pc as int];
    &&& k > 0
    &&& t.chunk == c.chunk
    &&& t.frames.len() > 0
    &&& t.frames.last().pc < c.chunk.code@.len()
    &&& quiet(s, (k - 1) as nat)
    &&& i.op is Return
    &&& i.a == reg
    &&& reg < t.frames.last().registers.len()
    &&& slot_of(t.frames.last().registers[reg as int]) == Some(mem[reg as int])
}

/// What the interpreter does in the `k` steps that compiled code was left
/// after.
pub open spec fn exit_agrees(c: Ctx, s: VmState, k: nat, m: Mach, x: JitReturn) -> bool {
    ||| out_of_budget(c, s, k, m, x)
    ||| x.kind == JIT_TRAP && divides_by_zero(s, k)
    ||| x.kind == JIT_CONTINUE && stands_at(c, s, k, x.pc as int) && in_slots(
        interpreted(s, k),
        m.mem,
        c.n,
    )
    ||| x.kind == JIT_RETURN && returns_at(c, s, k, x.return_reg, m.mem)
}

/// Compiled code was left before a call, which is paid for: the interpreter
/// is at the call after one step less, with the registers in the slots.
pub open spec fn before_call(c: Ctx, s: VmState, k: nat, m: Mach, x: JitReturn) -> bool {
    &&& k > 0
    &&& x.kind == JIT_CONTINUE
    &&& stands_at(c, s, (k - 1) as nat, x.pc as int)
    &&& x.pc < c.chunk.code@.len()
    &&& c.chunk.code@[x.pc as int].op is Call
    &&& in_slots(interpreted(s, (k - 1) as nat), m.mem, c.n)
}

/// Compiled code was left when the function returned that it called in step
/// `j`: the interpreter is behind the call, in the same frame, with the
/// returned value in the destination, which is in its slot. The other
/// registers of the frame are what they were at the call; their slots are as
/// the function left them.
pub open spec fn after_call(c: Ctx, s: VmState, j: nat, k: nat, m: Mach, x: JitReturn) -> bool {
    let t = interpreted(s, j);
    let u = interpreted(s, k);
    let i = c.chunk.code@[t.frames.last().pc as int];
    let regs = u.frames.last().registers;
    &&& j < k
    &&& x.kind == JIT_CONTINUE
    &&& t.frames.len() > 0
    &&& i.op is Call
    &&& stands_at(c, s, k, x.pc as int)
    &&& x.pc == t.frames.last().pc + 1
    &&& u.frames.len() == t.frames.len()
    &&& i.a < regs.len()
    &&& i.a < m.mem.len()
    &&& regs == t.frames.last().registers.update(i.a as int, regs[i.a as int])
    &&& slot_of(regs[i.a as int]) == Some(m.mem[i.a as int])
}

/// What the interpreter does in the `k` steps that compiled code was left
/// after, which may have made a call.
pub open spec fn run_agrees(c: Ctx, s: VmState, k: nat, m: Mach, x: JitReturn) -> bool {
    ||| exit_agrees(c, s, k, m, x)
    ||| before_call(c, s, k, m, x)
    ||| exists|j: nat| #[trigger] after_call(c, s, j, k, m, x)
}

/// The interpreter is in a function that compiled code called, and compiled
/// code knows what to return to.
spec fn called(c: Ctx, s: VmState, m: Mach) -> bool {
    let d = s.frames.len();
    let rec = m.stack[0];
    let caller = s.frames[d - 2];
    &&& d >= 2
    &&& c.n <= 255
    &&& c.n <= m.mem.len()
    &&& m.stack.len() == 1
    &&& rec.dest_reg < c.n
    &&& caller.registers.len() == c.n
    &&& caller.pc == rec.return_pc
    &&& forall|x: u8| x < c.n ==> slot_of(#[trigger] caller.registers[x as int]) is Some
    &&& s.frames.last().dest_reg == Some(rec.dest_reg as u8)
    &&& shadows(s, Run { m, cache: Map::empty() }, c.n, false)
}

/// The called function returned after `k` steps.
spec fn came_back(c: Ctx, s: VmState, k: nat, m: Mach, x: JitReturn, rec: JitCallRecord) -> bool {
    let u = interpreted(s, k);
    let regs = u.frames.last().registers;
    let d = rec.dest_reg as int;
    &&& x.kind == JIT_CONTINUE
    &&& x.pc == rec.return_pc
    &&& stands_at(c, s, k, x.pc as int)
    &&& u.frames.len() == s.frames.len() - 1
    &&& 0 <= d < m.mem.len()
    &&& d < regs.len()
    &&& regs == s.frames[s.frames.len() - 2].registers.update(d, regs[d])
    &&& slot_of(regs[d]) == Some(m.mem[d])
}

/// What the interpreter does while a called function runs.
spec fn call_agrees(c: Ctx, s: VmState, k: nat, m: Mach, x: JitReturn, rec: JitCallRecord) -> bool {
    ||| out_of_budget(c, s, k, m, x)
    ||| x.kind == JIT_TRAP && divides_by_zero(s, k)
    ||| came_back(c, s, k, m, x, rec)
}

/// What the interpreter does while a block runs.
spec fn block_kept_up(c: Ctx, s: VmState, m: Mach, o: Out) -> bool {
    match o {
        Out::Going(_) => false,
        Out::Left(m1, l) => {
            let k = (m.budget - m1.budget) as nat;
            &&& m1.budget <= m.budget
            &&& match l {
                Leave::Exit(x) => exit_agrees(c, s, k, m1, x) || before_call(c, s, k, m1, x),
                Leave::To(b) => {
                    &&& k > 0
                    &&& 0 <= b < c.starts.len()
                    &&& stands_at(c, s, k, c.starts[b] as int)
                    &&& {
                        ||| m1.stack.len() == 0 && in_slots(interpreted(s, k), m1.mem, c.n)
                            && interpreted(s, k).frames.len() == s.frames.len()
                        ||| call_made(c, s, k, m1)
                    }
                },
            }
        },
    }
}

/// The last of `k` steps was a call.
spec fn call_made(c: Ctx, s: VmState, k: nat, m: Mach) -> bool {
    let t = interpreted(s, (k - 1) as nat);
    let u = interpreted(s, k);
    let i = c.chunk.code@[t.frames.last().pc as int];
    &&& k > 0
    &&& t.frames.len() == s.frames.len()
    &&& t.frames.len() > 0
    &&& i.op is Call
    &&& called(c, u, m)
    &&& u.frames.len() == t.frames.len() + 1
    &&& u.frames[u.frames.len() - 2].registers == t.frames.last().registers
    &&& m.stack[0].dest_reg == i.a
    &&& m.stack[0].return_pc == t.frames.last().pc + 1
}

/// A block.
#[verifier::rlimit(60)]
proof fn lemma_block(c: Ctx, start: u32, pcs: Seq<u32>, s: VmState, m: Mach)
    requires
        in_line(c.chunk, start, pcs),
        m.stack.len() == 0,
        ends_block(c.chunk.code@[pcs.last() as int].op),
        in_slots(s, m.mem, c.n),
        stands_at(c, s, 0, start as int),
        forall|j: nat|
            j < spent(m, steps(c, pcs, pcs.len(), m)) ==> follows(
                c,
                s.frames.len(),
                #[trigger] interpreted(s, j),
            ),
    ensures
        block_kept_up(c, s, m, steps(c, pcs, pcs.len(), m)),
{
    let j = (pcs.len() - 1) as nat;
    let before = steps(c, pcs, j, m);
    let pc = pcs[j as int];
    let i = c.chunk.code@[pc as int];
    let r0 = Run { m, cache: Map::<int, i64>::empty() };
    assert forall|x: u8| x < c.n implies slot_of(s.frames.last().registers[x as int]) == Some(
        #[trigger] reg_value(r0, x),
    ) by {
        assert(slot_of(s.frames.last().registers[x as int]) == Some(m.mem[x as int]));
    }
    lemma_spent_grows(c, pc, m, before);
    lemma_straight(c, start, pcs, j, s, m, true, s.frames.len());
    if let Out::Going(r) = before {
        if r.m.budget > 0 {
            let t = interpreted(s, j);
            let r1 = Run { m: Mach { budget: (r.m.budget - 1) as u32, ..r.m }, ..r };
            assert(!stops(c.chunk, pc));
            lemma_tick_is_spent(c, pc, m, r);
            assert(follows(c, s.frames.len(), t));
            lemma_tick_shadows(t, r, c.n, true);
            lemma_fetched(t, r1, c.n, true);
            if i.op is Call {
                lemma_last_call(c, pc, i, s, j, m, r1);
            } else {
                lemma_last(c, pc, i, s, j, m, r1);
            }
        }
    }
}

/// A jump in the interpreter.
#[verifier::rlimit(40)]
proof fn lemma_jump_step(t: VmState, pc: u32, i: Instruction)
    requires
        t.frames.len() > 0,
        t.frames.last().pc == pc,
        pc < u32::MAX,
        pc < t.chunk.code@.len(),
        i == t.chunk.code@[pc as int],
        jump_is_tame(t, pc, i.imm),
        i.op is Jump || (i.op is Branch && i.a < t.frames.last().registers.len()),
    ensures
        step(t).1 is None,
        step(t).0.chunk == t.chunk,
        step(t).0.frames.len() == t.frames.len(),
        step(t).0.frames.drop_last() == t.frames.drop_last(),
        step(t).0.frames.last().dest_reg == t.frames.last().dest_reg,
        step(t).0.frames.last().registers == t.frames.last().registers,
        step(t).0.frames.last().pc == (if i.op is Jump || !truthy(
            t.frames.last().registers[i.a as int],
        ) {
            jump_pc(pc, i.imm)
        } else {
            (pc + 1) as u32
        }),
{
    let u = fetched(t);
    assert(u.frames.last() == (FrameState { pc: (pc + 1) as usize, ..t.frames.last() }));
    assert(step(t) == perform(u, i));
    assert(jump_pc(pc, i.imm) == pc + 1 + i.imm);
    if i.op is Branch {
        assert(read(u, i.a) == Ok::<Value, Fault>(t.frames.last().registers[i.a as int]));
    }
    assert(step(t).0.frames.drop_last() =~= t.frames.drop_last());
}

#[verifier::rlimit(40)]
proof fn lemma_last_jump(c: Ctx, pc: u32, i: Instruction, s: VmState, j: nat, m: Mach, r: Run)
    requires
        i.op is Jump,
        same_callers(s, interpreted(s, j)),
        stands_at(c, s, j, pc as int),
        pc < u32::MAX,
        pc < c.chunk.code@.len(),
        i == c.chunk.code@[pc as int],
        tame(c, interpreted(s, j)),
        mirrors(interpreted(s, j), r, c.n),
        mirrors(fetched(interpreted(s, j)), r, c.n),
        c.n <= r.m.mem.len(),
        r.m.stack.len() == 0,
        r.m.budget == m.budget - j - 1,
    ensures
        instr_run(c, pc, i, r) matches Some(o) && block_kept_up(c, s, m, o),
{
    let t = interpreted(s, j);
    let next = interpreted(s, j + 1);
    lemma_jump_step(t, pc, i);
    assert(next == step(t).0);
    lemma_quiet_grows(s, j);
    mirrors_when_flushed(t, r, c.n);
    let m1 = flushed(r, c.n).m;
    lemma_to_slots(t, next, m1, c.n);
    landing_is_found(c, jump_pc(pc, i.imm), 0);
    assert((m.budget - m1.budget) as nat == j + 1);
}

#[verifier::rlimit(40)]
proof fn lemma_last_branch(c: Ctx, pc: u32, i: Instruction, s: VmState, j: nat, m: Mach, r: Run)
    requires
        i.op is Branch,
        same_callers(s, interpreted(s, j)),
        stands_at(c, s, j, pc as int),
        pc < u32::MAX,
        pc < c.chunk.code@.len(),
        i == c.chunk.code@[pc as int],
        tame(c, interpreted(s, j)),
        mirrors(interpreted(s, j), r, c.n),
        mirrors(fetched(interpreted(s, j)), r, c.n),
        c.n <= r.m.mem.len(),
        r.m.stack.len() == 0,
        r.m.budget == m.budget - j - 1,
    ensures
        instr_run(c, pc, i, r) matches Some(o) && block_kept_up(c, s, m, o),
{
    let t = interpreted(s, j);
    let next = interpreted(s, j + 1);
    lemma_jump_step(t, pc, i);
    assert(next == step(t).0);
    lemma_quiet_grows(s, j);
    assert(read(t, i.a) == Ok::<Value, Fault>(t.frames.last().registers[i.a as int]));
    compiled_branch_agrees(c, pc, i, t, r);
    lemma_branch_len(c, pc, i, t, r);
    let m1 = instr_run(c, pc, i, r)->Some_0->Left_0;
    lemma_to_slots(t, next, m1, c.n);
    assert((m.budget - m1.budget) as nat == j + 1);
}

#[verifier::rlimit(40)]
proof fn lemma_last_return(c: Ctx, pc: u32, i: Instruction, s: VmState, j: nat, m: Mach, r: Run)
    requires
        i.op is Return,
        stands_at(c, s, j, pc as int),
        pc < u32::MAX,
        pc < c.chunk.code@.len(),
        i == c.chunk.code@[pc as int],
        tame(c, interpreted(s, j)),
        mirrors(interpreted(s, j), r, c.n),
        mirrors(fetched(interpreted(s, j)), r, c.n),
        c.n <= r.m.mem.len(),
        r.m.stack.len() == 0,
        r.m.budget == m.budget - j - 1,
    ensures
        instr_run(c, pc, i, r) matches Some(o) && block_kept_up(c, s, m, o),
{
    let t = interpreted(s, j);
    assert(slot_of(t.frames.last().registers[i.a as int]) == Some(reg_value(r, i.a)));
    let m1 = instr_run(c, pc, i, r)->Some_0->Left_0;
    assert((m.budget - m1.budget) as nat == j + 1);
    assert(m1.mem[i.a as int] == reg_value(r, i.a));
    assert(returns_at(c, s, j + 1, i.a as u32, m1.mem));
}

/// The last instruction of a block.
proof fn lemma_last(c: Ctx, pc: u32, i: Instruction, s: VmState, j: nat, m: Mach, r: Run)
    requires
        ends_block(i.op),
        !(i.op is Call),
        same_callers(s, interpreted(s, j)),
        stands_at(c, s, j, pc as int),
        pc < u32::MAX,
        pc < c.chunk.code@.len(),
        i == c.chunk.code@[pc as int],
        tame(c, interpreted(s, j)),
        mirrors(interpreted(s, j), r, c.n),
        mirrors(fetched(interpreted(s, j)), r, c.n),
        c.n <= r.m.mem.len(),
        r.m.stack.len() == 0,
        r.m.budget == m.budget - j - 1,
    ensures
        instr_run(c, pc, i, r) matches Some(o) && block_kept_up(c, s, m, o),
{
    match i.op {
        Opcode::Jump => {
            lemma_last_jump(c, pc, i, s, j, m, r);
        },
        Opcode::Branch => {
            lemma_last_branch(c, pc, i, s, j, m, r);
        },
        _ => {
            lemma_last_return(c, pc, i, s, j, m, r);
        },
    }
}

/// Copied arguments are in the first slots.
proof fn lemma_args(mem: Seq<i64>, dest: int, n: nat)
    requires
        0 <= dest,
        dest + n <= mem.len(),
    ensures
        args_copied(mem, dest, n).len() == mem.len(),
        forall|x: int|
            0 <= x < n ==> #[trigger] args_copied(mem, dest, n)[x] == mem[dest + x],
        forall|x: int|
            n <= x < mem.len() ==> #[trigger] args_copied(mem, dest, n)[x] == mem[x],
    decreases n,
{
    if n > 0 {
        lemma_args(mem, dest, (n - 1) as nat);
    }
}

/// Gathered arguments are the values of registers in a row.
proof fn lemma_gathered(s: VmState, base: u8, n: nat)
    ensures
        gather(s, base, 0, n) matches Ok(v) ==> v.len() == n && forall|x: int|
            0 <= x < n ==> base + x < s.frames.last().registers.len() && #[trigger] v[x]
                == s.frames.last().registers[base + x],
    decreases n,
{
    if n > 0 {
        lemma_gathered(s, base, (n - 1) as nat);
    }
}

/// What a call does in the interpreter.
#[verifier::rlimit(40)]
proof fn lemma_call_step(t: VmState, pc: u32, i: Instruction)
    requires
        t.frames.len() > 0,
        t.frames.last().pc == pc,
        pc < u32::MAX,
        pc < t.chunk.code@.len(),
        i == t.chunk.code@[pc as int],
        i.op is Call,
        step(t).1 is None,
    ensures
        element(t.chunk.functions@, i.imm as u32 as nat) is Some,
        i.b > 0 ==> i.a + i.b <= t.frames.last().registers.len(),
        ({
            let def = element(t.chunk.functions@, i.imm as u32 as nat)->Some_0;
            let u = step(t).0;
            let regs = u.frames.last().registers;
            &&& u.chunk == t.chunk
            &&& u.frames.len() == t.frames.len() + 1
            &&& u.frames.last().pc == def.entry
            &&& u.frames.last().dest_reg == Some(i.a)
            &&& u.frames[t.frames.len() - 1] == (FrameState {
                pc: (pc + 1) as usize,
                ..t.frames.last()
            })
            &&& forall|x: int|
                0 <= x < regs.len() && !(#[trigger] regs[x] is Unit) ==> x < i.b && regs[x]
                    == t.frames.last().registers[i.a + x]
        }),
{
    let u = fetched(t);
    assert(u.frames.last() == (FrameState { pc: (pc + 1) as usize, ..t.frames.last() }));
    assert(step(t) == perform(u, i));
    assert(perform(u, i) == step_call(u, i));
    lemma_gathered(u, i.a, i.b as nat);
    let args = gather(u, i.a, 0, i.b as nat)->Ok_0;
    if i.b > 0 {
        assert(args[i.b - 1] == u.frames.last().registers[i.a + i.b - 1]);
    }
}

/// A call that compiled code makes, or is left before.
#[verifier::rlimit(40)]
proof fn lemma_last_call(c: Ctx, pc: u32, i: Instruction, s: VmState, j: nat, m: Mach, r: Run)
    requires
        i.op is Call,
        same_callers(s, interpreted(s, j)),
        stands_at(c, s, j, pc as int),
        pc < u32::MAX,
        pc < c.chunk.code@.len(),
        i == c.chunk.code@[pc as int],
        tame_call(c, interpreted(s, j)),
        mirrors(interpreted(s, j), r, c.n),
        c.n <= r.m.mem.len(),
        r.m.stack.len() == 0,
        r.m.budget == m.budget - j - 1,
    ensures
        instr_run(c, pc, i, r) matches Some(o) && block_kept_up(c, s, m, o),
{
    let t = interpreted(s, j);
    let next = interpreted(s, j + 1);
    lemma_call_step(t, pc, i);
    assert(next == step(t).0);
    lemma_quiet_grows(s, j);
    mirrors_when_flushed(t, r, c.n);
    let m1 = flushed(r, c.n).m;
    let def = element(c.chunk.functions@, i.imm as u32 as nat)->Some_0;
    landing_is_found(c, def.entry, 0);
    assert((j + 1 - 1) as nat == j);
    if block_index(c.starts, def.entry, 0) is None {
        assert(in_slots(t, m1.mem, c.n));
        assert((m.budget - m1.budget) as nat == j + 1);
    } else {
        let o = instr_run(c, pc, i, r)->Some_0;
        let m2 = o->Left_0;
        lemma_args(m1.mem, i.a as int, i.b as nat);
        assert(m2.mem == args_copied(m1.mem, i.a as int, i.b as nat));
        let regs = next.frames.last().registers;
        let e = Run { m: m2, cache: Map::<int, i64>::empty() };
        assert forall|x: u8| x < c.n && x < regs.len() && (false || !(regs[x as int] is Unit))
            implies slot_of(regs[x as int]) == Some(#[trigger] reg_value(e, x)) by {
            assert(!(regs[x as int] is Unit));
            let y = (i.a + x) as u8;
            assert(regs[x as int] == t.frames.last().registers[y as int]);
            assert(slot_of(t.frames.last().registers[y as int]) == Some(m1.mem[y as int]));
            assert(m2.mem[x as int] == m1.mem[i.a + x]);
        }
        assert(shadows(next, e, c.n, false));
        assert forall|x: u8| x < c.n implies slot_of(
            #[trigger] t.frames.last().registers[x as int],
        ) is Some by {
            assert(slot_of(t.frames.last().registers[x as int]) == Some(m1.mem[x as int]));
        }
        assert(called(c, next, m2));
        assert((m.budget - m2.budget) as nat == j + 1);
        assert(call_made(c, s, j + 1, m2));
    }
}

/// What the interpreter does while a block of a called function runs.
spec fn inner_kept_up(c: Ctx, s: VmState, m: Mach, o: Out) -> bool {
    match o {
        Out::Going(_) => false,
        Out::Left(m1, l) => {
            let k = (m.budget - m1.budget) as nat;
            let t = interpreted(s, k);
            &&& m1.budget <= m.budget
            &&& match l {
                Leave::Exit(x) => call_agrees(c, s, k, m1, x, m.stack[0]),
                Leave::To(b) => {
                    &&& k > 0
                    &&& 0 <= b < c.starts.len()
                    &&& stands_at(c, s, k, c.starts[b] as int)
                    &&& called(c, t, m1)
                    &&& m1.stack == m.stack
                    &&& t.frames.drop_last() == s.frames.drop_last()
                    &&& t.frames.len() == s.frames.len()
                },
            }
        },
    }
}

/// What is below the active frame is what compiled code returns to.
proof fn lemma_still_called(c: Ctx, s: VmState, t: VmState, m: Mach, m1: Mach)
    requires
        called(c, s, m),
        m1.stack == m.stack,
        m1.mem.len() == m.mem.len(),
        t.frames.len() == s.frames.len(),
        t.frames.drop_last() == s.frames.drop_last(),
        t.frames.last().dest_reg == s.frames.last().dest_reg,
        shadows(t, Run { m: m1, cache: Map::empty() }, c.n, false),
    ensures
        called(c, t, m1),
{
    let d = s.frames.len();
    assert(t.frames[d - 2] == t.frames.drop_last()[d - 2]);
    assert(s.frames[d - 2] == s.frames.drop_last()[d - 2]);
}

/// A way within a called function.
#[verifier::rlimit(40)]
proof fn lemma_inner_way(c: Ctx, pc: u32, i: Instruction, s: VmState, j: nat, m: Mach, r: Run)
    requires
        i.op is Jump || i.op is Branch,
        called(c, s, m),
        same_callers(s, interpreted(s, j)),
        stands_at(c, s, j, pc as int),
        pc < u32::MAX,
        pc < c.chunk.code@.len(),
        i == c.chunk.code@[pc as int],
        tame_inside(c, interpreted(s, j)),
        shadows(interpreted(s, j), r, c.n, false),
        r.m.mem.len() == m.mem.len(),
        r.m.stack == m.stack,
        r.m.budget == m.budget - j - 1,
    ensures
        instr_run(c, pc, i, r) matches Some(o) && inner_kept_up(c, s, m, o),
{
    let t = interpreted(s, j);
    let next = interpreted(s, j + 1);
    lemma_jump_step(t, pc, i);
    assert(next == step(t).0);
    lemma_quiet_grows(s, j);
    let q = if i.op is Jump { r } else { loaded(r, c.n, i.a) };
    assert forall|x: u8| #[trigger] reg_value(q, x) == reg_value(r, x) by {}
    assert(shadows(t, q, c.n, false));
    lemma_flush_shadows(t, q, c.n, false);
    let m1 = flushed(q, c.n).m;
    let e = Run { m: m1, cache: Map::<int, i64>::empty() };
    assert(shadows(next, e, c.n, false)) by {
        assert(shadows(t, e, c.n, false));
    }
    landing_is_found(c, jump_pc(pc, i.imm), 0);
    landing_is_found(c, (pc + 1) as u32, 0);
    if i.op is Branch {
        assert(slot_of(t.frames.last().registers[i.a as int]) == Some(reg_value(r, i.a)));
    }
    assert(next.frames.drop_last() == s.frames.drop_last());
    lemma_still_called(c, s, next, m, m1);
    assert((m.budget - m1.budget) as nat == j + 1);
}

/// A return from a called function.
#[verifier::rlimit(40)]
proof fn lemma_inner_return(c: Ctx, pc: u32, i: Instruction, s: VmState, j: nat, m: Mach, r: Run)
    requires
        i.op is Return,
        c.calls,
        called(c, s, m),
        same_callers(s, interpreted(s, j)),
        stands_at(c, s, j, pc as int),
        pc < u32::MAX,
        pc < c.chunk.code@.len(),
        i == c.chunk.code@[pc as int],
        tame_inside(c, interpreted(s, j)),
        shadows(interpreted(s, j), r, c.n, false),
        r.m.mem.len() == m.mem.len(),
        r.m.stack == m.stack,
        r.m.budget == m.budget - j - 1,
    ensures
        instr_run(c, pc, i, r) matches Some(o) && inner_kept_up(c, s, m, o),
{
    let t = interpreted(s, j);
    let next = interpreted(s, j + 1);
    let u = fetched(t);
    let d = s.frames.len();
    let rec = m.stack[0];
    let v = t.frames.last().registers[i.a as int];
    assert(u.frames.last().registers == t.frames.last().registers);
    assert(u.frames.last().dest_reg == t.frames.last().dest_reg);
    assert(step(t) == perform(u, i));
    assert(read(u, i.a) == Ok::<Value, Fault>(v));
    assert(perform(u, i) == pop(u, v));
    assert(slot_of(v) == Some(reg_value(r, i.a)));
    let below = VmState { frames: u.frames.drop_last(), ..u };
    assert(u.frames.drop_last() =~= t.frames.drop_last());
    let caller = s.frames[d - 2];
    assert(below.frames.last() == caller) by {
        assert(t.frames.drop_last()[d - 2] == s.frames.drop_last()[d - 2]);
    }
    let fake = Run {
        m: Mach {
            mem: Seq::new(c.n, |x: int| slot_of(caller.registers[x])->Some_0),
            ..m
        },
        cache: Map::<int, i64>::empty(),
    };
    let dest = rec.dest_reg as u8;
    assert forall|x: u8| x < c.n && x < below.frames.last().registers.len() && (true
        || !(below.frames.last().registers[x as int] is Unit)) implies slot_of(
        below.frames.last().registers[x as int],
    ) == Some(#[trigger] reg_value(fake, x)) by {
        assert(slot_of(caller.registers[x as int]) is Some);
    }
    assert(shadows(below, fake, c.n, true));
    lemma_mirrors_store(below, fake, c.n, dest, v, slot_of(v)->Some_0, true);
    assert(step(t) == stored(below, dest, v));
    assert(next == step(t).0);
    lemma_quiet_grows(s, j);
    let m1 = instr_run(c, pc, i, r)->Some_0->Left_0;
    assert(m1.mem[rec.dest_reg as int] == reg_value(r, i.a));
    assert((m.budget - m1.budget) as nat == j + 1);
    assert(next.frames.last().registers =~= caller.registers.update(dest as int, v));
    assert(next.frames.last().pc == caller.pc);
    assert(came_back(
        c,
        s,
        j + 1,
        m1,
        JitReturn { kind: JIT_CONTINUE, pc: rec.return_pc, return_reg: 0 },
        rec,
    ));
}

/// A block of a called function.
#[verifier::rlimit(60)]
proof fn lemma_inner_block(c: Ctx, start: u32, pcs: Seq<u32>, s: VmState, m: Mach, base: nat)
    requires
        in_line(c.chunk, start, pcs),
        c.calls,
        called(c, s, m),
        s.frames.len() == base + 1,
        ends_block(c.chunk.code@[pcs.last() as int].op),
        stands_at(c, s, 0, start as int),
        forall|j: nat|
            j < spent(m, steps(c, pcs, pcs.len(), m)) ==> follows(
                c,
                base,
                #[trigger] interpreted(s, j),
            ),
    ensures
        inner_kept_up(c, s, m, steps(c, pcs, pcs.len(), m)),
{
    let j = (pcs.len() - 1) as nat;
    let before = steps(c, pcs, j, m);
    let pc = pcs[j as int];
    let i = c.chunk.code@[pc as int];
    lemma_spent_grows(c, pc, m, before);
    lemma_straight(c, start, pcs, j, s, m, false, base);
    if let Out::Going(r) = before {
        if r.m.budget > 0 {
            let t = interpreted(s, j);
            let r1 = Run { m: Mach { budget: (r.m.budget - 1) as u32, ..r.m }, ..r };
            assert(!stops(c.chunk, pc));
            lemma_tick_is_spent(c, pc, m, r);
            assert(follows(c, base, t));
            lemma_tick_shadows(t, r, c.n, false);
            if i.op is Return {
                lemma_inner_return(c, pc, i, s, j, m, r1);
            } else {
                lemma_inner_way(c, pc, i, s, j, m, r1);
            }
        }
    }
}

#[verifier::rlimit(40)]
proof fn lemma_call_shifts(c: Ctx, s: VmState, a: nat, b: nat, m: Mach, x: JitReturn, rec: JitCallRecord)
    requires
        quiet(s, a),
        interpreted(s, a).frames.len() == s.frames.len(),
        s.frames.len() >= 2,
        interpreted(s, a).frames.drop_last() == s.frames.drop_last(),
        call_agrees(c, interpreted(s, a), b, m, x, rec),
    ensures
        call_agrees(c, s, a + b, m, x, rec),
{
    let t = interpreted(s, a);
    let d = s.frames.len();
    assert(t.frames[d - 2] == t.frames.drop_last()[d - 2]);
    assert(s.frames[d - 2] == s.frames.drop_last()[d - 2]);
    if x.kind == JIT_TRAP && divides_by_zero(t, b) {
        let short = (b - 1) as nat;
        lemma_steps_join(s, a, short);
        lemma_quiet_joins(s, a, short);
        assert((a + b - 1) as nat == a + short);
        assert(divides_by_zero(s, a + b));
    } else if out_of_budget(c, t, b, m, x) {
        lemma_steps_join(s, a, b);
        lemma_quiet_joins(s, a, b);
        assert(out_of_budget(c, s, a + b, m, x));
    } else if came_back(c, t, b, m, x, rec) {
        lemma_steps_join(s, a, b);
        lemma_quiet_joins(s, a, b);
        assert(came_back(c, s, a + b, m, x, rec));
    }
}

/// A called function.
#[verifier::rlimit(40)]
proof fn lemma_called(c: Ctx, blocks: Seq<BlockState>, b: int, s: VmState, m: Mach, base: nat)
    requires
        c.starts == starts_of(blocks),
        c.calls,
        all_in_line(c.chunk, blocks),
        forall|k: int| 0 <= k < blocks.len() ==> !is_open(c.chunk, #[trigger] blocks[k]),
        0 <= b < blocks.len(),
        called(c, s, m),
        s.frames.len() == base + 1,
        stands_at(c, s, 0, blocks[b].start as int),
        forall|j: nat|
            j < m.budget - trace_run(c, blocks, b, m).0.budget ==> follows(
                c,
                base,
                #[trigger] interpreted(s, j),
            ),
    ensures
        trace_run(c, blocks, b, m).0.budget <= m.budget,
        call_agrees(
            c,
            s,
            (m.budget - trace_run(c, blocks, b, m).0.budget) as nat,
            trace_run(c, blocks, b, m).0,
            trace_run(c, blocks, b, m).1,
            m.stack[0],
        ),
    decreases m.budget,
{
    let pcs = blocks[b].pcs;
    let start = blocks[b].start;
    let o = steps(c, pcs, pcs.len(), m);
    assert(in_line(c.chunk, start, pcs));
    assert(!is_open(c.chunk, blocks[b]));
    lemma_trace_spends(c, blocks, b, m);
    lemma_inner_block(c, start, pcs, s, m, base);
    if let Out::Left(m1, Leave::To(j)) = o {
        let a = (m.budget - m1.budget) as nat;
        let t = interpreted(s, a);
        assert(c.starts[j] == blocks[j].start);
        assert(interpreted(t, 0) == t);
        let (m3, y) = trace_run(c, blocks, j, m1);
        assert forall|q: nat| q < m1.budget - m3.budget implies follows(
            c,
            base,
            #[trigger] interpreted(t, q),
        ) by {
            lemma_steps_join(s, a, q);
            assert(follows(c, base, interpreted(s, a + q)));
        }
        lemma_called(c, blocks, j, t, m1, base);
        lemma_call_shifts(c, s, a, (m1.budget - m3.budget) as nat, m3, y, m.stack[0]);
    }
}

/// The slots hold the registers of a frame, whatever its program counter.
proof fn lemma_to_slots(u: VmState, next: VmState, m: Mach, n: nat)
    requires
        u.frames.len() > 0,
        next.frames.len() > 0,
        u.frames.last().registers.len() == n,
        next.frames.last().registers == u.frames.last().registers,
        n <= 255,
        n <= m.mem.len(),
        forall|i: u8|
            i < n ==> slot_of(u.frames.last().registers[i as int]) == Some(
                #[trigger] m.mem[i as int],
            ),
    ensures
        in_slots(next, m.mem, n),
{
}

proof fn lemma_branch_len(c: Ctx, pc: u32, i: Instruction, s: VmState, r: Run)
    requires
        i.op is Branch,
        mirrors(s, r, c.n),
        instr_run(c, pc, i, r) matches Some(Out::Left(..)),
    ensures
        instr_run(c, pc, i, r)->Some_0->Left_0.mem.len() == r.m.mem.len(),
        instr_run(c, pc, i, r)->Some_0->Left_0.budget == r.m.budget,
        instr_run(c, pc, i, r)->Some_0->Left_0.stack == r.m.stack,
        c.n <= r.m.mem.len() ==> forall|x: u8|
            x < c.n ==> slot_of(s.frames.last().registers[x as int]) == Some(
                #[trigger] instr_run(c, pc, i, r)->Some_0->Left_0.mem[x as int],
            ),
{
    let q = loaded(r, c.n, i.a);
    assert forall|x: u8| #[trigger] reg_value(q, x) == reg_value(r, x) by {}
    assert(shadows(s, q, c.n, true));
    mirrors_when_flushed(s, q, c.n);
}

#[verifier::rlimit(40)]
proof fn lemma_steps_join(s: VmState, a: nat, b: nat)
    ensures
        interpreted(s, a + b) == interpreted(interpreted(s, a), b),
    decreases b,
{
    if b > 0 {
        lemma_steps_join(s, a, (b - 1) as nat);
    }
}

/// What holds after more steps holds of the whole.
#[verifier::rlimit(40)]
proof fn lemma_exit_shifts(c: Ctx, s: VmState, a: nat, b: nat, m: Mach, x: JitReturn)
    requires
        quiet(s, a),
        exit_agrees(c, interpreted(s, a), b, m, x),
    ensures
        exit_agrees(c, s, a + b, m, x),
{
    let t = interpreted(s, a);
    if out_of_budget(c, t, b, m, x) {
        lemma_steps_join(s, a, b);
        lemma_quiet_joins(s, a, b);
        assert(out_of_budget(c, s, a + b, m, x));
    } else if x.kind == JIT_CONTINUE && stands_at(c, t, b, x.pc as int) && in_slots(
        interpreted(t, b),
        m.mem,
        c.n,
    ) {
        lemma_steps_join(s, a, b);
        lemma_quiet_joins(s, a, b);
        assert(stands_at(c, s, a + b, x.pc as int));
    } else if x.kind == JIT_TRAP && divides_by_zero(t, b) {
        let short = (b - 1) as nat;
        lemma_steps_join(s, a, short);
        lemma_quiet_joins(s, a, short);
        assert((a + b - 1) as nat == a + short);
        assert(divides_by_zero(s, a + b));
    } else if x.kind == JIT_RETURN && returns_at(c, t, b, x.return_reg, m.mem) {
        let short = (b - 1) as nat;
        lemma_steps_join(s, a, short);
        lemma_quiet_joins(s, a, short);
        assert((a + b - 1) as nat == a + short);
        assert(returns_at(c, s, a + b, x.return_reg, m.mem));
    }
}

#[verifier::rlimit(40)]
proof fn lemma_quiet_joins(s: VmState, a: nat, b: nat)
    requires
        quiet(s, a),
        quiet(interpreted(s, a), b),
    ensures
        quiet(s, a + b),
{
    assert forall|j: nat| j < a + b implies silent(#[trigger] interpreted(s, j)) by {
        if j >= a {
            lemma_steps_join(s, a, (j - a) as nat);
            assert(silent(interpreted(interpreted(s, a), (j - a) as nat)));
        }
    }
}

/// What holds after more steps holds of the whole, calls included.
#[verifier::rlimit(40)]
proof fn lemma_run_shifts(c: Ctx, s: VmState, a: nat, b: nat, m: Mach, x: JitReturn)
    requires
        quiet(s, a),
        run_agrees(c, interpreted(s, a), b, m, x),
    ensures
        run_agrees(c, s, a + b, m, x),
{
    let t = interpreted(s, a);
    if exit_agrees(c, t, b, m, x) {
        lemma_exit_shifts(c, s, a, b, m, x);
    } else if before_call(c, t, b, m, x) {
        let short = (b - 1) as nat;
        lemma_steps_join(s, a, short);
        lemma_quiet_joins(s, a, short);
        assert((a + b - 1) as nat == a + short);
        assert(before_call(c, s, a + b, m, x));
    } else {
        let j = choose|j: nat| #[trigger] after_call(c, t, j, b, m, x);
        lemma_steps_join(s, a, j);
        lemma_steps_join(s, a, b);
        lemma_quiet_joins(s, a, b);
        assert(after_call(c, s, a + j, a + b, m, x));
    }
}

/// A call that came back.
#[verifier::rlimit(40)]
proof fn lemma_call_ends(c: Ctx, s: VmState, a: nat, b: nat, m1: Mach, m: Mach, x: JitReturn)
    requires
        quiet(s, a),
        a > 0,
        call_made(c, s, a, m1),
        call_agrees(c, interpreted(s, a), b, m, x, m1.stack[0]),
    ensures
        run_agrees(c, s, a + b, m, x),
{
    let t = interpreted(s, a);
    if out_of_budget(c, t, b, m, x) || (x.kind == JIT_TRAP && divides_by_zero(t, b)) {
        lemma_exit_shifts(c, s, a, b, m, x);
    } else {
        lemma_steps_join(s, a, b);
        lemma_quiet_joins(s, a, b);
        assert(after_call(c, s, (a - 1) as nat, a + b, m, x));
    }
}

#[verifier::rlimit(40)]
proof fn lemma_trace(c: Ctx, blocks: Seq<BlockState>, b: int, s: VmState, m: Mach)
    requires
        c.starts == starts_of(blocks),
        c.calls == has_call(c.chunk, blocks, blocks.len()),
        all_in_line(c.chunk, blocks),
        m.stack.len() == 0,
        forall|k: int| 0 <= k < blocks.len() ==> !is_open(c.chunk, #[trigger] blocks[k]),
        0 <= b < blocks.len(),
        stands_at(c, s, 0, blocks[b].start as int),
        in_slots(s, m.mem, c.n),
        forall|j: nat|
            j < m.budget - trace_run(c, blocks, b, m).0.budget ==> follows(
                c,
                s.frames.len(),
                #[trigger] interpreted(s, j),
            ),
    ensures
        trace_run(c, blocks, b, m).0.budget <= m.budget,
        run_agrees(
            c,
            s,
            (m.budget - trace_run(c, blocks, b, m).0.budget) as nat,
            trace_run(c, blocks, b, m).0,
            trace_run(c, blocks, b, m).1,
        ),
    decreases m.budget,
{
    let pcs = blocks[b].pcs;
    let start = blocks[b].start;
    let base = s.frames.len();
    let o = steps(c, pcs, pcs.len(), m);
    assert(in_line(c.chunk, start, pcs));
    assert(!is_open(c.chunk, blocks[b]));
    lemma_trace_spends(c, blocks, b, m);
    lemma_block(c, start, pcs, s, m);
    if let Out::Left(m1, Leave::To(j)) = o {
        let a = (m.budget - m1.budget) as nat;
        let t = interpreted(s, a);
        assert(c.starts[j] == blocks[j].start);
        assert(interpreted(t, 0) == t);
        let (m3, y) = trace_run(c, blocks, j, m1);
        assert forall|q: nat| q < m1.budget - m3.budget implies follows(
            c,
            base,
            #[trigger] interpreted(t, q),
        ) by {
            lemma_steps_join(s, a, q);
            assert(follows(c, base, interpreted(s, a + q)));
        }
        if m1.stack.len() == 0 {
            lemma_trace(c, blocks, j, t, m1);
            lemma_run_shifts(c, s, a, (m1.budget - m3.budget) as nat, m3, y);
        } else {
            lemma_calls_are_known(c, blocks, b, s, m);
            lemma_called(c, blocks, j, t, m1, base);
            lemma_call_ends(c, s, a, (m1.budget - m3.budget) as nat, m1, m3, y);
        }
    }
}

/// A trace whose block made a call has a call.
proof fn lemma_calls_are_known(c: Ctx, blocks: Seq<BlockState>, b: int, s: VmState, m: Mach)
    requires
        c.calls == has_call(c.chunk, blocks, blocks.len()),
        0 <= b < blocks.len(),
        blocks[b].pcs.len() > 0,
        m.stack.len() == 0,
        steps(c, blocks[b].pcs, blocks[b].pcs.len(), m) matches Out::Left(m1, Leave::To(_))
            && m1.stack.len() > 0,
    ensures
        c.calls,
{
    lemma_calls_push(c, blocks[b].pcs, blocks[b].pcs.len(), m);
    lemma_has_call(c.chunk, blocks, blocks.len(), b);
}

/// Only a call makes the stack longer.
proof fn lemma_calls_push(c: Ctx, pcs: Seq<u32>, k: nat, m: Mach)
    requires
        k <= pcs.len(),
        m.stack.len() == 0,
    ensures
        match steps(c, pcs, k, m) {
            Out::Going(r) => r.m.stack.len() == 0,
            Out::Left(m1, _) => m1.stack.len() > 0 ==> has_call_in(c.chunk, pcs, k),
        },
    decreases k,
{
    if k > 0 {
        lemma_calls_push(c, pcs, (k - 1) as nat, m);
    }
}

proof fn lemma_has_call(chunk: Chunk, blocks: Seq<BlockState>, n: nat, b: int)
    requires
        0 <= b < n <= blocks.len(),
        has_call_in(chunk, blocks[b].pcs, blocks[b].pcs.len()),
    ensures
        has_call(chunk, blocks, n),
    decreases n,
{
    if b < n - 1 {
        lemma_has_call(chunk, blocks, (n - 1) as nat, b);
    }
}

/// A run spends what its first block spends, or more.
proof fn lemma_trace_spends(c: Ctx, blocks: Seq<BlockState>, b: int, m: Mach)
    requires
        0 <= b < blocks.len(),
    ensures
        spent(m, steps(c, blocks[b].pcs, blocks[b].pcs.len(), m)) <= m.budget - trace_run(
            c,
            blocks,
            b,
            m,
        ).0.budget,
        0 <= spent(m, steps(c, blocks[b].pcs, blocks[b].pcs.len(), m)),
    decreases m.budget,
{
    lemma_steps_spend(c, blocks[b].pcs, blocks[b].pcs.len(), m);
    if let Out::Left(m1, Leave::To(j)) = steps(c, blocks[b].pcs, blocks[b].pcs.len(), m) {
        if m1.budget < m.budget {
            if 0 <= j < blocks.len() {
                lemma_trace_spends(c, blocks, j, m1);
            } else {
                assert(trace_run(c, blocks, j, m1).0 == m1);
            }
            assert(trace_run(c, blocks, b, m) == trace_run(c, blocks, j, m1));
        }
    }
}

proof fn lemma_steps_spend(c: Ctx, pcs: Seq<u32>, k: nat, m: Mach)
    ensures
        0 <= spent(m, steps(c, pcs, k, m)),
    decreases k,
{
    if k > 0 {
        lemma_steps_spend(c, pcs, (k - 1) as nat, m);
        lemma_spent_grows(c, pcs[k - 1], m, steps(c, pcs, (k - 1) as nat, m));
    }
}

/// Compiled code does what the interpreter does. From a frame whose
/// registers are in the slots, `k` being the instructions that the compiled
/// code has paid for: where it goes on in the interpreter, the interpreter
/// is there after `k` steps, with the registers in the slots; where it
/// traps, the `k`-th step divides by zero; where it returns, the `k`-th step
/// returns the value in the slot; where the budget is spent, the interpreter
/// is there too after `k` steps. Until then the interpreter has no effect.
///
/// A call that leads out of the trace is left to the interpreter, paid for
/// already. One within the trace is made by compiled code, which is left when
/// the function returns: the interpreter is then behind the call, with the
/// returned value in its destination, and that is in its slot.
///
/// This is so as long as the interpreter [`follows`]: it computes with
/// integers only, jumps within bounds, does not leave the trace within a
/// called function, and so on.
pub proof fn compiled_trace_agrees(
    chunk: Chunk,
    key: TraceKey,
    registers: u8,
    s: VmState,
    m: Mach,
)
    requires
        can_compile(chunk, key),
        s.chunk == chunk,
        m.stack.len() == 0,
        in_slots(s, m.mem, registers as nat),
        s.frames.last().pc == key.entry_pc,
        ({
            let c = trace_ctx(chunk, key, registers);
            let (m2, _) = trace_run(c, region_of(chunk, key.entry_pc), 0, m);
            forall|j: nat|
                j < m.budget - m2.budget ==> follows(
                    c,
                    s.frames.len(),
                    #[trigger] interpreted(s, j),
                )
        }),
    ensures
        ({
            let c = trace_ctx(chunk, key, registers);
            let (m2, x) = trace_run(c, region_of(chunk, key.entry_pc), 0, m);
            &&& m2.budget <= m.budget
            &&& run_agrees(c, s, (m.budget - m2.budget) as nat, m2, x)
        }),
{
    let c = trace_ctx(chunk, key, registers);
    let blocks = region_of(chunk, key.entry_pc);
    region_is_in_line(chunk, key.entry_pc);
    blocks_are_closed(chunk, key);
    assert(interpreted(s, 0) == s);
    lemma_trace(c, blocks, 0, s, m);
}

/// A run without a call is left with every register in its slot, by a trap,
/// by a return or for want of budget.
pub proof fn quiet_traces_agree(c: Ctx, s: VmState, k: nat, m: Mach, x: JitReturn)
    requires
        run_agrees(c, s, k, m, x),
        forall|j: nat|
            j < k ==> !(c.chunk.code@[(#[trigger] interpreted(s, j)).frames.last().pc as int].op
                is Call),
    ensures
        exit_agrees(c, s, k, m, x),
{
    if before_call(c, s, k, m, x) {
        assert(interpreted(s, (k - 1) as nat).frames.last().pc == x.pc);
    } else if !exit_agrees(c, s, k, m, x) {
        let j = choose|j: nat| #[trigger] after_call(c, s, j, k, m, x);
        assert(interpreted(s, j).frames.len() > 0);
    }
}

} // verus!
