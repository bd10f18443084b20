//! The code of a trace: what is reachable from its entry without an effect.

use std::collections::VecDeque;

use vstd::prelude::*;

use crate::bytecode::chunk::{element, Chunk};
use crate::bytecode::opcode::Opcode;
use crate::bytecode::value::Value;

verus! {

/// Most instructions in a trace.
pub const MAX_TRACE_LENGTH: usize = 256;

/// Instructions that run one after the other.
pub struct TraceBlock {
    pub start_pc: u32,
    pub pcs: Vec<u32>,
}

/// Model of a [`TraceBlock`].
#[verifier::ext_equal]
pub ghost struct BlockState {
    pub start: u32,
    pub pcs: Seq<u32>,
}

impl View for TraceBlock {
    type V = BlockState;

    open spec fn view(&self) -> BlockState {
        BlockState { start: self.start_pc, pcs: self.pcs@ }
    }
}

/// Models of a list of blocks.
pub open spec fn block_states(s: Seq<TraceBlock>) -> Seq<BlockState> {
    Seq::new(s.len(), |i: int| s[i]@)
}

/// The instruction that a jump leads to.
pub open spec fn jump_pc(pc: u32, imm: i32) -> u32 {
    (pc as int + 1 + imm as int) as i64 as u32
}

/// The instruction that a jump leads to.
pub fn jump_target(pc: u32, imm: i32) -> (r: u32)
    ensures
        r == jump_pc(pc, imm),
{
    (pc as i64 + 1 + imm as i64) as u32
}

/// Only the interpreter performs this operation.
pub open spec fn is_effect(op: Opcode) -> bool {
    match op {
        Opcode::CallNative | Opcode::Spawn | Opcode::Yield | Opcode::Sleep | Opcode::Exit
        | Opcode::SelfPid | Opcode::Send | Opcode::Receive | Opcode::ReceiveTimeout
        | Opcode::ReceiveMatch | Opcode::ReceiveMatchImm | Opcode::Ask | Opcode::AskTimeout
        | Opcode::Monitor | Opcode::Demonitor | Opcode::Link | Opcode::Unlink
        | Opcode::SetTrapExit | Opcode::SetRestartPolicy | Opcode::Delegate
        | Opcode::FreshRequestId | Opcode::ReceiveMatchCorr | Opcode::ReceiveMatchCorrImm
        | Opcode::ReceiveMatchKind | Opcode::RegisterName | Opcode::Whereis | Opcode::Trap
        | Opcode::Halt => true,
        _ => false,
    }
}

fn is_effect_opcode(op: Opcode) -> (r: bool)
    ensures
        r == is_effect(op),
{
    match op {
        Opcode::CallNative | Opcode::Spawn | Opcode::Yield | Opcode::Sleep | Opcode::Exit
        | Opcode::SelfPid | Opcode::Send | Opcode::Receive | Opcode::ReceiveTimeout
        | Opcode::ReceiveMatch | Opcode::ReceiveMatchImm | Opcode::Ask | Opcode::AskTimeout
        | Opcode::Monitor | Opcode::Demonitor | Opcode::Link | Opcode::Unlink
        | Opcode::SetTrapExit | Opcode::SetRestartPolicy | Opcode::Delegate
        | Opcode::FreshRequestId | Opcode::ReceiveMatchCorr | Opcode::ReceiveMatchCorrImm
        | Opcode::ReceiveMatchKind | Opcode::RegisterName | Opcode::Whereis | Opcode::Trap
        | Opcode::Halt => true,
        _ => false,
    }
}

/// The slot value of a constant, if it has one.
pub open spec fn scalar_constant(chunk: Chunk, index: u32) -> Option<i64> {
    match element(chunk.constants@, index as nat) {
        Some(Value::Int(i)) => Some(i),
        Some(Value::Bool(b)) => Some(
            if b {
                1
            } else {
                0
            },
        ),
        _ => None,
    }
}

/// The slot value of a constant, if it has one.
pub fn constant_slot(chunk: &Chunk, index: u32) -> (r: Option<i64>)
    ensures
        r == scalar_constant(*chunk, index),
{
    match chunk.constant(index) {
        Some(Value::Int(i)) => Some(*i),
        Some(Value::Bool(b)) => if *b {
            Some(1)
        } else {
            Some(0)
        },
        _ => None,
    }
}

/// The instruction at `pc` does not belong to a trace.
pub open spec fn stops(chunk: Chunk, pc: u32) -> bool {
    ||| pc >= chunk.code@.len()
    ||| pc == u32::MAX
    ||| is_effect(chunk.code@[pc as int].op)
    ||| chunk.code@[pc as int].op is LoadConst && scalar_constant(
        chunk,
        chunk.code@[pc as int].imm as u32,
    ) is None
}

/// A block ends behind this operation.
pub open spec fn ends_block(op: Opcode) -> bool {
    op is Return || op is Jump || op is Branch || op is Call
}

/// The instructions of the block that starts at `pc`, with room for at most
/// `room`.
pub open spec fn scan(chunk: Chunk, pc: u32, room: nat) -> Seq<u32>
    decreases room,
{
    if room == 0 || stops(chunk, pc) {
        Seq::empty()
    } else if ends_block(chunk.code@[pc as int].op) {
        seq![pc]
    } else {
        seq![pc] + scan(chunk, (pc + 1) as u32, (room - 1) as nat)
    }
}

/// A block has room, and only instructions of a trace.
pub proof fn block_is_bounded(chunk: Chunk, pc: u32, room: nat)
    ensures
        scan(chunk, pc, room).len() <= room,
        forall|i: int|
            0 <= i < scan(chunk, pc, room).len() ==> !stops(
                chunk,
                #[trigger] scan(chunk, pc, room)[i],
            ),
    decreases room,
{
    if room > 0 && !stops(chunk, pc) && !ends_block(chunk.code@[pc as int].op) {
        block_is_bounded(chunk, (pc + 1) as u32, (room - 1) as nat);
    }
}

/// Where a block leads that ends with the instruction at `pc`.
pub open spec fn successors(chunk: Chunk, pc: u32) -> Seq<u32> {
    let i = chunk.code@[pc as int];
    match i.op {
        Opcode::Jump => seq![jump_pc(pc, i.imm)],
        Opcode::Branch => seq![(pc + 1) as u32, jump_pc(pc, i.imm)],
        Opcode::Call => match element(chunk.functions@, i.imm as u32 as nat) {
            Some(def) => seq![def.entry, (pc + 1) as u32],
            None => seq![(pc + 1) as u32],
        },
        _ => Seq::empty(),
    }
}

/// The blocks that are reached from the queued starts, breadth first. Once
/// the trace is full no more are added.
pub open spec fn reached(
    chunk: Chunk,
    queue: Seq<u32>,
    seen: Set<u32>,
    blocks: Seq<BlockState>,
    total: nat,
) -> Seq<BlockState>
    decreases
            (if total < MAX_TRACE_LENGTH {
                3 * (MAX_TRACE_LENGTH - total) + queue.len()
            } else {
                queue.len() as int
            }),
{
    if queue.len() == 0 {
        blocks
    } else {
        let start = queue[0];
        let rest = queue.drop_first();
        if seen.contains(start) {
            reached(chunk, rest, seen, blocks, total)
        } else if total >= MAX_TRACE_LENGTH {
            blocks
        } else {
            let pcs = scan(chunk, start, (MAX_TRACE_LENGTH - total) as nat);
            proof {
                block_is_bounded(chunk, start, (MAX_TRACE_LENGTH - total) as nat);
            }
            if pcs.len() == 0 {
                reached(chunk, rest, seen.insert(start), blocks, total)
            } else {
                let next = if total + pcs.len() < MAX_TRACE_LENGTH {
                    rest + successors(chunk, pcs.last())
                } else {
                    rest
                };
                reached(
                    chunk,
                    next,
                    seen.insert(start),
                    blocks.push(BlockState { start, pcs }),
                    total + pcs.len(),
                )
            }
        }
    }
}

/// The blocks of the trace that starts at `entry`.
pub open spec fn region_of(chunk: Chunk, entry: u32) -> Seq<BlockState> {
    reached(chunk, seq![entry], Set::empty(), Seq::empty(), 0)
}

/// The largest program counter in the first `n` blocks, at least `low`.
pub open spec fn max_pc(blocks: Seq<BlockState>, n: nat, low: u32) -> u32
    decreases n,
{
    if n == 0 {
        low
    } else {
        max_in(blocks[n - 1].pcs, blocks[n - 1].pcs.len(), max_pc(blocks, (n - 1) as nat, low))
    }
}

/// The largest of the first `n` program counters, at least `low`.
pub open spec fn max_in(pcs: Seq<u32>, n: nat, low: u32) -> u32
    decreases n,
{
    if n == 0 {
        low
    } else {
        let m = max_in(pcs, (n - 1) as nat, low);
        if pcs[n - 1] > m {
            pcs[n - 1]
        } else {
            m
        }
    }
}

/// One of the first `n` instructions is a call.
pub open spec fn has_call_in(chunk: Chunk, pcs: Seq<u32>, n: nat) -> bool
    decreases n,
{
    if n == 0 {
        false
    } else {
        has_call_in(chunk, pcs, (n - 1) as nat) || chunk.code@[pcs[n - 1] as int].op is Call
    }
}

/// One of the first `n` blocks has a call.
pub open spec fn has_call(chunk: Chunk, blocks: Seq<BlockState>, n: nat) -> bool
    decreases n,
{
    if n == 0 {
        false
    } else {
        has_call(chunk, blocks, (n - 1) as nat) || has_call_in(
            chunk,
            blocks[n - 1].pcs,
            blocks[n - 1].pcs.len(),
        )
    }
}

/// Every listed instruction exists.
pub open spec fn in_code(chunk: Chunk, blocks: Seq<BlockState>) -> bool {
    forall|b: int, i: int|
        0 <= b < blocks.len() && 0 <= i < blocks[b].pcs.len() ==> (#[trigger] blocks[b].pcs[i])
            < chunk.code@.len() && blocks[b].pcs[i] < u32::MAX
}

proof fn lemma_reached_in_code(
    chunk: Chunk,
    queue: Seq<u32>,
    seen: Set<u32>,
    blocks: Seq<BlockState>,
    total: nat,
)
    requires
        in_code(chunk, blocks),
    ensures
        in_code(chunk, reached(chunk, queue, seen, blocks, total)),
    decreases
            (if total < MAX_TRACE_LENGTH {
                3 * (MAX_TRACE_LENGTH - total) + queue.len()
            } else {
                queue.len() as int
            }),
{
    if queue.len() > 0 {
        let start = queue[0];
        let rest = queue.drop_first();
        if seen.contains(start) {
            lemma_reached_in_code(chunk, rest, seen, blocks, total);
        } else if total < MAX_TRACE_LENGTH {
            let room = (MAX_TRACE_LENGTH - total) as nat;
            let pcs = scan(chunk, start, room);
            block_is_bounded(chunk, start, room);
            if pcs.len() == 0 {
                lemma_reached_in_code(chunk, rest, seen.insert(start), blocks, total);
            } else {
                let next = if total + pcs.len() < MAX_TRACE_LENGTH {
                    rest + successors(chunk, pcs.last())
                } else {
                    rest
                };
                let more = blocks.push(BlockState { start, pcs });
                assert forall|b: int, i: int|
                    0 <= b < more.len() && 0 <= i < more[b].pcs.len() implies (#[trigger] more[b].pcs[i])
                    < chunk.code@.len() && more[b].pcs[i] < u32::MAX by {
                    if b < blocks.len() {
                        assert(more[b] == blocks[b]);
                        assert(blocks[b].pcs[i] < chunk.code@.len());
                    } else {
                        assert(!stops(chunk, pcs[i]));
                    }
                }
                lemma_reached_in_code(chunk, next, seen.insert(start), more, total + pcs.len());
            }
        }
    }
}

/// Every instruction of a trace exists.
pub proof fn region_is_in_code(chunk: Chunk, entry: u32)
    ensures
        in_code(chunk, region_of(chunk, entry)),
{
    lemma_reached_in_code(chunk, seq![entry], Set::empty(), Seq::empty(), 0);
}

/// How many instructions the first `n` blocks have.
pub open spec fn pc_count(blocks: Seq<BlockState>, n: nat) -> nat
    decreases n,
{
    if n == 0 {
        0
    } else {
        pc_count(blocks, (n - 1) as nat) + blocks[n - 1].pcs.len()
    }
}

/// Every block has an instruction, and all of them no more than a trace may
/// have.
pub open spec fn is_bounded(blocks: Seq<BlockState>) -> bool {
    &&& pc_count(blocks, blocks.len()) <= MAX_TRACE_LENGTH
    &&& forall|b: int| 0 <= b < blocks.len() ==> (#[trigger] blocks[b]).pcs.len() > 0
}

proof fn lemma_count_prefix(a: Seq<BlockState>, b: Seq<BlockState>, n: nat)
    requires
        n <= a.len(),
        n <= b.len(),
        forall|k: int| 0 <= k < n ==> a[k] == b[k],
    ensures
        pc_count(a, n) == pc_count(b, n),
    decreases n,
{
    if n > 0 {
        lemma_count_prefix(a, b, (n - 1) as nat);
    }
}

proof fn lemma_reached_bounded(
    chunk: Chunk,
    queue: Seq<u32>,
    seen: Set<u32>,
    blocks: Seq<BlockState>,
    total: nat,
)
    requires
        is_bounded(blocks),
        pc_count(blocks, blocks.len()) == total,
    ensures
        is_bounded(reached(chunk, queue, seen, blocks, total)),
    decreases
            (if total < MAX_TRACE_LENGTH {
                3 * (MAX_TRACE_LENGTH - total) + queue.len()
            } else {
                queue.len() as int
            }),
{
    if queue.len() > 0 {
        let start = queue[0];
        let rest = queue.drop_first();
        if seen.contains(start) {
            lemma_reached_bounded(chunk, rest, seen, blocks, total);
        } else if total < MAX_TRACE_LENGTH {
            let pcs = scan(chunk, start, (MAX_TRACE_LENGTH - total) as nat);
            block_is_bounded(chunk, start, (MAX_TRACE_LENGTH - total) as nat);
            if pcs.len() == 0 {
                lemma_reached_bounded(chunk, rest, seen.insert(start), blocks, total);
            } else {
                let next = if total + pcs.len() < MAX_TRACE_LENGTH {
                    rest + successors(chunk, pcs.last())
                } else {
                    rest
                };
                let more = blocks.push(BlockState { start, pcs });
                lemma_count_prefix(blocks, more, blocks.len());
                lemma_reached_bounded(
                    chunk,
                    next,
                    seen.insert(start),
                    more,
                    total + pcs.len(),
                );
            }
        }
    }
}

/// A trace has no empty block, and no more instructions than it may have.
pub proof fn region_is_bounded(chunk: Chunk, entry: u32)
    ensures
        is_bounded(region_of(chunk, entry)),
{
    lemma_reached_bounded(chunk, seq![entry], Set::empty(), Seq::empty(), 0);
}

fn scan_block(chunk: &Chunk, start: u32, room: usize) -> (r: Vec<u32>)
    ensures
        r@ == scan(*chunk, start, room as nat),
{
    let mut pcs: Vec<u32> = Vec::new();
    let mut pc: u32 = start;
    let mut left: usize = room;
    while left > 0
        invariant_except_break
            left <= room,
            scan(*chunk, start, room as nat) == pcs@ + scan(*chunk, pc, left as nat),
        ensures
            scan(*chunk, start, room as nat) == pcs@,
        decreases left,
    {
        let ghost before = pcs@;
        if pc as usize >= chunk.code.len() || pc == u32::MAX {
            assert(before + Seq::<u32>::empty() =~= before);
            break;
        }
        let instr = chunk.code[pc as usize];
        if is_effect_opcode(instr.op) {
            assert(before + Seq::<u32>::empty() =~= before);
            break;
        }
        if instr.op == Opcode::LoadConst {
            if constant_slot(chunk, instr.imm as u32).is_none() {
                assert(before + Seq::<u32>::empty() =~= before);
                break;
            }
        }
        pcs.push(pc);
        match instr.op {
            Opcode::Return | Opcode::Jump | Opcode::Branch | Opcode::Call => {
                assert(before + seq![pc] =~= pcs@);
                break;
            },
            _ => {
                let ghost tail = scan(*chunk, (pc + 1) as u32, (left - 1) as nat);
                assert(before + (seq![pc] + tail) =~= pcs@ + tail);
                pc = pc + 1;
                left = left - 1;
            },
        }
        if left == 0 {
            assert(pcs@ + scan(*chunk, pc, 0) =~= pcs@);
        }
    }
    if room == 0 {
        assert(pcs@ + scan(*chunk, pc, 0) =~= pcs@);
    }
    pcs
}

fn push_successors(chunk: &Chunk, queue: &mut VecDeque<u32>, pc: u32)
    requires
        pc < chunk.code@.len(),
        pc < u32::MAX,
    ensures
        final(queue)@ == old(queue)@ + successors(*chunk, pc),
{
    let instr = chunk.code[pc as usize];
    match instr.op {
        Opcode::Jump => {
            queue.push_back(jump_target(pc, instr.imm));
        },
        Opcode::Branch => {
            queue.push_back(pc + 1);
            queue.push_back(jump_target(pc, instr.imm));
        },
        Opcode::Call => {
            if let Some(def) = chunk.function(instr.imm as u32) {
                queue.push_back(def.entry);
            }
            queue.push_back(pc + 1);
        },
        _ => {},
    }
    assert(queue@ =~= old(queue)@ + successors(*chunk, pc));
}

fn was_seen(seen: &Vec<u32>, pc: u32) -> (r: bool)
    ensures
        r == seen@.contains(pc),
{
    let mut k: usize = 0;
    while k < seen.len()
        invariant
            k <= seen@.len(),
            forall|j: int| 0 <= j < k ==> seen@[j] != pc,
        decreases seen@.len() - k,
    {
        if seen[k] == pc {
            return true;
        }
        k += 1;
    }
    false
}

/// The blocks of the trace that starts at `entry`.
pub fn collect_trace_region(chunk: &Chunk, entry: u32) -> (r: Vec<TraceBlock>)
    ensures
        block_states(r@) == region_of(*chunk, entry),
{
    let mut queue: VecDeque<u32> = VecDeque::new();
    queue.push_back(entry);
    let mut seen: Vec<u32> = Vec::new();
    let mut blocks: Vec<TraceBlock> = Vec::new();
    let mut total: usize = 0;
    assert(queue@ =~= seq![entry]);
    assert(seen@.to_set() =~= Set::<u32>::empty());
    assert(block_states(blocks@) =~= Seq::<BlockState>::empty());
    loop
        invariant_except_break
            total <= MAX_TRACE_LENGTH,
            region_of(*chunk, entry) == reached(
                *chunk,
                queue@,
                seen@.to_set(),
                block_states(blocks@),
                total as nat,
            ),
        ensures
            region_of(*chunk, entry) == block_states(blocks@),
        decreases
                (if total < MAX_TRACE_LENGTH {
                    3 * (MAX_TRACE_LENGTH - total) + queue@.len()
                } else {
                    queue@.len() as int
                }),
    {
        let ghost set0 = seen@.to_set();
        let ghost q0 = queue@;
        let start: u32 = match queue.pop_front() {
            Some(x) => x,
            None => break,
        };
        assert(queue@ =~= q0.drop_first());
        if was_seen(&seen, start) {
            continue ;
        }
        if total >= MAX_TRACE_LENGTH {
            break;
        }
        let room: usize = MAX_TRACE_LENGTH - total;
        let ghost old_seen = seen@;
        seen.push(start);
        proof {
            assert forall|x: u32| seen@.to_set().contains(x) <==> set0.insert(start).contains(x) by {
                if seen@.contains(x) {
                    let j = choose|j: int| 0 <= j < seen@.len() && seen@[j] == x;
                    if j < old_seen.len() {
                        assert(old_seen[j] == x);
                        assert(old_seen.contains(x));
                    }
                }
                if old_seen.contains(x) {
                    let j = choose|j: int| 0 <= j < old_seen.len() && old_seen[j] == x;
                    assert(seen@[j] == x);
                }
                assert(seen@[old_seen.len() as int] == start);
            }
            assert(seen@.to_set() =~= set0.insert(start));
        }
        let pcs = scan_block(chunk, start, room);
        proof {
            block_is_bounded(*chunk, start, room as nat);
        }
        if pcs.len() > 0 {
            total = total + pcs.len();
            let last: u32 = pcs[pcs.len() - 1];
            assert(!stops(*chunk, pcs@[pcs@.len() - 1]));
            if total < MAX_TRACE_LENGTH {
                push_successors(chunk, &mut queue, last);
            }
            let ghost b0 = block_states(blocks@);
            let ghost p = pcs@;
            blocks.push(TraceBlock { start_pc: start, pcs });
            assert(block_states(blocks@) =~= b0.push(BlockState { start, pcs: p }));
        }
    }
    blocks
}

/// The largest program counter of a trace that is not empty.
pub fn region_max_pc(blocks: &Vec<TraceBlock>) -> (r: u32)
    ensures
        r == max_pc(block_states(blocks@), blocks@.len(), 0),
{
    let mut best: u32 = 0;
    let mut b: usize = 0;
    let ghost bs = block_states(blocks@);
    while b < blocks.len()
        invariant
            b <= blocks@.len(),
            bs == block_states(blocks@),
            best == max_pc(bs, b as nat, 0),
        decreases blocks@.len() - b,
    {
        let ghost low = best;
        let mut i: usize = 0;
        assert(bs[b as int].pcs == blocks@[b as int].pcs@);
        while i < blocks[b].pcs.len()
            invariant
                b < blocks@.len(),
                i <= blocks@[b as int].pcs@.len(),
                best == max_in(blocks@[b as int].pcs@, i as nat, low),
            decreases blocks@[b as int].pcs@.len() - i,
        {
            if blocks[b].pcs[i] > best {
                best = blocks[b].pcs[i];
            }
            i += 1;
        }
        b += 1;
    }
    best
}

/// Whether a trace has a call.
pub fn region_has_call(chunk: &Chunk, blocks: &Vec<TraceBlock>) -> (r: bool)
    requires
        in_code(*chunk, block_states(blocks@)),
    ensures
        r == has_call(*chunk, block_states(blocks@), blocks@.len()),
{
    let mut found: bool = false;
    let mut b: usize = 0;
    let ghost bs = block_states(blocks@);
    while b < blocks.len()
        invariant
            b <= blocks@.len(),
            bs == block_states(blocks@),
            in_code(*chunk, bs),
            found == has_call(*chunk, bs, b as nat),
        decreases blocks@.len() - b,
    {
        let ghost low = found;
        let mut here: bool = false;
        let mut i: usize = 0;
        assert(bs[b as int].pcs == blocks@[b as int].pcs@);
        while i < blocks[b].pcs.len()
            invariant
                b < blocks@.len(),
                bs == block_states(blocks@),
                in_code(*chunk, bs),
                bs[b as int].pcs == blocks@[b as int].pcs@,
                i <= blocks@[b as int].pcs@.len(),
                here == has_call_in(*chunk, blocks@[b as int].pcs@, i as nat),
            decreases blocks@[b as int].pcs@.len() - i,
        {
            let pc: u32 = blocks[b].pcs[i];
            assert(bs[b as int].pcs[i as int] < chunk.code@.len());
            if chunk.code[pc as usize].op == Opcode::Call {
                here = true;
            }
            i += 1;
        }
        found = found || here;
        b += 1;
    }
    found
}

} // verus!
