//! Compiles the code that is reachable from a place.

use std::sync::Arc;

use vstd::prelude::*;

use crate::bytecode::chunk::{element, Chunk};
use crate::bytecode::instruction::Instruction;
use crate::bytecode::opcode::Opcode;
use crate::jit::code::{code_run, code_states, pays, CodeBlock, Dest, Op, TraceCode};
use crate::jit::emit::{
    block_is_faithful, block_is_paid_for, dest_op, em_bin, em_branch, em_call, em_def, em_flush,
    em_instr, em_load, em_op, em_result, em_steps, EmState, RegisterMap,
};
use crate::jit::error::{open_block, open_block_text, CompileError};
use crate::jit::exit::{JIT_CONTINUE, JIT_RETURN};
use crate::jit::native::{lowers, op_count};
use crate::jit::region::{
    block_states, collect_trace_region, constant_slot, ends_block, has_call, in_code, is_bounded,
    jump_target, max_pc, pc_count, region_has_call,
    region_is_bounded, region_is_in_code, region_max_pc, region_of, scalar_constant, BlockState,
    TraceBlock,
};
use crate::jit::semantics::{bin_op, block_index, steps, trace_run, BinOp, Ctx, Mach};
use crate::jit::trace::{CompiledTrace, TraceKey, TraceSpan};

verus! {

/// Where the blocks of a trace start.
pub open spec fn starts_of(blocks: Seq<BlockState>) -> Seq<u32> {
    Seq::new(blocks.len(), |b: int| blocks[b].start)
}

/// What a trace is compiled for.
pub open spec fn trace_ctx(chunk: Chunk, key: TraceKey, registers: u8) -> Ctx {
    let blocks = region_of(chunk, key.entry_pc);
    Ctx {
        chunk,
        starts: starts_of(blocks),
        n: registers as nat,
        calls: has_call(chunk, blocks, blocks.len()),
        trap_pc: max_pc(blocks, blocks.len(), 0),
    }
}

/// An instruction that can be compiled.
pub open spec fn compilable(chunk: Chunk, i: Instruction) -> bool {
    match i.op {
        Opcode::LoadImm | Opcode::Move | Opcode::Neg | Opcode::Jump | Opcode::Branch
        | Opcode::Return | Opcode::Nop => true,
        Opcode::LoadConst => scalar_constant(chunk, i.imm as u32) is Some,
        Opcode::Call => element(chunk.functions@, i.imm as u32 as nat) is Some,
        _ => bin_op(i.op) is Some,
    }
}

/// The first of the first `n` instructions that cannot be compiled.
pub open spec fn first_bad(chunk: Chunk, pcs: Seq<u32>, n: nat, found: Option<u32>) -> Option<u32>
    decreases n,
{
    if n == 0 {
        found
    } else {
        match first_bad(chunk, pcs, (n - 1) as nat, found) {
            Some(pc) => Some(pc),
            None => if compilable(chunk, chunk.code@[pcs[n - 1] as int]) {
                None
            } else {
                Some(pcs[n - 1])
            },
        }
    }
}

/// The first instruction of the first `n` blocks that cannot be compiled.
pub open spec fn first_bad_block(chunk: Chunk, blocks: Seq<BlockState>, n: nat) -> Option<u32>
    decreases n,
{
    if n == 0 {
        None
    } else {
        first_bad(
            chunk,
            blocks[n - 1].pcs,
            blocks[n - 1].pcs.len(),
            first_bad_block(chunk, blocks, (n - 1) as nat),
        )
    }
}

/// The code of the block leads nowhere.
pub open spec fn is_open(chunk: Chunk, b: BlockState) -> bool {
    b.pcs.len() == 0 || !ends_block(chunk.code@[b.pcs.last() as int].op)
}

/// The first of the first `n` blocks that leads nowhere.
pub open spec fn first_open(chunk: Chunk, blocks: Seq<BlockState>, n: nat) -> Option<u32>
    decreases n,
{
    if n == 0 {
        None
    } else {
        match first_open(chunk, blocks, (n - 1) as nat) {
            Some(pc) => Some(pc),
            None => if is_open(chunk, blocks[n - 1]) {
                Some(blocks[n - 1].start)
            } else {
                None
            },
        }
    }
}

/// The code runs as the trace does, from every state.
pub open spec fn faithful(code: TraceCode, c: Ctx, blocks: Seq<BlockState>) -> bool {
    forall|m: Mach| #[trigger]
        code_run(code_states(code.blocks@), 0, m) == trace_run(c, blocks, 0, m)
}

/// The compiled trace of a place in an image.
pub open spec fn is_trace_of(t: CompiledTrace, chunk: Chunk, key: TraceKey) -> bool {
    match element(chunk.functions@, key.function as nat) {
        None => false,
        Some(def) => {
            let blocks = region_of(chunk, key.entry_pc);
            let end = max_pc(blocks, blocks.len(), 0);
            &&& blocks.len() > 0
            &&& t.span.function == key.function
            &&& t.span.range.start == key.entry_pc
            &&& t.span.range.end == (if end == u32::MAX {
                u32::MAX
            } else {
                (end + 1) as u32
            })
            &&& faithful(*t.entry, trace_ctx(chunk, key, def.num_registers), blocks)
            &&& pays(code_states(t.entry.blocks@))
            &&& lowers(code_states(t.entry.blocks@))
        },
    }
}

/// The code of a place can be compiled.
pub open spec fn can_compile(chunk: Chunk, key: TraceKey) -> bool {
    let blocks = region_of(chunk, key.entry_pc);
    &&& element(chunk.functions@, key.function as nat) is Some
    &&& blocks.len() > 0
    &&& first_bad_block(chunk, blocks, blocks.len()) is None
    &&& first_open(chunk, blocks, blocks.len()) is None
}

/// What compiling a place gives.
pub open spec fn compile_result(
    chunk: Chunk,
    key: TraceKey,
    r: Result<CompiledTrace, CompileError>,
) -> bool {
    let blocks = region_of(chunk, key.entry_pc);
    if element(chunk.functions@, key.function as nat) is None || blocks.len() == 0 {
        r == Err::<CompiledTrace, _>(
            CompileError::EmptyTrace { function: key.function, pc: key.entry_pc },
        )
    } else if let Some(pc) = first_bad_block(chunk, blocks, blocks.len()) {
        r == Err::<CompiledTrace, _>(
            CompileError::UnsupportedOpcode { opcode: chunk.code@[pc as int].op, pc },
        )
    } else if let Some(pc) = first_open(chunk, blocks, blocks.len()) {
        r matches Err(CompileError::Module(msg)) && msg@ == open_block_text(pc)
    } else {
        r matches Ok(t) && is_trace_of(t, chunk, key)
    }
}

/// A trace is compiled exactly where its code can be.
pub proof fn compiles_where_it_can(
    chunk: Chunk,
    key: TraceKey,
    r: Result<CompiledTrace, CompileError>,
)
    requires
        compile_result(chunk, key, r),
    ensures
        r is Ok <==> can_compile(chunk, key),
{
}

/// What the compiler knows of a trace.
struct Plan<'a> {
    chunk: &'a Chunk,
    starts: Vec<u32>,
    registers: u8,
    calls: bool,
    trap_pc: u32,
}

impl<'a> Plan<'a> {
    spec fn ctx(&self) -> Ctx {
        Ctx {
            chunk: *self.chunk,
            starts: self.starts@,
            n: self.registers as nat,
            calls: self.calls,
            trap_pc: self.trap_pc,
        }
    }

    fn block_of(&self, pc: u32) -> (r: Option<usize>)
        ensures
            match block_index(self.starts@, pc, 0) {
                Some(i) => r == Some(i as usize) && i < self.starts@.len(),
                None => r is None,
            },
    {
        let mut i: usize = 0;
        while i < self.starts.len()
            invariant
                i <= self.starts@.len(),
                block_index(self.starts@, pc, 0) == block_index(self.starts@, pc, i as nat),
            decreases self.starts@.len() - i,
        {
            if self.starts[i] == pc {
                return Some(i);
            }
            i += 1;
        }
        None
    }

    fn dest(&self, pc: u32) -> (r: Dest)
        ensures
            r == dest_op(self.ctx(), pc),
    {
        match self.block_of(pc) {
            Some(i) => Dest::Block(i),
            None => Dest::Exit(pc),
        }
    }
}

/// The operations of a block so far.
struct Emitter {
    ops: Vec<Op>,
    map: RegisterMap,
    count: usize,
}

impl View for Emitter {
    type V = EmState;

    closed spec fn view(&self) -> EmState {
        EmState { ops: self.ops@, map: self.map@, count: self.count as nat }
    }
}

impl Emitter {
    spec fn wf(&self) -> bool {
        self.count <= self.ops@.len()
    }

    fn op(&mut self, op: Op)
        requires
            old(self).wf(),
        ensures
            final(self).wf(),
            final(self)@ == em_op(old(self)@, op),
    {
        self.ops.push(op);
    }

    fn def(&mut self, op: Op) -> (r: usize)
        requires
            old(self).wf(),
        ensures
            final(self).wf(),
            final(self)@ == em_def(old(self)@, op),
            r == old(self)@.count,
    {
        self.ops.push(op);
        let len: usize = self.ops.len();
        assert(self.count < len);
        let id: usize = self.count;
        self.count = self.count + 1;
        id
    }

    fn result(&mut self, op: Op, reg: u8)
        requires
            old(self).wf(),
        ensures
            final(self).wf(),
            final(self)@ == em_result(old(self)@, op, reg),
    {
        let id: usize = self.def(op);
        self.map.set(reg as usize, id);
    }

    fn load(&mut self, reg: u8) -> (r: usize)
        requires
            old(self).wf(),
        ensures
            final(self).wf(),
            (final(self)@, r) == em_load(old(self)@, reg),
    {
        match self.map.get(reg as usize) {
            Some(id) => id,
            None => {
                let id: usize = self.def(Op::Load { reg });
                self.map.set(reg as usize, id);
                id
            },
        }
    }

    fn flush(&mut self)
        requires
            old(self).wf(),
            old(self)@.map.len() <= 255,
        ensures
            final(self).wf(),
            final(self)@ == em_flush(old(self)@, old(self)@.map.len()),
            final(self)@.map == old(self)@.map,
    {
        let ghost e0 = self@;
        let mut k: usize = 0;
        while k < self.map.values.len()
            invariant
                k <= self.map.values@.len(),
                self.map.values@ == e0.map,
                e0.map.len() <= 255,
                e0 == old(self)@,
                self.wf(),
                self@ == em_flush(e0, k as nat),
            decreases self.map.values@.len() - k,
        {
            match self.map.values[k] {
                Some(v) => {
                    self.ops.push(Op::Store { reg: k as u8, src: v });
                },
                None => {},
            }
            k += 1;
        }
    }

    fn bin(&mut self, plan: &Plan<'_>, i: Instruction, op: BinOp)
        requires
            old(self).wf(),
            old(self)@.map.len() == plan.registers,
        ensures
            final(self).wf(),
            final(self)@ == em_bin(plan.ctx(), i, op, old(self)@),
    {
        let l: usize = self.load(i.b);
        let r: usize = self.load(i.c);
        match op {
            BinOp::Div | BinOp::Rem => {
                self.flush();
                self.op(Op::TrapIfZero { src: r, pc: plan.trap_pc });
            },
            _ => {},
        }
        self.result(Op::Bin { op, lhs: l, rhs: r }, i.a);
    }

    fn branch(&mut self, plan: &Plan<'_>, pc: u32, i: Instruction)
        requires
            old(self).wf(),
            old(self)@.map.len() == plan.registers,
            pc < u32::MAX,
        ensures
            final(self).wf(),
            final(self)@ == em_branch(plan.ctx(), pc, i, old(self)@),
    {
        let v: usize = self.load(i.a);
        self.flush();
        let falsy: u32 = jump_target(pc, i.imm);
        let fall: u32 = pc + 1;
        self.op(Op::BranchZero { src: v, zero: plan.dest(falsy), other: plan.dest(fall) });
    }

    fn call(&mut self, plan: &Plan<'_>, pc: u32, i: Instruction) -> (r: bool)
        requires
            old(self).wf(),
            old(self)@.map.len() == plan.registers,
            pc < u32::MAX,
        ensures
            final(self).wf(),
            match em_call(plan.ctx(), pc, i, old(self)@) {
                Some(e) => r && final(self)@ == e,
                None => !r,
            },
    {
        match plan.chunk.function(i.imm as u32) {
            None => false,
            Some(def) => {
                self.flush();
                match plan.block_of(def.entry) {
                    None => {
                        self.op(Op::Exit { kind: JIT_CONTINUE, pc, return_reg: 0 });
                    },
                    Some(b) => {
                        self.op(
                            Op::Enter {
                                pc,
                                back: pc + 1,
                                callee: i.imm as u32,
                                dest: i.a,
                                argc: i.b,
                                registers: def.num_registers,
                                block: b,
                            },
                        );
                        self.map.clear();
                    },
                }
                true
            },
        }
    }

    /// Emit one instruction, and say whether it can be compiled.
    fn instruction(&mut self, plan: &Plan<'_>, pc: u32, i: Instruction) -> (r: bool)
        requires
            old(self).wf(),
            old(self)@.map.len() == plan.registers,
            pc < u32::MAX,
        ensures
            final(self).wf(),
            match em_instr(plan.ctx(), pc, i, old(self)@) {
                Some(e) => r && final(self)@ == e,
                None => !r,
            },
    {
        match i.op {
            Opcode::LoadImm => {
                self.result(Op::Const { value: i.imm as i64 }, i.a);
                true
            },
            Opcode::LoadConst => match constant_slot(plan.chunk, i.imm as u32) {
                Some(v) => {
                    self.result(Op::Const { value: v }, i.a);
                    true
                },
                None => false,
            },
            Opcode::Move => {
                let v: usize = self.load(i.b);
                self.map.set(i.a as usize, v);
                true
            },
            Opcode::Neg => {
                let v: usize = self.load(i.b);
                let zero: usize = self.def(Op::Const { value: 0 });
                self.result(Op::Bin { op: BinOp::Sub, lhs: zero, rhs: v }, i.a);
                true
            },
            Opcode::Jump => {
                self.flush();
                self.op(Op::Jump { to: plan.dest(jump_target(pc, i.imm)) });
                true
            },
            Opcode::Branch => {
                self.branch(plan, pc, i);
                true
            },
            Opcode::Return => {
                let v: usize = self.load(i.a);
                self.op(Op::Store { reg: i.a, src: v });
                if plan.calls {
                    self.op(Op::Leave { reg: i.a, pc });
                } else {
                    self.op(Op::Exit { kind: JIT_RETURN, pc, return_reg: i.a as u32 });
                }
                true
            },
            Opcode::Nop => true,
            Opcode::Call => self.call(plan, pc, i),
            _ => match operation(i.op) {
                Some(op) => {
                    self.bin(plan, i, op);
                    true
                },
                None => false,
            },
        }
    }
}

fn operation(op: Opcode) -> (r: Option<BinOp>)
    ensures
        r == bin_op(op),
{
    match op {
        Opcode::Add => Some(BinOp::Add),
        Opcode::Sub => Some(BinOp::Sub),
        Opcode::Mul => Some(BinOp::Mul),
        Opcode::Div => Some(BinOp::Div),
        Opcode::Mod => Some(BinOp::Rem),
        Opcode::Eq => Some(BinOp::Eq),
        Opcode::Lt => Some(BinOp::Lt),
        Opcode::Le => Some(BinOp::Le),
        _ => None,
    }
}

proof fn lemma_flush_keeps_map(e: EmState, k: nat)
    ensures
        em_flush(e, k).map == e.map,
    decreases k,
{
    if k > 0 {
        lemma_flush_keeps_map(e, (k - 1) as nat);
    }
}

proof fn lemma_map_len(c: Ctx, pc: u32, i: Instruction, e: EmState)
    ensures
        em_instr(c, pc, i, e) is Some <==> compilable(c.chunk, i),
        em_instr(c, pc, i, e) matches Some(f) ==> f.map.len() == e.map.len(),
{
    lemma_flush_keeps_map(e, c.n);
    lemma_flush_keeps_map(em_load(e, i.a).0, c.n);
    lemma_flush_keeps_map(em_load(em_load(e, i.b).0, i.c).0, c.n);
}

/// A block that is emitted, or the instruction that cannot be.
fn emit_block(plan: &Plan<'_>, pcs: &Vec<u32>) -> (r: Result<Vec<Op>, u32>)
    requires
        forall|k: int|
            0 <= k < pcs@.len() ==> (#[trigger] pcs@[k]) < plan.chunk.code@.len() && pcs@[k]
                < u32::MAX,
    ensures
        match first_bad(*plan.chunk, pcs@, pcs@.len(), None) {
            Some(pc) => r == Err::<Vec<Op>, u32>(pc) && pc < plan.chunk.code@.len(),
            None => r matches Ok(ops) && (em_steps(plan.ctx(), pcs@, pcs@.len()) matches Some(e)
                && e.ops == ops@ && e.count <= usize::MAX),
        },
{
    let mut em = Emitter {
        ops: Vec::new(),
        map: RegisterMap::new(plan.registers as usize),
        count: 0,
    };
    assert(em@.ops =~= Seq::<Op>::empty());
    let mut k: usize = 0;
    while k < pcs.len()
        invariant
            k <= pcs@.len(),
            forall|k: int|
                0 <= k < pcs@.len() ==> (#[trigger] pcs@[k]) < plan.chunk.code@.len() && pcs@[k]
                    < u32::MAX,
            em.wf(),
            em@.map.len() == plan.registers,
            em_steps(plan.ctx(), pcs@, k as nat) == Some(em@),
            first_bad(*plan.chunk, pcs@, k as nat, None) is None,
        decreases pcs@.len() - k,
    {
        let pc: u32 = pcs[k];
        let instr = plan.chunk.code[pc as usize];
        let ghost e0 = em@;
        em.op(Op::Tick { pc });
        proof {
            lemma_map_len(plan.ctx(), pc, instr, em@);
        }
        if !em.instruction(plan, pc, instr) {
            proof {
                lemma_bad_stays(*plan.chunk, pcs@, (k + 1) as nat, pcs@.len(), None);
            }
            return Err(pc);
        }
        k += 1;
    }
    Ok(em.ops)
}

proof fn lemma_bad_stays(chunk: Chunk, pcs: Seq<u32>, k: nat, n: nat, found: Option<u32>)
    requires
        k <= n,
        first_bad(chunk, pcs, k, found) is Some,
    ensures
        first_bad(chunk, pcs, n, found) == first_bad(chunk, pcs, k, found),
    decreases n - k,
{
    if k < n {
        lemma_bad_stays(chunk, pcs, k, (n - 1) as nat, found);
    }
}

proof fn lemma_bad_block_stays(chunk: Chunk, blocks: Seq<BlockState>, k: nat, n: nat)
    requires
        k <= n,
        first_bad_block(chunk, blocks, k) is Some,
    ensures
        first_bad_block(chunk, blocks, n) == first_bad_block(chunk, blocks, k),
    decreases n - k,
{
    if k < n {
        lemma_bad_block_stays(chunk, blocks, k, (n - 1) as nat);
        let f = first_bad_block(chunk, blocks, (n - 1) as nat);
        lemma_bad_stays(chunk, blocks[n - 1].pcs, 0, blocks[n - 1].pcs.len(), f);
    }
}

/// The code of every block was emitted.
spec fn emitted(c: Ctx, blocks: Seq<BlockState>, code: Seq<Seq<Op>>) -> bool {
    &&& code.len() == blocks.len()
    &&& forall|b: int|
        0 <= b < blocks.len() ==> emitted_block(c, #[trigger] blocks[b], code[b])
}

spec fn emitted_block(c: Ctx, b: BlockState, ops: Seq<Op>) -> bool {
    em_steps(c, b.pcs, b.pcs.len()) matches Some(e) && e.ops == ops && e.count <= usize::MAX
}

proof fn lemma_faithful(c: Ctx, blocks: Seq<BlockState>, code: Seq<Seq<Op>>, b: int, m: Mach)
    requires
        emitted(c, blocks, code),
        c.n <= 255,
        c.starts.len() <= usize::MAX,
    ensures
        code_run(code, b, m) == trace_run(c, blocks, b, m),
    decreases m.budget,
{
    if 0 <= b < blocks.len() {
        let pcs = blocks[b].pcs;
        assert(emitted_block(c, blocks[b], code[b]));
        block_is_faithful(c, pcs, pcs.len(), m);
        match steps(c, pcs, pcs.len(), m) {
            crate::jit::semantics::Out::Left(m1, crate::jit::semantics::Leave::To(j)) => {
                if m1.budget < m.budget {
                    lemma_faithful(c, blocks, code, j, m1);
                }
            },
            _ => {},
        }
    }
}

fn find_open(chunk: &Chunk, blocks: &Vec<TraceBlock>) -> (r: Option<u32>)
    requires
        in_code(*chunk, block_states(blocks@)),
    ensures
        r == first_open(*chunk, block_states(blocks@), blocks@.len()),
{
    let ghost bs = block_states(blocks@);
    let mut b: usize = 0;
    while b < blocks.len()
        invariant
            b <= blocks@.len(),
            bs == block_states(blocks@),
            in_code(*chunk, bs),
            first_open(*chunk, bs, b as nat) is None,
        decreases blocks@.len() - b,
    {
        let pcs: &Vec<u32> = &blocks[b].pcs;
        assert(bs[b as int].pcs == pcs@);
        let mut open: bool = true;
        if pcs.len() > 0 {
            let last: u32 = pcs[pcs.len() - 1];
            assert(bs[b as int].pcs[pcs@.len() - 1] < chunk.code@.len());
            match chunk.code[last as usize].op {
                Opcode::Return | Opcode::Jump | Opcode::Branch | Opcode::Call => {
                    open = false;
                },
                _ => {},
            }
        }
        if open {
            proof {
                lemma_open_stays(*chunk, bs, (b + 1) as nat, bs.len());
            }
            return Some(blocks[b].start_pc);
        }
        b += 1;
    }
    None
}

/// Emitted code pays for its blocks, and is not too long.
proof fn lemma_paid(c: Ctx, blocks: Seq<BlockState>, code: Seq<Seq<Op>>)
    requires
        emitted(c, blocks, code),
        is_bounded(blocks),
        c.n <= 255,
    ensures
        pays(code),
        lowers(code),
{
    assert forall|b: int| 0 <= b < code.len() implies (#[trigger] code[b]).len() > 0
        && code[b][0] is Tick by {
        assert(emitted_block(c, blocks[b], code[b]));
        block_is_paid_for(c, blocks[b].pcs, blocks[b].pcs.len());
    }
    lemma_op_count(c, blocks, code, blocks.len());
}

proof fn lemma_op_count(c: Ctx, blocks: Seq<BlockState>, code: Seq<Seq<Op>>, n: nat)
    requires
        emitted(c, blocks, code),
        is_bounded(blocks),
        c.n <= 255,
        n <= blocks.len(),
    ensures
        op_count(code, n) <= 263 * pc_count(blocks, n),
        n <= pc_count(blocks, n),
    decreases n,
{
    if n > 0 {
        lemma_op_count(c, blocks, code, (n - 1) as nat);
        let pcs = blocks[n - 1].pcs;
        assert(emitted_block(c, blocks[n - 1], code[n - 1]));
        block_is_paid_for(c, pcs, pcs.len());
        assert(pcs.len() * (c.n + 8) <= 263 * pcs.len()) by (nonlinear_arith)
            requires
                c.n <= 255,
        ;
        assert(blocks[n - 1].pcs.len() > 0);
    }
}

proof fn lemma_open_stays(chunk: Chunk, blocks: Seq<BlockState>, k: nat, n: nat)
    requires
        k <= n,
        first_open(chunk, blocks, k) is Some,
    ensures
        first_open(chunk, blocks, n) == first_open(chunk, blocks, k),
    decreases n - k,
{
    if k < n {
        lemma_open_stays(chunk, blocks, k, (n - 1) as nat);
    }
}

/// Compiles traces to operations.
#[derive(Debug, Default)]
pub struct TraceCompiler {}

impl TraceCompiler {
    /// A compiler.
    pub fn new() -> (r: Self) {
        TraceCompiler {  }
    }

    /// Compile the code that is reachable from a place.
    pub fn compile_trace(&mut self, chunk: &Chunk, key: TraceKey) -> (r: Result<
        CompiledTrace,
        CompileError,
    >)
        ensures
            compile_result(*chunk, key, r),
    {
        let def = match chunk.function(key.function) {
            Some(d) => d,
            None => {
                return Err(
                    CompileError::EmptyTrace { function: key.function, pc: key.entry_pc },
                );
            },
        };
        let blocks = collect_trace_region(chunk, key.entry_pc);
        let ghost bs = block_states(blocks@);
        if blocks.len() == 0 {
            return Err(CompileError::EmptyTrace { function: key.function, pc: key.entry_pc });
        }
        proof {
            region_is_in_code(*chunk, key.entry_pc);
        }
        let end: u32 = region_max_pc(&blocks);
        let span = TraceSpan {
            function: key.function,
            range: key.entry_pc..end.saturating_add(1),
        };
        let plan = Plan {
            chunk,
            starts: block_starts(&blocks),
            registers: def.num_registers,
            calls: region_has_call(chunk, &blocks),
            trap_pc: end,
        };
        assert(plan.ctx() == trace_ctx(*chunk, key, def.num_registers));
        let ghost c = plan.ctx();
        let mut code: Vec<CodeBlock> = Vec::new();
        let mut b: usize = 0;
        while b < blocks.len()
            invariant
                b <= blocks@.len(),
                bs == block_states(blocks@),
                bs == region_of(*chunk, key.entry_pc),
                bs.len() > 0,
                element(chunk.functions@, key.function as nat) is Some,
                in_code(*chunk, bs),
                plan.chunk == chunk,
                c == plan.ctx(),
                code@.len() == b,
                first_bad_block(*chunk, bs, b as nat) is None,
                forall|j: int|
                    0 <= j < b ==> emitted_block(c, #[trigger] bs[j], code@[j].ops@),
            decreases blocks@.len() - b,
        {
            assert(bs[b as int].pcs == blocks@[b as int].pcs@);
            assert forall|k: int| 0 <= k < blocks@[b as int].pcs@.len() implies (
            #[trigger] blocks@[b as int].pcs@[k]) < chunk.code@.len() && blocks@[b as int].pcs@[k]
                < u32::MAX by {
                assert(bs[b as int].pcs[k] < chunk.code@.len());
            }
            match emit_block(&plan, &blocks[b].pcs) {
                Err(pc) => {
                    proof {
                        lemma_bad_block_stays(*chunk, bs, (b + 1) as nat, bs.len());
                    }
                    return Err(
                        CompileError::UnsupportedOpcode { opcode: chunk.code[pc as usize].op, pc },
                    );
                },
                Ok(ops) => {
                    let ghost before = code@;
                    code.push(CodeBlock { ops });
                    assert forall|j: int| 0 <= j < b + 1 implies emitted_block(
                        c,
                        #[trigger] bs[j],
                        code@[j].ops@,
                    ) by {
                        if j < b {
                            assert(code@[j] == before[j]);
                        }
                    }
                },
            }
            b += 1;
        }
        if let Some(pc) = find_open(chunk, &blocks) {
            return Err(open_block(pc));
        }
        let code = TraceCode { blocks: code };
        proof {
            let states = code_states(code.blocks@);
            assert(emitted(c, bs, states));
            assert(c.starts.len() == plan.starts.len());
            assert forall|m: Mach| #[trigger] code_run(states, 0, m) == trace_run(c, bs, 0, m) by {
                lemma_faithful(c, bs, states, 0, m);
            }
            region_is_bounded(*chunk, key.entry_pc);
            lemma_paid(c, bs, states);
        }
        Ok(CompiledTrace { span, entry: Arc::new(code) })
    }
}

fn block_starts(blocks: &Vec<TraceBlock>) -> (r: Vec<u32>)
    ensures
        r@ == starts_of(block_states(blocks@)),
{
    let mut starts: Vec<u32> = Vec::new();
    let mut b: usize = 0;
    while b < blocks.len()
        invariant
            b <= blocks@.len(),
            starts@.len() == b,
            forall|j: int| 0 <= j < b ==> starts@[j] == blocks@[j].start_pc,
        decreases blocks@.len() - b,
    {
        starts.push(blocks[b].start_pc);
        b += 1;
    }
    assert(starts@ =~= starts_of(block_states(blocks@)));
    starts
}

} // verus!
