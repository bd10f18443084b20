//! From instructions to operations.

use vstd::prelude::*;

use crate::bytecode::chunk::element;
use crate::bytecode::instruction::Instruction;
use crate::bytecode::opcode::Opcode;
use crate::jit::code::{
    last_operation_runs_last, leave_of, op_run, ops_run, Dest, Op, OpOut, OpState,
};
use crate::jit::exit::{JIT_CONTINUE, JIT_RETURN};
use crate::jit::region::{jump_pc, scalar_constant};
use crate::jit::semantics::{
    bin_op, bin_run, block_index, branch_run, cached, call_run, dest_of, flushed, instr_run, loaded,
    mem_get, reg_value, return_run, scalar, stepped, ticked, written_back, BinOp, Ctx, Leave, Mach,
    Out, Run,
};

verus! {

/// Which value a register holds, for the registers that are cached.
#[derive(Debug)]
pub struct RegisterMap {
    pub values: Vec<Option<usize>>,
}

impl View for RegisterMap {
    type V = Seq<Option<usize>>;

    open spec fn view(&self) -> Seq<Option<usize>> {
        self.values@
    }
}

/// The value of a register.
pub open spec fn mapped(map: Seq<Option<usize>>, reg: int) -> Option<usize> {
    if 0 <= reg < map.len() {
        map[reg]
    } else {
        None
    }
}

/// The register holds a value.
pub open spec fn map_set(map: Seq<Option<usize>>, reg: int, id: usize) -> Seq<Option<usize>> {
    if 0 <= reg < map.len() {
        map.update(reg, Some(id))
    } else {
        map
    }
}

/// No register is cached.
pub open spec fn map_clear(n: nat) -> Seq<Option<usize>> {
    Seq::new(n, |i: int| None)
}

impl RegisterMap {
    /// A map for this many registers.
    pub fn new(registers: usize) -> (r: Self)
        ensures
            r@ == map_clear(registers as nat),
    {
        let mut values: Vec<Option<usize>> = Vec::new();
        let mut i: usize = 0;
        while i < registers
            invariant
                i <= registers,
                values@ == map_clear(i as nat),
            decreases registers - i,
        {
            values.push(None);
            i += 1;
            assert(values@ =~= map_clear(i as nat));
        }
        RegisterMap { values }
    }

    /// The value of a register.
    pub fn get(&self, reg: usize) -> (r: Option<usize>)
        ensures
            r == mapped(self@, reg as int),
    {
        if reg < self.values.len() {
            self.values[reg]
        } else {
            None
        }
    }

    /// Let a register hold a value.
    pub fn set(&mut self, reg: usize, id: usize)
        ensures
            final(self)@ == map_set(old(self)@, reg as int, id),
    {
        if reg < self.values.len() {
            self.values[reg] = Some(id);
        }
    }

    /// Forget every register.
    pub fn clear(&mut self)
        ensures
            final(self)@ == map_clear(old(self)@.len()),
    {
        let mut i: usize = 0;
        while i < self.values.len()
            invariant
                i <= self.values@.len(),
                self.values@.len() == old(self).values@.len(),
                forall|j: int| 0 <= j < i ==> self.values@[j] is None,
            decreases self.values@.len() - i,
        {
            self.values[i] = None;
            i += 1;
        }
        assert(self@ =~= map_clear(old(self)@.len()));
    }
}

/// Model of an [`Emitter`].
#[verifier::ext_equal]
pub ghost struct EmState {
    pub ops: Seq<Op>,
    pub map: Seq<Option<usize>>,
    /// How many values are defined.
    pub count: nat,
}

/// An operation that defines nothing.
pub open spec fn em_op(e: EmState, op: Op) -> EmState {
    EmState { ops: e.ops.push(op), ..e }
}

/// An operation that defines a value.
pub open spec fn em_def(e: EmState, op: Op) -> EmState {
    EmState { ops: e.ops.push(op), count: e.count + 1, ..e }
}

/// The register holds the value.
pub open spec fn em_set(e: EmState, reg: u8, id: usize) -> EmState {
    EmState { map: map_set(e.map, reg as int, id), ..e }
}

/// An operation whose value goes to a register.
pub open spec fn em_result(e: EmState, op: Op, reg: u8) -> EmState {
    em_set(em_def(e, op), reg, e.count as usize)
}

/// The value of a register, loaded if it is not cached.
pub open spec fn em_load(e: EmState, reg: u8) -> (EmState, usize) {
    match mapped(e.map, reg as int) {
        Some(v) => (e, v),
        None => (em_result(e, Op::Load { reg }, reg), e.count as usize),
    }
}

/// The cached registers below `k` are stored.
pub open spec fn em_flush(e: EmState, k: nat) -> EmState
    decreases k,
{
    if k == 0 {
        e
    } else {
        let f = em_flush(e, (k - 1) as nat);
        match e.map[k - 1] {
            Some(v) => em_op(f, Op::Store { reg: (k - 1) as u8, src: v }),
            None => f,
        }
    }
}

/// Where a jump to `pc` leads.
pub open spec fn dest_op(c: Ctx, pc: u32) -> Dest {
    match block_index(c.starts, pc, 0) {
        Some(i) => Dest::Block(i as usize),
        None => Dest::Exit(pc),
    }
}

/// An operation from registers to a register.
pub open spec fn em_bin(c: Ctx, i: Instruction, op: BinOp, e: EmState) -> EmState {
    let (e1, l) = em_load(e, i.b);
    let (e2, r) = em_load(e1, i.c);
    if op is Div || op is Rem {
        let e3 = em_op(em_flush(e2, c.n), Op::TrapIfZero { src: r, pc: c.trap_pc });
        em_result(e3, Op::Bin { op, lhs: l, rhs: r }, i.a)
    } else {
        em_result(e2, Op::Bin { op, lhs: l, rhs: r }, i.a)
    }
}

/// A negation.
pub open spec fn em_neg(i: Instruction, e: EmState) -> EmState {
    let (e1, v) = em_load(e, i.b);
    let e2 = em_def(e1, Op::Const { value: 0 });
    em_result(e2, Op::Bin { op: BinOp::Sub, lhs: e1.count as usize, rhs: v }, i.a)
}

/// A branch.
pub open spec fn em_branch(c: Ctx, pc: u32, i: Instruction, e: EmState) -> EmState {
    let (e1, v) = em_load(e, i.a);
    let e2 = em_flush(e1, c.n);
    let fall = (pc + 1) as u32;
    let falsy = jump_pc(pc, i.imm);
    em_op(e2, Op::BranchZero { src: v, zero: dest_op(c, falsy), other: dest_op(c, fall) })
}

/// A return.
pub open spec fn em_return(c: Ctx, pc: u32, i: Instruction, e: EmState) -> EmState {
    let (e1, v) = em_load(e, i.a);
    let e2 = em_op(e1, Op::Store { reg: i.a, src: v });
    if c.calls {
        em_op(e2, Op::Leave { reg: i.a, pc })
    } else {
        em_op(e2, Op::Exit { kind: JIT_RETURN, pc, return_reg: i.a as u32 })
    }
}

/// A call.
pub open spec fn em_call(c: Ctx, pc: u32, i: Instruction, e: EmState) -> Option<EmState> {
    match element(c.chunk.functions@, i.imm as u32 as nat) {
        None => None,
        Some(def) => {
            let e1 = em_flush(e, c.n);
            match block_index(c.starts, def.entry, 0) {
                None => Some(em_op(e1, Op::Exit { kind: JIT_CONTINUE, pc, return_reg: 0 })),
                Some(b) => Some(
                    EmState {
                        map: map_clear(e1.map.len()),
                        ..em_op(
                            e1,
                            Op::Enter {
                                pc,
                                back: (pc + 1) as u32,
                                callee: i.imm as u32,
                                dest: i.a,
                                argc: i.b,
                                registers: def.num_registers,
                                block: b as usize,
                            },
                        )
                    },
                ),
            }
        },
    }
}

/// One instruction; none if it cannot be compiled.
pub open spec fn em_instr(c: Ctx, pc: u32, i: Instruction, e: EmState) -> Option<EmState> {
    match i.op {
        Opcode::LoadImm => Some(em_result(e, Op::Const { value: i.imm as i64 }, i.a)),
        Opcode::LoadConst => match scalar_constant(c.chunk, i.imm as u32) {
            Some(v) => Some(em_result(e, Op::Const { value: v }, i.a)),
            None => None,
        },
        Opcode::Move => {
            let (e1, v) = em_load(e, i.b);
            Some(em_set(e1, i.a, v))
        },
        Opcode::Neg => Some(em_neg(i, e)),
        Opcode::Jump => Some(
            em_op(em_flush(e, c.n), Op::Jump { to: dest_op(c, jump_pc(pc, i.imm)) }),
        ),
        Opcode::Branch => Some(em_branch(c, pc, i, e)),
        Opcode::Return => Some(em_return(c, pc, i, e)),
        Opcode::Nop => Some(e),
        Opcode::Call => em_call(c, pc, i, e),
        _ => match bin_op(i.op) {
            Some(op) => Some(em_bin(c, i, op, e)),
            None => None,
        },
    }
}

/// One instruction with its tick.
pub open spec fn em_step(c: Ctx, pc: u32, e: EmState) -> Option<EmState> {
    em_instr(c, pc, c.chunk.code@[pc as int], em_op(e, Op::Tick { pc }))
}

/// The first `k` instructions of a block.
pub open spec fn em_steps(c: Ctx, pcs: Seq<u32>, k: nat) -> Option<EmState>
    decreases k,
{
    if k == 0 {
        Some(EmState { ops: Seq::empty(), map: map_clear(c.n), count: 0 })
    } else {
        match em_steps(c, pcs, (k - 1) as nat) {
            None => None,
            Some(e) => em_step(c, pcs[k - 1], e),
        }
    }
}

/// The cache holds what the map says.
pub open spec fn cache_matches(
    map: Seq<Option<usize>>,
    env: Seq<i64>,
    cache: Map<int, i64>,
) -> bool {
    &&& forall|r: int|
        0 <= r < map.len() ==> match #[trigger] map[r] {
            Some(v) => v < env.len() && cache.contains_key(r) && cache[r] == env[v as int],
            None => !cache.contains_key(r),
        }
    &&& forall|r: int| cache.contains_key(r) ==> 0 <= r < map.len()
}

/// The operations so far do what the instructions so far do.
pub open spec fn simulates(e: EmState, n: nat, m: Mach, o: Out) -> bool {
    match (ops_run(e.ops, m), o) {
        (OpOut::Going(s), Out::Going(r)) => {
            &&& s.m == r.m
            &&& s.env.len() == e.count
            &&& e.map.len() == n
            &&& cache_matches(e.map, s.env, r.cache)
        },
        (OpOut::Left(m1, l1), Out::Left(m2, l2)) => m1 == m2 && l1 == l2,
        _ => false,
    }
}

/// The value has this number.
pub open spec fn has_value(e: EmState, m: Mach, id: usize, v: i64) -> bool {
    ops_run(e.ops, m) matches OpOut::Going(s) ==> id < s.env.len() && s.env[id as int] == v
}

proof fn lemma_result(e: EmState, n: nat, m: Mach, r: Run, op: Op, reg: u8, v: i64)
    requires
        simulates(e, n, m, Out::Going(r)),
        e.count < usize::MAX,
        ops_run(e.ops, m) matches OpOut::Going(s) && op_run(op, s) == OpOut::Going(
            OpState { env: s.env.push(v), ..s },
        ),
    ensures
        simulates(em_result(e, op, reg), n, m, Out::Going(cached(r, n, reg, v))),
        has_value(em_result(e, op, reg), m, e.count as usize, v),
        forall|id: usize, w: i64|
            has_value(e, m, id, w) ==> #[trigger] has_value(em_result(e, op, reg), m, id, w),
{
    last_operation_runs_last(e.ops, op, m);
    let s = ops_run(e.ops, m)->Going_0;
    let e2 = em_result(e, op, reg);
    let r2 = cached(r, n, reg, v);
    let env2 = s.env.push(v);
    assert forall|x: int| 0 <= x < e2.map.len() implies match #[trigger] e2.map[x] {
        Some(w) => w < env2.len() && r2.cache.contains_key(x) && r2.cache[x] == env2[w as int],
        None => !r2.cache.contains_key(x),
    } by {
        if x != reg {
            assert(e2.map[x] == e.map[x]);
        }
    }
    assert forall|x: int| r2.cache.contains_key(x) implies 0 <= x < e2.map.len() by {
        if x != reg {
            assert(r.cache.contains_key(x));
        }
    }
}

proof fn lemma_load(e: EmState, n: nat, m: Mach, r: Run, reg: u8)
    requires
        simulates(e, n, m, Out::Going(r)),
        em_load(e, reg).0.count <= usize::MAX,
    ensures
        simulates(em_load(e, reg).0, n, m, Out::Going(loaded(r, n, reg))),
        has_value(em_load(e, reg).0, m, em_load(e, reg).1, reg_value(r, reg)),
        forall|id: usize, w: i64|
            has_value(e, m, id, w) ==> #[trigger] has_value(em_load(e, reg).0, m, id, w),
{
    match mapped(e.map, reg as int) {
        Some(v) => {
            assert(e.map[reg as int] == Some(v));
            assert(loaded(r, n, reg).cache =~= r.cache);
        },
        None => {
            if r.cache.contains_key(reg as int) {
                assert(e.map[reg as int] is None);
            }
            lemma_result(e, n, m, r, Op::Load { reg }, reg, mem_get(r.m.mem, reg as int));
        },
    }
}

proof fn lemma_flush(e: EmState, n: nat, m: Mach, r: Run, k: nat)
    requires
        simulates(e, n, m, Out::Going(r)),
        k <= n <= 255,
    ensures
        em_flush(e, k).map == e.map,
        em_flush(e, k).count == e.count,
        ops_run(e.ops, m) matches OpOut::Going(s) && ops_run(em_flush(e, k).ops, m)
            == OpOut::Going(
            OpState { m: Mach { mem: written_back(r.m.mem, r.cache, k), ..s.m }, ..s },
        ),
    decreases k,
{
    if k > 0 {
        lemma_flush(e, n, m, r, (k - 1) as nat);
        let f = em_flush(e, (k - 1) as nat);
        assert(e.map[k - 1] == e.map[k - 1]);
        match e.map[k - 1] {
            Some(v) => {
                last_operation_runs_last(f.ops, Op::Store { reg: (k - 1) as u8, src: v }, m);
            },
            None => {},
        }
    }
}

proof fn lemma_flush_all(e: EmState, n: nat, m: Mach, r: Run)
    requires
        simulates(e, n, m, Out::Going(r)),
        n <= 255,
    ensures
        simulates(em_flush(e, n), n, m, Out::Going(flushed(r, n))),
        em_flush(e, n).count == e.count,
        forall|id: usize, w: i64|
            has_value(e, m, id, w) ==> #[trigger] has_value(em_flush(e, n), m, id, w),
{
    lemma_flush(e, n, m, r, n);
}

proof fn lemma_dest(c: Ctx, pc: u32)
    requires
        c.starts.len() <= usize::MAX,
    ensures
        leave_of(dest_op(c, pc)) == dest_of(c, pc),
{
    lemma_index_bound(c.starts, pc, 0);
}

proof fn lemma_index_bound(starts: Seq<u32>, pc: u32, from: nat)
    ensures
        block_index(starts, pc, from) matches Some(i) ==> i < starts.len(),
    decreases starts.len() - from,
{
    if from < starts.len() && starts[from as int] != pc {
        lemma_index_bound(starts, pc, from + 1);
    }
}

proof fn lemma_bin(c: Ctx, i: Instruction, op: BinOp, e: EmState, m: Mach, r: Run)
    requires
        simulates(e, c.n, m, Out::Going(r)),
        c.n <= 255,
        em_bin(c, i, op, e).count <= usize::MAX,
    ensures
        simulates(em_bin(c, i, op, e), c.n, m, bin_run(c, i, op, r)),
{
    let (e1, l) = em_load(e, i.b);
    let (e2, q) = em_load(e1, i.c);
    lemma_counts_flush(e2, c.n);
    lemma_load(e, c.n, m, r, i.b);
    let a = reg_value(r, i.b);
    let r1 = loaded(r, c.n, i.b);
    lemma_load(e1, c.n, m, r1, i.c);
    let b = reg_value(r1, i.c);
    let r2 = loaded(r1, c.n, i.c);
    assert(has_value(e2, m, l, a));
    assert(has_value(e2, m, q, b));
    if op is Div || op is Rem {
        lemma_flush_all(e2, c.n, m, r2);
        let f = em_flush(e2, c.n);
        let r3 = flushed(r2, c.n);
        assert(has_value(f, m, l, a));
        assert(has_value(f, m, q, b));
        let t = Op::TrapIfZero { src: q, pc: c.trap_pc };
        last_operation_runs_last(f.ops, t, m);
        let e3 = em_op(f, t);
        let bop = Op::Bin { op, lhs: l, rhs: q };
        if b == 0 {
            last_operation_runs_last(e3.ops, bop, m);
        } else {
            assert(simulates(e3, c.n, m, Out::Going(r3)));
            lemma_result(e3, c.n, m, r3, bop, i.a, scalar(op, a, b));
        }
    } else {
        lemma_result(e2, c.n, m, r2, Op::Bin { op, lhs: l, rhs: q }, i.a, scalar(op, a, b));
    }
}

proof fn lemma_counts_flush(e: EmState, k: nat)
    ensures
        em_flush(e, k).count == e.count,
        em_flush(e, k).map == e.map,
    decreases k,
{
    if k > 0 {
        lemma_counts_flush(e, (k - 1) as nat);
    }
}

proof fn lemma_neg(c: Ctx, i: Instruction, e: EmState, m: Mach, r: Run)
    requires
        simulates(e, c.n, m, Out::Going(r)),
        em_neg(i, e).count <= usize::MAX,
    ensures
        simulates(
            em_neg(i, e),
            c.n,
            m,
            Out::Going(
                cached(
                    loaded(r, c.n, i.b),
                    c.n,
                    i.a,
                    scalar(BinOp::Sub, 0, reg_value(r, i.b)),
                ),
            ),
        ),
{
    let (e1, v) = em_load(e, i.b);
    lemma_load(e, c.n, m, r, i.b);
    let r1 = loaded(r, c.n, i.b);
    let x = reg_value(r, i.b);
    let k = Op::Const { value: 0 };
    last_operation_runs_last(e1.ops, k, m);
    let e2 = em_def(e1, k);
    let s1 = ops_run(e1.ops, m)->Going_0;
    let env2 = s1.env.push(0);
    assert forall|y: int| 0 <= y < e2.map.len() implies match #[trigger] e2.map[y] {
        Some(w) => w < env2.len() && r1.cache.contains_key(y) && r1.cache[y] == env2[w as int],
        None => !r1.cache.contains_key(y),
    } by {
        assert(e2.map[y] == e1.map[y]);
    }
    assert(simulates(e2, c.n, m, Out::Going(r1)));
    lemma_result(
        e2,
        c.n,
        m,
        r1,
        Op::Bin { op: BinOp::Sub, lhs: e1.count as usize, rhs: v },
        i.a,
        scalar(BinOp::Sub, 0, x),
    );
}

proof fn lemma_branch(c: Ctx, pc: u32, i: Instruction, e: EmState, m: Mach, r: Run)
    requires
        simulates(e, c.n, m, Out::Going(r)),
        c.n <= 255,
        c.starts.len() <= usize::MAX,
        em_branch(c, pc, i, e).count <= usize::MAX,
    ensures
        simulates(em_branch(c, pc, i, e), c.n, m, branch_run(c, pc, i, r)),
{
    let (e1, v) = em_load(e, i.a);
    lemma_counts_flush(e1, c.n);
    lemma_load(e, c.n, m, r, i.a);
    let r1 = loaded(r, c.n, i.a);
    lemma_flush_all(e1, c.n, m, r1);
    let e2 = em_flush(e1, c.n);
    assert(has_value(e2, m, v, reg_value(r, i.a)));
    let fall = (pc + 1) as u32;
    let falsy = jump_pc(pc, i.imm);
    lemma_dest(c, fall);
    lemma_dest(c, falsy);
    last_operation_runs_last(
        e2.ops,
        Op::BranchZero { src: v, zero: dest_op(c, falsy), other: dest_op(c, fall) },
        m,
    );
}

proof fn lemma_return(c: Ctx, pc: u32, i: Instruction, e: EmState, m: Mach, r: Run)
    requires
        simulates(e, c.n, m, Out::Going(r)),
        em_return(c, pc, i, e).count <= usize::MAX,
    ensures
        simulates(em_return(c, pc, i, e), c.n, m, return_run(c, pc, i, r)),
{
    let (e1, v) = em_load(e, i.a);
    lemma_load(e, c.n, m, r, i.a);
    assert(has_value(e1, m, v, reg_value(r, i.a)));
    let st = Op::Store { reg: i.a, src: v };
    last_operation_runs_last(e1.ops, st, m);
    let e2 = em_op(e1, st);
    last_operation_runs_last(e2.ops, Op::Leave { reg: i.a, pc }, m);
    last_operation_runs_last(
        e2.ops,
        Op::Exit { kind: JIT_RETURN, pc, return_reg: i.a as u32 },
        m,
    );
}

proof fn lemma_call(c: Ctx, pc: u32, i: Instruction, e: EmState, m: Mach, r: Run)
    requires
        simulates(e, c.n, m, Out::Going(r)),
        c.n <= 255,
        c.starts.len() <= usize::MAX,
        em_call(c, pc, i, e) is Some,
    ensures
        call_run(c, pc, i, r) matches Some(o) && simulates(
            em_call(c, pc, i, e)->Some_0,
            c.n,
            m,
            o,
        ),
{
    let def = element(c.chunk.functions@, i.imm as u32 as nat)->Some_0;
    lemma_flush_all(e, c.n, m, r);
    let e1 = em_flush(e, c.n);
    lemma_index_bound(c.starts, def.entry, 0);
    last_operation_runs_last(e1.ops, Op::Exit { kind: JIT_CONTINUE, pc, return_reg: 0 }, m);
    match block_index(c.starts, def.entry, 0) {
        None => {},
        Some(b) => {
            last_operation_runs_last(
                e1.ops,
                Op::Enter {
                    pc,
                    back: (pc + 1) as u32,
                    callee: i.imm as u32,
                    dest: i.a,
                    argc: i.b,
                    registers: def.num_registers,
                    block: b as usize,
                },
                m,
            );
        },
    }
}

proof fn lemma_instr(c: Ctx, pc: u32, i: Instruction, e: EmState, m: Mach, r: Run)
    requires
        simulates(e, c.n, m, Out::Going(r)),
        c.n <= 255,
        c.starts.len() <= usize::MAX,
        em_instr(c, pc, i, e) matches Some(f) && f.count <= usize::MAX,
    ensures
        instr_run(c, pc, i, r) matches Some(o) && simulates(
            em_instr(c, pc, i, e)->Some_0,
            c.n,
            m,
            o,
        ),
{
    match i.op {
        Opcode::LoadImm => {
            lemma_result(e, c.n, m, r, Op::Const { value: i.imm as i64 }, i.a, i.imm as i64);
        },
        Opcode::LoadConst => {
            let v = scalar_constant(c.chunk, i.imm as u32)->Some_0;
            lemma_result(e, c.n, m, r, Op::Const { value: v }, i.a, v);
        },
        Opcode::Move => {
            lemma_move(c, i, e, m, r);
        },
        Opcode::Neg => {
            lemma_neg(c, i, e, m, r);
        },
        Opcode::Jump => {
            lemma_flush_all(e, c.n, m, r);
            lemma_dest(c, jump_pc(pc, i.imm));
            last_operation_runs_last(
                em_flush(e, c.n).ops,
                Op::Jump { to: dest_op(c, jump_pc(pc, i.imm)) },
                m,
            );
        },
        Opcode::Branch => {
            lemma_branch(c, pc, i, e, m, r);
        },
        Opcode::Return => {
            lemma_return(c, pc, i, e, m, r);
        },
        Opcode::Nop => {},
        Opcode::Call => {
            lemma_call(c, pc, i, e, m, r);
        },
        _ => {
            lemma_bin(c, i, bin_op(i.op)->Some_0, e, m, r);
        },
    }
}

proof fn lemma_move(c: Ctx, i: Instruction, e: EmState, m: Mach, r: Run)
    requires
        simulates(e, c.n, m, Out::Going(r)),
        em_load(e, i.b).0.count <= usize::MAX,
    ensures
        simulates(
            em_set(em_load(e, i.b).0, i.a, em_load(e, i.b).1),
            c.n,
            m,
            Out::Going(cached(loaded(r, c.n, i.b), c.n, i.a, reg_value(r, i.b))),
        ),
{
    lemma_load(e, c.n, m, r, i.b);
    let (e1, v) = em_load(e, i.b);
    let r1 = loaded(r, c.n, i.b);
    let x = reg_value(r, i.b);
    let e2 = em_set(e1, i.a, v);
    let r2 = cached(r1, c.n, i.a, x);
    let s = ops_run(e1.ops, m)->Going_0;
    assert(has_value(e1, m, v, x));
    assert forall|y: int| 0 <= y < e2.map.len() implies match #[trigger] e2.map[y] {
        Some(w) => w < s.env.len() && r2.cache.contains_key(y) && r2.cache[y] == s.env[w as int],
        None => !r2.cache.contains_key(y),
    } by {
        if y != i.a {
            assert(e2.map[y] == e1.map[y]);
        }
    }
    assert forall|y: int| r2.cache.contains_key(y) implies 0 <= y < e2.map.len() by {
        if y != i.a {
            assert(r1.cache.contains_key(y));
        }
    }
}

/// The operations that `more` adds to `e` do nothing where the block was left.
pub open spec fn extends(e: EmState, more: EmState) -> bool {
    &&& e.ops.len() <= more.ops.len()
    &&& more.ops.take(e.ops.len() as int) == e.ops
    &&& e.count <= more.count
    &&& e.map.len() == more.map.len()
}

proof fn lemma_extends_op(e: EmState, f: EmState, op: Op)
    requires
        extends(e, f),
    ensures
        extends(e, em_op(f, op)),
        extends(e, em_def(f, op)),
{
    assert(f.ops.push(op).take(e.ops.len() as int) =~= f.ops.take(e.ops.len() as int));
}

proof fn lemma_extends_load(e: EmState, f: EmState, reg: u8)
    requires
        extends(e, f),
    ensures
        extends(e, em_load(f, reg).0),
{
    lemma_extends_op(e, f, Op::Load { reg });
}

proof fn lemma_extends_flush(e: EmState, f: EmState, k: nat)
    requires
        extends(e, f),
    ensures
        extends(e, em_flush(f, k)),
    decreases k,
{
    if k > 0 {
        lemma_extends_flush(e, f, (k - 1) as nat);
        if let Some(v) = f.map[k - 1] {
            lemma_extends_op(
                e,
                em_flush(f, (k - 1) as nat),
                Op::Store { reg: (k - 1) as u8, src: v },
            );
        }
    }
}

proof fn lemma_extends_instr(c: Ctx, pc: u32, i: Instruction, e: EmState)
    requires
        em_instr(c, pc, i, e) is Some,
    ensures
        extends(e, em_instr(c, pc, i, e)->Some_0),
{
    assert(e.ops.take(e.ops.len() as int) =~= e.ops);
    assert(extends(e, e));
    match i.op {
        Opcode::LoadImm => {
            lemma_extends_op(e, e, Op::Const { value: i.imm as i64 });
        },
        Opcode::LoadConst => {
            lemma_extends_op(
                e,
                e,
                Op::Const { value: scalar_constant(c.chunk, i.imm as u32)->Some_0 },
            );
        },
        Opcode::Move => {
            lemma_extends_load(e, e, i.b);
        },
        Opcode::Neg => {
            lemma_extends_load(e, e, i.b);
            let (e1, v) = em_load(e, i.b);
            lemma_extends_op(e, e1, Op::Const { value: 0 });
            lemma_extends_op(
                e,
                em_def(e1, Op::Const { value: 0 }),
                Op::Bin { op: BinOp::Sub, lhs: e1.count as usize, rhs: v },
            );
        },
        Opcode::Jump => {
            lemma_extends_flush(e, e, c.n);
            lemma_extends_op(
                e,
                em_flush(e, c.n),
                Op::Jump { to: dest_op(c, jump_pc(pc, i.imm)) },
            );
        },
        Opcode::Branch => {
            lemma_extends_load(e, e, i.a);
            let (e1, v) = em_load(e, i.a);
            lemma_extends_flush(e, e1, c.n);
            let e2 = em_flush(e1, c.n);
            let fall = (pc + 1) as u32;
            let falsy = jump_pc(pc, i.imm);
            lemma_extends_op(
                e,
                e2,
                Op::BranchZero { src: v, zero: dest_op(c, falsy), other: dest_op(c, fall) },
            );
        },
        Opcode::Return => {
            lemma_extends_load(e, e, i.a);
            let (e1, v) = em_load(e, i.a);
            let st = Op::Store { reg: i.a, src: v };
            lemma_extends_op(e, e1, st);
            let e2 = em_op(e1, st);
            lemma_extends_op(e, e2, Op::Leave { reg: i.a, pc });
            lemma_extends_op(
                e,
                e2,
                Op::Exit { kind: JIT_RETURN, pc, return_reg: i.a as u32 },
            );
        },
        Opcode::Nop => {},
        Opcode::Call => {
            lemma_extends_flush(e, e, c.n);
            let e1 = em_flush(e, c.n);
            let def = element(c.chunk.functions@, i.imm as u32 as nat)->Some_0;
            lemma_extends_op(e, e1, Op::Exit { kind: JIT_CONTINUE, pc, return_reg: 0 });
            if let Some(b) = block_index(c.starts, def.entry, 0) {
                lemma_extends_op(
                    e,
                    e1,
                    Op::Enter {
                        pc,
                        back: (pc + 1) as u32,
                        callee: i.imm as u32,
                        dest: i.a,
                        argc: i.b,
                        registers: def.num_registers,
                        block: b as usize,
                    },
                );
            }
        },
        _ => {
            let op = bin_op(i.op)->Some_0;
            lemma_extends_load(e, e, i.b);
            let (e1, l) = em_load(e, i.b);
            lemma_extends_load(e, e1, i.c);
            let (e2, q) = em_load(e1, i.c);
            let bop = Op::Bin { op, lhs: l, rhs: q };
            lemma_extends_op(e, e2, bop);
            lemma_extends_flush(e, e2, c.n);
            let t = Op::TrapIfZero { src: q, pc: c.trap_pc };
            lemma_extends_op(e, em_flush(e2, c.n), t);
            lemma_extends_op(e, em_op(em_flush(e2, c.n), t), bop);
        },
    }
}

proof fn lemma_step(c: Ctx, pc: u32, e: EmState, m: Mach, o: Out)
    requires
        simulates(e, c.n, m, o),
        c.n <= 255,
        c.starts.len() <= usize::MAX,
        em_step(c, pc, e) matches Some(f) && f.count <= usize::MAX,
    ensures
        simulates(em_step(c, pc, e)->Some_0, c.n, m, stepped(c, pc, o)),
{
    let i = c.chunk.code@[pc as int];
    let t = Op::Tick { pc };
    last_operation_runs_last(e.ops, t, m);
    let e1 = em_op(e, t);
    lemma_extends_instr(c, pc, i, e1);
    let f = em_step(c, pc, e)->Some_0;
    match ops_run(e1.ops, m) {
        OpOut::Left(..) => {
            crate::jit::code::left_block_stays_left(f.ops, e1.ops.len(), m);
        },
        OpOut::Going(_) => {
            let r = o->Going_0;
            let r1 = ticked(r, pc)->Going_0;
            assert(simulates(e1, c.n, m, Out::Going(r1)));
            lemma_instr(c, pc, i, e1, m, r1);
        },
    }
}

proof fn lemma_count_grows(c: Ctx, pc: u32, e: EmState)
    ensures
        em_step(c, pc, e) matches Some(f) ==> e.count <= f.count,
{
    if em_step(c, pc, e) is Some {
        lemma_extends_instr(c, pc, c.chunk.code@[pc as int], em_op(e, Op::Tick { pc }));
    }
}

/// The operations of a block do what its instructions do.
pub proof fn block_is_faithful(c: Ctx, pcs: Seq<u32>, k: nat, m: Mach)
    requires
        c.n <= 255,
        c.starts.len() <= usize::MAX,
        em_steps(c, pcs, k) matches Some(e) && e.count <= usize::MAX,
    ensures
        simulates(
            em_steps(c, pcs, k)->Some_0,
            c.n,
            m,
            crate::jit::semantics::steps(c, pcs, k, m),
        ),
    decreases k,
{
    if k > 0 {
        let e = em_steps(c, pcs, (k - 1) as nat)->Some_0;
        lemma_count_grows(c, pcs[k - 1], e);
        block_is_faithful(c, pcs, (k - 1) as nat, m);
        lemma_step(c, pcs[k - 1], e, m, crate::jit::semantics::steps(c, pcs, (k - 1) as nat, m));
    }
}

proof fn lemma_flush_size(e: EmState, k: nat)
    ensures
        em_flush(e, k).ops.len() <= e.ops.len() + k,
    decreases k,
{
    if k > 0 {
        lemma_flush_size(e, (k - 1) as nat);
    }
}

proof fn lemma_step_size(c: Ctx, pc: u32, e: EmState)
    ensures
        em_step(c, pc, e) matches Some(f) ==> f.ops.len() <= e.ops.len() + c.n + 8,
{
    let i = c.chunk.code@[pc as int];
    let e0 = em_op(e, Op::Tick { pc });
    let (b1, _) = em_load(e0, i.b);
    let (b2, _) = em_load(b1, i.c);
    let (a1, _) = em_load(e0, i.a);
    lemma_flush_size(e0, c.n);
    lemma_flush_size(a1, c.n);
    lemma_flush_size(b2, c.n);
}

/// The operations of a block begin with a payment, and there are not many
/// more of them than of its instructions and registers.
pub proof fn block_is_paid_for(c: Ctx, pcs: Seq<u32>, k: nat)
    requires
        em_steps(c, pcs, k) is Some,
    ensures
        em_steps(c, pcs, k)->Some_0.ops.len() <= k * (c.n + 8),
        k > 0 ==> {
            &&& em_steps(c, pcs, k)->Some_0.ops.len() > 0
            &&& em_steps(c, pcs, k)->Some_0.ops[0] is Tick
        },
    decreases k,
{
    if k > 0 {
        block_is_paid_for(c, pcs, (k - 1) as nat);
        let e = em_steps(c, pcs, (k - 1) as nat)->Some_0;
        let f = em_steps(c, pcs, k)->Some_0;
        lemma_step_size(c, pcs[k - 1], e);
        assert(k * (c.n + 8) == (k - 1) * (c.n + 8) + (c.n + 8)) by (nonlinear_arith)
            requires
                k > 0,
        ;
        let pc = pcs[k - 1];
        let e1 = em_op(e, Op::Tick { pc });
        lemma_extends_instr(c, pc, c.chunk.code@[pc as int], e1);
        assert(f.ops.take(e1.ops.len() as int)[0] == f.ops[0]);
        assert(e1.ops[0] is Tick);
    }
}

} // verus!
