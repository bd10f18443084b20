//! Operations of compiled code, and a machine that runs them.
//!
//! The values that the operations of a block define are numbered in the
//! order of definition. A native backend maps each operation to its own
//! instructions; the machine here gives them their meaning.

use vstd::prelude::*;

use crate::jit::exit::{
    JitReturn, JIT_BUDGET, JIT_CONTINUE, JIT_DEOPT, JIT_EFFECT, JIT_RETURN, JIT_TRAP,
};
use crate::jit::semantics::{
    args_copied, deopt, entered, leaving, mem_get, mem_set, returned_from, scalar, BinOp,
    JitCallRecord, Leave, Mach, MAX_JIT_CALL_DEPTH,
};
use crate::vm::machine::{divide, modulo};

verus! {

/// Where a jump leads.
#[derive(Debug, Clone, Copy, PartialEq, Eq, Structural)]
pub enum Dest {
    /// To a block of the trace.
    Block(usize),
    /// Back to the interpreter, at this instruction.
    Exit(u32),
}

/// An operation.
#[derive(Debug, Clone, Copy, PartialEq, Eq, Structural)]
pub enum Op {
    /// Pay for one instruction, or leave at `pc`.
    Tick { pc: u32 },
    /// Define a constant.
    Const { value: i64 },
    /// Define the value of a slot.
    Load { reg: u8 },
    /// Write a value to a slot.
    Store { reg: u8, src: usize },
    /// Define the result of an operation.
    Bin { op: BinOp, lhs: usize, rhs: usize },
    /// Leave with a trap if a value is zero.
    TrapIfZero { src: usize, pc: u32 },
    Jump { to: Dest },
    BranchZero { src: usize, zero: Dest, other: Dest },
    Exit { kind: u32, pc: u32, return_reg: u32 },
    /// Call a function whose code is in the trace.
    Enter { pc: u32, back: u32, callee: u32, dest: u8, argc: u8, registers: u8, block: usize },
    /// Return to the caller within the trace, or out of it.
    Leave { reg: u8, pc: u32 },
}

/// Operations that run one after the other.
#[derive(Debug)]
pub struct CodeBlock {
    pub ops: Vec<Op>,
}

/// Compiled code. It starts with the first block.
#[derive(Debug)]
pub struct TraceCode {
    pub blocks: Vec<CodeBlock>,
}

/// State within a block: the machine and the values defined so far.
#[verifier::ext_equal]
pub ghost struct OpState {
    pub m: Mach,
    pub env: Seq<i64>,
}

/// A block on its way, or where it led.
pub ghost enum OpOut {
    Going(OpState),
    Left(Mach, Leave),
}

/// Where a destination leads.
pub open spec fn leave_of(d: Dest) -> Leave {
    match d {
        Dest::Block(i) => Leave::To(i as int),
        Dest::Exit(pc) => leaving(JIT_CONTINUE, pc, 0),
    }
}

/// The value with a number; zero if it is not defined.
pub open spec fn value_at(env: Seq<i64>, id: usize) -> i64 {
    if id < env.len() {
        env[id as int]
    } else {
        0
    }
}

/// One operation.
pub open spec fn op_run(op: Op, s: OpState) -> OpOut {
    match op {
        Op::Tick { pc } => if s.m.budget == 0 {
            OpOut::Left(s.m, leaving(JIT_BUDGET, pc, 0))
        } else {
            OpOut::Going(
                OpState { m: Mach { budget: (s.m.budget - 1) as u32, ..s.m }, ..s },
            )
        },
        Op::Const { value } => OpOut::Going(OpState { env: s.env.push(value), ..s }),
        Op::Load { reg } => OpOut::Going(
            OpState { env: s.env.push(mem_get(s.m.mem, reg as int)), ..s },
        ),
        Op::Store { reg, src } => OpOut::Going(
            OpState {
                m: Mach { mem: mem_set(s.m.mem, reg as int, value_at(s.env, src)), ..s.m },
                ..s
            },
        ),
        Op::Bin { op, lhs, rhs } => OpOut::Going(
            OpState {
                env: s.env.push(scalar(op, value_at(s.env, lhs), value_at(s.env, rhs))),
                ..s
            },
        ),
        Op::TrapIfZero { src, pc } => if value_at(s.env, src) == 0 {
            OpOut::Left(s.m, leaving(JIT_TRAP, pc, 0))
        } else {
            OpOut::Going(s)
        },
        Op::Jump { to } => OpOut::Left(s.m, leave_of(to)),
        Op::BranchZero { src, zero, other } => if value_at(s.env, src) == 0 {
            OpOut::Left(s.m, leave_of(zero))
        } else {
            OpOut::Left(s.m, leave_of(other))
        },
        Op::Exit { kind, pc, return_reg } => OpOut::Left(s.m, leaving(kind, pc, return_reg)),
        Op::Enter { pc, back, callee, dest, argc, registers, block } => {
            let (m, l) = entered(s.m, pc, back, callee, dest, argc, registers, block as int);
            OpOut::Left(m, l)
        },
        Op::Leave { reg, pc } => {
            let (m, l) = returned_from(s.m, reg, pc);
            OpOut::Left(m, l)
        },
    }
}

/// One operation, if the block is still on its way.
pub open spec fn op_next(op: Op, o: OpOut) -> OpOut {
    match o {
        OpOut::Going(s) => op_run(op, s),
        OpOut::Left(..) => o,
    }
}

/// The operations of a block.
pub open spec fn ops_run(ops: Seq<Op>, m: Mach) -> OpOut
    decreases ops.len(),
{
    if ops.len() == 0 {
        OpOut::Going(OpState { m, env: Seq::empty() })
    } else {
        op_next(ops.last(), ops_run(ops.drop_last(), m))
    }
}

/// Models of a list of blocks.
pub open spec fn code_states(s: Seq<CodeBlock>) -> Seq<Seq<Op>> {
    Seq::new(s.len(), |i: int| s[i].ops@)
}

/// A run of compiled code from block `b` on.
pub open spec fn code_run(blocks: Seq<Seq<Op>>, b: int, m: Mach) -> (Mach, JitReturn)
    decreases m.budget,
{
    if !(0 <= b < blocks.len()) {
        (m, deopt())
    } else {
        match ops_run(blocks[b], m) {
            OpOut::Left(m1, Leave::Exit(x)) => (m1, x),
            OpOut::Left(m1, Leave::To(j)) => if m1.budget < m.budget {
                code_run(blocks, j, m1)
            } else {
                (m1, deopt())
            },
            OpOut::Going(s) => (s.m, deopt()),
        }
    }
}

/// Every block pays for its first instruction, so that no code runs on for
/// ever.
pub open spec fn pays(blocks: Seq<Seq<Op>>) -> bool {
    forall|b: int|
        0 <= b < blocks.len() ==> (#[trigger] blocks[b]).len() > 0 && blocks[b][0] is Tick
}

/// A machine for compiled code.
pub struct JitFrame {
    pub slots: Vec<i64>,
    pub budget: u32,
    pub function: u32,
    pub register_count: u32,
    pub call_stack: Vec<JitCallRecord>,
}

impl View for JitFrame {
    type V = Mach;

    open spec fn view(&self) -> Mach {
        Mach {
            mem: self.slots@,
            budget: self.budget,
            function: self.function,
            registers: self.register_count,
            stack: self.call_stack@,
        }
    }
}

/// Where a block led.
#[derive(Debug, Clone, Copy, PartialEq, Eq, Structural)]
pub enum Next {
    Block(usize),
    Exit(JitReturn),
}

/// Model of a [`Next`].
pub open spec fn next_view(n: Next) -> Leave {
    match n {
        Next::Block(i) => Leave::To(i as int),
        Next::Exit(x) => Leave::Exit(x),
    }
}

fn next_of(d: Dest) -> (r: Next)
    ensures
        next_view(r) == leave_of(d),
{
    match d {
        Dest::Block(i) => Next::Block(i),
        Dest::Exit(pc) => Next::Exit(JitReturn { kind: JIT_CONTINUE, pc, return_reg: 0 }),
    }
}

fn get_value(env: &Vec<i64>, id: usize) -> (r: i64)
    ensures
        r == value_at(env@, id),
{
    if id < env.len() {
        env[id]
    } else {
        0
    }
}

fn compute(op: BinOp, a: i64, b: i64) -> (r: i64)
    ensures
        r == scalar(op, a, b),
{
    match op {
        BinOp::Add => a.wrapping_add(b),
        BinOp::Sub => a.wrapping_sub(b),
        BinOp::Mul => a.wrapping_mul(b),
        BinOp::Div => if b == 0 {
            0
        } else {
            divide(a, b)
        },
        BinOp::Rem => if b == 0 {
            0
        } else {
            modulo(a, b)
        },
        BinOp::Eq => if a == b {
            1
        } else {
            0
        },
        BinOp::Lt => if a < b {
            1
        } else {
            0
        },
        BinOp::Le => if a <= b {
            1
        } else {
            0
        },
    }
}

impl JitFrame {
    fn get(&self, reg: usize) -> (r: i64)
        ensures
            r == mem_get(self@.mem, reg as int),
    {
        if reg < self.slots.len() {
            self.slots[reg]
        } else {
            0
        }
    }

    fn set(&mut self, reg: usize, value: i64)
        ensures
            final(self)@ == (Mach { mem: mem_set(old(self)@.mem, reg as int, value), ..old(self)@ }),
    {
        if reg < self.slots.len() {
            self.slots[reg] = value;
        }
    }

    fn enter(
        &mut self,
        pc: u32,
        back: u32,
        callee: u32,
        dest: u8,
        argc: u8,
        registers: u8,
        block: usize,
    ) -> (r: Next)
        ensures
            (final(self)@, next_view(r)) == entered(
                old(self)@,
                pc,
                back,
                callee,
                dest,
                argc,
                registers,
                block as int,
            ),
    {
        if self.call_stack.len() >= MAX_JIT_CALL_DEPTH {
            return Next::Exit(JitReturn { kind: JIT_EFFECT, pc, return_reg: 0 });
        }
        let ghost m0 = self@;
        let record = JitCallRecord {
            return_pc: back,
            return_function: self.function,
            dest_reg: dest as u32,
            caller_register_count: self.register_count,
        };
        self.call_stack.push(record);
        let ghost m1 = self@;
        let mut i: usize = 0;
        while i < argc as usize
            invariant
                i <= argc,
                self@ == (Mach { mem: args_copied(m0.mem, dest as int, i as nat), ..m1 }),
            decreases argc as usize - i,
        {
            let v: i64 = self.get(dest as usize + i);
            self.set(i, v);
            i += 1;
        }
        self.function = callee;
        self.register_count = registers as u32;
        Next::Block(block)
    }

    fn leave(&mut self, reg: u8, pc: u32) -> (r: Next)
        ensures
            (final(self)@, next_view(r)) == returned_from(old(self)@, reg, pc),
    {
        match self.call_stack.pop() {
            None => {
                assert(self@.stack =~= old(self)@.stack);
                Next::Exit(JitReturn { kind: JIT_RETURN, pc, return_reg: reg as u32 })
            },
            Some(rec) => {
                assert(self@.stack =~= old(self)@.stack.drop_last());
                let v: i64 = self.get(reg as usize);
                self.set(rec.dest_reg as usize, v);
                self.function = rec.return_function;
                self.register_count = rec.caller_register_count;
                Next::Exit(
                    JitReturn { kind: JIT_CONTINUE, pc: rec.return_pc, return_reg: 0 },
                )
            },
        }
    }

    fn run_op(&mut self, env: &mut Vec<i64>, op: Op) -> (r: Option<Next>)
        ensures
            match op_run(op, OpState { m: old(self)@, env: old(env)@ }) {
                OpOut::Going(s) => r is None && final(self)@ == s.m && final(env)@ == s.env,
                OpOut::Left(m, l) => final(self)@ == m && (r matches Some(n) && next_view(n) == l),
            },
    {
        match op {
            Op::Tick { pc } => {
                if self.budget == 0 {
                    return Some(Next::Exit(JitReturn { kind: JIT_BUDGET, pc, return_reg: 0 }));
                }
                self.budget = self.budget - 1;
                None
            },
            Op::Const { value } => {
                env.push(value);
                None
            },
            Op::Load { reg } => {
                let v: i64 = self.get(reg as usize);
                env.push(v);
                None
            },
            Op::Store { reg, src } => {
                let v: i64 = get_value(env, src);
                self.set(reg as usize, v);
                None
            },
            Op::Bin { op, lhs, rhs } => {
                let v: i64 = compute(op, get_value(env, lhs), get_value(env, rhs));
                env.push(v);
                None
            },
            Op::TrapIfZero { src, pc } => {
                if get_value(env, src) == 0 {
                    Some(Next::Exit(JitReturn { kind: JIT_TRAP, pc, return_reg: 0 }))
                } else {
                    None
                }
            },
            Op::Jump { to } => Some(next_of(to)),
            Op::BranchZero { src, zero, other } => {
                if get_value(env, src) == 0 {
                    Some(next_of(zero))
                } else {
                    Some(next_of(other))
                }
            },
            Op::Exit { kind, pc, return_reg } => Some(
                Next::Exit(JitReturn { kind, pc, return_reg }),
            ),
            Op::Enter { pc, back, callee, dest, argc, registers, block } => Some(
                self.enter(pc, back, callee, dest, argc, registers, block),
            ),
            Op::Leave { reg, pc } => Some(self.leave(reg, pc)),
        }
    }

    fn run_ops(&mut self, ops: &Vec<Op>) -> (r: Option<Next>)
        ensures
            match ops_run(ops@, old(self)@) {
                OpOut::Going(s) => r is None && final(self)@ == s.m,
                OpOut::Left(m, l) => final(self)@ == m && (r matches Some(n) && next_view(n) == l),
            },
    {
        let mut env: Vec<i64> = Vec::new();
        let mut k: usize = 0;
        let ghost m0 = self@;
        assert(ops@.take(0) =~= Seq::<Op>::empty());
        while k < ops.len()
            invariant
                k <= ops@.len(),
                m0 == old(self)@,
                ops_run(ops@.take(k as int), m0) == OpOut::Going(
                    OpState { m: self@, env: env@ },
                ),
            decreases ops@.len() - k,
        {
            assert(ops@.take(k + 1).drop_last() =~= ops@.take(k as int));
            assert(ops@.take(k + 1).last() == ops@[k as int]);
            match self.run_op(&mut env, ops[k]) {
                Some(n) => {
                    proof {
                        left_block_stays_left(ops@, (k + 1) as nat, m0);
                    }
                    return Some(n);
                },
                None => {},
            }
            k += 1;
        }
        assert(ops@.take(k as int) =~= ops@);
        None
    }

    /// Run compiled code from block `start` on.
    pub fn run(&mut self, code: &TraceCode, start: usize) -> (r: JitReturn)
        ensures
            (final(self)@, r) == code_run(code_states(code.blocks@), start as int, old(self)@),
    {
        let mut b: usize = start;
        let ghost all = code_states(code.blocks@);
        loop
            invariant
                all == code_states(code.blocks@),
                code_run(all, start as int, old(self)@) == code_run(all, b as int, self@),
            decreases self@.budget,
        {
            if b >= code.blocks.len() {
                return JitReturn { kind: JIT_DEOPT, pc: 0, return_reg: 0 };
            }
            let before: u32 = self.budget;
            assert(all[b as int] == code.blocks@[b as int].ops@);
            match self.run_ops(&code.blocks[b].ops) {
                Some(Next::Exit(x)) => return x,
                Some(Next::Block(j)) => {
                    if self.budget < before {
                        b = j;
                    } else {
                        return JitReturn { kind: JIT_DEOPT, pc: 0, return_reg: 0 };
                    }
                },
                None => return JitReturn { kind: JIT_DEOPT, pc: 0, return_reg: 0 },
            }
        }
    }
}

/// Once a block was left, its other operations do nothing.
pub proof fn left_block_stays_left(ops: Seq<Op>, k: nat, m: Mach)
    requires
        k <= ops.len(),
        ops_run(ops.take(k as int), m) is Left,
    ensures
        ops_run(ops, m) == ops_run(ops.take(k as int), m),
    decreases ops.len() - k,
{
    if k == ops.len() {
        assert(ops.take(k as int) =~= ops);
    } else {
        assert(ops.take((k + 1) as int).drop_last() =~= ops.take(k as int));
        left_block_stays_left(ops, k + 1, m);
    }
}

/// An operation at the end of a block.
pub proof fn last_operation_runs_last(ops: Seq<Op>, op: Op, m: Mach)
    ensures
        ops_run(ops.push(op), m) == op_next(op, ops_run(ops, m)),
{
    assert(ops.push(op).drop_last() =~= ops);
}

} // verus!
