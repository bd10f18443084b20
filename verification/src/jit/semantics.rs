//! What a trace computes.
//!
//! Registers live in integer slots. Within a block a register that was read
//! or written is cached, and the cache is written back where the block ends
//! and before a division. A block that runs out of budget leaves the slots
//! as they were at the last write-back.

use vstd::prelude::*;

use crate::bytecode::chunk::{element, Chunk};
use crate::bytecode::instruction::Instruction;
use crate::bytecode::opcode::Opcode;
use crate::bytecode::value::Value;
use crate::jit::exit::{
    JitReturn, JIT_BUDGET, JIT_CONTINUE, JIT_DEOPT, JIT_EFFECT, JIT_RETURN, JIT_TRAP,
};
use crate::jit::region::{jump_pc, scalar_constant, BlockState};
use crate::vm::fault::Fault;
use crate::vm::state::{binary, negated, quotient, remainder, BinResult};

verus! {

/// Most calls within one run of compiled code.
pub const MAX_JIT_CALL_DEPTH: usize = 64;

/// Where a call within compiled code returns to.
#[derive(Debug, Clone, Copy, PartialEq, Eq, Structural)]
pub struct JitCallRecord {
    pub return_pc: u32,
    pub return_function: u32,
    pub dest_reg: u32,
    pub caller_register_count: u32,
}

/// State of compiled code between blocks.
#[verifier::ext_equal]
pub ghost struct Mach {
    pub mem: Seq<i64>,
    pub budget: u32,
    pub function: u32,
    pub registers: u32,
    pub stack: Seq<JitCallRecord>,
}

/// Where a block led.
pub ghost enum Leave {
    /// To the block with this index.
    To(int),
    Exit(JitReturn),
}

/// An operation on two integers.
#[derive(Debug, Clone, Copy, PartialEq, Eq, Structural)]
pub enum BinOp {
    Add,
    Sub,
    Mul,
    Div,
    Rem,
    Eq,
    Lt,
    Le,
}

/// One for true.
pub open spec fn flag(b: bool) -> i64 {
    if b {
        1
    } else {
        0
    }
}

/// What an operation computes; a divisor of zero is checked before.
pub open spec fn scalar(op: BinOp, a: i64, b: i64) -> i64 {
    match op {
        BinOp::Add => a.wrapping_add(b),
        BinOp::Sub => a.wrapping_sub(b),
        BinOp::Mul => a.wrapping_mul(b),
        BinOp::Div => if b == 0 {
            0
        } else {
            quotient(a, b)
        },
        BinOp::Rem => if b == 0 {
            0
        } else {
            remainder(a, b)
        },
        BinOp::Eq => flag(a == b),
        BinOp::Lt => flag(a < b),
        BinOp::Le => flag(a <= b),
    }
}

/// The operation of an opcode.
pub open spec fn bin_op(op: Opcode) -> Option<BinOp> {
    match op {
        Opcode::Add => Some(BinOp::Add),
        Opcode::Sub => Some(BinOp::Sub),
        Opcode::Mul => Some(BinOp::Mul),
        Opcode::Div => Some(BinOp::Div),
        Opcode::Mod => Some(BinOp::Rem),
        Opcode::Eq => Some(BinOp::Eq),
        Opcode::Lt => Some(BinOp::Lt),
        Opcode::Le => Some(BinOp::Le),
        _ => None,
    }
}

/// The slot value of a value.
pub open spec fn slot_of(v: Value) -> Option<i64> {
    match v {
        Value::Int(i) => Some(i),
        Value::Bool(b) => Some(flag(b)),
        Value::Unit => Some(0),
        _ => None,
    }
}

/// On integers a compiled operation computes what the interpreter computes,
/// and it divides by zero exactly where the interpreter faults.
pub proof fn compiled_operations_agree(op: Opcode, a: i64, b: i64)
    requires
        bin_op(op) is Some,
    ensures
        ({
            let compiled = scalar(bin_op(op)->Some_0, a, b);
            match binary(op, Value::Int(a), Value::Int(b)) {
                BinResult::Value(v) => slot_of(v) == Some(compiled),
                BinResult::Fault(f) => f == Fault::DivideByZero && b == 0 && (op is Div
                    || op is Mod),
                BinResult::Float => false,
            }
        }),
        (op is Div || op is Mod) && b == 0 ==> binary(op, Value::Int(a), Value::Int(b)) is Fault,
        scalar(BinOp::Sub, 0, a) == negated(a),
{
}

/// Slot `r`; zero beyond the slots.
pub open spec fn mem_get(mem: Seq<i64>, r: int) -> i64 {
    if 0 <= r < mem.len() {
        mem[r]
    } else {
        0
    }
}

/// The slots with another value in slot `r`.
pub open spec fn mem_set(mem: Seq<i64>, r: int, v: i64) -> Seq<i64> {
    if 0 <= r < mem.len() {
        mem.update(r, v)
    } else {
        mem
    }
}

/// The first `n` arguments, from slot `dest` on, are in the first slots.
pub open spec fn args_copied(mem: Seq<i64>, dest: int, n: nat) -> Seq<i64>
    decreases n,
{
    if n == 0 {
        mem
    } else {
        let m = args_copied(mem, dest, (n - 1) as nat);
        mem_set(m, n - 1, mem_get(m, dest + n - 1))
    }
}

/// A return to the interpreter.
pub open spec fn leaving(kind: u32, pc: u32, return_reg: u32) -> Leave {
    Leave::Exit(JitReturn { kind, pc, return_reg })
}

/// A call that returns to `back`: the caller is recorded and the arguments are in place. Too deep,
/// and the interpreter performs it.
pub open spec fn entered(
    m: Mach,
    pc: u32,
    back: u32,
    callee: u32,
    dest: u8,
    argc: u8,
    registers: u8,
    block: int,
) -> (Mach, Leave) {
    if m.stack.len() >= MAX_JIT_CALL_DEPTH {
        (m, leaving(JIT_EFFECT, pc, 0))
    } else {
        (
            Mach {
                mem: args_copied(m.mem, dest as int, argc as nat),
                function: callee,
                registers: registers as u32,
                stack: m.stack.push(
                    JitCallRecord {
                        return_pc: back,
                        return_function: m.function,
                        dest_reg: dest as u32,
                        caller_register_count: m.registers,
                    },
                ),
                ..m
            },
            Leave::To(block),
        )
    }
}

/// A return in code with calls: out of the outermost function, or back to
/// the recorded caller.
pub open spec fn returned_from(m: Mach, reg: u8, pc: u32) -> (Mach, Leave) {
    if m.stack.len() == 0 {
        (m, leaving(JIT_RETURN, pc, reg as u32))
    } else {
        let rec = m.stack.last();
        (
            Mach {
                mem: mem_set(m.mem, rec.dest_reg as int, mem_get(m.mem, reg as int)),
                function: rec.return_function,
                registers: rec.caller_register_count,
                stack: m.stack.drop_last(),
                ..m
            },
            leaving(JIT_CONTINUE, rec.return_pc, 0),
        )
    }
}

/// A block on its way: the state, and the registers that are cached.
#[verifier::ext_equal]
pub ghost struct Run {
    pub m: Mach,
    pub cache: Map<int, i64>,
}

/// A block on its way, or where it led.
pub ghost enum Out {
    Going(Run),
    Left(Mach, Leave),
}

/// What a trace is compiled for: its code, the starts of its blocks, how
/// many registers are cached, whether it has calls, and where a division by
/// zero leaves it.
pub ghost struct Ctx {
    pub chunk: Chunk,
    pub starts: Seq<u32>,
    pub n: nat,
    pub calls: bool,
    pub trap_pc: u32,
}

/// The first block from `from` on that starts at `pc`.
pub open spec fn block_index(starts: Seq<u32>, pc: u32, from: nat) -> Option<nat>
    decreases starts.len() - from,
{
    if from >= starts.len() {
        None
    } else if starts[from as int] == pc {
        Some(from)
    } else {
        block_index(starts, pc, from + 1)
    }
}

/// Where a jump to `pc` leads: to a block, or back to the interpreter.
pub open spec fn dest_of(c: Ctx, pc: u32) -> Leave {
    match block_index(c.starts, pc, 0) {
        Some(i) => Leave::To(i as int),
        None => leaving(JIT_CONTINUE, pc, 0),
    }
}

/// The value of a register.
pub open spec fn reg_value(r: Run, reg: u8) -> i64 {
    if r.cache.contains_key(reg as int) {
        r.cache[reg as int]
    } else {
        mem_get(r.m.mem, reg as int)
    }
}

/// The register is cached with a value, if it can be.
pub open spec fn cached(r: Run, n: nat, reg: u8, v: i64) -> Run {
    if reg < n {
        Run { cache: r.cache.insert(reg as int, v), ..r }
    } else {
        r
    }
}

/// The register was read.
pub open spec fn loaded(r: Run, n: nat, reg: u8) -> Run {
    cached(r, n, reg, reg_value(r, reg))
}

/// The slots with the cached registers below `k` written back.
pub open spec fn written_back(mem: Seq<i64>, cache: Map<int, i64>, k: nat) -> Seq<i64>
    decreases k,
{
    if k == 0 {
        mem
    } else {
        let m = written_back(mem, cache, (k - 1) as nat);
        if cache.contains_key(k - 1) {
            mem_set(m, k - 1, cache[k - 1])
        } else {
            m
        }
    }
}

/// The cache was written back.
pub open spec fn flushed(r: Run, n: nat) -> Run {
    Run { m: Mach { mem: written_back(r.m.mem, r.cache, n), ..r.m }, ..r }
}

/// An operation from registers to a register.
pub open spec fn bin_run(c: Ctx, i: Instruction, op: BinOp, r: Run) -> Out {
    let a = reg_value(r, i.b);
    let r1 = loaded(r, c.n, i.b);
    let b = reg_value(r1, i.c);
    let r2 = loaded(r1, c.n, i.c);
    if op is Div || op is Rem {
        let r3 = flushed(r2, c.n);
        if b == 0 {
            Out::Left(r3.m, leaving(JIT_TRAP, c.trap_pc, 0))
        } else {
            Out::Going(cached(r3, c.n, i.a, scalar(op, a, b)))
        }
    } else {
        Out::Going(cached(r2, c.n, i.a, scalar(op, a, b)))
    }
}

/// A branch.
pub open spec fn branch_run(c: Ctx, pc: u32, i: Instruction, r: Run) -> Out {
    let v = reg_value(r, i.a);
    let r1 = flushed(loaded(r, c.n, i.a), c.n);
    let fall = (pc + 1) as u32;
    let falsy = jump_pc(pc, i.imm);
    if v == 0 {
        Out::Left(r1.m, dest_of(c, falsy))
    } else {
        Out::Left(r1.m, dest_of(c, fall))
    }
}

/// A return.
pub open spec fn return_run(c: Ctx, pc: u32, i: Instruction, r: Run) -> Out {
    let v = reg_value(r, i.a);
    let r1 = loaded(r, c.n, i.a);
    let m = Mach { mem: mem_set(r1.m.mem, i.a as int, v), ..r1.m };
    if c.calls {
        let (m1, l) = returned_from(m, i.a, pc);
        Out::Left(m1, l)
    } else {
        Out::Left(m, leaving(JIT_RETURN, pc, i.a as u32))
    }
}

/// A call; none if the function does not exist.
pub open spec fn call_run(c: Ctx, pc: u32, i: Instruction, r: Run) -> Option<Out> {
    match element(c.chunk.functions@, i.imm as u32 as nat) {
        None => None,
        Some(def) => {
            let r1 = flushed(r, c.n);
            match block_index(c.starts, def.entry, 0) {
                None => Some(Out::Left(r1.m, leaving(JIT_CONTINUE, pc, 0))),
                Some(b) => {
                    let (m, l) = entered(
                        r1.m,
                        pc,
                        (pc + 1) as u32,
                        i.imm as u32,
                        i.a,
                        i.b,
                        def.num_registers,
                        b as int,
                    );
                    Some(Out::Left(m, l))
                },
            }
        },
    }
}

/// One instruction; none if it cannot be compiled.
pub open spec fn instr_run(c: Ctx, pc: u32, i: Instruction, r: Run) -> Option<Out> {
    match i.op {
        Opcode::LoadImm => Some(Out::Going(cached(r, c.n, i.a, i.imm as i64))),
        Opcode::LoadConst => match scalar_constant(c.chunk, i.imm as u32) {
            Some(v) => Some(Out::Going(cached(r, c.n, i.a, v))),
            None => None,
        },
        Opcode::Move => Some(
            Out::Going(cached(loaded(r, c.n, i.b), c.n, i.a, reg_value(r, i.b))),
        ),
        Opcode::Neg => Some(
            Out::Going(
                cached(
                    loaded(r, c.n, i.b),
                    c.n,
                    i.a,
                    scalar(BinOp::Sub, 0, reg_value(r, i.b)),
                ),
            ),
        ),
        Opcode::Jump => Some(Out::Left(flushed(r, c.n).m, dest_of(c, jump_pc(pc, i.imm)))),
        Opcode::Branch => Some(branch_run(c, pc, i, r)),
        Opcode::Return => Some(return_run(c, pc, i, r)),
        Opcode::Nop => Some(Out::Going(r)),
        Opcode::Call => call_run(c, pc, i, r),
        _ => match bin_op(i.op) {
            Some(op) => Some(bin_run(c, i, op, r)),
            None => None,
        },
    }
}

/// The budget pays for one instruction, or the block leaves.
pub open spec fn ticked(r: Run, pc: u32) -> Out {
    if r.m.budget == 0 {
        Out::Left(r.m, leaving(JIT_BUDGET, pc, 0))
    } else {
        Out::Going(Run { m: Mach { budget: (r.m.budget - 1) as u32, ..r.m }, ..r })
    }
}

/// One instruction with its tick, if the block is still on its way.
pub open spec fn stepped(c: Ctx, pc: u32, o: Out) -> Out {
    match o {
        Out::Left(..) => o,
        Out::Going(r) => match ticked(r, pc) {
            Out::Left(m, l) => Out::Left(m, l),
            Out::Going(r1) => match instr_run(c, pc, c.chunk.code@[pc as int], r1) {
                Some(o1) => o1,
                None => Out::Going(r1),
            },
        },
    }
}

/// The first `k` instructions of a block.
pub open spec fn steps(c: Ctx, pcs: Seq<u32>, k: nat, m: Mach) -> Out
    decreases k,
{
    if k == 0 {
        Out::Going(Run { m, cache: Map::empty() })
    } else {
        stepped(c, pcs[k - 1], steps(c, pcs, (k - 1) as nat, m))
    }
}

/// A return that says that the code does not apply.
pub open spec fn deopt() -> JitReturn {
    JitReturn { kind: JIT_DEOPT, pc: 0, return_reg: 0 }
}

/// A run of a trace from block `b` on.
pub open spec fn trace_run(c: Ctx, blocks: Seq<BlockState>, b: int, m: Mach) -> (Mach, JitReturn)
    decreases m.budget,
{
    if !(0 <= b < blocks.len()) {
        (m, deopt())
    } else {
        match steps(c, blocks[b].pcs, blocks[b].pcs.len(), m) {
            Out::Left(m1, Leave::Exit(x)) => (m1, x),
            Out::Left(m1, Leave::To(j)) => if m1.budget < m.budget {
                trace_run(c, blocks, j, m1)
            } else {
                (m1, deopt())
            },
            Out::Going(r) => (r.m, deopt()),
        }
    }
}

} // verus!
