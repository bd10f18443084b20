//! Native code.
//!
//! Compiled code is lowered to Cranelift's intermediate language: one
//! function, which takes a pointer to a frame. Block 0 reads the pointers
//! out of the frame. Block `i` of the code is block `i + 1`, and the block
//! after the last one leaves code that does not apply.

use cranelift_codegen::ir::Function;
use cranelift_codegen::isa::CallConv;
use cranelift_frontend::{FunctionBuilder, FunctionBuilderContext};
use vstd::prelude::*;

use crate::jit::clif::{
    append_function_params, brif, built, compare, create_block, def, empty_listing, end, goto,
    has_value, held, iadd, iconst, idle, imul, isub, jump, load, more_blocks, new_builder,
    new_context, new_function, put, ready, return_, sdiv,
    seal_all_blocks, select, srem, store, switch_to_block, uextend, ClifType, Cond, Insn, Listing,
    MAX_LISTING,
};
use crate::jit::code::{code_states, Dest, Op, TraceCode};
use crate::jit::error::CompileError;
use crate::jit::exit::{
    JIT_BUDGET, JIT_CONTINUE, JIT_DEOPT, JIT_EFFECT, JIT_RETURN, JIT_TRAP,
};
use crate::jit::semantics::{BinOp, MAX_JIT_CALL_DEPTH};

verus! {

/// Offset of the pointer to the slots.
pub const OFF_SLOTS: i32 = 0;
pub const OFF_BUDGET: i32 = 8;
pub const OFF_EXIT_KIND: i32 = 12;
pub const OFF_PC: i32 = 16;
pub const OFF_RETURN_REG: i32 = 20;
pub const OFF_FUNCTION: i32 = 24;
pub const OFF_REGISTER_COUNT: i32 = 28;
pub const OFF_CALL_DEPTH: i32 = 32;
/// Offset of the pointer to the call records.
pub const OFF_CALL_STACK: i32 = 40;
/// Bytes of a call record: four numbers of 32 bits.
pub const RECORD_BYTES: i64 = 16;
pub const REC_RETURN_FUNCTION: i32 = 4;
pub const REC_DEST_REG: i32 = 8;
pub const REC_REGISTER_COUNT: i32 = 12;
/// Bytes of a slot.
pub const SLOT_BYTES: i64 = 8;

/// Slots that native code may touch.
pub const NATIVE_SLOTS: usize = 512;

/// Most blocks, and most operations, that are lowered.
pub const MAX_NATIVE_OPS: usize = 0x1_1000;

/// Pointer to the frame.
pub const FRAME: u32 = 0;
/// Pointer to the slots.
pub const SLOTS: u32 = 1;
/// Pointer to the call records.
pub const CALLS: u32 = 2;

/// The number of the next value.
pub open spec fn next(s: Listing) -> u32 {
    s.values as u32
}

/// The number of the next block, or of the one after it.
pub open spec fn new_block(s: Listing, i: int) -> u32 {
    (s.blocks + i) as u32
}

/// A field of the frame is set to a constant.
pub open spec fn field_set(s: Listing, offset: i32, value: u32) -> Listing {
    let t = def(s, Insn::Iconst { ty: ClifType::I32, value: value as i64 });
    put(t, Insn::Store { x: next(s), addr: FRAME, offset })
}

/// The function returns, and the frame says why.
pub open spec fn exit_code(s: Listing, kind: u32, pc: u32, return_reg: u32) -> Listing {
    let t = field_set(s, OFF_EXIT_KIND, kind);
    let t = field_set(t, OFF_PC, pc);
    let t = field_set(t, OFF_RETURN_REG, return_reg);
    end(t, Insn::Return)
}

/// The function returns from block `at` of its own, and goes on at `go`.
pub open spec fn side_exit(s: Listing, at: u32, kind: u32, pc: u32, go: u32) -> Listing {
    goto(exit_code(goto(s, at), kind, pc, 0), go)
}

/// What holds between operations.
pub open spec fn settled(s: Listing) -> bool {
    &&& s.at is Some
    &&& s.at->Some_0 < s.blocks
    &&& s.variables == 0
    &&& !s.sealed
    &&& s.plain_flags
    &&& 3 <= s.values
    &&& forall|b: u32| #[trigger] s.filled.contains(b) ==> b < s.blocks
}

/// What lowering does to the blocks there are: it ends the current one at
/// most. It adds `n` instructions and values at most, and two blocks.
pub open spec fn grown(s: Listing, t: Listing, n: int) -> bool {
    &&& settled(t)
    &&& s.blocks <= t.blocks <= s.blocks + 2
    &&& s.values <= t.values <= s.values + n
    &&& s.code.len() <= t.code.len() <= s.code.len() + n
    &&& t.at == s.at || s.blocks <= t.at->Some_0
    &&& forall|b: u32|
        b < s.blocks && b != s.at->Some_0 ==> (#[trigger] t.filled.contains(b)
            == s.filled.contains(b))
}

/// Room for `n` instructions.
pub open spec fn open_for(s: Listing, n: int) -> bool {
    &&& settled(s)
    &&& !s.filled.contains(s.at->Some_0)
    &&& s.values + n < MAX_LISTING
    &&& s.code.len() + n < MAX_LISTING
}

/// Room for `n` instructions and two blocks.
pub open spec fn roomy(s: Listing, n: int) -> bool {
    &&& open_for(s, n)
    &&& s.blocks + 2 < MAX_LISTING
}

fn write_u32_field(b: &mut FunctionBuilder<'_>, offset: i32, value: u32)
    requires
        ready(built(*old(b))),
        built(*old(b)).plain_flags,
        built(*old(b)).code.len() + 1 < MAX_LISTING,
        built(*old(b)).values + 1 < MAX_LISTING,
    ensures
        built(*final(b)) == field_set(built(*old(b)), offset, value),
{
    let v: u32 = iconst(b, ClifType::I32, value as i64);
    store(b, v, FRAME, offset);
}

fn write_exit(b: &mut FunctionBuilder<'_>, kind: u32, pc: u32, return_reg: u32)
    requires
        ready(built(*old(b))),
        built(*old(b)).plain_flags,
        built(*old(b)).code.len() + 7 < MAX_LISTING,
        built(*old(b)).values + 7 < MAX_LISTING,
    ensures
        built(*final(b)) == exit_code(built(*old(b)), kind, pc, return_reg),
{
    write_u32_field(b, OFF_EXIT_KIND, kind);
    write_u32_field(b, OFF_PC, pc);
    write_u32_field(b, OFF_RETURN_REG, return_reg);
    return_(b);
}

/// One instruction is paid for.
pub open spec fn tick_code(s: Listing, pc: u32) -> Listing {
    let budget = next(s);
    let s1 = def(s, Insn::Load { ty: ClifType::I32, addr: FRAME, offset: OFF_BUDGET });
    let zero = next(s1);
    let s2 = def(s1, Insn::Iconst { ty: ClifType::I32, value: 0 });
    let c = next(s2);
    let s3 = def(s2, Insn::Compare { cond: Cond::Equal, x: budget, y: zero });
    let stop = new_block(s, 0);
    let go = new_block(s, 1);
    let s4 = end(more_blocks(s3, 2), Insn::Brif { c, yes: stop, no: go });
    let s5 = side_exit(s4, stop, JIT_BUDGET, pc, go);
    let one = next(s5);
    let s6 = def(s5, Insn::Iconst { ty: ClifType::I32, value: 1 });
    let left = next(s6);
    let s7 = def(s6, Insn::Isub { x: budget, y: one });
    put(s7, Insn::Store { x: left, addr: FRAME, offset: OFF_BUDGET })
}

fn emit_budget_tick(b: &mut FunctionBuilder<'_>, pc: u32)
    requires
        roomy(built(*old(b)), 16),
    ensures
        built(*final(b)) == tick_code(built(*old(b)), pc),
        grown(built(*old(b)), built(*final(b)), 16),
        !built(*final(b)).filled.contains(built(*final(b)).at->Some_0),
{
    let budget: u32 = load(b, ClifType::I32, FRAME, OFF_BUDGET);
    let zero: u32 = iconst(b, ClifType::I32, 0);
    let c: u32 = compare(b, Cond::Equal, budget, zero);
    let stop: u32 = create_block(b);
    let go: u32 = create_block(b);
    brif(b, c, stop, go);
    switch_to_block(b, stop);
    write_exit(b, JIT_BUDGET, pc, 0);
    switch_to_block(b, go);
    let one: u32 = iconst(b, ClifType::I32, 1);
    let left: u32 = isub(b, budget, one);
    store(b, left, FRAME, OFF_BUDGET);
}


/// The value with a number; zero if it is not defined.
pub open spec fn operand_code(s: Listing, env: Seq<u32>, id: usize) -> (Listing, u32) {
    if id < env.len() {
        (s, env[id as int])
    } else {
        (def(s, Insn::Iconst { ty: ClifType::I64, value: 0 }), next(s))
    }
}

/// The values that were defined exist.
pub open spec fn env_ok(s: Listing, env: Seq<u32>) -> bool {
    forall|i: int| 0 <= i < env.len() ==> #[trigger] env[i] < s.values
}

fn operand(b: &mut FunctionBuilder<'_>, env: &Vec<u32>, id: usize) -> (r: u32)
    requires
        ready(built(*old(b))),
        env_ok(built(*old(b)), env@),
    ensures
        (built(*final(b)), r) == operand_code(built(*old(b)), env@, id),
        r < built(*final(b)).values,
{
    if id < env.len() {
        assert(env@[id as int] < built(*b).values);
        env[id]
    } else {
        iconst(b, ClifType::I64, 0)
    }
}

/// One where the condition holds, zero where it does not.
pub open spec fn flag_code(s: Listing, cond: Cond, x: u32, y: u32) -> Listing {
    let c = next(s);
    let s1 = def(s, Insn::Compare { cond, x, y });
    let one = next(s1);
    let s2 = def(s1, Insn::Iconst { ty: ClifType::I64, value: 1 });
    let zero = next(s2);
    let s3 = def(s2, Insn::Iconst { ty: ClifType::I64, value: 0 });
    def(s3, Insn::Select { c, x: one, y: zero })
}

fn emit_flag(b: &mut FunctionBuilder<'_>, cond: Cond, x: u32, y: u32) -> (r: u32)
    requires
        roomy(built(*old(b)), 4),
        has_value(built(*old(b)), x),
        has_value(built(*old(b)), y),
    ensures
        built(*final(b)) == flag_code(built(*old(b)), cond, x, y),
        r == built(*final(b)).values - 1,
{
    let c: u32 = compare(b, cond, x, y);
    let one: u32 = iconst(b, ClifType::I64, 1);
    let zero: u32 = iconst(b, ClifType::I64, 0);
    select(b, c, one, zero)
}

/// A division that the processor accepts. The divisors 0 and -1 are
/// replaced by 1; the quotient by -1 is the negation, which wraps, its
/// remainder is zero, and a division by zero gives zero.
pub open spec fn division_code(s: Listing, rem: bool, x: u32, y: u32) -> Listing {
    let zero = next(s);
    let s1 = def(s, Insn::Iconst { ty: ClifType::I64, value: 0 });
    let one = next(s1);
    let s2 = def(s1, Insn::Iconst { ty: ClifType::I64, value: 1 });
    let minus = next(s2);
    let s3 = def(s2, Insn::Iconst { ty: ClifType::I64, value: (-1) as i64 });
    let by_zero = next(s3);
    let s4 = def(s3, Insn::Compare { cond: Cond::Equal, x: y, y: zero });
    let by_minus = next(s4);
    let s5 = def(s4, Insn::Compare { cond: Cond::Equal, x: y, y: minus });
    let d1 = next(s5);
    let s6 = def(s5, Insn::Select { c: by_zero, x: one, y });
    let d2 = next(s6);
    let s7 = def(s6, Insn::Select { c: by_minus, x: one, y: d1 });
    let q = next(s7);
    let s8 = def(
        s7,
        if rem {
            Insn::Srem { x, y: d2 }
        } else {
            Insn::Sdiv { x, y: d2 }
        },
    );
    let n = next(s8);
    let s9 = def(
        s8,
        if rem {
            Insn::Isub { x, y: x }
        } else {
            Insn::Isub { x: zero, y: x }
        },
    );
    let r = next(s9);
    let s10 = def(s9, Insn::Select { c: by_minus, x: n, y: q });
    def(s10, Insn::Select { c: by_zero, x: zero, y: r })
}

fn emit_division(b: &mut FunctionBuilder<'_>, rem: bool, x: u32, y: u32) -> (r: u32)
    requires
        roomy(built(*old(b)), 11),
        has_value(built(*old(b)), x),
        has_value(built(*old(b)), y),
    ensures
        built(*final(b)) == division_code(built(*old(b)), rem, x, y),
        r == built(*final(b)).values - 1,
{
    let zero: u32 = iconst(b, ClifType::I64, 0);
    let one: u32 = iconst(b, ClifType::I64, 1);
    let minus: u32 = iconst(b, ClifType::I64, -1);
    let by_zero: u32 = compare(b, Cond::Equal, y, zero);
    let by_minus: u32 = compare(b, Cond::Equal, y, minus);
    let d1: u32 = select(b, by_zero, one, y);
    let d2: u32 = select(b, by_minus, one, d1);
    let q: u32 = if rem {
        srem(b, x, d2)
    } else {
        sdiv(b, x, d2)
    };
    let n: u32 = if rem {
        isub(b, x, x)
    } else {
        isub(b, zero, x)
    };
    let r: u32 = select(b, by_minus, n, q);
    select(b, by_zero, zero, r)
}

/// An operation on two values.
pub open spec fn binary_code(s: Listing, op: BinOp, x: u32, y: u32) -> Listing {
    match op {
        BinOp::Add => def(s, Insn::Iadd { x, y }),
        BinOp::Sub => def(s, Insn::Isub { x, y }),
        BinOp::Mul => def(s, Insn::Imul { x, y }),
        BinOp::Div => division_code(s, false, x, y),
        BinOp::Rem => division_code(s, true, x, y),
        BinOp::Eq => flag_code(s, Cond::Equal, x, y),
        BinOp::Lt => flag_code(s, Cond::SignedLess, x, y),
        BinOp::Le => flag_code(s, Cond::SignedLessEqual, x, y),
    }
}

fn emit_binary(b: &mut FunctionBuilder<'_>, op: BinOp, x: u32, y: u32) -> (r: u32)
    requires
        roomy(built(*old(b)), 11),
        has_value(built(*old(b)), x),
        has_value(built(*old(b)), y),
    ensures
        built(*final(b)) == binary_code(built(*old(b)), op, x, y),
        r == built(*final(b)).values - 1,
        grown(built(*old(b)), built(*final(b)), 11),
        built(*final(b)).filled == built(*old(b)).filled,
        built(*final(b)).at == built(*old(b)).at,
{
    match op {
        BinOp::Add => iadd(b, x, y),
        BinOp::Sub => isub(b, x, y),
        BinOp::Mul => imul(b, x, y),
        BinOp::Div => emit_division(b, false, x, y),
        BinOp::Rem => emit_division(b, true, x, y),
        BinOp::Eq => emit_flag(b, Cond::Equal, x, y),
        BinOp::Lt => emit_flag(b, Cond::SignedLess, x, y),
        BinOp::Le => emit_flag(b, Cond::SignedLessEqual, x, y),
    }
}

/// The function traps where a value is zero.
pub open spec fn trap_code(s: Listing, x: u32, pc: u32) -> Listing {
    let zero = next(s);
    let s1 = def(s, Insn::Iconst { ty: ClifType::I64, value: 0 });
    let c = next(s1);
    let s2 = def(s1, Insn::Compare { cond: Cond::Equal, x, y: zero });
    let trap = new_block(s, 0);
    let go = new_block(s, 1);
    let s3 = end(more_blocks(s2, 2), Insn::Brif { c, yes: trap, no: go });
    side_exit(s3, trap, JIT_TRAP, pc, go)
}

fn emit_trap(b: &mut FunctionBuilder<'_>, x: u32, pc: u32)
    requires
        roomy(built(*old(b)), 16),
        has_value(built(*old(b)), x),
    ensures
        built(*final(b)) == trap_code(built(*old(b)), x, pc),
        grown(built(*old(b)), built(*final(b)), 16),
        !built(*final(b)).filled.contains(built(*final(b)).at->Some_0),
{
    let zero: u32 = iconst(b, ClifType::I64, 0);
    let c: u32 = compare(b, Cond::Equal, x, zero);
    let trap: u32 = create_block(b);
    let go: u32 = create_block(b);
    brif(b, c, trap, go);
    switch_to_block(b, trap);
    write_exit(b, JIT_TRAP, pc, 0);
    switch_to_block(b, go);
}


/// The number of a block of the code; past the last one, the number of the
/// block that leaves code that does not apply.
pub open spec fn target(n: int, i: int) -> u32 {
    if i < n {
        (i + 1) as u32
    } else {
        (n + 1) as u32
    }
}

fn target_of(n: usize, i: usize) -> (r: u32)
    requires
        n <= MAX_NATIVE_OPS,
    ensures
        r == target(n as int, i as int),
        r <= n + 1,
{
    if i < n {
        (i + 1) as u32
    } else {
        (n + 1) as u32
    }
}

/// A jump.
pub open spec fn jump_code(s: Listing, n: int, to: Dest) -> Listing {
    match to {
        Dest::Block(i) => end(s, Insn::Jump { to: target(n, i as int) }),
        Dest::Exit(pc) => exit_code(s, JIT_CONTINUE, pc, 0),
    }
}

fn emit_jump(b: &mut FunctionBuilder<'_>, n: usize, to: Dest)
    requires
        roomy(built(*old(b)), 8),
        n <= MAX_NATIVE_OPS,
        n + 2 <= built(*old(b)).blocks,
    ensures
        built(*final(b)) == jump_code(built(*old(b)), n as int, to),
        grown(built(*old(b)), built(*final(b)), 8),
        built(*final(b)).filled.contains(built(*final(b)).at->Some_0),
{
    match to {
        Dest::Block(i) => {
            let t: u32 = target_of(n, i);
            jump(b, t);
        },
        Dest::Exit(pc) => {
            write_exit(b, JIT_CONTINUE, pc, 0);
        },
    }
}

/// The block that a branch leads to: one of the code, or the `k`-th new one.
pub open spec fn branch_block(s: Listing, n: int, to: Dest, k: int) -> u32 {
    match to {
        Dest::Block(i) => target(n, i as int),
        Dest::Exit(_) => new_block(s, k),
    }
}

/// How many new blocks a branch there needs.
pub open spec fn exits(to: Dest) -> int {
    if to is Exit {
        1
    } else {
        0
    }
}

/// The code of the block that a branch leads to, if it is a new one.
pub open spec fn branch_exit(s: Listing, at: u32, to: Dest) -> Listing {
    match to {
        Dest::Block(_) => s,
        Dest::Exit(pc) => exit_code(goto(s, at), JIT_CONTINUE, pc, 0),
    }
}

/// A branch on zero.
pub open spec fn branch_code(s: Listing, n: int, x: u32, zero: Dest, other: Dest) -> Listing {
    let z = next(s);
    let s1 = def(s, Insn::Iconst { ty: ClifType::I64, value: 0 });
    let c = next(s1);
    let s2 = def(s1, Insn::Compare { cond: Cond::Equal, x, y: z });
    let yes = branch_block(s, n, zero, 0);
    let no = branch_block(s, n, other, exits(zero));
    let s3 = end(more_blocks(s2, exits(zero) + exits(other)), Insn::Brif { c, yes, no });
    branch_exit(branch_exit(s3, yes, zero), no, other)
}

fn branch_target(b: &mut FunctionBuilder<'_>, n: usize, to: Dest) -> (r: u32)
    requires
        n <= MAX_NATIVE_OPS,
        n + 2 <= built(*old(b)).blocks < MAX_LISTING,
    ensures
        r == branch_block(built(*old(b)), n as int, to, 0),
        r < built(*final(b)).blocks,
        built(*final(b)) == more_blocks(built(*old(b)), exits(to)),
{
    match to {
        Dest::Block(i) => target_of(n, i),
        Dest::Exit(_) => create_block(b),
    }
}

fn emit_branch(b: &mut FunctionBuilder<'_>, n: usize, x: u32, zero: Dest, other: Dest)
    requires
        roomy(built(*old(b)), 20),
        n <= MAX_NATIVE_OPS,
        n + 2 <= built(*old(b)).blocks,
        has_value(built(*old(b)), x),
    ensures
        built(*final(b)) == branch_code(built(*old(b)), n as int, x, zero, other),
        grown(built(*old(b)), built(*final(b)), 20),
        built(*final(b)).filled.contains(built(*final(b)).at->Some_0),
{
    let z: u32 = iconst(b, ClifType::I64, 0);
    let c: u32 = compare(b, Cond::Equal, x, z);
    let yes: u32 = branch_target(b, n, zero);
    let no: u32 = branch_target(b, n, other);
    brif(b, c, yes, no);
    if let Dest::Exit(pc) = zero {
        switch_to_block(b, yes);
        write_exit(b, JIT_CONTINUE, pc, 0);
    }
    if let Dest::Exit(pc) = other {
        switch_to_block(b, no);
        write_exit(b, JIT_CONTINUE, pc, 0);
    }
}

/// The address of the call record at a depth.
pub open spec fn record_code(s: Listing, depth: u32) -> Listing {
    let size = next(s);
    let s1 = def(s, Insn::Iconst { ty: ClifType::I32, value: RECORD_BYTES });
    let narrow = next(s1);
    let s2 = def(s1, Insn::Imul { x: depth, y: size });
    let wide = next(s2);
    let s3 = def(s2, Insn::Uextend { x: narrow });
    def(s3, Insn::Iadd { x: CALLS, y: wide })
}

fn emit_record(b: &mut FunctionBuilder<'_>, depth: u32) -> (r: u32)
    requires
        open_for(built(*old(b)), 4),
        has_value(built(*old(b)), depth),
    ensures
        built(*final(b)) == record_code(built(*old(b)), depth),
        r == built(*final(b)).values - 1,
{
    let size: u32 = iconst(b, ClifType::I32, RECORD_BYTES);
    let narrow: u32 = imul(b, depth, size);
    let wide: u32 = uextend(b, narrow);
    iadd(b, CALLS, wide)
}

/// A call record is written.
pub open spec fn record_set(s: Listing, rec: u32, back: u32, dest: u8) -> Listing {
    let s1 = def(s, Insn::Iconst { ty: ClifType::I32, value: back as i64 });
    let s2 = put(s1, Insn::Store { x: next(s), addr: rec, offset: 0 });
    let s3 = def(s2, Insn::Load { ty: ClifType::I32, addr: FRAME, offset: OFF_FUNCTION });
    let s4 = put(s3, Insn::Store { x: next(s2), addr: rec, offset: REC_RETURN_FUNCTION });
    let s5 = def(s4, Insn::Iconst { ty: ClifType::I32, value: dest as i64 });
    let s6 = put(s5, Insn::Store { x: next(s4), addr: rec, offset: REC_DEST_REG });
    let s7 = def(s6, Insn::Load { ty: ClifType::I32, addr: FRAME, offset: OFF_REGISTER_COUNT });
    put(s7, Insn::Store { x: next(s6), addr: rec, offset: REC_REGISTER_COUNT })
}

fn write_record(b: &mut FunctionBuilder<'_>, rec: u32, back: u32, dest: u8)
    requires
        open_for(built(*old(b)), 8),
        has_value(built(*old(b)), rec),
    ensures
        built(*final(b)) == record_set(built(*old(b)), rec, back, dest),
{
    let v: u32 = iconst(b, ClifType::I32, back as i64);
    store(b, v, rec, 0);
    let v: u32 = load(b, ClifType::I32, FRAME, OFF_FUNCTION);
    store(b, v, rec, REC_RETURN_FUNCTION);
    let v: u32 = iconst(b, ClifType::I32, dest as i64);
    store(b, v, rec, REC_DEST_REG);
    let v: u32 = load(b, ClifType::I32, FRAME, OFF_REGISTER_COUNT);
    store(b, v, rec, REC_REGISTER_COUNT);
}

/// The offset of a slot.
pub open spec fn slot_offset(r: int) -> i32 {
    (SLOT_BYTES * r) as i32
}

/// The first `i` arguments, from slot `dest` on, are copied to the first
/// slots.
pub open spec fn args_code(s: Listing, dest: int, i: nat) -> Listing
    decreases i,
{
    if i == 0 {
        s
    } else {
        let t = args_code(s, dest, (i - 1) as nat);
        let t1 = def(
            t,
            Insn::Load { ty: ClifType::I64, addr: SLOTS, offset: slot_offset(dest + i - 1) },
        );
        put(t1, Insn::Store { x: next(t), addr: SLOTS, offset: slot_offset(i - 1) })
    }
}

fn copy_args(b: &mut FunctionBuilder<'_>, dest: u8, argc: u8)
    requires
        open_for(built(*old(b)), 512),
    ensures
        built(*final(b)) == args_code(built(*old(b)), dest as int, argc as nat),
        built(*final(b)) == (Listing {
            code: built(*final(b)).code,
            values: built(*old(b)).values + argc,
            ..built(*old(b))
        }),
        built(*final(b)).code.len() == built(*old(b)).code.len() + 2 * argc,
{
    let ghost s = built(*b);
    let mut i: u8 = 0;
    while i < argc
        invariant
            i <= argc,
            open_for(s, 512),
            built(*b) == args_code(s, dest as int, i as nat),
            built(*b) == (Listing { code: built(*b).code, values: s.values + i, ..s }),
            built(*b).code.len() == s.code.len() + 2 * i,
        decreases argc - i,
    {
        let from: i32 = (dest as i32 + i as i32) * 8;
        let v: u32 = load(b, ClifType::I64, SLOTS, from);
        store(b, v, SLOTS, i as i32 * 8);
        i += 1;
    }
}

/// A call within the code.
pub open spec fn enter_code(
    s: Listing,
    n: int,
    pc: u32,
    back: u32,
    callee: u32,
    dest: u8,
    argc: u8,
    registers: u8,
    block: usize,
) -> Listing {
    let depth = next(s);
    let s1 = def(s, Insn::Load { ty: ClifType::I32, addr: FRAME, offset: OFF_CALL_DEPTH });
    let most = next(s1);
    let s2 = def(s1, Insn::Iconst { ty: ClifType::I32, value: MAX_JIT_CALL_DEPTH as i64 });
    let deep = next(s2);
    let s3 = def(s2, Insn::Compare { cond: Cond::SignedGreaterEqual, x: depth, y: most });
    let stop = new_block(s, 0);
    let go = new_block(s, 1);
    let s4 = end(more_blocks(s3, 2), Insn::Brif { c: deep, yes: stop, no: go });
    let s5 = side_exit(s4, stop, JIT_EFFECT, pc, go);
    let s6 = record_code(s5, depth);
    let s7 = record_set(s6, (s6.values - 1) as u32, back, dest);
    let one = next(s7);
    let s8 = def(s7, Insn::Iconst { ty: ClifType::I32, value: 1 });
    let deeper = next(s8);
    let s9 = def(s8, Insn::Iadd { x: depth, y: one });
    let s10 = put(s9, Insn::Store { x: deeper, addr: FRAME, offset: OFF_CALL_DEPTH });
    let s11 = args_code(s10, dest as int, argc as nat);
    let s12 = field_set(s11, OFF_FUNCTION, callee);
    let s13 = field_set(s12, OFF_REGISTER_COUNT, registers as u32);
    end(s13, Insn::Jump { to: target(n, block as int) })
}

fn emit_call(
    b: &mut FunctionBuilder<'_>,
    n: usize,
    pc: u32,
    back: u32,
    callee: u32,
    dest: u8,
    argc: u8,
    registers: u8,
    block: usize,
)
    requires
        roomy(built(*old(b)), 600),
        n <= MAX_NATIVE_OPS,
        n + 2 <= built(*old(b)).blocks,
    ensures
        built(*final(b)) == enter_code(
            built(*old(b)),
            n as int,
            pc,
            back,
            callee,
            dest,
            argc,
            registers,
            block,
        ),
        grown(built(*old(b)), built(*final(b)), 600),
        built(*final(b)).filled.contains(built(*final(b)).at->Some_0),
{
    let depth: u32 = load(b, ClifType::I32, FRAME, OFF_CALL_DEPTH);
    let most: u32 = iconst(b, ClifType::I32, MAX_JIT_CALL_DEPTH as i64);
    let deep: u32 = compare(b, Cond::SignedGreaterEqual, depth, most);
    let stop: u32 = create_block(b);
    let go: u32 = create_block(b);
    brif(b, deep, stop, go);
    switch_to_block(b, stop);
    write_exit(b, JIT_EFFECT, pc, 0);
    switch_to_block(b, go);
    let rec: u32 = emit_record(b, depth);
    write_record(b, rec, back, dest);
    let one: u32 = iconst(b, ClifType::I32, 1);
    let deeper: u32 = iadd(b, depth, one);
    store(b, deeper, FRAME, OFF_CALL_DEPTH);
    copy_args(b, dest, argc);
    write_u32_field(b, OFF_FUNCTION, callee);
    write_u32_field(b, OFF_REGISTER_COUNT, registers as u32);
    let t: u32 = target_of(n, block);
    jump(b, t);
}


/// A return within the code, or out of it.
pub open spec fn leave_code(s: Listing, reg: u8, pc: u32) -> Listing {
    let depth = next(s);
    let s1 = def(s, Insn::Load { ty: ClifType::I32, addr: FRAME, offset: OFF_CALL_DEPTH });
    let zero = next(s1);
    let s2 = def(s1, Insn::Iconst { ty: ClifType::I32, value: 0 });
    let c = next(s2);
    let s3 = def(s2, Insn::Compare { cond: Cond::Equal, x: depth, y: zero });
    let outer = new_block(s, 0);
    let inner = new_block(s, 1);
    let s4 = end(more_blocks(s3, 2), Insn::Brif { c, yes: outer, no: inner });
    let s5 = exit_code(goto(s4, outer), JIT_RETURN, pc, reg as u32);
    back_code(goto(s5, inner), depth, reg)
}

/// A return to the caller that the last call record names.
pub open spec fn back_code(s: Listing, depth: u32, reg: u8) -> Listing {
    let one = next(s);
    let s1 = def(s, Insn::Iconst { ty: ClifType::I32, value: 1 });
    let up = next(s1);
    let s2 = def(s1, Insn::Isub { x: depth, y: one });
    let s3 = put(s2, Insn::Store { x: up, addr: FRAME, offset: OFF_CALL_DEPTH });
    let s4 = record_code(s3, up);
    let rec = (s4.values - 1) as u32;
    let back = next(s4);
    let s5 = def(s4, Insn::Load { ty: ClifType::I32, addr: rec, offset: 0 });
    let function = next(s5);
    let s6 = def(
        s5,
        Insn::Load { ty: ClifType::I32, addr: rec, offset: REC_RETURN_FUNCTION },
    );
    let dest = next(s6);
    let s7 = def(s6, Insn::Load { ty: ClifType::I32, addr: rec, offset: REC_DEST_REG });
    let registers = next(s7);
    let s8 = def(s7, Insn::Load { ty: ClifType::I32, addr: rec, offset: REC_REGISTER_COUNT });
    let s9 = result_code(s8, dest, reg);
    let s10 = put(s9, Insn::Store { x: function, addr: FRAME, offset: OFF_FUNCTION });
    let s11 = put(s10, Insn::Store { x: registers, addr: FRAME, offset: OFF_REGISTER_COUNT });
    let s12 = field_set(s11, OFF_EXIT_KIND, JIT_CONTINUE);
    let s13 = put(s12, Insn::Store { x: back, addr: FRAME, offset: OFF_PC });
    let s14 = field_set(s13, OFF_RETURN_REG, 0);
    end(s14, Insn::Return)
}

/// Slot `reg` is copied to the slot whose number is `dest`.
pub open spec fn result_code(s: Listing, dest: u32, reg: u8) -> Listing {
    let v = next(s);
    let s1 = def(
        s,
        Insn::Load { ty: ClifType::I64, addr: SLOTS, offset: slot_offset(reg as int) },
    );
    let size = next(s1);
    let s2 = def(s1, Insn::Iconst { ty: ClifType::I32, value: SLOT_BYTES });
    let narrow = next(s2);
    let s3 = def(s2, Insn::Imul { x: dest, y: size });
    let wide = next(s3);
    let s4 = def(s3, Insn::Uextend { x: narrow });
    let addr = next(s4);
    let s5 = def(s4, Insn::Iadd { x: SLOTS, y: wide });
    put(s5, Insn::Store { x: v, addr, offset: 0 })
}

fn emit_result(b: &mut FunctionBuilder<'_>, dest: u32, reg: u8)
    requires
        open_for(built(*old(b)), 6),
        has_value(built(*old(b)), dest),
    ensures
        built(*final(b)) == result_code(built(*old(b)), dest, reg),
{
    let v: u32 = load(b, ClifType::I64, SLOTS, reg as i32 * 8);
    let size: u32 = iconst(b, ClifType::I32, SLOT_BYTES);
    let narrow: u32 = imul(b, dest, size);
    let wide: u32 = uextend(b, narrow);
    let addr: u32 = iadd(b, SLOTS, wide);
    store(b, v, addr, 0);
}

fn emit_back(b: &mut FunctionBuilder<'_>, depth: u32, reg: u8)
    requires
        open_for(built(*old(b)), 24),
        has_value(built(*old(b)), depth),
    ensures
        built(*final(b)) == back_code(built(*old(b)), depth, reg),
{
    let one: u32 = iconst(b, ClifType::I32, 1);
    let up: u32 = isub(b, depth, one);
    store(b, up, FRAME, OFF_CALL_DEPTH);
    let rec: u32 = emit_record(b, up);
    let back: u32 = load(b, ClifType::I32, rec, 0);
    let function: u32 = load(b, ClifType::I32, rec, REC_RETURN_FUNCTION);
    let dest: u32 = load(b, ClifType::I32, rec, REC_DEST_REG);
    let registers: u32 = load(b, ClifType::I32, rec, REC_REGISTER_COUNT);
    emit_result(b, dest, reg);
    store(b, function, FRAME, OFF_FUNCTION);
    store(b, registers, FRAME, OFF_REGISTER_COUNT);
    write_u32_field(b, OFF_EXIT_KIND, JIT_CONTINUE);
    store(b, back, FRAME, OFF_PC);
    write_u32_field(b, OFF_RETURN_REG, 0);
    return_(b);
}

fn emit_return(b: &mut FunctionBuilder<'_>, reg: u8, pc: u32)
    requires
        roomy(built(*old(b)), 40),
    ensures
        built(*final(b)) == leave_code(built(*old(b)), reg, pc),
        grown(built(*old(b)), built(*final(b)), 40),
        built(*final(b)).filled.contains(built(*final(b)).at->Some_0),
{
    let depth: u32 = load(b, ClifType::I32, FRAME, OFF_CALL_DEPTH);
    let zero: u32 = iconst(b, ClifType::I32, 0);
    let c: u32 = compare(b, Cond::Equal, depth, zero);
    let outer: u32 = create_block(b);
    let inner: u32 = create_block(b);
    brif(b, c, outer, inner);
    switch_to_block(b, outer);
    write_exit(b, JIT_RETURN, pc, reg as u32);
    switch_to_block(b, inner);
    emit_back(b, depth, reg);
}


/// A block on its way, with the values it has defined, or ended.
pub ghost enum Lowering {
    Going(Listing, Seq<u32>),
    Ended(Listing),
}

/// The listing so far.
pub open spec fn so_far(l: Lowering) -> Listing {
    match l {
        Lowering::Going(s, _) => s,
        Lowering::Ended(s) => s,
    }
}

/// One operation of code of `n` blocks.
pub open spec fn op_code(n: int, op: Op, s: Listing, env: Seq<u32>) -> Lowering {
    match op {
        Op::Tick { pc } => Lowering::Going(tick_code(s, pc), env),
        Op::Const { value } => Lowering::Going(
            def(s, Insn::Iconst { ty: ClifType::I64, value }),
            env.push(next(s)),
        ),
        Op::Load { reg } => Lowering::Going(
            def(
                s,
                Insn::Load { ty: ClifType::I64, addr: SLOTS, offset: slot_offset(reg as int) },
            ),
            env.push(next(s)),
        ),
        Op::Store { reg, src } => {
            let (t, x) = operand_code(s, env, src);
            Lowering::Going(
                put(t, Insn::Store { x, addr: SLOTS, offset: slot_offset(reg as int) }),
                env,
            )
        },
        Op::Bin { op, lhs, rhs } => {
            let (t, x) = operand_code(s, env, lhs);
            let (u, y) = operand_code(t, env, rhs);
            let w = binary_code(u, op, x, y);
            Lowering::Going(w, env.push((w.values - 1) as u32))
        },
        Op::TrapIfZero { src, pc } => {
            let (t, x) = operand_code(s, env, src);
            Lowering::Going(trap_code(t, x, pc), env)
        },
        Op::Jump { to } => Lowering::Ended(jump_code(s, n, to)),
        Op::BranchZero { src, zero, other } => {
            let (t, x) = operand_code(s, env, src);
            Lowering::Ended(branch_code(t, n, x, zero, other))
        },
        Op::Exit { kind, pc, return_reg } => Lowering::Ended(
            exit_code(s, kind, pc, return_reg),
        ),
        Op::Enter { pc, back, callee, dest, argc, registers, block } => Lowering::Ended(
            enter_code(s, n, pc, back, callee, dest, argc, registers, block),
        ),
        Op::Leave { reg, pc } => Lowering::Ended(leave_code(s, reg, pc)),
    }
}

#[verifier::rlimit(40)]
fn lower_op(b: &mut FunctionBuilder<'_>, n: usize, op: Op, env: &mut Vec<u32>) -> (going: bool)
    requires
        roomy(built(*old(b)), 700),
        env_ok(built(*old(b)), old(env)@),
        n <= MAX_NATIVE_OPS,
        n + 2 <= built(*old(b)).blocks,
    ensures
        op_code(n as int, op, built(*old(b)), old(env)@) == (if going {
            Lowering::Going(built(*final(b)), final(env)@)
        } else {
            Lowering::Ended(built(*final(b)))
        }),
        grown(built(*old(b)), built(*final(b)), 700),
        going == !built(*final(b)).filled.contains(built(*final(b)).at->Some_0),
        going ==> env_ok(built(*final(b)), final(env)@),
{
    match op {
        Op::Tick { pc } => {
            emit_budget_tick(b, pc);
            true
        },
        Op::Const { value } => {
            let v: u32 = iconst(b, ClifType::I64, value);
            env.push(v);
            true
        },
        Op::Load { reg } => {
            let v: u32 = load(b, ClifType::I64, SLOTS, reg as i32 * 8);
            env.push(v);
            true
        },
        Op::Store { reg, src } => {
            let x: u32 = operand(b, env, src);
            store(b, x, SLOTS, reg as i32 * 8);
            true
        },
        Op::Bin { op, lhs, rhs } => {
            let x: u32 = operand(b, env, lhs);
            let y: u32 = operand(b, env, rhs);
            let v: u32 = emit_binary(b, op, x, y);
            env.push(v);
            true
        },
        Op::TrapIfZero { src, pc } => {
            let x: u32 = operand(b, env, src);
            emit_trap(b, x, pc);
            true
        },
        Op::Jump { to } => {
            emit_jump(b, n, to);
            false
        },
        Op::BranchZero { src, zero, other } => {
            let x: u32 = operand(b, env, src);
            emit_branch(b, n, x, zero, other);
            false
        },
        Op::Exit { kind, pc, return_reg } => {
            write_exit(b, kind, pc, return_reg);
            false
        },
        Op::Enter { pc, back, callee, dest, argc, registers, block } => {
            emit_call(b, n, pc, back, callee, dest, argc, registers, block);
            false
        },
        Op::Leave { reg, pc } => {
            emit_return(b, reg, pc);
            false
        },
    }
}

/// One operation, if the block is still on its way.
pub open spec fn op_code_next(n: int, op: Op, l: Lowering) -> Lowering {
    match l {
        Lowering::Going(s, env) => op_code(n, op, s, env),
        Lowering::Ended(_) => l,
    }
}

/// The operations of a block.
pub open spec fn ops_code(n: int, ops: Seq<Op>, s: Listing) -> Lowering
    decreases ops.len(),
{
    if ops.len() == 0 {
        Lowering::Going(s, Seq::empty())
    } else {
        op_code_next(n, ops.last(), ops_code(n, ops.drop_last(), s))
    }
}

/// A block. Code that runs past its end does not apply.
pub open spec fn block_code(n: int, ops: Seq<Op>, s: Listing) -> Listing {
    match ops_code(n, ops, s) {
        Lowering::Going(t, _) => end(t, Insn::Jump { to: target(n, n) }),
        Lowering::Ended(t) => t,
    }
}

/// The first `k` blocks.
pub open spec fn blocks_code(blocks: Seq<Seq<Op>>, k: nat, s: Listing) -> Listing
    decreases k,
{
    if k == 0 {
        s
    } else {
        let t = blocks_code(blocks, (k - 1) as nat, s);
        block_code(blocks.len() as int, blocks[k - 1], goto(t, target(blocks.len() as int, k - 1)))
    }
}

/// The entry of the function: the pointers are read, and the first block of
/// the code follows.
pub open spec fn entry_code(n: int) -> Listing {
    let s = goto(Listing { blocks: 1, values: 1, ..empty_listing() }, 0);
    let s1 = def(s, Insn::Load { ty: ClifType::I64, addr: FRAME, offset: OFF_SLOTS });
    let s2 = def(s1, Insn::Load { ty: ClifType::I64, addr: FRAME, offset: OFF_CALL_STACK });
    end(more_blocks(s2, n + 1), Insn::Jump { to: target(n, 0) })
}

/// The function for compiled code.
pub open spec fn native_code(blocks: Seq<Seq<Op>>) -> Listing {
    let n = blocks.len() as int;
    let s = blocks_code(blocks, blocks.len(), entry_code(n));
    let t = exit_code(goto(s, target(n, n)), JIT_DEOPT, 0, 0);
    Listing { sealed: true, ..t }
}

/// How many operations the first `k` blocks have.
pub open spec fn op_count(blocks: Seq<Seq<Op>>, k: nat) -> int
    decreases k,
{
    if k == 0 {
        0
    } else {
        op_count(blocks, (k - 1) as nat) + blocks[k - 1].len()
    }
}

/// Whether compiled code is lowered.
pub open spec fn lowers(blocks: Seq<Seq<Op>>) -> bool {
    blocks.len() <= MAX_NATIVE_OPS && op_count(blocks, blocks.len()) <= MAX_NATIVE_OPS
}


/// What lowering `m` operations does to the blocks there are.
pub open spec fn spread(s: Listing, t: Listing, m: int) -> bool {
    &&& settled(t)
    &&& s.blocks <= t.blocks <= s.blocks + 2 * m
    &&& s.values <= t.values <= s.values + 700 * m
    &&& s.code.len() <= t.code.len() <= s.code.len() + 700 * m
    &&& t.at == s.at || s.blocks <= t.at->Some_0
    &&& forall|b: u32|
        b < s.blocks && b != s.at->Some_0 ==> (#[trigger] t.filled.contains(b)
            == s.filled.contains(b))
}

/// An ended block stays as it is.
proof fn ended_block_stays(n: int, ops: Seq<Op>, k: nat, s: Listing)
    requires
        k <= ops.len(),
        ops_code(n, ops.take(k as int), s) is Ended,
    ensures
        ops_code(n, ops, s) == ops_code(n, ops.take(k as int), s),
    decreases ops.len() - k,
{
    if k == ops.len() {
        assert(ops.take(k as int) =~= ops);
    } else {
        assert(ops.take((k + 1) as int).drop_last() =~= ops.take(k as int));
        ended_block_stays(n, ops, k + 1, s);
    }
}

fn lower_block(b: &mut FunctionBuilder<'_>, n: usize, ops: &Vec<Op>)
    requires
        open_for(built(*old(b)), 700 * (ops@.len() + 1) as int),
        built(*old(b)).blocks + 2 * ops@.len() + 2 < MAX_LISTING,
        n <= MAX_NATIVE_OPS,
        n + 2 <= built(*old(b)).blocks,
    ensures
        built(*final(b)) == block_code(n as int, ops@, built(*old(b))),
        spread(built(*old(b)), built(*final(b)), ops@.len() as int + 1),
        built(*final(b)).filled.contains(built(*final(b)).at->Some_0),
{
    let ghost s = built(*b);
    let mut env: Vec<u32> = Vec::new();
    let mut k: usize = 0;
    assert(ops@.take(0) =~= Seq::<Op>::empty());
    while k < ops.len()
        invariant
            k <= ops@.len(),
            open_for(s, 700 * (ops@.len() + 1) as int),
            s.blocks + 2 * ops@.len() + 2 < MAX_LISTING,
            n <= MAX_NATIVE_OPS,
            n + 2 <= s.blocks,
            s == built(*old(b)),
            ops_code(n as int, ops@.take(k as int), s) == Lowering::Going(built(*b), env@),
            spread(s, built(*b), k as int),
            !built(*b).filled.contains(built(*b).at->Some_0),
            env_ok(built(*b), env@),
        decreases ops@.len() - k,
    {
        assert(ops@.take(k + 1).drop_last() =~= ops@.take(k as int));
        assert(ops@.take(k + 1).last() == ops@[k as int]);
        if !lower_op(b, n, ops[k], &mut env) {
            proof {
                ended_block_stays(n as int, ops@, (k + 1) as nat, s);
            }
            return;
        }
        k += 1;
    }
    assert(ops@.take(k as int) =~= ops@);
    let t: u32 = target_of(n, n);
    jump(b, t);
}

/// What holds when the first `k` of `n` blocks are lowered.
pub open spec fn blocks_done(s: Listing, n: int, k: int, ops: int) -> bool {
    &&& settled(s)
    &&& s.filled.contains(s.at->Some_0)
    &&& n + 2 <= s.blocks <= n + 2 + 2 * (ops + k)
    &&& s.values <= 3 + 700 * (ops + k)
    &&& s.code.len() <= 3 + 700 * (ops + k)
    &&& forall|b: u32| k < b <= n + 1 ==> !#[trigger] s.filled.contains(b)
}

fn count_ops(code: &TraceCode) -> (r: Option<usize>)
    ensures
        r is Some <==> op_count(code_states(code.blocks@), code.blocks@.len())
            <= MAX_NATIVE_OPS,
        r matches Some(c) ==> c == op_count(code_states(code.blocks@), code.blocks@.len()),
{
    let ghost all = code_states(code.blocks@);
    let mut total: usize = 0;
    let mut k: usize = 0;
    while k < code.blocks.len()
        invariant
            k <= code.blocks@.len(),
            all == code_states(code.blocks@),
            total == op_count(all, k as nat),
            total <= MAX_NATIVE_OPS,
        decreases code.blocks@.len() - k,
    {
        assert(all[k as int] == code.blocks@[k as int].ops@);
        let more: usize = code.blocks[k].ops.len();
        if more > MAX_NATIVE_OPS - total {
            proof {
                op_count_grows(all, (k + 1) as nat, code.blocks@.len());
            }
            return None;
        }
        total = total + more;
        k += 1;
    }
    Some(total)
}

/// More blocks have no fewer operations.
pub proof fn op_count_grows(blocks: Seq<Seq<Op>>, k: nat, m: nat)
    requires
        k <= m,
    ensures
        op_count(blocks, k) <= op_count(blocks, m),
    decreases m,
{
    if k < m {
        op_count_grows(blocks, k, (m - 1) as nat);
    }
}

/// Build the function for compiled code.
pub fn lower_trace(b: &mut FunctionBuilder<'_>, code: &TraceCode) -> (r: Result<
    (),
    CompileError,
>)
    requires
        built(*old(b)) == empty_listing(),
    ensures
        match r {
            Ok(_) => {
                &&& lowers(code_states(code.blocks@))
                &&& built(*final(b)) == native_code(code_states(code.blocks@))
            },
            Err(e) => {
                &&& !lowers(code_states(code.blocks@))
                &&& e == (CompileError::TraceTooLong { pc: 0, limit: MAX_NATIVE_OPS })
                &&& built(*final(b)) == built(*old(b))
            },
        },
{
    let ghost all = code_states(code.blocks@);
    let n: usize = code.blocks.len();
    if n > MAX_NATIVE_OPS {
        return Err(CompileError::TraceTooLong { pc: 0, limit: MAX_NATIVE_OPS });
    }
    let total: usize = match count_ops(code) {
        Some(c) => c,
        None => return Err(CompileError::TraceTooLong { pc: 0, limit: MAX_NATIVE_OPS }),
    };
    let entry: u32 = create_block(b);
    append_function_params(b, entry);
    switch_to_block(b, entry);
    load(b, ClifType::I64, FRAME, OFF_SLOTS);
    load(b, ClifType::I64, FRAME, OFF_CALL_STACK);
    let ghost s2 = built(*b);
    let mut i: usize = 0;
    while i <= n
        invariant
            i <= n + 1,
            n <= MAX_NATIVE_OPS,
            s2.blocks == 1,
            built(*b) == more_blocks(s2, i as int),
        decreases n + 1 - i,
    {
        create_block(b);
        i += 1;
    }
    let first: u32 = target_of(n, 0);
    jump(b, first);
    let ghost s = built(*b);
    assert(s == entry_code(n as int));
    let mut k: usize = 0;
    while k < n
        invariant
            k <= n == code.blocks@.len(),
            n <= MAX_NATIVE_OPS,
            total <= MAX_NATIVE_OPS,
            total == op_count(all, n as nat),
            all == code_states(code.blocks@),
            built(*b) == blocks_code(all, k as nat, s),
            blocks_done(built(*b), n as int, k as int, op_count(all, k as nat)),
        decreases n - k,
    {
        assert(all[k as int] == code.blocks@[k as int].ops@);
        proof {
            op_count_grows(all, (k + 1) as nat, n as nat);
            op_count_grows(all, 0, k as nat);
        }
        let at: u32 = target_of(n, k);
        switch_to_block(b, at);
        lower_block(b, n, &code.blocks[k].ops);
        k += 1;
    }
    let last: u32 = target_of(n, n);
    switch_to_block(b, last);
    write_exit(b, JIT_DEOPT, 0, 0);
    seal_all_blocks(b);
    Ok(())
}

/// A function that native code is built in.
pub struct NativeUnit {
    pub func: Function,
    pub context: FunctionBuilderContext,
}

impl NativeUnit {
    /// Nothing is built yet.
    pub open spec fn is_blank(self) -> bool {
        held(self.func) == empty_listing() && idle(self.context)
    }

    /// A function with nothing in it.
    pub fn new(number: u32, conv: CallConv) -> (r: Self)
        ensures
            r.is_blank(),
    {
        NativeUnit { func: new_function(number, conv), context: new_context() }
    }

    /// Build the function for compiled code. What comes back holds it, to
    /// be finished.
    pub fn lower<'a>(&'a mut self, code: &TraceCode) -> (r: Result<
        FunctionBuilder<'a>,
        CompileError,
    >)
        requires
            old(self).is_blank(),
        ensures
            match r {
                Ok(b) => {
                    &&& lowers(code_states(code.blocks@))
                    &&& built(b) == native_code(code_states(code.blocks@))
                },
                Err(e) => {
                    &&& !lowers(code_states(code.blocks@))
                    &&& e == (CompileError::TraceTooLong { pc: 0, limit: MAX_NATIVE_OPS })
                },
            },
    {
        let mut b = new_builder(&mut self.func, &mut self.context);
        match lower_trace(&mut b, code) {
            Ok(_) => Ok(b),
            Err(e) => Err(e),
        }
    }
}

} // verus!
