//! Native code does what compiled code does.

use vstd::prelude::*;

use crate::bytecode::chunk::Chunk;
use crate::jit::clif::{
    def, empty_listing, end, goto, more_blocks, put, ClifType, Cond, Insn, Listing, Placed,
    MAX_LISTING,
};
use crate::jit::code::{
    code_run, code_states, leave_of, op_run, ops_run, pays, value_at, Dest, Op, OpOut, OpState,
};
use crate::jit::compiler::{is_trace_of, trace_ctx};
use crate::jit::exit::{JIT_BUDGET, JIT_CONTINUE, JIT_DEOPT, JIT_EFFECT, JIT_RETURN, JIT_TRAP};
use crate::jit::meaning::{
    block_start, falls_through, holds, leads, performed, result_word, stepped, walked, word,
    written, Native, Point, Word,
};
use crate::jit::native::{
    args_code, back_code, binary_code, block_code, blocks_code, branch_block, branch_code,
    branch_exit, division_code, enter_code, entry_code, exit_code, exits, field_set, flag_code,
    jump_code, leave_code, lowers, native_code, new_block, next, op_code, op_count, op_count_grows,
    operand_code, ops_code, record_code, record_set, result_code, settled, slot_offset, so_far,
    target, tick_code, trap_code, Lowering, CALLS, FRAME, NATIVE_SLOTS, OFF_BUDGET, OFF_CALL_DEPTH,
    OFF_CALL_STACK, OFF_EXIT_KIND, OFF_FUNCTION, OFF_PC, OFF_REGISTER_COUNT, OFF_RETURN_REG,
    OFF_SLOTS, RECORD_BYTES, REC_DEST_REG, REC_REGISTER_COUNT, REC_RETURN_FUNCTION, SLOTS,
    SLOT_BYTES,
};
use crate::jit::region::region_of;
use crate::jit::semantics::{
    args_copied, deopt, entered, flag, mem_get, mem_set, returned_from, scalar, trace_run, BinOp,
    JitCallRecord, Leave, Mach, MAX_JIT_CALL_DEPTH,
};
use crate::jit::trace::{CompiledTrace, TraceKey};
use crate::vm::state::{magnitude, quotient, remainder};

verus! {

/// The first instructions of `code` are those of `a`.
pub open spec fn prefix(a: Seq<Placed>, code: Seq<Placed>) -> bool {
    a.len() <= code.len() && forall|k: int| 0 <= k < a.len() ==> #[trigger] code[k] == a[k]
}

/// The code has come to the end of a listing.
pub open spec fn reach(code: Seq<Placed>, p: Point, s: Listing, st: Native) -> bool {
    leads(code, p, Point::At(s.code.len() as int, st))
}

/// Every instruction is in a block with a smaller number.
pub open spec fn below(a: Seq<Placed>, b: int) -> bool {
    forall|k: int| 0 <= k < a.len() ==> (#[trigger] a[k]).block < b
}

broadcast proof fn below_push(a: Seq<Placed>, x: Placed, b: int)
    requires
        below(a, b),
        x.block < b,
    ensures
        #[trigger] below(a.push(x), b),
{
}

proof fn below_more(a: Seq<Placed>, b: int, c: int)
    requires
        below(a, b),
        b <= c,
    ensures
        below(a, c),
{
}

proof fn walks_join(code: Seq<Placed>, p: Point, a: nat, b: nat)
    ensures
        walked(code, p, a + b) == walked(code, walked(code, p, a), b),
    decreases b,
{
    if b > 0 {
        walks_join(code, p, a, (b - 1) as nat);
    }
}

proof fn leads_on(code: Seq<Placed>, p: Point, q: Point, r: Point)
    requires
        leads(code, p, q),
        leads(code, q, r),
    ensures
        leads(code, p, r),
{
    let a = choose|n: nat| #[trigger] walked(code, p, n) == q;
    let b = choose|n: nat| #[trigger] walked(code, q, n) == r;
    walks_join(code, p, a, b);
    assert(walked(code, p, a + b) == r);
}

proof fn leads_step(code: Seq<Placed>, p: Point, q: Point)
    requires
        leads(code, p, q),
    ensures
        leads(code, p, stepped(code, q)),
{
    let a = choose|n: nat| #[trigger] walked(code, p, n) == q;
    assert(walked(code, p, a + 1) == stepped(code, q));
}

/// A shorter listing is a prefix too.
broadcast proof fn prefix_shorter(a: Seq<Placed>, x: Placed, code: Seq<Placed>)
    requires
        #[trigger] prefix(a.push(x), code),
    ensures
        prefix(a, code),
        code[a.len() as int] == x,
        a.len() < code.len(),
{
    assert forall|k: int| 0 <= k < a.len() implies #[trigger] code[k] == a[k] by {
        assert(code[k] == a.push(x)[k]);
    }
    assert(code[a.len() as int] == a.push(x)[a.len() as int]);
}

/// One instruction that falls through.
proof fn run_one(code: Seq<Placed>, p: Point, s: Listing, i: Insn, st: Native) -> (st2: Native)
    requires
        reach(code, p, s, st),
        prefix(put(s, i).code, code),
        falls_through(i),
    ensures
        st2 == performed(st, i, s.values),
        leads(code, p, Point::At(s.code.len() as int + 1, st2)),
{
    broadcast use prefix_shorter;

    leads_step(code, p, Point::At(s.code.len() as int, st));
    performed(st, i, s.values)
}

proof fn start_found(code: Seq<Placed>, block: u32, from: int, at: int)
    requires
        0 <= from <= at < code.len(),
        forall|k: int| from <= k < at ==> (#[trigger] code[k]).block != block,
        code[at].block == block,
    ensures
        block_start(code, block, from) == at,
    decreases at - from,
{
    if from < at {
        start_found(code, block, from + 1, at);
    }
}

/// A new block starts where its first instruction was inserted.
proof fn new_block_start(code: Seq<Placed>, s: Listing, block: u32)
    requires
        prefix(s.code, code),
        s.code.len() < code.len(),
        code[s.code.len() as int].block == block,
        forall|k: int| 0 <= k < s.code.len() ==> (#[trigger] s.code[k]).block != block,
    ensures
        block_start(code, block, 0) == s.code.len(),
{
    assert forall|k: int| 0 <= k < s.code.len() implies (#[trigger] code[k]).block != block by {
        assert(code[k] == s.code[k]);
        assert(s.code[k].block != block);
    }
    start_found(code, block, 0, s.code.len() as int);
}

/// A branch.
proof fn run_branch(code: Seq<Placed>, p: Point, s: Listing, c: u32, yes: u32, no: u32, st: Native)
    requires
        reach(code, p, s, st),
        prefix(put(s, Insn::Brif { c, yes, no }).code, code),
    ensures
        leads(
            code,
            p,
            Point::At(
                block_start(
                    code,
                    if word(st, c) == Word::Flag(true) {
                        yes
                    } else {
                        no
                    },
                    0,
                ),
                st,
            ),
        ),
{
    broadcast use prefix_shorter;

    leads_step(code, p, Point::At(s.code.len() as int, st));
}

/// The pointers are where native code expects them.
pub open spec fn pointers(st: Native) -> bool {
    &&& st.words[0] == Word::Frame
    &&& st.words[1] == Word::Slots(0)
    &&& st.words[2] == Word::Calls(0)
}

/// A field of the frame is set.
proof fn field_agrees(
    code: Seq<Placed>,
    p: Point,
    s: Listing,
    offset: i32,
    value: u32,
    st: Native,
) -> (st2: Native)
    requires
        reach(code, p, s, st),
        prefix(field_set(s, offset, value).code, code),
        3 <= s.values < MAX_LISTING,
        pointers(st),
    ensures
        reach(code, p, field_set(s, offset, value), st2),
        pointers(st2),
        st2 == (Native {
            words: st.words.insert(s.values, Word::Short(value)),
            ..written(st, Word::Frame, offset, Word::Short(value))
        }),
{
    broadcast use prefix_shorter;

    let i1 = Insn::Iconst { ty: ClifType::I32, value: value as i64 };
    let s1 = def(s, i1);
    let i2 = Insn::Store { x: next(s), addr: FRAME, offset };
    assert(prefix(put(s1, i2).code, code));
    let st1 = run_one(code, p, s, i1, st);
    assert(st1.words =~= st.words.insert(s.values, Word::Short(value)));
    let st2 = run_one(code, p, s1, i2, st1);
    assert(word(st1, FRAME) == Word::Frame);
    assert(word(st1, next(s)) == Word::Short(value));
    st2
}

/// The function returns, and the frame says why.
proof fn exit_agrees(
    code: Seq<Placed>,
    p: Point,
    s: Listing,
    kind: u32,
    pc: u32,
    return_reg: u32,
    st: Native,
) -> (st2: Native)
    requires
        reach(code, p, s, st),
        prefix(exit_code(s, kind, pc, return_reg).code, code),
        3 <= s.values,
        s.values + 8 < MAX_LISTING,
        pointers(st),
    ensures
        leads(code, p, Point::Done(st2)),
        st2 == (Native { words: st2.words, kind, pc, return_reg, ..st }),
        pointers(st2),
{
    broadcast use prefix_shorter;

    let t1 = field_set(s, OFF_EXIT_KIND, kind);
    let t2 = field_set(t1, OFF_PC, pc);
    let t3 = field_set(t2, OFF_RETURN_REG, return_reg);
    assert(prefix(put(t3, Insn::Return).code, code));
    assert(prefix(t3.code, code));
    assert(prefix(t2.code, code));
    assert(prefix(t1.code, code));
    let st1 = field_agrees(code, p, s, OFF_EXIT_KIND, kind, st);
    let st2 = field_agrees(code, p, t1, OFF_PC, pc, st1);
    let st3 = field_agrees(code, p, t2, OFF_RETURN_REG, return_reg, st2);
    leads_step(code, p, Point::At(t3.code.len() as int, st3));
    st3
}


/// Native code is where compiled code is.
pub open spec fn matches_state(st: Native, m: Mach) -> bool {
    &&& pointers(st)
    &&& st.mem == m.mem
    &&& m.mem.len() == NATIVE_SLOTS
    &&& st.budget == m.budget
    &&& st.function == m.function
    &&& st.registers == m.registers
    &&& st.depth == m.stack.len()
    &&& m.stack.len() <= MAX_JIT_CALL_DEPTH
    &&& st.calls.len() == MAX_JIT_CALL_DEPTH
    &&& forall|k: int|
        0 <= k < m.stack.len() ==> (#[trigger] st.calls[k]) == m.stack[k] && m.stack[k].dest_reg
            <= u8::MAX
}

/// The values that a block has defined.
pub open spec fn matches_env(st: Native, env: Seq<u32>, vals: Seq<i64>) -> bool {
    &&& env.len() == vals.len()
    &&& forall|i: int| 0 <= i < env.len() ==> word(st, #[trigger] env[i]) == Word::Long(vals[i])
}

/// Defined values are below the next one, and above the pointers.
pub open spec fn env_below(s: Listing, env: Seq<u32>) -> bool {
    forall|i: int| 0 <= i < env.len() ==> 3 <= #[trigger] env[i] < s.values
}

/// What holds between operations.
pub open spec fn between(s: Listing) -> bool {
    &&& settled(s)
    &&& below(s.code, s.blocks)
    &&& s.values + 700 < MAX_LISTING
    &&& s.blocks + 2 < MAX_LISTING
}

/// The state differs in the values from `v` on only.
pub open spec fn same_but_new(st: Native, st2: Native, v: int) -> bool {
    &&& st2 == (Native { words: st2.words, ..st })
    &&& forall|k: int| k < v ==> #[trigger] st2.words[k] == st.words[k]
}

proof fn pointers_stay(st: Native, st2: Native, v: int)
    requires
        pointers(st),
        3 <= v,
        forall|k: int| k < v ==> #[trigger] st2.words[k] == st.words[k],
    ensures
        pointers(st2),
{
    assert(st2.words[0] == st.words[0]);
    assert(st2.words[1] == st.words[1]);
    assert(st2.words[2] == st.words[2]);
}

/// A step that leaves the call records alone.
proof fn state_moves(st: Native, st2: Native, m: Mach, m2: Mach)
    requires
        matches_state(st, m),
        pointers(st2),
        st2.calls == st.calls,
        st2.depth == st.depth,
        m2.stack == m.stack,
        st2.mem == m2.mem,
        m2.mem.len() == m.mem.len(),
        st2.budget == m2.budget,
        st2.function == m2.function,
        st2.registers == m2.registers,
    ensures
        matches_state(st2, m2),
{
    assert forall|k: int| 0 <= k < m2.stack.len() implies (#[trigger] st2.calls[k]) == m2.stack[k]
        && m2.stack[k].dest_reg <= u8::MAX by {
        assert(st.calls[k] == m.stack[k]);
    }
}

/// One instruction is paid for, or the function returns.
#[verifier::rlimit(40)]
proof fn tick_agrees(code: Seq<Placed>, p: Point, s: Listing, pc: u32, st: Native, m: Mach) -> (st2:
    Native)
    requires
        reach(code, p, s, st),
        prefix(tick_code(s, pc).code, code),
        between(s),
        matches_state(st, m),
    ensures
        m.budget == 0 ==> leads(code, p, Point::Done(st2)) && st2 == (Native {
            words: st2.words,
            kind: JIT_BUDGET,
            pc,
            return_reg: 0,
            ..st
        }) && pointers(st2),
        m.budget > 0 ==> reach(code, p, tick_code(s, pc), st2) && same_but_new(
            Native { budget: (st.budget - 1) as u32, ..st },
            st2,
            s.values,
        ),
{
    broadcast use {prefix_shorter, below_push};

    let budget = next(s);
    let i1 = Insn::Load { ty: ClifType::I32, addr: FRAME, offset: OFF_BUDGET };
    let s1 = def(s, i1);
    let zero = next(s1);
    let i2 = Insn::Iconst { ty: ClifType::I32, value: 0 };
    let s2 = def(s1, i2);
    let c = next(s2);
    let i3 = Insn::Compare { cond: Cond::Equal, x: budget, y: zero };
    let s3 = def(s2, i3);
    let stop = new_block(s, 0);
    let go = new_block(s, 1);
    let i4 = Insn::Brif { c, yes: stop, no: go };
    let s4 = end(more_blocks(s3, 2), i4);
    let s4b = goto(s4, stop);
    let s5b = exit_code(s4b, JIT_BUDGET, pc, 0);
    let s5 = goto(s5b, go);
    let one = next(s5);
    let i6 = Insn::Iconst { ty: ClifType::I32, value: 1 };
    let s6 = def(s5, i6);
    let left = next(s6);
    let i7 = Insn::Isub { x: budget, y: one };
    let s7 = def(s6, i7);
    let i8 = Insn::Store { x: left, addr: FRAME, offset: OFF_BUDGET };
    assert(tick_code(s, pc) == put(s7, i8));
    assert(prefix(s5b.code, code));
    let st1 = run_one(code, p, s, i1, st);
    let st2 = run_one(code, p, s1, i2, st1);
    let st3 = run_one(code, p, s2, i3, st2);
    assert(st3.words[c as int] == Word::Flag(m.budget == 0));
    run_branch(code, p, s3, c, stop, go, st3);
    if m.budget == 0 {
        assert(below(s4.code, s.blocks));
        assert(code[s4.code.len() as int].block == stop);
        new_block_start(code, s4, stop);
        exit_agrees(code, p, s4b, JIT_BUDGET, pc, 0, st3)
    } else {
        below_more(s4.code, s.blocks, s.blocks + 1);
        assert(below(s5.code, s.blocks + 1));
        assert(code[s5.code.len() as int].block == go);
        new_block_start(code, s5, go);
        let st5 = run_one(code, p, s5, i6, st3);
        let st6 = run_one(code, p, s6, i7, st5);
        let st7 = run_one(code, p, s7, i8, st6);
        st7
    }
}


/// The value with a number.
proof fn operand_agrees(
    code: Seq<Placed>,
    p: Point,
    s: Listing,
    env: Seq<u32>,
    vals: Seq<i64>,
    id: usize,
    st: Native,
) -> (st2: Native)
    requires
        reach(code, p, s, st),
        prefix(operand_code(s, env, id).0.code, code),
        3 <= s.values < MAX_LISTING,
        matches_env(st, env, vals),
        env_below(s, env),
    ensures
        reach(code, p, operand_code(s, env, id).0, st2),
        same_but_new(st, st2, s.values),
        word(st2, operand_code(s, env, id).1) == Word::Long(value_at(vals, id)),
        operand_code(s, env, id).1 < operand_code(s, env, id).0.values,
{
    if id < env.len() {
        assert(word(st, env[id as int]) == Word::Long(vals[id as int]));
        st
    } else {
        run_one(code, p, s, Insn::Iconst { ty: ClifType::I64, value: 0 }, st)
    }
}

/// One where the condition holds, zero where it does not.
proof fn flag_agrees(
    code: Seq<Placed>,
    p: Point,
    s: Listing,
    cond: Cond,
    x: u32,
    y: u32,
    a: i64,
    b: i64,
    st: Native,
) -> (st2: Native)
    requires
        reach(code, p, s, st),
        prefix(flag_code(s, cond, x, y).code, code),
        3 <= s.values,
        s.values + 4 < MAX_LISTING,
        word(st, x) == Word::Long(a),
        word(st, y) == Word::Long(b),
    ensures
        reach(code, p, flag_code(s, cond, x, y), st2),
        same_but_new(st, st2, s.values),
        st2.words[s.values + 3] == Word::Long(flag(holds(cond, a as int, b as int))),
{
    broadcast use prefix_shorter;

    let i1 = Insn::Compare { cond, x, y };
    let s1 = def(s, i1);
    let i2 = Insn::Iconst { ty: ClifType::I64, value: 1 };
    let s2 = def(s1, i2);
    let i3 = Insn::Iconst { ty: ClifType::I64, value: 0 };
    let s3 = def(s2, i3);
    let i4 = Insn::Select { c: next(s), x: next(s1), y: next(s2) };
    assert(flag_code(s, cond, x, y) == def(s3, i4));
    let st1 = run_one(code, p, s, i1, st);
    let st2 = run_one(code, p, s1, i2, st1);
    let st3 = run_one(code, p, s2, i3, st2);
    run_one(code, p, s3, i4, st3)
}

/// The quotient by -1 is the negation, and the remainder is zero.
proof fn by_minus_one(a: i64, b: i64)
    requires
        b == -1,
    ensures
        quotient(a, b) == 0i64.wrapping_sub(a),
        remainder(a, b) == a.wrapping_sub(a),
{
    assert(magnitude(a as int) / 1 == magnitude(a as int));
    assert(magnitude(a as int) % 1 == 0);
}

/// A guarded division.
#[verifier::rlimit(40)]
proof fn division_agrees(
    code: Seq<Placed>,
    p: Point,
    s: Listing,
    rem: bool,
    x: u32,
    y: u32,
    a: i64,
    b: i64,
    st: Native,
) -> (st2: Native)
    requires
        reach(code, p, s, st),
        prefix(division_code(s, rem, x, y).code, code),
        3 <= s.values,
        s.values + 11 < MAX_LISTING,
        x < s.values,
        y < s.values,
        word(st, x) == Word::Long(a),
        word(st, y) == Word::Long(b),
    ensures
        reach(code, p, division_code(s, rem, x, y), st2),
        same_but_new(st, st2, s.values),
        st2.words[s.values + 10] == Word::Long(
            scalar(
                if rem {
                    BinOp::Rem
                } else {
                    BinOp::Div
                },
                a,
                b,
            ),
        ),
{
    broadcast use prefix_shorter;

    let i1 = Insn::Iconst { ty: ClifType::I64, value: 0 };
    let s1 = def(s, i1);
    let i2 = Insn::Iconst { ty: ClifType::I64, value: 1 };
    let s2 = def(s1, i2);
    let i3 = Insn::Iconst { ty: ClifType::I64, value: (-1) as i64 };
    let s3 = def(s2, i3);
    let i4 = Insn::Compare { cond: Cond::Equal, x: y, y: next(s) };
    let s4 = def(s3, i4);
    let i5 = Insn::Compare { cond: Cond::Equal, x: y, y: next(s2) };
    let s5 = def(s4, i5);
    let i6 = Insn::Select { c: next(s3), x: next(s1), y };
    let s6 = def(s5, i6);
    let i7 = Insn::Select { c: next(s4), x: next(s1), y: next(s5) };
    let s7 = def(s6, i7);
    let i8 = if rem {
        Insn::Srem { x, y: next(s6) }
    } else {
        Insn::Sdiv { x, y: next(s6) }
    };
    let s8 = def(s7, i8);
    let i9 = if rem {
        Insn::Isub { x, y: x }
    } else {
        Insn::Isub { x: next(s), y: x }
    };
    let s9 = def(s8, i9);
    let i10 = Insn::Select { c: next(s4), x: next(s8), y: next(s7) };
    let s10 = def(s9, i10);
    let i11 = Insn::Select { c: next(s3), x: next(s), y: next(s9) };
    assert(division_code(s, rem, x, y) == def(s10, i11));
    let st1 = run_one(code, p, s, i1, st);
    let st2 = run_one(code, p, s1, i2, st1);
    let st3 = run_one(code, p, s2, i3, st2);
    let st4 = run_one(code, p, s3, i4, st3);
    let st5 = run_one(code, p, s4, i5, st4);
    let st6 = run_one(code, p, s5, i6, st5);
    let st7 = run_one(code, p, s6, i7, st6);
    let d: i64 = if b == 0 || b == -1 {
        1
    } else {
        b
    };
    assert(st7.words[s.values + 6] == Word::Long(d));
    assert(st7.words[x as int] == Word::Long(a));
    assert(st7.words[s.values] == Word::Long(0));
    assert(st7.words[s.values + 3] == Word::Flag(b == 0));
    assert(st7.words[s.values + 4] == Word::Flag(b == -1));
    let st8 = run_one(code, p, s7, i8, st7);
    let st9 = run_one(code, p, s8, i9, st8);
    let st10 = run_one(code, p, s9, i10, st9);
    if b == -1 {
        by_minus_one(a, b);
    }
    run_one(code, p, s10, i11, st10)
}


/// An operation on two values.
proof fn binary_agrees(
    code: Seq<Placed>,
    p: Point,
    s: Listing,
    op: BinOp,
    x: u32,
    y: u32,
    a: i64,
    b: i64,
    st: Native,
) -> (st2: Native)
    requires
        reach(code, p, s, st),
        prefix(binary_code(s, op, x, y).code, code),
        3 <= s.values,
        s.values + 11 < MAX_LISTING,
        x < s.values,
        y < s.values,
        word(st, x) == Word::Long(a),
        word(st, y) == Word::Long(b),
    ensures
        reach(code, p, binary_code(s, op, x, y), st2),
        same_but_new(st, st2, s.values),
        s.values < binary_code(s, op, x, y).values <= s.values + 11,
        st2.words[binary_code(s, op, x, y).values - 1] == Word::Long(scalar(op, a, b)),
{
    match op {
        BinOp::Add => run_one(code, p, s, Insn::Iadd { x, y }, st),
        BinOp::Sub => run_one(code, p, s, Insn::Isub { x, y }, st),
        BinOp::Mul => run_one(code, p, s, Insn::Imul { x, y }, st),
        BinOp::Div => division_agrees(code, p, s, false, x, y, a, b, st),
        BinOp::Rem => division_agrees(code, p, s, true, x, y, a, b, st),
        BinOp::Eq => flag_agrees(code, p, s, Cond::Equal, x, y, a, b, st),
        BinOp::Lt => flag_agrees(code, p, s, Cond::SignedLess, x, y, a, b, st),
        BinOp::Le => flag_agrees(code, p, s, Cond::SignedLessEqual, x, y, a, b, st),
    }
}

/// A comparison with zero, and a branch on it.
proof fn zero_branch(
    code: Seq<Placed>,
    p: Point,
    s: Listing,
    x: u32,
    a: i64,
    n: int,
    yes: u32,
    no: u32,
    st: Native,
) -> (st2: Native)
    requires
        reach(code, p, s, st),
        prefix(zero_tested(s, x, n, yes, no).code, code),
        3 <= s.values,
        s.values + 2 < MAX_LISTING,
        x < s.values,
        word(st, x) == Word::Long(a),
    ensures
        same_but_new(st, st2, s.values),
        leads(
            code,
            p,
            Point::At(
                block_start(
                    code,
                    if a == 0 {
                        yes
                    } else {
                        no
                    },
                    0,
                ),
                st2,
            ),
        ),
{
    broadcast use prefix_shorter;

    let i1 = Insn::Iconst { ty: ClifType::I64, value: 0 };
    let s1 = def(s, i1);
    let i2 = Insn::Compare { cond: Cond::Equal, x, y: next(s) };
    let s2 = def(s1, i2);
    assert(prefix(put(more_blocks(s2, n), Insn::Brif { c: next(s1), yes, no }).code, code));
    let st1 = run_one(code, p, s, i1, st);
    let st2 = run_one(code, p, s1, i2, st1);
    assert(st2.words[next(s1) as int] == Word::Flag(a == 0));
    run_branch(code, p, more_blocks(s2, n), next(s1), yes, no, st2);
    st2
}

/// A value is compared with zero, `n` blocks are added, and one is chosen.
pub open spec fn zero_tested(s: Listing, x: u32, n: int, yes: u32, no: u32) -> Listing {
    let s1 = def(s, Insn::Iconst { ty: ClifType::I64, value: 0 });
    let s2 = def(s1, Insn::Compare { cond: Cond::Equal, x, y: next(s) });
    end(more_blocks(s2, n), Insn::Brif { c: next(s1), yes, no })
}

/// The function traps where a value is zero.
#[verifier::rlimit(40)]
proof fn trap_agrees(
    code: Seq<Placed>,
    p: Point,
    s: Listing,
    x: u32,
    a: i64,
    pc: u32,
    tail: Placed,
    st: Native,
) -> (st2: Native)
    requires
        reach(code, p, s, st),
        prefix(trap_code(s, x, pc).code.push(tail), code),
        tail.block == new_block(s, 1),
        settled(s),
        below(s.code, s.blocks),
        s.values + 16 < MAX_LISTING,
        s.blocks + 2 < MAX_LISTING,
        x < s.values,
        word(st, x) == Word::Long(a),
        pointers(st),
    ensures
        a == 0 ==> leads(code, p, Point::Done(st2)) && st2 == (Native {
            words: st2.words,
            kind: JIT_TRAP,
            pc,
            return_reg: 0,
            ..st
        }) && pointers(st2),
        a != 0 ==> reach(code, p, trap_code(s, x, pc), st2) && same_but_new(st, st2, s.values),
{
    broadcast use {prefix_shorter, below_push};

    let trap = new_block(s, 0);
    let go = new_block(s, 1);
    let s3 = zero_tested(s, x, 2, trap, go);
    let s3b = goto(s3, trap);
    let s4 = exit_code(s3b, JIT_TRAP, pc, 0);
    assert(trap_code(s, x, pc) == goto(s4, go));
    assert(prefix(s4.code, code));
    assert(prefix(s3.code, code));
    let st1 = zero_branch(code, p, s, x, a, 2, trap, go, st);
    assert(below(s3.code, s.blocks));
    if a == 0 {
        assert(code[s3.code.len() as int].block == trap);
        new_block_start(code, s3, trap);
        exit_agrees(code, p, s3b, JIT_TRAP, pc, 0, st1)
    } else {
        below_more(s3.code, s.blocks, s.blocks + 1);
        assert(below(s4.code, s.blocks + 1));
        assert(code[s4.code.len() as int] == tail);
        new_block_start(code, s4, go);
        st1
    }
}


/// Where a jump leads: to a block, or out of the function with `st2`.
pub open spec fn lands(
    code: Seq<Placed>,
    p: Point,
    n: int,
    l: Leave,
    st: Native,
    st2: Native,
) -> bool {
    match l {
        Leave::To(j) => {
            &&& leads(code, p, Point::At(block_start(code, target(n, j), 0), st2))
            &&& st2 == (Native { words: st2.words, ..st })
            &&& pointers(st2)
        },
        Leave::Exit(x) => {
            &&& leads(code, p, Point::Done(st2))
            &&& st2 == (Native {
                words: st2.words,
                kind: x.kind,
                pc: x.pc,
                return_reg: x.return_reg,
                ..st
            })
            &&& pointers(st2)
        },
    }
}

/// A jump.
proof fn jump_agrees(code: Seq<Placed>, p: Point, s: Listing, n: int, to: Dest, st: Native) -> (st2:
    Native)
    requires
        reach(code, p, s, st),
        prefix(jump_code(s, n, to).code, code),
        3 <= s.values,
        s.values + 8 < MAX_LISTING,
        pointers(st),
    ensures
        lands(code, p, n, leave_of(to), st, st2),
{
    broadcast use prefix_shorter;

    match to {
        Dest::Block(i) => {
            assert(prefix(put(s, Insn::Jump { to: target(n, i as int) }).code, code));
            leads_step(code, p, Point::At(s.code.len() as int, st));
            st
        },
        Dest::Exit(pc) => exit_agrees(code, p, s, JIT_CONTINUE, pc, 0, st),
    }
}

/// A branch on zero.
#[verifier::rlimit(40)]
proof fn branch_agrees(
    code: Seq<Placed>,
    p: Point,
    s: Listing,
    n: int,
    x: u32,
    a: i64,
    zero: Dest,
    other: Dest,
    st: Native,
) -> (st2: Native)
    requires
        reach(code, p, s, st),
        prefix(branch_code(s, n, x, zero, other).code, code),
        settled(s),
        below(s.code, s.blocks),
        s.values + 16 < MAX_LISTING,
        s.blocks + 2 < MAX_LISTING,
        x < s.values,
        word(st, x) == Word::Long(a),
        pointers(st),
    ensures
        lands(
            code,
            p,
            n,
            leave_of(
                if a == 0 {
                    zero
                } else {
                    other
                },
            ),
            st,
            st2,
        ),
{
    broadcast use {prefix_shorter, below_push};

    let yes = branch_block(s, n, zero, 0);
    let no = branch_block(s, n, other, exits(zero));
    let s3 = zero_tested(s, x, exits(zero) + exits(other), yes, no);
    let s4 = branch_exit(s3, yes, zero);
    let s5 = branch_exit(s4, no, other);
    assert(branch_code(s, n, x, zero, other) == s5);
    assert(prefix(s4.code, code));
    assert(prefix(s3.code, code));
    let st1 = zero_branch(code, p, s, x, a, exits(zero) + exits(other), yes, no, st);
    assert(below(s3.code, s.blocks));
    if a == 0 {
        match zero {
            Dest::Block(_) => st1,
            Dest::Exit(pc) => {
                assert(code[s3.code.len() as int].block == yes);
                new_block_start(code, s3, yes);
                exit_agrees(code, p, goto(s3, yes), JIT_CONTINUE, pc, 0, st1)
            },
        }
    } else {
        match other {
            Dest::Block(_) => st1,
            Dest::Exit(pc) => {
                below_more(s3.code, s.blocks, s.blocks + exits(zero));
                assert(below(s4.code, s.blocks + exits(zero)));
                assert(code[s4.code.len() as int].block == no);
                new_block_start(code, s4, no);
                exit_agrees(code, p, goto(s4, no), JIT_CONTINUE, pc, 0, st1)
            },
        }
    }
}


/// The address of the call record at a depth.
proof fn record_agrees(code: Seq<Placed>, p: Point, s: Listing, v: u32, d: u32, st: Native) -> (st2:
    Native)
    requires
        reach(code, p, s, st),
        prefix(record_code(s, v).code, code),
        3 <= s.values,
        s.values + 4 < MAX_LISTING,
        v < s.values,
        word(st, v) == Word::Short(d),
        d <= MAX_JIT_CALL_DEPTH,
        pointers(st),
    ensures
        reach(code, p, record_code(s, v), st2),
        same_but_new(st, st2, s.values),
        st2.words[s.values + 3] == Word::Calls(16 * d),
{
    broadcast use prefix_shorter;

    let i1 = Insn::Iconst { ty: ClifType::I32, value: RECORD_BYTES };
    let s1 = def(s, i1);
    let i2 = Insn::Imul { x: v, y: next(s) };
    let s2 = def(s1, i2);
    let i3 = Insn::Uextend { x: next(s1) };
    let s3 = def(s2, i3);
    let i4 = Insn::Iadd { x: CALLS, y: next(s2) };
    assert(record_code(s, v) == def(s3, i4));
    let st1 = run_one(code, p, s, i1, st);
    let st2 = run_one(code, p, s1, i2, st1);
    assert(d * 16 <= 1024);
    assert(st2.words[s.values + 1] == Word::Short((16 * d) as u32));
    let st3 = run_one(code, p, s2, i3, st2);
    run_one(code, p, s3, i4, st3)
}

/// A call record is written.
#[verifier::rlimit(40)]
proof fn record_set_agrees(
    code: Seq<Placed>,
    p: Point,
    s: Listing,
    rec: u32,
    d: u32,
    back: u32,
    dest: u8,
    st: Native,
) -> (st2: Native)
    requires
        reach(code, p, s, st),
        prefix(record_set(s, rec, back, dest).code, code),
        3 <= s.values,
        s.values + 8 < MAX_LISTING,
        rec < s.values,
        word(st, rec) == Word::Calls(16 * d),
        d < st.calls.len(),
        pointers(st),
    ensures
        reach(code, p, record_set(s, rec, back, dest), st2),
        same_but_new(
            Native {
                calls: st.calls.update(
                    d as int,
                    JitCallRecord {
                        return_pc: back,
                        return_function: st.function,
                        dest_reg: dest as u32,
                        caller_register_count: st.registers,
                    },
                ),
                ..st
            },
            st2,
            s.values,
        ),
{
    broadcast use prefix_shorter;

    let i1 = Insn::Iconst { ty: ClifType::I32, value: back as i64 };
    let s1 = def(s, i1);
    let i2 = Insn::Store { x: next(s), addr: rec, offset: 0 };
    let s2 = put(s1, i2);
    let i3 = Insn::Load { ty: ClifType::I32, addr: FRAME, offset: OFF_FUNCTION };
    let s3 = def(s2, i3);
    let i4 = Insn::Store { x: next(s2), addr: rec, offset: REC_RETURN_FUNCTION };
    let s4 = put(s3, i4);
    let i5 = Insn::Iconst { ty: ClifType::I32, value: dest as i64 };
    let s5 = def(s4, i5);
    let i6 = Insn::Store { x: next(s4), addr: rec, offset: REC_DEST_REG };
    let s6 = put(s5, i6);
    let i7 = Insn::Load { ty: ClifType::I32, addr: FRAME, offset: OFF_REGISTER_COUNT };
    let s7 = def(s6, i7);
    let i8 = Insn::Store { x: next(s6), addr: rec, offset: REC_REGISTER_COUNT };
    assert(record_set(s, rec, back, dest) == put(s7, i8));
    let r0 = st.calls[d as int];
    let st1 = run_one(code, p, s, i1, st);
    let st2 = run_one(code, p, s1, i2, st1);
    assert(st2.calls[d as int] == (JitCallRecord { return_pc: back, ..r0 }));
    let st3 = run_one(code, p, s2, i3, st2);
    let st4 = run_one(code, p, s3, i4, st3);
    assert(st4.calls[d as int] == (JitCallRecord {
        return_pc: back,
        return_function: st.function,
        ..r0
    }));
    let st5 = run_one(code, p, s4, i5, st4);
    let st6 = run_one(code, p, s5, i6, st5);
    assert(st6.calls[d as int] == (JitCallRecord {
        return_pc: back,
        return_function: st.function,
        dest_reg: dest as u32,
        ..r0
    }));
    let st7 = run_one(code, p, s6, i7, st6);
    let st8 = run_one(code, p, s7, i8, st7);
    let r = JitCallRecord {
        return_pc: back,
        return_function: st.function,
        dest_reg: dest as u32,
        caller_register_count: st.registers,
    };
    assert(st8.calls =~= st.calls.update(d as int, r));
    st8
}

/// Arguments are copied to the first slots.
proof fn args_agree(code: Seq<Placed>, p: Point, s: Listing, dest: u8, i: nat, st: Native) -> (st2:
    Native)
    requires
        reach(code, p, s, st),
        prefix(args_code(s, dest as int, i).code, code),
        3 <= s.values,
        s.values + 256 < MAX_LISTING,
        i <= u8::MAX,
        st.mem.len() == NATIVE_SLOTS,
        pointers(st),
    ensures
        reach(code, p, args_code(s, dest as int, i), st2),
        args_code(s, dest as int, i).values == s.values + i,
        same_but_new(
            Native { mem: args_copied(st.mem, dest as int, i), ..st },
            st2,
            s.values,
        ),
        args_copied(st.mem, dest as int, i).len() == st.mem.len(),
    decreases i,
{
    broadcast use prefix_shorter;

    if i == 0 {
        st
    } else {
        let t = args_code(s, dest as int, (i - 1) as nat);
        let i1 = Insn::Load { ty: ClifType::I64, addr: SLOTS, offset: slot_offset(dest + i - 1) };
        let t1 = def(t, i1);
        let i2 = Insn::Store { x: next(t), addr: SLOTS, offset: slot_offset(i - 1) };
        assert(args_code(s, dest as int, i) == put(t1, i2));
        let st0 = args_agree(code, p, s, dest, (i - 1) as nat, st);
        let st1 = run_one(code, p, t, i1, st0);
        let st2 = run_one(code, p, t1, i2, st1);
        assert(slot_offset(dest + i - 1) == 8 * (dest + i - 1));
        assert(slot_offset(i - 1) == 8 * (i - 1));
        assert(st1.words[next(t) as int] == Word::Long(mem_get(st0.mem, dest + i - 1)));
        st2
    }
}


/// Native code has left a block as compiled code has.
pub open spec fn arrived(
    code: Seq<Placed>,
    p: Point,
    n: int,
    m: Mach,
    l: Leave,
    st: Native,
) -> bool {
    &&& matches_state(st, m)
    &&& match l {
        Leave::To(j) => leads(code, p, Point::At(block_start(code, target(n, j), 0), st)),
        Leave::Exit(x) => {
            &&& leads(code, p, Point::Done(st))
            &&& st.kind == x.kind
            &&& st.pc == x.pc
            &&& st.return_reg == x.return_reg
        },
    }
}

/// The part of a call that follows the test of its depth.
pub open spec fn call_body(
    s: Listing,
    n: int,
    depth: u32,
    back: u32,
    callee: u32,
    dest: u8,
    argc: u8,
    registers: u8,
    block: usize,
) -> Listing {
    let s6 = record_code(s, depth);
    let s7 = record_set(s6, (s6.values - 1) as u32, back, dest);
    let s8 = def(s7, Insn::Iconst { ty: ClifType::I32, value: 1 });
    let s9 = def(s8, Insn::Iadd { x: depth, y: next(s7) });
    let s10 = put(s9, Insn::Store { x: next(s8), addr: FRAME, offset: OFF_CALL_DEPTH });
    let s11 = args_code(s10, dest as int, argc as nat);
    let s12 = field_set(s11, OFF_FUNCTION, callee);
    let s13 = field_set(s12, OFF_REGISTER_COUNT, registers as u32);
    end(s13, Insn::Jump { to: target(n, block as int) })
}

#[verifier::rlimit(40)]
proof fn call_body_agrees(
    code: Seq<Placed>,
    p: Point,
    s: Listing,
    n: int,
    depth: u32,
    pc: u32,
    back: u32,
    callee: u32,
    dest: u8,
    argc: u8,
    registers: u8,
    block: usize,
    st: Native,
    m: Mach,
) -> (st2: Native)
    requires
        reach(code, p, s, st),
        prefix(
            call_body(s, n, depth, back, callee, dest, argc, registers, block).code,
            code,
        ),
        3 <= s.values,
        s.values + 600 < MAX_LISTING,
        depth < s.values,
        word(st, depth) == Word::Short(st.depth),
        matches_state(st, m),
        m.stack.len() < MAX_JIT_CALL_DEPTH,
    ensures
        ({
            let (m2, l) = entered(m, pc, back, callee, dest, argc, registers, block as int);
            arrived(code, p, n, m2, l, st2)
        }),
{
    broadcast use prefix_shorter;

    let d = st.depth;
    let s6 = record_code(s, depth);
    let rec = (s6.values - 1) as u32;
    let s7 = record_set(s6, rec, back, dest);
    let i8 = Insn::Iconst { ty: ClifType::I32, value: 1 };
    let s8 = def(s7, i8);
    let i9 = Insn::Iadd { x: depth, y: next(s7) };
    let s9 = def(s8, i9);
    let i10 = Insn::Store { x: next(s8), addr: FRAME, offset: OFF_CALL_DEPTH };
    let s10 = put(s9, i10);
    let s11 = args_code(s10, dest as int, argc as nat);
    let s12 = field_set(s11, OFF_FUNCTION, callee);
    let s13 = field_set(s12, OFF_REGISTER_COUNT, registers as u32);
    let to = target(n, block as int);
    assert(prefix(put(s13, Insn::Jump { to }).code, code));
    assert(prefix(s12.code, code));
    assert(prefix(s11.code, code));
    prefix_args(code, s10, dest as int, argc as nat);
    assert(prefix(s9.code, code));
    assert(prefix(s7.code, code));
    assert(prefix(s6.code, code));
    let st6 = record_agrees(code, p, s, depth, d, st);
    let st7 = record_set_agrees(code, p, s6, rec, d, back, dest, st6);
    let st8 = run_one(code, p, s7, i8, st7);
    let st9 = run_one(code, p, s8, i9, st8);
    assert(st9.words[s8.values] == Word::Short((d + 1) as u32));
    let st10 = run_one(code, p, s9, i10, st9);
    assert(st10.depth == d + 1);
    let st11 = args_agree(code, p, s10, dest, argc as nat, st10);
    let st12 = field_agrees(code, p, s11, OFF_FUNCTION, callee, st11);
    let st13 = field_agrees(code, p, s12, OFF_REGISTER_COUNT, registers as u32, st12);
    leads_step(code, p, Point::At(s13.code.len() as int, st13));
    let (m2, l) = entered(m, pc, back, callee, dest, argc, registers, block as int);
    assert(st13.mem == m2.mem);
    assert(st13.depth == m2.stack.len());
    assert forall|k: int| 0 <= k < m2.stack.len() implies (#[trigger] st13.calls[k])
        == m2.stack[k] && m2.stack[k].dest_reg <= u8::MAX by {
        if k < m.stack.len() {
            assert(st.calls[k] == m.stack[k]);
        }
    }
    st13
}

proof fn prefix_args(code: Seq<Placed>, s: Listing, dest: int, i: nat)
    requires
        prefix(args_code(s, dest, i).code, code),
    ensures
        prefix(s.code, code),
    decreases i,
{
    broadcast use prefix_shorter;

    if i > 0 {
        let t = args_code(s, dest, (i - 1) as nat);
        assert(prefix(t.code, code));
        prefix_args(code, s, dest, (i - 1) as nat);
    }
}


/// A call within the code.
#[verifier::rlimit(40)]
proof fn enter_agrees(
    code: Seq<Placed>,
    p: Point,
    s: Listing,
    n: int,
    pc: u32,
    back: u32,
    callee: u32,
    dest: u8,
    argc: u8,
    registers: u8,
    block: usize,
    st: Native,
    m: Mach,
) -> (st2: Native)
    requires
        reach(code, p, s, st),
        prefix(enter_code(s, n, pc, back, callee, dest, argc, registers, block).code, code),
        between(s),
        matches_state(st, m),
    ensures
        ({
            let (m2, l) = entered(m, pc, back, callee, dest, argc, registers, block as int);
            arrived(code, p, n, m2, l, st2)
        }),
{
    broadcast use {prefix_shorter, below_push};

    let depth = next(s);
    let i1 = Insn::Load { ty: ClifType::I32, addr: FRAME, offset: OFF_CALL_DEPTH };
    let s1 = def(s, i1);
    let i2 = Insn::Iconst { ty: ClifType::I32, value: MAX_JIT_CALL_DEPTH as i64 };
    let s2 = def(s1, i2);
    let i3 = Insn::Compare { cond: Cond::SignedGreaterEqual, x: depth, y: next(s1) };
    let s3 = def(s2, i3);
    let stop = new_block(s, 0);
    let go = new_block(s, 1);
    let c = next(s2);
    let s4 = end(more_blocks(s3, 2), Insn::Brif { c, yes: stop, no: go });
    let s4b = goto(s4, stop);
    let s5b = exit_code(s4b, JIT_EFFECT, pc, 0);
    let s5 = goto(s5b, go);
    let body = call_body(s5, n, depth, back, callee, dest, argc, registers, block);
    assert(enter_code(s, n, pc, back, callee, dest, argc, registers, block) == body);
    prefix_body(code, s5, n, depth, back, callee, dest, argc, registers, block);
    assert(prefix(s5b.code, code));
    assert(prefix(s4.code, code));
    let st1 = run_one(code, p, s, i1, st);
    let st2 = run_one(code, p, s1, i2, st1);
    let st3 = run_one(code, p, s2, i3, st2);
    assert(st3.words[c as int] == Word::Flag(m.stack.len() >= MAX_JIT_CALL_DEPTH));
    run_branch(code, p, s3, c, stop, go, st3);
    if m.stack.len() >= MAX_JIT_CALL_DEPTH {
        assert(below(s4.code, s.blocks));
        assert(code[s4.code.len() as int].block == stop);
        new_block_start(code, s4, stop);
        exit_agrees(code, p, s4b, JIT_EFFECT, pc, 0, st3)
    } else {
        below_more(s4.code, s.blocks, s.blocks + 1);
        assert(below(s5.code, s.blocks + 1));
        new_block_start(code, s5, go);
        assert(word(st3, depth) == Word::Short(st3.depth));
        call_body_agrees(
            code,
            p,
            s5,
            n,
            depth,
            pc,
            back,
            callee,
            dest,
            argc,
            registers,
            block,
            st3,
            m,
        )
    }
}

proof fn prefix_body(
    code: Seq<Placed>,
    s: Listing,
    n: int,
    depth: u32,
    back: u32,
    callee: u32,
    dest: u8,
    argc: u8,
    registers: u8,
    block: usize,
)
    requires
        prefix(call_body(s, n, depth, back, callee, dest, argc, registers, block).code, code),
    ensures
        prefix(s.code, code),
        s.code.len() < code.len(),
        code[s.code.len() as int].block == s.at->Some_0,
{
    broadcast use prefix_shorter;

    let s6 = record_code(s, depth);
    let s7 = record_set(s6, (s6.values - 1) as u32, back, dest);
    let s8 = def(s7, Insn::Iconst { ty: ClifType::I32, value: 1 });
    let s9 = def(s8, Insn::Iadd { x: depth, y: next(s7) });
    let s10 = put(s9, Insn::Store { x: next(s8), addr: FRAME, offset: OFF_CALL_DEPTH });
    let s11 = args_code(s10, dest as int, argc as nat);
    assert(prefix(s11.code, code));
    prefix_args(code, s10, dest as int, argc as nat);
    assert(prefix(s7.code, code));
    assert(prefix(s6.code, code));
}

/// Slot `reg` is copied to the slot of the caller.
proof fn result_agrees(
    code: Seq<Placed>,
    p: Point,
    s: Listing,
    dest: u32,
    d: u32,
    reg: u8,
    st: Native,
) -> (st2: Native)
    requires
        reach(code, p, s, st),
        prefix(result_code(s, dest, reg).code, code),
        3 <= s.values,
        s.values + 8 < MAX_LISTING,
        dest < s.values,
        word(st, dest) == Word::Short(d),
        d <= u8::MAX,
        st.mem.len() == NATIVE_SLOTS,
        pointers(st),
    ensures
        reach(code, p, result_code(s, dest, reg), st2),
        same_but_new(
            Native { mem: mem_set(st.mem, d as int, mem_get(st.mem, reg as int)), ..st },
            st2,
            s.values,
        ),
{
    broadcast use prefix_shorter;

    let i1 = Insn::Load { ty: ClifType::I64, addr: SLOTS, offset: slot_offset(reg as int) };
    let s1 = def(s, i1);
    let i2 = Insn::Iconst { ty: ClifType::I32, value: SLOT_BYTES };
    let s2 = def(s1, i2);
    let i3 = Insn::Imul { x: dest, y: next(s1) };
    let s3 = def(s2, i3);
    let i4 = Insn::Uextend { x: next(s2) };
    let s4 = def(s3, i4);
    let i5 = Insn::Iadd { x: SLOTS, y: next(s3) };
    let s5 = def(s4, i5);
    let i6 = Insn::Store { x: next(s), addr: next(s4), offset: 0 };
    assert(result_code(s, dest, reg) == put(s5, i6));
    assert(slot_offset(reg as int) == 8 * reg);
    let st1 = run_one(code, p, s, i1, st);
    assert(st1.words[s.values] == Word::Long(mem_get(st.mem, reg as int)));
    let st2 = run_one(code, p, s1, i2, st1);
    let st3 = run_one(code, p, s2, i3, st2);
    assert(st3.words[s.values + 2] == Word::Short((8 * d) as u32));
    let st4 = run_one(code, p, s3, i4, st3);
    let st5 = run_one(code, p, s4, i5, st4);
    assert(st5.words[s.values + 4] == Word::Slots(8 * d));
    run_one(code, p, s5, i6, st5)
}

/// A return to the caller that the last call record names.
#[verifier::spinoff_prover]
#[verifier::rlimit(60)]
proof fn back_agrees(
    code: Seq<Placed>,
    p: Point,
    s: Listing,
    n: int,
    depth: u32,
    reg: u8,
    pc: u32,
    st: Native,
    m: Mach,
) -> (st2: Native)
    requires
        reach(code, p, s, st),
        prefix(back_code(s, depth, reg).code, code),
        3 <= s.values,
        s.values + 40 < MAX_LISTING,
        depth < s.values,
        word(st, depth) == Word::Short(st.depth),
        matches_state(st, m),
        m.stack.len() > 0,
    ensures
        ({
            let (m2, l) = returned_from(m, reg, pc);
            arrived(code, p, n, m2, l, st2)
        }),
{
    broadcast use prefix_shorter;

    let d = (st.depth - 1) as u32;
    let r = m.stack[d as int];
    let i1 = Insn::Iconst { ty: ClifType::I32, value: 1 };
    let s1 = def(s, i1);
    let i2 = Insn::Isub { x: depth, y: next(s) };
    let s2 = def(s1, i2);
    let up = next(s1);
    let i3 = Insn::Store { x: up, addr: FRAME, offset: OFF_CALL_DEPTH };
    let s3 = put(s2, i3);
    let s4 = record_code(s3, up);
    let rec = (s4.values - 1) as u32;
    let i5 = Insn::Load { ty: ClifType::I32, addr: rec, offset: 0 };
    let s5 = def(s4, i5);
    let i6 = Insn::Load { ty: ClifType::I32, addr: rec, offset: REC_RETURN_FUNCTION };
    let s6 = def(s5, i6);
    let i7 = Insn::Load { ty: ClifType::I32, addr: rec, offset: REC_DEST_REG };
    let s7 = def(s6, i7);
    let i8 = Insn::Load { ty: ClifType::I32, addr: rec, offset: REC_REGISTER_COUNT };
    let s8 = def(s7, i8);
    let s9 = result_code(s8, next(s6), reg);
    let i10 = Insn::Store { x: next(s5), addr: FRAME, offset: OFF_FUNCTION };
    let s10 = put(s9, i10);
    let i11 = Insn::Store { x: next(s7), addr: FRAME, offset: OFF_REGISTER_COUNT };
    let s11 = put(s10, i11);
    let s12 = field_set(s11, OFF_EXIT_KIND, JIT_CONTINUE);
    let i13 = Insn::Store { x: next(s4), addr: FRAME, offset: OFF_PC };
    let s13 = put(s12, i13);
    let s14 = field_set(s13, OFF_RETURN_REG, 0);
    assert(back_code(s, depth, reg) == end(s14, Insn::Return));
    assert(prefix(put(s14, Insn::Return).code, code));
    assert(prefix(s13.code, code));
    assert(prefix(s11.code, code));
    assert(prefix(s9.code, code));
    assert(prefix(s8.code, code));
    assert(prefix(s4.code, code));
    assert(prefix(s3.code, code));
    let st1 = run_one(code, p, s, i1, st);
    let st2 = run_one(code, p, s1, i2, st1);
    assert(st2.words[up as int] == Word::Short(d));
    let st3 = run_one(code, p, s2, i3, st2);
    let st4 = record_agrees(code, p, s3, up, d, st3);
    assert(st4.calls[d as int] == r);
    let st5 = run_one(code, p, s4, i5, st4);
    assert(st5.words[s4.values] == Word::Short(r.return_pc));
    let st6 = run_one(code, p, s5, i6, st5);
    assert(st6.words[s5.values] == Word::Short(r.return_function));
    let st7 = run_one(code, p, s6, i7, st6);
    assert(st7.words[s6.values] == Word::Short(r.dest_reg));
    let st8 = run_one(code, p, s7, i8, st7);
    assert(st8.words[s7.values] == Word::Short(r.caller_register_count));
    let st9 = result_agrees(code, p, s8, next(s6), r.dest_reg, reg, st8);
    let st10 = run_one(code, p, s9, i10, st9);
    let st11 = run_one(code, p, s10, i11, st10);
    let st12 = field_agrees(code, p, s11, OFF_EXIT_KIND, JIT_CONTINUE, st11);
    let st13 = run_one(code, p, s12, i13, st12);
    let st14 = field_agrees(code, p, s13, OFF_RETURN_REG, 0, st13);
    leads_step(code, p, Point::At(s14.code.len() as int, st14));
    let (m2, l) = returned_from(m, reg, pc);
    assert(st14.mem == m2.mem);
    assert forall|k: int| 0 <= k < m2.stack.len() implies (#[trigger] st14.calls[k])
        == m2.stack[k] && m2.stack[k].dest_reg <= u8::MAX by {
        assert(st.calls[k] == m.stack[k]);
    }
    st14
}

/// A return within the code, or out of it.
#[verifier::rlimit(40)]
proof fn leave_agrees(
    code: Seq<Placed>,
    p: Point,
    s: Listing,
    n: int,
    reg: u8,
    pc: u32,
    st: Native,
    m: Mach,
) -> (st2: Native)
    requires
        reach(code, p, s, st),
        prefix(leave_code(s, reg, pc).code, code),
        between(s),
        matches_state(st, m),
    ensures
        ({
            let (m2, l) = returned_from(m, reg, pc);
            arrived(code, p, n, m2, l, st2)
        }),
{
    broadcast use {prefix_shorter, below_push};

    let depth = next(s);
    let i1 = Insn::Load { ty: ClifType::I32, addr: FRAME, offset: OFF_CALL_DEPTH };
    let s1 = def(s, i1);
    let i2 = Insn::Iconst { ty: ClifType::I32, value: 0 };
    let s2 = def(s1, i2);
    let i3 = Insn::Compare { cond: Cond::Equal, x: depth, y: next(s1) };
    let s3 = def(s2, i3);
    let outer = new_block(s, 0);
    let inner = new_block(s, 1);
    let c = next(s2);
    let s4 = end(more_blocks(s3, 2), Insn::Brif { c, yes: outer, no: inner });
    let s4b = goto(s4, outer);
    let s5b = exit_code(s4b, JIT_RETURN, pc, reg as u32);
    let s5 = goto(s5b, inner);
    assert(leave_code(s, reg, pc) == back_code(s5, depth, reg));
    prefix_back(code, s5, depth, reg);
    assert(prefix(s5b.code, code));
    assert(prefix(s4.code, code));
    let st1 = run_one(code, p, s, i1, st);
    let st2 = run_one(code, p, s1, i2, st1);
    let st3 = run_one(code, p, s2, i3, st2);
    assert(st3.words[c as int] == Word::Flag(m.stack.len() == 0));
    run_branch(code, p, s3, c, outer, inner, st3);
    if m.stack.len() == 0 {
        assert(below(s4.code, s.blocks));
        assert(code[s4.code.len() as int].block == outer);
        new_block_start(code, s4, outer);
        exit_agrees(code, p, s4b, JIT_RETURN, pc, reg as u32, st3)
    } else {
        below_more(s4.code, s.blocks, s.blocks + 1);
        assert(below(s5.code, s.blocks + 1));
        new_block_start(code, s5, inner);
        back_agrees(code, p, s5, n, depth, reg, pc, st3, m)
    }
}

proof fn prefix_back(code: Seq<Placed>, s: Listing, depth: u32, reg: u8)
    requires
        prefix(back_code(s, depth, reg).code, code),
    ensures
        prefix(s.code, code),
        s.code.len() < code.len(),
        code[s.code.len() as int].block == s.at->Some_0,
{
    broadcast use prefix_shorter;

    let s1 = def(s, Insn::Iconst { ty: ClifType::I32, value: 1 });
    let s2 = def(s1, Insn::Isub { x: depth, y: next(s) });
    let s3 = put(s2, Insn::Store { x: next(s1), addr: FRAME, offset: OFF_CALL_DEPTH });
    assert(prefix(s3.code, code));
}


/// No instruction is in a block from `lo` to `hi`.
pub open spec fn clear_of(a: Seq<Placed>, lo: int, hi: int) -> bool {
    forall|k: int| 0 <= k < a.len() ==> !(lo <= (#[trigger] a[k]).block <= hi)
}

broadcast proof fn clear_push(a: Seq<Placed>, x: Placed, lo: int, hi: int)
    requires
        clear_of(a, lo, hi),
        !(lo <= x.block <= hi),
    ensures
        #[trigger] clear_of(a.push(x), lo, hi),
{
}

/// What lowering leaves: instructions in blocks there are, none of them in
/// a block of the code that is yet to come.
pub open spec fn tidy(s: Listing, lo: int, hi: int) -> bool {
    &&& settled(s)
    &&& below(s.code, s.blocks)
    &&& clear_of(s.code, lo, hi)
    &&& !(lo <= s.at->Some_0 <= hi)
    &&& hi < s.blocks
}

proof fn args_tidy(s: Listing, dest: int, i: nat, lo: int, hi: int)
    requires
        tidy(s, lo, hi),
    ensures
        tidy(args_code(s, dest, i), lo, hi),
        args_code(s, dest, i).values == s.values + i,
        args_code(s, dest, i) == (Listing {
            code: args_code(s, dest, i).code,
            values: s.values + i,
            ..s
        }),
    decreases i,
{
    broadcast use {below_push, clear_push};

    if i > 0 {
        args_tidy(s, dest, (i - 1) as nat, lo, hi);
    }
}

proof fn body_tidy(
    s: Listing,
    n: int,
    depth: u32,
    back: u32,
    callee: u32,
    dest: u8,
    argc: u8,
    registers: u8,
    block: usize,
    lo: int,
    hi: int,
)
    requires
        tidy(s, lo, hi),
    ensures
        ({
            let t = call_body(s, n, depth, back, callee, dest, argc, registers, block);
            &&& tidy(t, lo, hi)
            &&& s.values <= t.values <= s.values + 400
            &&& t.blocks == s.blocks
        }),
{
    broadcast use {below_push, clear_push};

    let s6 = record_code(s, depth);
    let s7 = record_set(s6, (s6.values - 1) as u32, back, dest);
    let s8 = def(s7, Insn::Iconst { ty: ClifType::I32, value: 1 });
    let s9 = def(s8, Insn::Iadd { x: depth, y: next(s7) });
    let s10 = put(s9, Insn::Store { x: next(s8), addr: FRAME, offset: OFF_CALL_DEPTH });
    assert(tidy(s6, lo, hi));
    assert(tidy(s7, lo, hi));
    assert(tidy(s10, lo, hi));
    args_tidy(s10, dest as int, argc as nat, lo, hi);
}

/// What lowering an operation leaves.
#[verifier::rlimit(40)]
proof fn op_tidy(n: int, op: Op, s: Listing, env: Seq<u32>, lo: int, hi: int)
    requires
        tidy(s, lo, hi),
        env_below(s, env),
        s.values + 700 < MAX_LISTING,
        s.blocks + 2 < MAX_LISTING,
    ensures
        ({
            let t = so_far(op_code(n, op, s, env));
            &&& tidy(t, lo, hi)
            &&& s.values <= t.values <= s.values + 700
            &&& s.blocks <= t.blocks <= s.blocks + 2
        }),
        op_code(n, op, s, env) matches Lowering::Going(t, e) ==> env_below(t, e),
{
    broadcast use {below_push, clear_push};

    below_more(s.code, s.blocks, s.blocks + 1);
    below_more(s.code, s.blocks, s.blocks + 2);
    match op {
        Op::Enter { pc, back, callee, dest, argc, registers, block } => {
            let depth = next(s);
            let i1 = Insn::Load { ty: ClifType::I32, addr: FRAME, offset: OFF_CALL_DEPTH };
            let s1 = def(s, i1);
            let i2 = Insn::Iconst { ty: ClifType::I32, value: MAX_JIT_CALL_DEPTH as i64 };
            let s2 = def(s1, i2);
            let i3 = Insn::Compare { cond: Cond::SignedGreaterEqual, x: depth, y: next(s1) };
            let s3 = def(s2, i3);
            let stop = new_block(s, 0);
            let go = new_block(s, 1);
            let s4 = end(more_blocks(s3, 2), Insn::Brif { c: next(s2), yes: stop, no: go });
            let s5 = goto(exit_code(goto(s4, stop), JIT_EFFECT, pc, 0), go);
            assert(tidy(s5, lo, hi));
            body_tidy(s5, n, depth, back, callee, dest, argc, registers, block, lo, hi);
            assert(so_far(op_code(n, op, s, env)) == call_body(
                s5,
                n,
                depth,
                back,
                callee,
                dest,
                argc,
                registers,
                block,
            ));
        },
        Op::Leave { reg, pc } => {
            let depth = next(s);
            let i1 = Insn::Load { ty: ClifType::I32, addr: FRAME, offset: OFF_CALL_DEPTH };
            let s1 = def(s, i1);
            let i2 = Insn::Iconst { ty: ClifType::I32, value: 0 };
            let s2 = def(s1, i2);
            let i3 = Insn::Compare { cond: Cond::Equal, x: depth, y: next(s1) };
            let s3 = def(s2, i3);
            let outer = new_block(s, 0);
            let inner = new_block(s, 1);
            let s4 = end(more_blocks(s3, 2), Insn::Brif { c: next(s2), yes: outer, no: inner });
            let s5 = goto(exit_code(goto(s4, outer), JIT_RETURN, pc, reg as u32), inner);
            assert(tidy(s5, lo, hi));
            back_tidy(s5, depth, reg, lo, hi);
        },
        Op::Bin { op: o, lhs, rhs } => {
            let (t, x) = operand_code(s, env, lhs);
            let (u, y) = operand_code(t, env, rhs);
            assert(tidy(t, lo, hi));
            assert(tidy(u, lo, hi));
            binary_tidy(u, o, x, y, lo, hi);
        },
        Op::BranchZero { src, zero, other } => {
            let (t, x) = operand_code(s, env, src);
            assert(tidy(t, lo, hi));
            branch_tidy(t, n, x, zero, other, lo, hi);
        },
        Op::TrapIfZero { src, pc } => {
            let (t, x) = operand_code(s, env, src);
            assert(tidy(t, lo, hi));
            let t3 = zero_tested(t, x, 2, new_block(t, 0), new_block(t, 1));
            assert(tidy(t3, lo, hi));
        },
        Op::Tick { pc } => {
            let s1 = def(s, Insn::Load { ty: ClifType::I32, addr: FRAME, offset: OFF_BUDGET });
            let s2 = def(s1, Insn::Iconst { ty: ClifType::I32, value: 0 });
            let s3 = def(s2, Insn::Compare { cond: Cond::Equal, x: next(s), y: next(s1) });
            let stop = new_block(s, 0);
            let go = new_block(s, 1);
            let s4 = end(more_blocks(s3, 2), Insn::Brif { c: next(s2), yes: stop, no: go });
            assert(tidy(s4, lo, hi));
            let s5 = goto(exit_code(goto(s4, stop), JIT_BUDGET, pc, 0), go);
            assert(tidy(s5, lo, hi));
        },
        _ => {},
    }
}

#[verifier::rlimit(40)]
proof fn back_tidy(s: Listing, depth: u32, reg: u8, lo: int, hi: int)
    requires
        tidy(s, lo, hi),
    ensures
        tidy(back_code(s, depth, reg), lo, hi),
        s.values <= back_code(s, depth, reg).values <= s.values + 40,
        back_code(s, depth, reg).blocks == s.blocks,
{
    broadcast use {below_push, clear_push};

    let s1 = def(s, Insn::Iconst { ty: ClifType::I32, value: 1 });
    let s2 = def(s1, Insn::Isub { x: depth, y: next(s) });
    let s3 = put(s2, Insn::Store { x: next(s1), addr: FRAME, offset: OFF_CALL_DEPTH });
    let s4 = record_code(s3, next(s1));
    assert(tidy(s4, lo, hi));
    let rec = (s4.values - 1) as u32;
    let s5 = def(s4, Insn::Load { ty: ClifType::I32, addr: rec, offset: 0 });
    let s6 = def(s5, Insn::Load { ty: ClifType::I32, addr: rec, offset: REC_RETURN_FUNCTION });
    let s7 = def(s6, Insn::Load { ty: ClifType::I32, addr: rec, offset: REC_DEST_REG });
    let s8 = def(s7, Insn::Load { ty: ClifType::I32, addr: rec, offset: REC_REGISTER_COUNT });
    assert(tidy(s8, lo, hi));
    let s9 = result_code(s8, next(s6), reg);
    assert(tidy(s9, lo, hi));
}

proof fn binary_tidy(s: Listing, op: BinOp, x: u32, y: u32, lo: int, hi: int)
    requires
        tidy(s, lo, hi),
    ensures
        tidy(binary_code(s, op, x, y), lo, hi),
        s.values < binary_code(s, op, x, y).values <= s.values + 11,
        binary_code(s, op, x, y).blocks == s.blocks,
        binary_code(s, op, x, y).at == s.at,
{
    broadcast use {below_push, clear_push};

}

proof fn branch_tidy(s: Listing, n: int, x: u32, zero: Dest, other: Dest, lo: int, hi: int)
    requires
        tidy(s, lo, hi),
        s.blocks + 2 < MAX_LISTING,
    ensures
        tidy(branch_code(s, n, x, zero, other), lo, hi),
        s.values <= branch_code(s, n, x, zero, other).values <= s.values + 16,
        s.blocks <= branch_code(s, n, x, zero, other).blocks <= s.blocks + 2,
{
    broadcast use {below_push, clear_push};

    below_more(s.code, s.blocks, s.blocks + exits(zero) + exits(other));
    let yes = branch_block(s, n, zero, 0);
    let no = branch_block(s, n, other, exits(zero));
    let s3 = zero_tested(s, x, exits(zero) + exits(other), yes, no);
    assert(tidy(s3, lo, hi));
    let s4 = branch_exit(s3, yes, zero);
    assert(tidy(s4, lo, hi));
}


/// The code goes on in the block where a listing ends.
pub open spec fn goes_on(code: Seq<Placed>, s: Listing) -> bool {
    &&& prefix(s.code, code)
    &&& s.code.len() < code.len()
    &&& code[s.code.len() as int].block == s.at->Some_0
}

/// Native code has come as far in a block as compiled code.
pub open spec fn keeps_up(
    code: Seq<Placed>,
    p: Point,
    n: int,
    l: Lowering,
    o: OpOut,
    st: Native,
) -> bool {
    match o {
        OpOut::Going(s) => l matches Lowering::Going(t, env) && reach(code, p, t, st)
            && matches_state(st, s.m) && matches_env(st, env, s.env),
        OpOut::Left(m, leave) => arrived(code, p, n, m, leave, st),
    }
}

/// The values that were defined stay.
proof fn env_stays(s: Listing, env: Seq<u32>, vals: Seq<i64>, st: Native, st2: Native)
    requires
        matches_env(st, env, vals),
        env_below(s, env),
        forall|k: int| k < s.values ==> #[trigger] st2.words[k] == st.words[k],
    ensures
        matches_env(st2, env, vals),
{
    assert forall|i: int| 0 <= i < env.len() implies word(st2, #[trigger] env[i]) == Word::Long(
        vals[i],
    ) by {
        assert(word(st, env[i]) == Word::Long(vals[i]));
        assert(st2.words[env[i] as int] == st.words[env[i] as int]);
    }
}

/// One more value is defined.
proof fn env_grows(env: Seq<u32>, vals: Seq<i64>, st: Native, v: u32, x: i64)
    requires
        matches_env(st, env, vals),
        word(st, v) == Word::Long(x),
    ensures
        matches_env(st, env.push(v), vals.push(x)),
{
    let e = env.push(v);
    assert forall|i: int| 0 <= i < e.len() implies word(st, #[trigger] e[i]) == Word::Long(
        vals.push(x)[i],
    ) by {
        if i < env.len() {
            assert(e[i] == env[i]);
        }
    }
}

/// An operation that defines one value with one instruction.
proof fn define_agrees(
    code: Seq<Placed>,
    p: Point,
    s: Listing,
    i: Insn,
    x: i64,
    env: Seq<u32>,
    vals: Seq<i64>,
    st: Native,
    m: Mach,
) -> (st2: Native)
    requires
        reach(code, p, s, st),
        prefix(def(s, i).code, code),
        between(s),
        matches_state(st, m),
        matches_env(st, env, vals),
        env_below(s, env),
        falls_through(i),
        !(i is Store),
        result_word(st, i) == Word::Long(x),
    ensures
        reach(code, p, def(s, i), st2),
        matches_state(st2, m),
        matches_env(st2, env.push(next(s)), vals.push(x)),
{
    let st2 = run_one(code, p, s, i, st);
    env_stays(s, env, vals, st, st2);
    env_grows(env, vals, st2, next(s), x);
    pointers_stay(st, st2, s.values);
    state_moves(st, st2, m, m);
    st2
}

#[verifier::rlimit(40)]
proof fn store_agrees(
    code: Seq<Placed>,
    p: Point,
    n: int,
    op: Op,
    s: Listing,
    env: Seq<u32>,
    vals: Seq<i64>,
    st: Native,
    m: Mach,
) -> (st2: Native)
    requires
        op is Store,
        reach(code, p, s, st),
        prefix(so_far(op_code(n, op, s, env)).code, code),
        op_code(n, op, s, env) matches Lowering::Going(t, _) ==> goes_on(code, t),
        between(s),
        matches_state(st, m),
        matches_env(st, env, vals),
        env_below(s, env),
    ensures
        keeps_up(code, p, n, op_code(n, op, s, env), op_run(op, OpState { m, env: vals }), st2),
{
    broadcast use prefix_shorter;

    let reg = op->Store_reg;
    let src = op->Store_src;
    let (t, x) = operand_code(s, env, src);
    let offset = slot_offset(reg as int);
    assert(offset == 8 * reg);
    let i = Insn::Store { x, addr: SLOTS, offset };
    assert(prefix(put(t, i).code, code));
    let st1 = operand_agrees(code, p, s, env, vals, src, st);
    let st2 = run_one(code, p, t, i, st1);
    let v = value_at(vals, src);
    assert(st2 == written(st1, Word::Slots(0), offset, Word::Long(v)));
    assert(st2.mem == mem_set(m.mem, reg as int, v));
    env_stays(s, env, vals, st, st2);
    pointers_stay(st, st2, s.values);
    let m2 = Mach { mem: mem_set(m.mem, reg as int, v), ..m };
    assert(op_run(op, OpState { m, env: vals }) == OpOut::Going(OpState { m: m2, env: vals }));
    state_moves(st, st2, m, m2);
    st2
}

#[verifier::rlimit(40)]
proof fn bin_agrees(
    code: Seq<Placed>,
    p: Point,
    n: int,
    op: Op,
    s: Listing,
    env: Seq<u32>,
    vals: Seq<i64>,
    st: Native,
    m: Mach,
) -> (st2: Native)
    requires
        op is Bin,
        reach(code, p, s, st),
        prefix(so_far(op_code(n, op, s, env)).code, code),
        op_code(n, op, s, env) matches Lowering::Going(t, _) ==> goes_on(code, t),
        between(s),
        matches_state(st, m),
        matches_env(st, env, vals),
        env_below(s, env),
    ensures
        keeps_up(code, p, n, op_code(n, op, s, env), op_run(op, OpState { m, env: vals }), st2),
{
    let o = op->op;
    let lhs = op->lhs;
    let rhs = op->rhs;
    let (t, x) = operand_code(s, env, lhs);
    let (u, y) = operand_code(t, env, rhs);
    let w = binary_code(u, o, x, y);
    prefix_binary(code, u, o, x, y);
    assert(prefix(t.code, code)) by {
        broadcast use prefix_shorter;

    }
    let st1 = operand_agrees(code, p, s, env, vals, lhs, st);
    env_stays(s, env, vals, st, st1);
    let st2 = operand_agrees(code, p, t, env, vals, rhs, st1);
    let a = value_at(vals, lhs);
    let b = value_at(vals, rhs);
    assert(word(st2, x) == Word::Long(a));
    let st3 = binary_agrees(code, p, u, o, x, y, a, b, st2);
    env_stays(s, env, vals, st, st3);
    env_grows(env, vals, st3, (w.values - 1) as u32, scalar(o, a, b));
    pointers_stay(st, st3, s.values);
    state_moves(st, st3, m, m);
    st3
}

#[verifier::rlimit(40)]
proof fn trap_op_agrees(
    code: Seq<Placed>,
    p: Point,
    n: int,
    op: Op,
    s: Listing,
    env: Seq<u32>,
    vals: Seq<i64>,
    st: Native,
    m: Mach,
) -> (st2: Native)
    requires
        op is TrapIfZero,
        reach(code, p, s, st),
        prefix(so_far(op_code(n, op, s, env)).code, code),
        op_code(n, op, s, env) matches Lowering::Going(t, _) ==> goes_on(code, t),
        between(s),
        matches_state(st, m),
        matches_env(st, env, vals),
        env_below(s, env),
    ensures
        keeps_up(code, p, n, op_code(n, op, s, env), op_run(op, OpState { m, env: vals }), st2),
{
    broadcast use below_push;

    let src = op->TrapIfZero_src;
    let pc = op->TrapIfZero_pc;
    let (t, x) = operand_code(s, env, src);
    let w = trap_code(t, x, pc);
    let tail = code[w.code.len() as int];
    assert(prefix(w.code.push(tail), code));
    prefix_trap(code, t, x, pc);
    let st1 = operand_agrees(code, p, s, env, vals, src, st);
    let st2 = trap_agrees(code, p, t, x, value_at(vals, src), pc, tail, st1);
    if value_at(vals, src) != 0 {
        env_stays(s, env, vals, st, st2);
        pointers_stay(st, st2, s.values);
    }
    state_moves(st, st2, m, m);
    st2
}

#[verifier::rlimit(40)]
proof fn branch_op_agrees(
    code: Seq<Placed>,
    p: Point,
    n: int,
    op: Op,
    s: Listing,
    env: Seq<u32>,
    vals: Seq<i64>,
    st: Native,
    m: Mach,
) -> (st2: Native)
    requires
        op is BranchZero,
        reach(code, p, s, st),
        prefix(so_far(op_code(n, op, s, env)).code, code),
        op_code(n, op, s, env) matches Lowering::Going(t, _) ==> goes_on(code, t),
        between(s),
        matches_state(st, m),
        matches_env(st, env, vals),
        env_below(s, env),
    ensures
        keeps_up(code, p, n, op_code(n, op, s, env), op_run(op, OpState { m, env: vals }), st2),
{
    broadcast use below_push;

    let src = op->BranchZero_src;
    let (t, x) = operand_code(s, env, src);
    prefix_branch(code, t, n, x, op->zero, op->other);
    let st1 = operand_agrees(code, p, s, env, vals, src, st);
    let a = value_at(vals, src);
    let to = if a == 0 {
        op->zero
    } else {
        op->other
    };
    let st2 = branch_agrees(code, p, t, n, x, a, op->zero, op->other, st1);
    assert(op_run(op, OpState { m, env: vals }) == OpOut::Left(m, leave_of(to)));
    state_moves(st, st2, m, m);
    st2
}

proof fn tick_op_agrees(
    code: Seq<Placed>,
    p: Point,
    n: int,
    op: Op,
    s: Listing,
    env: Seq<u32>,
    vals: Seq<i64>,
    st: Native,
    m: Mach,
) -> (st2: Native)
    requires
        op is Tick,
        reach(code, p, s, st),
        prefix(so_far(op_code(n, op, s, env)).code, code),
        op_code(n, op, s, env) matches Lowering::Going(t, _) ==> goes_on(code, t),
        between(s),
        matches_state(st, m),
        matches_env(st, env, vals),
        env_below(s, env),
    ensures
        keeps_up(code, p, n, op_code(n, op, s, env), op_run(op, OpState { m, env: vals }), st2),
{
    let st2 = tick_agrees(code, p, s, op->Tick_pc, st, m);
    if m.budget > 0 {
        env_stays(s, env, vals, st, st2);
        let m2 = Mach { budget: (m.budget - 1) as u32, ..m };
        assert(op_run(op, OpState { m, env: vals }) == OpOut::Going(
            OpState { m: m2, env: vals },
        ));
        pointers_stay(st, st2, s.values);
        state_moves(st, st2, m, m2);
    } else {
        state_moves(st, st2, m, m);
    }
    st2
}

proof fn define_op_agrees(
    code: Seq<Placed>,
    p: Point,
    n: int,
    op: Op,
    s: Listing,
    env: Seq<u32>,
    vals: Seq<i64>,
    st: Native,
    m: Mach,
) -> (st2: Native)
    requires
        op is Const || op is Load,
        reach(code, p, s, st),
        prefix(so_far(op_code(n, op, s, env)).code, code),
        op_code(n, op, s, env) matches Lowering::Going(t, _) ==> goes_on(code, t),
        between(s),
        matches_state(st, m),
        matches_env(st, env, vals),
        env_below(s, env),
    ensures
        keeps_up(code, p, n, op_code(n, op, s, env), op_run(op, OpState { m, env: vals }), st2),
{
    match op {
        Op::Const { value } => define_agrees(
            code,
            p,
            s,
            Insn::Iconst { ty: ClifType::I64, value },
            value,
            env,
            vals,
            st,
            m,
        ),
        Op::Load { reg } => {
            let offset = slot_offset(reg as int);
            assert(offset == 8 * reg);
            define_agrees(
                code,
                p,
                s,
                Insn::Load { ty: ClifType::I64, addr: SLOTS, offset },
                mem_get(m.mem, reg as int),
                env,
                vals,
                st,
                m,
            )
        },
        _ => st,
    }
}

proof fn leaving_op_agrees(
    code: Seq<Placed>,
    p: Point,
    n: int,
    op: Op,
    s: Listing,
    env: Seq<u32>,
    vals: Seq<i64>,
    st: Native,
    m: Mach,
) -> (st2: Native)
    requires
        op is Jump || op is Exit,
        reach(code, p, s, st),
        prefix(so_far(op_code(n, op, s, env)).code, code),
        op_code(n, op, s, env) matches Lowering::Going(t, _) ==> goes_on(code, t),
        between(s),
        matches_state(st, m),
        matches_env(st, env, vals),
        env_below(s, env),
    ensures
        keeps_up(code, p, n, op_code(n, op, s, env), op_run(op, OpState { m, env: vals }), st2),
{
    match op {
        Op::Jump { to } => {
            let st2 = jump_agrees(code, p, s, n, to, st);
            state_moves(st, st2, m, m);
            st2
        },
        Op::Exit { kind, pc, return_reg } => {
            let st2 = exit_agrees(code, p, s, kind, pc, return_reg, st);
            state_moves(st, st2, m, m);
            st2
        },
        _ => st,
    }
}

/// An operation.
#[verifier::rlimit(40)]
proof fn op_agrees(
    code: Seq<Placed>,
    p: Point,
    n: int,
    op: Op,
    s: Listing,
    env: Seq<u32>,
    vals: Seq<i64>,
    st: Native,
    m: Mach,
) -> (st2: Native)
    requires
        reach(code, p, s, st),
        prefix(so_far(op_code(n, op, s, env)).code, code),
        op_code(n, op, s, env) matches Lowering::Going(t, _) ==> goes_on(code, t),
        between(s),
        matches_state(st, m),
        matches_env(st, env, vals),
        env_below(s, env),
    ensures
        keeps_up(code, p, n, op_code(n, op, s, env), op_run(op, OpState { m, env: vals }), st2),
{
    match op {
        Op::Tick { .. } => tick_op_agrees(code, p, n, op, s, env, vals, st, m),
        Op::Const { .. } => define_op_agrees(code, p, n, op, s, env, vals, st, m),
        Op::Load { .. } => define_op_agrees(code, p, n, op, s, env, vals, st, m),
        Op::Store { .. } => store_agrees(code, p, n, op, s, env, vals, st, m),
        Op::Bin { .. } => bin_agrees(code, p, n, op, s, env, vals, st, m),
        Op::TrapIfZero { .. } => trap_op_agrees(code, p, n, op, s, env, vals, st, m),
        Op::Jump { .. } => leaving_op_agrees(code, p, n, op, s, env, vals, st, m),
        Op::BranchZero { .. } => branch_op_agrees(code, p, n, op, s, env, vals, st, m),
        Op::Exit { .. } => leaving_op_agrees(code, p, n, op, s, env, vals, st, m),
        Op::Enter { pc, back, callee, dest, argc, registers, block } => enter_agrees(
            code,
            p,
            s,
            n,
            pc,
            back,
            callee,
            dest,
            argc,
            registers,
            block,
            st,
            m,
        ),
        Op::Leave { reg, pc } => leave_agrees(code, p, s, n, reg, pc, st, m),
    }
}

proof fn prefix_binary(code: Seq<Placed>, s: Listing, op: BinOp, x: u32, y: u32)
    requires
        prefix(binary_code(s, op, x, y).code, code),
    ensures
        prefix(s.code, code),
{
    broadcast use prefix_shorter;

}

proof fn prefix_trap(code: Seq<Placed>, s: Listing, x: u32, pc: u32)
    requires
        prefix(trap_code(s, x, pc).code, code),
    ensures
        prefix(s.code, code),
{
    broadcast use prefix_shorter;

    let s3 = zero_tested(s, x, 2, new_block(s, 0), new_block(s, 1));
    assert(prefix(s3.code, code));
}

proof fn prefix_branch(code: Seq<Placed>, s: Listing, n: int, x: u32, zero: Dest, other: Dest)
    requires
        prefix(branch_code(s, n, x, zero, other).code, code),
    ensures
        prefix(s.code, code),
{
    broadcast use prefix_shorter;

    let yes = branch_block(s, n, zero, 0);
    let no = branch_block(s, n, other, exits(zero));
    let s3 = zero_tested(s, x, exits(zero) + exits(other), yes, no);
    assert(prefix(branch_exit(s3, yes, zero).code, code));
    assert(prefix(s3.code, code));
}


proof fn prefix_joins(a: Seq<Placed>, b: Seq<Placed>, c: Seq<Placed>)
    requires
        prefix(a, b),
        prefix(b, c),
    ensures
        prefix(a, c),
{
    assert forall|k: int| 0 <= k < a.len() implies #[trigger] c[k] == a[k] by {
        assert(b[k] == a[k]);
        assert(c[k] == b[k]);
    }
}

/// An operation adds instructions, the first of them to the current block.
#[verifier::rlimit(40)]
proof fn op_starts(n: int, op: Op, s: Listing, env: Seq<u32>)
    requires
        s.at is Some,
    ensures
        goes_on(so_far(op_code(n, op, s, env)).code, s),
{
    broadcast use prefix_shorter;

    let t = so_far(op_code(n, op, s, env)).code;
    assert(prefix(t, t));
    match op {
        Op::Enter { pc, back, callee, dest, argc, registers, block } => {
            let depth = next(s);
            let i1 = Insn::Load { ty: ClifType::I32, addr: FRAME, offset: OFF_CALL_DEPTH };
            let s1 = def(s, i1);
            let i2 = Insn::Iconst { ty: ClifType::I32, value: MAX_JIT_CALL_DEPTH as i64 };
            let s2 = def(s1, i2);
            let i3 = Insn::Compare { cond: Cond::SignedGreaterEqual, x: depth, y: next(s1) };
            let s3 = def(s2, i3);
            let stop = new_block(s, 0);
            let go = new_block(s, 1);
            let s4 = end(more_blocks(s3, 2), Insn::Brif { c: next(s2), yes: stop, no: go });
            let s5 = goto(exit_code(goto(s4, stop), JIT_EFFECT, pc, 0), go);
            prefix_body(t, s5, n, depth, back, callee, dest, argc, registers, block);
            assert(prefix(s4.code, t));
        },
        Op::Leave { reg, pc } => {
            let depth = next(s);
            let i1 = Insn::Load { ty: ClifType::I32, addr: FRAME, offset: OFF_CALL_DEPTH };
            let s1 = def(s, i1);
            let i2 = Insn::Iconst { ty: ClifType::I32, value: 0 };
            let s2 = def(s1, i2);
            let i3 = Insn::Compare { cond: Cond::Equal, x: depth, y: next(s1) };
            let s3 = def(s2, i3);
            let outer = new_block(s, 0);
            let inner = new_block(s, 1);
            let s4 = end(more_blocks(s3, 2), Insn::Brif { c: next(s2), yes: outer, no: inner });
            let s5 = goto(exit_code(goto(s4, outer), JIT_RETURN, pc, reg as u32), inner);
            prefix_back(t, s5, depth, reg);
            assert(prefix(s4.code, t));
        },
        Op::BranchZero { src, zero, other } => {
            let (u, x) = operand_code(s, env, src);
            prefix_branch(t, u, n, x, zero, other);
            let yes = branch_block(u, n, zero, 0);
            let no = branch_block(u, n, other, exits(zero));
            let s3 = zero_tested(u, x, exits(zero) + exits(other), yes, no);
            assert(prefix(branch_exit(s3, yes, zero).code, t));
            assert(prefix(s3.code, t));
            assert(t[u.code.len() as int].block == s.at->Some_0);
        },
        Op::TrapIfZero { src, pc } => {
            let (u, x) = operand_code(s, env, src);
            prefix_trap(t, u, x, pc);
            let s3 = zero_tested(u, x, 2, new_block(u, 0), new_block(u, 1));
            assert(prefix(s3.code, t));
            assert(t[u.code.len() as int].block == s.at->Some_0);
        },
        Op::Bin { op: o, lhs, rhs } => {
            let (u, x) = operand_code(s, env, lhs);
            let (w, y) = operand_code(u, env, rhs);
            prefix_binary(t, w, o, x, y);
            binary_starts(w, o, x, y);
            assert(goes_on(t, w));
        },
        Op::Tick { pc } => {
            let s1 = def(s, Insn::Load { ty: ClifType::I32, addr: FRAME, offset: OFF_BUDGET });
            let s2 = def(s1, Insn::Iconst { ty: ClifType::I32, value: 0 });
            let s3 = def(s2, Insn::Compare { cond: Cond::Equal, x: next(s), y: next(s1) });
            let stop = new_block(s, 0);
            let go = new_block(s, 1);
            let s4 = end(more_blocks(s3, 2), Insn::Brif { c: next(s2), yes: stop, no: go });
            let s5 = goto(exit_code(goto(s4, stop), JIT_BUDGET, pc, 0), go);
            assert(prefix(s5.code, t));
            assert(prefix(s4.code, t));
        },
        _ => {},
    }
}

proof fn binary_starts(s: Listing, op: BinOp, x: u32, y: u32)
    requires
        s.at is Some,
    ensures
        goes_on(binary_code(s, op, x, y).code, s),
{
    broadcast use prefix_shorter;

    let t = binary_code(s, op, x, y).code;
    assert(prefix(t, t));
}

/// What lowering the operations of a block leaves.
proof fn ops_tidy(n: int, ops: Seq<Op>, s: Listing, lo: int, hi: int)
    requires
        tidy(s, lo, hi),
        s.values + 700 * (ops.len() + 1) < MAX_LISTING,
        s.blocks + 2 * ops.len() + 2 < MAX_LISTING,
    ensures
        ({
            let t = so_far(ops_code(n, ops, s));
            &&& tidy(t, lo, hi)
            &&& s.values <= t.values <= s.values + 700 * ops.len()
            &&& s.blocks <= t.blocks <= s.blocks + 2 * ops.len()
            &&& prefix(s.code, t.code)
        }),
        ops_code(n, ops, s) matches Lowering::Going(t, e) ==> env_below(t, e),
    decreases ops.len(),
{
    if ops.len() > 0 {
        ops_tidy(n, ops.drop_last(), s, lo, hi);
        if let Lowering::Going(t, e) = ops_code(n, ops.drop_last(), s) {
            op_tidy(n, ops.last(), t, e, lo, hi);
            op_starts(n, ops.last(), t, e);
            prefix_joins(s.code, t.code, so_far(op_code(n, ops.last(), t, e)).code);
        }
    }
}

/// The operations of a block.
#[verifier::rlimit(40)]
proof fn ops_agree(
    code: Seq<Placed>,
    p: Point,
    n: int,
    ops: Seq<Op>,
    s: Listing,
    st: Native,
    m: Mach,
) -> (st2: Native)
    requires
        reach(code, p, s, st),
        prefix(so_far(ops_code(n, ops, s)).code, code),
        ops_code(n, ops, s) matches Lowering::Going(t, _) ==> goes_on(code, t),
        tidy(s, 1, 0),
        s.values + 700 * (ops.len() + 1) < MAX_LISTING,
        s.blocks + 2 * ops.len() + 2 < MAX_LISTING,
        matches_state(st, m),
    ensures
        keeps_up(code, p, n, ops_code(n, ops, s), ops_run(ops, m), st2),
    decreases ops.len(),
{
    if ops.len() == 0 {
        st
    } else {
        let l = ops_code(n, ops.drop_last(), s);
        ops_tidy(n, ops.drop_last(), s, 1, 0);
        match l {
            Lowering::Ended(_) => ops_agree(code, p, n, ops.drop_last(), s, st, m),
            Lowering::Going(t, e) => {
                let full = so_far(op_code(n, ops.last(), t, e)).code;
                op_starts(n, ops.last(), t, e);
                prefix_joins(t.code, full, code);
                assert(code[t.code.len() as int] == full[t.code.len() as int]);
                let st1 = ops_agree(code, p, n, ops.drop_last(), s, st, m);
                match ops_run(ops.drop_last(), m) {
                    OpOut::Left(..) => st1,
                    OpOut::Going(o) => op_agrees(
                        code,
                        p,
                        n,
                        ops.last(),
                        t,
                        e,
                        o.env,
                        st1,
                        o.m,
                    ),
                }
            },
        }
    }
}


/// What lowering the first `k` blocks leaves.
proof fn blocks_tidy(blocks: Seq<Seq<Op>>, k: nat)
    requires
        lowers(blocks),
        k <= blocks.len(),
    ensures
        ({
            let n = blocks.len() as int;
            let t = blocks_code(blocks, k, entry_code(n));
            &&& tidy(t, k as int + 1, n + 1)
            &&& t.values <= 3 + 700 * op_count(blocks, k)
            &&& n + 2 <= t.blocks <= n + 2 + 2 * op_count(blocks, k)
            &&& 0 <= op_count(blocks, k) <= op_count(blocks, blocks.len())
        }),
    decreases k,
{
    broadcast use {below_push, clear_push};

    let n = blocks.len() as int;
    op_count_grows(blocks, k, blocks.len());
    op_count_grows(blocks, 0, k);
    if k > 0 {
        blocks_tidy(blocks, (k - 1) as nat);
        let t = blocks_code(blocks, (k - 1) as nat, entry_code(n));
        let s = goto(t, target(n, k - 1));
        clear_less(t.code, k as int, n + 1);
        assert(tidy(s, k as int + 1, n + 1));
        ops_tidy(n, blocks[k - 1], s, k as int + 1, n + 1);
    }
}

proof fn clear_less(a: Seq<Placed>, lo: int, hi: int)
    requires
        clear_of(a, lo, hi),
    ensures
        clear_of(a, lo + 1, hi),
{
}

/// A block adds instructions, the first of them in itself.
proof fn block_starts(n: int, ops: Seq<Op>, s: Listing)
    requires
        tidy(s, 1, 0),
        s.values + 700 * (ops.len() + 1) < MAX_LISTING,
        s.blocks + 2 * ops.len() + 2 < MAX_LISTING,
    ensures
        goes_on(block_code(n, ops, s).code, s),
        prefix(so_far(ops_code(n, ops, s)).code, block_code(n, ops, s).code),
        ops_code(n, ops, s) matches Lowering::Going(t, _) ==> goes_on(
            block_code(n, ops, s).code,
            t,
        ),
{
    broadcast use prefix_shorter;

    let t = block_code(n, ops, s).code;
    assert(prefix(t, t));
    ops_tidy(n, ops, s, 1, 0);
    prefix_joins(s.code, so_far(ops_code(n, ops, s)).code, t);
    if ops.len() > 0 {
        first_op(n, ops, s);
        let u = so_far(ops_code(n, ops, s)).code;
        assert(t[s.code.len() as int] == u[s.code.len() as int]);
    }
}

/// The first instruction of a block is in the block.
proof fn first_op(n: int, ops: Seq<Op>, s: Listing)
    requires
        tidy(s, 1, 0),
        ops.len() > 0,
        s.values + 700 * (ops.len() + 1) < MAX_LISTING,
        s.blocks + 2 * ops.len() + 2 < MAX_LISTING,
    ensures
        goes_on(so_far(ops_code(n, ops, s)).code, s),
    decreases ops.len(),
{
    let l = ops_code(n, ops.drop_last(), s);
    ops_tidy(n, ops.drop_last(), s, 1, 0);
    if ops.len() == 1 {
        assert(ops.drop_last().len() == 0);
        op_starts(n, ops.last(), s, Seq::empty());
    } else {
        first_op(n, ops.drop_last(), s);
        if let Lowering::Going(t, e) = l {
            let full = so_far(op_code(n, ops.last(), t, e)).code;
            op_starts(n, ops.last(), t, e);
            prefix_joins(s.code, t.code, full);
            assert(full[s.code.len() as int] == t.code[s.code.len() as int]);
        }
    }
}

/// Lowering more blocks keeps what there is.
proof fn blocks_extend(blocks: Seq<Seq<Op>>, k: nat, j: nat)
    requires
        lowers(blocks),
        k <= j <= blocks.len(),
    ensures
        prefix(
            blocks_code(blocks, k, entry_code(blocks.len() as int)).code,
            blocks_code(blocks, j, entry_code(blocks.len() as int)).code,
        ),
    decreases j,
{
    let n = blocks.len() as int;
    if k < j {
        blocks_extend(blocks, k, (j - 1) as nat);
        blocks_tidy(blocks, (j - 1) as nat);
        op_count_grows(blocks, j, blocks.len());
        let t = blocks_code(blocks, (j - 1) as nat, entry_code(n));
        let s = goto(t, target(n, j - 1));
        assert(tidy(s, 1, 0));
        block_starts(n, blocks[j - 1], s);
        prefix_joins(
            blocks_code(blocks, k, entry_code(n)).code,
            t.code,
            blocks_code(blocks, j, entry_code(n)).code,
        );
    }
}

/// A block of compiled code, and its native code.
#[verifier::rlimit(40)]
proof fn block_agrees(blocks: Seq<Seq<Op>>, b: int, st: Native, m: Mach) -> (st2: Native)
    requires
        lowers(blocks),
        0 <= b < blocks.len(),
        matches_state(st, m),
    ensures
        ({
            let n = blocks.len() as int;
            let code = native_code(blocks).code;
            let p = Point::At(block_start(code, target(n, b), 0), st);
            match ops_run(blocks[b], m) {
                OpOut::Left(m2, l) => arrived(code, p, n, m2, l, st2),
                OpOut::Going(o) => arrived(code, p, n, o.m, Leave::To(n), st2),
            }
        }),
{
    broadcast use prefix_shorter;

    let n = blocks.len() as int;
    let code = native_code(blocks).code;
    let k = b as nat;
    let t = blocks_code(blocks, k, entry_code(n));
    let s = goto(t, target(n, b));
    let after = blocks_code(blocks, k + 1, entry_code(n));
    let last = blocks_code(blocks, blocks.len(), entry_code(n));
    blocks_tidy(blocks, k);
    op_count_grows(blocks, k + 1, blocks.len());
    assert(tidy(s, 1, 0));
    block_starts(n, blocks[b], s);
    assert(after == block_code(n, blocks[b], s));
    blocks_extend(blocks, k + 1, blocks.len());
    assert(prefix(last.code, code)) by {
        assert(prefix(code, code));
    }
    prefix_joins(after.code, last.code, code);
    prefix_joins(s.code, after.code, code);
    assert(code[s.code.len() as int] == after.code[s.code.len() as int]);
    new_block_start(code, t, target(n, b));
    let p = Point::At(block_start(code, target(n, b), 0), st);
    assert(walked(code, p, 0) == p);
    assert(reach(code, p, s, st));
    let l = ops_code(n, blocks[b], s);
    prefix_joins(so_far(l).code, after.code, code);
    if let Lowering::Going(u, _) = l {
        assert(code[u.code.len() as int] == after.code[u.code.len() as int]);
    }
    let st2 = ops_agree(code, p, n, blocks[b], s, st, m);
    if let OpOut::Going(_) = ops_run(blocks[b], m) {
        let u = so_far(l);
        assert(after.code == put(u, Insn::Jump { to: target(n, n) }).code);
        assert(code[u.code.len() as int].insn == Insn::Jump { to: target(n, n) });
        leads_step(code, p, Point::At(u.code.len() as int, st2));
    }
    st2
}

/// The block that leaves code that does not apply.
proof fn last_block_agrees(blocks: Seq<Seq<Op>>, st: Native, m: Mach) -> (st2: Native)
    requires
        lowers(blocks),
        matches_state(st, m),
    ensures
        ({
            let n = blocks.len() as int;
            let code = native_code(blocks).code;
            let p = Point::At(block_start(code, target(n, n), 0), st);
            arrived(code, p, n, m, Leave::Exit(deopt()), st2)
        }),
{
    broadcast use prefix_shorter;

    let n = blocks.len() as int;
    let code = native_code(blocks).code;
    let t = blocks_code(blocks, blocks.len(), entry_code(n));
    let s = goto(t, target(n, n));
    blocks_tidy(blocks, blocks.len());
    assert(prefix(code, code));
    assert(prefix(t.code, code));
    assert(code[s.code.len() as int].block == target(n, n));
    new_block_start(code, t, target(n, n));
    let p = Point::At(block_start(code, target(n, n), 0), st);
    assert(walked(code, p, 0) == p);
    exit_agrees(code, p, s, JIT_DEOPT, 0, 0, st)
}

/// A block that pays has less left when it leads to another.
proof fn budget_falls(ops: Seq<Op>, m: Mach)
    requires
        ops.len() > 0,
        ops[0] is Tick,
    ensures
        match ops_run(ops, m) {
            OpOut::Going(o) => o.m.budget < m.budget,
            OpOut::Left(m2, l) => l is To ==> m2.budget < m.budget,
        },
    decreases ops.len(),
{
    if ops.len() == 1 {
        assert(ops.drop_last().len() == 0);
        assert(ops.last() == ops[0]);
    } else {
        assert(ops.drop_last()[0] == ops[0]);
        budget_falls(ops.drop_last(), m);
    }
}

/// Native code from a block on.
proof fn run_agrees(blocks: Seq<Seq<Op>>, b: int, st: Native, m: Mach) -> (st2: Native)
    requires
        lowers(blocks),
        pays(blocks),
        0 <= b,
        matches_state(st, m),
    ensures
        ({
            let n = blocks.len() as int;
            let code = native_code(blocks).code;
            let p = Point::At(block_start(code, target(n, b), 0), st);
            let (m2, x) = code_run(blocks, b, m);
            arrived(code, p, n, m2, Leave::Exit(x), st2)
        }),
    decreases m.budget,
{
    let n = blocks.len() as int;
    let code = native_code(blocks).code;
    if b >= n {
        last_block_agrees(blocks, st, m)
    } else {
        let p = Point::At(block_start(code, target(n, b), 0), st);
        let st1 = block_agrees(blocks, b, st, m);
        budget_falls(blocks[b], m);
        match ops_run(blocks[b], m) {
            OpOut::Left(m1, Leave::Exit(_)) => st1,
            OpOut::Left(m1, Leave::To(j)) => {
                to_is_positive(blocks[b], m);
                let q = Point::At(block_start(code, target(n, j), 0), st1);
                let st2 = run_agrees(blocks, j, st1, m1);
                leads_on(code, p, q, Point::Done(st2));
                st2
            },
            OpOut::Going(o) => {
                let q = Point::At(block_start(code, target(n, n), 0), st1);
                let st2 = last_block_agrees(blocks, st1, o.m);
                leads_on(code, p, q, Point::Done(st2));
                st2
            },
        }
    }
}

/// A block leads to blocks with a number.
proof fn to_is_positive(ops: Seq<Op>, m: Mach)
    ensures
        ops_run(ops, m) matches OpOut::Left(_, Leave::To(j)) ==> 0 <= j,
    decreases ops.len(),
{
    if ops.len() > 0 {
        to_is_positive(ops.drop_last(), m);
    }
}

/// Native code of compiled code that pays for every block does what the
/// code does: from its first instruction it comes to its end, with the
/// slots, the budget and the calls of the machine, and the frame says why
/// the code was left.
#[verifier::rlimit(40)]
pub proof fn native_code_agrees(blocks: Seq<Seq<Op>>, st: Native, m: Mach)
    requires
        lowers(blocks),
        pays(blocks),
        st.words[0] == Word::Frame,
        matches_state(
            Native {
                words: st.words.insert(1, Word::Slots(0)).insert(2, Word::Calls(0)),
                ..st
            },
            m,
        ),
    ensures
        ({
            let (m2, x) = code_run(blocks, 0, m);
            exists|st2: Native|
                {
                    &&& #[trigger] leads(
                        native_code(blocks).code,
                        Point::At(0, st),
                        Point::Done(st2),
                    )
                    &&& matches_state(st2, m2)
                    &&& st2.kind == x.kind
                    &&& st2.pc == x.pc
                    &&& st2.return_reg == x.return_reg
                }
        }),
{
    broadcast use prefix_shorter;

    let n = blocks.len() as int;
    let code = native_code(blocks).code;
    let p = Point::At(0, st);
    let e = entry_code(n);
    let last = blocks_code(blocks, blocks.len(), e);
    assert(prefix(last.code, code)) by {
        assert(prefix(code, code));
    }
    blocks_extend(blocks, 0, blocks.len());
    assert(blocks_code(blocks, 0, e) == e);
    prefix_joins(e.code, last.code, code);
    let s = goto(Listing { blocks: 1, values: 1, ..empty_listing() }, 0);
    let i1 = Insn::Load { ty: ClifType::I64, addr: FRAME, offset: OFF_SLOTS };
    let s1 = def(s, i1);
    let i2 = Insn::Load { ty: ClifType::I64, addr: FRAME, offset: OFF_CALL_STACK };
    let s2 = def(s1, i2);
    let i3 = Insn::Jump { to: target(n, 0) };
    assert(e.code == put(more_blocks(s2, n + 1), i3).code);
    assert(prefix(put(s1, i2).code, code));
    assert(walked(code, p, 0) == p);
    assert(reach(code, p, s, st));
    let st1 = run_one(code, p, s, i1, st);
    let st2 = run_one(code, p, s1, i2, st1);
    assert(st2.words =~= st.words.insert(1, Word::Slots(0)).insert(2, Word::Calls(0)));
    leads_step(code, p, Point::At(s2.code.len() as int, st2));
    let q = Point::At(block_start(code, target(n, 0), 0), st2);
    assert(leads(code, p, q));
    let st3 = run_agrees(blocks, 0, st2, m);
    leads_on(code, p, q, Point::Done(st3));
}


/// The native code of a compiled trace does what the trace does.
pub proof fn native_trace_agrees(
    t: CompiledTrace,
    chunk: Chunk,
    key: TraceKey,
    st: Native,
    m: Mach,
)
    requires
        is_trace_of(t, chunk, key),
        st.words[0] == Word::Frame,
        matches_state(
            Native {
                words: st.words.insert(1, Word::Slots(0)).insert(2, Word::Calls(0)),
                ..st
            },
            m,
        ),
    ensures
        ({
            let registers = chunk.functions@[key.function as int].num_registers;
            let region = region_of(chunk, key.entry_pc);
            let (m2, x) = trace_run(trace_ctx(chunk, key, registers), region, 0, m);
            exists|st2: Native|
                {
                    &&& #[trigger] leads(
                        native_code(code_states(t.entry.blocks@)).code,
                        Point::At(0, st),
                        Point::Done(st2),
                    )
                    &&& matches_state(st2, m2)
                    &&& st2.kind == x.kind
                    &&& st2.pc == x.pc
                    &&& st2.return_reg == x.return_reg
                }
        }),
{
    native_code_agrees(code_states(t.entry.blocks@), st, m);
}

} // verus!
