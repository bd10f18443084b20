//! What assembled code does when it runs.

use vstd::prelude::*;

use crate::bytecode::builder::{builder_wf, patched, Label};
use crate::bytecode::instruction::Instruction;
use crate::bytecode::meaning::jumps_land_on_their_labels;
use crate::bytecode::opcode::Opcode;
use crate::bytecode::program::{
    fn_load, fn_make_msg, fn_native1, fn_reply, loop_end, loop_head, FnState, Reg,
};
use crate::bytecode::value::{Message, Value};
use crate::natives::std_native::{MAKE_MSG, MSG_REQUEST_ID};
use crate::vm::frame::FrameState;
use crate::vm::meaning::{
    has, is_at, loads_and_moves, may_call, message_natives_read_their_field,
    messages_are_made_of_their_arguments, reads_unsigned, registers, wrote,
};
use crate::vm::native::NativeFn;
use crate::vm::state::{step, VmState};

verus! {

/// The machine after `n` steps that needed nobody.
pub open spec fn stepped(s: VmState, n: nat) -> VmState
    decreases n,
{
    if n == 0 {
        s
    } else {
        let t = stepped(s, (n - 1) as nat);
        match step(t).1 {
            None => step(t).0,
            Some(_) => t,
        }
    }
}

/// The machine is `n` instructions further with these registers, and all
/// else is as it was.
pub open spec fn got_to(s: VmState, t: VmState, n: int, regs: Seq<Value>) -> bool {
    &&& t.frames == s.frames.update(
        s.frames.len() - 1,
        FrameState {
            pc: (s.frames.last().pc + n) as usize,
            registers: regs,
            ..s.frames.last()
        },
    )
    &&& t.chunk == s.chunk
    &&& t.natives == s.natives
    &&& t.gate == s.gate
    &&& t.quota is None
}

/// The machine stands in front of what was assembled from `f` to `g`.
pub open spec fn stands_before(s: VmState, f: FnState, g: FnState) -> bool {
    &&& s.frames.len() > 0
    &&& s.quota is None
    &&& s.frames.last().pc == f.b.code.len()
    &&& g.b.code.len() <= s.chunk.code@.len() <= usize::MAX
    &&& forall|i: int|
        f.b.code.len() <= i < g.b.code.len() ==> #[trigger] s.chunk.code@[i] == g.b.code[i]
    &&& registers(s).len() <= 256
}

proof fn lemma_step_to(s: VmState, t: VmState, n: int, regs: Seq<Value>, a: u8, v: Value)
    requires
        s.frames.len() > 0,
        got_to(s, t, n, regs),
        0 <= n,
        s.frames.last().pc + n < t.chunk.code@.len() <= usize::MAX,
        a < regs.len(),
        wrote(t, a, v),
    ensures
        step(t).1 is None,
        got_to(s, step(t).0, n + 1, regs.update(a as int, v)),
{
    let u = step(t).0;
    assert(u.frames =~= s.frames.update(
        s.frames.len() - 1,
        FrameState {
            pc: (s.frames.last().pc + n + 1) as usize,
            registers: regs.update(a as int, v),
            ..s.frames.last()
        },
    ));
}

proof fn lemma_at(s: VmState, t: VmState, n: int, regs: Seq<Value>, i: Instruction)
    requires
        s.frames.len() > 0,
        got_to(s, t, n, regs),
        0 <= n,
        s.frames.last().pc + n < s.chunk.code@.len() <= usize::MAX,
        s.chunk.code@[s.frames.last().pc + n] == i,
    ensures
        is_at(t, i),
        registers(t) == regs,
{
}

/// A value that a function loads is in the new local after one step, if the
/// pool holds it where the load looks.
pub proof fn loaded_values_are_in_their_local(s: VmState, f: FnState, v: Value)
    requires
        stands_before(s, f, fn_load(f, v)),
        f.next_reg < registers(s).len(),
        f.b.constants.len() < 0x7FFF_FFFF,
        crate::bytecode::builder::const_index(f.b, v) < s.chunk.constants@.len(),
        s.chunk.constants@[crate::bytecode::builder::const_index(f.b, v) as int]
            == crate::bytecode::builder::builder_const(f.b, v).constants[
        crate::bytecode::builder::const_index(f.b, v) as int],
    ensures
        ({
            let c = crate::bytecode::builder::builder_const(f.b, v).constants[
            crate::bytecode::builder::const_index(f.b, v) as int];
            got_to(s, stepped(s, 1), 1, registers(s).update(f.next_reg as int, c))
        }),
{
    let g = fn_load(f, v);
    let p = f.b.code.len() as int;
    let i = g.b.code[p];
    crate::bytecode::meaning::constants_are_found(f.b, v);
    assert(s.chunk.code@[p] == i);
    assert(s.frames.update(
        s.frames.len() - 1,
        FrameState {
            pc: s.frames.last().pc,
            registers: registers(s),
            ..s.frames.last()
        },
    ) =~= s.frames);
    assert(got_to(s, s, 0, registers(s)));
    lemma_at(s, s, 0, registers(s), i);
    loads_and_moves(s, i);
    let c = s.chunk.constants@[crate::bytecode::builder::const_index(f.b, v) as int];
    assert(wrote(s, f.next_reg, c));
    lemma_step_to(s, s, 0, registers(s), f.next_reg, c);
    assert(stepped(s, 0) == s);
    assert(stepped(s, 1) == step(s).0);
}

/// A native that a function calls on a register gets a copy of it, and its
/// result is in the new local: reading the correlation id of a message gives
/// that id.
pub proof fn read_ids_are_in_their_local(
    s: VmState,
    f: FnState,
    src: Reg,
    name: Seq<char>,
    m: Message,
)
    requires
        stands_before(s, f, fn_native1(f, src, MSG_REQUEST_ID)),
        f.next_reg < registers(s).len(),
        has(s, src.slot, Value::Message(m)),
        may_call(s, MSG_REQUEST_ID),
        s.natives[MSG_REQUEST_ID as int] == Some((name, NativeFn::MsgRequestId)),
    ensures
        got_to(
            s,
            stepped(s, 2),
            2,
            registers(s).update(f.next_reg as int, Value::Int(m.request_id as i64)),
        ),
{
    let g = fn_native1(f, src, MSG_REQUEST_ID);
    let p = f.b.code.len() as int;
    let r = registers(s);
    let d = f.next_reg;
    let i0 = g.b.code[p];
    let i1 = g.b.code[p + 1];
    assert(s.chunk.code@[p] == i0);
    assert(s.chunk.code@[p + 1] == i1);
    lemma_start(s);
    lemma_at(s, s, 0, r, i0);
    loads_and_moves(s, i0);
    lemma_step_to(s, s, 0, r, d, Value::Message(m));
    let t = step(s).0;
    let r1 = r.update(d as int, Value::Message(m));
    lemma_at(s, t, 1, r1, i1);
    message_natives_read_their_field(t, i1, name, NativeFn::MsgRequestId, m);
    lemma_step_to(s, t, 1, r1, d, Value::Int(m.request_id as i64));
    assert(r1.update(d as int, Value::Int(m.request_id as i64)) =~= r.update(
        d as int,
        Value::Int(m.request_id as i64),
    ));
    assert(stepped(s, 0) == s);
    assert(stepped(s, 1) == t);
    assert(stepped(s, 2) == step(t).0);
}

proof fn lemma_start(s: VmState)
    requires
        s.frames.len() > 0,
        s.quota is None,
    ensures
        got_to(s, s, 0, registers(s)),
{
    assert(s.frames.update(
        s.frames.len() - 1,
        FrameState {
            pc: s.frames.last().pc,
            registers: registers(s),
            ..s.frames.last()
        },
    ) =~= s.frames);
}

/// The registers after a message was made: it is in the first of three new
/// locals, and what else was there before stays.
pub open spec fn made(
    regs: Seq<Value>,
    after: Seq<Value>,
    first: int,
    n: int,
    tag: int,
    payload: Value,
) -> bool {
    &&& after.len() == regs.len()
    &&& after[first] is Message
    &&& after[first]->Message_0.request_id == n
    &&& after[first]->Message_0.tag == tag
    &&& *after[first]->Message_0.payload == payload
    &&& after[first]->Message_0.sender == 0
    &&& after[first]->Message_0.reply_cap.raw == 0
    &&& forall|k: int|
        0 <= k < regs.len() && !(first <= k < first + 3) ==> #[trigger] after[k] == regs[k]
}

/// A message that a function makes has the correlation id and the body of the
/// registers that it names, and its tag.
pub proof fn assembled_messages_hold_what_they_name(
    s: VmState,
    f: FnState,
    request_id: Reg,
    tag: i32,
    payload: Reg,
    name: Seq<char>,
    n: int,
)
    requires
        stands_before(s, f, fn_make_msg(f, MAKE_MSG, request_id, tag, payload)),
        f.next_reg + 3 <= registers(s).len(),
        request_id.slot < f.next_reg,
        payload.slot < f.next_reg,
        reads_unsigned(registers(s)[request_id.slot as int], n),
        0 <= tag <= u16::MAX,
        may_call(s, MAKE_MSG),
        s.natives[MAKE_MSG as int] == Some((name, NativeFn::MakeMsg)),
    ensures
        ({
            let t = stepped(s, 4);
            &&& got_to(s, t, 4, registers(t))
            &&& made(
                registers(s),
                registers(t),
                f.next_reg as int,
                n,
                tag as int,
                registers(s)[payload.slot as int],
            )
        }),
{
    let g = fn_make_msg(f, MAKE_MSG, request_id, tag, payload);
    let p = f.b.code.len() as int;
    let r = registers(s);
    let d = f.next_reg;
    let e = (d + 1) as u8;
    let h = (d + 2) as u8;
    let id = r[request_id.slot as int];
    let body = r[payload.slot as int];
    lemma_make_code(f, request_id, tag, payload);
    let i0 = Instruction { op: Opcode::Move, a: d, b: request_id.slot, c: 0, imm: 0 };
    let i1 = Instruction { op: Opcode::LoadImm, a: e, b: 0, c: 0, imm: tag };
    let i2 = Instruction { op: Opcode::Move, a: h, b: payload.slot, c: 0, imm: 0 };
    let i3 = Instruction { op: Opcode::CallNative, a: d, b: 3, c: 0, imm: MAKE_MSG as i32 };
    assert(s.chunk.code@[p] == i0);
    assert(s.chunk.code@[p + 1] == i1);
    assert(s.chunk.code@[p + 2] == i2);
    assert(s.chunk.code@[p + 3] == i3);
    lemma_start(s);
    lemma_at(s, s, 0, r, i0);
    loads_and_moves(s, i0);
    lemma_step_to(s, s, 0, r, d, id);
    let t1 = step(s).0;
    let r1 = r.update(d as int, id);
    lemma_at(s, t1, 1, r1, i1);
    loads_and_moves(t1, i1);
    let tv = Value::Int(tag as i64);
    lemma_step_to(s, t1, 1, r1, e, tv);
    let t2 = step(t1).0;
    let r2 = r1.update(e as int, tv);
    lemma_at(s, t2, 2, r2, i2);
    loads_and_moves(t2, i2);
    assert(r2[payload.slot as int] == body);
    lemma_step_to(s, t2, 2, r2, h, body);
    let t3 = step(t2).0;
    let r3 = r2.update(h as int, body);
    lemma_at(s, t3, 3, r3, i3);
    assert(r3[d as int] == id && r3[e as int] == tv && r3[h as int] == body);
    messages_are_made_of_their_arguments(t3, i3, name, n, tag as int);
    let m = choose|m: Message|
        {
            &&& #[trigger] wrote(t3, i3.a, Value::Message(m))
            &&& m.request_id == n
            &&& m.tag == tag
            &&& *m.payload == body
            &&& m.sender == 0
            &&& m.reply_cap.raw == 0
        };
    lemma_step_to(s, t3, 3, r3, d, Value::Message(m));
    let t4 = step(t3).0;
    assert(stepped(s, 0) == s);
    assert(stepped(s, 1) == t1);
    assert(stepped(s, 2) == t2);
    assert(stepped(s, 3) == t3);
    assert(stepped(s, 4) == t4);
    assert(registers(t4) == r3.update(d as int, Value::Message(m)));
}

proof fn lemma_make_code(f: FnState, request_id: Reg, tag: i32, payload: Reg)
    requires
        f.next_reg + 3 <= 256,
    ensures
        ({
            let g = fn_make_msg(f, MAKE_MSG, request_id, tag, payload);
            let p = f.b.code.len() as int;
            let d = f.next_reg;
            &&& g.b.code.len() == p + 4
            &&& g.b.code[p] == (Instruction {
                op: Opcode::Move,
                a: d,
                b: request_id.slot,
                c: 0,
                imm: 0,
            })
            &&& g.b.code[p + 1] == (Instruction {
                op: Opcode::LoadImm,
                a: (d + 1) as u8,
                b: 0,
                c: 0,
                imm: tag,
            })
            &&& g.b.code[p + 2] == (Instruction {
                op: Opcode::Move,
                a: (d + 2) as u8,
                b: payload.slot,
                c: 0,
                imm: 0,
            })
            &&& g.b.code[p + 3] == (Instruction {
                op: Opcode::CallNative,
                a: d,
                b: 3,
                c: 0,
                imm: MAKE_MSG as i32,
            })
        }),
{
    reveal_with_fuel(crate::bytecode::program::fn_locals, 4);
}

/// A reply that a function makes answers the request: it has the correlation
/// id of the request, and the tag and the body that the function names.
pub proof fn assembled_replies_answer_the_request(
    s: VmState,
    f: FnState,
    req: Reg,
    tag: i32,
    payload: Reg,
    id_name: Seq<char>,
    make_name: Seq<char>,
    m: Message,
)
    requires
        stands_before(s, f, fn_reply(f, req, tag, payload)),
        f.next_reg + 4 <= registers(s).len(),
        payload.slot < f.next_reg,
        has(s, req.slot, Value::Message(m)),
        m.request_id <= i64::MAX,
        0 <= tag <= u16::MAX,
        may_call(s, MSG_REQUEST_ID),
        may_call(s, MAKE_MSG),
        s.natives[MSG_REQUEST_ID as int] == Some((id_name, NativeFn::MsgRequestId)),
        s.natives[MAKE_MSG as int] == Some((make_name, NativeFn::MakeMsg)),
    ensures
        ({
            let t = stepped(s, 6);
            let answer = registers(t)[f.next_reg + 1];
            &&& t.frames.last().pc == s.frames.last().pc + 6
            &&& answer is Message
            &&& answer->Message_0.request_id == m.request_id
            &&& answer->Message_0.tag == tag
            &&& *answer->Message_0.payload == registers(s)[payload.slot as int]
        }),
{
    let f1 = fn_native1(f, req, MSG_REQUEST_ID);
    let g = fn_reply(f, req, tag, payload);
    let id = Reg { slot: f.next_reg };
    let p = f.b.code.len() as int;
    lemma_make_code(f1, id, tag, payload);
    assert(f1.b.code.len() == p + 2);
    assert forall|i: int| p <= i < f1.b.code.len() implies #[trigger] s.chunk.code@[i]
        == f1.b.code[i] by {
        lemma_make_prefix(f1, id, tag, payload, i);
        assert(g.b.code[i] == f1.b.code[i]);
    }
    read_ids_are_in_their_local(s, f, req, id_name, m);
    let t = stepped(s, 2);
    let r = registers(s).update(f.next_reg as int, Value::Int(m.request_id as i64));
    assert(registers(t) == r);
    assert(t.frames.last().pc == p + 2);
    assembled_messages_hold_what_they_name(
        t,
        f1,
        id,
        tag,
        payload,
        make_name,
        m.request_id as int,
    );
    lemma_stepped(s, 2, 4);
    assert(r[payload.slot as int] == registers(s)[payload.slot as int]);
}

proof fn lemma_make_prefix(f: FnState, request_id: Reg, tag: i32, payload: Reg, i: int)
    requires
        0 <= i < f.b.code.len(),
    ensures
        fn_make_msg(f, MAKE_MSG, request_id, tag, payload).b.code[i] == f.b.code[i],
{
    reveal_with_fuel(crate::bytecode::program::fn_locals, 4);
}

proof fn lemma_stepped(s: VmState, m: nat, n: nat)
    ensures
        stepped(stepped(s, m), n) == stepped(s, m + n),
    decreases n,
{
    if n > 0 {
        lemma_stepped(s, m, (n - 1) as nat);
    }
}

/// A loop tests its counter first: what is not below the limit goes on behind
/// the loop, and the end of the body goes back to the test.
pub proof fn loops_test_and_repeat(f: FnState, counter: Reg, limit: Reg, g: FnState)
    requires
        ({
            let h = loop_head(f, counter, limit);
            let r = loop_end(g, f.b.next_label);
            &&& f.b.next_label < u32::MAX - 1
            &&& h.b.code.len() <= g.b.code.len()
            &&& g.b.code.len() + 1 < 0x7FFF_FFFF
            &&& forall|i: int|
                0 <= i < h.b.code.len() ==> #[trigger] g.b.code[i] == h.b.code[i]
            &&& h.b.pending.len() <= g.b.pending.len()
            &&& forall|i: int|
                0 <= i < h.b.pending.len() ==> #[trigger] g.b.pending[i] == h.b.pending[i]
            &&& g.b.labels.contains_key(f.b.next_label as u128)
            &&& g.b.labels[f.b.next_label as u128] == h.b.labels[f.b.next_label as u128]
            &&& builder_wf(r.b)
        }),
    ensures
        ({
            let r = loop_end(g, f.b.next_label);
            let code = patched(r.b, r.b.pending.len());
            let p = f.b.code.len() as int;
            let q = g.b.code.len() as int;
            &&& code.len() == q + 1
            &&& code[p + 1].op is Branch
            &&& code[p + 1].a == f.next_reg
            &&& p + 2 + code[p + 1].imm == q + 1
            &&& code[q].op is Jump
            &&& q + 1 + code[q].imm == p
            &&& g.b.code[p].op is Lt
            &&& g.b.code[p].a == f.next_reg
            &&& g.b.code[p].b == counter.slot
            &&& g.b.code[p].c == limit.slot
        }),
{
    let h = loop_head(f, counter, limit);
    let r = loop_end(g, f.b.next_label);
    let p = f.b.code.len() as int;
    let q = g.b.code.len() as int;
    let k = f.b.pending.len() as int;
    let last = g.b.pending.len() as int;
    assert(h.b.pending[k].0 == p + 1);
    assert(g.b.pending[k] == h.b.pending[k]);
    assert(r.b.pending[k] == g.b.pending[k]);
    assert(g.b.code[p + 1] == h.b.code[p + 1]);
    assert(g.b.code[p] == h.b.code[p]);
    assert(r.b.code[p + 1] == g.b.code[p + 1]);
    assert(r.b.pending[last] == (q as usize, Label { id: f.b.next_label }));
    jumps_land_on_their_labels(r.b, k);
    jumps_land_on_their_labels(r.b, last);
}

} // verus!
