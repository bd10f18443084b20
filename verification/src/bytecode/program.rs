//! Assembling a module function by function, with named registers.

use vstd::prelude::*;

use crate::bytecode::builder::{
    builder_begin, builder_const, builder_emit, builder_empty, builder_jump, builder_set_regs,
    builder_wf, const_index, ins, is_binop, last_function, patched, BuilderState, ChunkBuilder,
};
use crate::bytecode::cap::CapRights;
use crate::bytecode::chunk::Chunk;
use crate::bytecode::opcode::Opcode;
use crate::bytecode::restart::{policy_byte, RestartPolicy};
use crate::bytecode::value::Value;
use crate::bytecode::wire::function_models;
use crate::natives::std_native::{
    MAKE_MSG, MSG_PAYLOAD, MSG_REPLY_CAP, MSG_REQUEST_ID, MSG_SENDER, MSG_TAG,
};

pub use crate::bytecode::builder::Label;

verus! {

/// Index of a function in its module.
pub type FuncId = u32;

/// A register of the current function.
#[derive(Clone, Copy, Debug, PartialEq, Eq, Structural, Hash)]
pub struct Reg {
    pub slot: u8,
}

impl Reg {
    /// Index in the frame.
    pub fn index(self) -> (r: u8)
        ensures
            r == self.slot,
    {
        self.slot
    }
}

impl From<Reg> for u8 {
    fn from(r: Reg) -> (out: u8) {
        r.slot
    }
}

impl vstd::std_specs::convert::FromSpecImpl<Reg> for u8 {
    open spec fn obeys_from_spec() -> bool {
        true
    }

    open spec fn from_spec(r: Reg) -> u8 {
        r.slot
    }
}

/// Contiguous registers.
#[derive(Clone, Copy, Debug)]
pub struct RegWindow {
    pub first: Reg,
    pub len: u8,
}

impl RegWindow {
    /// First register of the window.
    pub fn base(self) -> (r: Reg)
        ensures
            r == self.first,
    {
        self.first
    }

    /// Register `i` of the window.
    pub fn at(self, i: u8) -> (r: Reg)
        requires
            i < self.len,
        ensures
            r == window_reg(self.first, i),
    {
        Reg { slot: self.first.slot.saturating_add(i) }
    }
}

/// Register `i` after `first`; the last register stands for all beyond it.
pub open spec fn window_reg(first: Reg, i: u8) -> Reg {
    Reg { slot: if first.slot + i <= 255 { (first.slot + i) as u8 } else { 255 } }
}

/// Assembler of one function, with the module's assembler inside.
pub struct Fn {
    pub b: ChunkBuilder,
    pub function: FuncId,
    pub next_reg: u8,
    pub scratch: Option<Reg>,
}

/// What a function assembler holds.
#[verifier::ext_equal]
pub ghost struct FnState {
    pub b: BuilderState,
    pub function: FuncId,
    pub next_reg: u8,
    pub scratch: Option<Reg>,
}

impl View for Fn {
    type V = FnState;

    open spec fn view(&self) -> FnState {
        FnState {
            b: self.b@,
            function: self.function,
            next_reg: self.next_reg,
            scratch: self.scratch,
        }
    }
}

/// A function just begun with `num_registers` registers.
pub open spec fn fn_open(b: BuilderState, name: Seq<char>, arity: u8, num_registers: u8) -> FnState {
    FnState {
        b: builder_begin(b, name, arity, num_registers),
        function: b.functions.len() as u32,
        next_reg: num_registers,
        scratch: None,
    }
}

/// Registers that a function of this arity starts with.
pub open spec fn initial_registers(arity: u8) -> u8 {
    if arity > 4 {
        arity
    } else {
        4
    }
}

/// The state with `count` registers declared.
pub open spec fn fn_registers(f: FnState, count: u8) -> FnState {
    FnState { b: builder_set_regs(f.b, f.function, count), next_reg: count, ..f }
}

/// The state with one more local; the count stops at the last register.
pub open spec fn fn_local(f: FnState) -> FnState {
    fn_registers(f, if f.next_reg < 255 { (f.next_reg + 1) as u8 } else { 255 })
}

/// The register that the next local gets.
pub open spec fn next_local(f: FnState) -> Reg {
    Reg { slot: f.next_reg }
}

/// The state with `n` more locals.
pub open spec fn fn_locals(f: FnState, n: nat) -> FnState
    decreases n,
{
    if n == 0 {
        f
    } else {
        fn_local(fn_locals(f, (n - 1) as nat))
    }
}

/// The state with the scratch register allocated.
pub open spec fn fn_temp(f: FnState) -> FnState {
    if f.scratch is Some {
        f
    } else {
        FnState { scratch: Some(next_local(f)), ..fn_local(f) }
    }
}

/// The scratch register.
pub open spec fn temp_reg(f: FnState) -> Reg {
    match f.scratch {
        Some(r) => r,
        None => next_local(f),
    }
}

/// The state with one more instruction.
pub open spec fn fn_emit(
    f: FnState,
    op: Opcode,
    a: u8,
    b: u8,
    c: u8,
    imm: i32,
) -> FnState {
    FnState { b: builder_emit(f.b, ins(op, a, b, c, imm)), ..f }
}

/// The state with `v` loaded from the pool into a new local.
pub open spec fn fn_load(f: FnState, v: Value) -> FnState {
    let pooled = FnState { b: builder_const(f.b, v), ..f };
    fn_emit(fn_local(pooled), Opcode::LoadConst, f.next_reg, 0, 0, const_index(f.b, v) as i32)
}

/// The state with a binary operation into a new local.
pub open spec fn fn_binop(f: FnState, op: Opcode, lhs: Reg, rhs: Reg) -> FnState {
    fn_emit(fn_local(f), op, f.next_reg, lhs.slot, rhs.slot, 0)
}

/// The state with `imm` in the scratch register.
pub open spec fn fn_temp_imm(f: FnState, imm: i32) -> FnState {
    fn_emit(fn_temp(f), Opcode::LoadImm, temp_reg(f).slot, 0, 0, imm)
}

/// The state with a one-argument native called on a copy of `src`.
pub open spec fn fn_native1(f: FnState, src: Reg, native: u32) -> FnState {
    fn_emit(
        fn_emit(fn_local(f), Opcode::Move, f.next_reg, src.slot, 0, 0),
        Opcode::CallNative,
        f.next_reg,
        1,
        0,
        native as i32,
    )
}

/// The state with a message built by the native at `native`.
pub open spec fn fn_make_msg(
    f: FnState,
    native: u32,
    request_id: Reg,
    tag: i32,
    payload: Reg,
) -> FnState {
    let first = next_local(f);
    let s = fn_locals(f, 3);
    let s = fn_emit(s, Opcode::Move, first.slot, request_id.slot, 0, 0);
    let s = fn_emit(s, Opcode::LoadImm, window_reg(first, 1).slot, 0, 0, tag);
    let s = fn_emit(s, Opcode::Move, window_reg(first, 2).slot, payload.slot, 0, 0);
    fn_emit(s, Opcode::CallNative, first.slot, 3, 0, native as i32)
}

/// The state with a message built by the native that takes a sender.
pub open spec fn fn_make_msg_sender(
    f: FnState,
    native: u32,
    sender: Reg,
    request_id: Reg,
    tag: i32,
    payload: Reg,
) -> FnState {
    let first = next_local(f);
    let s = fn_locals(f, 4);
    let s = fn_emit(s, Opcode::Move, first.slot, sender.slot, 0, 0);
    let s = fn_emit(s, Opcode::Move, window_reg(first, 1).slot, request_id.slot, 0, 0);
    let s = fn_emit(s, Opcode::LoadImm, window_reg(first, 2).slot, 0, 0, tag);
    let s = fn_emit(s, Opcode::Move, window_reg(first, 3).slot, payload.slot, 0, 0);
    fn_emit(s, Opcode::CallNative, first.slot, 4, 0, native as i32)
}

/// The state with a reply to `req` built.
pub open spec fn fn_reply(f: FnState, req: Reg, tag: i32, payload: Reg) -> FnState {
    fn_make_msg(fn_native1(f, req, MSG_REQUEST_ID), MAKE_MSG, next_local(f), tag, payload)
}

/// The state with `n` fresh labels.
pub open spec fn fn_labels(f: FnState, n: nat) -> FnState {
    FnState { b: BuilderState { next_label: (f.b.next_label + n) as u32, ..f.b }, ..f }
}

/// The state with `label` bound to the next instruction.
pub open spec fn fn_bind(f: FnState, label: Label) -> FnState {
    FnState {
        b: BuilderState {
            labels: f.b.labels.insert(label.id as u128, f.b.code.len() as u32),
            ..f.b
        },
        ..f
    }
}

/// The state with a jump instruction that waits for `label`.
pub open spec fn fn_jump(f: FnState, op: Opcode, a: u8, label: Label) -> FnState {
    FnState { b: builder_jump(f.b, ins(op, a, 0, 0, 0), label), ..f }
}

/// The state in front of a loop body: the head is bound and the test of
/// `counter < limit` leaves to the label after it.
pub open spec fn loop_head(f: FnState, counter: Reg, limit: Reg) -> FnState {
    let head = Label { id: f.b.next_label };
    let done = Label { id: (f.b.next_label + 1) as u32 };
    let s = fn_bind(fn_local(fn_labels(f, 2)), head);
    let s = fn_emit(s, Opcode::Lt, f.next_reg, counter.slot, limit.slot, 0);
    fn_jump(s, Opcode::Branch, f.next_reg, done)
}

/// The state behind a loop whose labels start at `first`.
pub open spec fn loop_end(f: FnState, first: u32) -> FnState {
    let head = Label { id: first };
    let done = Label { id: (first + 1) as u32 };
    fn_bind(fn_jump(f, Opcode::Jump, 0, head), done)
}

/// What the methods of a function assembler are made of.
pub ghost enum FnOp {
    Local,
    Reserve(u8),
    Temp,
    Emit { op: Opcode, a: u8, b: u8, c: u8, imm: i32 },
    Constant(Value),
    Labels(nat),
    Bind(Label),
    Jump { op: Opcode, a: u8, label: Label },
}

/// The state after one of them.
pub open spec fn fn_op(f: FnState, op: FnOp) -> FnState {
    match op {
        FnOp::Local => fn_local(f),
        FnOp::Reserve(count) => if count > f.next_reg {
            fn_registers(f, count)
        } else {
            f
        },
        FnOp::Temp => fn_temp(f),
        FnOp::Emit { op, a, b, c, imm } => fn_emit(f, op, a, b, c, imm),
        FnOp::Constant(v) => FnState { b: builder_const(f.b, v), ..f },
        FnOp::Labels(n) => fn_labels(f, n),
        FnOp::Bind(label) => fn_bind(f, label),
        FnOp::Jump { op, a, label } => fn_jump(f, op, a, label),
    }
}

/// The state after the first `n` of them.
pub open spec fn fn_ops(f: FnState, ops: Seq<FnOp>, n: nat) -> FnState
    decreases n,
{
    if n == 0 {
        f
    } else {
        fn_op(fn_ops(f, ops, (n - 1) as nat), ops[n - 1])
    }
}

/// The register count of the function in its module.
pub open spec fn declared_registers(f: FnState) -> u8 {
    f.b.functions[f.function as int].num_registers
}

/// The function is in its module, with as many registers as were given out.
spec fn is_declared(f: FnState) -> bool {
    f.function < f.b.functions.len() && declared_registers(f) == f.next_reg
}

proof fn lemma_registers_grow(f: FnState, ops: Seq<FnOp>, i: nat, j: nat)
    requires
        is_declared(f),
        i <= j <= ops.len(),
    ensures
        fn_ops(f, ops, i).next_reg <= fn_ops(f, ops, j).next_reg,
        fn_ops(f, ops, j).function == f.function,
        is_declared(fn_ops(f, ops, j)),
        i < j && ops[i as int] is Local && fn_ops(f, ops, i).next_reg < 255 ==> fn_ops(
            f,
            ops,
            i,
        ).next_reg < fn_ops(f, ops, j).next_reg,
    decreases j,
{
    if j > 0 {
        let k = (j - 1) as nat;
        if i < j {
            lemma_registers_grow(f, ops, i, k);
        } else {
            lemma_registers_grow(f, ops, k, k);
        }
    }
}

/// A local is a fresh register. However a function is assembled, the
/// registers that two calls for a local give differ, they come after the
/// arguments and the first four registers, and the function declares more
/// registers than either index. This is so until the registers run out: the
/// last one is given again then.
pub proof fn locals_are_fresh(
    b: BuilderState,
    name: Seq<char>,
    arity: u8,
    ops: Seq<FnOp>,
    i: nat,
    j: nat,
)
    requires
        b.functions.len() < u32::MAX,
        i < j < ops.len(),
        ops[i as int] is Local,
        ops[j as int] is Local,
        fn_ops(fn_open(b, name, arity, initial_registers(arity)), ops, j).next_reg < 255,
    ensures
        ({
            let f = fn_open(b, name, arity, initial_registers(arity));
            let first = next_local(fn_ops(f, ops, i));
            let second = next_local(fn_ops(f, ops, j));
            let end = fn_ops(f, ops, ops.len());
            &&& first != second
            &&& first.slot >= arity && first.slot >= 4
            &&& second.slot >= arity && second.slot >= 4
            &&& first.slot < end.next_reg
            &&& second.slot < end.next_reg
            &&& declared_registers(end) == end.next_reg
        }),
{
    let f = fn_open(b, name, arity, initial_registers(arity));
    lemma_registers_grow(f, ops, 0, i);
    lemma_registers_grow(f, ops, i, j);
    lemma_registers_grow(f, ops, j, ops.len());
}

impl Fn {
    fn open_with(b: ChunkBuilder, name: &str, arity: u8, num_registers: u8) -> (r: Self)
        ensures
            r@ == fn_open(b@, name@, arity, num_registers),
            builder_wf(b@) ==> builder_wf(r@.b),
    {
        let mut b = b;
        let function: u32 = b.begin_function(name, arity, num_registers);
        Fn { b, function, next_reg: num_registers, scratch: None }
    }

    fn declare(&mut self, count: u8)
        ensures
            final(self)@ == fn_registers(old(self)@, count),
            builder_wf(old(self)@.b) ==> builder_wf(final(self)@.b),
    {
        self.next_reg = count;
        self.b.set_num_registers(self.function, count);
    }

    /// A new local register.
    pub fn local(&mut self) -> (r: Reg)
        ensures
            r == next_local(old(self)@),
            final(self)@ == fn_local(old(self)@),
            builder_wf(old(self)@.b) ==> builder_wf(final(self)@.b),
    {
        let reg = Reg { slot: self.next_reg };
        let next: u8 = self.next_reg.saturating_add(1);
        self.declare(next);
        reg
    }

    /// A register by its index; the frame does not grow.
    pub fn reg(&mut self, index: u8) -> (r: Reg)
        ensures
            r == (Reg { slot: index }),
            final(self)@ == old(self)@,
    {
        Reg { slot: index }
    }

    /// Declare at least `count` registers.
    pub fn reserve(&mut self, count: u8)
        ensures
            final(self)@ == (if count > old(self)@.next_reg {
                fn_registers(old(self)@, count)
            } else {
                old(self)@
            }),
            builder_wf(old(self)@.b) ==> builder_wf(final(self)@.b),
    {
        if count > self.next_reg {
            self.declare(count);
        }
    }

    /// Declare `count` contiguous locals.
    pub fn window(&mut self, count: u8) -> (r: RegWindow)
        ensures
            r == (RegWindow { first: next_local(old(self)@), len: count }),
            final(self)@ == fn_locals(old(self)@, count as nat),
            builder_wf(old(self)@.b) ==> builder_wf(final(self)@.b),
    {
        let first = Reg { slot: self.next_reg };
        let mut k: u8 = 0;
        while k < count
            invariant
                k <= count,
                first == next_local(old(self)@),
                self@ == fn_locals(old(self)@, k as nat),
                builder_wf(old(self)@.b) ==> builder_wf(self@.b),
            decreases count - k,
        {
            let _ = self.local();
            k += 1;
        }
        RegWindow { first, len: count }
    }

    /// Load a pooled integer into a new local.
    pub fn load_int(&mut self, n: i64) -> (r: Reg)
        ensures
            r == next_local(old(self)@),
            final(self)@ == fn_load(old(self)@, Value::Int(n)),
            builder_wf(old(self)@.b) ==> builder_wf(final(self)@.b),
    {
        self.load_const(Value::Int(n))
    }

    fn load_const(&mut self, v: Value) -> (r: Reg)
        ensures
            r == next_local(old(self)@),
            final(self)@ == fn_load(old(self)@, v),
            builder_wf(old(self)@.b) ==> builder_wf(final(self)@.b),
    {
        let konst: u32 = self.b.const_(v);
        let reg = self.local();
        self.b.emit_load_const(reg.slot, konst);
        reg
    }

    /// Load a pooled text into a new local.
    pub fn load_str(&mut self, s: &str) -> (r: Reg)
        ensures
            r == next_local(old(self)@),
            exists|v: Value| #![trigger fn_load(old(self)@, v)]
                (v matches Value::Str(t) && t@ == s@) && final(self)@ == fn_load(old(self)@, v),
            builder_wf(old(self)@.b) ==> builder_wf(final(self)@.b),
    {
        self.load_const(Value::str(s))
    }

    /// Load a pooled byte buffer into a new local.
    pub fn load_bytes(&mut self, bytes: Vec<u8>) -> (r: Reg)
        ensures
            r == next_local(old(self)@),
            exists|v: Value| #![trigger fn_load(old(self)@, v)]
                (v matches Value::Bytes(t) && t@ == bytes@) && final(self)@ == fn_load(
                    old(self)@,
                    v,
                ),
            builder_wf(old(self)@.b) ==> builder_wf(final(self)@.b),
    {
        self.load_const(Value::bytes(bytes))
    }

    fn temp(&mut self) -> (r: Reg)
        ensures
            r == temp_reg(old(self)@),
            final(self)@ == fn_temp(old(self)@),
            builder_wf(old(self)@.b) ==> builder_wf(final(self)@.b),
    {
        if let Some(scratch) = self.scratch {
            return scratch;
        }
        let scratch = self.local();
        self.scratch = Some(scratch);
        scratch
    }

    fn binop(&mut self, op: Opcode, lhs: Reg, rhs: Reg) -> (r: Reg)
        requires
            is_binop(op),
        ensures
            r == next_local(old(self)@),
            final(self)@ == fn_binop(old(self)@, op, lhs, rhs),
            builder_wf(old(self)@.b) ==> builder_wf(final(self)@.b),
    {
        let dst = self.local();
        self.b.emit_binop(op, dst.slot, lhs.slot, rhs.slot);
        dst
    }

    fn temp_imm(&mut self, imm: i32) -> (r: Reg)
        ensures
            r == temp_reg(old(self)@),
            final(self)@ == fn_temp_imm(old(self)@, imm),
            builder_wf(old(self)@.b) ==> builder_wf(final(self)@.b),
    {
        let tmp = self.temp();
        self.b.emit_load_imm(tmp.slot, imm);
        tmp
    }

    /// Compare with an immediate, into a new local.
    pub fn eq_imm(&mut self, lhs: Reg, imm: i32) -> (r: Reg)
        ensures
            r == next_local(fn_temp(old(self)@)),
            final(self)@ == fn_binop(
                fn_temp_imm(old(self)@, imm),
                Opcode::Eq,
                lhs,
                temp_reg(old(self)@),
            ),
            builder_wf(old(self)@.b) ==> builder_wf(final(self)@.b),
    {
        let rhs = self.temp_imm(imm);
        self.binop(Opcode::Eq, lhs, rhs)
    }

    /// Add an immediate in place.
    pub fn add_imm(&mut self, dst: Reg, imm: i32)
        ensures
            final(self)@ == fn_emit(
                fn_temp_imm(old(self)@, imm),
                Opcode::Add,
                dst.slot,
                dst.slot,
                temp_reg(old(self)@).slot,
                0,
            ),
            builder_wf(old(self)@.b) ==> builder_wf(final(self)@.b),
    {
        let tmp = self.temp_imm(imm);
        self.b.emit_binop(Opcode::Add, dst.slot, dst.slot, tmp.slot);
    }

    /// Run `body` while `counter < limit`.
    pub fn while_lt<F: FnOnce(Fn) -> Fn>(self, counter: Reg, limit: Reg, body: F) -> (r: Fn)
        requires
            self@.b.next_label < u32::MAX - 1,
            forall|f: Fn|
                #![trigger body.requires((f,))]
                f@ == loop_head(self@, counter, limit) ==> body.requires((f,)),
        ensures
            exists|f: Fn, g: Fn|
                {
                    &&& f@ == loop_head(self@, counter, limit)
                    &&& builder_wf(self@.b) ==> builder_wf(f@.b)
                    &&& #[trigger] body.ensures((f,), g)
                    &&& r@ == loop_end(g@, self@.b.next_label)
                    &&& builder_wf(g@.b) ==> builder_wf(r@.b)
                },
    {
        let mut f = self;
        let head = f.b.new_label();
        let done = f.b.new_label();
        let cond = f.local();
        f.b.bind_label(head);
        f.b.emit_binop(Opcode::Lt, cond.slot, counter.slot, limit.slot);
        f.b.emit_branch(cond.slot, done);
        assert(f@ =~= loop_head(self@, counter, limit));
        let mut g = body(f);
        g.b.emit_jump(head);
        g.b.bind_label(done);
        g
    }

    /// A fresh label.
    pub fn label(&mut self) -> (r: Label)
        requires
            old(self)@.b.next_label < u32::MAX,
        ensures
            r == (Label { id: old(self)@.b.next_label }),
            final(self)@ == fn_labels(old(self)@, 1),
            builder_wf(old(self)@.b) ==> builder_wf(final(self)@.b),
    {
        self.b.new_label()
    }

    /// Bind a label to the next instruction.
    pub fn bind(&mut self, label: Label)
        ensures
            final(self)@ == fn_bind(old(self)@, label),
            builder_wf(old(self)@.b) ==> builder_wf(final(self)@.b),
    {
        self.b.bind_label(label);
    }

    /// Jump to a label.
    pub fn jump(&mut self, label: Label)
        ensures
            final(self)@ == fn_jump(old(self)@, Opcode::Jump, 0, label),
            builder_wf(old(self)@.b) ==> builder_wf(final(self)@.b),
    {
        self.b.emit_jump(label);
    }

    /// Branch to a label for a falsy `cond`.
    pub fn branch_if_falsy(&mut self, cond: Reg, target: Label)
        ensures
            final(self)@ == fn_jump(old(self)@, Opcode::Branch, cond.slot, target),
            builder_wf(old(self)@.b) ==> builder_wf(final(self)@.b),
    {
        self.b.emit_branch(cond.slot, target);
    }

    /// Set the restart policy of this flow.
    pub fn set_restart_policy(&mut self, policy: RestartPolicy)
        ensures
            final(self)@ == fn_emit(
                old(self)@,
                Opcode::SetRestartPolicy,
                0,
                0,
                0,
                policy_byte(policy) as i32,
            ),
            builder_wf(old(self)@.b) ==> builder_wf(final(self)@.b),
    {
        self.b.emit_set_restart_policy(policy.as_u8());
    }

    /// The address of this flow; another name for `self_cap`.
    pub fn self_address(&mut self) -> (r: Reg)
        ensures
            r == next_local(old(self)@),
            final(self)@ == fn_emit(
                fn_local(old(self)@),
                Opcode::SelfPid,
                old(self)@.next_reg,
                0,
                0,
                0,
            ),
            builder_wf(old(self)@.b) ==> builder_wf(final(self)@.b),
    {
        self.self_cap()
    }

    /// Spawn a child with the default rights of a flow.
    pub fn spawn(&mut self, function: FuncId, argc: u8) -> (r: Reg)
        ensures
            r == next_local(old(self)@),
            final(self)@ == fn_emit(
                fn_local(old(self)@),
                Opcode::Spawn,
                old(self)@.next_reg,
                argc,
                0xBF,
                function as i32,
            ),
            builder_wf(old(self)@.b) ==> builder_wf(final(self)@.b),
    {
        self.spawn_with_rights(function, argc, CapRights::flow())
    }

    /// Spawn a child without rights.
    pub fn spawn_confined(&mut self, function: FuncId, argc: u8) -> (r: Reg)
        ensures
            r == next_local(old(self)@),
            final(self)@ == fn_emit(
                fn_local(old(self)@),
                Opcode::Spawn,
                old(self)@.next_reg,
                argc,
                0,
                function as i32,
            ),
            builder_wf(old(self)@.b) ==> builder_wf(final(self)@.b),
    {
        self.spawn_with_rights(function, argc, CapRights::none())
    }

    /// Call a one-argument native on a copy of `src`.
    pub fn native1_from(&mut self, src: Reg, native: u32) -> (r: Reg)
        ensures
            r == next_local(old(self)@),
            final(self)@ == fn_native1(old(self)@, src, native),
            builder_wf(old(self)@.b) ==> builder_wf(final(self)@.b),
    {
        let dst = self.local();
        self.b.emit_native1_from(dst.slot, src.slot, native);
        dst
    }

    /// Call a one-argument native on a copy of `src` for its effect.
    pub fn native1_on(&mut self, src: Reg, native: u32)
        ensures
            final(self)@ == fn_native1(old(self)@, src, native),
            builder_wf(old(self)@.b) ==> builder_wf(final(self)@.b),
    {
        let _ = self.native1_from(src, native);
    }

    /// Build a message with the native at `native_index`.
    pub fn make_msg(&mut self, native_index: u32, request_id: Reg, tag: i32, payload: Reg) -> (r: Reg)
        ensures
            r == next_local(old(self)@),
            final(self)@ == fn_make_msg(old(self)@, native_index, request_id, tag, payload),
            builder_wf(old(self)@.b) ==> builder_wf(final(self)@.b),
    {
        let w = self.window(3);
        self.mov(w.at(0), request_id);
        self.set(w.at(1), tag);
        self.mov(w.at(2), payload);
        self.native_n(w.base(), native_index, 3);
        w.base()
    }

    /// Build a message with a sender operand, which the native ignores.
    pub fn make_msg_legacy_sender(
        &mut self,
        native_index: u32,
        sender: Reg,
        request_id: Reg,
        tag: i32,
        payload: Reg,
    ) -> (r: Reg)
        ensures
            r == next_local(old(self)@),
            final(self)@ == fn_make_msg_sender(
                old(self)@,
                native_index,
                sender,
                request_id,
                tag,
                payload,
            ),
            builder_wf(old(self)@.b) ==> builder_wf(final(self)@.b),
    {
        let w = self.window(4);
        self.mov(w.at(0), sender);
        self.mov(w.at(1), request_id);
        self.set(w.at(2), tag);
        self.mov(w.at(3), payload);
        self.native_n(w.base(), native_index, 4);
        w.base()
    }

    /// Build a message; its sender is stamped when it is sent.
    pub fn hop(&mut self, request_id: Reg, tag: i32, payload: Reg) -> (r: Reg)
        ensures
            r == next_local(old(self)@),
            final(self)@ == fn_make_msg(old(self)@, MAKE_MSG, request_id, tag, payload),
            builder_wf(old(self)@.b) ==> builder_wf(final(self)@.b),
    {
        self.make_msg(MAKE_MSG, request_id, tag, payload)
    }

    /// Build a message with a fresh correlation id.
    pub fn hop_fresh(&mut self, tag: i32, payload: Reg) -> (r: Reg)
        ensures
            r == next_local(fn_local(old(self)@)),
            final(self)@ == fn_make_msg(
                fn_emit(
                    fn_local(old(self)@),
                    Opcode::FreshRequestId,
                    old(self)@.next_reg,
                    0,
                    0,
                    0,
                ),
                MAKE_MSG,
                next_local(old(self)@),
                tag,
                payload,
            ),
            builder_wf(old(self)@.b) ==> builder_wf(final(self)@.b),
    {
        let req_id = self.fresh_request_id();
        self.hop(req_id, tag, payload)
    }

    /// Build a reply that echoes the correlation id of `req`.
    pub fn reply_to(&mut self, req: Reg, tag: i32, payload: Reg) -> (r: Reg)
        ensures
            r == next_local(fn_local(old(self)@)),
            final(self)@ == fn_reply(old(self)@, req, tag, payload),
            builder_wf(old(self)@.b) ==> builder_wf(final(self)@.b),
    {
        let req_id = self.hop_request_id(req);
        self.hop(req_id, tag, payload)
    }

    /// Reply to `req` over the address that it carries.
    pub fn send_reply(&mut self, req: Reg, tag: i32, payload: Reg)
        ensures
            final(self)@ == ({
                let s = fn_native1(old(self)@, req, MSG_REPLY_CAP);
                fn_emit(
                    fn_reply(s, req, tag, payload),
                    Opcode::Send,
                    old(self)@.next_reg,
                    next_local(fn_local(s)).slot,
                    0,
                    0,
                )
            }),
            builder_wf(old(self)@.b) ==> builder_wf(final(self)@.b),
    {
        let reply_cap = self.hop_reply_cap(req);
        let reply = self.reply_to(req, tag, payload);
        self.send(reply_cap, reply);
    }

    /// The origin of a delivered message.
    pub fn hop_sender(&mut self, msg: Reg) -> (r: Reg)
        ensures
            r == next_local(old(self)@),
            final(self)@ == fn_native1(old(self)@, msg, MSG_SENDER),
            builder_wf(old(self)@.b) ==> builder_wf(final(self)@.b),
    {
        self.native1_from(msg, MSG_SENDER)
    }

    /// The correlation id of a message.
    pub fn hop_request_id(&mut self, msg: Reg) -> (r: Reg)
        ensures
            r == next_local(old(self)@),
            final(self)@ == fn_native1(old(self)@, msg, MSG_REQUEST_ID),
            builder_wf(old(self)@.b) ==> builder_wf(final(self)@.b),
    {
        self.native1_from(msg, MSG_REQUEST_ID)
    }

    /// The tag of a message.
    pub fn hop_tag(&mut self, msg: Reg) -> (r: Reg)
        ensures
            r == next_local(old(self)@),
            final(self)@ == fn_native1(old(self)@, msg, MSG_TAG),
            builder_wf(old(self)@.b) ==> builder_wf(final(self)@.b),
    {
        self.native1_from(msg, MSG_TAG)
    }

    /// The payload of a message.
    pub fn hop_payload(&mut self, msg: Reg) -> (r: Reg)
        ensures
            r == next_local(old(self)@),
            final(self)@ == fn_native1(old(self)@, msg, MSG_PAYLOAD),
            builder_wf(old(self)@.b) ==> builder_wf(final(self)@.b),
    {
        self.native1_from(msg, MSG_PAYLOAD)
    }

    /// The reply address of a delivered message.
    pub fn hop_reply_cap(&mut self, msg: Reg) -> (r: Reg)
        ensures
            r == next_local(old(self)@),
            final(self)@ == fn_native1(old(self)@, msg, MSG_REPLY_CAP),
            builder_wf(old(self)@.b) ==> builder_wf(final(self)@.b),
    {
        self.native1_from(msg, MSG_REPLY_CAP)
    }

    /// `Add` of two registers into a new local.
    pub fn add(&mut self, lhs: Reg, rhs: Reg) -> (r: Reg)
        ensures
            r == next_local(old(self)@),
            final(self)@ == fn_binop(old(self)@, Opcode::Add, lhs, rhs),
            builder_wf(old(self)@.b) ==> builder_wf(final(self)@.b),
    {
        self.binop(Opcode::Add, lhs, rhs)
    }

    /// `Sub` of two registers into a new local.
    pub fn sub(&mut self, lhs: Reg, rhs: Reg) -> (r: Reg)
        ensures
            r == next_local(old(self)@),
            final(self)@ == fn_binop(old(self)@, Opcode::Sub, lhs, rhs),
            builder_wf(old(self)@.b) ==> builder_wf(final(self)@.b),
    {
        self.binop(Opcode::Sub, lhs, rhs)
    }

    /// `Mul` of two registers into a new local.
    pub fn mul(&mut self, lhs: Reg, rhs: Reg) -> (r: Reg)
        ensures
            r == next_local(old(self)@),
            final(self)@ == fn_binop(old(self)@, Opcode::Mul, lhs, rhs),
            builder_wf(old(self)@.b) ==> builder_wf(final(self)@.b),
    {
        self.binop(Opcode::Mul, lhs, rhs)
    }

    /// `Div` of two registers into a new local.
    pub fn div(&mut self, lhs: Reg, rhs: Reg) -> (r: Reg)
        ensures
            r == next_local(old(self)@),
            final(self)@ == fn_binop(old(self)@, Opcode::Div, lhs, rhs),
            builder_wf(old(self)@.b) ==> builder_wf(final(self)@.b),
    {
        self.binop(Opcode::Div, lhs, rhs)
    }

    /// `Mod` of two registers into a new local.
    pub fn modulo(&mut self, lhs: Reg, rhs: Reg) -> (r: Reg)
        ensures
            r == next_local(old(self)@),
            final(self)@ == fn_binop(old(self)@, Opcode::Mod, lhs, rhs),
            builder_wf(old(self)@.b) ==> builder_wf(final(self)@.b),
    {
        self.binop(Opcode::Mod, lhs, rhs)
    }

    /// `Eq` of two registers into a new local.
    pub fn eq(&mut self, lhs: Reg, rhs: Reg) -> (r: Reg)
        ensures
            r == next_local(old(self)@),
            final(self)@ == fn_binop(old(self)@, Opcode::Eq, lhs, rhs),
            builder_wf(old(self)@.b) ==> builder_wf(final(self)@.b),
    {
        self.binop(Opcode::Eq, lhs, rhs)
    }

    /// `Lt` of two registers into a new local.
    pub fn lt(&mut self, lhs: Reg, rhs: Reg) -> (r: Reg)
        ensures
            r == next_local(old(self)@),
            final(self)@ == fn_binop(old(self)@, Opcode::Lt, lhs, rhs),
            builder_wf(old(self)@.b) ==> builder_wf(final(self)@.b),
    {
        self.binop(Opcode::Lt, lhs, rhs)
    }

    /// `Le` of two registers into a new local.
    pub fn le(&mut self, lhs: Reg, rhs: Reg) -> (r: Reg)
        ensures
            r == next_local(old(self)@),
            final(self)@ == fn_binop(old(self)@, Opcode::Le, lhs, rhs),
            builder_wf(old(self)@.b) ==> builder_wf(final(self)@.b),
    {
        self.binop(Opcode::Le, lhs, rhs)
    }

    /// Load an immediate into a new local.
    pub fn load_i32(&mut self, n: i32) -> (r: Reg)
        ensures
            r == next_local(old(self)@),
            final(self)@ == fn_emit(
                fn_local(old(self)@),
                Opcode::LoadImm, old(self)@.next_reg, 0, 0, n,
            ),
            builder_wf(old(self)@.b) ==> builder_wf(final(self)@.b),
    {
        let dst = self.local();
        self.b.emit_load_imm(dst.slot, n);
        dst
    }

    /// Negate into a new local.
    pub fn neg(&mut self, src: Reg) -> (r: Reg)
        ensures
            r == next_local(old(self)@),
            final(self)@ == fn_emit(
                fn_local(old(self)@),
                Opcode::Neg, old(self)@.next_reg, src.slot, 0, 0,
            ),
            builder_wf(old(self)@.b) ==> builder_wf(final(self)@.b),
    {
        let dst = self.local();
        self.b.emit_neg(dst.slot, src.slot);
        dst
    }

    /// Call a function of the module; the result lands in a new local.
    pub fn call(&mut self, function: FuncId, argc: u8) -> (r: Reg)
        ensures
            r == next_local(old(self)@),
            final(self)@ == fn_emit(
                fn_local(old(self)@),
                Opcode::Call, old(self)@.next_reg, argc, 0, function as i32,
            ),
            builder_wf(old(self)@.b) ==> builder_wf(final(self)@.b),
    {
        let dst = self.local();
        self.b.emit_call(dst.slot, function, argc);
        dst
    }

    /// A capability that addresses this flow.
    pub fn self_cap(&mut self) -> (r: Reg)
        ensures
            r == next_local(old(self)@),
            final(self)@ == fn_emit(
                fn_local(old(self)@),
                Opcode::SelfPid, old(self)@.next_reg, 0, 0, 0,
            ),
            builder_wf(old(self)@.b) ==> builder_wf(final(self)@.b),
    {
        let dst = self.local();
        self.b.emit_self_pid(dst.slot);
        dst
    }

    /// Spawn a child that asks for `rights`.
    pub fn spawn_with_rights(&mut self, function: FuncId, argc: u8, rights: CapRights) -> (r: Reg)
        ensures
            r == next_local(old(self)@),
            final(self)@ == fn_emit(
                fn_local(old(self)@),
                Opcode::Spawn, old(self)@.next_reg, argc, (rights.mask % 256) as u8, function as i32,
            ),
            builder_wf(old(self)@.b) ==> builder_wf(final(self)@.b),
    {
        let dst = self.local();
        self.b.emit_spawn_with_rights(dst.slot, function, argc, rights);
        dst
    }

    /// Attenuate `src` into a new capability.
    pub fn delegate(&mut self, src: Reg, rights: CapRights) -> (r: Reg)
        ensures
            r == next_local(old(self)@),
            final(self)@ == fn_emit(
                fn_local(old(self)@),
                Opcode::Delegate, old(self)@.next_reg, src.slot, 255, rights.mask as i32,
            ),
            builder_wf(old(self)@.b) ==> builder_wf(final(self)@.b),
    {
        let dst = self.local();
        self.b.emit_delegate(dst.slot, src.slot, rights);
        dst
    }

    /// Wait for a message.
    pub fn receive(&mut self) -> (r: Reg)
        ensures
            r == next_local(old(self)@),
            final(self)@ == fn_emit(
                fn_local(old(self)@),
                Opcode::Receive, old(self)@.next_reg, 0, 0, 0,
            ),
            builder_wf(old(self)@.b) ==> builder_wf(final(self)@.b),
    {
        let dst = self.local();
        self.b.emit_receive(dst.slot);
        dst
    }

    /// Wait for a message, but no longer than `millis`.
    pub fn receive_timeout(&mut self, millis: Reg) -> (r: Reg)
        ensures
            r == next_local(old(self)@),
            final(self)@ == fn_emit(
                fn_local(old(self)@),
                Opcode::ReceiveTimeout, old(self)@.next_reg, millis.slot, 0, 0,
            ),
            builder_wf(old(self)@.b) ==> builder_wf(final(self)@.b),
    {
        let dst = self.local();
        self.b.emit_receive_timeout(dst.slot, millis.slot);
        dst
    }

    /// Wait for a message with the tag in a register.
    pub fn receive_match(&mut self, tag: Reg) -> (r: Reg)
        ensures
            r == next_local(old(self)@),
            final(self)@ == fn_emit(
                fn_local(old(self)@),
                Opcode::ReceiveMatch, old(self)@.next_reg, tag.slot, 0, 0,
            ),
            builder_wf(old(self)@.b) ==> builder_wf(final(self)@.b),
    {
        let dst = self.local();
        self.b.emit_receive_match(dst.slot, tag.slot);
        dst
    }

    /// Wait for a message with an immediate tag.
    pub fn receive_match_imm(&mut self, tag: u16) -> (r: Reg)
        ensures
            r == next_local(old(self)@),
            final(self)@ == fn_emit(
                fn_local(old(self)@),
                Opcode::ReceiveMatchImm, old(self)@.next_reg, 0, 0, tag as i32,
            ),
            builder_wf(old(self)@.b) ==> builder_wf(final(self)@.b),
    {
        let dst = self.local();
        self.b.emit_receive_match_imm(dst.slot, tag);
        dst
    }

    /// The next correlation id of this flow.
    pub fn fresh_request_id(&mut self) -> (r: Reg)
        ensures
            r == next_local(old(self)@),
            final(self)@ == fn_emit(
                fn_local(old(self)@),
                Opcode::FreshRequestId, old(self)@.next_reg, 0, 0, 0,
            ),
            builder_wf(old(self)@.b) ==> builder_wf(final(self)@.b),
    {
        let dst = self.local();
        self.b.emit_fresh_request_id(dst.slot);
        dst
    }

    /// Wait for a message with this tag and correlation id.
    pub fn receive_match_corr(&mut self, tag: Reg, request_id: Reg) -> (r: Reg)
        ensures
            r == next_local(old(self)@),
            final(self)@ == fn_emit(
                fn_local(old(self)@),
                Opcode::ReceiveMatchCorr, old(self)@.next_reg, tag.slot, request_id.slot, 0,
            ),
            builder_wf(old(self)@.b) ==> builder_wf(final(self)@.b),
    {
        let dst = self.local();
        self.b.emit_receive_match_corr(dst.slot, tag.slot, request_id.slot);
        dst
    }

    /// Wait for a message with an immediate tag and this correlation id.
    pub fn receive_match_corr_imm(&mut self, tag: u16, request_id: Reg) -> (r: Reg)
        ensures
            r == next_local(old(self)@),
            final(self)@ == fn_emit(
                fn_local(old(self)@),
                Opcode::ReceiveMatchCorrImm, old(self)@.next_reg, request_id.slot, 0, tag as i32,
            ),
            builder_wf(old(self)@.b) ==> builder_wf(final(self)@.b),
    {
        let dst = self.local();
        self.b.emit_receive_match_corr_imm(dst.slot, tag, request_id.slot);
        dst
    }

    /// Wait for a message whose payload has this wire tag.
    pub fn receive_match_kind(&mut self, kind: u8) -> (r: Reg)
        ensures
            r == next_local(old(self)@),
            final(self)@ == fn_emit(
                fn_local(old(self)@),
                Opcode::ReceiveMatchKind, old(self)@.next_reg, 0, 0, kind as i32,
            ),
            builder_wf(old(self)@.b) ==> builder_wf(final(self)@.b),
    {
        let dst = self.local();
        self.b.emit_receive_match_kind(dst.slot, kind);
        dst
    }

    /// Send a request and wait for the correlated reply.
    pub fn ask(&mut self, target_cap: Reg, msg: Reg) -> (r: Reg)
        ensures
            r == next_local(old(self)@),
            final(self)@ == fn_emit(
                fn_local(old(self)@),
                Opcode::Ask, old(self)@.next_reg, target_cap.slot, msg.slot, 0,
            ),
            builder_wf(old(self)@.b) ==> builder_wf(final(self)@.b),
    {
        let dst = self.local();
        self.b.emit_ask(dst.slot, target_cap.slot, msg.slot);
        dst
    }

    /// Like `ask`, but `Unit` comes back once `millis` have passed.
    pub fn ask_timeout(&mut self, target_cap: Reg, msg: Reg, millis: Reg) -> (r: Reg)
        ensures
            r == next_local(old(self)@),
            final(self)@ == fn_emit(
                fn_local(old(self)@),
                Opcode::AskTimeout, old(self)@.next_reg, target_cap.slot, msg.slot, millis.slot as i32,
            ),
            builder_wf(old(self)@.b) ==> builder_wf(final(self)@.b),
    {
        let dst = self.local();
        self.b.emit_ask_timeout(dst.slot, target_cap.slot, msg.slot, millis.slot);
        dst
    }

    /// Watch a flow one way; the monitor reference comes back.
    pub fn monitor(&mut self, target_cap: Reg) -> (r: Reg)
        ensures
            r == next_local(old(self)@),
            final(self)@ == fn_emit(
                fn_local(old(self)@),
                Opcode::Monitor, old(self)@.next_reg, target_cap.slot, 0, 0,
            ),
            builder_wf(old(self)@.b) ==> builder_wf(final(self)@.b),
    {
        let dst = self.local();
        self.b.emit_monitor(dst.slot, target_cap.slot);
        dst
    }

    /// Link both ways; the link reference comes back.
    pub fn link(&mut self, target_cap: Reg) -> (r: Reg)
        ensures
            r == next_local(old(self)@),
            final(self)@ == fn_emit(
                fn_local(old(self)@),
                Opcode::Link, old(self)@.next_reg, target_cap.slot, 0, 0,
            ),
            builder_wf(old(self)@.b) ==> builder_wf(final(self)@.b),
    {
        let dst = self.local();
        self.b.emit_link(dst.slot, target_cap.slot);
        dst
    }

    /// Park until the host completes the operation.
    pub fn host_await(&mut self, op: u32, args: Reg) -> (r: Reg)
        ensures
            r == next_local(old(self)@),
            final(self)@ == fn_emit(
                fn_local(old(self)@),
                Opcode::HostAwait, old(self)@.next_reg, args.slot, 0, op as i32,
            ),
            builder_wf(old(self)@.b) ==> builder_wf(final(self)@.b),
    {
        let dst = self.local();
        self.b.emit_host_await(dst.slot, args.slot, op);
        dst
    }

    /// Look a name up: a capability, or `Unit`.
    pub fn whereis(&mut self, name: Reg) -> (r: Reg)
        ensures
            r == next_local(old(self)@),
            final(self)@ == fn_emit(
                fn_local(old(self)@),
                Opcode::Whereis, old(self)@.next_reg, name.slot, 0, 0,
            ),
            builder_wf(old(self)@.b) ==> builder_wf(final(self)@.b),
    {
        let dst = self.local();
        self.b.emit_whereis(dst.slot, name.slot);
        dst
    }

    /// Call a native without arguments.
    pub fn call_native0(&mut self, native: u32) -> (r: Reg)
        ensures
            r == next_local(old(self)@),
            final(self)@ == fn_emit(
                fn_local(old(self)@),
                Opcode::CallNative, old(self)@.next_reg, 0, 0, native as i32,
            ),
            builder_wf(old(self)@.b) ==> builder_wf(final(self)@.b),
    {
        let dst = self.local();
        self.b.emit_call_native(dst.slot, native, 0);
        dst
    }

    /// Store an immediate into a register.
    pub fn set(&mut self, reg: Reg, imm: i32)
        ensures
            final(self)@ == fn_emit(old(self)@, Opcode::LoadImm, reg.slot, 0, 0, imm),
            builder_wf(old(self)@.b) ==> builder_wf(final(self)@.b),
    {
        self.b.emit_load_imm(reg.slot, imm);
    }

    /// Copy `src` to `dst`.
    pub fn mov(&mut self, dst: Reg, src: Reg)
        ensures
            final(self)@ == fn_emit(old(self)@, Opcode::Move, dst.slot, src.slot, 0, 0),
            builder_wf(old(self)@.b) ==> builder_wf(final(self)@.b),
    {
        self.b.emit_move(dst.slot, src.slot);
    }

    /// Return a register.
    pub fn return_(&mut self, value: Reg)
        ensures
            final(self)@ == fn_emit(old(self)@, Opcode::Return, value.slot, 0, 0, 0),
            builder_wf(old(self)@.b) ==> builder_wf(final(self)@.b),
    {
        self.b.emit_return(value.slot);
    }

    /// Stop the flow.
    pub fn halt(&mut self)
        ensures
            final(self)@ == fn_emit(old(self)@, Opcode::Halt, 0, 0, 0, 0),
            builder_wf(old(self)@.b) ==> builder_wf(final(self)@.b),
    {
        self.b.emit_halt();
    }

    /// Give the rest of the slice back.
    pub fn yield_(&mut self)
        ensures
            final(self)@ == fn_emit(old(self)@, Opcode::Yield, 0, 0, 0, 0),
            builder_wf(old(self)@.b) ==> builder_wf(final(self)@.b),
    {
        self.b.emit_yield();
    }

    /// Sleep for the milliseconds in a register.
    pub fn sleep(&mut self, millis: Reg)
        ensures
            final(self)@ == fn_emit(old(self)@, Opcode::Sleep, millis.slot, 0, 0, 0),
            builder_wf(old(self)@.b) ==> builder_wf(final(self)@.b),
    {
        self.b.emit_sleep(millis.slot);
    }

    /// End the flow with a value.
    pub fn exit(&mut self, reg: Reg)
        ensures
            final(self)@ == fn_emit(old(self)@, Opcode::Exit, reg.slot, 0, 0, 0),
            builder_wf(old(self)@.b) ==> builder_wf(final(self)@.b),
    {
        self.b.emit_exit(reg.slot);
    }

    /// Spawn into an explicit register.
    pub fn spawn_at(&mut self, dst: Reg, function: FuncId, argc: u8)
        ensures
            final(self)@ == fn_emit(old(self)@, Opcode::Spawn, dst.slot, argc, 0xBF, function as i32),
            builder_wf(old(self)@.b) ==> builder_wf(final(self)@.b),
    {
        self.b.emit_spawn(dst.slot, function, argc);
    }

    /// Send a message.
    pub fn send(&mut self, target_cap: Reg, msg: Reg)
        ensures
            final(self)@ == fn_emit(old(self)@, Opcode::Send, target_cap.slot, msg.slot, 0, 0),
            builder_wf(old(self)@.b) ==> builder_wf(final(self)@.b),
    {
        self.b.emit_send(target_cap.slot, msg.slot);
    }

    /// Stop watching.
    pub fn demonitor(&mut self, monitor: Reg)
        ensures
            final(self)@ == fn_emit(old(self)@, Opcode::Demonitor, monitor.slot, 0, 0, 0),
            builder_wf(old(self)@.b) ==> builder_wf(final(self)@.b),
    {
        self.b.emit_demonitor(monitor.slot);
    }

    /// Remove a link.
    pub fn unlink(&mut self, link: Reg)
        ensures
            final(self)@ == fn_emit(old(self)@, Opcode::Unlink, link.slot, 0, 0, 0),
            builder_wf(old(self)@.b) ==> builder_wf(final(self)@.b),
    {
        self.b.emit_unlink(link.slot);
    }

    /// Turn linked exits into messages, or back.
    pub fn set_trap_exit(&mut self, enabled: Reg)
        ensures
            final(self)@ == fn_emit(old(self)@, Opcode::SetTrapExit, enabled.slot, 0, 0, 0),
            builder_wf(old(self)@.b) ==> builder_wf(final(self)@.b),
    {
        self.b.emit_set_trap_exit(enabled.slot);
    }

    /// Publish a name for this flow.
    pub fn register_name(&mut self, name: Reg)
        ensures
            final(self)@ == fn_emit(old(self)@, Opcode::RegisterName, name.slot, 0, 0, 0),
            builder_wf(old(self)@.b) ==> builder_wf(final(self)@.b),
    {
        self.b.emit_register_name(name.slot);
    }

    /// Fail with a code.
    pub fn trap(&mut self, code: i32)
        ensures
            final(self)@ == fn_emit(old(self)@, Opcode::Trap, 0, 0, 0, code),
            builder_wf(old(self)@.b) ==> builder_wf(final(self)@.b),
    {
        self.b.emit_trap(code);
    }

    /// Call a native whose arguments stand at `base`.
    pub fn native_n(&mut self, base: Reg, native: u32, argc: u8)
        ensures
            final(self)@ == fn_emit(old(self)@, Opcode::CallNative, base.slot, argc, 0, native as i32),
            builder_wf(old(self)@.b) ==> builder_wf(final(self)@.b),
    {
        self.b.emit_native_n(base.slot, native, argc);
    }

    /// Call a native whose arguments stand at `base`.
    pub fn call_native(&mut self, base: Reg, native: u32, argc: u8)
        ensures
            final(self)@ == fn_emit(old(self)@, Opcode::CallNative, base.slot, argc, 0, native as i32),
            builder_wf(old(self)@.b) ==> builder_wf(final(self)@.b),
    {
        self.b.emit_native_n(base.slot, native, argc);
    }
}

/// Assembler of one module.
pub struct Program {
    pub inner: ChunkBuilder,
}

impl View for Program {
    type V = BuilderState;

    open spec fn view(&self) -> BuilderState {
        self.inner@
    }
}

impl Program {
    /// A module named `name`.
    pub fn new(name: &str) -> (r: Self)
        ensures
            r@ == builder_empty(name@),
            builder_wf(r@),
    {
        Program { inner: ChunkBuilder::new(name) }
    }

    /// Define a function: `body` gets a fresh assembler and hands it back.
    pub fn function<F: FnOnce(Fn) -> Fn>(&mut self, name: &str, arity: u8, body: F) -> (id: FuncId)
        requires
            forall|f: Fn|
                #![trigger body.requires((f,))]
                f@ == fn_open(old(self)@, name@, arity, initial_registers(arity))
                    ==> body.requires((f,)),
        ensures
            id == old(self)@.functions.len() as u32,
            exists|f: Fn, g: Fn|
                {
                    &&& f@ == fn_open(old(self)@, name@, arity, initial_registers(arity))
                    &&& builder_wf(old(self)@) ==> builder_wf(f@.b)
                    &&& #[trigger] body.ensures((f,), g)
                    &&& final(self)@ == g@.b
                },
    {
        let num_registers: u8 = if arity > 4 {
            arity
        } else {
            4
        };
        self.function_raw(name, arity, num_registers, body)
    }

    /// Define a function with an explicit register count.
    pub fn function_raw<F: FnOnce(Fn) -> Fn>(
        &mut self,
        name: &str,
        arity: u8,
        num_registers: u8,
        body: F,
    ) -> (id: FuncId)
        requires
            forall|f: Fn|
                #![trigger body.requires((f,))]
                f@ == fn_open(old(self)@, name@, arity, num_registers) ==> body.requires((f,)),
        ensures
            id == old(self)@.functions.len() as u32,
            exists|f: Fn, g: Fn|
                {
                    &&& f@ == fn_open(old(self)@, name@, arity, num_registers)
                    &&& builder_wf(old(self)@) ==> builder_wf(f@.b)
                    &&& #[trigger] body.ensures((f,), g)
                    &&& final(self)@ == g@.b
                },
    {
        let mut b = ChunkBuilder::new("");
        std::mem::swap(&mut b, &mut self.inner);
        let f = Fn::open_with(b, name, arity, num_registers);
        let id: FuncId = f.function;
        let g = body(f);
        self.inner = g.b;
        id
    }

    /// Index of the last function with this name.
    pub fn function_index(&self, name: &str) -> (r: Option<FuncId>)
        ensures
            r == last_function(self@.functions, name@, self@.functions.len()),
    {
        self.inner.function_index(name)
    }

    /// Finish the module.
    pub fn build(self) -> (r: Chunk)
        requires
            builder_wf(self@),
        ensures
            r.name@ == self@.name,
            r.constants@ == self@.constants,
            r.code@ == patched(self@, self@.pending.len()),
            function_models(r.functions@) == self@.functions,
    {
        self.inner.finish()
    }
}

} // verus!
