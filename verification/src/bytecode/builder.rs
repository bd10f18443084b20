//! Assembler for modules: constants, instructions, labels and functions.

use vstd::prelude::*;

use crate::bytecode::cap::CapRights;
use crate::bytecode::chunk::{Chunk, FunctionDef};
use crate::bytecode::instruction::Instruction;
use crate::bytecode::opcode::Opcode;
use crate::bytecode::value::{values_equal, Value};
use crate::bytecode::wire::{function_models, FunctionModel};
use crate::idmap::IdMap;
use crate::text::{owned, same_text};

verus! {

/// An unresolved jump target.
#[derive(Clone, Copy, Debug, PartialEq, Eq, Structural, Hash)]
pub struct Label {
    pub id: u32,
}

/// Assembler of one module.
pub struct ChunkBuilder {
    pub name: String,
    pub constants: Vec<Value>,
    pub code: Vec<Instruction>,
    pub functions: Vec<FunctionDef>,
    pub next_label: u32,
    pub label_targets: IdMap<u32>,
    /// Jumps waiting for their target: instruction index and label.
    pub pending_jumps: Vec<(usize, Label)>,
}

/// What an assembler holds.
#[verifier::ext_equal]
pub ghost struct BuilderState {
    pub name: Seq<char>,
    pub constants: Seq<Value>,
    pub code: Seq<Instruction>,
    pub functions: Seq<FunctionModel>,
    pub next_label: u32,
    pub labels: Map<u128, u32>,
    pub pending: Seq<(usize, Label)>,
}

impl View for ChunkBuilder {
    type V = BuilderState;

    open spec fn view(&self) -> BuilderState {
        BuilderState {
            name: self.name@,
            constants: self.constants@,
            code: self.code@,
            functions: function_models(self.functions@),
            next_label: self.next_label,
            labels: self.label_targets@,
            pending: self.pending_jumps@,
        }
    }
}

/// Every pending jump is an emitted instruction, and each is listed once.
pub open spec fn builder_wf(b: BuilderState) -> bool {
    &&& forall|k: int| 0 <= k < b.pending.len() ==> (#[trigger] b.pending[k]).0 < b.code.len()
    &&& forall|j: int, k: int|
        0 <= j < k < b.pending.len() ==> (#[trigger] b.pending[j]).0 < (#[trigger] b.pending[k]).0
}

/// An assembler without contents.
pub open spec fn builder_empty(name: Seq<char>) -> BuilderState {
    BuilderState {
        name,
        constants: Seq::empty(),
        code: Seq::empty(),
        functions: Seq::empty(),
        next_label: 0,
        labels: Map::empty(),
        pending: Seq::empty(),
    }
}

/// One more instruction.
pub open spec fn builder_emit(b: BuilderState, i: Instruction) -> BuilderState {
    BuilderState { code: b.code.push(i), ..b }
}

/// An instruction with all operands.
pub open spec fn ins(op: Opcode, a: u8, b: u8, c: u8, imm: i32) -> Instruction {
    Instruction { op, a, b, c, imm }
}

/// One more instruction, waiting for the target of `label`.
pub open spec fn builder_jump(b: BuilderState, i: Instruction, label: Label) -> BuilderState {
    BuilderState {
        code: b.code.push(i),
        pending: b.pending.push((b.code.len() as usize, label)),
        ..b
    }
}

/// The first constant equal to `v`, from `from` on.
pub open spec fn constant_position(s: Seq<Value>, v: Value, from: nat) -> Option<nat>
    decreases s.len() - from,
{
    if from >= s.len() {
        None
    } else if values_equal(s[from as int], v) {
        Some(from)
    } else {
        constant_position(s, v, from + 1)
    }
}

/// The pool with `v` in it: unchanged when an equal constant is there.
pub open spec fn builder_const(b: BuilderState, v: Value) -> BuilderState {
    match constant_position(b.constants, v, 0) {
        Some(_) => b,
        None => BuilderState { constants: b.constants.push(v), ..b },
    }
}

/// The index of `v` in the pool that holds it.
pub open spec fn const_index(b: BuilderState, v: Value) -> u32 {
    match constant_position(b.constants, v, 0) {
        Some(p) => p as u32,
        None => b.constants.len() as u32,
    }
}

/// One more function, entered at the next instruction.
pub open spec fn builder_begin(b: BuilderState, name: Seq<char>, arity: u8, num_registers: u8) -> BuilderState {
    BuilderState {
        functions: b.functions.push(
            FunctionModel { name, entry: b.code.len() as u32, arity, num_registers },
        ),
        ..b
    }
}

/// A function table entry with another register count.
pub open spec fn builder_set_regs(b: BuilderState, index: u32, num_registers: u8) -> BuilderState {
    if index < b.functions.len() {
        BuilderState {
            functions: b.functions.update(
                index as int,
                FunctionModel { num_registers, ..b.functions[index as int] },
            ),
            ..b
        }
    } else {
        b
    }
}

/// The last function named `name` among the first `n`.
pub open spec fn last_function(s: Seq<FunctionModel>, name: Seq<char>, n: nat) -> Option<u32>
    decreases n,
{
    if n == 0 {
        None
    } else if s[n - 1].name == name {
        Some((n - 1) as u32)
    } else {
        last_function(s, name, (n - 1) as nat)
    }
}

/// Relative offset of a jump at `at` to `label`; zero for an unbound label.
pub open spec fn jump_offset(labels: Map<u128, u32>, at: usize, label: Label) -> i32 {
    if labels.contains_key(label.id as u128) {
        (labels[label.id as u128] - (at + 1)) as i32
    } else {
        0
    }
}

/// The code with the first `n` pending jumps resolved.
pub open spec fn patched(b: BuilderState, n: nat) -> Seq<Instruction>
    decreases n,
{
    if n == 0 {
        b.code
    } else {
        let (at, label) = b.pending[n - 1];
        let code = patched(b, (n - 1) as nat);
        code.update(
            at as int,
            Instruction { imm: jump_offset(b.labels, at, label), ..code[at as int] },
        )
    }
}

proof fn lemma_patched(b: BuilderState, n: nat)
    requires
        builder_wf(b),
        n <= b.pending.len(),
    ensures
        patched(b, n).len() == b.code.len(),
        forall|k: int|
            0 <= k < n ==> patched(b, n)[(#[trigger] b.pending[k]).0 as int] == (Instruction {
                imm: jump_offset(b.labels, b.pending[k].0, b.pending[k].1),
                ..b.code[b.pending[k].0 as int]
            }),
        forall|i: int|
            0 <= i < b.code.len() && (forall|k: int|
                0 <= k < n ==> (#[trigger] b.pending[k]).0 != i) ==> #[trigger] patched(b, n)[i]
                == b.code[i],
    decreases n,
{
    if n > 0 {
        lemma_patched(b, (n - 1) as nat);
        let (at, label) = b.pending[n - 1];
        let before = patched(b, (n - 1) as nat);
        assert(forall|k: int| 0 <= k < n - 1 ==> (#[trigger] b.pending[k]).0 < b.pending[n - 1].0);
        assert(before[at as int] == b.code[at as int]);
        assert forall|i: int|
            0 <= i < b.code.len() && (forall|k: int|
                0 <= k < n ==> (#[trigger] b.pending[k]).0 != i) implies #[trigger] patched(b, n)[i]
            == b.code[i] by {
            assert(b.pending[n - 1].0 != i);
            assert(forall|k: int| 0 <= k < n - 1 ==> (#[trigger] b.pending[k]).0 != i);
            assert(before[i] == b.code[i]);
        }
    }
}

/// Resolving the labels sets the offset of every pending jump from the
/// instruction after it to its label, and changes no other instruction.
pub proof fn labels_are_resolved(b: BuilderState)
    requires
        builder_wf(b),
    ensures
        patched(b, b.pending.len()).len() == b.code.len(),
        forall|k: int|
            0 <= k < b.pending.len() ==> patched(b, b.pending.len())[(
            #[trigger] b.pending[k]).0 as int] == (Instruction {
                imm: jump_offset(b.labels, b.pending[k].0, b.pending[k].1),
                ..b.code[b.pending[k].0 as int]
            }),
        forall|i: int|
            0 <= i < b.code.len() && (forall|k: int|
                0 <= k < b.pending.len() ==> (#[trigger] b.pending[k]).0 != i)
                ==> #[trigger] patched(b, b.pending.len())[i] == b.code[i],
{
    lemma_patched(b, b.pending.len());
}

/// Operations that [`ChunkBuilder::emit_binop`] encodes.
pub open spec fn is_binop(op: Opcode) -> bool {
    op is Add || op is Sub || op is Mul || op is Div || op is Mod || op is Eq || op is Lt || op is Le
}

impl ChunkBuilder {
    /// An assembler for a module named `name`.
    pub fn new(name: &str) -> (r: Self)
        ensures
            r@ == builder_empty(name@),
            builder_wf(r@),
    {
        let b = ChunkBuilder {
            name: owned(name),
            constants: Vec::new(),
            code: Vec::new(),
            functions: Vec::new(),
            next_label: 0,
            label_targets: IdMap::new(),
            pending_jumps: Vec::new(),
        };
        assert(b@ =~= builder_empty(name@));
        b
    }

    /// Index of a constant equal to `v`, which is added when there is none.
    pub fn const_(&mut self, v: Value) -> (r: u32)
        ensures
            final(self)@ == builder_const(old(self)@, v),
            r == const_index(old(self)@, v),
            builder_wf(old(self)@) ==> builder_wf(final(self)@),
    {
        let mut k: usize = 0;
        while k < self.constants.len()
            invariant
                k <= self.constants@.len(),
                *self == *old(self),
                constant_position(self.constants@, v, 0) == constant_position(
                    self.constants@,
                    v,
                    k as nat,
                ),
            decreases self.constants@.len() - k,
        {
            if self.constants[k] == v {
                return k as u32;
            }
            k += 1;
        }
        let r: u32 = self.constants.len() as u32;
        self.constants.push(v);
        r
    }

    /// A fresh label.
    pub fn new_label(&mut self) -> (r: Label)
        requires
            old(self).next_label < u32::MAX,
        ensures
            r == (Label { id: old(self).next_label }),
            final(self)@ == (BuilderState {
                next_label: (old(self).next_label + 1) as u32,
                ..old(self)@
            }),
            builder_wf(old(self)@) ==> builder_wf(final(self)@),
    {
        let l = Label { id: self.next_label };
        self.next_label = self.next_label + 1;
        l
    }

    /// Bind `label` to the next instruction.
    pub fn bind_label(&mut self, label: Label)
        ensures
            final(self)@ == (BuilderState {
                labels: old(self)@.labels.insert(label.id as u128, old(self)@.code.len() as u32),
                ..old(self)@
            }),
            builder_wf(old(self)@) ==> builder_wf(final(self)@),
    {
        let at: u32 = self.code.len() as u32;
        let _ = self.label_targets.insert(label.id as u128, at);
        assert(self@.pending == old(self)@.pending && self@.code == old(self)@.code);
    }

    fn emit(&mut self, instr: Instruction)
        ensures
            final(self)@ == builder_emit(old(self)@, instr),
            builder_wf(old(self)@) ==> builder_wf(final(self)@),
    {
        self.code.push(instr);
        assert(self@.pending == old(self)@.pending);
    }

    fn emit_waiting(&mut self, instr: Instruction, target: Label)
        ensures
            final(self)@ == builder_jump(old(self)@, instr, target),
            builder_wf(old(self)@) ==> builder_wf(final(self)@),
    {
        let at: usize = self.code.len();
        self.code.push(instr);
        self.pending_jumps.push((at, target));
        assert(self@.pending == old(self)@.pending.push((at, target)));
        assert(forall|k: int|
            0 <= k < old(self)@.pending.len() ==> #[trigger] self@.pending[k]
                == old(self)@.pending[k]);
    }

    /// Emit a binary operation.
    pub fn emit_binop(&mut self, op: Opcode, dst: u8, lhs: u8, rhs: u8)
        requires
            is_binop(op),
        ensures
            final(self)@ == builder_emit(old(self)@, ins(op, dst, lhs, rhs, 0)),
            builder_wf(old(self)@) ==> builder_wf(final(self)@),
    {
        self.emit(Instruction::abc(op, dst, lhs, rhs));
    }

    /// Emit a jump to `target`.
    pub fn emit_jump(&mut self, target: Label)
        ensures
            final(self)@ == builder_jump(old(self)@, ins(Opcode::Jump, 0, 0, 0, 0), target),
            builder_wf(old(self)@) ==> builder_wf(final(self)@),
    {
        self.emit_waiting(Instruction::only_imm(Opcode::Jump, 0), target);
    }

    /// Emit a branch to `target` for a falsy `cond`.
    pub fn emit_branch(&mut self, cond: u8, target: Label)
        ensures
            final(self)@ == builder_jump(old(self)@, ins(Opcode::Branch, cond, 0, 0, 0), target),
            builder_wf(old(self)@) ==> builder_wf(final(self)@),
    {
        self.emit_waiting(Instruction::a_imm(Opcode::Branch, cond, 0), target);
    }

    /// Emit `Spawn` with the default rights of a flow.
    pub fn emit_spawn(&mut self, dst: u8, function: u32, argc: u8)
        ensures
            final(self)@ == builder_emit(
                old(self)@,
                ins(Opcode::Spawn, dst, argc, 0xBF, function as i32),
            ),
            builder_wf(old(self)@) ==> builder_wf(final(self)@),
    {
        self.emit_spawn_with_rights(dst, function, argc, CapRights::flow());
    }

    /// Emit `Halt`.
    pub fn emit_halt(&mut self)
        ensures
            final(self)@ == builder_emit(
                old(self)@,
                ins(Opcode::Halt, 0, 0, 0, 0),
            ),
            builder_wf(old(self)@) ==> builder_wf(final(self)@),
    {
        self.emit(Instruction::new(Opcode::Halt, 0, 0, 0, 0));
    }

    /// Emit `LoadConst`.
    pub fn emit_load_const(&mut self, dst: u8, konst: u32)
        ensures
            final(self)@ == builder_emit(
                old(self)@,
                ins(Opcode::LoadConst, dst, 0, 0, konst as i32),
            ),
            builder_wf(old(self)@) ==> builder_wf(final(self)@),
    {
        self.emit(Instruction::new(Opcode::LoadConst, dst, 0, 0, konst as i32));
    }

    /// Emit `LoadImm`.
    pub fn emit_load_imm(&mut self, dst: u8, imm: i32)
        ensures
            final(self)@ == builder_emit(
                old(self)@,
                ins(Opcode::LoadImm, dst, 0, 0, imm),
            ),
            builder_wf(old(self)@) ==> builder_wf(final(self)@),
    {
        self.emit(Instruction::new(Opcode::LoadImm, dst, 0, 0, imm));
    }

    /// Emit `Move`.
    pub fn emit_move(&mut self, dst: u8, src: u8)
        ensures
            final(self)@ == builder_emit(
                old(self)@,
                ins(Opcode::Move, dst, src, 0, 0),
            ),
            builder_wf(old(self)@) ==> builder_wf(final(self)@),
    {
        self.emit(Instruction::new(Opcode::Move, dst, src, 0, 0));
    }

    /// Emit `Neg`.
    pub fn emit_neg(&mut self, dst: u8, src: u8)
        ensures
            final(self)@ == builder_emit(
                old(self)@,
                ins(Opcode::Neg, dst, src, 0, 0),
            ),
            builder_wf(old(self)@) ==> builder_wf(final(self)@),
    {
        self.emit(Instruction::new(Opcode::Neg, dst, src, 0, 0));
    }

    /// Emit `Spawn` with the rights that the child asks for.
    pub fn emit_spawn_with_rights(&mut self, dst: u8, function: u32, argc: u8, rights: CapRights)
        ensures
            final(self)@ == builder_emit(
                old(self)@,
                ins(Opcode::Spawn, dst, argc, (rights.mask % 256) as u8, function as i32),
            ),
            builder_wf(old(self)@) ==> builder_wf(final(self)@),
    {
        self.emit(Instruction::new(Opcode::Spawn, dst, argc, rights.bits_u8(), function as i32));
    }

    /// Emit `Delegate`, keeping the native mask.
    pub fn emit_delegate(&mut self, dst: u8, src_cap: u8, rights: CapRights)
        ensures
            final(self)@ == builder_emit(
                old(self)@,
                ins(Opcode::Delegate, dst, src_cap, 255, rights.mask as i32),
            ),
            builder_wf(old(self)@) ==> builder_wf(final(self)@),
    {
        self.emit(Instruction::new(Opcode::Delegate, dst, src_cap, 255, rights.bits() as i32));
    }

    /// Emit `Yield`.
    pub fn emit_yield(&mut self)
        ensures
            final(self)@ == builder_emit(
                old(self)@,
                ins(Opcode::Yield, 0, 0, 0, 0),
            ),
            builder_wf(old(self)@) ==> builder_wf(final(self)@),
    {
        self.emit(Instruction::new(Opcode::Yield, 0, 0, 0, 0));
    }

    /// Emit `Sleep`.
    pub fn emit_sleep(&mut self, millis_reg: u8)
        ensures
            final(self)@ == builder_emit(
                old(self)@,
                ins(Opcode::Sleep, millis_reg, 0, 0, 0),
            ),
            builder_wf(old(self)@) ==> builder_wf(final(self)@),
    {
        self.emit(Instruction::new(Opcode::Sleep, millis_reg, 0, 0, 0));
    }

    /// Emit `Exit`.
    pub fn emit_exit(&mut self, reg: u8)
        ensures
            final(self)@ == builder_emit(
                old(self)@,
                ins(Opcode::Exit, reg, 0, 0, 0),
            ),
            builder_wf(old(self)@) ==> builder_wf(final(self)@),
    {
        self.emit(Instruction::new(Opcode::Exit, reg, 0, 0, 0));
    }

    /// Emit `SelfPid`.
    pub fn emit_self_pid(&mut self, dst: u8)
        ensures
            final(self)@ == builder_emit(
                old(self)@,
                ins(Opcode::SelfPid, dst, 0, 0, 0),
            ),
            builder_wf(old(self)@) ==> builder_wf(final(self)@),
    {
        self.emit(Instruction::new(Opcode::SelfPid, dst, 0, 0, 0));
    }

    /// Emit `FreshRequestId`.
    pub fn emit_fresh_request_id(&mut self, dst: u8)
        ensures
            final(self)@ == builder_emit(
                old(self)@,
                ins(Opcode::FreshRequestId, dst, 0, 0, 0),
            ),
            builder_wf(old(self)@) ==> builder_wf(final(self)@),
    {
        self.emit(Instruction::new(Opcode::FreshRequestId, dst, 0, 0, 0));
    }

    /// Emit `Send`.
    pub fn emit_send(&mut self, target_cap_reg: u8, msg_reg: u8)
        ensures
            final(self)@ == builder_emit(
                old(self)@,
                ins(Opcode::Send, target_cap_reg, msg_reg, 0, 0),
            ),
            builder_wf(old(self)@) ==> builder_wf(final(self)@),
    {
        self.emit(Instruction::new(Opcode::Send, target_cap_reg, msg_reg, 0, 0));
    }

    /// Emit `Receive`.
    pub fn emit_receive(&mut self, dst: u8)
        ensures
            final(self)@ == builder_emit(
                old(self)@,
                ins(Opcode::Receive, dst, 0, 0, 0),
            ),
            builder_wf(old(self)@) ==> builder_wf(final(self)@),
    {
        self.emit(Instruction::new(Opcode::Receive, dst, 0, 0, 0));
    }

    /// Emit `ReceiveTimeout`.
    pub fn emit_receive_timeout(&mut self, dst: u8, millis_reg: u8)
        ensures
            final(self)@ == builder_emit(
                old(self)@,
                ins(Opcode::ReceiveTimeout, dst, millis_reg, 0, 0),
            ),
            builder_wf(old(self)@) ==> builder_wf(final(self)@),
    {
        self.emit(Instruction::new(Opcode::ReceiveTimeout, dst, millis_reg, 0, 0));
    }

    /// Emit `ReceiveMatch`.
    pub fn emit_receive_match(&mut self, dst: u8, tag_reg: u8)
        ensures
            final(self)@ == builder_emit(
                old(self)@,
                ins(Opcode::ReceiveMatch, dst, tag_reg, 0, 0),
            ),
            builder_wf(old(self)@) ==> builder_wf(final(self)@),
    {
        self.emit(Instruction::new(Opcode::ReceiveMatch, dst, tag_reg, 0, 0));
    }

    /// Emit `ReceiveMatchImm`.
    pub fn emit_receive_match_imm(&mut self, dst: u8, tag: u16)
        ensures
            final(self)@ == builder_emit(
                old(self)@,
                ins(Opcode::ReceiveMatchImm, dst, 0, 0, tag as i32),
            ),
            builder_wf(old(self)@) ==> builder_wf(final(self)@),
    {
        self.emit(Instruction::new(Opcode::ReceiveMatchImm, dst, 0, 0, tag as i32));
    }

    /// Emit `ReceiveMatchCorr`.
    pub fn emit_receive_match_corr(&mut self, dst: u8, tag_reg: u8, id_reg: u8)
        ensures
            final(self)@ == builder_emit(
                old(self)@,
                ins(Opcode::ReceiveMatchCorr, dst, tag_reg, id_reg, 0),
            ),
            builder_wf(old(self)@) ==> builder_wf(final(self)@),
    {
        self.emit(Instruction::new(Opcode::ReceiveMatchCorr, dst, tag_reg, id_reg, 0));
    }

    /// Emit `ReceiveMatchCorrImm`.
    pub fn emit_receive_match_corr_imm(&mut self, dst: u8, tag: u16, id_reg: u8)
        ensures
            final(self)@ == builder_emit(
                old(self)@,
                ins(Opcode::ReceiveMatchCorrImm, dst, id_reg, 0, tag as i32),
            ),
            builder_wf(old(self)@) ==> builder_wf(final(self)@),
    {
        self.emit(Instruction::new(Opcode::ReceiveMatchCorrImm, dst, id_reg, 0, tag as i32));
    }

    /// Emit `ReceiveMatchKind`.
    pub fn emit_receive_match_kind(&mut self, dst: u8, kind: u8)
        ensures
            final(self)@ == builder_emit(
                old(self)@,
                ins(Opcode::ReceiveMatchKind, dst, 0, 0, kind as i32),
            ),
            builder_wf(old(self)@) ==> builder_wf(final(self)@),
    {
        self.emit(Instruction::new(Opcode::ReceiveMatchKind, dst, 0, 0, kind as i32));
    }

    /// Emit `Ask`.
    pub fn emit_ask(&mut self, dest: u8, target_cap_reg: u8, msg_reg: u8)
        ensures
            final(self)@ == builder_emit(
                old(self)@,
                ins(Opcode::Ask, dest, target_cap_reg, msg_reg, 0),
            ),
            builder_wf(old(self)@) ==> builder_wf(final(self)@),
    {
        self.emit(Instruction::new(Opcode::Ask, dest, target_cap_reg, msg_reg, 0));
    }

    /// Emit `AskTimeout`; the timeout register goes into the immediate.
    pub fn emit_ask_timeout(&mut self, dest: u8, target_cap_reg: u8, msg_reg: u8, millis_reg: u8)
        ensures
            final(self)@ == builder_emit(
                old(self)@,
                ins(Opcode::AskTimeout, dest, target_cap_reg, msg_reg, millis_reg as i32),
            ),
            builder_wf(old(self)@) ==> builder_wf(final(self)@),
    {
        self.emit(Instruction::new(Opcode::AskTimeout, dest, target_cap_reg, msg_reg, millis_reg as i32));
    }

    /// Emit `Monitor`.
    pub fn emit_monitor(&mut self, dest: u8, target_cap_reg: u8)
        ensures
            final(self)@ == builder_emit(
                old(self)@,
                ins(Opcode::Monitor, dest, target_cap_reg, 0, 0),
            ),
            builder_wf(old(self)@) ==> builder_wf(final(self)@),
    {
        self.emit(Instruction::new(Opcode::Monitor, dest, target_cap_reg, 0, 0));
    }

    /// Emit `Demonitor`.
    pub fn emit_demonitor(&mut self, monitor_reg: u8)
        ensures
            final(self)@ == builder_emit(
                old(self)@,
                ins(Opcode::Demonitor, monitor_reg, 0, 0, 0),
            ),
            builder_wf(old(self)@) ==> builder_wf(final(self)@),
    {
        self.emit(Instruction::new(Opcode::Demonitor, monitor_reg, 0, 0, 0));
    }

    /// Emit `Link`.
    pub fn emit_link(&mut self, dest: u8, target_cap_reg: u8)
        ensures
            final(self)@ == builder_emit(
                old(self)@,
                ins(Opcode::Link, dest, target_cap_reg, 0, 0),
            ),
            builder_wf(old(self)@) ==> builder_wf(final(self)@),
    {
        self.emit(Instruction::new(Opcode::Link, dest, target_cap_reg, 0, 0));
    }

    /// Emit `Unlink`.
    pub fn emit_unlink(&mut self, link_reg: u8)
        ensures
            final(self)@ == builder_emit(
                old(self)@,
                ins(Opcode::Unlink, link_reg, 0, 0, 0),
            ),
            builder_wf(old(self)@) ==> builder_wf(final(self)@),
    {
        self.emit(Instruction::new(Opcode::Unlink, link_reg, 0, 0, 0));
    }

    /// Emit `SetTrapExit`.
    pub fn emit_set_trap_exit(&mut self, enabled_reg: u8)
        ensures
            final(self)@ == builder_emit(
                old(self)@,
                ins(Opcode::SetTrapExit, enabled_reg, 0, 0, 0),
            ),
            builder_wf(old(self)@) ==> builder_wf(final(self)@),
    {
        self.emit(Instruction::new(Opcode::SetTrapExit, enabled_reg, 0, 0, 0));
    }

    /// Emit `SetRestartPolicy`.
    pub fn emit_set_restart_policy(&mut self, policy: u8)
        ensures
            final(self)@ == builder_emit(
                old(self)@,
                ins(Opcode::SetRestartPolicy, 0, 0, 0, policy as i32),
            ),
            builder_wf(old(self)@) ==> builder_wf(final(self)@),
    {
        self.emit(Instruction::new(Opcode::SetRestartPolicy, 0, 0, 0, policy as i32));
    }

    /// Emit `HostAwait`.
    pub fn emit_host_await(&mut self, dst: u8, args_reg: u8, op: u32)
        ensures
            final(self)@ == builder_emit(
                old(self)@,
                ins(Opcode::HostAwait, dst, args_reg, 0, op as i32),
            ),
            builder_wf(old(self)@) ==> builder_wf(final(self)@),
    {
        self.emit(Instruction::new(Opcode::HostAwait, dst, args_reg, 0, op as i32));
    }

    /// Emit `RegisterName`.
    pub fn emit_register_name(&mut self, name_reg: u8)
        ensures
            final(self)@ == builder_emit(
                old(self)@,
                ins(Opcode::RegisterName, name_reg, 0, 0, 0),
            ),
            builder_wf(old(self)@) ==> builder_wf(final(self)@),
    {
        self.emit(Instruction::new(Opcode::RegisterName, name_reg, 0, 0, 0));
    }

    /// Emit `Whereis`.
    pub fn emit_whereis(&mut self, dst: u8, name_reg: u8)
        ensures
            final(self)@ == builder_emit(
                old(self)@,
                ins(Opcode::Whereis, dst, name_reg, 0, 0),
            ),
            builder_wf(old(self)@) ==> builder_wf(final(self)@),
    {
        self.emit(Instruction::new(Opcode::Whereis, dst, name_reg, 0, 0));
    }

    /// Emit `Trap`.
    pub fn emit_trap(&mut self, code: i32)
        ensures
            final(self)@ == builder_emit(
                old(self)@,
                ins(Opcode::Trap, 0, 0, 0, code),
            ),
            builder_wf(old(self)@) ==> builder_wf(final(self)@),
    {
        self.emit(Instruction::new(Opcode::Trap, 0, 0, 0, code));
    }

    /// Emit `Call`.
    pub fn emit_call(&mut self, dst: u8, function: u32, argc: u8)
        ensures
            final(self)@ == builder_emit(
                old(self)@,
                ins(Opcode::Call, dst, argc, 0, function as i32),
            ),
            builder_wf(old(self)@) ==> builder_wf(final(self)@),
    {
        self.emit(Instruction::new(Opcode::Call, dst, argc, 0, function as i32));
    }

    /// Emit `CallNative`.
    pub fn emit_call_native(&mut self, dst: u8, native_index: u32, argc: u8)
        ensures
            final(self)@ == builder_emit(
                old(self)@,
                ins(Opcode::CallNative, dst, argc, 0, native_index as i32),
            ),
            builder_wf(old(self)@) ==> builder_wf(final(self)@),
    {
        self.emit(Instruction::new(Opcode::CallNative, dst, argc, 0, native_index as i32));
    }

    /// Emit `Return`.
    pub fn emit_return(&mut self, reg: u8)
        ensures
            final(self)@ == builder_emit(
                old(self)@,
                ins(Opcode::Return, reg, 0, 0, 0),
            ),
            builder_wf(old(self)@) ==> builder_wf(final(self)@),
    {
        self.emit(Instruction::new(Opcode::Return, reg, 0, 0, 0));
    }

    /// Copy `src` to `dst` and call a one-argument native on the copy, so
    /// that `src` survives.
    pub fn emit_native1_from(&mut self, dst: u8, src: u8, native_index: u32)
        ensures
            final(self)@ == builder_emit(
                builder_emit(old(self)@, ins(Opcode::Move, dst, src, 0, 0)),
                ins(Opcode::CallNative, dst, 1, 0, native_index as i32),
            ),
            builder_wf(old(self)@) ==> builder_wf(final(self)@),
    {
        self.emit_move(dst, src);
        self.emit_call_native(dst, native_index, 1);
    }

    /// Call a native whose arguments are already in place.
    pub fn emit_native_n(&mut self, base: u8, native_index: u32, argc: u8)
        ensures
            final(self)@ == builder_emit(
                old(self)@,
                ins(Opcode::CallNative, base, argc, 0, native_index as i32),
            ),
            builder_wf(old(self)@) ==> builder_wf(final(self)@),
    {
        self.emit_call_native(base, native_index, argc);
    }

    /// Start a function at the next instruction; its index is returned.
    pub fn begin_function(&mut self, name: &str, arity: u8, num_registers: u8) -> (r: u32)
        ensures
            final(self)@ == builder_begin(old(self)@, name@, arity, num_registers),
            r == old(self)@.functions.len() as u32,
            builder_wf(old(self)@) ==> builder_wf(final(self)@),
    {
        let entry: u32 = self.code.len() as u32;
        let idx: u32 = self.functions.len() as u32;
        self.functions.push(FunctionDef { name: owned(name), entry, arity, num_registers });
        assert(self@ =~= builder_begin(old(self)@, name@, arity, num_registers));
        idx
    }

    /// Index of the last function with this name.
    pub fn function_index(&self, name: &str) -> (r: Option<u32>)
        ensures
            r == last_function(self@.functions, name@, self@.functions.len()),
    {
        let mut n: usize = self.functions.len();
        while n > 0
            invariant
                n <= self.functions@.len(),
                last_function(self@.functions, name@, self@.functions.len()) == last_function(
                    self@.functions,
                    name@,
                    n as nat,
                ),
            decreases n,
        {
            if same_text(self.functions[n - 1].name.as_str(), name) {
                return Some((n - 1) as u32);
            }
            n -= 1;
        }
        None
    }

    /// Set the register count of a function that was begun already.
    pub fn set_num_registers(&mut self, function_index: u32, num_registers: u8)
        ensures
            final(self)@ == builder_set_regs(old(self)@, function_index, num_registers),
            builder_wf(old(self)@) ==> builder_wf(final(self)@),
    {
        let at: usize = function_index as usize;
        if at < self.functions.len() {
            self.functions[at].num_registers = num_registers;
            assert(self@.functions =~= builder_set_regs(
                old(self)@,
                function_index,
                num_registers,
            ).functions);
        }
    }

    /// Resolve every pending jump and hand out the module. A jump to an
    /// unbound label falls through.
    pub fn finish(self) -> (r: Chunk)
        requires
            builder_wf(self@),
        ensures
            r.name@ == self@.name,
            r.constants@ == self@.constants,
            r.code@ == patched(self@, self@.pending.len()),
            function_models(r.functions@) == self@.functions,
    {
        let ghost b = self@;
        let mut code = self.code;
        let pending = self.pending_jumps;
        let labels = self.label_targets;
        let mut k: usize = 0;
        while k < pending.len()
            invariant
                builder_wf(b),
                k <= pending@.len(),
                pending@ == b.pending,
                labels@ == b.labels,
                code@.len() == b.code.len(),
                code@ == patched(b, k as nat),
            decreases pending@.len() - k,
        {
            let at: usize = pending[k].0;
            let label: Label = pending[k].1;
            let imm: i32 = match labels.get(label.id as u128) {
                Some(target) => (*target as i128 - (at as i128 + 1)) as i32,
                None => 0,
            };
            let mut instr = code[at];
            instr.imm = imm;
            code.set(at, instr);
            k += 1;
        }
        Chunk { name: self.name, constants: self.constants, code, functions: self.functions }
    }
}

} // verus!
