//! What instructions mean: what a step does to the registers, the frames and
//! the outside, in terms of what was there before.

use vstd::prelude::*;

use crate::bytecode::cap::CapId;
use crate::bytecode::instruction::Instruction;
use crate::bytecode::opcode::Opcode;
use crate::bytecode::value::{Message, Value};
use crate::vm::fault::Fault;
use crate::vm::frame::FrameState;
use crate::vm::native::NativeFn;
use crate::vm::result::Effect;
use crate::vm::state::{
    gather, perform, read, slice, step, store, stored, with_pc, MAX_CALL_DEPTH, VmState,
};

verus! {

/// The machine is about to perform `i`.
pub open spec fn is_at(s: VmState, i: Instruction) -> bool {
    &&& s.frames.len() > 0
    &&& s.frames.last().pc < s.chunk.code@.len()
    &&& s.chunk.code@[s.frames.last().pc as int] == i
}

/// The registers of the active frame.
pub open spec fn registers(s: VmState) -> Seq<Value> {
    s.frames.last().registers
}

/// Bytes of text or data that a value brings.
pub open spec fn text_bytes(v: Value) -> nat {
    match v {
        Value::Str(t) => vstd::utf8::encode_utf8(t@).len(),
        Value::Bytes(b) => b@.len(),
        _ => 0,
    }
}

/// The machine went on behind its instruction, and nothing but the registers
/// of the active frame and the accounts changed.
pub open spec fn went_on(s: VmState, t: VmState, regs: Seq<Value>) -> bool {
    &&& t.frames == s.frames.update(
        s.frames.len() - 1,
        FrameState {
            pc: (s.frames.last().pc + 1) as usize,
            registers: regs,
            ..s.frames.last()
        },
    )
    &&& t.chunk == s.chunk
    &&& t.natives == s.natives
    &&& t.gate == s.gate
    &&& t.paranoid == s.paranoid
    &&& s.quota is None ==> t.quota is None
}

/// A step wrote `v` to register `a` and nothing else, or faulted because there
/// is no such register, or because the value has more text than there is
/// room for.
pub open spec fn wrote(s: VmState, a: u8, v: Value) -> bool {
    let (t, e) = step(s);
    if a >= registers(s).len() {
        e matches Some(Effect::Trap(_))
    } else if s.quota is None || text_bytes(v) <= text_bytes(registers(s)[a as int]) {
        e is None && went_on(s, t, registers(s).update(a as int, v))
    } else {
        ||| e is None && went_on(s, t, registers(s).update(a as int, v))
        ||| e matches Some(Effect::Trap(Fault::QuotaExceeded(_)))
    }
}

/// The state in which the instruction is performed.
spec fn fetched(s: VmState) -> VmState {
    with_pc(
        VmState { executed: s.executed.wrapping_add(1), ..s },
        (s.frames.last().pc + 1) as usize,
    )
}

proof fn lemma_fetched(s: VmState, i: Instruction)
    requires
        is_at(s, i),
    ensures
        step(s) == perform(fetched(s), i),
        fetched(s).frames.len() == s.frames.len(),
        fetched(s).frames.last() == (FrameState {
            pc: (s.frames.last().pc + 1) as usize,
            ..s.frames.last()
        }),
        fetched(s).frames.drop_last() == s.frames.drop_last(),
        forall|r: u8| #[trigger] read(fetched(s), r) == read(s, r),
{
    assert(fetched(s).frames.drop_last() =~= s.frames.drop_last());
    assert forall|r: u8| #[trigger] read(fetched(s), r) == read(s, r) by {}
}

proof fn lemma_wrote(s: VmState, i: Instruction, a: u8, v: Value)
    requires
        is_at(s, i),
        step(s) == stored(fetched(s), a, v),
    ensures
        wrote(s, a, v),
{
    lemma_fetched(s, i);
    let u = fetched(s);
    let t = step(s).0;
    assert(registers(u) == registers(s));
    if step(s).1 is None {
        assert(t.frames =~= s.frames.update(
            s.frames.len() - 1,
            FrameState {
                pc: (s.frames.last().pc + 1) as usize,
                registers: registers(s).update(a as int, v),
                ..s.frames.last()
            },
        ));
    }
}

/// Loads and moves: the immediate, the constant or the other register is what
/// the destination holds afterwards.
pub proof fn loads_and_moves(s: VmState, i: Instruction)
    requires
        is_at(s, i),
    ensures
        i.op is LoadImm ==> wrote(s, i.a, Value::Int(i.imm as i64)),
        i.op is LoadConst && (i.imm as u32) < s.chunk.constants@.len() ==> wrote(
            s,
            i.a,
            s.chunk.constants@[i.imm as u32 as int],
        ),
        i.op is LoadConst && (i.imm as u32) >= s.chunk.constants@.len() ==> step(s).1 matches Some(
            Effect::Trap(Fault::BadConstant { .. }),
        ),
        i.op is Move && i.b < registers(s).len() ==> wrote(
            s,
            i.a,
            registers(s)[i.b as int],
        ),
        i.op is Nop ==> step(s).1 is None && went_on(s, step(s).0, registers(s)),
{
    lemma_fetched(s, i);
    match i.op {
        Opcode::LoadImm => lemma_wrote(s, i, i.a, Value::Int(i.imm as i64)),
        Opcode::LoadConst => {
            if (i.imm as u32) < s.chunk.constants@.len() {
                lemma_wrote(s, i, i.a, s.chunk.constants@[i.imm as u32 as int]);
            }
        },
        Opcode::Move => {
            if i.b < registers(s).len() {
                lemma_wrote(s, i, i.a, registers(s)[i.b as int]);
            }
        },
        _ => {},
    }
}

/// Two registers hold integers.
pub open spec fn two_ints(s: VmState, b: u8, c: u8, x: i64, y: i64) -> bool {
    &&& b < registers(s).len()
    &&& c < registers(s).len()
    &&& registers(s)[b as int] == Value::Int(x)
    &&& registers(s)[c as int] == Value::Int(y)
}

/// `r` is `n` in 64 bits: the same where it fits, and short or over by a
/// multiple of the word otherwise.
pub open spec fn wraps_to(n: int, r: i64) -> bool {
    &&& i64::MIN <= n <= i64::MAX ==> r == n
    &&& (r - n) % 0x1_0000_0000_0000_0000 == 0
}

proof fn lemma_wraps_mul(x: i64, y: i64)
    ensures
        wraps_to(x * y, x.wrapping_mul(y)),
{
}

/// Sums, differences and products of integers, in 64 bits.
pub proof fn integers_add_up(s: VmState, i: Instruction, x: i64, y: i64)
    requires
        is_at(s, i),
        two_ints(s, i.b, i.c, x, y),
    ensures
        i.op is Add ==> exists|r: i64| wraps_to(x + y, r) && #[trigger] wrote(
            s,
            i.a,
            Value::Int(r),
        ),
        i.op is Sub ==> exists|r: i64| wraps_to(x - y, r) && #[trigger] wrote(
            s,
            i.a,
            Value::Int(r),
        ),
        i.op is Mul ==> exists|r: i64| wraps_to(x * y, r) && #[trigger] wrote(
            s,
            i.a,
            Value::Int(r),
        ),
{
    lemma_fetched(s, i);
    match i.op {
        Opcode::Add => {
            lemma_wrote(s, i, i.a, Value::Int(x.wrapping_add(y)));
            assert(wraps_to(x + y, x.wrapping_add(y)));
        },
        Opcode::Sub => {
            lemma_wrote(s, i, i.a, Value::Int(x.wrapping_sub(y)));
            assert(wraps_to(x - y, x.wrapping_sub(y)));
        },
        Opcode::Mul => {
            lemma_wrote(s, i, i.a, Value::Int(x.wrapping_mul(y)));
            lemma_wraps_mul(x, y);
        },
        _ => {},
    }
}

/// `q` and `r` are the quotient and the remainder of a division that rounds
/// toward zero.
pub open spec fn divides(x: int, y: int, q: int, r: int) -> bool {
    &&& x == q * y + r
    &&& -(if y < 0 {
        -y
    } else {
        y
    }) < r < (if y < 0 {
        -y
    } else {
        y
    })
    &&& r != 0 ==> (r < 0) == (x < 0)
}

proof fn lemma_quotient(x: i64, y: i64)
    requires
        y != 0,
    ensures
        x != i64::MIN || y != -1 ==> divides(
            x as int,
            y as int,
            crate::vm::state::quotient(x, y) as int,
            crate::vm::state::remainder(x, y) as int,
        ),
        x == i64::MIN && y == -1 ==> crate::vm::state::quotient(x, y) == i64::MIN
            && crate::vm::state::remainder(x, y) == 0,
{
    let a = crate::vm::state::magnitude(x as int);
    let b = crate::vm::state::magnitude(y as int);
    let q = a / b;
    let r = a % b;
    assert(a == q * b + r && 0 <= r < b) by {
        vstd::arithmetic::div_mod::lemma_fundamental_div_mod(a, b);
        vstd::arithmetic::mul::lemma_mul_is_commutative(q, b);
        vstd::arithmetic::div_mod::lemma_mod_bound(a, b);
    }
    assert(0 <= q <= a) by (nonlinear_arith)
        requires
            a == q * b + r,
            0 <= r < b,
            a >= 0,
            b >= 1,
    ;
    assert(q == a ==> b == 1 || a == 0) by (nonlinear_arith)
        requires
            a == q * b + r,
            0 <= r < b,
            b >= 1,
            q >= 0,
    ;
    if b == 1 {
        assert(q == a && r == 0) by (nonlinear_arith)
            requires
                a == q * b + r,
                0 <= r < b,
                b == 1,
        ;
    }
    let sq = if (x < 0) != (y < 0) {
        -q
    } else {
        q
    };
    let sr = if x < 0 {
        -r
    } else {
        r
    };
    assert(x == sq * y + sr) by (nonlinear_arith)
        requires
            a == q * b + r,
            a == (if x < 0 {
                -(x as int)
            } else {
                x as int
            }),
            b == (if y < 0 {
                -(y as int)
            } else {
                y as int
            }),
            sq == (if (x < 0) != (y < 0) {
                -q
            } else {
                q
            }),
            sr == (if x < 0 {
                -r
            } else {
                r
            }),
    ;
}

/// Integer division and its remainder round toward zero; the one quotient
/// that does not fit wraps. A division by zero traps.
pub proof fn integers_divide(s: VmState, i: Instruction, x: i64, y: i64)
    requires
        is_at(s, i),
        two_ints(s, i.b, i.c, x, y),
        i.op is Div || i.op is Mod,
    ensures
        y == 0 ==> step(s).1 == Some(Effect::Trap(Fault::DivideByZero)),
        y != 0 && !(x == i64::MIN && y == -1) ==> exists|q: i64, r: i64|
            divides(x as int, y as int, q as int, r as int) && #[trigger] wrote_either(
                s,
                i,
                q,
                r,
            ),
        x == i64::MIN && y == -1 ==> wrote_either(s, i, i64::MIN, 0),
{
    lemma_fetched(s, i);
    if y != 0 {
        lemma_quotient(x, y);
        let q = crate::vm::state::quotient(x, y);
        let r = crate::vm::state::remainder(x, y);
        if i.op is Div {
            lemma_wrote(s, i, i.a, Value::Int(q));
        } else {
            lemma_wrote(s, i, i.a, Value::Int(r));
        }
        assert(wrote_either(s, i, q, r));
    }
}

/// The quotient was written by a division, the remainder by a modulus.
pub open spec fn wrote_either(s: VmState, i: Instruction, q: i64, r: i64) -> bool {
    wrote(
        s,
        i.a,
        Value::Int(
            if i.op is Div {
                q
            } else {
                r
            },
        ),
    )
}

/// Comparisons of integers, and negation.
pub proof fn integers_compare(s: VmState, i: Instruction, x: i64, y: i64)
    requires
        is_at(s, i),
        two_ints(s, i.b, i.c, x, y),
    ensures
        i.op is Eq ==> wrote(s, i.a, Value::Bool(x == y)),
        i.op is Lt ==> wrote(s, i.a, Value::Bool(x < y)),
        i.op is Le ==> wrote(s, i.a, Value::Bool(x <= y)),
        i.op is Neg ==> exists|r: i64| wraps_to(-(x as int), r) && #[trigger] wrote(
            s,
            i.a,
            Value::Int(r),
        ),
{
    lemma_fetched(s, i);
    match i.op {
        Opcode::Eq => lemma_wrote(s, i, i.a, Value::Bool(x == y)),
        Opcode::Lt => lemma_wrote(s, i, i.a, Value::Bool(x < y)),
        Opcode::Le => lemma_wrote(s, i, i.a, Value::Bool(x <= y)),
        Opcode::Neg => {
            let r = crate::vm::state::negated(x);
            lemma_wrote(s, i, i.a, Value::Int(r));
            assert(wraps_to(-(x as int), r));
        },
        _ => {},
    }
}

/// Equality of values: of one kind and with the same contents, of doubles as
/// numbers.
pub proof fn equality_is_by_kind_and_contents(s: VmState, i: Instruction, x: Value, y: Value)
    requires
        is_at(s, i),
        i.op is Eq,
        i.b < registers(s).len(),
        i.c < registers(s).len(),
        registers(s)[i.b as int] == x,
        registers(s)[i.c as int] == y,
    ensures
        x is Unit && y is Unit ==> wrote(s, i.a, Value::Bool(true)),
        x is Bool && y is Bool ==> wrote(
            s,
            i.a,
            Value::Bool(x->Bool_0 == y->Bool_0),
        ),
        x is Pid && y is Pid ==> wrote(s, i.a, Value::Bool(x->Pid_0 == y->Pid_0)),
        x is Cap && y is Cap ==> wrote(s, i.a, Value::Bool(x->Cap_0.raw == y->Cap_0.raw)),
        x is Str && y is Str ==> wrote(s, i.a, Value::Bool(x->Str_0@ == y->Str_0@)),
        x is Bytes && y is Bytes ==> wrote(s, i.a, Value::Bool(x->Bytes_0@ == y->Bytes_0@)),
        !same_kind(x, y) ==> wrote(s, i.a, Value::Bool(false)),
{
    lemma_fetched(s, i);
    let v = Value::Bool(crate::bytecode::value::values_equal(x, y));
    if !(x is Int && y is Int) {
        lemma_wrote(s, i, i.a, v);
    }
}

/// Two values are of one kind.
pub open spec fn same_kind(x: Value, y: Value) -> bool {
    match x {
        Value::Unit => y is Unit,
        Value::Bool(_) => y is Bool,
        Value::Int(_) => y is Int,
        Value::Float(_) => y is Float,
        Value::Pid(_) => y is Pid,
        Value::Message(_) => y is Message,
        Value::Cap(_) => y is Cap,
        Value::Str(_) => y is Str,
        Value::Bytes(_) => y is Bytes,
    }
}

/// What is no number is not computed with: the operation traps. With a double
/// among two numbers it is handed to the host, operands in order.
pub proof fn doubles_are_the_hosts(s: VmState, i: Instruction, x: Value, y: Value)
    requires
        is_at(s, i),
        i.op is Add || i.op is Sub || i.op is Mul || i.op is Div || i.op is Lt || i.op is Le,
        i.b < registers(s).len(),
        i.c < registers(s).len(),
        registers(s)[i.b as int] == x,
        registers(s)[i.c as int] == y,
    ensures
        !(x is Int || x is Float) || !(y is Int || y is Float) ==> step(s).1 matches Some(
            Effect::Trap(Fault::TypeMismatch { .. }),
        ),
        (x is Float && (y is Float || y is Int)) || (x is Int && y is Float) ==> step(s).1 == Some(
            Effect::FloatOp { op: i.op, dest_reg: i.a, lhs: x, rhs: y },
        ),
        step(s).1 is Some ==> registers(step(s).0) == registers(s),
{
    lemma_fetched(s, i);
    if x is Int && y is Int {
        if step(s).1 is Some {
            match i.op {
                Opcode::Add => lemma_kept(s, i, Value::Int(x->Int_0.wrapping_add(y->Int_0))),
                Opcode::Sub => lemma_kept(s, i, Value::Int(x->Int_0.wrapping_sub(y->Int_0))),
                Opcode::Mul => lemma_kept(s, i, Value::Int(x->Int_0.wrapping_mul(y->Int_0))),
                _ => {},
            }
        }
    }
}

proof fn lemma_kept(s: VmState, i: Instruction, v: Value)
    requires
        is_at(s, i),
        step(s) == stored(fetched(s), i.a, v),
        step(s).1 is Some,
    ensures
        registers(step(s).0) == registers(s),
{
    lemma_fetched(s, i);
}

/// A value that counts as false: unit, `false`, zero, and an empty text or
/// buffer.
pub open spec fn is_false(v: Value) -> bool {
    match v {
        Value::Unit => true,
        Value::Bool(b) => !b,
        Value::Int(n) => n == 0,
        Value::Str(t) => t@.len() == 0,
        Value::Bytes(b) => b@.len() == 0,
        _ => false,
    }
}

/// A jump goes on `imm` instructions behind the next one; a branch does so on
/// a false value, and goes on with the next one on any other.
pub proof fn jumps_and_branches(s: VmState, i: Instruction)
    requires
        is_at(s, i),
        i.op is Jump || (i.op is Branch && i.a < registers(s).len()),
        0 <= s.frames.last().pc + 1 + i.imm <= s.chunk.code@.len(),
        s.chunk.code@.len() <= u32::MAX,
    ensures
        ({
            let (t, e) = step(s);
            let taken = i.op is Jump || is_false(registers(s)[i.a as int]);
            &&& e is None
            &&& t.frames.len() == s.frames.len()
            &&& t.frames.drop_last() == s.frames.drop_last()
            &&& registers(t) == registers(s)
            &&& t.frames.last().pc == (if taken {
                s.frames.last().pc + 1 + i.imm
            } else {
                s.frames.last().pc + 1
            })
        }),
{
    lemma_fetched(s, i);
    let t = step(s).0;
    assert(t.frames.drop_last() =~= s.frames.drop_last());
}

/// Gathered values are those of registers in a row.
pub proof fn gathered_in_a_row(s: VmState, base: u8, first: nat, n: nat)
    requires
        s.frames.len() > 0,
    ensures
        match gather(s, base, first, n) {
            Ok(v) => {
                &&& v.len() == n
                &&& forall|k: int|
                    0 <= k < n ==> base + first + k < registers(s).len() && #[trigger] v[k]
                        == registers(s)[base + first + k]
            },
            Err(_) => base + first + n > registers(s).len() || base + first + n > 256,
        },
    decreases n,
{
    if n > 0 {
        gathered_in_a_row(s, base, first, (n - 1) as nat);
    }
}

/// A call enters the function at its entry, in a frame of its own: the
/// parameters are the registers of the caller from the destination on, the
/// others are unit. The caller waits behind the call.
pub proof fn calls_pass_arguments(s: VmState, i: Instruction)
    requires
        is_at(s, i),
        i.op is Call,
        (i.imm as u32) < s.chunk.functions@.len(),
        s.frames.len() < MAX_CALL_DEPTH,
        i.a + i.b <= registers(s).len() <= 256,
        s.chunk.functions@[i.imm as u32 as int].arity
            <= s.chunk.functions@[i.imm as u32 as int].num_registers,
    ensures
        ({
            let def = s.chunk.functions@[i.imm as u32 as int];
            let (t, e) = step(s);
            let f = t.frames.last();
            &&& e is None
            &&& t.frames.len() == s.frames.len() + 1
            &&& t.frames.drop_last() == s.frames.update(
                s.frames.len() - 1,
                FrameState { pc: (s.frames.last().pc + 1) as usize, ..s.frames.last() },
            )
            &&& f.function == i.imm as u32
            &&& f.pc == def.entry
            &&& f.dest_reg == Some(i.a)
            &&& f.registers.len() == def.num_registers
            &&& forall|k: int|
                0 <= k < def.num_registers ==> #[trigger] f.registers[k] == (if k < i.b && k
                    < def.arity {
                    registers(s)[i.a + k]
                } else {
                    Value::Unit
                })
        }),
{
    lemma_fetched(s, i);
    let u = fetched(s);
    gathered_in_a_row(u, i.a, 0, i.b as nat);
    let t = step(s).0;
    assert(t.frames.drop_last() =~= u.frames);
    assert(u.frames =~= s.frames.update(
        s.frames.len() - 1,
        FrameState { pc: (s.frames.last().pc + 1) as usize, ..s.frames.last() },
    ));
}

/// A return hands its register to the destination of the caller, which goes
/// on where it waited, all else as it was. The outermost function ends the
/// flow with that value.
pub proof fn returns_hand_back(s: VmState, i: Instruction, d: u8)
    requires
        is_at(s, i),
        i.op is Return,
        i.a < registers(s).len(),
        s.quota is None,
    ensures
        s.frames.len() == 1 && s.frames.last().dest_reg is None ==> step(s).1 == Some(
            Effect::Complete(registers(s)[i.a as int]),
        ),
        s.frames.len() >= 2 && s.frames.last().dest_reg == Some(d) && d
            < s.frames[s.frames.len() - 2].registers.len() ==> {
            let (t, e) = step(s);
            let caller = s.frames[s.frames.len() - 2];
            &&& e is None
            &&& t.frames == s.frames.drop_last().update(
                s.frames.len() - 2,
                FrameState {
                    registers: caller.registers.update(
                        d as int,
                        registers(s)[i.a as int],
                    ),
                    ..caller
                },
            )
        },
{
    lemma_fetched(s, i);
    let u = fetched(s);
    if s.frames.len() >= 2 {
        assert(u.frames.drop_last()[s.frames.len() - 2] == s.frames.drop_last()[s.frames.len()
            - 2]);
    }
}

/// `Halt` ends the flow with register 0, `Exit` with the given one, `Trap`
/// with the given code; code that runs out returns unit.
pub proof fn ends_of_a_flow(s: VmState, i: Instruction)
    ensures
        is_at(s, i) && i.op is Halt && registers(s).len() > 0 ==> step(s).1 == Some(
            Effect::Complete(registers(s)[0]),
        ),
        is_at(s, i) && i.op is Exit && i.a < registers(s).len() ==> step(s).1 == Some(
            Effect::Complete(registers(s)[i.a as int]),
        ),
        is_at(s, i) && i.op is Trap ==> step(s).1 == Some(
            Effect::Trap(Fault::Explicit(i.imm)),
        ),
        s.frames.len() == 1 && s.frames.last().pc >= s.chunk.code@.len()
            && s.frames.last().dest_reg is None ==> step(s).1 == Some(
            Effect::Complete(Value::Unit),
        ),
{
    if is_at(s, i) {
        lemma_fetched(s, i);
    }
}

/// A spawn asks for a flow with as many arguments as it says, the registers
/// behind its destination in order, and with the rights it names.
pub proof fn spawn_passes_arguments(s: VmState, i: Instruction)
    requires
        is_at(s, i),
        i.op is Spawn,
        registers(s).len() <= 256,
    ensures
        i.a + 1 + i.b <= registers(s).len() ==> step(s).1 is Some && step(s).1->Some_0 is Spawn,
        step(s).1 matches Some(Effect::Spawn { function, args, dest_reg, requested_rights }) ==> {
            &&& function == i.imm as u32
            &&& dest_reg == i.a
            &&& requested_rights.mask == i.c
            &&& args.len() == i.b
            &&& forall|k: int|
                0 <= k < i.b ==> i.a + 1 + k < registers(s).len() && #[trigger] args[k]
                    == registers(s)[i.a + 1 + k]
        },
        !(step(s).1 is Some && step(s).1->Some_0 is Spawn) ==> step(s).1 matches Some(
            Effect::Trap(_),
        ),
{
    lemma_fetched(s, i);
    gathered_in_a_row(fetched(s), i.a, 1, i.b as nat);
}

/// A register that reads as an integer: integers, and truth values as zero
/// and one.
pub open spec fn reads_as(v: Value, n: int) -> bool {
    match v {
        Value::Int(x) => x == n,
        Value::Bool(b) => n == (if b {
            1int
        } else {
            0int
        }),
        _ => false,
    }
}

/// What a receive asks for: where the message goes, how long it waits, and
/// which tag, correlation id and payload kind it takes.
pub proof fn receives_ask_for_what_they_say(s: VmState, i: Instruction, n: int, m: int)
    requires
        is_at(s, i),
    ensures
        i.op is Receive ==> asks_for(s, i.a, None, None, None, None),
        i.op is ReceiveTimeout && holds(s, i.b, n) && n >= 0 ==> asks_for(
            s,
            i.a,
            Some(n as u64),
            None,
            None,
            None,
        ),
        i.op is ReceiveMatch && holds(s, i.b, n) && 0 <= n <= u16::MAX ==> asks_for(
            s,
            i.a,
            None,
            Some(n as u16),
            None,
            None,
        ),
        i.op is ReceiveMatchImm && 0 <= i.imm <= u16::MAX ==> asks_for(
            s,
            i.a,
            None,
            Some(i.imm as u16),
            None,
            None,
        ),
        i.op is ReceiveMatchCorr && holds(s, i.b, n) && 0 <= n <= u16::MAX && holds(s, i.c, m) && m
            >= 0 ==> asks_for(s, i.a, None, Some(n as u16), Some(m as u64), None),
        i.op is ReceiveMatchCorrImm && 0 <= i.imm <= u16::MAX && holds(s, i.b, m) && m >= 0
            ==> asks_for(s, i.a, None, Some(i.imm as u16), Some(m as u64), None),
        i.op is ReceiveMatchKind && 0 <= i.imm <= 8 ==> asks_for(
            s,
            i.a,
            None,
            None,
            None,
            Some(i.imm as u8),
        ),
        is_receive(i.op) ==> step(s).1 is Some && (step(s).1->Some_0 is Receive
            || step(s).1->Some_0 is Trap),
{
    lemma_fetched(s, i);
}

/// The receiving instructions.
pub open spec fn is_receive(op: Opcode) -> bool {
    op is Receive || op is ReceiveTimeout || op is ReceiveMatch || op is ReceiveMatchImm
        || op is ReceiveMatchCorr || op is ReceiveMatchCorrImm || op is ReceiveMatchKind
}

/// A register holds an integer that fits in 64 bits.
pub open spec fn holds(s: VmState, reg: u8, n: int) -> bool {
    reg < registers(s).len() && reads_as(registers(s)[reg as int], n)
}

/// The step asks for a message like this.
pub open spec fn asks_for(
    s: VmState,
    dest: u8,
    wait: Option<u64>,
    tag: Option<u16>,
    id: Option<u64>,
    kind: Option<u8>,
) -> bool {
    step(s).1 matches Some(Effect::Receive {
        dest_reg,
        timeout,
        match_tag,
        match_request_id,
        match_payload_kind,
    }) && dest_reg == dest && timeout == wait && match_tag == tag && match_request_id == id
        && match_payload_kind == kind
}

/// A register holds this value.
pub open spec fn has(s: VmState, reg: u8, v: Value) -> bool {
    reg < registers(s).len() && registers(s)[reg as int] == v
}

/// What the addressing instructions hand over: the token and the message that
/// their registers hold.
pub proof fn addresses_and_messages_are_handed_over(
    s: VmState,
    i: Instruction,
    cap: CapId,
    msg: Message,
    n: int,
    other: CapId,
)
    requires
        is_at(s, i),
    ensures
        i.op is Send && has(s, i.a, Value::Cap(cap)) && has(s, i.b, Value::Message(msg)) ==> step(
            s,
        ).1 == Some(Effect::Send { target_cap: cap, message: Value::Message(msg) }),
        i.op is Ask && has(s, i.b, Value::Cap(cap)) && has(s, i.c, Value::Message(msg)) ==> step(
            s,
        ).1 == Some(
            Effect::Ask {
                dest_reg: i.a,
                target_cap: cap,
                request: Value::Message(msg),
                timeout: None,
            },
        ),
        i.op is AskTimeout && has(s, i.b, Value::Cap(cap)) && has(s, i.c, Value::Message(msg)) && 0
            <= i.imm <= 255 && holds(s, i.imm as u8, n) && n >= 0 ==> step(s).1 == Some(
            Effect::Ask {
                dest_reg: i.a,
                target_cap: cap,
                request: Value::Message(msg),
                timeout: Some(n as u64),
            },
        ),
        i.op is Monitor && has(s, i.b, Value::Cap(cap)) ==> step(s).1 == Some(
            Effect::Monitor { dest_reg: i.a, target_cap: cap },
        ),
        i.op is Link && has(s, i.b, Value::Cap(cap)) ==> step(s).1 == Some(
            Effect::Link { dest_reg: i.a, target_cap: cap },
        ),
        i.op is Delegate && has(s, i.b, Value::Cap(cap)) && (i.c == 255 || has(
            s,
            i.c,
            Value::Cap(other),
        )) ==> (step(s).1 matches Some(Effect::Delegate {
            dest_reg,
            src_cap,
            want_rights,
            want_native_cap,
        }) && dest_reg == i.a && src_cap == cap && want_rights.mask == i.imm as u32
            && want_native_cap == (if i.c == 255 {
            None::<CapId>
        } else {
            Some(other)
        })),
        (i.op is Send && i.a < registers(s).len() && !(registers(s)[i.a as int] is Cap))
            || ((i.op is Ask || i.op is AskTimeout || i.op is Monitor || i.op is Link || i.op
            is Delegate) && i.b < registers(s).len() && !(registers(s)[i.b as int] is Cap))
            ==> step(s).1 matches Some(Effect::Trap(_)),
        (i.op is Send && i.b < registers(s).len() && !(registers(s)[i.b as int] is Message)) || ((
        i.op is Ask || i.op is AskTimeout) && i.c < registers(s).len()
            && !(registers(s)[i.c as int] is Message)) ==> step(s).1 matches Some(
            Effect::Trap(_),
        ),
{
    lemma_fetched(s, i);
}

/// What the remaining instructions ask the scheduler for.
pub proof fn requests_carry_their_operands(
    s: VmState,
    i: Instruction,
    n: int,
    name: std::sync::Arc<String>,
)
    requires
        is_at(s, i),
    ensures
        i.op is Yield ==> step(s).1 == Some(Effect::Yield),
        i.op is Sleep && holds(s, i.a, n) && n >= 0 ==> step(s).1 == Some(
            Effect::Sleep(n as u64),
        ),
        i.op is Sleep && holds(s, i.a, n) && n < 0 ==> step(s).1 matches Some(Effect::Trap(_)),
        i.op is SelfPid ==> step(s).1 == Some(Effect::SelfPid { dest_reg: i.a }),
        i.op is Demonitor ==> step(s).1 == Some(Effect::Demonitor { monitor_reg: i.a }),
        i.op is Unlink ==> step(s).1 == Some(Effect::Unlink { link_reg: i.a }),
        i.op is SetTrapExit && i.a < registers(s).len() ==> step(s).1 == Some(
            Effect::SetTrapExit { enabled: !is_false(registers(s)[i.a as int]) },
        ),
        i.op is SetRestartPolicy && 0 <= i.imm <= 2 ==> step(s).1 == Some(
            Effect::SetRestartPolicy { policy: i.imm as u8 },
        ),
        i.op is HostAwait && i.b < registers(s).len() ==> step(s).1 == Some(
            Effect::HostAwait {
                dest_reg: i.a,
                op: i.imm as u32,
                args: registers(s)[i.b as int],
            },
        ),
        i.op is RegisterName && has(s, i.a, Value::Str(name)) ==> step(s).1 == Some(
            Effect::RegisterName { name },
        ),
        i.op is Whereis && has(s, i.b, Value::Str(name)) ==> step(s).1 == Some(
            Effect::Whereis { dest_reg: i.a, name },
        ),
        i.op is FreshRequestId && s.next_request_id < u64::MAX ==> wrote(
            s,
            i.a,
            Value::Int(s.next_request_id as i64),
        ) && step(s).0.next_request_id == s.next_request_id + 1,
{
    lemma_fetched(s, i);
    if i.op is FreshRequestId && s.next_request_id < u64::MAX {
        let v = Value::Int(s.next_request_id as i64);
        let u = VmState { next_request_id: (s.next_request_id + 1) as u64, ..fetched(s) };
        assert(step(s) == stored(u, i.a, v));
        let t = step(s).0;
        assert(registers(u) == registers(s));
        if step(s).1 is None {
            assert(t.frames =~= s.frames.update(
                s.frames.len() - 1,
                FrameState {
                    pc: (s.frames.last().pc + 1) as usize,
                    registers: registers(s).update(i.a as int, v),
                    ..s.frames.last()
                },
            ));
        }
    }
}

/// The native in a slot may be called: neither the flow's authority nor the
/// natives were revoked, the right is there, and the mask has the index.
pub open spec fn may_call(s: VmState, index: u32) -> bool {
    &&& index < s.natives.len()
    &&& s.gate.flow_cell.count == s.gate.authority_epoch
    &&& s.gate.native_cell.count == s.gate.native_epoch
    &&& s.gate.has_native
    &&& s.gate.mask@.contains(index as int)
}

/// A native call that is not allowed traps. An allowed one gets the registers
/// from the destination on as its arguments; the host gets its own natives
/// with these.
pub proof fn natives_are_gated(s: VmState, i: Instruction, name: Seq<char>, host: u32)
    requires
        is_at(s, i),
        i.op is CallNative,
        registers(s).len() <= 256,
    ensures
        !may_call(s, i.imm as u32) ==> step(s).1 matches Some(Effect::Trap(_)),
        may_call(s, i.imm as u32) && s.natives[i.imm as u32 as int] == Some(
            (name, NativeFn::Host(host)),
        ) && i.a + i.b <= registers(s).len() ==> (step(s).1 matches Some(Effect::CallHost {
            dest_reg,
            native,
            args,
        }) && dest_reg == i.a && native == host && args.len() == i.b && forall|k: int|
            0 <= k < i.b ==> #[trigger] args[k] == registers(s)[i.a + k]),
{
    lemma_fetched(s, i);
    gathered_in_a_row(fetched(s), i.a, 0, i.b as nat);
}

/// The natives on messages read the field that they are named after.
pub proof fn message_natives_read_their_field(
    s: VmState,
    i: Instruction,
    name: Seq<char>,
    f: NativeFn,
    m: Message,
)
    requires
        is_at(s, i),
        i.op is CallNative,
        registers(s).len() <= 256,
        may_call(s, i.imm as u32),
        s.natives[i.imm as u32 as int] == Some((name, f)),
        i.b == 1,
        has(s, i.a, Value::Message(m)),
    ensures
        f is MsgSender ==> wrote(s, i.a, Value::Pid(m.sender)),
        f is MsgRequestId ==> wrote(s, i.a, Value::Int(m.request_id as i64)),
        f is MsgTag ==> wrote(s, i.a, Value::Int(m.tag as i64)),
        f is MsgPayload ==> wrote(s, i.a, *m.payload),
        f is MsgReplyCap ==> wrote(s, i.a, Value::Cap(m.reply_cap)),
{
    lemma_fetched(s, i);
    let u = fetched(s);
    gathered_in_a_row(u, i.a, 0, 1);
    let args = gather(u, i.a, 0, 1)->Ok_0;
    assert(args[0] == registers(s)[i.a as int]);
    match f {
        NativeFn::MsgSender => lemma_wrote(s, i, i.a, Value::Pid(m.sender)),
        NativeFn::MsgRequestId => lemma_wrote(s, i, i.a, Value::Int(m.request_id as i64)),
        NativeFn::MsgTag => lemma_wrote(s, i, i.a, Value::Int(m.tag as i64)),
        NativeFn::MsgPayload => {
            let ghost v = *m.payload;
            lemma_wrote(s, i, i.a, v);
        },
        NativeFn::MsgReplyCap => lemma_wrote(s, i, i.a, Value::Cap(m.reply_cap)),
        _ => {},
    }
}

/// A slice stops at the first effect, after which nothing runs; without one
/// it ends with a yield once the budget is used up.
pub proof fn a_slice_stops_at_the_first_effect(s: VmState, budget: nat)
    ensures
        budget == 0 ==> slice(s, budget) == (s, Effect::Yield),
        budget > 0 && step(s).1 is Some ==> slice(s, budget) == (
            step(s).0,
            step(s).1->Some_0,
        ),
        budget > 0 && step(s).1 is None ==> slice(s, budget) == slice(
            step(s).0,
            (budget - 1) as nat,
        ),
{
}

/// What a register is written costs the difference in text, on the account
/// of the flow, and gives it back.
pub proof fn text_is_accounted(s: VmState, reg: u8, v: Value)
    requires
        s.quota is Some,
        s.frames.len() > 0,
        reg < registers(s).len(),
        s.quota->Some_0.mem_used + text_bytes(v) <= usize::MAX,
        text_bytes(registers(s)[reg as int]) <= s.quota->Some_0.mem_used,
        store(s, reg, v).1 is Ok,
    ensures
        store(s, reg, v).0.quota is Some,
        store(s, reg, v).0.quota->Some_0.mem_used == s.quota->Some_0.mem_used - text_bytes(
            registers(s)[reg as int],
        ) + text_bytes(v),
        registers(store(s, reg, v).0) == registers(s).update(reg as int, v),
{
}

/// The magnitude of a double, as its bits without the sign.
pub open spec fn magnitude_bits(x: u64) -> int {
    x as int % 0x8000_0000_0000_0000
}

/// The double is not a number.
pub open spec fn not_a_number(x: u64) -> bool {
    magnitude_bits(x) > 0x7FF0_0000_0000_0000
}

/// Doubles are equal as numbers: what is not a number equals nothing, and the
/// two zeros are equal. Messages are equal field by field. Negation turns the
/// sign of a double and nothing else. A remainder is of integers.
pub proof fn doubles_compare_as_numbers(s: VmState, i: Instruction, x: Value, y: Value)
    requires
        is_at(s, i),
        i.b < registers(s).len(),
        i.c < registers(s).len(),
        registers(s)[i.b as int] == x,
        registers(s)[i.c as int] == y,
    ensures
        i.op is Eq && x is Float && y is Float ==> wrote(
            s,
            i.a,
            Value::Bool(
                !not_a_number(x->Float_0) && !not_a_number(y->Float_0) && (x->Float_0
                    == y->Float_0 || (magnitude_bits(x->Float_0) == 0 && magnitude_bits(
                    y->Float_0,
                ) == 0)),
            ),
        ),
        i.op is Eq && x is Message && y is Message && *x->Message_0.payload is Unit
            && *y->Message_0.payload is Unit ==> wrote(
            s,
            i.a,
            Value::Bool(
                x->Message_0.sender == y->Message_0.sender && x->Message_0.reply_cap
                    == y->Message_0.reply_cap && x->Message_0.request_id
                    == y->Message_0.request_id && x->Message_0.tag == y->Message_0.tag,
            ),
        ),
        i.op is Neg && x is Float ==> exists|r: u64|
            {
                &&& #[trigger] wrote(s, i.a, Value::Float(r))
                &&& magnitude_bits(r) == magnitude_bits(x->Float_0)
                &&& r != x->Float_0
            },
        i.op is Neg && !(x is Float) && !(x is Int) ==> step(s).1 matches Some(Effect::Trap(_)),
        i.op is Mod && !(x is Int && y is Int) ==> step(s).1 matches Some(Effect::Trap(_)),
{
    lemma_fetched(s, i);
    if i.op is Eq && !(x is Int && y is Int) {
        if x is Message && y is Message {
            assert(crate::bytecode::value::values_equal(x, y)
                == crate::bytecode::value::messages_equal(x->Message_0, y->Message_0));
        }
        lemma_wrote(s, i, i.a, Value::Bool(crate::bytecode::value::values_equal(x, y)));
    } else if i.op is Neg && x is Float {
        let r = crate::bytecode::value::float_neg(x->Float_0);
        lemma_wrote(s, i, i.a, Value::Float(r));
    }
}

/// The value reads as a number that is not negative: an identity, or an
/// integer.
pub open spec fn reads_unsigned(v: Value, n: int) -> bool {
    &&& 0 <= n <= u64::MAX
    &&& v is Pid ==> v->Pid_0 == n
    &&& !(v is Pid) ==> reads_as(v, n)
}

/// A message that a flow makes has the correlation id, the tag and the body
/// that it was given, no sender and no address for a reply. A fourth argument
/// in front is not looked at.
pub proof fn messages_are_made_of_their_arguments(
    s: VmState,
    i: Instruction,
    name: Seq<char>,
    n: int,
    tag: int,
)
    requires
        is_at(s, i),
        i.op is CallNative,
        registers(s).len() <= 256,
        may_call(s, i.imm as u32),
        s.natives[i.imm as u32 as int] == Some((name, NativeFn::MakeMsg)),
        i.b == 3 || i.b == 4,
        i.a + i.b <= registers(s).len(),
        reads_unsigned(registers(s)[i.a + i.b - 3], n),
        reads_unsigned(registers(s)[i.a + i.b - 2], tag),
    ensures
        tag <= u16::MAX ==> exists|m: Message|
            {
                &&& #[trigger] wrote(s, i.a, Value::Message(m))
                &&& m.request_id == n
                &&& m.tag == tag
                &&& *m.payload == registers(s)[i.a + i.b - 1]
                &&& m.sender == 0
                &&& m.reply_cap.raw == 0
            },
        tag > u16::MAX ==> step(s).1 matches Some(Effect::Trap(_)),
{
    lemma_fetched(s, i);
    let u = fetched(s);
    gathered_in_a_row(u, i.a, 0, i.b as nat);
    let args = gather(u, i.a, 0, i.b as nat)->Ok_0;
    let base = i.b - 3;
    assert(args[base] == registers(s)[i.a + base]);
    assert(args[base + 1] == registers(s)[i.a + base + 1]);
    assert(args[base + 2] == registers(s)[i.a + base + 2]);
    if tag <= u16::MAX {
        let m = crate::bytecode::value::envelope(0, n as u64, tag as u16, args[base + 2]);
        lemma_wrote(s, i, i.a, Value::Message(m));
    }
}

/// A step that writes to a register that is not there traps and names it; so
/// does one that reads such a register.
pub proof fn missing_registers_trap(s: VmState, i: Instruction)
    requires
        is_at(s, i),
        s.quota is None,
    ensures
        (i.op is LoadImm || i.op is Move && i.b < registers(s).len()) && i.a >= registers(s).len()
            ==> (step(s).1 matches Some(Effect::Trap(Fault::RegisterOutOfRange { reg, .. })) && reg
            == i.a),
        (i.op is Move || i.op is Neg || i.op is Add || i.op is Sub || i.op is Mul || i.op is Div
            || i.op is Mod || i.op is Eq || i.op is Lt || i.op is Le) && i.b >= registers(s).len()
            ==> (step(s).1 matches Some(Effect::Trap(Fault::RegisterOutOfRange { reg, .. })) && reg
            == i.b),
        (i.op is Branch || i.op is Return || i.op is Exit || i.op is Send || i.op is Sleep
            || i.op is RegisterName || i.op is SetTrapExit) && i.a >= registers(s).len() ==> (step(
            s,
        ).1 matches Some(Effect::Trap(Fault::RegisterOutOfRange { reg, .. })) && reg == i.a),
{
    lemma_fetched(s, i);
}

/// A call of a function that is not there, or one too deep, traps and says
/// so; nothing is entered.
pub proof fn impossible_calls_trap(s: VmState, i: Instruction)
    requires
        is_at(s, i),
        i.op is Call,
    ensures
        s.frames.len() >= MAX_CALL_DEPTH ==> (step(s).1 matches Some(
            Effect::Trap(Fault::CallStackOverflow { .. }),
        )) && step(s).0.frames.len() == s.frames.len(),
        s.frames.len() < MAX_CALL_DEPTH && (i.imm as u32) >= s.chunk.functions@.len() ==> (step(
            s,
        ).1 matches Some(Effect::Trap(Fault::BadFunction { index, .. })) && index == i.imm as u32)
            && step(s).0.frames.len() == s.frames.len(),
{
    lemma_fetched(s, i);
}

/// Operands that make no sense trap: negative times, tags and ids, tags and
/// kinds and policies that do not exist, names that are no text.
pub proof fn senseless_operands_trap(s: VmState, i: Instruction, n: int)
    requires
        is_at(s, i),
        ({
            ||| i.op is ReceiveTimeout && holds(s, i.b, n) && n < 0
            ||| i.op is ReceiveMatch && holds(s, i.b, n) && !(0 <= n <= u16::MAX)
            ||| i.op is ReceiveMatchImm && !(0 <= i.imm <= u16::MAX)
            ||| i.op is ReceiveMatchCorr && holds(s, i.b, n) && !(0 <= n <= u16::MAX)
            ||| i.op is ReceiveMatchCorrImm && !(0 <= i.imm <= u16::MAX)
            ||| i.op is ReceiveMatchKind && !(0 <= i.imm <= 8)
            ||| i.op is SetRestartPolicy && !(0 <= i.imm <= 2)
            ||| i.op is RegisterName && i.a < registers(s).len() && !(registers(s)[i.a as int]
                is Str)
            ||| i.op is Whereis && i.b < registers(s).len() && !(registers(s)[i.b as int] is Str)
        }),
    ensures
        step(s).1 matches Some(Effect::Trap(_)),
{
    lemma_fetched(s, i);
}

} // verus!
