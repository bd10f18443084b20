//! What building and checking a module come to: where jumps land, which
//! constant a load finds, and what a checked module may be relied on for.

use vstd::prelude::*;

use crate::bytecode::builder::{
    builder_const, builder_wf, const_index, constant_position, labels_are_resolved, last_function,
    patched, BuilderState,
};
use crate::bytecode::chunk::Chunk;
use crate::bytecode::opcode::Opcode;
use crate::bytecode::value::{heap_bytes, value_bytes, values_equal, Value};
use crate::bytecode::verify::{
    constant_defect, first_constant_defect, first_defect, first_function_defect,
    first_instruction_defect, function_defect, instruction_defect, no_defect_iff_well_formed,
    well_formed, TrustLevel, VerifyError,
};
use crate::bytecode::wire::FunctionModel;
use crate::text::{dec, digit_char};

verus! {

/// A finished jump lands where its label was bound, counted from the
/// instruction behind the jump.
pub proof fn jumps_land_on_their_labels(b: BuilderState, k: int)
    requires
        builder_wf(b),
        0 <= k < b.pending.len(),
        b.labels.contains_key(b.pending[k].1.id as u128),
        b.labels[b.pending[k].1.id as u128] <= b.code.len(),
        b.code.len() < 0x7FFF_FFFF,
    ensures
        ({
            let at = b.pending[k].0 as int;
            let code = patched(b, b.pending.len());
            &&& code.len() == b.code.len()
            &&& at + 1 + code[at].imm == b.labels[b.pending[k].1.id as u128]
            &&& code[at].op == b.code[at].op
            &&& code[at].a == b.code[at].a
        }),
{
    labels_are_resolved(b);
    let at = b.pending[k].0;
}

proof fn lemma_constant_position(s: Seq<Value>, v: Value, from: nat)
    ensures
        match constant_position(s, v, from) {
            Some(i) => from <= i < s.len() && values_equal(s[i as int], v),
            None => forall|j: int| from <= j < s.len() ==> !values_equal(#[trigger] s[j], v),
        },
    decreases s.len() - from,
{
    if from < s.len() && !values_equal(s[from as int], v) {
        lemma_constant_position(s, v, from + 1);
    }
}

/// A constant that is asked for is in the pool under the index that comes
/// back; the pool keeps what it held, and grows only by what was not there.
pub proof fn constants_are_found(b: BuilderState, v: Value)
    requires
        b.constants.len() < u32::MAX,
    ensures
        ({
            let c = builder_const(b, v);
            let i = const_index(b, v) as int;
            &&& 0 <= i < c.constants.len()
            &&& c.constants[i] == v || values_equal(c.constants[i], v)
            &&& c.constants == b.constants || (c.constants == b.constants.push(v) && forall|j: int|
                0 <= j < b.constants.len() ==> !values_equal(#[trigger] b.constants[j], v))
            &&& c.code == b.code
            &&& c.functions == b.functions
        }),
{
    lemma_constant_position(b.constants, v, 0);
}

/// A function is found by its name, the newest of that name.
pub proof fn functions_are_found_by_name(s: Seq<FunctionModel>, name: Seq<char>, n: nat)
    requires
        n <= s.len() <= u32::MAX,
    ensures
        match last_function(s, name, n) {
            Some(i) => i < n && s[i as int].name == name && forall|j: int|
                i < j < n ==> (#[trigger] s[j]).name != name,
            None => forall|j: int| 0 <= j < n ==> (#[trigger] s[j]).name != name,
        },
    decreases n,
{
    if n > 0 && s[n - 1].name != name {
        functions_are_found_by_name(s, name, (n - 1) as nat);
    }
}

/// A module passes exactly if it has a function, every function starts in the
/// code and has its parameters among its registers, and constants, calls,
/// spawns and jumps stay within their tables and the code. One that is not
/// trusted also brings no capability, identity or message.
pub proof fn checks_are_exact(c: Chunk, trust: TrustLevel)
    ensures
        first_defect(c, trust) is None <==> {
            &&& c.functions@.len() > 0
            &&& forall|k: int| 0 <= k < c.constants@.len() ==> #[trigger] harmless(c, trust, k)
            &&& forall|k: int| 0 <= k < c.functions@.len() ==> #[trigger] can_be_entered(c, k)
            &&& forall|k: int| 0 <= k < c.code@.len() ==> #[trigger] stays_inside(c, k)
        },
{
    no_defect_iff_well_formed(c, trust);
    if well_formed(c, trust) {
        assert forall|k: int| 0 <= k < c.constants@.len() implies #[trigger] harmless(
            c,
            trust,
            k,
        ) by {
            let v = c.constants@[k];
        }
        assert forall|k: int| 0 <= k < c.functions@.len() implies #[trigger] can_be_entered(
            c,
            k,
        ) by {
            let d = c.functions@[k];
        }
        assert forall|k: int| 0 <= k < c.code@.len() implies #[trigger] stays_inside(c, k) by {
            let i = c.code@[k];
        }
    }
    if c.functions@.len() > 0 && (forall|k: int|
        0 <= k < c.constants@.len() ==> #[trigger] harmless(c, trust, k)) && (forall|k: int|
        0 <= k < c.functions@.len() ==> #[trigger] can_be_entered(c, k)) && (forall|k: int|
        0 <= k < c.code@.len() ==> #[trigger] stays_inside(c, k)) {
        assert forall|k: int| 0 <= k < c.constants@.len() implies (trust == TrustLevel::Trusted
            || crate::bytecode::verify::authority_kind(#[trigger] c.constants@[k]) is None) by {
            assert(harmless(c, trust, k));
        }
        assert forall|k: int| 0 <= k < c.functions@.len() implies (
        #[trigger] c.functions@[k]).entry < c.code@.len() && c.functions@[k].arity
            <= c.functions@[k].num_registers by {
            assert(can_be_entered(c, k));
        }
        assert forall|k: int| 0 <= k < c.code@.len() implies (match (#[trigger] c.code@[k]).op {
            Opcode::LoadConst => (c.code@[k].imm as u32) as nat <= c.constants@.len() - 1,
            Opcode::Spawn | Opcode::Call => (c.code@[k].imm as u32) as nat <= c.functions@.len()
                - 1,
            Opcode::Jump | Opcode::Branch => 0 <= crate::bytecode::verify::jump_target_of(
                k,
                c.code@[k].imm,
            ) <= c.code@.len(),
            _ => true,
        }) by {
            assert(stays_inside(c, k));
        }
        assert(well_formed(c, trust));
    }
}

/// The constant brings no authority, or the module is trusted.
pub open spec fn harmless(c: Chunk, trust: TrustLevel, k: int) -> bool {
    let v = c.constants@[k];
    trust is Trusted || !(v is Cap || v is Pid || v is Message)
}

/// The function starts in the code and has room for its parameters.
pub open spec fn can_be_entered(c: Chunk, k: int) -> bool {
    c.functions@[k].entry < c.code@.len() && c.functions@[k].arity
        <= c.functions@[k].num_registers
}

/// The instruction names what is there.
pub open spec fn stays_inside(c: Chunk, k: int) -> bool {
    let i = c.code@[k];
    &&& i.op is LoadConst ==> (i.imm as u32) < c.constants@.len()
    &&& i.op is Spawn || i.op is Call ==> (i.imm as u32) < c.functions@.len()
    &&& i.op is Jump || i.op is Branch ==> 0 <= k + 1 + i.imm <= c.code@.len()
}

/// The defect that is reported is the first one: constants come before
/// functions and functions before instructions, each in order.
pub proof fn the_first_defect_is_reported(c: Chunk, trust: TrustLevel)
    requires
        c.functions@.len() <= usize::MAX,
        c.constants@.len() <= usize::MAX,
        c.code@.len() <= usize::MAX,
    ensures
        first_defect(c, trust) matches Some(VerifyError::ForbiddenConstant { index, .. }) ==> index
            < c.constants@.len() && !harmless(c, trust, index as int) && forall|j: int|
            0 <= j < index ==> #[trigger] harmless(c, trust, j),
        first_defect(c, trust) matches Some(VerifyError::EntryOutOfRange { function, .. }) ==> {
            &&& function < c.functions@.len()
            &&& c.functions@[function as int].entry >= c.code@.len()
            &&& forall|j: int| 0 <= j < function ==> #[trigger] can_be_entered(c, j)
            &&& forall|j: int| 0 <= j < c.constants@.len() ==> #[trigger] harmless(c, trust, j)
        },
        first_defect(c, trust) matches Some(VerifyError::ArityExceedsRegisters { function, .. }) ==> {
            &&& function < c.functions@.len()
            &&& c.functions@[function as int].arity
                > c.functions@[function as int].num_registers
            &&& forall|j: int| 0 <= j < function ==> #[trigger] can_be_entered(c, j)
            &&& forall|j: int| 0 <= j < c.constants@.len() ==> #[trigger] harmless(c, trust, j)
        },
        first_defect(c, trust) matches Some(VerifyError::JumpOutOfRange { at, .. }) ==> {
            &&& at < c.code@.len()
            &&& c.code@[at as int].op is Jump || c.code@[at as int].op is Branch
            &&& !stays_inside(c, at as int)
            &&& forall|j: int| 0 <= j < at ==> #[trigger] stays_inside(c, j)
            &&& forall|j: int| 0 <= j < c.functions@.len() ==> #[trigger] can_be_entered(c, j)
        },
        first_defect(c, trust) matches Some(VerifyError::ConstOutOfRange { at, .. }) ==> {
            &&& at < c.code@.len()
            &&& c.code@[at as int].op is LoadConst
            &&& !stays_inside(c, at as int)
            &&& forall|j: int| 0 <= j < at ==> #[trigger] stays_inside(c, j)
        },
        first_defect(c, trust) matches Some(VerifyError::FunctionOutOfRange { at, .. }) ==> {
            &&& at < c.code@.len()
            &&& c.code@[at as int].op is Spawn || c.code@[at as int].op is Call
            &&& !stays_inside(c, at as int)
            &&& forall|j: int| 0 <= j < at ==> #[trigger] stays_inside(c, j)
        },
        first_defect(c, trust) matches Some(VerifyError::EmptyFunctionTable) ==> c.functions@.len()
            == 0,
{
    lemma_first_constant(c, trust, 0);
    lemma_first_function(c, 0);
    lemma_first_instruction(c, 0);
}

proof fn lemma_first_constant(c: Chunk, trust: TrustLevel, from: nat)
    requires
        c.constants@.len() <= usize::MAX,
    ensures
        match first_constant_defect(c.constants@, trust, from) {
            None => forall|j: int|
                from <= j < c.constants@.len() ==> #[trigger] harmless(c, trust, j),
            Some(e) => e matches VerifyError::ForbiddenConstant { index, .. } && from <= index
                < c.constants@.len() && !harmless(c, trust, index as int) && forall|j: int|
                from <= j < index ==> #[trigger] harmless(c, trust, j),
        },
    decreases c.constants@.len() - from,
{
    if from < c.constants@.len() {
        let v = c.constants@[from as int];
        if constant_defect(v, trust, from) is None {
            assert(harmless(c, trust, from as int));
            lemma_first_constant(c, trust, from + 1);
        }
    }
}

proof fn lemma_first_function(c: Chunk, from: nat)
    requires
        c.functions@.len() <= usize::MAX,
    ensures
        match first_function_defect(c.functions@, c.code@.len(), from) {
            None => forall|j: int|
                from <= j < c.functions@.len() ==> #[trigger] can_be_entered(c, j),
            Some(e) => {
                ||| e matches VerifyError::EntryOutOfRange { function, .. } && from <= function
                    < c.functions@.len() && c.functions@[function as int].entry >= c.code@.len()
                    && forall|j: int| from <= j < function ==> #[trigger] can_be_entered(c, j)
                ||| e matches VerifyError::ArityExceedsRegisters { function, .. } && from
                    <= function < c.functions@.len() && c.functions@[function as int].arity
                    > c.functions@[function as int].num_registers && forall|j: int|
                    from <= j < function ==> #[trigger] can_be_entered(c, j)
            },
        },
    decreases c.functions@.len() - from,
{
    if from < c.functions@.len() {
        if function_defect(c.functions@[from as int], from, c.code@.len()) is None {
            assert(can_be_entered(c, from as int));
            lemma_first_function(c, from + 1);
        }
    }
}

proof fn lemma_first_instruction(c: Chunk, from: nat)
    requires
        c.code@.len() <= usize::MAX,
    ensures
        match first_instruction_defect(
            c.code@,
            c.constants@.len(),
            c.functions@.len(),
            from,
        ) {
            None => forall|j: int| from <= j < c.code@.len() ==> #[trigger] stays_inside(c, j),
            Some(e) => exists|at: usize|
                {
                    let op = c.code@[at as int].op;
                    &&& from <= at < c.code@.len()
                    &&& !(#[trigger] stays_inside(c, at as int))
                    &&& forall|j: int| from <= j < at ==> #[trigger] stays_inside(c, j)
                    &&& op is LoadConst ==> (e matches VerifyError::ConstOutOfRange {
                        at: x,
                        ..
                    } && x == at)
                    &&& op is Spawn || op is Call ==> (e matches VerifyError::FunctionOutOfRange {
                        at: x,
                        ..
                    } && x == at)
                    &&& op is Jump || op is Branch ==> (e matches VerifyError::JumpOutOfRange {
                        at: x,
                        ..
                    } && x == at)
                },
        },
    decreases c.code@.len() - from,
{
    if from < c.code@.len() {
        let d = instruction_defect(
            c.code@[from as int],
            from,
            c.constants@.len(),
            c.functions@.len(),
            c.code@.len(),
        );
        if d is None {
            assert(stays_inside(c, from as int));
            lemma_first_instruction(c, from + 1);
            if let Some(e) = first_instruction_defect(
                c.code@,
                c.constants@.len(),
                c.functions@.len(),
                from + 1,
            ) {
                let at = choose|at: usize|
                    {
                        let op = c.code@[at as int].op;
                        &&& from + 1 <= at < c.code@.len()
                        &&& !(#[trigger] stays_inside(c, at as int))
                        &&& forall|j: int| from + 1 <= j < at ==> #[trigger] stays_inside(c, j)
                        &&& op is LoadConst ==> (e matches VerifyError::ConstOutOfRange {
                            at: x,
                            ..
                        } && x == at)
                        &&& op is Spawn || op is Call ==> (
                        e matches VerifyError::FunctionOutOfRange { at: x, .. } && x == at)
                        &&& op is Jump || op is Branch ==> (e matches VerifyError::JumpOutOfRange {
                            at: x,
                            ..
                        } && x == at)
                    };
                assert(!stays_inside(c, at as int));
            }
        } else {
            let at = from as usize;
            assert(!stays_inside(c, at as int));
        }
    }
}

/// A text or a buffer is charged for its bytes beyond the value itself, a
/// message for the value inside, anything else for nothing beyond.
pub proof fn values_are_charged_for_what_they_hold(v: Value, w: Value)
    ensures
        v is Str ==> heap_bytes(v) == vstd::utf8::encode_utf8(v->Str_0@).len(),
        v is Bytes ==> heap_bytes(v) == v->Bytes_0@.len(),
        v is Message ==> heap_bytes(v) == value_bytes(*v->Message_0.payload),
        !(v is Str || v is Bytes || v is Message) ==> heap_bytes(v) == 0,
        value_bytes(v) - heap_bytes(v) == value_bytes(w) - heap_bytes(w),
        value_bytes(Value::Unit) == vstd::layout::size_of::<Value>(),
{
}

/// The number that digits stand for.
pub open spec fn numeral(s: Seq<char>, base: nat) -> int
    decreases s.len(),
{
    if s.len() == 0 {
        0
    } else {
        numeral(s.drop_last(), base) * base + digit_value(s.last())
    }
}

/// The number that a digit stands for.
pub open spec fn digit_value(c: char) -> int {
    if '0' <= c && c <= '9' {
        c as int - '0' as int
    } else if 'a' <= c && c <= 'f' {
        c as int - 'a' as int + 10
    } else {
        -1
    }
}

/// The decimal numeral of a number reads as that number.
pub proof fn numerals_read_back(n: nat)
    ensures
        numeral(dec(n), 10) == n,
        dec(n).len() > 0,
        n > 0 ==> dec(n)[0] != '0',
    decreases n,
{
    if n < 10 {
        assert(dec(n).drop_last() =~= Seq::<char>::empty());
        assert(numeral(Seq::<char>::empty(), 10) == 0);
        assert(digit_value(digit_char(n as int)) == n);
    } else {
        numerals_read_back(n / 10);
        assert(dec(n).drop_last() =~= dec(n / 10));
        assert(digit_value(digit_char((n % 10) as int)) == n % 10);
        assert(dec(n)[0] == dec(n / 10)[0]);
        assert(numeral(dec(n), 10) == numeral(dec(n).drop_last(), 10) * 10 + digit_value(
            dec(n).last(),
        ));
    }
}

} // verus!
