//! Static verification of a module.
//!
//! A verified module has a function table, every entry point, constant index,
//! function index and jump target in range, and no function with more
//! parameters than registers. An untrusted one embeds no authority constant.

use vstd::prelude::*;

use crate::bytecode::chunk::{Chunk, FunctionDef};
use crate::bytecode::instruction::Instruction;
use crate::bytecode::opcode::Opcode;
use crate::bytecode::value::Value;
use crate::text::{
    dec, dec_int, hex_upper, owned, push_hex_upper, push_i64, push_str, push_u64, push_usize,
};

verus! {

/// Whether a module may contain authority-bearing constants.
#[derive(Clone, Copy, Debug, PartialEq, Eq, Structural)]
pub enum TrustLevel {
    Trusted,
    Untrusted,
}

/// Configuration of [`verify_with`].
#[derive(Clone, Copy, Debug, PartialEq, Eq, Structural)]
pub struct VerifyConfig {
    pub trust: TrustLevel,
}

impl Default for VerifyConfig {
    fn default() -> (r: Self)
        ensures
            r.trust == TrustLevel::Untrusted,
    {
        VerifyConfig { trust: TrustLevel::Untrusted }
    }
}

/// Constants that untrusted modules must not embed.
#[derive(Clone, Copy, Debug, PartialEq, Eq, Structural)]
pub enum ConstantKind {
    Capability,
    ProcessId,
    Message,
}

impl ConstantKind {
    pub open spec fn spec_text(self) -> Seq<char> {
        match self {
            ConstantKind::Capability => "capability"@,
            ConstantKind::ProcessId => "pid"@,
            ConstantKind::Message => "message"@,
        }
    }

    pub fn text(&self) -> (r: String)
        ensures
            r@ == self.spec_text(),
    {
        match self {
            ConstantKind::Capability => owned("capability"),
            ConstantKind::ProcessId => owned("pid"),
            ConstantKind::Message => owned("message"),
        }
    }
}

/// Why a module failed verification.
#[derive(Clone, Copy, Debug, PartialEq, Eq, Structural)]
pub enum VerifyError {
    UnknownOpcode { at: usize, byte: u8 },
    ConstOutOfRange { at: usize, index: u32, len: usize },
    FunctionOutOfRange { at: usize, index: u32, len: usize },
    JumpOutOfRange { at: usize, target: i64, len: usize },
    EmptyFunctionTable,
    EntryOutOfRange { function: usize, entry: u32, len: usize },
    ArityExceedsRegisters { function: usize, arity: u8, num_registers: u8 },
    ForbiddenConstant { index: usize, kind: ConstantKind },
}

impl VerifyError {
    pub open spec fn spec_text(self) -> Seq<char> {
        match self {
            VerifyError::UnknownOpcode { at, byte } => "unknown opcode 0x"@ + hex_upper(
                byte as nat,
                2,
            ) + " at instruction "@ + dec(at as nat),
            VerifyError::ConstOutOfRange { at, index, len } => "instruction "@ + dec(at as nat)
                + " references constant "@ + dec(index as nat) + ", pool has "@ + dec(len as nat)
                + " entries"@,
            VerifyError::FunctionOutOfRange { at, index, len } => "instruction "@ + dec(at as nat)
                + " references function "@ + dec(index as nat) + ", table has "@ + dec(len as nat)
                + " entries"@,
            VerifyError::JumpOutOfRange { at, target, len } => "instruction "@ + dec(at as nat)
                + " jumps to "@ + dec_int(target as int) + ", out of code bounds (len="@ + dec(
                len as nat,
            ) + ")"@,
            VerifyError::EmptyFunctionTable => "chunk has no entry function"@,
            VerifyError::EntryOutOfRange { function, entry, len } => "function "@ + dec(
                function as nat,
            ) + " entry point "@ + dec(entry as nat) + " is out of code bounds (len="@ + dec(
                len as nat,
            ) + ")"@,
            VerifyError::ArityExceedsRegisters { function, arity, num_registers } => "function "@
                + dec(function as nat) + " declares arity "@ + dec(arity as nat) + " but only "@
                + dec(num_registers as nat) + " registers"@,
            VerifyError::ForbiddenConstant { index, kind } => "untrusted constant["@ + dec(
                index as nat,
            ) + "] must not embed "@ + kind.spec_text(),
        }
    }

    pub fn text(&self) -> (r: String)
        ensures
            r@ == self.spec_text(),
    {
        match *self {
            VerifyError::UnknownOpcode { at, byte } => {
                let mut s = owned("unknown opcode 0x");
                push_hex_upper(&mut s, byte as u128, 2);
                push_str(&mut s, " at instruction ");
                push_usize(&mut s, at);
                s
            },
            VerifyError::ConstOutOfRange { at, index, len } => {
                let mut s = owned("instruction ");
                push_usize(&mut s, at);
                push_str(&mut s, " references constant ");
                push_u64(&mut s, index as u64);
                push_str(&mut s, ", pool has ");
                push_usize(&mut s, len);
                push_str(&mut s, " entries");
                s
            },
            VerifyError::FunctionOutOfRange { at, index, len } => {
                let mut s = owned("instruction ");
                push_usize(&mut s, at);
                push_str(&mut s, " references function ");
                push_u64(&mut s, index as u64);
                push_str(&mut s, ", table has ");
                push_usize(&mut s, len);
                push_str(&mut s, " entries");
                s
            },
            VerifyError::JumpOutOfRange { at, target, len } => {
                let mut s = owned("instruction ");
                push_usize(&mut s, at);
                push_str(&mut s, " jumps to ");
                push_i64(&mut s, target);
                push_str(&mut s, ", out of code bounds (len=");
                push_usize(&mut s, len);
                push_str(&mut s, ")");
                s
            },
            VerifyError::EmptyFunctionTable => owned("chunk has no entry function"),
            VerifyError::EntryOutOfRange { function, entry, len } => {
                let mut s = owned("function ");
                push_usize(&mut s, function);
                push_str(&mut s, " entry point ");
                push_u64(&mut s, entry as u64);
                push_str(&mut s, " is out of code bounds (len=");
                push_usize(&mut s, len);
                push_str(&mut s, ")");
                s
            },
            VerifyError::ArityExceedsRegisters { function, arity, num_registers } => {
                let mut s = owned("function ");
                push_usize(&mut s, function);
                push_str(&mut s, " declares arity ");
                push_u64(&mut s, arity as u64);
                push_str(&mut s, " but only ");
                push_u64(&mut s, num_registers as u64);
                push_str(&mut s, " registers");
                s
            },
            VerifyError::ForbiddenConstant { index, kind } => {
                let mut s = owned("untrusted constant[");
                push_usize(&mut s, index);
                push_str(&mut s, "] must not embed ");
                push_str(&mut s, kind.text().as_str());
                s
            },
        }
    }
}

/// The kind of authority that a constant carries, if any.
pub open spec fn authority_kind(v: Value) -> Option<ConstantKind> {
    match v {
        Value::Cap(_) => Some(ConstantKind::Capability),
        Value::Pid(_) => Some(ConstantKind::ProcessId),
        Value::Message(_) => Some(ConstantKind::Message),
        _ => None,
    }
}

/// The defect of constant `index`, if any.
pub open spec fn constant_defect(v: Value, trust: TrustLevel, index: nat) -> Option<VerifyError> {
    if trust == TrustLevel::Trusted {
        None
    } else {
        match authority_kind(v) {
            Some(kind) => Some(VerifyError::ForbiddenConstant { index: index as usize, kind }),
            None => None,
        }
    }
}

/// The defect of function `index`, if any.
pub open spec fn function_defect(def: FunctionDef, index: nat, code_len: nat) -> Option<VerifyError> {
    if def.entry >= code_len {
        Some(
            VerifyError::EntryOutOfRange {
                function: index as usize,
                entry: def.entry,
                len: code_len as usize,
            },
        )
    } else if def.arity > def.num_registers {
        Some(
            VerifyError::ArityExceedsRegisters {
                function: index as usize,
                arity: def.arity,
                num_registers: def.num_registers,
            },
        )
    } else {
        None
    }
}

/// Target of a relative jump at instruction `at`.
pub open spec fn jump_target_of(at: int, imm: i32) -> int {
    at + 1 + imm
}

/// The defect of instruction `at`, if any.
pub open spec fn instruction_defect(
    i: Instruction,
    at: nat,
    n_constants: nat,
    n_functions: nat,
    code_len: nat,
) -> Option<VerifyError> {
    match i.op {
        Opcode::LoadConst => if (i.imm as u32) as nat >= n_constants {
            Some(
                VerifyError::ConstOutOfRange {
                    at: at as usize,
                    index: i.imm as u32,
                    len: n_constants as usize,
                },
            )
        } else {
            None
        },
        Opcode::Spawn | Opcode::Call => if (i.imm as u32) as nat >= n_functions {
            Some(
                VerifyError::FunctionOutOfRange {
                    at: at as usize,
                    index: i.imm as u32,
                    len: n_functions as usize,
                },
            )
        } else {
            None
        },
        Opcode::Jump | Opcode::Branch => {
            let target = jump_target_of(at as int, i.imm);
            if target < 0 || target > code_len {
                Some(
                    VerifyError::JumpOutOfRange {
                        at: at as usize,
                        target: target as i64,
                        len: code_len as usize,
                    },
                )
            } else {
                None
            }
        },
        _ => None,
    }
}

/// The first defect among the constants from `from` on.
pub open spec fn first_constant_defect(s: Seq<Value>, trust: TrustLevel, from: nat) -> Option<VerifyError>
    decreases s.len() - from,
{
    if from >= s.len() {
        None
    } else {
        match constant_defect(s[from as int], trust, from) {
            Some(e) => Some(e),
            None => first_constant_defect(s, trust, from + 1),
        }
    }
}

/// The first defect among the functions from `from` on.
pub open spec fn first_function_defect(s: Seq<FunctionDef>, code_len: nat, from: nat) -> Option<VerifyError>
    decreases s.len() - from,
{
    if from >= s.len() {
        None
    } else {
        match function_defect(s[from as int], from, code_len) {
            Some(e) => Some(e),
            None => first_function_defect(s, code_len, from + 1),
        }
    }
}

/// The first defect among the instructions from `from` on.
pub open spec fn first_instruction_defect(
    code: Seq<Instruction>,
    n_constants: nat,
    n_functions: nat,
    from: nat,
) -> Option<VerifyError>
    decreases code.len() - from,
{
    if from >= code.len() {
        None
    } else {
        match instruction_defect(code[from as int], from, n_constants, n_functions, code.len()) {
            Some(e) => Some(e),
            None => first_instruction_defect(code, n_constants, n_functions, from + 1),
        }
    }
}

/// The first defect of a module: an empty function table, then constants,
/// then functions, then instructions, each in order.
pub open spec fn first_defect(c: Chunk, trust: TrustLevel) -> Option<VerifyError> {
    if c.functions@.len() == 0 {
        Some(VerifyError::EmptyFunctionTable)
    } else {
        match first_constant_defect(c.constants@, trust, 0) {
            Some(e) => Some(e),
            None => match first_function_defect(c.functions@, c.code@.len(), 0) {
                Some(e) => Some(e),
                None => first_instruction_defect(
                    c.code@,
                    c.constants@.len(),
                    c.functions@.len(),
                    0,
                ),
            },
        }
    }
}

/// What the interpreter may rely on in a verified module.
pub open spec fn well_formed(c: Chunk, trust: TrustLevel) -> bool {
    &&& c.functions@.len() > 0
    &&& forall|k: int|
        0 <= k < c.constants@.len() ==> (trust == TrustLevel::Trusted || authority_kind(
            #[trigger] c.constants@[k],
        ) is None)
    &&& forall|k: int|
        0 <= k < c.functions@.len() ==> (#[trigger] c.functions@[k]).entry < c.code@.len()
            && c.functions@[k].arity <= c.functions@[k].num_registers
    &&& forall|k: int|
        0 <= k < c.code@.len() ==> (match (#[trigger] c.code@[k]).op {
            Opcode::LoadConst => (c.code@[k].imm as u32) as nat <= c.constants@.len() - 1,
            Opcode::Spawn | Opcode::Call => (c.code@[k].imm as u32) as nat <= c.functions@.len()
                - 1,
            Opcode::Jump | Opcode::Branch => 0 <= jump_target_of(k, c.code@[k].imm)
                <= c.code@.len(),
            _ => true,
        })
}

proof fn lemma_constants(s: Seq<Value>, trust: TrustLevel, from: nat)
    ensures
        first_constant_defect(s, trust, from) is None <==> forall|k: int|
            from <= k < s.len() ==> (trust == TrustLevel::Trusted || authority_kind(
                #[trigger] s[k],
            ) is None),
    decreases s.len() - from,
{
    if from < s.len() {
        lemma_constants(s, trust, from + 1);
        if first_constant_defect(s, trust, from) is None {
            assert forall|k: int| from <= k < s.len() implies (trust == TrustLevel::Trusted
                || authority_kind(#[trigger] s[k]) is None) by {
                if k == from {
                    assert(constant_defect(s[from as int], trust, from) is None);
                }
            }
        } else {
            if constant_defect(s[from as int], trust, from) is Some {
                assert(authority_kind(s[from as int]) is Some);
            }
        }
    }
}

proof fn lemma_functions(s: Seq<FunctionDef>, code_len: nat, from: nat)
    ensures
        first_function_defect(s, code_len, from) is None <==> forall|k: int|
            from <= k < s.len() ==> (#[trigger] s[k]).entry < code_len && s[k].arity
                <= s[k].num_registers,
    decreases s.len() - from,
{
    if from < s.len() {
        lemma_functions(s, code_len, from + 1);
        if first_function_defect(s, code_len, from) is None {
            assert forall|k: int| from <= k < s.len() implies (#[trigger] s[k]).entry < code_len
                && s[k].arity <= s[k].num_registers by {
                if k == from {
                    assert(function_defect(s[from as int], from, code_len) is None);
                }
            }
        } else {
            if function_defect(s[from as int], from, code_len) is Some {
                assert(s[from as int].entry >= code_len || s[from as int].arity
                    > s[from as int].num_registers);
            }
        }
    }
}

spec fn operand_in_range(c: Seq<Instruction>, k: int, nc: nat, nf: nat) -> bool {
    match c[k].op {
        Opcode::LoadConst => (c[k].imm as u32) as nat <= nc - 1,
        Opcode::Spawn | Opcode::Call => (c[k].imm as u32) as nat <= nf - 1,
        Opcode::Jump | Opcode::Branch => 0 <= jump_target_of(k, c[k].imm) <= c.len(),
        _ => true,
    }
}

proof fn lemma_instructions(c: Seq<Instruction>, nc: nat, nf: nat, from: nat)
    ensures
        first_instruction_defect(c, nc, nf, from) is None <==> forall|k: int|
            from <= k < c.len() ==> #[trigger] operand_in_range(c, k, nc, nf),
    decreases c.len() - from,
{
    if from < c.len() {
        lemma_instructions(c, nc, nf, from + 1);
        assert(instruction_defect(c[from as int], from, nc, nf, c.len()) is None
            <==> operand_in_range(c, from as int, nc, nf));
    }
}

/// A module has no defect iff it is well formed.
pub proof fn no_defect_iff_well_formed(c: Chunk, trust: TrustLevel)
    ensures
        first_defect(c, trust) is None <==> well_formed(c, trust),
{
    lemma_constants(c.constants@, trust, 0);
    lemma_functions(c.functions@, c.code@.len(), 0);
    lemma_instructions(c.code@, c.constants@.len(), c.functions@.len(), 0);
    let code = c.code@;
    let nc = c.constants@.len();
    let nf = c.functions@.len();
    if well_formed(c, trust) {
        assert forall|k: int| 0 <= k < code.len() implies #[trigger] operand_in_range(
            code,
            k,
            nc,
            nf,
        ) by {
            assert(code[k] == c.code@[k]);
        }
    }
    if first_defect(c, trust) is None {
        assert forall|k: int| 0 <= k < c.code@.len() implies (match (#[trigger] c.code@[k]).op {
            Opcode::LoadConst => (c.code@[k].imm as u32) as nat <= c.constants@.len() - 1,
            Opcode::Spawn | Opcode::Call => (c.code@[k].imm as u32) as nat <= c.functions@.len()
                - 1,
            Opcode::Jump | Opcode::Branch => 0 <= jump_target_of(k, c.code@[k].imm)
                <= c.code@.len(),
            _ => true,
        }) by {
            assert(operand_in_range(code, k, nc, nf));
        }
    }
}

/// What is well formed for untrusted loading is well formed for trusted.
pub proof fn untrusted_implies_trusted(c: Chunk)
    requires
        well_formed(c, TrustLevel::Untrusted),
    ensures
        well_formed(c, TrustLevel::Trusted),
{
}

/// Check one constant.
fn validate_constant(value: &Value, trust: TrustLevel, index: usize) -> (r: Result<(), VerifyError>)
    ensures
        match r {
            Ok(_) => constant_defect(*value, trust, index as nat) is None,
            Err(e) => constant_defect(*value, trust, index as nat) == Some(e),
        },
{
    if trust == TrustLevel::Trusted {
        return Ok(());
    }
    match value {
        Value::Cap(_) => Err(
            VerifyError::ForbiddenConstant { index, kind: ConstantKind::Capability },
        ),
        Value::Pid(_) => Err(
            VerifyError::ForbiddenConstant { index, kind: ConstantKind::ProcessId },
        ),
        Value::Message(_) => Err(
            VerifyError::ForbiddenConstant { index, kind: ConstantKind::Message },
        ),
        _ => Ok(()),
    }
}

/// Check one function.
fn validate_function(def: &FunctionDef, index: usize, len: usize) -> (r: Result<(), VerifyError>)
    ensures
        match r {
            Ok(_) => function_defect(*def, index as nat, len as nat) is None,
            Err(e) => function_defect(*def, index as nat, len as nat) == Some(e),
        },
{
    if def.entry as usize >= len {
        return Err(VerifyError::EntryOutOfRange { function: index, entry: def.entry, len });
    }
    if def.arity > def.num_registers {
        return Err(
            VerifyError::ArityExceedsRegisters {
                function: index,
                arity: def.arity,
                num_registers: def.num_registers,
            },
        );
    }
    Ok(())
}

/// Check one instruction.
fn validate_instruction(
    i: Instruction,
    at: usize,
    n_constants: usize,
    n_functions: usize,
    len: usize,
) -> (r: Result<(), VerifyError>)
    ensures
        match r {
            Ok(_) => instruction_defect(
                i,
                at as nat,
                n_constants as nat,
                n_functions as nat,
                len as nat,
            ) is None,
            Err(e) => instruction_defect(
                i,
                at as nat,
                n_constants as nat,
                n_functions as nat,
                len as nat,
            ) == Some(e),
        },
{
    match i.op {
        Opcode::LoadConst => {
            let index: u32 = i.imm as u32;
            if index as usize >= n_constants {
                return Err(VerifyError::ConstOutOfRange { at, index, len: n_constants });
            }
        },
        Opcode::Spawn | Opcode::Call => {
            let index: u32 = i.imm as u32;
            if index as usize >= n_functions {
                return Err(VerifyError::FunctionOutOfRange { at, index, len: n_functions });
            }
        },
        Opcode::Jump | Opcode::Branch => {
            let target: i128 = at as i128 + 1 + i.imm as i128;
            if target < 0 || target > len as i128 {
                return Err(VerifyError::JumpOutOfRange { at, target: target as i64, len });
            }
        },
        _ => {},
    }
    Ok(())
}

/// Verify an untrusted module.
pub fn verify(chunk: &Chunk) -> (r: Result<(), VerifyError>)
    ensures
        r is Ok <==> well_formed(*chunk, TrustLevel::Untrusted),
        match r {
            Ok(_) => first_defect(*chunk, TrustLevel::Untrusted) is None,
            Err(e) => first_defect(*chunk, TrustLevel::Untrusted) == Some(e),
        },
{
    verify_with(chunk, VerifyConfig::default())
}

/// Verify a module at an explicit trust level: success iff it is well
/// formed, and otherwise its first defect.
pub fn verify_with(chunk: &Chunk, config: VerifyConfig) -> (r: Result<(), VerifyError>)
    ensures
        r is Ok <==> well_formed(*chunk, config.trust),
        match r {
            Ok(_) => first_defect(*chunk, config.trust) is None,
            Err(e) => first_defect(*chunk, config.trust) == Some(e),
        },
{
    proof {
        no_defect_iff_well_formed(*chunk, config.trust);
    }
    if chunk.functions.len() == 0 {
        return Err(VerifyError::EmptyFunctionTable);
    }
    let mut k: usize = 0;
    while k < chunk.constants.len()
        invariant
            k <= chunk.constants@.len(),
            chunk.functions@.len() > 0,
            first_constant_defect(chunk.constants@, config.trust, 0) == first_constant_defect(
                chunk.constants@,
                config.trust,
                k as nat,
            ),
            first_defect(*chunk, config.trust) is None <==> well_formed(*chunk, config.trust),
        decreases chunk.constants@.len() - k,
    {
        if let Err(e) = validate_constant(&chunk.constants[k], config.trust, k) {
            return Err(e);
        }
        k += 1;
    }
    let len: usize = chunk.code.len();
    let mut f: usize = 0;
    while f < chunk.functions.len()
        invariant
            f <= chunk.functions@.len(),
            len == chunk.code@.len(),
            chunk.functions@.len() > 0,
            first_constant_defect(chunk.constants@, config.trust, 0) is None,
            first_function_defect(chunk.functions@, len as nat, 0) == first_function_defect(
                chunk.functions@,
                len as nat,
                f as nat,
            ),
            first_defect(*chunk, config.trust) is None <==> well_formed(*chunk, config.trust),
        decreases chunk.functions@.len() - f,
    {
        if let Err(e) = validate_function(&chunk.functions[f], f, len) {
            return Err(e);
        }
        f += 1;
    }
    let mut at: usize = 0;
    while at < chunk.code.len()
        invariant
            at <= chunk.code@.len(),
            len == chunk.code@.len(),
            chunk.functions@.len() > 0,
            first_constant_defect(chunk.constants@, config.trust, 0) is None,
            first_function_defect(chunk.functions@, len as nat, 0) is None,
            first_instruction_defect(
                chunk.code@,
                chunk.constants@.len(),
                chunk.functions@.len(),
                0,
            ) == first_instruction_defect(
                chunk.code@,
                chunk.constants@.len(),
                chunk.functions@.len(),
                at as nat,
            ),
            first_defect(*chunk, config.trust) is None <==> well_formed(*chunk, config.trust),
        decreases chunk.code@.len() - at,
    {
        if let Err(e) = validate_instruction(
            chunk.code[at],
            at,
            chunk.constants.len(),
            chunk.functions.len(),
            len,
        ) {
            return Err(e);
        }
        at += 1;
    }
    Ok(())
}

} // verus!
