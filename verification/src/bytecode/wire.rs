//! The module format as mathematics: what a module encodes to, what a byte
//! string decodes to, and that decoding undoes encoding.

use vstd::prelude::*;
use vstd::bytes::{
    lemma_auto_spec_u128_to_from_le_bytes, lemma_auto_spec_u16_to_from_le_bytes,
    lemma_auto_spec_u32_to_from_le_bytes, lemma_auto_spec_u64_to_from_le_bytes,
    spec_u128_from_le_bytes, spec_u128_to_le_bytes, spec_u16_from_le_bytes, spec_u16_to_le_bytes,
    spec_u32_from_le_bytes, spec_u32_to_le_bytes, spec_u64_from_le_bytes, spec_u64_to_le_bytes,
};
use vstd::utf8::{
    decode_utf8, encode_utf8, encode_utf8_decode_utf8, encode_utf8_valid_utf8, valid_utf8,
};

use crate::bytecode::cap::CapId;
use crate::bytecode::chunk::{Chunk, FunctionDef, ABI_VERSION};
use crate::bytecode::instruction::Instruction;
use crate::bytecode::opcode::{opcode_byte, opcode_of, opcode_round_trip};
use crate::bytecode::value::Value;
use crate::bytecode::verify::{ConstantKind, TrustLevel};

verus! {

/// Longest name, in bytes.
pub const MAX_NAME: u32 = 65_536;
/// Most constants, functions or instructions.
pub const MAX_ITEMS: u32 = 1_000_000;
/// Longest string or buffer constant, in bytes.
pub const MAX_BLOB: u32 = 1_048_576;
/// Deepest nesting of message payloads.
pub const MAX_VALUE_DEPTH: u32 = 16;

/// Why a byte string is not a module.
#[derive(Clone, Copy, Debug, PartialEq, Eq)]
pub enum FormatError {
    BadMagic { found: [u8; 4] },
    UnsupportedAbi(u32),
    Truncated,
    LimitExceeded { what: &'static str, got: u32 },
    BadUtf8,
    UnknownValueTag(u8),
    UnknownOpcode { at: usize, byte: u8 },
    ForbiddenConstant(ConstantKind),
    ValueTooNested,
}

/// Mathematical model of a value: shared strings and buffers by content.
pub ghost enum ValueModel {
    Unit,
    Bool(bool),
    Int(i64),
    Float(u64),
    Pid(u64),
    Message { sender: u64, reply_cap: CapId, request_id: u64, tag: u16, payload: Box<ValueModel> },
    Cap(CapId),
    Str(Seq<char>),
    Bytes(Seq<u8>),
}

/// Model of a function-table entry.
pub ghost struct FunctionModel {
    pub name: Seq<char>,
    pub entry: u32,
    pub arity: u8,
    pub num_registers: u8,
}

/// Model of a module.
pub ghost struct ChunkModel {
    pub name: Seq<char>,
    pub constants: Seq<ValueModel>,
    pub functions: Seq<FunctionModel>,
    pub code: Seq<Instruction>,
}

/// The model of a value.
pub open spec fn value_model(v: Value) -> ValueModel
    decreases v,
{
    match v {
        Value::Unit => ValueModel::Unit,
        Value::Bool(b) => ValueModel::Bool(b),
        Value::Int(i) => ValueModel::Int(i),
        Value::Float(x) => ValueModel::Float(x),
        Value::Pid(p) => ValueModel::Pid(p),
        Value::Message(m) => ValueModel::Message {
            sender: m.sender,
            reply_cap: m.reply_cap,
            request_id: m.request_id,
            tag: m.tag,
            payload: Box::new(value_model(*m.payload)),
        },
        Value::Cap(c) => ValueModel::Cap(c),
        Value::Str(s) => ValueModel::Str(s@),
        Value::Bytes(b) => ValueModel::Bytes(b@),
    }
}

/// The model of a function-table entry.
pub open spec fn function_model(d: FunctionDef) -> FunctionModel {
    FunctionModel {
        name: d.name@,
        entry: d.entry,
        arity: d.arity,
        num_registers: d.num_registers,
    }
}

/// The models of a list of values.
pub open spec fn value_models(s: Seq<Value>) -> Seq<ValueModel> {
    Seq::new(s.len(), |i: int| value_model(s[i]))
}

/// The models of a function table.
pub open spec fn function_models(s: Seq<FunctionDef>) -> Seq<FunctionModel> {
    Seq::new(s.len(), |i: int| function_model(s[i]))
}

/// The model of a module.
pub open spec fn chunk_model(c: Chunk) -> ChunkModel {
    ChunkModel {
        name: c.name@,
        constants: value_models(c.constants@),
        functions: function_models(c.functions@),
        code: c.code@,
    }
}

// ---- encoding ---------------------------------------------------------------

/// Length-prefixed bytes.
pub open spec fn enc_blob(b: Seq<u8>) -> Seq<u8> {
    spec_u32_to_le_bytes(b.len() as u32) + b
}

/// Length-prefixed UTF-8.
pub open spec fn enc_str(s: Seq<char>) -> Seq<u8> {
    enc_blob(encode_utf8(s))
}

/// Encoding of a value: its wire tag and its contents.
pub open spec fn enc_value(v: ValueModel) -> Seq<u8>
    decreases v,
{
    match v {
        ValueModel::Unit => seq![0u8],
        ValueModel::Bool(b) => seq![1u8, if b { 1u8 } else { 0u8 }],
        ValueModel::Int(i) => seq![2u8] + spec_u64_to_le_bytes(i as u64),
        ValueModel::Float(x) => seq![3u8] + spec_u64_to_le_bytes(x),
        ValueModel::Pid(p) => seq![4u8] + spec_u64_to_le_bytes(p),
        ValueModel::Message { sender, reply_cap, request_id, tag, payload } => seq![5u8]
            + spec_u64_to_le_bytes(sender) + spec_u128_to_le_bytes(reply_cap.raw)
            + spec_u64_to_le_bytes(request_id) + spec_u16_to_le_bytes(tag) + enc_value(*payload),
        ValueModel::Cap(c) => seq![6u8] + spec_u128_to_le_bytes(c.raw),
        ValueModel::Str(s) => seq![7u8] + enc_blob(encode_utf8(s)),
        ValueModel::Bytes(b) => seq![8u8] + enc_blob(b),
    }
}

/// Encoding of a function-table entry.
pub open spec fn enc_function(f: FunctionModel) -> Seq<u8> {
    enc_str(f.name) + spec_u32_to_le_bytes(f.entry) + seq![f.arity, f.num_registers]
}

/// Encoding of an instruction.
pub open spec fn enc_instruction(i: Instruction) -> Seq<u8> {
    seq![opcode_byte(i.op), i.a, i.b, i.c] + spec_u32_to_le_bytes(i.imm as u32)
}

/// Concatenated encodings of values.
pub open spec fn enc_values(s: Seq<ValueModel>) -> Seq<u8>
    decreases s.len(),
{
    if s.len() == 0 {
        Seq::empty()
    } else {
        enc_value(s[0]) + enc_values(s.drop_first())
    }
}

/// Concatenated encodings of functions.
pub open spec fn enc_functions(s: Seq<FunctionModel>) -> Seq<u8>
    decreases s.len(),
{
    if s.len() == 0 {
        Seq::empty()
    } else {
        enc_function(s[0]) + enc_functions(s.drop_first())
    }
}

/// Concatenated encodings of instructions.
pub open spec fn enc_code(s: Seq<Instruction>) -> Seq<u8>
    decreases s.len(),
{
    if s.len() == 0 {
        Seq::empty()
    } else {
        enc_instruction(s[0]) + enc_code(s.drop_first())
    }
}

/// The four magic bytes.
pub open spec fn magic() -> Seq<u8> {
    seq![0x42u8, 0x46u8, 0x56u8, 0x30u8]
}

/// Encoding of a module behind its header.
pub open spec fn enc_body(c: ChunkModel) -> Seq<u8> {
    enc_str(c.name) + (spec_u32_to_le_bytes(c.constants.len() as u32) + (enc_values(c.constants)
        + (spec_u32_to_le_bytes(c.functions.len() as u32) + (enc_functions(c.functions) + (
    spec_u32_to_le_bytes(c.code.len() as u32) + enc_code(c.code))))))
}

/// Encoding of a module: magic, format version, body.
pub open spec fn enc_chunk(c: ChunkModel) -> Seq<u8> {
    magic() + (spec_u32_to_le_bytes(ABI_VERSION) + enc_body(c))
}

// ---- decoding ---------------------------------------------------------------

/// Result of decoding one item: the item and the bytes after it.
pub type Decoded<T> = Result<(T, Seq<u8>), FormatError>;

/// The next `n` bytes.
pub open spec fn dec_take(s: Seq<u8>, n: nat) -> Decoded<Seq<u8>> {
    if s.len() < n {
        Err(FormatError::Truncated)
    } else {
        Ok((s.take(n as int), s.skip(n as int)))
    }
}

/// One byte.
pub open spec fn dec_u8(s: Seq<u8>) -> Decoded<u8> {
    match dec_take(s, 1) {
        Ok((b, t)) => Ok((b[0], t)),
        Err(e) => Err(e),
    }
}

/// A little-endian 16-bit word.
pub open spec fn dec_u16(s: Seq<u8>) -> Decoded<u16> {
    match dec_take(s, 2) {
        Ok((b, t)) => Ok((spec_u16_from_le_bytes(b), t)),
        Err(e) => Err(e),
    }
}

/// A little-endian 32-bit word.
pub open spec fn dec_u32(s: Seq<u8>) -> Decoded<u32> {
    match dec_take(s, 4) {
        Ok((b, t)) => Ok((spec_u32_from_le_bytes(b), t)),
        Err(e) => Err(e),
    }
}

/// A little-endian 64-bit word.
pub open spec fn dec_u64(s: Seq<u8>) -> Decoded<u64> {
    match dec_take(s, 8) {
        Ok((b, t)) => Ok((spec_u64_from_le_bytes(b), t)),
        Err(e) => Err(e),
    }
}

/// A little-endian 128-bit word.
pub open spec fn dec_u128(s: Seq<u8>) -> Decoded<u128> {
    match dec_take(s, 16) {
        Ok((b, t)) => Ok((spec_u128_from_le_bytes(b), t)),
        Err(e) => Err(e),
    }
}

/// An item count, refused above [`MAX_ITEMS`].
pub open spec fn dec_count(s: Seq<u8>, what: &'static str) -> Decoded<u32> {
    match dec_u32(s) {
        Err(e) => Err(e),
        Ok((n, t)) => if n > MAX_ITEMS {
            Err(FormatError::LimitExceeded { what, got: n })
        } else {
            Ok((n, t))
        },
    }
}

/// Length-prefixed bytes, refused above `limit`.
pub open spec fn dec_blob(s: Seq<u8>, what: &'static str, limit: u32) -> Decoded<Seq<u8>> {
    match dec_u32(s) {
        Err(e) => Err(e),
        Ok((n, t)) => if n > limit {
            Err(FormatError::LimitExceeded { what, got: n })
        } else {
            dec_take(t, n as nat)
        },
    }
}

/// Length-prefixed UTF-8.
pub open spec fn dec_text(s: Seq<u8>, what: &'static str, limit: u32) -> Decoded<Seq<char>> {
    match dec_blob(s, what, limit) {
        Err(e) => Err(e),
        Ok((b, t)) => if valid_utf8(b) {
            Ok((decode_utf8(b), t))
        } else {
            Err(FormatError::BadUtf8)
        },
    }
}

/// A name.
pub open spec fn dec_name(s: Seq<u8>) -> Decoded<Seq<char>> {
    dec_text(s, "name", MAX_NAME)
}

/// A value at nesting depth `depth`. Untrusted input is refused at the tag
/// of an authority value, before its contents are read.
pub open spec fn dec_value(s: Seq<u8>, trust: TrustLevel, depth: nat) -> Decoded<ValueModel>
    decreases MAX_VALUE_DEPTH + 1 - depth,
{
    if depth > MAX_VALUE_DEPTH {
        Err(FormatError::ValueTooNested)
    } else {
        match dec_u8(s) {
            Err(e) => Err(e),
            Ok((tag, t)) => if tag == 0 {
                Ok((ValueModel::Unit, t))
            } else if tag == 1 {
                match dec_u8(t) {
                    Err(e) => Err(e),
                    Ok((b, u)) => Ok((ValueModel::Bool(b != 0), u)),
                }
            } else if tag == 2 {
                match dec_u64(t) {
                    Err(e) => Err(e),
                    Ok((x, u)) => Ok((ValueModel::Int(x as i64), u)),
                }
            } else if tag == 3 {
                match dec_u64(t) {
                    Err(e) => Err(e),
                    Ok((x, u)) => Ok((ValueModel::Float(x), u)),
                }
            } else if tag == 4 {
                if trust == TrustLevel::Untrusted {
                    Err(FormatError::ForbiddenConstant(ConstantKind::ProcessId))
                } else {
                    match dec_u64(t) {
                        Err(e) => Err(e),
                        Ok((x, u)) => Ok((ValueModel::Pid(x), u)),
                    }
                }
            } else if tag == 5 {
                if trust == TrustLevel::Untrusted {
                    Err(FormatError::ForbiddenConstant(ConstantKind::Message))
                } else {
                    dec_message(t, trust, depth)
                }
            } else if tag == 6 {
                if trust == TrustLevel::Untrusted {
                    Err(FormatError::ForbiddenConstant(ConstantKind::Capability))
                } else {
                    match dec_u128(t) {
                        Err(e) => Err(e),
                        Ok((x, u)) => Ok((ValueModel::Cap(CapId { raw: x }), u)),
                    }
                }
            } else if tag == 7 {
                match dec_text(t, "str", MAX_BLOB) {
                    Err(e) => Err(e),
                    Ok((x, u)) => Ok((ValueModel::Str(x), u)),
                }
            } else if tag == 8 {
                match dec_blob(t, "bytes", MAX_BLOB) {
                    Err(e) => Err(e),
                    Ok((x, u)) => Ok((ValueModel::Bytes(x), u)),
                }
            } else {
                Err(FormatError::UnknownValueTag(tag))
            },
        }
    }
}

/// The contents of a message value.
pub open spec fn dec_message(s: Seq<u8>, trust: TrustLevel, depth: nat) -> Decoded<ValueModel>
    decreases MAX_VALUE_DEPTH + 1 - depth, 0nat,
    when depth <= MAX_VALUE_DEPTH
{
    match dec_u64(s) {
        Err(e) => Err(e),
        Ok((sender, s1)) => match dec_u128(s1) {
            Err(e) => Err(e),
            Ok((cap, s2)) => match dec_u64(s2) {
                Err(e) => Err(e),
                Ok((request_id, s3)) => match dec_u16(s3) {
                    Err(e) => Err(e),
                    Ok((tag, s4)) => match dec_value(s4, trust, depth + 1) {
                        Err(e) => Err(e),
                        Ok((payload, s5)) => Ok(
                            (
                                ValueModel::Message {
                                    sender,
                                    reply_cap: CapId { raw: cap },
                                    request_id,
                                    tag,
                                    payload: Box::new(payload),
                                },
                                s5,
                            ),
                        ),
                    },
                },
            },
        },
    }
}

/// A function-table entry.
pub open spec fn dec_function(s: Seq<u8>) -> Decoded<FunctionModel> {
    match dec_name(s) {
        Err(e) => Err(e),
        Ok((name, s1)) => match dec_u32(s1) {
            Err(e) => Err(e),
            Ok((entry, s2)) => match dec_u8(s2) {
                Err(e) => Err(e),
                Ok((arity, s3)) => match dec_u8(s3) {
                    Err(e) => Err(e),
                    Ok((num_registers, s4)) => Ok(
                        (FunctionModel { name, entry, arity, num_registers }, s4),
                    ),
                },
            },
        },
    }
}

/// Instruction number `at`.
pub open spec fn dec_instruction(s: Seq<u8>, at: nat) -> Decoded<Instruction> {
    match dec_u8(s) {
        Err(e) => Err(e),
        Ok((byte, s1)) => match opcode_of(byte) {
            None => Err(FormatError::UnknownOpcode { at: at as usize, byte }),
            Some(op) => match dec_u8(s1) {
                Err(e) => Err(e),
                Ok((a, s2)) => match dec_u8(s2) {
                    Err(e) => Err(e),
                    Ok((b, s3)) => match dec_u8(s3) {
                        Err(e) => Err(e),
                        Ok((c, s4)) => match dec_u32(s4) {
                            Err(e) => Err(e),
                            Ok((imm, s5)) => Ok((Instruction { op, a, b, c, imm: imm as i32 }, s5)),
                        },
                    },
                },
            },
        },
    }
}

/// `head` followed by the items of `rest`.
pub open spec fn prepend<T>(head: Seq<T>, rest: Decoded<Seq<T>>) -> Decoded<Seq<T>> {
    match rest {
        Ok((items, s)) => Ok((head + items, s)),
        Err(e) => Err(e),
    }
}

/// `n` values in a row.
pub open spec fn dec_values(s: Seq<u8>, n: nat, trust: TrustLevel) -> Decoded<Seq<ValueModel>>
    decreases n,
{
    if n == 0 {
        Ok((Seq::empty(), s))
    } else {
        match dec_value(s, trust, 0) {
            Err(e) => Err(e),
            Ok((v, t)) => prepend(seq![v], dec_values(t, (n - 1) as nat, trust)),
        }
    }
}

/// `n` functions in a row.
pub open spec fn dec_functions(s: Seq<u8>, n: nat) -> Decoded<Seq<FunctionModel>>
    decreases n,
{
    if n == 0 {
        Ok((Seq::empty(), s))
    } else {
        match dec_function(s) {
            Err(e) => Err(e),
            Ok((v, t)) => prepend(seq![v], dec_functions(t, (n - 1) as nat)),
        }
    }
}

/// `n` instructions in a row, the first of them numbered `at`.
pub open spec fn dec_code(s: Seq<u8>, n: nat, at: nat) -> Decoded<Seq<Instruction>>
    decreases n,
{
    if n == 0 {
        Ok((Seq::empty(), s))
    } else {
        match dec_instruction(s, at) {
            Err(e) => Err(e),
            Ok((v, t)) => prepend(seq![v], dec_code(t, (n - 1) as nat, at + 1)),
        }
    }
}

/// The module that a byte string holds. Bytes after it are ignored.
pub open spec fn dec_chunk(s: Seq<u8>, trust: TrustLevel) -> Result<ChunkModel, FormatError> {
    match dec_take(s, 4) {
        Err(e) => Err(e),
        Ok((found, s0)) => if found != magic() {
            Err(FormatError::BadMagic { found: [found[0], found[1], found[2], found[3]] })
        } else {
            match dec_u32(s0) {
                Err(e) => Err(e),
                Ok((abi, s1)) => if abi != ABI_VERSION {
                    Err(FormatError::UnsupportedAbi(abi))
                } else {
                    dec_body(s1, trust)
                },
            }
        },
    }
}

/// The part of a module behind its header.
#[verifier::opaque]
pub open spec fn dec_body(s: Seq<u8>, trust: TrustLevel) -> Result<ChunkModel, FormatError> {
    match dec_name(s) {
        Err(e) => Err(e),
        Ok((name, s1)) => match dec_count(s1, "constants") {
            Err(e) => Err(e),
            Ok((nc, s2)) => match dec_values(s2, nc as nat, trust) {
                Err(e) => Err(e),
                Ok((constants, s3)) => match dec_count(s3, "functions") {
                    Err(e) => Err(e),
                    Ok((nf, s4)) => match dec_functions(s4, nf as nat) {
                        Err(e) => Err(e),
                        Ok((functions, s5)) => match dec_count(s5, "code") {
                            Err(e) => Err(e),
                            Ok((ni, s6)) => match dec_code(s6, ni as nat, 0) {
                                Err(e) => Err(e),
                                Ok((code, _)) => Ok(
                                    ChunkModel { name, constants, functions, code },
                                ),
                            },
                        },
                    },
                },
            },
        },
    }
}

// ---- round trip -------------------------------------------------------------

/// Whether a value, at nesting depth `depth`, is within the decoder limits.
pub open spec fn value_fits(v: ValueModel, trust: TrustLevel, depth: nat) -> bool
    decreases v,
{
    &&& depth <= MAX_VALUE_DEPTH
    &&& match v {
        ValueModel::Pid(_) | ValueModel::Cap(_) => trust == TrustLevel::Trusted,
        ValueModel::Message { payload, .. } => trust == TrustLevel::Trusted && value_fits(
            *payload,
            trust,
            depth + 1,
        ),
        ValueModel::Str(s) => encode_utf8(s).len() <= MAX_BLOB,
        ValueModel::Bytes(b) => b.len() <= MAX_BLOB,
        _ => true,
    }
}

/// Whether a module is within the decoder limits at a trust level.
pub open spec fn chunk_fits(c: ChunkModel, trust: TrustLevel) -> bool {
    &&& encode_utf8(c.name).len() <= MAX_NAME
    &&& c.constants.len() <= MAX_ITEMS
    &&& c.functions.len() <= MAX_ITEMS
    &&& c.code.len() <= MAX_ITEMS
    &&& forall|i: int| 0 <= i < c.constants.len() ==> value_fits(#[trigger] c.constants[i], trust, 0)
    &&& forall|i: int|
        0 <= i < c.functions.len() ==> encode_utf8((#[trigger] c.functions[i]).name).len()
            <= MAX_NAME
}

proof fn lemma_take(b: Seq<u8>, rest: Seq<u8>)
    ensures
        dec_take(b + rest, b.len()) == Ok::<_, FormatError>((b, rest)),
{
    assert((b + rest).take(b.len() as int) =~= b);
    assert((b + rest).skip(b.len() as int) =~= rest);
}

proof fn lemma_u8(x: u8, rest: Seq<u8>)
    ensures
        dec_u8(seq![x] + rest) == Ok::<_, FormatError>((x, rest)),
{
    lemma_take(seq![x], rest);
}

proof fn lemma_u16(x: u16, rest: Seq<u8>)
    ensures
        dec_u16(spec_u16_to_le_bytes(x) + rest) == Ok::<_, FormatError>((x, rest)),
        spec_u16_to_le_bytes(x).len() == 2,
{
    lemma_auto_spec_u16_to_from_le_bytes();
    lemma_take(spec_u16_to_le_bytes(x), rest);
}

proof fn lemma_u32(x: u32, rest: Seq<u8>)
    ensures
        dec_u32(spec_u32_to_le_bytes(x) + rest) == Ok::<_, FormatError>((x, rest)),
        spec_u32_to_le_bytes(x).len() == 4,
{
    lemma_auto_spec_u32_to_from_le_bytes();
    lemma_take(spec_u32_to_le_bytes(x), rest);
}

proof fn lemma_u64(x: u64, rest: Seq<u8>)
    ensures
        dec_u64(spec_u64_to_le_bytes(x) + rest) == Ok::<_, FormatError>((x, rest)),
        spec_u64_to_le_bytes(x).len() == 8,
{
    lemma_auto_spec_u64_to_from_le_bytes();
    lemma_take(spec_u64_to_le_bytes(x), rest);
}

proof fn lemma_u128(x: u128, rest: Seq<u8>)
    ensures
        dec_u128(spec_u128_to_le_bytes(x) + rest) == Ok::<_, FormatError>((x, rest)),
        spec_u128_to_le_bytes(x).len() == 16,
{
    lemma_auto_spec_u128_to_from_le_bytes();
    lemma_take(spec_u128_to_le_bytes(x), rest);
}

proof fn lemma_blob(b: Seq<u8>, what: &'static str, limit: u32, rest: Seq<u8>)
    requires
        b.len() <= limit,
    ensures
        dec_blob(enc_blob(b) + rest, what, limit) == Ok::<_, FormatError>((b, rest)),
{
    lemma_u32(b.len() as u32, b + rest);
    assert(enc_blob(b) + rest =~= spec_u32_to_le_bytes(b.len() as u32) + (b + rest));
    lemma_take(b, rest);
}

proof fn lemma_text(s: Seq<char>, what: &'static str, limit: u32, rest: Seq<u8>)
    requires
        encode_utf8(s).len() <= limit,
    ensures
        dec_text(enc_str(s) + rest, what, limit) == Ok::<_, FormatError>((s, rest)),
{
    lemma_blob(encode_utf8(s), what, limit, rest);
    encode_utf8_valid_utf8(s);
    encode_utf8_decode_utf8(s);
}

proof fn lemma_value(v: ValueModel, trust: TrustLevel, depth: nat, rest: Seq<u8>)
    requires
        value_fits(v, trust, depth),
    ensures
        dec_value(enc_value(v) + rest, trust, depth) == Ok::<_, FormatError>((v, rest)),
    decreases v,
{
    match v {
        ValueModel::Unit => {
            lemma_u8(0, rest);
        },
        ValueModel::Bool(b) => {
            let bit: u8 = if b { 1u8 } else { 0u8 };
            assert(enc_value(v) + rest =~= seq![1u8] + (seq![bit] + rest));
            lemma_u8(1, seq![bit] + rest);
            lemma_u8(bit, rest);
        },
        ValueModel::Int(i) => {
            let w = spec_u64_to_le_bytes(i as u64);
            assert(enc_value(v) + rest =~= seq![2u8] + (w + rest));
            lemma_u8(2, w + rest);
            lemma_u64(i as u64, rest);
            assert((i as u64) as i64 == i) by (bit_vector);
        },
        ValueModel::Float(x) => {
            let w = spec_u64_to_le_bytes(x);
            assert(enc_value(v) + rest =~= seq![3u8] + (w + rest));
            lemma_u8(3, w + rest);
            lemma_u64(x, rest);
        },
        ValueModel::Pid(x) => {
            let w = spec_u64_to_le_bytes(x);
            assert(enc_value(v) + rest =~= seq![4u8] + (w + rest));
            lemma_u8(4, w + rest);
            lemma_u64(x, rest);
        },
        ValueModel::Message { sender, reply_cap, request_id, tag, payload } => {
            lemma_value(*payload, trust, depth + 1, rest);
            lemma_message(v, trust, depth, rest);
        },
        ValueModel::Cap(c) => {
            let w = spec_u128_to_le_bytes(c.raw);
            assert(enc_value(v) + rest =~= seq![6u8] + (w + rest));
            lemma_u8(6, w + rest);
            lemma_u128(c.raw, rest);
        },
        ValueModel::Str(s) => {
            assert(enc_value(v) + rest =~= seq![7u8] + (enc_str(s) + rest));
            lemma_u8(7, enc_str(s) + rest);
            lemma_text(s, "str", MAX_BLOB, rest);
        },
        ValueModel::Bytes(b) => {
            assert(enc_value(v) + rest =~= seq![8u8] + (enc_blob(b) + rest));
            lemma_u8(8, enc_blob(b) + rest);
            lemma_blob(b, "bytes", MAX_BLOB, rest);
        },
    }
}

proof fn lemma_message(v: ValueModel, trust: TrustLevel, depth: nat, rest: Seq<u8>)
    requires
        v is Message,
        value_fits(v, trust, depth),
        dec_value(enc_value(*v->payload) + rest, trust, depth + 1) == Ok::<_, FormatError>(
            (*v->payload, rest),
        ),
    ensures
        dec_value(enc_value(v) + rest, trust, depth) == Ok::<_, FormatError>((v, rest)),
{
    let body = enc_value(*v->payload) + rest;
    let s3 = spec_u16_to_le_bytes(v->tag) + body;
    let s2 = spec_u64_to_le_bytes(v->request_id) + s3;
    let s1 = spec_u128_to_le_bytes(v->reply_cap.raw) + s2;
    let s0 = spec_u64_to_le_bytes(v->sender) + s1;
    assert(enc_value(v) + rest =~= seq![5u8] + s0);
    lemma_u8(5, s0);
    lemma_u64(v->sender, s1);
    lemma_u128(v->reply_cap.raw, s2);
    lemma_u64(v->request_id, s3);
    lemma_u16(v->tag, body);
    assert(dec_message(s0, trust, depth) == Ok::<_, FormatError>((v, rest)));
}

proof fn lemma_values(s: Seq<ValueModel>, trust: TrustLevel, rest: Seq<u8>)
    requires
        forall|i: int| 0 <= i < s.len() ==> value_fits(#[trigger] s[i], trust, 0),
    ensures
        dec_values(enc_values(s) + rest, s.len(), trust) == Ok::<_, FormatError>((s, rest)),
    decreases s.len(),
{
    if s.len() > 0 {
        let tail = s.drop_first();
        assert forall|i: int| 0 <= i < tail.len() implies value_fits(
            #[trigger] tail[i],
            trust,
            0,
        ) by {
            assert(tail[i] == s[i + 1]);
        }
        lemma_values(tail, trust, rest);
        assert(enc_values(s) + rest =~= enc_value(s[0]) + (enc_values(tail) + rest));
        lemma_value(s[0], trust, 0, enc_values(tail) + rest);
        assert(seq![s[0]] + tail =~= s);
    } else {
        assert(enc_values(s) + rest =~= rest);
        assert(s =~= Seq::empty());
    }
}

proof fn lemma_function(f: FunctionModel, rest: Seq<u8>)
    requires
        encode_utf8(f.name).len() <= MAX_NAME,
    ensures
        dec_function(enc_function(f) + rest) == Ok::<_, FormatError>((f, rest)),
{
    let s2 = seq![f.num_registers] + rest;
    let s1 = seq![f.arity] + s2;
    let s0 = spec_u32_to_le_bytes(f.entry) + s1;
    assert(enc_function(f) + rest =~= enc_str(f.name) + s0);
    lemma_text(f.name, "name", MAX_NAME, s0);
    lemma_u32(f.entry, s1);
    lemma_u8(f.arity, s2);
    lemma_u8(f.num_registers, rest);
}

proof fn lemma_functions(s: Seq<FunctionModel>, rest: Seq<u8>)
    requires
        forall|i: int| 0 <= i < s.len() ==> encode_utf8((#[trigger] s[i]).name).len() <= MAX_NAME,
    ensures
        dec_functions(enc_functions(s) + rest, s.len()) == Ok::<_, FormatError>((s, rest)),
    decreases s.len(),
{
    if s.len() > 0 {
        let tail = s.drop_first();
        assert forall|i: int| 0 <= i < tail.len() implies encode_utf8(
            (#[trigger] tail[i]).name,
        ).len() <= MAX_NAME by {
            assert(tail[i] == s[i + 1]);
        }
        lemma_functions(tail, rest);
        assert(enc_functions(s) + rest =~= enc_function(s[0]) + (enc_functions(tail) + rest));
        lemma_function(s[0], enc_functions(tail) + rest);
        assert(seq![s[0]] + tail =~= s);
    } else {
        assert(enc_functions(s) + rest =~= rest);
        assert(s =~= Seq::empty());
    }
}

proof fn lemma_instruction(i: Instruction, at: nat, rest: Seq<u8>)
    ensures
        dec_instruction(enc_instruction(i) + rest, at) == Ok::<_, FormatError>((i, rest)),
{
    let s3 = spec_u32_to_le_bytes(i.imm as u32) + rest;
    let s2 = seq![i.c] + s3;
    let s1 = seq![i.b] + s2;
    let s0 = seq![i.a] + s1;
    assert(enc_instruction(i) + rest =~= seq![opcode_byte(i.op)] + s0);
    opcode_round_trip(i.op);
    lemma_u8(opcode_byte(i.op), s0);
    lemma_u8(i.a, s1);
    lemma_u8(i.b, s2);
    lemma_u8(i.c, s3);
    lemma_u32(i.imm as u32, rest);
    let imm = i.imm;
    assert((imm as u32) as i32 == imm) by (bit_vector);
}

proof fn lemma_code(s: Seq<Instruction>, at: nat, rest: Seq<u8>)
    ensures
        dec_code(enc_code(s) + rest, s.len(), at) == Ok::<_, FormatError>((s, rest)),
    decreases s.len(),
{
    if s.len() > 0 {
        let tail = s.drop_first();
        lemma_code(tail, at + 1, rest);
        assert(enc_code(s) + rest =~= enc_instruction(s[0]) + (enc_code(tail) + rest));
        lemma_instruction(s[0], at, enc_code(tail) + rest);
        assert(seq![s[0]] + tail =~= s);
    } else {
        assert(enc_code(s) + rest =~= rest);
        assert(s =~= Seq::empty());
    }
}

proof fn lemma_tail(c: ChunkModel, s3: Seq<u8>)
    requires
        c.functions.len() <= MAX_ITEMS,
        c.code.len() <= MAX_ITEMS,
        forall|i: int|
            0 <= i < c.functions.len() ==> encode_utf8((#[trigger] c.functions[i]).name).len()
                <= MAX_NAME,
        s3 == spec_u32_to_le_bytes(c.functions.len() as u32) + (enc_functions(c.functions) + (
        spec_u32_to_le_bytes(c.code.len() as u32) + enc_code(c.code))),
    ensures
        ({
            let s5 = spec_u32_to_le_bytes(c.code.len() as u32) + enc_code(c.code);
            let s4 = enc_functions(c.functions) + s5;
            &&& dec_count(s3, "functions") == Ok::<_, FormatError>((c.functions.len() as u32, s4))
            &&& dec_functions(s4, c.functions.len()) == Ok::<_, FormatError>((c.functions, s5))
            &&& dec_count(s5, "code") == Ok::<_, FormatError>(
                (c.code.len() as u32, enc_code(c.code)),
            )
            &&& dec_code(enc_code(c.code), c.code.len(), 0) == Ok::<_, FormatError>(
                (c.code, Seq::<u8>::empty()),
            )
        }),
{
    let s6 = enc_code(c.code);
    let s5 = spec_u32_to_le_bytes(c.code.len() as u32) + s6;
    let s4 = enc_functions(c.functions) + s5;
    lemma_u32(c.functions.len() as u32, s4);
    lemma_functions(c.functions, s5);
    lemma_u32(c.code.len() as u32, s6);
    lemma_code(c.code, 0, Seq::empty());
    assert(enc_code(c.code) + Seq::<u8>::empty() =~= s6);
}

proof fn lemma_body(c: ChunkModel, trust: TrustLevel)
    requires
        chunk_fits(c, trust),
    ensures
        dec_body(enc_body(c), trust) == Ok::<_, FormatError>(c),
{
    reveal(dec_body);
    let s3 = spec_u32_to_le_bytes(c.functions.len() as u32) + (enc_functions(c.functions) + (
    spec_u32_to_le_bytes(c.code.len() as u32) + enc_code(c.code)));
    let s2 = enc_values(c.constants) + s3;
    let s1 = spec_u32_to_le_bytes(c.constants.len() as u32) + s2;
    lemma_text(c.name, "name", MAX_NAME, s1);
    lemma_u32(c.constants.len() as u32, s2);
    lemma_values(c.constants, trust, s3);
    lemma_tail(c, s3);
}

proof fn lemma_header(body: Seq<u8>, trust: TrustLevel)
    ensures
        dec_chunk(magic() + (spec_u32_to_le_bytes(ABI_VERSION) + body), trust) == dec_body(
            body,
            trust,
        ),
{
    lemma_u32(ABI_VERSION, body);
    lemma_take(magic(), spec_u32_to_le_bytes(ABI_VERSION) + body);
}

/// Decoding undoes encoding: a module within the limits of the decoder comes
/// back unchanged.
pub proof fn round_trip(c: ChunkModel, trust: TrustLevel)
    requires
        chunk_fits(c, trust),
    ensures
        dec_chunk(enc_chunk(c), trust) == Ok::<_, FormatError>(c),
{
    lemma_body(c, trust);
    lemma_header(enc_body(c), trust);
}

// ---- prefixes ---------------------------------------------------------------

/// What a decoder makes of the first `k` bytes of `s`, by what it makes of all
/// of them: the same item if the bytes reach, and too few bytes if not.
pub open spec fn cut<T>(s: Seq<u8>, k: int, whole: Decoded<T>, part: Decoded<T>) -> bool {
    whole matches Ok((v, t)) ==> {
        let used = s.len() - t.len();
        &&& 0 <= used
        &&& t == s.skip(used)
        &&& if k >= used {
            part == Ok::<(T, Seq<u8>), FormatError>((v, t.take(k - used)))
        } else {
            part == Err::<(T, Seq<u8>), FormatError>(FormatError::Truncated)
        }
    }
}

/// The bytes after an item, cut short.
proof fn lemma_rest(s: Seq<u8>, used: int, more: int, k: int)
    requires
        0 <= used,
        0 <= more,
        used + more <= s.len(),
        0 <= k <= s.len(),
    ensures
        s.skip(used).skip(more) == s.skip(used + more),
        used + more <= k ==> s.skip(used).take(k - used).skip(more) == s.skip(used + more).take(
            k - (used + more),
        ),
{
    assert(s.skip(used).skip(more) =~= s.skip(used + more));
    if used + more <= k {
        assert(s.skip(used).take(k - used).skip(more) =~= s.skip(used + more).take(
            k - (used + more),
        ));
    }
}

proof fn lemma_cut_take(s: Seq<u8>, n: nat, k: int)
    requires
        0 <= k <= s.len(),
    ensures
        cut(s, k, dec_take(s, n), dec_take(s.take(k), n)),
{
    if n <= k {
        assert(s.take(k).take(n as int) =~= s.take(n as int));
        assert(s.take(k).skip(n as int) =~= s.skip(n as int).take(k - n));
    }
}

proof fn lemma_cut_u8(s: Seq<u8>, k: int)
    requires
        0 <= k <= s.len(),
    ensures
        cut(s, k, dec_u8(s), dec_u8(s.take(k))),
{
    lemma_cut_take(s, 1, k);
}

proof fn lemma_cut_u16(s: Seq<u8>, k: int)
    requires
        0 <= k <= s.len(),
    ensures
        cut(s, k, dec_u16(s), dec_u16(s.take(k))),
{
    lemma_cut_take(s, 2, k);
}

proof fn lemma_cut_u32(s: Seq<u8>, k: int)
    requires
        0 <= k <= s.len(),
    ensures
        cut(s, k, dec_u32(s), dec_u32(s.take(k))),
{
    lemma_cut_take(s, 4, k);
}

proof fn lemma_cut_u64(s: Seq<u8>, k: int)
    requires
        0 <= k <= s.len(),
    ensures
        cut(s, k, dec_u64(s), dec_u64(s.take(k))),
{
    lemma_cut_take(s, 8, k);
}

proof fn lemma_cut_u128(s: Seq<u8>, k: int)
    requires
        0 <= k <= s.len(),
    ensures
        cut(s, k, dec_u128(s), dec_u128(s.take(k))),
{
    lemma_cut_take(s, 16, k);
}

proof fn lemma_cut_count(s: Seq<u8>, what: &'static str, k: int)
    requires
        0 <= k <= s.len(),
    ensures
        cut(s, k, dec_count(s, what), dec_count(s.take(k), what)),
{
    lemma_cut_u32(s, k);
}

proof fn lemma_cut_blob(s: Seq<u8>, what: &'static str, limit: u32, k: int)
    requires
        0 <= k <= s.len(),
    ensures
        cut(s, k, dec_blob(s, what, limit), dec_blob(s.take(k), what, limit)),
{
    lemma_cut_u32(s, k);
    if let Ok((n, t)) = dec_u32(s) {
        if k >= 4 && n <= limit {
            lemma_cut_take(t, n as nat, k - 4);
            if n <= t.len() {
                lemma_rest(s, 4, n as int, k);
            }
        }
        if n <= t.len() {
            assert(t.skip(n as int) =~= s.skip(4 + n));
        }
    }
}

proof fn lemma_cut_text(s: Seq<u8>, what: &'static str, limit: u32, k: int)
    requires
        0 <= k <= s.len(),
    ensures
        cut(s, k, dec_text(s, what, limit), dec_text(s.take(k), what, limit)),
{
    lemma_cut_blob(s, what, limit, k);
}

/// A suffix of a suffix.
proof fn lemma_suffix(s: Seq<u8>, t: Seq<u8>, u: Seq<u8>)
    requires
        u.len() <= t.len() <= s.len(),
        t == s.skip(s.len() - t.len()),
        u == t.skip(t.len() - u.len()),
    ensures
        u == s.skip(s.len() - u.len()),
{
    assert(u =~= s.skip(s.len() - u.len()));
}

/// How many of the first `k` bytes are left behind the first `used`.
spec fn left(k: int, used: int) -> int {
    if k >= used {
        k - used
    } else {
        0
    }
}

proof fn lemma_cut_value(s: Seq<u8>, trust: TrustLevel, depth: nat, k: int)
    requires
        0 <= k <= s.len(),
    ensures
        cut(s, k, dec_value(s, trust, depth), dec_value(s.take(k), trust, depth)),
    decreases MAX_VALUE_DEPTH + 1 - depth,
{
    lemma_cut_u8(s, k);
    if depth <= MAX_VALUE_DEPTH {
        if let Ok((tag, t)) = dec_u8(s) {
            let k1 = left(k, 1);
            if tag == 1 {
                lemma_cut_u8(t, k1);
            } else if tag == 2 || tag == 3 || tag == 4 {
                lemma_cut_u64(t, k1);
            } else if tag == 5 {
                lemma_cut_message(t, trust, depth, k1);
            } else if tag == 6 {
                lemma_cut_u128(t, k1);
            } else if tag == 7 {
                lemma_cut_text(t, "str", MAX_BLOB, k1);
            } else if tag == 8 {
                lemma_cut_blob(t, "bytes", MAX_BLOB, k1);
            }
            if let Ok((_, u)) = dec_value(s, trust, depth) {
                assert(u.len() <= t.len() && u == t.skip(t.len() - u.len())) by {
                    if tag == 0 {
                        assert(t.skip(0) =~= t);
                    }
                }
                lemma_suffix(s, t, u);
            }
        }
    }
}

proof fn lemma_cut_message(s: Seq<u8>, trust: TrustLevel, depth: nat, k: int)
    requires
        depth <= MAX_VALUE_DEPTH,
        0 <= k <= s.len(),
    ensures
        cut(s, k, dec_message(s, trust, depth), dec_message(s.take(k), trust, depth)),
    decreases MAX_VALUE_DEPTH + 1 - depth, 0nat,
{
    if let Ok((_, s5)) = dec_message(s, trust, depth) {
        lemma_cut_u64(s, k);
        let s1 = dec_u64(s)->Ok_0.1;
        let k1 = left(k, 8);
        lemma_cut_u128(s1, k1);
        let s2 = dec_u128(s1)->Ok_0.1;
        let k2 = left(k1, 16);
        lemma_cut_u64(s2, k2);
        let s3 = dec_u64(s2)->Ok_0.1;
        let k3 = left(k2, 8);
        lemma_cut_u16(s3, k3);
        let s4 = dec_u16(s3)->Ok_0.1;
        let k4 = left(k3, 2);
        lemma_cut_value(s4, trust, depth + 1, k4);
        lemma_suffix(s, s1, s2);
        lemma_suffix(s, s2, s3);
        lemma_suffix(s, s3, s4);
        lemma_suffix(s, s4, s5);
    }
}

proof fn lemma_cut_function(s: Seq<u8>, k: int)
    requires
        0 <= k <= s.len(),
    ensures
        cut(s, k, dec_function(s), dec_function(s.take(k))),
{
    if let Ok((_, s4)) = dec_function(s) {
        lemma_cut_text(s, "name", MAX_NAME, k);
        let s1 = dec_name(s)->Ok_0.1;
        let k1 = left(k, s.len() - s1.len());
        lemma_cut_u32(s1, k1);
        let s2 = dec_u32(s1)->Ok_0.1;
        let k2 = left(k1, 4);
        lemma_cut_u8(s2, k2);
        let s3 = dec_u8(s2)->Ok_0.1;
        let k3 = left(k2, 1);
        lemma_cut_u8(s3, k3);
        lemma_suffix(s, s1, s2);
        lemma_suffix(s, s2, s3);
        lemma_suffix(s, s3, s4);
    }
}

proof fn lemma_cut_instruction(s: Seq<u8>, at: nat, k: int)
    requires
        0 <= k <= s.len(),
    ensures
        cut(s, k, dec_instruction(s, at), dec_instruction(s.take(k), at)),
{
    if let Ok((_, s5)) = dec_instruction(s, at) {
        lemma_cut_u8(s, k);
        let s1 = dec_u8(s)->Ok_0.1;
        let k1 = left(k, 1);
        lemma_cut_u8(s1, k1);
        let s2 = dec_u8(s1)->Ok_0.1;
        let k2 = left(k1, 1);
        lemma_cut_u8(s2, k2);
        let s3 = dec_u8(s2)->Ok_0.1;
        let k3 = left(k2, 1);
        lemma_cut_u8(s3, k3);
        let s4 = dec_u8(s3)->Ok_0.1;
        let k4 = left(k3, 1);
        lemma_cut_u32(s4, k4);
        lemma_suffix(s, s1, s2);
        lemma_suffix(s, s2, s3);
        lemma_suffix(s, s3, s4);
        lemma_suffix(s, s4, s5);
    }
}

proof fn lemma_cut_values(s: Seq<u8>, n: nat, trust: TrustLevel, k: int)
    requires
        0 <= k <= s.len(),
    ensures
        cut(s, k, dec_values(s, n, trust), dec_values(s.take(k), n, trust)),
    decreases n,
{
    if n == 0 {
        assert(s.skip(0) =~= s);
    } else if let Ok((_, u)) = dec_values(s, n, trust) {
        lemma_cut_value(s, trust, 0, k);
        let t = dec_value(s, trust, 0)->Ok_0.1;
        lemma_cut_values(t, (n - 1) as nat, trust, left(k, s.len() - t.len()));
        lemma_suffix(s, t, u);
    }
}

proof fn lemma_cut_functions(s: Seq<u8>, n: nat, k: int)
    requires
        0 <= k <= s.len(),
    ensures
        cut(s, k, dec_functions(s, n), dec_functions(s.take(k), n)),
    decreases n,
{
    if n == 0 {
        assert(s.skip(0) =~= s);
    } else if let Ok((_, u)) = dec_functions(s, n) {
        lemma_cut_function(s, k);
        let t = dec_function(s)->Ok_0.1;
        lemma_cut_functions(t, (n - 1) as nat, left(k, s.len() - t.len()));
        lemma_suffix(s, t, u);
    }
}

proof fn lemma_cut_code(s: Seq<u8>, n: nat, at: nat, k: int)
    requires
        0 <= k <= s.len(),
    ensures
        cut(s, k, dec_code(s, n, at), dec_code(s.take(k), n, at)),
    decreases n,
{
    if n == 0 {
        assert(s.skip(0) =~= s);
    } else if let Ok((_, u)) = dec_code(s, n, at) {
        lemma_cut_instruction(s, at, k);
        let t = dec_instruction(s, at)->Ok_0.1;
        lemma_cut_code(t, (n - 1) as nat, at + 1, left(k, s.len() - t.len()));
        lemma_suffix(s, t, u);
    }
}

/// Bytes that a module leaves unread.
pub open spec fn unread(s: Seq<u8>, trust: TrustLevel) -> Seq<u8> {
    let s1 = dec_name(s.skip(8))->Ok_0.1;
    let (nc, s2) = dec_count(s1, "constants")->Ok_0;
    let s3 = dec_values(s2, nc as nat, trust)->Ok_0.1;
    let (nf, s4) = dec_count(s3, "functions")->Ok_0;
    let s5 = dec_functions(s4, nf as nat)->Ok_0.1;
    let (ni, s6) = dec_count(s5, "code")->Ok_0;
    dec_code(s6, ni as nat, 0)->Ok_0.1
}

#[verifier::rlimit(40)]
proof fn lemma_cut_body(s: Seq<u8>, trust: TrustLevel, k: int)
    requires
        dec_chunk(s, trust) is Ok,
        0 <= k <= s.len() - 8,
    ensures
        unread(s, trust).len() <= s.len() - 8,
        k < s.len() - 8 - unread(s, trust).len() ==> dec_body(s.skip(8).take(k), trust) == Err::<
            ChunkModel,
            FormatError,
        >(FormatError::Truncated),
        k >= s.len() - 8 - unread(s, trust).len() ==> dec_body(s.skip(8).take(k), trust)
            == dec_chunk(s, trust),
{
    reveal(dec_body);
    assert(s.skip(4).skip(4) =~= s.skip(8));
    let b = s.skip(8);
    lemma_cut_text(b, "name", MAX_NAME, k);
    let s1 = dec_name(b)->Ok_0.1;
    let k1 = left(k, b.len() - s1.len());
    lemma_cut_count(s1, "constants", k1);
    let (nc, s2) = dec_count(s1, "constants")->Ok_0;
    let k2 = left(k1, s1.len() - s2.len());
    lemma_cut_values(s2, nc as nat, trust, k2);
    let s3 = dec_values(s2, nc as nat, trust)->Ok_0.1;
    let k3 = left(k2, s2.len() - s3.len());
    lemma_cut_count(s3, "functions", k3);
    let (nf, s4) = dec_count(s3, "functions")->Ok_0;
    let k4 = left(k3, s3.len() - s4.len());
    lemma_cut_functions(s4, nf as nat, k4);
    let s5 = dec_functions(s4, nf as nat)->Ok_0.1;
    let k5 = left(k4, s4.len() - s5.len());
    lemma_cut_count(s5, "code", k5);
    let (ni, s6) = dec_count(s5, "code")->Ok_0;
    let k6 = left(k5, s5.len() - s6.len());
    lemma_cut_code(s6, ni as nat, 0, k6);
}

/// Where a module was cut short, that is what the decoder says: the bytes up
/// to any point before its end are refused as truncated, and never for
/// another reason. The bytes up to its end, and any number of those that
/// follow it, are the module.
pub proof fn prefix_is_truncated(s: Seq<u8>, trust: TrustLevel, k: int)
    requires
        dec_chunk(s, trust) is Ok,
        0 <= k <= s.len(),
    ensures
        unread(s, trust).len() + 8 <= s.len(),
        k < s.len() - unread(s, trust).len() ==> dec_chunk(s.take(k), trust) == Err::<
            ChunkModel,
            FormatError,
        >(FormatError::Truncated),
        k >= s.len() - unread(s, trust).len() ==> dec_chunk(s.take(k), trust) == dec_chunk(
            s,
            trust,
        ),
{
    lemma_cut_take(s, 4, k);
    let k1 = left(k, 4);
    lemma_cut_u32(s.skip(4), k1);
    assert(s.skip(4).skip(4) =~= s.skip(8));
    lemma_cut_body(s, trust, left(k1, 4));
}

/// The lengths in a value fit in the 32 bits that they are written in.
pub open spec fn value_sized(v: ValueModel) -> bool
    decreases v,
{
    match v {
        ValueModel::Message { payload, .. } => value_sized(*payload),
        ValueModel::Str(s) => encode_utf8(s).len() <= u32::MAX,
        ValueModel::Bytes(b) => b.len() <= u32::MAX,
        _ => true,
    }
}

/// The lengths in a module fit in the 32 bits that they are written in.
pub open spec fn chunk_sized(c: ChunkModel) -> bool {
    &&& encode_utf8(c.name).len() <= u32::MAX
    &&& c.constants.len() <= u32::MAX
    &&& c.functions.len() <= u32::MAX
    &&& c.code.len() <= u32::MAX
    &&& forall|i: int| 0 <= i < c.constants.len() ==> value_sized(#[trigger] c.constants[i])
    &&& forall|i: int|
        0 <= i < c.functions.len() ==> encode_utf8((#[trigger] c.functions[i]).name).len()
            <= u32::MAX
}

proof fn lemma_blob_fits(b: Seq<u8>, what: &'static str, limit: u32, rest: Seq<u8>)
    requires
        b.len() <= u32::MAX,
        dec_blob(enc_blob(b) + rest, what, limit) is Ok,
    ensures
        b.len() <= limit,
{
    lemma_u32(b.len() as u32, b + rest);
    assert(enc_blob(b) + rest =~= spec_u32_to_le_bytes(b.len() as u32) + (b + rest));
}

proof fn lemma_payload_decodes(v: ValueModel, trust: TrustLevel, depth: nat, rest: Seq<u8>)
    requires
        v is Message,
        dec_value(enc_value(v) + rest, trust, depth) is Ok,
    ensures
        depth <= MAX_VALUE_DEPTH,
        trust == TrustLevel::Trusted,
        dec_value(enc_value(*v->payload) + rest, trust, depth + 1) is Ok,
{
    let body = enc_value(*v->payload) + rest;
    let s3 = spec_u16_to_le_bytes(v->tag) + body;
    let s2 = spec_u64_to_le_bytes(v->request_id) + s3;
    let s1 = spec_u128_to_le_bytes(v->reply_cap.raw) + s2;
    let s0 = spec_u64_to_le_bytes(v->sender) + s1;
    assert(enc_value(v) + rest =~= seq![5u8] + s0);
    lemma_u8(5, s0);
    lemma_u64(v->sender, s1);
    lemma_u128(v->reply_cap.raw, s2);
    lemma_u64(v->request_id, s3);
    lemma_u16(v->tag, body);
    assert(dec_message(s0, trust, depth) is Ok);
}

#[verifier::rlimit(30)]
proof fn lemma_value_fits(v: ValueModel, trust: TrustLevel, depth: nat, rest: Seq<u8>)
    requires
        value_sized(v),
        dec_value(enc_value(v) + rest, trust, depth) is Ok,
    ensures
        value_fits(v, trust, depth),
    decreases v,
{
    match v {
        ValueModel::Pid(x) => {
            let w = spec_u64_to_le_bytes(x);
            assert(enc_value(v) + rest =~= seq![4u8] + (w + rest));
            lemma_u8(4, w + rest);
        },
        ValueModel::Message { payload, .. } => {
            lemma_payload_decodes(v, trust, depth, rest);
            lemma_value_fits(*payload, trust, depth + 1, rest);
        },
        ValueModel::Cap(c) => {
            let w = spec_u128_to_le_bytes(c.raw);
            assert(enc_value(v) + rest =~= seq![6u8] + (w + rest));
            lemma_u8(6, w + rest);
        },
        ValueModel::Str(s) => {
            assert(enc_value(v) + rest =~= seq![7u8] + (enc_blob(encode_utf8(s)) + rest));
            lemma_u8(7, enc_blob(encode_utf8(s)) + rest);
            lemma_blob_fits(encode_utf8(s), "str", MAX_BLOB, rest);
        },
        ValueModel::Bytes(b) => {
            assert(enc_value(v) + rest =~= seq![8u8] + (enc_blob(b) + rest));
            lemma_u8(8, enc_blob(b) + rest);
            lemma_blob_fits(b, "bytes", MAX_BLOB, rest);
        },
        _ => {},
    }
}

proof fn lemma_values_fit(s: Seq<ValueModel>, trust: TrustLevel, rest: Seq<u8>)
    requires
        forall|i: int| 0 <= i < s.len() ==> value_sized(#[trigger] s[i]),
        dec_values(enc_values(s) + rest, s.len(), trust) is Ok,
    ensures
        forall|i: int| 0 <= i < s.len() ==> value_fits(#[trigger] s[i], trust, 0),
    decreases s.len(),
{
    if s.len() > 0 {
        let tail = s.drop_first();
        assert(enc_values(s) + rest =~= enc_value(s[0]) + (enc_values(tail) + rest));
        lemma_value_fits(s[0], trust, 0, enc_values(tail) + rest);
        lemma_value(s[0], trust, 0, enc_values(tail) + rest);
        assert forall|i: int| 0 <= i < tail.len() implies value_sized(#[trigger] tail[i]) by {
            assert(tail[i] == s[i + 1]);
        }
        lemma_values_fit(tail, trust, rest);
        assert forall|i: int| 0 <= i < s.len() implies value_fits(#[trigger] s[i], trust, 0) by {
            if i > 0 {
                assert(s[i] == tail[i - 1]);
            }
        }
    }
}

proof fn lemma_functions_fit(s: Seq<FunctionModel>, rest: Seq<u8>)
    requires
        forall|i: int| 0 <= i < s.len() ==> encode_utf8((#[trigger] s[i]).name).len() <= u32::MAX,
        dec_functions(enc_functions(s) + rest, s.len()) is Ok,
    ensures
        forall|i: int| 0 <= i < s.len() ==> encode_utf8((#[trigger] s[i]).name).len() <= MAX_NAME,
    decreases s.len(),
{
    if s.len() > 0 {
        let tail = s.drop_first();
        let f = s[0];
        let after = enc_functions(tail) + rest;
        let s0 = spec_u32_to_le_bytes(f.entry) + (seq![f.arity] + (seq![f.num_registers] + after));
        assert(enc_functions(s) + rest =~= enc_function(f) + after);
        assert(enc_function(f) + after =~= enc_blob(encode_utf8(f.name)) + s0);
        lemma_blob_fits(encode_utf8(f.name), "name", MAX_NAME, s0);
        lemma_function(f, after);
        assert forall|i: int| 0 <= i < tail.len() implies encode_utf8(
            (#[trigger] tail[i]).name,
        ).len() <= u32::MAX by {
            assert(tail[i] == s[i + 1]);
        }
        lemma_functions_fit(tail, rest);
        assert forall|i: int| 0 <= i < s.len() implies encode_utf8((#[trigger] s[i]).name).len()
            <= MAX_NAME by {
            if i > 0 {
                assert(s[i] == tail[i - 1]);
            }
        }
    }
}

/// A module is decoded from its encoding exactly if it is within the limits
/// of the decoder, as long as its lengths can be written at all.
pub proof fn decodes_what_fits(c: ChunkModel, trust: TrustLevel)
    requires
        chunk_sized(c),
    ensures
        dec_chunk(enc_chunk(c), trust) is Ok <==> chunk_fits(c, trust),
{
    if chunk_fits(c, trust) {
        round_trip(c, trust);
    } else if dec_chunk(enc_chunk(c), trust) is Ok {
        lemma_header(enc_body(c), trust);
        reveal(dec_body);
        let s6 = enc_code(c.code);
        let s5 = spec_u32_to_le_bytes(c.code.len() as u32) + s6;
        let s4 = enc_functions(c.functions) + s5;
        let s3 = spec_u32_to_le_bytes(c.functions.len() as u32) + s4;
        let s2 = enc_values(c.constants) + s3;
        let s1 = spec_u32_to_le_bytes(c.constants.len() as u32) + s2;
        lemma_blob_fits(encode_utf8(c.name), "name", MAX_NAME, s1);
        lemma_text(c.name, "name", MAX_NAME, s1);
        lemma_u32(c.constants.len() as u32, s2);
        lemma_values_fit(c.constants, trust, s3);
        lemma_values(c.constants, trust, s3);
        lemma_u32(c.functions.len() as u32, s4);
        lemma_functions_fit(c.functions, s5);
        lemma_functions(c.functions, s5);
        lemma_u32(c.code.len() as u32, s6);
    }
}

/// No strict prefix of an encoded module that is decoded is a module: each is
/// refused as truncated, as nothing of the encoding is left unread. This is
/// so as long as the lengths in the module can be written.
pub proof fn encoded_prefix_is_truncated(c: ChunkModel, trust: TrustLevel, k: int)
    requires
        chunk_sized(c),
        dec_chunk(enc_chunk(c), trust) is Ok,
        0 <= k < enc_chunk(c).len(),
    ensures
        unread(enc_chunk(c), trust).len() == 0,
        dec_chunk(enc_chunk(c).take(k), trust) == Err::<ChunkModel, FormatError>(
            FormatError::Truncated,
        ),
{
    let s = enc_chunk(c);
    decodes_what_fits(c, trust);
    round_trip(c, trust);
    lemma_u32(ABI_VERSION, enc_body(c));
    assert(s.skip(8) =~= enc_body(c));
    let s3 = spec_u32_to_le_bytes(c.functions.len() as u32) + (enc_functions(c.functions) + (
    spec_u32_to_le_bytes(c.code.len() as u32) + enc_code(c.code)));
    let s2 = enc_values(c.constants) + s3;
    let s1 = spec_u32_to_le_bytes(c.constants.len() as u32) + s2;
    lemma_text(c.name, "name", MAX_NAME, s1);
    lemma_u32(c.constants.len() as u32, s2);
    lemma_values(c.constants, trust, s3);
    lemma_tail(c, s3);
    prefix_is_truncated(s, trust, k);
}

/// An untrusted module never holds an authority value: neither a capability,
/// nor a flow identity, nor a message.
pub open spec fn carries_authority(v: ValueModel) -> bool {
    v is Cap || v is Pid || v is Message
}

proof fn lemma_untrusted_values(s: Seq<u8>, n: nat)
    ensures
        dec_values(s, n, TrustLevel::Untrusted) matches Ok((vs, _)) ==> forall|i: int|
            0 <= i < vs.len() ==> !carries_authority(#[trigger] vs[i]),
    decreases n,
{
    if n > 0 {
        match dec_value(s, TrustLevel::Untrusted, 0) {
            Ok((v, t)) => {
                lemma_untrusted_values(t, (n - 1) as nat);
            },
            Err(_) => {},
        }
    }
}

/// Whatever the bytes are, an untrusted decode yields no authority constant.
pub proof fn untrusted_decode_has_no_authority(s: Seq<u8>)
    ensures
        dec_chunk(s, TrustLevel::Untrusted) matches Ok(c) ==> forall|i: int|
            0 <= i < c.constants.len() ==> !carries_authority(#[trigger] c.constants[i]),
{
    reveal(dec_body);
    if dec_chunk(s, TrustLevel::Untrusted) is Ok {
        let s1 = s.skip(4).skip(4);
        let (name, s2) = dec_name(s1)->Ok_0;
        let (nc, s3) = dec_count(s2, "constants")->Ok_0;
        lemma_untrusted_values(s3, nc as nat);
    }
}

} // verus!
