//! Encoding and decoding of modules.

use std::sync::Arc;

use vstd::prelude::*;
use vstd::bytes::{
    u128_from_le_bytes, u128_to_le_bytes, u16_from_le_bytes, u16_to_le_bytes, u32_from_le_bytes,
    u32_to_le_bytes, u64_from_le_bytes, u64_to_le_bytes,
};
use vstd::slice::{slice_subrange, slice_to_vec};
use vstd::utf8::{decode_utf8, valid_utf8};

use crate::bytecode::cap::CapId;
use crate::bytecode::chunk::{Chunk, FunctionDef, ABI_VERSION, MAGIC};
use crate::bytecode::instruction::Instruction;
use crate::bytecode::opcode::Opcode;
use crate::bytecode::value::{Message, Value};
use crate::bytecode::verify::{ConstantKind, TrustLevel};
pub use crate::bytecode::wire::FormatError;
use crate::bytecode::wire::{
    chunk_model, dec_blob, dec_body, dec_chunk, dec_code, dec_count, dec_function, dec_functions,
    dec_instruction, dec_message, dec_name, dec_take, dec_text, dec_u128, dec_u16, dec_u32, dec_u64,
    dec_u8, dec_value, dec_values, enc_blob, enc_chunk, enc_code, enc_function, enc_functions,
    enc_instruction, enc_str, enc_value, enc_values, function_model, function_models, magic,
    prepend, value_model, value_models, FunctionModel, ValueModel, MAX_BLOB, MAX_ITEMS, MAX_NAME,
    MAX_VALUE_DEPTH,
};
use crate::text::{dec, hex_upper, owned, push_hex_upper, push_str, push_u64, push_usize};

verus! {

/// `[a, b, c, d]` in decimal.
pub open spec fn bytes4_text(b: Seq<u8>) -> Seq<char> {
    "["@ + dec(b[0] as nat) + ", "@ + dec(b[1] as nat) + ", "@ + dec(b[2] as nat) + ", "@ + dec(
        b[3] as nat,
    ) + "]"@
}

fn push_bytes4(out: &mut String, a: u8, b: u8, c: u8, d: u8)
    ensures
        final(out)@ == old(out)@ + bytes4_text(seq![a, b, c, d]),
{
    push_str(out, "[");
    push_u64(out, a as u64);
    push_str(out, ", ");
    push_u64(out, b as u64);
    push_str(out, ", ");
    push_u64(out, c as u64);
    push_str(out, ", ");
    push_u64(out, d as u64);
    push_str(out, "]");
    assert(out@ =~= old(out)@ + bytes4_text(seq![a, b, c, d]));
}

impl FormatError {
    pub open spec fn spec_text(self) -> Seq<char> {
        match self {
            FormatError::BadMagic { found } => "bad magic "@ + bytes4_text(found@)
                + ", expected [66, 70, 86, 48]"@,
            FormatError::UnsupportedAbi(v) => "unsupported ABI version "@ + dec(v as nat),
            FormatError::Truncated => "truncated .bf module"@,
            FormatError::LimitExceeded { what, got } => what@ + " count "@ + dec(got as nat)
                + " exceeds decoder limit"@,
            FormatError::BadUtf8 => "name is not valid UTF-8"@,
            FormatError::UnknownValueTag(t) => "unknown value tag 0x"@ + hex_upper(t as nat, 2),
            FormatError::UnknownOpcode { at, byte } => "unknown opcode 0x"@ + hex_upper(
                byte as nat,
                2,
            ) + " at instruction "@ + dec(at as nat),
            FormatError::ForbiddenConstant(kind) => "untrusted module must not embed "@
                + kind.spec_text() + " in the constant pool"@,
            FormatError::ValueTooNested => "value nesting exceeds decoder limit"@,
        }
    }

    pub fn text(&self) -> (r: String)
        ensures
            r@ == self.spec_text(),
    {
        match *self {
            FormatError::BadMagic { found } => {
                let mut s = owned("bad magic ");
                push_bytes4(&mut s, found[0], found[1], found[2], found[3]);
                assert(found@ =~= seq![found@[0], found@[1], found@[2], found@[3]]);
                push_str(&mut s, ", expected [66, 70, 86, 48]");
                s
            },
            FormatError::UnsupportedAbi(v) => {
                let mut s = owned("unsupported ABI version ");
                push_u64(&mut s, v as u64);
                s
            },
            FormatError::Truncated => owned("truncated .bf module"),
            FormatError::LimitExceeded { what, got } => {
                let mut s = owned(what);
                push_str(&mut s, " count ");
                push_u64(&mut s, got as u64);
                push_str(&mut s, " exceeds decoder limit");
                s
            },
            FormatError::BadUtf8 => owned("name is not valid UTF-8"),
            FormatError::UnknownValueTag(t) => {
                let mut s = owned("unknown value tag 0x");
                push_hex_upper(&mut s, t as u128, 2);
                s
            },
            FormatError::UnknownOpcode { at, byte } => {
                let mut s = owned("unknown opcode 0x");
                push_hex_upper(&mut s, byte as u128, 2);
                push_str(&mut s, " at instruction ");
                push_usize(&mut s, at);
                s
            },
            FormatError::ForbiddenConstant(kind) => {
                let mut s = owned("untrusted module must not embed ");
                push_str(&mut s, kind.text().as_str());
                push_str(&mut s, " in the constant pool");
                s
            },
            FormatError::ValueTooNested => owned("value nesting exceeds decoder limit"),
        }
    }
}

// ---- encoding ---------------------------------------------------------------

fn put(out: &mut Vec<u8>, bytes: &[u8])
    ensures
        final(out)@ == old(out)@ + bytes@,
{
    let ghost o = out@;
    out.extend_from_slice(bytes);
    assert(out@ =~= o + bytes@);
}

fn put_vec(out: &mut Vec<u8>, bytes: Vec<u8>)
    ensures
        final(out)@ == old(out)@ + bytes@,
{
    let mut b = bytes;
    out.append(&mut b);
}

fn put_byte(out: &mut Vec<u8>, byte: u8)
    ensures
        final(out)@ == old(out)@ + seq![byte],
{
    out.push(byte);
    assert(out@ =~= old(out)@ + seq![byte]);
}

/// Append length-prefixed bytes.
fn write_blob(out: &mut Vec<u8>, bytes: &[u8])
    ensures
        final(out)@ == old(out)@ + enc_blob(bytes@),
{
    put_vec(out, u32_to_le_bytes(bytes.len() as u32));
    put(out, bytes);
    assert(out@ =~= old(out)@ + enc_blob(bytes@));
}

/// Append a length-prefixed string.
fn write_string(out: &mut Vec<u8>, s: &str)
    ensures
        final(out)@ == old(out)@ + enc_str(s@),
{
    write_blob(out, s.as_bytes());
}

/// Append the encoding of a value.
fn write_value(out: &mut Vec<u8>, value: &Value)
    ensures
        final(out)@ == old(out)@ + enc_value(value_model(*value)),
    decreases *value,
{
    match value {
        Value::Unit => put_byte(out, 0),
        Value::Bool(b) => {
            put_byte(out, 1);
            let bit: u8 = if *b {
                1
            } else {
                0
            };
            put_byte(out, bit);
            assert(out@ =~= old(out)@ + enc_value(value_model(*value)));
        },
        Value::Int(i) => {
            put_byte(out, 2);
            put_vec(out, u64_to_le_bytes(*i as u64));
            assert(out@ =~= old(out)@ + enc_value(value_model(*value)));
        },
        Value::Float(x) => {
            put_byte(out, 3);
            put_vec(out, u64_to_le_bytes(*x));
            assert(out@ =~= old(out)@ + enc_value(value_model(*value)));
        },
        Value::Pid(p) => {
            put_byte(out, 4);
            put_vec(out, u64_to_le_bytes(*p));
            assert(out@ =~= old(out)@ + enc_value(value_model(*value)));
        },
        Value::Message(m) => {
            put_byte(out, 5);
            put_vec(out, u64_to_le_bytes(m.sender));
            put_vec(out, u128_to_le_bytes(m.reply_cap.as_u128()));
            put_vec(out, u64_to_le_bytes(m.request_id));
            put_vec(out, u16_to_le_bytes(m.tag));
            write_value(out, &*m.payload);
            assert(out@ =~= old(out)@ + enc_value(value_model(*value)));
        },
        Value::Cap(c) => {
            put_byte(out, 6);
            put_vec(out, u128_to_le_bytes(c.as_u128()));
            assert(out@ =~= old(out)@ + enc_value(value_model(*value)));
        },
        Value::Str(s) => {
            put_byte(out, 7);
            write_blob(out, s.as_str().as_bytes());
            assert(out@ =~= old(out)@ + enc_value(value_model(*value)));
        },
        Value::Bytes(b) => {
            put_byte(out, 8);
            write_blob(out, b.as_slice());
            assert(out@ =~= old(out)@ + enc_value(value_model(*value)));
        },
    }
}

proof fn lemma_enc_values_push(s: Seq<ValueModel>, v: ValueModel)
    ensures
        enc_values(s.push(v)) == enc_values(s) + enc_value(v),
    decreases s.len(),
{
    reveal_with_fuel(enc_values, 2);
    if s.len() == 0 {
        assert(s.push(v).drop_first() =~= Seq::empty());
        assert(enc_values(s.push(v)) =~= enc_values(s) + enc_value(v));
    } else {
        assert(s.push(v).drop_first() =~= s.drop_first().push(v));
        lemma_enc_values_push(s.drop_first(), v);
        assert(enc_values(s.push(v)) =~= enc_values(s) + enc_value(v));
    }
}

proof fn lemma_enc_functions_push(s: Seq<FunctionModel>, v: FunctionModel)
    ensures
        enc_functions(s.push(v)) == enc_functions(s) + enc_function(v),
    decreases s.len(),
{
    reveal_with_fuel(enc_functions, 2);
    if s.len() == 0 {
        assert(s.push(v).drop_first() =~= Seq::empty());
        assert(enc_functions(s.push(v)) =~= enc_functions(s) + enc_function(v));
    } else {
        assert(s.push(v).drop_first() =~= s.drop_first().push(v));
        lemma_enc_functions_push(s.drop_first(), v);
        assert(enc_functions(s.push(v)) =~= enc_functions(s) + enc_function(v));
    }
}

proof fn lemma_enc_code_push(s: Seq<Instruction>, v: Instruction)
    ensures
        enc_code(s.push(v)) == enc_code(s) + enc_instruction(v),
    decreases s.len(),
{
    reveal_with_fuel(enc_code, 2);
    if s.len() == 0 {
        assert(s.push(v).drop_first() =~= Seq::empty());
        assert(enc_code(s.push(v)) =~= enc_code(s) + enc_instruction(v));
    } else {
        assert(s.push(v).drop_first() =~= s.drop_first().push(v));
        lemma_enc_code_push(s.drop_first(), v);
        assert(enc_code(s.push(v)) =~= enc_code(s) + enc_instruction(v));
    }
}

fn write_values(out: &mut Vec<u8>, values: &Vec<Value>)
    ensures
        final(out)@ == old(out)@ + enc_values(value_models(values@)),
{
    let ghost models = value_models(values@);
    let mut i: usize = 0;
    assert(out@ =~= old(out)@ + enc_values(models.take(0)));
    while i < values.len()
        invariant
            i <= values@.len(),
            models == value_models(values@),
            out@ == old(out)@ + enc_values(models.take(i as int)),
        decreases values@.len() - i,
    {
        let ghost before = out@;
        write_value(out, &values[i]);
        proof {
            assert(models.take(i as int + 1) =~= models.take(i as int).push(models[i as int]));
            lemma_enc_values_push(models.take(i as int), models[i as int]);
            assert(out@ =~= old(out)@ + enc_values(models.take(i as int + 1)));
        }
        i += 1;
    }
    assert(models.take(i as int) =~= models);
}

fn write_function(out: &mut Vec<u8>, def: &FunctionDef)
    ensures
        final(out)@ == old(out)@ + enc_function(function_model(*def)),
{
    write_string(out, def.name.as_str());
    put_vec(out, u32_to_le_bytes(def.entry));
    put_byte(out, def.arity);
    put_byte(out, def.num_registers);
    assert(out@ =~= old(out)@ + enc_function(function_model(*def)));
}

fn write_functions(out: &mut Vec<u8>, defs: &Vec<FunctionDef>)
    ensures
        final(out)@ == old(out)@ + enc_functions(function_models(defs@)),
{
    let ghost models = function_models(defs@);
    let mut i: usize = 0;
    assert(out@ =~= old(out)@ + enc_functions(models.take(0)));
    while i < defs.len()
        invariant
            i <= defs@.len(),
            models == function_models(defs@),
            out@ == old(out)@ + enc_functions(models.take(i as int)),
        decreases defs@.len() - i,
    {
        write_function(out, &defs[i]);
        proof {
            assert(models.take(i as int + 1) =~= models.take(i as int).push(models[i as int]));
            lemma_enc_functions_push(models.take(i as int), models[i as int]);
            assert(out@ =~= old(out)@ + enc_functions(models.take(i as int + 1)));
        }
        i += 1;
    }
    assert(models.take(i as int) =~= models);
}

fn write_code(out: &mut Vec<u8>, code: &Vec<Instruction>)
    ensures
        final(out)@ == old(out)@ + enc_code(code@),
{
    let mut i: usize = 0;
    assert(out@ =~= old(out)@ + enc_code(code@.take(0)));
    while i < code.len()
        invariant
            i <= code@.len(),
            out@ == old(out)@ + enc_code(code@.take(i as int)),
        decreases code@.len() - i,
    {
        let ghost before = out@;
        let instr = code[i];
        put_byte(out, instr.op.as_u8());
        put_byte(out, instr.a);
        put_byte(out, instr.b);
        put_byte(out, instr.c);
        put_vec(out, u32_to_le_bytes(instr.imm as u32));
        proof {
            assert(out@ =~= before + enc_instruction(instr));
            assert(code@.take(i as int + 1) =~= code@.take(i as int).push(instr));
            lemma_enc_code_push(code@.take(i as int), instr);
            assert(out@ =~= old(out)@ + enc_code(code@.take(i as int + 1)));
        }
        i += 1;
    }
    assert(code@.take(i as int) =~= code@);
}

/// Encode a module.
pub fn encode(chunk: &Chunk) -> (r: Vec<u8>)
    ensures
        r@ == enc_chunk(chunk_model(*chunk)),
{
    let mut out: Vec<u8> = Vec::new();
    put_byte(&mut out, MAGIC[0]);
    put_byte(&mut out, MAGIC[1]);
    put_byte(&mut out, MAGIC[2]);
    put_byte(&mut out, MAGIC[3]);
    assert(out@ =~= magic());
    put_vec(&mut out, u32_to_le_bytes(ABI_VERSION));
    write_string(&mut out, chunk.name.as_str());
    put_vec(&mut out, u32_to_le_bytes(chunk.constants.len() as u32));
    write_values(&mut out, &chunk.constants);
    put_vec(&mut out, u32_to_le_bytes(chunk.functions.len() as u32));
    write_functions(&mut out, &chunk.functions);
    put_vec(&mut out, u32_to_le_bytes(chunk.code.len() as u32));
    write_code(&mut out, &chunk.code);
    assert(out@ =~= enc_chunk(chunk_model(*chunk)));
    out
}

// ---- decoding ---------------------------------------------------------------

/// `String::from_utf8` on a copy of `bytes`: the string that the bytes
/// encode, or nothing when they are not UTF-8.
#[verifier::external_body]
fn utf8_string(bytes: &[u8]) -> (r: Option<String>)
    ensures
        match r {
            Some(s) => valid_utf8(bytes@) && s@ == decode_utf8(bytes@),
            None => !valid_utf8(bytes@),
        },
{
    String::from_utf8(bytes.to_vec()).ok()
}

/// Read cursor over a byte string.
struct Reader<'a> {
    data: &'a [u8],
    pos: usize,
}

impl<'a> Reader<'a> {
    spec fn wf(&self) -> bool {
        self.pos <= self.data@.len()
    }

    /// The unread bytes.
    spec fn rest(&self) -> Seq<u8> {
        self.data@.skip(self.pos as int)
    }

    fn take(&mut self, n: usize) -> (r: Result<&'a [u8], FormatError>)
        requires
            old(self).wf(),
        ensures
            final(self).wf(),
            match dec_take(old(self).rest(), n as nat) {
                Ok((b, t)) => r matches Ok(x) && x@ == b && final(self).rest() == t,
                Err(e) => r == Err::<&'a [u8], FormatError>(e),
            },
    {
        if self.data.len() - self.pos < n {
            return Err(FormatError::Truncated);
        }
        let out = slice_subrange(self.data, self.pos, self.pos + n);
        proof {
            assert(out@ =~= self.rest().take(n as int));
            assert(self.data@.skip(self.pos as int + n as int) =~= self.rest().skip(n as int));
        }
        self.pos = self.pos + n;
        Ok(out)
    }

    fn read_u8(&mut self) -> (r: Result<u8, FormatError>)
        requires
            old(self).wf(),
        ensures
            final(self).wf(),
            match dec_u8(old(self).rest()) {
                Ok((x, t)) => r == Ok::<u8, FormatError>(x) && final(self).rest() == t,
                Err(e) => r == Err::<u8, FormatError>(e),
            },
    {
        match self.take(1) {
            Ok(b) => Ok(b[0]),
            Err(e) => Err(e),
        }
    }

    fn read_u16(&mut self) -> (r: Result<u16, FormatError>)
        requires
            old(self).wf(),
        ensures
            final(self).wf(),
            match dec_u16(old(self).rest()) {
                Ok((x, t)) => r == Ok::<u16, FormatError>(x) && final(self).rest() == t,
                Err(e) => r == Err::<u16, FormatError>(e),
            },
    {
        match self.take(2) {
            Ok(b) => Ok(u16_from_le_bytes(b)),
            Err(e) => Err(e),
        }
    }

    fn read_u32(&mut self) -> (r: Result<u32, FormatError>)
        requires
            old(self).wf(),
        ensures
            final(self).wf(),
            match dec_u32(old(self).rest()) {
                Ok((x, t)) => r == Ok::<u32, FormatError>(x) && final(self).rest() == t,
                Err(e) => r == Err::<u32, FormatError>(e),
            },
    {
        match self.take(4) {
            Ok(b) => Ok(u32_from_le_bytes(b)),
            Err(e) => Err(e),
        }
    }

    fn read_u64(&mut self) -> (r: Result<u64, FormatError>)
        requires
            old(self).wf(),
        ensures
            final(self).wf(),
            match dec_u64(old(self).rest()) {
                Ok((x, t)) => r == Ok::<u64, FormatError>(x) && final(self).rest() == t,
                Err(e) => r == Err::<u64, FormatError>(e),
            },
    {
        match self.take(8) {
            Ok(b) => Ok(u64_from_le_bytes(b)),
            Err(e) => Err(e),
        }
    }

    fn read_u128(&mut self) -> (r: Result<u128, FormatError>)
        requires
            old(self).wf(),
        ensures
            final(self).wf(),
            match dec_u128(old(self).rest()) {
                Ok((x, t)) => r == Ok::<u128, FormatError>(x) && final(self).rest() == t,
                Err(e) => r == Err::<u128, FormatError>(e),
            },
    {
        match self.take(16) {
            Ok(b) => Ok(u128_from_le_bytes(b)),
            Err(e) => Err(e),
        }
    }

    fn read_count(&mut self, what: &'static str) -> (r: Result<u32, FormatError>)
        requires
            old(self).wf(),
        ensures
            final(self).wf(),
            match dec_count(old(self).rest(), what) {
                Ok((x, t)) => r == Ok::<u32, FormatError>(x) && final(self).rest() == t,
                Err(e) => r == Err::<u32, FormatError>(e),
            },
    {
        match self.read_u32() {
            Err(e) => Err(e),
            Ok(n) => if n > MAX_ITEMS {
                Err(FormatError::LimitExceeded { what, got: n })
            } else {
                Ok(n)
            },
        }
    }

    fn read_blob(&mut self, what: &'static str, limit: u32) -> (r: Result<&'a [u8], FormatError>)
        requires
            old(self).wf(),
        ensures
            final(self).wf(),
            match dec_blob(old(self).rest(), what, limit) {
                Ok((x, t)) => r matches Ok(b) && b@ == x && final(self).rest() == t,
                Err(e) => r == Err::<&'a [u8], FormatError>(e),
            },
    {
        match self.read_u32() {
            Err(e) => Err(e),
            Ok(n) => if n > limit {
                Err(FormatError::LimitExceeded { what, got: n })
            } else {
                self.take(n as usize)
            },
        }
    }

    fn read_text(&mut self, what: &'static str, limit: u32) -> (r: Result<String, FormatError>)
        requires
            old(self).wf(),
        ensures
            final(self).wf(),
            match dec_text(old(self).rest(), what, limit) {
                Ok((x, t)) => r matches Ok(s) && s@ == x && final(self).rest() == t,
                Err(e) => r == Err::<String, FormatError>(e),
            },
    {
        match self.read_blob(what, limit) {
            Err(e) => Err(e),
            Ok(b) => match utf8_string(b) {
                Some(s) => Ok(s),
                None => Err(FormatError::BadUtf8),
            },
        }
    }

    fn read_string(&mut self) -> (r: Result<String, FormatError>)
        requires
            old(self).wf(),
        ensures
            final(self).wf(),
            match dec_name(old(self).rest()) {
                Ok((x, t)) => r matches Ok(s) && s@ == x && final(self).rest() == t,
                Err(e) => r == Err::<String, FormatError>(e),
            },
    {
        self.read_text("name", MAX_NAME)
    }

    fn read_message(&mut self, trust: TrustLevel, depth: u32) -> (r: Result<Value, FormatError>)
        requires
            old(self).wf(),
            depth <= MAX_VALUE_DEPTH,
        ensures
            final(self).wf(),
            match dec_message(old(self).rest(), trust, depth as nat) {
                Ok((x, t)) => r matches Ok(v) && value_model(v) == x && final(self).rest() == t,
                Err(e) => r == Err::<Value, FormatError>(e),
            },
        decreases MAX_VALUE_DEPTH + 1 - depth, 0int,
    {
        let sender = match self.read_u64() {
            Ok(x) => x,
            Err(e) => return Err(e),
        };
        let cap = match self.read_u128() {
            Ok(x) => x,
            Err(e) => return Err(e),
        };
        let request_id = match self.read_u64() {
            Ok(x) => x,
            Err(e) => return Err(e),
        };
        let tag = match self.read_u16() {
            Ok(x) => x,
            Err(e) => return Err(e),
        };
        let payload = match self.read_value(trust, depth + 1) {
            Ok(x) => x,
            Err(e) => return Err(e),
        };
        Ok(
            Value::Message(
                Message::new(sender, request_id, tag, payload).authenticate(
                    sender,
                    CapId::from_raw(cap),
                ),
            ),
        )
    }

    fn read_value(&mut self, trust: TrustLevel, depth: u32) -> (r: Result<Value, FormatError>)
        requires
            old(self).wf(),
            depth <= MAX_VALUE_DEPTH + 1,
        ensures
            final(self).wf(),
            match dec_value(old(self).rest(), trust, depth as nat) {
                Ok((x, t)) => r matches Ok(v) && value_model(v) == x && final(self).rest() == t,
                Err(e) => r == Err::<Value, FormatError>(e),
            },
        decreases MAX_VALUE_DEPTH + 1 - depth, 1int,
    {
        if depth > MAX_VALUE_DEPTH {
            return Err(FormatError::ValueTooNested);
        }
        let tag = match self.read_u8() {
            Ok(x) => x,
            Err(e) => return Err(e),
        };
        match tag {
            0 => Ok(Value::Unit),
            1 => match self.read_u8() {
                Ok(b) => Ok(Value::Bool(b != 0)),
                Err(e) => Err(e),
            },
            2 => match self.read_u64() {
                Ok(x) => Ok(Value::Int(x as i64)),
                Err(e) => Err(e),
            },
            3 => match self.read_u64() {
                Ok(x) => Ok(Value::Float(x)),
                Err(e) => Err(e),
            },
            4 => {
                if trust == TrustLevel::Untrusted {
                    return Err(FormatError::ForbiddenConstant(ConstantKind::ProcessId));
                }
                match self.read_u64() {
                    Ok(x) => Ok(Value::Pid(x)),
                    Err(e) => Err(e),
                }
            },
            5 => {
                if trust == TrustLevel::Untrusted {
                    return Err(FormatError::ForbiddenConstant(ConstantKind::Message));
                }
                self.read_message(trust, depth)
            },
            6 => {
                if trust == TrustLevel::Untrusted {
                    return Err(FormatError::ForbiddenConstant(ConstantKind::Capability));
                }
                match self.read_u128() {
                    Ok(x) => Ok(Value::Cap(CapId::from_raw(x))),
                    Err(e) => Err(e),
                }
            },
            7 => match self.read_text("str", MAX_BLOB) {
                Ok(s) => Ok(Value::Str(Arc::new(s))),
                Err(e) => Err(e),
            },
            8 => match self.read_blob("bytes", MAX_BLOB) {
                Ok(b) => Ok(Value::bytes(slice_to_vec(b))),
                Err(e) => Err(e),
            },
            _ => Err(FormatError::UnknownValueTag(tag)),
        }
    }

    fn read_values(&mut self, n: u32, trust: TrustLevel) -> (r: Result<Vec<Value>, FormatError>)
        requires
            old(self).wf(),
        ensures
            final(self).wf(),
            match dec_values(old(self).rest(), n as nat, trust) {
                Ok((x, t)) => r matches Ok(v) && value_models(v@) == x && final(self).rest() == t,
                Err(e) => r == Err::<Vec<Value>, FormatError>(e),
            },
    {
        let mut out: Vec<Value> = Vec::new();
        let mut i: u32 = 0;
        let ghost start = self.rest();
        proof {
            assert(value_models(out@) =~= Seq::empty());
            let whole = dec_values(start, n as nat, trust);
            if whole is Ok {
                assert(Seq::<ValueModel>::empty() + whole->Ok_0.0 =~= whole->Ok_0.0);
            }
        }
        while i < n
            invariant
                i <= n,
                self.wf(),
                start == old(self).rest(),
                dec_values(start, n as nat, trust) == prepend(
                    value_models(out@),
                    dec_values(self.rest(), (n - i) as nat, trust),
                ),
            decreases n - i,
        {
            let ghost before = out@;
            let ghost at = self.rest();
            match self.read_value(trust, 0) {
                Ok(v) => {
                    out.push(v);
                    proof {
                        let tail = dec_values(self.rest(), (n - i - 1) as nat, trust);
                        assert(value_models(out@) =~= value_models(before).push(value_model(v)));
                        if tail is Ok {
                            assert(value_models(out@) + tail->Ok_0.0 =~= value_models(before) + (
                            seq![value_model(v)] + tail->Ok_0.0));
                        }
                    }
                },
                Err(e) => return Err(e),
            }
            i += 1;
        }
        proof {
            assert(value_models(out@) + Seq::<ValueModel>::empty() =~= value_models(out@));
        }
        Ok(out)
    }

    fn read_function(&mut self) -> (r: Result<FunctionDef, FormatError>)
        requires
            old(self).wf(),
        ensures
            final(self).wf(),
            match dec_function(old(self).rest()) {
                Ok((x, t)) => r matches Ok(d) && function_model(d) == x && final(self).rest() == t,
                Err(e) => r == Err::<FunctionDef, FormatError>(e),
            },
    {
        let name = match self.read_string() {
            Ok(x) => x,
            Err(e) => return Err(e),
        };
        let entry = match self.read_u32() {
            Ok(x) => x,
            Err(e) => return Err(e),
        };
        let arity = match self.read_u8() {
            Ok(x) => x,
            Err(e) => return Err(e),
        };
        let num_registers = match self.read_u8() {
            Ok(x) => x,
            Err(e) => return Err(e),
        };
        Ok(FunctionDef { name, entry, arity, num_registers })
    }

    fn read_functions(&mut self, n: u32) -> (r: Result<Vec<FunctionDef>, FormatError>)
        requires
            old(self).wf(),
        ensures
            final(self).wf(),
            match dec_functions(old(self).rest(), n as nat) {
                Ok((x, t)) => r matches Ok(v) && function_models(v@) == x && final(self).rest()
                    == t,
                Err(e) => r == Err::<Vec<FunctionDef>, FormatError>(e),
            },
    {
        let mut out: Vec<FunctionDef> = Vec::new();
        let mut i: u32 = 0;
        let ghost start = self.rest();
        proof {
            assert(function_models(out@) =~= Seq::empty());
            let whole = dec_functions(start, n as nat);
            if whole is Ok {
                assert(Seq::<FunctionModel>::empty() + whole->Ok_0.0 =~= whole->Ok_0.0);
            }
        }
        while i < n
            invariant
                i <= n,
                self.wf(),
                start == old(self).rest(),
                dec_functions(start, n as nat) == prepend(
                    function_models(out@),
                    dec_functions(self.rest(), (n - i) as nat),
                ),
            decreases n - i,
        {
            let ghost before = out@;
            match self.read_function() {
                Ok(v) => {
                    out.push(v);
                    proof {
                        let tail = dec_functions(self.rest(), (n - i - 1) as nat);
                        assert(function_models(out@) =~= function_models(before).push(
                            function_model(v),
                        ));
                        if tail is Ok {
                            assert(function_models(out@) + tail->Ok_0.0 =~= function_models(before)
                                + (seq![function_model(v)] + tail->Ok_0.0));
                        }
                    }
                },
                Err(e) => return Err(e),
            }
            i += 1;
        }
        proof {
            assert(function_models(out@) + Seq::<FunctionModel>::empty() =~= function_models(out@));
        }
        Ok(out)
    }

    fn read_instruction(&mut self, at: usize) -> (r: Result<Instruction, FormatError>)
        requires
            old(self).wf(),
        ensures
            final(self).wf(),
            match dec_instruction(old(self).rest(), at as nat) {
                Ok((x, t)) => r == Ok::<Instruction, FormatError>(x) && final(self).rest() == t,
                Err(e) => r == Err::<Instruction, FormatError>(e),
            },
    {
        let byte = match self.read_u8() {
            Ok(x) => x,
            Err(e) => return Err(e),
        };
        let op = match Opcode::from_u8(byte) {
            Some(op) => op,
            None => return Err(FormatError::UnknownOpcode { at, byte }),
        };
        let a = match self.read_u8() {
            Ok(x) => x,
            Err(e) => return Err(e),
        };
        let b = match self.read_u8() {
            Ok(x) => x,
            Err(e) => return Err(e),
        };
        let c = match self.read_u8() {
            Ok(x) => x,
            Err(e) => return Err(e),
        };
        let imm = match self.read_u32() {
            Ok(x) => x,
            Err(e) => return Err(e),
        };
        Ok(Instruction { op, a, b, c, imm: imm as i32 })
    }

    fn read_code(&mut self, n: u32) -> (r: Result<Vec<Instruction>, FormatError>)
        requires
            old(self).wf(),
        ensures
            final(self).wf(),
            match dec_code(old(self).rest(), n as nat, 0) {
                Ok((x, t)) => r matches Ok(v) && v@ == x && final(self).rest() == t,
                Err(e) => r == Err::<Vec<Instruction>, FormatError>(e),
            },
    {
        let mut out: Vec<Instruction> = Vec::new();
        let mut i: u32 = 0;
        let ghost start = self.rest();
        proof {
            let whole = dec_code(start, n as nat, 0);
            if whole is Ok {
                assert(out@ + whole->Ok_0.0 =~= whole->Ok_0.0);
            }
        }
        while i < n
            invariant
                i <= n,
                self.wf(),
                start == old(self).rest(),
                dec_code(start, n as nat, 0) == prepend(
                    out@,
                    dec_code(self.rest(), (n - i) as nat, i as nat),
                ),
            decreases n - i,
        {
            let ghost before = out@;
            match self.read_instruction(i as usize) {
                Ok(v) => {
                    out.push(v);
                    proof {
                        let tail = dec_code(self.rest(), (n - i - 1) as nat, i as nat + 1);
                        if tail is Ok {
                            assert(out@ + tail->Ok_0.0 =~= before + (seq![v] + tail->Ok_0.0));
                        }
                    }
                },
                Err(e) => return Err(e),
            }
            i += 1;
        }
        proof {
            assert(out@ + Seq::<Instruction>::empty() =~= out@);
        }
        Ok(out)
    }

    fn read_body(&mut self, trust: TrustLevel) -> (r: Result<Chunk, FormatError>)
        requires
            old(self).wf(),
        ensures
            match dec_body(old(self).rest(), trust) {
                Ok(x) => r matches Ok(c) && chunk_model(c) == x,
                Err(e) => r == Err::<Chunk, FormatError>(e),
            },
    {
        proof {
            reveal(dec_body);
        }
        let name = match self.read_string() {
            Ok(x) => x,
            Err(e) => return Err(e),
        };
        let nc = match self.read_count("constants") {
            Ok(x) => x,
            Err(e) => return Err(e),
        };
        let constants = match self.read_values(nc, trust) {
            Ok(x) => x,
            Err(e) => return Err(e),
        };
        let nf = match self.read_count("functions") {
            Ok(x) => x,
            Err(e) => return Err(e),
        };
        let functions = match self.read_functions(nf) {
            Ok(x) => x,
            Err(e) => return Err(e),
        };
        let ni = match self.read_count("code") {
            Ok(x) => x,
            Err(e) => return Err(e),
        };
        let code = match self.read_code(ni) {
            Ok(x) => x,
            Err(e) => return Err(e),
        };
        Ok(Chunk { name, constants, code, functions })
    }
}

/// Decode an untrusted module: authority constants are refused.
pub fn decode(bytes: &[u8]) -> (r: Result<Chunk, FormatError>)
    ensures
        match dec_chunk(bytes@, TrustLevel::Untrusted) {
            Ok(x) => r matches Ok(c) && chunk_model(c) == x,
            Err(e) => r == Err::<Chunk, FormatError>(e),
        },
{
    decode_with(bytes, TrustLevel::Untrusted)
}

/// Decode a module at an explicit trust level.
pub fn decode_with(bytes: &[u8], trust: TrustLevel) -> (r: Result<Chunk, FormatError>)
    ensures
        match dec_chunk(bytes@, trust) {
            Ok(x) => r matches Ok(c) && chunk_model(c) == x,
            Err(e) => r == Err::<Chunk, FormatError>(e),
        },
{
    let mut reader = Reader { data: bytes, pos: 0 };
    assert(reader.rest() =~= bytes@);
    let found = match reader.take(4) {
        Ok(b) => b,
        Err(e) => return Err(e),
    };
    if found[0] != MAGIC[0] || found[1] != MAGIC[1] || found[2] != MAGIC[2] || found[3] != MAGIC[3] {
        let head = [found[0], found[1], found[2], found[3]];
        assert(head@ =~= [found@[0], found@[1], found@[2], found@[3]]@);
        return Err(FormatError::BadMagic { found: head });
    }
    assert(found@ =~= magic());
    let abi = match reader.read_u32() {
        Ok(x) => x,
        Err(e) => return Err(e),
    };
    if abi != ABI_VERSION {
        return Err(FormatError::UnsupportedAbi(abi));
    }
    reader.read_body(trust)
}

} // verus!
