use byteflow::bytecode::builder::ChunkBuilder;
use byteflow::bytecode::cap::CapId;
use byteflow::bytecode::chunk::{Chunk, FunctionDef, ABI_VERSION, MAGIC};
use byteflow::bytecode::disasm::disassemble;
use byteflow::bytecode::format::{decode, decode_with, encode, FormatError};
use byteflow::bytecode::opcode::Opcode;
use byteflow::bytecode::value::{Message, Value};
use byteflow::bytecode::verify::{verify, TrustLevel};

fn same_functions(a: &Chunk, b: &Chunk) -> bool {
    let fields = |f: &FunctionDef| (f.name.clone(), f.entry, f.arity, f.num_registers);
    a.functions.iter().map(fields).collect::<Vec<_>>() == b.functions.iter().map(fields).collect::<Vec<_>>()
}

#[test]
fn lists_main() {
    let mut b = ChunkBuilder::new("d");
    b.begin_function("main", 0, 1);
    b.emit_load_imm(0, 1);
    b.emit_return(0);
    let text = disassemble(&b.finish(), &Vec::new());
    assert!(text.contains("LoadImm r0, 1"));
    assert!(text.contains("main"));
}

#[test]
fn roundtrip_preserves_chunk() {
    let mut b = ChunkBuilder::new("roundtrip");
    b.begin_function("main", 0, 2);
    let k = b.const_(Value::Int(9));
    b.emit_load_const(0, k);
    b.emit_load_imm(1, 1);
    b.emit_binop(Opcode::Add, 0, 0, 1);
    b.emit_return(0);
    let original = b.finish();
    let bytes = encode(&original);
    assert_eq!(&bytes[..4], &MAGIC);
    let decoded = decode(&bytes).unwrap();
    assert!(verify(&decoded).is_ok());
    assert_eq!(decoded.name, original.name);
    assert_eq!(decoded.constants, original.constants);
    assert_eq!(decoded.code, original.code);
    assert!(same_functions(&decoded, &original));
}

#[test]
fn roundtrip_preserves_message_constant() {
    let mut b = ChunkBuilder::new("msg-const");
    b.begin_function("main", 0, 1);
    let k = b.const_(Value::Message(Message::new(1, 2, 3, Value::from(4u64))));
    b.emit_load_const(0, k);
    b.emit_return(0);
    let original = b.finish();
    let decoded = decode_with(&encode(&original), TrustLevel::Trusted).unwrap();
    assert_eq!(decoded.constants, original.constants);
    let got = decoded.constants[0].as_message().unwrap();
    assert_eq!(got.sender, 1);
    assert_eq!(got.request_id, 2);
    assert_eq!(got.tag, 3);
    assert_eq!(got.payload.as_ref(), &Value::Int(4));
}

#[test]
fn untrusted_decode_rejects_cap_constant() {
    let mut b = ChunkBuilder::new("cap-const");
    b.begin_function("main", 0, 1);
    let k = b.const_(Value::Cap(CapId::from_raw(1)));
    b.emit_load_const(0, k);
    b.emit_return(0);
    let bytes = encode(&b.finish());
    assert!(matches!(decode(&bytes), Err(FormatError::ForbiddenConstant(_))));
    assert!(decode_with(&bytes, TrustLevel::Trusted).is_ok());
}

#[test]
fn roundtrip_preserves_str_and_bytes_constants() {
    let mut b = ChunkBuilder::new("blob-const");
    b.begin_function("main", 0, 2);
    let ks = b.const_(Value::str("olá"));
    let kb = b.const_(Value::bytes(vec![0u8, 255, 7]));
    b.emit_load_const(0, ks);
    b.emit_load_const(1, kb);
    b.emit_return(0);
    let original = b.finish();
    let decoded = decode(&encode(&original)).unwrap();
    assert_eq!(decoded.constants, original.constants);
    assert_eq!(decoded.constants[0].as_str(), Some("olá"));
    assert_eq!(decoded.constants[1].as_bytes(), Some(&[0, 255, 7][..]));
}

#[test]
fn rejects_bad_magic() {
    assert!(matches!(decode(b"XXXX"), Err(FormatError::BadMagic { .. })));
}

fn small() -> Vec<u8> {
    let mut b = ChunkBuilder::new("s");
    b.begin_function("main", 0, 1);
    b.emit_return(0);
    encode(&b.finish())
}

#[test]
fn every_proper_prefix_is_refused() {
    let bytes = small();
    for n in 0..bytes.len() {
        assert!(decode(&bytes[..n]).is_err(), "prefix of {n} bytes");
    }
    assert!(decode(&bytes).is_ok());
}

#[test]
fn another_abi_is_refused() {
    let mut bytes = small();
    assert_eq!(bytes[4..8], ABI_VERSION.to_le_bytes());
    bytes[4] = 0xEE;
    assert!(matches!(decode(&bytes), Err(FormatError::UnsupportedAbi(v)) if v == 0xEE));
}

#[test]
fn a_name_that_is_no_text_is_refused() {
    let mut bytes = small();
    let at = bytes.iter().position(|&b| b == b's').unwrap();
    bytes[at] = 0xFF;
    assert!(decode(&bytes).is_err());
}

#[test]
fn a_float_constant_keeps_its_bits() {
    let mut b = ChunkBuilder::new("f");
    b.begin_function("main", 0, 1);
    let k = b.const_(Value::Float(1.5f64.to_bits()));
    b.emit_load_const(0, k);
    b.emit_return(0);
    let decoded = decode(&encode(&b.finish())).unwrap();
    match decoded.constants[0] {
        Value::Float(bits) => assert_eq!(f64::from_bits(bits), 1.5),
        _ => panic!("not a float"),
    }
}

#[test]
fn every_strict_prefix_is_truncated() {
    let mut b = ChunkBuilder::new("prefix");
    b.const_(Value::Int(-3));
    b.const_(Value::Str(std::sync::Arc::new(String::from("text"))));
    b.const_(Value::Bytes(std::sync::Arc::new(vec![1, 2, 3])));
    b.const_(Value::Bool(true));
    b.begin_function("main", 0, 2);
    b.emit_load_imm(0, 1);
    b.emit_return(0);
    let bytes = encode(&b.finish());
    assert!(decode(&bytes).is_ok());
    for k in 0..bytes.len() {
        assert!(matches!(decode(&bytes[..k]), Err(FormatError::Truncated)), "{k}");
    }
    let mut longer = bytes.clone();
    longer.push(7);
    assert!(decode(&longer).is_ok());
}
