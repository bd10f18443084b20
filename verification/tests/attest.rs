use std::collections::hash_map::DefaultHasher;
use std::hash::{Hash, Hasher};

use byteflow::attest::{decode_attested, fingerprint_bf, AttestError};
use byteflow::bytecode::chunk::Chunk;
use byteflow::bytecode::format::encode;
use byteflow::bytecode::program::Program;

fn demo() -> Chunk {
    let mut program = Program::new("attest-demo");
    program.function("main", 0, |mut f| {
        let a = f.load_i32(41);
        let b = f.load_i32(1);
        let sum = f.add(a, b);
        f.return_(sum);
        f
    });
    program.build()
}

#[test]
fn roundtrip_fingerprint_then_decode_attested() {
    let chunk = demo();
    let bytes = encode(&chunk);
    let digest = fingerprint_bf(&bytes);
    let decoded = decode_attested(&bytes, &digest).unwrap();
    assert_eq!(decoded.name, chunk.name);
    assert_eq!(decoded.code.len(), chunk.code.len());
}

#[test]
fn wrong_digest_fails_before_decode() {
    let mut program = Program::new("attest-bad");
    program.function("main", 0, |mut f| {
        let v = f.load_i32(1);
        f.return_(v);
        f
    });
    let bytes = encode(&program.build());
    let mut bad = fingerprint_bf(&bytes);
    bad[0] ^= 0xFF;
    match decode_attested(&bytes, &bad) {
        Err(AttestError::DigestMismatch { .. }) => {}
        other => panic!("expected DigestMismatch, got {other:?}"),
    }
}

#[test]
fn fingerprint_is_deterministic() {
    let bytes = b"BFV0-not-a-real-module-but-stable";
    assert_eq!(fingerprint_bf(bytes), fingerprint_bf(bytes));
}

#[test]
fn a_fingerprint_depends_on_length_and_content() {
    let empty = fingerprint_bf(&[]);
    assert_ne!(empty, fingerprint_bf(&[0]));
    assert_ne!(fingerprint_bf(&[0]), fingerprint_bf(&[0, 0]));
    assert_ne!(fingerprint_bf(&[1, 2]), fingerprint_bf(&[2, 1]));
}

#[test]
fn attested_garbage_is_refused_by_the_decoder() {
    let digest = fingerprint_bf(b"XXXX");
    match decode_attested(b"XXXX", &digest) {
        Err(AttestError::DigestMismatch { .. }) => panic!("the digest is right"),
        Err(e) => assert!(e.text().contains("magic")),
        Ok(_) => panic!("not a module"),
    }
}

fn lane(bytes: &[u8], lane: u64, round: u64) -> u64 {
    let mut hasher = DefaultHasher::new();
    0xBF01_464C_4F57_7630u64.hash(&mut hasher);
    lane.hash(&mut hasher);
    round.hash(&mut hasher);
    (bytes.len() as u64).hash(&mut hasher);
    bytes.hash(&mut hasher);
    hasher.finish()
}

#[test]
fn a_fingerprint_is_four_lanes_of_hash_rounds() {
    let bytes = b"some module";
    let mut expected = Vec::new();
    for l in 0..4u64 {
        let mut state = lane(bytes, l, 0);
        for round in 1u64..=4 {
            state = lane(bytes, l, round ^ state);
        }
        expected.extend_from_slice(&state.to_le_bytes());
    }
    assert_eq!(fingerprint_bf(bytes).to_vec(), expected);
}
