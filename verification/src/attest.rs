//! Integrity fingerprint of a module's bytes. It uses no key and is no
//! signature.

use std::collections::hash_map::DefaultHasher;
use std::hash::Hasher;
use vstd::prelude::*;
use vstd::bytes::{spec_u64_to_le_bytes, u64_to_le_bytes};
use vstd::std_specs::hash::DefaultHasherAdditionalSpecFns;

use crate::bytecode::chunk::Chunk;
use crate::bytecode::format::decode;
use crate::bytecode::verify::TrustLevel;
use crate::bytecode::wire::{chunk_model, dec_chunk};
use crate::text::{hex, owned, push_hex, push_str};

verus! {

/// Mixed into every round; not a secret.
pub const FINGERPRINT_DOMAIN: u64 = 0xBF01_464C_4F57_7630;

/// What a round feeds to the hasher: the domain, the lane, the round and
/// twice the length, low byte first, then the bytes.
pub open spec fn lane_input(bytes: Seq<u8>, lane: u64, round: u64) -> Seq<Seq<u8>> {
    seq![
        spec_u64_to_le_bytes(FINGERPRINT_DOMAIN),
        spec_u64_to_le_bytes(lane),
        spec_u64_to_le_bytes(round),
        spec_u64_to_le_bytes(bytes.len() as u64),
        spec_u64_to_le_bytes(bytes.len() as u64),
        bytes,
    ]
}

/// The hash of one round.
pub open spec fn mix(bytes: Seq<u8>, lane: u64, round: u64) -> u64 {
    DefaultHasher::spec_finish(lane_input(bytes, lane, round))
}

/// The state of a lane after round `round`.
pub open spec fn lane_state(bytes: Seq<u8>, lane: u64, round: nat) -> u64
    decreases round,
{
    if round == 0 {
        mix(bytes, lane, 0)
    } else {
        mix(bytes, lane, (round as u64) ^ lane_state(bytes, lane, (round - 1) as nat))
    }
}

/// The fingerprint: four lanes of four rounds each.
pub open spec fn fingerprint(bytes: Seq<u8>) -> Seq<u8> {
    spec_u64_to_le_bytes(lane_state(bytes, 0, 4)) + spec_u64_to_le_bytes(lane_state(bytes, 1, 4))
        + spec_u64_to_le_bytes(lane_state(bytes, 2, 4)) + spec_u64_to_le_bytes(
        lane_state(bytes, 3, 4),
    )
}

fn mix_lane(bytes: &[u8], lane: u64, round: u64) -> (r: u64)
    ensures
        r == mix(bytes@, lane, round),
{
    let mut hasher = DefaultHasher::new();
    hasher.write(u64_to_le_bytes(FINGERPRINT_DOMAIN).as_slice());
    hasher.write(u64_to_le_bytes(lane).as_slice());
    hasher.write(u64_to_le_bytes(round).as_slice());
    hasher.write(u64_to_le_bytes(bytes.len() as u64).as_slice());
    hasher.write(u64_to_le_bytes(bytes.len() as u64).as_slice());
    hasher.write(bytes);
    assert(hasher@ =~= lane_input(bytes@, lane, round));
    hasher.finish()
}

fn run_lane(bytes: &[u8], lane: u64) -> (r: u64)
    ensures
        r == lane_state(bytes@, lane, 4),
{
    let mut state: u64 = mix_lane(bytes, lane, 0);
    let mut round: u64 = 1;
    while round <= 4
        invariant
            1 <= round <= 5,
            state == lane_state(bytes@, lane, (round - 1) as nat),
        decreases 5 - round,
    {
        state = mix_lane(bytes, lane, round ^ state);
        round += 1;
    }
    state
}

/// Deterministic 32-byte fingerprint of a buffer.
pub fn fingerprint_bf(bytes: &[u8]) -> (r: [u8; 32])
    ensures
        r@ == fingerprint(bytes@),
{
    let mut out: Vec<u8> = u64_to_le_bytes(run_lane(bytes, 0));
    let mut next: Vec<u8> = u64_to_le_bytes(run_lane(bytes, 1));
    out.append(&mut next);
    let mut next: Vec<u8> = u64_to_le_bytes(run_lane(bytes, 2));
    out.append(&mut next);
    let mut next: Vec<u8> = u64_to_le_bytes(run_lane(bytes, 3));
    out.append(&mut next);
    let r: [u8; 32] = [
        out[0], out[1], out[2], out[3], out[4], out[5], out[6], out[7],
        out[8], out[9], out[10], out[11], out[12], out[13], out[14], out[15],
        out[16], out[17], out[18], out[19], out[20], out[21], out[22], out[23],
        out[24], out[25], out[26], out[27], out[28], out[29], out[30], out[31],
    ];
    assert(r@ =~= out@);
    r
}

/// Failure of [`decode_attested`].
#[derive(Debug, Clone, PartialEq, Eq)]
pub enum AttestError {
    /// The fingerprint is not the expected one.
    DigestMismatch { expected: [u8; 32], actual: [u8; 32] },
    /// The fingerprint matched, but the bytes are no module.
    Decode(String),
}

/// Two hexadecimal digits a byte.
pub open spec fn hex_bytes(b: Seq<u8>) -> Seq<char>
    decreases b.len(),
{
    if b.len() == 0 {
        Seq::empty()
    } else {
        hex_bytes(b.drop_last()) + hex(b.last() as nat, 2)
    }
}

fn push_hex32(out: &mut String, bytes: &[u8; 32])
    ensures
        final(out)@ == old(out)@ + hex_bytes(bytes@),
{
    let mut k: usize = 0;
    assert(bytes@.take(0) =~= Seq::empty());
    assert(out@ =~= old(out)@ + hex_bytes(bytes@.take(0)));
    while k < 32
        invariant
            k <= 32,
            out@ == old(out)@ + hex_bytes(bytes@.take(k as int)),
        decreases 32 - k,
    {
        push_hex(out, bytes[k] as u128, 2);
        proof {
            let t = bytes@.take(k + 1);
            assert(t.drop_last() =~= bytes@.take(k as int));
            assert(out@ =~= old(out)@ + hex_bytes(t));
        }
        k += 1;
    }
    assert(bytes@.take(32) =~= bytes@);
}

/// The message of an attestation failure.
pub open spec fn attest_error_text(e: AttestError) -> Seq<char> {
    match e {
        AttestError::DigestMismatch { expected, actual } =>
            "bytecode fingerprint mismatch: expected "@ + hex_bytes(expected@) + ", actual "@
                + hex_bytes(actual@),
        AttestError::Decode(msg) => "attested decode failed: "@ + msg@,
    }
}

impl AttestError {
    /// The message of this error.
    pub fn text(&self) -> (r: String)
        ensures
            r@ == attest_error_text(*self),
    {
        match self {
            AttestError::DigestMismatch { expected, actual } => {
                let mut s = owned("bytecode fingerprint mismatch: expected ");
                push_hex32(&mut s, expected);
                push_str(&mut s, ", actual ");
                push_hex32(&mut s, actual);
                s
            },
            AttestError::Decode(msg) => {
                let mut s = owned("attested decode failed: ");
                push_str(&mut s, msg.as_str());
                s
            },
        }
    }
}

fn same_digest(a: &[u8; 32], b: &[u8; 32]) -> (r: bool)
    ensures
        r == (a@ == b@),
{
    let mut k: usize = 0;
    while k < 32
        invariant
            k <= 32,
            forall|j: int| 0 <= j < k ==> a@[j] == b@[j],
        decreases 32 - k,
    {
        if a[k] != b[k] {
            return false;
        }
        k += 1;
    }
    assert(a@ =~= b@);
    true
}

/// Decode untrusted bytes whose fingerprint is the expected one. The
/// fingerprint is looked at first.
pub fn decode_attested(bytes: &[u8], expected: &[u8; 32]) -> (r: Result<Chunk, AttestError>)
    ensures
        fingerprint(bytes@) != expected@ ==> (r matches Err(
            AttestError::DigestMismatch { expected: e, actual },
        ) && e == *expected && actual@ == fingerprint(bytes@)),
        fingerprint(bytes@) == expected@ ==> match dec_chunk(bytes@, TrustLevel::Untrusted) {
            Ok(x) => r matches Ok(c) && chunk_model(c) == x,
            Err(e) => r matches Err(AttestError::Decode(msg)) && msg@ == e.spec_text(),
        },
{
    let actual = fingerprint_bf(bytes);
    if !same_digest(&actual, expected) {
        return Err(AttestError::DigestMismatch { expected: *expected, actual });
    }
    match decode(bytes) {
        Ok(c) => Ok(c),
        Err(e) => Err(AttestError::Decode(e.text())),
    }
}

} // verus!
