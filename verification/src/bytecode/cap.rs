//! Capability model: tokens, rights, native masks and revocation epochs.
//!
//! A [`CapId`] is the bytecode-visible token. Authority lives in a [`Cap`]:
//! a target, a rights bitset, an optional native mask and the epoch of its
//! issuer. [`Cap::attenuate`] is the only derivation, and it only narrows.

use std::sync::Arc;

use vstd::prelude::*;
use vstd::bytes::{spec_u128_from_le_bytes, u128_from_le_bytes};

use crate::entropy::fill_bytes;
use crate::text::{hex, owned, push_hex};

verus! {

/// Unpredictable capability token. Zero means "no grant".
#[derive(Clone, Copy, Debug, PartialEq, Eq, Structural, Hash)]
pub struct CapId {
    pub raw: u128,
}

/// Why [`CapId::random`] could not produce a token.
#[derive(Clone, Copy, Debug, PartialEq, Eq, Structural)]
pub enum CapIdError {
    /// Platform entropy gave nothing usable.
    Entropy,
}

/// The reserved "no grant" token.
pub open spec fn cap_none() -> CapId {
    CapId { raw: 0 }
}

/// Draws of a token before it is given up.
pub const TOKEN_DRAWS: usize = 8;

/// The token of sixteen drawn bytes; zero is none.
pub open spec fn token_of(bytes: Seq<u8>) -> Option<CapId> {
    if spec_u128_from_le_bytes(bytes) == 0 {
        None
    } else {
        Some(CapId { raw: spec_u128_from_le_bytes(bytes) })
    }
}

/// The first token among the draws from `k` on, of which
/// [`TOKEN_DRAWS`] count.
pub open spec fn first_token(draws: Seq<Seq<u8>>, k: nat) -> Result<CapId, CapIdError>
    decreases TOKEN_DRAWS - k,
{
    if k >= TOKEN_DRAWS || k >= draws.len() {
        Err(CapIdError::Entropy)
    } else {
        match token_of(draws[k as int]) {
            Some(id) => Ok(id),
            None => first_token(draws, k + 1),
        }
    }
}

/// Draws that are no tokens change nothing.
proof fn lemma_no_token_yet(draws: Seq<Seq<u8>>, k: nat)
    requires
        k <= TOKEN_DRAWS,
        k <= draws.len(),
        forall|i: int| 0 <= i < k ==> token_of(#[trigger] draws[i]) is None,
    ensures
        first_token(draws, 0) == first_token(draws, k),
    decreases k,
{
    if k > 0 {
        lemma_no_token_yet(draws, (k - 1) as nat);
        assert(token_of(draws[k - 1]) is None);
    }
}

/// The drawn bytes.
pub open spec fn draw_views(draws: Seq<Vec<u8>>) -> Seq<Seq<u8>> {
    Seq::new(draws.len(), |i: int| draws[i]@)
}

impl CapId {
    /// Placeholder used on hops without a reply grant.
    pub fn none() -> (r: CapId)
        ensures
            r == cap_none(),
    {
        CapId { raw: 0 }
    }

    /// The token drawn from sixteen little-endian bytes; zero is refused.
    pub fn from_entropy(bytes: &[u8]) -> (r: Option<CapId>)
        requires
            bytes@.len() == 16,
        ensures
            r == token_of(bytes@),
    {
        let raw = u128_from_le_bytes(bytes);
        if raw != 0 {
            Some(CapId { raw })
        } else {
            None
        }
    }

    /// The first token among the draws, of which [`TOKEN_DRAWS`] count.
    pub fn from_draws(draws: &[Vec<u8>]) -> (r: Result<CapId, CapIdError>)
        requires
            forall|i: int| 0 <= i < draws@.len() ==> (#[trigger] draws@[i])@.len() == 16,
        ensures
            r == first_token(draw_views(draws@), 0),
    {
        let ghost all = draw_views(draws@);
        let mut k: usize = 0;
        while k < TOKEN_DRAWS && k < draws.len()
            invariant
                k <= TOKEN_DRAWS,
                k <= draws@.len(),
                all == draw_views(draws@),
                forall|i: int| 0 <= i < draws@.len() ==> (#[trigger] draws@[i])@.len() == 16,
                first_token(all, 0) == first_token(all, k as nat),
            decreases TOKEN_DRAWS - k,
        {
            assert(all[k as int] == draws@[k as int]@);
            if let Some(id) = CapId::from_entropy(draws[k].as_slice()) {
                return Ok(id);
            }
            k += 1;
        }
        Err(CapIdError::Entropy)
    }

    /// Draw a token from platform entropy, trying at most [`TOKEN_DRAWS`]
    /// times. A drawn token is never the "no grant" token. Which bytes are
    /// drawn is not stated.
    pub fn random() -> (r: Result<CapId, CapIdError>)
        ensures
            r matches Ok(id) ==> id != cap_none(),
            exists|draws: Seq<Seq<u8>>|
                {
                    &&& draws.len() <= TOKEN_DRAWS
                    &&& forall|i: int| 0 <= i < draws.len() ==> (#[trigger] draws[i]).len() == 16
                    &&& r == #[trigger] first_token(draws, 0)
                    &&& r is Err ==> draws.len() == TOKEN_DRAWS
                },
    {
        let ghost mut draws: Seq<Seq<u8>> = Seq::empty();
        let mut attempt: usize = 0;
        while attempt < TOKEN_DRAWS
            invariant
                attempt <= TOKEN_DRAWS,
                draws.len() == attempt,
                forall|i: int| 0 <= i < draws.len() ==> (#[trigger] draws[i]).len() == 16,
                forall|i: int| 0 <= i < draws.len() ==> token_of(#[trigger] draws[i]) is None,
            decreases TOKEN_DRAWS - attempt,
        {
            let mut bytes: Vec<u8> = vec![0u8; 16];
            if fill_bytes(&mut bytes).is_err() {
                return Err(CapIdError::Entropy);
            }
            let ghost before = draws;
            proof {
                draws = draws.push(bytes@);
                assert forall|i: int| 0 <= i < attempt implies token_of(#[trigger] draws[i]) is None by {
                    assert(draws[i] == before[i]);
                }
                lemma_no_token_yet(draws, attempt as nat);
            }
            if let Some(id) = CapId::from_entropy(bytes.as_slice()) {
                assert(first_token(draws, 0) == Ok::<CapId, CapIdError>(id));
                return Ok(id);
            }
            attempt += 1;
        }
        proof {
            lemma_no_token_yet(draws, attempt as nat);
            assert(first_token(draws, 0) == Err::<CapId, CapIdError>(CapIdError::Entropy));
        }
        Err(CapIdError::Entropy)
    }

    pub fn is_none(self) -> (r: bool)
        ensures
            r == (self == cap_none()),
    {
        self.raw == 0
    }

    pub fn as_u128(self) -> (r: u128)
        ensures
            r == self.raw,
    {
        self.raw
    }

    /// Token with the given raw value. Does not insert into any table.
    pub fn from_raw(raw: u128) -> (r: CapId)
        ensures
            r == (CapId { raw }),
    {
        CapId { raw }
    }

    /// Printed form of a token.
    pub open spec fn spec_text(self) -> Seq<char> {
        if self == cap_none() {
            "cap#none"@
        } else {
            "cap#"@ + hex(self.raw as nat, 32)
        }
    }

    /// Printed form: `cap#none`, or `cap#` and 32 hexadecimal digits.
    pub fn text(self) -> (r: String)
        ensures
            r@ == self.spec_text(),
    {
        if self.is_none() {
            owned("cap#none")
        } else {
            let mut s = owned("cap#");
            push_hex(&mut s, self.raw, 32);
            s
        }
    }
}

impl CapIdError {
    pub fn text(&self) -> (r: String)
        ensures
            r@ == "capability CSPRNG unavailable"@,
    {
        owned("capability CSPRNG unavailable")
    }
}

/// Index into a native table.
pub type NativeIdx = u32;

/// Fixed-width rights bitset.
#[derive(Clone, Copy, Debug, PartialEq, Eq, Structural, Hash)]
pub struct CapRights {
    pub mask: u32,
}

/// `SEND`: deliver hops to the target.
pub const RIGHT_SEND: u32 = 0x01;
/// `ASK`: send requests to the target and wait for replies.
pub const RIGHT_ASK: u32 = 0x02;
/// `RECV`: receive hops.
pub const RIGHT_RECV: u32 = 0x04;
/// `SPAWN`: start child flows.
pub const RIGHT_SPAWN: u32 = 0x08;
/// `LINK`: link with the target.
pub const RIGHT_LINK: u32 = 0x10;
/// `MONITOR`: watch the target.
pub const RIGHT_MONITOR: u32 = 0x20;
/// `ADMIN`: scheduler-level operations.
pub const RIGHT_ADMIN: u32 = 0x40;
/// `NATIVE`: call natives.
pub const RIGHT_NATIVE: u32 = 0x80;
/// `SEND | ASK | LINK | MONITOR`.
pub const RIGHTS_ADDRESSING: u32 = 0x33;
/// Every right but `ADMIN`.
pub const RIGHTS_FLOW: u32 = 0xBF;
/// `SEND | ASK`.
pub const RIGHTS_SEND_ASK: u32 = 0x03;

/// The composite masks are the unions that their documentation names.
pub proof fn composite_rights()
    ensures
        RIGHTS_ADDRESSING == RIGHT_SEND | RIGHT_ASK | RIGHT_LINK | RIGHT_MONITOR,
        RIGHTS_FLOW == RIGHT_SEND | RIGHT_ASK | RIGHT_RECV | RIGHT_SPAWN | RIGHT_LINK
            | RIGHT_MONITOR | RIGHT_NATIVE,
        RIGHTS_SEND_ASK == RIGHT_SEND | RIGHT_ASK,
        RIGHTS_FLOW & RIGHT_ADMIN == 0,
{
    assert(0x33u32 == 0x01u32 | 0x02 | 0x10 | 0x20) by (bit_vector);
    assert(0xBFu32 == 0x01u32 | 0x02 | 0x04 | 0x08 | 0x10 | 0x20 | 0x80) by (bit_vector);
    assert(0x03u32 == 0x01u32 | 0x02) by (bit_vector);
    assert(0xBFu32 & 0x40 == 0) by (bit_vector);
}

/// Rights with the given bits.
pub open spec fn rights(mask: u32) -> CapRights {
    CapRights { mask }
}

/// Every bit of `b` is a bit of `a`.
pub open spec fn rights_contain(a: CapRights, b: CapRights) -> bool {
    a.mask & b.mask == b.mask
}

/// Every bit of `a` is a bit of `b`.
pub open spec fn rights_subset(a: CapRights, b: CapRights) -> bool {
    a.mask & !b.mask == 0
}

/// Rights common to `a` and `b`.
pub open spec fn rights_meet(a: CapRights, b: CapRights) -> CapRights {
    CapRights { mask: a.mask & b.mask }
}

/// An intersection is contained in both operands, keeps what both contain,
/// and is its own intersection with either operand.
pub proof fn meet_is_lower_bound(a: CapRights, b: CapRights, c: CapRights)
    ensures
        rights_subset(rights_meet(a, b), a),
        rights_subset(rights_meet(a, b), b),
        rights_contain(rights_meet(a, b), c) <==> rights_contain(a, c) && rights_contain(b, c),
        rights_subset(c, a) && rights_subset(c, b) ==> rights_subset(c, rights_meet(a, b)),
        rights_meet(a, a) == a,
{
    let x = a.mask;
    let y = b.mask;
    let z = c.mask;
    assert((x & y) & !x == 0 && (x & y) & !y == 0 && x & x == x) by (bit_vector);
    assert(((x & y) & z == z) <==> (x & z == z && y & z == z)) by (bit_vector);
    assert((z & !x == 0 && z & !y == 0) ==> z & !(x & y) == 0) by (bit_vector);
}

/// Containment of rights is the same as the reverse inclusion, and inclusion
/// is reflexive and transitive.
pub proof fn rights_order(a: CapRights, b: CapRights, c: CapRights)
    ensures
        rights_contain(a, b) <==> rights_subset(b, a),
        rights_subset(a, a),
        rights_subset(a, b) && rights_subset(b, c) ==> rights_subset(a, c),
{
    let x = a.mask;
    let y = b.mask;
    let z = c.mask;
    assert((x & y == y) <==> (y & !x == 0)) by (bit_vector);
    assert(x & !x == 0) by (bit_vector);
    assert((x & !y == 0 && y & !z == 0) ==> x & !z == 0) by (bit_vector);
}

impl CapRights {
    pub fn none() -> (r: CapRights)
        ensures
            r == rights(0),
    {
        CapRights { mask: 0 }
    }

    pub fn send() -> (r: CapRights)
        ensures
            r == rights(RIGHT_SEND),
    {
        CapRights { mask: RIGHT_SEND }
    }

    pub fn ask() -> (r: CapRights)
        ensures
            r == rights(RIGHT_ASK),
    {
        CapRights { mask: RIGHT_ASK }
    }

    pub fn recv() -> (r: CapRights)
        ensures
            r == rights(RIGHT_RECV),
    {
        CapRights { mask: RIGHT_RECV }
    }

    pub fn spawn() -> (r: CapRights)
        ensures
            r == rights(RIGHT_SPAWN),
    {
        CapRights { mask: RIGHT_SPAWN }
    }

    pub fn link() -> (r: CapRights)
        ensures
            r == rights(RIGHT_LINK),
    {
        CapRights { mask: RIGHT_LINK }
    }

    pub fn monitor() -> (r: CapRights)
        ensures
            r == rights(RIGHT_MONITOR),
    {
        CapRights { mask: RIGHT_MONITOR }
    }

    pub fn admin() -> (r: CapRights)
        ensures
            r == rights(RIGHT_ADMIN),
    {
        CapRights { mask: RIGHT_ADMIN }
    }

    pub fn native() -> (r: CapRights)
        ensures
            r == rights(RIGHT_NATIVE),
    {
        CapRights { mask: RIGHT_NATIVE }
    }

    /// Addressing grant minted for self and child capabilities.
    pub fn addressing() -> (r: CapRights)
        ensures
            r == rights(RIGHTS_ADDRESSING),
    {
        CapRights { mask: RIGHTS_ADDRESSING }
    }

    /// Default rights of a spawned flow: everything but `ADMIN`.
    pub fn flow() -> (r: CapRights)
        ensures
            r == rights(RIGHTS_FLOW),
    {
        CapRights { mask: RIGHTS_FLOW }
    }

    /// Rights of a host-spawned flow, the same as [`CapRights::flow`].
    pub fn root() -> (r: CapRights)
        ensures
            r == rights(RIGHTS_FLOW),
    {
        CapRights { mask: RIGHTS_FLOW }
    }

    pub fn send_ask() -> (r: CapRights)
        ensures
            r == rights(RIGHTS_SEND_ASK),
    {
        CapRights { mask: RIGHTS_SEND_ASK }
    }

    pub fn empty() -> (r: CapRights)
        ensures
            r == rights(0),
    {
        CapRights { mask: 0 }
    }

    pub fn union(self, other: CapRights) -> (r: CapRights)
        ensures
            r.mask == self.mask | other.mask,
    {
        CapRights { mask: self.mask | other.mask }
    }

    pub fn intersect(self, other: CapRights) -> (r: CapRights)
        ensures
            r == rights_meet(self, other),
    {
        CapRights { mask: self.mask & other.mask }
    }

    pub fn contains(self, other: CapRights) -> (r: bool)
        ensures
            r == rights_contain(self, other),
    {
        self.mask & other.mask == other.mask
    }

    pub fn is_subset_of(self, other: CapRights) -> (r: bool)
        ensures
            r == rights_subset(self, other),
    {
        self.mask & !other.mask == 0
    }

    pub fn bits(self) -> (r: u32)
        ensures
            r == self.mask,
    {
        self.mask
    }

    /// Low eight bits, for the `Spawn` operand.
    pub fn bits_u8(self) -> (r: u8)
        ensures
            r as int == self.mask as int % 256,
    {
        let m = self.mask;
        assert((m & 0xff) as u8 as u32 == m % 256) by (bit_vector);
        (m & 0xff) as u8
    }

    pub fn from_bits(bits: u32) -> (r: CapRights)
        ensures
            r == rights(bits),
    {
        CapRights { mask: bits }
    }

    pub fn from_u8(bits: u8) -> (r: CapRights)
        ensures
            r == rights(bits as u32),
    {
        CapRights { mask: bits as u32 }
    }
}

/// Bit `b` of the word `w`.
pub open spec fn word_bit(w: u64, b: u64) -> bool {
    (w >> b) & 1 == 1
}

/// The indices that a list of 64-bit words marks.
pub open spec fn marked(words: Seq<u64>) -> Set<int> {
    Set::new(|i: int| 0 <= i < 64 * words.len() && word_bit(words[i / 64], (i % 64) as u64))
}

proof fn lemma_bit_and(a: u64, b: u64, k: u64)
    requires
        k < 64,
    ensures
        word_bit(a & b, k) == (word_bit(a, k) && word_bit(b, k)),
{
    assert((((a & b) >> k) & 1 == 1) == ((a >> k) & 1 == 1 && (b >> k) & 1 == 1)) by (bit_vector)
        requires
            k < 64,
    ;
}

proof fn lemma_bit_set(w: u64, b: u64, k: u64)
    requires
        b < 64,
        k < 64,
    ensures
        word_bit(w | (1u64 << b), k) == (k == b || word_bit(w, k)),
        (w & (1u64 << b) != 0) == word_bit(w, b),
        !word_bit(0, k),
        word_bit(u64::MAX, k),
{
    assert((((w | (1u64 << b)) >> k) & 1 == 1) == (k == b || (w >> k) & 1 == 1)) by (bit_vector)
        requires
            b < 64,
            k < 64,
    ;
    assert((w & (1u64 << b) != 0) == ((w >> b) & 1 == 1)) by (bit_vector)
        requires
            b < 64,
    ;
    assert((0u64 >> k) & 1 == 0 && (0xffff_ffff_ffff_ffffu64 >> k) & 1 == 1) by (bit_vector)
        requires
            k < 64,
    ;
}

proof fn lemma_bit_low(n: u64, k: u64)
    requires
        0 < n < 64,
        k < 64,
    ensures
        (1u64 << n) >= 1,
        word_bit(u64::MAX & ((1u64 << n) - 1) as u64, k) == (k < n),
{
    assert((1u64 << n) >= 1) by (bit_vector)
        requires
            n < 64,
    ;
    assert(((0xffff_ffff_ffff_ffffu64 & (((1u64 << n) - 1) as u64)) >> k) & 1 == 1 <==> k < n)
        by (bit_vector)
        requires
            0 < n < 64,
            k < 64,
    ;
}

proof fn lemma_zero_word(x: u64)
    requires
        forall|k: u64| k < 64 ==> !#[trigger] word_bit(x, k),
    ensures
        x == 0,
{
    assert(!word_bit(x, 0));
    assert(!word_bit(x, 1));
    assert(!word_bit(x, 2));
    assert(!word_bit(x, 3));
    assert(!word_bit(x, 4));
    assert(!word_bit(x, 5));
    assert(!word_bit(x, 6));
    assert(!word_bit(x, 7));
    assert(!word_bit(x, 8));
    assert(!word_bit(x, 9));
    assert(!word_bit(x, 10));
    assert(!word_bit(x, 11));
    assert(!word_bit(x, 12));
    assert(!word_bit(x, 13));
    assert(!word_bit(x, 14));
    assert(!word_bit(x, 15));
    assert(!word_bit(x, 16));
    assert(!word_bit(x, 17));
    assert(!word_bit(x, 18));
    assert(!word_bit(x, 19));
    assert(!word_bit(x, 20));
    assert(!word_bit(x, 21));
    assert(!word_bit(x, 22));
    assert(!word_bit(x, 23));
    assert(!word_bit(x, 24));
    assert(!word_bit(x, 25));
    assert(!word_bit(x, 26));
    assert(!word_bit(x, 27));
    assert(!word_bit(x, 28));
    assert(!word_bit(x, 29));
    assert(!word_bit(x, 30));
    assert(!word_bit(x, 31));
    assert(!word_bit(x, 32));
    assert(!word_bit(x, 33));
    assert(!word_bit(x, 34));
    assert(!word_bit(x, 35));
    assert(!word_bit(x, 36));
    assert(!word_bit(x, 37));
    assert(!word_bit(x, 38));
    assert(!word_bit(x, 39));
    assert(!word_bit(x, 40));
    assert(!word_bit(x, 41));
    assert(!word_bit(x, 42));
    assert(!word_bit(x, 43));
    assert(!word_bit(x, 44));
    assert(!word_bit(x, 45));
    assert(!word_bit(x, 46));
    assert(!word_bit(x, 47));
    assert(!word_bit(x, 48));
    assert(!word_bit(x, 49));
    assert(!word_bit(x, 50));
    assert(!word_bit(x, 51));
    assert(!word_bit(x, 52));
    assert(!word_bit(x, 53));
    assert(!word_bit(x, 54));
    assert(!word_bit(x, 55));
    assert(!word_bit(x, 56));
    assert(!word_bit(x, 57));
    assert(!word_bit(x, 58));
    assert(!word_bit(x, 59));
    assert(!word_bit(x, 60));
    assert(!word_bit(x, 61));
    assert(!word_bit(x, 62));
    assert(!word_bit(x, 63));
    assert(forall|k: u64| k < 64 ==> (x >> k) & 1 != 1 ==> (x >> k) & 1 == 0) by {
        assert forall|k: u64| k < 64 && (x >> k) & 1 != 1 implies (x >> k) & 1 == 0 by {
            assert((x >> k) & 1 == 1 || (x >> k) & 1 == 0) by (bit_vector);
        }
    }
    assert(x == 0) by (bit_vector)
        requires
            (x >> 0u64) & 1 == 0,
            (x >> 1u64) & 1 == 0,
            (x >> 2u64) & 1 == 0,
            (x >> 3u64) & 1 == 0,
            (x >> 4u64) & 1 == 0,
            (x >> 5u64) & 1 == 0,
            (x >> 6u64) & 1 == 0,
            (x >> 7u64) & 1 == 0,
            (x >> 8u64) & 1 == 0,
            (x >> 9u64) & 1 == 0,
            (x >> 10u64) & 1 == 0,
            (x >> 11u64) & 1 == 0,
            (x >> 12u64) & 1 == 0,
            (x >> 13u64) & 1 == 0,
            (x >> 14u64) & 1 == 0,
            (x >> 15u64) & 1 == 0,
            (x >> 16u64) & 1 == 0,
            (x >> 17u64) & 1 == 0,
            (x >> 18u64) & 1 == 0,
            (x >> 19u64) & 1 == 0,
            (x >> 20u64) & 1 == 0,
            (x >> 21u64) & 1 == 0,
            (x >> 22u64) & 1 == 0,
            (x >> 23u64) & 1 == 0,
            (x >> 24u64) & 1 == 0,
            (x >> 25u64) & 1 == 0,
            (x >> 26u64) & 1 == 0,
            (x >> 27u64) & 1 == 0,
            (x >> 28u64) & 1 == 0,
            (x >> 29u64) & 1 == 0,
            (x >> 30u64) & 1 == 0,
            (x >> 31u64) & 1 == 0,
            (x >> 32u64) & 1 == 0,
            (x >> 33u64) & 1 == 0,
            (x >> 34u64) & 1 == 0,
            (x >> 35u64) & 1 == 0,
            (x >> 36u64) & 1 == 0,
            (x >> 37u64) & 1 == 0,
            (x >> 38u64) & 1 == 0,
            (x >> 39u64) & 1 == 0,
            (x >> 40u64) & 1 == 0,
            (x >> 41u64) & 1 == 0,
            (x >> 42u64) & 1 == 0,
            (x >> 43u64) & 1 == 0,
            (x >> 44u64) & 1 == 0,
            (x >> 45u64) & 1 == 0,
            (x >> 46u64) & 1 == 0,
            (x >> 47u64) & 1 == 0,
            (x >> 48u64) & 1 == 0,
            (x >> 49u64) & 1 == 0,
            (x >> 50u64) & 1 == 0,
            (x >> 51u64) & 1 == 0,
            (x >> 52u64) & 1 == 0,
            (x >> 53u64) & 1 == 0,
            (x >> 54u64) & 1 == 0,
            (x >> 55u64) & 1 == 0,
            (x >> 56u64) & 1 == 0,
            (x >> 57u64) & 1 == 0,
            (x >> 58u64) & 1 == 0,
            (x >> 59u64) & 1 == 0,
            (x >> 60u64) & 1 == 0,
            (x >> 61u64) & 1 == 0,
            (x >> 62u64) & 1 == 0,
            (x >> 63u64) & 1 == 0,
    ;
}

proof fn lemma_word_subset(a: u64, b: u64)
    ensures
        (a & !b == 0) <==> (forall|k: u64| k < 64 && #[trigger] word_bit(a, k) ==> word_bit(b, k)),
{
    assert forall|k: u64| k < 64 implies #[trigger] word_bit(a & !b, k) == (word_bit(a, k)
        && !word_bit(b, k)) by {
        assert((((a & !b) >> k) & 1 == 1) == ((a >> k) & 1 == 1 && !((b >> k) & 1 == 1)))
            by (bit_vector)
            requires
                k < 64,
        ;
    }
    if a & !b == 0 {
        assert forall|k: u64| k < 64 && #[trigger] word_bit(a, k) implies word_bit(b, k) by {
            assert(word_bit(a & !b, k) == (word_bit(a, k) && !word_bit(b, k)));
            lemma_bit_set(0, 0, k);
        }
    }
    if forall|k: u64| k < 64 && #[trigger] word_bit(a, k) ==> word_bit(b, k) {
        assert forall|k: u64| k < 64 implies !#[trigger] word_bit(a & !b, k) by {
            assert(word_bit(a, k) ==> word_bit(b, k));
        }
        lemma_zero_word(a & !b);
    }
}

/// Bitset over native-table indices.
#[derive(Debug)]
pub struct NativeMask {
    pub words: Arc<Vec<u64>>,
}

impl View for NativeMask {
    type V = Set<int>;

    open spec fn view(&self) -> Set<int> {
        marked(self.words@)
    }
}

impl Clone for NativeMask {
    fn clone(&self) -> (r: Self)
        ensures
            r == *self,
    {
        NativeMask { words: self.words.clone() }
    }
}

/// The words of the intersection of two masks: as many as the shorter one
/// has.
pub open spec fn words_meet(a: Seq<u64>, b: Seq<u64>) -> Seq<u64> {
    Seq::new(
        if a.len() <= b.len() {
            a.len()
        } else {
            b.len()
        },
        |i: int| a[i] & b[i],
    )
}

/// Masks of one length that allow the same indices have the same words.
pub proof fn mask_is_its_indices(a: Seq<u64>, b: Seq<u64>)
    requires
        a.len() == b.len(),
        marked(a) == marked(b),
    ensures
        a == b,
{
    assert forall|i: int| 0 <= i < a.len() implies a[i] == b[i] by {
        assert forall|k: u64| k < 64 implies #[trigger] word_bit(a[i], k) == word_bit(b[i], k) by {
            let x = 64 * i + k as int;
            assert(x / 64 == i && (x % 64) as u64 == k);
            assert(marked(a).contains(x) == word_bit(a[i], k));
            assert(marked(b).contains(x) == word_bit(b[i], k));
        }
        lemma_word_subset(a[i], b[i]);
        lemma_word_subset(b[i], a[i]);
        let (x, y) = (a[i], b[i]);
        assert(x == y) by (bit_vector)
            requires
                x & !y == 0,
                y & !x == 0,
        ;
    }
    assert(a =~= b);
}

fn same_words(a: &Vec<u64>, b: &Vec<u64>) -> (r: bool)
    ensures
        r == (a@ == b@),
{
    if a.len() != b.len() {
        return false;
    }
    let mut i: usize = 0;
    while i < a.len()
        invariant
            i <= a@.len(),
            a@.len() == b@.len(),
            forall|k: int| 0 <= k < i ==> a@[k] == b@[k],
        decreases a@.len() - i,
    {
        if a[i] != b[i] {
            assert(a@[i as int] != b@[i as int]);
            return false;
        }
        i += 1;
    }
    assert(a@ =~= b@);
    true
}

impl PartialEq for NativeMask {
    fn eq(&self, other: &Self) -> (r: bool) {
        same_words(&*self.words, &*other.words)
    }
}

impl vstd::std_specs::cmp::PartialEqSpecImpl for NativeMask {
    open spec fn obeys_eq_spec() -> bool {
        true
    }

    open spec fn eq_spec(&self, other: &Self) -> bool {
        self.words@ == other.words@
    }
}

impl Eq for NativeMask {

}

/// Words needed for `n` bits.
pub open spec fn words_for(n: int) -> int {
    (n + 63) / 64
}

fn word_count(n: usize) -> (r: usize)
    ensures
        r as int == words_for(n as int),
{
    if n % 64 == 0 {
        n / 64
    } else {
        n / 64 + 1
    }
}

fn filled_words(n: usize, word: u64) -> (v: Vec<u64>)
    ensures
        v@.len() == n,
        forall|i: int| 0 <= i < n ==> v@[i] == word,
{
    vec![word; n]
}

impl NativeMask {
    /// Mask that allows nothing, sized for `native_count` natives.
    pub fn empty(native_count: usize) -> (r: Self)
        ensures
            r@ == Set::<int>::empty(),
            r.words@.len() == words_for(native_count as int),
    {
        let v = filled_words(word_count(native_count), 0);
        proof {
            assert forall|i: int| !marked(v@).contains(i) by {
                if 0 <= i < 64 * v@.len() {
                    lemma_bit_set(0, 0, (i % 64) as u64);
                }
            }
            assert(marked(v@) =~= Set::<int>::empty());
        }
        NativeMask { words: Arc::new(v) }
    }

    /// Mask that allows exactly the indices below `native_count`.
    pub fn full(native_count: usize) -> (r: Self)
        ensures
            r@ == Set::new(|i: int| 0 <= i < native_count),
            r.words@.len() == words_for(native_count as int),
    {
        let words: usize = word_count(native_count);
        let mut v = filled_words(words, u64::MAX);
        let rem: usize = native_count % 64;
        if rem != 0 {
            let low: u64 = 1u64 << (rem as u64);
            proof {
                lemma_bit_low(rem as u64, 0);
            }
            let last: usize = words - 1;
            let w: u64 = v[last] & (low - 1);
            v.set(last, w);
        }
        proof {
            assert forall|i: int| marked(v@).contains(i) == (0 <= i < native_count) by {
                if 0 <= i < 64 * v@.len() {
                    let k = (i % 64) as u64;
                    lemma_bit_set(0, 0, k);
                    if rem != 0 {
                        lemma_bit_low(rem as u64, k);
                    }
                    if rem != 0 && i / 64 == words - 1 {
                        assert(word_bit(v@[i / 64], k) == (k < rem));
                    } else {
                        assert(v@[i / 64] == u64::MAX);
                    }
                }
            }
            assert(marked(v@) =~= Set::new(|i: int| 0 <= i < native_count));
        }
        NativeMask { words: Arc::new(v) }
    }

    /// Mask that allows the listed indices that are below `native_count`.
    pub fn from_indices(native_count: usize, idxs: &[NativeIdx]) -> (r: Self)
        ensures
            r@ == Set::new(
                |i: int| 0 <= i < native_count && exists|j: int|
                    0 <= j < idxs@.len() && #[trigger] idxs@[j] == i,
            ),
            r.words@.len() == words_for(native_count as int),
    {
        let words: usize = word_count(native_count);
        let mut v = filled_words(words, 0);
        let mut n: usize = 0;
        proof {
            assert forall|i: int| !marked(v@).contains(i) by {
                if 0 <= i < 64 * v@.len() {
                    lemma_bit_set(0, 0, (i % 64) as u64);
                }
            }
        }
        while n < idxs.len()
            invariant
                n <= idxs@.len(),
                v@.len() == words,
                words as int == words_for(native_count as int),
                forall|i: int|
                    #[trigger] marked(v@).contains(i) <==> (0 <= i < native_count && exists|j: int|
                        0 <= j < n && #[trigger] idxs@[j] == i),
            decreases idxs@.len() - n,
        {
            let i: NativeIdx = idxs[n];
            let iu: usize = i as usize;
            let w: usize = iu / 64;
            let b: u64 = (iu % 64) as u64;
            let ghost v0 = v@;
            if w < v.len() && iu < native_count {
                let new: u64 = v[w] | (1u64 << b);
                v.set(w, new);
                proof {
                    assert forall|x: int| #[trigger] marked(v@).contains(x) <==> (marked(
                        v0,
                    ).contains(x) || x == iu) by {
                        if 0 <= x < 64 * v@.len() {
                            lemma_bit_set(v0[w as int], b, (x % 64) as u64);
                            if x / 64 == w && (x % 64) as u64 == b {
                                assert(x == iu);
                            }
                        }
                    }
                }
            }
            proof {
                assert forall|x: int|
                    #[trigger] marked(v@).contains(x) <==> (0 <= x < native_count && exists|j: int|
                        0 <= j < n + 1 && #[trigger] idxs@[j] == x) by {
                    if marked(v0).contains(x) {
                        let j = choose|j: int| 0 <= j < n && #[trigger] idxs@[j] == x;
                        assert(idxs@[j] == x);
                    }
                    assert(idxs@[n as int] == i);
                    if exists|j: int| 0 <= j < n + 1 && #[trigger] idxs@[j] == x {
                        let j = choose|j: int| 0 <= j < n + 1 && #[trigger] idxs@[j] == x;
                        if j < n {
                            assert(0 <= x < native_count ==> marked(v0).contains(x));
                        }
                    }
                }
            }
            n += 1;
        }
        let r = NativeMask { words: Arc::new(v) };
        assert(r@ =~= Set::new(
            |i: int| 0 <= i < native_count && exists|j: int|
                0 <= j < idxs@.len() && #[trigger] idxs@[j] == i,
        ));
        r
    }

    pub fn word_len(&self) -> (r: usize)
        ensures
            r == self.words@.len(),
    {
        self.words.len()
    }

    /// Whether the mask allows `idx`.
    pub fn allows(&self, idx: NativeIdx) -> (r: bool)
        ensures
            r == self@.contains(idx as int),
    {
        let w: usize = idx as usize / 64;
        let b: u64 = (idx as usize % 64) as u64;
        if w < self.words.len() {
            proof {
                lemma_bit_set(self.words@[w as int], b, b);
            }
            self.words[w] & (1u64 << b) != 0
        } else {
            false
        }
    }

    /// Exactly the indices that both masks allow.
    pub fn intersect(&self, requested: &NativeMask) -> (r: NativeMask)
        ensures
            r@ == self@.intersect(requested@),
            r.words@ == words_meet(self.words@, requested.words@),
    {
        let mut v: Vec<u64> = Vec::new();
        let mut i: usize = 0;
        while i < self.words.len() && i < requested.words.len()
            invariant
                i <= self.words@.len(),
                i <= requested.words@.len(),
                v@.len() == i,
                forall|k: int| 0 <= k < i ==> v@[k] == self.words@[k] & requested.words@[k],
            decreases self.words@.len() - i,
        {
            v.push(self.words[i] & requested.words[i]);
            i += 1;
        }
        proof {
            assert forall|x: int| marked(v@).contains(x) == (self@.contains(x)
                && requested@.contains(x)) by {
                if 0 <= x < 64 * v@.len() {
                    lemma_bit_and(
                        self.words@[x / 64],
                        requested.words@[x / 64],
                        (x % 64) as u64,
                    );
                }
            }
            assert(marked(v@) =~= self@.intersect(requested@));
            assert(v@ =~= words_meet(self.words@, requested.words@));
        }
        NativeMask { words: Arc::new(v) }
    }

    /// Whether every index allowed by `self` is allowed by `other`.
    pub fn is_subset_of(&self, other: &NativeMask) -> (r: bool)
        ensures
            r == self@.subset_of(other@),
    {
        let mut i: usize = 0;
        while i < self.words.len()
            invariant
                i <= self.words@.len(),
                forall|x: int| 0 <= x < 64 * i && self@.contains(x) ==> #[trigger] other@.contains(x),
            decreases self.words@.len() - i,
        {
            let a: u64 = self.words[i];
            let b: u64 = if i < other.words.len() {
                other.words[i]
            } else {
                0
            };
            proof {
                lemma_word_subset(a, b);
            }
            if a & !b != 0 {
                proof {
                    let k = choose|k: u64| k < 64 && #[trigger] word_bit(a, k) && !word_bit(b, k);
                    let x = 64 * i as int + k as int;
                    assert(x / 64 == i && x % 64 == k);
                    assert(self@.contains(x));
                    assert(!other@.contains(x));
                }
                return false;
            }
            proof {
                assert forall|x: int| 0 <= x < 64 * (i + 1) && self@.contains(x) implies
                    #[trigger] other@.contains(x) by {
                    if x >= 64 * i {
                        let k = (x % 64) as u64;
                        assert(x / 64 == i);
                        assert(word_bit(a, k));
                        lemma_bit_set(0, 0, k);
                        assert(word_bit(b, k));
                    }
                }
            }
            i += 1;
        }
        true
    }
}

/// What a capability addresses.
#[derive(Clone, Copy, Debug, PartialEq, Eq, Structural, Hash)]
pub enum CapTarget {
    /// One flow, by its id.
    Flow(u64),
    /// The native table.
    NativeTable,
    /// The scheduler: kill, inspect, quota top-up.
    Scheduler,
}

impl CapTarget {
    pub fn flow_id(self) -> (r: Option<u64>)
        ensures
            r == (match self {
                CapTarget::Flow(id) => Some(id),
                _ => None,
            }),
    {
        match self {
            CapTarget::Flow(id) => Some(id),
            CapTarget::NativeTable | CapTarget::Scheduler => None,
        }
    }
}

/// Authorization record, kept in the runtime table and never in bytecode.
#[derive(Debug)]
pub struct Cap {
    pub target: CapTarget,
    pub rights: CapRights,
    /// Meaningful only with the `NATIVE` right.
    pub native_mask: Option<NativeMask>,
    /// Valid while equal to the epoch of the issuer's cell.
    pub epoch: u64,
}

/// One revocation counter per capability issuer.
#[derive(Clone, Copy, Debug, PartialEq, Eq, Structural)]
pub struct RevocationCell {
    pub count: u64,
}

impl RevocationCell {
    pub fn new() -> (r: Self)
        ensures
            r.count == 0,
    {
        RevocationCell { count: 0 }
    }

    pub fn epoch(&self) -> (r: u64)
        ensures
            r == self.count,
    {
        self.count
    }

    /// Invalidate every capability issued so far.
    pub fn revoke(&mut self)
        ensures
            final(self).count == old(self).count.wrapping_add(1),
    {
        self.count = self.count.wrapping_add(1);
    }
}

impl Default for RevocationCell {
    fn default() -> (r: Self)
        ensures
            r.count == 0,
    {
        RevocationCell::new()
    }
}

/// The indices that an optional mask allows; no mask allows nothing.
pub open spec fn mask_set(m: Option<NativeMask>) -> Set<int> {
    match m {
        Some(mask) => mask@,
        None => Set::empty(),
    }
}

/// `child` is what `parent` becomes when narrowed to the wanted rights and
/// native mask: rights intersected, mask intersected (kept when none is
/// wanted, absent when the parent has none), same target and epoch.
pub open spec fn attenuates(
    parent: Cap,
    want_rights: CapRights,
    want_native: Option<NativeMask>,
    child: Cap,
) -> bool {
    &&& child.target == parent.target
    &&& child.epoch == parent.epoch
    &&& child.rights == rights_meet(parent.rights, want_rights)
    &&& match (parent.native_mask, want_native) {
        (Some(cur), Some(req)) => child.native_mask matches Some(m) && m@ == cur@.intersect(req@)
            && m.words@ == words_meet(cur.words@, req.words@),
        (Some(cur), None) => child.native_mask == Some(cur),
        (None, _) => child.native_mask is None,
    }
}

/// Attenuation never escalates: neither the rights nor the native mask of a
/// derived capability holds anything that its parent lacks.
pub proof fn attenuation_never_escalates(
    parent: Cap,
    want_rights: CapRights,
    want_native: Option<NativeMask>,
    child: Cap,
)
    requires
        attenuates(parent, want_rights, want_native, child),
    ensures
        rights_subset(child.rights, parent.rights),
        rights_subset(child.rights, want_rights),
        mask_set(child.native_mask).subset_of(mask_set(parent.native_mask)),
        child.target == parent.target,
{
    meet_is_lower_bound(parent.rights, want_rights, parent.rights);
}

/// A chain of attenuations never gains a right or a native index over its
/// first capability.
pub proof fn chained_attenuation_never_escalates(chain: Seq<Cap>, wants: Seq<(CapRights, Option<NativeMask>)>)
    requires
        chain.len() == wants.len() + 1,
        forall|i: int|
            0 <= i < wants.len() ==> attenuates(
                #[trigger] chain[i],
                wants[i].0,
                wants[i].1,
                chain[i + 1],
            ),
    ensures
        rights_subset(chain.last().rights, chain[0].rights),
        mask_set(chain.last().native_mask).subset_of(mask_set(chain[0].native_mask)),
        chain.last().epoch == chain[0].epoch,
        chain.last().target == chain[0].target,
    decreases wants.len(),
{
    if wants.len() == 0 {
        rights_order(chain[0].rights, chain[0].rights, chain[0].rights);
    } else {
        let n = wants.len() - 1;
        let shorter = chain.drop_last();
        let fewer = wants.drop_last();
        assert forall|i: int| 0 <= i < fewer.len() implies attenuates(
            #[trigger] shorter[i],
            fewer[i].0,
            fewer[i].1,
            shorter[i + 1],
        ) by {
            assert(shorter[i] == chain[i] && shorter[i + 1] == chain[i + 1]);
            assert(fewer[i] == wants[i]);
        }
        chained_attenuation_never_escalates(shorter, fewer);
        assert(shorter.last() == chain[n]);
        assert(attenuates(chain[n], wants[n].0, wants[n].1, chain[n + 1]));
        attenuation_never_escalates(chain[n], wants[n].0, wants[n].1, chain[n + 1]);
        rights_order(chain[n + 1].rights, chain[n].rights, chain[0].rights);
    }
}

/// Two capabilities are equal: the same target, rights and epoch, and masks
/// of the same words.
pub open spec fn caps_equal(a: Cap, b: Cap) -> bool {
    &&& a.target == b.target
    &&& a.rights == b.rights
    &&& a.epoch == b.epoch
    &&& match (a.native_mask, b.native_mask) {
        (Some(m), Some(n)) => m.words@ == n.words@,
        (None, None) => true,
        _ => false,
    }
}

/// Narrowing twice in the same way is narrowing once.
pub proof fn attenuation_is_idempotent(
    cap: Cap,
    want_rights: CapRights,
    want_native: Option<NativeMask>,
    once: Cap,
    twice: Cap,
)
    requires
        attenuates(cap, want_rights, want_native, once),
        attenuates(once, want_rights, want_native, twice),
    ensures
        caps_equal(once, twice),
{
    let (a, b) = (cap.rights.mask, want_rights.mask);
    assert((a & b) & b == a & b) by (bit_vector);
    if cap.native_mask is Some && want_native is Some {
        let (x, y) = (cap.native_mask->Some_0.words@, want_native->Some_0.words@);
        assert forall|i: int| 0 <= i < words_meet(x, y).len() implies words_meet(
            words_meet(x, y),
            y,
        )[i] == words_meet(x, y)[i] by {
            let (v, w) = (x[i], y[i]);
            assert((v & w) & w == v & w) by (bit_vector);
        }
        assert(words_meet(words_meet(x, y), y) =~= words_meet(x, y));
    }
}

/// Narrowing the rights in two steps is narrowing them by both at once.
pub proof fn attenuations_compose(
    cap: Cap,
    first: CapRights,
    second: CapRights,
    middle: Cap,
    last: Cap,
    direct: Cap,
)
    requires
        attenuates(cap, first, None, middle),
        attenuates(middle, second, None, last),
        attenuates(cap, rights_meet(first, second), None, direct),
    ensures
        caps_equal(last, direct),
{
    let (a, b, c) = (cap.rights.mask, first.mask, second.mask);
    assert((a & b) & c == a & (b & c)) by (bit_vector);
}

/// A capability is valid while its epoch is that of the issuer's cell.
pub open spec fn cap_valid(cap: Cap, cell: RevocationCell) -> bool {
    cap.epoch == cell.count
}

/// Revoking a cell kills every valid capability of it and all that were
/// derived from such a capability.
pub proof fn revocation_kills_derived(
    root: Cap,
    want_rights: CapRights,
    want_native: Option<NativeMask>,
    child: Cap,
    before: RevocationCell,
    after: RevocationCell,
)
    requires
        cap_valid(root, before),
        attenuates(root, want_rights, want_native, child),
        after.count == before.count.wrapping_add(1),
    ensures
        cap_valid(child, before),
        !cap_valid(root, after),
        !cap_valid(child, after),
{
}

impl Clone for Cap {
    fn clone(&self) -> (r: Self)
        ensures
            r == *self,
    {
        let native_mask = match &self.native_mask {
            Some(m) => Some(m.clone()),
            None => None,
        };
        Cap { target: self.target, rights: self.rights, native_mask, epoch: self.epoch }
    }
}

impl PartialEq for Cap {
    fn eq(&self, other: &Self) -> (r: bool) {
        let masks: bool = match (&self.native_mask, &other.native_mask) {
            (Some(m), Some(n)) => same_words(&*m.words, &*n.words),
            (None, None) => true,
            _ => false,
        };
        masks && self.target == other.target && self.rights == other.rights && self.epoch
            == other.epoch
    }
}

impl vstd::std_specs::cmp::PartialEqSpecImpl for Cap {
    open spec fn obeys_eq_spec() -> bool {
        true
    }

    open spec fn eq_spec(&self, other: &Self) -> bool {
        caps_equal(*self, *other)
    }
}

impl Eq for Cap {

}

impl Cap {
    /// Trusted root mint, at the current epoch of `cell`.
    pub fn root(
        target: CapTarget,
        rights: CapRights,
        native_mask: Option<NativeMask>,
        cell: &RevocationCell,
    ) -> (r: Self)
        ensures
            r == (Cap { target, rights, native_mask, epoch: cell.count }),
    {
        Cap { target, rights, native_mask, epoch: cell.epoch() }
    }

    pub fn epoch(&self) -> (r: u64)
        ensures
            r == self.epoch,
    {
        self.epoch
    }

    pub fn is_valid(&self, cell: &RevocationCell) -> (r: bool)
        ensures
            r == cap_valid(*self, *cell),
    {
        self.epoch == cell.epoch()
    }

    /// Narrow this capability. The single derivation path.
    pub fn attenuate(&self, want_rights: CapRights, want_native: Option<&NativeMask>) -> (r: Cap)
        ensures
            attenuates(
                *self,
                want_rights,
                match want_native {
                    Some(m) => Some(*m),
                    None => None,
                },
                r,
            ),
    {
        let native_mask = match (&self.native_mask, want_native) {
            (Some(cur), Some(req)) => Some(cur.intersect(req)),
            (Some(cur), None) => Some(cur.clone()),
            (None, _) => None,
        };
        Cap {
            target: self.target,
            rights: self.rights.intersect(want_rights),
            native_mask,
            epoch: self.epoch,
        }
    }
}

} // verus!
