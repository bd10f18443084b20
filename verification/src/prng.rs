//! Deterministic pseudo-random numbers for stress tests.

use vstd::prelude::*;
use vstd::bytes::{spec_u64_to_le_bytes, u64_to_le_bytes};

verus! {

/// One step of the generator.
pub open spec fn xorshift(x: u64) -> u64 {
    let a = x ^ (x << 13u64);
    let b = a ^ (a >> 7u64);
    b ^ (b << 17u64)
}

/// The state after `n` steps.
pub open spec fn xorshift_iter(x: u64, n: nat) -> u64
    decreases n,
{
    if n == 0 {
        x
    } else {
        xorshift(xorshift_iter(x, (n - 1) as nat))
    }
}

/// The generator never falls into the all-zero state.
pub proof fn xorshift_never_zero(x: u64, n: nat)
    requires
        x != 0,
    ensures
        xorshift_iter(x, n) != 0,
    decreases n,
{
    if n > 0 {
        xorshift_never_zero(x, (n - 1) as nat);
        let y = xorshift_iter(x, (n - 1) as nat);
        let a = y ^ (y << 13u64);
        let b = a ^ (a >> 7u64);
        assert(y != 0 ==> y ^ (y << 13u64) != 0) by (bit_vector);
        assert(a != 0 ==> a ^ (a >> 7u64) != 0) by (bit_vector);
        assert(b != 0 ==> b ^ (b << 17u64) != 0) by (bit_vector);
    }
}

/// Byte `i` of the stream that starts in state `x`: eight bytes a step, low
/// byte first.
pub open spec fn stream_byte(x: u64, i: int) -> u8 {
    spec_u64_to_le_bytes(xorshift_iter(x, (i / 8 + 1) as nat))[i % 8]
}

/// Steps that fill `n` bytes.
pub open spec fn stream_steps(n: nat) -> nat {
    (n + 7) / 8
}

/// Generator with 64 bits of state.
#[derive(Clone, Debug)]
pub struct XorShift64 {
    pub state: u64,
}

impl XorShift64 {
    /// A generator; the lowest bit of the seed is set.
    pub fn new(seed: u64) -> (r: Self)
        ensures
            r.state == seed | 1,
            r.state != 0,
    {
        assert(seed | 1 != 0) by (bit_vector);
        XorShift64 { state: seed | 1 }
    }

    pub fn next_u64(&mut self) -> (r: u64)
        ensures
            r == xorshift(old(self).state),
            final(self).state == r,
    {
        let x: u64 = self.state;
        let a: u64 = x ^ (x << 13u64);
        let b: u64 = a ^ (a >> 7u64);
        let c: u64 = b ^ (b << 17u64);
        self.state = c;
        c
    }

    pub fn next_u32(&mut self) -> (r: u32)
        ensures
            final(self).state == xorshift(old(self).state),
            r == final(self).state as u32,
    {
        self.next_u64() as u32
    }

    pub fn next_i64(&mut self) -> (r: i64)
        ensures
            final(self).state == xorshift(old(self).state),
            r == final(self).state as i64,
    {
        self.next_u64() as i64
    }

    pub fn next_i32(&mut self) -> (r: i32)
        ensures
            final(self).state == xorshift(old(self).state),
            r == final(self).state as i32,
    {
        self.next_u64() as i32
    }

    /// A number of `lo..=hi`; an empty range gives `lo` and takes no step.
    pub fn next_u32_inclusive(&mut self, lo: u32, hi: u32) -> (r: u32)
        ensures
            lo >= hi ==> r == lo && *final(self) == *old(self),
            lo < hi ==> {
                &&& final(self).state == xorshift(old(self).state)
                &&& r == lo + final(self).state as int % (hi - lo + 1)
                &&& lo <= r <= hi
            },
    {
        if lo >= hi {
            return lo;
        }
        let span: u64 = (hi - lo) as u64 + 1;
        let k: u64 = self.next_u64() % span;
        lo + k as u32
    }

    /// Fill a buffer from the stream.
    pub fn fill_bytes(&mut self, buf: &mut [u8])
        ensures
            final(buf)@ == Seq::new(
                old(buf)@.len(),
                |i: int| stream_byte(old(self).state, i),
            ),
            final(self).state == xorshift_iter(old(self).state, stream_steps(old(buf)@.len())),
    {
        let ghost start = self.state;
        let ghost len = buf@.len();
        let mut i: usize = 0;
        let ghost mut steps: nat = 0;
        while i < buf.len()
            invariant
                start == old(self).state,
                len == old(buf)@.len(),
                buf@.len() == len,
                i <= len,
                i == 8 * steps || i == len,
                steps == stream_steps(i as nat),
                self.state == xorshift_iter(start, steps),
                forall|j: int| 0 <= j < i ==> buf@[j] == stream_byte(start, j),
            decreases len - i,
        {
            let word: Vec<u8> = u64_to_le_bytes(self.next_u64());
            proof {
                steps = steps + 1;
            }
            let mut k: usize = 0;
            let base: usize = i;
            while k < 8 && i < buf.len()
                invariant
                    start == old(self).state,
                    word@ == spec_u64_to_le_bytes(xorshift_iter(start, steps)),
                    word@.len() == 8,
                    len == old(buf)@.len(),
                    buf@.len() == len,
                    k <= 8,
                    i == base + k,
                    i <= len,
                    base == 8 * (steps - 1),
                    steps >= 1,
                    self.state == xorshift_iter(start, steps),
                    forall|j: int| 0 <= j < i ==> buf@[j] == stream_byte(start, j),
                decreases 8 - k,
            {
                assert(i as int / 8 + 1 == steps && i as int % 8 == k);
                buf[i] = word[k];
                i += 1;
                k += 1;
            }
        }
        assert(buf@ =~= Seq::new(len, |i: int| stream_byte(start, i)));
    }
}

} // verus!
