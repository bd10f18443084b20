//! Byte accounting against a hard ceiling.
//!
//! Capacity is charged when it is acquired, a replacement charges the new
//! buffer before it gives the old one back, and a refused reservation changes
//! nothing.

use vstd::prelude::*;

use crate::bytecode::value::{string_bytes, utf8_len};
use crate::text::{dec, owned, push_str, push_usize};

verus! {

/// Hard ceiling of a [`MemoryBudget`].
#[derive(Debug, Clone, Copy, PartialEq, Eq, Structural)]
pub struct MemoryLimit {
    pub limit: usize,
}

/// Point-in-time view of a budget.
#[derive(Debug, Clone, Copy, PartialEq, Eq, Structural)]
pub struct MemorySnapshot {
    pub used: usize,
    pub limit: usize,
}

/// A refused reservation.
#[derive(Debug, Clone, Copy, PartialEq, Eq, Structural)]
pub enum MemoryError {
    LimitExceeded { requested: usize, used: usize, limit: usize },
    ArithmeticOverflow,
}

/// The message of a refused reservation.
pub open spec fn memory_error_text(e: MemoryError) -> Seq<char> {
    match e {
        MemoryError::LimitExceeded { requested, used, limit } =>
            "runtime memory limit exceeded: requested="@ + dec(requested as nat) + ", used="@ + dec(
                used as nat,
            ) + ", limit="@ + dec(limit as nat),
        MemoryError::ArithmeticOverflow => "runtime memory accounting overflow"@,
    }
}

impl MemoryError {
    /// The message of this error.
    pub fn text(&self) -> (r: String)
        ensures
            r@ == memory_error_text(*self),
    {
        match self {
            MemoryError::LimitExceeded { requested, used, limit } => {
                let mut s = owned("runtime memory limit exceeded: requested=");
                push_usize(&mut s, *requested);
                push_str(&mut s, ", used=");
                push_usize(&mut s, *used);
                push_str(&mut s, ", limit=");
                push_usize(&mut s, *limit);
                s
            },
            MemoryError::ArithmeticOverflow => owned("runtime memory accounting overflow"),
        }
    }
}

/// Byte budget with charge and release.
#[derive(Debug, Clone, Copy, PartialEq, Eq, Structural)]
pub struct MemoryBudget {
    pub used: usize,
    pub limit: usize,
}

/// The answer to a reservation of `bytes`.
pub open spec fn charge_result(b: MemoryBudget, bytes: usize) -> Result<(), MemoryError> {
    if bytes == 0 {
        Ok(())
    } else if b.used + bytes > usize::MAX {
        Err(MemoryError::ArithmeticOverflow)
    } else if b.used + bytes > b.limit {
        Err(MemoryError::LimitExceeded { requested: bytes, used: b.used, limit: b.limit })
    } else {
        Ok(())
    }
}

/// The budget after a reservation of `bytes`.
pub open spec fn charged(b: MemoryBudget, bytes: usize) -> MemoryBudget {
    if charge_result(b, bytes) is Ok {
        MemoryBudget { used: (b.used + bytes) as usize, ..b }
    } else {
        b
    }
}

/// The budget after `bytes` came back.
pub open spec fn released(b: MemoryBudget, bytes: usize) -> MemoryBudget {
    MemoryBudget { used: (b.used - bytes) as usize, ..b }
}

/// A reservation never brings a budget over its ceiling, a refused one
/// changes nothing, and giving back what was charged restores the budget.
pub proof fn budget_is_respected(b: MemoryBudget, bytes: usize)
    requires
        b.used <= b.limit,
    ensures
        charged(b, bytes).used <= charged(b, bytes).limit,
        charged(b, bytes).limit == b.limit,
        charge_result(b, bytes) is Err ==> charged(b, bytes) == b,
        charge_result(b, bytes) is Ok ==> released(charged(b, bytes), bytes) == b,
        charge_result(b, bytes) is Ok <==> b.used + bytes <= b.limit,
{
}

impl MemoryBudget {
    /// A budget with nothing charged.
    pub fn new(limit: usize) -> (r: Self)
        ensures
            r == (MemoryBudget { used: 0, limit }),
    {
        MemoryBudget { used: 0, limit }
    }

    pub fn limit(&self) -> (r: usize)
        ensures
            r == self.limit,
    {
        self.limit
    }

    pub fn used(&self) -> (r: usize)
        ensures
            r == self.used,
    {
        self.used
    }

    pub fn snapshot(&self) -> (r: MemorySnapshot)
        ensures
            r == (MemorySnapshot { used: self.used, limit: self.limit }),
    {
        MemorySnapshot { used: self.used, limit: self.limit }
    }

    /// Reserve `bytes` against the ceiling.
    pub fn try_charge(&mut self, bytes: usize) -> (r: Result<(), MemoryError>)
        ensures
            r == charge_result(*old(self), bytes),
            *final(self) == charged(*old(self), bytes),
    {
        if bytes == 0 {
            return Ok(());
        }
        let next: usize = match self.used.checked_add(bytes) {
            Some(next) => next,
            None => return Err(MemoryError::ArithmeticOverflow),
        };
        if next > self.limit {
            return Err(
                MemoryError::LimitExceeded { requested: bytes, used: self.used, limit: self.limit },
            );
        }
        self.used = next;
        Ok(())
    }

    /// Give charged bytes back.
    pub fn release(&mut self, bytes: usize)
        requires
            bytes <= old(self).used,
        ensures
            *final(self) == released(*old(self), bytes),
    {
        self.used = self.used - bytes;
    }
}

/// `String::capacity`: the bytes that the buffer of `s` has room for, which
/// are at least those that it holds. How much more is up to the allocation.
#[verifier::external_body]
fn string_capacity(s: &String) -> (r: usize)
    ensures
        r >= utf8_len(s@),
{
    s.capacity()
}

/// `Vec::capacity`: the elements that the buffer of `v` has room for, which
/// are at least those that it holds. How much more is up to the allocation.
#[verifier::external_body]
fn bytes_capacity(v: &Vec<u8>) -> (r: usize)
    ensures
        r >= v@.len(),
{
    v.capacity()
}

/// Text charged against a budget by the capacity of its buffer.
#[derive(Debug)]
pub struct HeapStr {
    pub value: String,
    pub charged: usize,
}

impl HeapStr {
    /// Charge the capacity of `value` and hold it.
    pub fn new(budget: &mut MemoryBudget, value: String) -> (r: Result<HeapStr, MemoryError>)
        ensures
            exists|capacity: usize|
                {
                    &&& capacity >= utf8_len(value@)
                    &&& *final(budget) == #[trigger] charged(*old(budget), capacity)
                    &&& match charge_result(*old(budget), capacity) {
                        Ok(_) => r == Ok::<HeapStr, MemoryError>(
                            HeapStr { value, charged: capacity },
                        ),
                        Err(e) => r == Err::<HeapStr, MemoryError>(e),
                    }
                },
    {
        let capacity: usize = string_capacity(&value);
        HeapStr::with_capacity(budget, value, capacity)
    }

    /// Hold `value` at a charge of `capacity`.
    pub fn with_capacity(budget: &mut MemoryBudget, value: String, capacity: usize) -> (r: Result<
        HeapStr,
        MemoryError,
    >)
        ensures
            *final(budget) == charged(*old(budget), capacity),
            match charge_result(*old(budget), capacity) {
                Ok(_) => r == Ok::<HeapStr, MemoryError>(HeapStr { value, charged: capacity }),
                Err(e) => r == Err::<HeapStr, MemoryError>(e),
            },
    {
        match budget.try_charge(capacity) {
            Ok(_) => Ok(HeapStr { value, charged: capacity }),
            Err(e) => Err(e),
        }
    }

    pub fn as_str(&self) -> (r: &str)
        ensures
            r@ == self.value@,
    {
        self.value.as_str()
    }

    /// Length in bytes.
    pub fn len(&self) -> (r: usize)
        ensures
            r == utf8_len(self.value@),
    {
        string_bytes(self.value.as_str())
    }

    pub fn is_empty(&self) -> (r: bool)
        ensures
            r == (utf8_len(self.value@) == 0),
    {
        string_bytes(self.value.as_str()) == 0
    }

    /// Capacity of the buffer: what was charged for it.
    pub fn capacity(&self) -> (r: usize)
        ensures
            r == self.charged,
    {
        self.charged
    }

    /// Charge `next`, install it, then give the old charge back. A refusal
    /// changes nothing.
    pub fn replace(&mut self, budget: &mut MemoryBudget, next: String) -> (r: Result<
        (),
        MemoryError,
    >)
        requires
            old(self).charged <= old(budget).used,
        ensures
            exists|capacity: usize|
                {
                    &&& capacity >= utf8_len(next@)
                    &&& r == #[trigger] charge_result(*old(budget), capacity)
                    &&& match r {
                        Ok(_) => {
                            &&& *final(self) == (HeapStr { value: next, charged: capacity })
                            &&& *final(budget) == released(
                                charged(*old(budget), capacity),
                                old(self).charged,
                            )
                        },
                        Err(_) => *final(self) == *old(self) && *final(budget) == *old(budget),
                    }
                },
    {
        let capacity: usize = string_capacity(&next);
        self.replace_with_capacity(budget, next, capacity)
    }

    /// [`HeapStr::replace`] at a charge of `capacity`.
    pub fn replace_with_capacity(
        &mut self,
        budget: &mut MemoryBudget,
        next: String,
        capacity: usize,
    ) -> (r: Result<(), MemoryError>)
        requires
            old(self).charged <= old(budget).used,
        ensures
            r == charge_result(*old(budget), capacity),
            match r {
                Ok(_) => {
                    &&& *final(self) == (HeapStr { value: next, charged: capacity })
                    &&& *final(budget) == released(
                        charged(*old(budget), capacity),
                        old(self).charged,
                    )
                },
                Err(_) => *final(self) == *old(self) && *final(budget) == *old(budget),
            },
    {
        match budget.try_charge(capacity) {
            Ok(_) => {},
            Err(e) => return Err(e),
        }
        let before: usize = self.charged;
        self.value = next;
        self.charged = capacity;
        budget.release(before);
        Ok(())
    }

    /// Let the text go and give its charge back.
    pub fn release(self, budget: &mut MemoryBudget)
        requires
            self.charged <= old(budget).used,
        ensures
            *final(budget) == released(*old(budget), self.charged),
    {
        budget.release(self.charged);
    }
}

/// Bytes charged against a budget by the capacity of their buffer.
#[derive(Debug)]
pub struct HeapBytes {
    pub bytes: Vec<u8>,
    pub charged: usize,
}

impl HeapBytes {
    /// Charge the capacity of `bytes` and hold them.
    pub fn new(budget: &mut MemoryBudget, bytes: Vec<u8>) -> (r: Result<HeapBytes, MemoryError>)
        ensures
            exists|capacity: usize|
                {
                    &&& capacity >= bytes@.len()
                    &&& *final(budget) == #[trigger] charged(*old(budget), capacity)
                    &&& match charge_result(*old(budget), capacity) {
                        Ok(_) => r == Ok::<HeapBytes, MemoryError>(
                            HeapBytes { bytes, charged: capacity },
                        ),
                        Err(e) => r == Err::<HeapBytes, MemoryError>(e),
                    }
                },
    {
        let capacity: usize = bytes_capacity(&bytes);
        HeapBytes::with_capacity(budget, bytes, capacity)
    }

    /// Hold `bytes` at a charge of `capacity`.
    pub fn with_capacity(budget: &mut MemoryBudget, bytes: Vec<u8>, capacity: usize) -> (r: Result<
        HeapBytes,
        MemoryError,
    >)
        ensures
            *final(budget) == charged(*old(budget), capacity),
            match charge_result(*old(budget), capacity) {
                Ok(_) => r == Ok::<HeapBytes, MemoryError>(HeapBytes { bytes, charged: capacity }),
                Err(e) => r == Err::<HeapBytes, MemoryError>(e),
            },
    {
        match budget.try_charge(capacity) {
            Ok(_) => Ok(HeapBytes { bytes, charged: capacity }),
            Err(e) => Err(e),
        }
    }

    pub fn as_slice(&self) -> (r: &[u8])
        ensures
            r@ == self.bytes@,
    {
        self.bytes.as_slice()
    }

    pub fn len(&self) -> (r: usize)
        ensures
            r == self.bytes@.len(),
    {
        self.bytes.len()
    }

    pub fn is_empty(&self) -> (r: bool)
        ensures
            r == (self.bytes@.len() == 0),
    {
        self.bytes.len() == 0
    }

    /// Capacity of the buffer: what was charged for it.
    pub fn capacity(&self) -> (r: usize)
        ensures
            r == self.charged,
    {
        self.charged
    }

    /// Charge `next`, install it, then give the old charge back. A refusal
    /// changes nothing.
    pub fn replace(&mut self, budget: &mut MemoryBudget, next: Vec<u8>) -> (r: Result<
        (),
        MemoryError,
    >)
        requires
            old(self).charged <= old(budget).used,
        ensures
            exists|capacity: usize|
                {
                    &&& capacity >= next@.len()
                    &&& r == #[trigger] charge_result(*old(budget), capacity)
                    &&& match r {
                        Ok(_) => {
                            &&& *final(self) == (HeapBytes { bytes: next, charged: capacity })
                            &&& *final(budget) == released(
                                charged(*old(budget), capacity),
                                old(self).charged,
                            )
                        },
                        Err(_) => *final(self) == *old(self) && *final(budget) == *old(budget),
                    }
                },
    {
        let capacity: usize = bytes_capacity(&next);
        self.replace_with_capacity(budget, next, capacity)
    }

    /// [`HeapBytes::replace`] at a charge of `capacity`.
    pub fn replace_with_capacity(
        &mut self,
        budget: &mut MemoryBudget,
        next: Vec<u8>,
        capacity: usize,
    ) -> (r: Result<(), MemoryError>)
        requires
            old(self).charged <= old(budget).used,
        ensures
            r == charge_result(*old(budget), capacity),
            match r {
                Ok(_) => {
                    &&& *final(self) == (HeapBytes { bytes: next, charged: capacity })
                    &&& *final(budget) == released(
                        charged(*old(budget), capacity),
                        old(self).charged,
                    )
                },
                Err(_) => *final(self) == *old(self) && *final(budget) == *old(budget),
            },
    {
        match budget.try_charge(capacity) {
            Ok(_) => {},
            Err(e) => return Err(e),
        }
        let before: usize = self.charged;
        self.bytes = next;
        self.charged = capacity;
        budget.release(before);
        Ok(())
    }

    /// Let the bytes go and give their charge back.
    pub fn release(self, budget: &mut MemoryBudget)
        requires
            self.charged <= old(budget).used,
        ensures
            *final(budget) == released(*old(budget), self.charged),
    {
        budget.release(self.charged);
    }
}

} // verus!
