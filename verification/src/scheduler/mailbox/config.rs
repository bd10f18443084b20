//! Bounds and overflow policy of an inbox, and its counters.

use vstd::prelude::*;

verus! {

/// Most messages in an inbox; at least one.
#[derive(Clone, Copy, Debug, PartialEq, Eq, Structural)]
pub struct MailboxCapacity {
    pub count: u32,
}

impl MailboxCapacity {
    /// A bound on the number of messages; zero is refused.
    pub fn new(count: u32) -> (r: Option<Self>)
        ensures
            r == (if count >= 1 {
                Some(MailboxCapacity { count })
            } else {
                None
            }),
    {
        if count >= 1 {
            Some(MailboxCapacity { count })
        } else {
            None
        }
    }

    pub fn get(self) -> (r: usize)
        ensures
            r == self.count,
    {
        self.count as usize
    }
}

/// Smallest byte budget of an inbox.
pub const MIN_MAILBOX_BYTES: usize = 1024;

/// Byte budget of an inbox.
#[derive(Clone, Copy, Debug, PartialEq, Eq, Structural)]
pub struct MailboxBytes {
    pub bytes: usize,
}

impl MailboxBytes {
    /// A byte budget; one below the smallest is refused, and so is the
    /// largest number, which stands for a sum that does not fit.
    pub fn new(bytes: usize) -> (r: Option<Self>)
        ensures
            r == (if MIN_MAILBOX_BYTES <= bytes < usize::MAX {
                Some(MailboxBytes { bytes })
            } else {
                None
            }),
    {
        if MIN_MAILBOX_BYTES <= bytes && bytes < usize::MAX {
            Some(MailboxBytes { bytes })
        } else {
            None
        }
    }

    pub fn get(self) -> (r: usize)
        ensures
            r == self.bytes,
    {
        self.bytes
    }
}

/// What a full inbox does with the next message. None of them blocks.
#[derive(Clone, Copy, Debug, PartialEq, Eq, Structural)]
pub enum OverflowPolicy {
    Reject,
    DropNewest,
    DropOldest,
}

/// Bounds and policy of an inbox.
#[derive(Clone, Copy, Debug, PartialEq, Eq, Structural)]
pub struct MailboxConfig {
    pub max_hops: MailboxCapacity,
    pub max_bytes: MailboxBytes,
    pub policy: OverflowPolicy,
}

/// Default bound on the number of messages.
pub const DEFAULT_MAILBOX_HOPS: u32 = 256;

/// Default byte budget.
pub const DEFAULT_MAILBOX_BYTES: usize = 1_048_576;

/// Bounds that an inbox can be made with.
pub open spec fn config_ok(c: MailboxConfig) -> bool {
    c.max_hops.count >= 1 && MIN_MAILBOX_BYTES <= c.max_bytes.bytes < usize::MAX
}

/// The default bounds: refuse what does not fit.
pub open spec fn default_config() -> MailboxConfig {
    MailboxConfig {
        max_hops: MailboxCapacity { count: DEFAULT_MAILBOX_HOPS },
        max_bytes: MailboxBytes { bytes: DEFAULT_MAILBOX_BYTES },
        policy: OverflowPolicy::Reject,
    }
}

impl MailboxConfig {
    /// A bound on messages with a policy, and the default byte budget.
    pub fn new(capacity: MailboxCapacity, overflow: OverflowPolicy) -> (r: Self)
        ensures
            r == (MailboxConfig {
                max_hops: capacity,
                max_bytes: MailboxBytes { bytes: DEFAULT_MAILBOX_BYTES },
                policy: overflow,
            }),
    {
        MailboxConfig {
            max_hops: capacity,
            max_bytes: MailboxBytes { bytes: DEFAULT_MAILBOX_BYTES },
            policy: overflow,
        }
    }

    /// The same bounds with another byte budget.
    pub fn with_bytes(self, bytes: MailboxBytes) -> (r: Self)
        ensures
            r == (MailboxConfig { max_bytes: bytes, ..self }),
    {
        MailboxConfig { max_hops: self.max_hops, max_bytes: bytes, policy: self.policy }
    }

    pub fn capacity(self) -> (r: MailboxCapacity)
        ensures
            r == self.max_hops,
    {
        self.max_hops
    }

    pub fn bytes(self) -> (r: MailboxBytes)
        ensures
            r == self.max_bytes,
    {
        self.max_bytes
    }

    pub fn overflow(self) -> (r: OverflowPolicy)
        ensures
            r == self.policy,
    {
        self.policy
    }
}

impl Default for MailboxConfig {
    fn default() -> (r: Self)
        ensures
            r == default_config(),
            config_ok(r),
    {
        MailboxConfig {
            max_hops: MailboxCapacity { count: DEFAULT_MAILBOX_HOPS },
            max_bytes: MailboxBytes { bytes: DEFAULT_MAILBOX_BYTES },
            policy: OverflowPolicy::Reject,
        }
    }
}

/// Counters of an inbox. They stop at the largest number.
#[derive(Clone, Copy, Debug, PartialEq, Eq, Structural)]
pub struct MailboxStats {
    pub enqueued: u64,
    pub dequeued: u64,
    pub dropped_newest: u64,
    pub dropped_oldest: u64,
    pub rejected: u64,
    pub rejected_byte_limit: u64,
    pub queued_messages: usize,
    pub queued_bytes: usize,
}

/// Counters of a new inbox.
pub open spec fn zero_stats() -> MailboxStats {
    MailboxStats {
        enqueued: 0,
        dequeued: 0,
        dropped_newest: 0,
        dropped_oldest: 0,
        rejected: 0,
        rejected_byte_limit: 0,
        queued_messages: 0,
        queued_bytes: 0,
    }
}

impl Default for MailboxStats {
    fn default() -> (r: Self)
        ensures
            r == zero_stats(),
    {
        MailboxStats {
            enqueued: 0,
            dequeued: 0,
            dropped_newest: 0,
            dropped_oldest: 0,
            rejected: 0,
            rejected_byte_limit: 0,
            queued_messages: 0,
            queued_bytes: 0,
        }
    }
}

/// One more, or the largest number.
pub open spec fn bumped(n: u64) -> u64 {
    if n < u64::MAX {
        (n + 1) as u64
    } else {
        n
    }
}

} // verus!
