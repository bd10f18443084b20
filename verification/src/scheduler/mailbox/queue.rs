//! Message queue of an inbox: bounded by a count and by bytes.

use vstd::prelude::*;

use crate::bytecode::value::{capped, value_bytes, wire_tag, Value};
use crate::scheduler::mailbox::config::OverflowPolicy;
use crate::scheduler::mailbox::ring::Ring;

verus! {

/// What a waiting flow accepts. Other messages are skipped, never dropped.
#[derive(Debug, Clone, Copy, PartialEq, Eq, Structural)]
pub enum WaitFilter {
    /// Anything.
    Any,
    /// A message with this tag.
    Tag(u16),
    /// A message whose payload has this wire tag.
    PayloadKind(u8),
    /// The reply to one request, from a given flow if one is named.
    Correlation { expect_request_id: u64, expect_sender: Option<u64> },
    /// A message with this tag and correlation id, from anyone.
    TaggedCorrelation { tag: u16, expect_request_id: u64 },
}

/// Whether a filter accepts a value.
pub open spec fn accepts(f: WaitFilter, v: Value) -> bool {
    match f {
        WaitFilter::Any => true,
        WaitFilter::Tag(tag) => v matches Value::Message(m) && m.tag == tag,
        WaitFilter::PayloadKind(kind) => v matches Value::Message(m) && wire_tag(*m.payload)
            == kind,
        WaitFilter::Correlation { expect_request_id, expect_sender } => {
            &&& v matches Value::Message(m)
            &&& m.request_id == expect_request_id
            &&& expect_sender matches Some(s) ==> m.sender == s
        },
        WaitFilter::TaggedCorrelation { tag, expect_request_id } => {
            &&& v matches Value::Message(m)
            &&& m.tag == tag
            &&& m.request_id == expect_request_id
        },
    }
}

impl WaitFilter {
    /// Whether this filter accepts `value`.
    pub fn matches(&self, value: &Value) -> (r: bool)
        ensures
            r == accepts(*self, *value),
    {
        match *self {
            WaitFilter::Any => true,
            WaitFilter::Tag(tag) => match value {
                Value::Message(m) => m.tag == tag,
                _ => false,
            },
            WaitFilter::PayloadKind(kind) => match value {
                Value::Message(m) => m.payload.wire_tag() == kind,
                _ => false,
            },
            WaitFilter::Correlation { expect_request_id, expect_sender } => match value {
                Value::Message(m) => {
                    let sender_ok: bool = match expect_sender {
                        Some(s) => m.sender == s,
                        None => true,
                    };
                    m.request_id == expect_request_id && sender_ok
                },
                _ => false,
            },
            WaitFilter::TaggedCorrelation { tag, expect_request_id } => match value {
                Value::Message(m) => m.tag == tag && m.request_id == expect_request_id,
                _ => false,
            },
        }
    }
}

/// Why an inbox refuses a message.
#[derive(Debug, Clone, Copy, PartialEq, Eq, Structural)]
pub enum MailboxFullReason {
    MessageLimit,
    /// Also for a message larger than the whole budget.
    ByteLimit,
    /// The owner is exiting.
    Closed,
}

/// What [`MailboxQueue::enqueue`] did.
#[derive(Clone, Copy, Debug, PartialEq, Eq, Structural)]
pub enum EnqueueEffect {
    Enqueued,
    DroppedNewest,
    DroppedOldest,
}

/// Bytes that a message is charged for.
pub open spec fn hop_bytes(v: Value) -> nat {
    capped(value_bytes(v)) as nat
}

/// Bytes that a queue is charged for.
pub open spec fn total_bytes(s: Seq<Value>) -> nat
    decreases s.len(),
{
    if s.len() == 0 {
        0
    } else {
        hop_bytes(s[0]) + total_bytes(s.drop_first())
    }
}

/// A queue: its messages and bounds.
#[verifier::ext_equal]
pub ghost struct QueueState {
    pub hops: Seq<Value>,
    pub limit: usize,
    pub byte_limit: usize,
}

/// A message of `cost` bytes fits.
pub open spec fn fits(hops: Seq<Value>, limit: usize, byte_limit: usize, cost: nat) -> bool {
    hops.len() < limit && total_bytes(hops) + cost <= byte_limit
}

/// The messages left once enough of the oldest went for `cost` bytes to fit,
/// or none.
pub open spec fn evicted(hops: Seq<Value>, limit: usize, byte_limit: usize, cost: nat) -> Seq<Value>
    decreases hops.len(),
{
    if hops.len() == 0 || fits(hops, limit, byte_limit, cost) {
        hops
    } else {
        evicted(hops.drop_first(), limit, byte_limit, cost)
    }
}

/// The first message from `from` on that a filter accepts.
pub open spec fn first_match(hops: Seq<Value>, f: WaitFilter, from: nat) -> Option<nat>
    decreases hops.len() - from,
{
    if from >= hops.len() {
        None
    } else if accepts(f, hops[from as int]) {
        Some(from)
    } else {
        first_match(hops, f, from + 1)
    }
}

/// The queue after an enqueue, and the answer.
pub open spec fn enqueued(q: QueueState, v: Value, policy: OverflowPolicy) -> (
    QueueState,
    Result<EnqueueEffect, MailboxFullReason>,
) {
    let cost = hop_bytes(v);
    if fits(q.hops, q.limit, q.byte_limit, cost) {
        (QueueState { hops: q.hops.push(v), ..q }, Ok(EnqueueEffect::Enqueued))
    } else {
        match policy {
            OverflowPolicy::Reject => (
                q,
                Err(
                    if q.hops.len() >= q.limit {
                        MailboxFullReason::MessageLimit
                    } else {
                        MailboxFullReason::ByteLimit
                    },
                ),
            ),
            OverflowPolicy::DropNewest => (q, Ok(EnqueueEffect::DroppedNewest)),
            OverflowPolicy::DropOldest => {
                let left = evicted(q.hops, q.limit, q.byte_limit, cost);
                if cost > q.byte_limit {
                    (QueueState { hops: left, ..q }, Err(MailboxFullReason::ByteLimit))
                } else {
                    (QueueState { hops: left.push(v), ..q }, Ok(EnqueueEffect::DroppedOldest))
                }
            },
        }
    }
}

/// The queue after a message that must not be lost.
pub open spec fn force_pushed(q: QueueState, v: Value) -> QueueState {
    QueueState {
        hops: evicted(q.hops, q.limit, q.byte_limit, hop_bytes(v)).push(v),
        ..q
    }
}

/// The queue after a take, and what came out.
pub open spec fn taken_out(q: QueueState, f: WaitFilter) -> (QueueState, Option<Value>) {
    match first_match(q.hops, f, 0) {
        Some(i) => (QueueState { hops: q.hops.remove(i as int), ..q }, Some(q.hops[i as int])),
        None => (q, None),
    }
}

proof fn lemma_total_push(s: Seq<Value>, v: Value)
    ensures
        total_bytes(s.push(v)) == total_bytes(s) + hop_bytes(v),
    decreases s.len(),
{
    if s.len() == 0 {
        assert(s.push(v).drop_first() =~= s);
    } else {
        assert(s.push(v).drop_first() =~= s.drop_first().push(v));
        lemma_total_push(s.drop_first(), v);
    }
}

proof fn lemma_total_remove(s: Seq<Value>, i: int)
    requires
        0 <= i < s.len(),
    ensures
        total_bytes(s) == total_bytes(s.remove(i)) + hop_bytes(s[i]),
    decreases s.len(),
{
    if i == 0 {
        assert(s.remove(0) =~= s.drop_first());
    } else {
        lemma_total_remove(s.drop_first(), i - 1);
        assert(s.remove(i).drop_first() =~= s.drop_first().remove(i - 1));
    }
}

proof fn lemma_evicted(hops: Seq<Value>, limit: usize, byte_limit: usize, cost: nat)
    requires
        limit >= 1,
    ensures
        evicted(hops, limit, byte_limit, cost).len() <= hops.len(),
        cost <= byte_limit ==> fits(
            evicted(hops, limit, byte_limit, cost),
            limit,
            byte_limit,
            cost,
        ),
        cost > byte_limit ==> evicted(hops, limit, byte_limit, cost).len() == 0,
        total_bytes(evicted(hops, limit, byte_limit, cost)) <= total_bytes(hops),
        exists|k: int|
            0 <= k <= hops.len() && evicted(hops, limit, byte_limit, cost) == #[trigger] hops.skip(
                k,
            ),
    decreases hops.len(),
{
    if hops.len() == 0 || fits(hops, limit, byte_limit, cost) {
        assert(hops.skip(0) =~= hops);
    } else {
        lemma_evicted(hops.drop_first(), limit, byte_limit, cost);
        let k = choose|k: int|
            0 <= k <= hops.drop_first().len() && evicted(
                hops.drop_first(),
                limit,
                byte_limit,
                cost,
            ) == #[trigger] hops.drop_first().skip(k);
        assert(hops.drop_first().skip(k) =~= hops.skip(k + 1));
    }
}

/// Enqueueing keeps both bounds, whatever the policy; the oldest messages go
/// first, the rest keep their order, and a refusal under the rejecting
/// policy changes nothing.
pub proof fn enqueue_keeps_bounds(q: QueueState, v: Value, policy: OverflowPolicy)
    requires
        q.limit >= 1,
        q.hops.len() <= q.limit,
        total_bytes(q.hops) <= q.byte_limit,
    ensures
        enqueued(q, v, policy).0.hops.len() <= q.limit,
        total_bytes(enqueued(q, v, policy).0.hops) <= q.byte_limit,
        policy is Reject && enqueued(q, v, policy).1 is Err ==> enqueued(q, v, policy).0 == q,
        exists|k: int|
            0 <= k <= q.hops.len() && (enqueued(q, v, policy).0.hops == #[trigger] q.hops.skip(k)
                || enqueued(q, v, policy).0.hops == q.hops.skip(k).push(v)),
{
    let cost = hop_bytes(v);
    lemma_evicted(q.hops, q.limit, q.byte_limit, cost);
    lemma_total_push(q.hops, v);
    let left = evicted(q.hops, q.limit, q.byte_limit, cost);
    lemma_total_push(left, v);
    assert(q.hops.skip(0) =~= q.hops);
    assert(left.len() == 0 ==> total_bytes(left) == 0);
}

/// A forced message is always in the queue afterwards, as the newest; the
/// byte budget is kept unless that message alone is larger.
pub proof fn forced_message_is_kept(q: QueueState, v: Value)
    requires
        q.limit >= 1,
        q.hops.len() <= q.limit,
    ensures
        force_pushed(q, v).hops.last() == v,
        force_pushed(q, v).hops.len() <= q.limit,
        hop_bytes(v) <= q.byte_limit ==> total_bytes(force_pushed(q, v).hops) <= q.byte_limit,
        hop_bytes(v) > q.byte_limit ==> force_pushed(q, v).hops.len() == 1,
{
    lemma_evicted(q.hops, q.limit, q.byte_limit, hop_bytes(v));
    let left = evicted(q.hops, q.limit, q.byte_limit, hop_bytes(v));
    lemma_total_push(left, v);
}

proof fn lemma_first_match(hops: Seq<Value>, f: WaitFilter, from: nat)
    ensures
        match first_match(hops, f, from) {
            Some(i) => from <= i < hops.len() && accepts(f, hops[i as int]) && forall|j: int|
                from <= j < i ==> !accepts(f, #[trigger] hops[j]),
            None => forall|j: int| from <= j < hops.len() ==> !accepts(f, #[trigger] hops[j]),
        },
    decreases hops.len() - from,
{
    if from < hops.len() && !accepts(f, hops[from as int]) {
        lemma_first_match(hops, f, from + 1);
    }
}

/// A take gives out the oldest message that the filter accepts, if there is
/// one; all others stay in order, and the byte charge drops by exactly the
/// message's bytes.
pub proof fn take_is_fifo(q: QueueState, f: WaitFilter)
    ensures
        match taken_out(q, f).1 {
            Some(v) => exists|i: int|
                {
                    &&& 0 <= i < q.hops.len()
                    &&& v == #[trigger] q.hops[i]
                    &&& accepts(f, v)
                    &&& forall|j: int| 0 <= j < i ==> !accepts(f, #[trigger] q.hops[j])
                    &&& taken_out(q, f).0.hops == q.hops.remove(i)
                    &&& total_bytes(q.hops) == total_bytes(taken_out(q, f).0.hops) + hop_bytes(v)
                },
            None => taken_out(q, f).0 == q && forall|j: int|
                0 <= j < q.hops.len() ==> !accepts(f, #[trigger] q.hops[j]),
        },
{
    lemma_first_match(q.hops, f, 0);
    if let Some(i) = first_match(q.hops, f, 0) {
        lemma_total_remove(q.hops, i as int);
        assert(q.hops[i as int] == taken_out(q, f).1->Some_0);
    }
}

struct QueueCore {
    ring: Ring<Value>,
    limit: usize,
    bytes: usize,
    byte_limit: usize,
}

/// FIFO of messages with its byte charge.
pub struct MailboxQueue {
    core: QueueCore,
}

impl View for MailboxQueue {
    type V = QueueState;

    closed spec fn view(&self) -> QueueState {
        QueueState {
            hops: self.core.ring@,
            limit: self.core.limit,
            byte_limit: self.core.byte_limit,
        }
    }
}

spec fn core_ok(c: QueueCore) -> bool {
    &&& c.limit >= 1
    &&& c.byte_limit < usize::MAX
    &&& c.ring@.len() <= c.limit
    &&& c.bytes == total_bytes(c.ring@)
}

impl QueueCore {
    fn blank(limit: usize, byte_limit: usize) -> (r: Self)
        requires
            limit >= 1,
            byte_limit < usize::MAX,
        ensures
            core_ok(r),
            r.ring@.len() == 0,
            r.limit == limit,
            r.byte_limit == byte_limit,
    {
        QueueCore { ring: Ring::new(), limit, bytes: 0, byte_limit }
    }

    fn pop(&mut self) -> (r: Value)
        requires
            core_ok(*old(self)),
            old(self).ring@.len() > 0,
        ensures
            core_ok(*final(self)),
            r == old(self).ring@[0],
            final(self).ring@ == old(self).ring@.drop_first(),
            final(self).limit == old(self).limit,
            final(self).byte_limit == old(self).byte_limit,
    {
        let v = self.ring.remove(0);
        proof {
            lemma_total_remove(old(self).ring@, 0);
            assert(old(self).ring@.remove(0) =~= old(self).ring@.drop_first());
        }
        self.bytes = self.bytes - v.memory_size();
        v
    }

    fn has_room(&self, cost: usize) -> (r: bool)
        requires
            core_ok(*self),
        ensures
            r == fits(self.ring@, self.limit, self.byte_limit, cost as nat),
    {
        self.ring.len() < self.limit && self.bytes.saturating_add(cost) <= self.byte_limit
    }

    fn make_room(&mut self, cost: usize)
        requires
            core_ok(*old(self)),
        ensures
            core_ok(*final(self)),
            final(self).ring@ == evicted(
                old(self).ring@,
                old(self).limit,
                old(self).byte_limit,
                cost as nat,
            ),
            final(self).limit == old(self).limit,
            final(self).byte_limit == old(self).byte_limit,
    {
        while self.ring.len() > 0 && !self.has_room(cost)
            invariant
                core_ok(*self),
                self.limit == old(self).limit,
                self.byte_limit == old(self).byte_limit,
                evicted(
                    self.ring@,
                    old(self).limit,
                    old(self).byte_limit,
                    cost as nat,
                ) == evicted(
                    old(self).ring@,
                    old(self).limit,
                    old(self).byte_limit,
                    cost as nat,
                ),
            decreases self.ring@.len(),
        {
            let _ = self.pop();
        }
    }

    fn append(&mut self, v: Value, cost: usize)
        requires
            core_ok(*old(self)),
            cost == hop_bytes(v),
            old(self).ring@.len() < old(self).limit,
            total_bytes(old(self).ring@) + cost <= usize::MAX,
        ensures
            core_ok(*final(self)),
            final(self).ring@ == old(self).ring@.push(v),
            final(self).limit == old(self).limit,
            final(self).byte_limit == old(self).byte_limit,
    {
        proof {
            lemma_total_push(self.ring@, v);
        }
        self.bytes = self.bytes.saturating_add(cost);
        self.ring.push_back(v, self.limit);
    }
}

impl MailboxQueue {
    #[verifier::type_invariant]
    spec fn sound(&self) -> bool {
        core_ok(self.core)
    }

    pub fn new(limit: usize, byte_limit: usize) -> (r: Self)
        requires
            limit >= 1,
            1 <= byte_limit < usize::MAX,
        ensures
            r@ == (QueueState { hops: Seq::empty(), limit, byte_limit }),
    {
        let r = MailboxQueue { core: QueueCore::blank(limit, byte_limit) };
        assert(r@.hops =~= Seq::empty());
        r
    }

    pub fn len(&self) -> (r: usize)
        ensures
            r == self@.hops.len(),
            r <= self@.limit,
    {
        proof {
            use_type_invariant(&*self);
        }
        self.core.ring.len()
    }

    /// Bytes charged to the queue.
    pub fn bytes(&self) -> (r: usize)
        ensures
            r == total_bytes(self@.hops),
    {
        proof {
            use_type_invariant(&*self);
        }
        self.core.bytes
    }

    /// Whether a message of `cost` bytes fits an empty queue.
    pub fn can_ever_fit(&self, cost: usize) -> (r: bool)
        ensures
            r == (cost <= self@.byte_limit),
    {
        proof {
            use_type_invariant(&*self);
        }
        cost <= self.core.byte_limit && self.core.limit >= 1
    }

    /// Take the oldest message out that `filter` accepts.
    pub fn take(&mut self, filter: WaitFilter) -> (r: Option<Value>)
        ensures
            (final(self)@, r) == taken_out(old(self)@, filter),
    {
        proof {
            use_type_invariant(&*self);
        }
        let mut core = QueueCore::blank(self.core.limit, self.core.byte_limit);
        std::mem::swap(&mut core, &mut self.core);
        let n: usize = core.ring.len();
        let mut i: usize = 0;
        while i < n
            invariant
                n == core.ring@.len(),
                i <= n,
                core_ok(core),
                core.ring@ == old(self)@.hops,
                first_match(core.ring@, filter, 0) == first_match(core.ring@, filter, i as nat),
                core.limit == old(self)@.limit,
                core.byte_limit == old(self)@.byte_limit,
            decreases n - i,
        {
            if filter.matches(core.ring.get(i)) {
                proof {
                    lemma_total_remove(core.ring@, i as int);
                }
                let v = core.ring.remove(i);
                core.bytes = core.bytes - v.memory_size();
                self.core = core;
                return Some(v);
            }
            i += 1;
        }
        self.core = core;
        None
    }

    /// Try to accept `value` under `policy`.
    pub fn enqueue(&mut self, value: Value, policy: OverflowPolicy) -> (r: Result<
        EnqueueEffect,
        MailboxFullReason,
    >)
        ensures
            (final(self)@, r) == enqueued(old(self)@, value, policy),
    {
        proof {
            use_type_invariant(&*self);
        }
        let mut core = QueueCore::blank(self.core.limit, self.core.byte_limit);
        std::mem::swap(&mut core, &mut self.core);
        let cost: usize = value.memory_size();
        if core.has_room(cost) {
            core.append(value, cost);
            self.core = core;
            return Ok(EnqueueEffect::Enqueued);
        }
        let reason = if core.ring.len() >= core.limit {
            MailboxFullReason::MessageLimit
        } else {
            MailboxFullReason::ByteLimit
        };
        match policy {
            OverflowPolicy::Reject => {
                self.core = core;
                Err(reason)
            },
            OverflowPolicy::DropNewest => {
                self.core = core;
                Ok(EnqueueEffect::DroppedNewest)
            },
            OverflowPolicy::DropOldest => {
                proof {
                    lemma_evicted(core.ring@, core.limit, core.byte_limit, cost as nat);
                }
                core.make_room(cost);
                if !core.has_room(cost) {
                    self.core = core;
                    return Err(MailboxFullReason::ByteLimit);
                }
                core.append(value, cost);
                self.core = core;
                Ok(EnqueueEffect::DroppedOldest)
            },
        }
    }

    /// Accept a message that must not be lost: the oldest go until it fits
    /// or the queue is empty.
    pub fn force_push(&mut self, value: Value)
        ensures
            final(self)@ == force_pushed(old(self)@, value),
    {
        proof {
            use_type_invariant(&*self);
        }
        let mut core = QueueCore::blank(self.core.limit, self.core.byte_limit);
        std::mem::swap(&mut core, &mut self.core);
        let cost: usize = value.memory_size();
        proof {
            lemma_evicted(core.ring@, core.limit, core.byte_limit, cost as nat);
        }
        core.make_room(cost);
        core.append(value, cost);
        self.core = core;
    }
}

} // verus!
