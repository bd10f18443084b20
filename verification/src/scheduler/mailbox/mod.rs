//! Inbox of a flow: a bounded queue, the owner while it waits, and the
//! senders that wait for room.
//!
//! Checking the queue and becoming the parked waiter is one operation, and
//! so is delivering a message and waking the waiter: no message can slip
//! between them. A message that the waiter does not accept is queued and the
//! waiter stays parked. There is no blocking overflow policy.

use vstd::prelude::*;

use crate::bytecode::value::Value;
use crate::scheduler::mailbox::config::{
    bumped, config_ok, default_config, zero_stats, MailboxConfig, MailboxStats, OverflowPolicy,
};
use crate::scheduler::mailbox::queue::{
    accepts, enqueued, force_pushed, hop_bytes, taken_out, total_bytes, EnqueueEffect,
    MailboxFullReason, MailboxQueue, QueueState, WaitFilter,
};
use crate::scheduler::process::FlowId;
use crate::text::{dec, owned, push_str, push_u64};

pub mod config;
pub mod queue;
pub mod ring;

verus! {

/// The message of a refusal reason.
pub open spec fn full_reason_text(r: MailboxFullReason) -> Seq<char> {
    match r {
        MailboxFullReason::MessageLimit => "hop count limit"@,
        MailboxFullReason::ByteLimit => "byte budget"@,
        MailboxFullReason::Closed => "mailbox closed"@,
    }
}

impl MailboxFullReason {
    /// The message of this reason.
    pub fn text(&self) -> (r: String)
        ensures
            r@ == full_reason_text(*self),
    {
        match self {
            MailboxFullReason::MessageLimit => owned("hop count limit"),
            MailboxFullReason::ByteLimit => owned("byte budget"),
            MailboxFullReason::Closed => owned("mailbox closed"),
        }
    }
}

/// An inbox that takes no more.
#[derive(Debug, Clone, Copy, PartialEq, Eq, Structural)]
pub struct MailboxFull {
    pub why: MailboxFullReason,
}

impl MailboxFull {
    pub fn reason(self) -> (r: MailboxFullReason)
        ensures
            r == self.why,
    {
        self.why
    }

    /// The message of this error.
    pub fn text(&self) -> (r: String)
        ensures
            r@ == "mailbox full ("@ + full_reason_text(self.why) + ")"@,
    {
        let mut s = owned("mailbox full (");
        push_str(&mut s, self.why.text().as_str());
        push_str(&mut s, ")");
        s
    }
}

/// One particular wait of a flow in its inbox. A deadline that was set for
/// an earlier wait does not end a later one.
#[derive(Clone, Copy, Debug, PartialEq, Eq, Structural, Hash)]
pub struct WaitEpoch {
    pub count: u64,
}

impl WaitEpoch {
    pub fn get(self) -> (r: u64)
        ensures
            r == self.count,
    {
        self.count
    }

    /// Printed form.
    pub fn text(self) -> (r: String)
        ensures
            r@ == "wait#"@ + dec(self.count as nat),
    {
        let mut s = owned("wait#");
        push_u64(&mut s, self.count);
        s
    }
}

/// What became of a pushed message.
#[derive(Clone, Copy, Debug, PartialEq, Eq, Structural)]
pub enum Delivery {
    Queued,
    QueuedDropOldest,
    DroppedNewest,
    /// The waiter was waiting for it: it must be resumed with the message.
    Handoff(FlowId),
}

/// What became of a sender that wanted to wait.
#[derive(Clone, Copy, Debug, PartialEq, Eq, Structural)]
pub enum ParkSender {
    Parked,
    /// The inbox is closed, or as many senders wait as it has room for.
    Closed(FlowId),
    /// The message can never fit.
    Undeliverable(FlowId),
}

/// What became of the first waiting sender.
#[derive(Clone, Copy, Debug, PartialEq, Eq, Structural)]
pub enum AdmitSender {
    Woken(FlowId),
    Idle,
    /// Its message can never fit.
    Undeliverable(FlowId),
}

/// What an inbox holds.
#[verifier::ext_equal]
pub ghost struct MailboxState {
    pub queue: QueueState,
    pub parked: Option<FlowId>,
    pub filter: WaitFilter,
    pub epoch: u64,
    pub stats: MailboxStats,
    pub waiting: Seq<(FlowId, Value)>,
    pub closed: bool,
    pub config: MailboxConfig,
}

/// A new inbox.
pub open spec fn new_mailbox(config: MailboxConfig) -> MailboxState {
    MailboxState {
        queue: QueueState {
            hops: Seq::empty(),
            limit: config.max_hops.count as usize,
            byte_limit: config.max_bytes.bytes,
        },
        parked: None,
        filter: WaitFilter::Any,
        epoch: 0,
        stats: zero_stats(),
        waiting: Seq::empty(),
        closed: false,
        config,
    }
}

/// Counters after an enqueue was answered with `r`.
pub open spec fn counted(
    s: MailboxStats,
    r: Result<EnqueueEffect, MailboxFullReason>,
) -> MailboxStats {
    match r {
        Ok(EnqueueEffect::Enqueued) => MailboxStats { enqueued: bumped(s.enqueued), ..s },
        Ok(EnqueueEffect::DroppedOldest) => MailboxStats {
            dropped_oldest: bumped(s.dropped_oldest),
            enqueued: bumped(s.enqueued),
            ..s
        },
        Ok(EnqueueEffect::DroppedNewest) => MailboxStats {
            dropped_newest: bumped(s.dropped_newest),
            ..s
        },
        Err(MailboxFullReason::ByteLimit) => MailboxStats {
            rejected: bumped(s.rejected),
            rejected_byte_limit: bumped(s.rejected_byte_limit),
            ..s
        },
        Err(_) => MailboxStats { rejected: bumped(s.rejected), ..s },
    }
}

/// The answer to a sender for what the queue did.
pub open spec fn delivery_of(r: Result<EnqueueEffect, MailboxFullReason>) -> Result<
    Delivery,
    MailboxFull,
> {
    match r {
        Ok(EnqueueEffect::Enqueued) => Ok(Delivery::Queued),
        Ok(EnqueueEffect::DroppedOldest) => Ok(Delivery::QueuedDropOldest),
        Ok(EnqueueEffect::DroppedNewest) => Ok(Delivery::DroppedNewest),
        Err(why) => Err(MailboxFull { why }),
    }
}

/// The inbox after an enqueue, and the answer.
pub open spec fn queued(m: MailboxState, v: Value, policy: OverflowPolicy) -> (
    MailboxState,
    Result<Delivery, MailboxFull>,
) {
    let (q, r) = enqueued(m.queue, v, policy);
    (MailboxState { queue: q, stats: counted(m.stats, r), ..m }, delivery_of(r))
}

/// The waiter accepts `v`.
pub open spec fn awaited(m: MailboxState, v: Value) -> bool {
    m.parked is Some && accepts(m.filter, v)
}

/// The inbox after the waiter was handed a message.
pub open spec fn handed_off(m: MailboxState) -> MailboxState {
    MailboxState {
        parked: None,
        filter: WaitFilter::Any,
        stats: MailboxStats {
            enqueued: bumped(m.stats.enqueued),
            dequeued: bumped(m.stats.dequeued),
            ..m.stats
        },
        ..m
    }
}

/// The inbox after a push, and the answer.
pub open spec fn pushed(m: MailboxState, v: Value) -> (MailboxState, Result<Delivery, MailboxFull>) {
    if m.closed {
        (m, Err(MailboxFull { why: MailboxFullReason::Closed }))
    } else if awaited(m, v) {
        (handed_off(m), Ok(Delivery::Handoff(m.parked->Some_0)))
    } else {
        queued(m, v, m.config.policy)
    }
}

/// The inbox after a message of the system, and the answer. A closed inbox
/// drops it.
pub open spec fn system_pushed(m: MailboxState, v: Value) -> (MailboxState, Delivery) {
    if m.closed {
        (m, Delivery::Queued)
    } else if awaited(m, v) {
        (handed_off(m), Delivery::Handoff(m.parked->Some_0))
    } else {
        (
            MailboxState {
                queue: force_pushed(m.queue, v),
                stats: MailboxStats { enqueued: bumped(m.stats.enqueued), ..m.stats },
                ..m
            },
            Delivery::Queued,
        )
    }
}

/// The inbox after a selective pop, and what came out.
pub open spec fn popped(m: MailboxState, f: WaitFilter) -> (MailboxState, Option<Value>) {
    let (q, r) = taken_out(m.queue, f);
    match r {
        Some(v) => (
            MailboxState {
                queue: q,
                stats: MailboxStats { dequeued: bumped(m.stats.dequeued), ..m.stats },
                ..m
            },
            Some(v),
        ),
        None => (m, None),
    }
}

/// The inbox after its owner asked to wait: a message that is there already
/// comes out, else the owner is parked in a new epoch.
pub open spec fn parked_with(m: MailboxState, flow: FlowId, f: WaitFilter) -> (
    MailboxState,
    Result<WaitEpoch, Value>,
) {
    let (m1, got) = popped(m, f);
    match got {
        Some(v) => (m1, Err(v)),
        None => {
            let epoch = m.epoch.wrapping_add(1);
            (
                MailboxState { epoch, filter: f, parked: Some(flow), ..m },
                Ok(WaitEpoch { count: epoch }),
            )
        },
    }
}

/// The inbox without its waiter.
pub open spec fn unparked(m: MailboxState) -> MailboxState {
    MailboxState { parked: None, filter: WaitFilter::Any, ..m }
}

/// The inbox after a sender asked to wait, and the answer.
pub open spec fn sender_parked(m: MailboxState, flow: FlowId, v: Value) -> (
    MailboxState,
    ParkSender,
) {
    if hop_bytes(v) > m.config.max_bytes.bytes {
        (m, ParkSender::Undeliverable(flow))
    } else if m.closed || m.waiting.len() >= m.config.max_hops.count {
        (m, ParkSender::Closed(flow))
    } else {
        (MailboxState { waiting: m.waiting.push((flow, v)), ..m }, ParkSender::Parked)
    }
}

/// The inbox after it tried to admit its first waiting sender.
pub open spec fn sender_admitted(m: MailboxState) -> (MailboxState, AdmitSender) {
    if m.closed || m.waiting.len() == 0 {
        (m, AdmitSender::Idle)
    } else {
        let (flow, v) = m.waiting[0];
        let rest = MailboxState { waiting: m.waiting.drop_first(), ..m };
        if hop_bytes(v) > m.queue.byte_limit {
            (rest, AdmitSender::Undeliverable(flow))
        } else {
            let (m1, r) = queued(rest, v, OverflowPolicy::Reject);
            match r {
                Ok(_) => (m1, AdmitSender::Woken(flow)),
                Err(_) => (MailboxState { waiting: m.waiting, ..m1 }, AdmitSender::Idle),
            }
        }
    }
}

/// The first waiting sender with this id, from `from` on.
pub open spec fn sender_position(s: Seq<(FlowId, Value)>, flow: FlowId, from: nat) -> Option<nat>
    decreases s.len() - from,
{
    if from >= s.len() {
        None
    } else if s[from as int].0 == flow {
        Some(from)
    } else {
        sender_position(s, flow, from + 1)
    }
}

/// The inbox without a waiting sender, and whether it was there.
pub open spec fn sender_removed(m: MailboxState, flow: FlowId) -> (MailboxState, bool) {
    match sender_position(m.waiting, flow, 0) {
        Some(i) => (MailboxState { waiting: m.waiting.remove(i as int), ..m }, true),
        None => (m, false),
    }
}

/// The flows that wait to send.
pub open spec fn waiting_flows(s: Seq<(FlowId, Value)>) -> Seq<FlowId> {
    s.map_values(|w: (FlowId, Value)| w.0)
}

/// No message is lost between looking and waiting: a waiter that parks finds
/// no acceptable message in the queue, and the next acceptable message is
/// handed to it.
pub proof fn no_lost_wakeup(m: MailboxState, flow: FlowId, f: WaitFilter, v: Value)
    requires
        !m.closed,
        parked_with(m, flow, f).1 is Ok,
    ensures
        forall|i: int| 0 <= i < m.queue.hops.len() ==> !accepts(f, #[trigger] m.queue.hops[i]),
        accepts(f, v) ==> pushed(parked_with(m, flow, f).0, v).1 == Ok::<Delivery, MailboxFull>(
            Delivery::Handoff(flow),
        ),
        !accepts(f, v) ==> pushed(parked_with(m, flow, f).0, v).0.parked == Some(flow),
{
    crate::scheduler::mailbox::queue::take_is_fifo(m.queue, f);
}

/// A handoff takes no place in the queue: it happens however full the inbox
/// is.
pub proof fn handoff_needs_no_room(m: MailboxState, v: Value)
    requires
        !m.closed,
        awaited(m, v),
    ensures
        pushed(m, v).1 == Ok::<Delivery, MailboxFull>(Delivery::Handoff(m.parked->Some_0)),
        pushed(m, v).0.queue == m.queue,
{
}

/// A deadline of an earlier wait finds the epoch changed.
pub proof fn epochs_differ(m: MailboxState, flow: FlowId, f: WaitFilter)
    requires
        parked_with(m, flow, f).1 is Ok,
    ensures
        parked_with(m, flow, f).0.epoch != m.epoch,
        parked_with(m, flow, f).1 == Ok::<WaitEpoch, Value>(
            WaitEpoch { count: parked_with(m, flow, f).0.epoch },
        ),
{
}

/// A closed inbox takes no message and no waiting sender.
pub proof fn closed_stays_empty(m: MailboxState, flow: FlowId, v: Value)
    requires
        m.closed,
    ensures
        pushed(m, v).0 == m,
        pushed(m, v).1 == Err::<Delivery, MailboxFull>(
            MailboxFull { why: MailboxFullReason::Closed },
        ),
        system_pushed(m, v).0 == m,
        sender_parked(m, flow, v).0 == m,
        !(sender_parked(m, flow, v).1 is Parked),
        sender_admitted(m) == (m, AdmitSender::Idle),
{
}

/// Only a handoff wakes the waiter: a message that is queued or dropped
/// leaves it waiting, with its filter.
pub proof fn only_a_handoff_wakes(m: MailboxState, v: Value)
    ensures
        !(pushed(m, v).1 matches Ok(Delivery::Handoff(_))) ==> pushed(m, v).0.parked == m.parked
            && pushed(m, v).0.filter == m.filter,
        !(system_pushed(m, v).1 is Handoff) ==> system_pushed(m, v).0.parked == m.parked
            && system_pushed(m, v).0.filter == m.filter,
{
}

/// Every message that waits to be sent fits an empty inbox.
pub open spec fn waiting_fits(m: MailboxState) -> bool {
    forall|i: int|
        0 <= i < m.waiting.len() ==> hop_bytes((#[trigger] m.waiting[i]).1)
            <= m.config.max_bytes.bytes
}

/// A message that can never fit never waits to be sent, whatever happens to
/// the inbox.
pub proof fn oversized_messages_never_wait(m: MailboxState, flow: FlowId, f: WaitFilter, v: Value)
    requires
        waiting_fits(m),
    ensures
        waiting_fits(sender_parked(m, flow, v).0),
        waiting_fits(sender_admitted(m).0),
        waiting_fits(sender_removed(m, flow).0),
        waiting_fits(pushed(m, v).0),
        waiting_fits(system_pushed(m, v).0),
        waiting_fits(popped(m, f).0),
        waiting_fits(parked_with(m, flow, f).0),
        waiting_fits(unparked(m)),
        hop_bytes(v) > m.config.max_bytes.bytes ==> sender_parked(m, flow, v) == (
            m,
            ParkSender::Undeliverable(flow),
        ),
{
    lemma_position_bound(m.waiting, flow, 0);
    let admitted = sender_admitted(m).0.waiting;
    if !m.closed && m.waiting.len() > 0 {
        assert(admitted =~= m.waiting || admitted =~= m.waiting.drop_first());
    }
}

proof fn lemma_position_bound(s: Seq<(FlowId, Value)>, flow: FlowId, from: nat)
    ensures
        sender_position(s, flow, from) matches Some(i) ==> i < s.len(),
    decreases s.len() - from,
{
    if from < s.len() && s[from as int].0 != flow {
        lemma_position_bound(s, flow, from + 1);
    }
}

/// Inbox of a flow.
pub struct Mailbox {
    pub queue: MailboxQueue,
    pub parked: Option<FlowId>,
    pub parked_filter: WaitFilter,
    pub wait_epoch: u64,
    pub stats: MailboxStats,
    pub waiting_senders: Vec<(FlowId, Value)>,
    pub closed: bool,
    pub config: MailboxConfig,
}

impl View for Mailbox {
    type V = MailboxState;

    open spec fn view(&self) -> MailboxState {
        MailboxState {
            queue: self.queue@,
            parked: self.parked,
            filter: self.parked_filter,
            epoch: self.wait_epoch,
            stats: self.stats,
            waiting: self.waiting_senders@,
            closed: self.closed,
            config: self.config,
        }
    }
}

impl Mailbox {
    /// An inbox with the default bounds.
    pub fn new() -> (r: Self)
        ensures
            r@ == new_mailbox(default_config()),
    {
        Mailbox::with_config(MailboxConfig::default())
    }

    pub fn with_config(config: MailboxConfig) -> (r: Self)
        requires
            config_ok(config),
        ensures
            r@ == new_mailbox(config),
    {
        let r = Mailbox {
            queue: MailboxQueue::new(config.capacity().get(), config.bytes().get()),
            parked: None,
            parked_filter: WaitFilter::Any,
            wait_epoch: 0,
            stats: MailboxStats::default(),
            waiting_senders: Vec::new(),
            closed: false,
            config,
        };
        assert(r@ =~= new_mailbox(config));
        r
    }

    pub fn config(&self) -> (r: MailboxConfig)
        ensures
            r == self@.config,
    {
        self.config
    }

    /// Counters and occupancy.
    pub fn stats(&self) -> (r: MailboxStats)
        ensures
            r == (MailboxStats {
                queued_messages: self@.queue.hops.len() as usize,
                queued_bytes: total_bytes(self@.queue.hops) as usize,
                ..self@.stats
            }),
    {
        MailboxStats {
            enqueued: self.stats.enqueued,
            dequeued: self.stats.dequeued,
            dropped_newest: self.stats.dropped_newest,
            dropped_oldest: self.stats.dropped_oldest,
            rejected: self.stats.rejected,
            rejected_byte_limit: self.stats.rejected_byte_limit,
            queued_messages: self.queue.len(),
            queued_bytes: self.queue.bytes(),
        }
    }

    fn enqueue_counted(&mut self, value: Value, policy: OverflowPolicy) -> (r: Result<
        Delivery,
        MailboxFull,
    >)
        ensures
            (final(self)@, r) == queued(old(self)@, value, policy),
    {
        match self.queue.enqueue(value, policy) {
            Ok(EnqueueEffect::Enqueued) => {
                self.stats.enqueued = self.stats.enqueued.saturating_add(1);
                Ok(Delivery::Queued)
            },
            Ok(EnqueueEffect::DroppedOldest) => {
                self.stats.dropped_oldest = self.stats.dropped_oldest.saturating_add(1);
                self.stats.enqueued = self.stats.enqueued.saturating_add(1);
                Ok(Delivery::QueuedDropOldest)
            },
            Ok(EnqueueEffect::DroppedNewest) => {
                self.stats.dropped_newest = self.stats.dropped_newest.saturating_add(1);
                Ok(Delivery::DroppedNewest)
            },
            Err(why) => {
                self.stats.rejected = self.stats.rejected.saturating_add(1);
                if why == MailboxFullReason::ByteLimit {
                    self.stats.rejected_byte_limit = self.stats.rejected_byte_limit.saturating_add(
                        1,
                    );
                }
                Err(MailboxFull { why })
            },
        }
    }

    fn hand_off(&mut self)
        ensures
            final(self)@ == handed_off(old(self)@),
    {
        self.parked = None;
        self.parked_filter = WaitFilter::Any;
        self.stats.dequeued = self.stats.dequeued.saturating_add(1);
        self.stats.enqueued = self.stats.enqueued.saturating_add(1);
    }

    /// Deliver a message: to the waiter if it accepts it, else to the queue.
    pub fn push(&mut self, value: Value) -> (r: Result<Delivery, MailboxFull>)
        ensures
            (final(self)@, r) == pushed(old(self)@, value),
    {
        if self.closed {
            return Err(MailboxFull { why: MailboxFullReason::Closed });
        }
        if let Some(flow) = self.parked {
            if self.parked_filter.matches(&value) {
                self.hand_off();
                return Ok(Delivery::Handoff(flow));
            }
        }
        let policy = self.config.overflow();
        self.enqueue_counted(value, policy)
    }

    /// Pop the oldest message.
    pub fn try_pop(&mut self) -> (r: Option<Value>)
        ensures
            (final(self)@, r) == popped(old(self)@, WaitFilter::Any),
    {
        self.try_pop_filter(WaitFilter::Any)
    }

    /// Pop the oldest message with this tag.
    pub fn try_pop_match(&mut self, tag: u16) -> (r: Option<Value>)
        ensures
            (final(self)@, r) == popped(old(self)@, WaitFilter::Tag(tag)),
    {
        self.try_pop_filter(WaitFilter::Tag(tag))
    }

    /// Pop the oldest message that `filter` accepts.
    pub fn try_pop_filter(&mut self, filter: WaitFilter) -> (r: Option<Value>)
        ensures
            (final(self)@, r) == popped(old(self)@, filter),
    {
        let got = self.queue.take(filter);
        if got.is_some() {
            self.stats.dequeued = self.stats.dequeued.saturating_add(1);
        }
        got
    }

    /// Wait for any message.
    pub fn park(&mut self, flow: FlowId) -> (r: Result<WaitEpoch, Value>)
        ensures
            (final(self)@, r) == parked_with(old(self)@, flow, WaitFilter::Any),
    {
        self.park_filter(flow, WaitFilter::Any)
    }

    /// Wait for a message with this tag.
    pub fn park_match(&mut self, flow: FlowId, tag: u16) -> (r: Result<WaitEpoch, Value>)
        ensures
            (final(self)@, r) == parked_with(old(self)@, flow, WaitFilter::Tag(tag)),
    {
        self.park_filter(flow, WaitFilter::Tag(tag))
    }

    /// Wait for a message that `filter` accepts. One that is there already
    /// comes back instead.
    pub fn park_filter(&mut self, flow: FlowId, filter: WaitFilter) -> (r: Result<
        WaitEpoch,
        Value,
    >)
        ensures
            (final(self)@, r) == parked_with(old(self)@, flow, filter),
    {
        match self.try_pop_filter(filter) {
            Some(v) => Err(v),
            None => {
                self.wait_epoch = self.wait_epoch.wrapping_add(1);
                self.parked_filter = filter;
                self.parked = Some(flow);
                Ok(WaitEpoch { count: self.wait_epoch })
            },
        }
    }

    /// Whether a message fits the empty inbox.
    pub fn hop_can_ever_fit(&self, value: &Value) -> (r: bool)
        ensures
            r == (hop_bytes(*value) <= self@.config.max_bytes.bytes),
    {
        value.memory_size() <= self.config.bytes().get()
    }

    /// Take the waiter out if the wait of `epoch` is still the current one.
    /// Otherwise nothing changes.
    pub fn take_parked_at(&mut self, epoch: WaitEpoch) -> (r: Option<FlowId>)
        ensures
            old(self)@.epoch == epoch.count && old(self)@.parked is Some ==> r
                == old(self)@.parked && final(self)@ == unparked(old(self)@),
            !(old(self)@.epoch == epoch.count && old(self)@.parked is Some) ==> r is None
                && final(self)@ == old(self)@,
    {
        if self.wait_epoch != epoch.count {
            return None;
        }
        match self.parked {
            Some(flow) => {
                self.parked = None;
                self.parked_filter = WaitFilter::Any;
                Some(flow)
            },
            None => None,
        }
    }

    /// Take the waiter out, whatever its epoch.
    pub fn take_parked(&mut self) -> (r: Option<FlowId>)
        ensures
            r == old(self)@.parked,
            final(self)@ == unparked(old(self)@),
    {
        let p = self.parked;
        self.parked_filter = WaitFilter::Any;
        self.parked = None;
        p
    }

    /// Deliver a message of the system: the bounds do not hold it off.
    pub fn push_system(&mut self, value: Value) -> (r: Delivery)
        ensures
            (final(self)@, r) == system_pushed(old(self)@, value),
    {
        if self.closed {
            return Delivery::Queued;
        }
        if let Some(flow) = self.parked {
            if self.parked_filter.matches(&value) {
                self.hand_off();
                return Delivery::Handoff(flow);
            }
        }
        self.queue.force_push(value);
        self.stats.enqueued = self.stats.enqueued.saturating_add(1);
        Delivery::Queued
    }

    /// Close the inbox; the waiting senders come out.
    pub fn close(&mut self) -> (r: Vec<FlowId>)
        ensures
            r@ == waiting_flows(old(self)@.waiting),
            final(self)@ == (MailboxState { closed: true, waiting: Seq::empty(), ..old(self)@ }),
    {
        self.closed = true;
        let mut out: Vec<FlowId> = Vec::new();
        let mut waiting: Vec<(FlowId, Value)> = Vec::new();
        std::mem::swap(&mut waiting, &mut self.waiting_senders);
        let mut k: usize = 0;
        while k < waiting.len()
            invariant
                k <= waiting@.len(),
                out@ == waiting_flows(waiting@.take(k as int)),
            decreases waiting@.len() - k,
        {
            out.push(waiting[k].0);
            proof {
                assert(waiting_flows(waiting@.take(k + 1)) =~= waiting_flows(
                    waiting@.take(k as int),
                ).push(waiting@[k as int].0));
            }
            k += 1;
        }
        assert(waiting@.take(waiting@.len() as int) =~= waiting@);
        out
    }

    /// Let a sender wait for room.
    pub fn park_sender(&mut self, flow: FlowId, message: Value) -> (r: ParkSender)
        ensures
            (final(self)@, r) == sender_parked(old(self)@, flow, message),
    {
        if !self.hop_can_ever_fit(&message) {
            return ParkSender::Undeliverable(flow);
        }
        if self.closed {
            return ParkSender::Closed(flow);
        }
        if self.waiting_senders.len() >= self.config.capacity().get() {
            return ParkSender::Closed(flow);
        }
        self.waiting_senders.push((flow, message));
        ParkSender::Parked
    }

    /// Admit the first waiting sender if its message fits now.
    pub fn admit_waiting_sender(&mut self) -> (r: AdmitSender)
        ensures
            (final(self)@, r) == sender_admitted(old(self)@),
    {
        if self.closed || self.waiting_senders.len() == 0 {
            return AdmitSender::Idle;
        }
        let (flow, message) = self.waiting_senders.remove(0);
        assert(self.waiting_senders@ =~= old(self)@.waiting.drop_first());
        let cost: usize = message.memory_size();
        if !self.queue.can_ever_fit(cost) {
            return AdmitSender::Undeliverable(flow);
        }
        match self.enqueue_counted(message.clone(), OverflowPolicy::Reject) {
            Ok(_) => AdmitSender::Woken(flow),
            Err(_) => {
                self.waiting_senders.insert(0, (flow, message));
                assert(self.waiting_senders@ =~= old(self)@.waiting);
                AdmitSender::Idle
            },
        }
    }

    /// Take a waiting sender out; false when it does not wait here.
    pub fn take_waiting_sender(&mut self, sender: FlowId) -> (r: bool)
        ensures
            (final(self)@, r) == sender_removed(old(self)@, sender),
    {
        let mut k: usize = 0;
        while k < self.waiting_senders.len()
            invariant
                k <= self.waiting_senders@.len(),
                *self == *old(self),
                sender_position(self@.waiting, sender, 0) == sender_position(
                    self@.waiting,
                    sender,
                    k as nat,
                ),
            decreases self.waiting_senders@.len() - k,
        {
            if self.waiting_senders[k].0 == sender {
                let _ = self.waiting_senders.remove(k);
                return true;
            }
            k += 1;
        }
        false
    }
}

impl Default for Mailbox {
    fn default() -> (r: Self)
        ensures
            r@ == new_mailbox(default_config()),
    {
        Mailbox::new()
    }
}

} // verus!
