//! Delivery of messages, and waiting: for a message, for a reply, for room.

use vstd::prelude::*;

use crate::bytecode::value::{Message, Value};
use crate::scheduler::failure::Failure;
use crate::scheduler::finalize::exit_hop;
use crate::scheduler::mailbox::queue::{MailboxFullReason, WaitFilter};
use crate::scheduler::mailbox::{
    parked_with, pushed, sender_admitted, sender_parked, unparked, AdmitSender, Delivery, Mailbox,
    MailboxState, ParkSender, WaitEpoch,
};
use crate::scheduler::monitor::FlowExitReason;
use crate::scheduler::process::{Flow, FlowId, FlowState, PendingSend};
use crate::scheduler::shared::{
    dropped, failing, kept, queued_for, received, resumed, woken, Shared, SharedState,
};
use crate::scheduler::timer::{deadline_of, scheduled, TimerEntry, TimerPayload};
use crate::scheduler::waits::{ask_added, ask_removed};

verus! {

/// What became of a message.
#[derive(Debug, Clone, Copy, PartialEq, Eq, Structural)]
pub enum DeliverStatus {
    Delivered,
    /// The inbox has no room.
    Full,
    /// The flow is gone or exiting.
    Gone,
}

/// The state with another inbox of flow `id`.
pub open spec fn with_box(s: SharedState, id: FlowId, m: MailboxState) -> SharedState {
    SharedState { boxes: s.boxes.insert(id.raw as u128, m), ..s }
}

/// A message came to flow `target`, and what became of it. A flow that waits
/// for it is woken and joins the queue of worker `w`.
pub open spec fn delivered(s: SharedState, w: Option<usize>, target: FlowId, v: Value) -> (
    SharedState,
    DeliverStatus,
) {
    let k = target.raw as u128;
    if !s.boxes.contains_key(k) {
        (s, DeliverStatus::Gone)
    } else {
        let (m, d) = pushed(s.boxes[k], v);
        let t = with_box(s, target, m);
        match d {
            Ok(Delivery::Handoff(id)) => (
                woken(SharedState { asks: ask_removed(t.asks, id), ..t }, w, id, v),
                DeliverStatus::Delivered,
            ),
            Ok(_) => (t, DeliverStatus::Delivered),
            Err(full) => (
                t,
                if full.why is Closed {
                    DeliverStatus::Gone
                } else {
                    DeliverStatus::Full
                },
            ),
        }
    }
}

/// A deadline for the wait of `epoch` was set, if one was asked for.
pub open spec fn with_deadline(
    s: SharedState,
    id: FlowId,
    dest_reg: u8,
    timeout: Option<u64>,
    epoch: WaitEpoch,
    now: u64,
) -> SharedState {
    match timeout {
        Some(delay) => SharedState {
            timers: scheduled(
                s.timers,
                TimerEntry {
                    deadline: deadline_of(now, delay),
                    payload: TimerPayload::WakeReceiver { pid: id, dest_reg, epoch },
                },
            ),
            ..s
        },
        None => s,
    }
}

/// A flow got a message and is runnable again.
pub open spec fn handed(s: SharedState, f: FlowState, dest_reg: u8, v: Value) -> SharedState {
    match resumed(s, f, dest_reg, v) {
        (t, Some(g)) => queued_for(kept(t, f.id, received(g)), None, f.id),
        (t, None) => t,
    }
}

/// A flow waits for the reply of `target`, unless it is there already or
/// `target` is gone.
pub open spec fn ask_parked(
    s: SharedState,
    f: FlowState,
    dest_reg: u8,
    timeout: Option<u64>,
    request_id: u64,
    target: FlowId,
    now: u64,
) -> SharedState {
    let k = f.id.raw as u128;
    let filter = WaitFilter::Correlation {
        expect_request_id: request_id,
        expect_sender: Some(target.raw),
    };
    match ask_added(s.asks, f.id, target, request_id) {
        (_, Err(e)) => failing(s, f, Failure::Ask(e)),
        (asks, Ok(_)) => if !s.boxes.contains_key(k) {
            failing(s, f, Failure::Refused("mailbox unavailable"))
        } else {
            match parked_with(s.boxes[k], f.id, filter) {
                (m, Err(v)) => handed(with_box(s, f.id, m), f, dest_reg, v),
                (m, Ok(epoch)) => if s.boxes.contains_key(target.raw as u128) {
                    with_deadline(
                        kept(with_box(SharedState { asks, ..s }, f.id, m), f.id, f),
                        f.id,
                        dest_reg,
                        timeout,
                        epoch,
                        now,
                    )
                } else {
                    handed(
                        with_box(s, f.id, unparked(m)),
                        f,
                        dest_reg,
                        exit_hop(target, FlowExitReason::Fault),
                    )
                },
            }
        },
    }
}

/// A sender waits at the inbox of `target` until its message fits.
pub open spec fn send_parked(
    s: SharedState,
    f: FlowState,
    target: FlowId,
    v: Value,
    pending: PendingSend,
) -> SharedState {
    let g = FlowState { pending_send: Some(pending), ..f };
    let k = target.raw as u128;
    if !s.boxes.contains_key(k) {
        failing(
            SharedState { sends: s.sends.remove(f.id.raw as u128), ..s },
            g,
            Failure::Refused("send target gone"),
        )
    } else {
        let (m, r) = sender_parked(s.boxes[k], f.id, v);
        match r {
            ParkSender::Parked => kept(
                with_box(
                    SharedState { sends: s.sends.insert(f.id.raw as u128, target), ..s },
                    target,
                    m,
                ),
                f.id,
                g,
            ),
            ParkSender::Closed(_) => failing(
                SharedState { sends: s.sends.remove(f.id.raw as u128), ..s },
                g,
                Failure::Refused("send target gone"),
            ),
            ParkSender::Undeliverable(_) => failing(
                SharedState { sends: s.sends.remove(f.id.raw as u128), ..s },
                g,
                Failure::Refused("hop larger than target mailbox budget"),
            ),
        }
    }
}

/// A sender whose message was admitted goes on: it waits for the reply if it
/// asked, else it is runnable.
pub open spec fn sender_continues(s: SharedState, w: usize, f: FlowState, now: u64) -> SharedState {
    let g = FlowState { pending_send: None, ..f };
    match f.pending_send {
        Some(PendingSend::Ask { dest_reg, expect_request_id, expect_sender, timeout }) => ask_parked(
            s,
            g,
            dest_reg,
            timeout,
            expect_request_id,
            FlowId { raw: expect_sender },
            now,
        ),
        _ => queued_for(kept(s, f.id, g), Some(w), f.id),
    }
}

/// There may be room in the inbox of flow `id`: the first waiting sender is
/// admitted if its message fits.
pub open spec fn admitted(s: SharedState, w: usize, id: FlowId, now: u64) -> SharedState {
    let k = id.raw as u128;
    if !s.boxes.contains_key(k) {
        s
    } else {
        let (m, r) = sender_admitted(s.boxes[k]);
        let t = with_box(s, id, m);
        match r {
            AdmitSender::Idle => t,
            AdmitSender::Woken(sender) => {
                let j = sender.raw as u128;
                let u = SharedState { sends: t.sends.remove(j), ..t };
                if u.flows.contains_key(j) {
                    sender_continues(dropped(u, sender), w, u.flows[j], now)
                } else {
                    u
                }
            },
            AdmitSender::Undeliverable(sender) => {
                let j = sender.raw as u128;
                let u = SharedState { sends: t.sends.remove(j), ..t };
                if u.flows.contains_key(j) {
                    failing(
                        dropped(u, sender),
                        u.flows[j],
                        Failure::Refused("hop larger than target mailbox budget"),
                    )
                } else {
                    u
                }
            },
        }
    }
}

/// An asker is never left waiting for a flow that is gone: it is woken at
/// once with the notice of the exit.
pub proof fn asker_is_not_stranded(
    s: SharedState,
    f: FlowState,
    dest_reg: u8,
    timeout: Option<u64>,
    request_id: u64,
    target: FlowId,
    now: u64,
)
    requires
        !s.boxes.contains_key(target.raw as u128),
        s.boxes.contains_key(f.id.raw as u128),
        ask_added(s.asks, f.id, target, request_id).1 is Ok,
    ensures
        ({
            let t = ask_parked(s, f, dest_reg, timeout, request_id, target, now);
            &&& t.asks == s.asks
            &&& t.timers == s.timers
            &&& t.pending.len() == s.pending.len() ==> t.ready.last() == f.id && t.ready.len()
                == s.ready.len() + 1
        }),
{
}

impl Shared {
    /// Deliver a message to flow `target`.
    pub fn deliver(&mut self, w: Option<usize>, target: FlowId, message: Value) -> (r: DeliverStatus)
        ensures
            (final(self)@, r) == delivered(old(self)@, w, target, message),
    {
        let mut mailbox = match self.directory.take(target) {
            Some(m) => m,
            None => {
                assert(self@.boxes =~= old(self)@.boxes);
                return DeliverStatus::Gone;
            },
        };
        let answer = mailbox.push(message.clone());
        self.directory.put(target, mailbox);
        assert(self@.boxes =~= old(self)@.boxes.insert(target.raw as u128, mailbox@));
        match answer {
            Ok(Delivery::Handoff(id)) => {
                let _ = self.ask_waits.remove_asker(id);
                self.wake(w, id, message);
                DeliverStatus::Delivered
            },
            Ok(_) => DeliverStatus::Delivered,
            Err(full) => match full.reason() {
                MailboxFullReason::Closed => DeliverStatus::Gone,
                _ => DeliverStatus::Full,
            },
        }
    }

    /// Hand a message to a flow that is out of the table.
    pub fn hand(&mut self, flow: Flow, dest_reg: u8, value: Value)
        ensures
            final(self)@ == handed(old(self)@, flow@, dest_reg, value),
    {
        let id = flow.id;
        if let Some(mut g) = self.resume_or_fail(flow, dest_reg, value) {
            g.metrics.messages_received = g.metrics.messages_received.wrapping_add(1);
            self.keep_flow(id, g);
            self.queue_for(None, id);
        }
    }

    /// Put the inbox of a flow back in place of the one that was taken.
    pub fn put_box(&mut self, id: FlowId, mailbox: Mailbox)
        ensures
            final(self)@ == with_box(old(self)@, id, mailbox@),
    {
        self.directory.put(id, mailbox);
    }

    /// Set the deadline of a wait, if one was asked for.
    pub fn arm_deadline(
        &mut self,
        id: FlowId,
        dest_reg: u8,
        timeout: Option<u64>,
        epoch: WaitEpoch,
        now: u64,
    )
        ensures
            final(self)@ == with_deadline(old(self)@, id, dest_reg, timeout, epoch, now),
    {
        if let Some(delay) = timeout {
            self.timer.schedule_receive_timeout(now, delay, id, dest_reg, epoch);
        }
    }

    /// Let a flow wait for a reply.
    pub fn park_ask(
        &mut self,
        flow: Flow,
        dest_reg: u8,
        timeout: Option<u64>,
        request_id: u64,
        target: FlowId,
        now: u64,
    )
        ensures
            final(self)@ == ask_parked(
                old(self)@,
                flow@,
                dest_reg,
                timeout,
                request_id,
                target,
                now,
            ),
    {
        let asker = flow.id;
        let ghost f = flow@;
        let ghost s0 = self@;
        let filter = WaitFilter::Correlation {
            expect_request_id: request_id,
            expect_sender: Some(target.as_u64()),
        };
        match self.ask_waits.insert(asker, target, request_id) {
            Ok(_) => {},
            Err(e) => {
                self.fail_flow(flow, Failure::Ask(e));
                return ;
            },
        }
        let ghost asks = self@.asks;
        assert(ask_removed(asks, asker) =~= s0.asks);
        let mut mailbox = match self.directory.take(asker) {
            Some(m) => m,
            None => {
                let _ = self.ask_waits.remove_asker(asker);
                assert(self@.boxes =~= s0.boxes);
                self.fail_flow(flow, Failure::Refused("mailbox unavailable"));
                return ;
            },
        };
        match mailbox.park_filter(asker, filter) {
            Err(v) => {
                self.put_box(asker, mailbox);
                assert(self@.boxes =~= s0.boxes.insert(asker.raw as u128, mailbox@));
                let _ = self.ask_waits.remove_asker(asker);
                self.hand(flow, dest_reg, v);
            },
            Ok(epoch) => {
                let alive: bool = target == asker || self.directory.lookup(target).is_some();
                if alive {
                    self.put_box(asker, mailbox);
                    assert(self@.boxes =~= s0.boxes.insert(asker.raw as u128, mailbox@));
                    self.keep_flow(asker, flow);
                    self.arm_deadline(asker, dest_reg, timeout, epoch, now);
                } else {
                    let _ = mailbox.take_parked();
                    self.put_box(asker, mailbox);
                    assert(self@.boxes =~= s0.boxes.insert(asker.raw as u128, mailbox@));
                    let _ = self.ask_waits.remove_asker(asker);
                    let hop = Value::Message(
                        Message::linked_exit(target.as_u64(), FlowExitReason::Fault.as_u64()),
                    );
                    self.hand(flow, dest_reg, hop);
                }
            },
        }
    }

    /// Let a sender wait for room.
    pub fn park_waiting_send(
        &mut self,
        flow: Flow,
        target: FlowId,
        stamped: Value,
        pending: PendingSend,
    )
        ensures
            final(self)@ == send_parked(old(self)@, flow@, target, stamped, pending),
    {
        let mut flow = flow;
        let id = flow.id;
        let ghost s0 = self@;
        flow.pending_send = Some(pending);
        let mut mailbox = match self.directory.take(target) {
            Some(m) => m,
            None => {
                let _ = self.waiting_send_at.remove(id);
                assert(self@.boxes =~= s0.boxes);
                self.fail_flow(flow, Failure::Refused("send target gone"));
                return ;
            },
        };
        let answer = mailbox.park_sender(id, stamped);
        self.put_box(target, mailbox);
        assert(self@.boxes =~= s0.boxes.insert(target.raw as u128, mailbox@));
        match answer {
            ParkSender::Parked => {
                self.waiting_send_at.insert(id, target);
                self.keep_flow(id, flow);
            },
            ParkSender::Closed(_) => {
                assert(self@.boxes =~= s0.boxes);
                let _ = self.waiting_send_at.remove(id);
                self.fail_flow(flow, Failure::Refused("send target gone"));
            },
            ParkSender::Undeliverable(_) => {
                assert(self@.boxes =~= s0.boxes);
                let _ = self.waiting_send_at.remove(id);
                self.fail_flow(flow, Failure::Refused("hop larger than target mailbox budget"));
            },
        }
    }

    fn continue_sender(&mut self, w: usize, flow: Flow, now: u64)
        ensures
            final(self)@ == sender_continues(old(self)@, w, flow@, now),
    {
        let mut flow = flow;
        let id = flow.id;
        let pending = flow.pending_send;
        flow.pending_send = None;
        match pending {
            Some(PendingSend::Ask { dest_reg, expect_request_id, expect_sender, timeout }) => {
                self.park_ask(
                    flow,
                    dest_reg,
                    timeout,
                    expect_request_id,
                    FlowId { raw: expect_sender },
                    now,
                );
            },
            _ => {
                self.keep_flow(id, flow);
                self.queue_for(Some(w), id);
            },
        }
    }

    /// Admit the first sender that waits at the inbox of flow `id`.
    pub fn admit_waiting_on(&mut self, w: usize, id: FlowId, now: u64)
        ensures
            final(self)@ == admitted(old(self)@, w, id, now),
    {
        let ghost s0 = self@;
        let mut mailbox = match self.directory.take(id) {
            Some(m) => m,
            None => {
                assert(self@.boxes =~= s0.boxes);
                return ;
            },
        };
        let answer = mailbox.admit_waiting_sender();
        self.put_box(id, mailbox);
        assert(self@.boxes =~= s0.boxes.insert(id.raw as u128, mailbox@));
        match answer {
            AdmitSender::Idle => {},
            AdmitSender::Woken(sender) => {
                let _ = self.waiting_send_at.remove(sender);
                let ghost u = self@;
                match self.take_flow(sender) {
                    Some(flow) => self.continue_sender(w, flow, now),
                    None => {
                        assert(self@.flows =~= u.flows);
                    },
                }
            },
            AdmitSender::Undeliverable(sender) => {
                let _ = self.waiting_send_at.remove(sender);
                let ghost u = self@;
                match self.take_flow(sender) {
                    Some(flow) => self.fail_flow(
                        flow,
                        Failure::Refused("hop larger than target mailbox budget"),
                    ),
                    None => {
                        assert(self@.flows =~= u.flows);
                    },
                }
            },
        }
    }
}

} // verus!
