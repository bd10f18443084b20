//! Deadlines of sleeping and waiting flows. Times are milliseconds.

use vstd::prelude::*;

use crate::scheduler::mailbox::WaitEpoch;
use crate::scheduler::process::FlowId;

verus! {

/// Thirty years, the deadline when the clock cannot hold a later one.
pub const FAR_FUTURE_MS: u64 = 946_080_000_000;

/// What a deadline does.
#[derive(Debug, Clone, Copy, PartialEq, Eq, Structural)]
pub enum TimerPayload {
    /// A sleeping flow becomes runnable.
    WakeSleeper(FlowId),
    /// The wait of `epoch` in the inbox of `pid` ends without a message. A
    /// later wait of the same flow is not touched.
    WakeReceiver { pid: FlowId, dest_reg: u8, epoch: WaitEpoch },
}

/// A deadline.
#[derive(Debug, Clone, Copy, PartialEq, Eq, Structural)]
pub struct TimerEntry {
    pub deadline: u64,
    pub payload: TimerPayload,
}

/// The deadline that lies `delay` after `now`.
pub open spec fn deadline_of(now: u64, delay: u64) -> u64 {
    if now + delay <= u64::MAX {
        (now + delay) as u64
    } else if now + FAR_FUTURE_MS <= u64::MAX {
        (now + FAR_FUTURE_MS) as u64
    } else {
        now
    }
}

/// The deadline that lies `delay` after `now`; never overflows.
pub fn deadline_from(now: u64, delay: u64) -> (r: u64)
    ensures
        r == deadline_of(now, delay),
{
    match now.checked_add(delay) {
        Some(t) => t,
        None => match now.checked_add(FAR_FUTURE_MS) {
            Some(t) => t,
            None => now,
        },
    }
}

/// Where a deadline goes among the first `n` entries: behind every entry
/// that is not later.
pub open spec fn slot_for(s: Seq<TimerEntry>, deadline: u64, n: nat) -> nat
    decreases n,
{
    if n == 0 || s[n - 1].deadline <= deadline {
        n
    } else {
        slot_for(s, deadline, (n - 1) as nat)
    }
}

/// The queue with one more entry.
pub open spec fn scheduled(s: Seq<TimerEntry>, e: TimerEntry) -> Seq<TimerEntry> {
    s.insert(slot_for(s, e.deadline, s.len()) as int, e)
}

/// The queue after a due entry was asked for, and that entry.
pub open spec fn due_taken(s: Seq<TimerEntry>, now: u64) -> (Seq<TimerEntry>, Option<TimerEntry>) {
    if s.len() > 0 && s[0].deadline <= now {
        (s.drop_first(), Some(s[0]))
    } else {
        (s, None)
    }
}

/// Deadlines ascend.
pub open spec fn in_order(s: Seq<TimerEntry>) -> bool {
    forall|i: int, j: int| 0 <= i < j < s.len() ==> s[i].deadline <= s[j].deadline
}

proof fn lemma_slot(s: Seq<TimerEntry>, deadline: u64, n: nat)
    requires
        in_order(s),
        n <= s.len(),
        forall|i: int| n <= i < s.len() ==> deadline < (#[trigger] s[i]).deadline,
    ensures
        slot_for(s, deadline, n) <= n,
        forall|i: int| 0 <= i < slot_for(s, deadline, n) ==> (#[trigger] s[i]).deadline <= deadline,
        forall|i: int|
            slot_for(s, deadline, n) <= i < s.len() ==> deadline < (#[trigger] s[i]).deadline,
    decreases n,
{
    if n > 0 && s[n - 1].deadline > deadline {
        lemma_slot(s, deadline, (n - 1) as nat);
    }
}

/// Deadlines stay in order, an entry comes out only when it is due, and then
/// no entry is left that is earlier.
pub proof fn timers_fire_in_order(s: Seq<TimerEntry>, e: TimerEntry, now: u64)
    requires
        in_order(s),
    ensures
        in_order(scheduled(s, e)),
        scheduled(s, e).contains(e),
        in_order(due_taken(s, now).0),
        due_taken(s, now).1 matches Some(x) ==> x.deadline <= now && forall|i: int|
            0 <= i < due_taken(s, now).0.len() ==> x.deadline <= (#[trigger] due_taken(
                s,
                now,
            ).0[i]).deadline,
        due_taken(s, now).1 is None ==> forall|i: int|
            0 <= i < s.len() ==> now < (#[trigger] s[i]).deadline,
{
    lemma_slot(s, e.deadline, s.len());
    let p = slot_for(s, e.deadline, s.len()) as int;
    let t = scheduled(s, e);
    assert(t[p] == e);
    assert forall|i: int, j: int| 0 <= i < j < t.len() implies t[i].deadline <= t[j].deadline by {
        let a = if i < p { s[i] } else if i == p { e } else { s[i - 1] };
        let b = if j < p { s[j] } else if j == p { e } else { s[j - 1] };
        assert(t[i] == a && t[j] == b);
    }
}

/// The deadlines of one runtime.
pub struct TimerWheel {
    pub entries: Vec<TimerEntry>,
    pub stopped: bool,
}

/// Model of a [`TimerWheel`].
#[verifier::ext_equal]
pub ghost struct TimerState {
    pub entries: Seq<TimerEntry>,
    pub stopped: bool,
}

impl View for TimerWheel {
    type V = TimerState;

    open spec fn view(&self) -> TimerState {
        TimerState { entries: self.entries@, stopped: self.stopped }
    }
}

/// The deadlines with one more entry.
pub open spec fn entry_added(s: TimerState, e: TimerEntry) -> TimerState {
    TimerState { entries: scheduled(s.entries, e), ..s }
}

impl TimerWheel {
    pub fn new() -> (r: Self)
        ensures
            r@ == (TimerState { entries: Seq::empty(), stopped: false }),
    {
        TimerWheel { entries: Vec::new(), stopped: false }
    }

    /// Wake a sleeping flow `delay` from now.
    pub fn schedule_sleep(&mut self, now: u64, delay: u64, flow: FlowId)
        ensures
            final(self)@ == entry_added(
                old(self)@,
                TimerEntry {
                    deadline: deadline_of(now, delay),
                    payload: TimerPayload::WakeSleeper(flow),
                },
            ),
    {
        let deadline: u64 = deadline_from(now, delay);
        self.push(TimerEntry { deadline, payload: TimerPayload::WakeSleeper(flow) });
    }

    /// End the wait of `epoch` in the inbox of `pid`, `delay` from now.
    pub fn schedule_receive_timeout(
        &mut self,
        now: u64,
        delay: u64,
        pid: FlowId,
        dest_reg: u8,
        epoch: WaitEpoch,
    )
        ensures
            final(self)@ == entry_added(
                old(self)@,
                TimerEntry {
                    deadline: deadline_of(now, delay),
                    payload: TimerPayload::WakeReceiver { pid, dest_reg, epoch },
                },
            ),
    {
        let deadline: u64 = deadline_from(now, delay);
        self.push(
            TimerEntry { deadline, payload: TimerPayload::WakeReceiver { pid, dest_reg, epoch } },
        );
    }

    fn push(&mut self, entry: TimerEntry)
        ensures
            final(self)@ == entry_added(old(self)@, entry),
    {
        let mut p: usize = self.entries.len();
        while p > 0 && self.entries[p - 1].deadline > entry.deadline
            invariant
                p <= self.entries@.len(),
                *self == *old(self),
                slot_for(self@.entries, entry.deadline, self@.entries.len()) == slot_for(
                    self@.entries,
                    entry.deadline,
                    p as nat,
                ),
            decreases p,
        {
            p -= 1;
        }
        self.entries.insert(p, entry);
    }

    /// Take the earliest entry out if it is due.
    pub fn pop_due(&mut self, now: u64) -> (r: Option<TimerEntry>)
        ensures
            (final(self)@.entries, r) == due_taken(old(self)@.entries, now),
            final(self)@.stopped == old(self)@.stopped,
    {
        if self.entries.len() > 0 && self.entries[0].deadline <= now {
            let e = self.entries.remove(0);
            assert(self@.entries =~= old(self)@.entries.drop_first());
            Some(e)
        } else {
            None
        }
    }

    /// How long to wait for the earliest deadline; none without deadlines.
    pub fn next_wait(&self, now: u64) -> (r: Option<u64>)
        ensures
            r == (if self@.entries.len() == 0 {
                None
            } else if self@.entries[0].deadline <= now {
                Some(0u64)
            } else {
                Some((self@.entries[0].deadline - now) as u64)
            }),
    {
        if self.entries.len() == 0 {
            None
        } else if self.entries[0].deadline <= now {
            Some(0)
        } else {
            Some(self.entries[0].deadline - now)
        }
    }

    /// Stop firing.
    pub fn shutdown(&mut self)
        ensures
            final(self)@ == (TimerState { stopped: true, ..old(self)@ }),
    {
        self.stopped = true;
    }
}

} // verus!
