//! Monitors: one-way watches that fire when their target exits.

use vstd::prelude::*;

use crate::idmap::{ids_only, is_key_list, key_list_exists, sorted_keys, IdMap};
use crate::scheduler::error::LifecycleError;
use crate::scheduler::link::lemma_push_contains;
use crate::scheduler::process::FlowId;
use crate::text::{dec, owned, push_u64};

verus! {

/// Reference of a monitor, echoed when it fires.
#[derive(Debug, Clone, Copy, PartialEq, Eq, Structural, Hash)]
pub struct MonitorRef {
    pub raw: u64,
}

impl MonitorRef {
    pub fn as_u64(self) -> (r: u64)
        ensures
            r == self.raw,
    {
        self.raw
    }

    pub fn from_u64(raw: u64) -> (r: Self)
        ensures
            r.raw == raw,
    {
        MonitorRef { raw }
    }

    /// Printed form.
    pub fn text(self) -> (r: String)
        ensures
            r@ == "monitor#"@ + dec(self.raw as nat),
    {
        let mut s = owned("monitor#");
        push_u64(&mut s, self.raw);
        s
    }
}

/// Why a flow ended.
#[derive(Debug, Clone, Copy, PartialEq, Eq, Structural)]
pub enum FlowExitReason {
    Normal,
    /// The whole runtime goes down.
    Shutdown,
    Killed,
    Fault,
    /// An inbox overflowed.
    MailboxOverflow,
    Supervisor,
    Link,
}

/// The number of a reason in system messages.
pub open spec fn reason_code(r: FlowExitReason) -> u64 {
    match r {
        FlowExitReason::Normal => 0,
        FlowExitReason::Shutdown => 1,
        FlowExitReason::Killed => 2,
        FlowExitReason::Fault => 3,
        FlowExitReason::MailboxOverflow => 4,
        FlowExitReason::Supervisor => 5,
        FlowExitReason::Link => 6,
    }
}

/// The reason of a number.
pub open spec fn reason_of(raw: u64) -> Option<FlowExitReason> {
    if raw == 0 {
        Some(FlowExitReason::Normal)
    } else if raw == 1 {
        Some(FlowExitReason::Shutdown)
    } else if raw == 2 {
        Some(FlowExitReason::Killed)
    } else if raw == 3 {
        Some(FlowExitReason::Fault)
    } else if raw == 4 {
        Some(FlowExitReason::MailboxOverflow)
    } else if raw == 5 {
        Some(FlowExitReason::Supervisor)
    } else if raw == 6 {
        Some(FlowExitReason::Link)
    } else {
        None
    }
}

/// Reading a reason's number gives the reason back.
pub proof fn reason_round_trip(r: FlowExitReason, raw: u64)
    ensures
        reason_of(reason_code(r)) == Some(r),
        reason_of(raw) matches Some(x) ==> reason_code(x) == raw,
{
}

/// The name of a reason.
pub open spec fn reason_text(r: FlowExitReason) -> Seq<char> {
    match r {
        FlowExitReason::Normal => "normal"@,
        FlowExitReason::Shutdown => "shutdown"@,
        FlowExitReason::Killed => "killed"@,
        FlowExitReason::Fault => "fault"@,
        FlowExitReason::MailboxOverflow => "mailbox-overflow"@,
        FlowExitReason::Supervisor => "supervisor"@,
        FlowExitReason::Link => "link"@,
    }
}

impl FlowExitReason {
    pub fn from_u64(raw: u64) -> (r: Option<Self>)
        ensures
            r == reason_of(raw),
    {
        match raw {
            0 => Some(FlowExitReason::Normal),
            1 => Some(FlowExitReason::Shutdown),
            2 => Some(FlowExitReason::Killed),
            3 => Some(FlowExitReason::Fault),
            4 => Some(FlowExitReason::MailboxOverflow),
            5 => Some(FlowExitReason::Supervisor),
            6 => Some(FlowExitReason::Link),
            _ => None,
        }
    }

    pub fn as_u64(self) -> (r: u64)
        ensures
            r == reason_code(self),
    {
        match self {
            FlowExitReason::Normal => 0,
            FlowExitReason::Shutdown => 1,
            FlowExitReason::Killed => 2,
            FlowExitReason::Fault => 3,
            FlowExitReason::MailboxOverflow => 4,
            FlowExitReason::Supervisor => 5,
            FlowExitReason::Link => 6,
        }
    }

    /// Whether links carry this exit on: every one but a normal exit.
    pub fn is_abnormal(self) -> (r: bool)
        ensures
            r == !(self is Normal),
    {
        match self {
            FlowExitReason::Normal => false,
            _ => true,
        }
    }

    /// The name of this reason.
    pub fn text(self) -> (r: String)
        ensures
            r@ == reason_text(self),
    {
        match self {
            FlowExitReason::Normal => owned("normal"),
            FlowExitReason::Shutdown => owned("shutdown"),
            FlowExitReason::Killed => owned("killed"),
            FlowExitReason::Fault => owned("fault"),
            FlowExitReason::MailboxOverflow => owned("mailbox-overflow"),
            FlowExitReason::Supervisor => owned("supervisor"),
            FlowExitReason::Link => owned("link"),
        }
    }
}

/// A monitor that fired.
#[derive(Debug, Clone, Copy, PartialEq, Eq, Structural)]
pub struct DownEvent {
    pub monitor: MonitorRef,
    pub owner: FlowId,
    pub target: FlowId,
    pub reason: FlowExitReason,
}

/// A watch of `owner` on `target`.
#[derive(Debug, Clone, Copy, PartialEq, Eq, Structural)]
pub struct MonitorEntry {
    pub owner: FlowId,
    pub target: FlowId,
}

/// Watches and the next reference.
#[verifier::ext_equal]
pub ghost struct MonitorState {
    pub monitors: Map<u128, MonitorEntry>,
    pub next: u64,
}

/// The table with one more watch.
pub open spec fn monitor_added(s: MonitorState, owner: FlowId, target: FlowId) -> MonitorState {
    MonitorState {
        monitors: s.monitors.insert(s.next as u128, MonitorEntry { owner, target }),
        next: s.next.wrapping_add(1),
    }
}

/// The table after an owner asked to drop a watch, and the answer.
pub open spec fn monitor_dropped(s: MonitorState, owner: FlowId, m: MonitorRef) -> (
    MonitorState,
    Result<(), LifecycleError>,
) {
    let k = m.raw as u128;
    if !s.monitors.contains_key(k) {
        (s, Err(LifecycleError::InvalidMonitor))
    } else if s.monitors[k].owner == owner {
        (MonitorState { monitors: s.monitors.remove(k), ..s }, Ok(()))
    } else {
        (s, Err(LifecycleError::NotOwner))
    }
}

/// The table without the watches of `owner`.
pub open spec fn owner_removed(s: MonitorState, owner: FlowId) -> MonitorState {
    MonitorState {
        monitors: Map::new(
            |k: u128| s.monitors.contains_key(k) && s.monitors[k].owner != owner,
            |k: u128| s.monitors[k],
        ),
        ..s
    }
}

/// The table without the watches on `target`.
pub open spec fn target_removed(s: MonitorState, target: FlowId) -> MonitorState {
    MonitorState {
        monitors: Map::new(
            |k: u128| s.monitors.contains_key(k) && s.monitors[k].target != target,
            |k: u128| s.monitors[k],
        ),
        ..s
    }
}

/// Watches on `target` among `keys`, as they fire.
pub open spec fn downs(
    monitors: Map<u128, MonitorEntry>,
    keys: Seq<u128>,
    target: FlowId,
    reason: FlowExitReason,
) -> Seq<DownEvent>
    decreases keys.len(),
{
    if keys.len() == 0 {
        Seq::empty()
    } else {
        let rest = downs(monitors, keys.drop_last(), target, reason);
        let e = monitors[keys.last()];
        if e.target == target {
            rest.push(
                DownEvent {
                    monitor: MonitorRef { raw: keys.last() as u64 },
                    owner: e.owner,
                    target,
                    reason,
                },
            )
        } else {
            rest
        }
    }
}

/// Watches on `target`, oldest first, as they fire.
pub open spec fn downs_of(s: MonitorState, target: FlowId, reason: FlowExitReason) -> Seq<
    DownEvent,
> {
    downs(s.monitors, sorted_keys(s.monitors), target, reason)
}

/// The event of a watch on `target`.
pub open spec fn is_down(
    s: MonitorState,
    e: DownEvent,
    target: FlowId,
    reason: FlowExitReason,
) -> bool {
    let k = e.monitor.raw as u128;
    &&& s.monitors.contains_key(k)
    &&& s.monitors[k] == (MonitorEntry { owner: e.owner, target })
    &&& e.target == target
    &&& e.reason == reason
}

proof fn lemma_downs(
    monitors: Map<u128, MonitorEntry>,
    keys: Seq<u128>,
    target: FlowId,
    reason: FlowExitReason,
)
    requires
        forall|i: int| 0 <= i < keys.len() ==> #[trigger] keys[i] <= u64::MAX,
        forall|i: int, j: int| 0 <= i < j < keys.len() ==> keys[i] < keys[j],
    ensures
        downs(monitors, keys, target, reason).no_duplicates(),
        forall|e: DownEvent| #[trigger]
            downs(monitors, keys, target, reason).contains(e) <==> keys.contains(
                e.monitor.raw as u128,
            ) && monitors[e.monitor.raw as u128] == (MonitorEntry { owner: e.owner, target })
                && e.target == target && e.reason == reason,
    decreases keys.len(),
{
    if keys.len() > 0 {
        let fewer = keys.drop_last();
        let rest = downs(monitors, fewer, target, reason);
        lemma_downs(monitors, fewer, target, reason);
        let entry = monitors[keys.last()];
        let last = DownEvent {
            monitor: MonitorRef { raw: keys.last() as u64 },
            owner: entry.owner,
            target,
            reason,
        };
        assert(keys =~= fewer.push(keys.last()));
        assert(!fewer.contains(keys.last()));
        assert forall|e: DownEvent| #[trigger]
            downs(monitors, keys, target, reason).contains(e) <==> keys.contains(
                e.monitor.raw as u128,
            ) && monitors[e.monitor.raw as u128] == (MonitorEntry { owner: e.owner, target })
                && e.target == target && e.reason == reason by {
            lemma_push_contains(fewer, keys.last(), e.monitor.raw as u128);
            assert(rest.contains(e) <==> fewer.contains(e.monitor.raw as u128)
                && monitors[e.monitor.raw as u128] == (MonitorEntry { owner: e.owner, target })
                && e.target == target && e.reason == reason);
            if rest.contains(e) {
                let i = choose|i: int| 0 <= i < rest.len() && rest[i] == e;
                assert(rest.push(last)[i] == e);
            }
            assert(rest.push(last)[rest.len() as int] == last);
        }
        assert(!rest.contains(last));
    }
}

/// When its target ends, every watch on it fires, with one event each and no
/// other. The watch is gone then: it fires at most once.
pub proof fn monitors_fire_once(s: MonitorState, target: FlowId, reason: FlowExitReason)
    requires
        s.monitors.dom().finite(),
        ids_only(s.monitors),
    ensures
        downs_of(s, target, reason).no_duplicates(),
        forall|e: DownEvent| #[trigger]
            downs_of(s, target, reason).contains(e) <==> is_down(s, e, target, reason),
        downs_of(target_removed(s, target), target, reason).len() == 0,
{
    key_list_exists(s.monitors);
    let all = sorted_keys(s.monitors);
    assert forall|i: int| 0 <= i < all.len() implies #[trigger] all[i] <= u64::MAX by {
        assert(all.contains(all[i]));
    }
    lemma_downs(s.monitors, all, target, reason);
    let t = target_removed(s, target);
    assert(t.monitors.dom().subset_of(s.monitors.dom()));
    key_list_exists(t.monitors);
    let keys = sorted_keys(t.monitors);
    assert forall|i: int| 0 <= i < keys.len() implies t.monitors[#[trigger] keys[i]].target
        != target by {
        assert(keys.contains(keys[i]));
        assert(t.monitors.contains_key(keys[i]));
    }
    lemma_no_downs(t.monitors, keys, target, reason);
}

proof fn lemma_no_downs(
    monitors: Map<u128, MonitorEntry>,
    keys: Seq<u128>,
    target: FlowId,
    reason: FlowExitReason,
)
    requires
        forall|i: int| 0 <= i < keys.len() ==> monitors[#[trigger] keys[i]].target != target,
    ensures
        downs(monitors, keys, target, reason).len() == 0,
    decreases keys.len(),
{
    if keys.len() > 0 {
        lemma_no_downs(monitors, keys.drop_last(), target, reason);
        assert(monitors[keys[keys.len() - 1]].target != target);
    }
}

/// The watches of the live flows.
pub struct MonitorTable {
    monitors: IdMap<MonitorEntry>,
    next: u64,
}

impl View for MonitorTable {
    type V = MonitorState;

    closed spec fn view(&self) -> MonitorState {
        MonitorState { monitors: self.monitors@, next: self.next }
    }
}

impl MonitorTable {
    /// Keys are monitor references.
    #[verifier::type_invariant]
    spec fn keyed(&self) -> bool {
        ids_only(self.monitors@)
    }

    /// A table without watches; references start at one.
    pub fn new() -> (r: Self)
        ensures
            r@ == (MonitorState { monitors: Map::empty(), next: 1 }),
    {
        MonitorTable { monitors: IdMap::new(), next: 1 }
    }

    /// Watch `target` for `owner`.
    pub fn create(&mut self, owner: FlowId, target: FlowId) -> (r: MonitorRef)
        ensures
            r.raw == old(self)@.next,
            final(self)@ == monitor_added(old(self)@, owner, target),
    {
        proof {
            use_type_invariant(&*self);
        }
        let m = MonitorRef { raw: self.next };
        self.next = self.next.wrapping_add(1);
        let mut monitors = IdMap::new();
        std::mem::swap(&mut monitors, &mut self.monitors);
        let _ = monitors.insert(m.raw as u128, MonitorEntry { owner, target });
        self.monitors = monitors;
        m
    }

    /// Drop a watch of `owner`.
    pub fn remove_owned(&mut self, owner: FlowId, monitor: MonitorRef) -> (r: Result<
        (),
        LifecycleError,
    >)
        ensures
            (final(self)@, r) == monitor_dropped(old(self)@, owner, monitor),
    {
        proof {
            use_type_invariant(&*self);
        }
        let mine: bool = match self.monitors.get(monitor.raw as u128) {
            Some(e) => e.owner == owner,
            None => return Err(LifecycleError::InvalidMonitor),
        };
        if mine {
            let mut monitors = IdMap::new();
            std::mem::swap(&mut monitors, &mut self.monitors);
            let _ = monitors.remove(monitor.raw as u128);
            self.monitors = monitors;
            Ok(())
        } else {
            Err(LifecycleError::NotOwner)
        }
    }

    /// Drop every watch of `owner`.
    pub fn remove_owned_by(&mut self, owner: FlowId)
        ensures
            final(self)@ == owner_removed(old(self)@, owner),
    {
        proof {
            use_type_invariant(&*self);
        }
        let keys = self.monitors.keys();
        let mut gone: Vec<u128> = Vec::new();
        let mut i: usize = 0;
        while i < keys.len()
            invariant
                *self == *old(self),
                i <= keys@.len(),
                is_key_list(self@.monitors, keys@),
                ids_only(self@.monitors),
                forall|k: u128|
                    #[trigger] gone@.contains(k) <==> keys@.take(i as int).contains(k)
                        && self@.monitors[k].owner == owner,
            decreases keys@.len() - i,
        {
            let key: u128 = keys[i];
            assert(keys@.contains(keys@[i as int]));
            let ghost before = gone@;
            let ghost seen = keys@.take(i as int);
            assert(keys@.take(i + 1) =~= seen.push(key));
            if let Some(e) = self.monitors.get(key) {
                if e.owner == owner {
                    gone.push(key);
                }
            }
            proof {
                assert forall|k: u128| #[trigger] gone@.contains(k) <==> keys@.take(
                    i + 1,
                ).contains(k) && self@.monitors[k].owner == owner by {
                    lemma_push_contains(seen, key, k);
                    lemma_push_contains(before, key, k);
                }
            }
            i += 1;
        }
        assert(keys@.take(i as int) =~= keys@);
        let mut monitors = IdMap::new();
        std::mem::swap(&mut monitors, &mut self.monitors);
        monitors.remove_all(&gone);
        self.monitors = monitors;
        assert(self@.monitors =~= owner_removed(old(self)@, owner).monitors);
    }

    /// Fire and drop every watch on `target`, oldest first.
    pub fn notify_target_exit(&mut self, target: FlowId, reason: FlowExitReason) -> (r: Vec<
        DownEvent,
    >)
        ensures
            r@ == downs_of(old(self)@, target, reason),
            r@.no_duplicates(),
            forall|e: DownEvent| #[trigger]
                r@.contains(e) <==> is_down(old(self)@, e, target, reason),
            final(self)@ == target_removed(old(self)@, target),
    {
        proof {
            use_type_invariant(&*self);
        }
        let keys = self.monitors.keys();
        let mut out: Vec<DownEvent> = Vec::new();
        let mut gone: Vec<u128> = Vec::new();
        let mut i: usize = 0;
        while i < keys.len()
            invariant
                *self == *old(self),
                i <= keys@.len(),
                is_key_list(self@.monitors, keys@),
                ids_only(self@.monitors),
                out@ == downs(self@.monitors, keys@.take(i as int), target, reason),
                forall|k: u128|
                    #[trigger] gone@.contains(k) <==> keys@.take(i as int).contains(k)
                        && self@.monitors[k].target == target,
            decreases keys@.len() - i,
        {
            let key: u128 = keys[i];
            assert(keys@.contains(keys@[i as int]));
            let ghost before = gone@;
            let ghost seen = keys@.take(i as int);
            assert(keys@.take(i + 1).drop_last() =~= seen);
            assert(keys@.take(i + 1) =~= seen.push(key));
            if let Some(e) = self.monitors.get(key) {
                if e.target == target {
                    out.push(
                        DownEvent {
                            monitor: MonitorRef { raw: key as u64 },
                            owner: e.owner,
                            target,
                            reason,
                        },
                    );
                    gone.push(key);
                }
            }
            proof {
                assert forall|k: u128| #[trigger] gone@.contains(k) <==> keys@.take(
                    i + 1,
                ).contains(k) && self@.monitors[k].target == target by {
                    lemma_push_contains(seen, key, k);
                    lemma_push_contains(before, key, k);
                }
            }
            i += 1;
        }
        assert(keys@.take(i as int) =~= keys@);
        proof {
            assert forall|j: int| 0 <= j < keys@.len() implies #[trigger] keys@[j] <= u64::MAX by {
                assert(keys@.contains(keys@[j]));
            }
            lemma_downs(self@.monitors, keys@, target, reason);
        }
        let mut monitors = IdMap::new();
        std::mem::swap(&mut monitors, &mut self.monitors);
        monitors.remove_all(&gone);
        self.monitors = monitors;
        assert(self@.monitors =~= target_removed(old(self)@, target).monitors);
        out
    }
}

impl Default for MonitorTable {
    fn default() -> (r: Self)
        ensures
            r@ == (MonitorState { monitors: Map::empty(), next: 1 }),
    {
        MonitorTable::new()
    }
}

} // verus!
