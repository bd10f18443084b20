//! The one way out of a flow: its tables are swept, its watchers and peers
//! are told, and its outcome is left for whoever joins.
//!
//! Exits are worked off from a stack. Linked peers and stranded senders are
//! put below the flow that takes them along: they follow when it is through.
//! A flow that fails while it is told of an exit is put above: it goes out
//! first, and then the telling goes on.

use std::sync::Arc;

use vstd::prelude::*;

use crate::bytecode::value::{down_message, exit_message, Message, Value};
use crate::memory::MemoryBudget;
use crate::scheduler::capability::{flow_revoked, outlives};
use crate::scheduler::error::RuntimeError;
use crate::scheduler::failure::Failure;
use crate::scheduler::flow_limit::freed_slot;
use crate::scheduler::host_await::await_removed;
use crate::scheduler::link::{links_removed, peer_of, peers_of, LinkId};
use crate::scheduler::mailbox::{sender_removed, unparked, waiting_flows, MailboxState};
use crate::scheduler::monitor::{
    downs_of, owner_removed, reason_code, target_removed, DownEvent, FlowExitReason,
};
use crate::scheduler::process::{failed, host_id, Flow, FlowId, FlowOutcome, FlowState};
use crate::scheduler::quota::{drop_raises, others_due};
use crate::scheduler::registry::names_removed;
use crate::scheduler::shared::{
    dropped, exiting, failing, system_hop, woken, ChildExit, PendingExit, PendingState,
    RuntimeMetrics, Shared, SharedState, Stage, StageState,
};
use crate::scheduler::waits::{ask_removed, target_gone, waiters_of};

verus! {

/// A sender that waited at the inbox of `target` fails.
pub open spec fn strand(s: SharedState, target: FlowId, id: FlowId) -> SharedState {
    let k = id.raw as u128;
    let t = SharedState { sends: s.sends.remove(k), ..s };
    if t.flows.contains_key(k) {
        failing(dropped(t, id), t.flows[k], Failure::TargetExited(target))
    } else {
        t
    }
}

/// The first `n` waiting senders fail.
pub open spec fn stranded(s: SharedState, target: FlowId, senders: Seq<FlowId>, n: nat) -> SharedState
    decreases n,
{
    if n == 0 {
        s
    } else {
        strand(stranded(s, target, senders, (n - 1) as nat), target, senders[n - 1])
    }
}

/// A flow that waited for a reply gets the notice `v` instead.
pub open spec fn orphan(s: SharedState, asker: FlowId, v: Value) -> SharedState {
    let k = asker.raw as u128;
    if !s.boxes.contains_key(k) {
        s
    } else {
        let t = SharedState { boxes: s.boxes.insert(k, unparked(s.boxes[k])), ..s };
        match s.boxes[k].parked {
            Some(id) => woken(t, None, id, v),
            None => t,
        }
    }
}

/// The message that a watch fires.
pub open spec fn down_hop(e: DownEvent) -> Value {
    Value::Message(down_message(e.monitor.raw, e.target.raw, reason_code(e.reason)))
}

/// The message about the exit of a linked flow or of a replier.
pub open spec fn exit_hop(dead: FlowId, reason: FlowExitReason) -> Value {
    Value::Message(exit_message(dead.raw, reason_code(reason)))
}

/// Flow `id` came out of the table, if it was there.
pub open spec fn pulled(s: SharedState, id: FlowId) -> (SharedState, Option<FlowState>) {
    (
        dropped(s, id),
        if s.flows.contains_key(id.raw as u128) {
            Some(s.flows[id.raw as u128])
        } else {
            None
        },
    )
}

/// Flow `id` was marked to be killed and, if it is parked, pulled out. One
/// that runs, sleeps or is ready dies when it next runs.
pub open spec fn killed_out(s: SharedState, id: FlowId, reason: FlowExitReason) -> (
    SharedState,
    Option<FlowState>,
) {
    let k = id.raw as u128;
    if !s.boxes.contains_key(k) {
        (s, None)
    } else {
        let t = SharedState {
            kills: s.kills.insert(k, reason),
            boxes: s.boxes.insert(k, unparked(s.boxes[k])),
            ..s
        };
        match s.boxes[k].parked {
            Some(p) => pulled(t, p),
            None => if t.awaits.waits.contains_key(k) {
                pulled(SharedState { awaits: await_removed(t.awaits, id), ..t }, id)
            } else if t.sends.contains_key(k) && t.boxes.contains_key(t.sends[k].raw as u128) {
                let j = t.sends[k].raw as u128;
                let (m, found) = sender_removed(t.boxes[j], id);
                if found {
                    pulled(
                        SharedState {
                            boxes: t.boxes.insert(j, m),
                            sends: t.sends.remove(k),
                            ..t
                        },
                        id,
                    )
                } else {
                    (t, None)
                }
            } else {
                (t, None)
            },
        }
    }
}

/// The marks and waits of flow `id` are gone.
pub open spec fn unmarked(s: SharedState, id: FlowId) -> SharedState {
    let k = id.raw as u128;
    SharedState {
        kills: s.kills.remove(k),
        traps: s.traps.remove(k),
        sends: s.sends.remove(k),
        asks: ask_removed(s.asks, id),
        awaits: await_removed(s.awaits, id),
        due: others_due(s.due, id),
        ..s
    }
}

/// The inbox of flow `id` is closed and its waiting senders failed.
pub open spec fn inbox_closed(s: SharedState, id: FlowId) -> SharedState {
    let k = id.raw as u128;
    if s.boxes.contains_key(k) {
        let m = s.boxes[k];
        let senders = waiting_flows(m.waiting);
        stranded(
            SharedState {
                boxes: s.boxes.insert(
                    k,
                    MailboxState { closed: true, waiting: Seq::empty(), ..m },
                ),
                ..s
            },
            id,
            senders,
            senders.len(),
        )
    } else {
        s
    }
}

/// The budget after the memory of a flow came back; never below zero.
pub open spec fn memory_freed(m: MemoryBudget, bytes: usize) -> MemoryBudget {
    MemoryBudget {
        used: if m.used >= bytes {
            (m.used - bytes) as usize
        } else {
            0
        },
        ..m
    }
}

/// Capabilities, memory, inbox, slot, watches and names of the flow are
/// gone.
pub open spec fn tables_swept(s: SharedState, f: FlowState) -> SharedState {
    SharedState {
        caps: flow_revoked(s.caps, f.id),
        memory: memory_freed(s.memory, f.quota.mem_used),
        boxes: s.boxes.remove(f.id.raw as u128),
        limit: freed_slot(s.limit),
        monitors: owner_removed(s.monitors, f.id),
        names: names_removed(s.names, f.id),
        ..s
    }
}

/// Counters, supervisor and joiner learnt the outcome.
pub open spec fn outcome_left(s: SharedState, p: PendingState) -> SharedState {
    SharedState {
        metrics: if p.outcome is Completed {
            RuntimeMetrics {
                processes_completed: s.metrics.processes_completed.wrapping_add(1),
                ..s.metrics
            }
        } else {
            RuntimeMetrics {
                processes_failed: s.metrics.processes_failed.wrapping_add(1),
                ..s.metrics
            }
        },
        exits: match p.flow.supervisor {
            Some(supervisor) => s.exits.push(
                ChildExit {
                    supervisor,
                    id: p.flow.id,
                    outcome: p.outcome,
                    restart: p.flow.restart_policy,
                },
            ),
            None => s.exits,
        },
        done: s.done.push((p.flow.id, p.outcome)),
        ..s
    }
}

/// The state with `p` on its way out, at this stage.
pub open spec fn resting(s: SharedState, p: PendingState, stage: StageState) -> SharedState {
    SharedState { pending: s.pending.push(PendingState { stage, ..p }), ..s }
}

/// A flow begins to go out: its marks are gone, its inbox is closed and the
/// flows that wait for a reply of it are to be told.
pub open spec fn exit_begun(s: SharedState, p: PendingState) -> SharedState {
    let id = p.flow.id;
    let t = inbox_closed(unmarked(s, id), id);
    resting(
        SharedState { asks: target_gone(t.asks, id), ..t },
        p,
        StageState::Askers(waiters_of(t.asks, id)),
    )
}

/// A flow that waited for a reply was told.
pub open spec fn asker_told(s: SharedState, p: PendingState, l: Seq<FlowId>) -> SharedState {
    orphan(
        resting(s, p, StageState::Askers(l.drop_first())),
        l[0],
        exit_hop(p.flow.id, p.reason),
    )
}

/// The tables were swept, and the watches on the flow are to fire.
pub open spec fn tables_left(s: SharedState, p: PendingState) -> SharedState {
    let id = p.flow.id;
    let t = tables_swept(s, p.flow);
    resting(
        SharedState { monitors: target_removed(t.monitors, id), ..t },
        p,
        StageState::Downs(downs_of(t.monitors, id, p.reason)),
    )
}

/// A watch fired.
pub open spec fn watcher_told(s: SharedState, p: PendingState, l: Seq<DownEvent>) -> SharedState {
    system_hop(resting(s, p, StageState::Downs(l.drop_first())), l[0].owner, down_hop(l[0]))
}

/// The links of the flow are gone, and the linked flows are to be told.
pub open spec fn links_left(s: SharedState, p: PendingState) -> SharedState {
    let id = p.flow.id;
    resting(
        SharedState { links: links_removed(s.links, id), ..s },
        p,
        StageState::Peers(peers_of(s.links, id)),
    )
}

/// A linked flow that is to end too was put on its way out.
pub open spec fn peer_taken(s: SharedState, peer: FlowId) -> SharedState {
    match killed_out(s, peer, FlowExitReason::Link) {
        (t, Some(f)) => exiting(
            t,
            f,
            failed(Failure::LinkedExit(FlowExitReason::Link)),
            FlowExitReason::Link,
        ),
        (t, None) => t,
    }
}

/// A linked flow learnt of the exit: as a message if it traps exits, else
/// an abnormal exit takes it along.
pub open spec fn peer_told(s: SharedState, p: PendingState, l: Seq<(LinkId, FlowId)>) -> SharedState {
    let peer = l[0].1;
    let rest = StageState::Peers(l.drop_first());
    if s.traps.contains_key(peer.raw as u128) {
        system_hop(resting(s, p, rest), peer, exit_hop(p.flow.id, p.reason))
    } else if p.reason is Normal {
        resting(s, p, rest)
    } else {
        resting(peer_taken(s, peer), p, rest)
    }
}

/// The flow on top of the stack is one step further. The host is refused.
#[verifier::opaque]
pub open spec fn exit_step(s: SharedState) -> SharedState {
    let p = s.pending.last();
    let b = SharedState { pending: s.pending.drop_last(), ..s };
    match p.stage {
        StageState::Begin => if p.flow.id == host_id() {
            SharedState { faults: b.faults.push(RuntimeError::CannotFinalizeHostFlow), ..b }
        } else {
            exit_begun(b, p)
        },
        StageState::Askers(l) => if l.len() == 0 {
            tables_left(b, p)
        } else {
            asker_told(b, p, l)
        },
        StageState::Downs(l) => if l.len() == 0 {
            links_left(b, p)
        } else {
            watcher_told(b, p, l)
        },
        StageState::Peers(l) => if l.len() == 0 {
            outcome_left(b, p)
        } else {
            peer_told(b, p, l)
        },
    }
}

/// At most `n` steps were taken.
pub open spec fn exits_run(s: SharedState, n: nat) -> SharedState
    decreases n,
{
    if n == 0 || s.pending.len() == 0 {
        s
    } else {
        exits_run(exit_step(s), (n - 1) as nat)
    }
}

/// `t` is `s` with every flow of the stack worked off.
pub open spec fn settled(s: SharedState, t: SharedState) -> bool {
    &&& t.pending.len() == 0
    &&& exists|n: nat| t == #[trigger] exits_run(s, n)
}

proof fn lemma_settled_steps(s: SharedState, n: nat, m: nat)
    requires
        n <= m,
        exits_run(s, n).pending.len() == 0,
    ensures
        exits_run(s, m) == exits_run(s, n),
    decreases n,
{
    if n > 0 && s.pending.len() > 0 {
        lemma_settled_steps(exit_step(s), (n - 1) as nat, (m - 1) as nat);
    }
}

/// Working off the stack has one outcome.
pub proof fn settling_is_unique(s: SharedState, t: SharedState, u: SharedState)
    requires
        settled(s, t),
        settled(s, u),
    ensures
        t == u,
{
    let n = choose|n: nat| t == #[trigger] exits_run(s, n);
    let m = choose|m: nat| u == #[trigger] exits_run(s, m);
    if n <= m {
        lemma_settled_steps(s, n, m);
    } else {
        lemma_settled_steps(s, m, n);
    }
}

/// Flows in the table and on their way out.
pub open spec fn flow_count(s: SharedState) -> nat {
    s.flows.dom().len() + s.pending.len()
}

/// What waking, stranding and killing leave alone: the tables of
/// capabilities, names, links and watches, the live inboxes, the stack below
/// what they put on it, and the number of flows.
pub open spec fn quiet(s: SharedState, t: SharedState) -> bool {
    &&& t.flows.dom().finite()
    &&& flow_count(t) == flow_count(s)
    &&& s.pending.is_prefix_of(t.pending)
    &&& t.caps == s.caps
    &&& t.names == s.names
    &&& t.links == s.links
    &&& t.monitors == s.monitors
    &&& t.boxes.dom() == s.boxes.dom()
    &&& t.done == s.done
    &&& t.faults == s.faults
    &&& t.config == s.config
    &&& t.traps == s.traps
}

proof fn lemma_quiet_joins(s: SharedState, t: SharedState, u: SharedState)
    requires
        quiet(s, t),
        quiet(t, u),
    ensures
        quiet(s, u),
{
    assert(s.pending =~= u.pending.subrange(0, s.pending.len() as int)) by {
        assert(t.pending =~= u.pending.subrange(0, t.pending.len() as int));
        assert(s.pending =~= t.pending.subrange(0, s.pending.len() as int));
        assert forall|i: int| 0 <= i < s.pending.len() implies s.pending[i] == u.pending[i] by {
            assert(s.pending[i] == t.pending.subrange(0, s.pending.len() as int)[i]);
            assert(t.pending[i] == u.pending.subrange(0, t.pending.len() as int)[i]);
        }
    }
}

proof fn lemma_woken(s: SharedState, w: Option<usize>, id: FlowId, v: Value)
    requires
        s.flows.dom().finite(),
    ensures
        quiet(s, woken(s, w, id, v)),
{
    let k = id.raw as u128;
    let t = woken(s, w, id, v);
    assert(s.pending =~= s.pending.subrange(0, s.pending.len() as int));
    if s.flows.contains_key(k) {
        assert(s.flows.remove(k).insert(k, s.flows[k]).dom() =~= s.flows.dom());
        if t.pending.len() == s.pending.len() {
            assert(t.flows.dom() =~= s.flows.dom());
        } else {
            assert(s.pending =~= t.pending.subrange(0, s.pending.len() as int));
        }
    }
}

proof fn lemma_system_hop(s: SharedState, owner: FlowId, v: Value)
    requires
        s.flows.dom().finite(),
    ensures
        quiet(s, system_hop(s, owner, v)),
{
    let k = owner.raw as u128;
    assert(s.pending =~= s.pending.subrange(0, s.pending.len() as int));
    if s.boxes.contains_key(k) {
        let (m, d) = crate::scheduler::mailbox::system_pushed(s.boxes[k], v);
        let t = SharedState { boxes: s.boxes.insert(k, m), ..s };
        assert(t.boxes.dom() =~= s.boxes.dom());
        if let crate::scheduler::mailbox::Delivery::Handoff(id) = d {
            lemma_woken(SharedState { asks: ask_removed(t.asks, id), ..t }, None, id, v);
        }
    }
}

proof fn lemma_strand(s: SharedState, target: FlowId, id: FlowId)
    requires
        s.flows.dom().finite(),
    ensures
        quiet(s, strand(s, target, id)),
{
    let t = strand(s, target, id);
    assert(s.pending =~= t.pending.subrange(0, s.pending.len() as int));
}

proof fn lemma_stranded(s: SharedState, target: FlowId, senders: Seq<FlowId>, n: nat)
    requires
        s.flows.dom().finite(),
    ensures
        quiet(s, stranded(s, target, senders, n)),
    decreases n,
{
    if n > 0 {
        lemma_stranded(s, target, senders, (n - 1) as nat);
        let b = stranded(s, target, senders, (n - 1) as nat);
        lemma_strand(b, target, senders[n - 1]);
        lemma_quiet_joins(s, b, stranded(s, target, senders, n));
    } else {
        assert(s.pending =~= s.pending.subrange(0, s.pending.len() as int));
    }
}

proof fn lemma_orphan(s: SharedState, asker: FlowId, v: Value)
    requires
        s.flows.dom().finite(),
    ensures
        quiet(s, orphan(s, asker, v)),
{
    let k = asker.raw as u128;
    assert(s.pending =~= s.pending.subrange(0, s.pending.len() as int));
    if s.boxes.contains_key(k) {
        let t = SharedState { boxes: s.boxes.insert(k, unparked(s.boxes[k])), ..s };
        assert(t.boxes.dom() =~= s.boxes.dom());
        if let Some(id) = s.boxes[k].parked {
            lemma_woken(t, None, id, v);
        }
    }
}

proof fn lemma_peer_taken(s: SharedState, id: FlowId)
    requires
        s.flows.dom().finite(),
    ensures
        quiet(s, peer_taken(s, id)),
{
    let k = id.raw as u128;
    let t = killed_out(s, id, FlowExitReason::Link).0;
    assert(s.pending =~= peer_taken(s, id).pending.subrange(0, s.pending.len() as int));
    if s.boxes.contains_key(k) {
        assert(s.boxes.insert(k, unparked(s.boxes[k])).dom() =~= s.boxes.dom());
        assert(t.boxes.dom() =~= s.boxes.dom());
        assert(killed_out(s, id, FlowExitReason::Link).1 is None ==> t.flows =~= s.flows);
    }
}

proof fn lemma_inbox_closed(s: SharedState, id: FlowId)
    requires
        s.flows.dom().finite(),
    ensures
        quiet(s, inbox_closed(s, id)),
{
    let k = id.raw as u128;
    assert(s.pending =~= s.pending.subrange(0, s.pending.len() as int));
    if s.boxes.contains_key(k) {
        let m = s.boxes[k];
        let c = SharedState {
            boxes: s.boxes.insert(k, MailboxState { closed: true, waiting: Seq::empty(), ..m }),
            ..s
        };
        assert(c.boxes.dom() =~= s.boxes.dom());
        lemma_stranded(c, id, waiting_flows(m.waiting), waiting_flows(m.waiting).len());
    }
}

/// Tables only lose entries, and outcomes are only added.
pub open spec fn shrinks(s: SharedState, t: SharedState) -> bool {
    &&& t.boxes.dom().subset_of(s.boxes.dom())
    &&& t.caps.entries.submap_of(s.caps.entries)
    &&& t.caps.cells.submap_of(s.caps.cells)
    &&& t.names.submap_of(s.names)
    &&& t.links.links.submap_of(s.links.links)
    &&& t.monitors.monitors.submap_of(s.monitors.monitors)
    &&& t.traps.submap_of(s.traps)
    &&& s.done.is_prefix_of(t.done)
}

/// Stages that a flow has before it.
spec fn stages_left(p: PendingState) -> nat {
    match p.stage {
        StageState::Begin => 3,
        StageState::Askers(_) => 2,
        StageState::Downs(_) => 1,
        StageState::Peers(_) => 0,
    }
}

/// Whom a flow has to tell at its stage.
spec fn to_tell(p: PendingState) -> nat {
    match p.stage {
        StageState::Begin => 0,
        StageState::Askers(l) => l.len(),
        StageState::Downs(l) => l.len(),
        StageState::Peers(l) => l.len(),
    }
}

spec fn all_stages(s: Seq<PendingState>) -> nat
    decreases s.len(),
{
    if s.len() == 0 {
        0
    } else {
        all_stages(s.drop_last()) + stages_left(s.last())
    }
}

spec fn all_to_tell(s: Seq<PendingState>) -> nat
    decreases s.len(),
{
    if s.len() == 0 {
        0
    } else {
        all_to_tell(s.drop_last()) + to_tell(s.last())
    }
}

/// There is less to do: fewer flows, or as many of which fewer are in the
/// table, or as many there of which one is further.
spec fn less_to_do(s: SharedState, t: SharedState) -> bool {
    ||| flow_count(t) < flow_count(s)
    ||| flow_count(t) == flow_count(s) && t.flows.dom().len() < s.flows.dom().len()
    ||| {
        &&& flow_count(t) == flow_count(s)
        &&& t.flows.dom().len() == s.flows.dom().len()
        &&& {
            ||| all_stages(t.pending) < all_stages(s.pending)
            ||| all_stages(t.pending) == all_stages(s.pending) && all_to_tell(t.pending)
                < all_to_tell(s.pending)
        }
    }
}

/// The flow is still on its way out, and all that its stage promises is done.
spec fn underway(s: SharedState, f: FlowState, outcome: FlowOutcome, from: int) -> bool {
    exists|q: int|
        {
            &&& from <= q < s.pending.len()
            &&& (#[trigger] s.pending[q]).flow == f
            &&& s.pending[q].outcome == outcome
            &&& swept(s, f.id, s.pending[q].stage)
        }
}

/// What is gone of flow `id` at a stage.
pub open spec fn swept(s: SharedState, id: FlowId, stage: StageState) -> bool {
    &&& !(stage is Begin) ==> !s.traps.contains_key(id.raw as u128)
    &&& stage is Downs || stage is Peers ==> {
        &&& !s.boxes.contains_key(id.raw as u128)
        &&& !s.caps.cells.contains_key(id.raw as u128)
        &&& forall|k: u128| #[trigger]
            s.caps.entries.contains_key(k) ==> outlives(s.caps.entries[k], id)
        &&& forall|n: Seq<char>| #[trigger] s.names.contains_key(n) ==> s.names[n].flow != id
        &&& forall|k: u128| #[trigger]
            s.monitors.monitors.contains_key(k) ==> s.monitors.monitors[k].owner != id
                && s.monitors.monitors[k].target != id
    }
    &&& stage is Peers ==> forall|k: u128| #[trigger]
        s.links.links.contains_key(k) ==> peer_of(s.links.links[k], id) is None
}

proof fn lemma_submap<K, V>(a: Map<K, V>, b: Map<K, V>)
    requires
        a.submap_of(b),
    ensures
        forall|k: K| #[trigger] a.contains_key(k) ==> b.contains_key(k) && a[k] == b[k],
{
    assert forall|k: K| #[trigger] a.contains_key(k) implies b.contains_key(k) && a[k] == b[k] by {
        assert(a.dom().contains(k));
        assert(b.dom().contains(k));
    }
}

/// What is gone stays gone.
proof fn lemma_stays_swept(s: SharedState, t: SharedState, id: FlowId, stage: StageState)
    requires
        shrinks(s, t),
        swept(s, id, stage),
    ensures
        swept(t, id, stage),
{
    let k = id.raw as u128;
    lemma_submap(t.caps.entries, s.caps.entries);
    lemma_submap(t.caps.cells, s.caps.cells);
    lemma_submap(t.names, s.names);
    lemma_submap(t.links.links, s.links.links);
    lemma_submap(t.monitors.monitors, s.monitors.monitors);
    lemma_submap(t.traps, s.traps);
    if t.boxes.contains_key(k) {
        assert(s.boxes.dom().contains(k));
    }
}

/// What a step does to the flow on top of the stack and to the rest.
spec fn step_done(s: SharedState, t: SharedState) -> bool {
    let p = s.pending.last();
    let n = s.pending.len() - 1;
    &&& t.flows.dom().finite()
    &&& t.config == s.config
    &&& shrinks(s, t)
    &&& less_to_do(s, t)
    &&& s.pending.drop_last().is_prefix_of(t.pending)
    &&& t.done.len() + t.faults.len() + flow_count(t) == s.done.len() + s.faults.len()
        + flow_count(s)
    &&& p.stage is Begin && p.flow.id == host_id() || swept(s, p.flow.id, p.stage) ==> {
        ||| p.stage is Begin && p.flow.id == host_id()
        ||| underway(t, p.flow, p.outcome, n)
        ||| swept(t, p.flow.id, p.stage) && p.stage is Peers && t.done.len() > 0
            && t.done.last() == (p.flow.id, p.outcome)
    }
}

/// The sums over a stack with one more flow.
proof fn lemma_sums(b: Seq<PendingState>, p: PendingState)
    ensures
        all_stages(b.push(p)) == all_stages(b) + stages_left(p),
        all_to_tell(b.push(p)) == all_to_tell(b) + to_tell(p),
{
    assert(b.push(p).drop_last() =~= b);
}

/// A step that puts the flow back at a later stage, or with fewer to tell,
/// and then only tells: `r` is the state in between.
#[verifier::rlimit(40)]
proof fn lemma_put_back(s: SharedState, r: SharedState, t: SharedState, stage: StageState)
    requires
        s.flows.dom().finite(),
        s.pending.len() > 0,
        ({
            let p = s.pending.last();
            let q = PendingState { stage, ..p };
            &&& r.pending == s.pending.drop_last().push(q)
            &&& r.flows == s.flows
            &&& r.config == s.config
            &&& r.done == s.done
            &&& r.faults == s.faults
            &&& shrinks(s, r)
            &&& quiet(r, t)
            &&& stages_left(q) < stages_left(p) || stages_left(q) == stages_left(p) && to_tell(q)
                < to_tell(p)
            &&& swept(s, p.flow.id, p.stage) ==> swept(r, p.flow.id, stage)
        }),
    ensures
        step_done(s, t),
{
    let p = s.pending.last();
    let q = PendingState { stage, ..p };
    let b = s.pending.drop_last();
    let n = s.pending.len() - 1;
    assert(b.push(p) =~= s.pending);
    lemma_sums(b, p);
    lemma_sums(b, q);
    if t.pending.len() == r.pending.len() {
        assert(t.pending =~= r.pending) by {
            assert(r.pending == t.pending.subrange(0, r.pending.len() as int));
        }
    }
    assert forall|i: int| 0 <= i < r.pending.len() implies t.pending[i] == r.pending[i] by {
        assert(r.pending[i] == t.pending.subrange(0, r.pending.len() as int)[i]);
    }
    assert(b =~= t.pending.subrange(0, n)) by {
        assert forall|i: int| 0 <= i < n implies b[i] == t.pending[i] by {
            assert(r.pending[i] == b[i]);
        }
    }
    lemma_shrinks_quietly(s, r, t);
    if swept(s, p.flow.id, p.stage) {
        lemma_same_swept(r, t, p.flow.id, stage);
        assert(t.pending[n] == q);
        assert(underway(t, p.flow, p.outcome, n));
    }
}

proof fn lemma_shrinks_quietly(s: SharedState, r: SharedState, t: SharedState)
    requires
        shrinks(s, r),
        quiet(r, t),
    ensures
        shrinks(s, t),
{
}

proof fn lemma_same_swept(r: SharedState, t: SharedState, id: FlowId, stage: StageState)
    requires
        quiet(r, t),
        swept(r, id, stage),
    ensures
        swept(t, id, stage),
{
    assert(t.boxes.contains_key(id.raw as u128) == t.boxes.dom().contains(id.raw as u128));
    assert(r.boxes.contains_key(id.raw as u128) == r.boxes.dom().contains(id.raw as u128));
}

/// A step that takes other flows along: they are put below the flow. `r` is
/// the state before it is put back.
#[verifier::rlimit(40)]
proof fn lemma_put_above(s: SharedState, b: SharedState, r: SharedState, stage: StageState)
    requires
        s.flows.dom().finite(),
        s.pending.len() > 0,
        ({
            let p = s.pending.last();
            let q = PendingState { stage, ..p };
            &&& b.pending == s.pending.drop_last()
            &&& b.flows == s.flows
            &&& b.config == s.config
            &&& b.done == s.done
            &&& b.faults == s.faults
            &&& shrinks(s, b)
            &&& quiet(b, r)
            &&& stages_left(q) < stages_left(p) || stages_left(q) == stages_left(p) && to_tell(q)
                < to_tell(p)
            &&& swept(s, p.flow.id, p.stage) ==> swept(b, p.flow.id, stage)
        }),
    ensures
        step_done(s, resting(r, s.pending.last(), stage)),
{
    let p = s.pending.last();
    let q = PendingState { stage, ..p };
    let t = resting(r, p, stage);
    let n = s.pending.len() - 1;
    assert(b.pending.push(p) =~= s.pending);
    lemma_sums(b.pending, p);
    lemma_sums(r.pending, q);
    if r.pending.len() == b.pending.len() {
        assert(r.pending =~= b.pending) by {
            assert(b.pending == r.pending.subrange(0, b.pending.len() as int));
        }
    }
    assert(b.pending =~= t.pending.subrange(0, n)) by {
        assert forall|i: int| 0 <= i < n implies b.pending[i] == t.pending[i] by {
            assert(b.pending[i] == r.pending.subrange(0, b.pending.len() as int)[i]);
        }
    }
    lemma_shrinks_quietly(s, b, r);
    assert(shrinks(s, t));
    if swept(s, p.flow.id, p.stage) {
        lemma_same_swept(b, r, p.flow.id, stage);
        assert(swept(t, p.flow.id, stage));
        assert(t.pending[r.pending.len() as int] == q);
        assert(underway(t, p.flow, p.outcome, n));
    }
}

proof fn lemma_same_shrinks(s: SharedState)
    ensures
        shrinks(s, s),
{
    assert(s.done =~= s.done.subrange(0, s.done.len() as int));
}

#[verifier::rlimit(40)]
proof fn lemma_begin(s: SharedState)
    requires
        s.flows.dom().finite(),
        s.pending.len() > 0,
        s.pending.last().stage is Begin,
    ensures
        step_done(s, exit_step(s)),
{
    reveal(exit_step);
    let p = s.pending.last();
    let id = p.flow.id;
    let b = SharedState { pending: s.pending.drop_last(), ..s };
    let n = s.pending.len() - 1;
    lemma_same_shrinks(s);
    if id == host_id() {
        let t = exit_step(s);
        assert(s.pending.drop_last() =~= t.pending.subrange(0, n));
    } else {
        let a = unmarked(b, id);
        lemma_inbox_closed(a, id);
        let c = inbox_closed(a, id);
        let r = SharedState { asks: target_gone(c.asks, id), ..c };
        lemma_put_above(s, a, r, StageState::Askers(waiters_of(c.asks, id)));
    }
}

#[verifier::rlimit(40)]
proof fn lemma_askers(s: SharedState)
    requires
        s.flows.dom().finite(),
        s.pending.len() > 0,
        s.pending.last().stage is Askers,
    ensures
        step_done(s, exit_step(s)),
{
    reveal(exit_step);
    let p = s.pending.last();
    let id = p.flow.id;
    let l = p.stage->Askers_0;
    let b = SharedState { pending: s.pending.drop_last(), ..s };
    lemma_same_shrinks(s);
    if l.len() == 0 {
        let t = exit_step(s);
        let stage = StageState::Downs(
            downs_of(tables_swept(b, p.flow).monitors, id, p.reason),
        );
        assert(t.pending == s.pending.drop_last().push(PendingState { stage, ..p }));
        assert(t.pending =~= t.pending.subrange(0, t.pending.len() as int));
        assert(shrinks(s, t));
        assert(quiet(t, t));
        lemma_put_back(s, t, t, stage);
    } else {
        let stage = StageState::Askers(l.drop_first());
        let r = resting(b, p, stage);
        lemma_orphan(r, l[0], exit_hop(id, p.reason));
        lemma_put_back(s, r, exit_step(s), stage);
    }
}

#[verifier::rlimit(40)]
proof fn lemma_downs(s: SharedState)
    requires
        s.flows.dom().finite(),
        s.pending.len() > 0,
        s.pending.last().stage is Downs,
    ensures
        step_done(s, exit_step(s)),
{
    reveal(exit_step);
    let p = s.pending.last();
    let id = p.flow.id;
    let l = p.stage->Downs_0;
    let b = SharedState { pending: s.pending.drop_last(), ..s };
    lemma_same_shrinks(s);
    if l.len() == 0 {
        let t = exit_step(s);
        let stage = StageState::Peers(peers_of(b.links, id));
        assert(t.pending == s.pending.drop_last().push(PendingState { stage, ..p }));
        assert(t.pending =~= t.pending.subrange(0, t.pending.len() as int));
        assert(shrinks(s, t));
        assert(quiet(t, t));
        lemma_put_back(s, t, t, stage);
    } else {
        let stage = StageState::Downs(l.drop_first());
        let r = resting(b, p, stage);
        lemma_system_hop(r, l[0].owner, down_hop(l[0]));
        lemma_put_back(s, r, exit_step(s), stage);
    }
}

#[verifier::rlimit(40)]
proof fn lemma_peers(s: SharedState)
    requires
        s.flows.dom().finite(),
        s.pending.len() > 0,
        s.pending.last().stage is Peers,
    ensures
        step_done(s, exit_step(s)),
{
    reveal(exit_step);
    let p = s.pending.last();
    let id = p.flow.id;
    let l = p.stage->Peers_0;
    let b = SharedState { pending: s.pending.drop_last(), ..s };
    let n = s.pending.len() - 1;
    lemma_same_shrinks(s);
    if l.len() == 0 {
        let t = exit_step(s);
        assert(s.pending.drop_last() =~= t.pending.subrange(0, n));
        assert(s.done =~= t.done.subrange(0, s.done.len() as int));
    } else {
        let peer = l[0].1;
        let stage = StageState::Peers(l.drop_first());
        let r = resting(b, p, stage);
        assert(r.pending =~= r.pending.subrange(0, r.pending.len() as int));
        if b.traps.contains_key(peer.raw as u128) {
            lemma_system_hop(r, peer, exit_hop(id, p.reason));
            lemma_put_back(s, r, exit_step(s), stage);
        } else if p.reason is Normal {
            assert(quiet(r, r));
            lemma_put_back(s, r, r, stage);
        } else {
            lemma_peer_taken(b, peer);
            lemma_put_above(s, b, peer_taken(b, peer), stage);
        }
    }
}

proof fn lemma_step(s: SharedState)
    requires
        s.flows.dom().finite(),
        s.pending.len() > 0,
    ensures
        step_done(s, exit_step(s)),
{
    match s.pending.last().stage {
        StageState::Begin => lemma_begin(s),
        StageState::Askers(_) => lemma_askers(s),
        StageState::Downs(_) => lemma_downs(s),
        StageState::Peers(_) => lemma_peers(s),
    }
}

/// Nothing leads to a flow that is through, and its outcome was left.
pub open spec fn is_through(s: SharedState, id: FlowId, outcome: FlowOutcome) -> bool {
    &&& swept(s, id, StageState::Peers(Seq::empty()))
    &&& s.done.contains((id, outcome))
}

#[verifier::rlimit(60)]
proof fn lemma_run(s: SharedState, n: nat, f: FlowState, outcome: FlowOutcome)
    requires
        s.flows.dom().finite(),
        f.id != host_id(),
    ensures
        ({
            let t = exits_run(s, n);
            &&& t.flows.dom().finite()
            &&& t.config == s.config
            &&& t.done.len() + t.faults.len() + flow_count(t) == s.done.len() + s.faults.len()
                + flow_count(s)
            &&& underway(s, f, outcome, 0) ==> underway(t, f, outcome, 0) || is_through(
                t,
                f.id,
                outcome,
            )
            &&& is_through(s, f.id, outcome) ==> is_through(t, f.id, outcome)
        }),
    decreases n,
{
    if n > 0 && s.pending.len() > 0 {
        let u = exit_step(s);
        lemma_step(s);
        if is_through(s, f.id, outcome) {
            lemma_stays_swept(s, u, f.id, StageState::Peers(Seq::empty()));
            let i = choose|i: int| 0 <= i < s.done.len() && s.done[i] == (f.id, outcome);
            assert(s.done[i] == u.done.subrange(0, s.done.len() as int)[i]);
            assert(u.done[i] == (f.id, outcome));
            assert(is_through(u, f.id, outcome));
        } else if underway(s, f, outcome, 0) {
            let q = choose|q: int|
                {
                    &&& 0 <= q < s.pending.len()
                    &&& (#[trigger] s.pending[q]).flow == f
                    &&& s.pending[q].outcome == outcome
                    &&& swept(s, f.id, s.pending[q].stage)
                };
            if q < s.pending.len() - 1 {
                let b = s.pending.drop_last();
                assert(b[q] == u.pending.subrange(0, b.len() as int)[q]);
                assert(u.pending[q] == s.pending[q]);
                lemma_stays_swept(s, u, f.id, s.pending[q].stage);
                assert(underway(u, f, outcome, 0));
            } else if underway(u, f, outcome, s.pending.len() - 1) {
                let r = choose|r: int|
                    {
                        &&& s.pending.len() - 1 <= r < u.pending.len()
                        &&& (#[trigger] u.pending[r]).flow == f
                        &&& u.pending[r].outcome == outcome
                        &&& swept(u, f.id, u.pending[r].stage)
                    };
                assert(u.pending[r].flow == f);
                assert(underway(u, f, outcome, 0));
            } else {
                assert(u.done[u.done.len() - 1] == (f.id, outcome));
                assert(is_through(u, f.id, outcome));
            }
        }
        lemma_run(u, (n - 1) as nat, f, outcome);
    }
}

proof fn lemma_stranded_keeps_config(s: SharedState, id: FlowId, senders: Seq<FlowId>, n: nat)
    ensures
        stranded(s, id, senders, n).config == s.config,
    decreases n,
{
    if n > 0 {
        lemma_stranded_keeps_config(s, id, senders, (n - 1) as nat);
    }
}

proof fn lemma_run_keeps_config(s: SharedState, n: nat)
    ensures
        exits_run(s, n).config == s.config,
    decreases n,
{
    if n > 0 && s.pending.len() > 0 {
        assert(exit_step(s).config == s.config) by {
            reveal(exit_step);
            let p = s.pending.last();
            let id = p.flow.id;
            let a = unmarked(SharedState { pending: s.pending.drop_last(), ..s }, id);
            let k = id.raw as u128;
            if a.boxes.contains_key(k) {
                let m = a.boxes[k];
                let senders = waiting_flows(m.waiting);
                lemma_stranded_keeps_config(
                    SharedState {
                        boxes: a.boxes.insert(
                            k,
                            MailboxState { closed: true, waiting: Seq::empty(), ..m },
                        ),
                        ..a
                    },
                    id,
                    senders,
                    senders.len(),
                );
            }
        }
        lemma_run_keeps_config(exit_step(s), (n - 1) as nat);
    }
}

/// Working off the stack leaves the settings alone.
pub proof fn settling_keeps_config(s: SharedState, t: SharedState)
    requires
        settled(s, t),
    ensures
        t.config == s.config,
{
    let n = choose|n: nat| t == #[trigger] exits_run(s, n);
    lemma_run_keeps_config(s, n);
}

/// Each flow that goes out leaves one outcome, or one fault if it is the
/// host, and every flow that left the table went out.
pub proof fn outcomes_are_left_once(s: SharedState, t: SharedState)
    requires
        s.flows.dom().finite(),
        settled(s, t),
    ensures
        t.done.len() + t.faults.len() + t.flows.dom().len() == s.done.len() + s.faults.len()
            + s.flows.dom().len() + s.pending.len(),
{
    let n = choose|n: nat| t == #[trigger] exits_run(s, n);
    let f = FlowState { id: FlowId { raw: 1 }, ..arbitrary() };
    lemma_run(s, n, f, FlowOutcome::Completed(Value::Unit));
}

/// Once the stack was worked off, nothing leads to a flow that was on it: no
/// inbox, no capability it held or was the target of, no name, no link, and
/// no watch by it or on it. Its outcome is left.
pub proof fn finalization_is_complete(s: SharedState, t: SharedState, q: int)
    requires
        s.flows.dom().finite(),
        settled(s, t),
        0 <= q < s.pending.len(),
        s.pending[q].stage is Begin,
        s.pending[q].flow.id != host_id(),
    ensures
        is_through(t, s.pending[q].flow.id, s.pending[q].outcome),
{
    let n = choose|n: nat| t == #[trigger] exits_run(s, n);
    let p = s.pending[q];
    assert(swept(s, p.flow.id, p.stage));
    assert(underway(s, p.flow, p.outcome, 0));
    lemma_run(s, n, p.flow, p.outcome);
}

/// Whoever can use a capability before a flow goes a step further out can
/// use it afterwards, unless that flow is involved.
pub proof fn other_capabilities_survive(s: SharedState, key: u128)
    requires
        s.flows.dom().finite(),
        s.pending.len() > 0,
        s.caps.entries.contains_key(key),
        outlives(s.caps.entries[key], s.pending.last().flow.id),
    ensures
        exit_step(s).caps.entries.contains_key(key),
        exit_step(s).caps.entries[key] == s.caps.entries[key],
{
    reveal(exit_step);
    let p = s.pending.last();
    let b = SharedState { pending: s.pending.drop_last(), ..s };
    match p.stage {
        StageState::Begin => {
            if p.flow.id != host_id() {
                lemma_inbox_closed(unmarked(b, p.flow.id), p.flow.id);
            }
        },
        StageState::Askers(l) => {
            if l.len() > 0 {
                let r = resting(b, p, StageState::Askers(l.drop_first()));
                lemma_orphan(r, l[0], exit_hop(p.flow.id, p.reason));
            }
        },
        StageState::Downs(l) => {
            if l.len() > 0 {
                let r = resting(b, p, StageState::Downs(l.drop_first()));
                lemma_system_hop(r, l[0].owner, down_hop(l[0]));
            }
        },
        StageState::Peers(l) => {
            if l.len() > 0 {
                let r = resting(b, p, StageState::Peers(l.drop_first()));
                lemma_system_hop(r, l[0].1, exit_hop(p.flow.id, p.reason));
                lemma_peer_taken(b, l[0].1);
            }
        },
    }
}

impl Shared {
    /// Put a flow on its way out and work the stack off.
    pub fn finalize_flow(&mut self, flow: Flow, outcome: FlowOutcome, reason: FlowExitReason)
        ensures
            settled(exiting(old(self)@, flow@, outcome, reason), final(self)@),
    {
        self.exit_flow(flow, outcome, reason);
        self.settle();
    }

    /// Work the stack off.
    #[verifier::rlimit(40)]
    pub fn settle(&mut self)
        ensures
            settled(old(self)@, final(self)@),
    {
        let ghost mut n: nat = 0;
        let ghost s0 = self@;
        let _ = self.flows.len();
        assert(self@.flows.dom() =~= self.flows@.dom());
        assert(self@ == exits_run(s0, 0));
        loop
            invariant
                s0 == old(self)@,
                self@ == exits_run(s0, n),
                forall|m: nat| exits_run(s0, n + m) == #[trigger] exits_run(self@, m),
                self@.flows.dom().finite(),
            ensures
                self@.pending.len() == 0,
                self@ == exits_run(s0, n),
            decreases
                    flow_count(self@),
                    self@.flows.dom().len(),
                    all_stages(self@.pending),
                    all_to_tell(self@.pending),
        {
            let ghost s = self@;
            match self.pending.pop() {
                None => {
                    assert(self@.pending =~= s.pending);
                    break;
                },
                Some(p) => {
                    assert(self@.pending =~= s.pending.drop_last());
                    assert(p@ == s.pending.last());
                    assert(self@ == (SharedState { pending: s.pending.drop_last(), ..s }));
                    self.finalize_step(p, Ghost(s));
                    proof {
                        lemma_step(s);
                        assert(self@ == exit_step(s));
                        assert(exits_run(s0, n + 1) == exits_run(s, 1));
                        assert(exits_run(exit_step(s), 0) == exit_step(s));
                        assert forall|m: nat| exits_run(s0, (n + 1) + m) == #[trigger] exits_run(
                            self@,
                            m,
                        ) by {
                            assert(exits_run(s0, n + (m + 1)) == exits_run(s, m + 1));
                        }
                        n = n + 1;
                    }
                },
            }
        }
    }

    #[verifier::rlimit(40)]
    fn finalize_step(&mut self, pending: PendingExit, Ghost(s): Ghost<SharedState>)
        requires
            s.pending.len() > 0,
            s.pending.last() == pending@,
            old(self)@ == (SharedState { pending: s.pending.drop_last(), ..s }),
        ensures
            final(self)@ == exit_step(s),
    {
        reveal(exit_step);
        let PendingExit { flow, outcome, reason, stage } = pending;
        let id = flow.id;
        match stage {
            Stage::Begin => {
                if id.is_host() {
                    self.faults.push(RuntimeError::CannotFinalizeHostFlow);
                } else {
                    self.begin_exit(flow, outcome, reason);
                }
            },
            Stage::Askers(l) => {
                let mut l = l;
                if l.len() == 0 {
                    self.sweep_tables(id, flow.quota.mem_used);
                    let events = self.monitors.notify_target_exit(id, reason);
                    self.rest(flow, outcome, reason, Stage::Downs(events));
                } else {
                    let ghost all = l@;
                    let asker = l.remove(0);
                    assert(l@ =~= all.drop_first());
                    self.rest(flow, outcome, reason, Stage::Askers(l));
                    self.tell_asker(asker, id, reason);
                }
            },
            Stage::Downs(l) => {
                let mut l = l;
                if l.len() == 0 {
                    let peers = self.links.remove_links_of(id);
                    self.rest(flow, outcome, reason, Stage::Peers(peers));
                } else {
                    let ghost all = l@;
                    let e = l.remove(0);
                    assert(l@ =~= all.drop_first());
                    self.rest(flow, outcome, reason, Stage::Downs(l));
                    let hop = Value::Message(
                        Message::down(e.monitor.as_u64(), e.target.as_u64(), e.reason.as_u64()),
                    );
                    self.deliver_system_hop(e.owner, hop);
                }
            },
            Stage::Peers(l) => {
                let mut l = l;
                if l.len() == 0 {
                    self.leave_outcome(flow, outcome);
                } else {
                    let ghost all = l@;
                    let peer = l.remove(0).1;
                    assert(l@ =~= all.drop_first());
                    if self.trap_exits.is_enabled(peer) {
                        self.rest(flow, outcome, reason, Stage::Peers(l));
                        let hop = Value::Message(
                            Message::linked_exit(id.as_u64(), reason.as_u64()),
                        );
                        self.deliver_system_hop(peer, hop);
                    } else {
                        if reason.is_abnormal() {
                            self.collect_link_exit(peer);
                        }
                        self.rest(flow, outcome, reason, Stage::Peers(l));
                    }
                }
            },
        }
    }

    /// Put a flow back on the stack.
    fn rest(&mut self, flow: Flow, outcome: FlowOutcome, reason: FlowExitReason, stage: Stage)
        ensures
            forall|p: PendingState|
                p.flow == flow@ && p.outcome == outcome && p.reason == reason ==> final(self)@
                    == #[trigger] resting(old(self)@, p, stage@),
    {
        let ghost q = PendingState { flow: flow@, outcome, reason, stage: stage@ };
        self.pending.push(PendingExit { flow, outcome, reason, stage });
        assert(self@.pending =~= old(self)@.pending.push(q));
    }

    fn begin_exit(&mut self, flow: Flow, outcome: FlowOutcome, reason: FlowExitReason)
        ensures
            forall|p: PendingState|
                p.flow == flow@ && p.outcome == outcome && p.reason == reason ==> final(self)@
                    == #[trigger] exit_begun(old(self)@, p),
    {
        let id = flow.id;
        let _ = self.kill_signals.take(id);
        self.trap_exits.clear(id);
        let _ = self.waiting_send_at.remove(id);
        let _ = self.ask_waits.remove_asker(id);
        self.host_awaits.forget_flow(id);
        drop_raises(&mut self.due, id);
        assert(self@ == unmarked(old(self)@, id));
        self.close_inbox(id);
        let askers = self.ask_waits.take_waiters_of(id);
        self.rest(flow, outcome, reason, Stage::Askers(askers));
    }

    fn leave_outcome(&mut self, flow: Flow, outcome: FlowOutcome)
        ensures
            forall|p: PendingState|
                p.flow == flow@ && p.outcome == outcome ==> final(self)@
                    == #[trigger] outcome_left(old(self)@, p),
    {
        match outcome {
            FlowOutcome::Completed(_) => {
                self.metrics.processes_completed = self.metrics.processes_completed.wrapping_add(
                    1,
                );
            },
            FlowOutcome::Failed(_) => {
                self.metrics.processes_failed = self.metrics.processes_failed.wrapping_add(1);
            },
        }
        if let Some(supervisor) = flow.supervisor {
            self.exits.push(
                ChildExit {
                    supervisor,
                    id: flow.id,
                    outcome: outcome.clone(),
                    restart: flow.restart_policy,
                },
            );
        }
        self.done.push((flow.id, outcome));
    }

    fn close_inbox(&mut self, id: FlowId)
        ensures
            final(self)@ == inbox_closed(old(self)@, id),
    {
        let mut mailbox = match self.directory.take(id) {
            Some(m) => m,
            None => {
                assert(self@.boxes =~= old(self)@.boxes);
                return ;
            },
        };
        let senders = mailbox.close();
        self.directory.put(id, mailbox);
        assert(self@.boxes =~= old(self)@.boxes.insert(id.raw as u128, mailbox@));
        let ghost s0 = self@;
        let mut k: usize = 0;
        while k < senders.len()
            invariant
                k <= senders@.len(),
                self@ == stranded(s0, id, senders@, k as nat),
            decreases senders@.len() - k,
        {
            let sender = senders[k];
            let ghost b = self@;
            let _ = self.waiting_send_at.remove(sender);
            let ghost c = self@;
            match self.take_flow(sender) {
                Some(flow) => self.fail_flow(flow, Failure::TargetExited(id)),
                None => {
                    assert(self@.flows =~= c.flows);
                },
            }
            assert(self@ == strand(b, id, sender));
            k += 1;
        }
    }

    fn tell_asker(&mut self, asker: FlowId, target: FlowId, reason: FlowExitReason)
        ensures
            final(self)@ == orphan(old(self)@, asker, exit_hop(target, reason)),
    {
        let hop = Value::Message(Message::linked_exit(target.as_u64(), reason.as_u64()));
        let ghost b = self@;
        match self.directory.take(asker) {
            Some(m) => {
                let mut mailbox = m;
                let parked = mailbox.take_parked();
                self.directory.put(asker, mailbox);
                assert(self@.boxes =~= b.boxes.insert(
                    asker.raw as u128,
                    unparked(b.boxes[asker.raw as u128]),
                ));
                if let Some(id) = parked {
                    self.wake(None, id, hop);
                }
            },
            None => {
                assert(self@.boxes =~= b.boxes);
            },
        }
    }

    fn sweep_tables(&mut self, id: FlowId, mem_used: usize)
        ensures
            forall|f: FlowState|
                f.id == id && f.quota.mem_used == mem_used ==> final(self)@ == #[trigger] tables_swept(
                    old(self)@,
                    f,
                ),
    {
        let _ = self.caps.revoke_flow(id);
        if mem_used > self.memory.used() {
            let all: usize = self.memory.used();
            self.memory.release(all);
        } else {
            self.memory.release(mem_used);
        }
        self.directory.unregister(id);
        self.flow_limit.release();
        self.monitors.remove_owned_by(id);
        self.registry.unregister_flow(id);
    }

    fn collect_link_exit(&mut self, peer: FlowId)
        ensures
            final(self)@ == peer_taken(old(self)@, peer),
    {
        if let Some(flow) = self.extract_for_kill(peer, FlowExitReason::Link) {
            self.exit_flow(
                flow,
                FlowOutcome::Failed(Arc::new(Failure::LinkedExit(FlowExitReason::Link))),
                FlowExitReason::Link,
            );
        }
    }

    /// Mark a flow to be killed and pull it out if it is parked.
    pub fn extract_for_kill(&mut self, id: FlowId, reason: FlowExitReason) -> (r: Option<Flow>)
        ensures
            final(self)@ == killed_out(old(self)@, id, reason).0,
            match killed_out(old(self)@, id, reason).1 {
                Some(f) => r matches Some(x) && x@ == f,
                None => r is None,
            },
    {
        let ghost s0 = self@;
        let mut mailbox = match self.directory.take(id) {
            Some(m) => m,
            None => {
                assert(self@.boxes =~= s0.boxes);
                return None;
            },
        };
        self.kill_signals.set(id, reason);
        let parked = mailbox.take_parked();
        self.directory.put(id, mailbox);
        assert(self@.boxes =~= s0.boxes.insert(
            id.raw as u128,
            unparked(s0.boxes[id.raw as u128]),
        ));
        let ghost t = self@;
        if let Some(p) = parked {
            return self.take_flow(p);
        }
        if self.host_awaits.take_flow(id) {
            return self.take_flow(id);
        }
        assert(self@.awaits.waits =~= t.awaits.waits);
        let target = match self.waiting_send_at.get(id) {
            Some(x) => x,
            None => return None,
        };
        let mut other = match self.directory.take(target) {
            Some(m) => m,
            None => {
                assert(self@.boxes =~= t.boxes);
                return None;
            },
        };
        let found: bool = other.take_waiting_sender(id);
        self.directory.put(target, other);
        assert(self@.boxes =~= t.boxes.insert(target.raw as u128, other@));
        if found {
            let _ = self.waiting_send_at.remove(id);
            self.take_flow(id)
        } else {
            assert(self@.boxes =~= t.boxes);
            None
        }
    }

    /// Kill a flow: at once if it is parked, else when it next runs.
    pub fn request_kill(&mut self, id: FlowId, reason: FlowExitReason)
        ensures
            settled(
                match killed_out(old(self)@, id, reason) {
                    (t, Some(f)) => exiting(t, f, failed(Failure::Killed(reason)), reason),
                    (t, None) => t,
                },
                final(self)@,
            ),
    {
        if let Some(flow) = self.extract_for_kill(id, reason) {
            self.exit_flow(flow, FlowOutcome::Failed(Arc::new(Failure::Killed(reason))), reason);
        }
        self.settle();
    }
}

} // verus!
