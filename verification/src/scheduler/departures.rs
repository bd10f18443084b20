//! How flows go: who is told, who goes along and what is left.

use vstd::prelude::*;

use crate::bytecode::cap::{rights, CapId, RIGHTS_ADDRESSING};
use crate::bytecode::value::{TAG_SYS_DOWN, TAG_SYS_EXIT, Value};
use crate::idmap::ids_only;
use crate::scheduler::capability::minted;
use crate::scheduler::drive::drained;
use crate::scheduler::error::{RuntimeError, SpawnError};
use crate::scheduler::exchange::woke_with;
use crate::scheduler::failure::Failure;
use crate::scheduler::finalize::{
    exit_hop, exit_step, exits_run, inbox_closed, peer_taken, resting, settled, stranded, unmarked,
};
use crate::scheduler::link::{links_are_reported_once, LinkId};
use crate::scheduler::mailbox::waiting_flows;
use crate::scheduler::mailbox::queue::accepts;
use crate::scheduler::monitor::{DownEvent, FlowExitReason};
use crate::scheduler::process::{host_id, FlowId, FlowOutcome};
use crate::scheduler::shared::{system_hop, woken, PendingState, SharedState, StageState};
use crate::scheduler::supervisor::{all_taken_down, child_named, kill_asked, taken_down, SupState};

verus! {

/// The number that an exit reason goes by.
pub open spec fn reason_number(r: FlowExitReason) -> int {
    match r {
        FlowExitReason::Normal => 0,
        FlowExitReason::Shutdown => 1,
        FlowExitReason::Killed => 2,
        FlowExitReason::Fault => 3,
        FlowExitReason::MailboxOverflow => 4,
        FlowExitReason::Supervisor => 5,
        FlowExitReason::Link => 6,
    }
}

/// The notice that `dead` went out for `reason`.
pub open spec fn is_exit_notice(v: Value, dead: FlowId, reason: FlowExitReason) -> bool {
    &&& v is Message
    &&& v->Message_0.sender == dead.raw
    &&& v->Message_0.tag == TAG_SYS_EXIT
    &&& v->Message_0.request_id == 0
    &&& v->Message_0.reply_cap.raw == 0
    &&& *v->Message_0.payload is Int
    &&& (*v->Message_0.payload)->Int_0 == reason_number(reason)
}

/// The notice of a watch that its target went out.
pub open spec fn is_down_notice(v: Value, e: DownEvent) -> bool {
    &&& v is Message
    &&& v->Message_0.sender == e.target.raw
    &&& v->Message_0.tag == TAG_SYS_DOWN
    &&& v->Message_0.request_id == e.monitor.raw
    &&& v->Message_0.reply_cap.raw == 0
    &&& *v->Message_0.payload is Int
    &&& (*v->Message_0.payload)->Int_0 == reason_number(e.reason)
}

/// A notice of the system came to flow `owner`: the flow that waits for it
/// has it, or it is the newest in the inbox. Nobody else noticed.
pub open spec fn told(s: SharedState, t: SharedState, owner: FlowId, v: Value) -> bool {
    let k = owner.raw as u128;
    let m = s.boxes[k];
    &&& !s.boxes.contains_key(k) || m.closed ==> t.boxes == s.boxes && t.flows == s.flows
        && t.pending == s.pending
    &&& s.boxes.contains_key(k) && !m.closed ==> {
        let waiter = m.parked;
        &&& t.boxes == s.boxes.insert(k, t.boxes[k])
        &&& waiter is None || !accepts(m.filter, v) ==> {
            &&& t.boxes[k].queue.hops.len() > 0
            &&& t.boxes[k].queue.hops.last() == v
            &&& t.boxes[k].parked == m.parked
            &&& t.boxes[k].filter == m.filter
            &&& t.flows == s.flows
            &&& t.pending == s.pending
            &&& t.ready == s.ready
        }
        &&& waiter is Some && accepts(m.filter, v) ==> {
            let id = waiter->Some_0;
            let f = s.flows[id.raw as u128];
            &&& t.boxes[k].queue == m.queue
            &&& t.boxes[k].parked is None
            &&& !t.asks.waits.contains_key(id.raw as u128)
            &&& s.flows.contains_key(id.raw as u128) && f.id == id && f.last_receive_dest is Some
                ==> woke_with(s, t, None, id, f.last_receive_dest->Some_0, v)
        }
    }
    &&& t.kills == s.kills
    &&& t.links == s.links
    &&& t.traps == s.traps
    &&& t.names == s.names
    &&& t.monitors == s.monitors
    &&& t.caps == s.caps
    &&& t.done == s.done
    &&& t.exits == s.exits
}

proof fn lemma_woken(s: SharedState, w: Option<usize>, id: FlowId, v: Value)
    ensures
        ({
            let t = woken(s, w, id, v);
            let f = s.flows[id.raw as u128];
            &&& t.boxes == s.boxes
            &&& t.kills == s.kills
            &&& t.links == s.links
            &&& t.traps == s.traps
            &&& t.names == s.names
            &&& t.monitors == s.monitors
            &&& t.caps == s.caps
            &&& t.asks == s.asks
            &&& t.done == s.done
            &&& t.exits == s.exits
            &&& t.pending == s.pending || (t.pending.len() == s.pending.len() + 1
                && t.pending.drop_last() == s.pending && t.pending.last().stage is Begin
                && !(t.pending.last().reason is Normal))
            &&& s.flows.contains_key(id.raw as u128) && f.id == id && f.last_receive_dest is Some
                ==> woke_with(s, t, w, id, f.last_receive_dest->Some_0, v)
        }),
{
    let t = woken(s, w, id, v);
    let f = s.flows[id.raw as u128];
    let k = id.raw as u128;
    if s.flows.contains_key(k) {
        if t.pending.len() != s.pending.len() {
            assert(t.pending.drop_last() =~= s.pending);
        }
        if f.id == id && f.last_receive_dest is Some {
            let d = f.last_receive_dest->Some_0;
            let u = crate::scheduler::shared::dropped(s, id);
            crate::scheduler::exchange::values_land_in_their_register(u, f, d, v);
            if crate::scheduler::shared::resumed(u, f, d, v).1 is Some {
                assert(t.flows =~= s.flows.insert(k, t.flows[k]));
            } else {
                assert(t.flows =~= s.flows.remove(k));
            }
        }
    }
}

/// A notice of the system is not lost.
pub proof fn notices_arrive(s: SharedState, owner: FlowId, v: Value)
    ensures
        told(s, system_hop(s, owner, v), owner, v),
{
    let k = owner.raw as u128;
    let t = system_hop(s, owner, v);
    if s.boxes.contains_key(k) {
        let m = s.boxes[k];
        let (n, d) = crate::scheduler::mailbox::system_pushed(m, v);
        let u = SharedState { boxes: s.boxes.insert(k, n), ..s };
        assert(t.boxes =~= s.boxes.insert(k, t.boxes[k]));
        if m.closed {
            assert(t.boxes =~= s.boxes);
        } else if m.parked is Some && accepts(m.filter, v) {
            let id = m.parked->Some_0;
            let x = SharedState { asks: crate::scheduler::waits::ask_removed(u.asks, id), ..u };
            lemma_woken(x, None, id, v);
        }
    }
}

/// The state without the flow on top of the stack.
pub open spec fn popped_off(s: SharedState) -> SharedState {
    SharedState { pending: s.pending.drop_last(), ..s }
}

/// A linked flow learns of an exit as it should: one that traps exits gets a
/// notice; else an abnormal exit marks it to be killed and takes it along if
/// it waits, and a normal one leaves it as it was.
pub proof fn linked_flows_follow_an_abnormal_exit(s: SharedState)
    requires
        s.pending.len() > 0,
        s.pending.last().stage is Peers,
        s.pending.last().stage->Peers_0.len() > 0,
    ensures
        ({
            let p = s.pending.last();
            let l = p.stage->Peers_0;
            let peer = l[0].1;
            let k = peer.raw as u128;
            let m = s.boxes[k];
            let t = exit_step(s);
            let rest = PendingState { stage: StageState::Peers(l.drop_first()), ..p };
            let b = popped_off(s);
            &&& s.traps.contains_key(k) ==> exists|v: Value| #[trigger]
                is_exit_notice(v, p.flow.id, p.reason) && told(
                    SharedState { pending: b.pending.push(rest), ..b },
                    t,
                    peer,
                    v,
                )
            &&& !s.traps.contains_key(k) && p.reason is Normal ==> t == (SharedState {
                pending: b.pending.push(rest),
                ..b
            })
            &&& !s.traps.contains_key(k) && !(p.reason is Normal) && s.boxes.contains_key(k) ==> {
                &&& t.kills == s.kills.insert(k, FlowExitReason::Link)
                &&& t.boxes[k].parked is None
                &&& t.boxes[k].queue == m.queue
                &&& t.pending.last() == rest
                &&& m.parked == Some(peer) && s.flows.contains_key(k) ==> goes_along(
                    b,
                    t,
                    peer,
                    rest,
                )
                &&& m.parked is None && s.awaits.waits.contains_key(k) && s.flows.contains_key(k)
                    ==> goes_along(b, t, peer, rest) && !t.awaits.waits.contains_key(k)
                &&& m.parked is None && !s.awaits.waits.contains_key(k) && !s.sends.contains_key(k)
                    ==> t.flows == s.flows && t.pending == b.pending.push(rest)
            }
            &&& !s.traps.contains_key(k) && !s.boxes.contains_key(k) ==> t == (SharedState {
                pending: b.pending.push(rest),
                ..b
            })
        }),
{
    reveal(exit_step);
    let p = s.pending.last();
    let l = p.stage->Peers_0;
    let peer = l[0].1;
    let k = peer.raw as u128;
    let t = exit_step(s);
    let rest = StageState::Peers(l.drop_first());
    let b = popped_off(s);
    if s.traps.contains_key(k) {
        let v = exit_hop(p.flow.id, p.reason);
        notices_arrive(resting(b, p, rest), peer, v);
        assert(is_exit_notice(v, p.flow.id, p.reason));
    } else if !(p.reason is Normal) && s.boxes.contains_key(k) {
        let q = PendingState { stage: rest, ..p };
        if t.pending.len() == b.pending.len() + 2 {
            assert(t.pending.drop_last() == peer_taken(b, peer).pending) by {
                assert(t.pending.drop_last() =~= peer_taken(b, peer).pending);
            }
            assert(t.pending.drop_last().drop_last() =~= b.pending);
        }
    }
}

/// The peer left the table and is on its way out, below the flow that it goes
/// with, with a failure that says so.
pub open spec fn goes_along(
    b: SharedState,
    t: SharedState,
    peer: FlowId,
    rest: PendingState,
) -> bool {
    let k = peer.raw as u128;
    &&& t.flows == b.flows.remove(k)
    &&& t.pending.len() == b.pending.len() + 2
    &&& t.pending.last() == rest
    &&& t.pending.drop_last().drop_last() == b.pending
    &&& t.pending[b.pending.len() as int].flow == b.flows[k]
    &&& t.pending[b.pending.len() as int].reason is Link
    &&& t.pending[b.pending.len() as int].stage is Begin
    &&& t.pending[b.pending.len() as int].outcome matches FlowOutcome::Failed(why) && *why
        == Failure::LinkedExit(FlowExitReason::Link)
}

/// A watch that fires tells its owner which watch it was, whom it was on and
/// why that flow went.
pub proof fn watchers_are_told(s: SharedState)
    requires
        s.pending.len() > 0,
        s.pending.last().stage is Downs,
        s.pending.last().stage->Downs_0.len() > 0,
    ensures
        ({
            let p = s.pending.last();
            let l = p.stage->Downs_0;
            let b = popped_off(s);
            let rest = PendingState { stage: StageState::Downs(l.drop_first()), ..p };
            exists|v: Value| #[trigger]
                is_down_notice(v, l[0]) && told(
                    SharedState { pending: b.pending.push(rest), ..b },
                    exit_step(s),
                    l[0].owner,
                    v,
                )
        }),
{
    reveal(exit_step);
    let p = s.pending.last();
    let l = p.stage->Downs_0;
    let b = popped_off(s);
    let v = crate::scheduler::finalize::down_hop(l[0]);
    notices_arrive(resting(b, p, StageState::Downs(l.drop_first())), l[0].owner, v);
    assert(is_down_notice(v, l[0]));
}

/// A flow that waits for the reply of a flow that goes is woken with the
/// notice of that.
pub proof fn askers_are_told(s: SharedState)
    requires
        s.pending.len() > 0,
        s.pending.last().stage is Askers,
        s.pending.last().stage->Askers_0.len() > 0,
    ensures
        ({
            let p = s.pending.last();
            let l = p.stage->Askers_0;
            let asker = l[0];
            let k = asker.raw as u128;
            let f = s.flows[k];
            let b = popped_off(s);
            let rest = PendingState { stage: StageState::Askers(l.drop_first()), ..p };
            let r = SharedState { pending: b.pending.push(rest), ..b };
            let t = exit_step(s);
            &&& s.boxes.contains_key(k) ==> t.boxes[k].parked is None && t.boxes[k].queue
                == s.boxes[k].queue
            &&& s.boxes.contains_key(k) && s.boxes[k].parked == Some(asker)
                && s.flows.contains_key(k) && f.id == asker && f.last_receive_dest is Some
                ==> exists|v: Value| #[trigger]
                is_exit_notice(v, p.flow.id, p.reason) && woke_with(
                    r,
                    t,
                    None,
                    asker,
                    f.last_receive_dest->Some_0,
                    v,
                )
            &&& s.boxes.contains_key(k) && s.boxes[k].parked is None ==> t.flows == s.flows
                && t.pending == r.pending
            &&& !s.boxes.contains_key(k) ==> t == r
        }),
{
    reveal(exit_step);
    let p = s.pending.last();
    let l = p.stage->Askers_0;
    let k = l[0].raw as u128;
    let b = popped_off(s);
    let v = exit_hop(p.flow.id, p.reason);
    let r = resting(b, p, StageState::Askers(l.drop_first()));
    if s.boxes.contains_key(k) {
        if let Some(id) = s.boxes[k].parked {
            let u = SharedState {
                boxes: r.boxes.insert(k, crate::scheduler::mailbox::unparked(r.boxes[k])),
                ..r
            };
            lemma_woken(u, None, id, v);
        }
    }
    assert(is_exit_notice(v, p.flow.id, p.reason));
}

/// A flow that is through leaves its outcome for the host, and for its
/// supervisor if it has one, and is counted.
pub proof fn outcomes_reach_the_supervisor(s: SharedState)
    requires
        s.pending.len() > 0,
        s.pending.last().stage is Peers,
        s.pending.last().stage->Peers_0.len() == 0,
    ensures
        ({
            let p = s.pending.last();
            let t = exit_step(s);
            &&& t.pending == s.pending.drop_last()
            &&& t.done == s.done.push((p.flow.id, p.outcome))
            &&& p.flow.supervisor is None ==> t.exits == s.exits
            &&& p.flow.supervisor is Some ==> {
                &&& t.exits.len() == s.exits.len() + 1
                &&& t.exits.drop_last() == s.exits
                &&& t.exits.last().supervisor == p.flow.supervisor->Some_0
                &&& t.exits.last().id == p.flow.id
                &&& t.exits.last().outcome == p.outcome
                &&& t.exits.last().restart == p.flow.restart_policy
            }
            &&& p.outcome is Completed ==> t.metrics.processes_completed
                == s.metrics.processes_completed.wrapping_add(1) && t.metrics.processes_failed
                == s.metrics.processes_failed
            &&& p.outcome is Failed ==> t.metrics.processes_failed
                == s.metrics.processes_failed.wrapping_add(1) && t.metrics.processes_completed
                == s.metrics.processes_completed
            &&& t.flows == s.flows
            &&& t.boxes == s.boxes
            &&& t.kills == s.kills
        }),
{
    reveal(exit_step);
    let t = exit_step(s);
    if s.pending.last().flow.supervisor is Some {
        assert(t.exits.drop_last() =~= s.exits);
    }
}

/// A flow that begins to go is unmarked, its inbox takes nothing more, and
/// whom it has to tell are the flows that wait for a reply of it.
pub proof fn a_flow_begins_to_go(s: SharedState)
    requires
        s.pending.len() > 0,
        s.pending.last().stage is Begin,
        s.pending.last().flow.id != host_id(),
        s.asks.waits.dom().finite(),
        ids_only(s.asks.waits),
    ensures
        ({
            let p = s.pending.last();
            let id = p.flow.id;
            let k = id.raw as u128;
            let t = exit_step(s);
            &&& t.kills == s.kills.remove(k)
            &&& t.traps == s.traps.remove(k)
            &&& t.awaits.waits == s.awaits.waits.remove(k)
            &&& s.boxes.contains_key(k) ==> t.boxes == s.boxes.insert(k, t.boxes[k])
                && t.boxes[k].closed && t.boxes[k].waiting.len() == 0
            &&& t.pending.last().flow == p.flow
            &&& t.pending.last().outcome == p.outcome
            &&& t.pending.last().reason == p.reason
            &&& t.pending.last().stage is Askers
            &&& t.pending.last().stage->Askers_0.no_duplicates()
            &&& forall|a: FlowId| #[trigger]
                t.pending.last().stage->Askers_0.contains(a) <==> a != id
                    && s.asks.waits.contains_key(a.raw as u128) && s.asks.waits[a.raw as u128].target
                    == id
            &&& forall|a: u128| #[trigger]
                t.asks.waits.contains_key(a) <==> a != k && s.asks.waits.contains_key(a)
                    && s.asks.waits[a].target != id
            &&& forall|i: int|
                0 <= i < s.boxes[k].waiting.len() && s.boxes.contains_key(k) ==> !t.flows.contains_key(
                    (#[trigger] s.boxes[k].waiting[i]).0.raw as u128,
                ) && !t.sends.contains_key(s.boxes[k].waiting[i].0.raw as u128)
        }),
{
    reveal(exit_step);
    let p = s.pending.last();
    let id = p.flow.id;
    let k = id.raw as u128;
    let b = popped_off(s);
    let u = unmarked(b, id);
    let t = exit_step(s);
    if s.boxes.contains_key(k) {
        let m = u.boxes[k];
        let senders = waiting_flows(m.waiting);
        let c = SharedState {
            boxes: u.boxes.insert(
                k,
                crate::scheduler::mailbox::MailboxState {
                    closed: true,
                    waiting: Seq::empty(),
                    ..m
                },
            ),
            ..u
        };
        lemma_stranded(c, id, senders, senders.len());
        assert(t.boxes =~= s.boxes.insert(k, t.boxes[k]));
        assert forall|i: int| 0 <= i < m.waiting.len() implies !t.flows.contains_key(
            (#[trigger] m.waiting[i]).0.raw as u128,
        ) && !t.sends.contains_key(m.waiting[i].0.raw as u128) by {
            assert(senders[i] == m.waiting[i].0);
        }
    }
    let v = inbox_closed(u, id);
    assert(v.asks == u.asks);
    crate::scheduler::waits::waiters_are_taken_once(v.asks, id);
    assert forall|a: FlowId| #[trigger]
        t.pending.last().stage->Askers_0.contains(a) <==> a != id && s.asks.waits.contains_key(
            a.raw as u128,
        ) && s.asks.waits[a.raw as u128].target == id by {
        assert(crate::scheduler::waits::waiters_of(v.asks, id).contains(a)
            <==> crate::scheduler::waits::ask_target(v.asks, a) == Some(id));
        assert(a != id ==> a.raw != id.raw);
    }
}

/// A sender that waited at the inbox of a flow that goes fails with it.
pub proof fn waiting_senders_fail(s: SharedState, target: FlowId, senders: Seq<FlowId>, n: nat, i: int)
    requires
        0 <= i < n <= senders.len(),
        senders.no_duplicates(),
        s.flows.contains_key(senders[i].raw as u128),
    ensures
        exists|q: int|
            {
                let p = #[trigger] stranded(s, target, senders, n).pending[q];
                &&& s.pending.len() <= q < stranded(s, target, senders, n).pending.len()
                &&& p.flow == s.flows[senders[i].raw as u128]
                &&& p.reason is Fault
                &&& p.stage is Begin
                &&& p.outcome matches FlowOutcome::Failed(why) && *why == Failure::TargetExited(
                    target,
                )
            },
    decreases n,
{
    let c = stranded(s, target, senders, (n - 1) as nat);
    let t = stranded(s, target, senders, n);
    lemma_stranded(s, target, senders, (n - 1) as nat);
    if i == n - 1 {
        lemma_stranded_keeps(s, target, senders, (n - 1) as nat, senders[i]);
        assert(t.pending.last().flow == s.flows[senders[i].raw as u128]);
        assert(t.pending[t.pending.len() - 1].stage is Begin);
    } else {
        waiting_senders_fail(s, target, senders, (n - 1) as nat, i);
        let q = choose|q: int|
            {
                let p = #[trigger] c.pending[q];
                &&& s.pending.len() <= q < c.pending.len()
                &&& p.flow == s.flows[senders[i].raw as u128]
                &&& p.reason is Fault
                &&& p.stage is Begin
                &&& p.outcome matches FlowOutcome::Failed(why) && *why == Failure::TargetExited(
                    target,
                )
            };
        assert(t.pending[q] == c.pending[q]);
    }
}

proof fn lemma_stranded_keeps(
    s: SharedState,
    target: FlowId,
    senders: Seq<FlowId>,
    n: nat,
    other: FlowId,
)
    requires
        n <= senders.len(),
        forall|j: int| 0 <= j < n ==> senders[j] != other,
        s.flows.contains_key(other.raw as u128),
    ensures
        stranded(s, target, senders, n).flows.contains_key(other.raw as u128),
        stranded(s, target, senders, n).flows[other.raw as u128] == s.flows[other.raw as u128],
    decreases n,
{
    if n > 0 {
        lemma_stranded_keeps(s, target, senders, (n - 1) as nat, other);
        assert(senders[n - 1].raw != other.raw);
    }
}

proof fn lemma_stranded(s: SharedState, target: FlowId, senders: Seq<FlowId>, n: nat)
    requires
        n <= senders.len(),
    ensures
        ({
            let t = stranded(s, target, senders, n);
            &&& t.boxes == s.boxes
            &&& t.kills == s.kills
            &&& t.traps == s.traps
            &&& t.links == s.links
            &&& t.asks == s.asks
            &&& t.awaits == s.awaits
            &&& t.pending.len() >= s.pending.len()
            &&& forall|i: int| 0 <= i < s.pending.len() ==> t.pending[i] == #[trigger] s.pending[i]
            &&& forall|i: int|
                s.pending.len() <= i < t.pending.len() ==> (#[trigger] t.pending[i]).stage is Begin
                    && !(t.pending[i].reason is Normal)
            &&& forall|i: int|
                0 <= i < n ==> !t.flows.contains_key((#[trigger] senders[i]).raw as u128)
                    && !t.sends.contains_key(senders[i].raw as u128)
        }),
    decreases n,
{
    if n > 0 {
        lemma_stranded(s, target, senders, (n - 1) as nat);
        let c = stranded(s, target, senders, (n - 1) as nat);
        let t = stranded(s, target, senders, n);
        assert forall|i: int| 0 <= i < s.pending.len() implies t.pending[i]
            == #[trigger] s.pending[i] by {
            assert(c.pending[i] == s.pending[i]);
        }
    }
}

/// When a flow leaves its tables, whatever it held or was the target of is
/// gone, and whom it has to tell are those that watched it.
pub proof fn a_flow_leaves_its_tables(s: SharedState)
    requires
        s.pending.len() > 0,
        s.pending.last().stage is Askers,
        s.pending.last().stage->Askers_0.len() == 0,
        s.monitors.monitors.dom().finite(),
        ids_only(s.monitors.monitors),
    ensures
        ({
            let p = s.pending.last();
            let id = p.flow.id;
            let k = id.raw as u128;
            let t = exit_step(s);
            let l = t.pending.last().stage->Downs_0;
            &&& t.boxes == s.boxes.remove(k)
            &&& s.limit.live > 0 ==> t.limit.live == s.limit.live - 1
            &&& p.flow.quota.mem_used <= s.memory.used ==> t.memory.used == s.memory.used
                - p.flow.quota.mem_used
            &&& t.flows == s.flows
            &&& t.caps.cells == s.caps.cells.remove(k)
            &&& forall|x: Seq<char>| #[trigger]
                t.names.contains_key(x) <==> s.names.contains_key(x) && s.names[x].flow != id
            &&& forall|x: Seq<char>| #[trigger] t.names.contains_key(x) ==> t.names[x] == s.names[x]
            &&& forall|x: u128| #[trigger]
                t.monitors.monitors.contains_key(x) <==> s.monitors.monitors.contains_key(x)
                    && s.monitors.monitors[x].owner != id && s.monitors.monitors[x].target != id
            &&& t.pending.len() == s.pending.len()
            &&& t.pending.drop_last() == s.pending.drop_last()
            &&& t.pending.last().flow == p.flow
            &&& t.pending.last().outcome == p.outcome
            &&& t.pending.last().reason == p.reason
            &&& t.pending.last().stage is Downs
            &&& l.no_duplicates()
            &&& forall|e: DownEvent| #[trigger]
                l.contains(e) <==> {
                    let x = e.monitor.raw as u128;
                    &&& s.monitors.monitors.contains_key(x)
                    &&& s.monitors.monitors[x].owner == e.owner
                    &&& s.monitors.monitors[x].target == id
                    &&& e.owner != id
                    &&& e.target == id
                    &&& e.reason == p.reason
                }
        }),
{
    reveal(exit_step);
    let p = s.pending.last();
    let id = p.flow.id;
    let t = exit_step(s);
    let o = crate::scheduler::monitor::owner_removed(s.monitors, id);
    assert(o.monitors.dom().subset_of(s.monitors.monitors.dom()));
    crate::scheduler::monitor::monitors_fire_once(o, id, p.reason);
    let l = t.pending.last().stage->Downs_0;
    assert(l == crate::scheduler::monitor::downs_of(o, id, p.reason));
    assert forall|e: DownEvent| #[trigger] l.contains(e) <==> {
        let x = e.monitor.raw as u128;
        &&& s.monitors.monitors.contains_key(x)
        &&& s.monitors.monitors[x].owner == e.owner
        &&& s.monitors.monitors[x].target == id
        &&& e.owner != id
        &&& e.target == id
        &&& e.reason == p.reason
    } by {
        assert(l.contains(e) <==> crate::scheduler::monitor::is_down(o, e, id, p.reason));
    }
    assert(t.pending.drop_last() =~= s.pending.drop_last());
}

/// When a flow leaves its links, whom it has to tell are those that it was
/// linked with, at either end.
pub proof fn a_flow_leaves_its_links(s: SharedState)
    requires
        s.pending.len() > 0,
        s.pending.last().stage is Downs,
        s.pending.last().stage->Downs_0.len() == 0,
        s.links.links.dom().finite(),
        ids_only(s.links.links),
    ensures
        ({
            let p = s.pending.last();
            let id = p.flow.id;
            let t = exit_step(s);
            let l = t.pending.last().stage->Peers_0;
            &&& forall|x: u128| #[trigger]
                t.links.links.contains_key(x) <==> s.links.links.contains_key(x)
                    && s.links.links[x].a != id && s.links.links[x].b != id
            &&& forall|x: u128| #[trigger]
                t.links.links.contains_key(x) ==> t.links.links[x] == s.links.links[x]
            &&& t.pending.len() == s.pending.len()
            &&& t.pending.drop_last() == s.pending.drop_last()
            &&& t.pending.last().flow == p.flow
            &&& t.pending.last().outcome == p.outcome
            &&& t.pending.last().reason == p.reason
            &&& t.pending.last().stage is Peers
            &&& l.no_duplicates()
            &&& forall|n: LinkId, peer: FlowId| #[trigger]
                l.contains((n, peer)) <==> {
                    let x = n.raw as u128;
                    &&& s.links.links.contains_key(x)
                    &&& (s.links.links[x].a == id && s.links.links[x].b == peer) || (
                    s.links.links[x].a != id && s.links.links[x].b == id && s.links.links[x].a
                        == peer)
                }
            &&& t.flows == s.flows
            &&& t.boxes == s.boxes
            &&& t.kills == s.kills
            &&& t.traps == s.traps
        }),
{
    reveal(exit_step);
    let p = s.pending.last();
    let id = p.flow.id;
    let t = exit_step(s);
    links_are_reported_once(s.links, id);
    let l = t.pending.last().stage->Peers_0;
    assert(l == crate::scheduler::link::peers_of(s.links, id));
    assert forall|n: LinkId, peer: FlowId| #[trigger] l.contains((n, peer)) <==> {
        let x = n.raw as u128;
        &&& s.links.links.contains_key(x)
        &&& (s.links.links[x].a == id && s.links.links[x].b == peer) || (s.links.links[x].a != id
            && s.links.links[x].b == id && s.links.links[x].a == peer)
    } by {
        assert(l.contains((n, peer)) <==> crate::scheduler::link::peer_by(s.links, n, id) == Some(
            peer,
        ));
    }
    assert(t.pending.drop_last() =~= s.pending.drop_last());
}

/// A normal exit goes through the linked flows that do not trap exits and
/// leaves each of them as it was: neither marked nor on its way out.
pub proof fn a_normal_exit_leaves_linked_flows_alone(s: SharedState)
    requires
        s.pending.len() > 0,
        s.pending.last().stage is Peers,
        s.pending.last().reason is Normal,
        forall|i: int|
            0 <= i < s.pending.last().stage->Peers_0.len() ==> !s.traps.contains_key(
                (#[trigger] s.pending.last().stage->Peers_0[i]).1.raw as u128,
            ),
    ensures
        ({
            let p = s.pending.last();
            let t = exits_run(s, p.stage->Peers_0.len() + 1);
            &&& t.kills == s.kills
            &&& t.boxes == s.boxes
            &&& t.flows == s.flows
            &&& t.pending == s.pending.drop_last()
            &&& t.done == s.done.push((p.flow.id, p.outcome))
        }),
    decreases s.pending.last().stage->Peers_0.len(),
{
    let p = s.pending.last();
    let l = p.stage->Peers_0;
    let u = exit_step(s);
    if l.len() == 0 {
        outcomes_reach_the_supervisor(s);
        assert(exits_run(u, 0) == u);
        assert(exits_run(s, 1) == exits_run(u, 0));
    } else {
        linked_flows_follow_an_abnormal_exit(s);
        assert(!s.traps.contains_key(l[0].1.raw as u128));
        assert(u.pending.drop_last() =~= s.pending.drop_last());
        assert(u.pending.last().stage->Peers_0 == l.drop_first());
        assert forall|i: int| 0 <= i < l.drop_first().len() implies !u.traps.contains_key(
            (#[trigger] u.pending.last().stage->Peers_0[i]).1.raw as u128,
        ) by {
            assert(l.drop_first()[i] == l[i + 1]);
        }
        a_normal_exit_leaves_linked_flows_alone(u);
        assert(exits_run(s, l.len() + 1) == exits_run(u, l.len()));
    }
}

/// Flow `x` is marked to be killed for a link, is gone, or is going.
spec fn doomed(s: SharedState, x: FlowId) -> bool {
    let k = x.raw as u128;
    ||| s.kills.contains_key(k) && s.kills[k] is Link
    ||| !s.boxes.contains_key(k)
    ||| exists|q: int|
        0 <= q < s.pending.len() && (#[trigger] s.pending[q]).flow.id == x
            && s.pending[q].stage is Askers
}

/// Flow `id` goes out for `reason`, and flow `x` is among those that it has
/// yet to tell, by link `n`.
spec fn has_to_tell(s: SharedState, q: int, id: FlowId, n: LinkId, x: FlowId) -> bool {
    let p = s.pending[q];
    let k = n.raw as u128;
    &&& 0 <= q < s.pending.len()
    &&& p.flow.id == id
    &&& !(p.reason is Normal)
    &&& p.stage is Peers ==> p.stage->Peers_0.contains((n, x))
    &&& !(p.stage is Peers) ==> is_link(s, n, id, x)
}

/// Link `n` joins these flows.
pub open spec fn is_link(s: SharedState, n: LinkId, id: FlowId, x: FlowId) -> bool {
    let k = n.raw as u128;
    &&& s.links.links.contains_key(k)
    &&& (s.links.links[k].a == id && s.links.links[k].b == x) || (s.links.links[k].a == x
        && s.links.links[k].b == id)
}

/// Flows that left their tables have no inbox.
pub open spec fn leavers_have_no_inbox(s: SharedState) -> bool {
    forall|q: int|
        0 <= q < s.pending.len() && ((#[trigger] s.pending[q]).stage is Downs
            || s.pending[q].stage is Peers) ==> !s.boxes.contains_key(
            s.pending[q].flow.id.raw as u128,
        )
}

/// What a step of the stack leaves alone: the stack below the top, the marks
/// of other flows, and the absence of inboxes and trap flags.
spec fn steps_on(s: SharedState, t: SharedState) -> bool {
    let p = s.pending.last();
    let n = s.pending.len() - 1;
    &&& t.pending.len() >= n
    &&& forall|i: int| 0 <= i < n ==> t.pending[i] == #[trigger] s.pending[i]
    &&& t.boxes.dom().subset_of(s.boxes.dom())
    &&& t.traps.dom().subset_of(s.traps.dom())
    &&& t.links.links.dom().subset_of(s.links.links.dom())
    &&& forall|k: u128|
        k != p.flow.id.raw as u128 && s.kills.contains_key(k) && s.kills[k] is Link
            ==> #[trigger] t.kills.contains_key(k) && t.kills[k] is Link
    &&& forall|k: u128|
        k != p.flow.id.raw as u128 && s.kills.contains_key(k) ==> #[trigger] t.kills.contains_key(k)
    &&& forall|k: u128| #[trigger]
        t.links.links.contains_key(k) ==> t.links.links[k] == s.links.links[k]
    &&& forall|i: int|
        n <= i < t.pending.len() && !((#[trigger] t.pending[i]).stage is Begin)
            ==> t.pending[i].flow == p.flow && t.pending[i].reason == p.reason
    &&& forall|i: int|
        n <= i < t.pending.len() && (#[trigger] t.pending[i]).stage is Begin
            ==> !(t.pending[i].reason is Normal)
    &&& forall|i: int|
        n <= i < t.pending.len() && ((#[trigger] t.pending[i]).stage is Downs
            || t.pending[i].stage is Peers) ==> p.stage is Downs || p.stage is Peers
            || !t.boxes.contains_key(p.flow.id.raw as u128)
}

proof fn lemma_killed_out(s: SharedState, id: FlowId)
    ensures
        ({
            let t = peer_taken(s, id);
            &&& t.boxes.dom() == s.boxes.dom()
            &&& t.traps == s.traps
            &&& t.links == s.links
            &&& t.kills == (if s.boxes.contains_key(id.raw as u128) {
                s.kills.insert(id.raw as u128, FlowExitReason::Link)
            } else {
                s.kills
            })
            &&& t.pending == s.pending || (t.pending.len() == s.pending.len() + 1
                && t.pending.drop_last() == s.pending && t.pending.last().stage is Begin
                && !(t.pending.last().reason is Normal))
        }),
{
    let t = peer_taken(s, id);
    let k = id.raw as u128;
    if s.boxes.contains_key(k) {
        assert(s.boxes.insert(k, crate::scheduler::mailbox::unparked(s.boxes[k])).dom()
            =~= s.boxes.dom());
        assert(t.boxes.dom() =~= s.boxes.dom());
        if t.pending.len() != s.pending.len() {
            assert(t.pending.drop_last() =~= s.pending);
        }
    }
}

proof fn lemma_steps_on(s: SharedState)
    requires
        s.pending.len() > 0,
    ensures
        steps_on(s, exit_step(s)),
        ({
            let p = s.pending.last();
            let t = exit_step(s);
            let k = p.flow.id.raw as u128;
            let n = s.pending.len() - 1;
            &&& p.stage is Begin && p.flow.id != host_id() ==> t.pending.len() > 0
                && t.pending.last().flow == p.flow && t.pending.last().reason == p.reason
                && t.pending.last().stage is Askers && t.links == s.links
            &&& p.stage is Askers && p.stage->Askers_0.len() > 0 ==> t.pending.len() > n
                && t.pending[n].flow == p.flow && t.pending[n].reason == p.reason
                && t.pending[n].stage is Askers && t.links == s.links && t.kills == s.kills
            &&& p.stage is Downs && p.stage->Downs_0.len() > 0 ==> t.pending.len() > n
                && t.pending[n].flow == p.flow && t.pending[n].reason == p.reason
                && t.pending[n].stage is Downs && t.links == s.links && t.kills == s.kills
            &&& p.stage is Askers && p.stage->Askers_0.len() == 0 ==> t.pending.len() == n + 1
                && t.pending[n].flow == p.flow && t.pending[n].reason == p.reason
                && t.pending[n].stage is Downs && t.links == s.links && t.kills == s.kills
                && !t.boxes.contains_key(k)
        }),
{
    reveal(exit_step);
    let p = s.pending.last();
    let b = popped_off(s);
    let t = exit_step(s);
    match p.stage {
        StageState::Begin => {
            if p.flow.id != host_id() {
                let id = p.flow.id;
                let k = id.raw as u128;
                let u = unmarked(b, id);
                if u.boxes.contains_key(k) {
                    let m = u.boxes[k];
                    let senders = waiting_flows(m.waiting);
                    let c = SharedState {
                        boxes: u.boxes.insert(
                            k,
                            crate::scheduler::mailbox::MailboxState {
                                closed: true,
                                waiting: Seq::empty(),
                                ..m
                            },
                        ),
                        ..u
                    };
                    lemma_stranded(c, id, senders, senders.len());
                    assert(c.boxes.dom() =~= s.boxes.dom());
                    let v = stranded(c, id, senders, senders.len());
                    assert forall|i: int| 0 <= i < b.pending.len() implies t.pending[i]
                        == #[trigger] s.pending[i] by {
                        assert(c.pending[i] == b.pending[i]);
                        assert(v.pending[i] == c.pending[i]);
                    }
                }
            }
        },
        StageState::Askers(l) => {
            if l.len() > 0 {
                let r = resting(b, p, StageState::Askers(l.drop_first()));
                let v = exit_hop(p.flow.id, p.reason);
                let k = l[0].raw as u128;
                if r.boxes.contains_key(k) {
                    let u = SharedState {
                        boxes: r.boxes.insert(
                            k,
                            crate::scheduler::mailbox::unparked(r.boxes[k]),
                        ),
                        ..r
                    };
                    assert(u.boxes.dom() =~= s.boxes.dom());
                    if let Some(id) = r.boxes[k].parked {
                        lemma_woken(u, None, id, v);
                        lemma_top_kept(b, p, StageState::Askers(l.drop_first()), t);
                    }
                }
            }
        },
        StageState::Downs(l) => {
            if l.len() > 0 {
                let r = resting(b, p, StageState::Downs(l.drop_first()));
                let v = crate::scheduler::finalize::down_hop(l[0]);
                lemma_hop(r, l[0].owner, v);
                lemma_top_kept(b, p, StageState::Downs(l.drop_first()), t);
            }
        },
        StageState::Peers(l) => {
            if l.len() > 0 {
                let rest = StageState::Peers(l.drop_first());
                let r = resting(b, p, rest);
                lemma_hop(r, l[0].1, exit_hop(p.flow.id, p.reason));
                lemma_killed_out(b, l[0].1);
                if s.traps.contains_key(l[0].1.raw as u128) {
                    lemma_top_kept(b, p, rest, t);
                } else if !(p.reason is Normal) {
                    let v = peer_taken(b, l[0].1);
                    assert forall|i: int| 0 <= i < b.pending.len() implies t.pending[i]
                        == #[trigger] s.pending[i] by {
                        if v.pending.len() != b.pending.len() {
                            assert(v.pending.drop_last()[i] == b.pending[i]);
                        }
                    }
                }
            }
        },
    }
}

proof fn lemma_hop(s: SharedState, owner: FlowId, v: Value)
    ensures
        ({
            let t = system_hop(s, owner, v);
            &&& t.boxes.dom() == s.boxes.dom()
            &&& t.kills == s.kills
            &&& t.links == s.links
            &&& t.traps == s.traps
            &&& t.pending == s.pending || (t.pending.len() == s.pending.len() + 1
                && t.pending.drop_last() == s.pending && t.pending.last().stage is Begin
                && !(t.pending.last().reason is Normal))
        }),
{
    let k = owner.raw as u128;
    if s.boxes.contains_key(k) {
        let (n, d) = crate::scheduler::mailbox::system_pushed(s.boxes[k], v);
        let u = SharedState { boxes: s.boxes.insert(k, n), ..s };
        assert(u.boxes.dom() =~= s.boxes.dom());
        if let crate::scheduler::mailbox::Delivery::Handoff(id) = d {
            let x = SharedState { asks: crate::scheduler::waits::ask_removed(u.asks, id), ..u };
            lemma_woken(x, None, id, v);
        }
    }
}

proof fn lemma_top_kept(b: SharedState, p: PendingState, stage: StageState, t: SharedState)
    requires
        ({
            let r = resting(b, p, stage);
            t.pending == r.pending || (t.pending.len() == r.pending.len() + 1
                && t.pending.drop_last() == r.pending)
        }),
    ensures
        t.pending.len() > b.pending.len(),
        t.pending[b.pending.len() as int] == (PendingState { stage, ..p }),
        forall|i: int| 0 <= i < b.pending.len() ==> t.pending[i] == #[trigger] b.pending[i],
{
    let r = resting(b, p, stage);
    assert forall|i: int| 0 <= i < r.pending.len() implies t.pending[i] == #[trigger] r.pending[i] by {
        if t.pending != r.pending {
            assert(t.pending.drop_last()[i] == r.pending[i]);
        }
    }
    assert forall|i: int| 0 <= i < b.pending.len() implies t.pending[i] == #[trigger] b.pending[i] by {
        assert(r.pending[i] == b.pending[i]);
    }
    assert(r.pending[b.pending.len() as int] == (PendingState { stage, ..p }));
}

proof fn lemma_doomed_stays(s: SharedState, x: FlowId)
    requires
        s.pending.len() > 0,
        doomed(s, x),
        x != host_id(),
    ensures
        doomed(exit_step(s), x),
{
    lemma_steps_on(s);
    let t = exit_step(s);
    let p = s.pending.last();
    let k = x.raw as u128;
    let top = s.pending.len() - 1;
    if !s.boxes.contains_key(k) {
        assert(!t.boxes.dom().contains(k));
    } else if s.kills.contains_key(k) && s.kills[k] is Link {
        if p.flow.id == x {
            if p.stage is Begin {
                assert(t.pending[t.pending.len() - 1].stage is Askers);
            } else {
                lemma_kills_stay(s, k);
            }
        } else {
            assert(p.flow.id.raw != x.raw);
            assert(t.kills.contains_key(k));
        }
    } else {
        let q = choose|q: int|
            0 <= q < s.pending.len() && (#[trigger] s.pending[q]).flow.id == x
                && s.pending[q].stage is Askers;
        if q < top {
            assert(t.pending[q] == s.pending[q]);
        } else if p.stage->Askers_0.len() > 0 {
            assert(t.pending[top].stage is Askers);
        }
    }
}

proof fn lemma_kills_stay(s: SharedState, k: u128)
    requires
        s.pending.len() > 0,
        !(s.pending.last().stage is Begin),
        s.kills.contains_key(k),
        s.kills[k] is Link,
    ensures
        exit_step(s).kills.contains_key(k),
        exit_step(s).kills[k] is Link,
{
    lemma_steps_on(s);
    reveal(exit_step);
    let p = s.pending.last();
    let b = popped_off(s);
    match p.stage {
        StageState::Peers(l) => {
            if l.len() > 0 {
                let r = resting(b, p, StageState::Peers(l.drop_first()));
                lemma_hop(r, l[0].1, exit_hop(p.flow.id, p.reason));
                lemma_killed_out(b, l[0].1);
            }
        },
        _ => {},
    }
}

spec fn follows(s: SharedState, id: FlowId, n: LinkId, x: FlowId) -> bool {
    doomed(s, x) || exists|q: int| #[trigger] has_to_tell(s, q, id, n, x)
}

proof fn lemma_peers_step(s: SharedState, n: LinkId, x: FlowId)
    requires
        s.pending.len() > 0,
        s.pending.last().stage is Peers,
        !(s.pending.last().reason is Normal),
        s.pending.last().stage->Peers_0.contains((n, x)),
        !s.traps.contains_key(x.raw as u128),
    ensures
        follows(exit_step(s), s.pending.last().flow.id, n, x),
{
    let p = s.pending.last();
    let id = p.flow.id;
    let l = p.stage->Peers_0;
    let t = exit_step(s);
    let b = popped_off(s);
    let rest = StageState::Peers(l.drop_first());
    let i = l.index_of((n, x));
    linked_flows_follow_an_abnormal_exit(s);
    lemma_steps_on(s);
    let peer = l[0].1;
    if peer == x {
        if s.boxes.contains_key(x.raw as u128) {
            assert(t.kills.contains_key(x.raw as u128));
        }
        assert(doomed(t, x));
    } else {
        assert(i > 0);
        assert(l.drop_first()[i - 1] == (n, x));
        assert(l.drop_first().contains((n, x)));
        reveal(exit_step);
        if s.traps.contains_key(peer.raw as u128) {
            let r = resting(b, p, rest);
            lemma_hop(r, peer, exit_hop(p.flow.id, p.reason));
            lemma_top_kept(b, p, rest, t);
            assert(has_to_tell(t, b.pending.len() as int, id, n, x));
        } else {
            assert(t.pending.last() == PendingState { stage: rest, ..p });
            assert(has_to_tell(t, t.pending.len() - 1, id, n, x));
        }
    }
}

/// Whenever flow `id` is on its way out, that is abnormal.
pub open spec fn goes_abnormally(s: SharedState, id: FlowId) -> bool {
    forall|q: int|
        0 <= q < s.pending.len() && (#[trigger] s.pending[q]).flow.id == id ==> !(
        s.pending[q].reason is Normal)
}

/// A link goes only when one of its ends leaves its links.
proof fn lemma_links_go(s: SharedState, k: u128)
    requires
        s.pending.len() > 0,
        s.links.links.contains_key(k),
        !exit_step(s).links.links.contains_key(k),
        s.links.links.dom().finite(),
        ids_only(s.links.links),
    ensures
        s.pending.last().stage is Downs,
        s.pending.last().stage->Downs_0.len() == 0,
        s.links.links[k].a == s.pending.last().flow.id || s.links.links[k].b
            == s.pending.last().flow.id,
{
    lemma_steps_on(s);
    let p = s.pending.last();
    let b = popped_off(s);
    if p.stage is Downs && p.stage->Downs_0.len() == 0 {
        a_flow_leaves_its_links(s);
    } else {
        reveal(exit_step);
        if let StageState::Peers(l) = p.stage {
            if l.len() > 0 {
                let r = resting(b, p, StageState::Peers(l.drop_first()));
                lemma_hop(r, l[0].1, exit_hop(p.flow.id, p.reason));
                lemma_killed_out(b, l[0].1);
            }
        }
    }
}

proof fn lemma_follows(s: SharedState, id: FlowId, n: LinkId, x: FlowId)
    requires
        s.pending.len() > 0,
        follows(s, id, n, x),
        x != host_id(),
        id != host_id(),
        id != x,
        !s.traps.contains_key(x.raw as u128),
        leavers_have_no_inbox(s),
        goes_abnormally(s, id),
        s.links.links.dom().finite(),
        ids_only(s.links.links),
    ensures
        follows(exit_step(s), id, n, x),
        !exit_step(s).traps.contains_key(x.raw as u128),
        leavers_have_no_inbox(exit_step(s)),
        goes_abnormally(exit_step(s), id),
        exit_step(s).links.links.dom().finite(),
        ids_only(exit_step(s).links.links),
{
    lemma_steps_on(s);
    let t = exit_step(s);
    let top = s.pending.len() - 1;
    let p = s.pending.last();
    assert(!t.traps.dom().contains(x.raw as u128));
    assert forall|k: u128| #[trigger] t.links.links.contains_key(k) implies k <= u64::MAX by {
        assert(s.links.links.dom().contains(k));
        assert(s.links.links.contains_key(k));
    }
    assert forall|q: int|
        0 <= q < t.pending.len() && ((#[trigger] t.pending[q]).stage is Downs
            || t.pending[q].stage is Peers) implies !t.boxes.contains_key(
        t.pending[q].flow.id.raw as u128,
    ) by {
        let k = t.pending[q].flow.id.raw as u128;
        if q < top {
            assert(t.pending[q] == s.pending[q]);
            assert(!s.boxes.dom().contains(k));
        } else if t.boxes.contains_key(k) {
            assert(s.pending[top].stage is Downs || s.pending[top].stage is Peers);
            assert(s.boxes.dom().contains(k));
        }
        assert(t.boxes.contains_key(k) ==> s.boxes.dom().contains(k)) by {
            if t.boxes.contains_key(k) {
                assert(t.boxes.dom().contains(k));
            }
        }
    }
    assert forall|q: int|
        0 <= q < t.pending.len() && (#[trigger] t.pending[q]).flow.id == id implies !(
    t.pending[q].reason is Normal) by {
        if q < top {
            assert(t.pending[q] == s.pending[q]);
        } else if !(t.pending[q].stage is Begin) {
            assert(s.pending[top].flow.id == id);
        }
    }
    if doomed(s, x) {
        lemma_doomed_stays(s, x);
    } else {
        let q = choose|q: int| #[trigger] has_to_tell(s, q, id, n, x);
        let k = n.raw as u128;
        if q < top {
            assert(t.pending[q] == s.pending[q]);
            if !(s.pending[q].stage is Peers) && !t.links.links.contains_key(k) {
                lemma_links_go(s, k);
                if p.flow.id == x {
                    assert(s.pending[top].stage is Downs);
                    assert(!s.boxes.contains_key(x.raw as u128));
                } else {
                    assert(p.flow.id == id);
                    assert(s.pending[top].flow.id == id);
                    a_flow_leaves_its_links(s);
                    assert(t.pending.last().stage->Peers_0.contains((n, x)));
                    assert(has_to_tell(t, t.pending.len() - 1, id, n, x));
                }
            } else {
                assert(has_to_tell(t, q, id, n, x));
            }
        } else {
            match p.stage {
                StageState::Begin => {
                    assert(has_to_tell(t, t.pending.len() - 1, id, n, x));
                },
                StageState::Askers(l) => {
                    assert(has_to_tell(t, top, id, n, x));
                },
                StageState::Downs(l) => {
                    if l.len() > 0 {
                        assert(has_to_tell(t, top, id, n, x));
                    } else {
                        a_flow_leaves_its_links(s);
                        assert(t.pending.last().stage->Peers_0.contains((n, x)));
                        assert(has_to_tell(t, t.pending.len() - 1, id, n, x));
                    }
                },
                StageState::Peers(l) => lemma_peers_step(s, n, x),
            }
        }
    }
}

proof fn lemma_follows_run(s: SharedState, steps: nat, id: FlowId, n: LinkId, x: FlowId)
    requires
        follows(s, id, n, x),
        x != host_id(),
        id != host_id(),
        id != x,
        !s.traps.contains_key(x.raw as u128),
        leavers_have_no_inbox(s),
        goes_abnormally(s, id),
        s.links.links.dom().finite(),
        ids_only(s.links.links),
    ensures
        follows(exits_run(s, steps), id, n, x),
    decreases steps,
{
    if steps > 0 && s.pending.len() > 0 {
        lemma_follows(s, id, n, x);
        lemma_follows_run(exit_step(s), (steps - 1) as nat, id, n, x);
    }
}

/// Once all exits are worked off, a flow that was linked with one that went
/// abnormally, and does not trap exits, is marked to be killed for the link
/// or is gone as well, whatever else happened meanwhile.
pub proof fn linked_flows_do_not_survive(
    s: SharedState,
    t: SharedState,
    q: int,
    n: LinkId,
    x: FlowId,
)
    requires
        settled(s, t),
        0 <= q < s.pending.len(),
        s.pending[q].stage is Begin,
        s.pending[q].flow.id != host_id(),
        s.pending[q].flow.id != x,
        x != host_id(),
        goes_abnormally(s, s.pending[q].flow.id),
        is_link(s, n, s.pending[q].flow.id, x),
        !s.traps.contains_key(x.raw as u128),
        leavers_have_no_inbox(s),
        s.links.links.dom().finite(),
        ids_only(s.links.links),
    ensures
        !t.boxes.contains_key(x.raw as u128) || (t.kills.contains_key(x.raw as u128)
            && t.kills[x.raw as u128] is Link),
{
    let id = s.pending[q].flow.id;
    assert(has_to_tell(s, q, id, n, x));
    let steps = choose|steps: nat| t == #[trigger] exits_run(s, steps);
    lemma_follows_run(s, steps, id, n, x);
}

/// Flow `x` is marked to be killed, is gone, or is going.
spec fn taken(s: SharedState, x: FlowId) -> bool {
    let k = x.raw as u128;
    ||| s.kills.contains_key(k)
    ||| !s.boxes.contains_key(k)
    ||| exists|q: int|
        0 <= q < s.pending.len() && (#[trigger] s.pending[q]).flow.id == x
            && s.pending[q].stage is Askers
}

proof fn lemma_taken_stays(s: SharedState, x: FlowId)
    requires
        s.pending.len() > 0,
        taken(s, x),
        x != host_id(),
    ensures
        taken(exit_step(s), x),
{
    lemma_steps_on(s);
    let t = exit_step(s);
    let p = s.pending.last();
    let k = x.raw as u128;
    let top = s.pending.len() - 1;
    if !s.boxes.contains_key(k) {
        assert(!t.boxes.dom().contains(k));
    } else if s.kills.contains_key(k) {
        if p.flow.id == x {
            if p.stage is Begin {
                assert(t.pending[t.pending.len() - 1].stage is Askers);
            } else {
                lemma_marks_stay(s, k);
            }
        } else {
            assert(p.flow.id.raw != x.raw);
            assert(t.kills.contains_key(k));
        }
    } else {
        let q = choose|q: int|
            0 <= q < s.pending.len() && (#[trigger] s.pending[q]).flow.id == x
                && s.pending[q].stage is Askers;
        if q < top {
            assert(t.pending[q] == s.pending[q]);
        } else if p.stage->Askers_0.len() > 0 {
            assert(t.pending[top].stage is Askers);
        }
    }
}

proof fn lemma_marks_stay(s: SharedState, k: u128)
    requires
        s.pending.len() > 0,
        !(s.pending.last().stage is Begin),
        s.kills.contains_key(k),
    ensures
        exit_step(s).kills.contains_key(k),
{
    lemma_steps_on(s);
    reveal(exit_step);
    let p = s.pending.last();
    let b = popped_off(s);
    match p.stage {
        StageState::Peers(l) => {
            if l.len() > 0 {
                let r = resting(b, p, StageState::Peers(l.drop_first()));
                lemma_hop(r, l[0].1, exit_hop(p.flow.id, p.reason));
                lemma_killed_out(b, l[0].1);
            }
        },
        _ => {},
    }
}

proof fn lemma_taken_run(s: SharedState, steps: nat, x: FlowId)
    requires
        taken(s, x),
        x != host_id(),
    ensures
        taken(exits_run(s, steps), x),
    decreases steps,
{
    if steps > 0 && s.pending.len() > 0 {
        lemma_taken_stays(s, x);
        lemma_taken_run(exit_step(s), (steps - 1) as nat, x);
    }
}

/// What a kill of flow `id` leaves to others: every other mark, and every
/// inbox.
proof fn lemma_kill_asked(s: SharedState, id: FlowId, reason: FlowExitReason, x: FlowId)
    ensures
        taken(kill_asked(s, id, reason), id),
        !s.boxes.contains_key(x.raw as u128) || s.kills.contains_key(x.raw as u128) ==> taken(
            kill_asked(s, id, reason),
            x,
        ),
{
    let t = kill_asked(s, id, reason);
    let k = id.raw as u128;
    if s.boxes.contains_key(k) {
        assert(t.kills.contains_key(k));
        assert(s.boxes.insert(k, crate::scheduler::mailbox::unparked(s.boxes[k])).dom()
            =~= s.boxes.dom());
        assert(t.boxes.dom() =~= s.boxes.dom());
    }
}

/// Siblings that are taken down are marked to be killed or gone, each of
/// them, once that is worked off.
pub proof fn siblings_are_taken_down(s: SharedState, ids: Seq<FlowId>, t: SharedState, i: int)
    requires
        all_taken_down(s, ids, t),
        0 <= i < ids.len(),
        ids[i] != host_id(),
    ensures
        !t.boxes.contains_key(ids[i].raw as u128) || t.kills.contains_key(ids[i].raw as u128),
    decreases ids.len(),
{
    let x = ids[i];
    let mid = choose|mid: SharedState|
        {
            &&& #[trigger] taken_down(mid, ids.last(), t)
            &&& all_taken_down(s, ids.drop_last(), mid)
        };
    let u = kill_asked(mid, ids.last(), FlowExitReason::Supervisor);
    if i < ids.len() - 1 {
        assert(ids.drop_last()[i] == x);
        siblings_are_taken_down(s, ids.drop_last(), mid, i);
    }
    lemma_kill_asked(mid, ids.last(), FlowExitReason::Supervisor, x);
    let steps = choose|steps: nat| t == #[trigger] exits_run(u, steps);
    lemma_taken_run(u, steps, x);
}

/// A child that cannot have its name does not stay: its supervisor expects it
/// to go, and it is marked to be killed or gone.
pub proof fn a_child_without_its_name_is_taken_down(
    a: SupState,
    s: SharedState,
    id: FlowId,
    name: Seq<char>,
    token: Result<CapId, RuntimeError>,
    b: SupState,
    t: SharedState,
    r: Result<FlowId, SpawnError>,
)
    requires
        child_named(a, s, id, name, token, b, t, r),
        r is Err,
        a.live.contains_key(id.raw as u128),
        id != host_id(),
    ensures
        b.live.contains_key(id.raw as u128),
        b.live[id.raw as u128].expected,
        b.live[id.raw as u128].spec == a.live[id.raw as u128].spec,
        !t.boxes.contains_key(id.raw as u128) || t.kills.contains_key(id.raw as u128),
{
    let (caps, c) = minted(s.caps, id, id, rights(RIGHTS_ADDRESSING), token);
    let u = SharedState { caps, ..s };
    let v = kill_asked(u, id, FlowExitReason::Supervisor);
    assert(settled(v, t));
    lemma_kill_asked(u, id, FlowExitReason::Supervisor, id);
    let steps = choose|steps: nat| t == #[trigger] exits_run(v, steps);
    lemma_taken_run(v, steps, id);
}

/// When the runtime goes down, every flow of the list leaves the table and
/// goes out for that reason.
pub proof fn shutdown_ends_waiting_flows(s: SharedState, keys: Seq<u128>, n: nat)
    requires
        n <= keys.len(),
        forall|i: int| 0 <= i < keys.len() ==> #[trigger] keys[i] <= u64::MAX,
    ensures
        ({
            let t = drained(s, keys, n);
            &&& forall|i: int| 0 <= i < n ==> !t.flows.contains_key(#[trigger] keys[i])
            &&& forall|k: u128| #[trigger]
                t.flows.contains_key(k) ==> s.flows.contains_key(k) && t.flows[k] == s.flows[k]
            &&& forall|k: u128|
                s.flows.contains_key(k) && (forall|i: int| 0 <= i < n ==> #[trigger] keys[i] != k)
                    ==> #[trigger] t.flows.contains_key(k)
            &&& t.pending.len() >= s.pending.len()
            &&& forall|q: int|
                s.pending.len() <= q < t.pending.len() ==> (#[trigger] t.pending[q]).reason
                    is Shutdown && t.pending[q].outcome is Failed && t.pending[q].stage is Begin
            &&& t.boxes == s.boxes
        }),
    decreases n,
{
    if n > 0 {
        shutdown_ends_waiting_flows(s, keys, (n - 1) as nat);
        let c = drained(s, keys, (n - 1) as nat);
        let t = drained(s, keys, n);
        assert(keys[n - 1] as u64 as u128 == keys[n - 1]);
        assert forall|k: u128|
            s.flows.contains_key(k) && (forall|i: int| 0 <= i < n ==> #[trigger] keys[i] != k)
            implies #[trigger] t.flows.contains_key(k) by {
            assert(keys[n - 1] != k);
            assert(c.flows.contains_key(k));
        }
    }
}

proof fn lemma_sender_position(w: Seq<(FlowId, Value)>, x: FlowId, from: nat)
    ensures
        match crate::scheduler::mailbox::sender_position(w, x, from) {
            Some(i) => from <= i < w.len() && w[i as int].0 == x && forall|j: int|
                from <= j < i ==> (#[trigger] w[j]).0 != x,
            None => forall|j: int| from <= j < w.len() ==> (#[trigger] w[j]).0 != x,
        },
    decreases w.len() - from,
{
    if from < w.len() && w[from as int].0 != x {
        lemma_sender_position(w, x, from + 1);
    }
}

/// A flow that is killed while it waits to send goes out at once, and its
/// message is withdrawn; the other senders keep their places.
pub proof fn killed_senders_withdraw_their_message(
    s: SharedState,
    x: FlowId,
    reason: FlowExitReason,
    i: int,
)
    requires
        s.boxes.contains_key(x.raw as u128),
        s.boxes[x.raw as u128].parked is None,
        !s.awaits.waits.contains_key(x.raw as u128),
        s.sends.contains_key(x.raw as u128),
        s.sends[x.raw as u128] != x,
        s.boxes.contains_key(s.sends[x.raw as u128].raw as u128),
        ({
            let w = s.boxes[s.sends[x.raw as u128].raw as u128].waiting;
            &&& 0 <= i < w.len()
            &&& w[i].0 == x
            &&& forall|j: int| 0 <= j < i ==> (#[trigger] w[j]).0 != x
        }),
        s.flows.contains_key(x.raw as u128),
    ensures
        ({
            let k = x.raw as u128;
            let j = s.sends[k].raw as u128;
            let t = kill_asked(s, x, reason);
            &&& t.flows == s.flows.remove(k)
            &&& t.boxes[j].waiting == s.boxes[j].waiting.remove(i)
            &&& t.boxes[j].queue == s.boxes[j].queue
            &&& t.sends == s.sends.remove(k)
            &&& t.pending.len() == s.pending.len() + 1
            &&& t.pending.last().flow == s.flows[k]
            &&& t.pending.last().reason == reason
        }),
{
    let k = x.raw as u128;
    let j = s.sends[k].raw as u128;
    assert(j != k);
    lemma_sender_position(s.boxes[j].waiting, x, 0);
    let p = crate::scheduler::mailbox::sender_position(s.boxes[j].waiting, x, 0)->Some_0;
    assert(p == i) by {
        if p < i {
            assert(s.boxes[j].waiting[p as int].0 != x);
        }
    }
}

/// The host does not go out: that is refused and noted.
pub proof fn the_host_does_not_go(s: SharedState)
    requires
        s.pending.len() > 0,
        s.pending.last().stage is Begin,
        s.pending.last().flow.id == host_id(),
    ensures
        exit_step(s).pending == s.pending.drop_last(),
        exit_step(s).faults.len() == s.faults.len() + 1,
        exit_step(s).boxes == s.boxes,
        exit_step(s).flows == s.flows,
        exit_step(s).caps == s.caps,
        exit_step(s).done == s.done,
{
    reveal(exit_step);
}

} // verus!
