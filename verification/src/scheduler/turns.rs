//! How flows get their turn: who runs next, what a turn costs, and what wakes
//! a flow that waits.

use vstd::prelude::*;

use crate::bytecode::value::{Message, Value};
use crate::idmap::{key_list_exists, sorted_keys};
use crate::scheduler::capability::{CapError, CapState};
use crate::scheduler::deliver::{delivered, DeliverStatus};
use crate::scheduler::drive::{
    answered, await_settled, driven_flow, fired, flow_started, host_sent, raises_given, refreshed,
    slice_ended, slice_length, slice_run, work_taken, Driven, SendError,
};
use crate::scheduler::exchange::{fails, got, tables_kept, values_land_in_their_register};
use crate::scheduler::failure::Failure;
use crate::scheduler::handle::{polled, OutcomeSlot};
use crate::scheduler::hops::{host_stamped, passed};
use crate::scheduler::host_await::{ticket_taken, tickets_sound};
use crate::scheduler::lifecycle::{same_but_tokens, values_arrive};
use crate::scheduler::monitor::FlowExitReason;
use crate::scheduler::process::{FlowId, FlowOutcome, FlowState};
use crate::scheduler::quota::{
    alloc_result, allocated, consumed, cpu_charged, fresh_quota, raised, refilled, topped_up,
    FlowQuota, QuotaConfig, TokenBucket, TopUp,
};
use crate::scheduler::runqueue::first_busy;
use crate::scheduler::shared::{lent, resumed, SharedState};
use crate::scheduler::supervisor::kill_asked;
use crate::scheduler::timer::{due_taken, TimerEntry, TimerPayload};
use crate::scheduler::worker::performed;
use crate::vm::result::Effect;
use crate::vm::state::{slice, VmState};

verus! {

proof fn lemma_first_busy(locals: Seq<Seq<FlowId>>, from: nat)
    ensures
        match first_busy(locals, from) {
            Some(v) => from <= v < locals.len() && locals[v].len() > 0 && forall|j: int|
                from <= j < v ==> (#[trigger] locals[j]).len() == 0,
            None => forall|j: int| from <= j < locals.len() ==> (#[trigger] locals[j]).len() == 0,
        },
    decreases locals.len() - from,
{
    if from < locals.len() && locals[from as int].len() == 0 {
        lemma_first_busy(locals, from + 1);
    }
}

/// A worker takes the oldest flow of its own queue; if that is empty the
/// oldest of the shared one; if both are, the oldest of the first worker that
/// has one. It goes without only if there is none at all. Nobody else moves.
pub proof fn workers_take_the_oldest(s: SharedState, w: usize)
    ensures
        ({
            let (t, found) = work_taken(s, w);
            let own = w < s.locals.len() && s.locals[w as int].len() > 0;
            &&& own ==> found == Some(s.locals[w as int][0]) && t.locals == s.locals.update(
                w as int,
                s.locals[w as int].drop_first(),
            ) && t.ready == s.ready
            &&& !own && s.ready.len() > 0 ==> found == Some(s.ready[0]) && t.ready
                == s.ready.drop_first() && t.locals == s.locals
            &&& !own && s.ready.len() == 0 ==> {
                ||| found is None && t == s && forall|j: int|
                    0 <= j < s.locals.len() ==> (#[trigger] s.locals[j]).len() == 0
                ||| exists|v: int|
                    {
                        &&& 0 <= v < s.locals.len()
                        &&& (#[trigger] s.locals[v]).len() > 0
                        &&& forall|j: int| 0 <= j < v ==> (#[trigger] s.locals[j]).len() == 0
                        &&& found == Some(s.locals[v][0])
                        &&& t.locals == s.locals.update(v, s.locals[v].drop_first())
                        &&& t.ready == s.ready
                        &&& t.metrics.steals == s.metrics.steals.wrapping_add(1)
                    }
            }
            &&& t.flows == s.flows
            &&& t.boxes == s.boxes
        }),
{
    lemma_first_busy(s.locals, 0);
    if let Some(v) = first_busy(s.locals, 0) {
        assert(s.locals[v].len() > 0);
    }
}

/// A flow that comes out of the table to run has the message that came early
/// in its register. One that is marked to be killed does not run: it goes out
/// for the reason of the mark.
pub proof fn marked_flows_do_not_run(s: SharedState, id: FlowId)
    ensures
        ({
            let k = id.raw as u128;
            let f = s.flows[k];
            let (t, out) = flow_started(s, id);
            let marked = s.kills.contains_key(f.id.raw as u128);
            &&& !s.flows.contains_key(k) ==> out is None && t == s
            &&& s.flows.contains_key(k) && f.pending_message is None ==> {
                &&& t.flows == s.flows.remove(k)
                &&& !marked ==> out == Some(f) && t.pending == s.pending
                &&& marked ==> {
                    &&& out is None
                    &&& t.pending.len() == s.pending.len() + 1
                    &&& t.pending.drop_last() == s.pending
                    &&& t.pending.last().flow == f
                    &&& t.pending.last().outcome is Failed
                    &&& killed_for(t.pending.last().outcome, s.kills[f.id.raw as u128])
                    &&& t.pending.last().reason == s.kills[f.id.raw as u128]
                    &&& t.pending.last().stage is Begin
                    &&& !t.kills.contains_key(f.id.raw as u128)
                }
            }
            &&& s.flows.contains_key(k) && f.pending_message is Some ==> (out matches Some(g) ==> {
                &&& !marked
                &&& f.last_receive_dest is Some
                &&& g.pending_message is None
                &&& got(f, g, f.last_receive_dest->Some_0, f.pending_message->Some_0)
            })
            &&& t.boxes == s.boxes
            &&& t.ready == s.ready
            &&& t.locals == s.locals
        }),
{
    let k = id.raw as u128;
    if s.flows.contains_key(k) {
        let f = s.flows[k];
        let (t, out) = flow_started(s, id);
        let u = crate::scheduler::shared::dropped(s, id);
        if f.pending_message is Some && f.last_receive_dest is Some {
            let g = FlowState { pending_message: None, ..f };
            values_land_in_their_register(
                u,
                g,
                f.last_receive_dest->Some_0,
                f.pending_message->Some_0,
            );
        } else if f.pending_message is None && s.kills.contains_key(f.id.raw as u128) {
            assert(t.pending.drop_last() =~= s.pending);
        }
    }
}

/// The flow of the table is runnable, last in the shared queue, with `v` in
/// its register; or it failed for want of room and left the table.
pub open spec fn resumes_with(
    s: SharedState,
    t: SharedState,
    id: FlowId,
    reg: u8,
    v: Value,
) -> bool {
    let k = id.raw as u128;
    ||| {
        &&& t.flows == s.flows.insert(k, t.flows[k])
        &&& got(s.flows[k], t.flows[k], reg, v)
        &&& t.ready == s.ready.push(id)
        &&& t.pending == s.pending
    }
    ||| {
        &&& t.flows == s.flows.remove(k)
        &&& fails(s, t, s.flows[k].id)
        &&& t.ready == s.ready
    }
}

proof fn lemma_answered(s: SharedState, id: FlowId, reg: u8, v: Value)
    requires
        s.flows.contains_key(id.raw as u128),
    ensures
        resumes_with(s, answered(s, id, reg, v), id, reg, v),
        answered(s, id, reg, v).boxes == s.boxes,
        answered(s, id, reg, v).kills == s.kills,
        answered(s, id, reg, v).timers == s.timers,
        answered(s, id, reg, v).locals == s.locals,
{
    let k = id.raw as u128;
    let f = s.flows[k];
    let u = crate::scheduler::shared::dropped(s, id);
    let t = answered(s, id, reg, v);
    values_land_in_their_register(u, f, reg, v);
    if resumed(u, f, reg, v).1 is Some {
        assert(t.flows =~= s.flows.insert(k, t.flows[k]));
    } else {
        assert(t.flows =~= s.flows.remove(k));
    }
}

/// A deadline wakes what it was set for. A sleeper is runnable again. A flow
/// that still waits in the same wait gets unit in the register of that wait;
/// its inbox is as it was, without a waiter.
pub proof fn deadlines_wake_what_they_were_set_for(
    s: SharedState,
    deadline: u64,
    id: FlowId,
    reg: u8,
    epoch: crate::scheduler::mailbox::WaitEpoch,
)
    ensures
        ({
            let t = fired(s, TimerEntry { deadline, payload: TimerPayload::WakeSleeper(id) });
            &&& t.ready == s.ready.push(id)
            &&& t == (SharedState { ready: t.ready, ..s })
        }),
        ({
            let k = id.raw as u128;
            let m = s.boxes[k];
            let t = fired(
                s,
                TimerEntry {
                    deadline,
                    payload: TimerPayload::WakeReceiver { pid: id, dest_reg: reg, epoch },
                },
            );
            &&& !s.boxes.contains_key(k) || m.epoch != epoch.count || m.parked is None ==> t == s
            &&& s.boxes.contains_key(k) && m.epoch == epoch.count && m.parked == Some(id)
                && s.flows.contains_key(k) ==> {
                &&& resumes_with(s, t, id, reg, Value::Unit)
                &&& t.boxes == s.boxes.insert(k, t.boxes[k])
                &&& t.boxes[k].parked is None
                &&& t.boxes[k].queue == m.queue
                &&& t.boxes[k].waiting == m.waiting
            }
        }),
{
    let k = id.raw as u128;
    if s.boxes.contains_key(k) && s.boxes[k].epoch == epoch.count && s.boxes[k].parked == Some(id)
        && s.flows.contains_key(k) {
        let u = SharedState {
            asks: crate::scheduler::waits::ask_removed(s.asks, id),
            ..crate::scheduler::deliver::with_box(
                s,
                id,
                crate::scheduler::mailbox::unparked(s.boxes[k]),
            )
        };
        lemma_answered(u, id, reg, Value::Unit);
    }
}

/// The host's answer goes to the flow that holds the ticket: its value into
/// the register that the flow named, a failure as the flow's own. An answer
/// with another ticket changes nothing.
pub proof fn answers_go_to_the_ticket_holder(
    s: SharedState,
    id: FlowId,
    ticket: u64,
    v: Value,
    why: Failure,
)
    requires
        tickets_sound(s.awaits),
        s.awaits.waits.dom().finite(),
    ensures
        ({
            let k = id.raw as u128;
            let (t, r) = await_settled(s, ticket, Ok(v));
            let (t2, r2) = await_settled(s, ticket, Err(why));
            let holds = s.awaits.waits.contains_key(k) && s.awaits.waits[k].ticket == ticket;
            &&& holds && s.flows.contains_key(k) ==> {
                &&& r is Ok
                &&& r2 is Ok
                &&& resumes_with(s, t, id, s.awaits.waits[k].dest_reg, v)
                &&& t.awaits.waits == s.awaits.waits.remove(k)
                &&& t2.flows == s.flows.remove(k)
                &&& fails(s, t2, s.flows[k].id)
                &&& (t2.pending.last().outcome matches FlowOutcome::Failed(x) && *x == why)
                &&& t2.awaits.waits == s.awaits.waits.remove(k)
            }
            &&& (forall|j: u128| #[trigger]
                s.awaits.waits.contains_key(j) ==> s.awaits.waits[j].ticket != ticket) ==> t == s
                && t2 == s && r is Err && r2 is Err
        }),
{
    let k = id.raw as u128;
    let keys = sorted_keys(s.awaits.waits);
    key_list_exists(s.awaits.waits);
    lemma_ticket(s.awaits.waits, keys, ticket, 0);
    let (awaits, found) = ticket_taken(s.awaits, ticket);
    if s.awaits.waits.contains_key(k) && s.awaits.waits[k].ticket == ticket
        && s.flows.contains_key(k) {
        assert(keys.contains(k));
        let j = keys.index_of(k);
        assert(s.awaits.waits[keys[j]].ticket == ticket);
        let x = crate::scheduler::host_await::ticket_key(s.awaits.waits, keys, ticket, 0)->Some_0;
        assert(s.awaits.waits.contains_key(x));
        assert(x == k);
        let u = SharedState { awaits, ..s };
        lemma_answered(u, id, s.awaits.waits[k].dest_reg, v);
        let t2 = await_settled(s, ticket, Err(why)).0;
        assert(t2.pending.drop_last() =~= s.pending);
    } else if forall|j: u128| #[trigger]
        s.awaits.waits.contains_key(j) ==> s.awaits.waits[j].ticket != ticket {
        if let Some(x) = crate::scheduler::host_await::ticket_key(
            s.awaits.waits,
            keys,
            ticket,
            0,
        ) {
            assert(s.awaits.waits.contains_key(x));
        }
    }
}

proof fn lemma_ticket(
    waits: Map<u128, crate::scheduler::host_await::ParkedHostAwait>,
    keys: Seq<u128>,
    ticket: u64,
    from: nat,
)
    ensures
        match crate::scheduler::host_await::ticket_key(waits, keys, ticket, from) {
            Some(k) => keys.contains(k) && waits[k].ticket == ticket,
            None => forall|i: int|
                from <= i < keys.len() ==> waits[#[trigger] keys[i]].ticket != ticket,
        },
    decreases keys.len() - from,
{
    if from < keys.len() && waits[keys[from as int]].ticket != ticket {
        lemma_ticket(waits, keys, ticket, from + 1);
    }
}

/// What the host sends comes from the host, cannot be replied to, and is
/// otherwise as it was written.
pub open spec fn host_message(m: Message, msg: Message, fresh: u64) -> bool {
    &&& msg.sender == 0
    &&& msg.reply_cap.raw == 0
    &&& msg.tag == m.tag
    &&& msg.request_id == (if m.request_id != 0 {
        m.request_id
    } else if fresh != 0 {
        fresh
    } else {
        1
    })
    &&& same_but_tokens(*m.payload, *msg.payload)
}

/// A message of the host is delivered to the flow that it is for, as any
/// other; the host learns when it was not.
pub proof fn host_messages_are_delivered(
    s: SharedState,
    target: FlowId,
    m: Message,
    t: SharedState,
    r: Result<(), SendError>,
)
    requires
        host_sent(s, target, Value::Message(m), t, r),
    ensures
        r is Err && tables_kept(s, t) || exists|msg: Message, u: SharedState|
            {
                let (d, status) = delivered(u, None, target, Value::Message(msg));
                &&& #[trigger] host_message(m, msg, s.host_rid)
                &&& #[trigger] tables_kept(s, u)
                &&& u.pending == s.pending
                &&& u.asks == s.asks
                &&& t == d
                &&& r is Ok <==> status is Delivered
                &&& r == Err::<(), SendError>(SendError::MailboxFull) <==> status is Full
            },
        m.request_id != 0 ==> t.host_rid == s.host_rid,
{
    let (caps, answer) = choose|caps: CapState, answer: Result<Message, CapError>|
        {
            let u = SharedState {
                caps,
                host_rid: if m.request_id == 0 {
                    s.host_rid.wrapping_add(1)
                } else {
                    s.host_rid
                },
                ..s
            };
            &&& #[trigger] host_stamped(s.caps, s.host_rid, target, m, caps, answer)
            &&& match answer {
                Err(e) => (t, r) == (u, Err::<(), SendError>(SendError::Cap(e))),
                Ok(msg) => {
                    let (x, status) = delivered(u, None, target, Value::Message(msg));
                    t == x && r == (match status {
                        DeliverStatus::Delivered => Ok::<(), SendError>(()),
                        DeliverStatus::Full => Err(SendError::MailboxFull),
                        DeliverStatus::Gone => Err(SendError::NoSuchFlow(target)),
                    })
                },
            }
        };
    let u = SharedState {
        caps,
        host_rid: if m.request_id == 0 {
            s.host_rid.wrapping_add(1)
        } else {
            s.host_rid
        },
        ..s
    };
    let body = choose|body: Result<Value, CapError>|
        {
            &&& #[trigger] passed(s.caps, None, target, *m.payload, caps, body)
            &&& answer == (match body {
                Ok(v) => Ok::<Message, CapError>(
                    Message {
                        sender: 0,
                        reply_cap: crate::bytecode::cap::cap_none(),
                        request_id: crate::scheduler::hops::sent_id(
                            m,
                            if s.host_rid == 0 {
                                1
                            } else {
                                s.host_rid
                            },
                        ),
                        tag: m.tag,
                        payload: std::sync::Arc::new(v),
                    },
                ),
                Err(e) => Err(e),
            })
        };
    let ghost inner = *m.payload;
    values_arrive(s.caps, None, target, inner, caps, body);
    if answer is Ok {
        assert(host_message(m, answer->Ok_0, s.host_rid));
        assert(tables_kept(s, u));
        lemma_delivered_rid(u, target, Value::Message(answer->Ok_0));
    }
}

proof fn lemma_delivered_rid(s: SharedState, target: FlowId, v: Value)
    ensures
        delivered(s, None, target, v).0.host_rid == s.host_rid,
{
}

/// Whoever is to be killed is marked, and goes out at once if it waits for a
/// message; one that does not wait dies when it next runs. One that is gone
/// is left alone.
pub proof fn kills_mark_and_take(s: SharedState, id: FlowId, reason: FlowExitReason)
    ensures
        ({
            let k = id.raw as u128;
            let m = s.boxes[k];
            let t = kill_asked(s, id, reason);
            &&& !s.boxes.contains_key(k) ==> t == s
            &&& s.boxes.contains_key(k) ==> {
                &&& t.kills == s.kills.insert(k, reason)
                &&& t.boxes[k].parked is None
                &&& t.boxes[k].queue == m.queue
                &&& m.parked == Some(id) && s.flows.contains_key(k) ==> {
                    &&& t.flows == s.flows.remove(k)
                    &&& t.pending.len() == s.pending.len() + 1
                    &&& t.pending.drop_last() == s.pending
                    &&& t.pending.last().flow == s.flows[k]
                    &&& t.pending.last().reason == reason
                    &&& t.pending.last().stage is Begin
                    &&& t.pending.last().outcome matches FlowOutcome::Failed(why) && *why
                        == Failure::Killed(reason)
                }
                &&& m.parked is None && !s.awaits.waits.contains_key(k) && !s.sends.contains_key(
                    k,
                ) ==> t.flows == s.flows && t.pending == s.pending
            }
        }),
{
    let t = kill_asked(s, id, reason);
    if t.pending != s.pending {
        assert(t.pending.drop_last() =~= s.pending);
    }
}

/// A bucket that is asked for a token grants it if it has one, and has one
/// less then. What time brings is in proportion to it, and never more than
/// the bucket holds.
pub proof fn buckets_fill_with_time(b: TokenBucket, now: u64)
    requires
        b.last_refill <= now,
        0 <= b.tokens <= b.capacity,
        b.refill_per_sec >= 0,
    ensures
        ({
            let r = refilled(b, now);
            let c = consumed(b, now);
            let due = (now - b.last_refill) * b.refill_per_sec / 1000;
            &&& now - b.last_refill >= 50 && due > 0 && b.tokens + due <= b.capacity ==> r.tokens
                == b.tokens + due && r.last_refill == now
            &&& now - b.last_refill >= 50 && b.tokens + due >= b.capacity && due > 0 ==> r.tokens
                == b.capacity && r.last_refill == now
            &&& now - b.last_refill < 50 || due == 0 ==> r == b
            &&& r.tokens > 0 ==> c.tokens == r.tokens - 1
            &&& r.tokens == 0 ==> c.tokens == 0
            &&& c.last_refill == r.last_refill
            &&& c.capacity == b.capacity
            &&& c.refill_per_sec == b.refill_per_sec
        }),
{
}

/// A raise raises what it names by what it says, and a flow gets every raise
/// that is meant for it.
pub proof fn raises_add_up(q: FlowQuota, n: i64, bytes: usize)
    requires
        q.cpu_budget + n <= i64::MAX,
        q.cpu_budget + n >= i64::MIN,
        q.mem_limit + bytes <= usize::MAX,
    ensures
        raised(q, TopUp::Cpu(n)).cpu_budget == q.cpu_budget + n,
        raised(q, TopUp::Cpu(n)).mem_limit == q.mem_limit,
        raised(q, TopUp::Cpu(n)).send_bucket == q.send_bucket,
        raised(q, TopUp::Mem(bytes)).mem_limit == q.mem_limit + bytes,
        raised(q, TopUp::Mem(bytes)).cpu_budget == q.cpu_budget,
        raised(q, TopUp::Mem(bytes)).mem_used == q.mem_used,
        n > 0 && q.send_bucket.tokens + n <= i64::MAX ==> raised(
            q,
            TopUp::Send(n),
        ).send_bucket.tokens == q.send_bucket.tokens + n && raised(q, TopUp::Send(n)).cpu_budget
            == q.cpu_budget,
        n <= 0 ==> raised(q, TopUp::Send(n)) == q,
{
}

/// What an allocation takes is counted, and one over the limit is refused.
pub proof fn allocations_are_counted(q: FlowQuota, bytes: usize)
    requires
        q.mem_used + bytes <= usize::MAX,
    ensures
        alloc_result(q, bytes) is Ok <==> q.mem_used + bytes <= q.mem_limit,
        alloc_result(q, bytes) is Ok ==> allocated(q, bytes).mem_used == q.mem_used + bytes,
        alloc_result(q, bytes) is Err ==> allocated(q, bytes) == q,
        allocated(q, bytes).mem_limit == q.mem_limit,
        allocated(q, bytes).cpu_budget == q.cpu_budget,
        allocated(q, bytes).send_bucket == q.send_bucket,
        allocated(q, bytes).spawn_bucket == q.spawn_bucket,
{
}

/// A flow is born with full buckets and budgets, and owes nothing.
pub proof fn flows_are_born_with_full_budgets(cfg: QuotaConfig, now: u64)
    ensures
        ({
            let q = fresh_quota(cfg, now);
            &&& q.cpu_budget == cfg.cpu_budget
            &&& q.mem_limit == cfg.mem_limit
            &&& q.mem_used == 0
            &&& q.spawn_bucket.tokens == cfg.spawn_burst
            &&& q.spawn_bucket.capacity == cfg.spawn_burst
            &&& q.spawn_bucket.refill_per_sec == cfg.spawn_per_sec
            &&& q.send_bucket.tokens == cfg.send_burst
            &&& q.send_bucket.capacity == cfg.send_burst
            &&& q.send_bucket.refill_per_sec == cfg.send_per_sec
            &&& q.spawn_bucket.last_refill == now
            &&& q.send_bucket.last_refill == now
        }),
{
}

/// The flow as it meets its effect: its machine ran, and the instructions
/// that it ran are off its budget.
pub open spec fn ran(g: FlowState, vm: VmState, e: Effect, n: u32, h: FlowState) -> bool {
    &&& !(e is CallHost || e is FloatOp) ==> h.slice_left is None
    &&& (e is CallHost || e is FloatOp) && 0 <= vm.executed - g.vm.executed <= n ==> h.slice_left
        == Some((n - (vm.executed - g.vm.executed)) as u32)
    &&& h.id == g.id
    &&& h.vm.frames == vm.frames
    &&& h.vm.chunk == vm.chunk
    &&& h.vm.next_request_id == vm.next_request_id
    &&& h.vm.executed == vm.executed
    &&& h.authority == g.authority
    &&& h.supervisor == g.supervisor
    &&& h.restart_policy == g.restart_policy
    &&& h.pending_send == g.pending_send
    &&& g.vm.executed <= vm.executed && vm.quota is Some && vm.executed - g.vm.executed
        <= i64::MAX ==> h.quota.cpu_budget == vm.quota->Some_0.cpu_budget - (vm.executed
        - g.vm.executed)
}

/// A turn of a flow that has no budget left ends it.
pub proof fn without_budget_there_is_no_turn(
    s: SharedState,
    f: FlowState,
    w: usize,
    now: u64,
    t: SharedState,
    d: Driven,
)
    requires
        slice_run(s, f, w, now, t, d),
        f.slice_left is None,
        forall|i: int| 0 <= i < s.due.len() ==> (#[trigger] s.due[i]).0 != f.id,
        f.quota.cpu_budget <= 0,
    ensures
        d is Stopped,
        fails(s, t, f.id),
{
    lemma_no_raises(f.quota, s.due, f.id);
    assert(t.pending.drop_last() =~= s.pending);
}

/// A turn: the machine of the flow runs for at most a quantum and at most its
/// budget; the instructions that it ran are charged, and what it ended with
/// is done for it, unless it cannot pay.
pub proof fn turns_are_charged(
    s: SharedState,
    f: FlowState,
    n: u32,
    w: usize,
    now: u64,
    t: SharedState,
    d: Driven,
)
    requires
        slice_run(s, f, w, now, t, d),
        f.slice_left is None,
        forall|i: int| 0 <= i < s.due.len() ==> (#[trigger] s.due[i]).0 != f.id,
        f.quota.cpu_budget > 0,
        n <= f.quota.cpu_budget,
        n <= s.config.quantum,
        n == f.quota.cpu_budget || n == s.config.quantum,
    ensures
        refreshed(s, f).vm.frames == f.vm.frames,
        refreshed(s, f).vm.chunk == f.vm.chunk,
        refreshed(s, f).quota == f.quota,
        d is Stopped && fails(s, t, f.id) || charged_turn(
            s,
            refreshed(s, f),
            n,
            slice(lent(refreshed(s, f), s.memory), n as nat),
            w,
            now,
            t,
            d,
        ),
{
    lemma_no_raises(f.quota, s.due, f.id);
    let u = raises_given(s, f.id);
    let g = refreshed(s, f);
    assert(slice_length(s, FlowState { slice_left: f.slice_left, ..g }) == Some(n));
    let (vm, e) = slice(lent(g, u.memory), n as nat);
    assert(slice_ended(u, FlowState { vm, ..g }, n, g.vm.executed, e, w, now, t, d));
    lemma_slice_ended(u, g, vm, n, e, w, now, t, d);
    if d is Stopped && fails(u, t, g.id) {
        assert(fails(s, t, f.id));
    } else {
        let (x, h) = choose|x: SharedState, h: FlowState|
            {
                &&& ran(g, vm, e, n, h)
                &&& tables_kept(u, x)
                &&& x.pending == u.pending
                &&& x.caps == u.caps
                &&& #[trigger] performed(x, h, e, w, now, t, driven_flow(d))
            };
        assert(tables_kept(s, x));
    }
}

/// The machine ran to this state and effect, and the effect was done for the
/// flow, charged, in a state that differs in accounts alone.
pub open spec fn charged_turn(
    s: SharedState,
    g: FlowState,
    n: u32,
    end: (VmState, Effect),
    w: usize,
    now: u64,
    t: SharedState,
    d: Driven,
) -> bool {
    exists|u: SharedState, h: FlowState|
        {
            &&& ran(g, end.0, end.1, n, h)
            &&& tables_kept(s, u)
            &&& u.pending == s.pending
            &&& u.caps == s.caps
            &&& #[trigger] performed(u, h, end.1, w, now, t, driven_flow(d))
        }
}

proof fn lemma_slice_ended(
    u: SharedState,
    g: FlowState,
    vm: VmState,
    n: u32,
    e: Effect,
    w: usize,
    now: u64,
    t: SharedState,
    d: Driven,
)
    requires
        slice_ended(u, FlowState { vm, ..g }, n, g.vm.executed, e, w, now, t, d),
    ensures
        d is Stopped && fails(u, t, g.id) || exists|x: SharedState, h: FlowState|
            {
                &&& ran(g, vm, e, n, h)
                &&& tables_kept(u, x)
                &&& x.pending == u.pending
                &&& x.caps == u.caps
                &&& #[trigger] performed(x, h, e, w, now, t, driven_flow(d))
            },
{
    let f = FlowState { vm, ..g };
    let x = SharedState { memory: crate::scheduler::shared::left_over(f.vm, u.memory), ..u };
    let r = crate::scheduler::shared::returned(f, f.vm);
    let cost = crate::scheduler::drive::slice_cost(g.vm.executed, f.vm.executed);
    if r.quota.cpu_budget < cost {
        assert(t.pending.drop_last() =~= u.pending);
    } else {
        let h = FlowState {
            quota: cpu_charged(r.quota, cost),
            metrics: crate::scheduler::process::FlowMetrics {
                instructions: f.vm.executed,
                ..r.metrics
            },
            slice_left: if e is CallHost || e is FloatOp {
                Some(crate::scheduler::drive::rest_of_slice(n, cost))
            } else {
                None
            },
            ..r
        };
        assert(performed(x, h, e, w, now, t, driven_flow(d)));
        assert(ran(g, vm, e, n, h));
    }
}

proof fn lemma_no_raises(q: FlowQuota, due: Seq<(FlowId, TopUp)>, id: FlowId)
    requires
        forall|i: int| 0 <= i < due.len() ==> (#[trigger] due[i]).0 != id,
    ensures
        topped_up(q, due, id) == q,
    decreases due.len(),
{
    if due.len() > 0 {
        assert(due[due.len() - 1].0 != id);
        assert forall|i: int| 0 <= i < due.drop_last().len() implies (#[trigger] due.drop_last()[i]).0
            != id by {
            assert(due[i].0 != id);
        }
        lemma_no_raises(q, due.drop_last(), id);
    }
}

/// A flow that the host worked for goes on with what was left of its turn.
pub proof fn turns_go_on_after_the_host(
    s: SharedState,
    f: FlowState,
    n: u32,
    w: usize,
    now: u64,
    t: SharedState,
    d: Driven,
)
    requires
        slice_run(s, f, w, now, t, d),
        f.slice_left == Some(n),
    ensures
        d is Stopped && fails(s, t, f.id) || charged_turn(
            s,
            refreshed(s, f),
            n,
            slice(lent(refreshed(s, f), s.memory), n as nat),
            w,
            now,
            t,
            d,
        ),
{
    let u = raises_given(s, f.id);
    let g = refreshed(s, f);
    let (vm, e) = slice(lent(g, u.memory), n as nat);
    assert(slice_ended(u, FlowState { vm, ..g }, n, g.vm.executed, e, w, now, t, d));
    lemma_slice_ended(u, g, vm, n, e, w, now, t, d);
    if d is Stopped && fails(u, t, g.id) {
        assert(fails(s, t, f.id));
    } else {
        let (x, h) = choose|x: SharedState, h: FlowState|
            {
                &&& ran(g, vm, e, n, h)
                &&& tables_kept(u, x)
                &&& x.pending == u.pending
                &&& x.caps == u.caps
                &&& #[trigger] performed(x, h, e, w, now, t, driven_flow(d))
            };
        assert(tables_kept(s, x));
    }
}

/// A flow's turn begins with the revocations of the table: it calls natives
/// only while neither its own authority nor the natives were revoked.
pub proof fn turns_begin_with_the_current_revocations(s: SharedState, f: FlowState)
    ensures
        ({
            let g = refreshed(s, f);
            let k = f.id.raw as u128;
            &&& s.caps.cells.contains_key(k) ==> g.vm.gate.flow_cell == s.caps.cells[k] && g.cell
                == s.caps.cells[k]
            &&& !s.caps.cells.contains_key(k) ==> g.cell.count != f.authority.epoch
                && g.vm.gate.flow_cell == g.cell
            &&& g.vm.gate.native_cell == s.caps.native_cell
            &&& g.vm.gate.mask == f.vm.gate.mask
            &&& g.vm.gate.has_native == f.vm.gate.has_native
            &&& g.vm.frames == f.vm.frames
            &&& g.id == f.id
            &&& g.authority == f.authority
        }),
{
}

/// The outcome of a flow that was killed for this reason.
pub open spec fn killed_for(outcome: FlowOutcome, reason: FlowExitReason) -> bool {
    outcome matches FlowOutcome::Failed(why) && (match reason {
        FlowExitReason::Link => *why == Failure::LinkedExit(reason),
        FlowExitReason::Killed => *why == Failure::Killed(reason),
        _ => *why == Failure::Exit(reason),
    })
}

/// Deadlines wait in order, those for the same time in the order in which
/// they were set; the one that comes out is the first, once it is due.
pub proof fn deadlines_keep_their_turn(s: Seq<TimerEntry>, e: TimerEntry, now: u64)
    requires
        crate::scheduler::timer::in_order(s),
    ensures
        exists|p: int|
            {
                &&& 0 <= p <= s.len()
                &&& crate::scheduler::timer::scheduled(s, e) == #[trigger] s.insert(p, e)
                &&& forall|i: int| 0 <= i < p ==> (#[trigger] s[i]).deadline <= e.deadline
                &&& forall|i: int| p <= i < s.len() ==> (#[trigger] s[i]).deadline > e.deadline
            },
        s.len() > 0 && s[0].deadline <= now ==> due_taken(s, now) == (s.drop_first(), Some(s[0])),
        s.len() == 0 || s[0].deadline > now ==> due_taken(s, now) == (s, None::<TimerEntry>),
{
    lemma_slot(s, e.deadline, s.len());
    let p = crate::scheduler::timer::slot_for(s, e.deadline, s.len()) as int;
    assert(crate::scheduler::timer::scheduled(s, e) == s.insert(p, e));
}

proof fn lemma_slot(s: Seq<TimerEntry>, deadline: u64, n: nat)
    requires
        crate::scheduler::timer::in_order(s),
        n <= s.len(),
        forall|i: int| n <= i < s.len() ==> deadline < (#[trigger] s[i]).deadline,
    ensures
        ({
            let p = crate::scheduler::timer::slot_for(s, deadline, n);
            &&& p <= n
            &&& forall|i: int| 0 <= i < p ==> (#[trigger] s[i]).deadline <= deadline
            &&& forall|i: int| p <= i < s.len() ==> deadline < (#[trigger] s[i]).deadline
        }),
    decreases n,
{
    if n > 0 && s[n - 1].deadline > deadline {
        lemma_slot(s, deadline, (n - 1) as nat);
    }
}

/// A reader of an outcome gets nothing while the flow runs, the outcome once,
/// and a failure from then on; on a worker it gets a failure and takes
/// nothing.
pub proof fn readers_get_the_outcome_once(o: FlowOutcome)
    ensures
        polled(OutcomeSlot::Waiting, false).1 is None,
        polled(OutcomeSlot::Waiting, false).0 is Waiting,
        polled(OutcomeSlot::Ready(o), false).1 == Some(o),
        polled(OutcomeSlot::Ready(o), false).0 is Taken,
        polled(OutcomeSlot::Taken, false).1 is Some,
        polled(OutcomeSlot::Taken, false).1->Some_0 is Failed,
        polled(OutcomeSlot::Abandoned, false).1 is Some,
        polled(OutcomeSlot::Abandoned, false).1->Some_0 is Failed,
        polled(OutcomeSlot::Ready(o), true).0 == OutcomeSlot::Ready(o),
        polled(OutcomeSlot::Ready(o), true).1 is Some,
        polled(OutcomeSlot::Ready(o), true).1->Some_0 is Failed,
{
}

} // verus!
