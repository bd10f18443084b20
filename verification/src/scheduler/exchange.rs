//! What a running flow gets from the scheduler: what its requests leave in
//! its registers, in the inboxes and in the tables.

use std::sync::Arc;

use vstd::prelude::*;

use crate::bytecode::cap::{
    rights, CapId, CapRights, CapTarget, RIGHTS_ADDRESSING, RIGHT_ASK, RIGHT_LINK, RIGHT_MONITOR,
    RIGHT_NATIVE, RIGHT_RECV, RIGHT_SEND, RIGHT_SPAWN,
};
use crate::bytecode::restart::RestartPolicy;
use crate::bytecode::value::{Message, Value};
use crate::scheduler::capability::{attenuated, minted, reply_minted, resolved, CapError, CapState};
use crate::scheduler::deliver::{admitted, delivered, send_parked, with_box, DeliverStatus};
use crate::scheduler::error::{RuntimeError, SpawnError};
use crate::scheduler::failure::Failure;
use crate::scheduler::hops::{no_empty_token, passed, stamped};
use crate::scheduler::lifecycle::{
    a_spawned_flow_runs_the_function, leads, same_but_tokens, starts_with, values_arrive,
};
use crate::scheduler::link::Link;
use crate::scheduler::mailbox::MailboxState;
use crate::scheduler::mailbox::queue::{accepts, hop_bytes, take_is_fifo, total_bytes, WaitFilter};
use crate::scheduler::monitor::FlowExitReason;
use crate::scheduler::process::{FlowId, FlowOutcome, FlowState, PendingSend};
use crate::scheduler::quota::{consumed, refilled, FlowQuota};
use crate::scheduler::runtime::{parent_of, spawned, SpawnRequest};
use crate::scheduler::shared::{failing, received, resumed, woken, SharedState};
use crate::scheduler::timer::{scheduled, TimerEntry, TimerPayload};
use crate::scheduler::worker::{
    address_given, cap_delegated, cap_narrowed, cap_narrowed_as, child_spawned, dispatched,
    filter_of, fresh_token, held_target, host_awaited, link_cut, link_made, message_received,
    message_sent, name_looked_up, name_taken, performed, policy_set, put_to_sleep, request_of,
    self_addressed, watch_dropped, watch_made, yielded,
};
use crate::vm::frame::FrameState;
use crate::vm::meaning::text_bytes;
use crate::vm::result::Effect;

verus! {

/// The registers of the active frame of a flow.
pub open spec fn registers_of(f: FlowState) -> Seq<Value> {
    f.vm.frames.last().registers
}

/// The flow is as it was, but for its accounts and one register of the active
/// frame, which holds `v` now.
pub open spec fn got(f: FlowState, g: FlowState, reg: u8, v: Value) -> bool {
    &&& f.vm.frames.len() > 0
    &&& reg < registers_of(f).len()
    &&& g.vm.frames == f.vm.frames.update(
        f.vm.frames.len() - 1,
        FrameState {
            registers: registers_of(f).update(reg as int, v),
            ..f.vm.frames.last()
        },
    )
    &&& g.id == f.id
    &&& g.vm.chunk == f.vm.chunk
    &&& g.vm.natives == f.vm.natives
    &&& g.vm.gate == f.vm.gate
    &&& g.authority == f.authority
    &&& g.restart_policy == f.restart_policy
    &&& g.supervisor == f.supervisor
    &&& g.pending_send == f.pending_send
}

/// One more flow is on its way out: this one, with a failure.
pub open spec fn fails(s: SharedState, t: SharedState, id: FlowId) -> bool {
    &&& t.pending.len() == s.pending.len() + 1
    &&& t.pending.drop_last() == s.pending
    &&& t.pending.last().flow.id == id
    &&& t.pending.last().outcome is Failed
    &&& t.pending.last().reason is Fault
    &&& t.pending.last().stage is Begin
}

/// Everything but the capabilities and the accounts is as it was.
pub open spec fn tables_kept(s: SharedState, t: SharedState) -> bool {
    &&& t.flows == s.flows
    &&& t.boxes == s.boxes
    &&& t.names == s.names
    &&& t.monitors == s.monitors
    &&& t.links == s.links
    &&& t.traps == s.traps
    &&& t.kills == s.kills
    &&& t.timers == s.timers
    &&& t.ready == s.ready
    &&& t.locals == s.locals
    &&& t.done == s.done
    &&& t.requests == s.requests
}

/// A value that comes to a running flow is in the register that it was meant
/// for, and nowhere else. A flow that has no such register, or no room, fails.
pub proof fn values_land_in_their_register(s: SharedState, f: FlowState, reg: u8, v: Value)
    ensures
        ({
            let (t, out) = resumed(s, f, reg, v);
            &&& out matches Some(g) ==> got(f, g, reg, v) && t == (SharedState {
                memory: t.memory,
                ..s
            }) && g.last_receive_dest == f.last_receive_dest && g.metrics == f.metrics
            &&& out is None ==> fails(s, t, f.id) && tables_kept(s, t) && t.caps == s.caps
            &&& f.vm.frames.len() > 0 && reg < registers_of(f).len() && text_bytes(v)
                <= text_bytes(registers_of(f)[reg as int]) ==> out is Some
        }),
{
    let (t, out) = resumed(s, f, reg, v);
    if out is None {
        assert(t.pending.drop_last() =~= s.pending);
    } else {
        assert(t =~= SharedState { memory: t.memory, ..s });
    }
}

proof fn lemma_failing(s: SharedState, f: FlowState, why: Failure)
    ensures
        fails(s, failing(s, f, why), f.id),
        tables_kept(s, failing(s, f, why)),
        failing(s, f, why).caps == s.caps,
{
    assert(failing(s, f, why).pending.drop_last() =~= s.pending);
}

/// The token in the register leads the flow to `target`, with the rights of
/// `mask`.
pub open spec fn got_address(
    f: FlowState,
    g: FlowState,
    reg: u8,
    caps: CapState,
    target: FlowId,
    mask: u32,
) -> bool {
    let v = registers_of(g)[reg as int];
    &&& got(f, g, reg, v)
    &&& v is Cap
    &&& leads(caps, v->Cap_0, f.id, target, mask)
}

proof fn lemma_minted(
    s: CapState,
    holder: FlowId,
    target: FlowId,
    mask: u32,
    token: Result<CapId, RuntimeError>,
)
    requires
        fresh_token(s, token),
    ensures
        minted(s, holder, target, rights(mask), token).1 matches Ok(id) ==> leads(
            minted(s, holder, target, rights(mask), token).0,
            id,
            holder,
            target,
            mask,
        ),
{
    assert(mask & mask == mask) by (bit_vector);
}

/// A name that is registered for a flow with an inbox gives an address of
/// that flow; any other name gives unit.
pub proof fn a_name_leads_to_its_flow(
    s: SharedState,
    f: FlowState,
    dest_reg: u8,
    name: Arc<String>,
    w: usize,
    now: u64,
    t: SharedState,
    out: Option<FlowState>,
)
    requires
        performed(s, f, Effect::Whereis { dest_reg, name }, w, now, t, out),
        no_empty_token(s.caps),
    ensures
        ({
            let there = s.names.contains_key(name@) && s.boxes.contains_key(
                s.names[name@].flow.raw as u128,
            );
            &&& there && out is Some ==> got_address(
                f,
                out->Some_0,
                dest_reg,
                t.caps,
                s.names[name@].flow,
                RIGHT_SEND,
            )
            &&& !there && out is Some ==> got(f, out->Some_0, dest_reg, Value::Unit)
            &&& out is None ==> fails(s, t, f.id)
            &&& f.vm.frames.len() > 0 && dest_reg < registers_of(f).len() && !there ==> out is Some
            &&& tables_kept(s, t)
        }),
{
    reveal(name_looked_up);
    if s.names.contains_key(name@) && s.boxes.contains_key(s.names[name@].flow.raw as u128) {
        let target = s.names[name@].flow;
        let token = choose|token: Result<CapId, RuntimeError>|
            {
                &&& #[trigger] fresh_token(s.caps, token)
                &&& (t, out) == address_given(
                    s,
                    f,
                    dest_reg,
                    reply_minted(s.caps, f.id, target, rights(RIGHT_SEND), token),
                )
            };
        let (caps, r) = reply_minted(s.caps, f.id, target, rights(RIGHT_SEND), token);
        assert(RIGHT_SEND & RIGHT_SEND == RIGHT_SEND) by (bit_vector);
        let u = SharedState { caps, ..s };
        match r {
            Ok(cap) => {
                assert(leads(caps, cap, f.id, target, RIGHT_SEND));
                values_land_in_their_register(u, f, dest_reg, Value::Cap(cap));
            },
            Err(e) => lemma_failing(u, f, Failure::Runtime(e)),
        }
    } else {
        values_land_in_their_register(s, f, dest_reg, Value::Unit);
    }
}

/// A flow that registers a name is the one the name leads to, for as long as
/// both are there; the other names stay. A taken name is not given away.
pub proof fn a_registered_name_is_the_flows(
    s: SharedState,
    f: FlowState,
    name: Arc<String>,
    w: usize,
    now: u64,
    t: SharedState,
    out: Option<FlowState>,
)
    requires
        performed(s, f, Effect::RegisterName { name }, w, now, t, out),
    ensures
        out matches Some(g) ==> {
            &&& g == f
            &&& name@.len() > 0
            &&& !s.names.contains_key(name@)
            &&& t.names == s.names.insert(name@, t.names[name@])
            &&& t.names[name@].flow == f.id
            &&& leads(t.caps, t.names[name@].cap, f.id, f.id, RIGHTS_ADDRESSING)
            &&& t.flows == s.flows
            &&& t.boxes == s.boxes
        },
        out is None ==> fails(s, t, f.id) && t.names == s.names,
        s.names.contains_key(name@) || name@.len() == 0 ==> out is None,
        s.max_names != 0 && s.names.len() >= s.max_names ==> out is None,
        f.authority.rights.mask & RIGHT_SEND != RIGHT_SEND ==> out is None,
{
    reveal(name_taken);
    if f.authority.rights.mask & RIGHT_SEND != RIGHT_SEND || name@.len() == 0 {
        assert(t.pending.drop_last() =~= s.pending);
    } else {
        let token = choose|token: Result<CapId, RuntimeError>|
            {
                &&& #[trigger] fresh_token(s.caps, token)
                &&& (t, out) == crate::scheduler::worker::name_registered(
                    s,
                    f,
                    name@,
                    minted(s.caps, f.id, f.id, rights(RIGHTS_ADDRESSING), token),
                )
            };
        lemma_minted(s.caps, f.id, f.id, RIGHTS_ADDRESSING, token);
        if out is None {
            assert(t.pending.drop_last() =~= s.pending);
        } else {
            assert(t.names =~= s.names.insert(name@, t.names[name@]));
        }
    }
}

/// A name that a flow registered leads every other flow to it, as long as the
/// name and the inbox are there.
pub proof fn lookups_find_what_was_registered(
    s: SharedState,
    f: FlowState,
    name: Arc<String>,
    w: usize,
    now: u64,
    t: SharedState,
    out: Option<FlowState>,
    s2: SharedState,
    caller: FlowState,
    dest_reg: u8,
    w2: usize,
    now2: u64,
    t2: SharedState,
    out2: Option<FlowState>,
)
    requires
        performed(s, f, Effect::RegisterName { name }, w, now, t, out),
        out is Some,
        s2.names.contains_key(name@),
        s2.names[name@] == t.names[name@],
        s2.boxes.contains_key(f.id.raw as u128),
        no_empty_token(s2.caps),
        performed(s2, caller, Effect::Whereis { dest_reg, name }, w2, now2, t2, out2),
        out2 is Some,
    ensures
        got_address(caller, out2->Some_0, dest_reg, t2.caps, f.id, RIGHT_SEND),
{
    a_registered_name_is_the_flows(s, f, name, w, now, t, out);
    a_name_leads_to_its_flow(s2, caller, dest_reg, name, w2, now2, t2, out2);
}

/// A flow that asks for its own address gets one that leads to itself, for
/// sending, asking, linking and watching.
pub proof fn self_addresses_lead_home(
    s: SharedState,
    f: FlowState,
    dest_reg: u8,
    w: usize,
    now: u64,
    t: SharedState,
    out: Option<FlowState>,
)
    requires
        performed(s, f, Effect::SelfPid { dest_reg }, w, now, t, out),
    ensures
        out matches Some(g) ==> got_address(f, g, dest_reg, t.caps, f.id, RIGHTS_ADDRESSING),
        out is None ==> fails(s, t, f.id),
        tables_kept(s, t),
{
    reveal(self_addressed);
    let token = choose|token: Result<CapId, RuntimeError>|
        {
            &&& #[trigger] fresh_token(s.caps, token)
            &&& (t, out) == address_given(
                s,
                f,
                dest_reg,
                minted(s.caps, f.id, f.id, rights(RIGHTS_ADDRESSING), token),
            )
        };
    lemma_minted(s.caps, f.id, f.id, RIGHTS_ADDRESSING, token);
    let (caps, r) = minted(s.caps, f.id, f.id, rights(RIGHTS_ADDRESSING), token);
    let u = SharedState { caps, ..s };
    match r {
        Ok(cap) => values_land_in_their_register(u, f, dest_reg, Value::Cap(cap)),
        Err(e) => lemma_failing(u, f, Failure::Runtime(e)),
    }
}

/// A delegated token leads the flow where the source leads, with those of the
/// wanted rights that the source gives.
pub proof fn delegated_tokens_lead_where_the_source_does(
    s: SharedState,
    f: FlowState,
    dest_reg: u8,
    src_cap: CapId,
    want_rights: CapRights,
    want_native_cap: Option<CapId>,
    w: usize,
    now: u64,
    t: SharedState,
    out: Option<FlowState>,
)
    requires
        performed(
            s,
            f,
            Effect::Delegate { dest_reg, src_cap, want_rights, want_native_cap },
            w,
            now,
            t,
            out,
        ),
    ensures
        out matches Some(g) ==> {
            let v = registers_of(g)[dest_reg as int];
            let from = s.caps.entries[src_cap.raw];
            let new = t.caps.entries[v->Cap_0.raw];
            &&& got(f, g, dest_reg, v)
            &&& v is Cap
            &&& !s.caps.entries.contains_key(v->Cap_0.raw)
            &&& s.caps.entries.contains_key(src_cap.raw)
            &&& from.holder == f.id
            &&& t.caps.entries == s.caps.entries.insert(v->Cap_0.raw, new)
            &&& new.holder == f.id
            &&& new.cap.target == from.cap.target
            &&& new.cap.epoch == from.cap.epoch
            &&& new.cap.rights.mask == from.cap.rights.mask & want_rights.mask
            &&& want_native_cap is None ==> new.cap.native_mask == from.cap.native_mask
            &&& want_native_cap matches Some(nc) ==> {
                let n = s.caps.entries[nc.raw];
                &&& s.caps.entries.contains_key(nc.raw)
                &&& n.holder == f.id
                &&& n.cap.rights.mask & RIGHT_NATIVE == RIGHT_NATIVE
                &&& n.cap.native_mask is Some ==> from.cap.rights.mask & RIGHT_NATIVE
                    == RIGHT_NATIVE
                &&& n.cap.native_mask is Some && from.cap.native_mask is Some
                    ==> new.cap.native_mask is Some && new.cap.native_mask->Some_0@
                    == from.cap.native_mask->Some_0@.intersect(n.cap.native_mask->Some_0@)
            }
        },
        out is None ==> fails(s, t, f.id),
        tables_kept(s, t),
{
    reveal(cap_delegated);
    if want_native_cap is Some && resolved(
        s.caps,
        want_native_cap->Some_0,
        f.id,
        rights(RIGHT_NATIVE),
    ) is Err {
        assert(t.pending.drop_last() =~= s.pending);
    } else {
        let native = match want_native_cap {
            None => None,
            Some(id) => resolved(s.caps, id, f.id, rights(RIGHT_NATIVE))->Ok_0.cap.native_mask,
        };
        assert(cap_narrowed(s, f, dest_reg, src_cap, want_rights, native, t, out));
        let token = choose|token: Result<CapId, RuntimeError>|
            {
                &&& #[trigger] fresh_token(s.caps, token)
                &&& cap_narrowed_as(s, f, dest_reg, src_cap, want_rights, native, token, t, out)
            };
        let (caps, r) = choose|caps: CapState, r: Result<CapId, CapError>|
            {
                &&& #[trigger] attenuated(
                    s.caps,
                    src_cap,
                    f.id,
                    f.id,
                    want_rights,
                    native,
                    token,
                    caps,
                    r,
                )
                &&& (t, out) == (match r {
                    Ok(new) => resumed(SharedState { caps, ..s }, f, dest_reg, Value::Cap(new)),
                    Err(e) => (failing(SharedState { caps, ..s }, f, Failure::Cap(e)), None),
                })
            };
        let u = SharedState { caps, ..s };
        match r {
            Ok(cap) => values_land_in_their_register(u, f, dest_reg, Value::Cap(cap)),
            Err(e) => lemma_failing(u, f, Failure::Cap(e)),
        }
    }
}

/// A spawned child runs the function with the arguments, under the policy of
/// its parent, and the parent gets an address of it.
pub proof fn parents_get_the_address_of_their_child(
    s: SharedState,
    f: FlowState,
    function: u32,
    args: Seq<Value>,
    dest_reg: u8,
    requested_rights: CapRights,
    w: usize,
    now: u64,
    t: SharedState,
    out: Option<FlowState>,
)
    requires
        performed(
            s,
            f,
            Effect::Spawn { function, args, dest_reg, requested_rights },
            w,
            now,
            t,
            out,
        ),
    ensures
        out matches Some(g) ==> {
            let token = registers_of(g)[dest_reg as int];
            let child = t.flows[t.ready.last().raw as u128];
            &&& t.ready == s.ready.push(child.id)
            &&& !s.boxes.contains_key(child.id.raw as u128)
            &&& t.boxes.contains_key(child.id.raw as u128)
            &&& t.flows == s.flows.insert(child.id.raw as u128, child)
            &&& starts_with(child, f.vm.chunk, function, args)
            &&& child.restart_policy == f.restart_policy
            &&& child.supervisor is None
            &&& child.authority.target == CapTarget::Flow(child.id.raw)
            &&& child.authority.rights.mask == f.authority.rights.mask & requested_rights.mask
            &&& child.authority.native_mask == f.authority.native_mask
            &&& got(f, g, dest_reg, token)
            &&& token is Cap
            &&& leads(t.caps, token->Cap_0, f.id, child.id, RIGHTS_ADDRESSING)
            &&& refilled(f.quota.spawn_bucket, now).tokens > 0
            &&& g.quota.spawn_bucket == consumed(f.quota.spawn_bucket, now)
        },
        f.authority.rights.mask & RIGHT_SPAWN != RIGHT_SPAWN ==> out is None,
{
    reveal(child_spawned);
    let (req, mid, r) = choose|req: SpawnRequest, mid: SharedState, r: Result<FlowId, SpawnError>|
        {
            let g = FlowState {
                quota: crate::scheduler::runtime::quota_after_spawn(
                    s,
                    req,
                    parent_of(f, requested_rights),
                    now,
                ),
                ..f
            };
            &&& request_of(f, function, req)
            &&& #[trigger] spawned(s, req, Some(parent_of(f, requested_rights)), args, now, mid, r)
            &&& match r {
                Err(e) => (t, out) == (failing(mid, g, Failure::Spawn(e)), None::<FlowState>),
                Ok(child) => exists|token: Result<CapId, RuntimeError>|
                    {
                        &&& #[trigger] fresh_token(mid.caps, token)
                        &&& (t, out) == crate::scheduler::worker::child_addressed(
                            mid,
                            g,
                            dest_reg,
                            child,
                            minted(mid.caps, f.id, child, rights(RIGHTS_ADDRESSING), token),
                        )
                    },
            }
        };
    let g = FlowState {
        quota: crate::scheduler::runtime::quota_after_spawn(
            s,
            req,
            parent_of(f, requested_rights),
            now,
        ),
        ..f
    };
    a_spawned_flow_runs_the_function(
        s,
        req,
        Some(parent_of(f, requested_rights)),
        args,
        now,
        mid,
        r,
    );
    if r is Ok {
        let child = r->Ok_0;
        let token = choose|token: Result<CapId, RuntimeError>|
            {
                &&& #[trigger] fresh_token(mid.caps, token)
                &&& (t, out) == crate::scheduler::worker::child_addressed(
                    mid,
                    g,
                    dest_reg,
                    child,
                    minted(mid.caps, f.id, child, rights(RIGHTS_ADDRESSING), token),
                )
            };
        lemma_minted(mid.caps, f.id, child, RIGHTS_ADDRESSING, token);
        let (caps, m) = minted(mid.caps, f.id, child, rights(RIGHTS_ADDRESSING), token);
        if m is Ok {
            values_land_in_their_register(
                SharedState { caps, ..mid },
                g,
                dest_reg,
                Value::Cap(m->Ok_0),
            );
        }
    }
}

/// The number that a payload kind goes by.
pub open spec fn kind_number(v: Value) -> u8 {
    match v {
        Value::Unit => 0,
        Value::Bool(_) => 1,
        Value::Int(_) => 2,
        Value::Float(_) => 3,
        Value::Pid(_) => 4,
        Value::Message(_) => 5,
        Value::Cap(_) => 6,
        Value::Str(_) => 7,
        Value::Bytes(_) => 8,
    }
}

/// What a receive asks for. A payload kind counts where neither a tag nor a
/// correlation id is asked for.
pub ghost struct Wish {
    pub tag: Option<u16>,
    pub request_id: Option<u64>,
    pub kind: Option<u8>,
}

/// The value is what a receive asks for.
pub open spec fn wanted(wish: Wish, v: Value) -> bool {
    &&& wish.tag matches Some(t) ==> v is Message && v->Message_0.tag == t
    &&& wish.request_id matches Some(r) ==> v is Message && v->Message_0.request_id == r
    &&& wish.tag is None && wish.request_id is None ==> (wish.kind matches Some(k) ==> v is Message
        && kind_number(*v->Message_0.payload) == k)
}

/// The filter of a receive accepts what the receive asks for, and nothing
/// else.
pub proof fn filters_accept_what_is_asked_for(wish: Wish, v: Value)
    ensures
        accepts(filter_of(wish.tag, wish.request_id, wish.kind), v) <==> wanted(wish, v),
{
}

/// Flow `id` waits in its inbox for what it wished for.
pub open spec fn waits_for(m: MailboxState, id: FlowId, wish: Wish) -> bool {
    &&& m.parked == Some(id)
    &&& forall|v: Value| #[trigger] accepts(m.filter, v) <==> wanted(wish, v)
}

proof fn lemma_admitted(s: SharedState, w: usize, id: FlowId, now: u64)
    requires
        s.boxes.contains_key(id.raw as u128),
    ensures
        ({
            let t = admitted(s, w, id, now);
            let before = s.boxes[id.raw as u128];
            &&& t.boxes.contains_key(id.raw as u128)
            &&& t.boxes[id.raw as u128].queue.hops == before.queue.hops
                || (before.waiting.len() > 0 && t.boxes[id.raw as u128].queue.hops
                == before.queue.hops.push(before.waiting[0].1))
                || (before.waiting.len() > 0 && s.flows[before.waiting[0].0.raw as u128].id == id)
        }),
{
}

/// A receive that goes on at once took the oldest message that it asks for:
/// that message is in its destination register, and the others stay in the
/// inbox in their order. (Room that it made may let a waiting sender in, at
/// the end.) One that does not go on and does not fail waits, with an inbox
/// that holds nothing it asks for and stays as it is.
pub proof fn receives_take_what_they_ask_for(
    s: SharedState,
    f: FlowState,
    dest_reg: u8,
    timeout: Option<u64>,
    wish: Wish,
    w: usize,
    now: u64,
    t: SharedState,
    out: Option<FlowState>,
)
    requires
        performed(
            s,
            f,
            Effect::Receive {
                dest_reg,
                timeout,
                match_tag: wish.tag,
                match_request_id: wish.request_id,
                match_payload_kind: wish.kind,
            },
            w,
            now,
            t,
            out,
        ),
        s.boxes.contains_key(f.id.raw as u128),
    ensures
        ({
            let k = f.id.raw as u128;
            let hops = s.boxes[k].queue.hops;
            let asked_to_send = s.boxes[k].waiting;
            &&& out matches Some(g) ==> exists|i: int|
                {
                    &&& 0 <= i < hops.len()
                    &&& wanted(wish, #[trigger] hops[i])
                    &&& forall|j: int| 0 <= j < i ==> !wanted(wish, #[trigger] hops[j])
                    &&& got(f, g, dest_reg, hops[i])
                    &&& t.boxes.contains_key(k)
                    &&& {
                        ||| t.boxes[k].queue.hops == hops.remove(i)
                        ||| asked_to_send.len() > 0 && t.boxes[k].queue.hops == hops.remove(
                            i,
                        ).push(asked_to_send[0].1)
                        ||| asked_to_send.len() > 0 && s.flows[asked_to_send[0].0.raw as u128].id
                            == f.id
                    }
                }
            &&& out is None && t.pending == s.pending ==> {
                &&& forall|j: int| 0 <= j < hops.len() ==> !wanted(wish, #[trigger] hops[j])
                &&& t.boxes == s.boxes.insert(k, t.boxes[k])
                &&& t.boxes[k].queue == s.boxes[k].queue
                &&& waits_for(t.boxes[k], f.id, wish)
                &&& t.flows == s.flows.insert(k, t.flows[k])
                &&& t.flows[k].vm == f.vm
                &&& t.flows[k].id == f.id
                &&& t.flows[k].last_receive_dest == Some(dest_reg)
                &&& t.ready == s.ready
                &&& t.locals == s.locals
                &&& timeout is None ==> t.timers == s.timers
                &&& timeout is Some && now + timeout->Some_0 <= u64::MAX ==> t.timers
                    == scheduled(
                    s.timers,
                    TimerEntry {
                        deadline: (now + timeout->Some_0) as u64,
                        payload: TimerPayload::WakeReceiver {
                            pid: f.id,
                            dest_reg,
                            epoch: crate::scheduler::mailbox::WaitEpoch {
                                count: t.boxes[k].epoch,
                            },
                        },
                    },
                ) && t.boxes[k].epoch != s.boxes[k].epoch
            }
            &&& out is None && t.pending != s.pending ==> fails(s, t, f.id)
            &&& f.authority.rights.mask & RIGHT_RECV != RIGHT_RECV ==> out is None && fails(
                s,
                t,
                f.id,
            )
            &&& f.authority.rights.mask & RIGHT_RECV == RIGHT_RECV && (forall|j: int|
                0 <= j < hops.len() ==> !wanted(wish, #[trigger] hops[j])) ==> out is None
                && t.pending == s.pending
        }),
{
    reveal(message_received);
    let k = f.id.raw as u128;
    let m = s.boxes[k];
    let hops = m.queue.hops;
    let filter = filter_of(wish.tag, wish.request_id, wish.kind);
    assert forall|v: Value| #[trigger] accepts(filter, v) <==> wanted(wish, v) by {
        filters_accept_what_is_asked_for(wish, v);
    }
    take_is_fifo(m.queue, filter);
    if f.authority.rights.mask & RIGHT_RECV != RIGHT_RECV {
        assert(t.pending.drop_last() =~= s.pending);
    } else {
        let g = FlowState { last_receive_dest: Some(dest_reg), ..f };
        match crate::scheduler::mailbox::parked_with(m, f.id, filter) {
            (m1, Err(v)) => {
                let u = with_box(s, f.id, m1);
                values_land_in_their_register(u, received(g), dest_reg, v);
                let (x, y) = resumed(u, received(g), dest_reg, v);
                if y is Some {
                    lemma_admitted(x, w, f.id, now);
                } else {
                    assert(t.pending.len() != s.pending.len());
                }
                let i = choose|i: int|
                    {
                        &&& 0 <= i < hops.len()
                        &&& v == #[trigger] hops[i]
                        &&& accepts(filter, v)
                        &&& forall|j: int| 0 <= j < i ==> !accepts(filter, #[trigger] hops[j])
                        &&& m1.queue.hops == hops.remove(i)
                    };
                assert(accepts(filter, hops[i]));
                assert forall|j: int| 0 <= j < i implies !wanted(wish, #[trigger] hops[j]) by {
                    assert(!accepts(filter, hops[j]));
                }
                assert(wanted(wish, hops[i]));
            },
            (m1, Ok(epoch)) => {
                assert forall|j: int| 0 <= j < hops.len() implies !wanted(
                    wish,
                    #[trigger] hops[j],
                ) by {
                    assert(!accepts(filter, hops[j]));
                }
                crate::scheduler::mailbox::epochs_differ(m, f.id, filter);
                assert(t.boxes =~= s.boxes.insert(k, t.boxes[k]));
                assert(t.flows =~= s.flows.insert(k, t.flows[k]));
            },
        }
    }
}

/// Flow `id` was runnable with `v` in register `reg` and joined the queue of
/// worker `w`, or the shared one; or it failed and left the table.
pub open spec fn woke_with(
    s: SharedState,
    t: SharedState,
    w: Option<usize>,
    id: FlowId,
    reg: u8,
    v: Value,
) -> bool {
    let k = id.raw as u128;
    ||| {
        &&& t.flows == s.flows.insert(k, t.flows[k])
        &&& got(s.flows[k], t.flows[k], reg, v)
        &&& t.pending == s.pending
        &&& w is Some && w->Some_0 < s.locals.len() ==> t.ready == s.ready && t.locals
            == s.locals.update(
            w->Some_0 as int,
            s.locals[w->Some_0 as int].push(id),
        )
        &&& w is None ==> t.ready == s.ready.push(id) && t.locals == s.locals
    }
    ||| {
        &&& t.flows == s.flows.remove(k)
        &&& fails(s, t, id)
        &&& t.ready == s.ready
        &&& t.locals == s.locals
    }
}

proof fn lemma_woken(s: SharedState, w: Option<usize>, id: FlowId, v: Value, d: u8)
    requires
        s.flows.contains_key(id.raw as u128),
        s.flows[id.raw as u128].id == id,
        s.flows[id.raw as u128].last_receive_dest == Some(d),
    ensures
        woke_with(s, woken(s, w, id, v), w, id, d, v),
        woken(s, w, id, v).boxes == s.boxes,
        woken(s, w, id, v).names == s.names,
        woken(s, w, id, v).timers == s.timers,
        woken(s, w, id, v).asks == s.asks,
        woken(s, w, id, v).kills == s.kills,
        woken(s, w, id, v).traps == s.traps,
        woken(s, w, id, v).links == s.links,
        woken(s, w, id, v).monitors == s.monitors,
        woken(s, w, id, v).sends == s.sends,
        woken(s, w, id, v).caps == s.caps,
{
    let f = s.flows[id.raw as u128];
    let u = crate::scheduler::shared::dropped(s, id);
    values_land_in_their_register(u, f, d, v);
    let t = woken(s, w, id, v);
    let k = id.raw as u128;
    if resumed(u, f, d, v).1 is Some {
        assert(t.flows =~= s.flows.insert(k, t.flows[k]));
    } else {
        assert(t.flows =~= s.flows.remove(k));
    }
}

/// A flow that waits is woken by a message that its filter accepts, and by no
/// other: it finds that message in its register, and the inbox stays as it
/// is. A message that it does not wait for goes to the end of the inbox,
/// where there is room.
pub proof fn waiting_flows_wake_to_what_they_accept(
    s: SharedState,
    w: Option<usize>,
    id: FlowId,
    d: u8,
    v: Value,
)
    requires
        s.boxes.contains_key(id.raw as u128),
        !s.boxes[id.raw as u128].closed,
        s.boxes[id.raw as u128].parked == Some(id),
        s.flows.contains_key(id.raw as u128),
        s.flows[id.raw as u128].id == id,
        s.flows[id.raw as u128].last_receive_dest == Some(d),
    ensures
        ({
            let k = id.raw as u128;
            let m = s.boxes[k];
            let (t, status) = delivered(s, w, id, v);
            let n = t.boxes[k];
            &&& t.boxes == s.boxes.insert(k, n)
            &&& accepts(m.filter, v) ==> {
                &&& status is Delivered
                &&& n.queue == m.queue
                &&& n.parked is None
                &&& woke_with(s, t, w, id, d, v)
            }
            &&& !accepts(m.filter, v) ==> {
                &&& t == with_box(s, id, n)
                &&& n.parked == m.parked
                &&& n.filter == m.filter
                &&& n.epoch == m.epoch
                &&& has_room(m, v) ==> status is Delivered && n.queue.hops == m.queue.hops.push(v)
                &&& !has_room(m, v) && m.config.policy is Reject ==> status is Full && n.queue
                    == m.queue
                &&& !has_room(m, v) && m.config.policy is DropNewest ==> status is Delivered
                    && n.queue == m.queue
            }
        }),
        ({
            let k = id.raw as u128;
            let m = s.boxes[k];
            let t = crate::scheduler::shared::system_hop(s, id, v);
            let n = t.boxes[k];
            &&& t.boxes == s.boxes.insert(k, n)
            &&& accepts(m.filter, v) ==> {
                &&& n.queue == m.queue
                &&& n.parked is None
                &&& woke_with(s, t, None, id, d, v)
            }
            &&& !accepts(m.filter, v) ==> {
                &&& t == with_box(s, id, n)
                &&& n.parked == m.parked
                &&& n.filter == m.filter
                &&& n.epoch == m.epoch
                &&& n.queue.hops.last() == v
                &&& has_room(m, v) ==> n.queue.hops == m.queue.hops.push(v)
            }
        }),
{
    let k = id.raw as u128;
    let m = s.boxes[k];
    if accepts(m.filter, v) {
        let n = crate::scheduler::mailbox::handed_off(m);
        let u = SharedState {
            asks: crate::scheduler::waits::ask_removed(s.asks, id),
            ..with_box(s, id, n)
        };
        lemma_woken(u, w, id, v, d);
        lemma_woken(u, None, id, v, d);
    } else {
        let n = delivered(s, w, id, v).0.boxes[k];
        assert(delivered(s, w, id, v).0 =~= with_box(s, id, n));
    }
}

/// One more message fits in an inbox.
pub open spec fn has_room(m: MailboxState, v: Value) -> bool {
    &&& m.queue.hops.len() < m.queue.limit
    &&& total_bytes(m.queue.hops)
        + hop_bytes(v) <= m.queue.byte_limit
}

/// What a waiting receive gets by handoff is what it asked for; what it did
/// not ask for leaves it waiting, and is not lost while there is room.
pub proof fn handoffs_bring_what_was_asked_for(
    s: SharedState,
    w: Option<usize>,
    id: FlowId,
    d: u8,
    wish: Wish,
    v: Value,
)
    requires
        s.boxes.contains_key(id.raw as u128),
        !s.boxes[id.raw as u128].closed,
        waits_for(s.boxes[id.raw as u128], id, wish),
        s.flows.contains_key(id.raw as u128),
        s.flows[id.raw as u128].id == id,
        s.flows[id.raw as u128].last_receive_dest == Some(d),
    ensures
        ({
            let k = id.raw as u128;
            let (t, status) = delivered(s, w, id, v);
            &&& wanted(wish, v) ==> {
                &&& woke_with(s, t, w, id, d, v)
                &&& t.boxes[k].queue == s.boxes[k].queue
            }
            &&& !wanted(wish, v) ==> {
                &&& t.flows == s.flows
                &&& waits_for(t.boxes[k], id, wish)
                &&& has_room(s.boxes[k], v) ==> t.boxes[k].queue.hops
                    == s.boxes[k].queue.hops.push(v)
            }
        }),
{
    waiting_flows_wake_to_what_they_accept(s, w, id, d, v);
    assert(accepts(s.boxes[id.raw as u128].filter, v) <==> wanted(wish, v));
}

/// What comes to a flow that does not wait is kept, last in its inbox, where
/// there is room, and nothing else changes. What comes to a flow that is gone
/// changes nothing.
pub proof fn messages_are_queued_in_order(s: SharedState, w: Option<usize>, id: FlowId, v: Value)
    ensures
        ({
            let k = id.raw as u128;
            let m = s.boxes[k];
            let (t, status) = delivered(s, w, id, v);
            &&& !s.boxes.contains_key(k) || m.closed ==> status is Gone && t.flows == s.flows
                && t.boxes == s.boxes
            &&& s.boxes.contains_key(k) && !m.closed && m.parked is None ==> {
                &&& t == with_box(s, id, t.boxes[k])
                &&& has_room(m, v) ==> status is Delivered && t.boxes[k].queue.hops
                    == m.queue.hops.push(v)
                &&& !has_room(m, v) && m.config.policy is Reject ==> status is Full
                    && t.boxes[k].queue == m.queue
                &&& !has_room(m, v) && m.config.policy is DropNewest ==> status is Delivered
                    && t.boxes[k].queue == m.queue
            }
        }),
{
    let k = id.raw as u128;
    let t = delivered(s, w, id, v).0;
    if s.boxes.contains_key(k) {
        assert(t.boxes =~= s.boxes.insert(k, t.boxes[k]));
        if s.boxes[k].closed {
            assert(t.boxes =~= s.boxes);
        }
    }
}

/// The message as it goes from flow `f` to `target`: from its true sender,
/// with an address for the reply, under the correlation id of the flow or a
/// fresh one, and otherwise as it was written.
pub open spec fn goes_out(
    s: SharedState,
    f: FlowState,
    m: Message,
    target: FlowId,
    msg: Message,
    u: SharedState,
) -> bool {
    &&& msg.sender == f.id.raw
    &&& msg.tag == m.tag
    &&& msg.request_id == (if m.request_id != 0 {
        m.request_id
    } else {
        f.vm.next_request_id
    })
    &&& same_but_tokens(*m.payload, *msg.payload)
    &&& leads(u.caps, msg.reply_cap, target, f.id, RIGHT_SEND)
    &&& tables_kept(s, u)
    &&& u.pending == s.pending
    &&& u.sends == s.sends
    &&& u.asks == s.asks
}

/// The flow goes on with its code as it was; the id that it lent to a message
/// is used up.
pub open spec fn goes_on(f: FlowState, g: FlowState, m: Message) -> bool {
    &&& g.authority == f.authority
    &&& g.id == f.id
    &&& g.vm.frames == f.vm.frames
    &&& g.vm.chunk == f.vm.chunk
    &&& m.request_id != 0 ==> g.vm.next_request_id == f.vm.next_request_id
    &&& m.request_id == 0 && 0 < f.vm.next_request_id < u64::MAX ==> g.vm.next_request_id
        == f.vm.next_request_id + 1
}

/// The sender waits at the inbox of `target` with its message.
pub open spec fn waits_to_send(
    d: SharedState,
    t: SharedState,
    f: FlowState,
    target: FlowId,
    m: Message,
    msg: Message,
    ask: Option<(u8, Option<u64>)>,
) -> bool {
    let k = target.raw as u128;
    let me = f.id.raw as u128;
    &&& t.boxes == d.boxes.insert(k, t.boxes[k])
    &&& t.boxes[k].waiting == d.boxes[k].waiting.push((f.id, Value::Message(msg)))
    &&& t.boxes[k].queue == d.boxes[k].queue
    &&& t.flows == d.flows.insert(me, t.flows[me])
    &&& goes_on(f, t.flows[me], m)
    &&& ask is None ==> t.flows[me].pending_send == Some(PendingSend::FireAndForget)
    &&& ask matches Some((dest_reg, timeout)) ==> t.flows[me].pending_send == Some(
        PendingSend::Ask {
            dest_reg,
            expect_request_id: msg.request_id,
            expect_sender: target.raw,
            timeout,
        },
    ) && t.flows[me].last_receive_dest == Some(dest_reg)
    &&& t.sends == d.sends.insert(me, target)
    &&& t.ready == d.ready
    &&& t.locals == d.locals
    &&& t.pending == d.pending
}

proof fn lemma_stamped(s: SharedState, f: FlowState, target: FlowId, m: Message, caps: CapState, r: Result<Message, CapError>)
    requires
        stamped(s.caps, f.vm, f.id, target, m, caps, r),
        no_empty_token(s.caps),
        r is Ok,
    ensures
        goes_out(s, f, m, target, r->Ok_0, SharedState { caps, ..s }),
{
    crate::scheduler::hops::stamp_is_authentic(s.caps, f.vm, f.id, target, m, caps, r);
    crate::scheduler::lifecycle::tokens_resolve_where_they_lead(
        caps,
        r->Ok_0.reply_cap,
        target,
        f.id,
        RIGHT_SEND,
    );
    let (mid, body) = choose|mid: CapState, body: Result<Value, CapError>|
        {
            &&& #[trigger] passed(s.caps, Some(f.id), target, *m.payload, mid, body)
            &&& match body {
                Err(e) => caps == mid && r == Err::<Message, CapError>(e),
                Ok(v) => exists|token: Result<CapId, RuntimeError>|
                    {
                        &&& token matches Ok(id) ==> crate::scheduler::capability::unused(mid, id)
                        &&& caps == (#[trigger] reply_minted(
                            mid,
                            target,
                            f.id,
                            rights(RIGHT_SEND),
                            token,
                        )).0
                        &&& match reply_minted(mid, target, f.id, rights(RIGHT_SEND), token).1 {
                            Ok(cap) => r == Ok::<Message, CapError>(
                                Message {
                                    sender: f.id.raw,
                                    reply_cap: cap,
                                    request_id: crate::scheduler::hops::sent_id(
                                        m,
                                        f.vm.next_request_id,
                                    ),
                                    tag: m.tag,
                                    payload: Arc::new(v),
                                },
                            ),
                            Err(_) => r == Err::<Message, CapError>(CapError::Unavailable),
                        }
                    },
            }
        };
    let ghost inner = *m.payload;
    values_arrive(s.caps, Some(f.id), target, inner, mid, body);
}

/// A sender that has its token resolved and its message stamped sends the
/// message; one that has not fails.
proof fn lemma_stamps(
    s: SharedState,
    f: FlowState,
    w: usize,
    now: u64,
    cap: CapId,
    need: u32,
    m: Message,
    ask: Option<(u8, Option<u64>)>,
    t: SharedState,
    out: Option<FlowState>,
) -> (r: Option<(FlowId, SharedState, FlowState, Message)>)
    requires
        message_sent(s, f, w, now, cap, need, Value::Message(m), ask, t, out),
        no_empty_token(s.caps),
    ensures
        r is None ==> out is None && fails(s, t, f.id) && tables_kept(s, t),
        r matches Some((target, u, h, msg)) ==> {
            &&& leads(s.caps, cap, f.id, target, need)
            &&& goes_out(s, f, m, target, msg, u)
            &&& goes_on(f, h, m)
            &&& refilled(f.quota.send_bucket, now).tokens > 0
            &&& h.quota == (FlowQuota {
                send_bucket: consumed(f.quota.send_bucket, now),
                ..f.quota
            })
            &&& (t, out) == dispatched(u, h, w, now, target, msg, ask)
        },
{
    reveal(message_sent);
    match held_target(s.caps, cap, f.id, rights(need)) {
        Err(e) => {
            lemma_failing(s, f, Failure::Cap(e));
            None
        },
        Ok(target) => {
            crate::scheduler::lifecycle::tokens_resolve_where_they_lead(
                s.caps,
                cap,
                f.id,
                target,
                need,
            );
            let g = FlowState {
                quota: crate::scheduler::quota::FlowQuota {
                    send_bucket: crate::scheduler::quota::consumed(f.quota.send_bucket, now),
                    ..f.quota
                },
                ..f
            };
            if crate::scheduler::quota::refilled(f.quota.send_bucket, now).tokens <= 0 {
                assert(t.pending.drop_last() =~= s.pending);
                None
            } else {
                let h = FlowState { vm: crate::scheduler::hops::id_given(g.vm, m), ..g };
                let (caps, r) = choose|caps: CapState, r: Result<Message, CapError>|
                    {
                        &&& #[trigger] stamped(s.caps, g.vm, f.id, target, m, caps, r)
                        &&& match r {
                            Err(e) => (t, out) == (
                                failing(SharedState { caps, ..s }, h, Failure::Cap(e)),
                                None::<FlowState>,
                            ),
                            Ok(msg) => (t, out) == dispatched(
                                SharedState { caps, ..s },
                                h,
                                w,
                                now,
                                target,
                                msg,
                                ask,
                            ),
                        }
                    };
                if r is Err {
                    assert(t.pending.drop_last() =~= s.pending);
                    None
                } else {
                    lemma_stamped(s, f, target, m, caps, r);
                    Some((target, SharedState { caps, ..s }, h, r->Ok_0))
                }
            }
        },
    }
}

/// The state with one more message counted as sent.
pub open spec fn counts_one_sent(s: SharedState) -> SharedState {
    SharedState {
        metrics: crate::scheduler::shared::RuntimeMetrics {
            messages_sent: s.metrics.messages_sent.wrapping_add(1),
            ..s.metrics
        },
        ..s
    }
}

proof fn lemma_dispatched(
    s: SharedState,
    f: FlowState,
    h: FlowState,
    w: usize,
    now: u64,
    target: FlowId,
    m: Message,
    msg: Message,
    ask: Option<(u8, Option<u64>)>,
)
    requires
        goes_on(f, h, m),
    ensures
        ({
            let (t, out) = dispatched(s, h, w, now, target, msg, ask);
            let (d, status) = delivered(
                counts_one_sent(s),
                Some(w),
                target,
                Value::Message(msg),
            );
            ||| out is None && fails(s, t, f.id) && tables_kept(s, t)
            ||| !(status is Delivered) && out is None && (fails(d, t, f.id) || waits_to_send(
                d,
                t,
                f,
                target,
                m,
                msg,
                ask,
            ))
            ||| status is Delivered && ask is None && t == d && out is Some && goes_on(
                f,
                out->Some_0,
                m,
            ) && out->Some_0.quota.send_bucket == h.quota.send_bucket
                && out->Some_0.quota.cpu_budget == h.quota.cpu_budget && (h.quota.mem_used
                + hop_bytes(Value::Message(msg)) <= usize::MAX ==> out->Some_0.quota == h.quota)
            ||| {
                &&& status is Delivered
                &&& ask is Some
                &&& exists|g: FlowState|
                    {
                        &&& goes_on(f, g, m)
                        &&& g.last_receive_dest == Some(ask->Some_0.0)
                        &&& (t, out) == #[trigger] crate::scheduler::worker::reply_awaited(
                            d,
                            g,
                            ask->Some_0.0,
                            ask->Some_0.1,
                            msg.request_id,
                            target,
                            now,
                        )
                    }
            }
        }),
{
    let (t, out) = dispatched(s, h, w, now, target, msg, ask);
    let v = Value::Message(msg);
    let cost = hop_bytes(v) as usize;
    let (d, status) = delivered(counts_one_sent(s), Some(w), target, v);
    let g = crate::scheduler::worker::sender_charged(
        h,
        cost,
        match ask {
            Some((x, _)) => Some(x),
            None => None,
        },
    );
    match crate::scheduler::quota::alloc_result(h.quota, cost) {
        Err(e) => lemma_failing(s, h, Failure::Quota(e)),
        Ok(_) => match status {
            DeliverStatus::Delivered => {
                let g2 = crate::scheduler::worker::sender_refunded(g, cost);
                assert(goes_on(f, g2, m));
            },
            DeliverStatus::Full => {
                let pending = crate::scheduler::worker::continuation(ask, msg.request_id, target);
                lemma_send_parked(d, f, g, target, m, msg, ask, pending);
            },
            DeliverStatus::Gone => lemma_failing(
                d,
                crate::scheduler::worker::sender_refunded(g, cost),
                Failure::Refused("send target gone"),
            ),
        },
    }
}

proof fn lemma_send_parked(
    d: SharedState,
    f: FlowState,
    g: FlowState,
    target: FlowId,
    m: Message,
    msg: Message,
    ask: Option<(u8, Option<u64>)>,
    pending: PendingSend,
)
    requires
        goes_on(f, g, m),
        pending == crate::scheduler::worker::continuation(ask, msg.request_id, target),
        ask matches Some((dest_reg, _)) ==> g.last_receive_dest == Some(dest_reg),
    ensures
        ({
            let t = send_parked(d, g, target, Value::Message(msg), pending);
            ||| fails(d, t, f.id)
            ||| waits_to_send(d, t, f, target, m, msg, ask)
        }),
{
    let t = send_parked(d, g, target, Value::Message(msg), pending);
    let k = target.raw as u128;
    let me = f.id.raw as u128;
    if t.pending == d.pending {
        assert(t.boxes =~= d.boxes.insert(k, t.boxes[k]));
        assert(t.flows =~= d.flows.insert(me, t.flows[me]));
    } else {
        assert(t.pending.drop_last() =~= d.pending);
    }
}

/// A message that a flow sends goes to the flow that its token leads to, or
/// waits at that flow's inbox for room, or the sender fails.
pub proof fn sends_reach_their_target(
    s: SharedState,
    f: FlowState,
    target_cap: CapId,
    m: Message,
    w: usize,
    now: u64,
    t: SharedState,
    out: Option<FlowState>,
)
    requires
        performed(
            s,
            f,
            Effect::Send { target_cap, message: Value::Message(m) },
            w,
            now,
            t,
            out,
        ),
        no_empty_token(s.caps),
    ensures
        ({
            ||| out is None && fails(s, t, f.id) && tables_kept(s, t)
            ||| exists|target: FlowId, msg: Message, u: SharedState|
                {
                    &&& leads(s.caps, target_cap, f.id, target, RIGHT_SEND)
                    &&& #[trigger] goes_out(s, f, m, target, msg, u)
                    &&& sent_to(f, m, target, msg, u, w, t, out)
                    &&& refilled(f.quota.send_bucket, now).tokens > 0
                    &&& out matches Some(g) ==> g.quota.send_bucket == consumed(
                        f.quota.send_bucket,
                        now,
                    )
                }
        }),
{
    let r = lemma_stamps(s, f, w, now, target_cap, RIGHT_SEND, m, None, t, out);
    if let Some((target, u, h, msg)) = r {
        lemma_dispatched(u, f, h, w, now, target, m, msg, None);
        assert(goes_out(s, f, m, target, msg, counts_one_sent(u)));
        if fails(u, t, f.id) {
            assert(fails(s, t, f.id));
        } else {
            assert(sent_to(f, m, target, msg, counts_one_sent(u), w, t, out));
        }
    }
}

/// The message came to the target and the sender goes on; or it did not, and
/// the sender waits with it or fails.
pub open spec fn sent_to(
    f: FlowState,
    m: Message,
    target: FlowId,
    msg: Message,
    u: SharedState,
    w: usize,
    t: SharedState,
    out: Option<FlowState>,
) -> bool {
    let (d, status) = delivered(u, Some(w), target, Value::Message(msg));
    &&& out matches Some(g) ==> status is Delivered && t == d && goes_on(f, g, m)
    &&& out is None ==> !(status is Delivered) && (fails(d, t, f.id) || waits_to_send(
        d,
        t,
        f,
        target,
        m,
        msg,
        None,
    ))
}

/// The value is the reply of `target` to request `rid`.
pub open spec fn is_reply(v: Value, rid: u64, target: FlowId) -> bool {
    v is Message && v->Message_0.request_id == rid && v->Message_0.sender == target.raw
}

/// The asker waits for the reply of `target` to request `rid` and for nothing
/// else.
pub open spec fn waits_for_reply(
    d: SharedState,
    t: SharedState,
    f: FlowState,
    dest_reg: u8,
    timeout: Option<u64>,
    rid: u64,
    target: FlowId,
    now: u64,
) -> bool {
    let k = f.id.raw as u128;
    &&& t.boxes == d.boxes.insert(k, t.boxes[k])
    &&& t.boxes[k].parked == Some(f.id)
    &&& forall|v: Value| #[trigger] accepts(t.boxes[k].filter, v) <==> is_reply(v, rid, target)
    &&& t.boxes[k].queue == d.boxes[k].queue
    &&& forall|j: int|
        0 <= j < d.boxes[k].queue.hops.len() ==> !is_reply(
            #[trigger] d.boxes[k].queue.hops[j],
            rid,
            target,
        )
    &&& t.asks.waits == d.asks.waits.insert(k, t.asks.waits[k])
    &&& t.asks.waits[k].target == target
    &&& t.asks.waits[k].request_id == rid
    &&& t.flows == d.flows.insert(k, t.flows[k])
    &&& t.flows[k].vm.frames == f.vm.frames
    &&& t.flows[k].last_receive_dest == Some(dest_reg)
    &&& t.ready == d.ready
    &&& t.locals == d.locals
    &&& t.pending == d.pending
    &&& timeout is None ==> t.timers == d.timers
    &&& timeout is Some && now + timeout->Some_0 <= u64::MAX ==> t.timers == scheduled(
        d.timers,
        TimerEntry {
            deadline: (now + timeout->Some_0) as u64,
            payload: TimerPayload::WakeReceiver {
                pid: f.id,
                dest_reg,
                epoch: crate::scheduler::mailbox::WaitEpoch { count: t.boxes[k].epoch },
            },
        },
    )
}

/// The asker got the notice that `target` is gone, and is runnable.
pub open spec fn told_gone(
    d: SharedState,
    t: SharedState,
    f: FlowState,
    dest_reg: u8,
    target: FlowId,
) -> bool {
    let k = f.id.raw as u128;
    let v = registers_of(t.flows[k])[dest_reg as int];
    &&& !d.boxes.contains_key(target.raw as u128)
    &&& t.flows == d.flows.insert(k, t.flows[k])
    &&& got(f, t.flows[k], dest_reg, v)
    &&& v is Message
    &&& v->Message_0.sender == target.raw
    &&& v->Message_0.tag == crate::bytecode::value::TAG_SYS_EXIT
    &&& t.ready == d.ready.push(f.id)
    &&& t.asks == d.asks
    &&& t.boxes[k].parked is None
    &&& t.boxes[k].queue == d.boxes[k].queue
}

/// The oldest reply that was there is in the register, and the inbox holds
/// the rest in its order.
pub open spec fn had_reply(
    d: SharedState,
    t: SharedState,
    f: FlowState,
    g: FlowState,
    dest_reg: u8,
    rid: u64,
    target: FlowId,
) -> bool {
    let k = f.id.raw as u128;
    let hops = d.boxes[k].queue.hops;
    exists|i: int|
        {
            &&& 0 <= i < hops.len()
            &&& is_reply(#[trigger] hops[i], rid, target)
            &&& forall|j: int| 0 <= j < i ==> !is_reply(#[trigger] hops[j], rid, target)
            &&& got(f, g, dest_reg, hops[i])
            &&& t.boxes == d.boxes.insert(k, t.boxes[k])
            &&& t.boxes[k].queue.hops == hops.remove(i)
        }
}

/// A flow that looks for a reply takes it if it is there; else it waits for
/// it, is told that the replier is gone, or fails.
pub proof fn replies_are_awaited(
    d: SharedState,
    f: FlowState,
    dest_reg: u8,
    timeout: Option<u64>,
    rid: u64,
    target: FlowId,
    now: u64,
)
    requires
        f.last_receive_dest == Some(dest_reg),
    ensures
        ({
            let (t, out) = crate::scheduler::worker::reply_awaited(
                d,
                f,
                dest_reg,
                timeout,
                rid,
                target,
                now,
            );
            &&& out matches Some(g) ==> had_reply(d, t, f, g, dest_reg, rid, target)
            &&& out is None ==> fails(d, t, f.id) || told_gone(d, t, f, dest_reg, target)
                || (d.boxes.contains_key(target.raw as u128) && waits_for_reply(
                d,
                t,
                f,
                dest_reg,
                timeout,
                rid,
                target,
                now,
            ))
        }),
{
    let (t, out) = crate::scheduler::worker::reply_awaited(
        d,
        f,
        dest_reg,
        timeout,
        rid,
        target,
        now,
    );
    let k = f.id.raw as u128;
    let filter = WaitFilter::Correlation {
        expect_request_id: rid,
        expect_sender: Some(target.raw),
    };
    if !d.boxes.contains_key(k) {
        lemma_failing(d, f, Failure::Refused("mailbox unavailable"));
    } else {
        let b = d.boxes[k];
        let hops = b.queue.hops;
        take_is_fifo(b.queue, filter);
        assert forall|v: Value| #[trigger] accepts(filter, v) <==> is_reply(v, rid, target) by {}
        match crate::scheduler::mailbox::popped(b, filter) {
            (n, Some(v)) => {
                let u = with_box(d, f.id, n);
                values_land_in_their_register(u, received(f), dest_reg, v);
                let i = choose|i: int|
                    {
                        &&& 0 <= i < hops.len()
                        &&& v == #[trigger] hops[i]
                        &&& accepts(filter, v)
                        &&& forall|j: int| 0 <= j < i ==> !accepts(filter, #[trigger] hops[j])
                        &&& n.queue.hops == hops.remove(i)
                    };
                assert(is_reply(hops[i], rid, target));
                assert forall|j: int| 0 <= j < i implies !is_reply(
                    #[trigger] hops[j],
                    rid,
                    target,
                ) by {
                    assert(!accepts(filter, hops[j]));
                }
            },
            (_, None) => {
                assert forall|j: int| 0 <= j < hops.len() implies !is_reply(
                    #[trigger] hops[j],
                    rid,
                    target,
                ) by {
                    assert(!accepts(filter, hops[j]));
                }
                match crate::scheduler::waits::ask_added(d.asks, f.id, target, rid) {
                    (_, Err(e)) => lemma_failing(d, f, Failure::Ask(e)),
                    (asks, Ok(_)) => {
                        let (n, r) = crate::scheduler::mailbox::parked_with(b, f.id, filter);
                        if d.boxes.contains_key(target.raw as u128) {
                            assert(t.boxes =~= d.boxes.insert(k, t.boxes[k]));
                            assert(t.flows =~= d.flows.insert(k, t.flows[k]));
                            assert(t.asks.waits =~= d.asks.waits.insert(k, t.asks.waits[k]));
                            assert(waits_for_reply(
                                d,
                                t,
                                f,
                                dest_reg,
                                timeout,
                                rid,
                                target,
                                now,
                            ));
                        } else {
                            let u = with_box(
                                d,
                                f.id,
                                crate::scheduler::mailbox::unparked(n),
                            );
                            let v = crate::scheduler::finalize::exit_hop(
                                target,
                                FlowExitReason::Fault,
                            );
                            values_land_in_their_register(u, f, dest_reg, v);
                            if resumed(u, f, dest_reg, v).1 is Some {
                                assert(t.flows =~= d.flows.insert(k, t.flows[k]));
                            }
                        }
                    },
                }
            },
        }
    }
}

/// A request goes out like any message; then the asker takes the reply that
/// its target gave to this request, or waits for it.
pub proof fn asks_wait_for_their_reply(
    s: SharedState,
    f: FlowState,
    dest_reg: u8,
    target_cap: CapId,
    m: Message,
    timeout: Option<u64>,
    w: usize,
    now: u64,
    t: SharedState,
    out: Option<FlowState>,
)
    requires
        performed(
            s,
            f,
            Effect::Ask { dest_reg, target_cap, request: Value::Message(m), timeout },
            w,
            now,
            t,
            out,
        ),
        no_empty_token(s.caps),
    ensures
        ({
            ||| out is None && fails(s, t, f.id) && tables_kept(s, t)
            ||| exists|target: FlowId, msg: Message, u: SharedState|
                {
                    &&& leads(s.caps, target_cap, f.id, target, RIGHT_ASK)
                    &&& #[trigger] goes_out(s, f, m, target, msg, u)
                    &&& asked_of(f, m, dest_reg, timeout, target, msg, u, w, now, t, out)
                }
        }),
{
    let ask = Some((dest_reg, timeout));
    let r = lemma_stamps(s, f, w, now, target_cap, RIGHT_ASK, m, ask, t, out);
    if let Some((target, u, h, msg)) = r {
        lemma_dispatched(u, f, h, w, now, target, m, msg, ask);
        let c = counts_one_sent(u);
        assert(goes_out(s, f, m, target, msg, c));
        if out is None && fails(u, t, f.id) && tables_kept(u, t) {
            assert(fails(s, t, f.id));
        } else {
            let (d, status) = delivered(c, Some(w), target, Value::Message(msg));
            if status is Delivered {
                let g = choose|g: FlowState|
                    {
                        &&& goes_on(f, g, m)
                        &&& g.last_receive_dest == Some(dest_reg)
                        &&& (t, out) == #[trigger] crate::scheduler::worker::reply_awaited(
                            d,
                            g,
                            dest_reg,
                            timeout,
                            msg.request_id,
                            target,
                            now,
                        )
                    };
                replies_are_awaited(d, g, dest_reg, timeout, msg.request_id, target, now);
                assert(awaits_from(d, t, g, out, dest_reg, timeout, msg.request_id, target, now));
            }
            assert(asked_of(f, m, dest_reg, timeout, target, msg, c, w, now, t, out));
        }
    }
}

/// What an asker that sent its request does.
pub open spec fn awaits_from(
    d: SharedState,
    t: SharedState,
    g: FlowState,
    out: Option<FlowState>,
    dest_reg: u8,
    timeout: Option<u64>,
    rid: u64,
    target: FlowId,
    now: u64,
) -> bool {
    &&& out matches Some(x) ==> had_reply(d, t, g, x, dest_reg, rid, target)
    &&& out is None ==> fails(d, t, g.id) || told_gone(d, t, g, dest_reg, target)
        || waits_for_reply(d, t, g, dest_reg, timeout, rid, target, now)
}

/// The request came to the target and the asker awaits the reply to it; or it
/// did not come, and the asker waits with it or fails.
pub open spec fn asked_of(
    f: FlowState,
    m: Message,
    dest_reg: u8,
    timeout: Option<u64>,
    target: FlowId,
    msg: Message,
    u: SharedState,
    w: usize,
    now: u64,
    t: SharedState,
    out: Option<FlowState>,
) -> bool {
    let (d, status) = delivered(u, Some(w), target, Value::Message(msg));
    &&& status is Delivered ==> exists|g: FlowState|
        goes_on(f, g, m) && #[trigger] awaits_from(
            d,
            t,
            g,
            out,
            dest_reg,
            timeout,
            msg.request_id,
            target,
            now,
        )
    &&& !(status is Delivered) ==> out is None && (fails(d, t, f.id) || waits_to_send(
        d,
        t,
        f,
        target,
        m,
        msg,
        Some((dest_reg, timeout)),
    ))
}

/// A flow that completes goes out with its value, one that traps with a
/// failure; nothing else changes yet.
pub proof fn ends_are_noted_as_they_are(
    s: SharedState,
    f: FlowState,
    e: Effect,
    w: usize,
    now: u64,
    t: SharedState,
    out: Option<FlowState>,
)
    requires
        performed(s, f, e, w, now, t, out),
        e is Complete || e is Trap,
    ensures
        out is None,
        t.pending.len() == s.pending.len() + 1,
        t.pending.drop_last() == s.pending,
        t.pending.last().flow == f,
        e matches Effect::Complete(v) ==> t.pending.last().outcome == FlowOutcome::Completed(v)
            && t.pending.last().reason is Normal,
        e is Trap ==> fails(s, t, f.id),
        e matches Effect::Trap(fault) ==> (t.pending.last().outcome matches FlowOutcome::Failed(why)
            && *why == Failure::Trap(fault)),
        tables_kept(s, t),
        t.caps == s.caps,
{
    assert(t.pending.drop_last() =~= s.pending);
}

/// A flow that yields stays in the table as it is and is last in the queue of
/// its worker.
pub proof fn yielding_flows_go_to_the_end(
    s: SharedState,
    f: FlowState,
    w: usize,
    now: u64,
    t: SharedState,
    out: Option<FlowState>,
)
    requires
        performed(s, f, Effect::Yield, w, now, t, out),
    ensures
        out is None,
        t.flows == s.flows.insert(f.id.raw as u128, t.flows[f.id.raw as u128]),
        t.flows[f.id.raw as u128].vm == f.vm,
        t.flows[f.id.raw as u128].id == f.id,
        t.flows[f.id.raw as u128].quota == f.quota,
        w < s.locals.len() ==> t.locals == s.locals.update(
            w as int,
            s.locals[w as int].push(f.id),
        ) && t.ready == s.ready,
        w >= s.locals.len() ==> t.locals == s.locals && t.ready == s.ready.push(f.id),
        t.boxes == s.boxes,
        t.pending == s.pending,
        t.timers == s.timers,
        t.caps == s.caps,
{
    reveal(yielded);
    assert(t.flows =~= s.flows.insert(f.id.raw as u128, t.flows[f.id.raw as u128]));
}

/// A flow that sleeps stays in the table as it is, in no queue, and a deadline
/// of its own wakes it after the delay.
pub proof fn sleepers_have_their_deadline(
    s: SharedState,
    f: FlowState,
    delay: u64,
    w: usize,
    now: u64,
    t: SharedState,
    out: Option<FlowState>,
)
    requires
        performed(s, f, Effect::Sleep(delay), w, now, t, out),
        now + delay <= u64::MAX,
    ensures
        out is None,
        t.flows == s.flows.insert(f.id.raw as u128, f),
        t.ready == s.ready,
        t.locals == s.locals,
        t.boxes == s.boxes,
        t.pending == s.pending,
        exists|p: int|
            0 <= p <= s.timers.len() && t.timers == #[trigger] s.timers.insert(
                p,
                TimerEntry {
                    deadline: (now + delay) as u64,
                    payload: TimerPayload::WakeSleeper(f.id),
                },
            ),
{
    reveal(put_to_sleep);
    lemma_slot_bound(s.timers, (now + delay) as u64, s.timers.len());
    let p = crate::scheduler::timer::slot_for(s.timers, (now + delay) as u64, s.timers.len()) as int;
    assert(t.timers == s.timers.insert(
        p,
        TimerEntry {
            deadline: (now + delay) as u64,
            payload: TimerPayload::WakeSleeper(f.id),
        },
    ));
}

proof fn lemma_slot_bound(s: Seq<TimerEntry>, deadline: u64, n: nat)
    ensures
        crate::scheduler::timer::slot_for(s, deadline, n) <= n,
    decreases n,
{
    if n > 0 {
        lemma_slot_bound(s, deadline, (n - 1) as nat);
    }
}

/// A reference as an integer, the largest one if it does not fit.
pub open spec fn is_reference(v: Value, raw: u64) -> bool {
    v is Int && v->Int_0 == (if raw <= i64::MAX {
        raw as int
    } else {
        i64::MAX as int
    })
}

/// A flow that watches another is entered as its watcher, under the reference
/// that it gets; one that is not allowed to, or watches itself, fails.
pub proof fn watches_are_entered(
    s: SharedState,
    f: FlowState,
    dest_reg: u8,
    target_cap: CapId,
    w: usize,
    now: u64,
    t: SharedState,
    out: Option<FlowState>,
)
    requires
        performed(s, f, Effect::Monitor { dest_reg, target_cap }, w, now, t, out),
    ensures
        out matches Some(g) ==> exists|target: FlowId|
            {
                let k = s.monitors.next as u128;
                &&& #[trigger] leads(s.caps, target_cap, f.id, target, RIGHT_MONITOR)
                &&& target != f.id
                &&& t.monitors.monitors == s.monitors.monitors.insert(k, t.monitors.monitors[k])
                &&& t.monitors.monitors[k].owner == f.id
                &&& t.monitors.monitors[k].target == target
                &&& t.monitors.next == s.monitors.next.wrapping_add(1)
                &&& got(f, g, dest_reg, registers_of(g)[dest_reg as int])
                &&& is_reference(registers_of(g)[dest_reg as int], s.monitors.next)
                &&& t.links == s.links
                &&& t.flows == s.flows
                &&& t.boxes == s.boxes
            },
        forall|target: FlowId| #[trigger]
            leads(s.caps, target_cap, f.id, target, RIGHT_MONITOR) && target != f.id && dest_reg
                < registers_of(f).len() && f.vm.frames.len() > 0 ==> out is Some,
        out is None ==> fails(s, t, f.id),
{
    reveal(watch_made);
    lemma_relation(s.caps, target_cap, f.id, RIGHT_MONITOR);
    match crate::scheduler::worker::relation_target(s.caps, target_cap, f.id, RIGHT_MONITOR) {
        Err(why) => lemma_failing(s, f, why),
        Ok(target) => if target == f.id {
            lemma_failing(s, f, Failure::Refused("cannot monitor self"));
        } else {
            let u = SharedState {
                monitors: crate::scheduler::monitor::monitor_added(s.monitors, f.id, target),
                ..s
            };
            let v = crate::scheduler::worker::ref_value(s.monitors.next);
            values_land_in_their_register(u, f, dest_reg, v);
            let k = s.monitors.next as u128;
            if out is Some {
                assert(t.monitors.monitors =~= s.monitors.monitors.insert(
                    k,
                    t.monitors.monitors[k],
                ));
            }
            assert(leads(s.caps, target_cap, f.id, target, RIGHT_MONITOR));
        },
    }
}

proof fn lemma_relation(caps: CapState, id: CapId, holder: FlowId, need: u32)
    ensures
        forall|target: FlowId| #[trigger]
            leads(caps, id, holder, target, need) <==> crate::scheduler::worker::relation_target(
                caps,
                id,
                holder,
                need,
            ) == Ok::<FlowId, Failure>(target),
{
    assert forall|target: FlowId| #[trigger]
        leads(caps, id, holder, target, need) <==> crate::scheduler::worker::relation_target(
            caps,
            id,
            holder,
            need,
        ) == Ok::<FlowId, Failure>(target) by {
        crate::scheduler::lifecycle::tokens_resolve_where_they_lead(
            caps,
            id,
            holder,
            target,
            need,
        );
    }
}

/// A flow that links with another is joined with it, under the number that it
/// gets. Two flows are joined once.
pub proof fn links_are_entered(
    s: SharedState,
    f: FlowState,
    dest_reg: u8,
    target_cap: CapId,
    w: usize,
    now: u64,
    t: SharedState,
    out: Option<FlowState>,
)
    requires
        performed(s, f, Effect::Link { dest_reg, target_cap }, w, now, t, out),
    ensures
        out matches Some(g) ==> exists|target: FlowId|
            {
                let k = s.links.next as u128;
                &&& #[trigger] leads(s.caps, target_cap, f.id, target, RIGHT_LINK)
                &&& target != f.id
                &&& t.links.links == s.links.links.insert(k, Link { a: f.id, b: target })
                &&& t.links.next == s.links.next.wrapping_add(1)
                &&& got(f, g, dest_reg, registers_of(g)[dest_reg as int])
                &&& is_reference(registers_of(g)[dest_reg as int], s.links.next)
                &&& forall|j: u128| #[trigger]
                    s.links.links.contains_key(j) ==> s.links.links[j] != (Link {
                        a: f.id,
                        b: target,
                    }) && s.links.links[j] != (Link { a: target, b: f.id })
                &&& t.monitors == s.monitors
                &&& t.flows == s.flows
                &&& t.boxes == s.boxes
            },
        out is None ==> fails(s, t, f.id),
        s.max_links != 0 && s.links.links.len() >= s.max_links ==> out is None,
{
    reveal(link_made);
    lemma_relation(s.caps, target_cap, f.id, RIGHT_LINK);
    match crate::scheduler::worker::relation_target(s.caps, target_cap, f.id, RIGHT_LINK) {
        Err(why) => lemma_failing(s, f, why),
        Ok(target) => if target == f.id {
            lemma_failing(s, f, Failure::Refused("cannot link self"));
        } else {
            match crate::scheduler::link::bounded_link(s.links, s.max_links, f.id, target) {
                (links, Ok(id)) => {
                    let u = SharedState { links, ..s };
                    values_land_in_their_register(
                        u,
                        f,
                        dest_reg,
                        crate::scheduler::worker::ref_value(id.raw),
                    );
                    assert(leads(s.caps, target_cap, f.id, target, RIGHT_LINK));
                },
                (_, Err(e)) => lemma_failing(s, f, Failure::Lifecycle(e)),
            }
        },
    }
}

/// The reference in a register of the flow.
pub open spec fn refers_to(f: FlowState, reg: u8, raw: u64) -> bool {
    &&& f.vm.frames.len() > 0
    &&& reg < registers_of(f).len()
    &&& registers_of(f)[reg as int] is Int
    &&& registers_of(f)[reg as int]->Int_0 == raw
}

/// Only the watcher drops a watch, and only an end of a link cuts it; nothing
/// else is dropped. Any other reference makes the flow fail.
pub proof fn relations_are_dropped_by_their_own(
    s: SharedState,
    f: FlowState,
    reg: u8,
    raw: u64,
    w: usize,
    now: u64,
    t: SharedState,
    out: Option<FlowState>,
    t2: SharedState,
    out2: Option<FlowState>,
)
    requires
        performed(s, f, Effect::Demonitor { monitor_reg: reg }, w, now, t, out),
        performed(s, f, Effect::Unlink { link_reg: reg }, w, now, t2, out2),
        refers_to(f, reg, raw),
    ensures
        ({
            let k = raw as u128;
            let m = s.monitors.monitors;
            &&& m.contains_key(k) && m[k].owner == f.id ==> out == Some(f) && t.monitors.monitors
                == m.remove(k) && t.monitors.next == s.monitors.next && t.links == s.links
                && t.flows == s.flows
            &&& !(m.contains_key(k) && m[k].owner == f.id) ==> out is None && fails(s, t, f.id)
                && t.monitors == s.monitors
        }),
        ({
            let k = raw as u128;
            let m = s.links.links;
            &&& m.contains_key(k) && (m[k].a == f.id || m[k].b == f.id) ==> out2 == Some(f)
                && t2.links.links == m.remove(k) && t2.links.next == s.links.next && t2.monitors
                == s.monitors && t2.flows == s.flows
            &&& !(m.contains_key(k) && (m[k].a == f.id || m[k].b == f.id)) ==> out2 is None
                && fails(s, t2, f.id) && t2.links == s.links
        }),
{
    reveal(watch_dropped);
    reveal(link_cut);
    if out is None {
        assert(t.pending.drop_last() =~= s.pending);
    }
    if out2 is None {
        assert(t2.pending.drop_last() =~= s.pending);
    }
}

/// A flow that says so traps exits from then on, or no more; one that sets
/// its restart policy has that policy. Nobody else is touched.
pub proof fn settings_are_the_flows_own(
    s: SharedState,
    f: FlowState,
    enabled: bool,
    policy: u8,
    w: usize,
    now: u64,
    t: SharedState,
    out: Option<FlowState>,
    t2: SharedState,
    out2: Option<FlowState>,
)
    requires
        performed(s, f, Effect::SetTrapExit { enabled }, w, now, t, out),
        performed(s, f, Effect::SetRestartPolicy { policy }, w, now, t2, out2),
    ensures
        out == Some(f),
        t.traps.contains_key(f.id.raw as u128) == enabled,
        enabled ==> t.traps[f.id.raw as u128],
        t.traps.remove(f.id.raw as u128) == s.traps.remove(f.id.raw as u128),
        t == (SharedState { traps: t.traps, ..s }),
        policy <= 2 ==> t2 == s && out2 == Some(
            FlowState {
                restart_policy: if policy == 0 {
                    RestartPolicy::Always
                } else if policy == 1 {
                    RestartPolicy::OnFailure
                } else {
                    RestartPolicy::Never
                },
                ..f
            },
        ),
        policy > 2 ==> out2 is None && fails(s, t2, f.id),
{
    reveal(policy_set);
    assert(t.traps.remove(f.id.raw as u128) =~= s.traps.remove(f.id.raw as u128));
    if out2 is None {
        assert(t2.pending.drop_last() =~= s.pending);
    }
}

/// A flow that waits for the host leaves its request with the host: which
/// operation, with what, and under a ticket that leads back to the flow and
/// its register.
pub proof fn host_requests_carry_their_ticket(
    s: SharedState,
    f: FlowState,
    dest_reg: u8,
    op: u32,
    args: Value,
    w: usize,
    now: u64,
    t: SharedState,
    out: Option<FlowState>,
)
    requires
        performed(s, f, Effect::HostAwait { dest_reg, op, args }, w, now, t, out),
    ensures
        out is None,
        fails(s, t, f.id) || {
            let k = f.id.raw as u128;
            &&& s.config.host_await
            &&& t.requests.len() == s.requests.len() + 1
            &&& t.requests.drop_last() == s.requests
            &&& t.requests.last().flow == f.id
            &&& t.requests.last().op == op
            &&& t.requests.last().args == args
            &&& t.requests.last().ticket == s.awaits.next
            &&& t.awaits.waits == s.awaits.waits.insert(k, t.awaits.waits[k])
            &&& t.awaits.waits[k].ticket == s.awaits.next
            &&& t.awaits.waits[k].dest_reg == dest_reg
            &&& t.awaits.next == s.awaits.next.wrapping_add(1)
            &&& t.flows == s.flows.insert(k, f)
            &&& t.ready == s.ready
            &&& t.locals == s.locals
            &&& t.pending == s.pending
        },
        s.config.host_await && !s.awaits.waits.contains_key(f.id.raw as u128) && s.awaits.max == 0
            ==> t.pending == s.pending,
        s.awaits.waits.contains_key(f.id.raw as u128) || !s.config.host_await || (s.awaits.max != 0
            && s.awaits.waits.len() >= s.awaits.max) ==> fails(s, t, f.id),
{
    reveal(host_awaited);
    let k = f.id.raw as u128;
    if t.requests == s.requests {
        assert(t.pending.drop_last() =~= s.pending);
    } else {
        assert(t.requests.drop_last() =~= s.requests);
        assert(t.awaits.waits =~= s.awaits.waits.insert(k, t.awaits.waits[k]));
    }
}

/// When there is room, the message of the first waiting sender is let in,
/// last, and that sender goes on: it is runnable if it only sent, and looks
/// for the reply if it asked. One whose message can never fit fails. Without
/// room nothing moves.
pub proof fn room_lets_the_first_sender_in(s: SharedState, w: usize, id: FlowId, now: u64)
    requires
        s.boxes.contains_key(id.raw as u128),
        !s.boxes[id.raw as u128].closed,
        s.boxes[id.raw as u128].waiting.len() > 0,
        s.flows.contains_key(s.boxes[id.raw as u128].waiting[0].0.raw as u128),
        s.flows[s.boxes[id.raw as u128].waiting[0].0.raw as u128].id
            == s.boxes[id.raw as u128].waiting[0].0,
    ensures
        ({
            let k = id.raw as u128;
            let m = s.boxes[k];
            let (sender, v) = m.waiting[0];
            let j = sender.raw as u128;
            let f = s.flows[j];
            let t = admitted(s, w, id, now);
            &&& hop_bytes(v) > m.queue.byte_limit ==> {
                &&& fails(s, t, sender)
                &&& t.flows == s.flows.remove(j)
                &&& !t.sends.contains_key(j)
                &&& t.boxes[k].waiting == m.waiting.drop_first()
                &&& t.boxes[k].queue == m.queue
            }
            &&& hop_bytes(v) <= m.queue.byte_limit && !has_room(m, v) ==> {
                &&& t.flows == s.flows
                &&& t.sends == s.sends
                &&& t.pending == s.pending
                &&& t.boxes[k].queue == m.queue
                &&& t.boxes[k].waiting == m.waiting
            }
            &&& hop_bytes(v) <= m.queue.byte_limit && has_room(m, v)
                && !(f.pending_send matches Some(PendingSend::Ask { .. })) ==> {
                &&& t.boxes[k].queue.hops == m.queue.hops.push(v)
                &&& t.boxes[k].waiting == m.waiting.drop_first()
                &&& t.flows == s.flows.insert(j, t.flows[j])
                &&& t.flows[j] == (FlowState { pending_send: None, ..f })
                &&& !t.sends.contains_key(j)
                &&& w < s.locals.len() ==> t.locals == s.locals.update(
                    w as int,
                    s.locals[w as int].push(sender),
                ) && t.ready == s.ready
                &&& t.pending == s.pending
            }
        }),
{
    let k = id.raw as u128;
    let m = s.boxes[k];
    let (sender, v) = m.waiting[0];
    let j = sender.raw as u128;
    let t = admitted(s, w, id, now);
    if hop_bytes(v) > m.queue.byte_limit {
        assert(t.pending.drop_last() =~= s.pending);
        assert(t.flows =~= s.flows.remove(j));
    } else if has_room(m, v) && !(s.flows[j].pending_send matches Some(PendingSend::Ask { .. })) {
        assert(t.flows =~= s.flows.insert(j, t.flows[j]));
    }
}

/// An asker whose request was let in late awaits the reply to that request as
/// one whose request came at once.
pub proof fn late_askers_await_their_reply(
    s: SharedState,
    w: usize,
    f: FlowState,
    now: u64,
    dest_reg: u8,
    rid: u64,
    target: FlowId,
    timeout: Option<u64>,
)
    requires
        f.pending_send == Some(
            PendingSend::Ask {
                dest_reg,
                expect_request_id: rid,
                expect_sender: target.raw,
                timeout,
            },
        ),
        f.last_receive_dest == Some(dest_reg),
        s.boxes.contains_key(f.id.raw as u128),
        forall|i: int|
            0 <= i < s.boxes[f.id.raw as u128].queue.hops.len() ==> !is_reply(
                #[trigger] s.boxes[f.id.raw as u128].queue.hops[i],
                rid,
                target,
            ),
    ensures
        ({
            let t = crate::scheduler::deliver::sender_continues(s, w, f, now);
            let g = FlowState { pending_send: None, ..f };
            fails(s, t, f.id) || told_gone(s, t, g, dest_reg, target) || waits_for_reply(
                s,
                t,
                g,
                dest_reg,
                timeout,
                rid,
                target,
                now,
            )
        }),
{
    let g = FlowState { pending_send: None, ..f };
    replies_are_awaited(s, g, dest_reg, timeout, rid, target, now);
    let filter = WaitFilter::Correlation {
        expect_request_id: rid,
        expect_sender: Some(target.raw),
    };
    let b = s.boxes[f.id.raw as u128];
    take_is_fifo(b.queue, filter);
    assert(FlowId { raw: target.raw } == target);
    match crate::scheduler::mailbox::popped(b, filter) {
        (n, Some(v)) => {
            let i = choose|i: int| 0 <= i < b.queue.hops.len() && v == #[trigger] b.queue.hops[i]
                && accepts(filter, v);
            assert(is_reply(b.queue.hops[i], rid, target));
        },
        _ => {},
    }
}

proof fn lemma_evicted(hops: Seq<Value>, limit: usize, byte_limit: usize, cost: nat)
    ensures
        exists|k: int|
            {
                &&& 0 <= k <= hops.len()
                &&& crate::scheduler::mailbox::queue::evicted(hops, limit, byte_limit, cost)
                    == #[trigger] hops.skip(k)
                &&& k < hops.len() ==> hops.skip(k).len() < limit && total_bytes(hops.skip(k))
                    + cost <= byte_limit
                &&& forall|j: int|
                    0 <= j < k ==> !((#[trigger] hops.skip(j)).len() < limit && total_bytes(
                        hops.skip(j),
                    ) + cost <= byte_limit)
            },
    decreases hops.len(),
{
    let fits = hops.len() < limit && total_bytes(hops) + cost <= byte_limit;
    assert(hops.skip(0) =~= hops);
    if hops.len() == 0 || fits {
        assert(0 <= 0int <= hops.len());
    } else {
        let rest = hops.drop_first();
        lemma_evicted(rest, limit, byte_limit, cost);
        let k = choose|k: int|
            {
                &&& 0 <= k <= rest.len()
                &&& crate::scheduler::mailbox::queue::evicted(rest, limit, byte_limit, cost)
                    == #[trigger] rest.skip(k)
                &&& k < rest.len() ==> rest.skip(k).len() < limit && total_bytes(rest.skip(k))
                    + cost <= byte_limit
                &&& forall|j: int|
                    0 <= j < k ==> !((#[trigger] rest.skip(j)).len() < limit && total_bytes(
                        rest.skip(j),
                    ) + cost <= byte_limit)
            };
        assert(rest.skip(k) =~= hops.skip(k + 1));
        assert forall|j: int| 0 <= j < k + 1 implies !((#[trigger] hops.skip(j)).len() < limit
            && total_bytes(hops.skip(j)) + cost <= byte_limit) by {
            if j > 0 {
                assert(rest.skip(j - 1) =~= hops.skip(j));
            }
        }
    }
}

/// Where the oldest give way, only as many do as the new message needs, and
/// it is the newest then.
pub proof fn only_the_oldest_give_way(m: MailboxState, v: Value)
    requires
        !m.closed,
        m.parked is None,
        m.config.policy is DropOldest,
        hop_bytes(v) <= m.queue.byte_limit,
    ensures
        exists|k: int|
            {
                &&& 0 <= k <= m.queue.hops.len()
                &&& crate::scheduler::mailbox::pushed(m, v).0.queue.hops == (
                #[trigger] m.queue.hops.skip(k)).push(v)
                &&& k < m.queue.hops.len() ==> m.queue.hops.skip(k).len() < m.queue.limit
                    && total_bytes(m.queue.hops.skip(k)) + hop_bytes(v) <= m.queue.byte_limit
                &&& forall|j: int|
                    0 <= j < k ==> !((#[trigger] m.queue.hops.skip(j)).len() < m.queue.limit
                        && total_bytes(m.queue.hops.skip(j)) + hop_bytes(v) <= m.queue.byte_limit)
            },
{
    let hops = m.queue.hops;
    lemma_evicted(hops, m.queue.limit, m.queue.byte_limit, hop_bytes(v));
    if has_room(m, v) {
        assert(hops.skip(0) =~= hops);
        let k = choose|k: int|
            {
                &&& 0 <= k <= hops.len()
                &&& crate::scheduler::mailbox::queue::evicted(
                    hops,
                    m.queue.limit,
                    m.queue.byte_limit,
                    hop_bytes(v),
                ) == #[trigger] hops.skip(k)
                &&& forall|j: int|
                    0 <= j < k ==> !((#[trigger] hops.skip(j)).len() < m.queue.limit
                        && total_bytes(hops.skip(j)) + hop_bytes(v) <= m.queue.byte_limit)
            };
        if k > 0 {
            assert(hops.skip(0).len() < m.queue.limit);
        }
    }
}

/// An inbox counts what comes and goes: a message that is kept or handed over
/// came, one that is handed over or taken out went, and one that is turned
/// away is counted as that.
pub proof fn inboxes_count_what_comes_and_goes(m: MailboxState, f: WaitFilter, v: Value)
    requires
        !m.closed,
        m.stats.enqueued < u64::MAX,
        m.stats.dequeued < u64::MAX,
        m.stats.rejected < u64::MAX,
        m.stats.dropped_newest < u64::MAX,
    ensures
        ({
            let (n, r) = crate::scheduler::mailbox::pushed(m, v);
            let waits = m.parked is Some && accepts(m.filter, v);
            &&& waits ==> n.stats.enqueued == m.stats.enqueued + 1 && n.stats.dequeued
                == m.stats.dequeued + 1
            &&& !waits && has_room(m, v) ==> n.stats.enqueued == m.stats.enqueued + 1
                && n.stats.dequeued == m.stats.dequeued && n.stats.rejected == m.stats.rejected
            &&& !waits && !has_room(m, v) && m.config.policy is Reject ==> n.stats.rejected
                == m.stats.rejected + 1 && n.stats.enqueued == m.stats.enqueued
            &&& !waits && !has_room(m, v) && m.config.policy is DropNewest
                ==> n.stats.dropped_newest == m.stats.dropped_newest + 1 && n.stats.enqueued
                == m.stats.enqueued
        }),
        ({
            let (n, r) = crate::scheduler::mailbox::popped(m, f);
            &&& r is Some ==> n.stats.dequeued == m.stats.dequeued + 1 && n.stats.enqueued
                == m.stats.enqueued
            &&& r is None ==> n == m
        }),
{
}

} // verus!
