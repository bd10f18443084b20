//! Driving flows: one slice of execution, and what the flow asked for.
//!
//! A worker takes a flow out of the table, runs its machine, performs the
//! effect that ended the slice, and either goes on with the flow or leaves it
//! parked, queued or on its way out. Nothing of this waits.

use std::sync::Arc;

use vstd::prelude::*;

use crate::bytecode::cap::{
    rights, rights_contain, CapId, CapRights, NativeMask, RIGHTS_ADDRESSING, RIGHT_ASK, RIGHT_LINK,
    RIGHT_MONITOR, RIGHT_NATIVE, RIGHT_RECV, RIGHT_SEND,
};
use crate::bytecode::restart::{policy_of, RestartPolicy};
use crate::bytecode::value::{Message, Value};
use crate::scheduler::capability::{
    attenuated, minted, reply_minted, resolved, target_flow, unused, CapError, CapState,
};
use crate::scheduler::deliver::{
    admitted, ask_parked, delivered, send_parked, with_box, with_deadline, DeliverStatus,
};
use crate::scheduler::error::{RuntimeError, SpawnError};
use crate::scheduler::failure::Failure;
use crate::scheduler::finalize::killed_out;
use crate::scheduler::hops::{authenticate_outgoing_message, id_given, stamped};
use crate::scheduler::host_await::{await_parked, HostAwaitRequest};
use crate::scheduler::link::{bounded_link, link_dropped, LinkId};
use crate::scheduler::link_admin::{check_link, check_monitor, relation_check};
use crate::scheduler::mailbox::config::config_ok;
use crate::scheduler::mailbox::queue::{hop_bytes, WaitFilter};
use crate::scheduler::mailbox::{parked_with, popped};
use crate::scheduler::monitor::{monitor_added, monitor_dropped, FlowExitReason, MonitorRef};
use crate::scheduler::process::{
    failed, Flow, FlowId, FlowMetrics, FlowOutcome, FlowState, PendingSend,
};
use crate::scheduler::quota::{
    alloc_result, allocated, consumed, freed, refilled, FlowQuota, QuotaError,
};
use crate::scheduler::registry::{bounded_register, RegistryName};
use crate::scheduler::runtime::{parent_of, quota_after_spawn, spawned, SpawnRequest};
use crate::scheduler::shared::{
    exiting, failing, kept, queued_for, received, resumed, RuntimeMetrics, Shared, SharedState,
};
use crate::scheduler::timer::{deadline_of, scheduled, TimerEntry, TimerPayload};
use crate::scheduler::waits::trap_set;
use crate::vm::result::Effect;
use crate::vm::state::VmState;

verus! {

/// The filter of a receive.
pub open spec fn filter_of(
    tag: Option<u16>,
    request_id: Option<u64>,
    payload_kind: Option<u8>,
) -> WaitFilter {
    match (tag, request_id) {
        (Some(t), Some(r)) => WaitFilter::TaggedCorrelation { tag: t, expect_request_id: r },
        (Some(t), None) => WaitFilter::Tag(t),
        (None, Some(r)) => WaitFilter::Correlation { expect_request_id: r, expect_sender: None },
        (None, None) => match payload_kind {
            Some(k) => WaitFilter::PayloadKind(k),
            None => WaitFilter::Any,
        },
    }
}

/// The filter of a receive.
pub fn receive_filter(
    match_tag: Option<u16>,
    match_request_id: Option<u64>,
    match_payload_kind: Option<u8>,
) -> (r: WaitFilter)
    ensures
        r == filter_of(match_tag, match_request_id, match_payload_kind),
{
    match (match_tag, match_request_id) {
        (Some(tag), Some(rid)) => WaitFilter::TaggedCorrelation { tag, expect_request_id: rid },
        (Some(tag), None) => WaitFilter::Tag(tag),
        (None, Some(rid)) => WaitFilter::Correlation {
            expect_request_id: rid,
            expect_sender: None,
        },
        (None, None) => match match_payload_kind {
            Some(kind) => WaitFilter::PayloadKind(kind),
            None => WaitFilter::Any,
        },
    }
}

/// The flow that a token which `holder` may use for `need` leads to.
pub open spec fn held_target(caps: CapState, id: CapId, holder: FlowId, need: CapRights) -> Result<
    FlowId,
    CapError,
> {
    match resolved(caps, id, holder, need) {
        Err(e) => Err(e),
        Ok(entry) => match target_flow(entry.cap.target) {
            Some(t) => Ok(t),
            None => Err(CapError::WrongTarget),
        },
    }
}

/// The flow that a link or a watch (`need` says which) may be made with.
pub open spec fn relation_target(caps: CapState, id: CapId, holder: FlowId, need: u32) -> Result<
    FlowId,
    Failure,
> {
    match resolved(caps, id, holder, rights(need)) {
        Err(e) => Err(Failure::Cap(e)),
        Ok(entry) => match target_flow(entry.cap.target) {
            None => Err(Failure::Cap(CapError::WrongTarget)),
            Some(t) => if !caps.cells.contains_key(t.raw as u128) {
                Err(Failure::Cap(CapError::Unknown))
            } else {
                match relation_check(entry.cap, caps.cells[t.raw as u128], t.raw, need) {
                    Err(e) => Err(Failure::Relation(e)),
                    Ok(_) => Ok(t),
                }
            },
        },
    }
}

/// A flow got a token into a register, or failed for want of one.
pub open spec fn address_given(
    s: SharedState,
    f: FlowState,
    dest_reg: u8,
    m: (CapState, Result<CapId, RuntimeError>),
) -> (SharedState, Option<FlowState>) {
    let t = SharedState { caps: m.0, ..s };
    match m.1 {
        Ok(cap) => resumed(t, f, dest_reg, Value::Cap(cap)),
        Err(e) => (failing(t, f, Failure::Runtime(e)), None),
    }
}

/// A drawn token can be used.
pub open spec fn fresh_token(caps: CapState, token: Result<CapId, RuntimeError>) -> bool {
    token matches Ok(id) ==> unused(caps, id)
}

/// `SelfPid`: an address of the flow itself.
#[verifier::opaque]
pub open spec fn self_addressed(
    s: SharedState,
    f: FlowState,
    dest_reg: u8,
    t: SharedState,
    out: Option<FlowState>,
) -> bool {
    exists|token: Result<CapId, RuntimeError>|
        {
            &&& #[trigger] fresh_token(s.caps, token)
            &&& (t, out) == address_given(
                s,
                f,
                dest_reg,
                minted(s.caps, f.id, f.id, rights(RIGHTS_ADDRESSING), token),
            )
        }
}

/// The request of a flow to run another function of its module.
pub open spec fn request_of(f: FlowState, function: u32, req: SpawnRequest) -> bool {
    &&& *req.chunk == f.vm.chunk
    &&& req.natives@ == f.vm.natives
    &&& req.function == function
    &&& req.restart_policy == f.restart_policy
    &&& req.supervisor is None
}

/// The state after a child without an address was marked to be killed.
pub open spec fn child_killed(s: SharedState, child: FlowId) -> SharedState {
    match killed_out(s, child, FlowExitReason::Killed) {
        (t, Some(c)) => exiting(
            t,
            c,
            failed(Failure::Killed(FlowExitReason::Killed)),
            FlowExitReason::Killed,
        ),
        (t, None) => t,
    }
}

/// A parent got the address of its child, or fails and the child with it.
pub open spec fn child_addressed(
    s: SharedState,
    f: FlowState,
    dest_reg: u8,
    child: FlowId,
    m: (CapState, Result<CapId, RuntimeError>),
) -> (SharedState, Option<FlowState>) {
    let t = SharedState { caps: m.0, ..s };
    match m.1 {
        Ok(cap) => resumed(t, f, dest_reg, Value::Cap(cap)),
        Err(e) => (failing(child_killed(t, child), f, Failure::Runtime(e)), None),
    }
}

/// `Spawn`: a child flow, and its address.
#[verifier::opaque]
pub open spec fn child_spawned(
    s: SharedState,
    f: FlowState,
    function: u32,
    args: Seq<Value>,
    dest_reg: u8,
    want: CapRights,
    now: u64,
    t: SharedState,
    out: Option<FlowState>,
) -> bool {
    exists|req: SpawnRequest, mid: SharedState, r: Result<FlowId, SpawnError>|
        {
            let g = FlowState {
                quota: quota_after_spawn(s, req, parent_of(f, want), now),
                ..f
            };
            &&& request_of(f, function, req)
            &&& #[trigger] spawned(s, req, Some(parent_of(f, want)), args, now, mid, r)
            &&& match r {
                Err(e) => (t, out) == (failing(mid, g, Failure::Spawn(e)), None::<FlowState>),
                Ok(child) => exists|token: Result<CapId, RuntimeError>|
                    {
                        &&& #[trigger] fresh_token(mid.caps, token)
                        &&& (t, out) == child_addressed(
                            mid,
                            g,
                            dest_reg,
                            child,
                            minted(mid.caps, f.id, child, rights(RIGHTS_ADDRESSING), token),
                        )
                    },
            }
        }
}

/// The flow after it sent a message, charged for it.
pub open spec fn sender_charged(f: FlowState, cost: usize, reply_to: Option<u8>) -> FlowState {
    FlowState {
        quota: allocated(f.quota, cost),
        last_receive_dest: match reply_to {
            Some(d) => Some(d),
            None => f.last_receive_dest,
        },
        metrics: FlowMetrics {
            messages_sent: f.metrics.messages_sent.wrapping_add(1),
            ..f.metrics
        },
        ..f
    }
}

/// The flow after the charge for its message was given back.
pub open spec fn sender_refunded(f: FlowState, cost: usize) -> FlowState {
    FlowState { quota: freed(f.quota, cost), ..f }
}

/// A flow looked for the reply to its request and waits if it is not there.
pub open spec fn reply_awaited(
    s: SharedState,
    f: FlowState,
    dest_reg: u8,
    timeout: Option<u64>,
    request_id: u64,
    target: FlowId,
    now: u64,
) -> (SharedState, Option<FlowState>) {
    let k = f.id.raw as u128;
    if !s.boxes.contains_key(k) {
        (failing(s, f, Failure::Refused("mailbox unavailable")), None)
    } else {
        match popped(
            s.boxes[k],
            WaitFilter::Correlation {
                expect_request_id: request_id,
                expect_sender: Some(target.raw),
            },
        ) {
            (m, Some(v)) => resumed(with_box(s, f.id, m), received(f), dest_reg, v),
            (_, None) => (ask_parked(s, f, dest_reg, timeout, request_id, target, now), None),
        }
    }
}

/// What a sender waits to do once there is room.
pub open spec fn continuation(
    ask: Option<(u8, Option<u64>)>,
    request_id: u64,
    target: FlowId,
) -> PendingSend {
    match ask {
        None => PendingSend::FireAndForget,
        Some((dest_reg, timeout)) => PendingSend::Ask {
            dest_reg,
            expect_request_id: request_id,
            expect_sender: target.raw,
            timeout,
        },
    }
}

/// A stamped message went out; `ask` is where its reply goes and how long it
/// may take, if the flow waits for one.
pub open spec fn dispatched(
    s: SharedState,
    f: FlowState,
    w: usize,
    now: u64,
    target: FlowId,
    msg: Message,
    ask: Option<(u8, Option<u64>)>,
) -> (SharedState, Option<FlowState>) {
    let v = Value::Message(msg);
    let cost = hop_bytes(v) as usize;
    match alloc_result(f.quota, cost) {
        Err(e) => (failing(s, f, Failure::Quota(e)), None),
        Ok(_) => {
            let g = sender_charged(
                f,
                cost,
                match ask {
                    Some((d, _)) => Some(d),
                    None => None,
                },
            );
            let u = SharedState {
                metrics: RuntimeMetrics {
                    messages_sent: s.metrics.messages_sent.wrapping_add(1),
                    ..s.metrics
                },
                ..s
            };
            match delivered(u, Some(w), target, v) {
                (t, DeliverStatus::Delivered) => {
                    let h = sender_refunded(g, cost);
                    match ask {
                        None => (t, Some(h)),
                        Some((dest_reg, timeout)) => reply_awaited(
                            t,
                            h,
                            dest_reg,
                            timeout,
                            msg.request_id,
                            target,
                            now,
                        ),
                    }
                },
                (t, DeliverStatus::Full) => (
                    send_parked(t, g, target, v, continuation(ask, msg.request_id, target)),
                    None,
                ),
                (t, DeliverStatus::Gone) => (
                    failing(
                        t,
                        sender_refunded(g, cost),
                        Failure::Refused("send target gone"),
                    ),
                    None,
                ),
            }
        },
    }
}

/// `Send` and `Ask`: the token is resolved, the rate is checked, the message
/// is stamped and goes out.
#[verifier::opaque]
pub open spec fn message_sent(
    s: SharedState,
    f: FlowState,
    w: usize,
    now: u64,
    cap: CapId,
    need: u32,
    message: Value,
    ask: Option<(u8, Option<u64>)>,
    t: SharedState,
    out: Option<FlowState>,
) -> bool {
    match message {
        Value::Message(m) => match held_target(s.caps, cap, f.id, rights(need)) {
            Err(e) => (t, out) == (failing(s, f, Failure::Cap(e)), None::<FlowState>),
            Ok(target) => {
                let g = FlowState {
                    quota: FlowQuota {
                        send_bucket: consumed(f.quota.send_bucket, now),
                        ..f.quota
                    },
                    ..f
                };
                if refilled(f.quota.send_bucket, now).tokens <= 0 {
                    (t, out) == (
                        failing(s, g, Failure::Quota(QuotaError::SendRateExceeded)),
                        None::<FlowState>,
                    )
                } else {
                    let h = FlowState { vm: id_given(g.vm, m), ..g };
                    exists|caps: CapState, r: Result<Message, CapError>|
                        {
                            &&& #[trigger] stamped(s.caps, g.vm, f.id, target, m, caps, r)
                            &&& match r {
                                Err(e) => (t, out) == (
                                    failing(SharedState { caps, ..s }, h, Failure::Cap(e)),
                                    None::<FlowState>,
                                ),
                                Ok(msg) => (t, out) == dispatched(
                                    SharedState { caps, ..s },
                                    h,
                                    w,
                                    now,
                                    target,
                                    msg,
                                    ask,
                                ),
                            }
                        }
                }
            },
        },
        _ => (t, out) == (
            failing(
                s,
                f,
                Failure::Refused(
                    if ask is Some {
                        "Ask invariant broken: request is not Value::Message"
                    } else {
                        "Send invariant broken: hop is not Value::Message"
                    },
                ),
            ),
            None::<FlowState>,
        ),
    }
}

/// `Receive`: a message that is there is taken, else the flow waits.
#[verifier::opaque]
pub open spec fn message_received(
    s: SharedState,
    f: FlowState,
    w: usize,
    now: u64,
    dest_reg: u8,
    timeout: Option<u64>,
    filter: WaitFilter,
) -> (SharedState, Option<FlowState>) {
    let k = f.id.raw as u128;
    if !rights_contain(f.authority.rights, rights(RIGHT_RECV)) {
        (failing(s, f, Failure::Refused("receive denied: flow lacks RECV right")), None)
    } else {
        let g = FlowState { last_receive_dest: Some(dest_reg), ..f };
        if !s.boxes.contains_key(k) {
            (failing(s, g, Failure::Refused("mailbox unavailable")), None)
        } else {
            match parked_with(s.boxes[k], f.id, filter) {
                (m, Err(v)) => match resumed(with_box(s, f.id, m), received(g), dest_reg, v) {
                    (t, Some(h)) => (admitted(t, w, f.id, now), Some(h)),
                    (t, None) => (t, None),
                },
                (m, Ok(epoch)) => (
                    with_deadline(
                        kept(with_box(s, f.id, m), f.id, g),
                        f.id,
                        dest_reg,
                        timeout,
                        epoch,
                        now,
                    ),
                    None,
                ),
            }
        }
    }
}

/// A reference as a value; the largest integer if it does not fit.
pub open spec fn ref_value(raw: u64) -> Value {
    Value::Int(
        if raw <= i64::MAX {
            raw as i64
        } else {
            i64::MAX
        },
    )
}

/// Register `reg` of the active frame, if it is there.
pub open spec fn top_register(vm: VmState, reg: u8) -> Option<Value> {
    if vm.frames.len() > 0 && reg < vm.frames.last().registers.len() {
        Some(vm.frames.last().registers[reg as int])
    } else {
        None
    }
}

/// The reference in a register.
pub open spec fn ref_in(vm: VmState, reg: u8) -> Option<u64> {
    match top_register(vm, reg) {
        Some(Value::Int(n)) if n >= 0 => Some(n as u64),
        _ => None,
    }
}

/// `Monitor`: a watch on another flow.
#[verifier::opaque]
pub open spec fn watch_made(s: SharedState, f: FlowState, dest_reg: u8, cap: CapId) -> (
    SharedState,
    Option<FlowState>,
) {
    match relation_target(s.caps, cap, f.id, RIGHT_MONITOR) {
        Err(why) => (failing(s, f, why), None),
        Ok(target) => if target == f.id {
            (failing(s, f, Failure::Refused("cannot monitor self")), None)
        } else {
            resumed(
                SharedState { monitors: monitor_added(s.monitors, f.id, target), ..s },
                f,
                dest_reg,
                ref_value(s.monitors.next),
            )
        },
    }
}

/// `Demonitor`: a watch is dropped.
#[verifier::opaque]
pub open spec fn watch_dropped(s: SharedState, f: FlowState, reg: u8) -> (
    SharedState,
    Option<FlowState>,
) {
    match ref_in(f.vm, reg) {
        None => (failing(s, f, Failure::Refused("demonitor: expected Int ref")), None),
        Some(raw) => match monitor_dropped(s.monitors, f.id, MonitorRef { raw }) {
            (monitors, Ok(_)) => (SharedState { monitors, ..s }, Some(f)),
            (_, Err(e)) => (failing(s, f, Failure::Lifecycle(e)), None),
        },
    }
}

/// `Link`: a link with another flow.
#[verifier::opaque]
pub open spec fn link_made(s: SharedState, f: FlowState, dest_reg: u8, cap: CapId) -> (
    SharedState,
    Option<FlowState>,
) {
    match relation_target(s.caps, cap, f.id, RIGHT_LINK) {
        Err(why) => (failing(s, f, why), None),
        Ok(target) => if target == f.id {
            (failing(s, f, Failure::Refused("cannot link self")), None)
        } else {
            match bounded_link(s.links, s.max_links, f.id, target) {
                (links, Ok(id)) => resumed(
                    SharedState { links, ..s },
                    f,
                    dest_reg,
                    ref_value(id.raw),
                ),
                (_, Err(e)) => (failing(s, f, Failure::Lifecycle(e)), None),
            }
        },
    }
}

/// `Unlink`: a link is dropped.
#[verifier::opaque]
pub open spec fn link_cut(s: SharedState, f: FlowState, reg: u8) -> (
    SharedState,
    Option<FlowState>,
) {
    match ref_in(f.vm, reg) {
        None => (failing(s, f, Failure::Refused("unlink: expected Int id")), None),
        Some(raw) => match link_dropped(s.links, f.id, LinkId { raw }) {
            (links, Ok(_)) => (SharedState { links, ..s }, Some(f)),
            (_, Err(e)) => (failing(s, f, Failure::Lifecycle(e)), None),
        },
    }
}

/// `SetRestartPolicy`: the policy at the end of the flow.
#[verifier::opaque]
pub open spec fn policy_set(s: SharedState, f: FlowState, policy: u8) -> (
    SharedState,
    Option<FlowState>,
) {
    match policy_of(policy) {
        Some(p) => (s, Some(FlowState { restart_policy: p, ..f })),
        None => (failing(s, f, Failure::Refused("unknown restart policy")), None),
    }
}

/// `HostAwait`: the flow waits for the host.
#[verifier::opaque]
pub open spec fn host_awaited(s: SharedState, f: FlowState, dest_reg: u8, op: u32, args: Value) -> (
    SharedState,
    Option<FlowState>,
) {
    if !s.config.host_await {
        (failing(s, f, Failure::Refused("HostAwait: no bridge configured")), None)
    } else {
        match await_parked(s.awaits, f.id, dest_reg) {
            (_, Err(e)) => (failing(s, f, Failure::HostAwait(e)), None),
            (awaits, Ok(ticket)) => (
                kept(
                    SharedState {
                        awaits,
                        requests: s.requests.push(
                            HostAwaitRequest { flow: f.id, op, args, ticket },
                        ),
                        ..s
                    },
                    f.id,
                    f,
                ),
                None,
            ),
        }
    }
}

/// `RegisterName` with the token that was drawn.
pub open spec fn name_registered(
    s: SharedState,
    f: FlowState,
    name: Seq<char>,
    m: (CapState, Result<CapId, RuntimeError>),
) -> (SharedState, Option<FlowState>) {
    let t = SharedState { caps: m.0, ..s };
    match m.1 {
        Err(e) => (failing(t, f, Failure::Runtime(e)), None),
        Ok(cap) => match bounded_register(t.names, t.max_names, name, cap, f.id) {
            (names, Ok(_)) => (SharedState { names, ..t }, Some(f)),
            (_, Err(e)) => (failing(t, f, Failure::Lifecycle(e)), None),
        },
    }
}

/// `RegisterName`: a name for the flow itself.
#[verifier::opaque]
pub open spec fn name_taken(
    s: SharedState,
    f: FlowState,
    name: Seq<char>,
    t: SharedState,
    out: Option<FlowState>,
) -> bool {
    if !rights_contain(f.authority.rights, rights(RIGHT_SEND)) {
        (t, out) == (
            failing(s, f, Failure::Refused("register_name denied: flow lacks SEND right")),
            None::<FlowState>,
        )
    } else if name.len() == 0 {
        (t, out) == (
            failing(s, f, Failure::Refused("register_name: name must be non-empty")),
            None::<FlowState>,
        )
    } else {
        exists|token: Result<CapId, RuntimeError>|
            {
                &&& #[trigger] fresh_token(s.caps, token)
                &&& (t, out) == name_registered(
                    s,
                    f,
                    name,
                    minted(s.caps, f.id, f.id, rights(RIGHTS_ADDRESSING), token),
                )
            }
    }
}

/// `Whereis`: an address of a named flow, or unit.
#[verifier::opaque]
pub open spec fn name_looked_up(
    s: SharedState,
    f: FlowState,
    dest_reg: u8,
    name: Seq<char>,
    t: SharedState,
    out: Option<FlowState>,
) -> bool {
    if s.names.contains_key(name) && s.boxes.contains_key(s.names[name].flow.raw as u128) {
        exists|token: Result<CapId, RuntimeError>|
            {
                &&& #[trigger] fresh_token(s.caps, token)
                &&& (t, out) == address_given(
                    s,
                    f,
                    dest_reg,
                    reply_minted(
                        s.caps,
                        f.id,
                        s.names[name].flow,
                        rights(RIGHT_SEND),
                        token,
                    ),
                )
            }
    } else {
        (t, out) == resumed(s, f, dest_reg, Value::Unit)
    }
}

/// `Delegate` with the native mask that is wanted.
pub open spec fn cap_narrowed(
    s: SharedState,
    f: FlowState,
    dest_reg: u8,
    src: CapId,
    want: CapRights,
    native: Option<NativeMask>,
    t: SharedState,
    out: Option<FlowState>,
) -> bool {
    exists|token: Result<CapId, RuntimeError>|
        {
            &&& #[trigger] fresh_token(s.caps, token)
            &&& cap_narrowed_as(s, f, dest_reg, src, want, native, token, t, out)
        }
}

/// `Delegate` with the native mask that is wanted and the token that was
/// drawn.
pub open spec fn cap_narrowed_as(
    s: SharedState,
    f: FlowState,
    dest_reg: u8,
    src: CapId,
    want: CapRights,
    native: Option<NativeMask>,
    token: Result<CapId, RuntimeError>,
    t: SharedState,
    out: Option<FlowState>,
) -> bool {
    exists|caps: CapState, r: Result<CapId, CapError>|
        {
            &&& #[trigger] attenuated(s.caps, src, f.id, f.id, want, native, token, caps, r)
            &&& (t, out) == (match r {
                Ok(new) => resumed(SharedState { caps, ..s }, f, dest_reg, Value::Cap(new)),
                Err(e) => (failing(SharedState { caps, ..s }, f, Failure::Cap(e)), None),
            })
        }
}

/// `Delegate`: a weaker token.
#[verifier::opaque]
pub open spec fn cap_delegated(
    s: SharedState,
    f: FlowState,
    dest_reg: u8,
    src: CapId,
    want: CapRights,
    want_native: Option<CapId>,
    t: SharedState,
    out: Option<FlowState>,
) -> bool {
    match want_native {
        None => cap_narrowed(s, f, dest_reg, src, want, None, t, out),
        Some(id) => match resolved(s.caps, id, f.id, rights(RIGHT_NATIVE)) {
            Err(e) => (t, out) == (failing(s, f, Failure::Cap(e)), None::<FlowState>),
            Ok(entry) => cap_narrowed(s, f, dest_reg, src, want, entry.cap.native_mask, t, out),
        },
    }
}

/// A slice ended with a yield: the flow goes to the end of the queue.
#[verifier::opaque]
pub open spec fn yielded(s: SharedState, f: FlowState, w: usize) -> SharedState {
    queued_for(
        kept(
            SharedState {
                metrics: RuntimeMetrics {
                    reschedules: s.metrics.reschedules.wrapping_add(1),
                    ..s.metrics
                },
                ..s
            },
            f.id,
            FlowState {
                metrics: FlowMetrics {
                    reschedules: f.metrics.reschedules.wrapping_add(1),
                    ..f.metrics
                },
                ..f
            },
        ),
        Some(w),
        f.id,
    )
}

/// `Sleep`: the flow is runnable again after `delay`.
#[verifier::opaque]
pub open spec fn put_to_sleep(s: SharedState, f: FlowState, delay: u64, now: u64) -> SharedState {
    kept(
        SharedState {
            timers: scheduled(
                s.timers,
                TimerEntry {
                    deadline: deadline_of(now, delay),
                    payload: TimerPayload::WakeSleeper(f.id),
                },
            ),
            ..s
        },
        f.id,
        f,
    )
}

/// What performing an effect did. The flow that is left goes on running; the
/// host's natives and the arithmetic of doubles are left to the host.
pub open spec fn performed(
    s: SharedState,
    f: FlowState,
    e: Effect,
    w: usize,
    now: u64,
    t: SharedState,
    out: Option<FlowState>,
) -> bool {
    match e {
        Effect::Complete(v) => (t, out) == (
            exiting(s, f, FlowOutcome::Completed(v), FlowExitReason::Normal),
            None::<FlowState>,
        ),
        Effect::Trap(fault) => (t, out) == (failing(s, f, Failure::Trap(fault)), None::<FlowState>),
        Effect::Yield => (t, out) == (yielded(s, f, w), None::<FlowState>),
        Effect::Sleep(delay) => (t, out) == (put_to_sleep(s, f, delay, now), None::<FlowState>),
        Effect::SelfPid { dest_reg } => self_addressed(s, f, dest_reg, t, out),
        Effect::Spawn { function, args, dest_reg, requested_rights } => child_spawned(
            s,
            f,
            function,
            args,
            dest_reg,
            requested_rights,
            now,
            t,
            out,
        ),
        Effect::Send { target_cap, message } => message_sent(
            s,
            f,
            w,
            now,
            target_cap,
            RIGHT_SEND,
            message,
            None,
            t,
            out,
        ),
        Effect::Ask { dest_reg, target_cap, request, timeout } => message_sent(
            s,
            f,
            w,
            now,
            target_cap,
            RIGHT_ASK,
            request,
            Some((dest_reg, timeout)),
            t,
            out,
        ),
        Effect::Receive { dest_reg, timeout, match_tag, match_request_id, match_payload_kind } => (
            t,
            out,
        ) == message_received(
            s,
            f,
            w,
            now,
            dest_reg,
            timeout,
            filter_of(match_tag, match_request_id, match_payload_kind),
        ),
        Effect::Monitor { dest_reg, target_cap } => (t, out) == watch_made(
            s,
            f,
            dest_reg,
            target_cap,
        ),
        Effect::Demonitor { monitor_reg } => (t, out) == watch_dropped(s, f, monitor_reg),
        Effect::Link { dest_reg, target_cap } => (t, out) == link_made(s, f, dest_reg, target_cap),
        Effect::Unlink { link_reg } => (t, out) == link_cut(s, f, link_reg),
        Effect::SetTrapExit { enabled } => (t, out) == (
            SharedState { traps: trap_set(s.traps, f.id, enabled), ..s },
            Some(f),
        ),
        Effect::SetRestartPolicy { policy } => (t, out) == policy_set(s, f, policy),
        Effect::HostAwait { dest_reg, op, args } => (t, out) == host_awaited(
            s,
            f,
            dest_reg,
            op,
            args,
        ),
        Effect::RegisterName { name } => name_taken(s, f, name@, t, out),
        Effect::Whereis { dest_reg, name } => name_looked_up(s, f, dest_reg, name@, t, out),
        Effect::Delegate { dest_reg, src_cap, want_rights, want_native_cap } => cap_delegated(
            s,
            f,
            dest_reg,
            src_cap,
            want_rights,
            want_native_cap,
            t,
            out,
        ),
        Effect::CallHost { .. } | Effect::FloatOp { .. } => (t, out) == (s, Some(f)),
    }
}

/// Model of an optional flow.
pub open spec fn flow_view(f: Option<Flow>) -> Option<FlowState> {
    match f {
        Some(x) => Some(x@),
        None => None,
    }
}

impl Shared {
    fn resolve_cap_held(&self, id: CapId, holder: FlowId, need: CapRights) -> (r: Result<
        FlowId,
        CapError,
    >)
        ensures
            r == held_target(self@.caps, id, holder, need),
    {
        match self.caps.resolve(id, holder, need) {
            Err(e) => Err(e),
            Ok(entry) => match entry.target() {
                Some(t) => Ok(t),
                None => Err(CapError::WrongTarget),
            },
        }
    }

    fn resolve_relation_cap(&self, id: CapId, holder: FlowId, linking: bool) -> (r: Result<
        FlowId,
        Failure,
    >)
        ensures
            r == relation_target(
                self@.caps,
                id,
                holder,
                if linking {
                    RIGHT_LINK
                } else {
                    RIGHT_MONITOR
                },
            ),
    {
        let need = if linking {
            CapRights::link()
        } else {
            CapRights::monitor()
        };
        let entry = match self.caps.resolve(id, holder, need) {
            Ok(e) => e,
            Err(e) => return Err(Failure::Cap(e)),
        };
        let target = match entry.target() {
            Some(t) => t,
            None => return Err(Failure::Cap(CapError::WrongTarget)),
        };
        let cell = match self.caps.flow_cell(target) {
            Some(c) => c,
            None => return Err(Failure::Cap(CapError::Unknown)),
        };
        let check = if linking {
            check_link(&entry.cap, &cell, target.as_u64())
        } else {
            check_monitor(&entry.cap, &cell, target.as_u64())
        };
        match check {
            Ok(_) => Ok(target),
            Err(e) => Err(Failure::Relation(e)),
        }
    }

    pub(crate) fn do_self_pid(&mut self, flow: Flow, dest_reg: u8) -> (r: Option<Flow>)
        ensures
            self_addressed(old(self)@, flow@, dest_reg, final(self)@, flow_view(r)),
    {
        reveal(self_addressed);
        let token = self.caps.draw();
        assert(fresh_token(old(self)@.caps, token));
        self.self_pid_as(flow, dest_reg, token)
    }

    /// `SelfPid` with a drawn token.
    pub fn self_pid_as(
        &mut self,
        flow: Flow,
        dest_reg: u8,
        token: Result<CapId, RuntimeError>,
    ) -> (r: Option<Flow>)
        ensures
            (final(self)@, flow_view(r)) == address_given(
                old(self)@,
                flow@,
                dest_reg,
                minted(
                    old(self)@.caps,
                    flow@.id,
                    flow@.id,
                    rights(RIGHTS_ADDRESSING),
                    token,
                ),
            ),
    {
        let id = flow.id;
        match self.caps.mint_as(id, id, CapRights::addressing(), token) {
            Ok(cap) => self.resume_or_fail(flow, dest_reg, Value::Cap(cap)),
            Err(e) => {
                self.fail_flow(flow, Failure::Runtime(e));
                None
            },
        }
    }

    pub(crate) fn do_spawn(
        &mut self,
        flow: Flow,
        function: u32,
        args: Vec<Value>,
        dest_reg: u8,
        want: CapRights,
        now: u64,
    ) -> (r: Option<Flow>)
        requires
            config_ok(old(self).config.mailbox),
        ensures
            child_spawned(
                old(self)@,
                flow@,
                function,
                args@,
                dest_reg,
                want,
                now,
                final(self)@,
                flow_view(r),
            ),
    {
        reveal(child_spawned);
        let mut flow = flow;
        let ghost f = flow@;
        let req = SpawnRequest {
            chunk: flow.vm.chunk_arc(),
            natives: flow.vm.natives_arc(),
            function,
            restart_policy: flow.restart_policy,
            supervisor: None,
        };
        assert(request_of(f, function, req));
        let answer = self.spawn_child(&mut flow, want, &req, args.as_slice(), now);
        let ghost mid = self@;
        assert(spawned(
            old(self)@,
            req,
            Some(parent_of(f, want)),
            args@,
            now,
            mid,
            answer,
        ));
        match answer {
            Err(e) => {
                self.fail_flow(flow, Failure::Spawn(e));
                None
            },
            Ok(child) => {
                let token = self.caps.draw();
                assert(fresh_token(mid.caps, token));
                self.child_address_as(flow, dest_reg, child, token)
            },
        }
    }

    /// The address of a child that was spawned, with a drawn token.
    pub fn child_address_as(
        &mut self,
        flow: Flow,
        dest_reg: u8,
        child: FlowId,
        token: Result<CapId, RuntimeError>,
    ) -> (r: Option<Flow>)
        ensures
            (final(self)@, flow_view(r)) == child_addressed(
                old(self)@,
                flow@,
                dest_reg,
                child,
                minted(old(self)@.caps, flow@.id, child, rights(RIGHTS_ADDRESSING), token),
            ),
    {
        let id = flow.id;
        match self.caps.mint_as(id, child, CapRights::addressing(), token) {
            Ok(cap) => self.resume_or_fail(flow, dest_reg, Value::Cap(cap)),
            Err(e) => {
                if let Some(c) = self.extract_for_kill(child, FlowExitReason::Killed) {
                    self.exit_flow(
                        c,
                        FlowOutcome::Failed(Arc::new(Failure::Killed(FlowExitReason::Killed))),
                        FlowExitReason::Killed,
                    );
                }
                self.fail_flow(flow, Failure::Runtime(e));
                None
            },
        }
    }

    /// Send a stamped message out.
    pub fn dispatch(
        &mut self,
        flow: Flow,
        w: usize,
        now: u64,
        target: FlowId,
        msg: Message,
        ask: Option<(u8, Option<u64>)>,
    ) -> (r: Option<Flow>)
        ensures
            (final(self)@, flow_view(r)) == dispatched(
                old(self)@,
                flow@,
                w,
                now,
                target,
                msg,
                ask,
            ),
    {
        let mut flow = flow;
        let request_id: u64 = msg.request_id;
        let hop = Value::Message(msg);
        let cost: usize = hop.memory_size();
        match flow.quota.allocate(cost) {
            Ok(_) => {},
            Err(e) => {
                self.fail_flow(flow, Failure::Quota(e));
                return None;
            },
        }
        if let Some((dest_reg, _)) = ask {
            flow.last_receive_dest = Some(dest_reg);
        }
        flow.metrics.messages_sent = flow.metrics.messages_sent.wrapping_add(1);
        self.metrics.messages_sent = self.metrics.messages_sent.wrapping_add(1);
        match self.deliver(Some(w), target, hop.clone()) {
            DeliverStatus::Delivered => {
                flow.quota.free(cost);
                match ask {
                    None => Some(flow),
                    Some((dest_reg, timeout)) => self.await_reply(
                        flow,
                        dest_reg,
                        timeout,
                        request_id,
                        target,
                        now,
                    ),
                }
            },
            DeliverStatus::Full => {
                let pending = match ask {
                    None => PendingSend::FireAndForget,
                    Some((dest_reg, timeout)) => PendingSend::Ask {
                        dest_reg,
                        expect_request_id: request_id,
                        expect_sender: target.as_u64(),
                        timeout,
                    },
                };
                self.park_waiting_send(flow, target, hop, pending);
                None
            },
            DeliverStatus::Gone => {
                flow.quota.free(cost);
                self.fail_flow(flow, Failure::Refused("send target gone"));
                None
            },
        }
    }

    fn await_reply(
        &mut self,
        flow: Flow,
        dest_reg: u8,
        timeout: Option<u64>,
        request_id: u64,
        target: FlowId,
        now: u64,
    ) -> (r: Option<Flow>)
        ensures
            (final(self)@, flow_view(r)) == reply_awaited(
                old(self)@,
                flow@,
                dest_reg,
                timeout,
                request_id,
                target,
                now,
            ),
    {
        let mut flow = flow;
        let id = flow.id;
        let ghost s0 = self@;
        let mut mailbox = match self.directory.take(id) {
            Some(m) => m,
            None => {
                assert(self@.boxes =~= s0.boxes);
                self.fail_flow(flow, Failure::Refused("mailbox unavailable"));
                return None;
            },
        };
        let got = mailbox.try_pop_filter(
            WaitFilter::Correlation {
                expect_request_id: request_id,
                expect_sender: Some(target.as_u64()),
            },
        );
        self.put_box(id, mailbox);
        assert(self@.boxes =~= s0.boxes.insert(id.raw as u128, mailbox@));
        match got {
            Some(v) => {
                flow.metrics.messages_received = flow.metrics.messages_received.wrapping_add(1);
                self.resume_or_fail(flow, dest_reg, v)
            },
            None => {
                assert(self@.boxes =~= s0.boxes);
                self.park_ask(flow, dest_reg, timeout, request_id, target, now);
                None
            },
        }
    }

    pub(crate) fn do_send(
        &mut self,
        flow: Flow,
        w: usize,
        now: u64,
        cap: CapId,
        message: Value,
        ask: Option<(u8, Option<u64>)>,
    ) -> (r: Option<Flow>)
        ensures
            message_sent(
                old(self)@,
                flow@,
                w,
                now,
                cap,
                if ask is Some {
                    RIGHT_ASK
                } else {
                    RIGHT_SEND
                },
                message,
                ask,
                final(self)@,
                flow_view(r),
            ),
    {
        reveal(message_sent);
        let mut flow = flow;
        let id = flow.id;
        let msg = match message {
            Value::Message(m) => m,
            _ => {
                let why = if ask.is_some() {
                    "Ask invariant broken: request is not Value::Message"
                } else {
                    "Send invariant broken: hop is not Value::Message"
                };
                self.fail_flow(flow, Failure::Refused(why));
                return None;
            },
        };
        let need = if ask.is_some() {
            CapRights::ask()
        } else {
            CapRights::send()
        };
        let target = match self.resolve_cap_held(cap, id, need) {
            Ok(t) => t,
            Err(e) => {
                self.fail_flow(flow, Failure::Cap(e));
                return None;
            },
        };
        match flow.quota.check_send(now) {
            Ok(_) => {},
            Err(e) => {
                self.fail_flow(flow, Failure::Quota(e));
                return None;
            },
        }
        let ghost g = flow@;
        let answer = authenticate_outgoing_message(
            &mut self.caps,
            id,
            target,
            msg,
            &mut flow.vm,
        );
        assert(stamped(old(self)@.caps, g.vm, id, target, msg, self@.caps, answer));
        match answer {
            Ok(m) => self.dispatch(flow, w, now, target, m, ask),
            Err(e) => {
                self.fail_flow(flow, Failure::Cap(e));
                None
            },
        }
    }

    pub(crate) fn do_receive(
        &mut self,
        flow: Flow,
        w: usize,
        now: u64,
        dest_reg: u8,
        timeout: Option<u64>,
        filter: WaitFilter,
    ) -> (r: Option<Flow>)
        ensures
            (final(self)@, flow_view(r)) == message_received(
                old(self)@,
                flow@,
                w,
                now,
                dest_reg,
                timeout,
                filter,
            ),
    {
        reveal(message_received);
        let mut flow = flow;
        let id = flow.id;
        let ghost s0 = self@;
        if !flow.authority.rights.contains(CapRights::recv()) {
            self.fail_flow(flow, Failure::Refused("receive denied: flow lacks RECV right"));
            return None;
        }
        flow.last_receive_dest = Some(dest_reg);
        let mut mailbox = match self.directory.take(id) {
            Some(m) => m,
            None => {
                assert(self@.boxes =~= s0.boxes);
                self.fail_flow(flow, Failure::Refused("mailbox unavailable"));
                return None;
            },
        };
        let answer = mailbox.park_filter(id, filter);
        self.put_box(id, mailbox);
        assert(self@.boxes =~= s0.boxes.insert(id.raw as u128, mailbox@));
        match answer {
            Err(v) => {
                flow.metrics.messages_received = flow.metrics.messages_received.wrapping_add(1);
                match self.resume_or_fail(flow, dest_reg, v) {
                    Some(g) => {
                        self.admit_waiting_on(w, id, now);
                        Some(g)
                    },
                    None => None,
                }
            },
            Ok(epoch) => {
                self.keep_flow(id, flow);
                self.arm_deadline(id, dest_reg, timeout, epoch, now);
                None
            },
        }
    }

    pub(crate) fn do_monitor(&mut self, flow: Flow, dest_reg: u8, cap: CapId) -> (r: Option<Flow>)
        ensures
            (final(self)@, flow_view(r)) == watch_made(old(self)@, flow@, dest_reg, cap),
    {
        reveal(watch_made);
        let id = flow.id;
        let target = match self.resolve_relation_cap(cap, id, false) {
            Ok(t) => t,
            Err(why) => {
                self.fail_flow(flow, why);
                return None;
            },
        };
        if target == id {
            self.fail_flow(flow, Failure::Refused("cannot monitor self"));
            return None;
        }
        let m = self.monitors.create(id, target);
        self.resume_or_fail(flow, dest_reg, ref_to_value(m.as_u64()))
    }

    pub(crate) fn do_demonitor(&mut self, flow: Flow, reg: u8) -> (r: Option<Flow>)
        ensures
            (final(self)@, flow_view(r)) == watch_dropped(old(self)@, flow@, reg),
    {
        reveal(watch_dropped);
        let id = flow.id;
        let raw: u64 = match read_ref(&flow, reg) {
            Some(x) => x,
            None => {
                self.fail_flow(flow, Failure::Refused("demonitor: expected Int ref"));
                return None;
            },
        };
        match self.monitors.remove_owned(id, MonitorRef::from_u64(raw)) {
            Ok(_) => Some(flow),
            Err(e) => {
                self.fail_flow(flow, Failure::Lifecycle(e));
                None
            },
        }
    }

    pub(crate) fn do_link(&mut self, flow: Flow, dest_reg: u8, cap: CapId) -> (r: Option<Flow>)
        ensures
            (final(self)@, flow_view(r)) == link_made(old(self)@, flow@, dest_reg, cap),
    {
        reveal(link_made);
        let id = flow.id;
        let target = match self.resolve_relation_cap(cap, id, true) {
            Ok(t) => t,
            Err(why) => {
                self.fail_flow(flow, why);
                return None;
            },
        };
        if target == id {
            self.fail_flow(flow, Failure::Refused("cannot link self"));
            return None;
        }
        match self.links.link(id, target) {
            Ok(link) => self.resume_or_fail(flow, dest_reg, ref_to_value(link.as_u64())),
            Err(e) => {
                self.fail_flow(flow, Failure::Lifecycle(e));
                None
            },
        }
    }

    pub(crate) fn do_unlink(&mut self, flow: Flow, reg: u8) -> (r: Option<Flow>)
        ensures
            (final(self)@, flow_view(r)) == link_cut(old(self)@, flow@, reg),
    {
        reveal(link_cut);
        let id = flow.id;
        let raw: u64 = match read_ref(&flow, reg) {
            Some(x) => x,
            None => {
                self.fail_flow(flow, Failure::Refused("unlink: expected Int id"));
                return None;
            },
        };
        match self.links.unlink_owned(id, LinkId::from_u64(raw)) {
            Ok(_) => Some(flow),
            Err(e) => {
                self.fail_flow(flow, Failure::Lifecycle(e));
                None
            },
        }
    }

    pub(crate) fn do_set_policy(&mut self, flow: Flow, policy: u8) -> (r: Option<Flow>)
        ensures
            (final(self)@, flow_view(r)) == policy_set(old(self)@, flow@, policy),
    {
        reveal(policy_set);
        let mut flow = flow;
        match RestartPolicy::from_u8(policy) {
            Some(p) => {
                flow.restart_policy = p;
                Some(flow)
            },
            None => {
                self.fail_flow(flow, Failure::Refused("unknown restart policy"));
                None
            },
        }
    }

    pub(crate) fn do_host_await(&mut self, flow: Flow, dest_reg: u8, op: u32, args: Value)
        ensures
            (final(self)@, None::<FlowState>) == host_awaited(
                old(self)@,
                flow@,
                dest_reg,
                op,
                args,
            ),
    {
        reveal(host_awaited);
        let id = flow.id;
        if !self.config.host_await {
            self.fail_flow(flow, Failure::Refused("HostAwait: no bridge configured"));
            return ;
        }
        match self.host_awaits.park(id, dest_reg) {
            Ok(ticket) => {
                self.requests.push(HostAwaitRequest { flow: id, op, args, ticket });
                self.keep_flow(id, flow);
            },
            Err(e) => self.fail_flow(flow, Failure::HostAwait(e)),
        }
    }

    pub(crate) fn do_register_name(&mut self, flow: Flow, name: &str) -> (r: Option<Flow>)
        ensures
            name_taken(old(self)@, flow@, name@, final(self)@, flow_view(r)),
    {
        reveal(name_taken);
        let id = flow.id;
        if !flow.authority.rights.contains(CapRights::send()) {
            self.fail_flow(flow, Failure::Refused("register_name denied: flow lacks SEND right"));
            return None;
        }
        if name.is_empty() {
            self.fail_flow(flow, Failure::Refused("register_name: name must be non-empty"));
            return None;
        }
        let token = self.caps.draw();
        assert(fresh_token(old(self)@.caps, token));
        self.register_name_as(flow, name, token)
    }

    /// `RegisterName` of a flow that may have the name, with a drawn token.
    pub fn register_name_as(
        &mut self,
        flow: Flow,
        name: &str,
        token: Result<CapId, RuntimeError>,
    ) -> (r: Option<Flow>)
        ensures
            (final(self)@, flow_view(r)) == name_registered(
                old(self)@,
                flow@,
                name@,
                minted(
                    old(self)@.caps,
                    flow@.id,
                    flow@.id,
                    rights(RIGHTS_ADDRESSING),
                    token,
                ),
            ),
    {
        let id = flow.id;
        let cap = match self.caps.mint_as(id, id, CapRights::addressing(), token) {
            Ok(c) => c,
            Err(e) => {
                self.fail_flow(flow, Failure::Runtime(e));
                return None;
            },
        };
        match self.registry.register(RegistryName::new(name), cap, id) {
            Ok(_) => Some(flow),
            Err(e) => {
                self.fail_flow(flow, Failure::Lifecycle(e));
                None
            },
        }
    }

    pub(crate) fn do_whereis(&mut self, flow: Flow, dest_reg: u8, name: &str) -> (r: Option<Flow>)
        ensures
            name_looked_up(old(self)@, flow@, dest_reg, name@, final(self)@, flow_view(r)),
    {
        reveal(name_looked_up);
        let id = flow.id;
        let target = match self.registry.target(name) {
            Some(t) => t,
            None => return self.resume_or_fail(flow, dest_reg, Value::Unit),
        };
        if self.directory.lookup(target).is_none() {
            return self.resume_or_fail(flow, dest_reg, Value::Unit);
        }
        let token = self.caps.draw();
        assert(fresh_token(old(self)@.caps, token));
        self.whereis_as(flow, dest_reg, target, token)
    }

    /// `Whereis` of a flow that is there, with a drawn token.
    pub fn whereis_as(
        &mut self,
        flow: Flow,
        dest_reg: u8,
        target: FlowId,
        token: Result<CapId, RuntimeError>,
    ) -> (r: Option<Flow>)
        ensures
            (final(self)@, flow_view(r)) == address_given(
                old(self)@,
                flow@,
                dest_reg,
                reply_minted(old(self)@.caps, flow@.id, target, rights(RIGHT_SEND), token),
            ),
    {
        let id = flow.id;
        match self.caps.mint_or_reuse_as(id, target, CapRights::send(), token) {
            Ok(cap) => self.resume_or_fail(flow, dest_reg, Value::Cap(cap)),
            Err(e) => {
                self.fail_flow(flow, Failure::Runtime(e));
                None
            },
        }
    }

    fn narrow(
        &mut self,
        flow: Flow,
        dest_reg: u8,
        src: CapId,
        want: CapRights,
        native: Option<NativeMask>,
    ) -> (r: Option<Flow>)
        ensures
            cap_narrowed(
                old(self)@,
                flow@,
                dest_reg,
                src,
                want,
                native,
                final(self)@,
                flow_view(r),
            ),
    {
        let token = self.caps.draw();
        assert(fresh_token(old(self)@.caps, token));
        self.narrow_as(flow, dest_reg, src, want, native, token)
    }

    /// `Delegate` with the native mask that is wanted and a drawn token.
    pub fn narrow_as(
        &mut self,
        flow: Flow,
        dest_reg: u8,
        src: CapId,
        want: CapRights,
        native: Option<NativeMask>,
        token: Result<CapId, RuntimeError>,
    ) -> (r: Option<Flow>)
        ensures
            cap_narrowed_as(
                old(self)@,
                flow@,
                dest_reg,
                src,
                want,
                native,
                token,
                final(self)@,
                flow_view(r),
            ),
    {
        let id = flow.id;
        let answer = match &native {
            Some(m) => self.caps.attenuate_as(src, id, id, want, Some(m), token),
            None => self.caps.attenuate_as(src, id, id, want, None, token),
        };
        assert(attenuated(
            old(self)@.caps,
            src,
            id,
            id,
            want,
            native,
            token,
            self@.caps,
            answer,
        ));
        match answer {
            Ok(new) => self.resume_or_fail(flow, dest_reg, Value::Cap(new)),
            Err(e) => {
                self.fail_flow(flow, Failure::Cap(e));
                None
            },
        }
    }

    pub(crate) fn do_delegate(
        &mut self,
        flow: Flow,
        dest_reg: u8,
        src: CapId,
        want: CapRights,
        want_native: Option<CapId>,
    ) -> (r: Option<Flow>)
        ensures
            cap_delegated(
                old(self)@,
                flow@,
                dest_reg,
                src,
                want,
                want_native,
                final(self)@,
                flow_view(r),
            ),
    {
        reveal(cap_delegated);
        match want_native {
            None => self.narrow(flow, dest_reg, src, want, None),
            Some(id) => match self.caps.resolve(id, flow.id, CapRights::native()) {
                Ok(entry) => self.narrow(flow, dest_reg, src, want, entry.cap.native_mask),
                Err(e) => {
                    self.fail_flow(flow, Failure::Cap(e));
                    None
                },
            },
        }
    }

    pub(crate) fn do_yield(&mut self, flow: Flow, w: usize)
        ensures
            final(self)@ == yielded(old(self)@, flow@, w),
    {
        reveal(yielded);
        let mut flow = flow;
        let id = flow.id;
        self.metrics.reschedules = self.metrics.reschedules.wrapping_add(1);
        flow.metrics.reschedules = flow.metrics.reschedules.wrapping_add(1);
        self.keep_flow(id, flow);
        self.queue_for(Some(w), id);
    }

    pub(crate) fn do_sleep(&mut self, flow: Flow, delay: u64, now: u64)
        ensures
            final(self)@ == put_to_sleep(old(self)@, flow@, delay, now),
    {
        reveal(put_to_sleep);
        let id = flow.id;
        self.timer.schedule_sleep(now, delay, id);
        self.keep_flow(id, flow);
    }
}

fn ref_to_value(raw: u64) -> (r: Value)
    ensures
        r == ref_value(raw),
{
    if raw <= i64::MAX as u64 {
        Value::Int(raw as i64)
    } else {
        Value::Int(i64::MAX)
    }
}

fn read_ref(flow: &Flow, reg: u8) -> (r: Option<u64>)
    ensures
        r == ref_in(flow@.vm, reg),
{
    match flow.vm.top_registers() {
        Some(regs) => {
            if (reg as usize) < regs.len() {
                match &regs[reg as usize] {
                    Value::Int(n) => if *n >= 0 {
                        Some(*n as u64)
                    } else {
                        None
                    },
                    _ => None,
                }
            } else {
                None
            }
        },
        None => None,
    }
}

} // verus!
