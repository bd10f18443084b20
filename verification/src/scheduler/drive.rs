//! The steps of a worker and of the timer, and the host's own operations.
//!
//! Each step ends with nothing on its way out. The host loops over them: it
//! looks for work, starts a flow, runs slices until the flow stops, and does
//! in between what only the host can do.

use std::sync::Arc;

use vstd::prelude::*;

use crate::bytecode::cap::RevocationCell;
use crate::bytecode::opcode::Opcode;
use crate::bytecode::value::{Message, Value};
use crate::bytecode::chunk::Chunk;
use crate::idmap::sorted_keys;
use crate::jit::dispatch::{jit_run, JitMetrics, JitState};
use crate::jit::runtime::JitRuntime;
use crate::scheduler::capability::{CapError, CapState};
use crate::scheduler::deliver::{delivered, with_box, DeliverStatus};
use crate::scheduler::failure::{kill_failure, kill_outcome, Failure};
use crate::scheduler::finalize::settled;
use crate::scheduler::hops::{authenticate_host_outgoing_message, host_stamped};
use crate::scheduler::host_await::{ticket_taken, HostAwaitError};
use crate::scheduler::jit::run_flow_quantum;
use crate::scheduler::mailbox::config::config_ok;
use crate::scheduler::mailbox::unparked;
use crate::scheduler::monitor::FlowExitReason;
use crate::scheduler::process::{
    failed, Flow, FlowId, FlowMetrics, FlowOutcome, FlowState,
};
use crate::scheduler::quota::{
    cpu_charged, give_raises, others_due, raised, topped_up, QuotaError, TopUp,
};
use crate::scheduler::runqueue::{find_work, work_found, Found};
use crate::scheduler::shared::{
    dropped, exiting, failing, kept, left_over, lent, queued_for, received, resumed, returned,
    RuntimeMetrics, Shared, SharedState,
};
use crate::scheduler::timer::{due_taken, TimerEntry, TimerPayload};
use crate::scheduler::waits::{ask_removed, entry_of};
use crate::scheduler::worker::{flow_view, performed};
use crate::vm::native::{gate_check, gate_live, NativeGate};
use crate::vm::result::{Effect, VmResult};
use crate::vm::state::{slice, VmState};

verus! {

/// What a slice left to do.
pub enum Driven {
    /// The flow goes on running.
    Running(Flow),
    /// The flow is parked, queued or gone.
    Stopped,
    /// The host calls one of its natives; the result goes to `dest_reg`.
    CallHost { flow: Flow, dest_reg: u8, native: u32, args: Vec<Value> },
    /// The host computes on doubles; the result goes to `dest_reg`.
    FloatOp { flow: Flow, op: Opcode, dest_reg: u8, lhs: Value, rhs: Value },
}

/// The flow that goes on running.
pub open spec fn driven_flow(d: Driven) -> Option<FlowState> {
    match d {
        Driven::Running(flow) => Some(flow@),
        Driven::Stopped => None,
        Driven::CallHost { flow, .. } => Some(flow@),
        Driven::FloatOp { flow, .. } => Some(flow@),
    }
}

/// The host is asked for what the effect asks for.
pub open spec fn asks_host(d: Driven, e: Effect) -> bool {
    match e {
        Effect::CallHost { dest_reg, native, args } => d matches Driven::CallHost {
            dest_reg: a,
            native: b,
            args: c,
            ..
        } && a == dest_reg && b == native && c@ == args,
        Effect::FloatOp { op, dest_reg, lhs, rhs } => d matches Driven::FloatOp {
            op: a,
            dest_reg: b,
            lhs: c,
            rhs: x,
            ..
        } && a == op && b == dest_reg && c == lhs && x == rhs,
        _ => d is Running || d is Stopped,
    }
}

/// Instructions of the next slice: what is left of the one that the host
/// worked in, or a whole one within the budget of the flow. A flow without
/// budget gets none.
pub open spec fn slice_length(s: SharedState, f: FlowState) -> Option<u32> {
    match f.slice_left {
        Some(n) => Some(n),
        None => if f.quota.cpu_budget <= 0 {
            None
        } else if s.config.quantum <= f.quota.cpu_budget {
            Some(s.config.quantum)
        } else {
            Some(f.quota.cpu_budget as u32)
        },
    }
}

/// The revocation counter of a flow. One that the table does not have was
/// revoked.
pub open spec fn current_cell(caps: CapState, f: FlowState) -> RevocationCell {
    if caps.cells.contains_key(f.id.raw as u128) {
        caps.cells[f.id.raw as u128]
    } else {
        RevocationCell { count: f.authority.epoch.wrapping_add(1) }
    }
}

/// The flow as a slice begins: its revocation counters are those of the
/// table, and the raises that are due were given.
pub open spec fn refreshed(s: SharedState, f: FlowState) -> FlowState {
    let cell = current_cell(s.caps, f);
    FlowState {
        cell,
        quota: topped_up(f.quota, s.due, f.id),
        vm: VmState {
            gate: NativeGate {
                flow_cell: cell,
                native_cell: s.caps.native_cell,
                ..f.vm.gate
            },
            ..f.vm
        },
        slice_left: None,
        ..f
    }
}

/// The state without the raises of flow `id`.
pub open spec fn raises_given(s: SharedState, id: FlowId) -> SharedState {
    SharedState { due: others_due(s.due, id), ..s }
}

/// A revocation holds from the next slice on: a flow whose own authority or
/// whose natives were revoked calls no native any more.
pub proof fn revoked_flows_call_no_native(s: SharedState, f: FlowState, slots: nat, native: u32)
    requires
        f.vm.gate.authority_epoch == f.authority.epoch,
        !s.caps.cells.contains_key(f.id.raw as u128) || s.caps.cells[f.id.raw as u128].count
            != f.authority.epoch || s.caps.native_cell.count != f.vm.gate.native_epoch,
    ensures
        !gate_live(refreshed(s, f).vm.gate),
        gate_check(refreshed(s, f).vm.gate, slots, native) is Err,
{
}

/// The state after a raise for flow `id`, and whether there is such a flow.
/// One that runs gets it with its next slice.
pub open spec fn raise_given(s: SharedState, id: FlowId, t: TopUp) -> (SharedState, bool) {
    let k = id.raw as u128;
    if s.flows.contains_key(k) {
        let f = s.flows[k];
        (kept(s, id, FlowState { quota: raised(f.quota, t), ..f }), true)
    } else if s.boxes.contains_key(k) {
        (SharedState { due: s.due.push((id, t)), ..s }, true)
    } else {
        (s, false)
    }
}

/// A raise reaches the flow whether it waits in the table or runs, and
/// nobody else.
pub proof fn raises_reach_the_flow(s: SharedState, f: FlowState, other: FlowState, t: TopUp)
    requires
        other.id != f.id,
    ensures
        ({
            let k = f.id.raw as u128;
            let (u, found) = raise_given(s, f.id, t);
            &&& s.flows.contains_key(k) ==> found && u.flows[k].quota == raised(
                s.flows[k].quota,
                t,
            )
            &&& !s.flows.contains_key(k) && s.boxes.contains_key(k) ==> found && refreshed(
                u,
                f,
            ).quota == raised(refreshed(s, f).quota, t)
            &&& refreshed(u, other).quota == refreshed(s, other).quota
        }),
{
    assert(s.due.push((f.id, t)).drop_last() =~= s.due);
}

/// What a slice is charged for.
pub open spec fn slice_cost(before: u64, after: u64) -> i64 {
    if after < before {
        0
    } else if after - before > i64::MAX {
        i64::MAX
    } else {
        (after - before) as i64
    }
}

/// What is left of a slice.
pub open spec fn rest_of_slice(length: u32, cost: i64) -> u32 {
    if cost < length {
        (length - cost) as u32
    } else {
        0
    }
}

/// What follows when the machine of a flow ran: the flow is charged, and the
/// effect is performed. While the host works for the flow, the rest of the
/// slice is kept.
pub open spec fn slice_ended(
    s: SharedState,
    f: FlowState,
    length: u32,
    before: u64,
    e: Effect,
    w: usize,
    now: u64,
    t: SharedState,
    d: Driven,
) -> bool {
    let u = SharedState { memory: left_over(f.vm, s.memory), ..s };
    let g = returned(f, f.vm);
    let cost = slice_cost(before, f.vm.executed);
    if g.quota.cpu_budget < cost {
        t == failing(u, g, Failure::Quota(QuotaError::CpuExhausted)) && d is Stopped
    } else {
        let h = FlowState {
            quota: cpu_charged(g.quota, cost),
            metrics: FlowMetrics { instructions: f.vm.executed, ..g.metrics },
            slice_left: if e is CallHost || e is FloatOp {
                Some(rest_of_slice(length, cost))
            } else {
                None
            },
            ..g
        };
        performed(u, h, e, w, now, t, driven_flow(d)) && asks_host(d, e)
    }
}

/// What a slice did: the machine ran, the flow was charged, and the effect
/// was performed. A flow without budget fails.
pub open spec fn slice_run(
    s: SharedState,
    f: FlowState,
    w: usize,
    now: u64,
    t: SharedState,
    d: Driven,
) -> bool {
    let u = raises_given(s, f.id);
    let g = refreshed(s, f);
    match slice_length(s, FlowState { slice_left: f.slice_left, ..g }) {
        None => t == failing(u, g, Failure::Quota(QuotaError::CpuExhausted)) && d is Stopped,
        Some(n) => {
            let (vm, e) = slice(lent(g, u.memory), n as nat);
            slice_ended(u, FlowState { vm, ..g }, n, g.vm.executed, e, w, now, t, d)
        },
    }
}

/// What a slice with compiled code did.
pub open spec fn jit_slice_run(
    s: SharedState,
    f: FlowState,
    image: Chunk,
    threshold: u32,
    j: JitState,
    w: usize,
    now: u64,
    t: SharedState,
    k: JitState,
    d: Driven,
) -> bool {
    let u = raises_given(s, f.id);
    let g = refreshed(s, f);
    match slice_length(s, FlowState { slice_left: f.slice_left, ..g }) {
        None => t == failing(u, g, Failure::Quota(QuotaError::CpuExhausted)) && k == j
            && d is Stopped,
        Some(n) => exists|same: bool, vm: VmState, e: Effect|
            {
                &&& same ==> g.vm.chunk == image
                &&& #[trigger] jit_run(same, threshold, lent(g, u.memory), j, n, vm, k, e)
                &&& slice_ended(
                    u,
                    FlowState { vm, ..g },
                    n,
                    g.vm.executed,
                    e,
                    w,
                    now,
                    t,
                    d,
                )
            },
    }
}

/// A flow came out of the table to run: a message that came early is handed
/// to it, and a kill signal ends it.
pub open spec fn flow_started(s: SharedState, id: FlowId) -> (SharedState, Option<FlowState>) {
    if !s.flows.contains_key(id.raw as u128) {
        (s, None)
    } else {
        let f = s.flows[id.raw as u128];
        let t = dropped(s, id);
        match f.pending_message {
            None => kill_checked(t, f),
            Some(v) => {
                let g = FlowState { pending_message: None, ..f };
                match f.last_receive_dest {
                    None => (
                        failing(t, g, Failure::Refused("pending hop missing dest register")),
                        None,
                    ),
                    Some(dest) => match resumed(t, g, dest, v) {
                        (u, Some(h)) => kill_checked(u, received(h)),
                        (u, None) => (u, None),
                    },
                }
            },
        }
    }
}

/// A kill signal ends the flow.
pub open spec fn kill_checked(s: SharedState, f: FlowState) -> (SharedState, Option<FlowState>) {
    let t = SharedState { kills: s.kills.remove(f.id.raw as u128), ..s };
    match entry_of(s.kills, f.id) {
        Some(reason) => (exiting(t, f, failed(kill_failure(reason)), reason), None),
        None => (t, Some(f)),
    }
}

/// The state after worker `w` looked for work, and the flow that it found.
pub open spec fn work_taken(s: SharedState, w: usize) -> (SharedState, Option<FlowId>) {
    let (locals, ready, found) = work_found(s.locals, s.ready, w as int);
    let t = SharedState { locals, ready, ..s };
    match found {
        Found::Local(id) => (t, Some(id)),
        Found::Injected(id) => (t, Some(id)),
        Found::Stolen(id) => (
            SharedState {
                metrics: RuntimeMetrics { steals: s.metrics.steals.wrapping_add(1), ..s.metrics },
                ..t
            },
            Some(id),
        ),
        Found::Nothing => (t, None),
    }
}

/// A flow of the table got the answer of the timer or the host into a
/// register and is runnable.
pub open spec fn answered(s: SharedState, id: FlowId, dest_reg: u8, v: Value) -> SharedState {
    if !s.flows.contains_key(id.raw as u128) {
        s
    } else {
        match resumed(dropped(s, id), s.flows[id.raw as u128], dest_reg, v) {
            (t, Some(g)) => queued_for(kept(t, id, g), None, id),
            (t, None) => t,
        }
    }
}

/// A deadline passed: a sleeper is runnable; a waiter gets unit, if the wait
/// that the deadline was set for is still the current one.
pub open spec fn fired(s: SharedState, e: TimerEntry) -> SharedState {
    match e.payload {
        TimerPayload::WakeSleeper(id) => SharedState { ready: s.ready.push(id), ..s },
        TimerPayload::WakeReceiver { pid, dest_reg, epoch } => {
            let k = pid.raw as u128;
            if s.boxes.contains_key(k) && s.boxes[k].epoch == epoch.count
                && s.boxes[k].parked is Some {
                let id = s.boxes[k].parked->Some_0;
                answered(
                    SharedState {
                        asks: ask_removed(s.asks, id),
                        ..with_box(s, pid, unparked(s.boxes[k]))
                    },
                    id,
                    dest_reg,
                    Value::Unit,
                )
            } else {
                s
            }
        },
    }
}

/// A deadline that was set for an earlier wait does nothing.
pub proof fn stale_deadline_does_nothing(s: SharedState, e: TimerEntry)
    requires
        e.payload matches TimerPayload::WakeReceiver { pid, epoch, .. } ==> (s.boxes.contains_key(
            pid.raw as u128,
        ) ==> s.boxes[pid.raw as u128].epoch != epoch.count),
        e.payload is WakeReceiver,
    ensures
        fired(s, e) == s,
{
}

/// What the host's answer did, and whether it was taken.
pub open spec fn await_settled(s: SharedState, ticket: u64, r: Result<Value, Failure>) -> (
    SharedState,
    Result<(), HostAwaitError>,
) {
    match ticket_taken(s.awaits, ticket) {
        (_, None) => (s, Err(HostAwaitError::Stale)),
        (awaits, Some((id, dest_reg))) => {
            let t = SharedState { awaits, ..s };
            (
                match r {
                    Ok(v) => answered(t, id, dest_reg, v),
                    Err(why) => flow_failed(t, id, why),
                },
                Ok(()),
            )
        },
    }
}

/// Flow `id` of the table fails.
pub open spec fn flow_failed(s: SharedState, id: FlowId, why: Failure) -> SharedState {
    if s.flows.contains_key(id.raw as u128) {
        failing(dropped(s, id), s.flows[id.raw as u128], why)
    } else {
        s
    }
}

/// The first `n` of `keys` were ended because the runtime goes down.
pub open spec fn drained(s: SharedState, keys: Seq<u128>, n: nat) -> SharedState
    decreases n,
{
    if n == 0 {
        s
    } else {
        let t = drained(s, keys, (n - 1) as nat);
        let id = FlowId { raw: keys[n - 1] as u64 };
        if t.flows.contains_key(id.raw as u128) {
            exiting(
                dropped(t, id),
                t.flows[id.raw as u128],
                failed(Failure::Refused("runtime shutdown")),
                FlowExitReason::Shutdown,
            )
        } else {
            t
        }
    }
}

/// Why the host could not send.
#[derive(Debug, Clone, Copy, PartialEq, Eq, Structural)]
pub enum SendError {
    /// Only messages are sent.
    NotAHop,
    NoSuchFlow(FlowId),
    MailboxFull,
    Cap(CapError),
}

/// What a message of the host did.
pub open spec fn host_sent(
    s: SharedState,
    target: FlowId,
    v: Value,
    t: SharedState,
    r: Result<(), SendError>,
) -> bool {
    match v {
        Value::Message(m) => exists|caps: CapState, answer: Result<Message, CapError>|
            {
                let u = SharedState {
                    caps,
                    host_rid: if m.request_id == 0 {
                        s.host_rid.wrapping_add(1)
                    } else {
                        s.host_rid
                    },
                    ..s
                };
                &&& #[trigger] host_stamped(s.caps, s.host_rid, target, m, caps, answer)
                &&& match answer {
                    Err(e) => (t, r) == (u, Err::<(), SendError>(SendError::Cap(e))),
                    Ok(msg) => {
                        let (x, status) = delivered(u, None, target, Value::Message(msg));
                        t == x && r == (match status {
                            DeliverStatus::Delivered => Ok::<(), SendError>(()),
                            DeliverStatus::Full => Err(SendError::MailboxFull),
                            DeliverStatus::Gone => Err(SendError::NoSuchFlow(target)),
                        })
                    },
                }
            },
        _ => (t, r) == (s, Err::<(), SendError>(SendError::NotAHop)),
    }
}

impl Shared {
    fn perform(&mut self, flow: Flow, result: VmResult, w: usize, now: u64) -> (r: Driven)
        requires
            config_ok(old(self).config.mailbox),
        ensures
            performed(
                old(self)@,
                flow@,
                result@,
                w,
                now,
                final(self)@,
                driven_flow(r),
            ),
            asks_host(r, result@),
    {
        let left = match result {
            VmResult::Complete(v) => {
                self.exit_flow(flow, FlowOutcome::Completed(v), FlowExitReason::Normal);
                None
            },
            VmResult::Trap(fault) => {
                self.fail_flow(flow, Failure::Trap(fault));
                None
            },
            VmResult::Yield => {
                self.do_yield(flow, w);
                None
            },
            VmResult::Sleep(delay) => {
                self.do_sleep(flow, delay, now);
                None
            },
            VmResult::SelfPid { dest_reg } => self.do_self_pid(flow, dest_reg),
            VmResult::Spawn { function, args, dest_reg, requested_rights } => self.do_spawn(
                flow,
                function,
                args,
                dest_reg,
                requested_rights,
                now,
            ),
            VmResult::Send { target_cap, message } => self.do_send(
                flow,
                w,
                now,
                target_cap,
                message,
                None,
            ),
            VmResult::Ask { dest_reg, target_cap, request, timeout } => self.do_send(
                flow,
                w,
                now,
                target_cap,
                request,
                Some((dest_reg, timeout)),
            ),
            VmResult::Receive {
                dest_reg,
                timeout,
                match_tag,
                match_request_id,
                match_payload_kind,
            } => self.do_receive(
                flow,
                w,
                now,
                dest_reg,
                timeout,
                crate::scheduler::worker::receive_filter(
                    match_tag,
                    match_request_id,
                    match_payload_kind,
                ),
            ),
            VmResult::Monitor { dest_reg, target_cap } => self.do_monitor(
                flow,
                dest_reg,
                target_cap,
            ),
            VmResult::Demonitor { monitor_reg } => self.do_demonitor(flow, monitor_reg),
            VmResult::Link { dest_reg, target_cap } => self.do_link(flow, dest_reg, target_cap),
            VmResult::Unlink { link_reg } => self.do_unlink(flow, link_reg),
            VmResult::SetTrapExit { enabled } => {
                self.trap_exits.set(flow.id, enabled);
                Some(flow)
            },
            VmResult::SetRestartPolicy { policy } => self.do_set_policy(flow, policy),
            VmResult::HostAwait { dest_reg, op, args } => {
                self.do_host_await(flow, dest_reg, op, args);
                None
            },
            VmResult::RegisterName { name } => self.do_register_name(flow, name.as_str()),
            VmResult::Whereis { dest_reg, name } => self.do_whereis(flow, dest_reg, name.as_str()),
            VmResult::Delegate { dest_reg, src_cap, want_rights, want_native_cap } =>
                self.do_delegate(flow, dest_reg, src_cap, want_rights, want_native_cap),
            VmResult::CallHost { dest_reg, native, args } => return Driven::CallHost {
                flow,
                dest_reg,
                native,
                args,
            },
            VmResult::FloatOp { op, dest_reg, lhs, rhs } => return Driven::FloatOp {
                flow,
                op,
                dest_reg,
                lhs,
                rhs,
            },
        };
        match left {
            Some(flow) => Driven::Running(flow),
            None => Driven::Stopped,
        }
    }

    /// Run one slice of a flow that was started.
    pub fn run_slice(&mut self, flow: Flow, w: usize, now: u64) -> (r: Driven)
        requires
            config_ok(old(self).config.mailbox),
        ensures
            exists|mid: SharedState|
                {
                    &&& #[trigger] slice_run(old(self)@, flow@, w, now, mid, r)
                    &&& settled(mid, final(self)@)
                },
    {
        let d = self.slice_of(flow, w, now);
        let ghost mid = self@;
        self.settle();
        assert(slice_run(old(self)@, flow@, w, now, mid, d));
        d
    }

    fn slice_of(&mut self, flow: Flow, w: usize, now: u64) -> (r: Driven)
        requires
            config_ok(old(self).config.mailbox),
        ensures
            slice_run(old(self)@, flow@, w, now, final(self)@, r),
    {
        let mut flow = flow;
        let budget: u32 = match self.begin_slice(&mut flow) {
            Some(n) => n,
            None => {
                self.fail_flow(flow, Failure::Quota(QuotaError::CpuExhausted));
                return Driven::Stopped;
            },
        };
        let before: u64 = flow.vm.instructions_executed();
        self.lend(&mut flow);
        let result = flow.vm.run(budget);
        self.finish_slice(flow, budget, before, result, w, now)
    }

    fn begin_slice(&mut self, flow: &mut Flow) -> (r: Option<u32>)
        ensures
            final(self)@ == raises_given(old(self)@, old(flow)@.id),
            final(flow)@ == refreshed(old(self)@, old(flow)@),
            r == slice_length(
                old(self)@,
                FlowState { slice_left: old(flow)@.slice_left, ..final(flow)@ },
            ),
            final(self).config == old(self).config,
    {
        give_raises(&mut self.due, flow.id, &mut flow.quota);
        let cell = match self.caps.flow_cell(flow.id) {
            Some(c) => c,
            None => RevocationCell { count: flow.authority.epoch().wrapping_add(1) },
        };
        flow.cell = cell;
        flow.vm.native_gate.refresh(cell, self.caps.native_cell());
        let left = flow.slice_left;
        flow.slice_left = None;
        if let Some(n) = left {
            return Some(n);
        }
        let remaining: i64 = flow.quota.remaining_cpu();
        if remaining <= 0 {
            None
        } else if self.config.quantum as i64 <= remaining {
            Some(self.config.quantum)
        } else {
            Some(remaining as u32)
        }
    }

    fn lend(&self, flow: &mut Flow)
        ensures
            final(flow)@ == (FlowState { vm: lent(old(flow)@, self@.memory), ..old(flow)@ }),
    {
        flow.vm.lend_quota(flow.quota);
        flow.vm.set_memory_budget(self.memory);
    }

    fn finish_slice(
        &mut self,
        flow: Flow,
        length: u32,
        before: u64,
        result: VmResult,
        w: usize,
        now: u64,
    ) -> (r: Driven)
        requires
            config_ok(old(self).config.mailbox),
            flow@.slice_left is None,
        ensures
            slice_ended(old(self)@, flow@, length, before, result@, w, now, final(self)@, r),
    {
        let mut flow = flow;
        let ghost f = flow@;
        if let Some(m) = flow.vm.take_memory_budget() {
            self.memory = m;
        }
        if let Some(q) = flow.vm.take_quota() {
            flow.quota = q;
        }
        let after: u64 = flow.vm.instructions_executed();
        assert(flow@ == returned(f, f.vm));
        let delta: u64 = after.saturating_sub(before);
        let cost: i64 = if delta > i64::MAX as u64 {
            i64::MAX
        } else {
            delta as i64
        };
        assert(cost == slice_cost(before, after));
        if flow.quota.cpu_budget < cost {
            self.fail_flow(flow, Failure::Quota(QuotaError::CpuExhausted));
            return Driven::Stopped;
        }
        let _ = flow.quota.charge_cpu(cost);
        flow.metrics.instructions = after;
        match result {
            VmResult::CallHost { .. } | VmResult::FloatOp { .. } => {
                flow.slice_left = Some(
                    if cost < length as i64 {
                        length - cost as u32
                    } else {
                        0
                    },
                );
            },
            _ => {},
        }
        self.perform(flow, result, w, now)
    }

    /// Run one slice of a flow that was started, with compiled code.
    #[verifier::rlimit(40)]
    pub fn run_slice_with_jit(
        &mut self,
        flow: Flow,
        jit: &mut JitRuntime,
        metrics: &mut JitMetrics,
        w: usize,
        now: u64,
    ) -> (r: Driven)
        requires
            config_ok(old(self).config.mailbox),
        ensures
            final(jit).image() == old(jit).image(),
            final(jit).hot_threshold == old(jit).hot_threshold,
            exists|mid: SharedState|
                {
                    &&& #[trigger] jit_slice_run(
                        old(self)@,
                        flow@,
                        old(jit).image(),
                        old(jit).hot_threshold,
                        JitState {
                            cache: old(jit).traces(),
                            hot: old(jit).counters(),
                            metrics: *old(metrics),
                        },
                        w,
                        now,
                        mid,
                        JitState {
                            cache: final(jit).traces(),
                            hot: final(jit).counters(),
                            metrics: *final(metrics),
                        },
                        r,
                    )
                    &&& settled(mid, final(self)@)
                },
    {
        let d = self.jit_slice_of(flow, jit, metrics, w, now);
        let ghost mid = self@;
        self.settle();
        assert(jit_slice_run(
            old(self)@,
            flow@,
            old(jit).image(),
            old(jit).hot_threshold,
            JitState {
                cache: old(jit).traces(),
                hot: old(jit).counters(),
                metrics: *old(metrics),
            },
            w,
            now,
            mid,
            JitState { cache: jit.traces(), hot: jit.counters(), metrics: *metrics },
            d,
        ));
        d
    }

    #[verifier::rlimit(40)]
    fn jit_slice_of(
        &mut self,
        flow: Flow,
        jit: &mut JitRuntime,
        metrics: &mut JitMetrics,
        w: usize,
        now: u64,
    ) -> (r: Driven)
        requires
            config_ok(old(self).config.mailbox),
        ensures
            final(jit).image() == old(jit).image(),
            final(jit).hot_threshold == old(jit).hot_threshold,
            jit_slice_run(
                old(self)@,
                flow@,
                old(jit).image(),
                old(jit).hot_threshold,
                JitState {
                    cache: old(jit).traces(),
                    hot: old(jit).counters(),
                    metrics: *old(metrics),
                },
                w,
                now,
                final(self)@,
                JitState {
                    cache: final(jit).traces(),
                    hot: final(jit).counters(),
                    metrics: *final(metrics),
                },
                r,
            ),
    {
        let mut flow = flow;
        let ghost f = refreshed(self@, flow@);
        let ghost s0 = raises_given(self@, flow@.id);
        let ghost j = JitState { cache: jit.traces(), hot: jit.counters(), metrics: *metrics };
        let budget: u32 = match self.begin_slice(&mut flow) {
            Some(n) => n,
            None => {
                self.fail_flow(flow, Failure::Quota(QuotaError::CpuExhausted));
                return Driven::Stopped;
            },
        };
        let before: u64 = flow.vm.instructions_executed();
        self.lend(&mut flow);
        let result = run_flow_quantum(&mut flow, jit, metrics, budget);
        let ghost vm = flow@.vm;
        let ghost k = JitState { cache: jit.traces(), hot: jit.counters(), metrics: *metrics };
        assert(flow@ == (FlowState { vm, ..f }));
        let ghost same = choose|same: bool|
            (same ==> lent(f, s0.memory).chunk == jit.image()) && #[trigger] jit_run(
                same,
                jit.hot_threshold,
                lent(f, s0.memory),
                j,
                budget,
                vm,
                k,
                result@,
            );
        assert(jit_run(
            same,
            jit.hot_threshold,
            lent(f, s0.memory),
            j,
            budget,
            vm,
            k,
            result@,
        ));
        self.finish_slice(flow, budget, before, result, w, now)
    }

    /// Raise a budget of flow `id`; false when there is no such flow.
    pub fn top_up(&mut self, id: FlowId, t: TopUp) -> (r: bool)
        ensures
            (final(self)@, r) == raise_given(old(self)@, id, t),
    {
        let ghost s0 = self@;
        match self.take_flow(id) {
            Some(mut flow) => {
                flow.quota.top_up(t);
                self.keep_flow(id, flow);
                assert(self@.flows =~= raise_given(s0, id, t).0.flows);
                true
            },
            None => {
                assert(self@.flows =~= s0.flows);
                if self.directory.lookup(id).is_some() {
                    self.due.push((id, t));
                    true
                } else {
                    false
                }
            },
        }
    }

    /// Start flow `id`: take it out of the table to run it.
    pub fn start(&mut self, id: FlowId) -> (r: Option<Flow>)
        ensures
            settled(flow_started(old(self)@, id).0, final(self)@),
            flow_view(r) == flow_started(old(self)@, id).1,
    {
        let r = self.start_flow(id);
        self.settle();
        r
    }

    fn start_flow(&mut self, id: FlowId) -> (r: Option<Flow>)
        ensures
            (final(self)@, flow_view(r)) == flow_started(old(self)@, id),
    {
        let ghost s0 = self@;
        let mut flow = match self.take_flow(id) {
            Some(f) => f,
            None => {
                assert(self@.flows =~= s0.flows);
                return None;
            },
        };
        let mut early: Option<Value> = None;
        std::mem::swap(&mut early, &mut flow.pending_message);
        if let Some(v) = early {
            let dest: u8 = match flow.last_receive_dest {
                Some(d) => d,
                None => {
                    self.fail_flow(flow, Failure::Refused("pending hop missing dest register"));
                    return None;
                },
            };
            flow = match self.resume_or_fail(flow, dest, v) {
                Some(g) => g,
                None => return None,
            };
            flow.metrics.messages_received = flow.metrics.messages_received.wrapping_add(1);
        }
        match self.kill_signals.take(flow.id) {
            Some(reason) => {
                self.exit_flow(
                    flow,
                    FlowOutcome::Failed(Arc::new(kill_outcome(reason))),
                    reason,
                );
                None
            },
            None => Some(flow),
        }
    }

    /// Look for work for worker `w`.
    pub fn take_work(&mut self, w: usize) -> (r: Option<FlowId>)
        ensures
            (final(self)@, r) == work_taken(old(self)@, w),
    {
        match find_work(&mut self.locals, &mut self.injector, w) {
            Found::Local(id) => Some(id),
            Found::Injected(id) => Some(id),
            Found::Stolen(id) => {
                self.metrics.steals = self.metrics.steals.wrapping_add(1);
                Some(id)
            },
            Found::Nothing => None,
        }
    }

    fn answer(&mut self, id: FlowId, dest_reg: u8, value: Value)
        ensures
            final(self)@ == answered(old(self)@, id, dest_reg, value),
    {
        let ghost s0 = self@;
        match self.take_flow(id) {
            Some(flow) => {
                if let Some(g) = self.resume_or_fail(flow, dest_reg, value) {
                    self.keep_flow(id, g);
                    self.queue_for(None, id);
                }
            },
            None => {
                assert(self@.flows =~= s0.flows);
            },
        }
    }

    fn fire(&mut self, entry: TimerEntry)
        ensures
            final(self)@ == fired(old(self)@, entry),
    {
        match entry.payload {
            TimerPayload::WakeSleeper(id) => self.injector.push(id),
            TimerPayload::WakeReceiver { pid, dest_reg, epoch } => {
                let ghost s0 = self@;
                let mut mailbox = match self.directory.take(pid) {
                    Some(m) => m,
                    None => {
                        assert(self@.boxes =~= s0.boxes);
                        return ;
                    },
                };
                let waiter = mailbox.take_parked_at(epoch);
                self.put_box(pid, mailbox);
                assert(self@.boxes =~= s0.boxes.insert(pid.raw as u128, mailbox@));
                match waiter {
                    Some(id) => {
                        let _ = self.ask_waits.remove_asker(id);
                        self.answer(id, dest_reg, Value::Unit);
                    },
                    None => {
                        assert(self@.boxes =~= s0.boxes);
                    },
                }
            },
        }
    }

    /// Fire the earliest deadline if it has passed; false when none has.
    pub fn fire_due(&mut self, now: u64) -> (r: bool)
        ensures
            r == (due_taken(old(self)@.timers, now).1 is Some),
            settled(
                match due_taken(old(self)@.timers, now) {
                    (timers, Some(e)) => fired(SharedState { timers, ..old(self)@ }, e),
                    (_, None) => old(self)@,
                },
                final(self)@,
            ),
    {
        match self.timer.pop_due(now) {
            Some(e) => {
                self.fire(e);
                self.settle();
                true
            },
            None => {
                self.settle();
                false
            },
        }
    }

    fn settle_await(&mut self, ticket: u64, result: Result<Value, Failure>) -> (r: Result<
        (),
        HostAwaitError,
    >)
        ensures
            (final(self)@, r) == await_settled(old(self)@, ticket, result),
    {
        let (id, dest_reg) = match self.host_awaits.take_ticket(ticket) {
            Some(x) => x,
            None => return Err(HostAwaitError::Stale),
        };
        match result {
            Ok(v) => self.answer(id, dest_reg, v),
            Err(why) => {
                let ghost t = self@;
                match self.take_flow(id) {
                    Some(flow) => self.fail_flow(flow, why),
                    None => {
                        assert(self@.flows =~= t.flows);
                    },
                }
            },
        }
        Ok(())
    }

    /// Take the host's answer to a request.
    pub fn settle_parked(&mut self, ticket: u64, result: Result<Value, Failure>) -> (r: Result<
        (),
        HostAwaitError,
    >)
        ensures
            settled(await_settled(old(self)@, ticket, result).0, final(self)@),
            r == await_settled(old(self)@, ticket, result).1,
    {
        let r = self.settle_await(ticket, result);
        self.settle();
        r
    }

    /// End every flow that waits for the host, because the runtime goes
    /// down. Later answers are stale.
    pub fn shutdown_awaits(&mut self)
        ensures
            settled(
                drained(
                    SharedState {
                        awaits: crate::scheduler::host_await::AwaitState {
                            waits: Map::empty(),
                            ..old(self)@.awaits
                        },
                        ..old(self)@
                    },
                    sorted_keys(old(self)@.awaits.waits),
                    sorted_keys(old(self)@.awaits.waits).len(),
                ),
                final(self)@,
            ),
    {
        let keys = self.host_awaits.drain_all();
        let ghost s0 = self@;
        let mut k: usize = 0;
        while k < keys.len()
            invariant
                k <= keys@.len(),
                self@ == drained(s0, keys@, k as nat),
            decreases keys@.len() - k,
        {
            let id = FlowId { raw: keys[k] as u64 };
            let ghost t = self@;
            match self.take_flow(id) {
                Some(flow) => self.exit_flow(
                    flow,
                    FlowOutcome::Failed(Arc::new(Failure::Refused("runtime shutdown"))),
                    FlowExitReason::Shutdown,
                ),
                None => {
                    assert(self@.flows =~= t.flows);
                },
            }
            k += 1;
        }
        self.settle();
    }

    /// Send a message of the host.
    pub fn send(&mut self, target: FlowId, message: Value) -> (r: Result<(), SendError>)
        ensures
            exists|mid: SharedState|
                {
                    &&& #[trigger] host_sent(old(self)@, target, message, mid, r)
                    &&& settled(mid, final(self)@)
                },
    {
        let ghost v = message;
        let r = self.send_hop(target, message);
        let ghost mid = self@;
        self.settle();
        assert(host_sent(old(self)@, target, v, mid, r));
        r
    }

    fn send_hop(&mut self, target: FlowId, message: Value) -> (r: Result<(), SendError>)
        ensures
            host_sent(old(self)@, target, message, final(self)@, r),
    {
        let msg = match message {
            Value::Message(m) => m,
            _ => return Err(SendError::NotAHop),
        };
        let answer = authenticate_host_outgoing_message(
            &mut self.caps,
            &mut self.host_next_request_id,
            target,
            msg,
        );
        assert(host_stamped(
            old(self)@.caps,
            old(self)@.host_rid,
            target,
            msg,
            self@.caps,
            answer,
        ));
        match answer {
            Err(e) => Err(SendError::Cap(e)),
            Ok(m) => match self.deliver(None, target, Value::Message(m)) {
                DeliverStatus::Delivered => Ok(()),
                DeliverStatus::Full => Err(SendError::MailboxFull),
                DeliverStatus::Gone => Err(SendError::NoSuchFlow(target)),
            },
        }
    }
}

/// The host's end of a wait: it can be used once.
#[derive(Debug, PartialEq, Eq)]
pub struct HostAwaitCompleter {
    pub ticket: u64,
}

impl HostAwaitCompleter {
    /// Resume the flow with a value.
    pub fn complete(self, shared: &mut Shared, value: Value) -> (r: Result<(), HostAwaitError>)
        ensures
            settled(await_settled(old(shared)@, self.ticket, Ok(value)).0, final(shared)@),
            r == await_settled(old(shared)@, self.ticket, Ok(value)).1,
    {
        shared.settle_parked(self.ticket, Ok(value))
    }

    /// Fail the flow with a message of the host.
    pub fn fail(self, shared: &mut Shared, msg: Arc<String>) -> (r: Result<(), HostAwaitError>)
        ensures
            settled(
                await_settled(old(shared)@, self.ticket, Err(Failure::Host(msg))).0,
                final(shared)@,
            ),
            r == await_settled(old(shared)@, self.ticket, Err(Failure::Host(msg))).1,
    {
        shared.settle_parked(self.ticket, Err(Failure::Host(msg)))
    }

    /// The host will not answer: the flow fails.
    pub fn abandon(self, shared: &mut Shared) -> (r: Result<(), HostAwaitError>)
        ensures
            settled(
                await_settled(
                    old(shared)@,
                    self.ticket,
                    Err(Failure::Refused("HostAwait completer dropped")),
                ).0,
                final(shared)@,
            ),
            r == await_settled(
                old(shared)@,
                self.ticket,
                Err(Failure::Refused("HostAwait completer dropped")),
            ).1,
    {
        shared.settle_parked(self.ticket, Err(Failure::Refused("HostAwait completer dropped")))
    }
}

} // verus!
