//! Flows: their identity, counters and state.

use std::sync::Arc;

use vstd::prelude::*;

use crate::bytecode::cap::{rights, Cap, CapRights, CapTarget, RevocationCell};
use crate::bytecode::restart::RestartPolicy;
use crate::bytecode::value::{values_equal, Value};
use crate::scheduler::error::RuntimeError;
use crate::scheduler::failure::{failure_text, Failure};
use crate::scheduler::quota::{fresh_quota, permissive_quota, FlowQuota, QuotaConfig};
use crate::text::{dec, owned, push_u64, same_text};
use crate::vm::machine::Vm;
use crate::vm::state::VmState;

verus! {

/// Identifier of a flow. It names, but gives no authority.
#[derive(Clone, Copy, Debug, PartialEq, Eq, Structural, Hash, PartialOrd, Ord)]
pub struct FlowId {
    pub raw: u64,
}

/// The identity of the host, which is never spawned or finalized.
pub open spec fn host_id() -> FlowId {
    FlowId { raw: 0 }
}

/// How an identity is printed.
pub open spec fn flow_id_text(id: FlowId) -> Seq<char> {
    "flow#"@ + dec(id.raw as nat)
}

impl FlowId {
    /// The identity of the host.
    pub fn host() -> (r: FlowId)
        ensures
            r == host_id(),
    {
        FlowId { raw: 0 }
    }

    pub fn as_u64(self) -> (r: u64)
        ensures
            r == self.raw,
    {
        self.raw
    }

    pub fn is_host(self) -> (r: bool)
        ensures
            r == (self == host_id()),
    {
        self.raw == 0
    }

    /// Printed form.
    pub fn text(self) -> (r: String)
        ensures
            r@ == flow_id_text(self),
    {
        let mut s = owned("flow#");
        push_u64(&mut s, self.raw);
        s
    }
}

/// Allocator of flow identities. An identity is never handed out twice: a
/// stale one must not lead to a later flow.
#[derive(Clone, Copy, Debug, PartialEq, Eq, Structural)]
pub struct FlowIds {
    pub next: u64,
    pub exhausted: bool,
}

/// The allocator after an identity was asked for, and the answer. The
/// identity of the host is never given out, and after the counter wrapped
/// nothing is.
pub open spec fn id_drawn(s: FlowIds) -> (FlowIds, Result<FlowId, RuntimeError>) {
    if s.exhausted {
        (s, Err(RuntimeError::FlowIdExhausted))
    } else if s.next == 0 {
        (FlowIds { next: 1, exhausted: true }, Err(RuntimeError::FlowIdExhausted))
    } else {
        (FlowIds { next: s.next.wrapping_add(1), ..s }, Ok(FlowId { raw: s.next }))
    }
}

/// The allocator after `n` requests.
pub open spec fn ids_after(s: FlowIds, n: nat) -> FlowIds
    decreases n,
{
    if n == 0 {
        s
    } else {
        id_drawn(ids_after(s, (n - 1) as nat)).0
    }
}

proof fn lemma_ids_ascend(s: FlowIds, n: nat)
    ensures
        ({
            let t = ids_after(s, n);
            !t.exhausted && !s.exhausted && s.next != 0 ==> (t.next == 0 || t.next >= s.next) && (n
                > 0 && t.next != 0 ==> t.next > s.next)
        }),
        ids_after(s, n).exhausted || (s.exhausted ==> ids_after(s, n).exhausted),
        s.exhausted ==> ids_after(s, n).exhausted,
    decreases n,
{
    if n > 0 {
        lemma_ids_ascend(s, (n - 1) as nat);
    }
}

/// No identity is handed out twice, and none is the host's.
pub proof fn flow_ids_are_unique(s: FlowIds, n: nat)
    requires
        n > 0,
        id_drawn(s).1 is Ok,
        id_drawn(ids_after(s, n)).1 is Ok,
    ensures
        id_drawn(s).1->Ok_0 != id_drawn(ids_after(s, n)).1->Ok_0,
        id_drawn(s).1->Ok_0 != host_id(),
{
    lemma_ids_ascend(s, n);
}

impl FlowIds {
    pub fn new() -> (r: Self)
        ensures
            r == (FlowIds { next: 1, exhausted: false }),
    {
        FlowIds { next: 1, exhausted: false }
    }
}

/// Draw an identity, or fail once they are used up.
pub fn try_next_flow_id(ids: &mut FlowIds) -> (r: Result<FlowId, RuntimeError>)
    ensures
        (*final(ids), r) == id_drawn(*old(ids)),
{
    if ids.exhausted {
        return Err(RuntimeError::FlowIdExhausted);
    }
    let id: u64 = ids.next;
    ids.next = ids.next.wrapping_add(1);
    if id == 0 {
        ids.exhausted = true;
        return Err(RuntimeError::FlowIdExhausted);
    }
    Ok(FlowId { raw: id })
}

/// Draw an identity; the largest one once they are used up.
pub fn next_flow_id(ids: &mut FlowIds) -> (r: FlowId)
    ensures
        *final(ids) == id_drawn(*old(ids)).0,
        r == (match id_drawn(*old(ids)).1 {
            Ok(id) => id,
            Err(_) => FlowId { raw: u64::MAX },
        }),
{
    match try_next_flow_id(ids) {
        Ok(id) => id,
        Err(_) => FlowId { raw: u64::MAX },
    }
}

/// Counters of one flow.
#[derive(Clone, Copy, Debug, PartialEq, Eq, Structural)]
pub struct FlowMetrics {
    pub instructions: u64,
    pub messages_sent: u64,
    pub messages_received: u64,
    pub reschedules: u64,
}

/// Counters of a new flow.
pub open spec fn zero_metrics() -> FlowMetrics {
    FlowMetrics { instructions: 0, messages_sent: 0, messages_received: 0, reschedules: 0 }
}

impl Default for FlowMetrics {
    fn default() -> (r: Self)
        ensures
            r == zero_metrics(),
    {
        FlowMetrics { instructions: 0, messages_sent: 0, messages_received: 0, reschedules: 0 }
    }
}

/// What a sender goes on with once its waiting message was admitted. Times
/// are milliseconds.
#[derive(Debug, Clone, Copy, PartialEq, Eq, Structural)]
pub enum PendingSend {
    FireAndForget,
    Ask { dest_reg: u8, expect_request_id: u64, expect_sender: u64, timeout: Option<u64> },
}

/// How a flow ended.
#[derive(Debug)]
pub enum FlowOutcome {
    Completed(Value),
    Failed(Arc<Failure>),
}

impl Clone for FlowOutcome {
    fn clone(&self) -> (r: Self)
        ensures
            r == *self,
    {
        match self {
            FlowOutcome::Completed(v) => FlowOutcome::Completed(v.clone()),
            FlowOutcome::Failed(why) => FlowOutcome::Failed(why.clone()),
        }
    }
}

/// Outcomes are equal if their values are, or the messages of their
/// failures.
pub open spec fn outcomes_equal(a: FlowOutcome, b: FlowOutcome) -> bool {
    match (a, b) {
        (FlowOutcome::Completed(x), FlowOutcome::Completed(y)) => values_equal(x, y),
        (FlowOutcome::Failed(x), FlowOutcome::Failed(y)) => failure_text(*x) == failure_text(*y),
        _ => false,
    }
}

impl PartialEq for FlowOutcome {
    fn eq(&self, other: &Self) -> (r: bool) {
        match (self, other) {
            (FlowOutcome::Completed(x), FlowOutcome::Completed(y)) => *x == *y,
            (FlowOutcome::Failed(x), FlowOutcome::Failed(y)) => same_text(
                x.text().as_str(),
                y.text().as_str(),
            ),
            _ => false,
        }
    }
}

impl vstd::std_specs::cmp::PartialEqSpecImpl for FlowOutcome {
    open spec fn obeys_eq_spec() -> bool {
        true
    }

    open spec fn eq_spec(&self, other: &Self) -> bool {
        outcomes_equal(*self, *other)
    }
}

/// The outcome of a flow that failed.
pub open spec fn failed(why: Failure) -> FlowOutcome {
    FlowOutcome::Failed(Arc::new(why))
}

/// A unit of concurrent work: a machine and its bookkeeping.
pub struct Flow {
    pub id: FlowId,
    pub vm: Vm,
    pub metrics: FlowMetrics,
    pub restart_policy: RestartPolicy,
    /// A message that came before the flow could be parked.
    pub pending_message: Option<Value>,
    /// Destination register of the latest receive.
    pub last_receive_dest: Option<u8>,
    /// What follows once a waiting message was admitted.
    pub pending_send: Option<PendingSend>,
    /// Number of the supervisor that is told how the flow ended.
    pub supervisor: Option<u64>,
    /// What the flow may do.
    pub authority: Cap,
    pub cell: RevocationCell,
    pub quota: FlowQuota,
    /// What is left of the slice while the host works for the flow.
    pub slice_left: Option<u32>,
}

/// Model of a [`Flow`].
#[verifier::ext_equal]
pub ghost struct FlowState {
    pub id: FlowId,
    pub vm: VmState,
    pub metrics: FlowMetrics,
    pub restart_policy: RestartPolicy,
    pub pending_message: Option<Value>,
    pub last_receive_dest: Option<u8>,
    pub pending_send: Option<PendingSend>,
    pub supervisor: Option<u64>,
    pub authority: Cap,
    pub cell: RevocationCell,
    pub quota: FlowQuota,
    pub slice_left: Option<u32>,
}

impl View for Flow {
    type V = FlowState;

    open spec fn view(&self) -> FlowState {
        FlowState {
            id: self.id,
            vm: self.vm@,
            metrics: self.metrics,
            restart_policy: self.restart_policy,
            pending_message: self.pending_message,
            last_receive_dest: self.last_receive_dest,
            pending_send: self.pending_send,
            supervisor: self.supervisor,
            authority: self.authority,
            cell: self.cell,
            quota: self.quota,
            slice_left: self.slice_left,
        }
    }
}

/// A flow that may do nothing yet.
pub open spec fn new_flow(id: FlowId, vm: VmState, policy: RestartPolicy, now: u64) -> FlowState {
    FlowState {
        id,
        vm,
        metrics: zero_metrics(),
        restart_policy: policy,
        pending_message: None,
        last_receive_dest: None,
        pending_send: None,
        supervisor: None,
        authority: Cap {
            target: CapTarget::Flow(id.raw),
            rights: rights(0),
            native_mask: None,
            epoch: 0,
        },
        cell: RevocationCell { count: 0 },
        quota: fresh_quota(permissive_quota(), now),
        slice_left: None,
    }
}

impl Flow {
    pub fn new(id: FlowId, vm: Vm, restart_policy: RestartPolicy, now: u64) -> (r: Self)
        ensures
            r@ == new_flow(id, vm@, restart_policy, now),
    {
        let cell = RevocationCell::new();
        let authority = Cap::root(CapTarget::Flow(id.as_u64()), CapRights::none(), None, &cell);
        Flow {
            id,
            vm,
            metrics: FlowMetrics::default(),
            restart_policy,
            pending_message: None,
            last_receive_dest: None,
            pending_send: None,
            supervisor: None,
            authority,
            cell,
            quota: FlowQuota::from_config(QuotaConfig::default(), now),
            slice_left: None,
        }
    }
}

} // verus!
