//! State of one runtime: every flow, every table, and the queues between
//! them.
//!
//! A flow is owned by the flow table while it is ready, parked or asleep, and
//! by the worker while it runs. Inboxes, queues and deadlines name flows by
//! their identity.

use std::sync::Arc;

use vstd::prelude::*;

use crate::bytecode::restart::RestartPolicy;
use crate::bytecode::value::Value;
use crate::idmap::IdMap;
use crate::memory::MemoryBudget;
use crate::scheduler::capability::{empty_caps, CapState, CapTable};
use crate::scheduler::directory::{views, Directory};
use crate::scheduler::error::RuntimeError;
use crate::scheduler::failure::Failure;
use crate::scheduler::flow_limit::FlowLimit;
use crate::scheduler::host_await::{AwaitState, HostAwaitIndex, HostAwaitRequest};
use crate::scheduler::link::{LinkId, LinkState, LinkStore};
use crate::scheduler::mailbox::config::MailboxConfig;
use crate::scheduler::mailbox::{system_pushed, Delivery, MailboxState};
use crate::scheduler::monitor::{DownEvent, FlowExitReason, MonitorState, MonitorTable};
use crate::scheduler::process::{
    failed, Flow, FlowId, FlowIds, FlowMetrics, FlowOutcome, FlowState,
};
use crate::scheduler::quota::{QuotaConfig, TopUp};
use crate::scheduler::registry::{Entry, RegistryStore};
use crate::scheduler::runqueue::{queues, Injector, Worker};
use crate::scheduler::timer::{TimerEntry, TimerWheel};
use crate::scheduler::waits::{
    ask_removed, AskState, AskWaitIndex, KillSignals, TrapExitFlags, WaitingSendIndex,
};
use crate::vm::state::{store, VmState};

verus! {

/// Counters of a runtime.
#[derive(Clone, Copy, Debug, PartialEq, Eq, Structural)]
pub struct RuntimeMetrics {
    pub processes_spawned: u64,
    pub processes_completed: u64,
    pub processes_failed: u64,
    pub messages_sent: u64,
    pub reschedules: u64,
    pub steals: u64,
}

/// Settings of a runtime. Zero bounds are no bounds.
#[derive(Clone, Copy, Debug)]
pub struct RuntimeConfig {
    pub workers: usize,
    /// Instructions of one slice.
    pub quantum: u32,
    pub mailbox: MailboxConfig,
    pub quota: QuotaConfig,
    pub max_flows: u32,
    pub max_links: u32,
    pub max_registry_names: u32,
    pub max_ask_waits: u32,
    pub max_host_awaits: u32,
    pub max_runtime_bytes: usize,
    /// The host answers `HostAwait`.
    pub host_await: bool,
}

/// How far a flow on its way out has come, and whom it has still to tell.
pub enum Stage {
    Begin,
    /// Flows that wait for a reply.
    Askers(Vec<FlowId>),
    /// Watches that fire.
    Downs(Vec<DownEvent>),
    /// Linked flows.
    Peers(Vec<(LinkId, FlowId)>),
}

/// Model of a [`Stage`].
pub ghost enum StageState {
    Begin,
    Askers(Seq<FlowId>),
    Downs(Seq<DownEvent>),
    Peers(Seq<(LinkId, FlowId)>),
}

impl View for Stage {
    type V = StageState;

    open spec fn view(&self) -> StageState {
        match *self {
            Stage::Begin => StageState::Begin,
            Stage::Askers(l) => StageState::Askers(l@),
            Stage::Downs(l) => StageState::Downs(l@),
            Stage::Peers(l) => StageState::Peers(l@),
        }
    }
}

/// A flow on its way out.
pub struct PendingExit {
    pub flow: Flow,
    pub outcome: FlowOutcome,
    pub reason: FlowExitReason,
    pub stage: Stage,
}

/// Model of a [`PendingExit`].
#[verifier::ext_equal]
pub ghost struct PendingState {
    pub flow: FlowState,
    pub outcome: FlowOutcome,
    pub reason: FlowExitReason,
    pub stage: StageState,
}

impl View for PendingExit {
    type V = PendingState;

    open spec fn view(&self) -> PendingState {
        PendingState {
            flow: self.flow@,
            outcome: self.outcome,
            reason: self.reason,
            stage: self.stage@,
        }
    }
}

/// What a supervisor is told when one of its children ends.
#[derive(Debug)]
pub struct ChildExit {
    pub supervisor: u64,
    pub id: FlowId,
    pub outcome: FlowOutcome,
    /// The policy that the flow had when it ended.
    pub restart: RestartPolicy,
}

/// State of a runtime.
pub struct Shared {
    pub config: RuntimeConfig,
    pub ids: FlowIds,
    pub flows: IdMap<Flow>,
    pub directory: Directory,
    pub caps: CapTable,
    pub memory: MemoryBudget,
    pub monitors: MonitorTable,
    pub links: LinkStore,
    pub registry: RegistryStore,
    pub trap_exits: TrapExitFlags,
    pub kill_signals: KillSignals,
    pub waiting_send_at: WaitingSendIndex,
    pub ask_waits: AskWaitIndex,
    pub host_awaits: HostAwaitIndex,
    pub timer: TimerWheel,
    pub injector: Injector<FlowId>,
    pub locals: Vec<Worker<FlowId>>,
    pub flow_limit: FlowLimit,
    pub metrics: RuntimeMetrics,
    pub host_next_request_id: u64,
    /// Raises for flows that run.
    pub due: Vec<(FlowId, TopUp)>,
    /// Flows on their way out.
    pub pending: Vec<PendingExit>,
    /// Outcomes for whoever joins.
    pub done: Vec<(FlowId, FlowOutcome)>,
    /// Notices for the supervisors.
    pub exits: Vec<ChildExit>,
    /// Work for the host.
    pub requests: Vec<HostAwaitRequest>,
    /// Broken rules of the runtime itself.
    pub faults: Vec<RuntimeError>,
}

/// Model of [`Shared`].
#[verifier::ext_equal]
pub ghost struct SharedState {
    pub config: RuntimeConfig,
    pub ids: FlowIds,
    pub flows: Map<u128, FlowState>,
    pub boxes: Map<u128, MailboxState>,
    pub caps: CapState,
    pub memory: MemoryBudget,
    pub monitors: MonitorState,
    pub links: LinkState,
    pub max_links: u32,
    pub names: Map<Seq<char>, Entry>,
    pub max_names: u32,
    pub traps: Map<u128, bool>,
    pub kills: Map<u128, FlowExitReason>,
    pub sends: Map<u128, FlowId>,
    pub asks: AskState,
    pub awaits: AwaitState,
    pub timers: Seq<TimerEntry>,
    pub stopped: bool,
    pub ready: Seq<FlowId>,
    pub locals: Seq<Seq<FlowId>>,
    pub limit: FlowLimit,
    pub metrics: RuntimeMetrics,
    pub host_rid: u64,
    pub due: Seq<(FlowId, TopUp)>,
    pub pending: Seq<PendingState>,
    pub done: Seq<(FlowId, FlowOutcome)>,
    pub exits: Seq<ChildExit>,
    pub requests: Seq<HostAwaitRequest>,
    pub faults: Seq<RuntimeError>,
}

/// Models of the flows on their way out.
pub open spec fn pending_states(s: Seq<PendingExit>) -> Seq<PendingState> {
    Seq::new(s.len(), |i: int| s[i]@)
}

impl View for Shared {
    type V = SharedState;

    open spec fn view(&self) -> SharedState {
        SharedState {
            config: self.config,
            ids: self.ids,
            flows: views(self.flows@),
            boxes: self.directory@,
            caps: self.caps@,
            memory: self.memory,
            monitors: self.monitors@,
            links: self.links.table@,
            max_links: self.links.max_links,
            names: self.registry.table@,
            max_names: self.registry.max_names,
            traps: self.trap_exits@,
            kills: self.kill_signals@,
            sends: self.waiting_send_at@,
            asks: self.ask_waits@,
            awaits: self.host_awaits@,
            timers: self.timer@.entries,
            stopped: self.timer@.stopped,
            ready: self.injector@,
            locals: queues(self.locals@),
            limit: self.flow_limit,
            metrics: self.metrics,
            host_rid: self.host_next_request_id,
            due: self.due@,
            pending: pending_states(self.pending@),
            done: self.done@,
            exits: self.exits@,
            requests: self.requests@,
            faults: self.faults@,
        }
    }
}

/// A runtime without flows.
pub open spec fn empty_runtime(config: RuntimeConfig) -> SharedState {
    SharedState {
        config,
        ids: FlowIds { next: 1, exhausted: false },
        flows: Map::empty(),
        boxes: Map::empty(),
        caps: empty_caps(),
        memory: MemoryBudget { used: 0, limit: config.max_runtime_bytes },
        monitors: MonitorState { monitors: Map::empty(), next: 1 },
        links: LinkState { links: Map::empty(), next: 1 },
        max_links: config.max_links,
        names: Map::empty(),
        max_names: config.max_registry_names,
        traps: Map::empty(),
        kills: Map::empty(),
        sends: Map::empty(),
        asks: AskState { waits: Map::empty(), max: config.max_ask_waits as usize },
        awaits: AwaitState {
            waits: Map::empty(),
            next: 1,
            max: config.max_host_awaits as usize,
        },
        timers: Seq::empty(),
        stopped: false,
        ready: Seq::empty(),
        locals: Seq::new(config.workers as nat, |i: int| Seq::empty()),
        limit: FlowLimit { live: 0, max: config.max_flows },
        metrics: RuntimeMetrics {
            processes_spawned: 0,
            processes_completed: 0,
            processes_failed: 0,
            messages_sent: 0,
            reschedules: 0,
            steals: 0,
        },
        host_rid: 1,
        due: Seq::empty(),
        pending: Seq::empty(),
        done: Seq::empty(),
        exits: Seq::empty(),
        requests: Seq::empty(),
        faults: Seq::empty(),
    }
}

/// The machine of a flow with the flow's and the runtime's budgets.
pub open spec fn lent(f: FlowState, m: MemoryBudget) -> VmState {
    VmState { quota: Some(f.quota), memory: Some(m), ..f.vm }
}

/// The flow after its machine gave the budgets back.
pub open spec fn returned(f: FlowState, v: VmState) -> FlowState {
    FlowState {
        vm: VmState { quota: None, memory: None, ..v },
        quota: match v.quota {
            Some(q) => q,
            None => f.quota,
        },
        ..f
    }
}

/// The runtime's budget after a machine gave it back.
pub open spec fn left_over(v: VmState, m: MemoryBudget) -> MemoryBudget {
    match v.memory {
        Some(b) => b,
        None => m,
    }
}

/// The state with one more flow on its way out.
pub open spec fn exiting(
    s: SharedState,
    f: FlowState,
    outcome: FlowOutcome,
    reason: FlowExitReason,
) -> SharedState {
    SharedState {
        pending: s.pending.push(
            PendingState { flow: f, outcome, reason, stage: StageState::Begin },
        ),
        ..s
    }
}

/// The state after a flow failed.
pub open spec fn failing(s: SharedState, f: FlowState, why: Failure) -> SharedState {
    exiting(s, f, failed(why), FlowExitReason::Fault)
}

/// A value was delivered into a register of a running flow. A fault ends it.
pub open spec fn resumed(s: SharedState, f: FlowState, dest_reg: u8, v: Value) -> (
    SharedState,
    Option<FlowState>,
) {
    let (vm, r) = store(lent(f, s.memory), dest_reg, v);
    let t = SharedState { memory: left_over(vm, s.memory), ..s };
    let g = returned(f, vm);
    match r {
        Ok(_) => (t, Some(g)),
        Err(e) => (failing(t, g, Failure::Trap(e)), None),
    }
}

/// The flow after it got a message.
pub open spec fn received(f: FlowState) -> FlowState {
    FlowState {
        metrics: FlowMetrics {
            messages_received: f.metrics.messages_received.wrapping_add(1),
            ..f.metrics
        },
        ..f
    }
}

/// The state with flow `id` in the table.
pub open spec fn kept(s: SharedState, id: FlowId, f: FlowState) -> SharedState {
    SharedState { flows: s.flows.insert(id.raw as u128, f), ..s }
}

/// The state without flow `id` in the table.
pub open spec fn dropped(s: SharedState, id: FlowId) -> SharedState {
    SharedState { flows: s.flows.remove(id.raw as u128), ..s }
}

/// The state with flow `id` in a run queue: that of worker `w`, or the
/// shared one.
pub open spec fn queued_for(s: SharedState, w: Option<usize>, id: FlowId) -> SharedState {
    match w {
        Some(k) if k < s.locals.len() => SharedState {
            locals: s.locals.update(k as int, s.locals[k as int].push(id)),
            ..s
        },
        _ => SharedState { ready: s.ready.push(id), ..s },
    }
}

/// Flow `id` of the table got a message into the register of its latest
/// receive and is runnable; it fails if it has none.
pub open spec fn woken(s: SharedState, w: Option<usize>, id: FlowId, v: Value) -> SharedState {
    if !s.flows.contains_key(id.raw as u128) {
        s
    } else {
        let f = s.flows[id.raw as u128];
        match f.last_receive_dest {
            None => failing(
                dropped(s, id),
                f,
                Failure::Refused("handoff missing dest register"),
            ),
            Some(dest) => match resumed(dropped(s, id), f, dest, v) {
                (t, Some(g)) => queued_for(kept(t, id, received(g)), w, id),
                (t, None) => t,
            },
        }
    }
}

/// A message of the system came to flow `owner`.
pub open spec fn system_hop(s: SharedState, owner: FlowId, v: Value) -> SharedState {
    let k = owner.raw as u128;
    if !s.boxes.contains_key(k) {
        s
    } else {
        let (m, d) = system_pushed(s.boxes[k], v);
        let t = SharedState { boxes: s.boxes.insert(k, m), ..s };
        match d {
            Delivery::Handoff(id) => woken(
                SharedState { asks: ask_removed(t.asks, id), ..t },
                None,
                id,
                v,
            ),
            _ => t,
        }
    }
}

impl Shared {
    /// A runtime without flows.
    pub fn new(config: RuntimeConfig) -> (r: Self)
        ensures
            r@ == empty_runtime(config),
    {
        let mut locals: Vec<Worker<FlowId>> = Vec::new();
        let mut i: usize = 0;
        while i < config.workers
            invariant
                i <= config.workers,
                locals@.len() == i,
                forall|j: int| 0 <= j < i ==> (#[trigger] locals@[j])@ == Seq::<FlowId>::empty(),
            decreases config.workers - i,
        {
            locals.push(Worker::new_fifo());
            i += 1;
        }
        assert(queues(locals@) =~= empty_runtime(config).locals);
        let r = Shared {
            config,
            ids: FlowIds::new(),
            flows: IdMap::new(),
            directory: Directory::new(),
            caps: CapTable::new(),
            memory: MemoryBudget::new(config.max_runtime_bytes),
            monitors: MonitorTable::new(),
            links: LinkStore::new(config.max_links),
            registry: RegistryStore::new(config.max_registry_names),
            trap_exits: TrapExitFlags::new(),
            kill_signals: KillSignals::new(),
            waiting_send_at: WaitingSendIndex::new(),
            ask_waits: AskWaitIndex::new(config.max_ask_waits),
            host_awaits: HostAwaitIndex::new(config.max_host_awaits),
            timer: TimerWheel::new(),
            injector: Injector::new(),
            locals,
            flow_limit: FlowLimit::new(config.max_flows),
            metrics: RuntimeMetrics {
                processes_spawned: 0,
                processes_completed: 0,
                processes_failed: 0,
                messages_sent: 0,
                reschedules: 0,
                steals: 0,
            },
            host_next_request_id: 1,
            due: Vec::new(),
            pending: Vec::new(),
            done: Vec::new(),
            exits: Vec::new(),
            requests: Vec::new(),
            faults: Vec::new(),
        };
        assert(r@ =~= empty_runtime(config));
        r
    }

    /// Put a flow on its way out.
    pub fn exit_flow(&mut self, flow: Flow, outcome: FlowOutcome, reason: FlowExitReason)
        ensures
            final(self)@ == exiting(old(self)@, flow@, outcome, reason),
    {
        let ghost f = flow@;
        self.pending.push(PendingExit { flow, outcome, reason, stage: Stage::Begin });
        assert(self@.pending =~= old(self)@.pending.push(
            PendingState { flow: f, outcome, reason, stage: StageState::Begin },
        ));
    }

    /// Put a flow on its way out because it failed.
    pub fn fail_flow(&mut self, flow: Flow, why: Failure)
        ensures
            final(self)@ == failing(old(self)@, flow@, why),
    {
        self.exit_flow(flow, FlowOutcome::Failed(Arc::new(why)), FlowExitReason::Fault);
    }

    /// Deliver a value into a register of a running flow.
    pub fn resume_or_fail(&mut self, flow: Flow, dest_reg: u8, value: Value) -> (r: Option<Flow>)
        ensures
            final(self)@ == resumed(old(self)@, flow@, dest_reg, value).0,
            match resumed(old(self)@, flow@, dest_reg, value).1 {
                Some(g) => r matches Some(x) && x@ == g,
                None => r is None,
            },
    {
        let mut flow = flow;
        let ghost f = flow@;
        flow.vm.lend_quota(flow.quota);
        flow.vm.set_memory_budget(self.memory);
        assert(flow.vm@ == lent(f, old(self)@.memory));
        let answer = flow.vm.resume_with(dest_reg, value);
        let ghost vm = flow.vm@;
        if let Some(m) = flow.vm.take_memory_budget() {
            self.memory = m;
        }
        if let Some(q) = flow.vm.take_quota() {
            flow.quota = q;
        }
        assert(flow@ == returned(f, vm));
        match answer {
            Ok(_) => Some(flow),
            Err(e) => {
                self.fail_flow(flow, Failure::Trap(e));
                None
            },
        }
    }

    /// Take a flow out of the table.
    pub fn take_flow(&mut self, id: FlowId) -> (r: Option<Flow>)
        ensures
            final(self)@ == dropped(old(self)@, id),
            match r {
                Some(f) => old(self)@.flows.contains_key(id.raw as u128) && f@ == old(
                    self,
                )@.flows[id.raw as u128],
                None => !old(self)@.flows.contains_key(id.raw as u128),
            },
    {
        let f = self.flows.remove(id.raw as u128);
        assert(self@.flows =~= old(self)@.flows.remove(id.raw as u128));
        f
    }

    /// Put a flow into the table.
    pub fn keep_flow(&mut self, id: FlowId, flow: Flow)
        ensures
            final(self)@ == kept(old(self)@, id, flow@),
    {
        let ghost f = flow@;
        let _ = self.flows.insert(id.raw as u128, flow);
        assert(self@.flows =~= old(self)@.flows.insert(id.raw as u128, f));
    }

    /// Put a flow into a run queue.
    pub fn queue_for(&mut self, w: Option<usize>, id: FlowId)
        ensures
            final(self)@ == queued_for(old(self)@, w, id),
    {
        if let Some(k) = w {
            if k < self.locals.len() {
                assert(old(self)@.locals[k as int] == self.locals@[k as int]@);
                self.locals[k].push(id);
                assert(self@.locals =~= old(self)@.locals.update(
                    k as int,
                    old(self)@.locals[k as int].push(id),
                ));
                return ;
            }
        }
        self.injector.push(id);
    }

    /// Wake a parked flow with a message.
    pub fn wake(&mut self, w: Option<usize>, id: FlowId, value: Value)
        ensures
            final(self)@ == woken(old(self)@, w, id, value),
    {
        let flow = match self.take_flow(id) {
            Some(f) => f,
            None => {
                assert(self@.flows =~= old(self)@.flows);
                return ;
            },
        };
        match flow.last_receive_dest {
            Some(dest) => {
                if let Some(mut g) = self.resume_or_fail(flow, dest, value) {
                    g.metrics.messages_received = g.metrics.messages_received.wrapping_add(1);
                    self.keep_flow(id, g);
                    self.queue_for(w, id);
                }
            },
            None => self.fail_flow(flow, Failure::Refused("handoff missing dest register")),
        }
    }

    /// Deliver a message of the system.
    pub fn deliver_system_hop(&mut self, owner: FlowId, hop: Value)
        ensures
            final(self)@ == system_hop(old(self)@, owner, hop),
    {
        let mut mailbox = match self.directory.take(owner) {
            Some(m) => m,
            None => {
                assert(self@.boxes =~= old(self)@.boxes);
                return ;
            },
        };
        let delivery = mailbox.push_system(hop.clone());
        self.directory.put(owner, mailbox);
        assert(self@.boxes =~= old(self)@.boxes.insert(owner.raw as u128, mailbox@));
        if let Delivery::Handoff(id) = delivery {
            let _ = self.ask_waits.remove_asker(id);
            self.wake(None, id, hop);
        }
    }
}

} // verus!
