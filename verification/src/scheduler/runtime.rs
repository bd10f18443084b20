//! Spawning flows and the operations that the host has on a runtime.

use std::sync::Arc;

use vstd::prelude::*;

use crate::bytecode::cap::{
    rights, rights_contain, Cap, CapRights, CapTarget, NativeMask, RevocationCell, RIGHTS_FLOW,
    RIGHT_NATIVE,
};
use crate::bytecode::chunk::Chunk;
use crate::bytecode::restart::RestartPolicy;
use crate::bytecode::value::Value;
use crate::scheduler::capability::{bound, cell_of, flow_revoked, CapError, CapState};
use crate::scheduler::error::{spawn_error_of_refusal, RuntimeError, SpawnError};
use crate::scheduler::flow_limit::{at_limit, freed_slot, reserved};
use crate::scheduler::hops::{
    all_passed, reissue_caps_in_values, values_view,
};
use crate::scheduler::mailbox::config::config_ok;
use crate::scheduler::mailbox::{new_mailbox, Mailbox};
use crate::scheduler::process::{
    id_drawn, try_next_flow_id, zero_metrics, Flow, FlowId, FlowMetrics, FlowState,
};
use crate::scheduler::quota::{fresh_quota, FlowQuota};
use crate::scheduler::shared::{RuntimeMetrics, Shared, SharedState};
use crate::scheduler::spawn::{
    confined_child, exec_spawn_authority, spawn_quota, spawn_refusal, ConfinedSpawnError,
};
use crate::vm::machine::{charge_frames, fresh_vm, Vm};
use crate::vm::native::{NativeGate, NativeTable};
use crate::vm::state::{entry_frame, VmState};

verus! {

/// What is to run in a new flow.
pub struct SpawnRequest {
    pub chunk: Arc<Chunk>,
    pub natives: Arc<NativeTable>,
    pub function: u32,
    pub restart_policy: RestartPolicy,
    /// Number of the supervisor that is told how the flow ended.
    pub supervisor: Option<u64>,
}

/// The flow that spawns, and the rights that it asks for.
pub ghost struct Parent {
    pub id: FlowId,
    pub authority: Cap,
    pub cell: RevocationCell,
    pub quota: FlowQuota,
    pub want: CapRights,
}

/// Why the parent may not spawn, if it may not. The host always may.
pub open spec fn parent_refusal(parent: Option<Parent>, now: u64) -> Option<ConfinedSpawnError> {
    match parent {
        Some(p) => spawn_refusal(p.authority, p.cell, p.quota, now),
        None => None,
    }
}

/// The authority that a new flow may have: what its parent gives it, or the
/// root authority with every native if the host spawns it.
pub open spec fn born_with(
    parent: Option<Parent>,
    id: FlowId,
    cell: RevocationCell,
    natives: nat,
    authority: Cap,
) -> bool {
    match parent {
        Some(p) => confined_child(p.authority, id.raw, p.want, None, cell, authority),
        None => {
            &&& authority.target == CapTarget::Flow(id.raw)
            &&& authority.rights == rights(RIGHTS_FLOW)
            &&& authority.epoch == cell.count
            &&& authority.native_mask matches Some(m) && m@ == all_slots(natives)
        },
    }
}

/// Every native slot.
pub open spec fn all_slots(n: nat) -> Set<int> {
    Set::new(|i: int| 0 <= i < n)
}

/// The native gate of a flow with this authority.
pub open spec fn gate_of(
    authority: Cap,
    cell: RevocationCell,
    native_cell: RevocationCell,
    gate: NativeGate,
) -> bool {
    &&& gate.has_native == rights_contain(authority.rights, rights(RIGHT_NATIVE))
    &&& gate.authority_epoch == authority.epoch
    &&& gate.flow_cell == cell
    &&& gate.native_epoch == native_cell.count
    &&& gate.native_cell == native_cell
    &&& match authority.native_mask {
        Some(m) => gate.mask == m,
        None => gate.mask@ == Set::<int>::empty(),
    }
}

/// The state after a spawn was given up: the slot and whatever the new flow
/// held are gone.
pub open spec fn undone(s: SharedState, id: FlowId) -> SharedState {
    SharedState { caps: flow_revoked(s.caps, id), limit: freed_slot(s.limit), ..s }
}

/// A new flow that is ready to run.
pub open spec fn newborn(
    req: SpawnRequest,
    id: FlowId,
    vm: VmState,
    authority: Cap,
    cell: RevocationCell,
    quota: FlowQuota,
) -> FlowState {
    FlowState {
        id,
        vm,
        metrics: zero_metrics(),
        restart_policy: req.restart_policy,
        pending_message: None,
        last_receive_dest: None,
        pending_send: None,
        supervisor: req.supervisor,
        authority,
        cell,
        quota,
        slice_left: None,
    }
}

/// What putting the machine of a new flow together did.
pub open spec fn assembled(
    s: SharedState,
    req: SpawnRequest,
    id: FlowId,
    authority: Cap,
    cell: RevocationCell,
    gate: NativeGate,
    args: Seq<Value>,
    now: u64,
) -> (SharedState, Result<FlowId, SpawnError>) {
    match entry_frame(*req.chunk, req.function, args, None) {
        Err(f) => (undone(s, id), Err(SpawnError::VmInit(f))),
        Ok(frame) => {
            let vm = fresh_vm(*req.chunk, req.natives@, gate, frame);
            let (q, m, answer) = charge_frames(
                fresh_quota(s.config.quota, now),
                Some(s.memory),
                vm.frames,
                vm.frames.len(),
            );
            match answer {
                Err(f) => (undone(s, id), Err(SpawnError::VmInit(f))),
                Ok(_) => if s.boxes.contains_key(id.raw as u128) {
                    (undone(s, id), Err(SpawnError::Unavailable))
                } else {
                    (
                        SharedState {
                            memory: match m {
                                Some(b) => b,
                                None => s.memory,
                            },
                            boxes: s.boxes.insert(id.raw as u128, new_mailbox(s.config.mailbox)),
                            flows: s.flows.insert(
                                id.raw as u128,
                                newborn(req, id, vm, authority, cell, q),
                            ),
                            ready: s.ready.push(id),
                            metrics: RuntimeMetrics {
                                processes_spawned: s.metrics.processes_spawned.wrapping_add(1),
                                ..s.metrics
                            },
                            ..s
                        },
                        Ok(id),
                    )
                },
            }
        },
    }
}

/// What installing a new flow did, with its authority: its arguments were
/// handed over and its machine put together.
pub open spec fn installed(
    s: SharedState,
    req: SpawnRequest,
    from: Option<FlowId>,
    id: FlowId,
    authority: Cap,
    cell: RevocationCell,
    args: Seq<Value>,
    now: u64,
    t: SharedState,
    r: Result<FlowId, SpawnError>,
) -> bool {
    exists|caps: CapState, vals: Result<Seq<Value>, CapError>, gate: NativeGate|
        {
            &&& #[trigger] all_passed(s.caps, from, id, args, caps, vals)
            &&& #[trigger] gate_of(authority, cell, s.caps.native_cell, gate)
            &&& match vals {
                Err(_) => (t, r) == (
                    undone(SharedState { caps, ..s }, id),
                    Err::<FlowId, SpawnError>(SpawnError::InvalidCapability),
                ),
                Ok(vs) => (t, r) == assembled(
                    SharedState { caps, ..s },
                    req,
                    id,
                    authority,
                    cell,
                    gate,
                    vs,
                    now,
                ),
            }
        }
}

/// What a spawn did. The function must exist, a slot and an identity must be
/// free, and the parent must be allowed to spawn.
pub open spec fn spawned(
    s: SharedState,
    req: SpawnRequest,
    parent: Option<Parent>,
    args: Seq<Value>,
    now: u64,
    t: SharedState,
    r: Result<FlowId, SpawnError>,
) -> bool {
    if req.function >= req.chunk.functions@.len() {
        (t, r) == (
            s,
            Err::<FlowId, SpawnError>(
                SpawnError::BadFunction {
                    index: req.function,
                    table_size: req.chunk.functions@.len() as u32,
                },
            ),
        )
    } else if at_limit(s.limit) {
        (t, r) == (
            s,
            Err::<FlowId, SpawnError>(
                SpawnError::FlowLimit { current: s.limit.live, max: s.limit.max },
            ),
        )
    } else {
        match id_drawn(s.ids) {
            (ids, Err(_)) => (t, r) == (
                SharedState { ids, limit: freed_slot(reserved(s.limit)), ..s },
                Err::<FlowId, SpawnError>(SpawnError::FlowIdExhausted),
            ),
            (ids, Ok(id)) => {
                let a = SharedState {
                    ids,
                    limit: reserved(s.limit),
                    caps: bound(s.caps, id),
                    ..s
                };
                match parent_refusal(parent, now) {
                    Some(e) => (t, r) == (undone(a, id), Err::<FlowId, SpawnError>(spawn_error_of_refusal(e))),
                    None => exists|authority: Cap|
                        {
                            &&& #[trigger] born_with(
                                parent,
                                id,
                                cell_of(s.caps, id),
                                req.natives@.len(),
                                authority,
                            )
                            &&& installed(
                                a,
                                req,
                                match parent {
                                    Some(p) => Some(p.id),
                                    None => None,
                                },
                                id,
                                authority,
                                cell_of(s.caps, id),
                                args,
                                now,
                                t,
                                r,
                            )
                        },
                }
            },
        }
    }
}

/// The parent's quota after it asked for a spawn: a token is used once the
/// function, the slot and the identity are there.
pub open spec fn quota_after_spawn(s: SharedState, req: SpawnRequest, p: Parent, now: u64) -> FlowQuota {
    if req.function < req.chunk.functions@.len() && !at_limit(s.limit) && id_drawn(s.ids).1 is Ok {
        spawn_quota(p.authority, p.cell, p.quota, now)
    } else {
        p.quota
    }
}

/// The model of a spawning flow.
pub open spec fn parent_of(f: FlowState, want: CapRights) -> Parent {
    Parent { id: f.id, authority: f.authority, cell: f.cell, quota: f.quota, want }
}

impl Shared {
    /// Check the function and draw an identity with a slot.
    fn begin_spawn(&mut self, req: &SpawnRequest) -> (r: Result<(FlowId, RevocationCell), SpawnError>)
        ensures
            match r {
                Ok((id, cell)) => {
                    &&& req.function < req.chunk.functions@.len()
                    &&& !at_limit(old(self)@.limit)
                    &&& id_drawn(old(self)@.ids).1 == Ok::<FlowId, RuntimeError>(id)
                    &&& cell == cell_of(old(self)@.caps, id)
                    &&& final(self)@ == (SharedState {
                        ids: id_drawn(old(self)@.ids).0,
                        limit: reserved(old(self)@.limit),
                        caps: bound(old(self)@.caps, id),
                        ..old(self)@
                    })
                },
                Err(e) => {
                    &&& !(req.function < req.chunk.functions@.len() && !at_limit(old(self)@.limit)
                        && id_drawn(old(self)@.ids).1 is Ok)
                    &&& forall|parent: Option<Parent>, args: Seq<Value>, now: u64| #[trigger]
                        spawned(
                            old(self)@,
                            *req,
                            parent,
                            args,
                            now,
                            final(self)@,
                            Err(e),
                        )
                },
            },
    {
        if req.function as usize >= req.chunk.functions.len() {
            let table_size: u32 = req.chunk.functions.len() as u32;
            return Err(SpawnError::BadFunction { index: req.function, table_size });
        }
        match self.flow_limit.try_reserve() {
            Ok(_) => {},
            Err(e) => return Err(e),
        }
        let id = match try_next_flow_id(&mut self.ids) {
            Ok(id) => id,
            Err(_) => {
                self.flow_limit.release();
                return Err(SpawnError::FlowIdExhausted);
            },
        };
        let cell = self.caps.bind_flow(id);
        Ok((id, cell))
    }

    fn undo_spawn(&mut self, id: FlowId)
        ensures
            final(self)@ == undone(old(self)@, id),
    {
        let _ = self.caps.revoke_flow(id);
        self.flow_limit.release();
    }

    fn install(
        &mut self,
        req: &SpawnRequest,
        from: Option<FlowId>,
        id: FlowId,
        authority: Cap,
        cell: RevocationCell,
        args: &[Value],
        now: u64,
    ) -> (r: Result<FlowId, SpawnError>)
        requires
            config_ok(old(self).config.mailbox),
        ensures
            installed(
                old(self)@,
                *req,
                from,
                id,
                authority,
                cell,
                args@,
                now,
                final(self)@,
                r,
            ),
    {
        let ghost s0 = self@;
        let native_cell = self.caps.native_cell();
        let gate = NativeGate::from_authority(&authority, cell, native_cell, req.natives.len());
        let ghost g = gate;
        assert(gate_of(authority, cell, s0.caps.native_cell, g));
        let passed = reissue_caps_in_values(&mut self.caps, from, id, args);
        let ghost caps = self.caps@;
        let ghost vals = values_view(passed);
        assert(all_passed(s0.caps, from, id, args@, caps, vals));
        let ghost s1 = self@;
        assert(s1 == SharedState { caps, ..s0 });
        let values = match passed {
            Ok(v) => v,
            Err(_) => {
                self.undo_spawn(id);
                return Err(SpawnError::InvalidCapability);
            },
        };
        self.assemble(req, id, authority, cell, gate, values, now)
    }

    fn assemble(
        &mut self,
        req: &SpawnRequest,
        id: FlowId,
        authority: Cap,
        cell: RevocationCell,
        gate: NativeGate,
        values: Vec<Value>,
        now: u64,
    ) -> (r: Result<FlowId, SpawnError>)
        requires
            config_ok(old(self).config.mailbox),
        ensures
            (final(self)@, r) == assembled(
                old(self)@,
                *req,
                id,
                authority,
                cell,
                gate,
                values@,
                now,
            ),
    {
        let ghost s0 = self@;
        let mut vm = match Vm::with_native_gate(
            req.chunk.clone(),
            req.natives.clone(),
            gate,
            req.function,
            values.as_slice(),
        ) {
            Ok(vm) => vm,
            Err(f) => {
                self.undo_spawn(id);
                return Err(SpawnError::VmInit(f));
            },
        };
        let ghost fresh = vm@;
        vm.set_memory_budget(self.memory);
        let quota = FlowQuota::from_config(self.config.quota, now);
        match vm.set_quota(quota) {
            Ok(_) => {},
            Err(f) => {
                self.undo_spawn(id);
                return Err(SpawnError::VmInit(f));
            },
        }
        match self.directory.register(id, Mailbox::with_config(self.config.mailbox)) {
            Ok(_) => {},
            Err(_) => {
                self.undo_spawn(id);
                return Err(SpawnError::Unavailable);
            },
        }
        if let Some(m) = vm.take_memory_budget() {
            self.memory = m;
        }
        let charged = match vm.take_quota() {
            Some(q) => q,
            None => quota,
        };
        assert(vm@ == fresh);
        let flow = Flow {
            id,
            vm,
            metrics: FlowMetrics::default(),
            restart_policy: req.restart_policy,
            pending_message: None,
            last_receive_dest: None,
            pending_send: None,
            supervisor: req.supervisor,
            authority,
            cell,
            quota: charged,
            slice_left: None,
        };
        let ghost f = flow@;
        self.keep_flow(id, flow);
        self.injector.push(id);
        self.metrics.processes_spawned = self.metrics.processes_spawned.wrapping_add(1);
        Ok(id)
    }

    /// Spawn a flow for the host.
    pub fn spawn(&mut self, req: &SpawnRequest, args: &[Value], now: u64) -> (r: Result<
        FlowId,
        SpawnError,
    >)
        requires
            config_ok(old(self).config.mailbox),
        ensures
            spawned(old(self)@, *req, None, args@, now, final(self)@, r),
    {
        let (id, cell) = match self.begin_spawn(req) {
            Ok(x) => x,
            Err(e) => return Err(e),
        };
        let mask = NativeMask::full(req.natives.len());
        assert(mask@ =~= all_slots(req.natives@.len()));
        let authority = Cap::root(
            CapTarget::Flow(id.as_u64()),
            CapRights::root(),
            Some(mask),
            &cell,
        );
        let ghost au = authority;
        assert(born_with(None, id, cell, req.natives@.len(), au));
        self.install(req, None, id, authority, cell, args, now)
    }

    /// Spawn a flow for another one, cut down to the rights that it asks for
    /// and has.
    pub fn spawn_child(
        &mut self,
        parent: &mut Flow,
        want: CapRights,
        req: &SpawnRequest,
        args: &[Value],
        now: u64,
    ) -> (r: Result<FlowId, SpawnError>)
        requires
            config_ok(old(self).config.mailbox),
        ensures
            spawned(
                old(self)@,
                *req,
                Some(parent_of(old(parent)@, want)),
                args@,
                now,
                final(self)@,
                r,
            ),
            final(parent)@ == (FlowState {
                quota: quota_after_spawn(
                    old(self)@,
                    *req,
                    parent_of(old(parent)@, want),
                    now,
                ),
                ..old(parent)@
            }),
    {
        let ghost p = parent_of(parent@, want);
        let (id, cell) = match self.begin_spawn(req) {
            Ok(x) => x,
            Err(e) => return Err(e),
        };
        let mut quota = parent.quota;
        let authority = exec_spawn_authority(
            &parent.authority,
            &parent.cell,
            &mut quota,
            id.as_u64(),
            want,
            None,
            &cell,
            now,
        );
        parent.quota = quota;
        match authority {
            Ok(cap) => {
                let ghost au = cap;
                assert(born_with(Some(p), id, cell, req.natives@.len(), au));
                let parent_id = parent.id;
                self.install(req, Some(parent_id), id, cap, cell, args, now)
            },
            Err(e) => {
                self.undo_spawn(id);
                Err(SpawnError::from(e))
            },
        }
    }
}

} // verus!
