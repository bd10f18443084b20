//! How flows come to be: what a new flow starts with and who looks after it.

use vstd::prelude::*;

use crate::bytecode::cap::{
    rights, Cap, CapId, CapTarget, RIGHTS_ADDRESSING, RIGHTS_FLOW, RIGHT_NATIVE, RIGHT_SEND,
    RIGHT_SPAWN, RevocationCell,
};
use crate::bytecode::chunk::Chunk;
use crate::bytecode::value::{Message, Value};
use crate::scheduler::capability::{bound, cell_of, resolved, CapError, CapState};
use crate::scheduler::error::{RuntimeError, SpawnError};
use crate::scheduler::flow_limit::reserved;
use crate::scheduler::hops::{
    all_passed, joins, last_passed, passed, reissued_as, token_value, wraps,
};
use crate::scheduler::process::{id_drawn, FlowId, FlowState};
use crate::scheduler::runtime::{
    assembled, born_with, gate_of, installed, spawned, undone, Parent, SpawnRequest,
};
use crate::scheduler::shared::{ChildExit, SharedState};
use crate::scheduler::spawn::confined_child;
use crate::scheduler::supervisor::{
    a_child_comes_back_as_it_was, all_restarted, child_added, child_named, child_respawned,
    child_started, decided, exit_handled, recent_from, request_for, restarted_one, SpecState,
    SupState, Verdict,
};
use crate::scheduler::worker::fresh_token;
use crate::vm::native::NativeGate;

verus! {

/// In the hands of `holder` the token leads to `flow`, with the rights of
/// `mask`.
pub open spec fn leads(s: CapState, token: CapId, holder: FlowId, flow: FlowId, mask: u32) -> bool {
    &&& token.raw != 0
    &&& s.entries.contains_key(token.raw)
    &&& s.entries[token.raw].holder == holder
    &&& s.entries[token.raw].cap.target == CapTarget::Flow(flow.raw)
    &&& s.entries[token.raw].cap.rights.mask & mask == mask
    &&& s.cells.contains_key(flow.raw as u128)
    &&& s.cells[flow.raw as u128].count == s.entries[token.raw].cap.epoch
}

/// A token resolves exactly where it leads, for the flow that holds it and
/// the rights that it gives.
pub proof fn tokens_resolve_where_they_lead(
    s: CapState,
    token: CapId,
    holder: FlowId,
    flow: FlowId,
    mask: u32,
)
    ensures
        leads(s, token, holder, flow, mask) <==> (resolved(
            s,
            token,
            holder,
            rights(mask),
        ) matches Ok(e) && e.cap.target == CapTarget::Flow(flow.raw)),
        resolved(s, token, holder, rights(mask)) matches Ok(e) ==> e == s.entries[token.raw],
{
}

/// `w` is `v` as another flow holds it: the same, but for the tokens in it.
pub open spec fn same_but_tokens(v: Value, w: Value) -> bool
    decreases v,
{
    match v {
        Value::Cap(id) => if id.raw == 0 {
            w == v
        } else {
            w is Cap
        },
        Value::Message(m) => {
            &&& w is Message
            &&& w->Message_0.sender == m.sender
            &&& w->Message_0.reply_cap == m.reply_cap
            &&& w->Message_0.request_id == m.request_id
            &&& w->Message_0.tag == m.tag
            &&& same_but_tokens(*m.payload, *w->Message_0.payload)
        },
        _ => w == v,
    }
}

/// A value that is handed on arrives as it is, with tokens of the new holder.
pub proof fn values_arrive(
    s: CapState,
    from: Option<FlowId>,
    to: FlowId,
    v: Value,
    t: CapState,
    r: Result<Value, CapError>,
)
    requires
        passed(s, from, to, v, t, r),
    ensures
        r matches Ok(w) ==> same_but_tokens(v, w),
        !(v is Cap) && !(v is Message) ==> r == Ok::<Value, CapError>(v) && t == s,
    decreases v,
{
    if let Value::Message(m) = v {
        let inner = choose|inner: Result<Value, CapError>|
            {
                &&& #[trigger] wraps(m, inner, r)
                &&& passed(s, from, to, *m.payload, t, inner)
            };
        let ghost body = *m.payload;
        values_arrive(s, from, to, body, t, inner);
    }
}

/// A token that is handed on is the new holder's for the same flow, with the
/// same rights and the same life; the giver must have held it.
pub proof fn tokens_keep_their_target(
    s: CapState,
    from: Option<FlowId>,
    to: FlowId,
    id: CapId,
    t: CapState,
    r: Result<Value, CapError>,
)
    requires
        passed(s, from, to, Value::Cap(id), t, r),
        id.raw != 0,
    ensures
        r matches Ok(w) ==> {
            &&& w is Cap
            &&& s.entries.contains_key(id.raw)
            &&& from is Some ==> s.entries[id.raw].holder == from->Some_0
            &&& !s.entries.contains_key(w->Cap_0.raw)
            &&& w->Cap_0.raw != 0
            &&& t.entries == s.entries.insert(w->Cap_0.raw, t.entries[w->Cap_0.raw])
            &&& t.entries[w->Cap_0.raw].holder == to
            &&& t.entries[w->Cap_0.raw].cap.target == s.entries[id.raw].cap.target
            &&& t.entries[w->Cap_0.raw].cap.rights == s.entries[id.raw].cap.rights
            &&& t.entries[w->Cap_0.raw].cap.epoch == s.entries[id.raw].cap.epoch
            &&& t.cells == s.cells
        },
{
    let (token, c) = choose|token: Result<CapId, RuntimeError>, c: Result<CapId, CapError>|
        {
            &&& #[trigger] reissued_as(s, from, id, to, token, t, c)
            &&& r == token_value(c)
        };
    let m: u32 = s.entries[id.raw].cap.rights.mask;
    assert(m & m == m) by (bit_vector);
}

/// Every value of a list arrives, in its place.
pub proof fn lists_arrive(
    s: CapState,
    from: Option<FlowId>,
    to: FlowId,
    vs: Seq<Value>,
    t: CapState,
    r: Result<Seq<Value>, CapError>,
)
    requires
        all_passed(s, from, to, vs, t, r),
    ensures
        r matches Ok(ws) ==> ws.len() == vs.len() && forall|k: int|
            0 <= k < vs.len() ==> same_but_tokens(vs[k], #[trigger] ws[k]),
    decreases vs.len(),
{
    if vs.len() > 0 {
        let (mid, head, last) = choose|
            mid: CapState,
            head: Result<Seq<Value>, CapError>,
            last: Result<Value, CapError>,
        |
            {
                &&& #[trigger] last_passed(mid, from, to, head, vs.last(), last, t)
                &&& #[trigger] joins(head, last, r)
                &&& all_passed(s, from, to, vs.drop_last(), mid, head)
            };
        lists_arrive(s, from, to, vs.drop_last(), mid, head);
        if r is Ok {
            values_arrive(mid, from, to, vs.last(), t, last);
            let ws = r->Ok_0;
            assert forall|k: int| 0 <= k < vs.len() implies same_but_tokens(
                vs[k],
                #[trigger] ws[k],
            ) by {
                if k < vs.len() - 1 {
                    assert(ws[k] == head->Ok_0[k]);
                    assert(vs.drop_last()[k] == vs[k]);
                }
            }
        }
    }
}

/// The flow stands at the entry of `function` with `args`: the parameters
/// are the arguments in order, every other register is unit.
pub open spec fn starts_with(f: FlowState, chunk: Chunk, function: u32, args: Seq<Value>) -> bool {
    let def = chunk.functions@[function as int];
    &&& f.vm.chunk == chunk
    &&& f.vm.frames.len() == 1
    &&& f.vm.frames[0].function == function
    &&& f.vm.frames[0].pc == def.entry
    &&& f.vm.frames[0].dest_reg is None
    &&& f.vm.frames[0].registers.len() == def.num_registers
    &&& forall|k: int|
        0 <= k < def.num_registers ==> {
            let w = #[trigger] f.vm.frames[0].registers[k];
            if k < args.len() && k < def.arity {
                same_but_tokens(args[k], w)
            } else {
                w == Value::Unit
            }
        }
}

/// A spawn gives a new flow that runs the function with the arguments: it has
/// an empty inbox, is ready to run behind those that are, and the others are
/// left alone. A spawn that fails leaves every flow alone.
pub proof fn a_spawned_flow_runs_the_function(
    s: SharedState,
    req: SpawnRequest,
    parent: Option<Parent>,
    args: Seq<Value>,
    now: u64,
    t: SharedState,
    r: Result<FlowId, SpawnError>,
)
    requires
        spawned(s, req, parent, args, now, t, r),
    ensures
        r matches Ok(id) ==> {
            let f = t.flows[id.raw as u128];
            &&& t.flows.contains_key(id.raw as u128)
            &&& f.id == id
            &&& starts_with(f, *req.chunk, req.function, args)
            &&& f.vm.natives == req.natives@
            &&& f.vm.next_request_id == 1
            &&& f.restart_policy == req.restart_policy
            &&& f.supervisor == req.supervisor
            &&& f.pending_message is None
            &&& f.authority.target == CapTarget::Flow(id.raw)
            &&& parent is None ==> f.vm.gate.has_native && f.vm.gate.mask@ == Set::new(
                |i: int| 0 <= i < req.natives@.len(),
            )
            &&& parent matches Some(p) ==> {
                &&& p.authority.epoch == p.cell.count
                &&& p.authority.rights.mask & RIGHT_SPAWN == RIGHT_SPAWN
                &&& f.authority.rights.mask == p.authority.rights.mask & p.want.mask
                &&& f.authority.native_mask == p.authority.native_mask
                &&& f.vm.gate.has_native <==> f.authority.rights.mask & RIGHT_NATIVE
                    == RIGHT_NATIVE
                &&& f.authority.native_mask matches Some(m) ==> f.vm.gate.mask == m
                &&& f.authority.native_mask is None ==> f.vm.gate.mask@ == Set::<int>::empty()
            }
            &&& f.vm.gate.flow_cell.count == f.vm.gate.authority_epoch
            &&& f.vm.gate.native_cell.count == f.vm.gate.native_epoch
            &&& !s.boxes.contains_key(id.raw as u128)
            &&& t.boxes.contains_key(id.raw as u128)
            &&& t.boxes[id.raw as u128].queue.hops.len() == 0
            &&& t.boxes.remove(id.raw as u128) == s.boxes
            &&& t.flows == s.flows.insert(id.raw as u128, f)
            &&& t.ready == s.ready.push(id)
            &&& s.limit.max == 0 || s.limit.live < s.limit.max
            &&& s.limit.live < usize::MAX ==> t.limit.live == s.limit.live + 1
            &&& req.function < req.chunk.functions@.len()
        },
        r is Err && s.limit.live < usize::MAX ==> t.limit == s.limit,
        r is Err ==> t.flows == s.flows && t.boxes == s.boxes && t.ready == s.ready,
        t.names == s.names,
        t.monitors == s.monitors,
        t.links == s.links,
        t.kills == s.kills,
        t.traps == s.traps,
        t.timers == s.timers,
        t.pending == s.pending,
        t.done == s.done,
        t.locals == s.locals,
        t.config == s.config,
{
    if r is Ok {
        let id = id_drawn(s.ids).1->Ok_0;
        let cell = cell_of(s.caps, id);
        let a = SharedState {
            ids: id_drawn(s.ids).0,
            limit: reserved(s.limit),
            caps: bound(s.caps, id),
            ..s
        };
        let from = match parent {
            Some(p) => Some(p.id),
            None => None,
        };
        let authority = choose|authority: Cap|
            {
                &&& #[trigger] born_with(parent, id, cell, req.natives@.len(), authority)
                &&& installed(a, req, from, id, authority, cell, args, now, t, r)
            };
        assert(installed(a, req, from, id, authority, cell, args, now, t, r));
        lemma_installed(a, req, from, id, authority, cell, args, now, t, r);
        if parent is Some {
            let p = parent->Some_0;
            assert(confined_child(p.authority, id.raw, p.want, None, cell, authority));
        } else {
            assert(RIGHTS_FLOW & RIGHT_NATIVE == RIGHT_NATIVE) by (bit_vector);
        }
        assert(t.boxes.remove(id.raw as u128) =~= s.boxes);
    }
}

proof fn lemma_installed(
    s: SharedState,
    req: SpawnRequest,
    from: Option<FlowId>,
    id: FlowId,
    authority: Cap,
    cell: RevocationCell,
    args: Seq<Value>,
    now: u64,
    t: SharedState,
    r: Result<FlowId, SpawnError>,
)
    requires
        installed(s, req, from, id, authority, cell, args, now, t, r),
        r is Ok,
    ensures
        r == Ok::<FlowId, SpawnError>(id),
        ({
            let f = t.flows[id.raw as u128];
            &&& t.flows == s.flows.insert(id.raw as u128, f)
            &&& t.boxes == s.boxes.insert(id.raw as u128, t.boxes[id.raw as u128])
            &&& !s.boxes.contains_key(id.raw as u128)
            &&& t.boxes[id.raw as u128].queue.hops.len() == 0
            &&& f.id == id
            &&& starts_with(f, *req.chunk, req.function, args)
            &&& gate_of(authority, cell, s.caps.native_cell, f.vm.gate)
            &&& f.authority == authority
            &&& f.vm.natives == req.natives@
            &&& f.vm.next_request_id == 1
            &&& f.restart_policy == req.restart_policy
            &&& f.supervisor == req.supervisor
            &&& f.pending_message is None
            &&& t.ready == s.ready.push(id)
            &&& t.limit == s.limit
        }),
{
    let (caps, vals, gate) = choose|
        caps: CapState,
        vals: Result<Seq<Value>, CapError>,
        gate: NativeGate,
    |
        {
            &&& #[trigger] all_passed(s.caps, from, id, args, caps, vals)
            &&& #[trigger] gate_of(authority, cell, s.caps.native_cell, gate)
            &&& match vals {
                Err(_) => (t, r) == (
                    undone(SharedState { caps, ..s }, id),
                    Err::<FlowId, SpawnError>(SpawnError::InvalidCapability),
                ),
                Ok(vs) => (t, r) == assembled(
                    SharedState { caps, ..s },
                    req,
                    id,
                    authority,
                    cell,
                    gate,
                    vs,
                    now,
                ),
            }
        };
    lists_arrive(s.caps, from, id, args, caps, vals);
    let f = t.flows[id.raw as u128];
    assert(t.flows =~= s.flows.insert(id.raw as u128, f));
    assert(t.boxes =~= s.boxes.insert(id.raw as u128, t.boxes[id.raw as u128]));
}

/// A child that was started runs what it is said to run, and the supervisor
/// keeps what it was started as, last in its order. Its name, if it has one,
/// is registered for it.
pub proof fn a_started_child_is_looked_after(
    a: SupState,
    s: SharedState,
    spec: SpecState,
    now: u64,
    b: SupState,
    t: SharedState,
    r: Result<FlowId, SpawnError>,
)
    requires
        child_started(a, s, spec, now, b, t, r),
    ensures
        r matches Ok(id) ==> {
            let f = t.flows[id.raw as u128];
            &&& b.live.contains_key(id.raw as u128)
            &&& b.live[id.raw as u128].spec == spec
            &&& !b.live[id.raw as u128].expected
            &&& b.live == a.live.insert(id.raw as u128, b.live[id.raw as u128])
            &&& b.order == a.order.push(id)
            &&& t.flows.contains_key(id.raw as u128)
            &&& starts_with(f, a.chunk, spec.function, spec.args)
            &&& f.restart_policy == spec.restart
            &&& f.supervisor == Some(a.number)
            &&& t.ready == s.ready.push(id)
            &&& spec.name.len() > 0 ==> !s.names.contains_key(spec.name) && t.names
                == s.names.insert(spec.name, t.names[spec.name]) && t.names[spec.name].flow == id
                && leads(t.caps, t.names[spec.name].cap, id, id, RIGHT_SEND)
            &&& spec.name.len() == 0 ==> t.names == s.names
        },
        b.times == a.times,
        b.gave_up == a.gave_up,
        b.config == a.config,
        b.cascade == a.cascade,
        b.number == a.number,
        b.chunk == a.chunk,
{
    let (req, mid, answer) = choose|
        req: SpawnRequest,
        mid: SharedState,
        answer: Result<FlowId, SpawnError>,
    |
        {
            &&& request_for(a, spec, req)
            &&& #[trigger] spawned(s, req, None, spec.args, now, mid, answer)
            &&& match answer {
                Err(e) => (b, t, r) == (a, mid, Err::<FlowId, SpawnError>(e)),
                Ok(id) => if spec.name.len() == 0 {
                    (b, t, r) == (child_added(a, id, spec), mid, Ok::<FlowId, SpawnError>(id))
                } else {
                    exists|token: Result<CapId, RuntimeError>|
                        {
                            &&& #[trigger] fresh_token(mid.caps, token)
                            &&& child_named(
                                child_added(a, id, spec),
                                mid,
                                id,
                                spec.name,
                                token,
                                b,
                                t,
                                r,
                            )
                        }
                },
            }
        };
    a_spawned_flow_runs_the_function(s, req, None, spec.args, now, mid, answer);
    if answer is Ok && spec.name.len() > 0 {
        let id = answer->Ok_0;
        let token = choose|token: Result<CapId, RuntimeError>|
            {
                &&& #[trigger] fresh_token(mid.caps, token)
                &&& child_named(
                    child_added(a, id, spec),
                    mid,
                    id,
                    spec.name,
                    token,
                    b,
                    t,
                    r,
                )
            };
        assert(RIGHTS_ADDRESSING & RIGHT_SEND == RIGHT_SEND) by (bit_vector);
        if r is Ok {
            assert(t.names =~= s.names.insert(spec.name, t.names[spec.name]));
        }
    }
    if r is Ok {
        let id = r->Ok_0;
        assert(b.live =~= a.live.insert(id.raw as u128, b.live[id.raw as u128]));
    }
}

/// A child is brought back by starting it again: it runs the same function
/// with the same arguments under the same policy. One that cannot start is
/// counted and given up.
pub proof fn a_child_is_brought_back_by_starting_it(
    a: SupState,
    s: SharedState,
    spec: SpecState,
    now: u64,
    b: SupState,
    t: SharedState,
)
    requires
        child_respawned(a, s, spec, now, b, t),
    ensures
        b.respawn_failures == a.respawn_failures ==> exists|id: FlowId|
            {
                &&& #[trigger] b.live.contains_key(id.raw as u128)
                &&& b.order == a.order.push(id)
                &&& b.live[id.raw as u128].spec == spec
                &&& !b.live[id.raw as u128].expected
                &&& t.flows.contains_key(id.raw as u128)
                &&& starts_with(
                    t.flows[id.raw as u128],
                    a.chunk,
                    spec.function,
                    spec.args,
                )
                &&& t.flows[id.raw as u128].restart_policy == spec.restart
                &&& t.flows[id.raw as u128].supervisor == Some(a.number)
            },
        b.times == a.times,
        b.gave_up == a.gave_up,
{
    let (mid, r) = choose|mid: SupState, r: Result<FlowId, SpawnError>|
        {
            &&& #[trigger] child_started(a, s, spec, now, mid, t, r)
            &&& b == (match r {
                Ok(_) => mid,
                Err(_) => SupState {
                    respawn_failures: mid.respawn_failures.wrapping_add(1),
                    ..mid
                },
            })
        };
    a_started_child_is_looked_after(a, s, spec, now, mid, t, r);
    lemma_failures(a, s, spec, now, mid, t, r);
    if r is Ok {
        let id = r->Ok_0;
        assert(b.live.contains_key(id.raw as u128));
    }
}

proof fn lemma_failures(
    a: SupState,
    s: SharedState,
    spec: SpecState,
    now: u64,
    b: SupState,
    t: SharedState,
    r: Result<FlowId, SpawnError>,
)
    requires
        child_started(a, s, spec, now, b, t, r),
    ensures
        b.respawn_failures == a.respawn_failures,
{
    let (req, mid, answer) = choose|
        req: SpawnRequest,
        mid: SharedState,
        answer: Result<FlowId, SpawnError>,
    |
        {
            &&& request_for(a, spec, req)
            &&& #[trigger] spawned(s, req, None, spec.args, now, mid, answer)
            &&& match answer {
                Err(e) => (b, t, r) == (a, mid, Err::<FlowId, SpawnError>(e)),
                Ok(id) => if spec.name.len() == 0 {
                    (b, t, r) == (child_added(a, id, spec), mid, Ok::<FlowId, SpawnError>(id))
                } else {
                    exists|token: Result<CapId, RuntimeError>|
                        {
                            &&& #[trigger] fresh_token(mid.caps, token)
                            &&& child_named(
                                child_added(a, id, spec),
                                mid,
                                id,
                                spec.name,
                                token,
                                b,
                                t,
                                r,
                            )
                        }
                },
            }
        };
}

proof fn lemma_restarted_counts(
    a: SupState,
    s: SharedState,
    specs: Seq<SpecState>,
    now: u64,
    b: SupState,
    t: SharedState,
)
    requires
        all_restarted(a, s, specs, now, b, t),
        a.respawn_failures + specs.len() <= u64::MAX,
    ensures
        a.respawn_failures <= b.respawn_failures <= a.respawn_failures + specs.len(),
        b.gave_up == a.gave_up,
        b.chunk == a.chunk,
        b.number == a.number,
    decreases specs.len(),
{
    if specs.len() > 0 {
        let (mid, u) = choose|mid: SupState, u: SharedState|
            {
                &&& #[trigger] restarted_one(mid, u, specs.last(), now, b, t)
                &&& all_restarted(a, s, specs.drop_last(), now, mid, u)
            };
        lemma_restarted_counts(a, s, specs.drop_last(), now, mid, u);
        if !mid.gave_up {
            let (c, r) = choose|c: SupState, r: Result<FlowId, SpawnError>|
                {
                    &&& #[trigger] child_started(mid, u, specs.last(), now, c, t, r)
                    &&& b == (match r {
                        Ok(_) => c,
                        Err(_) => SupState {
                            respawn_failures: c.respawn_failures.wrapping_add(1),
                            ..c
                        },
                    })
                };
            a_started_child_is_looked_after(mid, u, specs.last(), now, c, t, r);
            lemma_failures(mid, u, specs.last(), now, c, t, r);
        }
    }
}

/// The supervisor looks after the flow as this, and the flow runs it.
pub open spec fn came_back(id: FlowId, spec: SpecState, b: SupState, t: SharedState) -> bool {
    &&& b.live.contains_key(id.raw as u128)
    &&& b.live[id.raw as u128].spec == spec
    &&& !b.live[id.raw as u128].expected
    &&& t.boxes.contains_key(id.raw as u128)
    &&& t.flows.contains_key(id.raw as u128)
    &&& starts_with(t.flows[id.raw as u128], b.chunk, spec.function, spec.args)
    &&& t.flows[id.raw as u128].restart_policy == spec.restart
}

/// Children that come back together come back in the order of the list, each
/// as what it was.
pub proof fn children_come_back_in_order(
    a: SupState,
    s: SharedState,
    specs: Seq<SpecState>,
    now: u64,
    b: SupState,
    t: SharedState,
)
    requires
        all_restarted(a, s, specs, now, b, t),
        b.respawn_failures == a.respawn_failures,
        a.respawn_failures + specs.len() <= u64::MAX,
        !a.gave_up,
    ensures
        b.order.len() == a.order.len() + specs.len(),
        b.order.take(a.order.len() as int) == a.order,
        forall|j: int|
            0 <= j < specs.len() ==> came_back(
                #[trigger] b.order[a.order.len() + j],
                specs[j],
                b,
                t,
            ),
    decreases specs.len(),
{
    if specs.len() == 0 {
        assert(b.order.take(a.order.len() as int) =~= a.order);
    } else {
        let (mid, u) = choose|mid: SupState, u: SharedState|
            {
                &&& #[trigger] restarted_one(mid, u, specs.last(), now, b, t)
                &&& all_restarted(a, s, specs.drop_last(), now, mid, u)
            };
        lemma_restarted_counts(a, s, specs.drop_last(), now, mid, u);
        let (c, r) = choose|c: SupState, r: Result<FlowId, SpawnError>|
            {
                &&& #[trigger] child_started(mid, u, specs.last(), now, c, t, r)
                &&& b == (match r {
                    Ok(_) => c,
                    Err(_) => SupState {
                        respawn_failures: c.respawn_failures.wrapping_add(1),
                        ..c
                    },
                })
            };
        a_started_child_is_looked_after(mid, u, specs.last(), now, c, t, r);
        lemma_failures(mid, u, specs.last(), now, c, t, r);
        children_come_back_in_order(a, s, specs.drop_last(), now, mid, u);
        assert(b.order.take(a.order.len() as int) =~= mid.order.take(a.order.len() as int));
        lemma_started_keeps(mid, u, specs.last(), now, c, t, r);
        assert forall|j: int| 0 <= j < specs.len() implies came_back(
            #[trigger] b.order[a.order.len() + j],
            specs[j],
            b,
            t,
        ) by {
            if j < specs.len() - 1 {
                assert(specs.drop_last()[j] == specs[j]);
                assert(came_back(mid.order[a.order.len() + j], specs[j], mid, u));
                assert(b.order[a.order.len() + j] == mid.order[a.order.len() + j]);
            }
        }
    }
}

proof fn lemma_started_keeps(
    a: SupState,
    s: SharedState,
    spec: SpecState,
    now: u64,
    b: SupState,
    t: SharedState,
    r: Result<FlowId, SpawnError>,
)
    requires
        child_started(a, s, spec, now, b, t, r),
        r is Ok,
    ensures
        !s.boxes.contains_key(r->Ok_0.raw as u128),
        t.boxes == s.boxes.insert(r->Ok_0.raw as u128, t.boxes[r->Ok_0.raw as u128]),
        t.flows == s.flows.insert(r->Ok_0.raw as u128, t.flows[r->Ok_0.raw as u128]),
{
    let (req, mid, answer) = choose|
        req: SpawnRequest,
        mid: SharedState,
        answer: Result<FlowId, SpawnError>,
    |
        {
            &&& request_for(a, spec, req)
            &&& #[trigger] spawned(s, req, None, spec.args, now, mid, answer)
            &&& match answer {
                Err(e) => (b, t, r) == (a, mid, Err::<FlowId, SpawnError>(e)),
                Ok(id) => if spec.name.len() == 0 {
                    (b, t, r) == (child_added(a, id, spec), mid, Ok::<FlowId, SpawnError>(id))
                } else {
                    exists|token: Result<CapId, RuntimeError>|
                        {
                            &&& #[trigger] fresh_token(mid.caps, token)
                            &&& child_named(
                                child_added(a, id, spec),
                                mid,
                                id,
                                spec.name,
                                token,
                                b,
                                t,
                                r,
                            )
                        }
                },
            }
        };
    a_spawned_flow_runs_the_function(s, req, None, spec.args, now, mid, answer);
    let k = r->Ok_0.raw as u128;
    assert(t.boxes =~= s.boxes.insert(k, t.boxes[k])) by {
        assert(mid.boxes.remove(k) == s.boxes);
        assert forall|x: u128| x != k implies (mid.boxes.contains_key(x) <==> #[trigger] s.boxes.contains_key(x)) && (
        s.boxes.contains_key(x) ==> mid.boxes[x] == s.boxes[x]) by {
            assert(mid.boxes.remove(k).contains_key(x) <==> s.boxes.contains_key(x));
            if s.boxes.contains_key(x) {
                assert(mid.boxes.remove(k)[x] == s.boxes[x]);
            }
        }
    }
    assert(t.flows =~= s.flows.insert(k, t.flows[k]));
}

/// A supervisor that restarts each child by itself and hears that one ended
/// has it run again as it was, where its policy asks for that and the period
/// has room; where its policy does not, nobody runs for it.
pub proof fn an_ended_child_runs_again(
    a: SupState,
    s: SharedState,
    exit: ChildExit,
    m: int,
    now: u64,
    b: SupState,
    t: SharedState,
)
    requires
        exit_handled(a, s, exit, now, b, t),
        a.live.contains_key(exit.id.raw as u128),
        !a.live[exit.id.raw as u128].expected,
        !a.gave_up,
        a.config.strategy is OneForOne,
        recent_from(a, now, m),
    ensures
        ({
            let was = a.live[exit.id.raw as u128].spec;
            let wanted = exit.restart is Always || (exit.restart is OnFailure
                && exit.outcome is Failed);
            let room = a.times.len() - m + 1 <= a.config.max_restarts;
            &&& wanted && room && b.respawn_failures == a.respawn_failures ==> exists|id: FlowId|
                {
                    &&& #[trigger] b.live.contains_key(id.raw as u128)
                    &&& b.live[id.raw as u128].spec == was
                    &&& !b.live[id.raw as u128].expected
                    &&& t.flows.contains_key(id.raw as u128)
                    &&& starts_with(
                        t.flows[id.raw as u128],
                        a.chunk,
                        was.function,
                        was.args,
                    )
                    &&& t.flows[id.raw as u128].restart_policy == was.restart
                    &&& t.flows[id.raw as u128].supervisor == Some(a.number)
                }
            &&& !wanted ==> t == s && b.gave_up == a.gave_up
            &&& wanted && !room ==> t == s && b.gave_up
        }),
{
    a_child_comes_back_as_it_was(a, exit.id, m, exit.outcome, exit.restart, now);
    let (c, v) = decided(a, exit.id, exit.outcome, exit.restart, now);
    if let Verdict::Respawn(spec) = v {
        assert(spec =~= a.live[exit.id.raw as u128].spec);
        a_child_is_brought_back_by_starting_it(c, s, spec, now, b, t);
        if b.respawn_failures == a.respawn_failures {
            let id = choose|id: FlowId|
                {
                    &&& #[trigger] b.live.contains_key(id.raw as u128)
                    &&& b.order == c.order.push(id)
                    &&& b.live[id.raw as u128].spec == spec
                    &&& !b.live[id.raw as u128].expected
                    &&& t.flows.contains_key(id.raw as u128)
                    &&& starts_with(
                        t.flows[id.raw as u128],
                        c.chunk,
                        spec.function,
                        spec.args,
                    )
                    &&& t.flows[id.raw as u128].restart_policy == spec.restart
                    &&& t.flows[id.raw as u128].supervisor == Some(c.number)
                };
            assert(b.live.contains_key(id.raw as u128));
        }
    }
}

} // verus!
