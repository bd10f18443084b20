//! Stamping of outgoing messages.
//!
//! What a flow writes into the sender and reply fields of a message does not
//! count: the scheduler knows who sends and assigns both. Capabilities in
//! the payload are issued anew to the recipient.

use std::sync::Arc;

use vstd::prelude::*;

use crate::bytecode::cap::{cap_none, rights, CapId, CapRights, RIGHT_SEND};
use crate::bytecode::value::{body_of, Message, Value};
use crate::scheduler::capability::{
    delegated, reissued, reply_minted, resolved, target_flow, unused, CapError, CapState, CapTable,
};
use crate::scheduler::error::RuntimeError;
use crate::scheduler::process::FlowId;
use crate::vm::machine::Vm;
use crate::vm::state::{next_id, VmState};

verus! {

/// The value that holds a newly issued token.
pub open spec fn token_value(c: Result<CapId, CapError>) -> Result<Value, CapError> {
    match c {
        Ok(id) => Ok(Value::Cap(id)),
        Err(e) => Err(e),
    }
}

/// The message with another body.
pub open spec fn rewrapped(m: Message, body: Result<Value, CapError>) -> Result<Value, CapError> {
    match body {
        Ok(v) => Ok(Value::Message(Message { payload: Arc::new(v), ..m })),
        Err(e) => Err(e),
    }
}

/// `r` is the message with the body `inner`.
pub open spec fn wraps(m: Message, inner: Result<Value, CapError>, r: Result<Value, CapError>) -> bool {
    r == rewrapped(m, inner)
}

/// A list with one more value, or the first refusal.
pub open spec fn joined(
    head: Result<Seq<Value>, CapError>,
    last: Result<Value, CapError>,
) -> Result<Seq<Value>, CapError> {
    match (head, last) {
        (Ok(front), Ok(v)) => Ok(front.push(v)),
        (Err(e), _) => Err(e),
        (Ok(_), Err(e)) => Err(e),
    }
}

/// `r` is the list of `head` and `last`.
pub open spec fn joins(
    head: Result<Seq<Value>, CapError>,
    last: Result<Value, CapError>,
    r: Result<Seq<Value>, CapError>,
) -> bool {
    r == joined(head, last)
}

/// What handing `v` to flow `to` did: the capability in it, if there is one,
/// was issued anew. A flow can only pass on what it holds; the host (`from`
/// is none) anything that is live.
pub open spec fn passed(
    s: CapState,
    from: Option<FlowId>,
    to: FlowId,
    v: Value,
    t: CapState,
    r: Result<Value, CapError>,
) -> bool
    decreases v,
{
    match v {
        Value::Cap(id) => if id.raw == 0 {
            t == s && r == Ok::<Value, CapError>(v)
        } else {
            exists|token: Result<CapId, RuntimeError>, c: Result<CapId, CapError>|
                {
                    &&& #[trigger] reissued_as(s, from, id, to, token, t, c)
                    &&& r == token_value(c)
                }
        },
        Value::Message(m) => exists|inner: Result<Value, CapError>|
            {
                &&& #[trigger] wraps(m, inner, r)
                &&& passed(s, from, to, *m.payload, t, inner)
            },
        _ => t == s && r == Ok::<Value, CapError>(v),
    }
}

/// What issuing a capability anew did, with the token that was drawn.
pub open spec fn reissued_as(
    s: CapState,
    from: Option<FlowId>,
    id: CapId,
    to: FlowId,
    token: Result<CapId, RuntimeError>,
    t: CapState,
    c: Result<CapId, CapError>,
) -> bool {
    &&& token matches Ok(new) ==> unused(s, new)
    &&& match from {
        Some(f) => delegated(s, id, f, to, token, t, c),
        None => reissued(s, id, to, token, t, c),
    }
}

/// Issue a capability anew for flow `to` with a drawn token: by the flow that
/// holds it, or by the host.
pub fn reissue_cap_as(
    caps: &mut CapTable,
    from: Option<FlowId>,
    to: FlowId,
    id: CapId,
    token: Result<CapId, RuntimeError>,
) -> (r: Result<CapId, CapError>)
    ensures
        match from {
            Some(f) => delegated(old(caps)@, id, f, to, token, final(caps)@, r),
            None => reissued(old(caps)@, id, to, token, final(caps)@, r),
        },
{
    match from {
        Some(f) => caps.delegate_as(id, f, to, token),
        None => caps.reissue_as(id, to, token),
    }
}

/// Hand a value to flow `to`.
pub fn reissue_caps_in_value(
    caps: &mut CapTable,
    from: Option<FlowId>,
    to: FlowId,
    value: Value,
) -> (r: Result<Value, CapError>)
    ensures
        passed(old(caps)@, from, to, value, final(caps)@, r),
    decreases value,
{
    match value {
        Value::Cap(id) => {
            if id.is_none() {
                return Ok(Value::Cap(id));
            }
            let token = caps.draw();
            let c = reissue_cap_as(caps, from, to, id, token);
            assert(reissued_as(old(caps)@, from, id, to, token, caps@, c));
            match c {
                Ok(new) => Ok(Value::Cap(new)),
                Err(e) => Err(e),
            }
        },
        Value::Message(m) => {
            let inner = (*m.payload).clone();
            let r = reissue_caps_in_value(caps, from, to, inner);
            assert(passed(old(caps)@, from, to, body_of(m), caps@, r));
            let ghost whole = rewrapped(m, r);
            assert(wraps(m, r, whole));
            match r {
                Ok(v) => Ok(Value::Message(m.with_payload(v))),
                Err(e) => Err(e),
            }
        },
        other => Ok(other),
    }
}

/// What handing over a list of values did: each in turn, up to the first
/// refusal.
pub open spec fn all_passed(
    s: CapState,
    from: Option<FlowId>,
    to: FlowId,
    vs: Seq<Value>,
    t: CapState,
    r: Result<Seq<Value>, CapError>,
) -> bool
    decreases vs.len(),
{
    if vs.len() == 0 {
        t == s && r == Ok::<Seq<Value>, CapError>(Seq::empty())
    } else {
        exists|mid: CapState, head: Result<Seq<Value>, CapError>, last: Result<Value, CapError>|
            {
                &&& #[trigger] last_passed(mid, from, to, head, vs.last(), last, t)
                &&& #[trigger] joins(head, last, r)
                &&& all_passed(s, from, to, vs.drop_last(), mid, head)
            }
    }
}

/// The last value of a list was handed over, unless one before it was
/// refused.
pub open spec fn last_passed(
    mid: CapState,
    from: Option<FlowId>,
    to: FlowId,
    head: Result<Seq<Value>, CapError>,
    v: Value,
    last: Result<Value, CapError>,
    t: CapState,
) -> bool {
    match head {
        Err(_) => t == mid,
        Ok(_) => passed(mid, from, to, v, t, last),
    }
}

/// Model of a list of values or an error.
pub open spec fn values_view(r: Result<Vec<Value>, CapError>) -> Result<Seq<Value>, CapError> {
    match r {
        Ok(v) => Ok(v@),
        Err(e) => Err(e),
    }
}

/// Hand a list of values to flow `to`.
pub fn reissue_caps_in_values(
    caps: &mut CapTable,
    from: Option<FlowId>,
    to: FlowId,
    values: &[Value],
) -> (r: Result<Vec<Value>, CapError>)
    ensures
        all_passed(old(caps)@, from, to, values@, final(caps)@, values_view(r)),
{
    let mut out: Vec<Value> = Vec::new();
    let mut k: usize = 0;
    let mut failure: Option<CapError> = None;
    assert(values@.take(0) =~= Seq::<Value>::empty());
    while k < values.len()
        invariant
            k <= values@.len(),
            all_passed(
                old(caps)@,
                from,
                to,
                values@.take(k as int),
                caps@,
                match failure {
                    Some(e) => Err(e),
                    None => Ok(out@),
                },
            ),
        decreases values@.len() - k,
    {
        let ghost mid = caps@;
        let ghost head: Result<Seq<Value>, CapError> = match failure {
            Some(e) => Err(e),
            None => Ok(out@),
        };
        let ghost vs = values@.take(k + 1);
        assert(vs.drop_last() =~= values@.take(k as int));
        assert(all_passed(old(caps)@, from, to, vs.drop_last(), mid, head));
        if failure.is_none() {
            let v = values[k].clone();
            let r = reissue_caps_in_value(caps, from, to, v);
            assert(passed(mid, from, to, vs.last(), caps@, r));
            assert(last_passed(mid, from, to, head, vs.last(), r, caps@));
            let ghost whole = joined(head, r);
            assert(joins(head, r, whole));
            match r {
                Ok(x) => out.push(x),
                Err(e) => {
                    failure = Some(e);
                },
            }
        } else {
            let ghost last = Err::<Value, CapError>(CapError::Unknown);
            assert(last_passed(mid, from, to, head, vs.last(), last, caps@));
            assert(joins(head, last, head));
        }
        k += 1;
    }
    assert(values@.take(k as int) =~= values@);
    match failure {
        Some(e) => Err(e),
        None => Ok(out),
    }
}

/// The correlation id that a message goes out with.
pub open spec fn sent_id(m: Message, fresh: u64) -> u64 {
    if m.request_id == 0 {
        fresh
    } else {
        m.request_id
    }
}

/// What stamping a message of flow `sender` to flow `recipient` did.
pub open spec fn stamped(
    s: CapState,
    vm: VmState,
    sender: FlowId,
    recipient: FlowId,
    m: Message,
    t: CapState,
    r: Result<Message, CapError>,
) -> bool {
    exists|mid: CapState, body: Result<Value, CapError>|
        {
            &&& #[trigger] passed(s, Some(sender), recipient, *m.payload, mid, body)
            &&& match body {
                Err(e) => t == mid && r == Err::<Message, CapError>(e),
                Ok(v) => exists|token: Result<CapId, RuntimeError>|
                    {
                        &&& token matches Ok(id) ==> unused(mid, id)
                        &&& t == (#[trigger] reply_minted(
                            mid,
                            recipient,
                            sender,
                            rights(RIGHT_SEND),
                            token,
                        )).0
                        &&& match reply_minted(
                            mid,
                            recipient,
                            sender,
                            rights(RIGHT_SEND),
                            token,
                        ).1 {
                            Ok(cap) => r == Ok::<Message, CapError>(
                                Message {
                                    sender: sender.raw,
                                    reply_cap: cap,
                                    request_id: sent_id(m, vm.next_request_id),
                                    tag: m.tag,
                                    payload: Arc::new(v),
                                },
                            ),
                            Err(_) => r == Err::<Message, CapError>(CapError::Unavailable),
                        }
                    },
            }
        }
}

/// The machine after its message got a correlation id.
pub open spec fn id_given(vm: VmState, m: Message) -> VmState {
    if m.request_id == 0 {
        VmState { next_request_id: next_id(vm.next_request_id), ..vm }
    } else {
        vm
    }
}

/// The empty token stands for nothing.
pub open spec fn no_empty_token(s: CapState) -> bool {
    !s.entries.contains_key(0)
}

proof fn lemma_passed_keeps(
    s: CapState,
    from: Option<FlowId>,
    to: FlowId,
    v: Value,
    t: CapState,
    r: Result<Value, CapError>,
)
    requires
        passed(s, from, to, v, t, r),
        no_empty_token(s),
    ensures
        no_empty_token(t),
        t.cells == s.cells,
    decreases v,
{
    match v {
        Value::Message(m) => {
            let inner = choose|inner: Result<Value, CapError>|
                {
                    &&& #[trigger] wraps(m, inner, r)
                    &&& passed(s, from, to, *m.payload, t, inner)
                };
            lemma_passed_keeps(s, from, to, body_of(m), t, inner);
        },
        _ => {},
    }
}

/// A stamped message bears its true sender, and its reply capability lets
/// the recipient send to that sender. What the flow had written there does
/// not matter.
pub proof fn stamp_is_authentic(
    s: CapState,
    vm: VmState,
    sender: FlowId,
    recipient: FlowId,
    m: Message,
    t: CapState,
    r: Result<Message, CapError>,
)
    requires
        stamped(s, vm, sender, recipient, m, t, r),
        r is Ok,
        no_empty_token(s),
    ensures
        r->Ok_0.sender == sender.raw,
        resolved(t, r->Ok_0.reply_cap, recipient, rights(RIGHT_SEND)) matches Ok(e) && target_flow(
            e.cap.target,
        ) == Some(sender),
        r->Ok_0.tag == m.tag,
        no_empty_token(t),
{
    let (mid, body) = choose|mid: CapState, body: Result<Value, CapError>|
        {
            &&& #[trigger] passed(s, Some(sender), recipient, *m.payload, mid, body)
            &&& match body {
                Err(e) => t == mid && r == Err::<Message, CapError>(e),
                Ok(v) => exists|token: Result<CapId, RuntimeError>|
                    {
                        &&& token matches Ok(id) ==> unused(mid, id)
                        &&& t == (#[trigger] reply_minted(
                            mid,
                            recipient,
                            sender,
                            rights(RIGHT_SEND),
                            token,
                        )).0
                        &&& match reply_minted(
                            mid,
                            recipient,
                            sender,
                            rights(RIGHT_SEND),
                            token,
                        ).1 {
                            Ok(cap) => r == Ok::<Message, CapError>(
                                Message {
                                    sender: sender.raw,
                                    reply_cap: cap,
                                    request_id: sent_id(m, vm.next_request_id),
                                    tag: m.tag,
                                    payload: Arc::new(v),
                                },
                            ),
                            Err(_) => r == Err::<Message, CapError>(CapError::Unavailable),
                        }
                    },
            }
        };
    lemma_passed_keeps(s, Some(sender), recipient, body_of(m), mid, body);
    assert(RIGHT_SEND & RIGHT_SEND == RIGHT_SEND) by (bit_vector);
}

/// Stamp a message of flow `sender` to flow `recipient` around a body that was
/// handed over, with a drawn token.
pub fn stamp_as(
    caps: &mut CapTable,
    sender: FlowId,
    recipient: FlowId,
    message: Message,
    body: Value,
    token: Result<CapId, RuntimeError>,
) -> (r: Result<Message, CapError>)
    ensures
        ({
            let (t, reply) = reply_minted(
                old(caps)@,
                recipient,
                sender,
                rights(RIGHT_SEND),
                token,
            );
            &&& final(caps)@ == t
            &&& r == (match reply {
                Ok(cap) => Ok::<Message, CapError>(
                    Message {
                        sender: sender.raw,
                        reply_cap: cap,
                        request_id: message.request_id,
                        tag: message.tag,
                        payload: Arc::new(body),
                    },
                ),
                Err(_) => Err(CapError::Unavailable),
            })
        }),
{
    match caps.mint_or_reuse_as(recipient, sender, CapRights::send(), token) {
        Ok(id) => Ok(message.with_payload(body).authenticate(sender.as_u64(), id)),
        Err(_) => Err(CapError::Unavailable),
    }
}

/// Stamp a message of flow `sender` to flow `recipient`.
pub fn authenticate_outgoing_message(
    caps: &mut CapTable,
    sender: FlowId,
    recipient: FlowId,
    message: Message,
    vm: &mut Vm,
) -> (r: Result<Message, CapError>)
    ensures
        stamped(old(caps)@, old(vm)@, sender, recipient, message, final(caps)@, r),
        final(vm)@ == id_given(old(vm)@, message),
{
    let mut out = message.clone();
    if out.request_id == 0 {
        out.request_id = vm.fresh_request_id();
    }
    let body = reissue_caps_in_value(caps, Some(sender), recipient, (*out.payload).clone());
    let ghost mid = caps@;
    assert(passed(old(caps)@, Some(sender), recipient, *message.payload, mid, body));
    let payload = match body {
        Ok(v) => v,
        Err(e) => return Err(e),
    };
    let token = caps.draw();
    let r = stamp_as(caps, sender, recipient, out, payload, token);
    assert(caps@ == reply_minted(mid, recipient, sender, rights(RIGHT_SEND), token).0);
    r
}

/// What stamping a message of the host did. The host has no inbox, so there
/// is nothing to reply to.
pub open spec fn host_stamped(
    s: CapState,
    fresh: u64,
    recipient: FlowId,
    m: Message,
    t: CapState,
    r: Result<Message, CapError>,
) -> bool {
    exists|body: Result<Value, CapError>|
        {
            &&& #[trigger] passed(s, None, recipient, *m.payload, t, body)
            &&& r == (match body {
                Ok(v) => Ok::<Message, CapError>(
                    Message {
                        sender: 0,
                        reply_cap: cap_none(),
                        request_id: sent_id(
                            m,
                            if fresh == 0 {
                                1
                            } else {
                                fresh
                            },
                        ),
                        tag: m.tag,
                        payload: Arc::new(v),
                    },
                ),
                Err(e) => Err(e),
            })
        }
}

/// Stamp a message of the host to flow `recipient`.
pub fn authenticate_host_outgoing_message(
    caps: &mut CapTable,
    next_request_id: &mut u64,
    recipient: FlowId,
    message: Message,
) -> (r: Result<Message, CapError>)
    ensures
        host_stamped(
            old(caps)@,
            *old(next_request_id),
            recipient,
            message,
            final(caps)@,
            r,
        ),
        *final(next_request_id) == (if message.request_id == 0 {
            old(next_request_id).wrapping_add(1)
        } else {
            *old(next_request_id)
        }),
{
    let mut out = message.clone();
    if out.request_id == 0 {
        let rid: u64 = *next_request_id;
        *next_request_id = rid.wrapping_add(1);
        out.request_id = if rid == 0 {
            1
        } else {
            rid
        };
    }
    let body = reissue_caps_in_value(caps, None, recipient, (*out.payload).clone());
    assert(passed(old(caps)@, None, recipient, *message.payload, caps@, body));
    match body {
        Ok(v) => Ok(out.with_payload(v).authenticate(FlowId::host().as_u64(), CapId::none())),
        Err(e) => Err(e),
    }
}

} // verus!
