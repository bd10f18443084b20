//! Flows that wait for work of the host.
//!
//! A flow parks and the host gets a ticket. With the ticket the host resumes
//! the flow with a value, or fails it, once.

use vstd::prelude::*;

use crate::bytecode::value::Value;
use crate::idmap::{is_key_list, key_list_exists, sorted_keys, IdMap};
use crate::scheduler::error::{runtime_error_text, RuntimeError};
use crate::scheduler::process::FlowId;
use crate::text::{dec, owned, push_str, push_usize};

verus! {

/// What the host is asked to do.
#[derive(Debug)]
pub struct HostAwaitRequest {
    pub flow: FlowId,
    pub op: u32,
    pub args: Value,
    /// Names this wait when the host answers.
    pub ticket: u64,
}

/// Why an answer of the host was not taken.
#[derive(Debug, Clone, Copy, PartialEq, Eq)]
pub enum HostAwaitError {
    /// The ticket was used, or the flow is gone.
    Stale,
    Runtime(RuntimeError),
}

/// The message of a refused answer.
pub open spec fn host_await_error_text(e: HostAwaitError) -> Seq<char> {
    match e {
        HostAwaitError::Stale => "HostAwait completer is stale"@,
        HostAwaitError::Runtime(r) => runtime_error_text(r),
    }
}

impl HostAwaitError {
    /// The message of this error.
    pub fn text(&self) -> (r: String)
        ensures
            r@ == host_await_error_text(*self),
    {
        match self {
            HostAwaitError::Stale => owned("HostAwait completer is stale"),
            HostAwaitError::Runtime(e) => e.text(),
        }
    }
}

/// Why a flow may not wait for the host.
#[derive(Debug, Clone, Copy, PartialEq, Eq, Structural)]
pub enum HostAwaitParkError {
    Duplicate,
    LimitReached { current: usize, max: usize },
}

/// The message of a refused wait.
pub open spec fn park_error_text(e: HostAwaitParkError) -> Seq<char> {
    match e {
        HostAwaitParkError::Duplicate => "duplicate in-flight HostAwait for this flow"@,
        HostAwaitParkError::LimitReached { current, max } => "HostAwait limit reached ("@ + dec(
            current as nat,
        ) + "/"@ + dec(max as nat) + ")"@,
    }
}

impl HostAwaitParkError {
    /// The message of this error.
    pub fn text(&self) -> (r: String)
        ensures
            r@ == park_error_text(*self),
    {
        match self {
            HostAwaitParkError::Duplicate => owned("duplicate in-flight HostAwait for this flow"),
            HostAwaitParkError::LimitReached { current, max } => {
                let mut s = owned("HostAwait limit reached (");
                push_usize(&mut s, *current);
                push_str(&mut s, "/");
                push_usize(&mut s, *max);
                push_str(&mut s, ")");
                s
            },
        }
    }
}

/// The wait of one flow.
#[derive(Debug, Clone, Copy, PartialEq, Eq, Structural)]
pub struct ParkedHostAwait {
    pub ticket: u64,
    pub dest_reg: u8,
}

/// Waits by flow, the next ticket, and the bound; zero is no bound.
#[verifier::ext_equal]
pub ghost struct AwaitState {
    pub waits: Map<u128, ParkedHostAwait>,
    pub next: u64,
    pub max: usize,
}

/// The table after a flow asked to wait, and the answer.
pub open spec fn await_parked(s: AwaitState, flow: FlowId, dest_reg: u8) -> (
    AwaitState,
    Result<u64, HostAwaitParkError>,
) {
    if s.waits.contains_key(flow.raw as u128) {
        (s, Err(HostAwaitParkError::Duplicate))
    } else if s.max != 0 && s.waits.len() >= s.max {
        (
            s,
            Err(HostAwaitParkError::LimitReached { current: s.waits.len() as usize, max: s.max }),
        )
    } else {
        (
            AwaitState {
                waits: s.waits.insert(
                    flow.raw as u128,
                    ParkedHostAwait { ticket: s.next, dest_reg },
                ),
                next: s.next.wrapping_add(1),
                ..s
            },
            Ok(s.next),
        )
    }
}

/// The first of `keys` whose wait has this ticket.
pub open spec fn ticket_key(
    waits: Map<u128, ParkedHostAwait>,
    keys: Seq<u128>,
    ticket: u64,
    from: nat,
) -> Option<u128>
    decreases keys.len() - from,
{
    if from >= keys.len() {
        None
    } else if waits[keys[from as int]].ticket == ticket {
        Some(keys[from as int])
    } else {
        ticket_key(waits, keys, ticket, from + 1)
    }
}

/// The table after the wait of a ticket was taken out, and that wait.
pub open spec fn ticket_taken(s: AwaitState, ticket: u64) -> (AwaitState, Option<(FlowId, u8)>) {
    match ticket_key(s.waits, sorted_keys(s.waits), ticket, 0) {
        Some(k) => (
            AwaitState { waits: s.waits.remove(k), ..s },
            Some((FlowId { raw: k as u64 }, s.waits[k].dest_reg)),
        ),
        None => (s, None),
    }
}

/// The table without the wait of `flow`.
pub open spec fn await_removed(s: AwaitState, flow: FlowId) -> AwaitState {
    AwaitState { waits: s.waits.remove(flow.raw as u128), ..s }
}

proof fn lemma_ticket_key(waits: Map<u128, ParkedHostAwait>, keys: Seq<u128>, ticket: u64, from: nat)
    ensures
        match ticket_key(waits, keys, ticket, from) {
            Some(k) => keys.contains(k) && waits[k].ticket == ticket,
            None => forall|i: int|
                from <= i < keys.len() ==> waits[#[trigger] keys[i]].ticket != ticket,
        },
    decreases keys.len() - from,
{
    if from < keys.len() && waits[keys[from as int]].ticket != ticket {
        lemma_ticket_key(waits, keys, ticket, from + 1);
    }
}

/// Different waits have different tickets, below the next one.
pub open spec fn tickets_sound(s: AwaitState) -> bool {
    &&& forall|k: u128| #[trigger] s.waits.contains_key(k) ==> s.waits[k].ticket < s.next && k
        <= u64::MAX
    &&& forall|j: u128, k: u128|
        #[trigger] s.waits.contains_key(j) && #[trigger] s.waits.contains_key(k)
            && s.waits[j].ticket == s.waits[k].ticket ==> j == k
}

/// A ticket leads to the flow that got it, and to nobody once it was used.
pub proof fn tickets_are_one_shot(s: AwaitState, flow: FlowId, dest_reg: u8)
    requires
        tickets_sound(s),
        s.next < u64::MAX,
        await_parked(s, flow, dest_reg).1 is Ok,
        s.waits.dom().finite(),
    ensures
        ({
            let (t, r) = await_parked(s, flow, dest_reg);
            &&& tickets_sound(t)
            &&& ticket_taken(t, r->Ok_0) == (await_removed(t, flow), Some((flow, dest_reg)))
            &&& ticket_taken(await_removed(t, flow), r->Ok_0).1 is None
        }),
{
    let (t, r) = await_parked(s, flow, dest_reg);
    let ticket = r->Ok_0;
    let key = flow.raw as u128;
    let keys = sorted_keys(t.waits);
    key_list_exists(t.waits);
    key_list_exists(await_removed(t, flow).waits);
    lemma_ticket_key(t.waits, keys, ticket, 0);
    assert(t.waits.contains_key(key));
    assert(keys.contains(key));
    let i = choose|i: int| 0 <= i < keys.len() && keys[i] == key;
    assert(t.waits[keys[i]].ticket == ticket);
    let u = await_removed(t, flow);
    lemma_ticket_key(u.waits, sorted_keys(u.waits), ticket, 0);
}

/// Flows that wait for the host.
pub struct HostAwaitIndex {
    pub waits: IdMap<ParkedHostAwait>,
    pub next_ticket: u64,
    pub max: usize,
}

impl View for HostAwaitIndex {
    type V = AwaitState;

    open spec fn view(&self) -> AwaitState {
        AwaitState { waits: self.waits@, next: self.next_ticket, max: self.max }
    }
}

impl HostAwaitIndex {
    /// `max_host_awaits` of zero is no bound.
    pub fn new(max_host_awaits: u32) -> (r: Self)
        ensures
            r@ == (AwaitState { waits: Map::empty(), next: 1, max: max_host_awaits as usize }),
    {
        HostAwaitIndex { waits: IdMap::new(), next_ticket: 1, max: max_host_awaits as usize }
    }

    /// Record that `flow` waits; its ticket is returned.
    pub fn park(&mut self, flow: FlowId, dest_reg: u8) -> (r: Result<u64, HostAwaitParkError>)
        ensures
            (final(self)@, r) == await_parked(old(self)@, flow, dest_reg),
    {
        if self.waits.contains(flow.raw as u128) {
            return Err(HostAwaitParkError::Duplicate);
        }
        let current: usize = self.waits.len();
        if self.max != 0 && current >= self.max {
            return Err(HostAwaitParkError::LimitReached { current, max: self.max });
        }
        let ticket: u64 = self.next_ticket;
        self.next_ticket = self.next_ticket.wrapping_add(1);
        let _ = self.waits.insert(flow.raw as u128, ParkedHostAwait { ticket, dest_reg });
        Ok(ticket)
    }

    /// Take the wait of a ticket out.
    pub fn take_ticket(&mut self, ticket: u64) -> (r: Option<(FlowId, u8)>)
        ensures
            (final(self)@, r) == ticket_taken(old(self)@, ticket),
    {
        let keys = self.waits.keys();
        let mut i: usize = 0;
        while i < keys.len()
            invariant
                *self == *old(self),
                i <= keys@.len(),
                keys@ == sorted_keys(self@.waits),
                is_key_list(self@.waits, keys@),
                ticket_key(self@.waits, keys@, ticket, 0) == ticket_key(
                    self@.waits,
                    keys@,
                    ticket,
                    i as nat,
                ),
            decreases keys@.len() - i,
        {
            let key: u128 = keys[i];
            assert(keys@.contains(keys@[i as int]));
            assert(self@.waits.contains_key(key));
            if let Some(w) = self.waits.get(key) {
                if w.ticket == ticket {
                    let dest_reg: u8 = w.dest_reg;
                    let _ = self.waits.remove(key);
                    return Some((FlowId { raw: key as u64 }, dest_reg));
                }
            }
            i += 1;
        }
        None
    }

    /// Take the wait of a flow out; false when it does not wait.
    pub fn take_flow(&mut self, id: FlowId) -> (r: bool)
        ensures
            r == old(self)@.waits.contains_key(id.raw as u128),
            final(self)@ == await_removed(old(self)@, id),
    {
        self.waits.remove(id.raw as u128).is_some()
    }

    /// Forget the wait of a flow.
    pub fn forget_flow(&mut self, id: FlowId)
        ensures
            final(self)@ == await_removed(old(self)@, id),
    {
        let _ = self.waits.remove(id.raw as u128);
    }

    /// Take every wait out; later answers of the host are stale.
    pub fn drain_all(&mut self) -> (r: Vec<u128>)
        ensures
            r@ == sorted_keys(old(self)@.waits),
            is_key_list(old(self)@.waits, r@),
            final(self)@ == (AwaitState { waits: Map::empty(), ..old(self)@ }),
    {
        let keys = self.waits.keys();
        self.waits.clear();
        keys
    }
}

} // verus!
