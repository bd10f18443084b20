//! Capability table: which token allows which flow what.
//!
//! A token is an opaque number. What it allows stands in the table: the flow
//! that may use it and a capability. Grants are derived by attenuation only;
//! fresh roots are minted by the runtime alone.

use vstd::prelude::*;

use crate::bytecode::cap::{
    attenuates, cap_none, cap_valid, mask_set, rights, rights_contain, rights_subset, Cap, CapId,
    CapIdError, CapRights, CapTarget, NativeMask, RevocationCell,
};
use crate::idmap::{is_key_list, IdMap};
use crate::scheduler::delegate::{delegate_refusal, exec_delegate, mask_value, DelegateError};
use crate::scheduler::error::RuntimeError;
use crate::scheduler::link::lemma_push_contains;
use crate::scheduler::process::FlowId;
use crate::text::owned;

verus! {

/// Tries to find an unused token.
pub const MINT_ATTEMPTS: u32 = 32;

/// One live capability.
#[derive(Debug)]
pub struct Capability {
    /// The flow that may use the token.
    pub holder: FlowId,
    pub cap: Cap,
}

impl Clone for Capability {
    fn clone(&self) -> (r: Self)
        ensures
            r == *self,
    {
        Capability { holder: self.holder, cap: self.cap.clone() }
    }
}

/// The flow that a target stands for.
pub open spec fn target_flow(t: CapTarget) -> Option<FlowId> {
    match t {
        CapTarget::Flow(id) => Some(FlowId { raw: id }),
        _ => None,
    }
}

impl Capability {
    /// The flow that this capability addresses.
    pub fn target(&self) -> (r: Option<FlowId>)
        ensures
            r == target_flow(self.cap.target),
    {
        match self.cap.target.flow_id() {
            Some(id) => Some(FlowId { raw: id }),
            None => None,
        }
    }

    pub fn rights(&self) -> (r: CapRights)
        ensures
            r == self.cap.rights,
    {
        self.cap.rights
    }
}

/// Why a token is refused.
#[derive(Debug, Clone, Copy, PartialEq, Eq, Structural)]
pub enum CapError {
    Unknown,
    NotHolder,
    InsufficientRights,
    WrongTarget,
    Unavailable,
}

/// The message of a capability error.
pub open spec fn cap_error_text(e: CapError) -> Seq<char> {
    match e {
        CapError::Unknown => "unknown or revoked capability"@,
        CapError::NotHolder => "calling flow does not hold this capability"@,
        CapError::InsufficientRights => "capability lacks required rights"@,
        CapError::WrongTarget => "capability target is not a flow"@,
        CapError::Unavailable => "capability table unavailable (poisoned lock)"@,
    }
}

impl CapError {
    /// The message of this error.
    pub fn text(&self) -> (r: String)
        ensures
            r@ == cap_error_text(*self),
    {
        match self {
            CapError::Unknown => owned("unknown or revoked capability"),
            CapError::NotHolder => owned("calling flow does not hold this capability"),
            CapError::InsufficientRights => owned("capability lacks required rights"),
            CapError::WrongTarget => owned("capability target is not a flow"),
            CapError::Unavailable => owned("capability table unavailable (poisoned lock)"),
        }
    }
}

impl From<RuntimeError> for CapError {
    fn from(e: RuntimeError) -> (r: Self) {
        CapError::Unavailable
    }
}

impl vstd::std_specs::convert::FromSpecImpl<RuntimeError> for CapError {
    open spec fn obeys_from_spec() -> bool {
        true
    }

    open spec fn from_spec(e: RuntimeError) -> Self {
        CapError::Unavailable
    }
}

/// What the table holds. Entries are keyed by token, cells by flow, and
/// reply addresses by holder and target.
#[verifier::ext_equal]
pub ghost struct CapState {
    pub entries: Map<u128, Capability>,
    pub cells: Map<u128, RevocationCell>,
    pub replies: Map<u128, CapId>,
    pub native_cell: RevocationCell,
    pub scheduler_cell: RevocationCell,
}

/// Key of a reply address.
pub open spec fn pair_key(holder: FlowId, target: FlowId) -> u128 {
    (holder.raw as int * 0x1_0000_0000_0000_0000 + target.raw as int) as u128
}

/// Different pairs have different keys.
pub proof fn pair_keys_differ(h1: FlowId, t1: FlowId, h2: FlowId, t2: FlowId)
    requires
        pair_key(h1, t1) == pair_key(h2, t2),
    ensures
        h1 == h2,
        t1 == t2,
{
    let a = h1.raw as int * 0x1_0000_0000_0000_0000 + t1.raw as int;
    let b = h2.raw as int * 0x1_0000_0000_0000_0000 + t2.raw as int;
    assert(0 <= a <= u128::MAX && 0 <= b <= u128::MAX);
}

/// The cell of a flow: the one in the table, or a new one.
pub open spec fn cell_of(s: CapState, flow: FlowId) -> RevocationCell {
    if s.cells.contains_key(flow.raw as u128) {
        s.cells[flow.raw as u128]
    } else {
        RevocationCell { count: 0 }
    }
}

/// The table with a cell for `flow`.
pub open spec fn bound(s: CapState, flow: FlowId) -> CapState {
    CapState { cells: s.cells.insert(flow.raw as u128, cell_of(s, flow)), ..s }
}

/// The capability is live: its issuer's cell has its epoch.
pub open spec fn live(s: CapState, cap: Cap) -> bool {
    match cap.target {
        CapTarget::Flow(id) => s.cells.contains_key(id as u128) && cap_valid(
            cap,
            s.cells[id as u128],
        ),
        CapTarget::NativeTable => cap_valid(cap, s.native_cell),
        CapTarget::Scheduler => cap_valid(cap, s.scheduler_cell),
    }
}

/// The table with one more entry.
pub open spec fn granted(s: CapState, id: CapId, holder: FlowId, cap: Cap) -> CapState {
    CapState { entries: s.entries.insert(id.raw, Capability { holder, cap }), ..s }
}

/// A fresh root capability of `target`.
pub open spec fn root_cap(s: CapState, target: FlowId, want: CapRights) -> Cap {
    Cap {
        target: CapTarget::Flow(target.raw),
        rights: want,
        native_mask: None,
        epoch: cell_of(s, target).count,
    }
}

/// A token that can be handed out: not the empty one, and not in use.
pub open spec fn unused(s: CapState, id: CapId) -> bool {
    id.raw != 0 && !s.entries.contains_key(id.raw)
}

/// What a draw decides, if it does.
pub open spec fn judged(s: CapState, draw: Result<CapId, CapIdError>) -> Option<
    Result<CapId, RuntimeError>,
> {
    match draw {
        Ok(id) => if unused(s, id) {
            Some(Ok(id))
        } else {
            None
        },
        Err(_) => Some(Err(RuntimeError::EntropyFailed)),
    }
}

/// The token that the draws from `k` on give, of which [`MINT_ATTEMPTS`]
/// count: what the first of them decides that decides anything.
pub open spec fn drawn_token(s: CapState, draws: Seq<Result<CapId, CapIdError>>, k: nat) -> Result<
    CapId,
    RuntimeError,
>
    decreases MINT_ATTEMPTS - k,
{
    if k >= MINT_ATTEMPTS || k >= draws.len() {
        Err(RuntimeError::CapIdCollision)
    } else {
        match judged(s, draws[k as int]) {
            Some(r) => r,
            None => drawn_token(s, draws, k + 1),
        }
    }
}

/// Draws that decide nothing change nothing.
proof fn lemma_undecided(s: CapState, draws: Seq<Result<CapId, CapIdError>>, k: nat)
    requires
        k <= MINT_ATTEMPTS,
        k <= draws.len(),
        forall|i: int| 0 <= i < k ==> judged(s, #[trigger] draws[i]) is None,
    ensures
        drawn_token(s, draws, 0) == drawn_token(s, draws, k),
    decreases k,
{
    if k > 0 {
        lemma_undecided(s, draws, (k - 1) as nat);
        assert(judged(s, draws[k - 1]) is None);
    }
}

/// The table after a capability was granted with the drawn token, and the
/// answer.
pub open spec fn grant_made(
    s: CapState,
    holder: FlowId,
    cap: Cap,
    token: Result<CapId, RuntimeError>,
) -> (CapState, Result<CapId, RuntimeError>) {
    match token {
        Ok(id) => (granted(s, id, holder, cap), Ok(id)),
        Err(e) => (s, Err(e)),
    }
}

/// The table after a root of `target` was minted for `holder` with the drawn
/// token, and the answer.
pub open spec fn minted(
    s: CapState,
    holder: FlowId,
    target: FlowId,
    want: CapRights,
    token: Result<CapId, RuntimeError>,
) -> (CapState, Result<CapId, RuntimeError>) {
    let b = bound(s, target);
    match token {
        Ok(id) => (granted(b, id, holder, root_cap(s, target, want)), Ok(id)),
        Err(e) => (b, Err(e)),
    }
}

/// The reply address `id` still leads from `holder` to `target`.
pub open spec fn reply_live(
    s: CapState,
    id: CapId,
    holder: FlowId,
    target: FlowId,
    want: CapRights,
) -> bool {
    &&& s.entries.contains_key(id.raw)
    &&& s.entries[id.raw].holder == holder
    &&& s.entries[id.raw].cap.target == CapTarget::Flow(target.raw)
    &&& rights_contain(s.entries[id.raw].cap.rights, want)
    &&& s.cells.contains_key(target.raw as u128)
    &&& cap_valid(s.entries[id.raw].cap, s.cells[target.raw as u128])
}

/// The live reply address from `holder` to `target`, if there is one.
pub open spec fn reply_address(
    s: CapState,
    holder: FlowId,
    target: FlowId,
    want: CapRights,
) -> Option<CapId> {
    let k = pair_key(holder, target);
    if s.replies.contains_key(k) && reply_live(s, s.replies[k], holder, target, want) {
        Some(s.replies[k])
    } else {
        None
    }
}

/// The table after a reply address was asked for, and the answer. A live
/// one is used again; a stale one is forgotten.
pub open spec fn reply_minted(
    s: CapState,
    holder: FlowId,
    target: FlowId,
    want: CapRights,
    token: Result<CapId, RuntimeError>,
) -> (CapState, Result<CapId, RuntimeError>) {
    match reply_address(s, holder, target, want) {
        Some(id) => (s, Ok(id)),
        None => {
            let k = pair_key(holder, target);
            let (t, r) = minted(
                CapState { replies: s.replies.remove(k), ..s },
                holder,
                target,
                want,
                token,
            );
            match r {
                Ok(id) => (CapState { replies: t.replies.insert(k, id), ..t }, Ok(id)),
                Err(e) => (t, Err(e)),
            }
        },
    }
}

/// The entry that `holder` may use as token `id` for `need`, or why not.
pub open spec fn resolved(s: CapState, id: CapId, holder: FlowId, need: CapRights) -> Result<
    Capability,
    CapError,
> {
    if id.raw == 0 || !s.entries.contains_key(id.raw) {
        Err(CapError::Unknown)
    } else {
        let e = s.entries[id.raw];
        if e.holder != holder {
            Err(CapError::NotHolder)
        } else if !rights_contain(e.cap.rights, need) {
            Err(CapError::InsufficientRights)
        } else if !live(s, e.cap) {
            Err(CapError::Unknown)
        } else {
            Ok(e)
        }
    }
}

/// Why an attenuation is refused before a token is drawn, if it is.
pub open spec fn attenuate_refusal(
    s: CapState,
    id: CapId,
    from_holder: FlowId,
    want_native: Option<NativeMask>,
) -> Option<CapError> {
    match resolved(s, id, from_holder, rights(0)) {
        Err(e) => Some(e),
        Ok(src) => match src.cap.target {
            CapTarget::Flow(fid) => match delegate_refusal(
                src.cap,
                s.cells[fid as u128],
                want_native,
            ) {
                Some(DelegateError::SourceRevoked) => Some(CapError::Unknown),
                Some(DelegateError::SourceLacksNative) => Some(CapError::InsufficientRights),
                None => None,
            },
            _ => Some(CapError::WrongTarget),
        },
    }
}

/// What an attenuation did: it was refused and nothing changed, or the new
/// token stands for the attenuated capability.
pub open spec fn attenuated(
    s: CapState,
    id: CapId,
    from_holder: FlowId,
    to_holder: FlowId,
    want_rights: CapRights,
    want_native: Option<NativeMask>,
    token: Result<CapId, RuntimeError>,
    t: CapState,
    r: Result<CapId, CapError>,
) -> bool {
    match attenuate_refusal(s, id, from_holder, want_native) {
        Some(e) => t == s && r == Err::<CapId, CapError>(e),
        None => match token {
            Err(_) => t == s && r == Err::<CapId, CapError>(CapError::Unavailable),
            Ok(new) => {
                &&& r == Ok::<CapId, CapError>(new)
                &&& t.entries.contains_key(new.raw)
                &&& attenuates(
                    s.entries[id.raw].cap,
                    want_rights,
                    want_native,
                    t.entries[new.raw].cap,
                )
                &&& t == granted(s, new, to_holder, t.entries[new.raw].cap)
            },
        },
    }
}

/// What a delegation did: an attenuation to the same rights and mask.
pub open spec fn delegated(
    s: CapState,
    id: CapId,
    from_holder: FlowId,
    to_holder: FlowId,
    token: Result<CapId, RuntimeError>,
    t: CapState,
    r: Result<CapId, CapError>,
) -> bool {
    match resolved(s, id, from_holder, rights(0)) {
        Err(e) => t == s && r == Err::<CapId, CapError>(e),
        Ok(src) => attenuated(
            s,
            id,
            from_holder,
            to_holder,
            src.cap.rights,
            src.cap.native_mask,
            token,
            t,
            r,
        ),
    }
}

/// What a re-issue by the host did: the holder does not matter, liveness
/// does.
pub open spec fn reissued(
    s: CapState,
    id: CapId,
    new_holder: FlowId,
    token: Result<CapId, RuntimeError>,
    t: CapState,
    r: Result<CapId, CapError>,
) -> bool {
    if id.raw == 0 || !s.entries.contains_key(id.raw) || !live(s, s.entries[id.raw].cap) {
        t == s && r == Err::<CapId, CapError>(CapError::Unknown)
    } else {
        match token {
            Err(_) => t == s && r == Err::<CapId, CapError>(CapError::Unavailable),
            Ok(new) => {
                let cap = s.entries[id.raw].cap;
                &&& r == Ok::<CapId, CapError>(new)
                &&& t.entries.contains_key(new.raw)
                &&& attenuates(cap, cap.rights, cap.native_mask, t.entries[new.raw].cap)
                &&& t == granted(s, new, new_holder, t.entries[new.raw].cap)
            },
        }
    }
}

/// An entry that outlives `flow`.
pub open spec fn outlives(e: Capability, flow: FlowId) -> bool {
    e.holder != flow && e.cap.target != CapTarget::Flow(flow.raw)
}

/// The key of a reply address names `flow`.
pub open spec fn key_names(k: u128, flow: FlowId) -> bool {
    k as int / 0x1_0000_0000_0000_0000 == flow.raw || k as int % 0x1_0000_0000_0000_0000
        == flow.raw
}

/// The table without everything that `flow` holds or is the target of.
pub open spec fn flow_revoked(s: CapState, flow: FlowId) -> CapState {
    CapState {
        entries: Map::new(
            |k: u128| s.entries.contains_key(k) && outlives(s.entries[k], flow),
            |k: u128| s.entries[k],
        ),
        cells: s.cells.remove(flow.raw as u128),
        replies: Map::new(
            |k: u128| s.replies.contains_key(k) && !key_names(k, flow),
            |k: u128| s.replies[k],
        ),
        ..s
    }
}

/// A token never gives its new holder more than the token it was derived
/// from gave.
pub proof fn derived_tokens_never_escalate(
    s: CapState,
    id: CapId,
    from_holder: FlowId,
    to_holder: FlowId,
    want_rights: CapRights,
    want_native: Option<NativeMask>,
    token: Result<CapId, RuntimeError>,
    t: CapState,
    r: Result<CapId, CapError>,
)
    requires
        attenuated(s, id, from_holder, to_holder, want_rights, want_native, token, t, r),
        r is Ok,
    ensures
        s.entries.contains_key(id.raw),
        s.entries[id.raw].holder == from_holder,
        live(s, s.entries[id.raw].cap),
        rights_subset(t.entries[r->Ok_0.raw].cap.rights, s.entries[id.raw].cap.rights),
        mask_set(t.entries[r->Ok_0.raw].cap.native_mask).subset_of(
            mask_set(s.entries[id.raw].cap.native_mask),
        ),
        t.entries[r->Ok_0.raw].cap.target == s.entries[id.raw].cap.target,
        t.entries[r->Ok_0.raw].holder == to_holder,
{
    crate::bytecode::cap::attenuation_never_escalates(
        s.entries[id.raw].cap,
        want_rights,
        want_native,
        t.entries[r->Ok_0.raw].cap,
    );
}

/// Once a flow is revoked, no token that it held or that targeted it can be
/// used by anyone, and every other token works as before.
pub proof fn revocation_is_complete(
    s: CapState,
    flow: FlowId,
    id: CapId,
    holder: FlowId,
    need: CapRights,
)
    requires
        s.entries.contains_key(id.raw),
        id.raw != 0,
    ensures
        !outlives(s.entries[id.raw], flow) ==> resolved(flow_revoked(s, flow), id, holder, need)
            == Err::<Capability, CapError>(CapError::Unknown),
        outlives(s.entries[id.raw], flow) ==> resolved(flow_revoked(s, flow), id, holder, need)
            == resolved(s, id, holder, need),
{
}

/// A minted token works for its holder, up to the rights it was minted with,
/// and for nobody else.
pub proof fn minted_token_resolves(
    s: CapState,
    holder: FlowId,
    other: FlowId,
    target: FlowId,
    want: CapRights,
    need: CapRights,
    id: CapId,
)
    requires
        unused(s, id),
        other != holder,
    ensures
        ({
            let t = minted(s, holder, target, want, Ok(id)).0;
            &&& rights_contain(want, need) ==> (resolved(t, id, holder, need) matches Ok(e)
                && target_flow(e.cap.target) == Some(target))
            &&& !rights_contain(want, need) ==> resolved(t, id, holder, need) == Err::<
                Capability,
                CapError,
            >(CapError::InsufficientRights)
            &&& resolved(t, id, other, need) == Err::<Capability, CapError>(CapError::NotHolder)
        }),
{
}

/// Asking again for a reply address gives the same token and changes
/// nothing.
pub proof fn reply_address_is_stable(
    s: CapState,
    holder: FlowId,
    target: FlowId,
    want: CapRights,
    first: CapId,
    second: Result<CapId, RuntimeError>,
)
    requires
        unused(s, first),
    ensures
        ({
            let (t, r) = reply_minted(s, holder, target, want, Ok(first));
            &&& r is Ok
            &&& reply_address(t, holder, target, want) == Some(r->Ok_0)
            &&& reply_minted(t, holder, target, want, second) == (t, r)
        }),
{
    let m: u32 = want.mask;
    assert(m & m == m) by (bit_vector);
}

/// An operation on the table, with the token that was drawn for it.
pub ghost enum CapOp {
    Bind(FlowId),
    Mint { holder: FlowId, target: FlowId, want: CapRights, token: Result<CapId, RuntimeError> },
    Reply { holder: FlowId, target: FlowId, want: CapRights, token: Result<CapId, RuntimeError> },
    Grant { holder: FlowId, cap: Cap, token: Result<CapId, RuntimeError> },
    Attenuate {
        id: CapId,
        from: FlowId,
        to: FlowId,
        want: CapRights,
        mask: Option<NativeMask>,
        token: Result<CapId, RuntimeError>,
    },
    Delegate { id: CapId, from: FlowId, to: FlowId, token: Result<CapId, RuntimeError> },
    Reissue { id: CapId, to: FlowId, token: Result<CapId, RuntimeError> },
    Revoke(FlowId),
}

/// A token was drawn that is not in use, or none was.
pub open spec fn drawn(s: CapState, token: Result<CapId, RuntimeError>) -> bool {
    token matches Ok(id) ==> unused(s, id)
}

/// An operation takes the table from one state to the other.
pub open spec fn operates(s: CapState, op: CapOp, t: CapState) -> bool {
    match op {
        CapOp::Bind(flow) => t == bound(s, flow),
        CapOp::Mint { holder, target, want, token } => drawn(s, token) && t == minted(
            s,
            holder,
            target,
            want,
            token,
        ).0,
        CapOp::Reply { holder, target, want, token } => drawn(s, token) && t == reply_minted(
            s,
            holder,
            target,
            want,
            token,
        ).0,
        CapOp::Grant { holder, cap, token } => drawn(s, token) && t == grant_made(
            s,
            holder,
            cap,
            token,
        ).0,
        CapOp::Attenuate { id, from, to, want, mask, token } => drawn(s, token) && exists|
            r: Result<CapId, CapError>,
        | #[trigger] attenuated(s, id, from, to, want, mask, token, t, r),
        CapOp::Delegate { id, from, to, token } => drawn(s, token) && exists|
            r: Result<CapId, CapError>,
        | #[trigger] delegated(s, id, from, to, token, t, r),
        CapOp::Reissue { id, to, token } => drawn(s, token) && exists|
            r: Result<CapId, CapError>,
        | #[trigger] reissued(s, id, to, token, t, r),
        CapOp::Revoke(flow) => t == flow_revoked(s, flow),
    }
}

/// An operation that leaves the reply address from `holder` to `target`
/// alone: it revokes neither flow, and asks for no wider address of the pair.
pub open spec fn spares(op: CapOp, holder: FlowId, target: FlowId, want: CapRights) -> bool {
    match op {
        CapOp::Revoke(flow) => flow != holder && flow != target,
        CapOp::Reply { holder: h, target: t, want: w, .. } => h == holder && t == target
            ==> rights_contain(want, w),
        _ => true,
    }
}

proof fn lemma_contains_trans(a: CapRights, b: CapRights, c: CapRights)
    requires
        rights_contain(a, b),
        rights_contain(b, c),
    ensures
        rights_contain(a, c),
{
    let (x, y, z): (u32, u32, u32) = (a.mask, b.mask, c.mask);
    assert(x & z == z) by (bit_vector)
        requires
            x & y == y,
            y & z == z,
    ;
}

proof fn lemma_pair_key_names(holder: FlowId, target: FlowId, flow: FlowId)
    ensures
        key_names(pair_key(holder, target), flow) <==> flow == holder || flow == target,
{
    let h = holder.raw as int;
    let t = target.raw as int;
    let n = 0x1_0000_0000_0000_0000int;
    assert(0 <= h * n + t <= u128::MAX);
    assert((h * n + t) / n == h && (h * n + t) % n == t) by (nonlinear_arith)
        requires
            0 <= h,
            0 <= t < n,
            n == 0x1_0000_0000_0000_0000,
    ;
}

proof fn lemma_address_survives(
    s: CapState,
    op: CapOp,
    t: CapState,
    holder: FlowId,
    target: FlowId,
    want: CapRights,
)
    requires
        reply_address(s, holder, target, want) is Some,
        operates(s, op, t),
        spares(op, holder, target, want),
    ensures
        reply_address(t, holder, target, want) == reply_address(s, holder, target, want),
{
    let key = pair_key(holder, target);
    let id = s.replies[key];
    match op {
        CapOp::Revoke(flow) => {
            lemma_pair_key_names(holder, target, flow);
        },
        CapOp::Reply { holder: h, target: g, want: w, token } => {
            if h == holder && g == target {
                lemma_contains_trans(s.entries[id.raw].cap.rights, want, w);
            } else if pair_key(h, g) == key {
                pair_keys_differ(h, g, holder, target);
            }
        },
        _ => {},
    }
}

/// A reply address lasts: whatever is done to the table, as long as neither
/// flow is revoked and no wider address of the pair is asked for, asking for
/// it again gives the same token and changes nothing.
pub proof fn reply_address_lasts(
    states: Seq<CapState>,
    ops: Seq<CapOp>,
    holder: FlowId,
    target: FlowId,
    want: CapRights,
    id: CapId,
    token: Result<CapId, RuntimeError>,
)
    requires
        states.len() == ops.len() + 1,
        reply_address(states[0], holder, target, want) == Some(id),
        forall|i: int|
            #![trigger ops[i]]
            0 <= i < ops.len() ==> operates(states[i], ops[i], states[i + 1]) && spares(
                ops[i],
                holder,
                target,
                want,
            ),
    ensures
        reply_address(states.last(), holder, target, want) == Some(id),
        reply_minted(states.last(), holder, target, want, token) == (
            states.last(),
            Ok::<CapId, RuntimeError>(id),
        ),
    decreases ops.len(),
{
    if ops.len() > 0 {
        let n = ops.len() - 1;
        assert forall|i: int|
            #![trigger ops.drop_last()[i]]
            0 <= i < ops.drop_last().len() implies operates(
            states.drop_last()[i],
            ops.drop_last()[i],
            states.drop_last()[i + 1],
        ) && spares(ops.drop_last()[i], holder, target, want) by {
            assert(ops.drop_last()[i] == ops[i]);
        }
        reply_address_lasts(
            states.drop_last(),
            ops.drop_last(),
            holder,
            target,
            want,
            id,
            token,
        );
        assert(operates(states[n], ops[n], states[n + 1]));
        lemma_address_survives(states[n], ops[n], states[n + 1], holder, target, want);
    }
}

/// A reply address, new or old, is the address of one pair: another pair gets
/// another token.
pub proof fn reply_addresses_differ(
    s: CapState,
    holder: FlowId,
    target: FlowId,
    want: CapRights,
    id: CapId,
    other_holder: FlowId,
    other_target: FlowId,
    other_want: CapRights,
    token: Result<CapId, RuntimeError>,
)
    requires
        reply_address(s, holder, target, want) == Some(id),
        drawn(s, token),
        (other_holder, other_target) != (holder, target),
    ensures
        reply_minted(s, other_holder, other_target, other_want, token).1 matches Ok(other)
            ==> other != id,
{
}

/// Once its target is revoked, a reply address is unknown, and asking again
/// takes a new token, which works for the holder.
pub proof fn reply_address_is_replaced(
    s: CapState,
    holder: FlowId,
    target: FlowId,
    want: CapRights,
    id: CapId,
    fresh: CapId,
    need: CapRights,
)
    requires
        reply_address(s, holder, target, want) == Some(id),
        unused(flow_revoked(s, target), fresh),
    ensures
        ({
            let t = flow_revoked(s, target);
            let (u, r) = reply_minted(t, holder, target, want, Ok(fresh));
            &&& resolved(t, id, holder, need) == Err::<Capability, CapError>(CapError::Unknown)
            &&& r == Ok::<CapId, RuntimeError>(fresh)
            &&& rights_contain(want, need) ==> resolved(u, fresh, holder, need) is Ok
            &&& fresh != id ==> resolved(u, id, holder, need) == Err::<Capability, CapError>(
                CapError::Unknown,
            )
        }),
{
    let t = flow_revoked(s, target);
    lemma_pair_key_names(holder, target, target);
    assert(!t.replies.contains_key(pair_key(holder, target)));
}

/// The capabilities of one runtime.
pub struct CapTable {
    pub entries: IdMap<Capability>,
    pub flow_cells: IdMap<RevocationCell>,
    pub reply_index: IdMap<CapId>,
    pub native: RevocationCell,
    pub scheduler: RevocationCell,
}

impl View for CapTable {
    type V = CapState;

    open spec fn view(&self) -> CapState {
        CapState {
            entries: self.entries@,
            cells: self.flow_cells@,
            replies: self.reply_index@,
            native_cell: self.native,
            scheduler_cell: self.scheduler,
        }
    }
}

/// A table without entries.
pub open spec fn empty_caps() -> CapState {
    CapState {
        entries: Map::empty(),
        cells: Map::empty(),
        replies: Map::empty(),
        native_cell: RevocationCell { count: 0 },
        scheduler_cell: RevocationCell { count: 0 },
    }
}

fn reply_key(holder: FlowId, target: FlowId) -> (r: u128)
    ensures
        r == pair_key(holder, target),
{
    holder.raw as u128 * 0x1_0000_0000_0000_0000 + target.raw as u128
}

impl CapTable {
    pub fn new() -> (r: Self)
        ensures
            r@ == empty_caps(),
    {
        CapTable {
            entries: IdMap::new(),
            flow_cells: IdMap::new(),
            reply_index: IdMap::new(),
            native: RevocationCell::new(),
            scheduler: RevocationCell::new(),
        }
    }

    pub fn native_cell(&self) -> (r: RevocationCell)
        ensures
            r == self@.native_cell,
    {
        self.native
    }

    pub fn scheduler_cell(&self) -> (r: RevocationCell)
        ensures
            r == self@.scheduler_cell,
    {
        self.scheduler
    }

    /// Invalidate every capability for the native table.
    pub fn revoke_natives(&mut self)
        ensures
            final(self)@ == (CapState {
                native_cell: RevocationCell {
                    count: old(self)@.native_cell.count.wrapping_add(1),
                },
                ..old(self)@
            }),
    {
        self.native.revoke();
    }

    /// Invalidate every capability for the scheduler.
    pub fn revoke_scheduler(&mut self)
        ensures
            final(self)@ == (CapState {
                scheduler_cell: RevocationCell {
                    count: old(self)@.scheduler_cell.count.wrapping_add(1),
                },
                ..old(self)@
            }),
    {
        self.scheduler.revoke();
    }

    /// The cell of `flow`, made if there is none.
    pub fn bind_flow(&mut self, flow: FlowId) -> (r: RevocationCell)
        ensures
            r == cell_of(old(self)@, flow),
            final(self)@ == bound(old(self)@, flow),
    {
        let cell = match self.flow_cells.get(flow.raw as u128) {
            Some(c) => *c,
            None => RevocationCell::new(),
        };
        let _ = self.flow_cells.insert(flow.raw as u128, cell);
        cell
    }

    /// The cell of `flow`.
    pub fn flow_cell(&self, flow: FlowId) -> (r: Option<RevocationCell>)
        ensures
            r == (if self@.cells.contains_key(flow.raw as u128) {
                Some(self@.cells[flow.raw as u128])
            } else {
                None
            }),
    {
        match self.flow_cells.get(flow.raw as u128) {
            Some(c) => Some(*c),
            None => None,
        }
    }

    /// What a draw decides: a token that can be handed out is taken, and a
    /// failed draw ends the search. Another one is drawn in place of a token
    /// in use.
    pub fn judge(&self, draw: Result<CapId, CapIdError>) -> (r: Option<
        Result<CapId, RuntimeError>,
    >)
        ensures
            r == judged(self@, draw),
    {
        match draw {
            Ok(id) => if !id.is_none() && !self.entries.contains(id.raw) {
                Some(Ok(id))
            } else {
                None
            },
            Err(_) => Some(Err(RuntimeError::EntropyFailed)),
        }
    }

    /// The token that the draws give, of which [`MINT_ATTEMPTS`] count.
    pub fn draw_from(&self, draws: &[Result<CapId, CapIdError>]) -> (r: Result<
        CapId,
        RuntimeError,
    >)
        ensures
            r == drawn_token(self@, draws@, 0),
    {
        let mut k: usize = 0;
        while k < MINT_ATTEMPTS as usize && k < draws.len()
            invariant
                k <= MINT_ATTEMPTS,
                k <= draws@.len(),
                drawn_token(self@, draws@, 0) == drawn_token(self@, draws@, k as nat),
            decreases MINT_ATTEMPTS - k,
        {
            if let Some(r) = self.judge(draws[k]) {
                return r;
            }
            k += 1;
        }
        Err(RuntimeError::CapIdCollision)
    }

    /// A token that is not in use, drawn at random. Which tokens are drawn is
    /// not stated.
    pub fn draw(&self) -> (r: Result<CapId, RuntimeError>)
        ensures
            r matches Ok(id) ==> unused(self@, id),
            r matches Err(e) ==> e is EntropyFailed || e is CapIdCollision,
            exists|draws: Seq<Result<CapId, CapIdError>>|
                {
                    &&& draws.len() <= MINT_ATTEMPTS
                    &&& forall|i: int|
                        0 <= i < draws.len() ==> ((#[trigger] draws[i]) matches Ok(id) ==> id
                            != cap_none())
                    &&& r == #[trigger] drawn_token(self@, draws, 0)
                    &&& r matches Err(RuntimeError::CapIdCollision) ==> draws.len()
                        == MINT_ATTEMPTS
                },
    {
        let ghost mut draws: Seq<Result<CapId, CapIdError>> = Seq::empty();
        let mut k: u32 = 0;
        while k < MINT_ATTEMPTS
            invariant
                k <= MINT_ATTEMPTS,
                draws.len() == k,
                forall|i: int|
                    0 <= i < draws.len() ==> ((#[trigger] draws[i]) matches Ok(id) ==> id
                        != cap_none()),
                forall|i: int| 0 <= i < draws.len() ==> judged(self@, #[trigger] draws[i]) is None,
            decreases MINT_ATTEMPTS - k,
        {
            let one = CapId::random();
            let ghost before = draws;
            proof {
                draws = draws.push(one);
                assert forall|i: int| 0 <= i < k implies judged(
                    self@,
                    #[trigger] draws[i],
                ) is None by {
                    assert(draws[i] == before[i]);
                }
                lemma_undecided(self@, draws, k as nat);
            }
            if let Some(r) = self.judge(one) {
                assert(drawn_token(self@, draws, 0) == r);
                return r;
            }
            k += 1;
        }
        proof {
            lemma_undecided(self@, draws, k as nat);
            assert(drawn_token(self@, draws, 0) == Err::<CapId, RuntimeError>(
                RuntimeError::CapIdCollision,
            ));
        }
        Err(RuntimeError::CapIdCollision)
    }

    fn insert(&mut self, id: CapId, holder: FlowId, cap: Cap)
        ensures
            final(self)@ == granted(old(self)@, id, holder, cap),
    {
        let _ = self.entries.insert(id.raw, Capability { holder, cap });
    }

    /// Mint a root capability of `target` for `holder`: always a new token.
    pub fn mint(&mut self, holder: FlowId, target: FlowId, rights: CapRights) -> (r: Result<
        CapId,
        RuntimeError,
    >)
        ensures
            exists|token: Result<CapId, RuntimeError>|
                {
                    &&& token matches Ok(id) ==> unused(old(self)@, id)
                    &&& (final(self)@, r) == #[trigger] minted(
                        old(self)@,
                        holder,
                        target,
                        rights,
                        token,
                    )
                },
    {
        let token = self.draw();
        self.mint_as(holder, target, rights, token)
    }

    /// [`CapTable::mint`] with a drawn token.
    pub fn mint_as(
        &mut self,
        holder: FlowId,
        target: FlowId,
        rights: CapRights,
        token: Result<CapId, RuntimeError>,
    ) -> (r: Result<CapId, RuntimeError>)
        ensures
            (final(self)@, r) == minted(old(self)@, holder, target, rights, token),
    {
        let cell = self.bind_flow(target);
        match token {
            Ok(id) => {
                let cap = Cap::root(CapTarget::Flow(target.raw), rights, None, &cell);
                self.insert(id, holder, cap);
                Ok(id)
            },
            Err(e) => Err(e),
        }
    }

    /// The reply address from `holder` to `target`: the live one, or a new
    /// one.
    pub fn mint_or_reuse(&mut self, holder: FlowId, target: FlowId, rights: CapRights) -> (r:
        Result<CapId, RuntimeError>)
        ensures
            exists|token: Result<CapId, RuntimeError>|
                {
                    &&& token matches Ok(id) ==> unused(old(self)@, id)
                    &&& (final(self)@, r) == #[trigger] reply_minted(
                        old(self)@,
                        holder,
                        target,
                        rights,
                        token,
                    )
                },
    {
        let token = self.draw();
        self.mint_or_reuse_as(holder, target, rights, token)
    }

    /// [`CapTable::mint_or_reuse`] with a drawn token.
    pub fn mint_or_reuse_as(
        &mut self,
        holder: FlowId,
        target: FlowId,
        rights: CapRights,
        token: Result<CapId, RuntimeError>,
    ) -> (r: Result<CapId, RuntimeError>)
        ensures
            (final(self)@, r) == reply_minted(old(self)@, holder, target, rights, token),
    {
        let key: u128 = reply_key(holder, target);
        let known = match self.reply_index.get(key) {
            Some(id) => Some(*id),
            None => None,
        };
        if let Some(id) = known {
            if self.reply_cap_is_live(id, holder, target, rights) {
                return Ok(id);
            }
        }
        let _ = self.reply_index.remove(key);
        match self.mint_as(holder, target, rights, token) {
            Ok(id) => {
                let _ = self.reply_index.insert(key, id);
                Ok(id)
            },
            Err(e) => Err(e),
        }
    }

    fn reply_cap_is_live(&self, id: CapId, holder: FlowId, target: FlowId, rights: CapRights) -> (r:
        bool)
        ensures
            r == reply_live(self@, id, holder, target, rights),
    {
        let entry = match self.entries.get(id.raw) {
            Some(e) => e,
            None => return false,
        };
        if entry.holder != holder {
            return false;
        }
        if entry.cap.target != CapTarget::Flow(target.raw) {
            return false;
        }
        if !entry.cap.rights.contains(rights) {
            return false;
        }
        match self.flow_cells.get(target.raw as u128) {
            Some(cell) => entry.cap.is_valid(cell),
            None => false,
        }
    }

    /// Insert a capability that is a root or an attenuation already.
    pub fn grant(&mut self, holder: FlowId, cap: Cap) -> (r: Result<CapId, RuntimeError>)
        ensures
            exists|token: Result<CapId, RuntimeError>|
                {
                    &&& token matches Ok(id) ==> unused(old(self)@, id)
                    &&& token matches Err(e) ==> e is EntropyFailed || e is CapIdCollision
                    &&& (final(self)@, r) == #[trigger] grant_made(
                        old(self)@,
                        holder,
                        cap,
                        token,
                    )
                },
    {
        let token = self.draw();
        self.grant_as(holder, cap, token)
    }

    /// [`CapTable::grant`] with a drawn token.
    pub fn grant_as(
        &mut self,
        holder: FlowId,
        cap: Cap,
        token: Result<CapId, RuntimeError>,
    ) -> (r: Result<CapId, RuntimeError>)
        ensures
            (final(self)@, r) == grant_made(old(self)@, holder, cap, token),
    {
        match token {
            Ok(id) => {
                self.insert(id, holder, cap);
                Ok(id)
            },
            Err(e) => Err(e),
        }
    }

    /// The entry of a token, whoever holds it.
    pub fn lookup(&self, id: CapId) -> (r: Option<Capability>)
        ensures
            r == (if id.raw != 0 && self@.entries.contains_key(id.raw) {
                Some(self@.entries[id.raw])
            } else {
                None
            }),
    {
        if id.is_none() {
            return None;
        }
        match self.entries.get(id.raw) {
            Some(e) => Some(e.clone()),
            None => None,
        }
    }

    fn is_live(&self, cap: &Cap) -> (r: bool)
        ensures
            r == live(self@, *cap),
    {
        match cap.target {
            CapTarget::Flow(id) => match self.flow_cells.get(id as u128) {
                Some(cell) => cap.is_valid(cell),
                None => false,
            },
            CapTarget::NativeTable => cap.is_valid(&self.native),
            CapTarget::Scheduler => cap.is_valid(&self.scheduler),
        }
    }

    /// The entry that `holder` may use for `required`.
    pub fn resolve(&self, id: CapId, holder: FlowId, required: CapRights) -> (r: Result<
        Capability,
        CapError,
    >)
        ensures
            r == resolved(self@, id, holder, required),
    {
        if id.is_none() {
            return Err(CapError::Unknown);
        }
        let entry = match self.entries.get(id.raw) {
            Some(e) => e.clone(),
            None => return Err(CapError::Unknown),
        };
        if entry.holder != holder {
            return Err(CapError::NotHolder);
        }
        if !entry.cap.rights.contains(required) {
            return Err(CapError::InsufficientRights);
        }
        if !self.is_live(&entry.cap) {
            return Err(CapError::Unknown);
        }
        Ok(entry)
    }

    /// A new token for `to_holder` with attenuated rights.
    pub fn attenuate(
        &mut self,
        id: CapId,
        from_holder: FlowId,
        to_holder: FlowId,
        want_rights: CapRights,
        want_native: Option<&NativeMask>,
    ) -> (r: Result<CapId, CapError>)
        ensures
            exists|token: Result<CapId, RuntimeError>|
                {
                    &&& token matches Ok(new) ==> unused(old(self)@, new)
                    &&& #[trigger] attenuated(
                        old(self)@,
                        id,
                        from_holder,
                        to_holder,
                        want_rights,
                        mask_value(want_native),
                        token,
                        final(self)@,
                        r,
                    )
                },
    {
        let token = self.draw();
        self.attenuate_as(id, from_holder, to_holder, want_rights, want_native, token)
    }

    /// [`CapTable::attenuate`] with a drawn token.
    pub fn attenuate_as(
        &mut self,
        id: CapId,
        from_holder: FlowId,
        to_holder: FlowId,
        want_rights: CapRights,
        want_native: Option<&NativeMask>,
        token: Result<CapId, RuntimeError>,
    ) -> (r: Result<CapId, CapError>)
        ensures
            attenuated(
                old(self)@,
                id,
                from_holder,
                to_holder,
                want_rights,
                mask_value(want_native),
                token,
                final(self)@,
                r,
            ),
    {
        let src = match self.resolve(id, from_holder, CapRights::empty()) {
            Ok(e) => e,
            Err(e) => return Err(e),
        };
        let cell = match src.cap.target {
            CapTarget::Flow(fid) => match self.flow_cells.get(fid as u128) {
                Some(c) => *c,
                None => return Err(CapError::Unknown),
            },
            _ => return Err(CapError::WrongTarget),
        };
        let narrowed = match exec_delegate(&src.cap, &cell, want_rights, want_native) {
            Ok(c) => c,
            Err(DelegateError::SourceRevoked) => return Err(CapError::Unknown),
            Err(DelegateError::SourceLacksNative) => return Err(CapError::InsufficientRights),
        };
        match token {
            Ok(new) => {
                self.insert(new, to_holder, narrowed);
                Ok(new)
            },
            Err(_) => Err(CapError::Unavailable),
        }
    }

    /// A new token for `to_holder` with the same rights.
    pub fn delegate(&mut self, id: CapId, from_holder: FlowId, to_holder: FlowId) -> (r: Result<
        CapId,
        CapError,
    >)
        ensures
            exists|token: Result<CapId, RuntimeError>|
                {
                    &&& token matches Ok(new) ==> unused(old(self)@, new)
                    &&& #[trigger] delegated(
                        old(self)@,
                        id,
                        from_holder,
                        to_holder,
                        token,
                        final(self)@,
                        r,
                    )
                },
    {
        let token = self.draw();
        self.delegate_as(id, from_holder, to_holder, token)
    }

    /// [`CapTable::delegate`] with a drawn token.
    pub fn delegate_as(
        &mut self,
        id: CapId,
        from_holder: FlowId,
        to_holder: FlowId,
        token: Result<CapId, RuntimeError>,
    ) -> (r: Result<CapId, CapError>)
        ensures
            delegated(old(self)@, id, from_holder, to_holder, token, final(self)@, r),
    {
        let src = match self.resolve(id, from_holder, CapRights::empty()) {
            Ok(e) => e,
            Err(e) => return Err(e),
        };
        match &src.cap.native_mask {
            Some(m) => self.attenuate_as(
                id,
                from_holder,
                to_holder,
                src.cap.rights,
                Some(m),
                token,
            ),
            None => self.attenuate_as(id, from_holder, to_holder, src.cap.rights, None, token),
        }
    }

    /// A new token for `new_holder`, whoever holds the old one. For the host
    /// only.
    pub fn reissue_for(&mut self, id: CapId, new_holder: FlowId) -> (r: Result<CapId, CapError>)
        ensures
            exists|token: Result<CapId, RuntimeError>|
                {
                    &&& token matches Ok(new) ==> unused(old(self)@, new)
                    &&& #[trigger] reissued(old(self)@, id, new_holder, token, final(self)@, r)
                },
    {
        let token = self.draw();
        self.reissue_as(id, new_holder, token)
    }

    /// [`CapTable::reissue_for`] with a drawn token.
    pub fn reissue_as(
        &mut self,
        id: CapId,
        new_holder: FlowId,
        token: Result<CapId, RuntimeError>,
    ) -> (r: Result<CapId, CapError>)
        ensures
            reissued(old(self)@, id, new_holder, token, final(self)@, r),
    {
        let entry = match self.lookup(id) {
            Some(e) => e,
            None => return Err(CapError::Unknown),
        };
        if !self.is_live(&entry.cap) {
            return Err(CapError::Unknown);
        }
        let narrowed = match &entry.cap.native_mask {
            Some(m) => entry.cap.attenuate(entry.cap.rights, Some(m)),
            None => entry.cap.attenuate(entry.cap.rights, None),
        };
        match token {
            Ok(new) => {
                self.insert(new, new_holder, narrowed);
                Ok(new)
            },
            Err(_) => Err(CapError::Unavailable),
        }
    }

    /// Drop every capability that `flow` holds or is the target of; their
    /// number is returned.
    pub fn revoke_flow(&mut self, flow: FlowId) -> (r: usize)
        ensures
            final(self)@ == flow_revoked(old(self)@, flow),
            r == old(self)@.entries.len() - final(self)@.entries.len(),
    {
        let before: usize = self.entries.len();
        let _ = self.flow_cells.remove(flow.raw as u128);
        self.sweep_entries(flow);
        self.sweep_replies(flow);
        let after: usize = self.entries.len();
        proof {
            let kept = self@.entries.dom();
            let all = old(self)@.entries.dom();
            assert(kept.subset_of(all));
            vstd::set_lib::lemma_len_subset(kept, all);
        }
        before - after
    }

    fn sweep_entries(&mut self, flow: FlowId)
        ensures
            final(self)@ == (CapState {
                entries: flow_revoked(old(self)@, flow).entries,
                ..old(self)@
            }),
    {
        let keys = self.entries.keys();
        let mut gone: Vec<u128> = Vec::new();
        let mut i: usize = 0;
        while i < keys.len()
            invariant
                *self == *old(self),
                i <= keys@.len(),
                is_key_list(self@.entries, keys@),
                forall|k: u128|
                    #[trigger] gone@.contains(k) <==> keys@.take(i as int).contains(k)
                        && !outlives(self@.entries[k], flow),
            decreases keys@.len() - i,
        {
            let key: u128 = keys[i];
            assert(keys@.contains(keys@[i as int]));
            let ghost before = gone@;
            let ghost seen = keys@.take(i as int);
            assert(keys@.take(i + 1) =~= seen.push(key));
            if let Some(e) = self.entries.get(key) {
                if e.holder == flow || e.cap.target == CapTarget::Flow(flow.raw) {
                    gone.push(key);
                }
            }
            proof {
                assert forall|k: u128| #[trigger] gone@.contains(k) <==> keys@.take(
                    i + 1,
                ).contains(k) && !outlives(self@.entries[k], flow) by {
                    lemma_push_contains(seen, key, k);
                    lemma_push_contains(before, key, k);
                }
            }
            i += 1;
        }
        assert(keys@.take(i as int) =~= keys@);
        self.entries.remove_all(&gone);
        assert(self@.entries =~= flow_revoked(old(self)@, flow).entries);
    }

    fn sweep_replies(&mut self, flow: FlowId)
        ensures
            final(self)@ == (CapState {
                replies: flow_revoked(old(self)@, flow).replies,
                ..old(self)@
            }),
    {
        let keys = self.reply_index.keys();
        let mut gone: Vec<u128> = Vec::new();
        let mut i: usize = 0;
        while i < keys.len()
            invariant
                *self == *old(self),
                i <= keys@.len(),
                is_key_list(self@.replies, keys@),
                forall|k: u128|
                    #[trigger] gone@.contains(k) <==> keys@.take(i as int).contains(k)
                        && key_names(k, flow),
            decreases keys@.len() - i,
        {
            let key: u128 = keys[i];
            let ghost before = gone@;
            let ghost seen = keys@.take(i as int);
            assert(keys@.take(i + 1) =~= seen.push(key));
            let high: u128 = key / 0x1_0000_0000_0000_0000;
            let low: u128 = key % 0x1_0000_0000_0000_0000;
            if high == flow.raw as u128 || low == flow.raw as u128 {
                gone.push(key);
            }
            proof {
                assert forall|k: u128| #[trigger] gone@.contains(k) <==> keys@.take(
                    i + 1,
                ).contains(k) && key_names(k, flow) by {
                    lemma_push_contains(seen, key, k);
                    lemma_push_contains(before, key, k);
                }
            }
            i += 1;
        }
        assert(keys@.take(i as int) =~= keys@);
        self.reply_index.remove_all(&gone);
        assert(self@.replies =~= flow_revoked(old(self)@, flow).replies);
    }

    /// Live entries.
    pub fn entry_count(&self) -> (r: usize)
        ensures
            r == self@.entries.len(),
    {
        self.entries.len()
    }

    /// Reply addresses.
    pub fn reply_index_len(&self) -> (r: usize)
        ensures
            r == self@.replies.len(),
    {
        self.reply_index.len()
    }

    /// Whether a reply address names `flow`.
    pub fn reply_index_mentions(&self, flow: FlowId) -> (r: bool)
        ensures
            r == exists|k: u128| #[trigger] self@.replies.contains_key(k) && key_names(k, flow),
    {
        let keys = self.reply_index.keys();
        let mut i: usize = 0;
        while i < keys.len()
            invariant
                i <= keys@.len(),
                is_key_list(self@.replies, keys@),
                forall|j: int| 0 <= j < i ==> !key_names(#[trigger] keys@[j], flow),
            decreases keys@.len() - i,
        {
            let key: u128 = keys[i];
            let high: u128 = key / 0x1_0000_0000_0000_0000;
            let low: u128 = key % 0x1_0000_0000_0000_0000;
            if high == flow.raw as u128 || low == flow.raw as u128 {
                assert(keys@.contains(keys@[i as int]));
                assert(self@.replies.contains_key(key));
                return true;
            }
            i += 1;
        }
        proof {
            if exists|k: u128| #[trigger] self@.replies.contains_key(k) && key_names(k, flow) {
                let k = choose|k: u128|
                    #[trigger] self@.replies.contains_key(k) && key_names(k, flow);
                assert(keys@.contains(k));
                let j = choose|j: int| 0 <= j < keys@.len() && keys@[j] == k;
                assert(!key_names(keys@[j], flow));
            }
        }
        false
    }
}

impl Default for CapTable {
    fn default() -> (r: Self)
        ensures
            r@ == empty_caps(),
    {
        CapTable::new()
    }
}

} // verus!
