//! Confinement of spawned flows: a child holds what was asked for, cut down
//! to what its parent holds.

use vstd::prelude::*;

use crate::bytecode::cap::{
    attenuates, cap_valid, mask_set, rights, rights_contain, rights_subset, Cap, CapRights,
    CapTarget, NativeMask, RevocationCell, RIGHT_SPAWN,
};
use crate::scheduler::delegate::mask_value;
use crate::scheduler::quota::{consumed, refilled, FlowQuota};
use crate::text::owned;

verus! {

/// Why a flow may not spawn.
#[derive(Debug, Clone, Copy, PartialEq, Eq, Structural)]
pub enum ConfinedSpawnError {
    RateLimited,
    SourceCapRevoked,
    MissingSpawnRight,
}

/// The message of a spawn refusal.
pub open spec fn confined_error_text(e: ConfinedSpawnError) -> Seq<char> {
    match e {
        ConfinedSpawnError::RateLimited => "spawn rate exceeded"@,
        ConfinedSpawnError::SourceCapRevoked => "parent capability revoked"@,
        ConfinedSpawnError::MissingSpawnRight => "parent lacks SPAWN right"@,
    }
}

impl ConfinedSpawnError {
    /// The message of this error.
    pub fn text(&self) -> (r: String)
        ensures
            r@ == confined_error_text(*self),
    {
        match self {
            ConfinedSpawnError::RateLimited => owned("spawn rate exceeded"),
            ConfinedSpawnError::SourceCapRevoked => owned("parent capability revoked"),
            ConfinedSpawnError::MissingSpawnRight => owned("parent lacks SPAWN right"),
        }
    }
}

/// Why a spawn is refused, if it is: revocation first, then the right, then
/// the rate.
pub open spec fn spawn_refusal(
    parent: Cap,
    cell: RevocationCell,
    quota: FlowQuota,
    now: u64,
) -> Option<ConfinedSpawnError> {
    if !cap_valid(parent, cell) {
        Some(ConfinedSpawnError::SourceCapRevoked)
    } else if !rights_contain(parent.rights, rights(RIGHT_SPAWN)) {
        Some(ConfinedSpawnError::MissingSpawnRight)
    } else if refilled(quota.spawn_bucket, now).tokens <= 0 {
        Some(ConfinedSpawnError::RateLimited)
    } else {
        None
    }
}

/// The parent's quota after the request: a token is asked for only once the
/// capability has passed.
pub open spec fn spawn_quota(
    parent: Cap,
    cell: RevocationCell,
    quota: FlowQuota,
    now: u64,
) -> FlowQuota {
    if cap_valid(parent, cell) && rights_contain(parent.rights, rights(RIGHT_SPAWN)) {
        FlowQuota { spawn_bucket: consumed(quota.spawn_bucket, now), ..quota }
    } else {
        quota
    }
}

/// `child` is the authority of flow `id`, born with the rights and the mask
/// that attenuating `parent` gives.
pub open spec fn confined_child(
    parent: Cap,
    id: u64,
    want_rights: CapRights,
    want_native: Option<NativeMask>,
    cell: RevocationCell,
    child: Cap,
) -> bool {
    &&& child.target == CapTarget::Flow(id)
    &&& child.epoch == cell.count
    &&& attenuates(
        parent,
        want_rights,
        want_native,
        Cap { target: parent.target, epoch: parent.epoch, ..child },
    )
}

/// A child never holds more than its parent, and nothing when nothing was
/// asked for.
pub proof fn child_never_exceeds_parent(
    parent: Cap,
    id: u64,
    want_rights: CapRights,
    want_native: Option<NativeMask>,
    cell: RevocationCell,
    child: Cap,
)
    requires
        confined_child(parent, id, want_rights, want_native, cell, child),
    ensures
        rights_subset(child.rights, parent.rights),
        rights_subset(child.rights, want_rights),
        mask_set(child.native_mask).subset_of(mask_set(parent.native_mask)),
        want_rights == rights(0) ==> child.rights == rights(0),
{
    let derived = Cap { target: parent.target, epoch: parent.epoch, ..child };
    crate::bytecode::cap::attenuation_never_escalates(parent, want_rights, want_native, derived);
    let p: u32 = parent.rights.mask;
    assert(p & 0u32 == 0u32) by (bit_vector);
}

/// The authority of a child that `parent` spawns.
pub fn exec_spawn_authority(
    parent_cap: &Cap,
    parent_cell: &RevocationCell,
    parent_quota: &mut FlowQuota,
    new_child_id: u64,
    requested_rights: CapRights,
    requested_native: Option<&NativeMask>,
    child_cell: &RevocationCell,
    now: u64,
) -> (r: Result<Cap, ConfinedSpawnError>)
    ensures
        *final(parent_quota) == spawn_quota(*parent_cap, *parent_cell, *old(parent_quota), now),
        match spawn_refusal(*parent_cap, *parent_cell, *old(parent_quota), now) {
            Some(e) => r == Err::<Cap, ConfinedSpawnError>(e),
            None => r matches Ok(c) && confined_child(
                *parent_cap,
                new_child_id,
                requested_rights,
                mask_value(requested_native),
                *child_cell,
                c,
            ),
        },
{
    if !parent_cap.is_valid(parent_cell) {
        return Err(ConfinedSpawnError::SourceCapRevoked);
    }
    if !parent_cap.rights.contains(CapRights::spawn()) {
        return Err(ConfinedSpawnError::MissingSpawnRight);
    }
    match parent_quota.check_spawn(now) {
        Ok(_) => {},
        Err(_) => return Err(ConfinedSpawnError::RateLimited),
    }
    let attenuated = parent_cap.attenuate(requested_rights, requested_native);
    Ok(
        Cap::root(
            CapTarget::Flow(new_child_id),
            attenuated.rights,
            attenuated.native_mask,
            child_cell,
        ),
    )
}

} // verus!
