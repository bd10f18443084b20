//! Links, monitors and administration as checked authority: knowing an id is
//! not enough.

use vstd::prelude::*;

use crate::bytecode::cap::{
    cap_valid, rights, rights_contain, Cap, CapRights, CapTarget, RevocationCell, RIGHT_ADMIN,
    RIGHT_LINK, RIGHT_MONITOR,
};
use crate::text::owned;

verus! {

/// Why a capability does not allow a link or a monitor.
#[derive(Debug, Clone, Copy, PartialEq, Eq, Structural)]
pub enum LinkError {
    WrongTarget,
    MissingRight,
    CapRevoked,
}

/// The message of a link error.
pub open spec fn link_error_text(e: LinkError) -> Seq<char> {
    match e {
        LinkError::WrongTarget => "cap does not target this flow"@,
        LinkError::MissingRight => "cap lacks LINK/MONITOR right"@,
        LinkError::CapRevoked => "capability revoked"@,
    }
}

impl LinkError {
    /// The message of this error.
    pub fn text(&self) -> (r: String)
        ensures
            r@ == link_error_text(*self),
    {
        match self {
            LinkError::WrongTarget => owned("cap does not target this flow"),
            LinkError::MissingRight => owned("cap lacks LINK/MONITOR right"),
            LinkError::CapRevoked => owned("capability revoked"),
        }
    }
}

/// The verdict on a relation with flow `target` that needs the right `need`:
/// the capability is live, targets that flow and carries the right.
pub open spec fn relation_check(
    cap: Cap,
    cell: RevocationCell,
    target: u64,
    need: u32,
) -> Result<(), LinkError> {
    if !cap_valid(cap, cell) {
        Err(LinkError::CapRevoked)
    } else if cap.target != CapTarget::Flow(target) {
        Err(LinkError::WrongTarget)
    } else if !rights_contain(cap.rights, rights(need)) {
        Err(LinkError::MissingRight)
    } else {
        Ok(())
    }
}

/// Whether `cap` allows to link with flow `target`.
pub fn check_link(cap: &Cap, cell: &RevocationCell, target: u64) -> (r: Result<(), LinkError>)
    ensures
        r == relation_check(*cap, *cell, target, RIGHT_LINK),
{
    if !cap.is_valid(cell) {
        return Err(LinkError::CapRevoked);
    }
    if cap.target != CapTarget::Flow(target) {
        return Err(LinkError::WrongTarget);
    }
    if !cap.rights.contains(CapRights::link()) {
        return Err(LinkError::MissingRight);
    }
    Ok(())
}

/// Whether `cap` allows to monitor flow `target`.
pub fn check_monitor(cap: &Cap, cell: &RevocationCell, target: u64) -> (r: Result<(), LinkError>)
    ensures
        r == relation_check(*cap, *cell, target, RIGHT_MONITOR),
{
    if !cap.is_valid(cell) {
        return Err(LinkError::CapRevoked);
    }
    if cap.target != CapTarget::Flow(target) {
        return Err(LinkError::WrongTarget);
    }
    if !cap.rights.contains(CapRights::monitor()) {
        return Err(LinkError::MissingRight);
    }
    Ok(())
}

/// Why a capability does not allow an administrative operation.
#[derive(Debug, Clone, Copy, PartialEq, Eq, Structural)]
pub enum AdminError {
    MissingRight,
    CapRevoked,
    WrongTarget,
}

/// The message of an administration error.
pub open spec fn admin_error_text(e: AdminError) -> Seq<char> {
    match e {
        AdminError::MissingRight => "cap lacks ADMIN right"@,
        AdminError::CapRevoked => "capability revoked"@,
        AdminError::WrongTarget => "ADMIN requires CapTarget::Scheduler"@,
    }
}

impl AdminError {
    /// The message of this error.
    pub fn text(&self) -> (r: String)
        ensures
            r@ == admin_error_text(*self),
    {
        match self {
            AdminError::MissingRight => owned("cap lacks ADMIN right"),
            AdminError::CapRevoked => owned("capability revoked"),
            AdminError::WrongTarget => owned("ADMIN requires CapTarget::Scheduler"),
        }
    }
}

/// The verdict on an operation of the scheduler itself.
pub open spec fn admin_check(cap: Cap, cell: RevocationCell) -> Result<(), AdminError> {
    if !cap_valid(cap, cell) {
        Err(AdminError::CapRevoked)
    } else if cap.target != CapTarget::Scheduler {
        Err(AdminError::WrongTarget)
    } else if !rights_contain(cap.rights, rights(RIGHT_ADMIN)) {
        Err(AdminError::MissingRight)
    } else {
        Ok(())
    }
}

/// Whether `cap` allows kill, inspection and quota top-up.
pub fn check_admin(cap: &Cap, cell: &RevocationCell) -> (r: Result<(), AdminError>)
    ensures
        r == admin_check(*cap, *cell),
{
    if !cap.is_valid(cell) {
        return Err(AdminError::CapRevoked);
    }
    if cap.target != CapTarget::Scheduler {
        return Err(AdminError::WrongTarget);
    }
    if !cap.rights.contains(CapRights::admin()) {
        return Err(AdminError::MissingRight);
    }
    Ok(())
}

} // verus!
