//! Bound on the number of live flows.

use vstd::prelude::*;

use crate::scheduler::error::SpawnError;

verus! {

/// Live flows and their bound; zero is no bound.
#[derive(Clone, Copy, Debug, PartialEq, Eq, Structural)]
pub struct FlowLimit {
    pub live: usize,
    pub max: u32,
}

/// The bound is reached.
pub open spec fn at_limit(l: FlowLimit) -> bool {
    l.max != 0 && l.live >= l.max
}

/// The count after a slot was asked for.
pub open spec fn reserved(l: FlowLimit) -> FlowLimit {
    if at_limit(l) || l.live == usize::MAX {
        l
    } else {
        FlowLimit { live: (l.live + 1) as usize, ..l }
    }
}

/// The count after a slot came back.
pub open spec fn freed_slot(l: FlowLimit) -> FlowLimit {
    FlowLimit {
        live: if l.live > 0 {
            (l.live - 1) as usize
        } else {
            0
        },
        ..l
    }
}

/// The bound is never passed, and giving a slot back undoes its reservation.
pub proof fn limit_is_respected(l: FlowLimit)
    requires
        l.max == 0 || l.live <= l.max,
    ensures
        l.max == 0 || reserved(l).live <= l.max,
        !at_limit(l) && l.live < usize::MAX ==> freed_slot(reserved(l)) == l,
{
}

impl FlowLimit {
    /// `max_flows` of zero is no bound.
    pub fn new(max_flows: u32) -> (r: Self)
        ensures
            r == (FlowLimit { live: 0, max: max_flows }),
    {
        FlowLimit { live: 0, max: max_flows }
    }

    /// Reserve a slot.
    pub fn try_reserve(&mut self) -> (r: Result<(), SpawnError>)
        ensures
            r == (if at_limit(*old(self)) {
                Err::<(), SpawnError>(
                    SpawnError::FlowLimit { current: old(self).live, max: old(self).max },
                )
            } else {
                Ok(())
            }),
            *final(self) == reserved(*old(self)),
    {
        if self.max != 0 && self.live >= self.max as usize {
            return Err(SpawnError::FlowLimit { current: self.live, max: self.max });
        }
        self.live = self.live.saturating_add(1);
        Ok(())
    }

    /// Give a slot back.
    pub fn release(&mut self)
        ensures
            *final(self) == freed_slot(*old(self)),
    {
        self.live = self.live.saturating_sub(1);
    }

    pub fn live(&self) -> (r: usize)
        ensures
            r == self.live,
    {
        self.live
    }
}

} // verus!
