//! Waiting for a flow to end: the outcome slot and its reader.

use std::sync::Arc;

use vstd::prelude::*;

use crate::scheduler::error::RuntimeError;
use crate::scheduler::failure::Failure;
use crate::scheduler::process::{failed, FlowId, FlowOutcome};
use crate::text::owned;

verus! {

/// Why a join was refused.
#[derive(Debug, Clone, Copy, PartialEq, Eq, Structural)]
pub enum JoinError {
    /// A worker thread must not wait for a flow: the flow may need it.
    CalledFromWorker,
}

/// The message of a join error.
pub open spec fn join_error_text(e: JoinError) -> Seq<char> {
    "FlowHandle::join called from a Byteflow worker thread"@
}

impl JoinError {
    /// The message of this error.
    pub fn text(&self) -> (r: String)
        ensures
            r@ == join_error_text(*self),
    {
        owned("FlowHandle::join called from a Byteflow worker thread")
    }
}

/// Where the outcome of a flow is left for its reader.
#[derive(Debug)]
pub enum OutcomeSlot {
    /// The flow has not ended.
    Waiting,
    Ready(FlowOutcome),
    /// The outcome was handed out.
    Taken,
    /// The flow was destroyed without an outcome.
    Abandoned,
}

/// What a reader finds.
#[derive(Debug)]
pub enum JoinState {
    Ready(FlowOutcome),
    Pending,
}

/// The slot after a read, and what was found. An outcome is handed out once.
pub open spec fn slot_read(s: OutcomeSlot) -> (OutcomeSlot, Result<JoinState, RuntimeError>) {
    match s {
        OutcomeSlot::Waiting => (s, Ok(JoinState::Pending)),
        OutcomeSlot::Ready(o) => (OutcomeSlot::Taken, Ok(JoinState::Ready(o))),
        OutcomeSlot::Taken => (s, Err(RuntimeError::AlreadyCollected("FlowHandle::join"))),
        OutcomeSlot::Abandoned => (s, Err(RuntimeError::Abandoned("FlowHandle::join"))),
    }
}

/// The slot after the flow ended. Only the first outcome counts.
pub open spec fn slot_filled(s: OutcomeSlot, o: FlowOutcome) -> OutcomeSlot {
    match s {
        OutcomeSlot::Waiting => OutcomeSlot::Ready(o),
        _ => s,
    }
}

/// The slot after the flow was destroyed.
pub open spec fn slot_dropped(s: OutcomeSlot) -> OutcomeSlot {
    match s {
        OutcomeSlot::Waiting => OutcomeSlot::Abandoned,
        _ => s,
    }
}

/// What a reader is told: nothing while the flow runs, the outcome, or the
/// error as a failure.
pub open spec fn settled_state(r: Result<JoinState, RuntimeError>) -> Option<FlowOutcome> {
    match r {
        Ok(JoinState::Ready(o)) => Some(o),
        Ok(JoinState::Pending) => None,
        Err(e) => Some(failed(Failure::Runtime(e))),
    }
}

/// The answer to a poll.
pub open spec fn polled(s: OutcomeSlot, on_worker: bool) -> (OutcomeSlot, Option<FlowOutcome>) {
    if on_worker {
        (s, Some(failed(Failure::Join(JoinError::CalledFromWorker))))
    } else {
        (slot_read(s).0, settled_state(slot_read(s).1))
    }
}

/// An outcome reaches its reader exactly once: the first read gives it, a
/// second one an error.
pub proof fn outcome_is_handed_out_once(s: OutcomeSlot, o: FlowOutcome, later: FlowOutcome)
    requires
        s is Waiting,
    ensures
        slot_read(slot_filled(s, o)).1 == Ok::<JoinState, RuntimeError>(JoinState::Ready(o)),
        slot_read(slot_filled(slot_filled(s, o), later)).1 == Ok::<JoinState, RuntimeError>(
            JoinState::Ready(o),
        ),
        slot_read(slot_read(slot_filled(s, o)).0).1 is Err,
        slot_dropped(slot_filled(s, o)) == slot_filled(s, o),
{
}

impl OutcomeSlot {
    pub fn new() -> (r: Self)
        ensures
            r is Waiting,
    {
        OutcomeSlot::Waiting
    }

    /// Leave the outcome.
    pub fn fill(&mut self, outcome: FlowOutcome)
        ensures
            *final(self) == slot_filled(*old(self), outcome),
    {
        if let OutcomeSlot::Waiting = self {
            *self = OutcomeSlot::Ready(outcome);
        }
    }

    /// The flow was destroyed.
    pub fn abandon(&mut self)
        ensures
            *final(self) == slot_dropped(*old(self)),
    {
        if let OutcomeSlot::Waiting = self {
            *self = OutcomeSlot::Abandoned;
        }
    }

    /// Take the outcome if it is there.
    pub fn read(&mut self) -> (r: Result<JoinState, RuntimeError>)
        ensures
            (*final(self), r) == slot_read(*old(self)),
    {
        let mut slot = OutcomeSlot::Taken;
        std::mem::swap(&mut slot, self);
        match slot {
            OutcomeSlot::Waiting => {
                *self = OutcomeSlot::Waiting;
                Ok(JoinState::Pending)
            },
            OutcomeSlot::Ready(o) => Ok(JoinState::Ready(o)),
            OutcomeSlot::Taken => Err(RuntimeError::AlreadyCollected("FlowHandle::join")),
            OutcomeSlot::Abandoned => {
                *self = OutcomeSlot::Abandoned;
                Err(RuntimeError::Abandoned("FlowHandle::join"))
            },
        }
    }
}

/// A reference to a spawned flow. It does not keep the flow alive.
#[derive(Debug)]
pub struct FlowHandle {
    pub flow: FlowId,
    pub slot: OutcomeSlot,
}

impl FlowHandle {
    pub fn new(flow: FlowId) -> (r: Self)
        ensures
            r.flow == flow,
            r.slot is Waiting,
    {
        FlowHandle { flow, slot: OutcomeSlot::new() }
    }

    pub fn id(&self) -> (r: FlowId)
        ensures
            r == self.flow,
    {
        self.flow
    }

    /// The outcome of a flow that has ended or was destroyed. Not to be
    /// called on a worker thread.
    pub fn join(self, on_worker: bool) -> (r: FlowOutcome)
        requires
            on_worker || !(self.slot is Waiting),
        ensures
            Some(r) == polled(self.slot, on_worker).1,
    {
        match self.join_checked(on_worker) {
            Ok(o) => o,
            Err(e) => FlowOutcome::Failed(Arc::new(Failure::Join(e))),
        }
    }

    /// [`FlowHandle::join`] with the refusal kept apart.
    pub fn join_checked(self, on_worker: bool) -> (r: Result<FlowOutcome, JoinError>)
        requires
            on_worker || !(self.slot is Waiting),
        ensures
            on_worker ==> r == Err::<FlowOutcome, JoinError>(JoinError::CalledFromWorker),
            !on_worker ==> (r matches Ok(o) && Some(o) == polled(self.slot, false).1),
    {
        if on_worker {
            return Err(JoinError::CalledFromWorker);
        }
        let mut slot = self.slot;
        match slot.read() {
            Ok(JoinState::Ready(o)) => Ok(o),
            Ok(JoinState::Pending) => Ok(
                FlowOutcome::Failed(
                    Arc::new(Failure::Runtime(RuntimeError::Abandoned("FlowHandle::join"))),
                ),
            ),
            Err(e) => Ok(FlowOutcome::Failed(Arc::new(Failure::Runtime(e)))),
        }
    }

    /// The outcome if the flow has ended; never waits.
    pub fn try_join(&mut self, on_worker: bool) -> (r: Option<FlowOutcome>)
        ensures
            (final(self).slot, r) == polled(old(self).slot, on_worker),
            final(self).flow == old(self).flow,
    {
        if on_worker {
            return Some(
                FlowOutcome::Failed(Arc::new(Failure::Join(JoinError::CalledFromWorker))),
            );
        }
        let state = self.slot.read();
        FlowHandle::settle(state)
    }

    /// What a reader is told.
    pub fn settle(state: Result<JoinState, RuntimeError>) -> (r: Option<FlowOutcome>)
        ensures
            r == settled_state(state),
    {
        match state {
            Ok(JoinState::Ready(outcome)) => Some(outcome),
            Ok(JoinState::Pending) => None,
            Err(e) => Some(FlowOutcome::Failed(Arc::new(Failure::Runtime(e)))),
        }
    }
}

} // verus!
