//! Why a flow failed.

use std::sync::Arc;

use vstd::prelude::*;

use crate::scheduler::capability::{cap_error_text, CapError};
use crate::scheduler::error::{
    lifecycle_error_text, runtime_error_text, spawn_error_text, LifecycleError, RuntimeError,
    SpawnError,
};
use crate::scheduler::handle::{join_error_text, JoinError};
use crate::scheduler::host_await::{park_error_text, HostAwaitParkError};
use crate::scheduler::link_admin::{link_error_text, LinkError};
use crate::scheduler::monitor::{reason_text, FlowExitReason};
use crate::scheduler::process::{flow_id_text, FlowId};
use crate::scheduler::quota::{quota_error_text, QuotaError};
use crate::scheduler::waits::{ask_error_text, AskInsertError};
use crate::text::{owned, push_str};
use crate::vm::fault::{fault_text, Fault};

verus! {

/// Why a flow failed.
#[derive(Debug)]
pub enum Failure {
    /// The machine faulted, while it ran or while a value was delivered.
    Trap(Fault),
    Runtime(RuntimeError),
    Cap(CapError),
    Quota(QuotaError),
    Lifecycle(LifecycleError),
    Spawn(SpawnError),
    Relation(LinkError),
    Ask(AskInsertError),
    HostAwait(HostAwaitParkError),
    Join(JoinError),
    /// The flow that a message was waiting for is gone.
    TargetExited(FlowId),
    /// A linked flow ended.
    LinkedExit(FlowExitReason),
    Killed(FlowExitReason),
    Exit(FlowExitReason),
    /// A rule of the scheduler, in words.
    Refused(&'static str),
    /// What the host reported.
    Host(Arc<String>),
}

/// The message of a failure.
pub open spec fn failure_text(f: Failure) -> Seq<char> {
    match f {
        Failure::Trap(e) => fault_text(e),
        Failure::Runtime(e) => runtime_error_text(e),
        Failure::Cap(e) => cap_error_text(e),
        Failure::Quota(e) => quota_error_text(e),
        Failure::Lifecycle(e) => lifecycle_error_text(e),
        Failure::Spawn(e) => spawn_error_text(e),
        Failure::Relation(e) => link_error_text(e),
        Failure::Ask(e) => ask_error_text(e),
        Failure::HostAwait(e) => park_error_text(e),
        Failure::Join(e) => join_error_text(e),
        Failure::TargetExited(id) => "send target "@ + flow_id_text(id) + " exited"@,
        Failure::LinkedExit(r) => "linked exit ("@ + reason_text(r) + ")"@,
        Failure::Killed(r) => "killed ("@ + reason_text(r) + ")"@,
        Failure::Exit(r) => "exit ("@ + reason_text(r) + ")"@,
        Failure::Refused(why) => why@,
        Failure::Host(msg) => msg@,
    }
}

fn bracketed(head: &str, reason: FlowExitReason) -> (r: String)
    ensures
        r@ == head@ + reason_text(reason) + ")"@,
{
    let mut s = owned(head);
    push_str(&mut s, reason.text().as_str());
    push_str(&mut s, ")");
    s
}

impl Failure {
    /// The message of this failure.
    pub fn text(&self) -> (r: String)
        ensures
            r@ == failure_text(*self),
    {
        match self {
            Failure::Trap(e) => e.text(),
            Failure::Runtime(e) => e.text(),
            Failure::Cap(e) => e.text(),
            Failure::Quota(e) => e.text(),
            Failure::Lifecycle(e) => e.text(),
            Failure::Spawn(e) => e.text(),
            Failure::Relation(e) => e.text(),
            Failure::Ask(e) => e.text(),
            Failure::HostAwait(e) => e.text(),
            Failure::Join(e) => e.text(),
            Failure::TargetExited(id) => {
                let mut s = owned("send target ");
                push_str(&mut s, id.text().as_str());
                push_str(&mut s, " exited");
                s
            },
            Failure::LinkedExit(r) => bracketed("linked exit (", *r),
            Failure::Killed(r) => bracketed("killed (", *r),
            Failure::Exit(r) => bracketed("exit (", *r),
            Failure::Refused(why) => owned(why),
            Failure::Host(msg) => owned(msg.as_str()),
        }
    }
}

/// What a flow that took a kill signal failed with.
pub open spec fn kill_failure(reason: FlowExitReason) -> Failure {
    match reason {
        FlowExitReason::Link => Failure::LinkedExit(reason),
        FlowExitReason::Killed => Failure::Killed(reason),
        _ => Failure::Exit(reason),
    }
}

/// What a flow that took a kill signal failed with.
pub fn kill_outcome(reason: FlowExitReason) -> (r: Failure)
    ensures
        r == kill_failure(reason),
{
    match reason {
        FlowExitReason::Link => Failure::LinkedExit(reason),
        FlowExitReason::Killed => Failure::Killed(reason),
        _ => Failure::Exit(reason),
    }
}

} // verus!
