//! Errors of the scheduler: infrastructure, lifecycle and spawning.

use vstd::prelude::*;

use crate::bytecode::verify::VerifyError;
use crate::scheduler::process::{flow_id_text, FlowId};
use crate::scheduler::spawn::ConfinedSpawnError;
use crate::text::{dec, owned, push_quoted, push_str, push_u64, push_usize, quoted};
use crate::vm::fault::{fault_text, Fault};

verus! {

/// Failure of the scheduler or its host, not of a flow.
#[derive(Debug, Clone, Copy, PartialEq, Eq)]
pub enum RuntimeError {
    /// A lock was poisoned.
    PoisonedLock(&'static str),
    /// A flow was destroyed before it had an outcome.
    Abandoned(&'static str),
    /// The outcome was handed out already.
    AlreadyCollected(&'static str),
    EntropyFailed,
    CapIdCollision,
    CannotFinalizeHostFlow,
    FlowIdExhausted,
    DuplicateFlowId,
}

/// The message of a runtime error.
pub open spec fn runtime_error_text(e: RuntimeError) -> Seq<char> {
    match e {
        RuntimeError::PoisonedLock(place) => "runtime mutex poisoned at "@ + place@,
        RuntimeError::Abandoned(place) => place@
            + ": flow was destroyed before producing an outcome"@,
        RuntimeError::AlreadyCollected(place) => place@ + ": outcome was already collected"@,
        RuntimeError::EntropyFailed => "capability CSPRNG unavailable"@,
        RuntimeError::CapIdCollision => "could not allocate a unique capability id"@,
        RuntimeError::CannotFinalizeHostFlow => "cannot finalize reserved host flow"@,
        RuntimeError::FlowIdExhausted => "flow id space exhausted (counter wrapped)"@,
        RuntimeError::DuplicateFlowId => "directory already has this flow id"@,
    }
}

impl RuntimeError {
    /// The message of this error.
    pub fn text(&self) -> (r: String)
        ensures
            r@ == runtime_error_text(*self),
    {
        match self {
            RuntimeError::PoisonedLock(place) => {
                let mut s = owned("runtime mutex poisoned at ");
                push_str(&mut s, place);
                s
            },
            RuntimeError::Abandoned(place) => {
                let mut s = owned(place);
                push_str(&mut s, ": flow was destroyed before producing an outcome");
                s
            },
            RuntimeError::AlreadyCollected(place) => {
                let mut s = owned(place);
                push_str(&mut s, ": outcome was already collected");
                s
            },
            RuntimeError::EntropyFailed => owned("capability CSPRNG unavailable"),
            RuntimeError::CapIdCollision => owned("could not allocate a unique capability id"),
            RuntimeError::CannotFinalizeHostFlow => owned("cannot finalize reserved host flow"),
            RuntimeError::FlowIdExhausted => owned("flow id space exhausted (counter wrapped)"),
            RuntimeError::DuplicateFlowId => owned("directory already has this flow id"),
        }
    }
}

/// A refused link, monitor or name.
#[derive(Debug, Clone, Copy, PartialEq, Eq, Structural)]
pub enum LifecycleError {
    NoSuchFlow(FlowId),
    InvalidCapability,
    InvalidMonitor,
    InvalidLink,
    NotOwner,
    AlreadyRegistered,
    AlreadyLinked,
    EmptyName,
    SelfRelation,
    Unavailable,
    LinkLimitReached { limit: u32 },
    RegistryLimitReached { limit: u32 },
}

/// The message of a lifecycle error.
pub open spec fn lifecycle_error_text(e: LifecycleError) -> Seq<char> {
    match e {
        LifecycleError::NoSuchFlow(id) => "no live flow "@ + flow_id_text(id),
        LifecycleError::InvalidCapability => "unknown or revoked capability"@,
        LifecycleError::InvalidMonitor => "unknown monitor"@,
        LifecycleError::InvalidLink => "unknown link"@,
        LifecycleError::NotOwner => "caller does not own this relation"@,
        LifecycleError::AlreadyRegistered => "registry name already taken"@,
        LifecycleError::AlreadyLinked => "flows are already linked"@,
        LifecycleError::EmptyName => "registry name must be non-empty"@,
        LifecycleError::SelfRelation => "cannot link or monitor a flow to itself"@,
        LifecycleError::Unavailable => "runtime table unavailable (poisoned lock)"@,
        LifecycleError::LinkLimitReached { limit } => "link limit reached ("@ + dec(limit as nat)
            + ")"@,
        LifecycleError::RegistryLimitReached { limit } => "registry limit reached ("@ + dec(
            limit as nat,
        ) + ")"@,
    }
}

impl LifecycleError {
    /// The message of this error.
    pub fn text(&self) -> (r: String)
        ensures
            r@ == lifecycle_error_text(*self),
    {
        match self {
            LifecycleError::NoSuchFlow(id) => {
                let mut s = owned("no live flow ");
                push_str(&mut s, id.text().as_str());
                s
            },
            LifecycleError::InvalidCapability => owned("unknown or revoked capability"),
            LifecycleError::InvalidMonitor => owned("unknown monitor"),
            LifecycleError::InvalidLink => owned("unknown link"),
            LifecycleError::NotOwner => owned("caller does not own this relation"),
            LifecycleError::AlreadyRegistered => owned("registry name already taken"),
            LifecycleError::AlreadyLinked => owned("flows are already linked"),
            LifecycleError::EmptyName => owned("registry name must be non-empty"),
            LifecycleError::SelfRelation => owned("cannot link or monitor a flow to itself"),
            LifecycleError::Unavailable => owned("runtime table unavailable (poisoned lock)"),
            LifecycleError::LinkLimitReached { limit } => {
                let mut s = owned("link limit reached (");
                push_u64(&mut s, *limit as u64);
                push_str(&mut s, ")");
                s
            },
            LifecycleError::RegistryLimitReached { limit } => {
                let mut s = owned("registry limit reached (");
                push_u64(&mut s, *limit as u64);
                push_str(&mut s, ")");
                s
            },
        }
    }
}

/// A refused spawn.
#[derive(Debug, Clone, PartialEq, Eq)]
pub enum SpawnError {
    BadFunction { index: u32, table_size: u32 },
    VerifyFailed(VerifyError),
    /// An argument is a capability that is unknown or not held.
    InvalidCapability,
    Unavailable,
    FlowIdExhausted,
    FlowLimit { current: usize, max: u32 },
    SpawnDenied(String),
    SpawnRateExceeded,
    ParentCapRevoked,
    MissingSpawnRight,
    NameTaken { name: String },
    /// The name of a child could not be registered.
    NameRefused(LifecycleError),
    /// No capability could be minted for the name of a child.
    MintFailed,
    ThreadSpawnFailed(String),
    VmInit(Fault),
}

/// The message of a spawn error.
pub open spec fn spawn_error_text(e: SpawnError) -> Seq<char> {
    match e {
        SpawnError::BadFunction { index, table_size } => "spawn: function index "@ + dec(
            index as nat,
        ) + " out of range (table size "@ + dec(table_size as nat) + ")"@,
        SpawnError::VerifyFailed(err) => "chunk verification failed: "@ + err.spec_text(),
        SpawnError::InvalidCapability => "spawn: argument capability is unknown or not held"@,
        SpawnError::Unavailable => "spawn: runtime table unavailable"@,
        SpawnError::FlowIdExhausted => "spawn: flow id space exhausted (counter wrapped)"@,
        SpawnError::FlowLimit { current, max } => "spawn: live flow limit reached ("@ + dec(
            current as nat,
        ) + "/"@ + dec(max as nat) + ")"@,
        SpawnError::SpawnDenied(msg) => "spawn: "@ + msg@,
        SpawnError::SpawnRateExceeded => "spawn: spawn rate exceeded"@,
        SpawnError::ParentCapRevoked => "spawn: parent capability revoked"@,
        SpawnError::MissingSpawnRight => "spawn: parent lacks SPAWN right"@,
        SpawnError::NameTaken { name } => "spawn: registry name "@ + quoted(name@)
            + " already taken"@,
        SpawnError::NameRefused(e) => "vm init failed: "@ + lifecycle_error_text(e),
        SpawnError::MintFailed => "vm init failed: cap mint failed (poisoned lock)"@,
        SpawnError::ThreadSpawnFailed(msg) => "failed to spawn runtime thread: "@ + msg@,
        SpawnError::VmInit(fault) => "vm init failed: "@ + fault_text(fault),
    }
}

impl SpawnError {
    /// The message of this error.
    pub fn text(&self) -> (r: String)
        ensures
            r@ == spawn_error_text(*self),
    {
        match self {
            SpawnError::BadFunction { index, table_size } => {
                let mut s = owned("spawn: function index ");
                push_u64(&mut s, *index as u64);
                push_str(&mut s, " out of range (table size ");
                push_u64(&mut s, *table_size as u64);
                push_str(&mut s, ")");
                s
            },
            SpawnError::VerifyFailed(err) => {
                let mut s = owned("chunk verification failed: ");
                push_str(&mut s, err.text().as_str());
                s
            },
            SpawnError::InvalidCapability => owned(
                "spawn: argument capability is unknown or not held",
            ),
            SpawnError::Unavailable => owned("spawn: runtime table unavailable"),
            SpawnError::FlowIdExhausted => owned(
                "spawn: flow id space exhausted (counter wrapped)",
            ),
            SpawnError::FlowLimit { current, max } => {
                let mut s = owned("spawn: live flow limit reached (");
                push_usize(&mut s, *current);
                push_str(&mut s, "/");
                push_u64(&mut s, *max as u64);
                push_str(&mut s, ")");
                s
            },
            SpawnError::SpawnDenied(msg) => {
                let mut s = owned("spawn: ");
                push_str(&mut s, msg.as_str());
                s
            },
            SpawnError::SpawnRateExceeded => owned("spawn: spawn rate exceeded"),
            SpawnError::ParentCapRevoked => owned("spawn: parent capability revoked"),
            SpawnError::MissingSpawnRight => owned("spawn: parent lacks SPAWN right"),
            SpawnError::NameTaken { name } => {
                let mut s = owned("spawn: registry name ");
                push_quoted(&mut s, name.as_str());
                push_str(&mut s, " already taken");
                s
            },
            SpawnError::NameRefused(e) => {
                let mut s = owned("vm init failed: ");
                push_str(&mut s, e.text().as_str());
                s
            },
            SpawnError::MintFailed => owned("vm init failed: cap mint failed (poisoned lock)"),
            SpawnError::ThreadSpawnFailed(msg) => {
                let mut s = owned("failed to spawn runtime thread: ");
                push_str(&mut s, msg.as_str());
                s
            },
            SpawnError::VmInit(fault) => {
                let mut s = owned("vm init failed: ");
                push_str(&mut s, fault.text().as_str());
                s
            },
        }
    }
}

/// The spawn error of a fault at entry.
pub open spec fn spawn_error_of(fault: Fault) -> SpawnError {
    match fault {
        Fault::BadFunction { index, table_size } => SpawnError::BadFunction { index, table_size },
        _ => SpawnError::VmInit(fault),
    }
}

impl From<Fault> for SpawnError {
    fn from(fault: Fault) -> (r: Self) {
        match fault {
            Fault::BadFunction { index, table_size } => SpawnError::BadFunction {
                index,
                table_size,
            },
            other => SpawnError::VmInit(other),
        }
    }
}

impl vstd::std_specs::convert::FromSpecImpl<Fault> for SpawnError {
    open spec fn obeys_from_spec() -> bool {
        true
    }

    open spec fn from_spec(fault: Fault) -> Self {
        spawn_error_of(fault)
    }
}

/// The spawn error of a refused confined spawn.
pub open spec fn spawn_error_of_refusal(e: ConfinedSpawnError) -> SpawnError {
    match e {
        ConfinedSpawnError::RateLimited => SpawnError::SpawnRateExceeded,
        ConfinedSpawnError::SourceCapRevoked => SpawnError::ParentCapRevoked,
        ConfinedSpawnError::MissingSpawnRight => SpawnError::MissingSpawnRight,
    }
}

impl From<ConfinedSpawnError> for SpawnError {
    fn from(e: ConfinedSpawnError) -> (r: Self) {
        match e {
            ConfinedSpawnError::RateLimited => SpawnError::SpawnRateExceeded,
            ConfinedSpawnError::SourceCapRevoked => SpawnError::ParentCapRevoked,
            ConfinedSpawnError::MissingSpawnRight => SpawnError::MissingSpawnRight,
        }
    }
}

impl vstd::std_specs::convert::FromSpecImpl<ConfinedSpawnError> for SpawnError {
    open spec fn obeys_from_spec() -> bool {
        true
    }

    open spec fn from_spec(e: ConfinedSpawnError) -> Self {
        spawn_error_of_refusal(e)
    }
}

} // verus!
