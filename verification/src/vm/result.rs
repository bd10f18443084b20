//! Why a slice of execution ended.

use std::sync::Arc;

use vstd::prelude::*;

use crate::bytecode::cap::{CapId, CapRights};
use crate::bytecode::opcode::Opcode;
use crate::bytecode::value::Value;
use crate::vm::fault::Fault;

verus! {

/// What a slice of execution ended with. Times are milliseconds.
#[derive(Debug)]
pub enum VmResult {
    /// The outermost frame returned.
    Complete(Value),
    /// The budget is used up, or the flow yielded.
    Yield,
    Sleep(u64),
    /// Create a child flow; its address goes to `dest_reg`.
    Spawn { function: u32, args: Vec<Value>, dest_reg: u8, requested_rights: CapRights },
    /// Write an address of this flow to `dest_reg`.
    SelfPid { dest_reg: u8 },
    Send { target_cap: CapId, message: Value },
    /// Wait for a message that passes every given filter.
    Receive {
        dest_reg: u8,
        timeout: Option<u64>,
        match_tag: Option<u16>,
        match_request_id: Option<u64>,
        match_payload_kind: Option<u8>,
    },
    /// Send a request and wait for its reply.
    Ask { dest_reg: u8, target_cap: CapId, request: Value, timeout: Option<u64> },
    Monitor { dest_reg: u8, target_cap: CapId },
    Demonitor { monitor_reg: u8 },
    Link { dest_reg: u8, target_cap: CapId },
    Unlink { link_reg: u8 },
    SetTrapExit { enabled: bool },
    SetRestartPolicy { policy: u8 },
    HostAwait { dest_reg: u8, op: u32, args: Value },
    RegisterName { name: Arc<String> },
    Whereis { dest_reg: u8, name: Arc<String> },
    Delegate {
        dest_reg: u8,
        src_cap: CapId,
        want_rights: CapRights,
        want_native_cap: Option<CapId>,
    },
    /// Call the native that the host knows as `native`; its result goes to
    /// `dest_reg`.
    CallHost { dest_reg: u8, native: u32, args: Vec<Value> },
    /// Compute on doubles (integers among the operands are converted); the
    /// result goes to `dest_reg`.
    FloatOp { op: Opcode, dest_reg: u8, lhs: Value, rhs: Value },
    Trap(Fault),
}

/// Model of a [`VmResult`].
pub ghost enum Effect {
    Complete(Value),
    Yield,
    Sleep(u64),
    Spawn { function: u32, args: Seq<Value>, dest_reg: u8, requested_rights: CapRights },
    SelfPid { dest_reg: u8 },
    Send { target_cap: CapId, message: Value },
    Receive {
        dest_reg: u8,
        timeout: Option<u64>,
        match_tag: Option<u16>,
        match_request_id: Option<u64>,
        match_payload_kind: Option<u8>,
    },
    Ask { dest_reg: u8, target_cap: CapId, request: Value, timeout: Option<u64> },
    Monitor { dest_reg: u8, target_cap: CapId },
    Demonitor { monitor_reg: u8 },
    Link { dest_reg: u8, target_cap: CapId },
    Unlink { link_reg: u8 },
    SetTrapExit { enabled: bool },
    SetRestartPolicy { policy: u8 },
    HostAwait { dest_reg: u8, op: u32, args: Value },
    RegisterName { name: Arc<String> },
    Whereis { dest_reg: u8, name: Arc<String> },
    Delegate {
        dest_reg: u8,
        src_cap: CapId,
        want_rights: CapRights,
        want_native_cap: Option<CapId>,
    },
    CallHost { dest_reg: u8, native: u32, args: Seq<Value> },
    FloatOp { op: Opcode, dest_reg: u8, lhs: Value, rhs: Value },
    Trap(Fault),
}

impl View for VmResult {
    type V = Effect;

    open spec fn view(&self) -> Effect {
        match *self {
            VmResult::Complete(v) => Effect::Complete(v),
            VmResult::Yield => Effect::Yield,
            VmResult::Sleep(ms) => Effect::Sleep(ms),
            VmResult::Spawn { function, args, dest_reg, requested_rights } => Effect::Spawn {
                function,
                args: args@,
                dest_reg,
                requested_rights,
            },
            VmResult::SelfPid { dest_reg } => Effect::SelfPid { dest_reg },
            VmResult::Send { target_cap, message } => Effect::Send { target_cap, message },
            VmResult::Receive {
                dest_reg,
                timeout,
                match_tag,
                match_request_id,
                match_payload_kind,
            } => Effect::Receive {
                dest_reg,
                timeout,
                match_tag,
                match_request_id,
                match_payload_kind,
            },
            VmResult::Ask { dest_reg, target_cap, request, timeout } => Effect::Ask {
                dest_reg,
                target_cap,
                request,
                timeout,
            },
            VmResult::Monitor { dest_reg, target_cap } => Effect::Monitor { dest_reg, target_cap },
            VmResult::Demonitor { monitor_reg } => Effect::Demonitor { monitor_reg },
            VmResult::Link { dest_reg, target_cap } => Effect::Link { dest_reg, target_cap },
            VmResult::Unlink { link_reg } => Effect::Unlink { link_reg },
            VmResult::SetTrapExit { enabled } => Effect::SetTrapExit { enabled },
            VmResult::SetRestartPolicy { policy } => Effect::SetRestartPolicy { policy },
            VmResult::HostAwait { dest_reg, op, args } => Effect::HostAwait { dest_reg, op, args },
            VmResult::RegisterName { name } => Effect::RegisterName { name },
            VmResult::Whereis { dest_reg, name } => Effect::Whereis { dest_reg, name },
            VmResult::Delegate { dest_reg, src_cap, want_rights, want_native_cap } =>
                Effect::Delegate { dest_reg, src_cap, want_rights, want_native_cap },
            VmResult::CallHost { dest_reg, native, args } => Effect::CallHost {
                dest_reg,
                native,
                args: args@,
            },
            VmResult::FloatOp { op, dest_reg, lhs, rhs } => Effect::FloatOp {
                op,
                dest_reg,
                lhs,
                rhs,
            },
            VmResult::Trap(f) => Effect::Trap(f),
        }
    }
}

} // verus!
