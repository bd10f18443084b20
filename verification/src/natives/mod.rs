//! The standard natives.
//!
//! `CallNative` takes its arguments from consecutive registers and writes
//! the result over the first one.

use std::sync::Arc;

use vstd::prelude::*;

use crate::bytecode::value::Value;
use crate::natives::std_native::{
    MAKE_MSG, MSG_PAYLOAD, MSG_REPLY_CAP, MSG_REQUEST_ID, MSG_SENDER, MSG_TAG, NOW_MS, PRINT,
};
use crate::text::owned;
use crate::vm::fault::{Fault, NativeFailure};
use crate::vm::native::{slot_named, NativeFn, NativeTable};

pub mod std_native;

verus! {

/// Name and native of every standard slot. Printing and the clock belong to
/// the host, which knows them by their index.
pub open spec fn std_slots() -> Seq<Option<(Seq<char>, NativeFn)>> {
    seq![
        Some(("print"@, NativeFn::Host(PRINT))),
        Some(("now_ms"@, NativeFn::Host(NOW_MS))),
        Some(("make_msg"@, NativeFn::MakeMsg)),
        Some(("msg_sender"@, NativeFn::MsgSender)),
        Some(("msg_request_id"@, NativeFn::MsgRequestId)),
        Some(("msg_tag"@, NativeFn::MsgTag)),
        Some(("msg_payload"@, NativeFn::MsgPayload)),
        Some(("msg_reply_cap"@, NativeFn::MsgReplyCap)),
    ]
}

/// Names and indices behind a list of pairs.
pub open spec fn name_pairs(v: Seq<(String, u32)>) -> Seq<(Seq<char>, u32)> {
    v.map_values(|p: (String, u32)| (p.0@, p.1))
}

/// Name and index of every standard native.
pub open spec fn std_names() -> Seq<(Seq<char>, u32)> {
    seq![
        ("print"@, PRINT),
        ("now_ms"@, NOW_MS),
        ("make_msg"@, MAKE_MSG),
        ("msg_sender"@, MSG_SENDER),
        ("msg_request_id"@, MSG_REQUEST_ID),
        ("msg_tag"@, MSG_TAG),
        ("msg_payload"@, MSG_PAYLOAD),
        ("msg_reply_cap"@, MSG_REPLY_CAP),
    ]
}

/// The name list and the table agree: entry `i` has index `i` and names
/// slot `i`.
pub proof fn names_match_slots()
    ensures
        std_names().len() == std_slots().len(),
        forall|i: int|
            0 <= i < std_names().len() ==> (#[trigger] std_names()[i]).1 == i && slot_named(
                std_slots(),
                i,
                std_names()[i].0,
            ),
{
}

/// Name and index of every standard native.
pub fn std_native_map() -> (r: Vec<(String, u32)>)
    ensures
        name_pairs(r@) == std_names(),
{
    let mut v: Vec<(String, u32)> = Vec::new();
    v.push((owned("print"), PRINT));
    v.push((owned("now_ms"), NOW_MS));
    v.push((owned("make_msg"), MAKE_MSG));
    v.push((owned("msg_sender"), MSG_SENDER));
    v.push((owned("msg_request_id"), MSG_REQUEST_ID));
    v.push((owned("msg_tag"), MSG_TAG));
    v.push((owned("msg_payload"), MSG_PAYLOAD));
    v.push((owned("msg_reply_cap"), MSG_REPLY_CAP));
    assert(name_pairs(v@) =~= std_names());
    v
}

/// The standard table.
pub fn std_native_table() -> (r: Arc<NativeTable>)
    ensures
        r@ == std_slots(),
{
    let mut entries: Vec<Option<(String, NativeFn)>> = Vec::new();
    entries.push(Some((owned("print"), NativeFn::Host(PRINT))));
    entries.push(Some((owned("now_ms"), NativeFn::Host(NOW_MS))));
    entries.push(Some((owned("make_msg"), NativeFn::MakeMsg)));
    entries.push(Some((owned("msg_sender"), NativeFn::MsgSender)));
    entries.push(Some((owned("msg_request_id"), NativeFn::MsgRequestId)));
    entries.push(Some((owned("msg_tag"), NativeFn::MsgTag)));
    entries.push(Some((owned("msg_payload"), NativeFn::MsgPayload)));
    entries.push(Some((owned("msg_reply_cap"), NativeFn::MsgReplyCap)));
    let t = NativeTable { entries };
    assert(t@ =~= std_slots());
    Arc::new(t)
}

/// The standard table and its name list.
pub fn std_natives() -> (r: (Arc<NativeTable>, Vec<(String, u32)>))
    ensures
        r.0@ == std_slots(),
        name_pairs(r.1@) == std_names(),
{
    (std_native_table(), std_native_map())
}

/// The result of `now_ms` for a clock that shows `millis`.
pub fn clock_value(millis: u128) -> (r: Result<Value, Fault>)
    ensures
        r == (if millis <= i64::MAX {
            Ok::<Value, Fault>(Value::Int(millis as i64))
        } else {
            Err(Fault::NativeError(NativeFailure::ClockTooLarge))
        }),
{
    if millis <= i64::MAX as u128 {
        Ok(Value::Int(millis as i64))
    } else {
        Err(Fault::NativeError(NativeFailure::ClockTooLarge))
    }
}

} // verus!
