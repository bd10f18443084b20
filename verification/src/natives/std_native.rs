//! Indices of the standard natives. Modules embed them: append, never
//! renumber.

use vstd::prelude::*;

verus! {

pub const PRINT: u32 = 0;

pub const NOW_MS: u32 = 1;

pub const MAKE_MSG: u32 = 2;

pub const MSG_SENDER: u32 = 3;

pub const MSG_REQUEST_ID: u32 = 4;

pub const MSG_TAG: u32 = 5;

pub const MSG_PAYLOAD: u32 = 6;

pub const MSG_REPLY_CAP: u32 = 7;

} // verus!
