//! Restart policy of a supervised flow.

use vstd::prelude::*;

verus! {

/// Consulted when a supervised flow terminates.
#[derive(Clone, Copy, Debug, PartialEq, Eq, Structural)]
pub enum RestartPolicy {
    Always,
    OnFailure,
    Never,
}

/// Encoding of a policy as the `SetRestartPolicy` immediate.
pub open spec fn policy_byte(p: RestartPolicy) -> u8 {
    match p {
        RestartPolicy::Always => 0,
        RestartPolicy::OnFailure => 1,
        RestartPolicy::Never => 2,
    }
}

/// Decoding of a `SetRestartPolicy` immediate.
pub open spec fn policy_of(byte: u8) -> Option<RestartPolicy> {
    match byte {
        0 => Some(RestartPolicy::Always),
        1 => Some(RestartPolicy::OnFailure),
        2 => Some(RestartPolicy::Never),
        _ => None,
    }
}

/// Encoding then decoding gives the policy back, and nothing else decodes.
pub proof fn policy_round_trip(p: RestartPolicy, byte: u8)
    ensures
        policy_of(policy_byte(p)) == Some(p),
        policy_of(byte) is Some <==> byte <= 2,
        policy_of(byte) matches Some(q) ==> policy_byte(q) == byte,
{
}

impl RestartPolicy {
    /// Encode as the `SetRestartPolicy` immediate.
    pub fn as_u8(self) -> (r: u8)
        ensures
            r == policy_byte(self),
    {
        match self {
            RestartPolicy::Always => 0,
            RestartPolicy::OnFailure => 1,
            RestartPolicy::Never => 2,
        }
    }

    /// Decode a `SetRestartPolicy` immediate.
    pub fn from_u8(byte: u8) -> (r: Option<RestartPolicy>)
        ensures
            r == policy_of(byte),
    {
        match byte {
            0 => Some(RestartPolicy::Always),
            1 => Some(RestartPolicy::OnFailure),
            2 => Some(RestartPolicy::Never),
            _ => None,
        }
    }
}

} // verus!
