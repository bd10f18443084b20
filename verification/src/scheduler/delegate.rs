//! Delegation: what is tested before a capability is attenuated.

use vstd::prelude::*;

use crate::bytecode::cap::{
    attenuates, attenuation_never_escalates, cap_valid, mask_set, revocation_kills_derived, rights,
    rights_contain, rights_subset, Cap, CapRights, NativeMask, RevocationCell, RIGHT_NATIVE,
};
use crate::text::owned;

verus! {

/// Why a capability is not delegated.
#[derive(Debug, Clone, Copy, PartialEq, Eq, Structural)]
pub enum DelegateError {
    SourceRevoked,
    /// A native mask was given, but the source lacks the native right.
    SourceLacksNative,
}

/// The message of a delegation error.
pub open spec fn delegate_error_text(e: DelegateError) -> Seq<char> {
    match e {
        DelegateError::SourceRevoked => "delegate: source capability revoked"@,
        DelegateError::SourceLacksNative =>
            "delegate: cannot specify native-mask attenuation without NATIVE right"@,
    }
}

impl DelegateError {
    /// The message of this error.
    pub fn text(&self) -> (r: String)
        ensures
            r@ == delegate_error_text(*self),
    {
        match self {
            DelegateError::SourceRevoked => owned("delegate: source capability revoked"),
            DelegateError::SourceLacksNative => owned(
                "delegate: cannot specify native-mask attenuation without NATIVE right",
            ),
        }
    }
}

/// The native mask behind an optional reference.
pub open spec fn mask_value(m: Option<&NativeMask>) -> Option<NativeMask> {
    match m {
        Some(m) => Some(*m),
        None => None,
    }
}

/// Why a delegation is refused, if it is.
pub open spec fn delegate_refusal(
    src: Cap,
    cell: RevocationCell,
    want_native: Option<NativeMask>,
) -> Option<DelegateError> {
    if !cap_valid(src, cell) {
        Some(DelegateError::SourceRevoked)
    } else if want_native is Some && !rights_contain(src.rights, rights(RIGHT_NATIVE)) {
        Some(DelegateError::SourceLacksNative)
    } else {
        None
    }
}

/// Attenuate a live capability. A native mask may only be given by a holder
/// of the native right.
pub fn exec_delegate(
    src: &Cap,
    src_cell: &RevocationCell,
    want_rights: CapRights,
    want_native: Option<&NativeMask>,
) -> (r: Result<Cap, DelegateError>)
    ensures
        match delegate_refusal(*src, *src_cell, mask_value(want_native)) {
            Some(e) => r == Err::<Cap, DelegateError>(e),
            None => r matches Ok(c) && attenuates(*src, want_rights, mask_value(want_native), c),
        },
{
    if !src.is_valid(src_cell) {
        return Err(DelegateError::SourceRevoked);
    }
    if want_native.is_some() && !src.rights.contains(CapRights::native()) {
        return Err(DelegateError::SourceLacksNative);
    }
    Ok(src.attenuate(want_rights, want_native))
}

/// A delegated capability never has a right or a native index that its
/// source lacks, and dies with its source.
pub proof fn delegation_never_escalates(
    src: Cap,
    cell: RevocationCell,
    want_rights: CapRights,
    want_native: Option<NativeMask>,
    result: Cap,
    bumped: RevocationCell,
)
    requires
        delegate_refusal(src, cell, want_native) is None,
        attenuates(src, want_rights, want_native, result),
        bumped.count == cell.count.wrapping_add(1),
    ensures
        rights_subset(result.rights, src.rights),
        mask_set(result.native_mask).subset_of(mask_set(src.native_mask)),
        result.target == src.target,
        cap_valid(result, cell),
        !cap_valid(result, bumped),
        delegate_refusal(src, bumped, want_native) == Some(DelegateError::SourceRevoked),
{
    attenuation_never_escalates(src, want_rights, want_native, result);
    revocation_kills_derived(src, want_rights, want_native, result, cell, bumped);
}

} // verus!
