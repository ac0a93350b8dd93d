//! Checking bytes against a type: the answer of the decoder, with every
//! failure folded into one.

use crate::decode::SszDecode;
use crate::encode::SszLayout;
use crate::error::{CheckError, DecodeFault};
use vstd::prelude::*;

verus! {

/// Whether a checking result is the one a decoding specification names.
pub open spec fn checked_as<T: SszLayout>(
    got: Result<T, CheckError>,
    want: Result<T::V, DecodeFault>,
) -> bool {
    match (got, want) {
        (Ok(v), Ok(m)) => v.spec_model() == m,
        (Err(_), Err(_)) => true,
        _ => false,
    }
}

/// A type whose bytes can be checked.
pub trait SszCheck: SszDecode {
    /// Checks one value in lockstep over a split message, as `ssz_read`
    /// reads it.
    fn ssz_check(fixed_bytes: &mut &[u8], variable_bytes: &mut &[u8]) -> (r: Result<
        Self,
        CheckError,
    >)
        ensures
            checked_as(
                r,
                Self::spec_decode(
                    if Self::spec_is_static() {
                        old(fixed_bytes)@
                    } else {
                        old(variable_bytes)@
                    },
                ),
            ),
    {
        match Self::ssz_read(fixed_bytes, variable_bytes) {
            Ok(v) => Ok(v),
            Err(_) => Err(CheckError::BytesInvalid),
        }
    }

    /// Checks a value that stands alone in `bytes`.
    fn check_ssz_bytes(bytes: &[u8]) -> (r: Result<Self, CheckError>)
        ensures
            checked_as(r, Self::spec_decode(bytes@)),
    {
        match Self::from_ssz_bytes(bytes) {
            Ok(v) => Ok(v),
            Err(_) => Err(CheckError::BytesInvalid),
        }
    }
}

impl<T: SszDecode> SszCheck for T {
}

} // verus!
