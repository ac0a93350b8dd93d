//! What every decodable type offers.

use crate::encode::SszLayout;
use crate::error::{decoded_as, DecodeError, DecodeFault};
use vstd::prelude::*;

verus! {

/// A type that can be read back from its SSZ serialisation.
///
/// `spec_decode` says what a byte string denotes: a value, given by its
/// model, or the first failure met. A static type reads a prefix of the bytes
/// and ignores the rest; a dynamic type reads all of them.
pub trait SszDecode: Sized + SszLayout {
    /// What `bytes` denote.
    spec fn spec_decode(bytes: Seq<u8>) -> Result<Self::V, DecodeFault>;

    fn is_ssz_static() -> (r: bool)
        ensures
            r == Self::spec_is_static(),
    ;

    fn ssz_fixed_len() -> (r: usize)
        ensures
            r == Self::spec_fixed_len(),
    ;

    fn ssz_max_len() -> (r: usize)
        ensures
            r == Self::spec_max_len(),
    ;

    /// Reads one value in lockstep over a split message. A static type reads
    /// its bytes from the front of `fixed_bytes` and moves that cursor past
    /// them; a dynamic type reads all of `variable_bytes` and moves nothing.
    fn ssz_read(fixed_bytes: &mut &[u8], variable_bytes: &mut &[u8]) -> (r: Result<
        Self,
        DecodeError,
    >)
        ensures
            decoded_as(
                r,
                Self::spec_decode(
                    if Self::spec_is_static() {
                        old(fixed_bytes)@
                    } else {
                        old(variable_bytes)@
                    },
                ),
            ),
            r is Ok && Self::spec_is_static() ==> Self::spec_fixed_len() <= old(fixed_bytes)@.len()
                && final(fixed_bytes)@ == old(fixed_bytes)@.skip(Self::spec_fixed_len() as int),
            !Self::spec_is_static() ==> final(fixed_bytes)@ == old(fixed_bytes)@,
            final(variable_bytes)@ == old(variable_bytes)@,
            r matches Ok(v) ==> v.spec_valid(),
    ;

    /// Decodes a value that stands alone in `bytes`.
    fn from_ssz_bytes(bytes: &[u8]) -> (r: Result<Self, DecodeError>)
        ensures
            decoded_as(r, Self::spec_decode(bytes@)),
            r matches Ok(v) ==> v.spec_valid(),
    {
        let mid: usize = if Self::is_ssz_static() {
            bytes.len()
        } else {
            0
        };
        let parts = bytes.split_at(mid);
        let mut fixed_bytes: &[u8] = parts.0;
        let mut variable_bytes: &[u8] = parts.1;
        assert(bytes@.subrange(0, bytes@.len() as int) =~= bytes@);
        Self::ssz_read(&mut fixed_bytes, &mut variable_bytes)
    }
}

} // verus!
