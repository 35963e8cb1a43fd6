//! The hashing primitive used to key proof targets.
//!
//! Raw addresses and storage slots are never used as target keys directly:
//! every key is the Keccak-256 digest of the raw bytes. The digest itself is
//! an opaque deterministic map from bytes to bytes; the library only relies
//! on it being a function of the input alone, 32 bytes long.

use vstd::prelude::*;

verus! {

/// The Keccak-256 digest of a byte string, as a function of the bytes alone.
pub uninterp spec fn keccak_of(data: Seq<u8>) -> Seq<u8>;

/// Relies on `alloy_primitives::keccak256`: a 32-byte digest computed from
/// the input bytes alone.
#[verifier::external_body]
pub(crate) fn keccak256_bytes(data: &[u8]) -> (r: Vec<u8>)
    ensures
        r@ == keccak_of(data@),
        r@.len() == 32,
{
    alloy_primitives::keccak256(data).to_vec()
}

} // verus!
