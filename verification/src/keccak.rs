//! Keccak-256, the hash under every trie key, block hash, and signed
//! message.  The digest itself comes from an outside implementation; its
//! value is only ever named, never restated.

use vstd::prelude::*;
use crate::words::B256;

verus! {

/// The Keccak-256 digest of a byte string.  The digest function is far too
/// large to restate; the name pins down only that it is a function of the
/// input bytes alone.
pub uninterp spec fn keccak_of(data: Seq<u8>) -> Seq<u8>;

/// Relies on `alloy_primitives::keccak256`: a 32-byte Keccak-256 digest of
/// the input, depending on the input bytes alone.
#[verifier::external_body]
pub fn keccak256(data: &[u8]) -> (r: B256)
    ensures
        r@ == keccak_of(data@),
        r@.len() == 32,
{
    B256 { bytes: alloy_primitives::keccak256(data).0 }
}

/// `keccak256` over an owned vector, for call sites that build the input.
pub fn keccak256_vec(data: &Vec<u8>) -> (r: B256)
    ensures
        r@ == keccak_of(data@),
        r@.len() == 32,
{
    keccak256(data.as_slice())
}

} // verus!
