//! Keccak-256, through `tiny_keccak`.
use tiny_keccak::{Hasher, Keccak};
use vstd::prelude::*;

verus! {

/// The Keccak-256 digest of a byte string (the hash Solidity's `keccak256` computes).
/// Its value is a function of the input bytes alone.
pub uninterp spec fn keccak256(data: Seq<u8>) -> Seq<u8>;

/// Hashes `data` with `tiny_keccak`: `Keccak::v256()`, one `update(data)`, then
/// `finalize` into a 32-byte buffer. The contract claims only that the 32 bytes are
/// `keccak256` of the input; nothing is claimed about the hash beyond that it depends on
/// the input alone.
#[verifier::external_body]
pub(crate) fn keccak(data: &[u8]) -> (out: [u8; 32])
    ensures
        out@ == keccak256(data@),
{
    let mut hasher = Keccak::v256();
    hasher.update(data);
    let mut out = [0u8; 32];
    hasher.finalize(&mut out);
    out
}

} // verus!
