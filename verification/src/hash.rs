//! The versioned-hash transform: a commitment's SHA-256 digest with the
//! protocol version tag written into byte 0.

use vstd::prelude::*;
use crate::VERSIONED_HASH_VERSION_KZG;
use crate::bytes::{B256, Bytes48};

verus! {

/// The SHA-256 digest of a byte sequence, as computed by the `sha2` crate.
pub uninterp spec fn sha256_of(data: Seq<u8>) -> Seq<u8>;

/// Relies on `sha2::Sha256::digest`: the SHA-256 digest of the input, a pure
/// function of the bytes alone, always 32 bytes long.
#[verifier::external_body]
fn sha256(data: &Vec<u8>) -> (r: Vec<u8>)
    ensures
        r@ == sha256_of(data@),
        r@.len() == 32,
{
    <sha2::Sha256 as sha2::Digest>::digest(data.as_slice()).to_vec()
}

/// The versioned hash of a commitment: its SHA-256 digest with byte 0
/// replaced by the version tag.
pub open spec fn versioned_hash_bytes(commitment: Seq<u8>) -> Seq<u8> {
    sha256_of(commitment).update(0, VERSIONED_HASH_VERSION_KZG)
}

/// Computes the versioned hash of a commitment: `SHA256(commitment)` with
/// byte 0 overwritten by [`VERSIONED_HASH_VERSION_KZG`].
pub fn kzg_to_versioned_hash(commitment: &Bytes48) -> (r: B256)
    ensures
        r@ == versioned_hash_bytes(commitment@),
        r.wf(),
        r@[0] == VERSIONED_HASH_VERSION_KZG,
{
    let mut hash = sha256(&commitment.bytes);
    hash[0] = VERSIONED_HASH_VERSION_KZG;
    B256 { bytes: hash }
}

} // verus!
