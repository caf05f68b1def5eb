//! EIP-4844 blob transaction sidecars: versioned-hash derivation, a canonical
//! wire codec for the blob/commitment/proof sequences, and KZG proof
//! validation against a trusted setup.

use vstd::prelude::*;

pub mod bytes;
pub mod hash;
pub mod error;
pub mod item;
pub mod kzg;
pub mod rlp;
pub mod sidecar;

verus! {

/// Number of bytes in a single blob payload.
pub const BYTES_PER_BLOB: usize = 131072;

/// Number of bytes in a KZG commitment.
pub const BYTES_PER_COMMITMENT: usize = 48;

/// Number of bytes in a KZG proof.
pub const BYTES_PER_PROOF: usize = 48;

/// Version tag written into byte 0 of every versioned hash.
pub const VERSIONED_HASH_VERSION_KZG: u8 = 0x01;

} // verus!
