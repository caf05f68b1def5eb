//! The closed set of sidecar validation failures.

use vstd::prelude::*;
use crate::bytes::B256;

verus! {

/// A failure reported by, or on the way into, the KZG cryptography library.
#[derive(Debug, PartialEq, Eq)]
pub enum KzgError {
    /// The caller supplied sequences of different lengths.
    MismatchLength {
        /// How many versioned hashes were supplied.
        hashes: usize,
        /// How many commitments the sidecar holds.
        commitments: usize,
    },
    /// A fault inside the cryptography library, with its diagnostic.
    Library(String),
}

/// An error that can occur when validating a blob transaction sidecar.
#[derive(Debug, PartialEq, Eq)]
pub enum BlobTransactionValidationError {
    /// Proof validation failed: the batch or item verified false.
    InvalidProof,
    /// An error reported by the KZG cryptography library.
    KZGError(KzgError),
    /// The inner transaction is not a blob transaction; carries its type tag.
    NotBlobTransaction(u8),
    /// A blob transaction variant without a sidecar was used for verification.
    MissingSidecar,
    /// A versioned hash did not match.
    WrongVersionedHash {
        /// The versioned hash this crate computed.
        have: B256,
        /// The versioned hash the caller expected.
        expected: B256,
    },
}

impl BlobTransactionValidationError {
    /// A short description of the failure.
    pub fn describe(&self) -> String {
        match self {
            Self::InvalidProof => "invalid KZG proof".to_string(),
            Self::KZGError(_) => "KZG error".to_string(),
            Self::NotBlobTransaction(_) => {
                "unable to verify proof for non blob transaction".to_string()
            },
            Self::MissingSidecar => {
                "blob transaction variant without sidecar being used for verification".to_string()
            },
            Self::WrongVersionedHash { .. } => "wrong versioned hash".to_string(),
        }
    }
}

} // verus!
