//! A single denormalized sidecar entry, with item-level verification
//! against an expected (position, hash) anchor.

use vstd::prelude::*;
use crate::VERSIONED_HASH_VERSION_KZG;
use crate::bytes::{Blob, Bytes48, B256, bytes_eq};
use crate::error::{BlobTransactionValidationError, KzgError};
use crate::hash::{kzg_to_versioned_hash, versioned_hash_bytes};
use crate::kzg::{kzg_single_of, kzg_verify_blob_proof};

verus! {

/// One blob with its commitment and proof, at its position in the sidecar.
#[derive(Debug, PartialEq, Eq, Hash)]
pub struct BlobTransactionSidecarItem {
    /// The position of this entry in the sidecar.
    pub index: usize,
    /// The blob data.
    pub blob: Blob,
    /// The KZG commitment.
    pub kzg_commitment: Bytes48,
    /// The KZG proof.
    pub kzg_proof: Bytes48,
}

/// The anchor an item is verified against: an expected position and the
/// versioned hash expected there.
#[derive(Debug, PartialEq, Eq, Hash)]
pub struct BlockNumHash {
    /// The expected position.
    pub number: u64,
    /// The expected versioned hash.
    pub hash: B256,
}

impl Clone for BlobTransactionSidecarItem {
    fn clone(&self) -> (r: Self)
        ensures
            r.index == self.index,
            r.blob@ == self.blob@,
            r.kzg_commitment@ == self.kzg_commitment@,
            r.kzg_proof@ == self.kzg_proof@,
    {
        BlobTransactionSidecarItem {
            index: self.index,
            blob: self.blob.clone(),
            kzg_commitment: self.kzg_commitment.clone(),
            kzg_proof: self.kzg_proof.clone(),
        }
    }
}

impl BlobTransactionSidecarItem {
    /// Every field holds its fixed number of bytes.
    pub open spec fn wf(&self) -> bool {
        &&& self.blob.wf()
        &&& self.kzg_commitment.wf()
        &&& self.kzg_proof.wf()
    }

    /// The versioned hash of this item's commitment:
    /// `VERSIONED_HASH_VERSION_KZG ++ sha256(commitment)[1..]`.
    pub fn to_kzg_versioned_hash(&self) -> (r: B256)
        ensures
            r@ == versioned_hash_bytes(self.kzg_commitment@),
            r.wf(),
            r@[0] == VERSIONED_HASH_VERSION_KZG,
    {
        kzg_to_versioned_hash(&self.kzg_commitment)
    }

    /// Verifies this item's KZG proof against the shared trusted setup and
    /// returns the verdict. A completed check that fails yields `Ok(false)`;
    /// only [`Self::verify_blob`] turns that into
    /// [`BlobTransactionValidationError::InvalidProof`]. A library fault is
    /// wrapped as [`BlobTransactionValidationError::KZGError`].
    pub fn verify_blob_kzg_proof(&self) -> (r: Result<bool, BlobTransactionValidationError>)
        ensures
            r matches Ok(b) ==> kzg_single_of(self.blob@, self.kzg_commitment@, self.kzg_proof@)
                == Some(b),
            r is Err <==> kzg_single_of(self.blob@, self.kzg_commitment@, self.kzg_proof@)
                is None,
            r is Err ==> (r matches Err(
                BlobTransactionValidationError::KZGError(KzgError::Library(_)),
            )),
    {
        let outcome = kzg_verify_blob_proof(&self.blob, &self.kzg_commitment, &self.kzg_proof);
        match outcome {
            Ok(verdict) => Ok(verdict),
            Err(diag) => Err(
                BlobTransactionValidationError::KZGError(KzgError::Library(diag)),
            ),
        }
    }

    /// Verifies this item against its anchor: the positions must agree, the
    /// recomputed versioned hash must match the anchor's, and the KZG proof
    /// must verify; any proof outcome other than success collapses to
    /// [`BlobTransactionValidationError::InvalidProof`].
    pub fn verify_blob(&self, hash: &BlockNumHash) -> (r: Result<
        (),
        BlobTransactionValidationError,
    >)
        requires
            self.wf(),
        ensures
            self.index as u64 != hash.number ==> (r matches Err(
                BlobTransactionValidationError::WrongVersionedHash { have, expected },
            ) && have@ == self.blob@.take(32) && expected@ == hash.hash@),
            self.index as u64 == hash.number && versioned_hash_bytes(self.kzg_commitment@)
                != hash.hash@ ==> (r matches Err(
                BlobTransactionValidationError::WrongVersionedHash { have, expected },
            ) && have@ == versioned_hash_bytes(self.kzg_commitment@) && expected@ == hash.hash@),
            self.index as u64 == hash.number && versioned_hash_bytes(self.kzg_commitment@)
                == hash.hash@ ==> {
                &&& (r is Ok <==> kzg_single_of(
                    self.blob@,
                    self.kzg_commitment@,
                    self.kzg_proof@,
                ) == Some(true))
                &&& (r is Err ==> r == Err::<(), BlobTransactionValidationError>(
                    BlobTransactionValidationError::InvalidProof,
                ))
            },
    {
        if self.index as u64 != hash.number {
            let mut have_bytes: Vec<u8> = Vec::new();
            let mut i: usize = 0;
            while i < 32
                invariant
                    i <= 32,
                    self.blob@.len() >= 32,
                    have_bytes@ == self.blob@.take(i as int),
                decreases 32 - i,
            {
                have_bytes.push(self.blob.bytes[i]);
                assert(have_bytes@ =~= self.blob@.take(i as int + 1));
                i = i + 1;
            }
            return Err(BlobTransactionValidationError::WrongVersionedHash {
                have: B256 { bytes: have_bytes },
                expected: hash.hash.clone(),
            });
        }
        let computed = self.to_kzg_versioned_hash();
        if !bytes_eq(&computed.bytes, &hash.hash.bytes) {
            return Err(BlobTransactionValidationError::WrongVersionedHash {
                have: computed,
                expected: hash.hash.clone(),
            });
        }
        match self.verify_blob_kzg_proof() {
            Ok(result) => if result {
                Ok(())
            } else {
                Err(BlobTransactionValidationError::InvalidProof)
            },
            Err(_) => Err(BlobTransactionValidationError::InvalidProof),
        }
    }
}

} // verus!
