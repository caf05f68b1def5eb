//! The boundary to the KZG cryptography library: the proof-verification
//! calls, with their outcomes named so that callers' contracts can speak of
//! them.

use vstd::prelude::*;
use crate::bytes::{Blob, Bytes48};

verus! {

#[verifier::external_type_specification]
#[verifier::external_body]
/// The trusted-setup parameter set of the KZG cryptography library.
pub struct ExKzgSettings(c_kzg::KzgSettings);

/// The outcome of single-blob proof verification under the default Ethereum
/// mainnet trusted setup: `Some(verdict)` when the check completes, `None`
/// on a library fault (malformed values included). A pure function of the
/// three byte sequences: the setup is a process-wide constant and the check
/// is deterministic.
pub uninterp spec fn kzg_single_of(blob: Seq<u8>, commitment: Seq<u8>, proof: Seq<u8>) -> Option<
    bool,
>;

/// The outcome of batched proof verification under the given trusted setup:
/// `Some(verdict)` when the check completes, `None` on a library fault
/// (mismatched sequence lengths or malformed values included). A pure
/// function of the setup and the three sequences of byte sequences.
pub uninterp spec fn kzg_batch_of(
    settings: c_kzg::KzgSettings,
    blobs: Seq<Seq<u8>>,
    commitments: Seq<Seq<u8>>,
    proofs: Seq<Seq<u8>>,
) -> Option<bool>;

/// Relies on `c_kzg::ethereum_kzg_settings(0)` and
/// `c_kzg::KzgSettings::verify_blob_kzg_proof`: verifies one blob against
/// its commitment and proof under the default mainnet trusted setup. The
/// verdict and the fault cases are deterministic functions of the three
/// values, so the result is pinned to [`kzg_single_of`].
#[verifier::external_body]
pub(crate) fn kzg_verify_blob_proof(blob: &Blob, commitment: &Bytes48, proof: &Bytes48) -> (r:
    Result<bool, String>)
    ensures
        r matches Ok(b) ==> kzg_single_of(blob@, commitment@, proof@) == Some(b),
        r is Err <==> kzg_single_of(blob@, commitment@, proof@) is None,
{
    let conv = |e: c_kzg::Error| format!("{e:?}");
    let b = c_kzg::Blob::from_bytes(&blob.bytes).map_err(conv)?;
    let c = c_kzg::Bytes48::from_bytes(&commitment.bytes).map_err(conv)?;
    let p = c_kzg::Bytes48::from_bytes(&proof.bytes).map_err(conv)?;
    c_kzg::ethereum_kzg_settings(0).verify_blob_kzg_proof(&b, &c, &p).map_err(conv)
}

/// Relies on `c_kzg::KzgSettings::verify_blob_kzg_proof_batch`: verifies the
/// whole batch of blobs against their commitments and proofs in one call.
/// The verdict and the fault cases are deterministic functions of the setup
/// and the values, so the result is pinned to [`kzg_batch_of`].
#[verifier::external_body]
pub(crate) fn kzg_verify_blob_proof_batch(
    blobs: &Vec<Blob>,
    commitments: &Vec<Bytes48>,
    proofs: &Vec<Bytes48>,
    settings: &c_kzg::KzgSettings,
) -> (r: Result<bool, String>)
    ensures
        r matches Ok(b) ==> kzg_batch_of(
            *settings,
            blobs@.map_values(|x: Blob| x@),
            commitments@.map_values(|x: Bytes48| x@),
            proofs@.map_values(|x: Bytes48| x@),
        ) == Some(b),
        r is Err <==> kzg_batch_of(
            *settings,
            blobs@.map_values(|x: Blob| x@),
            commitments@.map_values(|x: Bytes48| x@),
            proofs@.map_values(|x: Bytes48| x@),
        ) is None,
{
    let conv = |e: c_kzg::Error| format!("{e:?}");
    let bs: Vec<c_kzg::Blob> = blobs.iter().map(|b| c_kzg::Blob::from_bytes(&b.bytes)).collect::<
        Result<_, _>,
    >().map_err(conv)?;
    let cs: Vec<c_kzg::Bytes48> = commitments.iter().map(
        |c| c_kzg::Bytes48::from_bytes(&c.bytes),
    ).collect::<Result<_, _>>().map_err(conv)?;
    let ps: Vec<c_kzg::Bytes48> = proofs.iter().map(
        |p| c_kzg::Bytes48::from_bytes(&p.bytes),
    ).collect::<Result<_, _>>().map_err(conv)?;
    settings.verify_blob_kzg_proof_batch(&bs, &cs, &ps).map_err(conv)
}

} // verus!
