//! The blob transaction sidecar: three parallel sequences of blobs,
//! commitments and proofs, with their wire codec and validation.

use vstd::prelude::*;
use crate::{BYTES_PER_BLOB, BYTES_PER_COMMITMENT, BYTES_PER_PROOF};
use crate::bytes::{Blob, Bytes48, B256, bytes_eq, clone_bytes};
use crate::error::{BlobTransactionValidationError, KzgError};
use crate::hash::{kzg_to_versioned_hash, versioned_hash_bytes};
use crate::item::BlobTransactionSidecarItem;
use crate::kzg::{kzg_batch_of, kzg_verify_blob_proof_batch};
use crate::rlp::{
    dec_list, enc_items, enc_list, lemma_dec_list_of_enc, lemma_enc_items_len_uniform,
    lemma_enc_items_push, lemma_enc_of_dec_list, list_header_len, parse_list, str_header_vec,
    write_list_header, encode_bytes, RlpError,
};

verus! {

/// A set of blobs with their corresponding commitments and proofs.
///
/// The wire form encodes and decodes the three sequences in this order,
/// without an enclosing header.
#[derive(Debug, Default, PartialEq, Eq, Hash)]
pub struct BlobTransactionSidecar {
    /// The blob data.
    pub blobs: Vec<Blob>,
    /// The blob commitments.
    pub commitments: Vec<Bytes48>,
    /// The blob proofs.
    pub proofs: Vec<Bytes48>,
}

impl BlobTransactionSidecar {
    /// The blob contents, as sequences of bytes.
    pub open spec fn blobs_view(&self) -> Seq<Seq<u8>> {
        self.blobs@.map_values(|b: Blob| b@)
    }

    /// The commitment contents, as sequences of bytes.
    pub open spec fn commitments_view(&self) -> Seq<Seq<u8>> {
        self.commitments@.map_values(|c: Bytes48| c@)
    }

    /// The proof contents, as sequences of bytes.
    pub open spec fn proofs_view(&self) -> Seq<Seq<u8>> {
        self.proofs@.map_values(|p: Bytes48| p@)
    }

    /// Every element holds its fixed number of bytes.
    pub open spec fn wf_elems(&self) -> bool {
        &&& forall|i: int| 0 <= i < self.blobs@.len() ==> (#[trigger] self.blobs@[i]).wf()
        &&& forall|i: int|
            0 <= i < self.commitments@.len() ==> (#[trigger] self.commitments@[i]).wf()
        &&& forall|i: int| 0 <= i < self.proofs@.len() ==> (#[trigger] self.proofs@[i]).wf()
    }

    /// The wire encoding: the three lists, back to back.
    pub open spec fn spec_encoding(&self) -> Seq<u8> {
        enc_list(self.blobs_view()) + enc_list(self.commitments_view()) + enc_list(
            self.proofs_view(),
        )
    }

    /// The structural size estimate, in bytes.
    pub open spec fn spec_size(&self) -> int {
        self.blobs@.len() * (BYTES_PER_BLOB as int) + self.commitments@.len() * (
        BYTES_PER_COMMITMENT as int) + self.proofs@.len() * (BYTES_PER_PROOF as int)
    }

    /// Constructs a new sidecar from a set of blobs, commitments, and proofs.
    pub fn new(blobs: Vec<Blob>, commitments: Vec<Bytes48>, proofs: Vec<Bytes48>) -> (r: Self)
        ensures
            r.blobs@ == blobs@,
            r.commitments@ == commitments@,
            r.proofs@ == proofs@,
    {
        BlobTransactionSidecar { blobs, commitments, proofs }
    }

    /// Appends the wire encoding of the sidecar: the blob list, the
    /// commitment list, then the proof list, with no enclosing header.
    pub fn encode(&self, out: &mut Vec<u8>)
        requires
            self.wf_elems(),
        ensures
            final(out)@ == old(out)@ + self.spec_encoding(),
    {
        encode_blob_list(out, &self.blobs);
        encode_b48_list(out, &self.commitments);
        encode_b48_list(out, &self.proofs);
        assert(out@ =~= old(out)@ + self.spec_encoding());
    }

    /// The exact byte length of the wire encoding, without encoding.
    pub fn fields_len(&self) -> (r: usize)
        requires
            self.wf_elems(),
            self.spec_encoding().len() <= usize::MAX,
        ensures
            r as nat == self.spec_encoding().len(),
    {
        proof {
            lemma_enc_items_len_uniform(self.blobs_view(), BYTES_PER_BLOB as nat);
            lemma_enc_items_len_uniform(self.commitments_view(), BYTES_PER_COMMITMENT as nat);
            lemma_enc_items_len_uniform(self.proofs_view(), BYTES_PER_PROOF as nat);
        }
        let hb = str_header_vec(BYTES_PER_BLOB);
        let hc = str_header_vec(BYTES_PER_COMMITMENT);
        let step_b: usize = hb.len() + BYTES_PER_BLOB;
        let step_c: usize = hc.len() + BYTES_PER_COMMITMENT;
        let p1: usize = self.blobs.len() * step_b;
        let l1: usize = list_header_len(p1) + p1;
        let p2: usize = self.commitments.len() * step_c;
        let l2: usize = list_header_len(p2) + p2;
        let p3: usize = self.proofs.len() * step_c;
        let l3: usize = list_header_len(p3) + p3;
        l1 + l2 + l3
    }

    /// The structural in-memory size estimate: each sequence's length times
    /// its element size.
    pub fn size(&self) -> (r: usize)
        requires
            self.spec_size() <= usize::MAX,
        ensures
            r == self.spec_size(),
    {
        self.blobs.len() * BYTES_PER_BLOB + self.commitments.len() * BYTES_PER_COMMITMENT
            + self.proofs.len() * BYTES_PER_PROOF
    }
}

impl BlobTransactionSidecar {
    /// Decodes a buffer that holds exactly the three lists, in order:
    /// the blob list, the commitment list, then the proof list.
    pub open spec fn spec_decode(buf: Seq<u8>) -> Option<
        (Seq<Seq<u8>>, Seq<Seq<u8>>, Seq<Seq<u8>>),
    > {
        match dec_list(buf, BYTES_PER_BLOB as nat) {
            None => None,
            Some((bs, c1)) => match dec_list(buf.skip(c1 as int), BYTES_PER_COMMITMENT as nat) {
                None => None,
                Some((cs, c2)) => match dec_list(
                    buf.skip((c1 + c2) as int),
                    BYTES_PER_PROOF as nat,
                ) {
                    None => None,
                    Some((ps, c3)) => if c1 + c2 + c3 == buf.len() {
                        Some((bs, cs, ps))
                    } else {
                        None
                    },
                },
            },
        }
    }

    /// Decodes a sidecar from its wire form. The buffer must hold exactly
    /// one encoded sidecar: the caller supplies the boundary. On success the
    /// buffer is exactly the encoding of the result.
    pub fn decode(buf: &Vec<u8>) -> (r: Result<Self, RlpError>)
        ensures
            match r {
                Ok(sc) => {
                    &&& Self::spec_decode(buf@) == Some(
                        (sc.blobs_view(), sc.commitments_view(), sc.proofs_view()),
                    )
                    &&& buf@ == sc.spec_encoding()
                    &&& sc.wf_elems()
                },
                Err(_) => Self::spec_decode(buf@) is None,
            },
    {
        proof {
            assert(buf@.skip(0) =~= buf@);
        }
        let (raw_blobs, c1) = match parse_list(buf, 0, BYTES_PER_BLOB) {
            Ok(p) => p,
            Err(e) => {
                return Err(e);
            },
        };
        let (raw_comms, c2) = match parse_list(buf, c1, BYTES_PER_COMMITMENT) {
            Ok(p) => p,
            Err(e) => {
                return Err(e);
            },
        };
        proof {
            assert(c1 + c2 <= buf@.len());
            assert(buf@.len() == buf.len());
        }
        let (raw_proofs, c3) = match parse_list(buf, c1 + c2, BYTES_PER_PROOF) {
            Ok(p) => p,
            Err(e) => {
                return Err(e);
            },
        };
        proof {
            assert(c1 + c2 + c3 <= buf@.len());
        }
        if c1 + c2 + c3 != buf.len() {
            return Err(RlpError::Invalid);
        }
        let blobs = wrap_blobs(raw_blobs);
        let commitments = wrap_b48s(raw_comms);
        let proofs = wrap_b48s(raw_proofs);
        let sc = BlobTransactionSidecar { blobs, commitments, proofs };
        proof {
            lemma_encode_of_decode(buf@);
        }
        Ok(sc)
    }

    /// How many items [`Self::iter`] yields: the three sequences zipped,
    /// truncated to the shortest.
    pub open spec fn items_len(&self) -> nat {
        let n1 = self.blobs@.len();
        let n2 = self.commitments@.len();
        let n3 = self.proofs@.len();
        if n1 <= n2 && n1 <= n3 {
            n1
        } else if n2 <= n3 {
            n2
        } else {
            n3
        }
    }

    /// The sidecar's entries, one per position, zipping the three sequences
    /// with a 0-based counter and truncating to the shortest.
    pub fn iter(&self) -> (r: Vec<BlobTransactionSidecarItem>)
        ensures
            r@.len() == self.items_len(),
            forall|i: int|
                0 <= i < r@.len() ==> {
                    &&& (#[trigger] r@[i]).index == i
                    &&& r@[i].blob@ == self.blobs@[i]@
                    &&& r@[i].kzg_commitment@ == self.commitments@[i]@
                    &&& r@[i].kzg_proof@ == self.proofs@[i]@
                },
    {
        let mut n: usize = self.blobs.len();
        if self.commitments.len() < n {
            n = self.commitments.len();
        }
        if self.proofs.len() < n {
            n = self.proofs.len();
        }
        let mut r: Vec<BlobTransactionSidecarItem> = Vec::new();
        let mut i: usize = 0;
        while i < n
            invariant
                i <= n,
                n == self.items_len(),
                n <= self.blobs@.len(),
                n <= self.commitments@.len(),
                n <= self.proofs@.len(),
                r@.len() == i,
                forall|k: int|
                    0 <= k < i ==> {
                        &&& (#[trigger] r@[k]).index == k
                        &&& r@[k].blob@ == self.blobs@[k]@
                        &&& r@[k].kzg_commitment@ == self.commitments@[k]@
                        &&& r@[k].kzg_proof@ == self.proofs@[k]@
                    },
            decreases n - i,
        {
            r.push(BlobTransactionSidecarItem {
                index: i,
                blob: self.blobs[i].clone(),
                kzg_commitment: self.commitments[i].clone(),
                kzg_proof: self.proofs[i].clone(),
            });
            i = i + 1;
        }
        r
    }

    /// The versioned hashes of all commitments, in order.
    pub fn versioned_hashes(&self) -> (r: Vec<B256>)
        ensures
            r@.len() == self.commitments@.len(),
            forall|i: int|
                0 <= i < r@.len() ==> (#[trigger] r@[i])@ == versioned_hash_bytes(
                    self.commitments@[i]@,
                ),
    {
        let mut r: Vec<B256> = Vec::new();
        let mut i: usize = 0;
        while i < self.commitments.len()
            invariant
                i <= self.commitments@.len(),
                r@.len() == i,
                forall|k: int|
                    0 <= k < i ==> (#[trigger] r@[k])@ == versioned_hash_bytes(
                        self.commitments@[k]@,
                    ),
            decreases self.commitments@.len() - i,
        {
            r.push(kzg_to_versioned_hash(&self.commitments[i]));
            i = i + 1;
        }
        r
    }

    /// The versioned hash for the blob at the given index, if it exists.
    pub fn versioned_hash_for_blob(&self, blob_index: usize) -> (r: Option<B256>)
        ensures
            blob_index < self.commitments@.len() <==> r is Some,
            r matches Some(h) ==> h@ == versioned_hash_bytes(self.commitments@[blob_index as int]@),
    {
        if blob_index < self.commitments.len() {
            Some(kzg_to_versioned_hash(&self.commitments[blob_index]))
        } else {
            None
        }
    }

    /// Validates the sidecar against the expected versioned hashes and the
    /// given trusted setup: the hash count must match the commitment count,
    /// every versioned hash must match the one recomputed from its
    /// commitment (checked in order, failing fast), and the whole batch of
    /// proofs must verify cryptographically.
    pub fn validate(
        &self,
        blob_versioned_hashes: &Vec<B256>,
        proof_settings: &c_kzg::KzgSettings,
    ) -> (r: Result<(), BlobTransactionValidationError>)
        ensures
            ({
                let hs = blob_versioned_hashes@.map_values(|h: B256| h@);
                let cs = self.commitments_view();
                &&& (hs.len() != cs.len()) <==> r == Err::<(), BlobTransactionValidationError>(
                    BlobTransactionValidationError::KZGError(
                        (KzgError::MismatchLength {
                            hashes: blob_versioned_hashes.len(),
                            commitments: self.commitments.len(),
                        }),
                    ),
                )
                &&& forall|k: int|
                    #![trigger hs[k]]
                    (hs.len() == cs.len() && 0 <= k < cs.len() && hs[k] != versioned_hash_bytes(
                        cs[k],
                    ) && (forall|j: int|
                        0 <= j < k ==> hs[j] == versioned_hash_bytes(cs[j]))) ==> (r matches Err(
                        BlobTransactionValidationError::WrongVersionedHash { have, expected },
                    ) && have@ == versioned_hash_bytes(cs[k]) && expected@ == hs[k])
                &&& (hs.len() == cs.len() && (forall|k: int|
                    0 <= k < cs.len() ==> hs[k] == versioned_hash_bytes(cs[k]))) ==> {
                    let verdict = kzg_batch_of(
                        *proof_settings,
                        self.blobs_view(),
                        cs,
                        self.proofs_view(),
                    );
                    &&& (r is Ok <==> verdict == Some(true))
                    &&& (r == Err::<(), BlobTransactionValidationError>(
                        BlobTransactionValidationError::InvalidProof,
                    ) <==> verdict == Some(false))
                    &&& ((r matches Err(
                        BlobTransactionValidationError::KZGError(KzgError::Library(_)),
                    )) <==> verdict is None)
                }
                &&& r is Ok ==> (hs.len() == cs.len() && (forall|k: int|
                    0 <= k < cs.len() ==> hs[k] == versioned_hash_bytes(cs[k])))
            }),
    {
        if blob_versioned_hashes.len() != self.commitments.len() {
            return Err(BlobTransactionValidationError::KZGError(
                KzgError::MismatchLength {
                    hashes: blob_versioned_hashes.len(),
                    commitments: self.commitments.len(),
                },
            ));
        }
        let ghost hs = blob_versioned_hashes@.map_values(|h: B256| h@);
        let ghost cs = self.commitments_view();
        let mut i: usize = 0;
        while i < self.commitments.len()
            invariant
                i <= self.commitments@.len(),
                blob_versioned_hashes@.len() == self.commitments@.len(),
                hs == blob_versioned_hashes@.map_values(|h: B256| h@),
                cs == self.commitments_view(),
                forall|j: int| 0 <= j < i ==> hs[j] == versioned_hash_bytes(cs[j]),
            decreases self.commitments@.len() - i,
        {
            let computed = kzg_to_versioned_hash(&self.commitments[i]);
            if !bytes_eq(&computed.bytes, &blob_versioned_hashes[i].bytes) {
                proof {
                    assert(computed@ == versioned_hash_bytes(cs[i as int]));
                    assert(hs[i as int] == blob_versioned_hashes@[i as int]@);
                    assert(hs[i as int] != versioned_hash_bytes(cs[i as int]));
                    assert forall|k: int|
                        0 <= k < cs.len() && hs[k] != versioned_hash_bytes(cs[k]) && (forall|
                            j: int,
                        |
                            0 <= j < k ==> hs[j] == versioned_hash_bytes(
                                cs[j],
                            )) implies k == i as int by {
                        if k > i as int {
                            assert(hs[i as int] == versioned_hash_bytes(cs[i as int]));
                        }
                    };
                }
                return Err(BlobTransactionValidationError::WrongVersionedHash {
                    have: computed,
                    expected: blob_versioned_hashes[i].clone(),
                });
            }
            i = i + 1;
        }
        let outcome = kzg_verify_blob_proof_batch(
            &self.blobs,
            &self.commitments,
            &self.proofs,
            proof_settings,
        );
        match outcome {
            Ok(true) => Ok(()),
            Ok(false) => Err(BlobTransactionValidationError::InvalidProof),
            Err(diag) => Err(
                BlobTransactionValidationError::KZGError(KzgError::Library(diag)),
            ),
        }
    }
}

/// Decoding an encoded sidecar gives the sidecar back: the wire round trip
/// is the identity, for the empty sidecar included.
pub proof fn lemma_decode_of_encode(sc: BlobTransactionSidecar)
    requires
        sc.wf_elems(),
        sc.spec_encoding().len() <= u64::MAX,
    ensures
        BlobTransactionSidecar::spec_decode(sc.spec_encoding()) == Some(
            (sc.blobs_view(), sc.commitments_view(), sc.proofs_view()),
        ),
{
    let bv = sc.blobs_view();
    let cv = sc.commitments_view();
    let pv = sc.proofs_view();
    let e1 = enc_list(bv);
    let e2 = enc_list(cv);
    let e3 = enc_list(pv);
    let buf = sc.spec_encoding();
    lemma_dec_list_of_enc(bv, BYTES_PER_BLOB as nat, e2 + e3);
    assert(buf =~= e1 + (e2 + e3));
    assert(dec_list(buf, BYTES_PER_BLOB as nat) == Some((bv, e1.len() as nat)));
    lemma_dec_list_of_enc(cv, BYTES_PER_COMMITMENT as nat, e3);
    assert(buf.skip(e1.len() as int) =~= e2 + e3);
    assert(dec_list(buf.skip(e1.len() as int), BYTES_PER_COMMITMENT as nat) == Some(
        (cv, e2.len() as nat),
    ));
    lemma_dec_list_of_enc(pv, BYTES_PER_PROOF as nat, Seq::empty());
    assert(e3 + Seq::<u8>::empty() =~= e3);
    assert(buf.skip((e1.len() + e2.len()) as int) =~= e3);
    assert(dec_list(buf.skip((e1.len() + e2.len()) as int), BYTES_PER_PROOF as nat) == Some(
        (pv, e3.len() as nat),
    ));
    assert(e1.len() + e2.len() + e3.len() == buf.len());
}

/// Changing the commitment at one position — while the expected hashes
/// still match the untouched sidecar — leaves a versioned-hash mismatch
/// whose first position is exactly the changed one, so [`BlobTransactionSidecar::validate`]'s
/// contract pins the result to `WrongVersionedHash`. This needs the changed
/// commitment's re-tagged digest to differ from the original's: a pair of
/// commitments whose SHA-256 digests agree on every byte but the overwritten
/// tag byte would escape, and no practical input does.
pub proof fn lemma_mutated_commitment_detected(
    sc: BlobTransactionSidecar,
    sc2: BlobTransactionSidecar,
    hashes: Vec<B256>,
    settings: c_kzg::KzgSettings,
    k: int,
    r: Result<(), BlobTransactionValidationError>,
)
    requires
        sc2.commitments@.len() == sc.commitments@.len(),
        hashes@.len() == sc.commitments@.len(),
        forall|i: int|
            0 <= i < sc.commitments@.len() ==> (#[trigger] hashes@[i])@ == versioned_hash_bytes(
                sc.commitments_view()[i],
            ),
        0 <= k < sc.commitments@.len(),
        forall|i: int|
            0 <= i < sc.commitments@.len() && i != k ==> #[trigger] sc2.commitments_view()[i]
                == sc.commitments_view()[i],
        versioned_hash_bytes(sc2.commitments_view()[k]) != versioned_hash_bytes(
            sc.commitments_view()[k],
        ),
        call_ensures(BlobTransactionSidecar::validate, (&sc2, &hashes, &settings), r),
    ensures
        r matches Err(
            BlobTransactionValidationError::WrongVersionedHash { have, expected },
        ) && have@ == versioned_hash_bytes(sc2.commitments_view()[k]) && expected@
            == hashes@[k]@,
{
    let hs = hashes@.map_values(|h: B256| h@);
    let cs = sc2.commitments_view();
    assert(hs[k] == hashes@[k]@);
    assert(hs[k] != versioned_hash_bytes(cs[k]));
    assert(forall|j: int| 0 <= j < k ==> hs[j] == versioned_hash_bytes(cs[j]));
}

/// For a sidecar with `n` elements in each of the three sequences, the size
/// estimate is exactly `n * (BYTES_PER_BLOB + BYTES_PER_COMMITMENT + BYTES_PER_PROOF)`.
pub proof fn lemma_size_formula(sc: BlobTransactionSidecar)
    requires
        sc.blobs@.len() == sc.commitments@.len(),
        sc.commitments@.len() == sc.proofs@.len(),
    ensures
        sc.spec_size() == sc.blobs@.len() * ((BYTES_PER_BLOB + BYTES_PER_COMMITMENT
            + BYTES_PER_PROOF) as int),
{
    let n = sc.blobs@.len() as int;
    assert(n * ((BYTES_PER_BLOB + BYTES_PER_COMMITMENT + BYTES_PER_PROOF) as int) == n * (
    BYTES_PER_BLOB as int) + n * (BYTES_PER_COMMITMENT as int) + n * (BYTES_PER_PROOF as int))
        by (nonlinear_arith);
}

/// What decode accepts is exactly an encoding: re-encoding the decoded
/// triple gives the input buffer back, so the wire form is canonical.
pub proof fn lemma_encode_of_decode(buf: Seq<u8>)
    requires
        BlobTransactionSidecar::spec_decode(buf) is Some,
    ensures
        ({
            let (bs, cs, ps) = BlobTransactionSidecar::spec_decode(buf).unwrap();
            enc_list(bs) + enc_list(cs) + enc_list(ps) == buf
        }),
{
    let (bs, c1) = dec_list(buf, BYTES_PER_BLOB as nat).unwrap();
    let (cs, c2) = dec_list(buf.skip(c1 as int), BYTES_PER_COMMITMENT as nat).unwrap();
    let (ps, c3) = dec_list(buf.skip((c1 + c2) as int), BYTES_PER_PROOF as nat).unwrap();
    lemma_enc_of_dec_list(buf, BYTES_PER_BLOB as nat);
    lemma_enc_of_dec_list(buf.skip(c1 as int), BYTES_PER_COMMITMENT as nat);
    lemma_enc_of_dec_list(buf.skip((c1 + c2) as int), BYTES_PER_PROOF as nat);
    assert(enc_list(bs) + enc_list(cs) + enc_list(ps) =~= buf);
}

/// Wraps raw byte buffers of blob size as blobs.
fn wrap_blobs(raw: Vec<Vec<u8>>) -> (r: Vec<Blob>)
    requires
        forall|i: int| 0 <= i < raw@.len() ==> (#[trigger] raw@[i])@.len() == BYTES_PER_BLOB,
    ensures
        r@.map_values(|b: Blob| b@) == raw@.map_values(|v: Vec<u8>| v@),
        forall|i: int| 0 <= i < r@.len() ==> (#[trigger] r@[i]).wf(),
{
    let mut r: Vec<Blob> = Vec::new();
    let ghost views = raw@.map_values(|v: Vec<u8>| v@);
    let mut i: usize = 0;
    while i < raw.len()
        invariant
            i <= raw@.len(),
            views == raw@.map_values(|v: Vec<u8>| v@),
            forall|k: int| 0 <= k < raw@.len() ==> (#[trigger] raw@[k])@.len() == BYTES_PER_BLOB,
            r@.len() == i,
            forall|k: int| 0 <= k < i ==> (#[trigger] r@[k])@ == views[k],
            forall|k: int| 0 <= k < i ==> (#[trigger] r@[k]).wf(),
        decreases raw@.len() - i,
    {
        let bytes = clone_bytes(&raw[i]);
        r.push(Blob { bytes });
        i = i + 1;
    }
    proof {
        assert(r@.map_values(|b: Blob| b@) =~= views);
    }
    r
}

/// Wraps raw byte buffers of 48 bytes as commitments or proofs.
fn wrap_b48s(raw: Vec<Vec<u8>>) -> (r: Vec<Bytes48>)
    requires
        forall|i: int| 0 <= i < raw@.len() ==> (#[trigger] raw@[i])@.len() == BYTES_PER_COMMITMENT,
    ensures
        r@.map_values(|c: Bytes48| c@) == raw@.map_values(|v: Vec<u8>| v@),
        forall|i: int| 0 <= i < r@.len() ==> (#[trigger] r@[i]).wf(),
{
    let mut r: Vec<Bytes48> = Vec::new();
    let ghost views = raw@.map_values(|v: Vec<u8>| v@);
    let mut i: usize = 0;
    while i < raw.len()
        invariant
            i <= raw@.len(),
            views == raw@.map_values(|v: Vec<u8>| v@),
            forall|k: int|
                0 <= k < raw@.len() ==> (#[trigger] raw@[k])@.len() == BYTES_PER_COMMITMENT,
            r@.len() == i,
            forall|k: int| 0 <= k < i ==> (#[trigger] r@[k])@ == views[k],
            forall|k: int| 0 <= k < i ==> (#[trigger] r@[k]).wf(),
        decreases raw@.len() - i,
    {
        let bytes = clone_bytes(&raw[i]);
        r.push(Bytes48 { bytes });
        i = i + 1;
    }
    proof {
        assert(r@.map_values(|c: Bytes48| c@) =~= views);
    }
    r
}

/// Appends the encoded list of blobs.
fn encode_blob_list(out: &mut Vec<u8>, items: &Vec<Blob>)
    requires
        forall|i: int| 0 <= i < items@.len() ==> (#[trigger] items@[i]).wf(),
    ensures
        final(out)@ == old(out)@ + enc_list(items@.map_values(|b: Blob| b@)),
{
    let ghost views = items@.map_values(|b: Blob| b@);
    let mut payload: Vec<u8> = Vec::new();
    let mut i: usize = 0;
    while i < items.len()
        invariant
            i <= items@.len(),
            forall|k: int| 0 <= k < items@.len() ==> (#[trigger] items@[k]).wf(),
            views == items@.map_values(|b: Blob| b@),
            payload@ == enc_items(views.take(i as int)),
        decreases items@.len() - i,
    {
        proof {
            assert(views.take(i as int).push(views[i as int]) =~= views.take(i as int + 1));
            lemma_enc_items_push(views.take(i as int), views[i as int]);
        }
        encode_bytes(&mut payload, &items[i].bytes);
        i = i + 1;
    }
    proof {
        assert(views.take(items@.len() as int) =~= views);
    }
    write_list_header(out, payload.len());
    out.append(&mut payload);
    assert(out@ =~= old(out)@ + enc_list(views));
}

/// Appends the encoded list of 48-byte values.
fn encode_b48_list(out: &mut Vec<u8>, items: &Vec<Bytes48>)
    requires
        forall|i: int| 0 <= i < items@.len() ==> (#[trigger] items@[i]).wf(),
    ensures
        final(out)@ == old(out)@ + enc_list(items@.map_values(|c: Bytes48| c@)),
{
    let ghost views = items@.map_values(|c: Bytes48| c@);
    let mut payload: Vec<u8> = Vec::new();
    let mut i: usize = 0;
    while i < items.len()
        invariant
            i <= items@.len(),
            forall|k: int| 0 <= k < items@.len() ==> (#[trigger] items@[k]).wf(),
            views == items@.map_values(|c: Bytes48| c@),
            payload@ == enc_items(views.take(i as int)),
        decreases items@.len() - i,
    {
        proof {
            assert(views.take(i as int).push(views[i as int]) =~= views.take(i as int + 1));
            lemma_enc_items_push(views.take(i as int), views[i as int]);
        }
        encode_bytes(&mut payload, &items[i].bytes);
        i = i + 1;
    }
    proof {
        assert(views.take(items@.len() as int) =~= views);
    }
    write_list_header(out, payload.len());
    out.append(&mut payload);
    assert(out@ =~= old(out)@ + enc_list(views));
}

} // verus!
