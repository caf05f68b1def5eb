use blob_sidecar::bytes::{B256, Blob, Bytes48};
use blob_sidecar::error::{BlobTransactionValidationError, KzgError};
use blob_sidecar::hash::kzg_to_versioned_hash;
use blob_sidecar::item::{BlobTransactionSidecarItem, BlockNumHash};
use blob_sidecar::sidecar::BlobTransactionSidecar;
use blob_sidecar::{BYTES_PER_BLOB, BYTES_PER_COMMITMENT, BYTES_PER_PROOF};

fn blob_of(byte: u8) -> Blob {
    Blob {
        bytes: vec![byte; BYTES_PER_BLOB],
    }
}

fn b48_of(byte: u8) -> Bytes48 {
    Bytes48 {
        bytes: vec![byte; 48],
    }
}

fn sample_sidecar(n: u8) -> BlobTransactionSidecar {
    let mut blobs = Vec::new();
    let mut commitments = Vec::new();
    let mut proofs = Vec::new();
    for i in 0..n {
        blobs.push(blob_of(i));
        commitments.push(b48_of(0x10 + i));
        proofs.push(b48_of(0x20 + i));
    }
    BlobTransactionSidecar::new(blobs, commitments, proofs)
}

/// A (blob, commitment, proof) triple produced together by the KZG library,
/// so that its proof verifies.
fn valid_triple() -> (Blob, Bytes48, Bytes48) {
    valid_triple_from([0u8; BYTES_PER_BLOB])
}

/// A valid triple for a blob whose field elements are not all equal, so its
/// proof is not the identity point.
fn valid_triple_nonconstant() -> (Blob, Bytes48, Bytes48) {
    let mut raw = [0u8; BYTES_PER_BLOB];
    raw[31] = 7;
    raw[95] = 9;
    valid_triple_from(raw)
}

/// A valid triple for the given raw blob bytes.
fn valid_triple_from(raw: [u8; BYTES_PER_BLOB]) -> (Blob, Bytes48, Bytes48) {
    let settings = c_kzg::ethereum_kzg_settings(0);
    let raw_blob = c_kzg::Blob::new(raw);
    let commitment = settings.blob_to_kzg_commitment(&raw_blob).unwrap().to_bytes();
    let proof = settings
        .compute_blob_kzg_proof(&raw_blob, &commitment)
        .unwrap()
        .to_bytes();
    (
        Blob {
            bytes: raw_blob.as_ref().to_vec(),
        },
        Bytes48 {
            bytes: commitment.into_inner().to_vec(),
        },
        Bytes48 {
            bytes: proof.into_inner().to_vec(),
        },
    )
}

#[test]
fn versioned_hash_tag_and_digest() {
    let commitment = b48_of(0xab);
    let hash = kzg_to_versioned_hash(&commitment);
    assert_eq!(hash.bytes.len(), 32);
    assert_eq!(hash.bytes[0], 1);
    let mut expected: Vec<u8> =
        <sha2::Sha256 as sha2::Digest>::digest(commitment.bytes.as_slice()).to_vec();
    expected[0] = 1;
    assert_eq!(hash.bytes, expected);
}

#[test]
fn versioned_hash_deterministic() {
    let a = kzg_to_versioned_hash(&b48_of(7));
    let b = kzg_to_versioned_hash(&b48_of(7));
    assert_eq!(a, b);
    let c = kzg_to_versioned_hash(&b48_of(8));
    assert_ne!(a, c);
}

#[test]
fn encode_empty_sidecar() {
    let sc = sample_sidecar(0);
    let mut out = Vec::new();
    sc.encode(&mut out);
    assert_eq!(out, vec![0xc0u8, 0xc0, 0xc0]);
    assert_eq!(sc.fields_len(), 3);
}

#[test]
fn round_trip_empty() {
    let sc = sample_sidecar(0);
    let mut out = Vec::new();
    sc.encode(&mut out);
    let back = BlobTransactionSidecar::decode(&out).unwrap();
    assert_eq!(back, sc);
}

#[test]
fn round_trip_nonempty() {
    let sc = sample_sidecar(2);
    let mut out = Vec::new();
    sc.encode(&mut out);
    let back = BlobTransactionSidecar::decode(&out).unwrap();
    assert_eq!(back, sc);
}

#[test]
fn fields_len_matches_encoding() {
    for n in [0u8, 1, 2, 3] {
        let sc = sample_sidecar(n);
        let mut out = Vec::new();
        sc.encode(&mut out);
        assert_eq!(sc.fields_len(), out.len());
    }
}

#[test]
fn size_formula() {
    let sc = sample_sidecar(3);
    assert_eq!(
        sc.size(),
        3 * (BYTES_PER_BLOB + BYTES_PER_COMMITMENT + BYTES_PER_PROOF)
    );
    assert_eq!(sample_sidecar(0).size(), 0);
}

#[test]
fn decode_rejects_garbage() {
    assert!(BlobTransactionSidecar::decode(&vec![]).is_err());
    assert!(BlobTransactionSidecar::decode(&vec![0x01]).is_err());
    let sc = sample_sidecar(1);
    let mut out = Vec::new();
    sc.encode(&mut out);
    // truncated input
    out.pop();
    assert!(BlobTransactionSidecar::decode(&out).is_err());
}

#[test]
fn decode_rejects_trailing_bytes() {
    let sc = sample_sidecar(1);
    let mut out = Vec::new();
    sc.encode(&mut out);
    out.push(0);
    assert!(BlobTransactionSidecar::decode(&out).is_err());
}

#[test]
fn decode_allows_unequal_lengths() {
    // Empty blob list, one 48-byte commitment, empty proof list: the type
    // does not enforce equal lengths, so this decodes.
    let mut buf = vec![0xc0u8, 0xf1, 0xb0];
    buf.extend(vec![0u8; 48]);
    buf.push(0xc0);
    let sc = BlobTransactionSidecar::decode(&buf).unwrap();
    assert_eq!(sc.blobs.len(), 0);
    assert_eq!(sc.commitments.len(), 1);
    assert_eq!(sc.commitments[0].bytes, vec![0u8; 48]);
    assert_eq!(sc.proofs.len(), 0);
}

#[test]
fn decode_rejects_non_canonical_list_header() {
    // The same commitment list, but with a long-form list header carrying a
    // length that fits the short form: not canonical, must be rejected.
    let mut buf = vec![0xc0u8, 0xf8, 49, 0xb0];
    buf.extend(vec![0u8; 48]);
    buf.push(0xc0);
    assert!(BlobTransactionSidecar::decode(&buf).is_err());
}

#[test]
fn decode_rejects_wrong_element_size() {
    // A 47-byte string where a 48-byte commitment is required.
    let mut buf = vec![0xc0u8, 0xf0, 0xaf];
    buf.extend(vec![0u8; 47]);
    buf.push(0xc0);
    assert!(BlobTransactionSidecar::decode(&buf).is_err());
}

#[test]
fn encode_appends_after_existing_bytes() {
    let sc = sample_sidecar(0);
    let mut out = vec![0xffu8];
    sc.encode(&mut out);
    assert_eq!(out, vec![0xffu8, 0xc0, 0xc0, 0xc0]);
}

#[test]
fn versioned_hashes_per_commitment() {
    let sc = sample_sidecar(2);
    let hashes = sc.versioned_hashes();
    assert_eq!(hashes.len(), 2);
    assert_eq!(hashes[0], kzg_to_versioned_hash(&sc.commitments[0]));
    assert_eq!(hashes[1], kzg_to_versioned_hash(&sc.commitments[1]));
}

#[test]
fn versioned_hash_for_blob_bounds() {
    let sc = sample_sidecar(2);
    assert_eq!(
        sc.versioned_hash_for_blob(1),
        Some(kzg_to_versioned_hash(&sc.commitments[1]))
    );
    assert!(sc.versioned_hash_for_blob(2).is_none());
}

#[test]
fn iter_yields_indexed_items() {
    let sc = sample_sidecar(2);
    let items = sc.iter();
    assert_eq!(items.len(), 2);
    for (i, item) in items.iter().enumerate() {
        assert_eq!(item.index, i);
        assert_eq!(item.blob, sc.blobs[i]);
        assert_eq!(item.kzg_commitment, sc.commitments[i]);
        assert_eq!(item.kzg_proof, sc.proofs[i]);
    }
}

#[test]
fn iter_truncates_to_shortest() {
    let mut sc = sample_sidecar(2);
    sc.commitments.pop();
    let items = sc.iter();
    assert_eq!(items.len(), 1);
}

#[test]
fn validate_accepts_valid_triple() {
    let (blob, commitment, proof) = valid_triple();
    let sc = BlobTransactionSidecar::new(vec![blob], vec![commitment], vec![proof]);
    let hashes = sc.versioned_hashes();
    let settings = c_kzg::ethereum_kzg_settings(0);
    assert!(sc.validate(&hashes, settings).is_ok());
}

#[test]
fn verify_blob_kzg_proof_accepts_valid_triple() {
    let (blob, commitment, proof) = valid_triple();
    let item = BlobTransactionSidecarItem {
        index: 0,
        blob,
        kzg_commitment: commitment,
        kzg_proof: proof,
    };
    assert_eq!(item.verify_blob_kzg_proof().unwrap(), true);
}

#[test]
fn verify_blob_kzg_proof_reports_false_verdict() {
    // A well-formed proof that belongs to a different blob: the check
    // completes and the verdict comes back as Ok(false).
    let (blob, commitment, _) = valid_triple();
    let (_, _, other_proof) = valid_triple_nonconstant();
    let item = BlobTransactionSidecarItem {
        index: 0,
        blob,
        kzg_commitment: commitment,
        kzg_proof: other_proof,
    };
    assert_eq!(item.verify_blob_kzg_proof().unwrap(), false);
}

#[test]
fn verify_blob_collapses_false_verdict() {
    // The same wrong-but-well-formed proof through the caller-facing
    // wrapper: the false verdict collapses to InvalidProof.
    let (blob, commitment, _) = valid_triple();
    let (_, _, other_proof) = valid_triple_nonconstant();
    let computed = kzg_to_versioned_hash(&commitment);
    let item = BlobTransactionSidecarItem {
        index: 0,
        blob,
        kzg_commitment: commitment,
        kzg_proof: other_proof,
    };
    let anchor = BlockNumHash {
        number: 0,
        hash: computed,
    };
    let err = item.verify_blob(&anchor).unwrap_err();
    assert!(matches!(err, BlobTransactionValidationError::InvalidProof));
}

#[test]
fn verify_blob_kzg_proof_wraps_library_fault() {
    // 48 zero bytes are not a valid G1 encoding: the library faults and the
    // item-level check reports KZGError, not a verdict.
    let (blob, commitment, _) = valid_triple();
    let item = BlobTransactionSidecarItem {
        index: 0,
        blob,
        kzg_commitment: commitment,
        kzg_proof: b48_of(0),
    };
    let err = item.verify_blob_kzg_proof().unwrap_err();
    assert!(matches!(
        err,
        BlobTransactionValidationError::KZGError(KzgError::Library(_))
    ));
}

#[test]
fn validate_length_mismatch() {
    let sc = sample_sidecar(2);
    let hashes = vec![kzg_to_versioned_hash(&sc.commitments[0])];
    let settings = c_kzg::ethereum_kzg_settings(0);
    let err = sc.validate(&hashes, settings).unwrap_err();
    match err {
        BlobTransactionValidationError::KZGError(KzgError::MismatchLength {
            hashes: h,
            commitments: c,
        }) => {
            assert_eq!(h, 1);
            assert_eq!(c, 2);
        }
        other => panic!("expected MismatchLength, got {:?}", other),
    }
}

#[test]
fn validate_wrong_versioned_hash() {
    let (blob, commitment, proof) = valid_triple();
    let computed = kzg_to_versioned_hash(&commitment);
    let sc = BlobTransactionSidecar::new(vec![blob], vec![commitment], vec![proof]);
    let arbitrary = B256 {
        bytes: vec![0x42; 32],
    };
    let hashes = vec![B256 {
        bytes: arbitrary.bytes.clone(),
    }];
    let settings = c_kzg::ethereum_kzg_settings(0);
    let err = sc.validate(&hashes, settings).unwrap_err();
    match err {
        BlobTransactionValidationError::WrongVersionedHash { have, expected } => {
            assert_eq!(have, computed);
            assert_eq!(expected, arbitrary);
        }
        other => panic!("expected WrongVersionedHash, got {:?}", other),
    }
}

#[test]
fn validate_detects_mutated_commitment() {
    let (blob, commitment, proof) = valid_triple();
    let mut sc = BlobTransactionSidecar::new(vec![blob], vec![commitment], vec![proof]);
    let hashes = sc.versioned_hashes();
    sc.commitments[0].bytes[7] ^= 0x01;
    let settings = c_kzg::ethereum_kzg_settings(0);
    let err = sc.validate(&hashes, settings).unwrap_err();
    assert!(matches!(
        err,
        BlobTransactionValidationError::WrongVersionedHash { .. }
    ));
}

#[test]
fn validate_rejects_wrong_proof() {
    let (blob, commitment, _) = valid_triple();
    let wrong_proof = b48_of(0);
    let sc = BlobTransactionSidecar::new(vec![blob], vec![commitment], vec![wrong_proof]);
    let hashes = sc.versioned_hashes();
    let settings = c_kzg::ethereum_kzg_settings(0);
    let err = sc.validate(&hashes, settings).unwrap_err();
    match err {
        BlobTransactionValidationError::InvalidProof
        | BlobTransactionValidationError::KZGError(KzgError::Library(_)) => {}
        other => panic!("expected a proof failure, got {:?}", other),
    }
}

#[test]
fn verify_blob_index_mismatch() {
    let (blob, commitment, proof) = valid_triple();
    let blob_prefix = blob.bytes[0..32].to_vec();
    let item = BlobTransactionSidecarItem {
        index: 1,
        blob,
        kzg_commitment: commitment,
        kzg_proof: proof,
    };
    let anchor = BlockNumHash {
        number: 0,
        hash: B256 {
            bytes: vec![0x11; 32],
        },
    };
    let err = item.verify_blob(&anchor).unwrap_err();
    match err {
        BlobTransactionValidationError::WrongVersionedHash { have, expected } => {
            assert_eq!(have.bytes, blob_prefix);
            assert_eq!(expected.bytes, vec![0x11; 32]);
        }
        other => panic!("expected WrongVersionedHash, got {:?}", other),
    }
}

#[test]
fn verify_blob_hash_mismatch() {
    let (blob, commitment, proof) = valid_triple();
    let computed = kzg_to_versioned_hash(&commitment);
    let item = BlobTransactionSidecarItem {
        index: 0,
        blob,
        kzg_commitment: commitment,
        kzg_proof: proof,
    };
    let anchor = BlockNumHash {
        number: 0,
        hash: B256 {
            bytes: vec![0x33; 32],
        },
    };
    let err = item.verify_blob(&anchor).unwrap_err();
    match err {
        BlobTransactionValidationError::WrongVersionedHash { have, expected } => {
            assert_eq!(have, computed);
            assert_eq!(expected.bytes, vec![0x33; 32]);
        }
        other => panic!("expected WrongVersionedHash, got {:?}", other),
    }
}

#[test]
fn verify_blob_accepts_anchored_item() {
    let (blob, commitment, proof) = valid_triple();
    let computed = kzg_to_versioned_hash(&commitment);
    let item = BlobTransactionSidecarItem {
        index: 0,
        blob,
        kzg_commitment: commitment,
        kzg_proof: proof,
    };
    let anchor = BlockNumHash {
        number: 0,
        hash: computed,
    };
    assert!(item.verify_blob(&anchor).is_ok());
}

#[test]
fn verify_blob_collapses_proof_failure() {
    let (blob, commitment, _) = valid_triple();
    let computed = kzg_to_versioned_hash(&commitment);
    let item = BlobTransactionSidecarItem {
        index: 0,
        blob,
        kzg_commitment: commitment,
        kzg_proof: b48_of(0),
    };
    let anchor = BlockNumHash {
        number: 0,
        hash: computed,
    };
    let err = item.verify_blob(&anchor).unwrap_err();
    assert!(matches!(err, BlobTransactionValidationError::InvalidProof));
}

#[test]
fn item_versioned_hash_matches_transform() {
    let (_, commitment, _) = valid_triple();
    let item = BlobTransactionSidecarItem {
        index: 0,
        blob: blob_of(0),
        kzg_commitment: Bytes48 {
            bytes: commitment.bytes.clone(),
        },
        kzg_proof: b48_of(0),
    };
    assert_eq!(item.to_kzg_versioned_hash(), kzg_to_versioned_hash(&commitment));
}

#[test]
fn error_descriptions() {
    assert_eq!(
        BlobTransactionValidationError::InvalidProof.describe(),
        "invalid KZG proof"
    );
    assert_eq!(
        BlobTransactionValidationError::MissingSidecar.describe(),
        "blob transaction variant without sidecar being used for verification"
    );
}
