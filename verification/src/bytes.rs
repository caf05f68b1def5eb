//! Fixed-size byte values carried by a sidecar: blob payloads, KZG
//! commitments and proofs, and 32-byte versioned hashes.

use vstd::prelude::*;
use crate::{BYTES_PER_BLOB, BYTES_PER_COMMITMENT};

verus! {

/// One blob payload: an opaque byte buffer of exactly [`BYTES_PER_BLOB`] bytes.
#[derive(Debug, PartialEq, Eq, Hash)]
pub struct Blob {
    /// The raw blob bytes.
    pub bytes: Vec<u8>,
}

/// A 48-byte opaque cryptographic value: a KZG commitment or a KZG proof.
#[derive(Debug, PartialEq, Eq, Hash)]
pub struct Bytes48 {
    /// The raw bytes.
    pub bytes: Vec<u8>,
}

/// A 32-byte value, used for versioned hashes.
#[derive(Debug, PartialEq, Eq, Hash)]
pub struct B256 {
    /// The raw bytes.
    pub bytes: Vec<u8>,
}

impl View for Blob {
    type V = Seq<u8>;

    open spec fn view(&self) -> Seq<u8> {
        self.bytes@
    }
}

impl View for Bytes48 {
    type V = Seq<u8>;

    open spec fn view(&self) -> Seq<u8> {
        self.bytes@
    }
}

impl View for B256 {
    type V = Seq<u8>;

    open spec fn view(&self) -> Seq<u8> {
        self.bytes@
    }
}

impl Blob {
    /// A blob is well formed when it holds exactly [`BYTES_PER_BLOB`] bytes.
    pub open spec fn wf(&self) -> bool {
        self@.len() == BYTES_PER_BLOB
    }

    /// Wraps a buffer of exactly [`BYTES_PER_BLOB`] bytes as a blob.
    pub fn new(bytes: Vec<u8>) -> (r: Self)
        requires
            bytes@.len() == BYTES_PER_BLOB,
        ensures
            r@ == bytes@,
            r.wf(),
    {
        Blob { bytes }
    }
}

impl Bytes48 {
    /// A commitment or proof is well formed when it holds exactly 48 bytes.
    pub open spec fn wf(&self) -> bool {
        self@.len() == BYTES_PER_COMMITMENT
    }

    /// Wraps a buffer of exactly 48 bytes.
    pub fn new(bytes: Vec<u8>) -> (r: Self)
        requires
            bytes@.len() == BYTES_PER_COMMITMENT,
        ensures
            r@ == bytes@,
            r.wf(),
    {
        Bytes48 { bytes }
    }
}

impl B256 {
    /// A hash value is well formed when it holds exactly 32 bytes.
    pub open spec fn wf(&self) -> bool {
        self@.len() == 32
    }

    /// Wraps a buffer of exactly 32 bytes.
    pub fn new(bytes: Vec<u8>) -> (r: Self)
        requires
            bytes@.len() == 32,
        ensures
            r@ == bytes@,
            r.wf(),
    {
        B256 { bytes }
    }
}

impl Clone for Blob {
    fn clone(&self) -> (r: Self)
        ensures
            r@ == self@,
    {
        let bytes = clone_bytes(&self.bytes);
        Blob { bytes }
    }
}

impl Clone for Bytes48 {
    fn clone(&self) -> (r: Self)
        ensures
            r@ == self@,
    {
        let bytes = clone_bytes(&self.bytes);
        Bytes48 { bytes }
    }
}

impl Clone for B256 {
    fn clone(&self) -> (r: Self)
        ensures
            r@ == self@,
    {
        let bytes = clone_bytes(&self.bytes);
        B256 { bytes }
    }
}

/// Copies a byte buffer, element by element.
pub fn clone_bytes(v: &Vec<u8>) -> (r: Vec<u8>)
    ensures
        r@ == v@,
{
    let mut r: Vec<u8> = Vec::new();
    let mut i: usize = 0;
    while i < v.len()
        invariant
            i <= v@.len(),
            r@ == v@.take(i as int),
        decreases v@.len() - i,
    {
        r.push(v[i]);
        assert(r@ =~= v@.take(i as int + 1));
        i = i + 1;
    }
    assert(r@ =~= v@);
    r
}

/// Compares two byte buffers for equality, element by element.
pub fn bytes_eq(a: &Vec<u8>, b: &Vec<u8>) -> (r: bool)
    ensures
        r == (a@ == b@),
{
    if a.len() != b.len() {
        return false;
    }
    let mut i: usize = 0;
    while i < a.len()
        invariant
            a@.len() == b@.len(),
            i <= a@.len(),
            forall|j: int| 0 <= j < i ==> a@[j] == b@[j],
        decreases a@.len() - i,
    {
        if a[i] != b[i] {
            return false;
        }
        i = i + 1;
    }
    proof {
        assert(a@ =~= b@);
    }
    true
}

} // verus!
