//! Blob values: raw bytes, and the read payload that may carry a creation
//! timestamp (`ctime`) which must be stripped before a normal read returns.

use vstd::prelude::*;

verus! {

/// An opaque byte blob.
#[derive(Debug)]
pub struct BlobstoreBytes {
    bytes: Vec<u8>,
}

impl View for BlobstoreBytes {
    type V = Seq<u8>;

    closed spec fn view(&self) -> Seq<u8> {
        self.bytes@
    }
}

impl BlobstoreBytes {
    pub fn from_vec(bytes: Vec<u8>) -> (blob: BlobstoreBytes)
        ensures
            blob@ == bytes@,
    {
        BlobstoreBytes { bytes }
    }

    pub fn len(&self) -> (n: usize)
        ensures
            n == self@.len(),
    {
        self.bytes.len()
    }

    pub fn as_vec(&self) -> (bytes: &Vec<u8>)
        ensures
            bytes@ == self@,
    {
        &self.bytes
    }

    pub fn into_vec(self) -> (bytes: Vec<u8>)
        ensures
            bytes@ == self@,
    {
        self.bytes
    }

    pub fn duplicate(&self) -> (blob: BlobstoreBytes)
        ensures
            blob@ == self@,
    {
        BlobstoreBytes { bytes: self.bytes.clone() }
    }
}

/// Decides whether two blobs hold byte-identical content.
pub fn bytes_equal(a: &BlobstoreBytes, b: &BlobstoreBytes) -> (eq: bool)
    ensures
        eq == (a@ == b@),
{
    if a.len() != b.len() {
        return false;
    }
    let av = a.as_vec();
    let bv = b.as_vec();
    let n = av.len();
    let mut i: usize = 0;
    while i < n
        invariant
            n == av@.len() == bv@.len(),
            av@ == a@,
            bv@ == b@,
            i <= n,
            forall|j: int| 0 <= j < i ==> av@[j] == bv@[j],
        decreases n - i,
    {
        if av[i] != bv[i] {
            return false;
        }
        i = i + 1;
    }
    assert(a@ =~= b@);
    true
}

/// The payload of a backend read: bytes plus optional metadata, of which the
/// creation timestamp matters to the multiplexer.
#[derive(Debug)]
pub struct BlobstoreGetData {
    pub bytes: BlobstoreBytes,
    pub ctime: Option<i64>,
}

impl BlobstoreGetData {
    pub fn new(bytes: BlobstoreBytes, ctime: Option<i64>) -> (data: BlobstoreGetData)
        ensures
            data.bytes@ == bytes@,
            data.ctime == ctime,
    {
        BlobstoreGetData { bytes, ctime }
    }

    pub fn as_bytes(&self) -> (bytes: &BlobstoreBytes)
        ensures
            bytes@ == self.bytes@,
    {
        &self.bytes
    }

    pub fn into_bytes(self) -> (bytes: BlobstoreBytes)
        ensures
            bytes@ == self.bytes@,
    {
        self.bytes
    }

    /// Strips the creation timestamp; a value handed back by a normal read
    /// never carries one.
    pub fn remove_ctime(&mut self)
        ensures
            final(self).bytes@ == old(self).bytes@,
            final(self).ctime is None,
    {
        self.ctime = None;
    }

    pub fn duplicate(&self) -> (data: BlobstoreGetData)
        ensures
            data.bytes@ == self.bytes@,
            data.ctime == self.ctime,
    {
        BlobstoreGetData { bytes: self.bytes.duplicate(), ctime: self.ctime }
    }
}

} // verus!
