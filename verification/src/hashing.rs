//! The cryptographic hash behind every content digest, and the digest value
//! type that signed proofs carry.

use crate::bytes::bytes_eq;
use crate::bytes::hex_of;
use crate::bytes::hex_string;
use vstd::prelude::*;

verus! {

/// What BLAKE2b-256 returns for a given byte string. The hash is a pure
/// function of its input, so its output may be named without being stated.
pub uninterp spec fn blake2b_of(bytes: Seq<u8>) -> Seq<u8>;

/// Relies on blake2::Blake2b256 (BLAKE2b with 32-byte output, no key): the
/// digest depends on the input bytes alone and is exactly 32 bytes long.
#[verifier::external_body]
pub fn blake2b256sum(bytes: &[u8]) -> (r: Vec<u8>)
    ensures
        r@ == blake2b_of(bytes@),
        r@.len() == 32,
{
    <blake2::Blake2b256 as blake2::Digest>::digest(bytes).to_vec()
}

/// A content digest: the 32-byte hash that identifies one directory tree.
#[derive(Debug)]
pub struct Digest {
    pub bytes: Vec<u8>,
}

impl View for Digest {
    type V = Seq<u8>;

    open spec fn view(&self) -> Seq<u8> {
        self.bytes@
    }
}

impl Digest {
    /// A digest is well formed when it has the hash's fixed length.
    pub open spec fn wf(&self) -> bool {
        self@.len() == 32
    }

    /// Hashes a byte string into a digest value.
    pub fn of_bytes(bytes: &Vec<u8>) -> (d: Digest)
        ensures
            d@ == blake2b_of(bytes@),
            d.wf(),
    {
        Digest { bytes: blake2b256sum(bytes.as_slice()) }
    }

    /// Exact comparison of two digests.
    pub fn eq_digest(&self, other: &Digest) -> (r: bool)
        ensures
            r == (self@ == other@),
    {
        bytes_eq(&self.bytes, &other.bytes)
    }

    /// The digest in lower-case hexadecimal, as reports print it.
    pub fn to_hex(&self) -> (r: String)
        ensures
            r@ == hex_of(self@),
    {
        hex_string(&self.bytes)
    }
}

} // verus!
