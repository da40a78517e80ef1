//! The content digest behind every id: the 32-byte SHA-256 hash of the
//! stored bytes, as the compatible repository format prescribes.

use sha2::Digest;
use vstd::prelude::*;

use crate::id::Id;

verus! {

/// What SHA-256 returns: a function of the input bytes alone.
pub uninterp spec fn sha256_of(data: Seq<u8>) -> Seq<u8>;

/// Relies on sha2::Sha256: the digest is a function of the input alone
/// and is always 32 bytes.
#[verifier::external_body]
pub fn sha256(data: &[u8]) -> (r: Vec<u8>)
    ensures
        r@ == sha256_of(data@),
        r@.len() == 32,
{
    sha2::Sha256::digest(data).to_vec()
}

/// The id of a byte sequence: its SHA-256 digest.
#[verifier::inline]
pub open spec fn spec_hash(data: Seq<u8>) -> Seq<u8> {
    sha256_of(data)
}

/// The id of a byte slice: its digest.
pub fn hash(data: &[u8]) -> (r: Id)
    ensures
        r@ == spec_hash(data@),
        r.wf(),
{
    let h = sha256(data);
    Id::from_bytes(h)
}

} // verus!
