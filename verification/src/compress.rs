//! The compression layer: zstd frames behind named results.

use vstd::prelude::*;

use crate::errors::RepoError;

verus! {

/// What zstd compression returns: a function of the level and the input.
pub uninterp spec fn zstd_compress(level: int, data: Seq<u8>) -> Seq<u8>;

/// What zstd decompression returns: a function of the frame alone, or
/// nothing for a malformed frame.
pub uninterp spec fn zstd_decompress(data: Seq<u8>) -> Option<Seq<u8>>;

/// Relies on zstd::stream::encode_all: the frame is a function of the
/// level and input alone, and decoding it gives the input back.
#[verifier::external_body]
pub(crate) fn zstd_encode(data: &[u8], level: i32) -> (r: Result<Vec<u8>, RepoError>)
    ensures
        r is Ok ==> (r->Ok_0)@ == zstd_compress(level as int, data@),
        r is Ok ==> zstd_decompress((r->Ok_0)@) == Some(data@),
        r is Err ==> r->Err_0 == RepoError::Io,
{
    match zstd::stream::encode_all(data, level) {
        Ok(v) => Ok(v),
        Err(_) => Err(RepoError::Io),
    }
}

/// Relies on zstd::stream::decode_all: decoding is a function of the
/// frame alone.
#[verifier::external_body]
pub(crate) fn zstd_decode(data: &[u8]) -> (r: Result<Vec<u8>, RepoError>)
    ensures
        r is Ok <==> zstd_decompress(data@) is Some,
        r is Ok ==> Some((r->Ok_0)@) == zstd_decompress(data@),
        r is Err ==> r->Err_0 == RepoError::Format,
{
    match zstd::stream::decode_all(data) {
        Ok(v) => Ok(v),
        Err(_) => Err(RepoError::Format),
    }
}

} // verus!
