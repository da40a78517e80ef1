//! Integrity checks: a pack's bytes against its index entry, and an
//! index entry's own consistency.

use vstd::prelude::*;

use crate::blob::BlobType;
use crate::compress::{zstd_decode, zstd_decompress};
use crate::crypto::{spec_decrypt, Key};
use crate::digest::{hash, spec_hash};
use crate::errors::RepoError;
use crate::indexfile::{blobs_view, IndexPack, SpecBlob};
use crate::packfile::{
    offsets_ok, read_le_u32, spec_header_size, spec_le_u32, spec_parse_entries, PackHeader,
    PackHeaderRef,
};

verus! {

/// One catalogued blob holds what it claims: its region of the pack
/// decrypts, decompresses to its recorded plaintext length if it is
/// compressed, and hashes to its id.
pub open spec fn spec_blob_content_ok(key: Key, data: Seq<u8>, b: SpecBlob) -> bool {
    &&& b.offset + b.length <= data.len()
    &&& match spec_decrypt(key, data.subrange(b.offset as int, b.offset + b.length)) {
        Option::None => false,
        Option::Some(plain) => match b.uncompressed_length {
            Option::None => spec_hash(plain) == b.id,
            Option::Some(ul) => match zstd_decompress(plain) {
                Option::None => false,
                Option::Some(d) => d.len() == ul && spec_hash(d) == b.id,
            },
        },
    }
}

/// A pack's bytes agree with its index entry: the size and hash match,
/// the trailing length field gives the header size the entry implies,
/// the decrypted trailer parses to exactly the catalogued blobs, and
/// every blob's content checks out.
pub open spec fn spec_pack_ok(key: Key, p: IndexPack, data: Seq<u8>) -> bool {
    let blobs = blobs_view(p.blobs@);
    let hsize = spec_header_size(blobs);
    &&& data.len() == p.spec_pack_size()
    &&& spec_hash(data) == p.id@
    &&& data.len() >= hsize + 4
    &&& spec_le_u32(data.skip(data.len() - 4)) == hsize
    &&& match spec_decrypt(key, data.subrange(data.len() - 4 - hsize, data.len() - 4)) {
        Option::None => false,
        Option::Some(h) => spec_parse_entries(h, 0) == Some(blobs),
    }
    &&& forall|i: int| 0 <= i < blobs.len() ==> spec_blob_content_ok(key, data, #[trigger] blobs[i])
}

/// The bytes of a range of a slice.
fn copy_range(data: &[u8], a: usize, b: usize) -> (r: Vec<u8>)
    requires
        a <= b <= data@.len(),
    ensures
        r@ == data@.subrange(a as int, b as int),
{
    let mut out: Vec<u8> = Vec::new();
    let mut i: usize = a;
    while i < b
        invariant
            a <= i <= b <= data@.len(),
            out@ == data@.subrange(a as int, i as int),
        decreases b - i,
    {
        out.push(data[i]);
        proof {
            assert(out@ =~= data@.subrange(a as int, i as int + 1));
        }
        i += 1;
    }
    out
}

/// Verify a pack's bytes against its index entry, exactly when every
/// check of `spec_pack_ok` holds; any disagreement is an integrity error.
#[verifier::rlimit(100)]
pub fn verify_pack(key: &Key, index_pack: &IndexPack, data: &[u8]) -> (r: Result<(), RepoError>)
    requires
        key.wf(),
        index_pack.wf(),
    ensures
        r is Ok <==> spec_pack_ok(*key, *index_pack, data@),
        r is Err ==> r == Err::<(), RepoError>(RepoError::Integrity),
{
    let ghost blobs = blobs_view(index_pack.blobs@);
    let size = index_pack.pack_size();
    if data.len() as u64 != size as u64 {
        return Err(RepoError::Integrity);
    }
    let computed = hash(data);
    if !computed.same(&index_pack.id) {
        return Err(RepoError::Integrity);
    }
    let href = PackHeaderRef::from_index_pack(index_pack);
    let hsize = href.size();
    if (data.len() as u64) < hsize as u64 + 4 {
        return Err(RepoError::Integrity);
    }
    let trailer = read_le_u32(data, data.len() - 4);
    proof {
        assert(data@.subrange(data@.len() - 4, data@.len() as int) =~= data@.skip(
            data@.len() - 4,
        ));
    }
    if trailer != hsize {
        return Err(RepoError::Integrity);
    }
    let hstart = data.len() - 4 - hsize as usize;
    let hregion = copy_range(data, hstart, data.len() - 4);
    let hplain = match key.decrypt(hregion.as_slice()) {
        Ok(p) => p,
        Err(_) => {
            return Err(RepoError::Integrity);
        },
    };
    let parsed = match PackHeader::from_binary(hplain.as_slice()) {
        Ok(h) => h,
        Err(_) => {
            return Err(RepoError::Integrity);
        },
    };
    let pblobs = parsed.into_blobs();
    if pblobs.len() != index_pack.blobs.len() {
        proof {
            assert(blobs_view(pblobs@).len() != blobs.len());
        }
        return Err(RepoError::Integrity);
    }
    let mut j: usize = 0;
    while j < pblobs.len()
        invariant
            pblobs@.len() == index_pack.blobs@.len(),
            blobs == blobs_view(index_pack.blobs@),
            j <= pblobs@.len(),
            hregion@ == data@.subrange(
                data@.len() - 4 - spec_header_size(blobs),
                data@.len() - 4,
            ),
            spec_decrypt(*key, hregion@) == Some(hplain@),
            spec_parse_entries(hplain@, 0) == Some(blobs_view(pblobs@)),
            forall|k: int| 0 <= k < j ==> blobs_view(pblobs@)[k] == blobs[k],
        decreases pblobs@.len() - j,
    {
        let a = &pblobs[j];
        let b = &index_pack.blobs[j];
        proof {
            assert(blobs_view(pblobs@)[j as int] == pblobs@[j as int]@);
            assert(blobs[j as int] == index_pack.blobs@[j as int]@);
        }
        let tpe_eq = match (a.tpe, b.tpe) {
            (BlobType::Tree, BlobType::Tree) => true,
            (BlobType::Data, BlobType::Data) => true,
            _ => false,
        };
        let ul_eq = match (a.uncompressed_length, b.uncompressed_length) {
            (None, None) => true,
            (Some(x), Some(y)) => x == y,
            _ => false,
        };
        if !(a.id.same(&b.id) && tpe_eq && a.offset == b.offset && a.length == b.length && ul_eq) {
            proof {
                assert(blobs_view(pblobs@)[j as int] != blobs[j as int]);
                assert(blobs_view(pblobs@) != blobs);
                assert(hregion@ == data@.subrange(
                    data@.len() - 4 - spec_header_size(blobs),
                    data@.len() - 4,
                ));
                assert(spec_parse_entries(hplain@, 0) == Some(blobs_view(pblobs@)));
                assert(!spec_pack_ok(*key, *index_pack, data@));
            }
            return Err(RepoError::Integrity);
        }
        proof {
            assert(blobs_view(pblobs@)[j as int] =~= blobs[j as int]);
        }
        j += 1;
    }
    proof {
        assert(blobs_view(pblobs@) =~= blobs);
    }
    let mut k: usize = 0;
    while k < index_pack.blobs.len()
        invariant
            key.wf(),
            blobs == blobs_view(index_pack.blobs@),
            k <= index_pack.blobs@.len(),
            data@.len() <= u32::MAX,
            forall|x: int| 0 <= x < k ==> spec_blob_content_ok(*key, data@, #[trigger] blobs[x]),
        decreases index_pack.blobs@.len() - k,
    {
        let b = &index_pack.blobs[k];
        proof {
            assert(blobs[k as int] == index_pack.blobs@[k as int]@);
        }
        if (b.offset as u64) + (b.length as u64) > data.len() as u64 {
            return Err(RepoError::Integrity);
        }
        let region = copy_range(data, b.offset as usize, b.offset as usize + b.length as usize);
        let plain = match key.decrypt(region.as_slice()) {
            Ok(p) => p,
            Err(_) => {
                return Err(RepoError::Integrity);
            },
        };
        match b.uncompressed_length {
            None => {
                let h = hash(plain.as_slice());
                if !h.same(&b.id) {
                    return Err(RepoError::Integrity);
                }
            },
            Some(ul) => {
                let d = match zstd_decode(plain.as_slice()) {
                    Ok(d) => d,
                    Err(_) => {
                        return Err(RepoError::Integrity);
                    },
                };
                if d.len() as u64 != ul as u64 {
                    return Err(RepoError::Integrity);
                }
                let h = hash(d.as_slice());
                if !h.same(&b.id) {
                    return Err(RepoError::Integrity);
                }
            },
        }
        k += 1;
    }
    Ok(())
}

/// An index entry is internally sound when its blobs sit back to back
/// from offset zero and all carry the pack's blob kind.
pub open spec fn spec_index_pack_sound(p: IndexPack) -> bool {
    let blobs = blobs_view(p.blobs@);
    &&& offsets_ok(blobs, 0)
    &&& forall|i: int| 0 <= i < blobs.len() ==> (#[trigger] blobs[i]).tpe == p.spec_blob_type()
}

/// Check one index entry's internal consistency: contiguous offsets from
/// zero, and a single blob kind throughout.
pub fn check_index_pack(p: &IndexPack) -> (r: bool)
    ensures
        r == spec_index_pack_sound(*p),
{
    let ghost blobs = blobs_view(p.blobs@);
    let tpe = p.blob_type();
    let mut expected: u32 = 0;
    let mut j: usize = 0;
    proof {
        assert(blobs.skip(0) =~= blobs);
    }
    while j < p.blobs.len()
        invariant
            blobs == blobs_view(p.blobs@),
            j <= p.blobs@.len(),
            tpe == p.spec_blob_type(),
            offsets_ok(blobs, 0) == offsets_ok(blobs.skip(j as int), expected),
            forall|i: int| 0 <= i < j ==> (#[trigger] blobs[i]).tpe == p.spec_blob_type(),
        decreases p.blobs@.len() - j,
    {
        let b = &p.blobs[j];
        proof {
            assert(blobs[j as int] == p.blobs@[j as int]@);
            assert(blobs.skip(j as int)[0] == blobs[j as int]);
            assert(blobs.skip(j as int).skip(1) =~= blobs.skip(j as int + 1));
        }
        let tpe_eq = match (b.tpe, tpe) {
            (BlobType::Tree, BlobType::Tree) => true,
            (BlobType::Data, BlobType::Data) => true,
            _ => false,
        };
        if !tpe_eq {
            return false;
        }
        if b.offset != expected {
            return false;
        }
        if b.length > u32::MAX - expected {
            return false;
        }
        expected = expected + b.length;
        j += 1;
    }
    proof {
        assert(blobs.skip(blobs.len() as int) =~= Seq::<SpecBlob>::empty());
    }
    true
}

} // verus!
