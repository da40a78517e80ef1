//! Pack sizing: how large new packs should grow as the repository grows.

use vstd::prelude::*;

use crate::blob::BlobType;
use crate::crypto::{spec_decrypt, spec_encrypt, Key, NONCE_LEN};
use crate::digest::{hash, spec_hash};
use crate::id::Id;
use crate::indexfile::{blobs_view, IndexBlob, IndexPack, SpecBlob};
use crate::packfile::{push_u32_le, spec_u32_le, PackHeaderRef};

verus! {

/// The base target size of a pack.
pub const PACK_BASE_SIZE: u32 = 4194304;

/// The repository-size divisor under the square root of the growth rule.
pub const PACK_GROW_FACTOR: u32 = 32;

/// The largest target size of a pack.
pub const PACK_MAX_SIZE: u32 = 134217728;

/// A stored pack no smaller than this share of the target is left alone.
pub const PACK_TOLERATE_MIN_PERCENT: u64 = 30;

/// A stored pack no larger than this share of the target is left alone.
pub const PACK_TOLERATE_MAX_PERCENT: u64 = 200;

/// The integer square root: the largest `r` with `r * r <= x`.
pub open spec fn spec_isqrt(x: nat) -> nat
    decreases x,
{
    if x == 0 {
        0
    } else {
        let r = spec_isqrt((x - 1) as nat);
        if (r + 1) * (r + 1) <= x {
            r + 1
        } else {
            r
        }
    }
}

/// The defining property of the integer square root.
pub proof fn lemma_isqrt(x: nat)
    ensures
        spec_isqrt(x) * spec_isqrt(x) <= x,
        x < (spec_isqrt(x) + 1) * (spec_isqrt(x) + 1),
    decreases x,
{
    if x > 0 {
        lemma_isqrt((x - 1) as nat);
        let r = spec_isqrt((x - 1) as nat);
        assert(r * r <= x - 1);
        assert(x - 1 < (r + 1) * (r + 1));
        if (r + 1) * (r + 1) <= x {
            assert(spec_isqrt(x) == r + 1);
            assert(x == (r + 1) * (r + 1));
            assert(x < (r + 2) * (r + 2)) by (nonlinear_arith)
                requires
                    x == (r + 1) * (r + 1),
                    r >= 0,
            ;
            assert((spec_isqrt(x) + 1) * (spec_isqrt(x) + 1) == (r + 2) * (r + 2));
            assert(x < (spec_isqrt(x) + 1) * (spec_isqrt(x) + 1));
        } else {
            assert(spec_isqrt(x) == r);
            assert(r * r <= x);
            assert(x < (r + 1) * (r + 1));
            assert(x < (spec_isqrt(x) + 1) * (spec_isqrt(x) + 1));
        }
    } else {
        assert(spec_isqrt(0) == 0);
        assert(x < (spec_isqrt(x) + 1) * (spec_isqrt(x) + 1)) by (nonlinear_arith)
            requires
                x == 0,
                spec_isqrt(x) == 0,
        ;
    }
}

/// Compute the integer square root by bisection.
pub fn isqrt(x: u64) -> (r: u64)
    ensures
        r == spec_isqrt(x as nat),
{
    let mut lo: u64 = 0;
    let mut hi: u64 = 4294967296;
    proof {
        lemma_isqrt(x as nat);
        assert((lo * lo) <= x);
        assert(x < hi * hi) by (nonlinear_arith)
            requires
                hi == 4294967296u64,
                x <= u64::MAX,
        ;
    }
    while lo + 1 < hi
        invariant
            lo < hi <= 4294967296,
            lo * lo <= x,
            x < hi * hi,
        decreases hi - lo,
    {
        let mid = lo + (hi - lo) / 2;
        proof {
            assert(mid * mid <= 4294967296u64 * 4294967296u64) by (nonlinear_arith)
                requires
                    mid <= 4294967296u64,
            ;
        }
        let sq = (mid as u128) * (mid as u128);
        if sq <= x as u128 {
            lo = mid;
        } else {
            hi = mid;
        }
    }
    proof {
        let s = spec_isqrt(x as nat);
        lemma_isqrt(x as nat);
        assert(lo == s) by (nonlinear_arith)
            requires
                lo * lo <= x < (lo + 1) * (lo + 1),
                s * s <= x < (s + 1) * (s + 1),
                lo >= 0,
                s >= 0,
        ;
    }
    lo
}

/// Decides the target size of new packs, from the bytes a repository
/// already holds of a blob kind.
pub struct PackSizer {
    pub blob_type: BlobType,
    pub current_size: u64,
}

impl PackSizer {
    /// The target pack size: the base size grown with the square root of
    /// the repository size over the growth factor, capped at the maximum.
    pub open spec fn spec_pack_size(&self) -> int {
        let grown = PACK_BASE_SIZE + spec_isqrt((self.current_size / (PACK_GROW_FACTOR as u64)) as nat) * 1024;
        if grown > PACK_MAX_SIZE {
            PACK_MAX_SIZE as int
        } else {
            grown
        }
    }

    /// Whether a stored pack's size lies within the tolerated band around
    /// the current target.
    pub open spec fn spec_size_ok(&self, size: u32) -> bool {
        let target = self.spec_pack_size();
        &&& (size as int) * 100 >= target * PACK_TOLERATE_MIN_PERCENT
        &&& (size as int) * 100 <= target * PACK_TOLERATE_MAX_PERCENT
    }

    /// A sizer for a blob kind over the bytes the repository holds of it.
    pub fn from_total_size(blob_type: BlobType, current_size: u64) -> (r: PackSizer)
        ensures
            r.blob_type == blob_type,
            r.current_size == current_size,
    {
        PackSizer { blob_type, current_size }
    }

    /// The current target pack size.
    pub fn pack_size(&self) -> (r: u32)
        ensures
            r == self.spec_pack_size(),
    {
        let root = isqrt(self.current_size / (PACK_GROW_FACTOR as u64));
        proof {
            lemma_isqrt((self.current_size / (PACK_GROW_FACTOR as u64)) as nat);
            assert(root * root <= self.current_size / (PACK_GROW_FACTOR as u64));
            assert(root <= 4294967296u64) by (nonlinear_arith)
                requires
                    root * root <= u64::MAX,
            ;
        }
        let grown = (PACK_BASE_SIZE as u64) + root * 1024;
        if grown > PACK_MAX_SIZE as u64 {
            PACK_MAX_SIZE
        } else {
            grown as u32
        }
    }

    /// Whether a stored pack's size is tolerable for the current target.
    pub fn size_ok(&self, size: u32) -> (r: bool)
        ensures
            r == self.spec_size_ok(size),
    {
        let target = self.pack_size() as u64;
        (size as u64) * 100 >= target * PACK_TOLERATE_MIN_PERCENT && (size as u64) * 100 <= target
            * PACK_TOLERATE_MAX_PERCENT
    }
}


/// What one packed blob promises: its region of the pack decrypts back
/// to a plaintext whose hash is its id.
pub open spec fn spec_packed_blob_ok(key: Key, bytes: Seq<u8>, b: SpecBlob, plain: Seq<u8>) -> bool {
    &&& b.offset + b.length <= bytes.len()
    &&& spec_decrypt(key, bytes.subrange(b.offset as int, b.offset + b.length)) == Some(plain)
    &&& b.id == spec_hash(plain)
}

/// The bytes a chunk list occupies in its pack: each chunk's ciphertext
/// (the chunk plus the envelope) and its header entry.
pub open spec fn spec_chunks_pack_total(chunks: Seq<Seq<u8>>, i: int) -> int
    decreases i,
{
    if i <= 0 {
        0
    } else {
        spec_chunks_pack_total(chunks, i - 1) + chunks[i - 1].len() + 69
    }
}

/// A prefix of the pack total never exceeds the whole.
proof fn lemma_pack_total_mono(chunks: Seq<Seq<u8>>, i: int, n: int)
    requires
        0 <= i <= n,
    ensures
        spec_chunks_pack_total(chunks, i) <= spec_chunks_pack_total(chunks, n),
    decreases n - i,
{
    if i < n {
        lemma_pack_total_mono(chunks, i + 1, n);
    }
}

/// The pack total grows by at least 69 bytes per chunk.
proof fn lemma_pack_total_lb(chunks: Seq<Seq<u8>>, i: int)
    requires
        0 <= i,
    ensures
        spec_chunks_pack_total(chunks, i) >= 69 * i,
    decreases i,
{
    if i > 0 {
        lemma_pack_total_lb(chunks, i - 1);
    }
}

/// Uncompressed well-formed entries serialize to 37 bytes each.
proof fn lemma_uncompressed_header_len(s: Seq<SpecBlob>)
    requires
        forall|k: int|
            0 <= k < s.len() ==> (#[trigger] s[k]).wf() && s[k].uncompressed_length is None,
    ensures
        crate::packfile::spec_entries_len(s) == 37 * s.len(),
        crate::packfile::spec_header_bytes(s).len() == 37 * s.len(),
    decreases s.len(),
{
    if s.len() > 0 {
        assert(forall|k: int|
            0 <= k < s.skip(1).len() ==> (#[trigger] s.skip(1)[k]) == s[k + 1]);
        lemma_uncompressed_header_len(s.skip(1));
        crate::packfile::lemma_entry_bytes_len(s[0]);
    }
}

/// Build one pack from plaintext blobs: each blob is encrypted under its
/// own nonce and appended, the header entries follow encrypted, and the
/// trailing four bytes give the encrypted header's length.  The pack's id
/// is the hash of exactly the bytes written, and every blob region
/// decrypts back to the plaintext whose hash is the blob's id.
#[verifier::rlimit(100)]
pub fn build_pack(
    key: &Key,
    tpe: BlobType,
    chunks: &Vec<Vec<u8>>,
    nonces: &Vec<Vec<u8>>,
    header_nonce: &Vec<u8>,
    time: Option<crate::time::Time>,
) -> (r: (Vec<u8>, IndexPack))
    requires
        key.wf(),
        chunks@.len() == nonces@.len(),
        forall|i: int| 0 <= i < nonces@.len() ==> (#[trigger] nonces@[i])@.len() == NONCE_LEN,
        spec_chunks_pack_total(chunks.deep_view(), chunks@.len() as int) + 36 <= u32::MAX,
        header_nonce@.len() == NONCE_LEN,
    ensures
        ({
            let bytes = r.0@;
            let ip = r.1;
            &&& ip.id@ == spec_hash(bytes)
            &&& bytes.len() == spec_chunks_pack_total(chunks.deep_view(), chunks@.len() as int)
                + 36
            &&& ip.blobs@.len() == chunks@.len()
            &&& ip.time == time
            &&& forall|i: int|
                0 <= i < chunks@.len() ==> spec_packed_blob_ok(
                    *key,
                    bytes,
                    (#[trigger] ip.blobs@[i])@,
                    chunks@[i]@,
                ) && ip.blobs@[i]@.tpe == tpe && ip.blobs@[i]@.uncompressed_length is None
                    && ip.blobs@[i]@.length == chunks@[i]@.len() + 32
        }),
{
    let ghost cv = chunks.deep_view();
    let ghost n = chunks@.len() as int;
    let mut body: Vec<u8> = Vec::new();
    let mut blobs: Vec<IndexBlob> = Vec::new();
    let mut i: usize = 0;
    while i < chunks.len()
        invariant
            key.wf(),
            chunks@.len() == nonces@.len(),
            cv == chunks.deep_view(),
            n == chunks@.len(),
            cv.len() == n,
            forall|k: int| 0 <= k < nonces@.len() ==> (#[trigger] nonces@[k])@.len() == NONCE_LEN,
            spec_chunks_pack_total(cv, n) + 36 <= u32::MAX,
            i <= n,
            blobs@.len() == i,
            body@.len() + 37 * i == spec_chunks_pack_total(cv, i as int),
            forall|k: int|
                0 <= k < i ==> spec_packed_blob_ok(
                    *key,
                    body@,
                    (#[trigger] blobs@[k])@,
                    chunks@[k]@,
                ) && blobs@[k]@.tpe == tpe && blobs@[k]@.uncompressed_length is None
                    && blobs@[k]@.length == chunks@[k]@.len() + 32,
            forall|k: int|
                0 <= k < i ==> (#[trigger] blobs@[k])@.id.len() == 32 && blobs@[k]@.offset
                    + blobs@[k]@.length <= body@.len(),
        decreases n - i,
    {
        proof {
            lemma_pack_total_mono(cv, i as int + 1, n);
            lemma_pack_total_mono(cv, i as int, i as int + 1);
            lemma_pack_total_lb(cv, i as int);
            assert(cv[i as int] == chunks@[i as int]@);
        }
        let chunk = &chunks[i];
        let id = hash(chunk.as_slice());
        let cipher = key.encrypt(nonces[i].as_slice(), chunk.as_slice());
        let offset = body.len();
        let blob = IndexBlob {
            id,
            tpe,
            offset: offset as u32,
            length: cipher.len() as u32,
            uncompressed_length: None,
        };
        let ghost bodypre = body@;
        let ghost cipherg = cipher@;
        let mut c = cipher;
        body.append(&mut c);
        proof {
            assert(body@ =~= bodypre + cipherg);
            assert(body@.subrange(offset as int, offset + cipherg.len() as int) =~= cipherg);
            assert forall|k: int| 0 <= k < i implies spec_packed_blob_ok(
                *key,
                body@,
                (#[trigger] blobs@[k])@,
                chunks@[k]@,
            ) by {
                let b = blobs@[k]@;
                assert(body@.subrange(b.offset as int, b.offset + b.length) =~= bodypre.subrange(
                    b.offset as int,
                    b.offset + b.length,
                ));
            }
        }
        blobs.push(blob);
        i += 1;
    }
    proof {
        assert forall|k: int| 0 <= k < blobs_view(blobs@).len() implies (#[trigger] blobs_view(
            blobs@,
        )[k]).wf() && blobs_view(blobs@)[k].uncompressed_length is None by {
            assert(blobs_view(blobs@)[k] == blobs@[k]@);
        }
        lemma_uncompressed_header_len(blobs_view(blobs@));
        lemma_pack_total_lb(cv, n);
    }
    let header_ref = PackHeaderRef { blobs: &blobs };
    let header_plain = header_ref.to_binary();
    let enc_header = key.encrypt(header_nonce.as_slice(), header_plain.as_slice());
    let ghost bodyg = body@;
    let ghost ehg = enc_header@;
    let mut eh = enc_header;
    let hlen: u32 = eh.len() as u32;
    body.append(&mut eh);
    push_u32_le(&mut body, hlen);
    proof {
        assert(body@ =~= bodyg + ehg + spec_u32_le(hlen));
        assert forall|k: int| 0 <= k < blobs@.len() implies spec_packed_blob_ok(
            *key,
            body@,
            (#[trigger] blobs@[k])@,
            chunks@[k]@,
        ) by {
            let b = blobs@[k]@;
            assert(body@.subrange(b.offset as int, b.offset + b.length) =~= bodyg.subrange(
                b.offset as int,
                b.offset + b.length,
            ));
        }
    }
    let pack_id = hash(body.as_slice());
    let ip = IndexPack { id: pack_id, time, size: None, blobs };
    (body, ip)
}

} // verus!
