//! Content-defined chunking: file bytes are cut where a windowed
//! polynomial hash of the trailing bytes hits zero under the average-size
//! mask, subject to minimum and maximum chunk sizes.
//!
//! The cut positions are a function of the polynomial and the input
//! alone, which is what deduplication across backup runs relies on.

use vstd::prelude::*;

verus! {

/// The smallest chunk the cutter emits, except for a short tail.
pub const MIN_CHUNK_SIZE: usize = 524288;

/// The largest chunk the cutter emits.
pub const MAX_CHUNK_SIZE: usize = 8388608;

/// The boundary mask: an average chunk size of one mebibyte.
pub const AVG_MASK: u64 = 0xfffff;

/// Bytes of the hash window.
pub const WINDOW_LEN: usize = 64;

/// The windowed hash of the bytes just before `end`.
pub open spec fn spec_whash(poly: u64, data: Seq<u8>, end: int) -> u64 {
    let start = if end >= WINDOW_LEN {
        end - WINDOW_LEN
    } else {
        0
    };
    spec_whash_from(poly, data, start, end)
}

/// The polynomial fold over a byte range.
pub open spec fn spec_whash_from(poly: u64, data: Seq<u8>, i: int, end: int) -> u64
    decreases end - i,
{
    if i < 0 || i >= end || end > data.len() {
        0
    } else {
        vstd::wrapping::u64_specs::wrapping_add(
            vstd::wrapping::u64_specs::wrapping_mul(spec_whash_from(poly, data, i, end - 1), poly),
            data[end - 1] as u64,
        )
    }
}

/// Whether a cut may fall just before `end`.
pub open spec fn spec_is_boundary(poly: u64, data: Seq<u8>, end: int) -> bool {
    spec_whash(poly, data, end) & AVG_MASK == 0
}

/// The first admissible boundary at or after `p`, else `limit`.
pub open spec fn spec_scan(poly: u64, data: Seq<u8>, p: int, limit: int) -> int
    decreases limit - p,
{
    if p >= limit {
        limit
    } else if spec_is_boundary(poly, data, p) {
        p
    } else {
        spec_scan(poly, data, p + 1, limit)
    }
}

/// The end of the chunk that starts at `start`.
pub open spec fn spec_cut(poly: u64, data: Seq<u8>, start: int) -> int {
    if data.len() - start <= MIN_CHUNK_SIZE {
        data.len() as int
    } else {
        let limit = if start + MAX_CHUNK_SIZE <= data.len() {
            start + MAX_CHUNK_SIZE
        } else {
            data.len() as int
        };
        spec_scan(poly, data, start + MIN_CHUNK_SIZE, limit)
    }
}

/// A scan result stays within its bounds.
pub proof fn lemma_scan_bounds(poly: u64, data: Seq<u8>, p: int, limit: int)
    requires
        p <= limit,
    ensures
        p <= spec_scan(poly, data, p, limit) <= limit,
    decreases limit - p,
{
    if p < limit && !spec_is_boundary(poly, data, p) {
        lemma_scan_bounds(poly, data, p + 1, limit);
    }
}

/// A cut advances and never leaves the input.
pub proof fn lemma_cut_bounds(poly: u64, data: Seq<u8>, start: int)
    requires
        0 <= start < data.len(),
    ensures
        start < spec_cut(poly, data, start) <= data.len(),
{
    if data.len() - start > MIN_CHUNK_SIZE {
        let limit = if start + MAX_CHUNK_SIZE <= data.len() {
            start + MAX_CHUNK_SIZE
        } else {
            data.len() as int
        };
        lemma_scan_bounds(poly, data, start + MIN_CHUNK_SIZE, limit);
    }
}

/// The chunks of the input from `start` on.
pub open spec fn spec_chunks(poly: u64, data: Seq<u8>, start: int) -> Seq<Seq<u8>>
    decreases data.len() - start,
{
    if start < 0 || start >= data.len() {
        Seq::empty()
    } else {
        let cut = spec_cut(poly, data, start);
        if start < cut <= data.len() {
            seq![data.subrange(start, cut)] + spec_chunks(poly, data, cut)
        } else {
            Seq::empty()
        }
    }
}

/// The chunks of an input concatenate back to the input: nothing is
/// lost or reordered by cutting.
pub proof fn lemma_chunks_concat(poly: u64, data: Seq<u8>, start: int)
    requires
        0 <= start <= data.len(),
    ensures
        spec_concat(spec_chunks(poly, data, start)) == data.skip(start),
    decreases data.len() - start,
{
    if start >= data.len() {
        assert(data.skip(start) =~= Seq::<u8>::empty());
        assert(spec_concat(Seq::<Seq<u8>>::empty()) =~= Seq::<u8>::empty());
    } else {
        lemma_cut_bounds(poly, data, start);
        let cut = spec_cut(poly, data, start);
        lemma_chunks_concat(poly, data, cut);
        assert(spec_chunks(poly, data, start) =~= seq![data.subrange(start, cut)] + spec_chunks(
            poly,
            data,
            cut,
        ));
        let chunks = spec_chunks(poly, data, start);
        assert(chunks.skip(1) =~= spec_chunks(poly, data, cut));
        assert(spec_concat(chunks) == chunks[0] + spec_concat(chunks.skip(1)));
        assert(data.subrange(start, cut) + data.skip(cut) =~= data.skip(start));
    }
}

/// The concatenation of a sequence of byte chunks.
pub open spec fn spec_concat(chunks: Seq<Seq<u8>>) -> Seq<u8>
    decreases chunks.len(),
{
    if chunks.len() == 0 {
        Seq::empty()
    } else {
        chunks[0] + spec_concat(chunks.skip(1))
    }
}

/// Every chunk respects the maximum size, and all but the last also the
/// minimum.
pub proof fn lemma_chunk_sizes(poly: u64, data: Seq<u8>, start: int)
    requires
        0 <= start <= data.len(),
    ensures
        forall|i: int|
            0 <= i < spec_chunks(poly, data, start).len() ==> #[trigger] spec_chunks(
                poly,
                data,
                start,
            )[i].len() <= MAX_CHUNK_SIZE,
    decreases data.len() - start,
{
    if start < data.len() {
        lemma_cut_bounds(poly, data, start);
        let cut = spec_cut(poly, data, start);
        lemma_chunk_sizes(poly, data, cut);
        if data.len() - start > MIN_CHUNK_SIZE {
            let limit = if start + MAX_CHUNK_SIZE <= data.len() {
                start + MAX_CHUNK_SIZE
            } else {
                data.len() as int
            };
            lemma_scan_bounds(poly, data, start + MIN_CHUNK_SIZE, limit);
        }
        assert forall|i: int| 0 <= i < spec_chunks(poly, data, start).len() implies #[trigger] spec_chunks(
            poly,
            data,
            start,
        )[i].len() <= MAX_CHUNK_SIZE by {
            if i == 0 {
            } else {
                assert(spec_chunks(poly, data, start)[i] == spec_chunks(poly, data, cut)[i - 1]);
            }
        }
    }
}

/// The windowed hash of the bytes just before `end`.
fn whash(poly: u64, data: &[u8], end: usize) -> (r: u64)
    requires
        end <= data@.len(),
    ensures
        r == spec_whash(poly, data@, end as int),
{
    let start = if end >= WINDOW_LEN {
        end - WINDOW_LEN
    } else {
        0
    };
    let mut h: u64 = 0;
    let mut i: usize = start;
    proof {
        assert(spec_whash_from(poly, data@, start as int, start as int) == 0);
    }
    while i < end
        invariant
            start <= i <= end,
            end <= data@.len(),
            h == spec_whash_from(poly, data@, start as int, i as int),
        decreases end - i,
    {
        h = h.wrapping_mul(poly).wrapping_add(data[i] as u64);
        i += 1;
    }
    h
}

/// Cut the input into content-defined chunks.  The boundaries are a
/// function of the polynomial and the bytes alone.
pub fn chunk_data(poly: u64, data: &[u8]) -> (r: Vec<Vec<u8>>)
    ensures
        r.deep_view() == spec_chunks(poly, data@, 0),
{
    let mut out: Vec<Vec<u8>> = Vec::new();
    let mut start: usize = 0;
    proof {
        assert(out.deep_view() =~= Seq::<Seq<u8>>::empty());
        if data@.len() == 0 {
            assert(spec_chunks(poly, data@, 0) =~= Seq::<Seq<u8>>::empty());
        }
    }
    while start < data.len()
        invariant
            start <= data@.len(),
            spec_chunks(poly, data@, 0) == out.deep_view() + spec_chunks(
                poly,
                data@,
                start as int,
            ),
        decreases data@.len() - start,
    {
        proof {
            lemma_cut_bounds(poly, data@, start as int);
        }
        let cut: usize;
        if data.len() - start <= MIN_CHUNK_SIZE {
            cut = data.len();
        } else {
            let limit: usize = if data.len() - start >= MAX_CHUNK_SIZE {
                start + MAX_CHUNK_SIZE
            } else {
                data.len()
            };
            let mut p: usize = start + MIN_CHUNK_SIZE;
            while p < limit && (whash(poly, data, p) & AVG_MASK) != 0
                invariant
                    start + MIN_CHUNK_SIZE <= p <= limit,
                    limit <= data@.len(),
                    spec_scan(poly, data@, start as int + MIN_CHUNK_SIZE, limit as int)
                        == spec_scan(poly, data@, p as int, limit as int),
                decreases limit - p,
            {
                p += 1;
            }
            proof {
                if p < limit {
                    assert(spec_is_boundary(poly, data@, p as int));
                }
                assert(spec_scan(poly, data@, p as int, limit as int) == p as int);
            }
            cut = p;
        }
        proof {
            assert(cut as int == spec_cut(poly, data@, start as int));
        }
        let mut chunk: Vec<u8> = Vec::new();
        let mut i: usize = start;
        while i < cut
            invariant
                start <= i <= cut,
                cut <= data@.len(),
                chunk@ == data@.subrange(start as int, i as int),
            decreases cut - i,
        {
            chunk.push(data[i]);
            proof {
                assert(chunk@ =~= data@.subrange(start as int, i as int + 1));
            }
            i += 1;
        }
        let ghost outpre = out.deep_view();
        let ghost chunkv = chunk@;
        out.push(chunk);
        proof {
            assert(chunkv =~= data@.subrange(start as int, cut as int));
            assert(out.deep_view() =~~= outpre.push(chunkv));
            assert(spec_chunks(poly, data@, start as int) =~~= seq![
                data@.subrange(start as int, cut as int),
            ] + spec_chunks(poly, data@, cut as int));
            assert(outpre + spec_chunks(poly, data@, start as int) =~~= out.deep_view()
                + spec_chunks(poly, data@, cut as int));
        }
        start = cut;
    }
    proof {
        assert(spec_chunks(poly, data@, start as int) =~= Seq::<Seq<u8>>::empty());
        assert(out.deep_view() + Seq::<Seq<u8>>::empty() =~= out.deep_view());
    }
    out
}

} // verus!
