//! The pack trailer format: header entries, their binary layout, and sizes.
//!
//! A pack file is the concatenation of encrypted blobs, followed by an
//! encrypted header (one entry per blob, in offset order) and the 4-byte
//! little-endian length of that encrypted header.

use vstd::prelude::*;

use crate::blob::BlobType;
use crate::errors::RepoError;
use crate::id::{Id, ID_LEN};
use crate::indexfile::{blobs_view, IndexBlob, SpecBlob};

verus! {

/// The constant ciphertext overhead of the encryption envelope.
pub const COMP_OVERHEAD: u32 = 32;

/// The bytes of the trailing header-length field.
pub const LENGTH_LEN: u32 = 4;

/// Serialized length of an uncompressed-blob header entry.
pub const ENTRY_LEN: u32 = 37;

/// Serialized length of a compressed-blob header entry.
pub const ENTRY_LEN_COMPRESSED: u32 = 41;

/// The four little-endian bytes of a `u32`.
pub open spec fn spec_u32_le(v: u32) -> Seq<u8> {
    seq![
        (v & 0xff) as u8,
        ((v >> 8) & 0xff) as u8,
        ((v >> 16) & 0xff) as u8,
        ((v >> 24) & 0xff) as u8,
    ]
}

/// The `u32` denoted by four little-endian bytes.
pub open spec fn spec_le_u32(s: Seq<u8>) -> u32
    recommends
        s.len() == 4,
{
    (s[0] as u32) | ((s[1] as u32) << 8) | ((s[2] as u32) << 16) | ((s[3] as u32) << 24)
}

/// Parsing the four bytes of a value gives the value back.
pub proof fn lemma_u32_le_round_trip(v: u32)
    ensures
        spec_le_u32(spec_u32_le(v)) == v,
{
    assert(((((v & 0xff) as u8) as u32) | (((((v >> 8) & 0xff) as u8) as u32) << 8) | (((((v
        >> 16) & 0xff) as u8) as u32) << 16) | (((((v >> 24) & 0xff) as u8) as u32) << 24)) == v)
        by (bit_vector);
}

/// Append the little-endian bytes of a value.
pub fn push_u32_le(out: &mut Vec<u8>, v: u32)
    ensures
        final(out)@ == old(out)@ + spec_u32_le(v),
{
    out.push((v & 0xff) as u8);
    out.push(((v >> 8) & 0xff) as u8);
    out.push(((v >> 16) & 0xff) as u8);
    out.push(((v >> 24) & 0xff) as u8);
    proof {
        assert(out@ =~= old(out)@ + spec_u32_le(v));
    }
}

/// Read a little-endian `u32` at a position of a byte slice.
pub fn read_le_u32(data: &[u8], pos: usize) -> (r: u32)
    requires
        pos + 4 <= data@.len(),
    ensures
        r == spec_le_u32(data@.subrange(pos as int, pos as int + 4)),
{
    let b0 = data[pos] as u32;
    let b1 = data[pos + 1] as u32;
    let b2 = data[pos + 2] as u32;
    let b3 = data[pos + 3] as u32;
    proof {
        let s = data@.subrange(pos as int, pos as int + 4);
        assert(s[0] == data@[pos as int]);
        assert(s[1] == data@[pos as int + 1]);
        assert(s[2] == data@[pos as int + 2]);
        assert(s[3] == data@[pos as int + 3]);
    }
    b0 | (b1 << 8) | (b2 << 16) | (b3 << 24)
}

/// The trailing header-length field of a pack.
pub struct PackHeaderLength(pub u32);

impl PackHeaderLength {
    /// Wrap a length value.
    pub fn from_u32(len: u32) -> (r: Self)
        ensures
            r.0 == len,
    {
        Self(len)
    }

    /// Unwrap the length value.
    pub fn to_u32(&self) -> (r: u32)
        ensures
            r == self.0,
    {
        self.0
    }

    /// Read the header length from its four little-endian bytes.
    pub fn from_binary(data: &[u8]) -> (r: Result<Self, RepoError>)
        ensures
            r is Ok <==> data@.len() == 4,
            r matches Ok(h) ==> h.0 == spec_le_u32(data@),
            r is Err ==> r == Err::<Self, RepoError>(RepoError::Format),
    {
        if data.len() != 4 {
            return Err(RepoError::Format);
        }
        let v = read_le_u32(data, 0);
        proof {
            assert(data@.subrange(0, 4) =~= data@);
        }
        Ok(Self(v))
    }

    /// The four little-endian bytes of the header length.
    pub fn to_binary(&self) -> (r: Vec<u8>)
        ensures
            r@ == spec_u32_le(self.0),
    {
        let mut out: Vec<u8> = Vec::new();
        push_u32_le(&mut out, self.0);
        out
    }
}

/// One pack header entry, in its serialized variants.
pub enum HeaderEntry {
    Data { len: u32, id: Id },
    Tree { len: u32, id: Id },
    CompData { len: u32, len_data: u32, id: Id },
    CompTree { len: u32, len_data: u32, id: Id },
}

impl HeaderEntry {
    /// The entry describing an index blob.
    pub fn from_blob(blob: &IndexBlob) -> (r: Self)
        ensures
            r.matches_blob(blob@),
    {
        match (blob.uncompressed_length, blob.tpe) {
            (None, BlobType::Data) => Self::Data { len: blob.length, id: blob.id.clone() },
            (None, BlobType::Tree) => Self::Tree { len: blob.length, id: blob.id.clone() },
            (Some(l), BlobType::Data) => Self::CompData {
                len: blob.length,
                len_data: l,
                id: blob.id.clone(),
            },
            (Some(l), BlobType::Tree) => Self::CompTree {
                len: blob.length,
                len_data: l,
                id: blob.id.clone(),
            },
        }
    }

    /// Whether this entry carries exactly a blob's tag, lengths and id.
    pub open spec fn matches_blob(&self, b: SpecBlob) -> bool {
        match *self {
            HeaderEntry::Data { len, id } => b.tpe is Data && b.uncompressed_length is None
                && len == b.length && id@ == b.id,
            HeaderEntry::Tree { len, id } => b.tpe is Tree && b.uncompressed_length is None
                && len == b.length && id@ == b.id,
            HeaderEntry::CompData { len, len_data, id } => b.tpe is Data
                && b.uncompressed_length == Some(len_data) && len == b.length && id@ == b.id,
            HeaderEntry::CompTree { len, len_data, id } => b.tpe is Tree
                && b.uncompressed_length == Some(len_data) && len == b.length && id@ == b.id,
        }
    }

    /// The serialized length of this entry.
    pub fn length(&self) -> (r: u32)
        ensures
            r == match *self {
                HeaderEntry::Data { .. } => ENTRY_LEN,
                HeaderEntry::Tree { .. } => ENTRY_LEN,
                HeaderEntry::CompData { .. } => ENTRY_LEN_COMPRESSED,
                HeaderEntry::CompTree { .. } => ENTRY_LEN_COMPRESSED,
            },
    {
        match self {
            HeaderEntry::Data { .. } => ENTRY_LEN,
            HeaderEntry::Tree { .. } => ENTRY_LEN,
            HeaderEntry::CompData { .. } => ENTRY_LEN_COMPRESSED,
            HeaderEntry::CompTree { .. } => ENTRY_LEN_COMPRESSED,
        }
    }

    /// The index blob this entry denotes, placed at an offset.
    ///
    /// A compressed entry whose plaintext length reads zero denotes an
    /// uncompressed blob, mirroring the non-zero coding of that field.
    pub fn into_blob(self, offset: u32) -> (r: IndexBlob)
        ensures
            r@ == (match self {
                HeaderEntry::Data { len, id } => SpecBlob {
                    id: id@,
                    tpe: BlobType::Data,
                    offset,
                    length: len,
                    uncompressed_length: None,
                },
                HeaderEntry::Tree { len, id } => SpecBlob {
                    id: id@,
                    tpe: BlobType::Tree,
                    offset,
                    length: len,
                    uncompressed_length: None,
                },
                HeaderEntry::CompData { len, len_data, id } => SpecBlob {
                    id: id@,
                    tpe: BlobType::Data,
                    offset,
                    length: len,
                    uncompressed_length: if len_data == 0 {
                        None
                    } else {
                        Some(len_data)
                    },
                },
                HeaderEntry::CompTree { len, len_data, id } => SpecBlob {
                    id: id@,
                    tpe: BlobType::Tree,
                    offset,
                    length: len,
                    uncompressed_length: if len_data == 0 {
                        None
                    } else {
                        Some(len_data)
                    },
                },
            }),
    {
        match self {
            HeaderEntry::Data { len, id } => IndexBlob {
                id,
                tpe: BlobType::Data,
                offset,
                length: len,
                uncompressed_length: None,
            },
            HeaderEntry::Tree { len, id } => IndexBlob {
                id,
                tpe: BlobType::Tree,
                offset,
                length: len,
                uncompressed_length: None,
            },
            HeaderEntry::CompData { len, len_data, id } => IndexBlob {
                id,
                tpe: BlobType::Data,
                offset,
                length: len,
                uncompressed_length: if len_data == 0 {
                    None
                } else {
                    Some(len_data)
                },
            },
            HeaderEntry::CompTree { len, len_data, id } => IndexBlob {
                id,
                tpe: BlobType::Tree,
                offset,
                length: len,
                uncompressed_length: if len_data == 0 {
                    None
                } else {
                    Some(len_data)
                },
            },
        }
    }
}

/// The tag byte of a blob's header entry.
pub open spec fn spec_tag(b: SpecBlob) -> u8 {
    match (b.uncompressed_length, b.tpe) {
        (Option::<u32>::None, BlobType::Data) => 0,
        (Option::<u32>::None, BlobType::Tree) => 1,
        (Option::<u32>::Some(_), BlobType::Data) => 2,
        (Option::<u32>::Some(_), BlobType::Tree) => 3,
    }
}

/// The serialized length of a blob's header entry.
pub open spec fn spec_entry_len(b: SpecBlob) -> int {
    if b.uncompressed_length is Some {
        ENTRY_LEN_COMPRESSED as int
    } else {
        ENTRY_LEN as int
    }
}

/// The serialized bytes of a blob's header entry.
pub open spec fn spec_entry_bytes(b: SpecBlob) -> Seq<u8> {
    seq![spec_tag(b)] + spec_u32_le(b.length) + (match b.uncompressed_length {
        Some(l) => spec_u32_le(l),
        None => Seq::<u8>::empty(),
    }) + b.id
}

/// The serialized bytes of a whole header: the entries in order.
pub open spec fn spec_header_bytes(s: Seq<SpecBlob>) -> Seq<u8>
    decreases s.len(),
{
    if s.len() == 0 {
        Seq::empty()
    } else {
        spec_entry_bytes(s[0]) + spec_header_bytes(s.skip(1))
    }
}

/// The sum of the entry lengths of a header.
pub open spec fn spec_entries_len(s: Seq<SpecBlob>) -> int
    decreases s.len(),
{
    if s.len() == 0 {
        0
    } else {
        spec_entry_len(s[0]) + spec_entries_len(s.skip(1))
    }
}

/// The sum of the blob (ciphertext) lengths of a header.
pub open spec fn spec_blobs_len(s: Seq<SpecBlob>) -> int
    decreases s.len(),
{
    if s.len() == 0 {
        0
    } else {
        s[0].length + spec_blobs_len(s.skip(1))
    }
}

/// The encrypted size of a header: envelope overhead plus its entries.
pub open spec fn spec_header_size(s: Seq<SpecBlob>) -> int {
    COMP_OVERHEAD + spec_entries_len(s)
}

/// The size of a whole pack holding these blobs.
pub open spec fn spec_pack_size(s: Seq<SpecBlob>) -> int {
    COMP_OVERHEAD + LENGTH_LEN + spec_entries_len(s) + spec_blobs_len(s)
}

/// Parse a header byte stream into blobs, assigning offsets by prefix sum.
pub open spec fn spec_parse_entries(s: Seq<u8>, off: u32) -> Option<Seq<SpecBlob>>
    decreases s.len(),
{
    if s.len() == 0 {
        Some(Seq::empty())
    } else if s[0] > 3 {
        None
    } else {
        let comp = s[0] >= 2;
        let elen: int = if comp {
            ENTRY_LEN_COMPRESSED as int
        } else {
            ENTRY_LEN as int
        };
        if s.len() < elen {
            None
        } else {
            let length = spec_le_u32(s.subrange(1, 5));
            let lu = if comp {
                spec_le_u32(s.subrange(5, 9))
            } else {
                0
            };
            let idoff: int = if comp {
                9
            } else {
                5
            };
            let blob = SpecBlob {
                id: s.subrange(idoff, idoff + ID_LEN),
                tpe: if s[0] == 0 || s[0] == 2 {
                    BlobType::Data
                } else {
                    BlobType::Tree
                },
                offset: off,
                length,
                uncompressed_length: if comp && lu != 0 {
                    Some(lu)
                } else {
                    None
                },
            };
            if off + length > u32::MAX {
                None
            } else {
                match spec_parse_entries(s.skip(elen), (off + length) as u32) {
                    Some(rest) => Some(seq![blob] + rest),
                    None => None,
                }
            }
        }
    }
}

/// A parsed pack header: the blobs in offset order.
pub struct PackHeader(pub Vec<IndexBlob>);

impl PackHeader {
    /// Parse the decrypted header bytes of a pack.
    pub fn from_binary(pack: &[u8]) -> (r: Result<PackHeader, RepoError>)
        ensures
            r matches Ok(h) ==> spec_parse_entries(pack@, 0) == Some(blobs_view(h.0@)),
            r is Err ==> spec_parse_entries(pack@, 0) is None,
            r is Err ==> r == Err::<PackHeader, RepoError>(RepoError::Format),
    {
        let mut blobs: Vec<IndexBlob> = Vec::new();
        let mut pos: usize = 0;
        let mut off: u32 = 0;
        proof {
            assert(pack@.skip(0) =~= pack@);
            assert(blobs_view(blobs@) =~= Seq::<SpecBlob>::empty());
            match spec_parse_entries(pack@, 0u32) {
                Some(rest) => {
                    assert(blobs_view(blobs@) + rest =~= rest);
                },
                None => {},
            }
        }
        loop
            invariant
                pos <= pack@.len(),
                spec_parse_entries(pack@, 0) == (match spec_parse_entries(
                    pack@.skip(pos as int),
                    off,
                ) {
                    Some(rest) => Some(blobs_view(blobs@) + rest),
                    None => None::<Seq<SpecBlob>>,
                }),
            decreases pack@.len() - pos,
        {
            let ghost rem = pack@.skip(pos as int);
            if pos == pack.len() {
                proof {
                    assert(rem =~= Seq::<u8>::empty());
                    assert(blobs_view(blobs@) + Seq::<SpecBlob>::empty() =~= blobs_view(blobs@));
                }
                return Ok(PackHeader(blobs));
            }
            let tag = pack[pos];
            proof {
                assert(rem[0] == pack@[pos as int]);
            }
            if tag > 3 {
                return Err(RepoError::Format);
            }
            let comp = tag >= 2;
            let elen: usize = if comp {
                ENTRY_LEN_COMPRESSED as usize
            } else {
                ENTRY_LEN as usize
            };
            if pack.len() - pos < elen {
                proof {
                    assert(rem.len() < elen);
                }
                return Err(RepoError::Format);
            }
            let length = read_le_u32(pack, pos + 1);
            proof {
                assert(pack@.subrange(pos as int + 1, pos as int + 5) =~= rem.subrange(1, 5));
            }
            let lu: u32 = if comp {
                let l = read_le_u32(pack, pos + 5);
                proof {
                    assert(pack@.subrange(pos as int + 5, pos as int + 9) =~= rem.subrange(5, 9));
                }
                l
            } else {
                0
            };
            let idoff: usize = if comp {
                9
            } else {
                5
            };
            proof {
                assert(pos + idoff + ID_LEN <= pack@.len());
            }
            let mut idbytes: Vec<u8> = Vec::new();
            let mut k: usize = 0;
            while k < ID_LEN
                invariant
                    k <= ID_LEN,
                    pack@.len() <= usize::MAX,
                    pos + idoff + ID_LEN <= pack@.len(),
                    idbytes@.len() == k,
                    forall|j: int| 0 <= j < k ==> idbytes@[j] == pack@[pos + idoff + j],
                decreases ID_LEN - k,
            {
                idbytes.push(pack[pos + idoff + k]);
                k += 1;
            }
            proof {
                assert(idbytes@ =~= rem.subrange(idoff as int, idoff as int + ID_LEN));
            }
            let id = Id::from_bytes(idbytes);
            if length > u32::MAX - off {
                return Err(RepoError::Format);
            }
            let blob = IndexBlob {
                id,
                tpe: if tag == 0 || tag == 2 {
                    BlobType::Data
                } else {
                    BlobType::Tree
                },
                offset: off,
                length,
                uncompressed_length: if comp && lu != 0 {
                    Some(lu)
                } else {
                    None
                },
            };
            let ghost prev_blobs = blobs_view(blobs@);
            let ghost bv = blob@;
            blobs.push(blob);
            proof {
                assert(rem.skip(elen as int) =~= pack@.skip(pos as int + elen));
                assert(blobs_view(blobs@) =~= prev_blobs + seq![bv]);
                match spec_parse_entries(rem.skip(elen as int), (off + length) as u32) {
                    Some(rest) => {
                        assert(prev_blobs + (seq![bv] + rest) =~= blobs_view(blobs@) + rest);
                    },
                    None => {},
                }
            }
            pos = pos + elen;
            off = off + length;
        }
    }

    /// The parsed blobs, in offset order.
    pub fn into_blobs(self) -> (r: Vec<IndexBlob>)
        ensures
            r@ == self.0@,
    {
        self.0
    }
}

/// Whether the blobs sit back to back from a start offset, without
/// overflowing the offset arithmetic.
pub open spec fn offsets_ok(s: Seq<SpecBlob>, start: u32) -> bool
    decreases s.len(),
{
    if s.len() == 0 {
        true
    } else {
        &&& s[0].offset == start
        &&& start + s[0].length <= u32::MAX
        &&& offsets_ok(s.skip(1), (start + s[0].length) as u32)
    }
}

/// Whether every blob of a header is well formed.
pub open spec fn blobs_wf(s: Seq<SpecBlob>) -> bool {
    forall|i: int| 0 <= i < s.len() ==> (#[trigger] s[i]).wf()
}

/// The serialized bytes of a well-formed entry have its entry length.
pub proof fn lemma_entry_bytes_len(b: SpecBlob)
    requires
        b.wf(),
    ensures
        spec_entry_bytes(b).len() == spec_entry_len(b),
{
}

/// Sums and bytes of a header split at any point.
pub proof fn lemma_header_split(s: Seq<SpecBlob>, i: int)
    requires
        0 <= i <= s.len(),
    ensures
        spec_entries_len(s) == spec_entries_len(s.take(i)) + spec_entries_len(s.skip(i)),
        spec_blobs_len(s) == spec_blobs_len(s.take(i)) + spec_blobs_len(s.skip(i)),
        spec_header_bytes(s) == spec_header_bytes(s.take(i)) + spec_header_bytes(s.skip(i)),
    decreases i,
{
    if i == 0 {
        assert(s.take(0) =~= Seq::<SpecBlob>::empty());
        assert(s.skip(0) =~= s);
        assert(spec_header_bytes(s.take(0)) + spec_header_bytes(s) =~= spec_header_bytes(s));
    } else {
        lemma_header_split(s.skip(1), i - 1);
        assert(s.take(i)[0] == s[0]);
        assert(s.take(i).skip(1) =~= s.skip(1).take(i - 1));
        assert(s.skip(i) =~= s.skip(1).skip(i - 1));
        assert(spec_header_bytes(s.take(i)) + spec_header_bytes(s.skip(i)) =~= spec_entry_bytes(
            s[0],
        ) + (spec_header_bytes(s.skip(1).take(i - 1)) + spec_header_bytes(s.skip(1).skip(i - 1))));
        assert(spec_header_bytes(s) =~= spec_entry_bytes(s[0]) + spec_header_bytes(s.skip(1)));
    }
}

/// Sums and bytes of a one-entry header.
pub proof fn lemma_singleton_sums(b: SpecBlob)
    ensures
        spec_entries_len(seq![b]) == spec_entry_len(b),
        spec_blobs_len(seq![b]) == b.length,
        spec_header_bytes(seq![b]) == spec_entry_bytes(b),
{
    let s = seq![b];
    assert(s.skip(1) =~= Seq::<SpecBlob>::empty());
    assert(s[0] == b);
    assert(spec_entries_len(Seq::<SpecBlob>::empty()) == 0);
    assert(spec_blobs_len(Seq::<SpecBlob>::empty()) == 0);
    assert(spec_header_bytes(Seq::<SpecBlob>::empty()) == Seq::<u8>::empty());
    assert(spec_entries_len(s) == spec_entry_len(b) + spec_entries_len(s.skip(1)));
    assert(spec_blobs_len(s) == b.length + spec_blobs_len(s.skip(1)));
    assert(spec_header_bytes(s) == spec_entry_bytes(b) + spec_header_bytes(s.skip(1)));
    assert(spec_entry_bytes(b) + Seq::<u8>::empty() =~= spec_entry_bytes(b));
}

/// Entry and blob length sums are never negative.
pub proof fn lemma_sums_nonneg(s: Seq<SpecBlob>)
    ensures
        spec_entries_len(s) >= 0,
        spec_blobs_len(s) >= 0,
    decreases s.len(),
{
    if s.len() > 0 {
        lemma_sums_nonneg(s.skip(1));
    }
}

/// Round trip: parsing a serialized header yields exactly the blobs it
/// was built from, for any well-formed blobs placed back to back.
/// The pieces of a serialized entry, read back by position.
proof fn lemma_entry_fields(b: SpecBlob)
    requires
        b.wf(),
    ensures
        spec_entry_bytes(b)[0] == spec_tag(b),
        spec_entry_bytes(b).subrange(1, 5) == spec_u32_le(b.length),
        b.uncompressed_length matches Some(l) ==> spec_entry_bytes(b).subrange(5, 9)
            == spec_u32_le(l),
        spec_entry_bytes(b).subrange(
            if b.uncompressed_length is Some {
                9int
            } else {
                5int
            },
            (if b.uncompressed_length is Some {
                9int
            } else {
                5int
            }) + ID_LEN,
        ) == b.id,
{
    let eb = spec_entry_bytes(b);
    assert(eb.subrange(1, 5) =~= spec_u32_le(b.length));
    match b.uncompressed_length {
        Some(l) => {
            assert(eb.subrange(5, 9) =~= spec_u32_le(l));
            assert(eb.subrange(9, 9 + ID_LEN) =~= b.id);
        },
        None => {
            assert(eb.subrange(5, 5 + ID_LEN) =~= b.id);
        },
    }
}

#[verifier::rlimit(100)]
pub proof fn lemma_header_round_trip(s: Seq<SpecBlob>, start: u32)
    requires
        blobs_wf(s),
        offsets_ok(s, start),
    ensures
        spec_parse_entries(spec_header_bytes(s), start) == Some(s),
    decreases s.len(),
{
    if s.len() == 0 {
        assert(spec_header_bytes(s).len() == 0);
        assert(spec_parse_entries(spec_header_bytes(s), start) =~= Some(Seq::<SpecBlob>::empty()));
        assert(s =~= Seq::<SpecBlob>::empty());
    } else {
        let b = s[0];
        assert(b.wf());
        let bytes = spec_header_bytes(s);
        let eb = spec_entry_bytes(b);
        let rest = spec_header_bytes(s.skip(1));
        lemma_entry_bytes_len(b);
        lemma_entry_fields(b);
        let comp = b.uncompressed_length is Some;
        let elen = spec_entry_len(b);
        let idoff: int = if comp {
            9
        } else {
            5
        };
        assert(bytes == eb + rest);
        assert(bytes[0] == spec_tag(b));
        assert(bytes[0] <= 3);
        assert((bytes[0] >= 2) == comp);
        assert(bytes.len() >= elen);
        assert(bytes.subrange(1, 5) =~= eb.subrange(1, 5));
        lemma_u32_le_round_trip(b.length);
        if comp {
            let l = b.uncompressed_length->Some_0;
            assert(bytes.subrange(5, 9) =~= eb.subrange(5, 9));
            lemma_u32_le_round_trip(l);
            assert(l != 0);
        }
        assert(bytes.subrange(idoff, idoff + ID_LEN) =~= eb.subrange(idoff, idoff + ID_LEN));
        assert(bytes.skip(elen) =~= rest);
        assert(blobs_wf(s.skip(1)));
        lemma_header_round_trip(s.skip(1), (start + b.length) as u32);
        assert(seq![b] + s.skip(1) =~= s);
        assert(spec_parse_entries(bytes, start) == Some(seq![b] + s.skip(1)));
    }
}

/// A reference to a pack's blobs, for size computation and serialization.
pub struct PackHeaderRef<'a> {
    pub blobs: &'a Vec<IndexBlob>,
}

impl<'a> PackHeaderRef<'a> {
    /// The blob views this header describes.
    pub open spec fn view_blobs(&self) -> Seq<SpecBlob> {
        blobs_view(self.blobs@)
    }

    /// The header over an index pack's blobs.
    pub fn from_index_pack(pack: &'a crate::indexfile::IndexPack) -> (r: Self)
        ensures
            r.blobs@ == pack.blobs@,
    {
        PackHeaderRef { blobs: &pack.blobs }
    }

    /// The encrypted size of this header.
    pub fn size(&self) -> (r: u32)
        requires
            spec_pack_size(blobs_view(self.blobs@)) <= u32::MAX,
        ensures
            r == spec_header_size(blobs_view(self.blobs@)),
    {
        let ghost s = blobs_view(self.blobs@);
        let mut acc: u32 = COMP_OVERHEAD;
        let mut i: usize = 0;
        proof {
            assert(s.take(0) =~= Seq::<SpecBlob>::empty());
        }
        while i < self.blobs.len()
            invariant
                s == blobs_view(self.blobs@),
                i <= s.len(),
                spec_pack_size(s) <= u32::MAX,
                acc == COMP_OVERHEAD + spec_entries_len(s.take(i as int)),
            decreases s.len() - i,
        {
            let entry = HeaderEntry::from_blob(&self.blobs[i]);
            let el = entry.length();
            proof {
                lemma_header_split(s, i as int + 1);
                lemma_header_split(s.take(i as int + 1), i as int);
                assert(s.take(i as int + 1).take(i as int) =~= s.take(i as int));
                assert(s.take(i as int + 1).skip(i as int) =~= seq![s[i as int]]);
                lemma_singleton_sums(s[i as int]);
                lemma_sums_nonneg(s.skip(i as int + 1));
                lemma_sums_nonneg(s);
                assert(el == spec_entry_len(s[i as int]));
            }
            acc = acc + el;
            i += 1;
        }
        proof {
            assert(s.take(s.len() as int) =~= s);
        }
        acc
    }

    /// The size of a whole pack holding these blobs.
    pub fn pack_size(&self) -> (r: u32)
        requires
            spec_pack_size(blobs_view(self.blobs@)) <= u32::MAX,
        ensures
            r == spec_pack_size(blobs_view(self.blobs@)),
    {
        let ghost s = blobs_view(self.blobs@);
        let mut acc: u32 = COMP_OVERHEAD + LENGTH_LEN;
        let mut i: usize = 0;
        proof {
            assert(s.take(0) =~= Seq::<SpecBlob>::empty());
        }
        while i < self.blobs.len()
            invariant
                s == blobs_view(self.blobs@),
                i <= s.len(),
                spec_pack_size(s) <= u32::MAX,
                acc == COMP_OVERHEAD + LENGTH_LEN + spec_entries_len(s.take(i as int))
                    + spec_blobs_len(s.take(i as int)),
            decreases s.len() - i,
        {
            let entry = HeaderEntry::from_blob(&self.blobs[i]);
            let el = entry.length();
            let bl = self.blobs[i].length;
            proof {
                lemma_header_split(s, i as int + 1);
                lemma_header_split(s.take(i as int + 1), i as int);
                assert(s.take(i as int + 1).take(i as int) =~= s.take(i as int));
                assert(s.take(i as int + 1).skip(i as int) =~= seq![s[i as int]]);
                lemma_singleton_sums(s[i as int]);
                lemma_sums_nonneg(s.skip(i as int + 1));
                lemma_sums_nonneg(s);
                assert(el == spec_entry_len(s[i as int]));
                assert(bl == s[i as int].length);
            }
            acc = acc + el + bl;
            i += 1;
        }
        proof {
            assert(s.take(s.len() as int) =~= s);
        }
        acc
    }

    /// The serialized header entries, in blob order.
    pub fn to_binary(&self) -> (r: Vec<u8>)
        ensures
            r@ == spec_header_bytes(blobs_view(self.blobs@)),
    {
        let ghost s = blobs_view(self.blobs@);
        let mut out: Vec<u8> = Vec::new();
        let mut i: usize = 0;
        proof {
            assert(s.take(0) =~= Seq::<SpecBlob>::empty());
            assert(out@ =~= spec_header_bytes(s.take(0)));
        }
        while i < self.blobs.len()
            invariant
                s == blobs_view(self.blobs@),
                i <= s.len(),
                out@ == spec_header_bytes(s.take(i as int)),
            decreases s.len() - i,
        {
            let b = &self.blobs[i];
            let ghost bv = b@;
            out.push(if b.uncompressed_length.is_some() {
                if matches!(b.tpe, BlobType::Data) {
                    2
                } else {
                    3
                }
            } else {
                if matches!(b.tpe, BlobType::Data) {
                    0
                } else {
                    1
                }
            });
            push_u32_le(&mut out, b.length);
            match b.uncompressed_length {
                Some(l) => push_u32_le(&mut out, l),
                None => {},
            }
            proof {
                assert(bv.id == b.id@);
                assert(bv.id.take(0) =~= Seq::<u8>::empty());
                assert(out@ =~= spec_header_bytes(s.take(i as int)) + seq![spec_tag(bv)]
                    + spec_u32_le(bv.length) + (match bv.uncompressed_length {
                    Some(l) => spec_u32_le(l),
                    None => Seq::<u8>::empty(),
                }) + bv.id.take(0));
            }
            let idlen = b.id.len_bytes();
            let mut kk: usize = 0;
            while kk < idlen
                invariant
                    idlen == bv.id.len(),
                    kk <= idlen,
                    bv.id == b.id@,
                    out@ == spec_header_bytes(s.take(i as int)) + seq![spec_tag(bv)] + spec_u32_le(
                        bv.length,
                    ) + (match bv.uncompressed_length {
                        Some(l) => spec_u32_le(l),
                        None => Seq::<u8>::empty(),
                    }) + bv.id.take(kk as int),
                decreases idlen - kk,
            {
                out.push(b.id.byte_at(kk));
                proof {
                    assert(bv.id.take(kk as int + 1) =~= bv.id.take(kk as int) + seq![
                        bv.id[kk as int],
                    ]);
                }
                kk += 1;
            }
            proof {
                assert(bv.id.take(bv.id.len() as int) =~= bv.id);
                lemma_header_split(s, i as int + 1);
                lemma_header_split(s.take(i as int + 1), i as int);
                assert(s.take(i as int + 1).take(i as int) =~= s.take(i as int));
                assert(s.take(i as int + 1).skip(i as int) =~= seq![s[i as int]]);
                lemma_singleton_sums(s[i as int]);
                assert(out@ =~= spec_header_bytes(s.take(i as int + 1)));
            }
            i += 1;
        }
        proof {
            assert(s.take(s.len() as int) =~= s);
        }
        out
    }
}

} // verus!
