//! The index model: which blob lives in which pack, at which offset.

use vstd::prelude::*;

use crate::blob::BlobType;
use crate::id::{Id, ID_LEN};
use crate::time::Time;

verus! {

/// The mathematical content of an index blob entry.
#[verifier::ext_equal]
pub ghost struct SpecBlob {
    pub id: Seq<u8>,
    pub tpe: BlobType,
    pub offset: u32,
    pub length: u32,
    pub uncompressed_length: Option<u32>,
}

impl SpecBlob {
    /// A well-formed entry: a full id, and a compressed length never zero.
    pub open spec fn wf(&self) -> bool {
        &&& self.id.len() == ID_LEN
        &&& (self.uncompressed_length matches Some(l) ==> l > 0)
    }
}

/// One blob's position inside a pack, as catalogued by an index.
pub struct IndexBlob {
    pub id: Id,
    pub tpe: BlobType,
    pub offset: u32,
    pub length: u32,
    /// The plaintext length before compression; none for an uncompressed blob.
    pub uncompressed_length: Option<u32>,
}

impl View for IndexBlob {
    type V = SpecBlob;

    open spec fn view(&self) -> SpecBlob {
        SpecBlob {
            id: self.id@,
            tpe: self.tpe,
            offset: self.offset,
            length: self.length,
            uncompressed_length: self.uncompressed_length,
        }
    }
}

impl Clone for IndexBlob {
    fn clone(&self) -> (r: Self)
        ensures
            r@ == self@,
    {
        IndexBlob {
            id: self.id.clone(),
            tpe: self.tpe,
            offset: self.offset,
            length: self.length,
            uncompressed_length: self.uncompressed_length,
        }
    }
}

/// The blob views of a blob vector.
pub open spec fn blobs_view(s: Seq<IndexBlob>) -> Seq<SpecBlob> {
    s.map_values(|b: IndexBlob| b@)
}

/// The mathematical content of a pack's index entry.
#[verifier::ext_equal]
pub ghost struct SpecIndexPack {
    pub id: Seq<u8>,
    pub time: Option<Time>,
    pub size: Option<u32>,
    pub blobs: Seq<SpecBlob>,
}

/// One pack's entry in an index: its id and its ordered blob list.
pub struct IndexPack {
    pub id: Id,
    pub time: Option<Time>,
    pub size: Option<u32>,
    pub blobs: Vec<IndexBlob>,
}

impl View for IndexPack {
    type V = SpecIndexPack;

    open spec fn view(&self) -> SpecIndexPack {
        SpecIndexPack {
            id: self.id@,
            time: self.time,
            size: self.size,
            blobs: blobs_view(self.blobs@),
        }
    }
}

impl DeepView for IndexPack {
    type V = SpecIndexPack;

    open spec fn deep_view(&self) -> SpecIndexPack {
        self.view()
    }
}

impl IndexPack {
    /// The kind of the pack, which is the kind of its blobs.
    ///
    /// A pack entry without blobs (a tombstone for an unindexed pack)
    /// counts as a data pack.
    pub fn blob_type(&self) -> (r: BlobType)
        ensures
            r == self.spec_blob_type(),
    {
        if self.blobs.len() > 0 {
            self.blobs[0].tpe
        } else {
            BlobType::Data
        }
    }

    /// The kind of the pack.
    pub open spec fn spec_blob_type(&self) -> BlobType {
        if self.blobs@.len() > 0 {
            self.blobs@[0].tpe
        } else {
            BlobType::Data
        }
    }

    /// A well-formed pack entry: well-formed blobs whose pack fits in `u32`.
    pub open spec fn wf(&self) -> bool {
        &&& self.id@.len() == ID_LEN
        &&& forall|i: int| 0 <= i < self.blobs@.len() ==> (#[trigger] self.blobs@[i])@.wf()
        &&& crate::packfile::spec_pack_size(blobs_view(self.blobs@)) <= u32::MAX
    }

    /// The size this pack takes in the store: the recorded size where one
    /// was catalogued, else the size computed from the blobs.
    pub open spec fn spec_pack_size(&self) -> int {
        match self.size {
            Some(s) => s as int,
            None => crate::packfile::spec_pack_size(blobs_view(self.blobs@)),
        }
    }

    /// Exec form of `spec_pack_size`.
    pub fn pack_size(&self) -> (r: u32)
        requires
            self.wf(),
        ensures
            r == self.spec_pack_size(),
    {
        match self.size {
            Some(s) => s,
            None => {
                proof {
                    assert forall|i: int|
                        0 <= i < blobs_view(self.blobs@).len() implies (#[trigger] blobs_view(
                        self.blobs@,
                    )[i]).wf() by {
                        assert(blobs_view(self.blobs@)[i] == self.blobs@[i]@);
                    }
                }
                let r = crate::packfile::PackHeaderRef { blobs: &self.blobs };
                r.pack_size()
            },
        }
    }
}

impl Clone for IndexPack {
    fn clone(&self) -> (r: Self)
        ensures
            r.id@ == self.id@,
            r.time == self.time,
            r.size == self.size,
            blobs_view(r.blobs@) == blobs_view(self.blobs@),
    {
        let mut blobs: Vec<IndexBlob> = Vec::new();
        let mut i: usize = 0;
        while i < self.blobs.len()
            invariant
                i <= self.blobs@.len(),
                blobs@.len() == i,
                forall|j: int| 0 <= j < i ==> blobs@[j]@ == self.blobs@[j]@,
            decreases self.blobs@.len() - i,
        {
            blobs.push(self.blobs[i].clone());
            i += 1;
        }
        proof {
            assert(blobs_view(blobs@) =~= blobs_view(self.blobs@));
        }
        IndexPack { id: self.id.clone(), time: self.time, size: self.size, blobs }
    }
}

/// Where one blob lives: its pack, position, length and kind.
pub struct IndexEntry {
    pub pack: Id,
    pub tpe: BlobType,
    pub offset: u32,
    pub length: u32,
    pub uncompressed_length: Option<u32>,
}

/// A persisted index document: live packs and tombstoned packs.
pub struct IndexFile {
    pub packs: Vec<IndexPack>,
    pub packs_to_delete: Vec<IndexPack>,
}

} // verus!
