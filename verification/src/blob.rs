//! Blob kinds: the two payload classes stored in packs.

use vstd::prelude::*;

verus! {

/// The kind of a blob: a serialized directory tree or a chunk of file data.
///
/// Tree packs sort before data packs wherever packs are ordered by kind.
#[derive(Clone, Copy, Debug, PartialEq, Eq, Hash, Structural)]
pub enum BlobType {
    Tree,
    Data,
}

impl BlobType {
    /// Tree packs may live in a local cache; data packs may not.
    pub fn is_cacheable(&self) -> (r: bool)
        ensures
            r == (self is Tree),
    {
        match self {
            BlobType::Tree => true,
            BlobType::Data => false,
        }
    }

    /// Order on kinds: `Tree` sorts before `Data`.
    pub open spec fn spec_le(self, other: BlobType) -> bool {
        self is Tree || other is Data
    }

    /// Exec form of `spec_le`.
    pub fn le(&self, other: &BlobType) -> (r: bool)
        ensures
            r == self.spec_le(*other),
    {
        match self {
            BlobType::Tree => true,
            BlobType::Data => matches!(other, BlobType::Data),
        }
    }
}

} // verus!
