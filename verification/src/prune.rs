//! The prune engine: classify every pack, then repack, tombstone, recover
//! or delete, while every used blob stays reachable.

use vstd::prelude::*;

use crate::blob::BlobType;
use crate::id::Id;
use crate::errors::RepoError;
use vstd::multiset::Multiset;
use crate::idmap::IdMap;
use crate::indexfile::{blobs_view, IndexBlob, IndexFile, IndexPack, SpecBlob, SpecIndexPack};
use crate::packer::PackSizer;
use crate::packfile::{lemma_header_split, lemma_singleton_sums, lemma_sums_nonneg, spec_blobs_len};
use crate::time::Time;

verus! {

broadcast use vstd::seq_lib::group_to_multiset_ensures;

/// What prune decided for one pack.
#[derive(Clone, Copy, Debug, PartialEq, Eq, Structural)]
pub enum PackToDo {
    Undecided,
    Keep,
    Repack,
    MarkDelete,
    KeepMarked,
    Recover,
    Delete,
}

/// Why a pack became a repack candidate.
#[derive(Clone, Copy, Debug, PartialEq, Eq, Structural)]
pub enum RepackReason {
    PartlyUsed,
    ToCompress,
    SizeMismatch,
}

/// A map with one value per blob kind.
#[derive(Clone, Copy, Debug, PartialEq, Eq, Structural)]
pub struct KindMap<T> {
    pub tree: T,
    pub data: T,
}

impl<T> KindMap<T> {
    /// The value of a kind.
    pub open spec fn spec_get(&self, tpe: BlobType) -> T {
        match tpe {
            BlobType::Tree => self.tree,
            BlobType::Data => self.data,
        }
    }

    /// Borrow the value of a kind.
    pub fn get(&self, tpe: BlobType) -> (r: &T)
        ensures
            *r == self.spec_get(tpe),
    {
        match tpe {
            BlobType::Tree => &self.tree,
            BlobType::Data => &self.data,
        }
    }
}

/// Counts over the packs already marked for deletion.
#[derive(Clone, Copy, Debug, PartialEq, Eq, Structural)]
pub struct DeleteStats {
    pub remove: u64,
    pub recover: u64,
    pub keep: u64,
}

impl DeleteStats {
    /// All tombstoned packs seen.
    pub fn total(&self) -> (r: u64)
        requires
            self.remove + self.recover + self.keep <= u64::MAX,
        ensures
            r == self.remove + self.recover + self.keep,
    {
        self.remove + self.recover + self.keep
    }
}

/// Counts of live packs by their classification.
#[derive(Clone, Copy, Debug, PartialEq, Eq, Structural)]
pub struct PackStats {
    pub used: u64,
    pub partly_used: u64,
    pub unused: u64,
    pub repack: u64,
    pub keep: u64,
}

/// Byte or blob counts split into used and unused shares.
#[derive(Clone, Copy, Debug, PartialEq, Eq, Structural)]
pub struct SizeStats {
    pub used: u64,
    pub unused: u64,
    pub remove: u64,
    pub repack: u64,
    pub repackrm: u64,
}

impl SizeStats {
    /// All bytes or blobs seen.
    pub fn total(&self) -> (r: u64)
        requires
            self.used + self.unused <= u64::MAX,
        ensures
            r == self.used + self.unused,
    {
        self.used + self.unused
    }

    /// What remains after this prune run.
    pub fn total_after_prune(&self) -> (r: u64)
        requires
            self.remove + self.repackrm <= self.unused,
            self.used + self.unused <= u64::MAX,
        ensures
            r == self.used + self.spec_unused_after_prune(),
    {
        self.used + self.unused_after_prune()
    }

    /// The unused bytes or blobs that survive this prune run.
    pub fn unused_after_prune(&self) -> (r: u64)
        requires
            self.remove + self.repackrm <= self.unused,
        ensures
            r == self.spec_unused_after_prune(),
    {
        self.unused - self.remove - self.repackrm
    }

    /// The unused share left after removal and repacking.
    pub open spec fn spec_unused_after_prune(&self) -> int {
        self.unused - self.remove - self.repackrm
    }
}

/// Everything the prune run counted, for reporting and budgeting.
#[derive(Clone, Copy, Debug, PartialEq, Eq, Structural)]
pub struct PruneStats {
    pub packs_to_delete: DeleteStats,
    pub size_to_delete: DeleteStats,
    pub packs: PackStats,
    pub blobs: KindMap<SizeStats>,
    pub size: KindMap<SizeStats>,
    pub size_unref: u64,
    pub index_files: u64,
}

/// The mathematical content of a prune pack.
#[verifier::ext_equal]
pub ghost struct SpecPrunePack {
    pub id: Seq<u8>,
    pub blob_type: BlobType,
    pub size: u32,
    pub delete_mark: bool,
    pub to_do: PackToDo,
    pub time: Option<Time>,
    pub blobs: Seq<SpecBlob>,
}

/// One pack under prune's consideration.
pub struct PrunePack {
    pub id: Id,
    pub blob_type: BlobType,
    pub size: u32,
    pub delete_mark: bool,
    pub to_do: PackToDo,
    pub time: Option<Time>,
    pub blobs: Vec<IndexBlob>,
}

impl View for PrunePack {
    type V = SpecPrunePack;

    open spec fn view(&self) -> SpecPrunePack {
        SpecPrunePack {
            id: self.id@,
            blob_type: self.blob_type,
            size: self.size,
            delete_mark: self.delete_mark,
            to_do: self.to_do,
            time: self.time,
            blobs: blobs_view(self.blobs@),
        }
    }
}

impl DeepView for PrunePack {
    type V = SpecPrunePack;

    open spec fn deep_view(&self) -> SpecPrunePack {
        self.view()
    }
}

impl PrunePack {
    /// Adopt an index pack entry, live or tombstoned, as undecided.
    pub fn from_index_pack(p: IndexPack, delete_mark: bool) -> (r: Self)
        requires
            p.wf(),
        ensures
            r@.id == p.id@,
            r@.blob_type == p.spec_blob_type(),
            r@.size == p.spec_pack_size(),
            r@.delete_mark == delete_mark,
            r@.to_do is Undecided,
            r@.time == p.time,
            r@.blobs == blobs_view(p.blobs@),
    {
        let blob_type = p.blob_type();
        let size = p.pack_size();
        PrunePack {
            id: p.id,
            blob_type,
            size,
            delete_mark,
            to_do: PackToDo::Undecided,
            time: p.time,
            blobs: p.blobs,
        }
    }

    /// Adopt a live index pack entry.
    pub fn from_index_pack_unmarked(p: IndexPack) -> (r: Self)
        requires
            p.wf(),
        ensures
            r@.id == p.id@,
            r@.blob_type == p.spec_blob_type(),
            r@.size == p.spec_pack_size(),
            r@.delete_mark == false,
            r@.to_do is Undecided,
            r@.time == p.time,
            r@.blobs == blobs_view(p.blobs@),
    {
        Self::from_index_pack(p, false)
    }

    /// Adopt a tombstoned index pack entry.
    pub fn from_index_pack_marked(p: IndexPack) -> (r: Self)
        requires
            p.wf(),
        ensures
            r@.id == p.id@,
            r@.blob_type == p.spec_blob_type(),
            r@.size == p.spec_pack_size(),
            r@.delete_mark == true,
            r@.to_do is Undecided,
            r@.time == p.time,
            r@.blobs == blobs_view(p.blobs@),
    {
        Self::from_index_pack(p, true)
    }

    /// Turn back into an index entry, with its stored time and no size.
    pub fn into_index_pack(self) -> (r: IndexPack)
        ensures
            r.id@ == self@.id,
            r.time == self@.time,
            r.size is None,
            blobs_view(r.blobs@) == self@.blobs,
    {
        IndexPack { id: self.id, time: self.time, size: None, blobs: self.blobs }
    }

    /// Turn back into an index entry stamped with a new time.
    pub fn into_index_pack_with_time(self, time: Time) -> (r: IndexPack)
        ensures
            r.id@ == self@.id,
            r.time == Some(time),
            r.size is None,
            blobs_view(r.blobs@) == self@.blobs,
    {
        IndexPack { id: self.id, time: Some(time), size: None, blobs: self.blobs }
    }

    /// Whether every blob of the pack is stored compressed.
    pub fn is_compressed(&self) -> (r: bool)
        ensures
            r == self@.spec_is_compressed(),
    {
        let mut i: usize = 0;
        while i < self.blobs.len()
            invariant
                i <= self.blobs@.len(),
                forall|j: int|
                    0 <= j < i ==> (#[trigger] blobs_view(self.blobs@)[j]).uncompressed_length
                        is Some,
            decreases self.blobs@.len() - i,
        {
            if self.blobs[i].uncompressed_length.is_none() {
                proof {
                    assert(blobs_view(self.blobs@)[i as int].uncompressed_length is None);
                }
                return false;
            }
            proof {
                assert(blobs_view(self.blobs@)[i as int] == self.blobs@[i as int]@);
            }
            i += 1;
        }
        true
    }
}

impl SpecPrunePack {
    /// Whether every blob of the pack is stored compressed.
    pub open spec fn spec_is_compressed(&self) -> bool {
        forall|j: int|
            0 <= j < self.blobs.len() ==> (#[trigger] self.blobs[j]).uncompressed_length is Some
    }
}

/// The mathematical content of an index file under prune.
#[verifier::ext_equal]
pub ghost struct SpecPruneIndex {
    pub id: Seq<u8>,
    pub modified: bool,
    pub packs: Seq<SpecPrunePack>,
}

/// One index file under prune's consideration.
pub struct PruneIndex {
    pub id: Id,
    pub modified: bool,
    pub packs: Vec<PrunePack>,
}

impl View for PruneIndex {
    type V = SpecPruneIndex;

    open spec fn view(&self) -> SpecPruneIndex {
        SpecPruneIndex { id: self.id@, modified: self.modified, packs: self.packs.deep_view() }
    }
}

impl DeepView for PruneIndex {
    type V = SpecPruneIndex;

    open spec fn deep_view(&self) -> SpecPruneIndex {
        self.view()
    }
}

impl PruneIndex {
    /// The number of blob entries this index holds.
    pub open spec fn spec_len(&self) -> int {
        spec_index_blob_count(self.packs@, self.packs@.len() as int)
    }

    /// Count the blob entries of this index.
    pub fn len(&self) -> (r: usize)
        requires
            self.spec_len() <= usize::MAX,
        ensures
            r == self.spec_len(),
    {
        let mut acc: usize = 0;
        let mut i: usize = 0;
        while i < self.packs.len()
            invariant
                i <= self.packs@.len(),
                acc == spec_index_blob_count(self.packs@, i as int),
                spec_index_blob_count(self.packs@, self.packs@.len() as int) <= usize::MAX,
            decreases self.packs@.len() - i,
        {
            proof {
                lemma_index_blob_count_mono(self.packs@, i as int + 1, self.packs@.len() as int);
            }
            acc = acc + self.packs[i].blobs.len();
            i += 1;
        }
        acc
    }
}

/// The blob entries of the first `i` packs.
pub open spec fn spec_index_blob_count(packs: Seq<PrunePack>, i: int) -> int
    decreases i,
{
    if i <= 0 {
        0
    } else {
        spec_index_blob_count(packs, i - 1) + packs[i - 1].blobs@.len()
    }
}

/// The blob count of a prefix is never negative.
proof fn lemma_index_blob_count_nonneg(packs: Seq<PrunePack>, i: int)
    ensures
        spec_index_blob_count(packs, i) >= 0,
    decreases i,
{
    if i > 0 {
        lemma_index_blob_count_nonneg(packs, i - 1);
    }
}

/// The blob count over a prefix never exceeds the whole count.
proof fn lemma_index_blob_count_mono(packs: Seq<PrunePack>, i: int, n: int)
    requires
        0 <= i <= n,
    ensures
        spec_index_blob_count(packs, i) <= spec_index_blob_count(packs, n),
    decreases n - i,
{
    if i < n {
        lemma_index_blob_count_mono(packs, i + 1, n);
    }
}

/// How a pack's blobs divide into still-needed and dispensable ones.
#[derive(Clone, Copy, Debug, PartialEq, Eq, Structural)]
pub struct PackInfo {
    pub blob_type: BlobType,
    pub used_blobs: u16,
    pub unused_blobs: u16,
    pub used_size: u32,
    pub unused_size: u32,
}

/// Integer-valued pack usage counters, for specification.
#[verifier::ext_equal]
pub ghost struct GPackInfo {
    pub used_blobs: int,
    pub unused_blobs: int,
    pub used_size: int,
    pub unused_size: int,
}

impl GPackInfo {
    /// All counters zero.
    pub open spec fn zero() -> GPackInfo {
        GPackInfo { used_blobs: 0, unused_blobs: 0, used_size: 0, unused_size: 0 }
    }

    /// Count one more dispensable blob.
    pub open spec fn add_unused(self, len: u32) -> GPackInfo {
        GPackInfo {
            unused_blobs: self.unused_blobs + 1,
            unused_size: self.unused_size + len,
            ..self
        }
    }

    /// Count one more needed blob.
    pub open spec fn add_used(self, len: u32) -> GPackInfo {
        GPackInfo { used_blobs: self.used_blobs + 1, used_size: self.used_size + len, ..self }
    }

    /// Reclassify one dispensable blob as needed.
    pub open spec fn move_to_used(self, len: u32) -> GPackInfo {
        GPackInfo {
            used_blobs: self.used_blobs + 1,
            used_size: self.used_size + len,
            unused_blobs: self.unused_blobs - 1,
            unused_size: self.unused_size - len,
        }
    }

    /// Whether an executable pack info carries these counters.
    pub open spec fn matches(self, pi: PackInfo) -> bool {
        &&& pi.used_blobs == self.used_blobs
        &&& pi.unused_blobs == self.unused_blobs
        &&& pi.used_size == self.used_size
        &&& pi.unused_size == self.unused_size
    }
}

/// First sweep over a pack's blobs: walk in offset order, decrement the
/// needed-count of each used blob, and stop at the first blob whose count
/// reaches zero, which proves the pack is needed.
pub open spec fn spec_pass_search(
    blobs: Seq<SpecBlob>,
    j: int,
    m: Map<Seq<u8>, u8>,
    pi: GPackInfo,
) -> (Option<int>, Map<Seq<u8>, u8>, GPackInfo)
    decreases blobs.len() - j,
{
    if j < 0 || j >= blobs.len() {
        (None, m, pi)
    } else {
        let id = blobs[j].id;
        let len = blobs[j].length;
        if !m.contains_key(id) || m[id] == 0 {
            spec_pass_search(blobs, j + 1, m, pi.add_unused(len))
        } else {
            let c = (m[id] - 1) as u8;
            let m2 = m.insert(id, c);
            if c == 0 {
                (Some(j), m2, pi.add_used(len))
            } else {
                spec_pass_search(blobs, j + 1, m2, pi.add_unused(len))
            }
        }
    }
}

/// Second sweep, once the pack is known to be needed: blobs before the
/// first needed one whose count is still positive are reclassified as
/// needed, and their counts drop to zero so no other pack claims them.
pub open spec fn spec_pass_mark(
    blobs: Seq<SpecBlob>,
    j: int,
    end: int,
    m: Map<Seq<u8>, u8>,
    pi: GPackInfo,
) -> (Map<Seq<u8>, u8>, GPackInfo)
    decreases end - j,
{
    if j < 0 || j >= end || end > blobs.len() {
        (m, pi)
    } else {
        let id = blobs[j].id;
        let len = blobs[j].length;
        if !m.contains_key(id) || m[id] == 0 {
            spec_pass_mark(blobs, j + 1, end, m, pi)
        } else {
            spec_pass_mark(blobs, j + 1, end, m.insert(id, 0), pi.move_to_used(len))
        }
    }
}

/// Third sweep: blobs after the first needed one count as needed exactly
/// when their count is still positive, and are claimed the same way.
pub open spec fn spec_pass_tail(
    blobs: Seq<SpecBlob>,
    j: int,
    m: Map<Seq<u8>, u8>,
    pi: GPackInfo,
) -> (Map<Seq<u8>, u8>, GPackInfo)
    decreases blobs.len() - j,
{
    if j < 0 || j >= blobs.len() {
        (m, pi)
    } else {
        let id = blobs[j].id;
        let len = blobs[j].length;
        if !m.contains_key(id) || m[id] == 0 {
            spec_pass_tail(blobs, j + 1, m, pi.add_unused(len))
        } else {
            spec_pass_tail(blobs, j + 1, m.insert(id, 0), pi.add_used(len))
        }
    }
}

/// The whole usage scan of one pack, and the needed-counts it leaves.
pub open spec fn spec_pack_scan(blobs: Seq<SpecBlob>, m: Map<Seq<u8>, u8>) -> (
    GPackInfo,
    Map<Seq<u8>, u8>,
) {
    let s1 = spec_pass_search(blobs, 0, m, GPackInfo::zero());
    match s1.0 {
        None => (s1.2, s1.1),
        Some(k) => {
            let s2 = spec_pass_mark(blobs, 0, k, s1.1, s1.2);
            let s3 = spec_pass_tail(blobs, k + 1, s2.0, s2.1);
            (s3.1, s3.0)
        },
    }
}

/// The counters as integers.
pub open spec fn g_of(ub: u16, unb: u16, us: u32, uns: u32) -> GPackInfo {
    GPackInfo {
        used_blobs: ub as int,
        unused_blobs: unb as int,
        used_size: us as int,
        unused_size: uns as int,
    }
}

/// A sum of blob lengths of a prefix stays under the total.
proof fn lemma_blobs_len_prefix(s: Seq<SpecBlob>, i: int)
    requires
        0 <= i <= s.len(),
    ensures
        spec_blobs_len(s.take(i)) <= spec_blobs_len(s),
        spec_blobs_len(s.take(i)) >= 0,
    decreases i,
{
    lemma_header_split(s, i);
    lemma_sums_nonneg(s.take(i));
    lemma_sums_nonneg(s.skip(i));
}

/// One more blob extends a prefix sum by its length.
proof fn lemma_blobs_len_snoc(s: Seq<SpecBlob>, i: int)
    requires
        0 <= i < s.len(),
    ensures
        spec_blobs_len(s.take(i + 1)) == spec_blobs_len(s.take(i)) + s[i].length,
{
    lemma_header_split(s, i + 1);
    lemma_header_split(s.take(i + 1), i);
    assert(s.take(i + 1).take(i) =~= s.take(i));
    assert(s.take(i + 1).skip(i) =~= seq![s[i]]);
    lemma_singleton_sums(s[i]);
    lemma_header_split(s, i);
    assert(spec_blobs_len(s.take(i + 1)) == spec_blobs_len(s.take(i)) + s[i].length) by {
        assert(spec_blobs_len(s.take(i + 1)) == spec_blobs_len(s.take(i)) + spec_blobs_len(
            seq![s[i]],
        ));
    }
}

/// The blob lengths of an inner segment, one step at a time.
proof fn lemma_blobs_len_segment(s: Seq<SpecBlob>, j: int, end: int)
    requires
        0 <= j < end <= s.len(),
    ensures
        spec_blobs_len(s.subrange(j, end)) == s[j].length + spec_blobs_len(s.subrange(j + 1, end)),
        spec_blobs_len(s.subrange(j + 1, end)) >= 0,
{
    let seg = s.subrange(j, end);
    assert(seg[0] == s[j]);
    assert(seg.skip(1) =~= s.subrange(j + 1, end));
    lemma_sums_nonneg(s.subrange(j + 1, end));
}

/// Saturating addition on 64-bit counters.
pub open spec fn spec_sat_add(a: u64, b: u64) -> u64 {
    if a + b > u64::MAX {
        u64::MAX
    } else {
        (a + b) as u64
    }
}

/// Saturating addition on 64-bit counters.
pub fn sat_add(a: u64, b: u64) -> (r: u64)
    ensures
        r == spec_sat_add(a, b),
{
    if a <= u64::MAX - b {
        a + b
    } else {
        u64::MAX
    }
}

/// The statistics after recording one pack's decision.
pub open spec fn spec_apply_todo(
    stats: PruneStats,
    todo: PackToDo,
    tpe: BlobType,
    pi: GPackInfo,
    pack_size: u32,
) -> PruneStats {
    let blobs = stats.blobs.spec_get(tpe);
    let size = stats.size.spec_get(tpe);
    match todo {
        PackToDo::Undecided => stats,
        PackToDo::Keep => {
            let blobs2 = SizeStats {
                used: spec_sat_add(blobs.used, pi.used_blobs as u64),
                unused: spec_sat_add(blobs.unused, pi.unused_blobs as u64),
                ..blobs
            };
            let size2 = SizeStats {
                used: spec_sat_add(size.used, pi.used_size as u64),
                unused: spec_sat_add(size.unused, pi.unused_size as u64),
                ..size
            };
            PruneStats {
                blobs: spec_kind_set(stats.blobs, tpe, blobs2),
                size: spec_kind_set(stats.size, tpe, size2),
                packs: PackStats { keep: spec_sat_add(stats.packs.keep, 1), ..stats.packs },
                ..stats
            }
        },
        PackToDo::Repack => {
            let blobs2 = SizeStats {
                used: spec_sat_add(blobs.used, pi.used_blobs as u64),
                unused: spec_sat_add(blobs.unused, pi.unused_blobs as u64),
                repack: spec_sat_add(
                    blobs.repack,
                    spec_sat_add(pi.unused_blobs as u64, pi.used_blobs as u64),
                ),
                repackrm: spec_sat_add(blobs.repackrm, pi.unused_blobs as u64),
                ..blobs
            };
            let size2 = SizeStats {
                used: spec_sat_add(size.used, pi.used_size as u64),
                unused: spec_sat_add(size.unused, pi.unused_size as u64),
                repack: spec_sat_add(
                    size.repack,
                    spec_sat_add(pi.unused_size as u64, pi.used_size as u64),
                ),
                repackrm: spec_sat_add(size.repackrm, pi.unused_size as u64),
                ..size
            };
            PruneStats {
                blobs: spec_kind_set(stats.blobs, tpe, blobs2),
                size: spec_kind_set(stats.size, tpe, size2),
                packs: PackStats { repack: spec_sat_add(stats.packs.repack, 1), ..stats.packs },
                ..stats
            }
        },
        PackToDo::MarkDelete => {
            let blobs2 = SizeStats {
                unused: spec_sat_add(blobs.unused, pi.unused_blobs as u64),
                remove: spec_sat_add(blobs.remove, pi.unused_blobs as u64),
                ..blobs
            };
            let size2 = SizeStats {
                unused: spec_sat_add(size.unused, pi.unused_size as u64),
                remove: spec_sat_add(size.remove, pi.unused_size as u64),
                ..size
            };
            PruneStats {
                blobs: spec_kind_set(stats.blobs, tpe, blobs2),
                size: spec_kind_set(stats.size, tpe, size2),
                ..stats
            }
        },
        PackToDo::Recover => PruneStats {
            packs_to_delete: DeleteStats {
                recover: spec_sat_add(stats.packs_to_delete.recover, 1),
                ..stats.packs_to_delete
            },
            size_to_delete: DeleteStats {
                recover: spec_sat_add(stats.size_to_delete.recover, pack_size as u64),
                ..stats.size_to_delete
            },
            ..stats
        },
        PackToDo::Delete => PruneStats {
            packs_to_delete: DeleteStats {
                remove: spec_sat_add(stats.packs_to_delete.remove, 1),
                ..stats.packs_to_delete
            },
            size_to_delete: DeleteStats {
                remove: spec_sat_add(stats.size_to_delete.remove, pack_size as u64),
                ..stats.size_to_delete
            },
            ..stats
        },
        PackToDo::KeepMarked => PruneStats {
            packs_to_delete: DeleteStats {
                keep: spec_sat_add(stats.packs_to_delete.keep, 1),
                ..stats.packs_to_delete
            },
            size_to_delete: DeleteStats {
                keep: spec_sat_add(stats.size_to_delete.keep, pack_size as u64),
                ..stats.size_to_delete
            },
            ..stats
        },
    }
}

/// A kind map with one kind's value replaced.
pub open spec fn spec_kind_set<T>(m: KindMap<T>, tpe: BlobType, v: T) -> KindMap<T> {
    match tpe {
        BlobType::Tree => KindMap { tree: v, ..m },
        BlobType::Data => KindMap { data: v, ..m },
    }
}

impl PrunePack {
    /// Record a decision for this pack and book it into the statistics.
    pub fn set_todo(&mut self, todo: PackToDo, pi: &PackInfo, stats: &mut PruneStats)
        requires
            !(todo is Undecided),
    ensures
            *final(self) == (PrunePack { to_do: todo, ..*old(self) }),
            *final(stats) == spec_apply_todo(
                *old(stats),
                todo,
                old(self).blob_type,
                g_of(pi.used_blobs, pi.unused_blobs, pi.used_size, pi.unused_size),
                old(self).size,
            ),
    {
        let tpe = self.blob_type;
        match todo {
            PackToDo::Undecided => {},
            PackToDo::Keep => {
                let b = *stats.blobs.get(tpe);
                let s = *stats.size.get(tpe);
                let b2 = SizeStats {
                    used: sat_add(b.used, pi.used_blobs as u64),
                    unused: sat_add(b.unused, pi.unused_blobs as u64),
                    ..b
                };
                let s2 = SizeStats {
                    used: sat_add(s.used, pi.used_size as u64),
                    unused: sat_add(s.unused, pi.unused_size as u64),
                    ..s
                };
                stats_set_blobs(stats, tpe, b2);
                stats_set_size(stats, tpe, s2);
                stats.packs.keep = sat_add(stats.packs.keep, 1);
            },
            PackToDo::Repack => {
                let b = *stats.blobs.get(tpe);
                let s = *stats.size.get(tpe);
                let b2 = SizeStats {
                    used: sat_add(b.used, pi.used_blobs as u64),
                    unused: sat_add(b.unused, pi.unused_blobs as u64),
                    repack: sat_add(b.repack, sat_add(pi.unused_blobs as u64, pi.used_blobs as u64)),
                    repackrm: sat_add(b.repackrm, pi.unused_blobs as u64),
                    ..b
                };
                let s2 = SizeStats {
                    used: sat_add(s.used, pi.used_size as u64),
                    unused: sat_add(s.unused, pi.unused_size as u64),
                    repack: sat_add(s.repack, sat_add(pi.unused_size as u64, pi.used_size as u64)),
                    repackrm: sat_add(s.repackrm, pi.unused_size as u64),
                    ..s
                };
                stats_set_blobs(stats, tpe, b2);
                stats_set_size(stats, tpe, s2);
                stats.packs.repack = sat_add(stats.packs.repack, 1);
            },
            PackToDo::MarkDelete => {
                let b = *stats.blobs.get(tpe);
                let s = *stats.size.get(tpe);
                let b2 = SizeStats {
                    unused: sat_add(b.unused, pi.unused_blobs as u64),
                    remove: sat_add(b.remove, pi.unused_blobs as u64),
                    ..b
                };
                let s2 = SizeStats {
                    unused: sat_add(s.unused, pi.unused_size as u64),
                    remove: sat_add(s.remove, pi.unused_size as u64),
                    ..s
                };
                stats_set_blobs(stats, tpe, b2);
                stats_set_size(stats, tpe, s2);
            },
            PackToDo::Recover => {
                stats.packs_to_delete.recover = sat_add(stats.packs_to_delete.recover, 1);
                stats.size_to_delete.recover = sat_add(
                    stats.size_to_delete.recover,
                    self.size as u64,
                );
            },
            PackToDo::Delete => {
                stats.packs_to_delete.remove = sat_add(stats.packs_to_delete.remove, 1);
                stats.size_to_delete.remove = sat_add(
                    stats.size_to_delete.remove,
                    self.size as u64,
                );
            },
            PackToDo::KeepMarked => {
                stats.packs_to_delete.keep = sat_add(stats.packs_to_delete.keep, 1);
                stats.size_to_delete.keep = sat_add(stats.size_to_delete.keep, self.size as u64);
            },
        }
        self.to_do = todo;
    }
}

/// Replace one kind's blob statistics.
fn stats_set_blobs(stats: &mut PruneStats, tpe: BlobType, v: SizeStats)
    ensures
        *final(stats) == (PruneStats {
            blobs: spec_kind_set(old(stats).blobs, tpe, v),
            ..*old(stats)
        }),
{
    match tpe {
        BlobType::Tree => stats.blobs.tree = v,
        BlobType::Data => stats.blobs.data = v,
    }
}

/// Replace one kind's size statistics.
fn stats_set_size(stats: &mut PruneStats, tpe: BlobType, v: SizeStats)
    ensures
        *final(stats) == (PruneStats {
            size: spec_kind_set(old(stats).size, tpe, v),
            ..*old(stats)
        }),
{
    match tpe {
        BlobType::Tree => stats.size.tree = v,
        BlobType::Data => stats.size.data = v,
    }
}

impl PackInfo {
    /// Scan one pack's blobs against the needed-counts, classifying each
    /// blob occurrence as needed or dispensable and claiming needed blobs
    /// so that no later pack claims them again.
    pub fn from_pack(pack: &PrunePack, used_ids: &mut IdMap<u8>) -> (pi: PackInfo)
        requires
            old(used_ids).wf(),
            pack.blobs@.len() <= u16::MAX,
            spec_blobs_len(blobs_view(pack.blobs@)) <= u32::MAX,
        ensures
            final(used_ids).wf(),
            pi.blob_type == pack.blob_type,
            ({
                let scan = spec_pack_scan(blobs_view(pack.blobs@), old(used_ids).as_map());
                scan.0.matches(pi) && final(used_ids).as_map() == scan.1
            }),
    {
        let ghost bs = blobs_view(pack.blobs@);
        let ghost m0 = used_ids.as_map();
        let n = pack.blobs.len();
        let mut used_blobs: u16 = 0;
        let mut unused_blobs: u16 = 0;
        let mut used_size: u32 = 0;
        let mut unused_size: u32 = 0;
        let mut j: usize = 0;
        let mut found = false;
        let mut k: usize = 0;
        proof {
            assert(bs.take(0) =~= Seq::<SpecBlob>::empty());
        }
        while j < n && !found
            invariant
                used_ids.wf(),
                bs == blobs_view(pack.blobs@),
                n == bs.len(),
                n <= u16::MAX,
                spec_blobs_len(bs) <= u32::MAX,
                j <= n,
                !found ==> spec_pass_search(bs, 0, m0, GPackInfo::zero()) == spec_pass_search(
                    bs,
                    j as int,
                    used_ids.as_map(),
                    g_of(used_blobs, unused_blobs, used_size, unused_size),
                ),
                !found ==> used_blobs == 0 && used_size == 0 && unused_blobs == j && unused_size
                    == spec_blobs_len(bs.take(j as int)),
                found ==> k == j < n && used_blobs == 1 && used_size == bs[k as int].length
                    && unused_blobs == k && unused_size == spec_blobs_len(bs.take(k as int))
                    && spec_pass_search(bs, 0, m0, GPackInfo::zero()) == (
                    Some(k as int),
                    used_ids.as_map(),
                    g_of(used_blobs, unused_blobs, used_size, unused_size),
                ),
            decreases n - j + (if found {
                0int
            } else {
                1int
            }),
        {
            let blob = &pack.blobs[j];
            let ghost gnow = g_of(used_blobs, unused_blobs, used_size, unused_size);
            proof {
                assert(bs[j as int] == pack.blobs@[j as int]@);
                lemma_blobs_len_snoc(bs, j as int);
                lemma_blobs_len_prefix(bs, j as int + 1);
            }
            let cur: u8 = match used_ids.get(&blob.id) {
                Some(c) => *c,
                None => 0,
            };
            if cur == 0 {
                unused_blobs = unused_blobs + 1;
                unused_size = unused_size + blob.length;
                proof {
                    assert(spec_pass_search(bs, j as int, used_ids.as_map(), gnow)
                        == spec_pass_search(
                        bs,
                        j as int + 1,
                        used_ids.as_map(),
                        gnow.add_unused(bs[j as int].length),
                    ));
                }
                j = j + 1;
            } else {
                let c2: u8 = cur - 1;
                let ghost mpre = used_ids.as_map();
                used_ids.insert(blob.id.clone(), c2);
                if c2 == 0 {
                    used_blobs = used_blobs + 1;
                    used_size = used_size + blob.length;
                    found = true;
                    k = j;
                    proof {
                        assert(spec_pass_search(bs, j as int, mpre, gnow) == (
                            Some(j as int),
                            used_ids.as_map(),
                            gnow.add_used(bs[j as int].length),
                        ));
                    }
                } else {
                    unused_blobs = unused_blobs + 1;
                    unused_size = unused_size + blob.length;
                    proof {
                        assert(spec_pass_search(bs, j as int, mpre, gnow) == spec_pass_search(
                            bs,
                            j as int + 1,
                            used_ids.as_map(),
                            gnow.add_unused(bs[j as int].length),
                        ));
                    }
                    j = j + 1;
                }
            }
        }
        if !found {
            proof {
                assert(spec_pass_search(
                    bs,
                    n as int,
                    used_ids.as_map(),
                    g_of(used_blobs, unused_blobs, used_size, unused_size),
                ) == (
                    None::<int>,
                    used_ids.as_map(),
                    g_of(used_blobs, unused_blobs, used_size, unused_size),
                ));
            }
            return PackInfo {
                blob_type: pack.blob_type,
                used_blobs,
                unused_blobs,
                used_size,
                unused_size,
            };
        }
        let ghost m1 = used_ids.as_map();
        let ghost g1 = g_of(used_blobs, unused_blobs, used_size, unused_size);
        proof {
            lemma_blobs_len_snoc(bs, k as int);
            assert(bs.subrange(0, k as int) =~= bs.take(k as int));
        }
        let mut j2: usize = 0;
        while j2 < k
            invariant
                used_ids.wf(),
                bs == blobs_view(pack.blobs@),
                n == bs.len(),
                n <= u16::MAX,
                spec_blobs_len(bs) <= u32::MAX,
                k < n,
                j2 <= k,
                spec_pass_mark(bs, 0, k as int, m1, g1) == spec_pass_mark(
                    bs,
                    j2 as int,
                    k as int,
                    used_ids.as_map(),
                    g_of(used_blobs, unused_blobs, used_size, unused_size),
                ),
                used_blobs + unused_blobs == k + 1,
                used_size + unused_size == spec_blobs_len(bs.take(k as int + 1)),
                unused_blobs >= k - j2,
                unused_size >= spec_blobs_len(bs.subrange(j2 as int, k as int)),
            decreases k - j2,
        {
            let blob = &pack.blobs[j2];
            let ghost gnow = g_of(used_blobs, unused_blobs, used_size, unused_size);
            proof {
                assert(bs[j2 as int] == pack.blobs@[j2 as int]@);
                lemma_blobs_len_segment(bs, j2 as int, k as int);
                lemma_blobs_len_prefix(bs, k as int + 1);
            }
            let cur: u8 = match used_ids.get(&blob.id) {
                Some(c) => *c,
                None => 0,
            };
            if cur > 0 {
                let ghost mpre = used_ids.as_map();
                used_ids.insert(blob.id.clone(), 0);
                unused_blobs = unused_blobs - 1;
                unused_size = unused_size - blob.length;
                used_blobs = used_blobs + 1;
                used_size = used_size + blob.length;
                proof {
                    assert(spec_pass_mark(bs, j2 as int, k as int, mpre, gnow) == spec_pass_mark(
                        bs,
                        j2 as int + 1,
                        k as int,
                        used_ids.as_map(),
                        gnow.move_to_used(bs[j2 as int].length),
                    ));
                }
            } else {
                proof {
                    assert(spec_pass_mark(bs, j2 as int, k as int, used_ids.as_map(), gnow)
                        == spec_pass_mark(bs, j2 as int + 1, k as int, used_ids.as_map(), gnow));
                }
            }
            j2 = j2 + 1;
        }
        let ghost m2 = used_ids.as_map();
        let ghost g2 = g_of(used_blobs, unused_blobs, used_size, unused_size);
        proof {
            assert(spec_pass_mark(bs, k as int, k as int, m2, g2) == (m2, g2));
        }
        let mut j3: usize = k + 1;
        while j3 < n
            invariant
                used_ids.wf(),
                bs == blobs_view(pack.blobs@),
                n == bs.len(),
                n <= u16::MAX,
                spec_blobs_len(bs) <= u32::MAX,
                k < n,
                k + 1 <= j3 <= n,
                spec_pass_tail(bs, k as int + 1, m2, g2) == spec_pass_tail(
                    bs,
                    j3 as int,
                    used_ids.as_map(),
                    g_of(used_blobs, unused_blobs, used_size, unused_size),
                ),
                used_blobs + unused_blobs == j3,
                used_size + unused_size == spec_blobs_len(bs.take(j3 as int)),
            decreases n - j3,
        {
            let blob = &pack.blobs[j3];
            let ghost gnow = g_of(used_blobs, unused_blobs, used_size, unused_size);
            proof {
                assert(bs[j3 as int] == pack.blobs@[j3 as int]@);
                lemma_blobs_len_snoc(bs, j3 as int);
                lemma_blobs_len_prefix(bs, j3 as int + 1);
            }
            let cur: u8 = match used_ids.get(&blob.id) {
                Some(c) => *c,
                None => 0,
            };
            if cur > 0 {
                let ghost mpre = used_ids.as_map();
                used_ids.insert(blob.id.clone(), 0);
                used_blobs = used_blobs + 1;
                used_size = used_size + blob.length;
                proof {
                    assert(spec_pass_tail(bs, j3 as int, mpre, gnow) == spec_pass_tail(
                        bs,
                        j3 as int + 1,
                        used_ids.as_map(),
                        gnow.add_used(bs[j3 as int].length),
                    ));
                }
            } else {
                unused_blobs = unused_blobs + 1;
                unused_size = unused_size + blob.length;
                proof {
                    assert(spec_pass_tail(bs, j3 as int, used_ids.as_map(), gnow)
                        == spec_pass_tail(
                        bs,
                        j3 as int + 1,
                        used_ids.as_map(),
                        gnow.add_unused(bs[j3 as int].length),
                    ));
                }
            }
            j3 = j3 + 1;
        }
        proof {
            assert(spec_pass_tail(
                bs,
                n as int,
                used_ids.as_map(),
                g_of(used_blobs, unused_blobs, used_size, unused_size),
            ) == (used_ids.as_map(), g_of(used_blobs, unused_blobs, used_size, unused_size)));
        }
        PackInfo { blob_type: pack.blob_type, used_blobs, unused_blobs, used_size, unused_size }
    }
}


/// Describe an index pack as an undecided prune pack.
pub open spec fn spec_prune_pack_of(p: IndexPack, mark: bool) -> SpecPrunePack {
    SpecPrunePack {
        id: p.id@,
        blob_type: p.spec_blob_type(),
        size: p.spec_pack_size() as u32,
        delete_mark: mark,
        to_do: PackToDo::Undecided,
        time: p.time,
        blobs: blobs_view(p.blobs@),
    }
}

/// Adopt one section's packs, dropping those whose id was seen before.
pub open spec fn spec_dedup_packs(
    packs: Seq<IndexPack>,
    j: int,
    processed: Map<Seq<u8>, u8>,
    acc: Seq<SpecPrunePack>,
    modified: bool,
    mark: bool,
) -> (Map<Seq<u8>, u8>, Seq<SpecPrunePack>, bool)
    decreases packs.len() - j,
{
    if j < 0 || j >= packs.len() {
        (processed, acc, modified)
    } else {
        let p = packs[j];
        if processed.contains_key(p.id@) {
            spec_dedup_packs(packs, j + 1, processed, acc, true, mark)
        } else {
            spec_dedup_packs(
                packs,
                j + 1,
                processed.insert(p.id@, 1),
                acc.push(spec_prune_pack_of(p, mark)),
                modified,
                mark,
            )
        }
    }
}

/// Adopt every index file: live packs first, tombstoned packs after them,
/// each section deduplicated against what earlier files already hold.
pub open spec fn spec_adopt_files(
    files: Seq<(Id, IndexFile)>,
    ii: int,
    processed: Map<Seq<u8>, u8>,
    processed_del: Map<Seq<u8>, u8>,
    acc: Seq<SpecPruneIndex>,
) -> (Map<Seq<u8>, u8>, Map<Seq<u8>, u8>, Seq<SpecPruneIndex>)
    decreases files.len() - ii,
{
    if ii < 0 || ii >= files.len() {
        (processed, processed_del, acc)
    } else {
        let r1 = spec_dedup_packs(files[ii].1.packs@, 0, processed, Seq::empty(), false, false);
        let r2 = spec_dedup_packs(files[ii].1.packs_to_delete@, 0, processed_del, r1.1, r1.2, true);
        spec_adopt_files(
            files,
            ii + 1,
            r1.0,
            r2.0,
            acc.push(SpecPruneIndex { id: files[ii].0@, modified: r2.2, packs: r2.1 }),
        )
    }
}

/// Drop tombstoned packs that a live section also catalogues.
pub open spec fn spec_retain_packs(
    packs: Seq<SpecPrunePack>,
    j: int,
    processed: Map<Seq<u8>, u8>,
    acc: Seq<SpecPrunePack>,
    modified: bool,
) -> (Seq<SpecPrunePack>, bool)
    decreases packs.len() - j,
{
    if j < 0 || j >= packs.len() {
        (acc, modified)
    } else {
        let p = packs[j];
        if p.delete_mark && processed.contains_key(p.id) {
            spec_retain_packs(packs, j + 1, processed, acc, true)
        } else {
            spec_retain_packs(packs, j + 1, processed, acc.push(p), modified)
        }
    }
}

/// The second sweep over all adopted files.
pub open spec fn spec_retain_files(
    files: Seq<SpecPruneIndex>,
    ii: int,
    processed: Map<Seq<u8>, u8>,
    acc: Seq<SpecPruneIndex>,
) -> Seq<SpecPruneIndex>
    decreases files.len() - ii,
{
    if ii < 0 || ii >= files.len() {
        acc
    } else {
        let f = files[ii];
        let r = spec_retain_packs(f.packs, 0, processed, Seq::empty(), false);
        spec_retain_files(
            files,
            ii + 1,
            processed,
            acc.push(SpecPruneIndex { id: f.id, modified: f.modified || r.1, packs: r.0 }),
        )
    }
}

/// The index files a pruner starts from, after both sweeps.
pub open spec fn spec_pruner_files(files: Seq<(Id, IndexFile)>) -> Seq<SpecPruneIndex> {
    let a = spec_adopt_files(files, 0, Map::empty(), Map::empty(), Seq::empty());
    spec_retain_files(a.2, 0, a.0, Seq::empty())
}

/// All-zero statistics.
pub open spec fn spec_zero_stats() -> PruneStats {
    PruneStats {
        packs_to_delete: DeleteStats { remove: 0, recover: 0, keep: 0 },
        size_to_delete: DeleteStats { remove: 0, recover: 0, keep: 0 },
        packs: PackStats { used: 0, partly_used: 0, unused: 0, repack: 0, keep: 0 },
        blobs: KindMap {
            tree: SizeStats { used: 0, unused: 0, remove: 0, repack: 0, repackrm: 0 },
            data: SizeStats { used: 0, unused: 0, remove: 0, repack: 0, repackrm: 0 },
        },
        size: KindMap {
            tree: SizeStats { used: 0, unused: 0, remove: 0, repack: 0, repackrm: 0 },
            data: SizeStats { used: 0, unused: 0, remove: 0, repack: 0, repackrm: 0 },
        },
        size_unref: 0,
        index_files: 0,
    }
}

/// The prune run's working state: what it knows of every pack and blob.
pub struct Pruner {
    pub time: Time,
    pub used_ids: IdMap<u8>,
    pub existing_packs: IdMap<u32>,
    pub repack_candidates: Vec<(PackInfo, RepackReason, usize, usize)>,
    pub index_files: Vec<PruneIndex>,
    pub stats: PruneStats,
}

impl Pruner {
    /// Adopt the index files, deduplicating pack entries: a pack listed
    /// twice keeps its first entry, a tombstone for a pack that is also
    /// live is dropped, and every index that lost an entry counts as
    /// modified.
    pub fn new(
        used_ids: IdMap<u8>,
        existing_packs: IdMap<u32>,
        index_files: Vec<(Id, IndexFile)>,
        now: Time,
    ) -> (r: Pruner)
        requires
            used_ids.wf(),
            existing_packs.wf(),
            forall|i: int, j: int|
                0 <= i < index_files@.len() && 0 <= j < index_files@[i].1.packs@.len()
                    ==> (#[trigger] index_files@[i].1.packs@[j]).wf(),
            forall|i: int, j: int|
                0 <= i < index_files@.len() && 0 <= j < index_files@[i].1.packs_to_delete@.len()
                    ==> (#[trigger] index_files@[i].1.packs_to_delete@[j]).wf(),
        ensures
            r.time == now,
            r.used_ids == used_ids,
            r.existing_packs == existing_packs,
            r.repack_candidates@.len() == 0,
            r.stats == spec_zero_stats(),
            r.index_files.deep_view() == spec_pruner_files(index_files@),
    {
        let ghost files0 = index_files@;
        let mut processed: IdMap<u8> = IdMap::new();
        let mut processed_del: IdMap<u8> = IdMap::new();
        let mut adopted: Vec<PruneIndex> = Vec::new();
        proof {
            assert(adopted.deep_view() =~= Seq::<SpecPruneIndex>::empty());
        }
        let mut ii: usize = 0;
        while ii < index_files.len()
            invariant
                processed.wf(),
                processed_del.wf(),
                index_files@ == files0,
                ii <= files0.len(),
                forall|i: int, j: int|
                    0 <= i < files0.len() && 0 <= j < files0[i].1.packs@.len()
                        ==> (#[trigger] files0[i].1.packs@[j]).wf(),
                forall|i: int, j: int|
                    0 <= i < files0.len() && 0 <= j < files0[i].1.packs_to_delete@.len()
                        ==> (#[trigger] files0[i].1.packs_to_delete@[j]).wf(),
                spec_adopt_files(files0, 0, Map::empty(), Map::empty(), Seq::empty())
                    == spec_adopt_files(
                    files0,
                    ii as int,
                    processed.as_map(),
                    processed_del.as_map(),
                    adopted.deep_view(),
                ),
            decreases files0.len() - ii,
        {
            let ghost p0 = processed.as_map();
            let ghost pd0 = processed_del.as_map();
            let ghost adopted0 = adopted.deep_view();
            let mut packs: Vec<PrunePack> = Vec::new();
            let mut modified = false;
            proof {
                assert(packs.deep_view() =~= Seq::<SpecPrunePack>::empty());
            }
            let mut j: usize = 0;
            let npacks = index_files[ii].1.packs.len();
            while j < npacks
                invariant
                    processed.wf(),
                    index_files@ == files0,
                    ii < files0.len(),
                    npacks == files0[ii as int].1.packs@.len(),
                    j <= npacks,
                    forall|jj: int|
                        0 <= jj < files0[ii as int].1.packs@.len()
                            ==> (#[trigger] files0[ii as int].1.packs@[jj]).wf(),
                    spec_dedup_packs(files0[ii as int].1.packs@, 0, p0, Seq::empty(), false, false)
                        == spec_dedup_packs(
                        files0[ii as int].1.packs@,
                        j as int,
                        processed.as_map(),
                        packs.deep_view(),
                        modified,
                        false,
                    ),
                decreases npacks - j,
            {
                let ghost packs_pre = packs.deep_view();
                let p = &index_files[ii].1.packs[j];
                if processed.contains(&p.id) {
                    modified = true;
                } else {
                    processed.insert(p.id.clone(), 1);
                    let pc = p.clone();
                    proof {
                        lemma_clone_wf(p, &pc);
                    }
                    let pp = PrunePack::from_index_pack_unmarked(pc);
                    proof {
                        assert(pp@ =~= spec_prune_pack_of(files0[ii as int].1.packs@[j as int], false));
                    }
                    packs.push(pp);
                    proof {
                        assert(packs.deep_view() =~= packs_pre.push(
                            spec_prune_pack_of(files0[ii as int].1.packs@[j as int], false),
                        ));
                    }
                }
                j += 1;
            }
            let ghost packs_mid = packs.deep_view();
            let ghost mod_mid = modified;
            let mut j2: usize = 0;
            let ndel = index_files[ii].1.packs_to_delete.len();
            while j2 < ndel
                invariant
                    processed_del.wf(),
                    index_files@ == files0,
                    ii < files0.len(),
                    ndel == files0[ii as int].1.packs_to_delete@.len(),
                    j2 <= ndel,
                    forall|jj: int|
                        0 <= jj < files0[ii as int].1.packs_to_delete@.len()
                            ==> (#[trigger] files0[ii as int].1.packs_to_delete@[jj]).wf(),
                    spec_dedup_packs(
                        files0[ii as int].1.packs_to_delete@,
                        0,
                        pd0,
                        packs_mid,
                        mod_mid,
                        true,
                    ) == spec_dedup_packs(
                        files0[ii as int].1.packs_to_delete@,
                        j2 as int,
                        processed_del.as_map(),
                        packs.deep_view(),
                        modified,
                        true,
                    ),
                decreases ndel - j2,
            {
                let ghost packs_pre = packs.deep_view();
                let p = &index_files[ii].1.packs_to_delete[j2];
                if processed_del.contains(&p.id) {
                    modified = true;
                } else {
                    processed_del.insert(p.id.clone(), 1);
                    let pc = p.clone();
                    proof {
                        lemma_clone_wf(p, &pc);
                    }
                    let pp = PrunePack::from_index_pack_marked(pc);
                    proof {
                        assert(pp@ =~= spec_prune_pack_of(
                            files0[ii as int].1.packs_to_delete@[j2 as int],
                            true,
                        ));
                    }
                    packs.push(pp);
                    proof {
                        assert(packs.deep_view() =~= packs_pre.push(
                            spec_prune_pack_of(files0[ii as int].1.packs_to_delete@[j2 as int], true),
                        ));
                    }
                }
                j2 += 1;
            }
            let idc = index_files[ii].0.clone();
            let newfile = PruneIndex { id: idc, modified, packs };
            proof {
                assert(newfile@ =~= (SpecPruneIndex {
                    id: files0[ii as int].0@,
                    modified,
                    packs: packs.deep_view(),
                }));
            }
            adopted.push(newfile);
            proof {
                assert(adopted.deep_view() =~= adopted0.push(
                    SpecPruneIndex {
                        id: files0[ii as int].0@,
                        modified,
                        packs: packs.deep_view(),
                    },
                ));
            }
            ii += 1;
        }
        let ghost adopted_all = adopted.deep_view();
        let ghost pfinal = processed.as_map();
        let mut out_files: Vec<PruneIndex> = Vec::new();
        proof {
            assert(out_files.deep_view() =~= Seq::<SpecPruneIndex>::empty());
        }
        let mut k: usize = 0;
        while k < adopted.len()
            invariant
                processed.wf(),
                processed.as_map() == pfinal,
                adopted.deep_view() == adopted_all,
                k <= adopted_all.len(),
                spec_retain_files(adopted_all, 0, pfinal, Seq::empty()) == spec_retain_files(
                    adopted_all,
                    k as int,
                    pfinal,
                    out_files.deep_view(),
                ),
            decreases adopted_all.len() - k,
        {
            let ghost out0 = out_files.deep_view();
            let f = &adopted[k];
            let mut kept: Vec<PrunePack> = Vec::new();
            let mut dropped = false;
            proof {
                assert(kept.deep_view() =~= Seq::<SpecPrunePack>::empty());
            }
            let mut jp: usize = 0;
            let nf = f.packs.len();
            while jp < nf
                invariant
                    processed.wf(),
                    processed.as_map() == pfinal,
                    adopted.deep_view() == adopted_all,
                    k < adopted_all.len(),
                    f == &adopted[k as int],
                    nf == f.packs@.len(),
                    jp <= nf,
                    spec_retain_packs(f@.packs, 0, pfinal, Seq::empty(), false)
                        == spec_retain_packs(
                        f@.packs,
                        jp as int,
                        pfinal,
                        kept.deep_view(),
                        dropped,
                    ),
                decreases nf - jp,
            {
                let ghost kept_pre = kept.deep_view();
                let p = &f.packs[jp];
                proof {
                    assert(f@.packs[jp as int] == p@);
                }
                if p.delete_mark && processed.contains(&p.id) {
                    dropped = true;
                } else {
                    let pc = prune_pack_clone(p);
                    kept.push(pc);
                    proof {
                        assert(kept.deep_view() =~= kept_pre.push(p@));
                    }
                }
                jp += 1;
            }
            let idc = f.id.clone();
            let was_modified = f.modified;
            let newfile = PruneIndex { id: idc, modified: was_modified || dropped, packs: kept };
            proof {
                assert(newfile@ =~= (SpecPruneIndex {
                    id: adopted_all[k as int].id,
                    modified: adopted_all[k as int].modified || dropped,
                    packs: kept.deep_view(),
                }));
            }
            out_files.push(newfile);
            proof {
                assert(out_files.deep_view() =~= out0.push(newfile@));
            }
            k += 1;
        }
        Pruner {
            time: now,
            used_ids,
            existing_packs,
            repack_candidates: Vec::new(),
            index_files: out_files,
            stats: PruneStats {
                packs_to_delete: DeleteStats { remove: 0, recover: 0, keep: 0 },
                size_to_delete: DeleteStats { remove: 0, recover: 0, keep: 0 },
                packs: PackStats { used: 0, partly_used: 0, unused: 0, repack: 0, keep: 0 },
                blobs: KindMap {
                    tree: SizeStats { used: 0, unused: 0, remove: 0, repack: 0, repackrm: 0 },
                    data: SizeStats { used: 0, unused: 0, remove: 0, repack: 0, repackrm: 0 },
                },
                size: KindMap {
                    tree: SizeStats { used: 0, unused: 0, remove: 0, repack: 0, repackrm: 0 },
                    data: SizeStats { used: 0, unused: 0, remove: 0, repack: 0, repackrm: 0 },
                },
                size_unref: 0,
                index_files: 0,
            },
        }
    }
}

/// An index pack's clone is as well formed as the original.
proof fn lemma_clone_wf(p: &IndexPack, pc: &IndexPack)
    requires
        p.wf(),
        pc.id@ == p.id@,
        pc.time == p.time,
        pc.size == p.size,
        blobs_view(pc.blobs@) == blobs_view(p.blobs@),
    ensures
        pc.wf(),
        pc@ == p@,
        pc.spec_blob_type() == p.spec_blob_type(),
        pc.spec_pack_size() == p.spec_pack_size(),
{
    assert(pc.blobs@.len() == p.blobs@.len()) by {
        assert(blobs_view(pc.blobs@).len() == pc.blobs@.len());
        assert(blobs_view(p.blobs@).len() == p.blobs@.len());
    }
    assert forall|i: int| 0 <= i < pc.blobs@.len() implies (#[trigger] pc.blobs@[i])@.wf() by {
        assert(blobs_view(pc.blobs@)[i] == pc.blobs@[i]@);
        assert(blobs_view(p.blobs@)[i] == p.blobs@[i]@);
        assert(p.blobs@[i]@.wf());
    }
    if pc.blobs@.len() > 0 {
        assert(blobs_view(pc.blobs@)[0] == pc.blobs@[0]@);
        assert(blobs_view(p.blobs@)[0] == p.blobs@[0]@);
    }
}

/// Clone a prune pack, preserving its mathematical content.
fn prune_pack_clone(p: &PrunePack) -> (r: PrunePack)
    ensures
        r@ == p@,
{
    let mut blobs: Vec<IndexBlob> = Vec::new();
    let mut i: usize = 0;
    while i < p.blobs.len()
        invariant
            i <= p.blobs@.len(),
            blobs@.len() == i,
            forall|j: int| 0 <= j < i ==> blobs@[j]@ == p.blobs@[j]@,
        decreases p.blobs@.len() - i,
    {
        blobs.push(p.blobs[i].clone());
        i += 1;
    }
    proof {
        assert(blobs_view(blobs@) =~= blobs_view(p.blobs@));
    }
    PrunePack {
        id: p.id.clone(),
        blob_type: p.blob_type,
        size: p.size,
        delete_mark: p.delete_mark,
        to_do: p.to_do,
        time: p.time,
        blobs,
    }
}


/// The needed-counts after walking one pack's blobs: each occurrence of a
/// used blob raises its count, capped at 255.
pub open spec fn spec_count_blobs(blobs: Seq<SpecBlob>, j: int, m: Map<Seq<u8>, u8>) -> Map<
    Seq<u8>,
    u8,
>
    decreases blobs.len() - j,
{
    if j < 0 || j >= blobs.len() {
        m
    } else {
        let id = blobs[j].id;
        let m2 = if m.contains_key(id) {
            m.insert(
                id,
                if m[id] == 255 {
                    255u8
                } else {
                    (m[id] + 1) as u8
                },
            )
        } else {
            m
        };
        spec_count_blobs(blobs, j + 1, m2)
    }
}

/// The needed-counts after walking the packs of one index, in order.
pub open spec fn spec_count_packs(packs: Seq<SpecPrunePack>, pj: int, m: Map<Seq<u8>, u8>) -> Map<
    Seq<u8>,
    u8,
>
    decreases packs.len() - pj,
{
    if pj < 0 || pj >= packs.len() {
        m
    } else {
        spec_count_packs(packs, pj + 1, spec_count_blobs(packs[pj].blobs, 0, m))
    }
}

/// The needed-counts after walking every index file, in order.
pub open spec fn spec_count_files(files: Seq<SpecPruneIndex>, ii: int, m: Map<Seq<u8>, u8>) -> Map<
    Seq<u8>,
    u8,
>
    decreases files.len() - ii,
{
    if ii < 0 || ii >= files.len() {
        m
    } else {
        spec_count_files(files, ii + 1, spec_count_packs(files[ii].packs, 0, m))
    }
}

impl Pruner {
    /// Count, for every used blob, in how many catalogued packs it occurs,
    /// saturating at 255.
    pub fn count_used_blobs(&mut self)
        requires
            old(self).used_ids.wf(),
        ensures
            final(self).used_ids.wf(),
            final(self).used_ids.as_map() == spec_count_files(
                old(self).index_files.deep_view(),
                0,
                old(self).used_ids.as_map(),
            ),
            final(self).time == old(self).time,
            final(self).existing_packs == old(self).existing_packs,
            final(self).repack_candidates == old(self).repack_candidates,
            final(self).index_files == old(self).index_files,
            final(self).stats == old(self).stats,
    {
        let ghost files0 = self.index_files.deep_view();
        let ghost m0 = self.used_ids.as_map();
        let mut ii: usize = 0;
        while ii < self.index_files.len()
            invariant
                self.used_ids.wf(),
                self.index_files.deep_view() == files0,
                self.index_files@.len() == files0.len(),
                ii <= files0.len(),
                spec_count_files(files0, 0, m0) == spec_count_files(
                    files0,
                    ii as int,
                    self.used_ids.as_map(),
                ),
                self.time == old(self).time,
                self.existing_packs == old(self).existing_packs,
                self.repack_candidates == old(self).repack_candidates,
                self.index_files == old(self).index_files,
                self.stats == old(self).stats,
            decreases files0.len() - ii,
        {
            let ghost m_file = self.used_ids.as_map();
            let npacks = self.index_files[ii].packs.len();
            proof {
                assert(files0[ii as int] == self.index_files@[ii as int]@);
            }
            let mut pj: usize = 0;
            while pj < npacks
                invariant
                    self.used_ids.wf(),
                    self.index_files.deep_view() == files0,
                    self.index_files@.len() == files0.len(),
                    ii < files0.len(),
                    npacks == files0[ii as int].packs.len(),
                    pj <= npacks,
                    spec_count_packs(files0[ii as int].packs, 0, m_file) == spec_count_packs(
                        files0[ii as int].packs,
                        pj as int,
                        self.used_ids.as_map(),
                    ),
                    self.time == old(self).time,
                    self.existing_packs == old(self).existing_packs,
                    self.repack_candidates == old(self).repack_candidates,
                    self.index_files == old(self).index_files,
                    self.stats == old(self).stats,
                decreases npacks - pj,
            {
                let ghost m_pack = self.used_ids.as_map();
                let nblobs = self.index_files[ii].packs[pj].blobs.len();
                proof {
                    assert(files0[ii as int].packs[pj as int]
                        == self.index_files@[ii as int].packs@[pj as int]@);
                }
                let mut bk: usize = 0;
                while bk < nblobs
                    invariant
                        self.used_ids.wf(),
                        self.index_files.deep_view() == files0,
                        self.index_files@.len() == files0.len(),
                        ii < files0.len(),
                        pj < files0[ii as int].packs.len(),
                        nblobs == files0[ii as int].packs[pj as int].blobs.len(),
                        bk <= nblobs,
                        spec_count_blobs(files0[ii as int].packs[pj as int].blobs, 0, m_pack)
                            == spec_count_blobs(
                            files0[ii as int].packs[pj as int].blobs,
                            bk as int,
                            self.used_ids.as_map(),
                        ),
                        self.time == old(self).time,
                        self.existing_packs == old(self).existing_packs,
                        self.repack_candidates == old(self).repack_candidates,
                        self.index_files == old(self).index_files,
                        self.stats == old(self).stats,
                    decreases nblobs - bk,
                {
                    proof {
                        assert(files0[ii as int].packs[pj as int].blobs[bk as int]
                            == self.index_files@[ii as int].packs@[pj as int].blobs@[bk as int]@);
                    }
                    let id = self.index_files[ii].packs[pj].blobs[bk].id.clone();
                    let cur: Option<u8> = match self.used_ids.get(&id) {
                        Some(c) => Some(*c),
                        None => None,
                    };
                    match cur {
                        Some(c) => {
                            let c2: u8 = if c == 255 {
                                255
                            } else {
                                c + 1
                            };
                            self.used_ids.insert(id, c2);
                        },
                        None => {},
                    }
                    bk += 1;
                }
                pj += 1;
            }
            ii += 1;
        }
    }

    /// Every used blob must occur in some catalogued pack: a count of zero
    /// after counting means the blob is missing from the repository.
    pub fn check(&self) -> (r: Result<(), RepoError>)
        requires
            self.used_ids.wf(),
        ensures
            r is Ok <==> (forall|k: Seq<u8>|
                self.used_ids.as_map().contains_key(k) ==> self.used_ids.as_map()[k] != 0),
            r is Err ==> r == Err::<(), RepoError>(RepoError::Integrity),
    {
        let n = self.used_ids.len();
        let mut i: usize = 0;
        proof {
            self.used_ids.lemma_entries();
        }
        while i < n
            invariant
                self.used_ids.wf(),
                n == self.used_ids.spec_len(),
                i <= n,
                forall|j: int| 0 <= j < i ==> self.used_ids.val_at(j) != 0,
            decreases n - i,
        {
            let e = self.used_ids.entry_at(i);
            if e.1 == 0 {
                proof {
                    self.used_ids.lemma_entries();
                    assert(self.used_ids.as_map().contains_key(self.used_ids.key_at(i as int)));
                    assert(self.used_ids.as_map()[self.used_ids.key_at(i as int)]
                        == self.used_ids.val_at(i as int));
                }
                return Err(RepoError::Integrity);
            }
            i += 1;
        }
        proof {
            self.used_ids.lemma_entries();
            assert forall|k: Seq<u8>|
                self.used_ids.as_map().contains_key(k) implies self.used_ids.as_map()[k] != 0 by {
                let j = choose|j: int|
                    0 <= j < self.used_ids.spec_len() && self.used_ids.key_at(j) == k;
                assert(self.used_ids.val_at(j) != 0);
            }
        }
        Ok(())
    }
}



/// Every pack's blobs fit the scan counters and carry valid times.
pub open spec fn scannable(files: Seq<SpecPruneIndex>) -> bool {
    forall|i: int, j: int|
        0 <= i < files.len() && 0 <= j < files[i].packs.len() ==> {
            let p = (#[trigger] files[i].packs[j]);
            &&& p.blobs.len() <= u16::MAX
            &&& spec_blobs_len(p.blobs) <= u32::MAX
            &&& (p.time matches Some(t) ==> t.wf())
        }
}

/// The files agree on everything but the recorded decisions.
pub open spec fn same_except_todo(a: Seq<SpecPruneIndex>, b: Seq<SpecPruneIndex>) -> bool {
    &&& a.len() == b.len()
    &&& forall|i: int|
        0 <= i < a.len() ==> (#[trigger] a[i]).id == b[i].id && a[i].modified == b[i].modified
            && a[i].packs.len() == b[i].packs.len()
    &&& forall|i: int, j: int|
        0 <= i < a.len() && 0 <= j < a[i].packs.len() ==> {
            let p1 = (#[trigger] a[i].packs[j]);
            let p0 = b[i].packs[j];
            &&& p1.id == p0.id
            &&& p1.blob_type == p0.blob_type
            &&& p1.size == p0.size
            &&& p1.delete_mark == p0.delete_mark
            &&& p1.time == p0.time
            &&& p1.blobs == p0.blobs
        }
}

/// The candidate tuples as mathematical values.
pub open spec fn cands_view(s: Seq<(PackInfo, RepackReason, usize, usize)>) -> Seq<
    (GPackInfo, RepackReason, int, int),
> {
    s.map_values(
        |c: (PackInfo, RepackReason, usize, usize)|
            (
                g_of(c.0.used_blobs, c.0.unused_blobs, c.0.used_size, c.0.unused_size),
                c.1,
                c.2 as int,
                c.3 as int,
            ),
    )
}

/// Every candidate names a pack that exists.
pub open spec fn cands_in_range(
    cands: Seq<(PackInfo, RepackReason, usize, usize)>,
    files: Seq<SpecPruneIndex>,
) -> bool {
    forall|i: int|
        0 <= i < cands.len() ==> (#[trigger] cands[i]).2 < files.len() && cands[i].3
            < files[cands[i].2 as int].packs.len()
}

/// The whole decision state: pack classifications, needs-counts,
/// statistics and repack candidates.
#[verifier::ext_equal]
pub ghost struct GDecide {
    pub files: Seq<SpecPruneIndex>,
    pub used: Map<Seq<u8>, u8>,
    pub stats: PruneStats,
    pub cands: Seq<(GPackInfo, RepackReason, int, int)>,
}

/// The files with one pack's decision recorded.
pub open spec fn spec_set_todo_in(
    files: Seq<SpecPruneIndex>,
    ii: int,
    pj: int,
    todo: PackToDo,
) -> Seq<SpecPruneIndex> {
    let f = files[ii];
    let p = f.packs[pj];
    files.update(
        ii,
        SpecPruneIndex { packs: f.packs.update(pj, SpecPrunePack { to_do: todo, ..p }), ..f },
    )
}

/// Decide one pack, as the decision table of the prune design:
/// a live pack with no needed blob is kept while young, else tombstoned;
/// a live, fully needed pack is kept unless compression or size asks for a
/// repack; a live, partly needed pack becomes a repack candidate; a
/// tombstoned pack without needed blobs is deleted once quarantine has
/// passed, else stays tombstoned; a tombstoned pack with a needed blob is
/// recovered.  A tombstone that carries no timestamp counts as having
/// waited out its quarantine and is deleted, rather than being a fault.
pub open spec fn spec_decide_one(
    st: GDecide,
    ii: int,
    pj: int,
    now: Time,
    keep_pack: u64,
    keep_delete: u64,
    repack_cacheable_only: bool,
    repack_uncompressed: bool,
    sizer: KindMap<PackSizer>,
) -> GDecide {
    let p = st.files[ii].packs[pj];
    let scan = spec_pack_scan(p.blobs, st.used);
    let pi = scan.0;
    let used2 = scan.1;
    let too_young = match p.time {
        Some(t) => t.spec_secs() + keep_pack > now.spec_secs(),
        None => false,
    };
    let keep_uncacheable = repack_cacheable_only && !(p.blob_type is Tree);
    let to_compress = repack_uncompressed && !p.spec_is_compressed();
    let size_mismatch = !sizer.spec_get(p.blob_type).spec_size_ok(p.size);
    if !p.delete_mark && pi.used_blobs == 0 {
        let stats1 = PruneStats {
            packs: PackStats { unused: spec_sat_add(st.stats.packs.unused, 1), ..st.stats.packs },
            ..st.stats
        };
        let todo = if too_young {
            PackToDo::Keep
        } else {
            PackToDo::MarkDelete
        };
        GDecide {
            files: spec_set_todo_in(st.files, ii, pj, todo),
            used: used2,
            stats: spec_apply_todo(stats1, todo, p.blob_type, pi, p.size),
            cands: st.cands,
        }
    } else if !p.delete_mark && pi.unused_blobs == 0 {
        let stats1 = PruneStats {
            packs: PackStats { used: spec_sat_add(st.stats.packs.used, 1), ..st.stats.packs },
            ..st.stats
        };
        if too_young || keep_uncacheable {
            GDecide {
                files: spec_set_todo_in(st.files, ii, pj, PackToDo::Keep),
                used: used2,
                stats: spec_apply_todo(stats1, PackToDo::Keep, p.blob_type, pi, p.size),
                cands: st.cands,
            }
        } else if to_compress {
            GDecide {
                files: st.files,
                used: used2,
                stats: stats1,
                cands: st.cands.push((pi, RepackReason::ToCompress, ii, pj)),
            }
        } else if size_mismatch {
            GDecide {
                files: st.files,
                used: used2,
                stats: stats1,
                cands: st.cands.push((pi, RepackReason::SizeMismatch, ii, pj)),
            }
        } else {
            GDecide {
                files: spec_set_todo_in(st.files, ii, pj, PackToDo::Keep),
                used: used2,
                stats: spec_apply_todo(stats1, PackToDo::Keep, p.blob_type, pi, p.size),
                cands: st.cands,
            }
        }
    } else if !p.delete_mark {
        let stats1 = PruneStats {
            packs: PackStats {
                partly_used: spec_sat_add(st.stats.packs.partly_used, 1),
                ..st.stats.packs
            },
            ..st.stats
        };
        if too_young || keep_uncacheable {
            GDecide {
                files: spec_set_todo_in(st.files, ii, pj, PackToDo::Keep),
                used: used2,
                stats: spec_apply_todo(stats1, PackToDo::Keep, p.blob_type, pi, p.size),
                cands: st.cands,
            }
        } else {
            GDecide {
                files: st.files,
                used: used2,
                stats: stats1,
                cands: st.cands.push((pi, RepackReason::PartlyUsed, ii, pj)),
            }
        }
    } else if pi.used_blobs == 0 {
        let elapsed = match p.time {
            Some(t) => t.spec_secs() + keep_delete <= now.spec_secs(),
            None => true,
        };
        let todo = if elapsed {
            PackToDo::Delete
        } else {
            PackToDo::KeepMarked
        };
        GDecide {
            files: spec_set_todo_in(st.files, ii, pj, todo),
            used: used2,
            stats: spec_apply_todo(st.stats, todo, p.blob_type, pi, p.size),
            cands: st.cands,
        }
    } else {
        GDecide {
            files: spec_set_todo_in(st.files, ii, pj, PackToDo::Recover),
            used: used2,
            stats: spec_apply_todo(st.stats, PackToDo::Recover, p.blob_type, pi, p.size),
            cands: st.cands,
        }
    }
}

/// One sweep over every pack whose tombstone mark matches `mark`.
pub open spec fn spec_decide_pass(
    st: GDecide,
    mark: bool,
    ii: int,
    pj: int,
    now: Time,
    keep_pack: u64,
    keep_delete: u64,
    repack_cacheable_only: bool,
    repack_uncompressed: bool,
    sizer: KindMap<PackSizer>,
) -> GDecide
    decreases st.files.len() - ii, (if 0 <= ii < st.files.len() {
        st.files[ii].packs.len() + 1
    } else {
        0
    }) - pj,
{
    if ii < 0 || pj < 0 || ii >= st.files.len() {
        st
    } else if pj >= st.files[ii].packs.len() {
        spec_decide_pass(
            st,
            mark,
            ii + 1,
            0,
            now,
            keep_pack,
            keep_delete,
            repack_cacheable_only,
            repack_uncompressed,
            sizer,
        )
    } else if st.files[ii].packs[pj].delete_mark != mark {
        spec_decide_pass(
            st,
            mark,
            ii,
            pj + 1,
            now,
            keep_pack,
            keep_delete,
            repack_cacheable_only,
            repack_uncompressed,
            sizer,
        )
    } else {
        let st2 = spec_decide_one(
            st,
            ii,
            pj,
            now,
            keep_pack,
            keep_delete,
            repack_cacheable_only,
            repack_uncompressed,
            sizer,
        );
        spec_decide_pass(
            st2,
            mark,
            ii,
            pj + 1,
            now,
            keep_pack,
            keep_delete,
            repack_cacheable_only,
            repack_uncompressed,
            sizer,
        )
    }
}

impl Pruner {
    /// The decision state this pruner holds.
    pub open spec fn gstate(&self) -> GDecide {
        GDecide {
            files: self.index_files.deep_view(),
            used: self.used_ids.as_map(),
            stats: self.stats,
            cands: cands_view(self.repack_candidates@),
        }
    }


    /// Decide one pack in place.
    fn decide_one(
        &mut self,
        ii: usize,
        pj: usize,
        keep_pack: u64,
        keep_delete: u64,
        repack_cacheable_only: bool,
        repack_uncompressed: bool,
        sizer: &KindMap<PackSizer>,
    )
        requires
            old(self).used_ids.wf(),
            old(self).time.wf(),
            ii < old(self).index_files@.len(),
            pj < old(self).index_files@[ii as int].packs@.len(),
            scannable(old(self).index_files.deep_view()),
        ensures
            final(self).used_ids.wf(),
            final(self).gstate() == spec_decide_one(
                old(self).gstate(),
                ii as int,
                pj as int,
                old(self).time,
                keep_pack,
                keep_delete,
                repack_cacheable_only,
                repack_uncompressed,
                *sizer,
            ),
            final(self).time == old(self).time,
            final(self).existing_packs == old(self).existing_packs,
            same_except_todo(
                final(self).index_files.deep_view(),
                old(self).index_files.deep_view(),
            ),
            ({
                let c0 = old(self).repack_candidates@;
                let c1 = final(self).repack_candidates@;
                c1 == c0 || (c1.len() == c0.len() + 1 && c1.drop_last() == c0 && c1.last().2 == ii
                    && c1.last().3 == pj)
            }),
    {
        let ghost st0 = self.gstate();
        let ghost files0 = self.index_files.deep_view();
        let ghost p0 = files0[ii as int].packs[pj as int];
        proof {
            assert(p0 == self.index_files@[ii as int].packs@[pj as int]@);
        }
        let pi = PackInfo::from_pack(&self.index_files[ii].packs[pj], &mut self.used_ids);
        let now_secs = self.time.secs();
        let pack_time = self.index_files[ii].packs[pj].time;
        let too_young = match pack_time {
            Some(t) => {
                let ts = t.secs();
                if keep_pack > u64::MAX - ts {
                    true
                } else {
                    ts + keep_pack > now_secs
                }
            },
            None => false,
        };
        let blob_type = self.index_files[ii].packs[pj].blob_type;
        let keep_uncacheable = repack_cacheable_only && !blob_type.is_cacheable();
        let to_compress = repack_uncompressed && !self.index_files[ii].packs[pj].is_compressed();
        let size_mismatch = !sizer.get(blob_type).size_ok(self.index_files[ii].packs[pj].size);
        let delete_mark = self.index_files[ii].packs[pj].delete_mark;
        let ghost gpi = g_of(pi.used_blobs, pi.unused_blobs, pi.used_size, pi.unused_size);
        let ghost files_pre = self.index_files.deep_view();
        proof {
            assert(files_pre =~~= files0);
        }
        if !delete_mark && pi.used_blobs == 0 {
            self.stats.packs.unused = sat_add(self.stats.packs.unused, 1);
            let todo = if too_young {
                PackToDo::Keep
            } else {
                PackToDo::MarkDelete
            };
            self.index_files[ii].packs[pj].set_todo(todo, &pi, &mut self.stats);
            proof {
                assert(self.index_files@.len() == files0.len());
                assert(forall|i: int|
                    0 <= i < files0.len() && i != ii ==> (#[trigger] self.index_files@[i])@
                        == files0[i]);
                assert(self.index_files@[ii as int].packs@.len()
                    == files0[ii as int].packs.len());
                assert(forall|j: int|
                    0 <= j < files0[ii as int].packs.len() && j != pj ==> (
                    #[trigger] self.index_files@[ii as int].packs@[j])@
                        == files0[ii as int].packs[j]);
                assert(self.index_files@[ii as int].packs@[pj as int]@ == (SpecPrunePack {
                    to_do: todo,
                    ..p0
                }));
                assert(self.index_files.deep_view() =~~= spec_set_todo_in(
                    files0,
                    ii as int,
                    pj as int,
                    todo,
                ));
            }
        } else if !delete_mark && pi.unused_blobs == 0 {
            self.stats.packs.used = sat_add(self.stats.packs.used, 1);
            if too_young || keep_uncacheable {
                self.index_files[ii].packs[pj].set_todo(PackToDo::Keep, &pi, &mut self.stats);
                proof {
                    assert(self.index_files.deep_view() =~~= spec_set_todo_in(
                        files0,
                        ii as int,
                        pj as int,
                        PackToDo::Keep,
                    ));
                }
            } else if to_compress {
                self.repack_candidates.push((pi, RepackReason::ToCompress, ii, pj));
                proof {
                    assert(cands_view(self.repack_candidates@) =~= st0.cands.push(
                        (gpi, RepackReason::ToCompress, ii as int, pj as int),
                    ));
                    assert(self.index_files.deep_view() =~~= files0);
                }
            } else if size_mismatch {
                self.repack_candidates.push((pi, RepackReason::SizeMismatch, ii, pj));
                proof {
                    assert(cands_view(self.repack_candidates@) =~= st0.cands.push(
                        (gpi, RepackReason::SizeMismatch, ii as int, pj as int),
                    ));
                    assert(self.index_files.deep_view() =~~= files0);
                }
            } else {
                self.index_files[ii].packs[pj].set_todo(PackToDo::Keep, &pi, &mut self.stats);
                proof {
                    assert(self.index_files.deep_view() =~~= spec_set_todo_in(
                        files0,
                        ii as int,
                        pj as int,
                        PackToDo::Keep,
                    ));
                }
            }
        } else if !delete_mark {
            self.stats.packs.partly_used = sat_add(self.stats.packs.partly_used, 1);
            if too_young || keep_uncacheable {
                self.index_files[ii].packs[pj].set_todo(PackToDo::Keep, &pi, &mut self.stats);
                proof {
                    assert(self.index_files.deep_view() =~~= spec_set_todo_in(
                        files0,
                        ii as int,
                        pj as int,
                        PackToDo::Keep,
                    ));
                }
            } else {
                self.repack_candidates.push((pi, RepackReason::PartlyUsed, ii, pj));
                proof {
                    assert(cands_view(self.repack_candidates@) =~= st0.cands.push(
                        (gpi, RepackReason::PartlyUsed, ii as int, pj as int),
                    ));
                    assert(self.index_files.deep_view() =~~= files0);
                }
            }
        } else if pi.used_blobs == 0 {
            let elapsed = match pack_time {
                Some(t) => {
                    let ts = t.secs();
                    if keep_delete > u64::MAX - ts {
                        false
                    } else {
                        ts + keep_delete <= now_secs
                    }
                },
                None => true,
            };
            let todo = if elapsed {
                PackToDo::Delete
            } else {
                PackToDo::KeepMarked
            };
            self.index_files[ii].packs[pj].set_todo(todo, &pi, &mut self.stats);
            proof {
                assert(self.index_files.deep_view() =~~= spec_set_todo_in(
                    files0,
                    ii as int,
                    pj as int,
                    todo,
                ));
            }
        } else {
            self.index_files[ii].packs[pj].set_todo(PackToDo::Recover, &pi, &mut self.stats);
            proof {
                assert(self.index_files.deep_view() =~~= spec_set_todo_in(
                    files0,
                    ii as int,
                    pj as int,
                    PackToDo::Recover,
                ));
            }
        }
        proof {
            let want = spec_decide_one(
                st0,
                ii as int,
                pj as int,
                old(self).time,
                keep_pack,
                keep_delete,
                repack_cacheable_only,
                repack_uncompressed,
                *sizer,
            );
            assert(self.gstate().files =~~= want.files);
            assert(self.gstate().cands =~= want.cands);
        }
    }
}


/// Structure equality passes scan bounds along.
proof fn lemma_same_scannable(a: Seq<SpecPruneIndex>, b: Seq<SpecPruneIndex>)
    requires
        same_except_todo(a, b),
        scannable(b),
    ensures
        scannable(a),
{
    assert forall|i: int, j: int| 0 <= i < a.len() && 0 <= j < a[i].packs.len() implies {
        let p = (#[trigger] a[i].packs[j]);
        &&& p.blobs.len() <= u16::MAX
        &&& spec_blobs_len(p.blobs) <= u32::MAX
        &&& (p.time matches Some(t) ==> t.wf())
    } by {
        assert(a[i].packs[j].blobs == b[i].packs[j].blobs);
        assert(a[i].packs[j].time == b[i].packs[j].time);
        assert(b[i].packs[j].blobs.len() <= u16::MAX);
    }
}

/// Structure equality is transitive.
proof fn lemma_same_trans(a: Seq<SpecPruneIndex>, b: Seq<SpecPruneIndex>, c: Seq<SpecPruneIndex>)
    requires
        same_except_todo(a, b),
        same_except_todo(b, c),
    ensures
        same_except_todo(a, c),
{
    assert forall|i: int, j: int| 0 <= i < a.len() && 0 <= j < a[i].packs.len() implies {
        let p1 = (#[trigger] a[i].packs[j]);
        let p0 = c[i].packs[j];
        &&& p1.id == p0.id
        &&& p1.blob_type == p0.blob_type
        &&& p1.size == p0.size
        &&& p1.delete_mark == p0.delete_mark
        &&& p1.time == p0.time
        &&& p1.blobs == p0.blobs
    } by {
        assert(a[i].packs[j].id == b[i].packs[j].id);
        assert(b[i].packs[j].id == c[i].packs[j].id);
        assert(a[i].packs[j].blobs == b[i].packs[j].blobs);
        assert(b[i].packs[j].blobs == c[i].packs[j].blobs);
    }
}

impl Pruner {
    /// One sweep over every pack whose tombstone mark matches `mark`.
    fn decide_pass(
        &mut self,
        mark: bool,
        keep_pack: u64,
        keep_delete: u64,
        repack_cacheable_only: bool,
        repack_uncompressed: bool,
        sizer: &KindMap<PackSizer>,
    )
        requires
            old(self).used_ids.wf(),
            old(self).time.wf(),
            scannable(old(self).index_files.deep_view()),
        ensures
            final(self).used_ids.wf(),
            final(self).gstate() == spec_decide_pass(
                old(self).gstate(),
                mark,
                0,
                0,
                old(self).time,
                keep_pack,
                keep_delete,
                repack_cacheable_only,
                repack_uncompressed,
                *sizer,
            ),
            final(self).time == old(self).time,
            final(self).existing_packs == old(self).existing_packs,
            same_except_todo(
                final(self).index_files.deep_view(),
                old(self).index_files.deep_view(),
            ),
            cands_in_range(old(self).repack_candidates@, old(self).index_files.deep_view())
                ==> cands_in_range(
                final(self).repack_candidates@,
                final(self).index_files.deep_view(),
            ),
    {
        let ghost st0 = self.gstate();
        let ghost files0 = self.index_files.deep_view();
        let ghost now = self.time;
        let mut ii: usize = 0;
        proof {
            assert(same_except_todo(files0, files0));
        }
        while ii < self.index_files.len()
            invariant
                self.used_ids.wf(),
                self.time == now,
                now.wf(),
                scannable(files0),
                same_except_todo(self.index_files.deep_view(), files0),
                cands_in_range(old(self).repack_candidates@, files0) ==> cands_in_range(
                    self.repack_candidates@,
                    self.index_files.deep_view(),
                ),
                ii <= files0.len(),
                self.index_files@.len() == files0.len(),
                spec_decide_pass(
                    st0,
                    mark,
                    0,
                    0,
                    now,
                    keep_pack,
                    keep_delete,
                    repack_cacheable_only,
                    repack_uncompressed,
                    *sizer,
                ) == spec_decide_pass(
                    self.gstate(),
                    mark,
                    ii as int,
                    0,
                    now,
                    keep_pack,
                    keep_delete,
                    repack_cacheable_only,
                    repack_uncompressed,
                    *sizer,
                ),
                self.existing_packs == old(self).existing_packs,
            decreases files0.len() - ii,
        {
            let npacks = self.index_files[ii].packs.len();
            proof {
                assert(self.index_files@[ii as int]@ == self.index_files.deep_view()[ii as int]);
            }
            let mut pj: usize = 0;
            while pj < npacks
                invariant
                    self.used_ids.wf(),
                    self.time == now,
                    now.wf(),
                    scannable(files0),
                    same_except_todo(self.index_files.deep_view(), files0),
                    cands_in_range(old(self).repack_candidates@, files0) ==> cands_in_range(
                        self.repack_candidates@,
                        self.index_files.deep_view(),
                    ),
                    ii < files0.len(),
                    self.index_files@.len() == files0.len(),
                    npacks == files0[ii as int].packs.len(),
                    pj <= npacks,
                    spec_decide_pass(
                        st0,
                        mark,
                        0,
                        0,
                        now,
                        keep_pack,
                        keep_delete,
                        repack_cacheable_only,
                        repack_uncompressed,
                        *sizer,
                    ) == spec_decide_pass(
                        self.gstate(),
                        mark,
                        ii as int,
                        pj as int,
                        now,
                        keep_pack,
                        keep_delete,
                        repack_cacheable_only,
                        repack_uncompressed,
                        *sizer,
                    ),
                    self.existing_packs == old(self).existing_packs,
                decreases npacks - pj,
            {
                proof {
                    assert(self.index_files@[ii as int]@
                        == self.index_files.deep_view()[ii as int]);
                    assert(self.index_files@[ii as int].packs@[pj as int]@
                        == self.index_files.deep_view()[ii as int].packs[pj as int]);
                }
                let dm = self.index_files[ii].packs[pj].delete_mark;
                if dm == mark {
                    let ghost pre = self.gstate();
                    let ghost prefiles = self.index_files.deep_view();
                    let ghost pre_cands = self.repack_candidates@;
                    proof {
                        lemma_same_scannable(prefiles, files0);
                    }
                    self.decide_one(
                        ii,
                        pj,
                        keep_pack,
                        keep_delete,
                        repack_cacheable_only,
                        repack_uncompressed,
                        sizer,
                    );
                    proof {
                        lemma_same_trans(self.index_files.deep_view(), prefiles, files0);
                        if cands_in_range(old(self).repack_candidates@, files0) {
                            let cur = self.repack_candidates@;
                            assert forall|x: int| 0 <= x < cur.len() implies (#[trigger] cur[x]).2
                                < self.index_files.deep_view().len() && cur[x].3
                                < self.index_files.deep_view()[cur[x].2 as int].packs.len() by {
                                if x < cur.len() - 1 || cur == pre_cands {
                                    assert(cur[x] == pre_cands[x]);
                                }
                            }
                        }
                    }
                }
                pj += 1;
            }
            ii += 1;
        }
    }

    /// Decide every pack: tombstoned packs first, live packs second, so
    /// that tombstoned duplicates surrender their needed blobs to live
    /// copies.
    pub fn decide_packs(
        &mut self,
        keep_pack: u64,
        keep_delete: u64,
        repack_cacheable_only: bool,
        repack_uncompressed: bool,
        pack_sizer: &KindMap<PackSizer>,
    )
        requires
            old(self).used_ids.wf(),
            old(self).time.wf(),
            scannable(old(self).index_files.deep_view()),
        ensures
            final(self).used_ids.wf(),
            final(self).gstate() == spec_decide_pass(
                spec_decide_pass(
                    old(self).gstate(),
                    true,
                    0,
                    0,
                    old(self).time,
                    keep_pack,
                    keep_delete,
                    repack_cacheable_only,
                    repack_uncompressed,
                    *pack_sizer,
                ),
                false,
                0,
                0,
                old(self).time,
                keep_pack,
                keep_delete,
                repack_cacheable_only,
                repack_uncompressed,
                *pack_sizer,
            ),
            final(self).time == old(self).time,
            final(self).existing_packs == old(self).existing_packs,
            same_except_todo(
                final(self).index_files.deep_view(),
                old(self).index_files.deep_view(),
            ),
            cands_in_range(old(self).repack_candidates@, old(self).index_files.deep_view())
                ==> cands_in_range(
                final(self).repack_candidates@,
                final(self).index_files.deep_view(),
            ),
    {
        let ghost files0 = self.index_files.deep_view();
        self.decide_pass(
            true,
            keep_pack,
            keep_delete,
            repack_cacheable_only,
            repack_uncompressed,
            pack_sizer,
        );
        proof {
            lemma_same_scannable(self.index_files.deep_view(), files0);
        }
        let ghost mid = self.index_files.deep_view();
        self.decide_pass(
            false,
            keep_pack,
            keep_delete,
            repack_cacheable_only,
            repack_uncompressed,
            pack_sizer,
        );
        proof {
            lemma_same_trans(self.index_files.deep_view(), mid, files0);
        }
    }
}


/// The waste class of a pack: its unused-to-used byte ratio is infinite
/// (nothing used), finite, or zero (nothing at all).
pub open spec fn pi_class(a: PackInfo) -> int {
    if a.used_size > 0 {
        1
    } else if a.unused_size > 0 {
        2
    } else {
        0
    }
}

/// The repack order on pack infos: tree packs first, then the highest
/// unused-to-used ratio first; a pack with no used bytes is most
/// wasteful, one with no bytes at all least.
pub open spec fn pi_le(a: PackInfo, b: PackInfo) -> bool {
    if a.blob_type != b.blob_type {
        a.blob_type is Tree
    } else if pi_class(a) != pi_class(b) {
        pi_class(a) > pi_class(b)
    } else {
        (b.unused_size as int) * (a.used_size as int) <= (a.unused_size as int) * (
        b.used_size as int)
    }
}

/// The repack order on candidates.
pub open spec fn cand_le(
    a: (PackInfo, RepackReason, usize, usize),
    b: (PackInfo, RepackReason, usize, usize),
) -> bool {
    pi_le(a.0, b.0)
}

/// The repack order is total.
proof fn lemma_pi_le_total(a: PackInfo, b: PackInfo)
    ensures
        pi_le(a, b) || pi_le(b, a),
{
}

/// The repack order is transitive.
proof fn lemma_pi_le_trans(a: PackInfo, b: PackInfo, c: PackInfo)
    requires
        pi_le(a, b),
        pi_le(b, c),
    ensures
        pi_le(a, c),
{
    if a.blob_type == b.blob_type && b.blob_type == c.blob_type && pi_class(a) == pi_class(b)
        && pi_class(b) == pi_class(c) && pi_class(a) == 1 {
        let a0 = a.unused_size as int;
        let a1 = a.used_size as int;
        let b0 = b.unused_size as int;
        let b1 = b.used_size as int;
        let c0 = c.unused_size as int;
        let c1 = c.used_size as int;
        assert(c0 * a1 <= a0 * c1) by (nonlinear_arith)
            requires
                b0 * a1 <= a0 * b1,
                c0 * b1 <= b0 * c1,
                a0 >= 0,
                a1 > 0,
                b0 >= 0,
                b1 > 0,
                c0 >= 0,
                c1 > 0,
        ;
    }
}

/// The candidate order as a relation value.
pub open spec fn cand_leq() -> spec_fn(
    (PackInfo, RepackReason, usize, usize),
    (PackInfo, RepackReason, usize, usize),
) -> bool {
    |a: (PackInfo, RepackReason, usize, usize), b: (PackInfo, RepackReason, usize, usize)|
        cand_le(a, b)
}

/// Exec form of the candidate order.
fn cand_le_exec(
    a: &(PackInfo, RepackReason, usize, usize),
    b: &(PackInfo, RepackReason, usize, usize),
) -> (r: bool)
    ensures
        r == cand_le(*a, *b),
{
    if !a.0.blob_type.le(&b.0.blob_type) {
        false
    } else if !b.0.blob_type.le(&a.0.blob_type) {
        true
    } else {
        let ca: u8 = if a.0.used_size > 0 {
            1
        } else if a.0.unused_size > 0 {
            2
        } else {
            0
        };
        let cb: u8 = if b.0.used_size > 0 {
            1
        } else if b.0.unused_size > 0 {
            2
        } else {
            0
        };
        if ca != cb {
            ca > cb
        } else {
            proof {
                assert((b.0.unused_size as u64) * (a.0.used_size as u64)
                    <= 0xffff_fffe_0000_0001u64 && (a.0.unused_size as u64) * (
                b.0.used_size as u64) <= 0xffff_fffe_0000_0001u64) by (nonlinear_arith)
                    requires
                        b.0.unused_size <= u32::MAX,
                        a.0.used_size <= u32::MAX,
                        a.0.unused_size <= u32::MAX,
                        b.0.used_size <= u32::MAX,
                ;
            }
            (b.0.unused_size as u64) * (a.0.used_size as u64) <= (a.0.unused_size as u64) * (
            b.0.used_size as u64)
        }
    }
}

/// Sort the repack candidates: tree packs first, most wasteful first.
fn sort_candidates(v: &mut Vec<(PackInfo, RepackReason, usize, usize)>)
    ensures
        vstd::relations::sorted_by(final(v)@, cand_leq()),
        final(v)@.to_multiset() == old(v)@.to_multiset(),
{
    broadcast use vstd::seq_lib::group_to_multiset_ensures;

    let ghost orig = v@;

    let mut out: Vec<(PackInfo, RepackReason, usize, usize)> = Vec::new();
    proof {
        assert(out@.to_multiset().add(v@.to_multiset()) =~= orig.to_multiset());
        assert(vstd::relations::sorted_by(out@, cand_leq()));
    }
    while v.len() > 0
        invariant
            vstd::relations::sorted_by(out@, cand_leq()),
            out@.to_multiset().add(v@.to_multiset()) == orig.to_multiset(),
            forall|x: int, y: int|
                0 <= x < out@.len() && 0 <= y < v@.len() ==> cand_le(
                    #[trigger] out@[x],
                    #[trigger] v@[y],
                ),
        decreases v@.len(),
    {
        let mut min: usize = 0;
        let mut i: usize = 1;
        while i < v.len()
            invariant
                v@.len() > 0,
                min < i <= v@.len(),
                forall|y: int| 0 <= y < i ==> cand_le(v@[min as int], #[trigger] v@[y]),
            decreases v@.len() - i,
        {
            if cand_le_exec(&v[i], &v[min]) {
                proof {
                    assert forall|y: int| 0 <= y < i + 1 implies cand_le(
                        v@[i as int],
                        #[trigger] v@[y],
                    ) by {
                        if y < i {
                            lemma_pi_le_trans(v@[i as int].0, v@[min as int].0, v@[y].0);
                        }
                    }
                }
                min = i;
            } else {
                proof {
                    lemma_pi_le_total(v@[i as int].0, v@[min as int].0);
                }
            }
            i += 1;
        }
        let ghost vpre = v@;
        let ghost outpre = out@;
        let m = v.remove(min);
        out.push(m);
        proof {
            assert(vpre.remove(min as int).to_multiset() =~= vpre.to_multiset().remove(m));
            assert(out@.to_multiset() =~= outpre.to_multiset().insert(m));
            assert(vpre.to_multiset().contains(m)) by {
                assert(vpre[min as int] == m);
                assert(vpre.contains(m));
            }
            assert(out@.to_multiset().add(v@.to_multiset()) =~= orig.to_multiset());
            assert forall|x: int, y: int|
                0 <= x < out@.len() && 0 <= y < v@.len() implies cand_le(
                #[trigger] out@[x],
                #[trigger] v@[y],
            ) by {
                let y0: int = if y < min {
                    y
                } else {
                    y + 1
                };
                assert(v@[y] == vpre[y0]);
                if x < out@.len() - 1 {
                    assert(out@[x] == outpre[x]);
                } else {
                    assert(out@[x] == m);
                }
            }
            assert forall|x: int, y: int| 0 <= x < y < out@.len() implies cand_leq()(
                out@[x],
                out@[y],
            ) by {
                assert(cand_leq()(out@[x], out@[y]) == cand_le(out@[x], out@[y]));
                if y < out@.len() - 1 {
                    assert(out@[x] == outpre[x] && out@[y] == outpre[y]);
                    assert(cand_leq()(outpre[x], outpre[y]));
                } else {
                    assert(out@[x] == outpre[x]);
                    assert(out@[y] == m);
                    assert(cand_le(outpre[x], vpre[min as int]));
                }
            }
            assert(vstd::relations::sorted_by(out@, cand_leq()));
        }
    }
    proof {
        assert(v@.to_multiset() =~= Multiset::empty());
        assert(out@.to_multiset().add(Multiset::empty()) =~= out@.to_multiset());
    }
    *v = out;
}


/// A budget: a byte count, a percentage, or no bound.
#[derive(Clone, Copy, Debug, PartialEq, Eq, Structural)]
pub enum LimitOption {
    Size(u64),
    Percentage(u64),
    Unlimited,
}

/// The sum of both kinds' size statistics, saturating fieldwise.
pub open spec fn spec_size_sum(m: KindMap<SizeStats>) -> SizeStats {
    SizeStats {
        used: spec_sat_add(m.tree.used, m.data.used),
        unused: spec_sat_add(m.tree.unused, m.data.unused),
        remove: spec_sat_add(m.tree.remove, m.data.remove),
        repack: spec_sat_add(m.tree.repack, m.data.repack),
        repackrm: spec_sat_add(m.tree.repackrm, m.data.repackrm),
    }
}

/// Exec form of `spec_size_sum`.
pub fn size_sum(m: &KindMap<SizeStats>) -> (r: SizeStats)
    ensures
        r == spec_size_sum(*m),
{
    SizeStats {
        used: sat_add(m.tree.used, m.data.used),
        unused: sat_add(m.tree.unused, m.data.unused),
        remove: sat_add(m.tree.remove, m.data.remove),
        repack: sat_add(m.tree.repack, m.data.repack),
        repackrm: sat_add(m.tree.repackrm, m.data.repackrm),
    }
}

/// The unused bytes that this run still leaves, over both kinds.
pub open spec fn spec_unused_after(stats: PruneStats) -> int {
    let s = spec_size_sum(stats.size);
    s.unused - s.remove - s.repackrm
}

/// The tolerated unused bytes after pruning: zero when recompressing,
/// else the stated size, or the stated share of the used bytes.
pub open spec fn spec_max_unused(
    repack_uncompressed: bool,
    limit: LimitOption,
    stats: PruneStats,
) -> int {
    if repack_uncompressed {
        0
    } else {
        match limit {
            LimitOption::Unlimited => u64::MAX as int,
            LimitOption::Size(s) => s as int,
            LimitOption::Percentage(p) => {
                let v = (p * spec_size_sum(stats.size).used) / (100 - p);
                if v > u64::MAX {
                    u64::MAX as int
                } else {
                    v
                }
            },
        }
    }
}

/// The repack byte budget: the stated size, or the stated share of the
/// repository size.  A percentage is a share: the product with the
/// repository size is divided by one hundred.
pub open spec fn spec_max_repack(limit: LimitOption, stats: PruneStats) -> int {
    match limit {
        LimitOption::Unlimited => u64::MAX as int,
        LimitOption::Size(s) => s as int,
        LimitOption::Percentage(p) => {
            let s = spec_size_sum(stats.size);
            let v = (p * spec_sat_add(s.used, s.unused)) / 100;
            if v > u64::MAX {
                u64::MAX as int
            } else {
                v
            }
        },
    }
}

/// One candidate decided: keep when over budget or below the waste
/// threshold; queue size-mismatch candidates; else repack.
pub open spec fn spec_repack_one(
    st: GDecide,
    rs: KindMap<u64>,
    dr: KindMap<bool>,
    rz: KindMap<Seq<(PackInfo, usize, usize)>>,
    c: (PackInfo, RepackReason, usize, usize),
    max_repack: int,
    max_unused: int,
    no_resize: bool,
) -> (GDecide, KindMap<u64>, KindMap<bool>, KindMap<Seq<(PackInfo, usize, usize)>>) {
    let pi = c.0;
    let bt = pi.blob_type;
    let gpi = g_of(pi.used_blobs, pi.unused_blobs, pi.used_size, pi.unused_size);
    let ii = c.2 as int;
    let pj = c.3 as int;
    let total = spec_sat_add(rs.tree, rs.data);
    if total + pi.used_size >= max_repack || (spec_unused_after(st.stats) < max_unused && c.1
        is PartlyUsed && bt is Data) || (c.1 is SizeMismatch && no_resize) {
        let p = st.files[ii].packs[pj];
        (
            GDecide {
                files: spec_set_todo_in(st.files, ii, pj, PackToDo::Keep),
                stats: spec_apply_todo(st.stats, PackToDo::Keep, p.blob_type, gpi, p.size),
                ..st
            },
            rs,
            dr,
            rz,
        )
    } else if c.1 is SizeMismatch {
        (
            st,
            spec_kind_set(rs, bt, spec_sat_add(rs.spec_get(bt), pi.used_size as u64)),
            dr,
            spec_kind_set(rz, bt, rz.spec_get(bt).push((pi, c.2, c.3))),
        )
    } else {
        let p = st.files[ii].packs[pj];
        (
            GDecide {
                files: spec_set_todo_in(st.files, ii, pj, PackToDo::Repack),
                stats: spec_apply_todo(st.stats, PackToDo::Repack, p.blob_type, gpi, p.size),
                ..st
            },
            spec_kind_set(rs, bt, spec_sat_add(rs.spec_get(bt), pi.used_size as u64)),
            spec_kind_set(dr, bt, true),
            rz,
        )
    }
}

/// Walk the sorted candidates, budgeting repacks.
pub open spec fn spec_repack_loop(
    st: GDecide,
    rs: KindMap<u64>,
    dr: KindMap<bool>,
    rz: KindMap<Seq<(PackInfo, usize, usize)>>,
    cands: Seq<(PackInfo, RepackReason, usize, usize)>,
    ci: int,
    max_repack: int,
    max_unused: int,
    no_resize: bool,
) -> (GDecide, KindMap<u64>, KindMap<bool>, KindMap<Seq<(PackInfo, usize, usize)>>)
    decreases cands.len() - ci,
{
    if ci < 0 || ci >= cands.len() {
        (st, rs, dr, rz)
    } else {
        let s2 = spec_repack_one(st, rs, dr, rz, cands[ci], max_repack, max_unused, no_resize);
        spec_repack_loop(s2.0, s2.1, s2.2, s2.3, cands, ci + 1, max_repack, max_unused, no_resize)
    }
}

/// Record one decision for every queued size-mismatch candidate of a kind.
pub open spec fn spec_flush_resize(
    st: GDecide,
    entries: Seq<(PackInfo, usize, usize)>,
    k: int,
    todo: PackToDo,
) -> GDecide
    decreases entries.len() - k,
{
    if k < 0 || k >= entries.len() {
        st
    } else {
        let e = entries[k];
        let pi = e.0;
        let gpi = g_of(pi.used_blobs, pi.unused_blobs, pi.used_size, pi.unused_size);
        let p = st.files[e.1 as int].packs[e.2 as int];
        let st2 = GDecide {
            files: spec_set_todo_in(st.files, e.1 as int, e.2 as int, todo),
            stats: spec_apply_todo(st.stats, todo, p.blob_type, gpi, p.size),
            ..st
        };
        spec_flush_resize(st2, entries, k + 1, todo)
    }
}

/// The whole repack decision over a sorted candidate list.
pub open spec fn spec_decide_repack(
    st0: GDecide,
    sorted: Seq<(PackInfo, RepackReason, usize, usize)>,
    max_repack: int,
    max_unused: int,
    no_resize: bool,
    sizer: KindMap<PackSizer>,
) -> GDecide {
    let zero_rs = KindMap { tree: 0u64, data: 0u64 };
    let zero_dr = KindMap { tree: false, data: false };
    let zero_rz = KindMap {
        tree: Seq::<(PackInfo, usize, usize)>::empty(),
        data: Seq::<(PackInfo, usize, usize)>::empty(),
    };
    let st_begin = GDecide { cands: Seq::empty(), ..st0 };
    let r = spec_repack_loop(
        st_begin,
        zero_rs,
        zero_dr,
        zero_rz,
        sorted,
        0,
        max_repack,
        max_unused,
        no_resize,
    );
    let todo_tree = if r.2.tree || r.1.tree > sizer.tree.spec_pack_size() {
        PackToDo::Repack
    } else {
        PackToDo::Keep
    };
    let after_tree = spec_flush_resize(r.0, r.3.tree, 0, todo_tree);
    let todo_data = if r.2.data || r.1.data > sizer.data.spec_pack_size() {
        PackToDo::Repack
    } else {
        PackToDo::Keep
    };
    spec_flush_resize(after_tree, r.3.data, 0, todo_data)
}


/// A permutation of in-range candidates is in range.
proof fn lemma_in_range_perm(
    a: Seq<(PackInfo, RepackReason, usize, usize)>,
    b: Seq<(PackInfo, RepackReason, usize, usize)>,
    files: Seq<SpecPruneIndex>,
)
    requires
        a.to_multiset() == b.to_multiset(),
        cands_in_range(b, files),
    ensures
        cands_in_range(a, files),
{
    assert forall|i: int| 0 <= i < a.len() implies (#[trigger] a[i]).2 < files.len() && a[i].3
        < files[a[i].2 as int].packs.len() by {
        assert(a.contains(a[i]));
        assert(a.to_multiset().count(a[i]) > 0);
        assert(b.to_multiset().count(a[i]) > 0);
        assert(b.contains(a[i]));
        let j = choose|j: int| 0 <= j < b.len() && b[j] == a[i];
        assert(b[j].2 < files.len());
    }
}

impl Pruner {
    /// The decision state, with the candidate list already taken out.
    pub open spec fn gstate_nocands(&self) -> GDecide {
        GDecide {
            files: self.index_files.deep_view(),
            used: self.used_ids.as_map(),
            stats: self.stats,
            cands: Seq::empty(),
        }
    }

    /// Record one decision at a candidate's position.
    fn apply_cand_todo(&mut self, pi: PackInfo, ii: usize, pj: usize, todo: PackToDo)
        requires
            !(todo is Undecided),
            ii < old(self).index_files@.len(),
            pj < old(self).index_files@[ii as int].packs@.len(),
        ensures
            ({
                let files0 = old(self).index_files.deep_view();
                let p = files0[ii as int].packs[pj as int];
                let gpi = g_of(pi.used_blobs, pi.unused_blobs, pi.used_size, pi.unused_size);
                final(self).index_files.deep_view() == spec_set_todo_in(
                    files0,
                    ii as int,
                    pj as int,
                    todo,
                ) && final(self).stats == spec_apply_todo(
                    old(self).stats,
                    todo,
                    p.blob_type,
                    gpi,
                    p.size,
                )
            }),
            final(self).time == old(self).time,
            final(self).used_ids == old(self).used_ids,
            final(self).existing_packs == old(self).existing_packs,
            final(self).repack_candidates == old(self).repack_candidates,
            same_except_todo(
                final(self).index_files.deep_view(),
                old(self).index_files.deep_view(),
            ),
    {
        let ghost files0 = self.index_files.deep_view();
        proof {
            assert(files0[ii as int].packs[pj as int]
                == self.index_files@[ii as int].packs@[pj as int]@);
        }
        self.index_files[ii].packs[pj].set_todo(todo, &pi, &mut self.stats);
        proof {
            assert(self.index_files.deep_view() =~~= spec_set_todo_in(
                files0,
                ii as int,
                pj as int,
                todo,
            ));
        }
    }

    /// Promote sorted repack candidates while the budget allows and the
    /// tolerated waste is still exceeded; aggregate size-mismatch
    /// candidates per kind and repack them only when their kind is being
    /// repacked anyway or they fill a whole target pack.
    #[verifier::rlimit(100)]
    pub fn decide_repack(
        &mut self,
        max_repack: &LimitOption,
        max_unused: &LimitOption,
        repack_uncompressed: bool,
        no_resize: bool,
        pack_sizer: &KindMap<PackSizer>,
    )
        requires
            cands_in_range(old(self).repack_candidates@, old(self).index_files.deep_view()),
            *max_unused matches LimitOption::Percentage(p) ==> p < 100,
        ensures
            final(self).repack_candidates@.len() == 0,
            final(self).time == old(self).time,
            final(self).used_ids == old(self).used_ids,
            final(self).existing_packs == old(self).existing_packs,
            same_except_todo(
                final(self).index_files.deep_view(),
                old(self).index_files.deep_view(),
            ),
            exists|sorted: Seq<(PackInfo, RepackReason, usize, usize)>|
                sorted.to_multiset() == old(self).repack_candidates@.to_multiset()
                    && vstd::relations::sorted_by(sorted, cand_leq()) && final(self).gstate()
                    == spec_decide_repack(
                    old(self).gstate(),
                    sorted,
                    spec_max_repack(*max_repack, old(self).stats),
                    spec_max_unused(repack_uncompressed, *max_unused, old(self).stats),
                    no_resize,
                    *pack_sizer,
                ),
    {
        broadcast use vstd::seq_lib::group_to_multiset_ensures;

        let ghost st0 = self.gstate();
        let ghost files0 = self.index_files.deep_view();
        let mr: u64 = match max_repack {
            LimitOption::Unlimited => u64::MAX,
            LimitOption::Size(s) => *s,
            LimitOption::Percentage(p) => {
                let total = sat_add(
                    size_sum(&self.stats.size).used,
                    size_sum(&self.stats.size).unused,
                );
                proof {
                    assert((*p as u128) * (total as u128) < u128::MAX) by (nonlinear_arith)
                        requires
                            *p <= u64::MAX,
                            total <= u64::MAX,
                    ;
                }
                let v: u128 = (*p as u128) * (total as u128) / 100;
                if v > u64::MAX as u128 {
                    u64::MAX
                } else {
                    v as u64
                }
            },
        };
        let mu: u64 = if repack_uncompressed {
            0
        } else {
            match max_unused {
                LimitOption::Unlimited => u64::MAX,
                LimitOption::Size(s) => *s,
                LimitOption::Percentage(p) => {
                    let used = size_sum(&self.stats.size).used;
                    proof {
                        assert((*p as u128) * (used as u128) < u128::MAX) by (nonlinear_arith)
                            requires
                                *p < 100,
                                used <= u64::MAX,
                        ;
                    }
                    let v: u128 = (*p as u128) * (used as u128) / ((100 - *p) as u128);
                    if v > u64::MAX as u128 {
                        u64::MAX
                    } else {
                        v as u64
                    }
                },
            }
        };
        proof {
            assert(mr as int == spec_max_repack(*max_repack, old(self).stats));
            assert(mu as int == spec_max_unused(repack_uncompressed, *max_unused, old(self).stats));
        }
        sort_candidates(&mut self.repack_candidates);
        let ghost sorted = self.repack_candidates@;
        proof {
            lemma_in_range_perm(sorted, old(self).repack_candidates@, files0);
        }
        let mut rs: KindMap<u64> = KindMap { tree: 0, data: 0 };
        let mut dr: KindMap<bool> = KindMap { tree: false, data: false };
        let mut rz_tree: Vec<(PackInfo, usize, usize)> = Vec::new();
        let mut rz_data: Vec<(PackInfo, usize, usize)> = Vec::new();
        let ghost st_begin = GDecide { cands: Seq::empty(), ..st0 };
        let mut ci: usize = 0;
        let ncand = self.repack_candidates.len();
        proof {
            assert(st_begin.files == self.index_files.deep_view());
        }
        while ci < ncand
            invariant
                ncand == sorted.len(),
                ci <= ncand,
                self.repack_candidates@ == sorted,
                cands_in_range(sorted, files0),
                forall|x: int|
                    0 <= x < rz_tree@.len() ==> exists|y: int|
                        0 <= y < sorted.len() && (#[trigger] rz_tree@[x]).1 == sorted[y].2
                            && rz_tree@[x].2 == sorted[y].3,
                forall|x: int|
                    0 <= x < rz_data@.len() ==> exists|y: int|
                        0 <= y < sorted.len() && (#[trigger] rz_data@[x]).1 == sorted[y].2
                            && rz_data@[x].2 == sorted[y].3,
                same_except_todo(self.index_files.deep_view(), files0),
                self.time == old(self).time,
                self.used_ids == old(self).used_ids,
                self.existing_packs == old(self).existing_packs,
                spec_repack_loop(
                    st_begin,
                    KindMap { tree: 0u64, data: 0u64 },
                    KindMap { tree: false, data: false },
                    KindMap {
                        tree: Seq::<(PackInfo, usize, usize)>::empty(),
                        data: Seq::<(PackInfo, usize, usize)>::empty(),
                    },
                    sorted,
                    0,
                    mr as int,
                    mu as int,
                    no_resize,
                ) == spec_repack_loop(
                    self.gstate_nocands(),
                    rs,
                    dr,
                    KindMap { tree: rz_tree@, data: rz_data@ },
                    sorted,
                    ci as int,
                    mr as int,
                    mu as int,
                    no_resize,
                ),
            decreases ncand - ci,
        {
            let c = self.repack_candidates[ci];
            let pi = c.0;
            let bt = pi.blob_type;
            let total = sat_add(rs.tree, rs.data);
            let sum = size_sum(&self.stats.size);
            let ua: i128 = sum.unused as i128 - sum.remove as i128 - sum.repackrm as i128;
            let over_budget = (total as u128) + (pi.used_size as u128) >= mr as u128;
            let under_waste = ua < mu as i128 && matches!(c.1, RepackReason::PartlyUsed)
                && matches!(bt, BlobType::Data);
            let no_resize_skip = matches!(c.1, RepackReason::SizeMismatch) && no_resize;
            if over_budget || under_waste || no_resize_skip {
                self.apply_cand_todo(pi, c.2, c.3, PackToDo::Keep);
            } else if matches!(c.1, RepackReason::SizeMismatch) {
                match bt {
                    BlobType::Tree => {
                        rz_tree.push((pi, c.2, c.3));
                        proof {
                            assert(rz_tree@.last().1 == sorted[ci as int].2 && rz_tree@.last().2
                                == sorted[ci as int].3);
                        }
                        rs.tree = sat_add(rs.tree, pi.used_size as u64);
                    },
                    BlobType::Data => {
                        rz_data.push((pi, c.2, c.3));
                        proof {
                            assert(rz_data@.last().1 == sorted[ci as int].2 && rz_data@.last().2
                                == sorted[ci as int].3);
                        }
                        rs.data = sat_add(rs.data, pi.used_size as u64);
                    },
                }
            } else {
                self.apply_cand_todo(pi, c.2, c.3, PackToDo::Repack);
                match bt {
                    BlobType::Tree => {
                        rs.tree = sat_add(rs.tree, pi.used_size as u64);
                        dr.tree = true;
                    },
                    BlobType::Data => {
                        rs.data = sat_add(rs.data, pi.used_size as u64);
                        dr.data = true;
                    },
                }
            }
            ci += 1;
        }
        let todo_tree = if dr.tree || rs.tree > pack_sizer.tree.pack_size() as u64 {
            PackToDo::Repack
        } else {
            PackToDo::Keep
        };
        let ghost st_mid = self.gstate_nocands();
        let ghost rz_tree_all = rz_tree@;
        let mut k: usize = 0;
        proof {
            lemma_in_range_rz(rz_tree@, sorted, files0);
        }
        while k < rz_tree.len()
            invariant
                !(todo_tree is Undecided),
                rz_tree@ == rz_tree_all,
                k <= rz_tree_all.len(),
                forall|x: int|
                    0 <= x < rz_tree_all.len() ==> (#[trigger] rz_tree_all[x]).1 < files0.len()
                        && rz_tree_all[x].2 < files0[rz_tree_all[x].1 as int].packs.len(),
                same_except_todo(self.index_files.deep_view(), files0),
                self.time == old(self).time,
                self.used_ids == old(self).used_ids,
                self.existing_packs == old(self).existing_packs,
                self.repack_candidates@ == sorted,
                spec_flush_resize(st_mid, rz_tree_all, 0, todo_tree) == spec_flush_resize(
                    self.gstate_nocands(),
                    rz_tree_all,
                    k as int,
                    todo_tree,
                ),
            decreases rz_tree_all.len() - k,
        {
            let e = rz_tree[k];
            self.apply_cand_todo(e.0, e.1, e.2, todo_tree);
            k += 1;
        }
        let todo_data = if dr.data || rs.data > pack_sizer.data.pack_size() as u64 {
            PackToDo::Repack
        } else {
            PackToDo::Keep
        };
        let ghost st_mid2 = self.gstate_nocands();
        let ghost rz_data_all = rz_data@;
        let mut k2: usize = 0;
        proof {
            lemma_in_range_rz(rz_data@, sorted, files0);
        }
        while k2 < rz_data.len()
            invariant
                !(todo_data is Undecided),
                rz_data@ == rz_data_all,
                k2 <= rz_data_all.len(),
                forall|x: int|
                    0 <= x < rz_data_all.len() ==> (#[trigger] rz_data_all[x]).1 < files0.len()
                        && rz_data_all[x].2 < files0[rz_data_all[x].1 as int].packs.len(),
                same_except_todo(self.index_files.deep_view(), files0),
                self.time == old(self).time,
                self.used_ids == old(self).used_ids,
                self.existing_packs == old(self).existing_packs,
                self.repack_candidates@ == sorted,
                spec_flush_resize(st_mid2, rz_data_all, 0, todo_data) == spec_flush_resize(
                    self.gstate_nocands(),
                    rz_data_all,
                    k2 as int,
                    todo_data,
                ),
            decreases rz_data_all.len() - k2,
        {
            let e = rz_data[k2];
            self.apply_cand_todo(e.0, e.1, e.2, todo_data);
            k2 += 1;
        }
        self.repack_candidates.clear();
    }
}

/// Entries queued from in-range candidates stay in range.
proof fn lemma_in_range_rz(
    rz: Seq<(PackInfo, usize, usize)>,
    cands: Seq<(PackInfo, RepackReason, usize, usize)>,
    files: Seq<SpecPruneIndex>,
)
    requires
        cands_in_range(cands, files),
        forall|x: int|
            0 <= x < rz.len() ==> exists|y: int|
                0 <= y < cands.len() && (#[trigger] rz[x]).1 == cands[y].2 && rz[x].2 == cands[y].3,
    ensures
        forall|x: int|
            0 <= x < rz.len() ==> (#[trigger] rz[x]).1 < files.len() && rz[x].2 < files[rz[x].1
                as int].packs.len(),
{
    assert forall|x: int| 0 <= x < rz.len() implies (#[trigger] rz[x]).1 < files.len() && rz[x].2
        < files[rz[x].1 as int].packs.len() by {
        let y = choose|y: int|
            0 <= y < cands.len() && (#[trigger] rz[x]).1 == cands[y].2 && rz[x].2 == cands[y].3;
        assert(cands[y].2 < files.len());
    }
}


/// Drop every blob of a pack from the needed set.
pub open spec fn spec_drop_blobs(blobs: Seq<SpecBlob>, j: int, used: Map<Seq<u8>, u8>) -> Map<
    Seq<u8>,
    u8,
>
    decreases blobs.len() - j,
{
    if j < 0 || j >= blobs.len() {
        used
    } else {
        spec_drop_blobs(blobs, j + 1, used.remove(blobs[j].id))
    }
}

/// The cross-check over one pack: its catalogued size must match the
/// store listing for packs that stay, and blobs of kept packs leave the
/// needed set.
pub open spec fn spec_cross_check_pack(
    p: SpecPrunePack,
    used: Map<Seq<u8>, u8>,
    existing: Map<Seq<u8>, u32>,
) -> Option<(Map<Seq<u8>, u8>, Map<Seq<u8>, u32>)> {
    let existing2 = existing.remove(p.id);
    let size_ok = existing.contains_key(p.id) && existing[p.id] == p.size;
    match p.to_do {
        PackToDo::Undecided => None,
        PackToDo::Keep | PackToDo::Recover => {
            if size_ok {
                Some((spec_drop_blobs(p.blobs, 0, used), existing2))
            } else {
                None
            }
        },
        PackToDo::Repack => {
            if size_ok {
                Some((used, existing2))
            } else {
                None
            }
        },
        _ => Some((used, existing2)),
    }
}

/// The cross-check over every pack, in file order.
pub open spec fn spec_cross_check(
    files: Seq<SpecPruneIndex>,
    ii: int,
    pj: int,
    used: Map<Seq<u8>, u8>,
    existing: Map<Seq<u8>, u32>,
) -> Option<(Map<Seq<u8>, u8>, Map<Seq<u8>, u32>)>
    decreases files.len() - ii, (if 0 <= ii < files.len() {
        files[ii].packs.len() + 1
    } else {
        0
    }) - pj,
{
    if ii < 0 || pj < 0 || ii >= files.len() {
        Some((used, existing))
    } else if pj >= files[ii].packs.len() {
        spec_cross_check(files, ii + 1, 0, used, existing)
    } else {
        match spec_cross_check_pack(files[ii].packs[pj], used, existing) {
            None => None,
            Some(r) => spec_cross_check(files, ii, pj + 1, r.0, r.1),
        }
    }
}

/// The saturating sum of the sizes left in a listing map.
pub open spec fn spec_sum_sizes(m: IdMap<u32>, i: int) -> u64
    decreases m.spec_len() - i,
{
    if i < 0 || i >= m.spec_len() {
        0
    } else {
        spec_sat_add(m.val_at(i) as u64, spec_sum_sizes(m, i + 1))
    }
}

impl Pruner {
    /// Cross-check every pack against the store listing: packs that stay
    /// must exist with their catalogued size; blobs of kept packs leave
    /// the needed set; what remains of the listing is unindexed, and its
    /// bytes are booked as unreferenced.
    pub fn check_existing_packs(&mut self) -> (r: Result<(), RepoError>)
        requires
            old(self).used_ids.wf(),
            old(self).existing_packs.wf(),
        ensures
            final(self).used_ids.wf(),
            final(self).existing_packs.wf(),
            r is Err ==> r == Err::<(), RepoError>(RepoError::Integrity),
            r is Ok <==> spec_cross_check(
                old(self).index_files.deep_view(),
                0,
                0,
                old(self).used_ids.as_map(),
                old(self).existing_packs.as_map(),
            ) is Some,
            r is Ok ==> {
                let cc = spec_cross_check(
                    old(self).index_files.deep_view(),
                    0,
                    0,
                    old(self).used_ids.as_map(),
                    old(self).existing_packs.as_map(),
                )->0;
                &&& final(self).used_ids.as_map() == cc.0
                &&& final(self).existing_packs.as_map() == cc.1
                &&& final(self).stats == (PruneStats {
                    size_unref: spec_sum_sizes(final(self).existing_packs, 0),
                    ..old(self).stats
                })
                &&& final(self).index_files == old(self).index_files
                &&& final(self).time == old(self).time
                &&& final(self).repack_candidates == old(self).repack_candidates
            },
    {
        let ghost files0 = self.index_files.deep_view();
        let mut ii: usize = 0;
        while ii < self.index_files.len()
            invariant
                self.used_ids.wf(),
                self.existing_packs.wf(),
                self.index_files.deep_view() == files0,
                self.index_files@.len() == files0.len(),
                ii <= files0.len(),
                spec_cross_check(
                    files0,
                    0,
                    0,
                    old(self).used_ids.as_map(),
                    old(self).existing_packs.as_map(),
                ) == spec_cross_check(
                    files0,
                    ii as int,
                    0,
                    self.used_ids.as_map(),
                    self.existing_packs.as_map(),
                ),
                self.index_files == old(self).index_files,
                self.time == old(self).time,
                self.repack_candidates == old(self).repack_candidates,
                self.stats == old(self).stats,
            decreases files0.len() - ii,
        {
            let npacks = self.index_files[ii].packs.len();
            proof {
                assert(files0[ii as int] == self.index_files@[ii as int]@);
            }
            let mut pj: usize = 0;
            while pj < npacks
                invariant
                    self.used_ids.wf(),
                    self.existing_packs.wf(),
                    self.index_files.deep_view() == files0,
                    self.index_files@.len() == files0.len(),
                    ii < files0.len(),
                    npacks == files0[ii as int].packs.len(),
                    pj <= npacks,
                    spec_cross_check(
                        files0,
                        0,
                        0,
                        old(self).used_ids.as_map(),
                        old(self).existing_packs.as_map(),
                    ) == spec_cross_check(
                        files0,
                        ii as int,
                        pj as int,
                        self.used_ids.as_map(),
                        self.existing_packs.as_map(),
                    ),
                    self.index_files == old(self).index_files,
                    self.time == old(self).time,
                    self.repack_candidates == old(self).repack_candidates,
                    self.stats == old(self).stats,
                decreases npacks - pj,
            {
                proof {
                    assert(files0[ii as int].packs[pj as int]
                        == self.index_files@[ii as int].packs@[pj as int]@);
                }
                let pack_id = self.index_files[ii].packs[pj].id.clone();
                let pack_size = self.index_files[ii].packs[pj].size;
                let todo = self.index_files[ii].packs[pj].to_do;
                let existing_size = self.existing_packs.remove(&pack_id);
                let size_ok = match existing_size {
                    Some(s) => s == pack_size,
                    None => false,
                };
                match todo {
                    PackToDo::Undecided => {
                        return Err(RepoError::Integrity);
                    },
                    PackToDo::Keep | PackToDo::Recover => {
                        if !size_ok {
                            return Err(RepoError::Integrity);
                        }
                        let ghost used_pre = self.used_ids.as_map();
                        let ghost epre = self.existing_packs;
                        let nblobs = self.index_files[ii].packs[pj].blobs.len();
                        let mut bk: usize = 0;
                        while bk < nblobs
                            invariant
                                self.used_ids.wf(),
                                self.index_files.deep_view() == files0,
                                self.index_files@.len() == files0.len(),
                                ii < files0.len(),
                                pj < files0[ii as int].packs.len(),
                                nblobs == files0[ii as int].packs[pj as int].blobs.len(),
                                bk <= nblobs,
                                spec_drop_blobs(
                                    files0[ii as int].packs[pj as int].blobs,
                                    0,
                                    used_pre,
                                ) == spec_drop_blobs(
                                    files0[ii as int].packs[pj as int].blobs,
                                    bk as int,
                                    self.used_ids.as_map(),
                                ),
                                self.index_files == old(self).index_files,
                                self.existing_packs == epre,
                                self.time == old(self).time,
                                self.repack_candidates == old(self).repack_candidates,
                                self.stats == old(self).stats,
                            decreases nblobs - bk,
                        {
                            proof {
                                assert(files0[ii as int].packs[pj as int].blobs[bk as int]
                                    == self.index_files@[ii as int].packs@[pj as int].blobs@[
                                bk as int]@);
                            }
                            let bid = self.index_files[ii].packs[pj].blobs[bk].id.clone();
                            self.used_ids.remove(&bid);
                            bk += 1;
                        }
                    },
                    PackToDo::Repack => {
                        if !size_ok {
                            return Err(RepoError::Integrity);
                        }
                    },
                    _ => {},
                }
                pj += 1;
            }
            ii += 1;
        }
        let mut unref: u64 = 0;
        let n = self.existing_packs.len();
        let mut i: usize = n;
        while i > 0
            invariant
                self.existing_packs.wf(),
                n == self.existing_packs.spec_len(),
                i <= n,
                unref == spec_sum_sizes(self.existing_packs, i as int),
                self.used_ids.wf(),
                self.index_files == old(self).index_files,
                self.time == old(self).time,
                self.repack_candidates == old(self).repack_candidates,
                self.stats == old(self).stats,
                spec_cross_check(
                    files0,
                    0,
                    0,
                    old(self).used_ids.as_map(),
                    old(self).existing_packs.as_map(),
                ) == Some((self.used_ids.as_map(), self.existing_packs.as_map())),
                self.index_files.deep_view() == files0,
            decreases i,
        {
            i -= 1;
            let e = self.existing_packs.entry_at(i);
            unref = sat_add(e.1 as u64, unref);
        }
        self.stats.size_unref = unref;
        Ok(())
    }
}


/// The compaction threshold: smaller indexes are rewritten.
pub const MIN_INDEX_LEN: usize = 10000;

/// The blob entries of the first `i` packs.
pub open spec fn spec_blob_count_g(packs: Seq<SpecPrunePack>, i: int) -> int
    decreases i,
{
    if i <= 0 {
        0
    } else {
        spec_blob_count_g(packs, i - 1) + packs[i - 1].blobs.len()
    }
}

/// Whether an index must be rewritten: it lost an entry, or holds a pack
/// that does not stay as it is.
pub open spec fn spec_must_modify(f: SpecPruneIndex, instant_delete: bool) -> bool {
    f.modified || exists|j: int|
        0 <= j < f.packs.len() && !((#[trigger] f.packs[j]).to_do is Keep) && (instant_delete
            || !(f.packs[j].to_do is KeepMarked))
}

/// Whether any index must be rewritten.
pub open spec fn spec_any_modify(files: Seq<SpecPruneIndex>, ii: int, instant_delete: bool) -> bool
    decreases files.len() - ii,
{
    if ii < 0 || ii >= files.len() {
        false
    } else {
        spec_must_modify(files[ii], instant_delete) || spec_any_modify(
            files,
            ii + 1,
            instant_delete,
        )
    }
}

/// The indexes left for processing: those that must be rewritten, and
/// those small enough to be compacted.
pub open spec fn spec_filter_files(
    files: Seq<SpecPruneIndex>,
    ii: int,
    instant_delete: bool,
    acc: Seq<SpecPruneIndex>,
) -> Seq<SpecPruneIndex>
    decreases files.len() - ii,
{
    if ii < 0 || ii >= files.len() {
        acc
    } else {
        let f = files[ii];
        if spec_must_modify(f, instant_delete) || spec_blob_count_g(f.packs, f.packs.len() as int)
            < MIN_INDEX_LEN {
            spec_filter_files(files, ii + 1, instant_delete, acc.push(f))
        } else {
            spec_filter_files(files, ii + 1, instant_delete, acc)
        }
    }
}

/// Whether one pack keeps this index from being dropped as unchanged.
fn pack_needs_processing(p: &PrunePack, instant_delete: bool) -> (r: bool)
    ensures
        r == (!(p@.to_do is Keep) && (instant_delete || !(p@.to_do is KeepMarked))),
{
    !matches!(p.to_do, PackToDo::Keep) && (instant_delete || !matches!(
        p.to_do,
        PackToDo::KeepMarked,
    ))
}

/// Whether an index must be rewritten.
fn index_must_modify(f: &PruneIndex, instant_delete: bool) -> (r: bool)
    ensures
        r == spec_must_modify(f@, instant_delete),
{
    if f.modified {
        return true;
    }
    let mut j: usize = 0;
    while j < f.packs.len()
        invariant
            j <= f.packs@.len(),
            forall|x: int|
                0 <= x < j ==> !(!((#[trigger] f@.packs[x]).to_do is Keep) && (instant_delete || !(
                f@.packs[x].to_do is KeepMarked))),
        decreases f.packs@.len() - j,
    {
        proof {
            assert(f@.packs[j as int] == f.packs@[j as int]@);
        }
        if pack_needs_processing(&f.packs[j], instant_delete) {
            return true;
        }
        j += 1;
    }
    false
}

/// Count an index's blob entries, saturating at the machine limit.
fn index_len_sat(f: &PruneIndex) -> (r: usize)
    ensures
        r as int == if spec_blob_count_g(f@.packs, f@.packs.len() as int) <= usize::MAX {
            spec_blob_count_g(f@.packs, f@.packs.len() as int)
        } else {
            usize::MAX as int
        },
{
    let mut acc: usize = 0;
    let mut i: usize = 0;
    while i < f.packs.len()
        invariant
            i <= f.packs@.len(),
            acc as int == if spec_blob_count_g(f@.packs, i as int) <= usize::MAX {
                spec_blob_count_g(f@.packs, i as int)
            } else {
                usize::MAX as int
            },
        decreases f.packs@.len() - i,
    {
        proof {
            assert(f@.packs[i as int] == f.packs@[i as int]@);
            assert(f@.packs[i as int].blobs.len() == f.packs@[i as int].blobs@.len());
            lemma_index_blob_count_g_nonneg(f@.packs, i as int);
        }
        let extra = f.packs[i].blobs.len();
        if acc <= usize::MAX - extra {
            acc = acc + extra;
        } else {
            acc = usize::MAX;
        }
        i += 1;
    }
    acc
}

/// The blob count of a prefix is never negative.
proof fn lemma_index_blob_count_g_nonneg(packs: Seq<SpecPrunePack>, i: int)
    ensures
        spec_blob_count_g(packs, i) >= 0,
    decreases i,
{
    if i > 0 {
        lemma_index_blob_count_g_nonneg(packs, i - 1);
    }
}

impl Pruner {
    /// Keep only the index files that need a rewrite: modified ones, ones
    /// holding packs that do not stay, and small ones worth compacting;
    /// when only a single small unmodified index remains, leave it alone.
    pub fn filter_index_files(&mut self, instant_delete: bool)
        ensures
            final(self).index_files.deep_view() == {
                let orig = old(self).index_files.deep_view();
                let flt = spec_filter_files(orig, 0, instant_delete, Seq::empty());
                if !spec_any_modify(orig, 0, instant_delete) && flt.len() == 1 {
                    Seq::<SpecPruneIndex>::empty()
                } else {
                    flt
                }
            },
            final(self).stats == (PruneStats {
                index_files: old(self).index_files@.len() as u64,
                ..old(self).stats
            }),
            final(self).time == old(self).time,
            final(self).used_ids == old(self).used_ids,
            final(self).existing_packs == old(self).existing_packs,
            final(self).repack_candidates == old(self).repack_candidates,
    {
        let ghost orig = self.index_files.deep_view();
        self.stats.index_files = self.index_files.len() as u64;
        let mut kept: Vec<PruneIndex> = Vec::new();
        let mut any = false;
        let ghost k: int = 0;
        proof {
            assert(kept.deep_view() =~= Seq::<SpecPruneIndex>::empty());
        }
        while self.index_files.len() > 0
            invariant
                0 <= k <= orig.len(),
                self.index_files.deep_view() =~= orig.skip(k),
                spec_filter_files(orig, 0, instant_delete, Seq::empty()) == spec_filter_files(
                    orig,
                    k,
                    instant_delete,
                    kept.deep_view(),
                ),
                spec_any_modify(orig, 0, instant_delete) == (any || spec_any_modify(
                    orig,
                    k,
                    instant_delete,
                )),
                self.time == old(self).time,
                self.used_ids == old(self).used_ids,
                self.existing_packs == old(self).existing_packs,
                self.repack_candidates == old(self).repack_candidates,
                self.stats == (PruneStats {
                    index_files: old(self).index_files@.len() as u64,
                    ..old(self).stats
                }),
            decreases self.index_files@.len(),
        {
            let ghost pre = self.index_files.deep_view();
            let ghost prevec = self.index_files@;
            let f = self.index_files.remove(0);
            proof {
                assert(self.index_files.deep_view() =~= pre.skip(1));
                assert(pre.skip(1) =~= orig.skip(k + 1));
                assert(f == prevec[0]);
                assert(pre[0] == prevec[0].deep_view());
                assert(pre[0] == orig.skip(k)[0]);
                assert(orig.skip(k)[0] == orig[k]);
                assert(f@ == orig[k]);
            }
            let mm = index_must_modify(&f, instant_delete);
            let small = index_len_sat(&f) < MIN_INDEX_LEN;
            if mm {
                any = true;
            }
            let ghost kept_pre = kept.deep_view();
            if mm || small {
                kept.push(f);
                proof {
                    assert(kept.deep_view() =~= kept_pre.push(orig[k]));
                }
            }
            proof {
                k = k + 1;
            }
        }
        proof {
            assert(orig.skip(k) =~= Seq::<SpecPruneIndex>::empty());
            assert(k == orig.len());
        }
        if !any && kept.len() == 1 {
            kept.clear();
            proof {
                assert(kept.deep_view() =~= Seq::<SpecPruneIndex>::empty());
            }
        }
        self.index_files = kept;
    }

    /// The ids of every pack decided for repacking.
    pub fn repack_packs(&self) -> (r: Vec<Id>)
        ensures
            r.deep_view() == spec_repack_ids(self.index_files.deep_view(), 0, 0, Seq::empty()),
    {
        let ghost files = self.index_files.deep_view();
        let mut out: Vec<Id> = Vec::new();
        proof {
            assert(out.deep_view() =~= Seq::<Seq<u8>>::empty());
        }
        let mut ii: usize = 0;
        while ii < self.index_files.len()
            invariant
                self.index_files.deep_view() == files,
                self.index_files@.len() == files.len(),
                ii <= files.len(),
                spec_repack_ids(files, 0, 0, Seq::empty()) == spec_repack_ids(
                    files,
                    ii as int,
                    0,
                    out.deep_view(),
                ),
            decreases files.len() - ii,
        {
            let npacks = self.index_files[ii].packs.len();
            proof {
                assert(files[ii as int] == self.index_files@[ii as int]@);
            }
            let mut pj: usize = 0;
            while pj < npacks
                invariant
                    self.index_files.deep_view() == files,
                    self.index_files@.len() == files.len(),
                    ii < files.len(),
                    npacks == files[ii as int].packs.len(),
                    pj <= npacks,
                    spec_repack_ids(files, 0, 0, Seq::empty()) == spec_repack_ids(
                        files,
                        ii as int,
                        pj as int,
                        out.deep_view(),
                    ),
                decreases npacks - pj,
            {
                proof {
                    assert(files[ii as int].packs[pj as int]
                        == self.index_files@[ii as int].packs@[pj as int]@);
                }
                let ghost outpre = out.deep_view();
                if matches!(self.index_files[ii].packs[pj].to_do, PackToDo::Repack) {
                    out.push(self.index_files[ii].packs[pj].id.clone());
                    proof {
                        assert(out.deep_view() =~= outpre.push(
                            files[ii as int].packs[pj as int].id,
                        ));
                    }
                }
                pj += 1;
            }
            ii += 1;
        }
        out
    }
}

/// The ids of repack-decided packs, walked in file order.
pub open spec fn spec_repack_ids(
    files: Seq<SpecPruneIndex>,
    ii: int,
    pj: int,
    acc: Seq<Seq<u8>>,
) -> Seq<Seq<u8>>
    decreases files.len() - ii, (if 0 <= ii < files.len() {
        files[ii].packs.len() + 1
    } else {
        0
    }) - pj,
{
    if ii < 0 || pj < 0 || ii >= files.len() {
        acc
    } else if pj >= files[ii].packs.len() {
        spec_repack_ids(files, ii + 1, 0, acc)
    } else if files[ii].packs[pj].to_do is Repack {
        spec_repack_ids(files, ii, pj + 1, acc.push(files[ii].packs[pj].id))
    } else {
        spec_repack_ids(files, ii, pj + 1, acc)
    }
}


/// A second sweep over an already-clean repository is a fixed point:
/// when every pack stays as it is, no index was touched, and every index
/// is above the compaction threshold, the filter selects nothing, so
/// nothing is rewritten, no pack is repacked, and nothing is removed.
pub proof fn lemma_clean_prune_is_fixed_point(files: Seq<SpecPruneIndex>, instant_delete: bool)
    requires
        forall|i: int, j: int|
            0 <= i < files.len() && 0 <= j < files[i].packs.len() ==> (#[trigger] files[i].packs[
            j]).to_do is Keep,
        forall|i: int| 0 <= i < files.len() ==> !(#[trigger] files[i]).modified,
        forall|i: int|
            0 <= i < files.len() ==> spec_blob_count_g(
                (#[trigger] files[i]).packs,
                files[i].packs.len() as int,
            ) >= MIN_INDEX_LEN,
    ensures
        !spec_any_modify(files, 0, instant_delete),
        spec_filter_files(files, 0, instant_delete, Seq::empty()) == Seq::<SpecPruneIndex>::empty(),
        spec_repack_ids(files, 0, 0, Seq::empty()) == Seq::<Seq<u8>>::empty(),
{
    lemma_clean_not_modified(files, 0, instant_delete);
    lemma_clean_filter(files, 0, instant_delete, Seq::empty());
    lemma_clean_repack_ids(files, 0, 0, Seq::empty());
}

/// No index of a clean repository needs a rewrite.
proof fn lemma_clean_not_modified(files: Seq<SpecPruneIndex>, ii: int, instant_delete: bool)
    requires
        0 <= ii,
        forall|i: int, j: int|
            0 <= i < files.len() && 0 <= j < files[i].packs.len() ==> (#[trigger] files[i].packs[
            j]).to_do is Keep,
        forall|i: int| 0 <= i < files.len() ==> !(#[trigger] files[i]).modified,
    ensures
        !spec_any_modify(files, ii, instant_delete),
    decreases files.len() - ii,
{
    if ii < files.len() {
        assert(!spec_must_modify(files[ii], instant_delete));
        lemma_clean_not_modified(files, ii + 1, instant_delete);
    }
}

/// The filter of a clean repository selects nothing.
proof fn lemma_clean_filter(
    files: Seq<SpecPruneIndex>,
    ii: int,
    instant_delete: bool,
    acc: Seq<SpecPruneIndex>,
)
    requires
        0 <= ii,
        forall|i: int, j: int|
            0 <= i < files.len() && 0 <= j < files[i].packs.len() ==> (#[trigger] files[i].packs[
            j]).to_do is Keep,
        forall|i: int| 0 <= i < files.len() ==> !(#[trigger] files[i]).modified,
        forall|i: int|
            0 <= i < files.len() ==> spec_blob_count_g(
                (#[trigger] files[i]).packs,
                files[i].packs.len() as int,
            ) >= MIN_INDEX_LEN,
    ensures
        spec_filter_files(files, ii, instant_delete, acc) == acc,
    decreases files.len() - ii,
{
    if ii < files.len() {
        assert(!spec_must_modify(files[ii], instant_delete));
        lemma_clean_filter(files, ii + 1, instant_delete, acc);
    }
}

/// A clean repository repacks nothing.
proof fn lemma_clean_repack_ids(
    files: Seq<SpecPruneIndex>,
    ii: int,
    pj: int,
    acc: Seq<Seq<u8>>,
)
    requires
        0 <= ii,
        0 <= pj,
        forall|i: int, j: int|
            0 <= i < files.len() && 0 <= j < files[i].packs.len() ==> (#[trigger] files[i].packs[
            j]).to_do is Keep,
    ensures
        spec_repack_ids(files, ii, pj, acc) == acc,
    decreases files.len() - ii, (if 0 <= ii < files.len() {
        files[ii].packs.len() + 1
    } else {
        0
    }) - pj,
{
    if ii < files.len() {
        if pj >= files[ii].packs.len() {
            lemma_clean_repack_ids(files, ii + 1, 0, acc);
        } else {
            assert(files[ii].packs[pj].to_do is Keep);
            lemma_clean_repack_ids(files, ii, pj + 1, acc);
        }
    }
}


/// The source-and-blob pairs of the repack instructions.
pub open spec fn repack_view(s: Seq<(Id, IndexBlob)>) -> Seq<(Seq<u8>, SpecBlob)> {
    s.map_values(|e: (Id, IndexBlob)| (e.0@, e.1@))
}

/// What executing a prune run will do, as plain values.  The executor
/// publishes the repacked blobs and both index lists first, then removes
/// the superseded indexes, then the data packs, then the tree packs, so
/// that no live index ever references a removed pack.
pub struct PrunePlan {
    /// Packs the new index catalogues as live.
    pub index_live: Vec<IndexPack>,
    /// Packs the new index catalogues as tombstoned.
    pub index_tombstones: Vec<IndexPack>,
    /// The still-needed blobs to copy into new packs, each with the pack
    /// it comes from; every needed blob appears at most once.
    pub repack: Vec<(Id, IndexBlob)>,
    /// Whether repacked blobs are copied as ciphertext rather than
    /// re-encoded.
    pub fast_repack: bool,
    /// Data packs to remove, after the indexes.
    pub delete_data: Vec<Id>,
    /// Tree packs to remove, after the indexes and data packs.
    pub delete_tree: Vec<Id>,
    /// Unindexed packs to remove at once.
    pub delete_unindexed: Vec<Id>,
    /// The superseded index files, removed before any pack.
    pub remove_indexes: Vec<Id>,
}

/// The mathematical content of a plan under construction.
#[verifier::ext_equal]
pub ghost struct GPlan {
    pub live: Seq<SpecIndexPack>,
    pub tomb: Seq<SpecIndexPack>,
    pub repack: Seq<(Seq<u8>, SpecBlob)>,
    pub del_data: Seq<Seq<u8>>,
    pub del_tree: Seq<Seq<u8>>,
    pub del_unref: Seq<Seq<u8>>,
    pub used: Map<Seq<u8>, u8>,
}

impl PrunePlan {
    /// The plan's mathematical content, over a needed-blob map.
    pub open spec fn gplan(&self, used: Map<Seq<u8>, u8>) -> GPlan {
        GPlan {
            live: self.index_live.deep_view(),
            tomb: self.index_tombstones.deep_view(),
            repack: repack_view(self.repack@),
            del_data: self.delete_data.deep_view(),
            del_tree: self.delete_tree.deep_view(),
            del_unref: self.delete_unindexed.deep_view(),
            used,
        }
    }
}

/// Mark the unindexed packs: removed at once, or tombstoned with their
/// listed size and the run's time.
pub open spec fn spec_plan_unref(
    ex: IdMap<u32>,
    i: int,
    st: GPlan,
    now: Time,
    instant_delete: bool,
) -> GPlan
    decreases ex.spec_len() - i,
{
    if i < 0 || i >= ex.spec_len() {
        st
    } else if instant_delete {
        spec_plan_unref(
            ex,
            i + 1,
            GPlan { del_unref: st.del_unref.push(ex.key_at(i)), ..st },
            now,
            instant_delete,
        )
    } else {
        spec_plan_unref(
            ex,
            i + 1,
            GPlan {
                tomb: st.tomb.push(
                    SpecIndexPack {
                        id: ex.key_at(i),
                        time: Some(now),
                        size: Some(ex.val_at(i)),
                        blobs: Seq::empty(),
                    },
                ),
                ..st
            },
            now,
            instant_delete,
        )
    }
}

/// Queue a repacked pack's still-needed blobs, each claimed out of the
/// needed set so no duplicate is copied twice.
pub open spec fn spec_plan_repack_blobs(
    blobs: Seq<SpecBlob>,
    j: int,
    pid: Seq<u8>,
    st: GPlan,
) -> GPlan
    decreases blobs.len() - j,
{
    if j < 0 || j >= blobs.len() {
        st
    } else if st.used.contains_key(blobs[j].id) {
        spec_plan_repack_blobs(
            blobs,
            j + 1,
            pid,
            GPlan {
                used: st.used.remove(blobs[j].id),
                repack: st.repack.push((pid, blobs[j])),
                ..st
            },
        )
    } else {
        spec_plan_repack_blobs(blobs, j + 1, pid, st)
    }
}

/// A deleted pack goes on the removal list of its kind.
pub open spec fn spec_plan_delete(st: GPlan, p: SpecPrunePack) -> GPlan {
    match p.blob_type {
        BlobType::Data => GPlan { del_data: st.del_data.push(p.id), ..st },
        BlobType::Tree => GPlan { del_tree: st.del_tree.push(p.id), ..st },
    }
}

/// A pack as the new index catalogues it, under a time.
pub open spec fn spec_pack_entry(p: SpecPrunePack, time: Option<Time>) -> SpecIndexPack {
    SpecIndexPack { id: p.id, time, size: None, blobs: p.blobs }
}

/// One pack's share of the plan, by its decision: kept packs stay live;
/// repacked packs surrender their needed blobs and are tombstoned with
/// the run's time (or removed at once); tombstones are re-tombstoned
/// with their stored time or removed; recovered packs return to the live
/// list stamped with the run's time; deleted packs are removed.
pub open spec fn spec_plan_pack(
    st: GPlan,
    p: SpecPrunePack,
    now: Time,
    instant_delete: bool,
) -> GPlan {
    match p.to_do {
        PackToDo::Undecided => st,
        PackToDo::Keep => GPlan { live: st.live.push(spec_pack_entry(p, p.time)), ..st },
        PackToDo::Repack => {
            let st2 = spec_plan_repack_blobs(p.blobs, 0, p.id, st);
            if instant_delete {
                spec_plan_delete(st2, p)
            } else {
                GPlan { tomb: st2.tomb.push(spec_pack_entry(p, Some(now))), ..st2 }
            }
        },
        PackToDo::MarkDelete => {
            if instant_delete {
                spec_plan_delete(st, p)
            } else {
                GPlan { tomb: st.tomb.push(spec_pack_entry(p, Some(now))), ..st }
            }
        },
        PackToDo::KeepMarked => {
            if instant_delete {
                spec_plan_delete(st, p)
            } else {
                GPlan { tomb: st.tomb.push(spec_pack_entry(p, p.time)), ..st }
            }
        },
        PackToDo::Recover => GPlan { live: st.live.push(spec_pack_entry(p, Some(now))), ..st },
        PackToDo::Delete => spec_plan_delete(st, p),
    }
}

/// The plan over every decided pack; an undecided pack is a fault.
pub open spec fn spec_plan_files(
    files: Seq<SpecPruneIndex>,
    ii: int,
    pj: int,
    st: GPlan,
    now: Time,
    instant_delete: bool,
) -> Option<GPlan>
    decreases files.len() - ii, (if 0 <= ii < files.len() {
        files[ii].packs.len() + 1
    } else {
        0
    }) - pj,
{
    if ii < 0 || pj < 0 || ii >= files.len() {
        Some(st)
    } else if pj >= files[ii].packs.len() {
        spec_plan_files(files, ii + 1, 0, st, now, instant_delete)
    } else if files[ii].packs[pj].to_do is Undecided {
        None
    } else {
        spec_plan_files(
            files,
            ii,
            pj + 1,
            spec_plan_pack(st, files[ii].packs[pj], now, instant_delete),
            now,
            instant_delete,
        )
    }
}

/// The ids of the superseded index files.
pub open spec fn spec_remove_ids(files: Seq<SpecPruneIndex>) -> Seq<Seq<u8>> {
    files.map_values(|f: SpecPruneIndex| f.id)
}

/// An empty plan over a needed-blob map.
pub open spec fn spec_empty_gplan(used: Map<Seq<u8>, u8>) -> GPlan {
    GPlan {
        live: Seq::empty(),
        tomb: Seq::empty(),
        repack: Seq::empty(),
        del_data: Seq::empty(),
        del_tree: Seq::empty(),
        del_unref: Seq::empty(),
        used,
    }
}

impl Pruner {
    /// Turn the decided packs into the execution plan: what the new
    /// index catalogues, which blobs are copied into new packs, and what
    /// is removed, in the safe order the plan's fields document.  An
    /// undecided pack is an integrity fault.
    pub fn plan_prune(self, instant_delete: bool, fast_repack: bool) -> (r: Result<
        PrunePlan,
        RepoError,
    >)
        requires
            self.used_ids.wf(),
            self.existing_packs.wf(),
        ensures
            ({
                let st0 = spec_plan_unref(
                    self.existing_packs,
                    0,
                    spec_empty_gplan(self.used_ids.as_map()),
                    self.time,
                    instant_delete,
                );
                let g = spec_plan_files(
                    self.index_files.deep_view(),
                    0,
                    0,
                    st0,
                    self.time,
                    instant_delete,
                );
                &&& (r is Ok <==> g is Some)
                &&& (r matches Ok(plan) ==> plan.gplan(g->0.used) == g->0
                    && plan.remove_indexes.deep_view() == spec_remove_ids(
                    self.index_files.deep_view(),
                ) && plan.fast_repack == fast_repack)
                &&& (r is Err ==> r == Err::<PrunePlan, RepoError>(RepoError::Integrity))
            }),
    {
        let ghost files0 = self.index_files.deep_view();
        let now = self.time;
        let mut used_ids = self.used_ids;
        let existing_packs = self.existing_packs;
        let index_files = self.index_files;
        let mut plan = PrunePlan {
            index_live: Vec::new(),
            index_tombstones: Vec::new(),
            repack: Vec::new(),
            fast_repack,
            delete_data: Vec::new(),
            delete_tree: Vec::new(),
            delete_unindexed: Vec::new(),
            remove_indexes: Vec::new(),
        };
        let ghost g0 = spec_empty_gplan(used_ids.as_map());
        proof {
            assert(plan.gplan(used_ids.as_map()) =~~= g0);
        }
        let mut i: usize = 0;
        let n_ex = existing_packs.len();
        while i < n_ex
            invariant
                used_ids.wf(),
                n_ex == existing_packs.spec_len(),
                i <= n_ex,
                plan.fast_repack == fast_repack,
                plan.remove_indexes@.len() == 0,
                spec_plan_unref(existing_packs, 0, g0, now, instant_delete) == spec_plan_unref(
                    existing_packs,
                    i as int,
                    plan.gplan(used_ids.as_map()),
                    now,
                    instant_delete,
                ),
            decreases n_ex - i,
        {
            let ghost gpre = plan.gplan(used_ids.as_map());
            let e = existing_packs.entry_at(i);
            if instant_delete {
                let id = e.0.clone();
                plan.delete_unindexed.push(id);
                proof {
                    assert(plan.gplan(used_ids.as_map()) =~~= (GPlan {
                        del_unref: gpre.del_unref.push(existing_packs.key_at(i as int)),
                        ..gpre
                    }));
                }
            } else {
                let id = e.0.clone();
                let size = e.1;
                let entry = IndexPack { id, time: Some(now), size: Some(size), blobs: Vec::new() };
                proof {
                    assert(entry@ =~~= (SpecIndexPack {
                        id: existing_packs.key_at(i as int),
                        time: Some(now),
                        size: Some(existing_packs.val_at(i as int)),
                        blobs: Seq::empty(),
                    }));
                }
                push_tombstone(&mut plan, entry);
                proof {
                    assert(plan.gplan(used_ids.as_map()) =~~= (GPlan {
                        tomb: gpre.tomb.push(
                            SpecIndexPack {
                                id: existing_packs.key_at(i as int),
                                time: Some(now),
                                size: Some(existing_packs.val_at(i as int)),
                                blobs: Seq::empty(),
                            },
                        ),
                        ..gpre
                    }));
                }
            }
            i += 1;
        }
        let ghost st0 = spec_plan_unref(existing_packs, 0, g0, now, instant_delete);
        proof {
            assert(spec_plan_unref(
                existing_packs,
                n_ex as int,
                plan.gplan(used_ids.as_map()),
                now,
                instant_delete,
            ) == plan.gplan(used_ids.as_map()));
            assert(plan.remove_indexes.deep_view() =~= spec_remove_ids(files0.take(0)));
        }
        let mut ii: usize = 0;
        while ii < index_files.len()
            invariant
                used_ids.wf(),
                index_files.deep_view() == files0,
                index_files@.len() == files0.len(),
                ii <= files0.len(),
                plan.fast_repack == fast_repack,
                files0 == self.index_files.deep_view(),
                now == self.time,
                st0 == spec_plan_unref(
                    self.existing_packs,
                    0,
                    spec_empty_gplan(self.used_ids.as_map()),
                    self.time,
                    instant_delete,
                ),
                plan.remove_indexes.deep_view() =~= spec_remove_ids(files0.take(ii as int)),
                spec_plan_files(files0, 0, 0, st0, now, instant_delete) == spec_plan_files(
                    files0,
                    ii as int,
                    0,
                    plan.gplan(used_ids.as_map()),
                    now,
                    instant_delete,
                ),
            decreases files0.len() - ii,
        {
            let ghost rpre = plan.remove_indexes.deep_view();
            let idc = index_files[ii].id.clone();
            plan.remove_indexes.push(idc);
            proof {
                assert(files0[ii as int] == index_files@[ii as int]@);
                assert(plan.remove_indexes.deep_view() =~= rpre.push(files0[ii as int].id));
                assert(spec_remove_ids(files0.take(ii as int + 1)) =~= spec_remove_ids(
                    files0.take(ii as int),
                ).push(files0[ii as int].id)) by {
                    assert(files0.take(ii as int + 1) =~= files0.take(ii as int).push(
                        files0[ii as int],
                    ));
                }
            }
            let npacks = index_files[ii].packs.len();
            let mut pj: usize = 0;
            while pj < npacks
                invariant
                    used_ids.wf(),
                    index_files.deep_view() == files0,
                    index_files@.len() == files0.len(),
                    ii < files0.len(),
                    npacks == files0[ii as int].packs.len(),
                    pj <= npacks,
                    plan.fast_repack == fast_repack,
                    files0 == self.index_files.deep_view(),
                    now == self.time,
                    st0 == spec_plan_unref(
                        self.existing_packs,
                        0,
                        spec_empty_gplan(self.used_ids.as_map()),
                        self.time,
                        instant_delete,
                    ),
                    plan.remove_indexes.deep_view() =~= spec_remove_ids(
                        files0.take(ii as int + 1),
                    ),
                    spec_plan_files(files0, 0, 0, st0, now, instant_delete) == spec_plan_files(
                        files0,
                        ii as int,
                        pj as int,
                        plan.gplan(used_ids.as_map()),
                        now,
                        instant_delete,
                    ),
                decreases npacks - pj,
            {
                proof {
                    assert(files0[ii as int].packs[pj as int]
                        == index_files@[ii as int].packs@[pj as int]@);
                }
                let ghost p = files0[ii as int].packs[pj as int];
                let ghost gpre = plan.gplan(used_ids.as_map());
                let pack = prune_pack_clone(&index_files[ii].packs[pj]);
                match pack.to_do {
                    PackToDo::Undecided => {
                        proof {
                            assert(files0[ii as int].packs[pj as int].to_do is Undecided);
                            assert(spec_plan_files(
                                files0,
                                ii as int,
                                pj as int,
                                plan.gplan(used_ids.as_map()),
                                now,
                                instant_delete,
                            ) is None);
                        }
                        return Err(RepoError::Integrity);
                    },
                    PackToDo::Keep => {
                        let entry = pack.into_index_pack();
                        proof {
                            assert(entry@ =~~= spec_pack_entry(p, p.time));
                        }
                        push_live(&mut plan, entry);
                        proof {
                            assert(plan.gplan(used_ids.as_map()) =~~= spec_plan_pack(
                                gpre,
                                p,
                                now,
                                instant_delete,
                            ));
                        }
                    },
                    PackToDo::Repack => {
                        let ghost blobsv = p.blobs;
                        let mut bk: usize = 0;
                        let nblobs = pack.blobs.len();
                        while bk < nblobs
                            invariant
                                used_ids.wf(),
                                blobsv == blobs_view(pack.blobs@),
                                nblobs == pack.blobs@.len(),
                                bk <= nblobs,
                                pack@ == p,
                                spec_plan_repack_blobs(blobsv, 0, p.id, gpre)
                                    == spec_plan_repack_blobs(
                                    blobsv,
                                    bk as int,
                                    p.id,
                                    plan.gplan(used_ids.as_map()),
                                ),
                                plan.fast_repack == fast_repack,
                                plan.remove_indexes.deep_view() =~= spec_remove_ids(
                                    files0.take(ii as int + 1),
                                ),
                            decreases nblobs - bk,
                        {
                            proof {
                                assert(blobsv[bk as int] == pack.blobs@[bk as int]@);
                            }
                            let ghost g2 = plan.gplan(used_ids.as_map());
                            let bid = pack.blobs[bk].id.clone();
                            proof {
                                assert(bid@ == blobsv[bk as int].id);
                            }
                            match used_ids.remove(&bid) {
                                Some(_) => {
                                    let b = pack.blobs[bk].clone();
                                    plan.repack.push((pack.id.clone(), b));
                                    proof {
                                        assert(used_ids.as_map() == g2.used.remove(
                                            blobsv[bk as int].id,
                                        ));
                                        assert(repack_view(plan.repack@) =~~= g2.repack.push(
                                            (p.id, blobsv[bk as int]),
                                        ));
                                        assert(plan.gplan(used_ids.as_map()) =~~= (GPlan {
                                            used: g2.used.remove(blobsv[bk as int].id),
                                            repack: g2.repack.push((p.id, blobsv[bk as int])),
                                            ..g2
                                        }));
                                    }
                                },
                                None => {
                                    proof {
                                        assert(used_ids.as_map() =~= g2.used);
                                        assert(plan.gplan(used_ids.as_map()) =~~= g2);
                                    }
                                },
                            }
                            bk += 1;
                        }
                        proof {
                            assert(blobsv.len() == nblobs);
                        }
                        if instant_delete {
                            push_delete(&mut plan, pack);
                        } else {
                            let entry = pack.into_index_pack_with_time(now);
                            proof {
                                assert(entry@ =~~= spec_pack_entry(p, Some(now)));
                            }
                            push_tombstone(&mut plan, entry);
                        }
                        proof {
                            assert(plan.gplan(used_ids.as_map()) =~~= spec_plan_pack(
                                gpre,
                                p,
                                now,
                                instant_delete,
                            ));
                        }
                    },
                    PackToDo::MarkDelete => {
                        if instant_delete {
                            push_delete(&mut plan, pack);
                        } else {
                            let entry = pack.into_index_pack_with_time(now);
                            proof {
                                assert(entry@ =~~= spec_pack_entry(p, Some(now)));
                            }
                            push_tombstone(&mut plan, entry);
                        }
                        proof {
                            assert(plan.gplan(used_ids.as_map()) =~~= spec_plan_pack(
                                gpre,
                                p,
                                now,
                                instant_delete,
                            ));
                        }
                    },
                    PackToDo::KeepMarked => {
                        if instant_delete {
                            push_delete(&mut plan, pack);
                        } else {
                            let entry = pack.into_index_pack();
                            proof {
                                assert(entry@ =~~= spec_pack_entry(p, p.time));
                            }
                            push_tombstone(&mut plan, entry);
                        }
                        proof {
                            assert(plan.gplan(used_ids.as_map()) =~~= spec_plan_pack(
                                gpre,
                                p,
                                now,
                                instant_delete,
                            ));
                        }
                    },
                    PackToDo::Recover => {
                        let entry = pack.into_index_pack_with_time(now);
                        proof {
                            assert(entry@ =~~= spec_pack_entry(p, Some(now)));
                        }
                        push_live(&mut plan, entry);
                        proof {
                            assert(plan.gplan(used_ids.as_map()) =~~= spec_plan_pack(
                                gpre,
                                p,
                                now,
                                instant_delete,
                            ));
                        }
                    },
                    PackToDo::Delete => {
                        push_delete(&mut plan, pack);
                        proof {
                            assert(plan.gplan(used_ids.as_map()) =~~= spec_plan_pack(
                                gpre,
                                p,
                                now,
                                instant_delete,
                            ));
                        }
                    },
                }
                pj += 1;
            }
            ii += 1;
        }
        proof {
            assert(files0.take(files0.len() as int) =~= files0);
        }
        Ok(plan)
    }
}

/// Catalogue a pack as live in the new index.
fn push_live(plan: &mut PrunePlan, entry: IndexPack)
    ensures
        final(plan).index_live.deep_view() == old(plan).index_live.deep_view().push(entry@),
        final(plan).index_tombstones == old(plan).index_tombstones,
        final(plan).repack == old(plan).repack,
        final(plan).fast_repack == old(plan).fast_repack,
        final(plan).delete_data == old(plan).delete_data,
        final(plan).delete_tree == old(plan).delete_tree,
        final(plan).delete_unindexed == old(plan).delete_unindexed,
        final(plan).remove_indexes == old(plan).remove_indexes,
{
    let ghost pre = plan.index_live.deep_view();
    plan.index_live.push(entry);
    proof {
        assert(plan.index_live.deep_view() =~~= pre.push(plan.index_live@.last()@));
    }
}

/// Catalogue a pack as tombstoned in the new index.
fn push_tombstone(plan: &mut PrunePlan, entry: IndexPack)
    ensures
        final(plan).index_tombstones.deep_view() == old(plan).index_tombstones.deep_view().push(
            entry@,
        ),
        final(plan).index_live == old(plan).index_live,
        final(plan).repack == old(plan).repack,
        final(plan).fast_repack == old(plan).fast_repack,
        final(plan).delete_data == old(plan).delete_data,
        final(plan).delete_tree == old(plan).delete_tree,
        final(plan).delete_unindexed == old(plan).delete_unindexed,
        final(plan).remove_indexes == old(plan).remove_indexes,
{
    let ghost pre = plan.index_tombstones.deep_view();
    plan.index_tombstones.push(entry);
    proof {
        assert(plan.index_tombstones.deep_view() =~~= pre.push(plan.index_tombstones@.last()@));
    }
}

/// Put a removed pack on the deletion list of its kind.
fn push_delete(plan: &mut PrunePlan, pack: PrunePack)
    ensures
        ({
            let used = Map::<Seq<u8>, u8>::empty();
            &&& final(plan).index_live == old(plan).index_live
            &&& final(plan).index_tombstones == old(plan).index_tombstones
            &&& final(plan).repack == old(plan).repack
            &&& final(plan).fast_repack == old(plan).fast_repack
            &&& final(plan).delete_unindexed == old(plan).delete_unindexed
            &&& final(plan).remove_indexes == old(plan).remove_indexes
            &&& match pack@.blob_type {
                BlobType::Data => final(plan).delete_data.deep_view() == old(
                    plan,
                ).delete_data.deep_view().push(pack@.id) && final(plan).delete_tree == old(
                    plan,
                ).delete_tree,
                BlobType::Tree => final(plan).delete_tree.deep_view() == old(
                    plan,
                ).delete_tree.deep_view().push(pack@.id) && final(plan).delete_data == old(
                    plan,
                ).delete_data,
            }
        }),
{
    match pack.blob_type {
        BlobType::Data => {
            let ghost pre = plan.delete_data.deep_view();
            plan.delete_data.push(pack.id);
            proof {
                assert(plan.delete_data.deep_view() =~= pre.push(pack@.id));
            }
        },
        BlobType::Tree => {
            let ghost pre = plan.delete_tree.deep_view();
            plan.delete_tree.push(pack.id);
            proof {
                assert(plan.delete_tree.deep_view() =~= pre.push(pack@.id));
            }
        },
    }
}


/// The repack instructions name pairwise distinct blobs, and none of
/// them is still in the needed set.
pub open spec fn spec_repacks_once(st: GPlan) -> bool {
    &&& forall|a: int, b: int|
        0 <= a < b < st.repack.len() ==> (#[trigger] st.repack[a]).1.id != (
        #[trigger] st.repack[b]).1.id
    &&& forall|a: int|
        0 <= a < st.repack.len() ==> !st.used.contains_key((#[trigger] st.repack[a]).1.id)
}

/// Claiming blobs out of the needed set keeps the instructions distinct.
proof fn lemma_repack_blobs_once(blobs: Seq<SpecBlob>, j: int, pid: Seq<u8>, st: GPlan)
    requires
        spec_repacks_once(st),
    ensures
        spec_repacks_once(spec_plan_repack_blobs(blobs, j, pid, st)),
    decreases blobs.len() - j,
{
    if 0 <= j < blobs.len() {
        if st.used.contains_key(blobs[j].id) {
            let st2 = GPlan {
                used: st.used.remove(blobs[j].id),
                repack: st.repack.push((pid, blobs[j])),
                ..st
            };
            assert forall|a: int, b: int| 0 <= a < b < st2.repack.len() implies (
            #[trigger] st2.repack[a]).1.id != (#[trigger] st2.repack[b]).1.id by {
                if b == st2.repack.len() - 1 {
                    assert(st2.repack[a] == st.repack[a]);
                    assert(!st.used.contains_key(st.repack[a].1.id));
                }
            }
            assert forall|a: int| 0 <= a < st2.repack.len() implies !st2.used.contains_key(
                (#[trigger] st2.repack[a]).1.id,
            ) by {
                if a < st2.repack.len() - 1 {
                    assert(st2.repack[a] == st.repack[a]);
                }
            }
            lemma_repack_blobs_once(blobs, j + 1, pid, st2);
        } else {
            lemma_repack_blobs_once(blobs, j + 1, pid, st);
        }
    }
}

/// One pack's share of the plan keeps the instructions distinct.
proof fn lemma_plan_pack_once(st: GPlan, p: SpecPrunePack, now: Time, instant_delete: bool)
    requires
        spec_repacks_once(st),
    ensures
        spec_repacks_once(spec_plan_pack(st, p, now, instant_delete)),
{
    match p.to_do {
        PackToDo::Repack => {
            lemma_repack_blobs_once(p.blobs, 0, p.id, st);
        },
        _ => {},
    }
}

/// The whole walk keeps the instructions distinct.
proof fn lemma_plan_files_once(
    files: Seq<SpecPruneIndex>,
    ii: int,
    pj: int,
    st: GPlan,
    now: Time,
    instant_delete: bool,
)
    requires
        spec_repacks_once(st),
    ensures
        spec_plan_files(files, ii, pj, st, now, instant_delete) matches Some(g)
            ==> spec_repacks_once(g),
    decreases files.len() - ii, (if 0 <= ii < files.len() {
        files[ii].packs.len() + 1
    } else {
        0
    }) - pj,
{
    if ii < 0 || pj < 0 || ii >= files.len() {
    } else if pj >= files[ii].packs.len() {
        lemma_plan_files_once(files, ii + 1, 0, st, now, instant_delete);
    } else if files[ii].packs[pj].to_do is Undecided {
    } else {
        lemma_plan_pack_once(st, files[ii].packs[pj], now, instant_delete);
        lemma_plan_files_once(
            files,
            ii,
            pj + 1,
            spec_plan_pack(st, files[ii].packs[pj], now, instant_delete),
            now,
            instant_delete,
        );
    }
}

/// Marking unindexed packs adds no repack instructions.
proof fn lemma_plan_unref_once(
    ex: IdMap<u32>,
    i: int,
    st: GPlan,
    now: Time,
    instant_delete: bool,
)
    requires
        spec_repacks_once(st),
    ensures
        spec_repacks_once(spec_plan_unref(ex, i, st, now, instant_delete)),
    decreases ex.spec_len() - i,
{
    if 0 <= i < ex.spec_len() {
        if instant_delete {
            lemma_plan_unref_once(
                ex,
                i + 1,
                GPlan { del_unref: st.del_unref.push(ex.key_at(i)), ..st },
                now,
                instant_delete,
            );
        } else {
            lemma_plan_unref_once(
                ex,
                i + 1,
                GPlan {
                    tomb: st.tomb.push(
                        SpecIndexPack {
                            id: ex.key_at(i),
                            time: Some(now),
                            size: Some(ex.val_at(i)),
                            blobs: Seq::empty(),
                        },
                    ),
                    ..st
                },
                now,
                instant_delete,
            );
        }
    }
}

/// Every blob a prune plan queues for repacking appears exactly once:
/// each instruction claims its blob out of the needed set, so no
/// duplicate copy is ever made.
pub proof fn lemma_plan_repacks_each_blob_once(
    files: Seq<SpecPruneIndex>,
    ex: IdMap<u32>,
    used0: Map<Seq<u8>, u8>,
    now: Time,
    instant_delete: bool,
)
    ensures
        ({
            let st0 = spec_plan_unref(ex, 0, spec_empty_gplan(used0), now, instant_delete);
            spec_plan_files(files, 0, 0, st0, now, instant_delete) matches Some(g)
                ==> forall|a: int, b: int|
                0 <= a < b < g.repack.len() ==> (#[trigger] g.repack[a]).1.id != (
                #[trigger] g.repack[b]).1.id
        }),
{
    let st0 = spec_plan_unref(ex, 0, spec_empty_gplan(used0), now, instant_delete);
    lemma_plan_unref_once(ex, 0, spec_empty_gplan(used0), now, instant_delete);
    lemma_plan_files_once(files, 0, 0, st0, now, instant_delete);
}


/// The plan-step coverage property: instructions already queued stay
/// queued, and every needed blob stays needed or gets queued.
pub open spec fn spec_plan_extends(st: GPlan, g: GPlan) -> bool {
    &&& g.repack.len() >= st.repack.len()
    &&& forall|a: int| 0 <= a < st.repack.len() ==> g.repack[a] == st.repack[a]
    &&& forall|k: Seq<u8>|
        st.used.contains_key(k) ==> g.used.contains_key(k) || (exists|a: int|
            0 <= a < g.repack.len() && (#[trigger] g.repack[a]).1.id == k)
}

/// Claiming a pack's blobs extends the plan.
proof fn lemma_repack_blobs_extend(blobs: Seq<SpecBlob>, j: int, pid: Seq<u8>, st: GPlan)
    ensures
        spec_plan_extends(st, spec_plan_repack_blobs(blobs, j, pid, st)),
    decreases blobs.len() - j,
{
    if 0 <= j < blobs.len() {
        if st.used.contains_key(blobs[j].id) {
            let st2 = GPlan {
                used: st.used.remove(blobs[j].id),
                repack: st.repack.push((pid, blobs[j])),
                ..st
            };
            lemma_repack_blobs_extend(blobs, j + 1, pid, st2);
            let g = spec_plan_repack_blobs(blobs, j, pid, st);
            assert forall|k: Seq<u8>| st.used.contains_key(k) implies g.used.contains_key(k) || (
            exists|a: int| 0 <= a < g.repack.len() && (#[trigger] g.repack[a]).1.id == k) by {
                if k == blobs[j].id {
                    let a = st.repack.len() as int;
                    assert(st2.repack[a] == (pid, blobs[j]));
                    assert(g.repack[a] == (pid, blobs[j]));
                } else {
                    assert(st2.used.contains_key(k));
                }
            }
        } else {
            lemma_repack_blobs_extend(blobs, j + 1, pid, st);
        }
    }
}

/// One pack's plan step extends the plan.
proof fn lemma_plan_pack_extends(st: GPlan, p: SpecPrunePack, now: Time, instant_delete: bool)
    ensures
        spec_plan_extends(st, spec_plan_pack(st, p, now, instant_delete)),
{
    match p.to_do {
        PackToDo::Repack => {
            let st2 = spec_plan_repack_blobs(p.blobs, 0, p.id, st);
            lemma_repack_blobs_extend(p.blobs, 0, p.id, st);
            let g = spec_plan_pack(st, p, now, instant_delete);
            assert(g.used == st2.used);
            assert(g.repack == st2.repack);
        },
        _ => {},
    }
}

/// The whole walk extends the plan.
proof fn lemma_plan_files_extend(
    files: Seq<SpecPruneIndex>,
    ii: int,
    pj: int,
    st: GPlan,
    now: Time,
    instant_delete: bool,
)
    ensures
        spec_plan_files(files, ii, pj, st, now, instant_delete) matches Some(g)
            ==> spec_plan_extends(st, g),
    decreases files.len() - ii, (if 0 <= ii < files.len() {
        files[ii].packs.len() + 1
    } else {
        0
    }) - pj,
{
    if ii < 0 || pj < 0 || ii >= files.len() {
    } else if pj >= files[ii].packs.len() {
        lemma_plan_files_extend(files, ii + 1, 0, st, now, instant_delete);
    } else if files[ii].packs[pj].to_do is Undecided {
    } else {
        let mid = spec_plan_pack(st, files[ii].packs[pj], now, instant_delete);
        lemma_plan_pack_extends(st, files[ii].packs[pj], now, instant_delete);
        lemma_plan_files_extend(files, ii, pj + 1, mid, now, instant_delete);
        match spec_plan_files(files, ii, pj + 1, mid, now, instant_delete) {
            Some(g) => {
                assert forall|k: Seq<u8>| st.used.contains_key(k) implies g.used.contains_key(k)
                    || (exists|a: int|
                    0 <= a < g.repack.len() && (#[trigger] g.repack[a]).1.id == k) by {
                    if !g.used.contains_key(k) {
                        if mid.used.contains_key(k) {
                        } else {
                            let a = choose|a: int|
                                0 <= a < mid.repack.len() && (#[trigger] mid.repack[a]).1.id == k;
                            assert(g.repack[a] == mid.repack[a]);
                        }
                    }
                }
            },
            None => {},
        }
    }
}

/// Planning drops no needed blob: every blob id still needed when
/// planning starts either remains needed at the end (its kept pack
/// already released the rest during the cross-check) or appears among
/// the repack instructions, so the new packs will hold it.
pub proof fn lemma_plan_covers_needed(
    files: Seq<SpecPruneIndex>,
    ex: IdMap<u32>,
    used0: Map<Seq<u8>, u8>,
    now: Time,
    instant_delete: bool,
)
    ensures
        ({
            let st0 = spec_plan_unref(ex, 0, spec_empty_gplan(used0), now, instant_delete);
            spec_plan_files(files, 0, 0, st0, now, instant_delete) matches Some(g)
                ==> forall|k: Seq<u8>|
                used0.contains_key(k) ==> g.used.contains_key(k) || (exists|a: int|
                    0 <= a < g.repack.len() && (#[trigger] g.repack[a]).1.id == k)
        }),
{
    let st0 = spec_plan_unref(ex, 0, spec_empty_gplan(used0), now, instant_delete);
    lemma_plan_unref_used(ex, 0, spec_empty_gplan(used0), now, instant_delete);
    lemma_plan_files_extend(files, 0, 0, st0, now, instant_delete);
}

/// Marking unindexed packs leaves the needed set alone.
proof fn lemma_plan_unref_used(
    ex: IdMap<u32>,
    i: int,
    st: GPlan,
    now: Time,
    instant_delete: bool,
)
    ensures
        spec_plan_unref(ex, i, st, now, instant_delete).used == st.used,
        spec_plan_unref(ex, i, st, now, instant_delete).repack == st.repack,
    decreases ex.spec_len() - i,
{
    if 0 <= i < ex.spec_len() {
        if instant_delete {
            lemma_plan_unref_used(
                ex,
                i + 1,
                GPlan { del_unref: st.del_unref.push(ex.key_at(i)), ..st },
                now,
                instant_delete,
            );
        } else {
            lemma_plan_unref_used(
                ex,
                i + 1,
                GPlan {
                    tomb: st.tomb.push(
                        SpecIndexPack {
                            id: ex.key_at(i),
                            time: Some(now),
                            size: Some(ex.val_at(i)),
                            blobs: Seq::empty(),
                        },
                    ),
                    ..st
                },
                now,
                instant_delete,
            );
        }
    }
}


/// The decision for a pack none of whose blobs is needed, spelled out:
/// a live one is kept while younger than the keep-pack window and
/// tombstoned once past it; a tombstoned one is deleted once its
/// quarantine has passed and stays tombstoned before that.
pub proof fn lemma_unused_pack_decision(
    st: GDecide,
    ii: int,
    pj: int,
    now: Time,
    keep_pack: u64,
    keep_delete: u64,
    repack_cacheable_only: bool,
    repack_uncompressed: bool,
    sizer: KindMap<PackSizer>,
)
    requires
        0 <= ii < st.files.len(),
        0 <= pj < st.files[ii].packs.len(),
        spec_pack_scan(st.files[ii].packs[pj].blobs, st.used).0.used_blobs == 0,
    ensures
        ({
            let p = st.files[ii].packs[pj];
            let g = spec_decide_one(
                st,
                ii,
                pj,
                now,
                keep_pack,
                keep_delete,
                repack_cacheable_only,
                repack_uncompressed,
                sizer,
            );
            let too_young = match p.time {
                Option::Some(t) => t.spec_secs() + keep_pack > now.spec_secs(),
                Option::None => false,
            };
            let elapsed = match p.time {
                Option::Some(t) => t.spec_secs() + keep_delete <= now.spec_secs(),
                Option::None => true,
            };
            &&& (!p.delete_mark ==> g.files[ii].packs[pj].to_do == (if too_young {
                PackToDo::Keep
            } else {
                PackToDo::MarkDelete
            }))
            &&& (p.delete_mark ==> g.files[ii].packs[pj].to_do == (if elapsed {
                PackToDo::Delete
            } else {
                PackToDo::KeepMarked
            }))
        }),
{
}

/// The plan actions for decided tombstone work, spelled out: without
/// instant deletion, a pack to be tombstoned goes to the new index's
/// tombstones stamped with the run's time and onto no removal list,
/// while a pack to be deleted goes onto the removal list of its kind and
/// into no index section.
pub proof fn lemma_tombstone_plan_actions(st: GPlan, p: SpecPrunePack, now: Time)
    ensures
        p.to_do is MarkDelete ==> ({
            let g = spec_plan_pack(st, p, now, false);
            &&& g.tomb == st.tomb.push(spec_pack_entry(p, Some(now)))
            &&& g.live == st.live
            &&& g.del_data == st.del_data
            &&& g.del_tree == st.del_tree
        }),
        p.to_do is Delete ==> ({
            let g = spec_plan_pack(st, p, now, false);
            &&& g.tomb == st.tomb
            &&& g.live == st.live
            &&& (p.blob_type is Data ==> g.del_data == st.del_data.push(p.id) && g.del_tree
                == st.del_tree)
            &&& (p.blob_type is Tree ==> g.del_tree == st.del_tree.push(p.id) && g.del_data
                == st.del_data)
        }),
{
}

} // verus!
