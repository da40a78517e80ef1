//! Backing up file contents: chunk, hash, deduplicate; and the reverse
//! assembly that restores the bytes.

use vstd::prelude::*;

use crate::chunker::{lemma_chunks_concat, spec_chunks, spec_concat, chunk_data};
use crate::digest::{hash, spec_hash};
use crate::errors::RepoError;
use crate::id::Id;
use crate::idmap::IdMap;
use crate::prune::{sat_add, spec_sat_add};
use crate::snapshotfile::SnapshotSummary;
use crate::time::Time;

verus! {

/// The ids of a chunk list: each chunk's hash.
pub open spec fn spec_chunk_ids(chunks: Seq<Seq<u8>>) -> Seq<Seq<u8>> {
    chunks.map_values(|c: Seq<u8>| spec_hash(c))
}

/// The bytes reassembled from a blob table by id list, when every id
/// resolves.
pub open spec fn spec_restore(table: Map<Seq<u8>, Vec<u8>>, ids: Seq<Seq<u8>>) -> Option<Seq<u8>>
    decreases ids.len(),
{
    if ids.len() == 0 {
        Some(Seq::empty())
    } else if !table.contains_key(ids[0]) {
        None
    } else {
        match spec_restore(table, ids.skip(1)) {
            Some(rest) => Some(table[ids[0]]@ + rest),
            None => None,
        }
    }
}

/// Back up one file's bytes: cut them into content-defined chunks and
/// store each chunk the table does not already hold under its hash.
/// Returns the file's ordered content ids and how many chunks were new.
///
/// The table is trusted not to hold a foreign plaintext under one of the
/// file's chunk hashes: deduplication equates blobs by hash alone.
#[verifier::rlimit(100)]
pub fn backup_file(poly: u64, data: &[u8], table: &mut IdMap<Vec<u8>>) -> (r: (Vec<Id>, usize))
    requires
        old(table).wf(),
        data@.len() <= u64::MAX,
        forall|i: int|
            0 <= i < spec_chunks(poly, data@, 0).len() ==> (old(table).as_map().contains_key(
                spec_hash(#[trigger] spec_chunks(poly, data@, 0)[i]),
            ) ==> old(table).as_map()[spec_hash(spec_chunks(poly, data@, 0)[i])]@ == spec_chunks(
                poly,
                data@,
                0,
            )[i]),
        forall|i: int, j: int|
            0 <= i < spec_chunks(poly, data@, 0).len() && 0 <= j < spec_chunks(
                poly,
                data@,
                0,
            ).len() && spec_hash(#[trigger] spec_chunks(poly, data@, 0)[i]) == spec_hash(
                #[trigger] spec_chunks(poly, data@, 0)[j],
            ) ==> spec_chunks(poly, data@, 0)[i] == spec_chunks(poly, data@, 0)[j],
    ensures
        final(table).wf(),
        r.0.deep_view() == spec_chunk_ids(spec_chunks(poly, data@, 0)),
        forall|i: int|
            0 <= i < spec_chunks(poly, data@, 0).len() ==> final(table).as_map().contains_key(
                spec_hash(#[trigger] spec_chunks(poly, data@, 0)[i]),
            ) && final(table).as_map()[spec_hash(spec_chunks(poly, data@, 0)[i])]@ == spec_chunks(
                poly,
                data@,
                0,
            )[i],
        (forall|i: int|
            0 <= i < spec_chunks(poly, data@, 0).len() ==> old(table).as_map().contains_key(
                spec_hash(#[trigger] spec_chunks(poly, data@, 0)[i]),
            )) ==> r.1 == 0 && final(table).as_map() == old(table).as_map(),
        spec_restore(final(table).as_map(), spec_chunk_ids(spec_chunks(poly, data@, 0)))
            == Some(data@),
{
    let ghost cs = spec_chunks(poly, data@, 0);
    let chunks = chunk_data(poly, data);
    let mut ids: Vec<Id> = Vec::new();
    let mut added: usize = 0;
    let mut i: usize = 0;
    proof {
        assert(ids.deep_view() =~= Seq::<Seq<u8>>::empty());
        crate::chunker::lemma_chunk_sizes(poly, data@, 0);
    }
    while i < chunks.len()
        invariant
            table.wf(),
            chunks.deep_view() == cs,
            chunks@.len() == cs.len(),
            i <= cs.len(),
            ids.deep_view() =~= spec_chunk_ids(cs.take(i as int)),
            ids@.len() == i,
            forall|k: int|
                0 <= k < cs.len() ==> (old(table).as_map().contains_key(
                    spec_hash(#[trigger] cs[k]),
                ) ==> old(table).as_map()[spec_hash(cs[k])]@ == cs[k]),
            forall|k: int|
                0 <= k < i ==> table.as_map().contains_key(spec_hash(#[trigger] cs[k]))
                    && table.as_map()[spec_hash(cs[k])]@ == cs[k],
            forall|k: int, l: int|
                0 <= k < cs.len() && 0 <= l < cs.len() && spec_hash(#[trigger] cs[k]) == spec_hash(
                    #[trigger] cs[l],
                ) ==> cs[k] == cs[l],
            forall|k: int| 0 <= k < cs.len() ==> (#[trigger] cs[k]).len() <= u64::MAX,
            forall|key: Seq<u8>|
                #[trigger] old(table).as_map().contains_key(key) ==> table.as_map().contains_key(
                    key,
                ) && table.as_map()[key] == old(table).as_map()[key],
            forall|key: Seq<u8>|
                #[trigger] table.as_map().contains_key(key) ==> old(table).as_map().contains_key(
                    key,
                ) || (exists|k: int| 0 <= k < i && spec_hash(#[trigger] cs[k]) == key),
            added <= i,
            added == 0 ==> table.as_map() == old(table).as_map(),
            (forall|k: int|
                0 <= k < i ==> old(table).as_map().contains_key(spec_hash(#[trigger] cs[k])))
                ==> added == 0,
        decreases cs.len() - i,
    {
        proof {
            assert(cs[i as int] == chunks@[i as int]@);
        }
        let id = hash(chunks[i].as_slice());
        let ghost idg = id@;
        if !table.contains(&id) {
            let chunk_copy = copy_bytes(&chunks[i]);
            table.insert(id.clone(), chunk_copy);
            added = added + 1;
        }
        ids.push(id);
        proof {
            assert(ids.deep_view() =~= spec_chunk_ids(cs.take(i as int)).push(
                spec_hash(cs[i as int]),
            ));
            assert(spec_chunk_ids(cs.take(i as int + 1)) =~= spec_chunk_ids(
                cs.take(i as int),
            ).push(spec_hash(cs[i as int]))) by {
                assert(cs.take(i as int + 1) =~= cs.take(i as int).push(cs[i as int]));
            }
        }
        i += 1;
    }
    proof {
        assert(cs.take(cs.len() as int) =~= cs);
        lemma_restore_all(table.as_map(), cs, poly, data@);
    }
    (ids, added)
}

/// A table holding every chunk under its hash restores the chunk list to
/// the original bytes.
proof fn lemma_restore_ids(table: Map<Seq<u8>, Vec<u8>>, cs: Seq<Seq<u8>>)
    requires
        forall|k: int|
            0 <= k < cs.len() ==> table.contains_key(spec_hash(#[trigger] cs[k]))
                && table[spec_hash(cs[k])]@ == cs[k],
    ensures
        spec_restore(table, spec_chunk_ids(cs)) == Some(spec_concat(cs)),
    decreases cs.len(),
{
    let ids = spec_chunk_ids(cs);
    if cs.len() == 0 {
        assert(ids.len() == 0);
        assert(spec_concat(cs) =~= Seq::<u8>::empty());
    } else {
        assert(ids[0] == spec_hash(cs[0]));
        assert(ids.skip(1) =~= spec_chunk_ids(cs.skip(1)));
        assert(forall|k: int|
            0 <= k < cs.skip(1).len() ==> table.contains_key(spec_hash(#[trigger] cs.skip(1)[k]))
                && table[spec_hash(cs.skip(1)[k])]@ == cs.skip(1)[k]) by {
            assert(forall|k: int| 0 <= k < cs.skip(1).len() ==> #[trigger] cs.skip(1)[k] == cs[
            k + 1]);
        }
        lemma_restore_ids(table, cs.skip(1));
    }
}

/// Restoring the ids of a file's chunks gives the file's bytes back.
proof fn lemma_restore_all(table: Map<Seq<u8>, Vec<u8>>, cs: Seq<Seq<u8>>, poly: u64, data: Seq<u8>)
    requires
        cs == spec_chunks(poly, data, 0),
        forall|k: int|
            0 <= k < cs.len() ==> table.contains_key(spec_hash(#[trigger] cs[k]))
                && table[spec_hash(cs[k])]@ == cs[k],
    ensures
        spec_restore(table, spec_chunk_ids(cs)) == Some(data),
{
    lemma_restore_ids(table, cs);
    lemma_chunks_concat(poly, data, 0);
    assert(data.skip(0) =~= data);
}

/// Copy a chunk's bytes.
fn copy_bytes(v: &Vec<u8>) -> (r: Vec<u8>)
    ensures
        r@ == v@,
{
    let mut out: Vec<u8> = Vec::new();
    let mut i: usize = 0;
    while i < v.len()
        invariant
            i <= v@.len(),
            out@ == v@.take(i as int),
        decreases v@.len() - i,
    {
        out.push(v[i]);
        proof {
            assert(out@ =~= v@.take(i as int + 1));
        }
        i += 1;
    }
    proof {
        assert(v@.take(v@.len() as int) =~= v@);
    }
    out
}

/// Reassemble a file from its content ids: the concatenation of the
/// table's blobs, in order; an unresolved id is an integrity error.
pub fn restore_file(table: &IdMap<Vec<u8>>, ids: &Vec<Id>) -> (r: Result<Vec<u8>, RepoError>)
    requires
        table.wf(),
    ensures
        r is Ok <==> spec_restore(table.as_map(), ids.deep_view()) is Some,
        r matches Ok(v) ==> Some(v@) == spec_restore(table.as_map(), ids.deep_view()),
        r is Err ==> r == Err::<Vec<u8>, RepoError>(RepoError::Integrity),
{
    let mut out: Vec<u8> = Vec::new();
    let mut i: usize = 0;
    proof {
        assert(ids.deep_view().skip(0) =~= ids.deep_view());
        match spec_restore(table.as_map(), ids.deep_view()) {
            Some(rest) => {
                assert(out@ + rest =~= rest);
            },
            None => {},
        }
    }
    while i < ids.len()
        invariant
            table.wf(),
            i <= ids@.len(),
            spec_restore(table.as_map(), ids.deep_view()) == (match spec_restore(
                table.as_map(),
                ids.deep_view().skip(i as int),
            ) {
                Some(rest) => Some(out@ + rest),
                None => None::<Seq<u8>>,
            }),
        decreases ids@.len() - i,
    {
        proof {
            assert(ids.deep_view().skip(i as int)[0] == ids@[i as int]@);
        }
        match table.get(&ids[i]) {
            Some(blob) => {
                let ghost outpre = out@;
                let ghost blobg = blob@;
                let b = copy_bytes(blob);
                let mut bb = b;
                out.append(&mut bb);
                proof {
                    assert(out@ =~= outpre + blobg);
                    assert(ids.deep_view().skip(i as int).skip(1) =~= ids.deep_view().skip(
                        i as int + 1,
                    ));
                    match spec_restore(table.as_map(), ids.deep_view().skip(i as int + 1)) {
                        Some(rest) => {
                            assert(outpre + (blobg + rest) =~= out@ + rest);
                        },
                        None => {},
                    }
                }
            },
            None => {
                proof {
                    assert(spec_restore(table.as_map(), ids.deep_view().skip(i as int)) is None);
                }
                return Err(RepoError::Integrity);
            },
        }
        i += 1;
    }
    proof {
        assert(ids.deep_view().skip(ids@.len() as int) =~= Seq::<Seq<u8>>::empty());
        assert(out@ + Seq::<u8>::empty() =~= out@);
    }
    Ok(out)
}


/// How one source entry fared against the parent snapshot.
#[derive(Clone, Copy, Debug, PartialEq, Eq, Structural)]
pub enum FileOutcome {
    New,
    Changed,
    Unmodified,
}

/// One source entry's contribution to the backup summary.
#[derive(Clone, Copy, Debug, PartialEq, Eq, Structural)]
pub struct EntryReport {
    /// Whether the entry is a directory rather than a file.
    pub dir: bool,
    pub outcome: FileOutcome,
    pub bytes_processed: u64,
    pub data_blobs: u64,
    pub tree_blobs: u64,
    pub data_added: u64,
    pub data_added_packed: u64,
}

/// A summary with all counters zero over a run's start and end.
pub open spec fn spec_empty_summary(start: Time, end: Time) -> SnapshotSummary {
    SnapshotSummary {
        files_new: 0,
        files_changed: 0,
        files_unmodified: 0,
        dirs_new: 0,
        dirs_changed: 0,
        dirs_unmodified: 0,
        data_blobs: 0,
        tree_blobs: 0,
        data_added: 0,
        data_added_packed: 0,
        total_files_processed: 0,
        total_bytes_processed: 0,
        backup_start: start,
        backup_end: end,
    }
}

/// One report folded into the summary: the matching new/changed/
/// unmodified counter of its kind steps, and the sizes accumulate.
pub open spec fn spec_fold_step(acc: SnapshotSummary, e: EntryReport) -> SnapshotSummary {
    SnapshotSummary {
        files_new: if !e.dir && e.outcome is New {
            spec_sat_add(acc.files_new, 1)
        } else {
            acc.files_new
        },
        files_changed: if !e.dir && e.outcome is Changed {
            spec_sat_add(acc.files_changed, 1)
        } else {
            acc.files_changed
        },
        files_unmodified: if !e.dir && e.outcome is Unmodified {
            spec_sat_add(acc.files_unmodified, 1)
        } else {
            acc.files_unmodified
        },
        dirs_new: if e.dir && e.outcome is New {
            spec_sat_add(acc.dirs_new, 1)
        } else {
            acc.dirs_new
        },
        dirs_changed: if e.dir && e.outcome is Changed {
            spec_sat_add(acc.dirs_changed, 1)
        } else {
            acc.dirs_changed
        },
        dirs_unmodified: if e.dir && e.outcome is Unmodified {
            spec_sat_add(acc.dirs_unmodified, 1)
        } else {
            acc.dirs_unmodified
        },
        data_blobs: spec_sat_add(acc.data_blobs, e.data_blobs),
        tree_blobs: spec_sat_add(acc.tree_blobs, e.tree_blobs),
        data_added: spec_sat_add(acc.data_added, e.data_added),
        data_added_packed: spec_sat_add(acc.data_added_packed, e.data_added_packed),
        total_files_processed: if !e.dir {
            spec_sat_add(acc.total_files_processed, 1)
        } else {
            acc.total_files_processed
        },
        total_bytes_processed: spec_sat_add(acc.total_bytes_processed, e.bytes_processed),
        ..acc
    }
}

/// The summary over the reports from `i` on.
pub open spec fn spec_fold_summary(reports: Seq<EntryReport>, i: int, acc: SnapshotSummary) -> SnapshotSummary
    decreases reports.len() - i,
{
    if i < 0 || i >= reports.len() {
        acc
    } else {
        spec_fold_summary(reports, i + 1, spec_fold_step(acc, reports[i]))
    }
}

/// Fold the per-entry reports of a backup run into its summary.
pub fn fold_summary(reports: &Vec<EntryReport>, start: Time, end: Time) -> (r: SnapshotSummary)
    ensures
        r == spec_fold_summary(reports@, 0, spec_empty_summary(start, end)),
{
    let mut acc = SnapshotSummary {
        files_new: 0,
        files_changed: 0,
        files_unmodified: 0,
        dirs_new: 0,
        dirs_changed: 0,
        dirs_unmodified: 0,
        data_blobs: 0,
        tree_blobs: 0,
        data_added: 0,
        data_added_packed: 0,
        total_files_processed: 0,
        total_bytes_processed: 0,
        backup_start: start,
        backup_end: end,
    };
    let mut i: usize = 0;
    while i < reports.len()
        invariant
            i <= reports@.len(),
            spec_fold_summary(reports@, 0, spec_empty_summary(start, end)) == spec_fold_summary(
                reports@,
                i as int,
                acc,
            ),
        decreases reports@.len() - i,
    {
        let e = reports[i];
        let next = SnapshotSummary {
            files_new: if !e.dir && matches!(e.outcome, FileOutcome::New) {
                sat_add(acc.files_new, 1)
            } else {
                acc.files_new
            },
            files_changed: if !e.dir && matches!(e.outcome, FileOutcome::Changed) {
                sat_add(acc.files_changed, 1)
            } else {
                acc.files_changed
            },
            files_unmodified: if !e.dir && matches!(e.outcome, FileOutcome::Unmodified) {
                sat_add(acc.files_unmodified, 1)
            } else {
                acc.files_unmodified
            },
            dirs_new: if e.dir && matches!(e.outcome, FileOutcome::New) {
                sat_add(acc.dirs_new, 1)
            } else {
                acc.dirs_new
            },
            dirs_changed: if e.dir && matches!(e.outcome, FileOutcome::Changed) {
                sat_add(acc.dirs_changed, 1)
            } else {
                acc.dirs_changed
            },
            dirs_unmodified: if e.dir && matches!(e.outcome, FileOutcome::Unmodified) {
                sat_add(acc.dirs_unmodified, 1)
            } else {
                acc.dirs_unmodified
            },
            data_blobs: sat_add(acc.data_blobs, e.data_blobs),
            tree_blobs: sat_add(acc.tree_blobs, e.tree_blobs),
            data_added: sat_add(acc.data_added, e.data_added),
            data_added_packed: sat_add(acc.data_added_packed, e.data_added_packed),
            total_files_processed: if !e.dir {
                sat_add(acc.total_files_processed, 1)
            } else {
                acc.total_files_processed
            },
            total_bytes_processed: sat_add(acc.total_bytes_processed, e.bytes_processed),
            ..acc
        };
        proof {
            assert(next == spec_fold_step(acc, reports@[i as int]));
        }
        acc = next;
        i += 1;
    }
    acc
}

} // verus!
