//! The snapshot model: a named root of a content-addressed tree.

use vstd::prelude::*;

use crate::id::Id;
use crate::time::Time;

verus! {

broadcast use vstd::seq_lib::group_filter_ensures;

/// An ordered list of strings: tags or backed-up paths.
pub struct StringList(pub Vec<String>);

impl StringList {
    /// The strings as character sequences.
    pub open spec fn view(&self) -> Seq<Seq<char>> {
        self.0.deep_view()
    }

    /// An empty list.
    pub fn new() -> (r: StringList)
        ensures
            r@ =~= Seq::<Seq<char>>::empty(),
    {
        StringList(Vec::new())
    }

    /// Whether the list holds a string.
    pub fn contains(&self, s: &String) -> (r: bool)
        ensures
            r == self@.contains(s@),
    {
        let mut i: usize = 0;
        while i < self.0.len()
            invariant
                i <= self@.len(),
                self@.len() == self.0@.len(),
                forall|j: int| 0 <= j < i ==> self@[j] != s@,
            decreases self@.len() - i,
        {
            if self.0[i].eq(s) {
                proof {
                    assert(self@[i as int] == s@);
                }
                return true;
            }
            proof {
                assert(self@[i as int] == self.0@[i as int]@);
            }
            i += 1;
        }
        proof {
            if self@.contains(s@) {
                let j = choose|j: int| 0 <= j < self@.len() && #[trigger] self@[j] == s@;
                assert(false);
            }
        }
        false
    }

    /// Whether every string of `other` is in this list.
    pub fn contains_all(&self, other: &StringList) -> (r: bool)
        ensures
            r == forall|j: int| 0 <= j < other@.len() ==> self@.contains(#[trigger] other@[j]),
    {
        let mut i: usize = 0;
        while i < other.0.len()
            invariant
                i <= other@.len(),
                other@.len() == other.0@.len(),
                forall|j: int| 0 <= j < i ==> self@.contains(#[trigger] other@[j]),
            decreases other@.len() - i,
        {
            if !self.contains(&other.0[i]) {
                proof {
                    assert(other@[i as int] == other.0@[i as int]@);
                }
                return false;
            }
            proof {
                assert(other@[i as int] == other.0@[i as int]@);
            }
            i += 1;
        }
        true
    }

    /// Whether this list is covered by any list of `sls`; an empty `sls`
    /// matches everything.
    pub fn matches(&self, sls: &Vec<StringList>) -> (r: bool)
        ensures
            r == (sls@.len() == 0 || exists|i: int|
                0 <= i < sls@.len() && spec_covers(self@, (#[trigger] sls@[i])@)),
    {
        if sls.len() == 0 {
            return true;
        }
        let mut i: usize = 0;
        while i < sls.len()
            invariant
                i <= sls@.len(),
                forall|j: int| 0 <= j < i ==> !spec_covers(self@, (#[trigger] sls@[j])@),
            decreases sls@.len() - i,
        {
            if self.contains_all(&sls[i]) {
                return true;
            }
            i += 1;
        }
        false
    }

    /// Append a string that is not yet in the list; report whether it was added.
    pub fn add(&mut self, s: &String) -> (r: bool)
        ensures
            r == !old(self)@.contains(s@),
            final(self)@ == if old(self)@.contains(s@) {
                old(self)@
            } else {
                old(self)@.push(s@)
            },
    {
        if self.contains(s) {
            false
        } else {
            let ghost prev = self@;
            self.0.push(s.clone());
            proof {
                assert(self@ =~= prev.push(s@));
            }
            true
        }
    }

    /// Remove every occurrence of a string; report whether any was removed.
    pub fn remove_str(&mut self, s: &String) -> (r: bool)
        ensures
            final(self)@ == old(self)@.filter(|t: Seq<char>| t != s@),
            r == old(self)@.contains(s@),
    {
        let mut out: Vec<String> = Vec::new();
        let mut removed = false;
        let mut i: usize = 0;
        proof {
            assert(self@.take(0).filter(|t: Seq<char>| t != s@) =~= out.deep_view());
        }
        while i < self.0.len()
            invariant
                i <= self@.len(),
                self@.len() == self.0@.len(),
                out.deep_view() == self@.take(i as int).filter(|t: Seq<char>| t != s@),
                removed == self@.take(i as int).contains(s@),
            decreases self@.len() - i,
        {
            let ghost prevtake = self@.take(i as int);
            let ghost prevout = out.deep_view();
            proof {
                reveal(Seq::filter);
                assert(self@[i as int] == self.0@[i as int]@);
                assert(self@.take(i as int + 1) =~= prevtake.push(self@[i as int]));
                assert(self@.take(i as int + 1).drop_last() =~= prevtake);
                assert(self@.take(i as int + 1).last() == self@[i as int]);
            }
            if self.0[i].eq(s) {
                removed = true;
                proof {
                    reveal(Seq::filter);
                    assert(self@[i as int] == s@);
                    assert(self@.take(i as int + 1).filter(|t: Seq<char>| t != s@) =~= prevtake
                        .filter(|t: Seq<char>| t != s@));
                    assert(self@.take(i as int + 1).contains(s@)) by {
                        assert(self@.take(i as int + 1)[i as int] == s@);
                    }
                }
            } else {
                out.push(self.0[i].clone());
                proof {
                    reveal(Seq::filter);
                    assert(self@[i as int] == self.0@[i as int]@);
                    assert(self@[i as int] != s@);
                    assert(self@.take(i as int + 1).filter(|t: Seq<char>| t != s@) =~= prevtake
                        .filter(|t: Seq<char>| t != s@).push(self@[i as int]));
                    assert(out.deep_view() =~= prevout.push(self@[i as int]));
                    if self@.take(i as int + 1).contains(s@) {
                        let j = choose|j: int|
                            0 <= j < i + 1 && #[trigger] self@.take(i as int + 1)[j] == s@;
                        assert(self@.take(i as int)[j] == s@);
                        assert(prevtake.contains(s@));
                    }
                    if prevtake.contains(s@) {
                        let j = choose|j: int| 0 <= j < i && #[trigger] prevtake[j] == s@;
                        assert(self@.take(i as int + 1)[j] == s@);
                    }
                }
            }
            i += 1;
        }
        proof {
            assert(self@.take(self@.len() as int) =~= self@);
        }
        self.0 = out;
        removed
    }
}

impl Clone for StringList {
    fn clone(&self) -> (r: Self)
        ensures
            r@ == self@,
    {
        let mut out: Vec<String> = Vec::new();
        let mut i: usize = 0;
        while i < self.0.len()
            invariant
                i <= self.0@.len(),
                out.deep_view() == self@.take(i as int),
            decreases self.0@.len() - i,
        {
            let ghost prev_dv = out.deep_view();
            out.push(self.0[i].clone());
            proof {
                assert(out.deep_view() =~= prev_dv.push(self.0@[i as int]@));
                assert(self@.take(i as int + 1) =~= self@.take(i as int).push(self@[i as int]));
                assert(self@[i as int] == self.0@[i as int]@);
                assert(out.deep_view() =~= self@.take(i as int + 1));
            }
            i += 1;
        }
        proof {
            assert(self@.take(self@.len() as int) =~= self@);
        }
        StringList(out)
    }
}

/// Whether every string of `small` occurs in `big`.
pub open spec fn spec_covers(big: Seq<Seq<char>>, small: Seq<Seq<char>>) -> bool {
    forall|j: int| 0 <= j < small.len() ==> big.contains(#[trigger] small[j])
}

/// A snapshot's delete mark.
#[derive(Clone, Copy, Debug, PartialEq, Eq, Structural)]
pub enum DeleteOption {
    /// No mark: retention decides.
    NotSet,
    /// Never delete this snapshot.
    Never,
    /// Delete this snapshot once the given time has passed.
    After(Time),
}

/// Counters filled when a backup run finishes.
#[derive(Clone, Copy, Debug, PartialEq, Eq, Structural)]
pub struct SnapshotSummary {
    pub files_new: u64,
    pub files_changed: u64,
    pub files_unmodified: u64,
    pub dirs_new: u64,
    pub dirs_changed: u64,
    pub dirs_unmodified: u64,
    pub data_blobs: u64,
    pub tree_blobs: u64,
    pub data_added: u64,
    pub data_added_packed: u64,
    pub total_files_processed: u64,
    pub total_bytes_processed: u64,
    pub backup_start: Time,
    pub backup_end: Time,
}

/// A snapshot: the root of one backed-up tree, with its metadata.
pub struct SnapshotFile {
    pub id: Id,
    pub time: Time,
    pub parent: Option<Id>,
    pub tree: Id,
    pub label: String,
    pub hostname: String,
    pub paths: StringList,
    pub tags: StringList,
    pub delete: DeleteOption,
    pub summary: Option<SnapshotSummary>,
}

impl SnapshotFile {
    /// Whether the delete mark forbids removing this snapshot now.
    pub fn must_keep(&self, now: &Time) -> (r: bool)
        requires
            self.time.wf(),
            now.wf(),
            self.delete matches DeleteOption::After(t) ==> t.wf(),
        ensures
            r == self.spec_must_keep(*now),
    {
        match &self.delete {
            DeleteOption::Never => true,
            DeleteOption::After(t) => t.secs() > now.secs(),
            DeleteOption::NotSet => false,
        }
    }

    /// Whether the delete mark demands removing this snapshot now.
    pub fn must_delete(&self, now: &Time) -> (r: bool)
        requires
            self.time.wf(),
            now.wf(),
            self.delete matches DeleteOption::After(t) ==> t.wf(),
        ensures
            r == self.spec_must_delete(*now),
    {
        match &self.delete {
            DeleteOption::After(t) => t.secs() <= now.secs(),
            _ => false,
        }
    }

    /// The delete mark forbids removal: marked never, or marked for a
    /// time still in the future.
    pub open spec fn spec_must_keep(&self, now: Time) -> bool {
        match self.delete {
            DeleteOption::Never => true,
            DeleteOption::After(t) => t.spec_secs() > now.spec_secs(),
            DeleteOption::NotSet => false,
        }
    }

    /// The delete mark demands removal: marked for a time already passed.
    pub open spec fn spec_must_delete(&self, now: Time) -> bool {
        match self.delete {
            DeleteOption::After(t) => t.spec_secs() <= now.spec_secs(),
            _ => false,
        }
    }
}


impl StringList {
    /// Whether two lists hold the same strings in the same order.
    pub fn eq_list(&self, other: &StringList) -> (r: bool)
        ensures
            r == (self@ == other@),
    {
        if self.0.len() != other.0.len() {
            proof {
                assert(self@.len() != other@.len());
            }
            return false;
        }
        let mut i: usize = 0;
        while i < self.0.len()
            invariant
                self@.len() == other@.len(),
                self@.len() == self.0@.len(),
                other@.len() == other.0@.len(),
                i <= self@.len(),
                forall|j: int| 0 <= j < i ==> self@[j] == other@[j],
            decreases self@.len() - i,
        {
            if !self.0[i].eq(&other.0[i]) {
                proof {
                    assert(self@[i as int] == self.0@[i as int]@);
                    assert(other@[i as int] == other.0@[i as int]@);
                }
                return false;
            }
            proof {
                assert(self@[i as int] == self.0@[i as int]@);
                assert(other@[i as int] == other.0@[i as int]@);
            }
            i += 1;
        }
        proof {
            assert(self@ =~= other@);
        }
        true
    }
}

/// The key a group of snapshots shares: any subset of host, label,
/// paths and tags.
pub struct SnapshotGroup {
    pub hostname: Option<String>,
    pub label: Option<String>,
    pub paths: Option<StringList>,
    pub tags: Option<StringList>,
}

/// Whether a snapshot belongs to a group: every stated component equal.
pub open spec fn spec_has_group(sn: SnapshotFile, g: SnapshotGroup) -> bool {
    &&& match g.hostname {
        Option::Some(h) => sn.hostname@ == h@,
        Option::None => true,
    }
    &&& match g.label {
        Option::Some(l) => sn.label@ == l@,
        Option::None => true,
    }
    &&& match g.paths {
        Option::Some(p) => sn.paths@ == p@,
        Option::None => true,
    }
    &&& match g.tags {
        Option::Some(t) => sn.tags@ == t@,
        Option::None => true,
    }
}

impl SnapshotFile {
    /// Whether this snapshot belongs to a group.
    pub fn has_group(&self, g: &SnapshotGroup) -> (r: bool)
        ensures
            r == spec_has_group(*self, *g),
    {
        let host_ok = match &g.hostname {
            Some(h) => self.hostname.eq(h),
            None => true,
        };
        let label_ok = match &g.label {
            Some(l) => self.label.eq(l),
            None => true,
        };
        let paths_ok = match &g.paths {
            Some(p) => self.paths.eq_list(p),
            None => true,
        };
        let tags_ok = match &g.tags {
            Some(t) => self.tags.eq_list(t),
            None => true,
        };
        host_ok && label_ok && paths_ok && tags_ok
    }
}

/// The parent for a new backup: the newest snapshot of the group, and
/// among equally new ones the first listed; none when no snapshot of the
/// group exists.
pub fn select_parent(snaps: &Vec<SnapshotFile>, group: &SnapshotGroup) -> (r: Option<usize>)
    requires
        forall|i: int| 0 <= i < snaps@.len() ==> (#[trigger] snaps@[i]).time.wf(),
    ensures
        r matches Some(i) ==> i < snaps@.len() && spec_has_group(snaps@[i as int], *group)
            && forall|j: int|
            0 <= j < snaps@.len() && spec_has_group(#[trigger] snaps@[j], *group)
                ==> snaps@[j].time.spec_secs() <= snaps@[i as int].time.spec_secs() && (snaps@[
                j].time.spec_secs() == snaps@[i as int].time.spec_secs() ==> i <= j),
        r is None <==> forall|j: int|
            0 <= j < snaps@.len() ==> !spec_has_group(#[trigger] snaps@[j], *group),
{
    let mut best: Option<usize> = None;
    let mut best_secs: u64 = 0;
    let mut j: usize = 0;
    while j < snaps.len()
        invariant
            forall|i: int| 0 <= i < snaps@.len() ==> (#[trigger] snaps@[i]).time.wf(),
            j <= snaps@.len(),
            best is None ==> forall|k: int|
                0 <= k < j ==> !spec_has_group(#[trigger] snaps@[k], *group),
            best matches Some(i) ==> i < j && spec_has_group(snaps@[i as int], *group)
                && best_secs == snaps@[i as int].time.spec_secs() && forall|k: int|
                0 <= k < j && spec_has_group(#[trigger] snaps@[k], *group)
                    ==> snaps@[k].time.spec_secs() <= best_secs && (snaps@[k].time.spec_secs()
                    == best_secs ==> i <= k),
        decreases snaps@.len() - j,
    {
        if snaps[j].has_group(group) {
            let s = snaps[j].time.secs();
            match best {
                None => {
                    best = Some(j);
                    best_secs = s;
                },
                Some(_) => {
                    if s > best_secs {
                        best = Some(j);
                        best_secs = s;
                    }
                },
            }
        }
        j += 1;
    }
    best
}

} // verus!
