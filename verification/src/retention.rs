//! The retention policy: bucketed "keep the last N per period" filtering.
//!
//! Snapshots of a group are visited newest first.  A snapshot is kept when
//! a delete mark demands it, an id prefix or tag list names it, or it opens
//! a new calendar bucket whose counter is not exhausted; counters of -1 are
//! unbounded, counters of 0 are disabled.

use vstd::prelude::*;

use crate::id::hex_of_bytes;
use crate::snapshotfile::{spec_covers, SnapshotFile, StringList};
use crate::time::Time;

verus! {

/// Two snapshots never share this bucket: each one opens a new bucket.
pub fn always_false(sn1: &SnapshotFile, sn2: &SnapshotFile) -> (r: bool)
    ensures
        r == false,
{
    false
}

/// Same calendar year.
pub fn equal_year(sn1: &SnapshotFile, sn2: &SnapshotFile) -> (r: bool)
    ensures
        r == spec_equal_year(sn1.time, sn2.time),
{
    sn1.time.year == sn2.time.year
}

/// Same calendar year and half-year.
pub fn equal_half_year(sn1: &SnapshotFile, sn2: &SnapshotFile) -> (r: bool)
    requires
        sn1.time.wf(),
        sn2.time.wf(),
    ensures
        r == spec_equal_half_year(sn1.time, sn2.time),
{
    sn1.time.year == sn2.time.year && (sn1.time.month - 1) / 6 == (sn2.time.month - 1) / 6
}

/// Same calendar year and quarter.
pub fn equal_quarter_year(sn1: &SnapshotFile, sn2: &SnapshotFile) -> (r: bool)
    requires
        sn1.time.wf(),
        sn2.time.wf(),
    ensures
        r == spec_equal_quarter_year(sn1.time, sn2.time),
{
    sn1.time.year == sn2.time.year && (sn1.time.month - 1) / 3 == (sn2.time.month - 1) / 3
}

/// Same calendar year and month.
pub fn equal_month(sn1: &SnapshotFile, sn2: &SnapshotFile) -> (r: bool)
    ensures
        r == spec_equal_month(sn1.time, sn2.time),
{
    sn1.time.year == sn2.time.year && sn1.time.month == sn2.time.month
}

/// Same calendar year and ISO week.
pub fn equal_week(sn1: &SnapshotFile, sn2: &SnapshotFile) -> (r: bool)
    requires
        sn1.time.wf(),
        sn2.time.wf(),
    ensures
        r == spec_equal_week(sn1.time, sn2.time),
{
    sn1.time.year == sn2.time.year && sn1.time.iso_week() == sn2.time.iso_week()
}

/// Same calendar year and day of year.
pub fn equal_day(sn1: &SnapshotFile, sn2: &SnapshotFile) -> (r: bool)
    requires
        sn1.time.wf(),
        sn2.time.wf(),
    ensures
        r == spec_equal_day(sn1.time, sn2.time),
{
    sn1.time.year == sn2.time.year && sn1.time.ordinal() == sn2.time.ordinal()
}

/// Same calendar year, day of year and hour.
pub fn equal_hour(sn1: &SnapshotFile, sn2: &SnapshotFile) -> (r: bool)
    requires
        sn1.time.wf(),
        sn2.time.wf(),
    ensures
        r == spec_equal_hour(sn1.time, sn2.time),
{
    sn1.time.year == sn2.time.year && sn1.time.ordinal() == sn2.time.ordinal() && sn1.time.hour
        == sn2.time.hour
}

/// Same calendar year.
pub open spec fn spec_equal_year(t1: Time, t2: Time) -> bool {
    t1.year == t2.year
}

/// Same calendar year and half-year.
pub open spec fn spec_equal_half_year(t1: Time, t2: Time) -> bool {
    t1.year == t2.year && (t1.month - 1) / 6 == (t2.month - 1) / 6
}

/// Same calendar year and quarter.
pub open spec fn spec_equal_quarter_year(t1: Time, t2: Time) -> bool {
    t1.year == t2.year && (t1.month - 1) / 3 == (t2.month - 1) / 3
}

/// Same calendar year and month.
pub open spec fn spec_equal_month(t1: Time, t2: Time) -> bool {
    t1.year == t2.year && t1.month == t2.month
}

/// Same calendar year and ISO week.
pub open spec fn spec_equal_week(t1: Time, t2: Time) -> bool {
    t1.year == t2.year && t1.spec_iso_week() == t2.spec_iso_week()
}

/// Same calendar year and day of year.
pub open spec fn spec_equal_day(t1: Time, t2: Time) -> bool {
    t1.year == t2.year && t1.spec_ordinal() == t2.spec_ordinal()
}

/// Same calendar year, day of year and hour.
pub open spec fn spec_equal_hour(t1: Time, t2: Time) -> bool {
    t1.year == t2.year && t1.spec_ordinal() == t2.spec_ordinal() && t1.hour == t2.hour
}

/// The calendar buckets, coarsest last, as the policy visits them.
#[derive(Clone, Copy, Debug, PartialEq, Eq, Structural)]
pub enum BucketKind {
    Last,
    Hourly,
    Daily,
    Weekly,
    Monthly,
    QuarterYearly,
    HalfYearly,
    Yearly,
}

/// Whether two snapshot times fall into the same bucket of a kind.
pub open spec fn spec_same_bucket(kind: BucketKind, t1: Time, t2: Time) -> bool {
    match kind {
        BucketKind::Last => false,
        BucketKind::Hourly => spec_equal_hour(t1, t2),
        BucketKind::Daily => spec_equal_day(t1, t2),
        BucketKind::Weekly => spec_equal_week(t1, t2),
        BucketKind::Monthly => spec_equal_month(t1, t2),
        BucketKind::QuarterYearly => spec_equal_quarter_year(t1, t2),
        BucketKind::HalfYearly => spec_equal_half_year(t1, t2),
        BucketKind::Yearly => spec_equal_year(t1, t2),
    }
}

/// The retention options: counters, windows, tag and id pins.
pub struct KeepOptions {
    /// Keep snapshots whose tags cover one of these lists.
    pub keep_tags: Vec<StringList>,
    /// Keep snapshots whose hex id starts with one of these prefixes.
    pub keep_ids: Vec<Vec<char>>,
    pub keep_last: i32,
    pub keep_hourly: i32,
    pub keep_daily: i32,
    pub keep_weekly: i32,
    pub keep_monthly: i32,
    pub keep_quarter_yearly: i32,
    pub keep_half_yearly: i32,
    pub keep_yearly: i32,
    /// Windows in seconds relative to the group's latest snapshot.
    pub keep_within: u64,
    pub keep_within_hourly: u64,
    pub keep_within_daily: u64,
    pub keep_within_weekly: u64,
    pub keep_within_monthly: u64,
    pub keep_within_quarter_yearly: u64,
    pub keep_within_half_yearly: u64,
    pub keep_within_yearly: u64,
}

/// The bucket counter of a kind.
pub open spec fn spec_counter(opts: KeepOptions, kind: BucketKind) -> i32 {
    match kind {
        BucketKind::Last => opts.keep_last,
        BucketKind::Hourly => opts.keep_hourly,
        BucketKind::Daily => opts.keep_daily,
        BucketKind::Weekly => opts.keep_weekly,
        BucketKind::Monthly => opts.keep_monthly,
        BucketKind::QuarterYearly => opts.keep_quarter_yearly,
        BucketKind::HalfYearly => opts.keep_half_yearly,
        BucketKind::Yearly => opts.keep_yearly,
    }
}

/// The within-window of a kind, in seconds.
pub open spec fn spec_within(opts: KeepOptions, kind: BucketKind) -> u64 {
    match kind {
        BucketKind::Last => opts.keep_within,
        BucketKind::Hourly => opts.keep_within_hourly,
        BucketKind::Daily => opts.keep_within_daily,
        BucketKind::Weekly => opts.keep_within_weekly,
        BucketKind::Monthly => opts.keep_within_monthly,
        BucketKind::QuarterYearly => opts.keep_within_quarter_yearly,
        BucketKind::HalfYearly => opts.keep_within_half_yearly,
        BucketKind::Yearly => opts.keep_within_yearly,
    }
}

/// The options with one bucket counter replaced.
pub open spec fn spec_set_counter(opts: KeepOptions, kind: BucketKind, c: i32) -> KeepOptions {
    match kind {
        BucketKind::Last => KeepOptions { keep_last: c, ..opts },
        BucketKind::Hourly => KeepOptions { keep_hourly: c, ..opts },
        BucketKind::Daily => KeepOptions { keep_daily: c, ..opts },
        BucketKind::Weekly => KeepOptions { keep_weekly: c, ..opts },
        BucketKind::Monthly => KeepOptions { keep_monthly: c, ..opts },
        BucketKind::QuarterYearly => KeepOptions { keep_quarter_yearly: c, ..opts },
        BucketKind::HalfYearly => KeepOptions { keep_half_yearly: c, ..opts },
        BucketKind::Yearly => KeepOptions { keep_yearly: c, ..opts },
    }
}

/// A bucket fires for the snapshot at hand when the snapshot is the last
/// of its group, the first one visited, or not in the previous snapshot's
/// bucket.
pub open spec fn spec_bucket_fires(
    kind: BucketKind,
    sn_time: Time,
    last: Option<Time>,
    has_next: bool,
) -> bool {
    !has_next || last is None || !spec_same_bucket(kind, sn_time, last->0)
}

/// Whether a snapshot lies within a window of the group's latest time.
pub open spec fn spec_within_keeps(sn_time: Time, w: u64, latest: Time) -> bool {
    sn_time.spec_secs() + w > latest.spec_secs()
}

/// One bucket's decision: whether it keeps the snapshot, and the options
/// with its counter consumed.
pub open spec fn spec_bucket_step(
    opts: KeepOptions,
    kind: BucketKind,
    sn_time: Time,
    last: Option<Time>,
    has_next: bool,
    latest: Time,
) -> (bool, KeepOptions) {
    let fires = spec_bucket_fires(kind, sn_time, last, has_next);
    let c = spec_counter(opts, kind);
    let keep = fires && (c != 0 || spec_within_keeps(sn_time, spec_within(opts, kind), latest));
    let opts2 = if fires && c > 0 {
        spec_set_counter(opts, kind, (c - 1) as i32)
    } else {
        opts
    };
    (keep, opts2)
}

/// Whether any pinned id prefix matches the snapshot's hex id.
pub open spec fn spec_id_match(keep_ids: Seq<Seq<char>>, id: Seq<u8>) -> bool {
    exists|i: int| 0 <= i < keep_ids.len() && (#[trigger] keep_ids[i]).is_prefix_of(
        hex_of_bytes(id),
    )
}

/// Whether the pinned tag lists keep the snapshot.
pub open spec fn spec_tag_match(keep_tags: Seq<StringList>, tags: Seq<Seq<char>>) -> bool {
    keep_tags.len() > 0 && exists|i: int|
        0 <= i < keep_tags.len() && spec_covers(tags, (#[trigger] keep_tags[i])@)
}

/// The whole policy decision for one snapshot: whether any reason keeps
/// it, and the options with the consumed counters.
pub open spec fn spec_matches(
    opts: KeepOptions,
    sn_id: Seq<u8>,
    sn_tags: Seq<Seq<char>>,
    sn_time: Time,
    last: Option<Time>,
    has_next: bool,
    latest: Time,
) -> (bool, KeepOptions) {
    let pinned = spec_id_match(opts.keep_ids.deep_view(), sn_id) || spec_tag_match(
        opts.keep_tags@,
        sn_tags,
    );
    let s1 = spec_bucket_step(opts, BucketKind::Last, sn_time, last, has_next, latest);
    let s2 = spec_bucket_step(s1.1, BucketKind::Hourly, sn_time, last, has_next, latest);
    let s3 = spec_bucket_step(s2.1, BucketKind::Daily, sn_time, last, has_next, latest);
    let s4 = spec_bucket_step(s3.1, BucketKind::Weekly, sn_time, last, has_next, latest);
    let s5 = spec_bucket_step(s4.1, BucketKind::Monthly, sn_time, last, has_next, latest);
    let s6 = spec_bucket_step(s5.1, BucketKind::QuarterYearly, sn_time, last, has_next, latest);
    let s7 = spec_bucket_step(s6.1, BucketKind::HalfYearly, sn_time, last, has_next, latest);
    let s8 = spec_bucket_step(s7.1, BucketKind::Yearly, sn_time, last, has_next, latest);
    (
        pinned || s1.0 || s2.0 || s3.0 || s4.0 || s5.0 || s6.0 || s7.0 || s8.0,
        s8.1,
    )
}

/// Whether a character sequence starts with a prefix.
pub fn starts_with_chars(h: &Vec<char>, p: &Vec<char>) -> (r: bool)
    ensures
        r == p@.is_prefix_of(h@),
{
    if p.len() > h.len() {
        return false;
    }
    let mut i: usize = 0;
    while i < p.len()
        invariant
            p@.len() <= h@.len(),
            i <= p@.len(),
            forall|j: int| 0 <= j < i ==> p@[j] == h@[j],
        decreases p@.len() - i,
    {
        if p[i] != h[i] {
            proof {
                assert(p@[i as int] != h@.subrange(0, p@.len() as int)[i as int]);
            }
            return false;
        }
        i += 1;
    }
    proof {
        assert(p@ =~= h@.subrange(0, p@.len() as int));
    }
    true
}

impl KeepOptions {
    /// Options that keep nothing: all counters and windows zero, no pins.
    pub open spec fn spec_is_default(&self) -> bool {
        &&& self.keep_tags@.len() == 0
        &&& self.keep_ids@.len() == 0
        &&& self.keep_last == 0
        &&& self.keep_hourly == 0
        &&& self.keep_daily == 0
        &&& self.keep_weekly == 0
        &&& self.keep_monthly == 0
        &&& self.keep_quarter_yearly == 0
        &&& self.keep_half_yearly == 0
        &&& self.keep_yearly == 0
        &&& self.keep_within == 0
        &&& self.keep_within_hourly == 0
        &&& self.keep_within_daily == 0
        &&& self.keep_within_weekly == 0
        &&& self.keep_within_monthly == 0
        &&& self.keep_within_quarter_yearly == 0
        &&& self.keep_within_half_yearly == 0
        &&& self.keep_within_yearly == 0
    }

    /// Options that keep nothing.
    pub fn default() -> (r: KeepOptions)
        ensures
            r.spec_is_default(),
    {
        KeepOptions {
            keep_tags: Vec::new(),
            keep_ids: Vec::new(),
            keep_last: 0,
            keep_hourly: 0,
            keep_daily: 0,
            keep_weekly: 0,
            keep_monthly: 0,
            keep_quarter_yearly: 0,
            keep_half_yearly: 0,
            keep_yearly: 0,
            keep_within: 0,
            keep_within_hourly: 0,
            keep_within_daily: 0,
            keep_within_weekly: 0,
            keep_within_monthly: 0,
            keep_within_quarter_yearly: 0,
            keep_within_half_yearly: 0,
            keep_within_yearly: 0,
        }
    }

    /// Whether these options equal the default.
    pub fn is_default(&self) -> (r: bool)
        ensures
            r == self.spec_is_default(),
    {
        self.keep_tags.len() == 0 && self.keep_ids.len() == 0 && self.keep_last == 0
            && self.keep_hourly == 0 && self.keep_daily == 0 && self.keep_weekly == 0
            && self.keep_monthly == 0 && self.keep_quarter_yearly == 0 && self.keep_half_yearly
            == 0 && self.keep_yearly == 0 && self.keep_within == 0 && self.keep_within_hourly == 0
            && self.keep_within_daily == 0 && self.keep_within_weekly == 0
            && self.keep_within_monthly == 0 && self.keep_within_quarter_yearly == 0
            && self.keep_within_half_yearly == 0 && self.keep_within_yearly == 0
    }

    /// One bucket's visit: test, count, and consume.
    fn bucket_step(
        &mut self,
        kind: BucketKind,
        sn: &SnapshotFile,
        last_time: Option<&Time>,
        has_next: bool,
        latest: &Time,
    ) -> (keep: bool)
        requires
            sn.time.wf(),
            latest.wf(),
            last_time matches Some(t) ==> t.wf(),
        ensures
            ({
                let lt = match last_time {
                    Some(t) => Some(*t),
                    None => None,
                };
                let step = spec_bucket_step(*old(self), kind, sn.time, lt, has_next, *latest);
                keep == step.0 && *final(self) == step.1
            }),
    {
        let fires = !has_next || match last_time {
            None => true,
            Some(lt) => {
                let same = match kind {
                    BucketKind::Last => false,
                    BucketKind::Hourly => sn.time.year == lt.year && sn.time.ordinal()
                        == lt.ordinal() && sn.time.hour == lt.hour,
                    BucketKind::Daily => sn.time.year == lt.year && sn.time.ordinal()
                        == lt.ordinal(),
                    BucketKind::Weekly => sn.time.year == lt.year && sn.time.iso_week()
                        == lt.iso_week(),
                    BucketKind::Monthly => sn.time.year == lt.year && sn.time.month == lt.month,
                    BucketKind::QuarterYearly => sn.time.year == lt.year && (sn.time.month - 1) / 3
                        == (lt.month - 1) / 3,
                    BucketKind::HalfYearly => sn.time.year == lt.year && (sn.time.month - 1) / 6
                        == (lt.month - 1) / 6,
                    BucketKind::Yearly => sn.time.year == lt.year,
                };
                !same
            },
        };
        if !fires {
            return false;
        }
        let c = match kind {
            BucketKind::Last => self.keep_last,
            BucketKind::Hourly => self.keep_hourly,
            BucketKind::Daily => self.keep_daily,
            BucketKind::Weekly => self.keep_weekly,
            BucketKind::Monthly => self.keep_monthly,
            BucketKind::QuarterYearly => self.keep_quarter_yearly,
            BucketKind::HalfYearly => self.keep_half_yearly,
            BucketKind::Yearly => self.keep_yearly,
        };
        let w = match kind {
            BucketKind::Last => self.keep_within,
            BucketKind::Hourly => self.keep_within_hourly,
            BucketKind::Daily => self.keep_within_daily,
            BucketKind::Weekly => self.keep_within_weekly,
            BucketKind::Monthly => self.keep_within_monthly,
            BucketKind::QuarterYearly => self.keep_within_quarter_yearly,
            BucketKind::HalfYearly => self.keep_within_half_yearly,
            BucketKind::Yearly => self.keep_within_yearly,
        };
        let snsecs = sn.time.secs();
        let within = if w > u64::MAX - snsecs {
            true
        } else {
            snsecs + w > latest.secs()
        };
        let keep = c != 0 || within;
        if c > 0 {
            let c2 = c - 1;
            match kind {
                BucketKind::Last => self.keep_last = c2,
                BucketKind::Hourly => self.keep_hourly = c2,
                BucketKind::Daily => self.keep_daily = c2,
                BucketKind::Weekly => self.keep_weekly = c2,
                BucketKind::Monthly => self.keep_monthly = c2,
                BucketKind::QuarterYearly => self.keep_quarter_yearly = c2,
                BucketKind::HalfYearly => self.keep_half_yearly = c2,
                BucketKind::Yearly => self.keep_yearly = c2,
            }
        }
        keep
    }

    /// Decide whether any keep reason fires for one snapshot, consuming
    /// bucket counters; the snapshots of a group are visited newest first
    /// with `last` the previously visited one.
    pub fn matches(
        &mut self,
        sn: &SnapshotFile,
        last: Option<&SnapshotFile>,
        has_next: bool,
        latest_time: &Time,
    ) -> (keep: bool)
        requires
            sn.time.wf(),
            latest_time.wf(),
            last matches Some(l) ==> l.time.wf(),
        ensures
            ({
                let lt = match last {
                    Some(l) => Some(l.time),
                    None => None,
                };
                let m = spec_matches(
                    *old(self),
                    sn.id@,
                    sn.tags@,
                    sn.time,
                    lt,
                    has_next,
                    *latest_time,
                );
                keep == m.0 && *final(self) == m.1
            }),
    {
        let hex = sn.id.to_hex();
        let mut pinned = false;
        let mut i: usize = 0;
        while i < self.keep_ids.len()
            invariant
                i <= self.keep_ids@.len(),
                hex@ == hex_of_bytes(sn.id@),
                pinned == exists|j: int|
                    0 <= j < i && (#[trigger] self.keep_ids@[j]@).is_prefix_of(hex_of_bytes(
                        sn.id@,
                    )),
            decreases self.keep_ids@.len() - i,
        {
            if starts_with_chars(&hex, &self.keep_ids[i]) {
                proof {
                    assert(self.keep_ids@[i as int]@.is_prefix_of(hex_of_bytes(sn.id@)));
                }
                pinned = true;
            }
            i += 1;
        }
        proof {
            assert(pinned == spec_id_match(self.keep_ids.deep_view(), sn.id@)) by {
                assert(forall|j: int|
                    0 <= j < self.keep_ids@.len() ==> self.keep_ids.deep_view()[j]
                        == #[trigger] self.keep_ids@[j]@);
                if pinned {
                    let j = choose|j: int|
                        0 <= j < self.keep_ids@.len() && (#[trigger] self.keep_ids@[j]@)
                            .is_prefix_of(hex_of_bytes(sn.id@));
                    assert(self.keep_ids.deep_view()[j].is_prefix_of(hex_of_bytes(sn.id@)));
                }
                if spec_id_match(self.keep_ids.deep_view(), sn.id@) {
                    let j = choose|j: int|
                        0 <= j < self.keep_ids.deep_view().len() && (
                        #[trigger] self.keep_ids.deep_view()[j]).is_prefix_of(hex_of_bytes(sn.id@));
                    assert(self.keep_ids@[j]@.is_prefix_of(hex_of_bytes(sn.id@)));
                }
            }
        }
        if self.keep_tags.len() > 0 && sn.tags.matches(&self.keep_tags) {
            pinned = true;
        }
        let last_time = match last {
            Some(l) => Some(&l.time),
            None => None,
        };
        let k1 = self.bucket_step(BucketKind::Last, sn, last_time, has_next, latest_time);
        let k2 = self.bucket_step(BucketKind::Hourly, sn, last_time, has_next, latest_time);
        let k3 = self.bucket_step(BucketKind::Daily, sn, last_time, has_next, latest_time);
        let k4 = self.bucket_step(BucketKind::Weekly, sn, last_time, has_next, latest_time);
        let k5 = self.bucket_step(BucketKind::Monthly, sn, last_time, has_next, latest_time);
        let k6 = self.bucket_step(BucketKind::QuarterYearly, sn, last_time, has_next, latest_time);
        let k7 = self.bucket_step(BucketKind::HalfYearly, sn, last_time, has_next, latest_time);
        let k8 = self.bucket_step(BucketKind::Yearly, sn, last_time, has_next, latest_time);
        pinned || k1 || k2 || k3 || k4 || k5 || k6 || k7 || k8
    }
}

/// The decisions over a group from one snapshot on: true keeps, false
/// forgets.  A delete mark decides first; then, when ids were named on the
/// command line, every remaining snapshot is removed; else the policy
/// decides, and with no option set at all the default is to keep.
pub open spec fn spec_decide(
    opts: KeepOptions,
    snaps: Seq<SnapshotFile>,
    i: int,
    now: Time,
    latest: Time,
    remove_all: bool,
    default_keep: bool,
) -> (Seq<bool>, KeepOptions)
    decreases snaps.len() - i,
{
    if i < 0 || i >= snaps.len() {
        (Seq::empty(), opts)
    } else {
        let sn = snaps[i];
        let last = if i == 0 {
            None
        } else {
            Some(snaps[i - 1].time)
        };
        let has_next = i < snaps.len() - 1;
        if sn.spec_must_keep(now) {
            let rest = spec_decide(opts, snaps, i + 1, now, latest, remove_all, default_keep);
            (seq![true] + rest.0, rest.1)
        } else if sn.spec_must_delete(now) {
            let rest = spec_decide(opts, snaps, i + 1, now, latest, remove_all, default_keep);
            (seq![false] + rest.0, rest.1)
        } else if remove_all {
            let rest = spec_decide(opts, snaps, i + 1, now, latest, remove_all, default_keep);
            (seq![false] + rest.0, rest.1)
        } else {
            let m = spec_matches(opts, sn.id@, sn.tags@, sn.time, last, has_next, latest);
            let rest = spec_decide(m.1, snaps, i + 1, now, latest, remove_all, default_keep);
            (seq![m.0 || default_keep] + rest.0, rest.1)
        }
    }
}

/// Decide a whole group, newest first: true keeps the snapshot, false
/// forgets it.
pub fn decide_forget_group(
    opts: &mut KeepOptions,
    snapshots: &Vec<SnapshotFile>,
    now: &Time,
    remove_all: bool,
) -> (r: Vec<bool>)
    requires
        snapshots@.len() > 0,
        forall|i: int| 0 <= i < snapshots@.len() ==> (#[trigger] snapshots@[i]).time.wf(),
        forall|i: int|
            0 <= i < snapshots@.len() ==> ((#[trigger] snapshots@[i]).delete matches
            crate::snapshotfile::DeleteOption::After(t) ==> t.wf()),
        now.wf(),
    ensures
        ({
            let default_keep = !remove_all && old(opts).spec_is_default();
            let d = spec_decide(
                *old(opts),
                snapshots@,
                0,
                *now,
                snapshots@[0].time,
                remove_all,
                default_keep,
            );
            r@ == d.0 && *final(opts) == d.1
        }),
        r@.len() == snapshots@.len(),
{
    let default_keep = !remove_all && opts.is_default();
    let latest = snapshots[0].time;
    let ghost initial = *opts;
    let ghost dk = default_keep;
    let mut out: Vec<bool> = Vec::new();
    let mut i: usize = 0;
    while i < snapshots.len()
        invariant
            i <= snapshots@.len(),
            out@.len() == i,
            now.wf(),
            latest == snapshots@[0].time,
            latest.wf(),
            dk == default_keep,
            forall|k: int| 0 <= k < snapshots@.len() ==> (#[trigger] snapshots@[k]).time.wf(),
            forall|k: int|
                0 <= k < snapshots@.len() ==> ((#[trigger] snapshots@[k]).delete matches
                crate::snapshotfile::DeleteOption::After(t) ==> t.wf()),
            spec_decide(initial, snapshots@, 0, *now, latest, remove_all, dk) == {
                let rest = spec_decide(*opts, snapshots@, i as int, *now, latest, remove_all, dk);
                (out@ + rest.0, rest.1)
            },
        decreases snapshots@.len() - i,
    {
        let sn = &snapshots[i];
        let ghost pre = *opts;
        let decision: bool;
        if sn.must_keep(now) {
            decision = true;
        } else if sn.must_delete(now) {
            decision = false;
        } else if remove_all {
            decision = false;
        } else {
            let last = if i == 0 {
                None
            } else {
                Some(&snapshots[i - 1])
            };
            let has_next = i < snapshots.len() - 1;
            let kept = opts.matches(sn, last, has_next, &latest);
            decision = kept || default_keep;
        }
        let ghost out_old = out@;
        out.push(decision);
        proof {
            let rest_pre = spec_decide(pre, snapshots@, i as int, *now, latest, remove_all, dk);
            let rest_post = spec_decide(
                *opts,
                snapshots@,
                i as int + 1,
                *now,
                latest,
                remove_all,
                dk,
            );
            assert(rest_pre.0 =~= seq![decision] + rest_post.0);
            assert(rest_pre.1 == rest_post.1);
            assert(out@ =~= out_old.push(decision));
            assert(out_old + rest_pre.0 =~= out@ + rest_post.0);
        }
        i += 1;
    }
    proof {
        let rest = spec_decide(*opts, snapshots@, i as int, *now, latest, remove_all, dk);
        assert(rest.0 =~= Seq::<bool>::empty());
        assert(out@ + rest.0 =~= out@);
    }
    out
}


/// Lexicographic order on byte strings.
pub open spec fn bytes_le(x: Seq<u8>, y: Seq<u8>) -> bool
    decreases x.len(),
{
    if x.len() == 0 {
        true
    } else if y.len() == 0 {
        false
    } else {
        x[0] < y[0] || (x[0] == y[0] && bytes_le(x.skip(1), y.skip(1)))
    }
}

/// The lexicographic order is total.
proof fn lemma_bytes_le_total(x: Seq<u8>, y: Seq<u8>)
    ensures
        bytes_le(x, y) || bytes_le(y, x),
    decreases x.len(),
{
    if x.len() > 0 && y.len() > 0 && x[0] == y[0] {
        lemma_bytes_le_total(x.skip(1), y.skip(1));
    }
}

/// The lexicographic order is antisymmetric.
proof fn lemma_bytes_le_antisym(x: Seq<u8>, y: Seq<u8>)
    requires
        bytes_le(x, y),
        bytes_le(y, x),
    ensures
        x == y,
    decreases x.len(),
{
    if x.len() == 0 {
        assert(y.len() == 0);
        assert(x =~= y);
    } else {
        assert(y.len() > 0);
        assert(x[0] == y[0]);
        lemma_bytes_le_antisym(x.skip(1), y.skip(1));
        assert(x =~= seq![x[0]] + x.skip(1));
        assert(y =~= seq![y[0]] + y.skip(1));
    }
}

/// The lexicographic order is transitive.
proof fn lemma_bytes_le_trans(x: Seq<u8>, y: Seq<u8>, z: Seq<u8>)
    requires
        bytes_le(x, y),
        bytes_le(y, z),
    ensures
        bytes_le(x, z),
    decreases x.len(),
{
    if x.len() > 0 && y.len() > 0 && z.len() > 0 && x[0] == y[0] && y[0] == z[0] {
        lemma_bytes_le_trans(x.skip(1), y.skip(1), z.skip(1));
    }
}

/// The visiting order of a group: newest first, ties broken by id bytes.
pub open spec fn snap_le(a: SnapshotFile, b: SnapshotFile) -> bool {
    a.time.spec_secs() > b.time.spec_secs() || (a.time.spec_secs() == b.time.spec_secs()
        && bytes_le(a.id@, b.id@))
}

/// The visiting order as a relation value.
pub open spec fn snap_leq() -> spec_fn(SnapshotFile, SnapshotFile) -> bool {
    |a: SnapshotFile, b: SnapshotFile| snap_le(a, b)
}

/// Whether the snapshots of a sequence carry pairwise distinct keys: no
/// two distinct entries share both time and id.
pub open spec fn distinct_snap_keys(s: Seq<SnapshotFile>) -> bool {
    forall|x: SnapshotFile, y: SnapshotFile|
        s.contains(x) && s.contains(y) && (#[trigger] x.time).spec_secs() == (
        #[trigger] y.time).spec_secs() && x.id@ == y.id@ ==> x == y
}

/// Two sorted arrangements of the same snapshots are the same sequence.
proof fn lemma_sorted_snaps_unique(a: Seq<SnapshotFile>, b: Seq<SnapshotFile>)
    requires
        a.to_multiset() == b.to_multiset(),
        vstd::relations::sorted_by(a, snap_leq()),
        vstd::relations::sorted_by(b, snap_leq()),
        distinct_snap_keys(a),
    ensures
        a == b,
    decreases a.len(),
{
    broadcast use vstd::seq_lib::group_to_multiset_ensures;

    if a.len() == 0 {
        assert(b.to_multiset().len() == 0);
        assert(a =~= b);
    } else {
        assert(a.to_multiset().contains(a[0]));
        assert(b.to_multiset().len() > 0);
        assert(b.len() > 0);
        assert(b.to_multiset().contains(b[0]));
        assert(a.to_multiset().contains(b[0]));
        assert(a.contains(b[0]));
        assert(b.contains(a[0]));
        let i = choose|i: int| 0 <= i < a.len() && #[trigger] a[i] == b[0];
        let j = choose|j: int| 0 <= j < b.len() && #[trigger] b[j] == a[0];
        if i > 0 {
            assert(snap_leq()(a[0], a[i]));
        }
        if j > 0 {
            assert(snap_leq()(b[0], b[j]));
        }
        assert(snap_le(a[0], b[0]) || a[0] == b[0]);
        assert(snap_le(b[0], a[0]) || a[0] == b[0]);
        assert(a[0] == b[0]) by {
            if a[0] != b[0] {
                assert(snap_le(a[0], b[0]) && snap_le(b[0], a[0]));
                if a[0].time.spec_secs() == b[0].time.spec_secs() {
                    lemma_bytes_le_antisym(a[0].id@, b[0].id@);
                    assert(a.contains(a[0]));
                    assert(a[0] == b[0]);
                }
            }
        }
        assert(a.drop_first() =~= a.remove(0));
        assert(b.drop_first() =~= b.remove(0));
        assert(a.remove(0).to_multiset() =~= a.to_multiset().remove(a[0]));
        assert(b.remove(0).to_multiset() =~= b.to_multiset().remove(b[0]));
        assert(a.drop_first().to_multiset() =~= a.to_multiset().remove(a[0]));
        assert(b.drop_first().to_multiset() =~= b.to_multiset().remove(b[0]));
        assert forall|x: int, y: int| 0 <= x < y < a.drop_first().len() implies snap_leq()(
            a.drop_first()[x],
            a.drop_first()[y],
        ) by {
            assert(a.drop_first()[x] == a[x + 1]);
            assert(a.drop_first()[y] == a[y + 1]);
            assert(snap_leq()(a[x + 1], a[y + 1]));
        }
        assert forall|x: int, y: int| 0 <= x < y < b.drop_first().len() implies snap_leq()(
            b.drop_first()[x],
            b.drop_first()[y],
        ) by {
            assert(b.drop_first()[x] == b[x + 1]);
            assert(b.drop_first()[y] == b[y + 1]);
            assert(snap_leq()(b[x + 1], b[y + 1]));
        }
        assert(distinct_snap_keys(a.drop_first())) by {
            assert forall|x: SnapshotFile, y: SnapshotFile|
                a.drop_first().contains(x) && a.drop_first().contains(y) && (
                #[trigger] x.time).spec_secs() == (#[trigger] y.time).spec_secs() && x.id@
                    == y.id@ implies x == y by {
                let xi = choose|k: int| 0 <= k < a.drop_first().len() && #[trigger] a.drop_first()[k] == x;
                let yi = choose|k: int| 0 <= k < a.drop_first().len() && #[trigger] a.drop_first()[k] == y;
                assert(a[xi + 1] == x);
                assert(a[yi + 1] == y);
                assert(a.contains(x));
                assert(a.contains(y));
            }
        }
        lemma_sorted_snaps_unique(a.drop_first(), b.drop_first());
        assert(a =~= seq![a[0]] + a.drop_first());
        assert(b =~= seq![b[0]] + b.drop_first());
    }
}

/// Retention is independent of insertion order: however a group's
/// snapshots were gathered, sorting them newest-first (ties broken by id)
/// yields one sequence, so the forget decisions coincide.
pub proof fn lemma_retention_order_independent(
    a: Seq<SnapshotFile>,
    b: Seq<SnapshotFile>,
    opts: KeepOptions,
    now: Time,
    remove_all: bool,
    default_keep: bool,
)
    requires
        a.to_multiset() == b.to_multiset(),
        vstd::relations::sorted_by(a, snap_leq()),
        vstd::relations::sorted_by(b, snap_leq()),
        distinct_snap_keys(a),
        a.len() > 0,
    ensures
        a == b,
        spec_decide(opts, a, 0, now, a[0].time, remove_all, default_keep) == spec_decide(
            opts,
            b,
            0,
            now,
            b[0].time,
            remove_all,
            default_keep,
        ),
{
    lemma_sorted_snaps_unique(a, b);
}

} // verus!
