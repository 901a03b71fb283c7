//! Visualization summaries of recorded intervals.
//!
//! Pure reshaping of a workblock's (or a whole day's) intervals into an
//! ordered timeline, an activity breakdown grouped by normalized content,
//! and a phrase-frequency table. Durations are in minutes; a percentage is
//! a whole number of percent, and a total over an empty day is 0 rather
//! than an error.

use vstd::prelude::*;

use vstd::pervasive::VecAdditionalExecFns;

use crate::SLICE_LENGTH_MINUTES;
use crate::date::Date;
use crate::norm::{normalize, spec_normalize};
use crate::store::{Interval, Store, StoreError, Workblock, WorkblockStatus, has_workblock, intervals_for, spec_elapsed_minutes, spec_sort_workblocks, workblocks_with_date};

verus! {

/// One interval of one workblock's timeline.
#[derive(Clone, Debug, PartialEq)]
pub struct TimelineData {
    pub interval_number: i32,
    pub start_time: i64,
    pub end_time: Option<i64>,
    pub words: Option<String>,
    pub duration_minutes: i64,
    /// `Some(WorkblockStatus::Cancelled)` on the last retained interval
    /// of a cancelled workblock; `None` otherwise.
    pub workblock_status: Option<WorkblockStatus>,
}

/// Minutes and share of one normalized activity.
#[derive(Clone, Debug, PartialEq)]
pub struct ActivityData {
    pub words: String,
    pub total_minutes: i64,
    /// Whole percent of the summed minutes, 0 when nothing is summed.
    pub percentage: i64,
}

/// How often one normalized phrase was recorded.
#[derive(Clone, Debug, PartialEq)]
pub struct WordFrequency {
    pub word: String,
    pub count: i64,
}

/// The summaries of a single workblock.
#[derive(Clone, Debug, PartialEq)]
pub struct WorkblockVisualization {
    pub id: i64,
    pub timeline_data: Vec<TimelineData>,
    pub activity_data: Vec<ActivityData>,
    pub word_frequency: Vec<WordFrequency>,
}

/// One entry of a day's merged timeline.
#[derive(Clone, Debug, PartialEq)]
pub struct AggregateTimelineData {
    pub workblock_id: i64,
    pub interval_number: i32,
    pub start_time: i64,
    pub end_time: Option<i64>,
    pub words: Option<String>,
    pub duration_minutes: i64,
    /// `Some(WorkblockStatus::Cancelled)` on the last retained interval
    /// of a cancelled workblock; `None` otherwise.
    pub workblock_status: Option<WorkblockStatus>,
}

/// The merged summaries of one calendar date.
#[derive(Clone, Debug, PartialEq)]
pub struct DailyAggregate {
    pub total_workblocks: i64,
    pub total_minutes: i64,
    pub timeline_data: Vec<AggregateTimelineData>,
    pub activity_data: Vec<ActivityData>,
    pub word_frequency: Vec<WordFrequency>,
}

/// Per-workblock summaries beside the day-level aggregate.
#[derive(Clone, Debug, PartialEq)]
pub struct DailyVisualizationData {
    pub workblocks: Vec<WorkblockVisualization>,
    pub daily_aggregate: DailyAggregate,
}

/// `a + b` clamped into the `i64` range.
pub open spec fn spec_add_i64(a: int, b: int) -> int {
    if a + b > i64::MAX {
        i64::MAX as int
    } else if a + b < i64::MIN {
        i64::MIN as int
    } else {
        a + b
    }
}

/// `a + b` clamped into the `i64` range.
pub fn add_i64(a: i64, b: i64) -> (r: i64)
    ensures
        r as int == spec_add_i64(a as int, b as int),
{
    match a.checked_add(b) {
        Some(v) => v,
        None => if a > 0 {
            i64::MAX
        } else {
            i64::MIN
        },
    }
}

/// Duration of one interval in minutes: the elapsed time when it has an
/// end, otherwise the configured slice length.
pub open spec fn spec_interval_duration(iv: Interval) -> int {
    match iv.end_time {
        Some(e) => spec_elapsed_minutes(iv.start_time as int, e as int),
        None => SLICE_LENGTH_MINUTES as int,
    }
}

/// Duration of one interval in minutes.
pub fn interval_duration(iv: &Interval) -> (d: i64)
    ensures
        d as int == spec_interval_duration(*iv),
{
    match iv.end_time {
        Some(e) => crate::store::elapsed_minutes(iv.start_time, e) as i64,
        None => SLICE_LENGTH_MINUTES as i64,
    }
}

/// The activity key of one interval: its normalized content, if it has
/// content and the normalized form is nonempty.
pub open spec fn spec_interval_key(iv: Interval) -> Option<Seq<char>> {
    match iv.words {
        Some(w) => if spec_normalize(w@).len() > 0 {
            Some(spec_normalize(w@))
        } else {
            Option::None
        },
        None => Option::None,
    }
}

/// The distinct activity keys of the intervals, in order of first
/// appearance.
pub open spec fn activity_keys(ivs: Seq<Interval>) -> Seq<Seq<char>>
    decreases ivs.len(),
{
    if ivs.len() == 0 {
        Seq::empty()
    } else {
        let prev = activity_keys(ivs.drop_last());
        match spec_interval_key(ivs.last()) {
            Some(k) => if prev.contains(k) {
                prev
            } else {
                prev.push(k)
            },
            None => prev,
        }
    }
}

/// Summed minutes of the intervals whose activity key is `key`, clamped
/// into the `i64` range.
pub open spec fn activity_minutes(ivs: Seq<Interval>, key: Seq<char>) -> int
    decreases ivs.len(),
{
    if ivs.len() == 0 {
        0
    } else {
        let prev = activity_minutes(ivs.drop_last(), key);
        if spec_interval_key(ivs.last()) == Some(key) {
            spec_add_i64(prev, spec_interval_duration(ivs.last()))
        } else {
            prev
        }
    }
}

/// How many intervals carry the activity key `key`, clamped into the
/// `i64` range.
pub open spec fn phrase_count(ivs: Seq<Interval>, key: Seq<char>) -> int
    decreases ivs.len(),
{
    if ivs.len() == 0 {
        0
    } else {
        let prev = phrase_count(ivs.drop_last(), key);
        if spec_interval_key(ivs.last()) == Some(key) {
            spec_add_i64(prev, 1)
        } else {
            prev
        }
    }
}

/// Summed minutes of all keyed intervals, clamped into the `i64` range.
pub open spec fn total_activity_minutes(ivs: Seq<Interval>) -> int
    decreases ivs.len(),
{
    if ivs.len() == 0 {
        0
    } else {
        let prev = total_activity_minutes(ivs.drop_last());
        if spec_interval_key(ivs.last()) is Some {
            spec_add_i64(prev, spec_interval_duration(ivs.last()))
        } else {
            prev
        }
    }
}

/// `part` as a whole percentage of `total`; 0 when `total` is 0.
pub open spec fn spec_percentage(part: int, total: int) -> int {
    if total > 0 {
        part * 100 / total
    } else {
        0
    }
}

/// The activity keys are distinct.
pub proof fn lemma_activity_keys_distinct(ivs: Seq<Interval>)
    ensures
        forall|j1: int, j2: int|
            0 <= j1 < j2 < activity_keys(ivs).len() ==> activity_keys(ivs)[j1] != activity_keys(
                ivs,
            )[j2],
    decreases ivs.len(),
{
    if ivs.len() > 0 {
        lemma_activity_keys_distinct(ivs.drop_last());
        let prev = activity_keys(ivs.drop_last());
        let keys = activity_keys(ivs);
        if keys.len() == prev.len() + 1 {
            let k = keys.last();
            assert(!prev.contains(k));
            assert forall|j1: int, j2: int| 0 <= j1 < j2 < keys.len() implies keys[j1]
                != keys[j2] by {
                if j2 == prev.len() {
                    assert(prev[j1] == keys[j1]);
                    if prev[j1] == k {
                        assert(prev.contains(k));
                    }
                }
            }
        }
    }
}

/// A key that does not appear among the activity keys sums to nothing.
pub proof fn lemma_unkeyed_zero(ivs: Seq<Interval>, key: Seq<char>)
    requires
        !activity_keys(ivs).contains(key),
    ensures
        activity_minutes(ivs, key) == 0,
        phrase_count(ivs, key) == 0,
    decreases ivs.len(),
{
    if ivs.len() > 0 {
        let prev = activity_keys(ivs.drop_last());
        let keys = activity_keys(ivs);
        assert(!prev.contains(key)) by {
            if prev.contains(key) {
                let w = choose|i: int| 0 <= i < prev.len() && prev[i] == key;
                assert(keys[w] == key);
                assert(keys.contains(key));
            }
        }
        lemma_unkeyed_zero(ivs.drop_last(), key);
        if spec_interval_key(ivs.last()) == Some(key) {
            if prev.contains(key) {
            } else {
                assert(keys.last() == key);
                assert(keys.contains(key));
            }
        }
    }
}

/// Per-key minutes are nonnegative and never exceed the keyed total.
pub proof fn lemma_activity_minutes_bounds(ivs: Seq<Interval>, key: Seq<char>)
    ensures
        0 <= activity_minutes(ivs, key) <= total_activity_minutes(ivs) <= i64::MAX,
        0 <= phrase_count(ivs, key) <= i64::MAX,
    decreases ivs.len(),
{
    if ivs.len() > 0 {
        lemma_activity_minutes_bounds(ivs.drop_last(), key);
    }
}

/// The share of the whole that one key's minutes make, as a whole
/// percentage.
pub fn percentage_of(part: i64, total: i64) -> (r: i64)
    requires
        0 <= part <= total,
    ensures
        r as int == spec_percentage(part as int, total as int),
        0 <= r <= 100,
{
    if total > 0 {
        let w: i128 = (part as i128) * 100 / (total as i128);
        proof {
            let p = part as int;
            let t = total as int;
            assert(p * 100 / t <= 100) by (nonlinear_arith)
                requires
                    0 <= p <= t,
                    t > 0,
            ;
            assert(p * 100 / t >= 0) by (nonlinear_arith)
                requires
                    0 <= p,
                    t > 0,
            ;
        }
        w as i64
    } else {
        0
    }
}

/// Group the intervals by activity key, in order of first appearance:
/// per-key summed minutes with percentages, and per-key phrase counts.
/// Also returns the summed minutes of all keyed intervals.
fn build_activity_tables(ivs: &Vec<Interval>) -> (r: (Vec<ActivityData>, Vec<WordFrequency>, i64))
    ensures
        r.2 as int == total_activity_minutes(ivs@),
        r.0@.len() == activity_keys(ivs@).len(),
        r.1@.len() == activity_keys(ivs@).len(),
        forall|j: int|
            0 <= j < activity_keys(ivs@).len() ==> {
                &&& (#[trigger] r.0@[j]).words@ == activity_keys(ivs@)[j]
                &&& r.0@[j].total_minutes as int == activity_minutes(ivs@, activity_keys(ivs@)[j])
                &&& r.0@[j].percentage as int == spec_percentage(
                    activity_minutes(ivs@, activity_keys(ivs@)[j]),
                    total_activity_minutes(ivs@),
                )
            },
        forall|j: int|
            0 <= j < activity_keys(ivs@).len() ==> {
                &&& (#[trigger] r.1@[j]).word@ == activity_keys(ivs@)[j]
                &&& r.1@[j].count as int == phrase_count(ivs@, activity_keys(ivs@)[j])
            },
{
    let mut act: Vec<ActivityData> = Vec::new();
    let mut freq: Vec<WordFrequency> = Vec::new();
    let mut grand: i64 = 0;
    let mut i: usize = 0;
    proof {
        assert(ivs@.take(0) =~= Seq::<Interval>::empty());
    }
    while i < ivs.len()
        invariant
            i <= ivs@.len(),
            grand as int == total_activity_minutes(ivs@.take(i as int)),
            act@.len() == activity_keys(ivs@.take(i as int)).len(),
            freq@.len() == act@.len(),
            forall|j: int|
                0 <= j < act@.len() ==> {
                    &&& (#[trigger] act@[j]).words@ == activity_keys(ivs@.take(i as int))[j]
                    &&& act@[j].total_minutes as int == activity_minutes(
                        ivs@.take(i as int),
                        activity_keys(ivs@.take(i as int))[j],
                    )
                },
            forall|j: int|
                0 <= j < act@.len() ==> {
                    &&& (#[trigger] freq@[j]).word@ == activity_keys(ivs@.take(i as int))[j]
                    &&& freq@[j].count as int == phrase_count(
                        ivs@.take(i as int),
                        activity_keys(ivs@.take(i as int))[j],
                    )
                },
        decreases ivs@.len() - i,
    {
        let ghost prefix = ivs@.take(i as int);
        let ghost next = ivs@.take(i as int + 1);
        let ghost keys = activity_keys(prefix);
        proof {
            assert(next.drop_last() =~= prefix);
            assert(next.last() == ivs@[i as int]);
            lemma_activity_keys_distinct(prefix);
        }
        let iv = &ivs[i];
        let mut keyed = false;
        if let Some(w) = &iv.words {
            let key = normalize(w.as_str());
            if !key.as_str().is_empty() {
                keyed = true;
                let ghost k = spec_normalize(w@);
                assert(key@ == k);
                assert(spec_interval_key(ivs@[i as int]) == Some(k));
                let dur = interval_duration(iv);
                grand = add_i64(grand, dur);
                match find_bucket(&act, key.as_str()) {
                    Some(j) => {
                        proof {
                            assert(act@[j as int].words@ == key@);
                            assert(act@[j as int].words@ == activity_keys(ivs@.take(i as int))[j as int]);
                            assert(keys[j as int] == k);
                            assert(keys.contains(k));
                            assert(activity_keys(next) == keys);
                            assert forall|m: int| 0 <= m < keys.len() && m != j implies keys[m]
                                != k by {
                                assert(keys[j as int] == k);
                            }
                        }
                        let total = add_i64(act[j].total_minutes, dur);
                        let count = add_i64(freq[j].count, 1);
                        let words_copy = act[j].words.clone();
                        let word_copy = freq[j].word.clone();
                        act.set(
                            j,
                            ActivityData { words: words_copy, total_minutes: total, percentage: 0 },
                        );
                        freq.set(j, WordFrequency { word: word_copy, count });
                    },
                    None => {
                        proof {
                            assert forall|m: int| 0 <= m < keys.len() implies keys[m] != k by {
                                assert(act@[m].words@ == activity_keys(ivs@.take(i as int))[m]);
                                assert(act@[m].words@ != k);
                            }
                            assert(!keys.contains(k));
                            assert(activity_keys(next) == keys.push(k));
                            lemma_unkeyed_zero(prefix, k);
                        }
                        let word_copy = key.clone();
                        act.push(ActivityData { words: key, total_minutes: dur, percentage: 0 });
                        freq.push(WordFrequency { word: word_copy, count: 1 });
                    },
                }
            }
        }
        if !keyed {
            proof {
                assert(spec_interval_key(ivs@[i as int]) is None);
                assert(activity_keys(next) == keys);
            }
        }
        i += 1;
    }
    proof {
        assert(ivs@.take(i as int) =~= ivs@);
        assert(activity_keys(ivs@.take(i as int)) == activity_keys(ivs@));
    }
    // Fill in the percentages now that the grand total is known.
    let mut j: usize = 0;
    while j < act.len()
        invariant
            j <= act@.len(),
            grand as int == total_activity_minutes(ivs@),
            freq@.len() == act@.len(),
            act@.len() == activity_keys(ivs@).len(),
            forall|m: int|
                0 <= m < act@.len() ==> {
                    &&& (#[trigger] act@[m]).words@ == activity_keys(ivs@)[m]
                    &&& act@[m].total_minutes as int == activity_minutes(
                        ivs@,
                        activity_keys(ivs@)[m],
                    )
                },
            forall|m: int|
                0 <= m < act@.len() ==> {
                    &&& (#[trigger] freq@[m]).word@ == activity_keys(ivs@)[m]
                    &&& freq@[m].count as int == phrase_count(ivs@, activity_keys(ivs@)[m])
                },
            forall|m: int|
                0 <= m < j ==> (#[trigger] act@[m]).percentage as int == spec_percentage(
                    activity_minutes(ivs@, activity_keys(ivs@)[m]),
                    total_activity_minutes(ivs@),
                ),
        decreases act@.len() - j,
    {
        proof {
            lemma_activity_minutes_bounds(ivs@, activity_keys(ivs@)[j as int]);
        }
        let part = act[j].total_minutes;
        let pct = percentage_of(part, grand);
        let words_copy = act[j].words.clone();
        act.set(j, ActivityData { words: words_copy, total_minutes: part, percentage: pct });
        j += 1;
    }
    (act, freq, grand)
}

/// The intervals that started no later than `cutoff`, in order.
pub open spec fn spec_filter_retained(ivs: Seq<Interval>, cutoff: i64) -> Seq<Interval>
    decreases ivs.len(),
{
    if ivs.len() == 0 {
        Seq::empty()
    } else {
        let prev = spec_filter_retained(ivs.drop_last(), cutoff);
        if ivs.last().start_time <= cutoff {
            prev.push(ivs.last())
        } else {
            prev
        }
    }
}

/// The intervals a visualization keeps: all of them, except that a
/// cancelled workblock keeps only those that started no later than its
/// recorded end.
pub open spec fn spec_retained(wb: Workblock, ivs: Seq<Interval>) -> Seq<Interval> {
    match wb.end_time {
        Some(ct) => if wb.status is Cancelled {
            spec_filter_retained(ivs, ct)
        } else {
            ivs
        },
        None => ivs,
    }
}

/// The largest interval number among the intervals; 0 when there are
/// none.
pub open spec fn max_interval_number(ivs: Seq<Interval>) -> int
    decreases ivs.len(),
{
    if ivs.len() == 0 {
        0
    } else {
        let m = max_interval_number(ivs.drop_last());
        if ivs.last().interval_number as int > m {
            ivs.last().interval_number as int
        } else {
            m
        }
    }
}

/// Whether a timeline entry carries the cancelled mark: only the last
/// retained interval of a cancelled workblock does.
pub open spec fn spec_cancel_mark(wb: Workblock, retained: Seq<Interval>, iv: Interval) -> bool {
    wb.status is Cancelled && iv.interval_number as int == max_interval_number(retained)
}

/// The timeline entry of one retained interval.
pub open spec fn spec_timeline_entry(wb: Workblock, retained: Seq<Interval>, iv: Interval) -> TimelineData {
    TimelineData {
        interval_number: iv.interval_number,
        start_time: iv.start_time,
        end_time: iv.end_time,
        words: iv.words,
        duration_minutes: spec_interval_duration(iv) as i64,
        workblock_status: if spec_cancel_mark(wb, retained, iv) {
            Some(WorkblockStatus::Cancelled)
        } else {
            Option::None
        },
    }
}

/// The timeline of a workblock's retained intervals, in store order.
pub open spec fn spec_timeline(wb: Workblock, retained: Seq<Interval>) -> Seq<TimelineData> {
    Seq::new(retained.len(), |k: int| spec_timeline_entry(wb, retained, retained[k]))
}

/// The intervals that started no later than `cutoff`, in order.
fn filter_retained(ivs: Vec<Interval>, cutoff: i64) -> (r: Vec<Interval>)
    ensures
        r@ == spec_filter_retained(ivs@, cutoff),
{
    let mut out: Vec<Interval> = Vec::new();
    let mut i: usize = 0;
    proof {
        assert(ivs@.take(0) =~= Seq::<Interval>::empty());
    }
    while i < ivs.len()
        invariant
            i <= ivs@.len(),
            out@ == spec_filter_retained(ivs@.take(i as int), cutoff),
        decreases ivs@.len() - i,
    {
        proof {
            assert(ivs@.take(i as int + 1).drop_last() =~= ivs@.take(i as int));
            assert(ivs@.take(i as int + 1).last() == ivs@[i as int]);
        }
        if ivs[i].start_time <= cutoff {
            out.push(crate::store::copy_interval(&ivs[i]));
        }
        i += 1;
    }
    proof {
        assert(ivs@.take(i as int) =~= ivs@);
    }
    out
}

/// The largest interval number among the intervals.
fn max_interval_num(ivs: &Vec<Interval>) -> (m: i32)
    ensures
        m as int == max_interval_number(ivs@),
{
    let mut m: i32 = 0;
    let mut i: usize = 0;
    proof {
        assert(ivs@.take(0) =~= Seq::<Interval>::empty());
    }
    while i < ivs.len()
        invariant
            i <= ivs@.len(),
            m as int == max_interval_number(ivs@.take(i as int)),
        decreases ivs@.len() - i,
    {
        proof {
            assert(ivs@.take(i as int + 1).drop_last() =~= ivs@.take(i as int));
            assert(ivs@.take(i as int + 1).last() == ivs@[i as int]);
        }
        if ivs[i].interval_number > m {
            m = ivs[i].interval_number;
        }
        i += 1;
    }
    proof {
        assert(ivs@.take(i as int) =~= ivs@);
    }
    m
}

/// The timeline of a workblock's retained intervals.
fn build_timeline(wb: &Workblock, retained: &Vec<Interval>) -> (r: Vec<TimelineData>)
    ensures
        r@ == spec_timeline(*wb, retained@),
{
    let cancelled = matches!(wb.status, WorkblockStatus::Cancelled);
    let maxn = max_interval_num(retained);
    let mut out: Vec<TimelineData> = Vec::new();
    let mut i: usize = 0;
    while i < retained.len()
        invariant
            i <= retained@.len(),
            cancelled == wb.status is Cancelled,
            maxn as int == max_interval_number(retained@),
            out@.len() == i,
            forall|k: int|
                0 <= k < i ==> out@[k] == spec_timeline_entry(*wb, retained@, retained@[k]),
        decreases retained@.len() - i,
    {
        let iv = &retained[i];
        let mark = cancelled && iv.interval_number == maxn;
        let entry = TimelineData {
            interval_number: iv.interval_number,
            start_time: iv.start_time,
            end_time: iv.end_time,
            words: match &iv.words {
                Some(w) => Some(w.clone()),
                None => None,
            },
            duration_minutes: interval_duration(iv),
            workblock_status: if mark {
                Some(WorkblockStatus::Cancelled)
            } else {
                None
            },
        };
        out.push(entry);
        i += 1;
    }
    proof {
        assert(out@ =~= spec_timeline(*wb, retained@));
    }
    out
}

/// Everything the per-workblock summaries state, relative to the
/// workblock's row and its intervals in store order.
pub open spec fn workblock_viz_props(
    wb: Workblock,
    ivs: Seq<Interval>,
    v: WorkblockVisualization,
) -> bool {
    let retained = spec_retained(wb, ivs);
    &&& v.timeline_data@ == spec_timeline(wb, retained)
    &&& v.activity_data@.len() == activity_keys(retained).len()
    &&& v.word_frequency@.len() == activity_keys(retained).len()
    &&& forall|j: int|
        0 <= j < activity_keys(retained).len() ==> {
            &&& (#[trigger] v.activity_data@[j]).words@ == activity_keys(retained)[j]
            &&& v.activity_data@[j].total_minutes as int == activity_minutes(
                retained,
                activity_keys(retained)[j],
            )
            &&& v.activity_data@[j].percentage as int == spec_percentage(
                activity_minutes(retained, activity_keys(retained)[j]),
                total_activity_minutes(retained),
            )
        }
    &&& forall|j: int|
        0 <= j < activity_keys(retained).len() ==> {
            &&& (#[trigger] v.word_frequency@[j]).word@ == activity_keys(retained)[j]
            &&& v.word_frequency@[j].count as int == phrase_count(retained, activity_keys(retained)[j])
        }
}

/// The summaries of one workblock: its retained timeline (with the
/// cancelled mark on the last retained interval of a cancelled
/// workblock), its activity breakdown and its phrase frequencies.
pub fn generate_workblock_visualization(s: &Store, workblock_id: i64) -> (r: Result<
    WorkblockVisualization,
    StoreError,
>)
    requires
        s.wf(),
    ensures
        match r {
            Ok(v) => {
                &&& v.id == workblock_id
                &&& exists|wi: int|
                    {
                        &&& 0 <= wi < s.workblocks@.len()
                        &&& (#[trigger] s.workblocks@[wi]).id == Some(workblock_id)
                        &&& workblock_viz_props(
                            s.workblocks@[wi],
                            intervals_for(s.intervals@, workblock_id),
                            v,
                        )
                    }
            },
            Err(e) => {
                &&& e == StoreError::NotFound
                &&& !has_workblock(s.workblocks@, workblock_id)
            },
        },
{
    let wb = match crate::store::get_workblock_by_id(s, workblock_id) {
        Ok(wb) => wb,
        Err(e) => {
            return Err(e);
        },
    };
    let ivs = match crate::store::get_intervals_by_workblock(s, workblock_id) {
        Ok(ivs) => ivs,
        Err(e) => {
            return Err(e);
        },
    };
    let retained = match (matches!(wb.status, WorkblockStatus::Cancelled), wb.end_time) {
        (true, Some(ct)) => filter_retained(ivs, ct),
        _ => ivs,
    };
    let timeline = build_timeline(&wb, &retained);
    let tables = build_activity_tables(&retained);
    let v = WorkblockVisualization {
        id: workblock_id,
        timeline_data: timeline,
        activity_data: tables.0,
        word_frequency: tables.1,
    };
    proof {
        let wi = choose|i: int| 0 <= i < s.workblocks@.len() && s.workblocks@[i] == wb;
        assert(s.workblocks@[wi].id == Some(workblock_id));
        assert(retained@ == spec_retained(wb, intervals_for(s.intervals@, workblock_id)));
        assert(workblock_viz_props(wb, intervals_for(s.intervals@, workblock_id), v));
    }
    Ok(v)
}

/// The id a workblock row carries; rows without an id own nothing.
pub open spec fn wb_id_of(wb: Workblock) -> i64 {
    match wb.id {
        Some(id) => id,
        None => 0,
    }
}

/// The retained intervals of one workblock, drawn from the whole interval
/// table.
pub open spec fn wb_retained(wb: Workblock, all_ivs: Seq<Interval>) -> Seq<Interval> {
    match wb.id {
        Some(id) => spec_retained(wb, intervals_for(all_ivs, id)),
        None => Seq::empty(),
    }
}

/// The merged-timeline entry of one retained interval.
pub open spec fn spec_agg_entry(
    wb: Workblock,
    retained: Seq<Interval>,
    iv: Interval,
) -> AggregateTimelineData {
    AggregateTimelineData {
        workblock_id: wb_id_of(wb),
        interval_number: iv.interval_number,
        start_time: iv.start_time,
        end_time: iv.end_time,
        words: iv.words,
        duration_minutes: spec_interval_duration(iv) as i64,
        workblock_status: if spec_cancel_mark(wb, retained, iv) {
            Some(WorkblockStatus::Cancelled)
        } else {
            Option::None
        },
    }
}

/// The merged-timeline entries of one workblock, in store order.
pub open spec fn wb_agg_entries(wb: Workblock, all_ivs: Seq<Interval>) -> Seq<
    AggregateTimelineData,
> {
    Seq::new(
        wb_retained(wb, all_ivs).len(),
        |k: int| spec_agg_entry(wb, wb_retained(wb, all_ivs), wb_retained(wb, all_ivs)[k]),
    )
}

/// The merged-timeline entries of the given workblocks, in workblock
/// order.
pub open spec fn agg_entries(wbs: Seq<Workblock>, all_ivs: Seq<Interval>) -> Seq<
    AggregateTimelineData,
>
    decreases wbs.len(),
{
    if wbs.len() == 0 {
        Seq::empty()
    } else {
        agg_entries(wbs.drop_last(), all_ivs) + wb_agg_entries(wbs.last(), all_ivs)
    }
}

/// The retained intervals of the given workblocks, flattened in workblock
/// order.
pub open spec fn day_retained(wbs: Seq<Workblock>, all_ivs: Seq<Interval>) -> Seq<Interval>
    decreases wbs.len(),
{
    if wbs.len() == 0 {
        Seq::empty()
    } else {
        day_retained(wbs.drop_last(), all_ivs) + wb_retained(wbs.last(), all_ivs)
    }
}

/// Where a merged-timeline entry belongs in a start-time-ordered
/// sequence: before the first entry that starts strictly later.
pub open spec fn spec_entry_insert_pos(sorted: Seq<AggregateTimelineData>, x: AggregateTimelineData) -> int
    decreases sorted.len(),
{
    if sorted.len() == 0 {
        0
    } else if sorted.first().start_time <= x.start_time {
        1 + spec_entry_insert_pos(sorted.drop_first(), x)
    } else {
        0
    }
}

/// The merged timeline reordered by ascending start time (insertion
/// order kept between equal start times).
pub open spec fn spec_sort_entries(es: Seq<AggregateTimelineData>) -> Seq<AggregateTimelineData>
    decreases es.len(),
{
    if es.len() == 0 {
        Seq::empty()
    } else {
        let sorted = spec_sort_entries(es.drop_last());
        sorted.insert(spec_entry_insert_pos(sorted, es.last()), es.last())
    }
}

/// The merged timeline is in ascending start-time order.
pub open spec fn entries_sorted(es: Seq<AggregateTimelineData>) -> bool {
    forall|i: int, j: int| 0 <= i < j < es.len() ==> es[i].start_time <= es[j].start_time
}

/// The entry insert position is in range and splits by start time.
pub proof fn lemma_entry_insert_pos(sorted: Seq<AggregateTimelineData>, x: AggregateTimelineData)
    ensures
        0 <= spec_entry_insert_pos(sorted, x) <= sorted.len(),
        forall|i: int|
            0 <= i < spec_entry_insert_pos(sorted, x) ==> (#[trigger] sorted[i]).start_time
                <= x.start_time,
        spec_entry_insert_pos(sorted, x) < sorted.len() ==> sorted[spec_entry_insert_pos(
            sorted,
            x,
        )].start_time > x.start_time,
    decreases sorted.len(),
{
    if sorted.len() > 0 && sorted.first().start_time <= x.start_time {
        lemma_entry_insert_pos(sorted.drop_first(), x);
        let p = spec_entry_insert_pos(sorted, x);
        assert forall|i: int| 0 <= i < p implies (#[trigger] sorted[i]).start_time
            <= x.start_time by {
            if i > 0 {
                assert(sorted.drop_first()[i - 1] == sorted[i]);
                assert(sorted.drop_first()[i - 1].start_time <= x.start_time);
            }
        }
        if p < sorted.len() {
            assert(sorted.drop_first()[p - 1] == sorted[p]);
        }
    }
}

/// Sorting the merged timeline keeps its entries and orders them by
/// start time.
pub proof fn lemma_sort_entries_props(es: Seq<AggregateTimelineData>)
    ensures
        spec_sort_entries(es).len() == es.len(),
        spec_sort_entries(es).to_multiset() == es.to_multiset(),
        entries_sorted(spec_sort_entries(es)),
    decreases es.len(),
{
    broadcast use vstd::seq_lib::group_seq_lib_default;

    if es.len() == 0 {
        assert(es =~= Seq::<AggregateTimelineData>::empty());
    } else {
        let prefix = es.drop_last();
        let x = es.last();
        lemma_sort_entries_props(prefix);
        let sorted = spec_sort_entries(prefix);
        let p = spec_entry_insert_pos(sorted, x);
        lemma_entry_insert_pos(sorted, x);
        let out = sorted.insert(p, x);
        assert(out.to_multiset() =~= es.to_multiset()) by {
            vstd::seq_lib::to_multiset_insert(sorted, p, x);
            assert(prefix.push(x) =~= es);
            prefix.to_multiset_ensures();
            assert(prefix.push(x).to_multiset() =~= prefix.to_multiset().insert(x));
            assert(out.to_multiset() == sorted.to_multiset().insert(x));
        }
        assert(spec_sort_entries(es) == out);
        assert(out.to_multiset() == es.to_multiset());
        assert forall|i: int, j: int| 0 <= i < j < out.len() implies out[i].start_time
            <= out[j].start_time by {
            if i < p && j == p {
                assert(out[i] == sorted[i]);
            } else if i == p && j > p {
                assert(out[j] == sorted[j - 1]);
            }
        }
    }
}

/// Planned minutes of the given workblocks summed, clamped into the
/// `i64` range; a workblock without a recorded duration counts 0.
pub open spec fn total_planned_minutes(wbs: Seq<Workblock>) -> int
    decreases wbs.len(),
{
    if wbs.len() == 0 {
        0
    } else {
        spec_add_i64(
            total_planned_minutes(wbs.drop_last()),
            match wbs.last().duration_minutes {
                Some(d) => d as int,
                None => 0,
            },
        )
    }
}

/// A count clamped into the `i64` range.
pub open spec fn spec_count_i64(n: int) -> int {
    if n > i64::MAX {
        i64::MAX as int
    } else {
        n
    }
}

/// Everything the day-level aggregate states, relative to the workblock
/// and interval tables.
pub open spec fn daily_aggregate_props(
    wbs: Seq<Workblock>,
    all_ivs: Seq<Interval>,
    date: Date,
    agg: DailyAggregate,
) -> bool {
    let sorted = spec_sort_workblocks(workblocks_with_date(wbs, date));
    let flat = day_retained(sorted, all_ivs);
    &&& agg.total_workblocks as int == spec_count_i64(sorted.len() as int)
    &&& agg.total_minutes as int == total_planned_minutes(sorted)
    &&& agg.timeline_data@ == spec_sort_entries(agg_entries(sorted, all_ivs))
    &&& agg.activity_data@.len() == activity_keys(flat).len()
    &&& agg.word_frequency@.len() == activity_keys(flat).len()
    &&& forall|j: int|
        0 <= j < activity_keys(flat).len() ==> {
            &&& (#[trigger] agg.activity_data@[j]).words@ == activity_keys(flat)[j]
            &&& agg.activity_data@[j].total_minutes as int == activity_minutes(
                flat,
                activity_keys(flat)[j],
            )
            &&& agg.activity_data@[j].percentage as int == spec_percentage(
                activity_minutes(flat, activity_keys(flat)[j]),
                total_activity_minutes(flat),
            )
        }
    &&& forall|j: int|
        0 <= j < activity_keys(flat).len() ==> {
            &&& (#[trigger] agg.word_frequency@[j]).word@ == activity_keys(flat)[j]
            &&& agg.word_frequency@[j].count as int == phrase_count(flat, activity_keys(flat)[j])
        }
}

/// The retained intervals of one listed workblock, in store order.
fn workblock_retained(s: &Store, wb: &Workblock) -> (r: Vec<Interval>)
    requires
        s.wf(),
    ensures
        r@ == wb_retained(*wb, s.intervals@),
{
    match wb.id {
        Some(id) => {
            let ivs = match crate::store::get_intervals_by_workblock(s, id) {
                Ok(ivs) => ivs,
                Err(_) => {
                    return Vec::new();
                },
            };
            match (matches!(wb.status, WorkblockStatus::Cancelled), wb.end_time) {
                (true, Some(ct)) => filter_retained(ivs, ct),
                _ => ivs,
            }
        },
        None => Vec::new(),
    }
}

/// Where the merged-timeline entry belongs in the start-time-ordered
/// vector.
fn entry_insert_position(sorted: &Vec<AggregateTimelineData>, x: &AggregateTimelineData) -> (p:
    usize)
    ensures
        p as int == spec_entry_insert_pos(sorted@, *x),
        p <= sorted@.len(),
{
    let mut p: usize = 0;
    proof {
        assert(sorted@.skip(0) =~= sorted@);
    }
    while p < sorted.len() && sorted[p].start_time <= x.start_time
        invariant
            p <= sorted@.len(),
            spec_entry_insert_pos(sorted@, *x) == p + spec_entry_insert_pos(
                sorted@.skip(p as int),
                *x,
            ),
        decreases sorted@.len() - p,
    {
        proof {
            assert(sorted@.skip(p as int).first() == sorted@[p as int]);
            assert(sorted@.skip(p as int).drop_first() =~= sorted@.skip(p as int + 1));
        }
        p += 1;
    }
    proof {
        if p < sorted@.len() {
            assert(sorted@.skip(p as int).first() == sorted@[p as int]);
        }
        assert(spec_entry_insert_pos(sorted@.skip(p as int), *x) == 0);
    }
    p
}

/// The day-level aggregate of one calendar date: planned totals, the
/// merged start-time-ordered timeline of every retained interval, and
/// activity/phrase tables over the whole day.
pub fn generate_daily_aggregate(s: &Store, date: Date) -> (r: Result<DailyAggregate, StoreError>)
    requires
        s.wf(),
    ensures
        r matches Ok(agg) && daily_aggregate_props(s.workblocks@, s.intervals@, date, agg),
{
    let wbs = match crate::store::get_workblocks_by_date(s, date) {
        Ok(wbs) => wbs,
        Err(_) => {
            return Err(StoreError::NotFound);
        },
    };
    let mut flat: Vec<Interval> = Vec::new();
    let mut timeline: Vec<AggregateTimelineData> = Vec::new();
    let mut planned: i64 = 0;
    let mut wi: usize = 0;
    proof {
        assert(wbs@.take(0) =~= Seq::<Workblock>::empty());
    }
    while wi < wbs.len()
        invariant
            s.wf(),
            wi <= wbs@.len(),
            flat@ == day_retained(wbs@.take(wi as int), s.intervals@),
            timeline@ == spec_sort_entries(agg_entries(wbs@.take(wi as int), s.intervals@)),
            planned as int == total_planned_minutes(wbs@.take(wi as int)),
        decreases wbs@.len() - wi,
    {
        let ghost wprefix = wbs@.take(wi as int);
        proof {
            assert(wbs@.take(wi as int + 1).drop_last() =~= wprefix);
            assert(wbs@.take(wi as int + 1).last() == wbs@[wi as int]);
        }
        let wb = wbs[wi];
        let retained = workblock_retained(s, &wb);
        let cancelled = matches!(wb.status, WorkblockStatus::Cancelled);
        let maxn = max_interval_num(&retained);
        let ghost entries = wb_agg_entries(wb, s.intervals@);
        let mut k: usize = 0;
        proof {
            assert(agg_entries(wprefix, s.intervals@) + entries.take(0) =~= agg_entries(
                wprefix,
                s.intervals@,
            ));
            assert(flat@ + retained@.take(0) =~= flat@);
        }
        while k < retained.len()
            invariant
                s.wf(),
                k <= retained@.len(),
                cancelled == wb.status is Cancelled,
                maxn as int == max_interval_number(retained@),
                retained@ == wb_retained(wb, s.intervals@),
                entries == wb_agg_entries(wb, s.intervals@),
                flat@ == day_retained(wprefix, s.intervals@) + retained@.take(k as int),
                timeline@ == spec_sort_entries(
                    agg_entries(wprefix, s.intervals@) + entries.take(k as int),
                ),
            decreases retained@.len() - k,
        {
            let iv = &retained[k];
            let mark = cancelled && iv.interval_number == maxn;
            let entry = AggregateTimelineData {
                workblock_id: match wb.id {
                    Some(id) => id,
                    None => 0,
                },
                interval_number: iv.interval_number,
                start_time: iv.start_time,
                end_time: iv.end_time,
                words: match &iv.words {
                    Some(w) => Some(w.clone()),
                    None => None,
                },
                duration_minutes: interval_duration(iv),
                workblock_status: if mark {
                    Some(WorkblockStatus::Cancelled)
                } else {
                    None
                },
            };
            proof {
                assert(entry == entries[k as int]);
                let base = agg_entries(wprefix, s.intervals@);
                assert((base + entries.take(k as int + 1)).drop_last() =~= base + entries.take(
                    k as int,
                ));
                assert((base + entries.take(k as int + 1)).last() == entries[k as int]);
                assert(flat@.push(retained@[k as int]) =~= day_retained(wprefix, s.intervals@)
                    + retained@.take(k as int + 1));
            }
            let p = entry_insert_position(&timeline, &entry);
            timeline.insert(p, entry);
            flat.push(crate::store::copy_interval(iv));
            k += 1;
        }
        proof {
            let base = agg_entries(wprefix, s.intervals@);
            assert(base + entries.take(k as int) =~= base + entries);
            assert(agg_entries(wbs@.take(wi as int + 1), s.intervals@) == base + entries);
            assert(retained@.take(k as int) =~= retained@);
            assert(day_retained(wbs@.take(wi as int + 1), s.intervals@) == day_retained(
                wprefix,
                s.intervals@,
            ) + retained@);
        }
        planned = add_i64(
            planned,
            match wb.duration_minutes {
                Some(d) => d as i64,
                None => 0,
            },
        );
        wi += 1;
    }
    proof {
        assert(wbs@.take(wi as int) =~= wbs@);
    }
    let tables = build_activity_tables(&flat);
    let n = wbs.len();
    let total_workblocks: i64 = if n as u64 > i64::MAX as u64 {
        i64::MAX
    } else {
        n as i64
    };
    Ok(
        DailyAggregate {
            total_workblocks,
            total_minutes: planned,
            timeline_data: timeline,
            activity_data: tables.0,
            word_frequency: tables.1,
        },
    )
}

/// Everything the whole-day visualization states: the day-level
/// aggregate, and one per-workblock summary for each workblock of the
/// date that carries an id, in ascending start-time order.
pub open spec fn daily_viz_props(
    wbs: Seq<Workblock>,
    all_ivs: Seq<Interval>,
    date: Date,
    d: DailyVisualizationData,
) -> bool {
    let sorted = spec_sort_workblocks(workblocks_with_date(wbs, date));
    &&& daily_aggregate_props(wbs, all_ivs, date, d.daily_aggregate)
    &&& d.workblocks@.len() == ids_of(sorted).len()
    &&& forall|k: int|
        0 <= k < ids_of(sorted).len() ==> {
            &&& (#[trigger] d.workblocks@[k]).id == ids_of(sorted)[k]
            &&& exists|wi: int|
                {
                    &&& 0 <= wi < wbs.len()
                    &&& (#[trigger] wbs[wi]).id == Some(d.workblocks@[k].id)
                    &&& workblock_viz_props(
                        wbs[wi],
                        intervals_for(all_ivs, d.workblocks@[k].id),
                        d.workblocks@[k],
                    )
                }
        }
}

/// The ids the given workblocks carry, in order, skipping rows without
/// one.
pub open spec fn ids_of(wbs: Seq<Workblock>) -> Seq<i64>
    decreases wbs.len(),
{
    if wbs.len() == 0 {
        Seq::empty()
    } else {
        let prev = ids_of(wbs.drop_last());
        match wbs.last().id {
            Some(id) => prev.push(id),
            None => prev,
        }
    }
}

/// A workblock listed for a date is one of the given rows.
proof fn lemma_with_date_membership(wbs: Seq<Workblock>, date: Date, x: Workblock)
    requires
        crate::store::workblocks_with_date(wbs, date).contains(x),
    ensures
        wbs.contains(x),
    decreases wbs.len(),
{
    if wbs.len() > 0 {
        let prev = crate::store::workblocks_with_date(wbs.drop_last(), date);
        let cur = crate::store::workblocks_with_date(wbs, date);
        let i = choose|i: int| 0 <= i < cur.len() && cur[i] == x;
        if wbs.last().date == date && i == prev.len() {
            assert(wbs[wbs.len() - 1] == x);
        } else {
            assert(prev[i] == x);
            assert(prev.contains(x));
            lemma_with_date_membership(wbs.drop_last(), date, x);
            let j = choose|j: int| 0 <= j < wbs.drop_last().len() && wbs.drop_last()[j] == x;
            assert(wbs[j] == x);
        }
    }
}

/// A workblock in the sorted day listing is a row of the store's
/// workblock table.
proof fn lemma_sorted_day_membership(wbs: Seq<Workblock>, date: Date, x: Workblock)
    requires
        spec_sort_workblocks(crate::store::workblocks_with_date(wbs, date)).contains(x),
    ensures
        wbs.contains(x),
{
    broadcast use vstd::seq_lib::group_to_multiset_ensures;

    let fd = crate::store::workblocks_with_date(wbs, date);
    crate::store::lemma_sort_workblocks_props(fd);
    assert(spec_sort_workblocks(fd).to_multiset().count(x) > 0);
    assert(fd.to_multiset().count(x) > 0);
    assert(fd.contains(x));
    lemma_with_date_membership(wbs, date, x);
}

/// The day-level aggregate's merged timeline is chronologically sorted:
/// ascending by interval start time.
pub proof fn lemma_daily_timeline_sorted(
    wbs: Seq<Workblock>,
    all_ivs: Seq<Interval>,
    date: Date,
    agg: DailyAggregate,
)
    requires
        daily_aggregate_props(wbs, all_ivs, date, agg),
    ensures
        entries_sorted(agg.timeline_data@),
{
    let sorted = spec_sort_workblocks(workblocks_with_date(wbs, date));
    lemma_sort_entries_props(agg_entries(sorted, all_ivs));
}

/// The whole-day visualization: per-workblock summaries beside the
/// day-level aggregate.
pub fn generate_daily_visualization_data(s: &Store, date: Date) -> (r: Result<
    DailyVisualizationData,
    StoreError,
>)
    requires
        s.wf(),
    ensures
        r matches Ok(d) && daily_viz_props(s.workblocks@, s.intervals@, date, d),
{
    let wbs = match crate::store::get_workblocks_by_date(s, date) {
        Ok(wbs) => wbs,
        Err(_) => {
            return Err(StoreError::NotFound);
        },
    };
    let mut vizzes: Vec<WorkblockVisualization> = Vec::new();
    let mut wi: usize = 0;
    proof {
        assert(wbs@.take(0) =~= Seq::<Workblock>::empty());
    }
    while wi < wbs.len()
        invariant
            s.wf(),
            wi <= wbs@.len(),
            wbs@ == spec_sort_workblocks(workblocks_with_date(s.workblocks@, date)),
            vizzes@.len() == ids_of(wbs@.take(wi as int)).len(),
            forall|k: int|
                0 <= k < vizzes@.len() ==> {
                    &&& (#[trigger] vizzes@[k]).id == ids_of(wbs@.take(wi as int))[k]
                    &&& exists|j: int|
                        {
                            &&& 0 <= j < s.workblocks@.len()
                            &&& (#[trigger] s.workblocks@[j]).id == Some(vizzes@[k].id)
                            &&& workblock_viz_props(
                                s.workblocks@[j],
                                intervals_for(s.intervals@, vizzes@[k].id),
                                vizzes@[k],
                            )
                        }
                },
        decreases wbs@.len() - wi,
    {
        proof {
            assert(wbs@.take(wi as int + 1).drop_last() =~= wbs@.take(wi as int));
            assert(wbs@.take(wi as int + 1).last() == wbs@[wi as int]);
        }
        let wb = wbs[wi];
        proof {
            assert(wbs@.contains(wbs@[wi as int]));
            lemma_sorted_day_membership(s.workblocks@, date, wbs@[wi as int]);
            let j = choose|j: int| 0 <= j < s.workblocks@.len() && s.workblocks@[j] == wb;
            if wb.id is Some {
                assert(s.workblocks@[j].id == wb.id);
                assert(has_workblock(s.workblocks@, wb.id->0));
            }
        }
        if let Some(id) = wb.id {
            match generate_workblock_visualization(s, id) {
                Ok(v) => {
                    vizzes.push(v);
                },
                Err(_) => {
                    proof {
                        assert(false);
                    }
                },
            }
        }
        wi += 1;
    }
    proof {
        assert(wbs@.take(wi as int) =~= wbs@);
    }
    let aggregate = match generate_daily_aggregate(s, date) {
        Ok(a) => a,
        Err(_) => {
            return Err(StoreError::NotFound);
        },
    };
    Ok(DailyVisualizationData { workblocks: vizzes, daily_aggregate: aggregate })
}

/// The two per-workblock summaries hold the same data (their tables
/// compared element by element).
pub open spec fn wb_viz_eq(a: WorkblockVisualization, b: WorkblockVisualization) -> bool {
    &&& a.id == b.id
    &&& a.timeline_data@ == b.timeline_data@
    &&& a.activity_data@ == b.activity_data@
    &&& a.word_frequency@ == b.word_frequency@
}

/// The two day-level aggregates hold the same data.
pub open spec fn daily_agg_eq(a: DailyAggregate, b: DailyAggregate) -> bool {
    &&& a.total_workblocks == b.total_workblocks
    &&& a.total_minutes == b.total_minutes
    &&& a.timeline_data@ == b.timeline_data@
    &&& a.activity_data@ == b.activity_data@
    &&& a.word_frequency@ == b.word_frequency@
}

/// The two whole-day visualizations hold the same data.
pub open spec fn daily_viz_eq(a: DailyVisualizationData, b: DailyVisualizationData) -> bool {
    &&& a.workblocks@.len() == b.workblocks@.len()
    &&& forall|k: int|
        0 <= k < a.workblocks@.len() ==> wb_viz_eq(
            #[trigger] a.workblocks@[k],
            b.workblocks@[k],
        )
    &&& daily_agg_eq(a.daily_aggregate, b.daily_aggregate)
}

/// Index of the activity bucket whose key is `key`, if one exists.
fn find_bucket(act: &Vec<ActivityData>, key: &str) -> (r: Option<usize>)
    ensures
        match r {
            Some(j) => j < act@.len() && act@[j as int].words@ == key@,
            None => forall|m: int| 0 <= m < act@.len() ==> (#[trigger] act@[m]).words@ != key@,
        },
{
    let mut j: usize = 0;
    while j < act.len()
        invariant
            j <= act@.len(),
            forall|m: int| 0 <= m < j ==> (#[trigger] act@[m]).words@ != key@,
        decreases act@.len() - j,
    {
        if crate::norm::str_eq(act[j].words.as_str(), key) {
            return Some(j);
        }
        j += 1;
    }
    None
}

} // verus!
