//! The durable record of workblocks, intervals and daily archives.
//!
//! [`Store`] is the in-memory table set the rest of the library works
//! against: rows are held in insertion order and identifiers are assigned
//! from per-table counters, exactly as an autoincrement key would. The
//! store's well-formedness [`Store::wf`] carries the two data invariants
//! the design rests on: at most one workblock is ever Active, and the
//! intervals of each workblock are numbered contiguously from 1.
//!
//! Every mutating operation takes the clock readings it needs (`date`,
//! `now`) as explicit arguments, so its behaviour is specified and checked
//! for every possible time.

use vstd::prelude::*;

use vstd::pervasive::VecAdditionalExecFns;

use crate::date::Date;
use crate::viz::DailyVisualizationData;

verus! {

/// Lifecycle state of a workblock.
#[derive(Clone, Copy, Debug, PartialEq, Eq, Structural)]
pub enum WorkblockStatus {
    Active,
    Completed,
    Cancelled,
}

/// Outcome of one interval.
#[derive(Clone, Copy, Debug, PartialEq, Eq, Structural)]
pub enum IntervalStatus {
    Pending,
    Recorded,
    AutoAway,
}

/// The stored text form of a workblock status.
pub open spec fn spec_workblock_status_str(s: WorkblockStatus) -> Seq<char> {
    match s {
        WorkblockStatus::Active => "active"@,
        WorkblockStatus::Completed => "completed"@,
        WorkblockStatus::Cancelled => "cancelled"@,
    }
}

/// The workblock status a stored text denotes; unknown text reads as
/// Active.
pub open spec fn spec_workblock_status_from(s: Seq<char>) -> WorkblockStatus {
    if s == "active"@ {
        WorkblockStatus::Active
    } else if s == "completed"@ {
        WorkblockStatus::Completed
    } else if s == "cancelled"@ {
        WorkblockStatus::Cancelled
    } else {
        WorkblockStatus::Active
    }
}

impl WorkblockStatus {
    /// The stored text form of the status.
    pub fn as_str(&self) -> (r: &'static str)
        ensures
            r@ == spec_workblock_status_str(*self),
    {
        match self {
            WorkblockStatus::Active => "active",
            WorkblockStatus::Completed => "completed",
            WorkblockStatus::Cancelled => "cancelled",
        }
    }

    /// The status the stored text denotes; unknown text reads as Active.
    pub fn from_str(s: &str) -> (r: Self)
        ensures
            r == spec_workblock_status_from(s@),
    {
        if crate::norm::str_eq(s, "active") {
            WorkblockStatus::Active
        } else if crate::norm::str_eq(s, "completed") {
            WorkblockStatus::Completed
        } else if crate::norm::str_eq(s, "cancelled") {
            WorkblockStatus::Cancelled
        } else {
            WorkblockStatus::Active
        }
    }
}

/// The stored text form of an interval status.
pub open spec fn spec_interval_status_str(s: IntervalStatus) -> Seq<char> {
    match s {
        IntervalStatus::Pending => "pending"@,
        IntervalStatus::Recorded => "recorded"@,
        IntervalStatus::AutoAway => "auto_away"@,
    }
}

/// The interval status a stored text denotes; unknown text reads as
/// Pending.
pub open spec fn spec_interval_status_from(s: Seq<char>) -> IntervalStatus {
    if s == "pending"@ {
        IntervalStatus::Pending
    } else if s == "recorded"@ {
        IntervalStatus::Recorded
    } else if s == "auto_away"@ {
        IntervalStatus::AutoAway
    } else {
        IntervalStatus::Pending
    }
}

impl IntervalStatus {
    /// The stored text form of the status.
    pub fn as_str(&self) -> (r: &'static str)
        ensures
            r@ == spec_interval_status_str(*self),
    {
        match self {
            IntervalStatus::Pending => "pending",
            IntervalStatus::Recorded => "recorded",
            IntervalStatus::AutoAway => "auto_away",
        }
    }

    /// The status the stored text denotes; unknown text reads as Pending.
    pub fn from_str(s: &str) -> (r: Self)
        ensures
            r == spec_interval_status_from(s@),
    {
        if crate::norm::str_eq(s, "pending") {
            IntervalStatus::Pending
        } else if crate::norm::str_eq(s, "recorded") {
            IntervalStatus::Recorded
        } else if crate::norm::str_eq(s, "auto_away") {
            IntervalStatus::AutoAway
        } else {
            IntervalStatus::Pending
        }
    }
}

/// One user-initiated work session.
#[derive(Clone, Copy, Debug, PartialEq)]
pub struct Workblock {
    pub id: Option<i64>,
    pub date: Date,
    /// Seconds since the epoch.
    pub start_time: i64,
    pub end_time: Option<i64>,
    pub duration_minutes: Option<i32>,
    pub status: WorkblockStatus,
    pub is_archived: bool,
    pub created_at: Option<i64>,
}

/// One time-slice of a workblock, numbered from 1.
#[derive(Clone, Debug, PartialEq)]
pub struct Interval {
    pub id: Option<i64>,
    pub workblock_id: i64,
    pub interval_number: i32,
    /// Seconds since the epoch.
    pub start_time: i64,
    pub end_time: Option<i64>,
    pub words: Option<String>,
    pub status: IntervalStatus,
    pub recorded_at: Option<i64>,
}

/// The finalized summary of one calendar date.
#[derive(Clone, Debug, PartialEq)]
pub struct DailyArchive {
    pub id: Option<i64>,
    pub date: Date,
    pub total_workblocks: i64,
    pub total_minutes: i64,
    pub visualization_data: Option<DailyVisualizationData>,
    pub archived_at: Option<i64>,
}

/// Why a store operation was refused.
#[derive(Clone, Copy, Debug, PartialEq, Eq, Structural)]
pub enum StoreError {
    /// The named workblock, interval or archive does not exist.
    NotFound,
    /// The operation would break a lifecycle rule: starting beside an
    /// Active workblock, finishing a workblock twice, recording an
    /// interval twice, skipping an interval number, or exhausting the
    /// identifier space.
    Conflict,
    /// Archiving a date that has no workblocks.
    ArchiveEmpty,
}

/// The in-memory table set: workblocks, intervals, daily archives.
pub struct Store {
    pub workblocks: Vec<Workblock>,
    pub intervals: Vec<Interval>,
    pub archives: Vec<DailyArchive>,
    pub next_workblock_id: i64,
    pub next_interval_id: i64,
    pub next_archive_id: i64,
}

/// How many of the intervals belong to the given workblock.
pub open spec fn num_intervals_for(ivs: Seq<Interval>, workblock_id: i64) -> int
    decreases ivs.len(),
{
    if ivs.len() == 0 {
        0
    } else {
        num_intervals_for(ivs.drop_last(), workblock_id) + if ivs.last().workblock_id
            == workblock_id {
            1 as int
        } else {
            0 as int
        }
    }
}

/// Some workblock in the sequence carries the given id.
pub open spec fn has_workblock(wbs: Seq<Workblock>, id: i64) -> bool {
    exists|i: int| 0 <= i < wbs.len() && wbs[i].id == Some(id)
}

/// Some workblock in the sequence is Active.
pub open spec fn has_active_workblock(wbs: Seq<Workblock>) -> bool {
    exists|i: int| 0 <= i < wbs.len() && wbs[i].status is Active
}

/// Some interval in the sequence carries the given id.
pub open spec fn has_interval(ivs: Seq<Interval>, id: i64) -> bool {
    exists|i: int| 0 <= i < ivs.len() && ivs[i].id == Some(id)
}

/// Some archive in the sequence is for the given date.
pub open spec fn has_archive(ars: Seq<DailyArchive>, date: Date) -> bool {
    exists|i: int| 0 <= i < ars.len() && ars[i].date == date
}

impl Store {
    /// Every workblock row has a valid unique id, and at most one is
    /// Active.
    pub open spec fn wf_workblocks(self) -> bool {
        &&& forall|i: int|
            0 <= i < self.workblocks@.len() ==> {
                &&& (#[trigger] self.workblocks@[i]).id matches Some(id)
                &&& 1 <= id < self.next_workblock_id
            }
        &&& forall|i: int, j: int|
            0 <= i < j < self.workblocks@.len() ==> (#[trigger] self.workblocks@[i]).id != (
            #[trigger] self.workblocks@[j]).id
        &&& forall|i: int, j: int|
            0 <= i < self.workblocks@.len() && 0 <= j < self.workblocks@.len() && (
            #[trigger] self.workblocks@[i]).status is Active && (
            #[trigger] self.workblocks@[j]).status is Active ==> i == j
    }

    /// Every interval row has a valid unique id, and within each
    /// workblock the interval numbers are contiguous from 1: each row's
    /// number is one more than the count of earlier rows of the same
    /// workblock.
    pub open spec fn wf_intervals(self) -> bool {
        &&& forall|i: int|
            0 <= i < self.intervals@.len() ==> {
                &&& (#[trigger] self.intervals@[i]).id matches Some(id)
                &&& 1 <= id < self.next_interval_id
            }
        &&& forall|i: int, j: int|
            0 <= i < j < self.intervals@.len() ==> (#[trigger] self.intervals@[i]).id != (
            #[trigger] self.intervals@[j]).id
        &&& forall|i: int|
            0 <= i < self.intervals@.len() ==> (#[trigger] self.intervals@[i]).interval_number
                as int == num_intervals_for(
                self.intervals@.take(i),
                self.intervals@[i].workblock_id,
            ) + 1
    }

    /// Every archive row has a valid unique id and a unique date.
    pub open spec fn wf_archives(self) -> bool {
        &&& forall|i: int|
            0 <= i < self.archives@.len() ==> {
                &&& (#[trigger] self.archives@[i]).id matches Some(id)
                &&& 1 <= id < self.next_archive_id
            }
        &&& forall|i: int, j: int|
            0 <= i < j < self.archives@.len() ==> (#[trigger] self.archives@[i]).date != (
            #[trigger] self.archives@[j]).date
    }

    /// The store's data invariants.
    pub open spec fn wf(self) -> bool {
        &&& 1 <= self.next_workblock_id
        &&& 1 <= self.next_interval_id
        &&& 1 <= self.next_archive_id
        &&& self.wf_workblocks()
        &&& self.wf_intervals()
        &&& self.wf_archives()
    }

    /// An empty store.
    pub fn new() -> (s: Store)
        ensures
            s.wf(),
            s.workblocks@ =~= Seq::<Workblock>::empty(),
            s.intervals@ =~= Seq::<Interval>::empty(),
            s.archives@ =~= Seq::<DailyArchive>::empty(),
            s.next_workblock_id == 1,
            s.next_interval_id == 1,
            s.next_archive_id == 1,
    {
        Store {
            workblocks: Vec::new(),
            intervals: Vec::new(),
            archives: Vec::new(),
            next_workblock_id: 1,
            next_interval_id: 1,
            next_archive_id: 1,
        }
    }
}

/// Minutes elapsed from `start` to `end`, floored at 0 and capped at
/// `i32::MAX`.
pub open spec fn spec_elapsed_minutes(start: int, end: int) -> int {
    if end <= start {
        0
    } else if (end - start) / 60 > i32::MAX {
        i32::MAX as int
    } else {
        (end - start) / 60
    }
}

/// Minutes elapsed from `start` to `end`.
pub fn elapsed_minutes(start: i64, end: i64) -> (m: i32)
    ensures
        m as int == spec_elapsed_minutes(start as int, end as int),
{
    if end <= start {
        0
    } else {
        let secs: i128 = end as i128 - start as i128;
        let mins: i128 = secs / 60;
        if mins > i32::MAX as i128 {
            i32::MAX
        } else {
            mins as i32
        }
    }
}

/// Index of the workblock with the given id, if any.
fn find_workblock_index(workblocks: &Vec<Workblock>, workblock_id: i64) -> (r: Option<usize>)
    ensures
        match r {
            Some(i) => i < workblocks@.len() && workblocks@[i as int].id == Some(workblock_id),
            None => !has_workblock(workblocks@, workblock_id),
        },
{
    let mut i: usize = 0;
    while i < workblocks.len()
        invariant
            i <= workblocks@.len(),
            forall|j: int| 0 <= j < i ==> (#[trigger] workblocks@[j]).id != Some(workblock_id),
        decreases workblocks@.len() - i,
    {
        if let Some(id) = workblocks[i].id {
            if id == workblock_id {
                return Some(i);
            }
        }
        i += 1;
    }
    None
}

/// The Active workblock, if one exists. By the store invariant there is at
/// most one.
pub fn get_active_workblock(s: &Store) -> (r: Option<Workblock>)
    requires
        s.wf(),
    ensures
        match r {
            Some(wb) => {
                &&& exists|i: int| 0 <= i < s.workblocks@.len() && s.workblocks@[i] == wb
                &&& wb.status is Active
            },
            None => !has_active_workblock(s.workblocks@),
        },
{
    let mut i: usize = 0;
    while i < s.workblocks.len()
        invariant
            i <= s.workblocks@.len(),
            forall|j: int| 0 <= j < i ==> !((#[trigger] s.workblocks@[j]).status is Active),
        decreases s.workblocks@.len() - i,
    {
        if matches!(s.workblocks[i].status, WorkblockStatus::Active) {
            return Some(s.workblocks[i]);
        }
        i += 1;
    }
    None
}

/// Create a new workblock: Active, not archived, dated `date`, started at
/// `now`, with the given planned duration. Refused while another workblock
/// is Active.
pub fn create_workblock(s: &mut Store, duration_minutes: i32, date: Date, now: i64) -> (r: Result<
    Workblock,
    StoreError,
>)
    requires
        old(s).wf(),
    ensures
        final(s).wf(),
        final(s).intervals@ == old(s).intervals@,
        final(s).archives@ == old(s).archives@,
        final(s).next_interval_id == old(s).next_interval_id,
        final(s).next_archive_id == old(s).next_archive_id,
        match r {
            Ok(wb) => {
                &&& !has_active_workblock(old(s).workblocks@)
                &&& old(s).next_workblock_id < i64::MAX
                &&& wb == (Workblock {
                    id: Some(old(s).next_workblock_id),
                    date,
                    start_time: now,
                    end_time: None,
                    duration_minutes: Some(duration_minutes),
                    status: WorkblockStatus::Active,
                    is_archived: false,
                    created_at: Some(now),
                })
                &&& final(s).workblocks@ == old(s).workblocks@.push(wb)
                &&& final(s).next_workblock_id == old(s).next_workblock_id + 1
            },
            Err(e) => {
                &&& *final(s) == *old(s)
                &&& e == StoreError::Conflict
                &&& has_active_workblock(old(s).workblocks@) || old(s).next_workblock_id
                    == i64::MAX
            },
        },
{
    if get_active_workblock(s).is_some() {
        return Err(StoreError::Conflict);
    }
    if s.next_workblock_id == i64::MAX {
        return Err(StoreError::Conflict);
    }
    let id = s.next_workblock_id;
    let wb = Workblock {
        id: Some(id),
        date,
        start_time: now,
        end_time: None,
        duration_minutes: Some(duration_minutes),
        status: WorkblockStatus::Active,
        is_archived: false,
        created_at: Some(now),
    };
    s.next_workblock_id = id + 1;
    s.workblocks.push(wb);
    Ok(wb)
}

/// The workblock carrying the given id.
pub fn get_workblock_by_id(s: &Store, workblock_id: i64) -> (r: Result<Workblock, StoreError>)
    requires
        s.wf(),
    ensures
        match r {
            Ok(wb) => {
                &&& exists|i: int| 0 <= i < s.workblocks@.len() && s.workblocks@[i] == wb
                &&& wb.id == Some(workblock_id)
            },
            Err(e) => {
                &&& e == StoreError::NotFound
                &&& !has_workblock(s.workblocks@, workblock_id)
            },
        },
{
    match find_workblock_index(&s.workblocks, workblock_id) {
        Some(i) => Ok(s.workblocks[i]),
        None => Err(StoreError::NotFound),
    }
}

/// What finishing the workblock at index `i` at time `now` leaves in the
/// store: end time and elapsed duration set, the given terminal status.
pub open spec fn spec_finish_workblock(wb: Workblock, status: WorkblockStatus, now: int) -> Workblock {
    Workblock {
        end_time: Some(now as i64),
        duration_minutes: Some(spec_elapsed_minutes(wb.start_time as int, now) as i32),
        status,
        ..wb
    }
}

/// Finish the Active workblock carrying the given id: set its end time to
/// `now`, recompute its duration as the elapsed minutes, and write the
/// given terminal status.
fn finish_workblock(s: &mut Store, workblock_id: i64, status: WorkblockStatus, now: i64) -> (r:
    Result<Workblock, StoreError>)
    requires
        old(s).wf(),
        status is Completed || status is Cancelled,
    ensures
        final(s).wf(),
        final(s).intervals@ == old(s).intervals@,
        final(s).archives@ == old(s).archives@,
        final(s).next_workblock_id == old(s).next_workblock_id,
        final(s).next_interval_id == old(s).next_interval_id,
        final(s).next_archive_id == old(s).next_archive_id,
        match r {
            Ok(wb) => {
                &&& exists|i: int|
                    {
                        &&& 0 <= i < old(s).workblocks@.len()
                        &&& old(s).workblocks@[i].id == Some(workblock_id)
                        &&& old(s).workblocks@[i].status is Active
                        &&& wb == spec_finish_workblock(old(s).workblocks@[i], status, now as int)
                        &&& final(s).workblocks@ == old(s).workblocks@.update(i, wb)
                    }
                &&& wb.id == Some(workblock_id)
                &&& wb.status == status
                &&& wb.end_time == Some(now)
            },
            Err(e) => {
                &&& *final(s) == *old(s)
                &&& (e == StoreError::NotFound || e == StoreError::Conflict)
                &&& (e == StoreError::NotFound <==> !has_workblock(old(s).workblocks@, workblock_id))
                &&& (e == StoreError::Conflict <==> exists|i: int|
                    0 <= i < old(s).workblocks@.len() && old(s).workblocks@[i].id == Some(
                        workblock_id,
                    ) && !(old(s).workblocks@[i].status is Active))
            },
        },
{
    let i = match find_workblock_index(&s.workblocks, workblock_id) {
        Some(i) => i,
        None => {
            return Err(StoreError::NotFound);
        },
    };
    let wb = s.workblocks[i];
    if !matches!(wb.status, WorkblockStatus::Active) {
        assert(s.workblocks@[i as int].id == Some(workblock_id));
        return Err(StoreError::Conflict);
    }
    let updated = Workblock {
        end_time: Some(now),
        duration_minutes: Some(elapsed_minutes(wb.start_time, now)),
        status,
        ..wb
    };
    s.workblocks.set(i, updated);
    Ok(updated)
}

/// Complete the Active workblock carrying the given id: end time `now`,
/// duration recomputed, status Completed.
pub fn complete_workblock(s: &mut Store, workblock_id: i64, now: i64) -> (r: Result<
    Workblock,
    StoreError,
>)
    requires
        old(s).wf(),
    ensures
        final(s).wf(),
        final(s).intervals@ == old(s).intervals@,
        final(s).archives@ == old(s).archives@,
        final(s).next_workblock_id == old(s).next_workblock_id,
        final(s).next_interval_id == old(s).next_interval_id,
        final(s).next_archive_id == old(s).next_archive_id,
        match r {
            Ok(wb) => {
                &&& exists|i: int|
                    {
                        &&& 0 <= i < old(s).workblocks@.len()
                        &&& old(s).workblocks@[i].id == Some(workblock_id)
                        &&& old(s).workblocks@[i].status is Active
                        &&& wb == spec_finish_workblock(
                            old(s).workblocks@[i],
                            WorkblockStatus::Completed,
                            now as int,
                        )
                        &&& final(s).workblocks@ == old(s).workblocks@.update(i, wb)
                    }
                &&& wb.id == Some(workblock_id)
                &&& wb.status is Completed
                &&& wb.end_time == Some(now)
            },
            Err(e) => {
                &&& *final(s) == *old(s)
                &&& (e == StoreError::NotFound || e == StoreError::Conflict)
                &&& (e == StoreError::NotFound <==> !has_workblock(old(s).workblocks@, workblock_id))
                &&& (e == StoreError::Conflict <==> exists|i: int|
                    0 <= i < old(s).workblocks@.len() && old(s).workblocks@[i].id == Some(
                        workblock_id,
                    ) && !(old(s).workblocks@[i].status is Active))
            },
        },
{
    finish_workblock(s, workblock_id, WorkblockStatus::Completed, now)
}

/// Cancel the Active workblock carrying the given id: end time `now`,
/// duration recomputed, status Cancelled.
pub fn cancel_workblock(s: &mut Store, workblock_id: i64, now: i64) -> (r: Result<
    Workblock,
    StoreError,
>)
    requires
        old(s).wf(),
    ensures
        final(s).wf(),
        final(s).intervals@ == old(s).intervals@,
        final(s).archives@ == old(s).archives@,
        final(s).next_workblock_id == old(s).next_workblock_id,
        final(s).next_interval_id == old(s).next_interval_id,
        final(s).next_archive_id == old(s).next_archive_id,
        match r {
            Ok(wb) => {
                &&& exists|i: int|
                    {
                        &&& 0 <= i < old(s).workblocks@.len()
                        &&& old(s).workblocks@[i].id == Some(workblock_id)
                        &&& old(s).workblocks@[i].status is Active
                        &&& wb == spec_finish_workblock(
                            old(s).workblocks@[i],
                            WorkblockStatus::Cancelled,
                            now as int,
                        )
                        &&& final(s).workblocks@ == old(s).workblocks@.update(i, wb)
                    }
                &&& wb.id == Some(workblock_id)
                &&& wb.status is Cancelled
                &&& wb.end_time == Some(now)
            },
            Err(e) => {
                &&& *final(s) == *old(s)
                &&& (e == StoreError::NotFound || e == StoreError::Conflict)
                &&& (e == StoreError::NotFound <==> !has_workblock(old(s).workblocks@, workblock_id))
                &&& (e == StoreError::Conflict <==> exists|i: int|
                    0 <= i < old(s).workblocks@.len() && old(s).workblocks@[i].id == Some(
                        workblock_id,
                    ) && !(old(s).workblocks@[i].status is Active))
            },
        },
{
    finish_workblock(s, workblock_id, WorkblockStatus::Cancelled, now)
}

/// The workblocks dated `date`, in store order.
pub open spec fn workblocks_with_date(wbs: Seq<Workblock>, date: Date) -> Seq<Workblock>
    decreases wbs.len(),
{
    if wbs.len() == 0 {
        Seq::empty()
    } else if wbs.last().date == date {
        workblocks_with_date(wbs.drop_last(), date).push(wbs.last())
    } else {
        workblocks_with_date(wbs.drop_last(), date)
    }
}

/// Where a workblock belongs in a start-time-ordered sequence: before the
/// first entry that starts strictly later, after everything that starts
/// no later.
pub open spec fn spec_wb_insert_pos(sorted: Seq<Workblock>, x: Workblock) -> int
    decreases sorted.len(),
{
    if sorted.len() == 0 {
        0
    } else if sorted.first().start_time <= x.start_time {
        1 + spec_wb_insert_pos(sorted.drop_first(), x)
    } else {
        0
    }
}

/// The sequence with `x` inserted at its start-time position.
pub open spec fn spec_wb_insert(sorted: Seq<Workblock>, x: Workblock) -> Seq<Workblock> {
    sorted.insert(spec_wb_insert_pos(sorted, x), x)
}

/// The workblocks reordered by ascending start time (insertion order kept
/// between equal start times).
pub open spec fn spec_sort_workblocks(wbs: Seq<Workblock>) -> Seq<Workblock>
    decreases wbs.len(),
{
    if wbs.len() == 0 {
        Seq::empty()
    } else {
        spec_wb_insert(spec_sort_workblocks(wbs.drop_last()), wbs.last())
    }
}

/// The workblocks are in ascending start-time order.
pub open spec fn sorted_by_start(wbs: Seq<Workblock>) -> bool {
    forall|i: int, j: int| 0 <= i < j < wbs.len() ==> wbs[i].start_time <= wbs[j].start_time
}

/// The insert position is in range, and splits the sequence by start
/// time.
pub proof fn lemma_wb_insert_pos(sorted: Seq<Workblock>, x: Workblock)
    ensures
        0 <= spec_wb_insert_pos(sorted, x) <= sorted.len(),
        forall|i: int|
            0 <= i < spec_wb_insert_pos(sorted, x) ==> (#[trigger] sorted[i]).start_time
                <= x.start_time,
        spec_wb_insert_pos(sorted, x) < sorted.len() ==> sorted[spec_wb_insert_pos(
            sorted,
            x,
        )].start_time > x.start_time,
    decreases sorted.len(),
{
    if sorted.len() > 0 && sorted.first().start_time <= x.start_time {
        lemma_wb_insert_pos(sorted.drop_first(), x);
        let p = spec_wb_insert_pos(sorted, x);
        assert forall|i: int| 0 <= i < p implies (#[trigger] sorted[i]).start_time
            <= x.start_time by {
            if i > 0 {
                assert(sorted.drop_first()[i - 1] == sorted[i]);
                assert(sorted.drop_first()[i - 1].start_time <= x.start_time);
            }
        }
        if p < sorted.len() {
            assert(sorted.drop_first()[p - 1] == sorted[p]);
        }
    }
}

/// Sorting yields the same workblocks, in ascending start-time order.
pub proof fn lemma_sort_workblocks_props(wbs: Seq<Workblock>)
    ensures
        spec_sort_workblocks(wbs).len() == wbs.len(),
        spec_sort_workblocks(wbs).to_multiset() == wbs.to_multiset(),
        sorted_by_start(spec_sort_workblocks(wbs)),
    decreases wbs.len(),
{
    broadcast use vstd::seq_lib::group_seq_lib_default;

    if wbs.len() == 0 {
        assert(wbs =~= Seq::<Workblock>::empty());
    } else {
        let prefix = wbs.drop_last();
        let x = wbs.last();
        lemma_sort_workblocks_props(prefix);
        let sorted = spec_sort_workblocks(prefix);
        let p = spec_wb_insert_pos(sorted, x);
        lemma_wb_insert_pos(sorted, x);
        let out = sorted.insert(p, x);
        assert(out.to_multiset() =~= wbs.to_multiset()) by {
            vstd::seq_lib::to_multiset_insert(sorted, p, x);
            assert(prefix.push(x) =~= wbs);
            prefix.to_multiset_ensures();
            assert(prefix.push(x).to_multiset() =~= prefix.to_multiset().insert(x));
            assert(out.to_multiset() == sorted.to_multiset().insert(x));
        }
        assert(spec_sort_workblocks(wbs) == out);
        assert(out.to_multiset() == wbs.to_multiset());
        assert forall|i: int, j: int| 0 <= i < j < out.len() implies out[i].start_time
            <= out[j].start_time by {
            if i < p && j == p {
                assert(out[i] == sorted[i]);
            } else if i == p && j > p {
                assert(out[j] == sorted[j - 1]);
            }
        }
    }
}

/// A day's listing is in ascending start-time order and holds exactly
/// the date's workblocks.
pub proof fn lemma_day_listing_sorted(wbs: Seq<Workblock>, date: Date)
    ensures
        sorted_by_start(spec_sort_workblocks(workblocks_with_date(wbs, date))),
        spec_sort_workblocks(workblocks_with_date(wbs, date)).to_multiset()
            == workblocks_with_date(wbs, date).to_multiset(),
{
    lemma_sort_workblocks_props(workblocks_with_date(wbs, date));
}

/// All workblocks dated `date`, in ascending start-time order.
pub fn get_workblocks_by_date(s: &Store, date: Date) -> (r: Result<Vec<Workblock>, StoreError>)
    requires
        s.wf(),
    ensures
        r matches Ok(wbs) && wbs@ == spec_sort_workblocks(
            workblocks_with_date(s.workblocks@, date),
        ),
{
    let mut out: Vec<Workblock> = Vec::new();
    let mut i: usize = 0;
    proof {
        assert(s.workblocks@.take(0) =~= Seq::<Workblock>::empty());
    }
    while i < s.workblocks.len()
        invariant
            i <= s.workblocks@.len(),
            out@ == spec_sort_workblocks(workblocks_with_date(s.workblocks@.take(i as int), date)),
        decreases s.workblocks@.len() - i,
    {
        proof {
            assert(s.workblocks@.take(i as int + 1).drop_last() =~= s.workblocks@.take(i as int));
            assert(s.workblocks@.take(i as int + 1).last() == s.workblocks@[i as int]);
        }
        let wb = s.workblocks[i];
        if wb.date == date {
            proof {
                let fd = workblocks_with_date(s.workblocks@.take(i as int), date);
                assert(workblocks_with_date(s.workblocks@.take(i as int + 1), date) == fd.push(
                    s.workblocks@[i as int],
                ));
                assert(fd.push(s.workblocks@[i as int]).drop_last() =~= fd);
            }
            let p = wb_insert_position(&out, &wb);
            out.insert(p, wb);
        }
        i += 1;
    }
    proof {
        assert(s.workblocks@.take(i as int) =~= s.workblocks@);
    }
    Ok(out)
}

/// Where the workblock belongs in the start-time-ordered vector.
fn wb_insert_position(sorted: &Vec<Workblock>, x: &Workblock) -> (p: usize)
    ensures
        p as int == spec_wb_insert_pos(sorted@, *x),
        p <= sorted@.len(),
{
    let mut p: usize = 0;
    proof {
        assert(sorted@.skip(0) =~= sorted@);
    }
    while p < sorted.len() && sorted[p].start_time <= x.start_time
        invariant
            p <= sorted@.len(),
            spec_wb_insert_pos(sorted@, *x) == p + spec_wb_insert_pos(sorted@.skip(p as int), *x),
        decreases sorted@.len() - p,
    {
        proof {
            assert(sorted@.skip(p as int).first() == sorted@[p as int]);
            assert(sorted@.skip(p as int).drop_first() =~= sorted@.skip(p as int + 1));
        }
        p += 1;
    }
    proof {
        if p < sorted@.len() {
            assert(sorted@.skip(p as int).first() == sorted@[p as int]);
        }
        assert(spec_wb_insert_pos(sorted@.skip(p as int), *x) == 0);
    }
    p
}

/// The intervals belonging to the given workblock, in store order (which,
/// by the store invariant, is ascending interval-number order).
pub open spec fn intervals_for(ivs: Seq<Interval>, workblock_id: i64) -> Seq<Interval>
    decreases ivs.len(),
{
    if ivs.len() == 0 {
        Seq::empty()
    } else if ivs.last().workblock_id == workblock_id {
        intervals_for(ivs.drop_last(), workblock_id).push(ivs.last())
    } else {
        intervals_for(ivs.drop_last(), workblock_id)
    }
}

/// The most recently created Pending interval of the given workblock.
pub open spec fn current_interval_of(ivs: Seq<Interval>, workblock_id: i64) -> Option<Interval>
    decreases ivs.len(),
{
    if ivs.len() == 0 {
        None
    } else if ivs.last().workblock_id == workblock_id && ivs.last().status is Pending {
        Some(ivs.last())
    } else {
        current_interval_of(ivs.drop_last(), workblock_id)
    }
}

/// `intervals_for` selects exactly as many rows as `num_intervals_for`
/// counts, and each selected row belongs to the workblock.
pub proof fn lemma_intervals_for_len(ivs: Seq<Interval>, workblock_id: i64)
    ensures
        intervals_for(ivs, workblock_id).len() == num_intervals_for(ivs, workblock_id),
        forall|k: int|
            0 <= k < intervals_for(ivs, workblock_id).len() ==> (#[trigger] intervals_for(
                ivs,
                workblock_id,
            )[k]).workblock_id == workblock_id,
    decreases ivs.len(),
{
    if ivs.len() > 0 {
        lemma_intervals_for_len(ivs.drop_last(), workblock_id);
    }
}

/// Counting intervals is insensitive to fields other than the owning
/// workblock.
pub proof fn lemma_num_intervals_congruent(a: Seq<Interval>, b: Seq<Interval>, workblock_id: i64)
    requires
        a.len() == b.len(),
        forall|i: int| 0 <= i < a.len() ==> (#[trigger] a[i]).workblock_id == b[i].workblock_id,
    ensures
        num_intervals_for(a, workblock_id) == num_intervals_for(b, workblock_id),
    decreases a.len(),
{
    if a.len() > 0 {
        assert(forall|i: int|
            0 <= i < a.drop_last().len() ==> (#[trigger] a.drop_last()[i]).workblock_id
                == b.drop_last()[i].workblock_id);
        lemma_num_intervals_congruent(a.drop_last(), b.drop_last(), workblock_id);
    }
}

/// Interval numbers within one workblock, read off in store order, are
/// exactly 1, 2, ..., n: contiguous from 1, no gaps, no duplicates.
pub proof fn lemma_interval_numbers_contiguous(ivs: Seq<Interval>, workblock_id: i64)
    requires
        forall|i: int|
            0 <= i < ivs.len() ==> (#[trigger] ivs[i]).interval_number as int == num_intervals_for(
                ivs.take(i),
                ivs[i].workblock_id,
            ) + 1,
    ensures
        forall|k: int|
            0 <= k < intervals_for(ivs, workblock_id).len() ==> (#[trigger] intervals_for(
                ivs,
                workblock_id,
            )[k]).interval_number as int == k + 1,
    decreases ivs.len(),
{
    lemma_intervals_for_len(ivs, workblock_id);
    if ivs.len() > 0 {
        let prefix = ivs.drop_last();
        assert(prefix =~= ivs.take(ivs.len() - 1));
        assert(forall|i: int| 0 <= i < prefix.len() ==> prefix.take(i) =~= ivs.take(i));
        lemma_interval_numbers_contiguous(prefix, workblock_id);
        lemma_intervals_for_len(prefix, workblock_id);
        if ivs.last().workblock_id == workblock_id {
            assert(ivs[ivs.len() - 1].interval_number as int == num_intervals_for(
                prefix,
                workblock_id,
            ) + 1);
        }
    }
}

/// How many intervals of the store belong to the given workblock.
pub fn count_intervals_for(intervals: &Vec<Interval>, workblock_id: i64) -> (n: usize)
    ensures
        n as int == num_intervals_for(intervals@, workblock_id),
{
    let mut n: usize = 0;
    let mut i: usize = 0;
    while i < intervals.len()
        invariant
            i <= intervals@.len(),
            n <= i,
            n as int == num_intervals_for(intervals@.take(i as int), workblock_id),
        decreases intervals@.len() - i,
    {
        proof {
            assert(intervals@.take(i as int + 1).drop_last() =~= intervals@.take(i as int));
            assert(intervals@.take(i as int + 1).last() == intervals@[i as int]);
        }
        if intervals[i].workblock_id == workblock_id {
            n += 1;
        }
        i += 1;
    }
    proof {
        assert(intervals@.take(i as int) =~= intervals@);
    }
    n
}

/// Index of the interval with the given id, if any.
fn find_interval_index(intervals: &Vec<Interval>, interval_id: i64) -> (r: Option<usize>)
    ensures
        match r {
            Some(i) => i < intervals@.len() && intervals@[i as int].id == Some(interval_id),
            None => !has_interval(intervals@, interval_id),
        },
{
    let mut i: usize = 0;
    while i < intervals.len()
        invariant
            i <= intervals@.len(),
            forall|j: int| 0 <= j < i ==> (#[trigger] intervals@[j]).id != Some(interval_id),
        decreases intervals@.len() - i,
    {
        if let Some(id) = intervals[i].id {
            if id == interval_id {
                return Some(i);
            }
        }
        i += 1;
    }
    None
}

/// A field-by-field copy of an interval.
pub(crate) fn copy_interval(iv: &Interval) -> (r: Interval)
    ensures
        r == *iv,
{
    Interval {
        id: iv.id,
        workblock_id: iv.workblock_id,
        interval_number: iv.interval_number,
        start_time: iv.start_time,
        end_time: iv.end_time,
        words: match &iv.words {
            Some(w) => Some(w.clone()),
            None => None,
        },
        status: iv.status,
        recorded_at: iv.recorded_at,
    }
}

/// Add a Pending interval to the given workblock, started at `now`. The
/// interval number must be the next in sequence (one more than the
/// workblock's current interval count), which keeps numbers contiguous
/// from 1.
pub fn add_interval(s: &mut Store, workblock_id: i64, interval_number: i32, now: i64) -> (r: Result<
    Interval,
    StoreError,
>)
    requires
        old(s).wf(),
    ensures
        final(s).wf(),
        final(s).workblocks@ == old(s).workblocks@,
        final(s).archives@ == old(s).archives@,
        final(s).next_workblock_id == old(s).next_workblock_id,
        final(s).next_archive_id == old(s).next_archive_id,
        match r {
            Ok(iv) => {
                &&& has_workblock(old(s).workblocks@, workblock_id)
                &&& interval_number as int == num_intervals_for(old(s).intervals@, workblock_id) + 1
                &&& old(s).next_interval_id < i64::MAX
                &&& iv == (Interval {
                    id: Some(old(s).next_interval_id),
                    workblock_id,
                    interval_number,
                    start_time: now,
                    end_time: None,
                    words: None,
                    status: IntervalStatus::Pending,
                    recorded_at: None,
                })
                &&& final(s).intervals@ == old(s).intervals@.push(iv)
                &&& final(s).next_interval_id == old(s).next_interval_id + 1
            },
            Err(e) => {
                &&& *final(s) == *old(s)
                &&& (e == StoreError::NotFound || e == StoreError::Conflict)
                &&& (e == StoreError::NotFound <==> !has_workblock(old(s).workblocks@, workblock_id))
                &&& (e == StoreError::Conflict <==> has_workblock(old(s).workblocks@, workblock_id)
                    && (interval_number as int != num_intervals_for(old(s).intervals@, workblock_id)
                    + 1 || old(s).next_interval_id == i64::MAX))
            },
        },
{
    if find_workblock_index(&s.workblocks, workblock_id).is_none() {
        return Err(StoreError::NotFound);
    }
    let existing = count_intervals_for(&s.intervals, workblock_id);
    if interval_number < 1 || existing != (interval_number - 1) as usize {
        return Err(StoreError::Conflict);
    }
    if s.next_interval_id == i64::MAX {
        return Err(StoreError::Conflict);
    }
    let id = s.next_interval_id;
    let iv = Interval {
        id: Some(id),
        workblock_id,
        interval_number,
        start_time: now,
        end_time: None,
        words: None,
        status: IntervalStatus::Pending,
        recorded_at: None,
    };
    let stored = copy_interval(&iv);
    s.next_interval_id = id + 1;
    proof {
        let pre = s.intervals@;
        assert forall|i: int| 0 <= i < pre.len() implies pre.push(stored).take(i) =~= pre.take(
            i,
        ) by {}
        assert(pre.push(stored).take(pre.len() as int) =~= pre);
    }
    s.intervals.push(stored);
    Ok(iv)
}

/// What recording an interval at time `now` leaves in the store: content,
/// outcome status, end and recorded times set.
pub open spec fn spec_record_interval(
    iv: Interval,
    words: String,
    status: IntervalStatus,
    now: int,
) -> Interval {
    Interval {
        end_time: Some(now as i64),
        words: Some(words),
        status,
        recorded_at: Some(now as i64),
        ..iv
    }
}

/// Record the Pending interval carrying the given id: store its content
/// and outcome (Recorded or AutoAway) and stamp its end and recorded
/// times with `now`. An interval that already has an outcome is immutable
/// and the call is refused.
pub fn update_interval_words(
    s: &mut Store,
    interval_id: i64,
    words: String,
    status: IntervalStatus,
    now: i64,
) -> (r: Result<Interval, StoreError>)
    requires
        old(s).wf(),
    ensures
        final(s).wf(),
        final(s).workblocks@ == old(s).workblocks@,
        final(s).archives@ == old(s).archives@,
        final(s).next_workblock_id == old(s).next_workblock_id,
        final(s).next_interval_id == old(s).next_interval_id,
        final(s).next_archive_id == old(s).next_archive_id,
        match r {
            Ok(iv) => {
                &&& !(status is Pending)
                &&& exists|i: int|
                    {
                        &&& 0 <= i < old(s).intervals@.len()
                        &&& old(s).intervals@[i].id == Some(interval_id)
                        &&& old(s).intervals@[i].status is Pending
                        &&& iv == spec_record_interval(
                            old(s).intervals@[i],
                            words,
                            status,
                            now as int,
                        )
                        &&& final(s).intervals@ == old(s).intervals@.update(i, iv)
                    }
                &&& iv.id == Some(interval_id)
                &&& iv.status == status
                &&& iv.words == Some(words)
            },
            Err(e) => {
                &&& *final(s) == *old(s)
                &&& (e == StoreError::NotFound || e == StoreError::Conflict)
                &&& (e == StoreError::NotFound <==> !has_interval(old(s).intervals@, interval_id))
                &&& (e == StoreError::Conflict <==> exists|i: int|
                    0 <= i < old(s).intervals@.len() && old(s).intervals@[i].id == Some(interval_id)
                        && (!(old(s).intervals@[i].status is Pending) || status is Pending))
            },
        },
{
    let i = match find_interval_index(&s.intervals, interval_id) {
        Some(i) => i,
        None => {
            return Err(StoreError::NotFound);
        },
    };
    let pending = matches!(s.intervals[i].status, IntervalStatus::Pending);
    if !pending || matches!(status, IntervalStatus::Pending) {
        assert(s.intervals@[i as int].id == Some(interval_id));
        return Err(StoreError::Conflict);
    }
    let old_iv = &s.intervals[i];
    let updated = Interval {
        id: old_iv.id,
        workblock_id: old_iv.workblock_id,
        interval_number: old_iv.interval_number,
        start_time: old_iv.start_time,
        end_time: Some(now),
        words: Some(words.clone()),
        status,
        recorded_at: Some(now),
    };
    let result = copy_interval(&updated);
    proof {
        let pre = s.intervals@;
        let post = pre.update(i as int, updated);
        assert forall|k: int| 0 <= k < post.len() implies (#[trigger] post[k]).interval_number
            as int == num_intervals_for(post.take(k), post[k].workblock_id) + 1 by {
            assert(pre[k].interval_number as int == num_intervals_for(
                pre.take(k),
                pre[k].workblock_id,
            ) + 1);
            assert(post[k].interval_number == pre[k].interval_number);
            assert(post[k].workblock_id == pre[k].workblock_id);
            assert(forall|m: int|
                0 <= m < pre.take(k).len() ==> (#[trigger] pre.take(k)[m]).workblock_id
                    == post.take(k)[m].workblock_id);
            lemma_num_intervals_congruent(pre.take(k), post.take(k), post[k].workblock_id);
        }
    }
    s.intervals.set(i, updated);
    Ok(result)
}

/// The interval carrying the given id.
pub fn get_interval_by_id(s: &Store, interval_id: i64) -> (r: Result<Interval, StoreError>)
    requires
        s.wf(),
    ensures
        match r {
            Ok(iv) => {
                &&& exists|i: int| 0 <= i < s.intervals@.len() && s.intervals@[i] == iv
                &&& iv.id == Some(interval_id)
            },
            Err(e) => {
                &&& e == StoreError::NotFound
                &&& !has_interval(s.intervals@, interval_id)
            },
        },
{
    match find_interval_index(&s.intervals, interval_id) {
        Some(i) => Ok(copy_interval(&s.intervals[i])),
        None => Err(StoreError::NotFound),
    }
}

/// All intervals of the given workblock, in ascending interval-number
/// order.
pub fn get_intervals_by_workblock(s: &Store, workblock_id: i64) -> (r: Result<
    Vec<Interval>,
    StoreError,
>)
    requires
        s.wf(),
    ensures
        r matches Ok(ivs) && ivs@ == intervals_for(s.intervals@, workblock_id),
{
    let mut out: Vec<Interval> = Vec::new();
    let mut i: usize = 0;
    while i < s.intervals.len()
        invariant
            i <= s.intervals@.len(),
            out@ == intervals_for(s.intervals@.take(i as int), workblock_id),
        decreases s.intervals@.len() - i,
    {
        proof {
            assert(s.intervals@.take(i as int + 1).drop_last() =~= s.intervals@.take(i as int));
            assert(s.intervals@.take(i as int + 1).last() == s.intervals@[i as int]);
        }
        if s.intervals[i].workblock_id == workblock_id {
            out.push(copy_interval(&s.intervals[i]));
        }
        i += 1;
    }
    proof {
        assert(s.intervals@.take(i as int) =~= s.intervals@);
    }
    Ok(out)
}

/// The current interval of the given workblock: its most recently created
/// Pending interval, if any.
pub fn get_current_interval(s: &Store, workblock_id: i64) -> (r: Result<
    Option<Interval>,
    StoreError,
>)
    requires
        s.wf(),
    ensures
        r matches Ok(cur) && cur == current_interval_of(s.intervals@, workblock_id),
{
    let mut i: usize = s.intervals.len();
    proof {
        assert(s.intervals@.take(i as int) =~= s.intervals@);
    }
    while i > 0
        invariant
            i <= s.intervals@.len(),
            current_interval_of(s.intervals@, workblock_id) == current_interval_of(
                s.intervals@.take(i as int),
                workblock_id,
            ),
        decreases i,
    {
        proof {
            assert(s.intervals@.take(i as int).drop_last() =~= s.intervals@.take(i as int - 1));
            assert(s.intervals@.take(i as int).last() == s.intervals@[i as int - 1]);
        }
        let iv = &s.intervals[i - 1];
        if iv.workblock_id == workblock_id && matches!(iv.status, IntervalStatus::Pending) {
            return Ok(Some(copy_interval(iv)));
        }
        i -= 1;
    }
    Ok(None)
}

/// A field-by-field copy of a timeline entry.
fn copy_timeline_item(t: &crate::viz::TimelineData) -> (r: crate::viz::TimelineData)
    ensures
        r == *t,
{
    crate::viz::TimelineData {
        interval_number: t.interval_number,
        start_time: t.start_time,
        end_time: t.end_time,
        words: match &t.words {
            Some(w) => Some(w.clone()),
            None => None,
        },
        duration_minutes: t.duration_minutes,
        workblock_status: t.workblock_status,
    }
}

/// A field-by-field copy of a merged-timeline entry.
fn copy_agg_timeline_item(t: &crate::viz::AggregateTimelineData) -> (r:
    crate::viz::AggregateTimelineData)
    ensures
        r == *t,
{
    crate::viz::AggregateTimelineData {
        workblock_id: t.workblock_id,
        interval_number: t.interval_number,
        start_time: t.start_time,
        end_time: t.end_time,
        words: match &t.words {
            Some(w) => Some(w.clone()),
            None => None,
        },
        duration_minutes: t.duration_minutes,
        workblock_status: t.workblock_status,
    }
}

/// A field-by-field copy of an activity row.
fn copy_activity_item(a: &crate::viz::ActivityData) -> (r: crate::viz::ActivityData)
    ensures
        r == *a,
{
    crate::viz::ActivityData {
        words: a.words.clone(),
        total_minutes: a.total_minutes,
        percentage: a.percentage,
    }
}

/// A field-by-field copy of a phrase-frequency row.
fn copy_frequency_item(f: &crate::viz::WordFrequency) -> (r: crate::viz::WordFrequency)
    ensures
        r == *f,
{
    crate::viz::WordFrequency { word: f.word.clone(), count: f.count }
}

/// An element-by-element copy of a timeline.
fn copy_timeline(v: &Vec<crate::viz::TimelineData>) -> (r: Vec<crate::viz::TimelineData>)
    ensures
        r@ == v@,
{
    let mut out: Vec<crate::viz::TimelineData> = Vec::new();
    let mut i: usize = 0;
    while i < v.len()
        invariant
            i <= v@.len(),
            out@ == v@.take(i as int),
        decreases v@.len() - i,
    {
        proof {
            assert(v@.take(i as int + 1) =~= v@.take(i as int).push(v@[i as int]));
        }
        out.push(copy_timeline_item(&v[i]));
        i += 1;
    }
    proof {
        assert(v@.take(i as int) =~= v@);
    }
    out
}

/// An element-by-element copy of a merged timeline.
fn copy_agg_timeline(v: &Vec<crate::viz::AggregateTimelineData>) -> (r: Vec<
    crate::viz::AggregateTimelineData,
>)
    ensures
        r@ == v@,
{
    let mut out: Vec<crate::viz::AggregateTimelineData> = Vec::new();
    let mut i: usize = 0;
    while i < v.len()
        invariant
            i <= v@.len(),
            out@ == v@.take(i as int),
        decreases v@.len() - i,
    {
        proof {
            assert(v@.take(i as int + 1) =~= v@.take(i as int).push(v@[i as int]));
        }
        out.push(copy_agg_timeline_item(&v[i]));
        i += 1;
    }
    proof {
        assert(v@.take(i as int) =~= v@);
    }
    out
}

/// An element-by-element copy of an activity table.
fn copy_activity_table(v: &Vec<crate::viz::ActivityData>) -> (r: Vec<crate::viz::ActivityData>)
    ensures
        r@ == v@,
{
    let mut out: Vec<crate::viz::ActivityData> = Vec::new();
    let mut i: usize = 0;
    while i < v.len()
        invariant
            i <= v@.len(),
            out@ == v@.take(i as int),
        decreases v@.len() - i,
    {
        proof {
            assert(v@.take(i as int + 1) =~= v@.take(i as int).push(v@[i as int]));
        }
        out.push(copy_activity_item(&v[i]));
        i += 1;
    }
    proof {
        assert(v@.take(i as int) =~= v@);
    }
    out
}

/// An element-by-element copy of a phrase-frequency table.
fn copy_frequency_table(v: &Vec<crate::viz::WordFrequency>) -> (r: Vec<crate::viz::WordFrequency>)
    ensures
        r@ == v@,
{
    let mut out: Vec<crate::viz::WordFrequency> = Vec::new();
    let mut i: usize = 0;
    while i < v.len()
        invariant
            i <= v@.len(),
            out@ == v@.take(i as int),
        decreases v@.len() - i,
    {
        proof {
            assert(v@.take(i as int + 1) =~= v@.take(i as int).push(v@[i as int]));
        }
        out.push(copy_frequency_item(&v[i]));
        i += 1;
    }
    proof {
        assert(v@.take(i as int) =~= v@);
    }
    out
}

/// A deep copy of one workblock's summaries.
fn copy_workblock_viz(v: &crate::viz::WorkblockVisualization) -> (r:
    crate::viz::WorkblockVisualization)
    ensures
        crate::viz::wb_viz_eq(r, *v),
{
    crate::viz::WorkblockVisualization {
        id: v.id,
        timeline_data: copy_timeline(&v.timeline_data),
        activity_data: copy_activity_table(&v.activity_data),
        word_frequency: copy_frequency_table(&v.word_frequency),
    }
}

/// A deep copy of the whole-day visualization.
pub fn copy_daily_viz(v: &DailyVisualizationData) -> (r: DailyVisualizationData)
    ensures
        crate::viz::daily_viz_eq(r, *v),
{
    let mut wbs: Vec<crate::viz::WorkblockVisualization> = Vec::new();
    let mut i: usize = 0;
    while i < v.workblocks.len()
        invariant
            i <= v.workblocks@.len(),
            wbs@.len() == i,
            forall|k: int|
                0 <= k < i ==> crate::viz::wb_viz_eq(#[trigger] wbs@[k], v.workblocks@[k]),
        decreases v.workblocks@.len() - i,
    {
        wbs.push(copy_workblock_viz(&v.workblocks[i]));
        i += 1;
    }
    let agg = crate::viz::DailyAggregate {
        total_workblocks: v.daily_aggregate.total_workblocks,
        total_minutes: v.daily_aggregate.total_minutes,
        timeline_data: copy_agg_timeline(&v.daily_aggregate.timeline_data),
        activity_data: copy_activity_table(&v.daily_aggregate.activity_data),
        word_frequency: copy_frequency_table(&v.daily_aggregate.word_frequency),
    };
    DailyVisualizationData { workblocks: wbs, daily_aggregate: agg }
}

/// The workblock rows with every row of the given date marked archived.
pub open spec fn spec_mark_archived(wbs: Seq<Workblock>, date: Date) -> Seq<Workblock> {
    Seq::new(
        wbs.len(),
        |i: int|
            if wbs[i].date == date {
                Workblock { is_archived: true, ..wbs[i] }
            } else {
                wbs[i]
            },
    )
}

/// The archive row of the given date, if one exists (scanning the most
/// recent rows first; by the store invariant there is at most one).
pub open spec fn archive_entry_of(ars: Seq<DailyArchive>, date: Date) -> Option<DailyArchive>
    decreases ars.len(),
{
    if ars.len() == 0 {
        None
    } else if ars.last().date == date {
        Some(ars.last())
    } else {
        archive_entry_of(ars.drop_last(), date)
    }
}

/// Two archive rows hold the same data (their visualization payloads
/// compared element by element).
pub open spec fn archive_eq(a: DailyArchive, b: DailyArchive) -> bool {
    &&& a.id == b.id
    &&& a.date == b.date
    &&& a.total_workblocks == b.total_workblocks
    &&& a.total_minutes == b.total_minutes
    &&& a.archived_at == b.archived_at
    &&& match (a.visualization_data, b.visualization_data) {
        (Some(x), Some(y)) => crate::viz::daily_viz_eq(x, y),
        (None, None) => true,
        _ => false,
    }
}

/// What one archive row of the given date must hold, relative to the
/// tables at archiving time: the date's totals, the archive stamp, and a
/// visualization payload that satisfies everything the whole-day
/// generator states.
pub open spec fn archive_content_ok(pre: Store, date: Date, now: int, a: DailyArchive) -> bool {
    let sorted = spec_sort_workblocks(workblocks_with_date(pre.workblocks@, date));
    &&& a.date == date
    &&& a.id is Some
    &&& a.total_workblocks as int == crate::viz::spec_count_i64(sorted.len() as int)
    &&& a.total_minutes as int == crate::viz::total_planned_minutes(sorted)
    &&& a.archived_at == Some(now as i64)
    &&& a.visualization_data matches Some(dv) && crate::viz::daily_viz_props(
        pre.workblocks@,
        pre.intervals@,
        date,
        dv,
    )
}

/// What archiving a date does to the store: the date's workblocks are
/// marked archived, intervals are untouched, the date's archive row holds
/// the freshly generated summary, and every other date's archive row is
/// unchanged.
pub open spec fn archive_outcome(pre: Store, post: Store, date: Date, now: int) -> bool {
    &&& post.workblocks@ == spec_mark_archived(pre.workblocks@, date)
    &&& post.intervals@ == pre.intervals@
    &&& post.next_workblock_id == pre.next_workblock_id
    &&& post.next_interval_id == pre.next_interval_id
    &&& post.next_archive_id == pre.next_archive_id + 1
    &&& archive_entry_of(post.archives@, date) matches Some(st) && archive_content_ok(
        pre,
        date,
        now,
        st,
    )
    &&& forall|d2: Date|
        d2 != date ==> #[trigger] archive_entry_of(post.archives@, d2) == archive_entry_of(
            pre.archives@,
            d2,
        )
}

/// A deep copy of an archive row.
fn copy_archive(a: &DailyArchive) -> (r: DailyArchive)
    ensures
        archive_eq(r, *a),
{
    DailyArchive {
        id: a.id,
        date: a.date,
        total_workblocks: a.total_workblocks,
        total_minutes: a.total_minutes,
        visualization_data: match &a.visualization_data {
            Some(v) => Some(copy_daily_viz(v)),
            None => None,
        },
        archived_at: a.archived_at,
    }
}

/// Index of the archive row of the given date, if any.
fn find_archive_index(archives: &Vec<DailyArchive>, date: Date) -> (r: Option<usize>)
    ensures
        match r {
            Some(i) => i < archives@.len() && archives@[i as int].date == date,
            None => !has_archive(archives@, date),
        },
{
    let mut i: usize = 0;
    while i < archives.len()
        invariant
            i <= archives@.len(),
            forall|j: int| 0 <= j < i ==> (#[trigger] archives@[j]).date != date,
        decreases archives@.len() - i,
    {
        if archives[i].date == date {
            return Some(i);
        }
        i += 1;
    }
    None
}

/// In a table whose dates are unique, the row found for a date is the one
/// at the matching index.
proof fn lemma_archive_entry_at(ars: Seq<DailyArchive>, date: Date, i: int)
    requires
        0 <= i < ars.len(),
        ars[i].date == date,
        forall|j: int| 0 <= j < ars.len() && j != i ==> (#[trigger] ars[j]).date != date,
    ensures
        archive_entry_of(ars, date) == Some(ars[i]),
    decreases ars.len(),
{
    if i < ars.len() - 1 {
        assert(ars.last().date != date);
        assert(ars.drop_last()[i] == ars[i]);
        lemma_archive_entry_at(ars.drop_last(), date, i);
    }
}

/// Rows of other dates do not change what a date's lookup finds.
proof fn lemma_archive_entry_other(a: Seq<DailyArchive>, b: Seq<DailyArchive>, date: Date)
    requires
        a.len() == b.len(),
        forall|j: int| 0 <= j < a.len() ==> (#[trigger] a[j]).date == date || a[j] == b[j],
        forall|j: int| 0 <= j < b.len() ==> (#[trigger] b[j]).date == date || a[j] == b[j],
    ensures
        forall|d2: Date|
            d2 != date ==> #[trigger] archive_entry_of(a, d2) == archive_entry_of(b, d2),
    decreases a.len(),
{
    if a.len() > 0 {
        lemma_archive_entry_other(a.drop_last(), b.drop_last(), date);
        assert forall|d2: Date| d2 != date implies #[trigger] archive_entry_of(a, d2)
            == archive_entry_of(b, d2) by {
            assert(archive_entry_of(a.drop_last(), d2) == archive_entry_of(b.drop_last(), d2));
            if a.last().date == date || b.last().date == date {
                assert(a[a.len() - 1].date == date || a[a.len() - 1] == b[a.len() - 1]);
            }
        }
    }
}

/// Archive one date: mark its workblocks archived, compute its totals,
/// generate and store the day's visualization, and insert (or overwrite)
/// its archive row. Archiving a date with no workblocks is refused.
pub fn archive_daily_data(s: &mut Store, date: Date, now: i64) -> (r: Result<
    DailyArchive,
    StoreError,
>)
    requires
        old(s).wf(),
    ensures
        final(s).wf(),
        match r {
            Ok(a) => {
                &&& workblocks_with_date(old(s).workblocks@, date).len() > 0
                &&& old(s).next_archive_id < i64::MAX
                &&& archive_content_ok(*old(s), date, now as int, a)
                &&& archive_outcome(*old(s), *final(s), date, now as int)
            },
            Err(e) => {
                &&& *final(s) == *old(s)
                &&& (e == StoreError::ArchiveEmpty <==> workblocks_with_date(
                    old(s).workblocks@,
                    date,
                ).len() == 0)
                &&& (e == StoreError::Conflict <==> workblocks_with_date(
                    old(s).workblocks@,
                    date,
                ).len() > 0 && old(s).next_archive_id == i64::MAX)
                &&& (workblocks_with_date(old(s).workblocks@, date).len() == 0 || old(
                    s,
                ).next_archive_id == i64::MAX)
            },
        },
{
    let ghost pre = *s;
    let wbs = match get_workblocks_by_date(s, date) {
        Ok(w) => w,
        Err(_) => {
            proof {
                assert(false);
            }
            return Err(StoreError::NotFound);
        },
    };
    proof {
        lemma_sort_workblocks_props(workblocks_with_date(s.workblocks@, date));
    }
    if wbs.is_empty() {
        return Err(StoreError::ArchiveEmpty);
    }
    if s.next_archive_id == i64::MAX {
        return Err(StoreError::Conflict);
    }
    // Generate the summaries twice from the same unmarked tables: once to
    // store, once to hand back.
    let viz_stored = match crate::viz::generate_daily_visualization_data(s, date) {
        Ok(v) => v,
        Err(_) => {
            proof {
                assert(false);
            }
            return Err(StoreError::NotFound);
        },
    };
    let viz_returned = match crate::viz::generate_daily_visualization_data(s, date) {
        Ok(v) => v,
        Err(_) => {
            proof {
                assert(false);
            }
            return Err(StoreError::NotFound);
        },
    };
    let total_workblocks = viz_stored.daily_aggregate.total_workblocks;
    let total_minutes = viz_stored.daily_aggregate.total_minutes;
    // Mark every workblock of the date archived.
    let mut i: usize = 0;
    while i < s.workblocks.len()
        invariant
            i <= s.workblocks@.len(),
            s.workblocks@.len() == pre.workblocks@.len(),
            forall|j: int|
                0 <= j < i ==> s.workblocks@[j] == spec_mark_archived(pre.workblocks@, date)[j],
            forall|j: int| i <= j < s.workblocks@.len() ==> s.workblocks@[j] == pre.workblocks@[j],
            s.intervals@ == pre.intervals@,
            s.archives@ == pre.archives@,
            s.next_workblock_id == pre.next_workblock_id,
            s.next_interval_id == pre.next_interval_id,
            s.next_archive_id == pre.next_archive_id,
        decreases s.workblocks@.len() - i,
    {
        if s.workblocks[i].date == date {
            let mut wb = s.workblocks[i];
            wb.is_archived = true;
            s.workblocks.set(i, wb);
        }
        i += 1;
    }
    proof {
        assert(s.workblocks@ =~= spec_mark_archived(pre.workblocks@, date));
        assert forall|j: int| 0 <= j < s.workblocks@.len() implies {
            &&& (#[trigger] s.workblocks@[j]).id == pre.workblocks@[j].id
            &&& s.workblocks@[j].status == pre.workblocks@[j].status
        } by {}
        assert(s.wf());
    }
    let id = s.next_archive_id;
    s.next_archive_id = id + 1;
    let a = DailyArchive {
        id: Some(id),
        date,
        total_workblocks,
        total_minutes,
        visualization_data: Some(viz_stored),
        archived_at: Some(now),
    };
    let returned = DailyArchive {
        id: Some(id),
        date,
        total_workblocks,
        total_minutes,
        visualization_data: Some(viz_returned),
        archived_at: Some(now),
    };
    let ghost ars_pre = s.archives@;
    match find_archive_index(&s.archives, date) {
        Some(ai) => {
            s.archives.set(ai, a);
            proof {
                assert forall|j: int|
                    0 <= j < s.archives@.len() && j != ai ==> (#[trigger] s.archives@[j]).date
                        != date by {}
                lemma_archive_entry_at(s.archives@, date, ai as int);
                lemma_archive_entry_other(s.archives@, ars_pre, date);
            }
        },
        None => {
            s.archives.push(a);
            proof {
                assert(s.archives@.last().date == date);
                assert(s.archives@.drop_last() =~= ars_pre);
                assert forall|d2: Date| d2 != date implies #[trigger] archive_entry_of(
                    s.archives@,
                    d2,
                ) == archive_entry_of(ars_pre, d2) by {}
            }
        },
    }
    Ok(returned)
}

/// The archive row of the given date, if one exists.
pub fn get_archived_day(s: &Store, date: Date) -> (r: Result<Option<DailyArchive>, StoreError>)
    requires
        s.wf(),
    ensures
        match r {
            Ok(cur) => match (cur, archive_entry_of(s.archives@, date)) {
                (Some(a), Some(st)) => archive_eq(a, st),
                (None, None) => true,
                _ => false,
            },
            Err(_) => false,
        },
{
    let mut i: usize = s.archives.len();
    proof {
        assert(s.archives@.take(i as int) =~= s.archives@);
    }
    while i > 0
        invariant
            i <= s.archives@.len(),
            archive_entry_of(s.archives@, date) == archive_entry_of(
                s.archives@.take(i as int),
                date,
            ),
        decreases i,
    {
        proof {
            assert(s.archives@.take(i as int).drop_last() =~= s.archives@.take(i as int - 1));
            assert(s.archives@.take(i as int).last() == s.archives@[i as int - 1]);
        }
        if s.archives[i - 1].date == date {
            return Ok(Some(copy_archive(&s.archives[i - 1])));
        }
        i -= 1;
    }
    Ok(None)
}

/// A date folded into one ordering key: later days have larger keys.
pub open spec fn spec_date_key(d: Date) -> int {
    d.year * 10000 + d.month * 100 + d.day
}

/// A date folded into one ordering key.
pub fn date_key(d: Date) -> (k: i64)
    ensures
        k as int == spec_date_key(d),
{
    (d.year as i64) * 10000 + (d.month as i64) * 100 + (d.day as i64)
}

/// Where an archive row belongs in a date-descending sequence: before
/// the first entry dated earlier.
pub open spec fn spec_archive_insert_pos(sorted: Seq<DailyArchive>, x: DailyArchive) -> int
    decreases sorted.len(),
{
    if sorted.len() == 0 {
        0
    } else if spec_date_key(x.date) < spec_date_key(sorted.first().date) {
        1 + spec_archive_insert_pos(sorted.drop_first(), x)
    } else {
        0
    }
}

/// The archive rows reordered by descending date.
pub open spec fn spec_sort_archives_desc(ars: Seq<DailyArchive>) -> Seq<DailyArchive>
    decreases ars.len(),
{
    if ars.len() == 0 {
        Seq::empty()
    } else {
        let sorted = spec_sort_archives_desc(ars.drop_last());
        sorted.insert(spec_archive_insert_pos(sorted, ars.last()), ars.last())
    }
}

/// The archive insert position is in range.
proof fn lemma_archive_insert_pos_range(sorted: Seq<DailyArchive>, x: DailyArchive)
    ensures
        0 <= spec_archive_insert_pos(sorted, x) <= sorted.len(),
    decreases sorted.len(),
{
    if sorted.len() > 0 && spec_date_key(x.date) < spec_date_key(sorted.first().date) {
        lemma_archive_insert_pos_range(sorted.drop_first(), x);
    }
}

/// All archive rows, most recent date first. The returned rows hold the
/// same data as the stored ones.
pub fn get_all_archived_dates(s: &Store) -> (r: Result<Vec<DailyArchive>, StoreError>)
    requires
        s.wf(),
    ensures
        r matches Ok(ars) && {
            &&& ars@.len() == spec_sort_archives_desc(s.archives@).len()
            &&& forall|k: int|
                0 <= k < ars@.len() ==> archive_eq(
                    #[trigger] ars@[k],
                    spec_sort_archives_desc(s.archives@)[k],
                )
        },
{
    let mut out: Vec<DailyArchive> = Vec::new();
    let mut i: usize = 0;
    proof {
        assert(s.archives@.take(0) =~= Seq::<DailyArchive>::empty());
    }
    while i < s.archives.len()
        invariant
            i <= s.archives@.len(),
            out@.len() == spec_sort_archives_desc(s.archives@.take(i as int)).len(),
            forall|k: int|
                0 <= k < out@.len() ==> (#[trigger] out@[k]).date == spec_sort_archives_desc(
                    s.archives@.take(i as int),
                )[k].date,
            forall|k: int|
                0 <= k < out@.len() ==> archive_eq(
                    #[trigger] out@[k],
                    spec_sort_archives_desc(s.archives@.take(i as int))[k],
                ),
        decreases s.archives@.len() - i,
    {
        let ghost sorted = spec_sort_archives_desc(s.archives@.take(i as int));
        proof {
            assert(s.archives@.take(i as int + 1).drop_last() =~= s.archives@.take(i as int));
            assert(s.archives@.take(i as int + 1).last() == s.archives@[i as int]);
            lemma_archive_insert_pos_range(sorted, s.archives@[i as int]);
        }
        let x = copy_archive(&s.archives[i]);
        let key = date_key(s.archives[i].date);
        // Find where the row belongs among the already-sorted copies.
        let mut p: usize = 0;
        proof {
            assert(sorted.skip(0) =~= sorted);
        }
        while p < out.len() && key < date_key(out[p].date)
            invariant
                p <= out@.len(),
                out@.len() == sorted.len(),
                key as int == spec_date_key(s.archives@[i as int].date),
                forall|k: int| 0 <= k < out@.len() ==> (#[trigger] out@[k]).date == sorted[k].date,
                spec_archive_insert_pos(sorted, s.archives@[i as int]) == p
                    + spec_archive_insert_pos(sorted.skip(p as int), s.archives@[i as int]),
            decreases out@.len() - p,
        {
            proof {
                assert(sorted.skip(p as int).first() == sorted[p as int]);
                assert(sorted.skip(p as int).drop_first() =~= sorted.skip(p as int + 1));
            }
            p += 1;
        }
        proof {
            if p < sorted.len() {
                assert(sorted.skip(p as int).first() == sorted[p as int]);
            }
            assert(spec_archive_insert_pos(sorted.skip(p as int), s.archives@[i as int]) == 0);
        }
        out.insert(p, x);
        i += 1;
    }
    proof {
        assert(s.archives@.take(i as int) =~= s.archives@);
    }
    Ok(out)
}

/// Some workblock is Active and dated other than `today` (left over from
/// before midnight).
pub open spec fn has_stale_active(wbs: Seq<Workblock>, today: Date) -> bool {
    exists|i: int| 0 <= i < wbs.len() && wbs[i].status is Active && wbs[i].date != today
}

/// Some workblock of the given date is not archived yet.
pub open spec fn has_unarchived_on(wbs: Seq<Workblock>, date: Date) -> bool {
    exists|i: int| 0 <= i < wbs.len() && wbs[i].date == date && !wbs[i].is_archived
}

/// The workblock rows with every stale Active row force-completed at
/// `now` (its duration is not recomputed).
pub open spec fn spec_force_complete_stale(wbs: Seq<Workblock>, today: Date, now: int) -> Seq<
    Workblock,
> {
    Seq::new(
        wbs.len(),
        |i: int|
            if wbs[i].status is Active && wbs[i].date != today {
                Workblock { status: WorkblockStatus::Completed, end_time: Some(now as i64), ..wbs[i] }
            } else {
                wbs[i]
            },
    )
}

/// The day-rollover check. If some workblock is still Active under an
/// earlier date, that date is archived and the stale workblock is
/// force-completed. Otherwise, if yesterday still has unarchived
/// workblocks, yesterday is archived. Returns the archived date, if any
/// action was taken.
pub fn check_and_reset_daily(s: &mut Store, today: Date, now: i64) -> (r: Result<
    Option<Date>,
    StoreError,
>)
    requires
        old(s).wf(),
        today.wf(),
    ensures
        final(s).wf(),
        match r {
            Ok(res) => match res {
                Some(d) => {
                    ||| {
                        &&& has_stale_active(old(s).workblocks@, today)
                        &&& exists|i: int|
                            {
                                &&& 0 <= i < old(s).workblocks@.len()
                                &&& (#[trigger] old(s).workblocks@[i]).status is Active
                                &&& old(s).workblocks@[i].date != today
                                &&& d == old(s).workblocks@[i].date
                            }
                        &&& exists|mid: Store|
                            {
                                &&& #[trigger] archive_outcome(*old(s), mid, d, now as int)
                                &&& final(s).workblocks@ == spec_force_complete_stale(
                                    mid.workblocks@,
                                    today,
                                    now as int,
                                )
                                &&& final(s).intervals@ == mid.intervals@
                                &&& final(s).archives@ == mid.archives@
                            }
                        &&& final(s).next_workblock_id == old(s).next_workblock_id
                        &&& final(s).next_interval_id == old(s).next_interval_id
                    }
                    ||| {
                        &&& !has_stale_active(old(s).workblocks@, today)
                        &&& d == today.spec_prev()
                        &&& has_unarchived_on(old(s).workblocks@, d)
                        &&& archive_outcome(*old(s), *final(s), d, now as int)
                        &&& final(s).next_workblock_id == old(s).next_workblock_id
                        &&& final(s).next_interval_id == old(s).next_interval_id
                    }
                },
                None => {
                    &&& *final(s) == *old(s)
                    &&& !has_stale_active(old(s).workblocks@, today)
                    &&& !has_unarchived_on(old(s).workblocks@, today.spec_prev())
                },
            },
            Err(e) => {
                &&& *final(s) == *old(s)
                &&& e == StoreError::Conflict
                &&& old(s).next_archive_id == i64::MAX
            },
        },
{
    // Look for a workblock still Active under another date.
    let stale = find_stale_active(&s.workblocks, today);
    if let Some(d) = stale {
        let ghost pre = *s;
        match archive_daily_data(s, d, now) {
            Ok(_) => {},
            Err(e) => {
                proof {
                    let wi = choose|i: int|
                        {
                            &&& 0 <= i < pre.workblocks@.len()
                            &&& (#[trigger] pre.workblocks@[i]).status is Active
                            &&& pre.workblocks@[i].date != today
                            &&& d == pre.workblocks@[i].date
                        };
                    assert(pre.workblocks@[wi].date == d);
                    lemma_with_date_has(pre.workblocks@, d);
                }
                return Err(e);
            },
        }
        let ghost mid = *s;
        // Force-complete the stale Active workblocks.
        let mut k: usize = 0;
        while k < s.workblocks.len()
            invariant
                k <= s.workblocks@.len(),
                s.workblocks@.len() == mid.workblocks@.len(),
                forall|j: int|
                    0 <= j < k ==> s.workblocks@[j] == spec_force_complete_stale(
                        mid.workblocks@,
                        today,
                        now as int,
                    )[j],
                forall|j: int|
                    k <= j < s.workblocks@.len() ==> s.workblocks@[j] == mid.workblocks@[j],
                s.intervals@ == mid.intervals@,
                s.archives@ == mid.archives@,
                s.next_workblock_id == mid.next_workblock_id,
                s.next_interval_id == mid.next_interval_id,
                s.next_archive_id == mid.next_archive_id,
            decreases s.workblocks@.len() - k,
        {
            let wb = s.workblocks[k];
            if matches!(wb.status, WorkblockStatus::Active) && !(wb.date == today) {
                let mut updated = wb;
                updated.status = WorkblockStatus::Completed;
                updated.end_time = Some(now);
                s.workblocks.set(k, updated);
            }
            k += 1;
        }
        proof {
            assert(s.workblocks@ =~= spec_force_complete_stale(mid.workblocks@, today, now as int));
            assert forall|j: int| 0 <= j < s.workblocks@.len() implies {
                &&& (#[trigger] s.workblocks@[j]).id == mid.workblocks@[j].id
                &&& (s.workblocks@[j].status is Active ==> mid.workblocks@[j].status is Active)
            } by {}
            assert(s.wf());
        }
        return Ok(Some(d));
    }
    // No stale Active workblock: archive yesterday if it still has
    // unarchived workblocks.
    let yesterday = crate::date::prev_day(today);
    let unarchived = any_unarchived_on(&s.workblocks, yesterday);
    if unarchived {
        let ghost pre = *s;
        match archive_daily_data(s, yesterday, now) {
            Ok(_) => {},
            Err(e) => {
                proof {
                    let wi = choose|i: int|
                        0 <= i < pre.workblocks@.len() && (#[trigger] pre.workblocks@[i]).date
                            == yesterday && !pre.workblocks@[i].is_archived;
                    assert(pre.workblocks@[wi].date == yesterday);
                    lemma_with_date_has(pre.workblocks@, yesterday);
                }
                return Err(e);
            },
        }
        return Ok(Some(yesterday));
    }
    Ok(None)
}

/// The date of some workblock still Active under a date other than
/// `today`, if any.
fn find_stale_active(workblocks: &Vec<Workblock>, today: Date) -> (r: Option<Date>)
    ensures
        match r {
            Some(d) => exists|i: int|
                {
                    &&& 0 <= i < workblocks@.len()
                    &&& (#[trigger] workblocks@[i]).status is Active
                    &&& workblocks@[i].date != today
                    &&& d == workblocks@[i].date
                },
            None => !has_stale_active(workblocks@, today),
        },
{
    let mut i: usize = 0;
    while i < workblocks.len()
        invariant
            i <= workblocks@.len(),
            forall|j: int|
                0 <= j < i ==> !((#[trigger] workblocks@[j]).status is Active && workblocks@[j].date
                    != today),
        decreases workblocks@.len() - i,
    {
        let wb = workblocks[i];
        if matches!(wb.status, WorkblockStatus::Active) && !(wb.date == today) {
            return Some(wb.date);
        }
        i += 1;
    }
    None
}

/// Whether some workblock of the given date is not archived yet.
fn any_unarchived_on(workblocks: &Vec<Workblock>, date: Date) -> (r: bool)
    ensures
        r == has_unarchived_on(workblocks@, date),
{
    let mut i: usize = 0;
    while i < workblocks.len()
        invariant
            i <= workblocks@.len(),
            forall|j: int|
                0 <= j < i ==> !((#[trigger] workblocks@[j]).date == date
                    && !workblocks@[j].is_archived),
        decreases workblocks@.len() - i,
    {
        let wb = workblocks[i];
        if wb.date == date && !wb.is_archived {
            return true;
        }
        i += 1;
    }
    false
}

/// Appending one interval raises exactly its own workblock's count.
pub proof fn lemma_num_intervals_push(ivs: Seq<Interval>, x: Interval)
    ensures
        forall|wid: i64|
            #[trigger] num_intervals_for(ivs.push(x), wid) == num_intervals_for(ivs, wid) + (
            if x.workblock_id == wid {
                1int
            } else {
                0int
            }),
{
    assert(ivs.push(x).drop_last() =~= ivs);
    assert(ivs.push(x).last() == x);
}

/// Replacing an interval without moving it between workblocks leaves
/// every workblock's count unchanged.
pub proof fn lemma_num_intervals_update(ivs: Seq<Interval>, i: int, x: Interval)
    requires
        0 <= i < ivs.len(),
        x.workblock_id == ivs[i].workblock_id,
    ensures
        forall|wid: i64|
            #[trigger] num_intervals_for(ivs.update(i, x), wid) == num_intervals_for(ivs, wid),
{
    assert forall|wid: i64| #[trigger] num_intervals_for(ivs.update(i, x), wid)
        == num_intervals_for(ivs, wid) by {
        assert(forall|m: int|
            0 <= m < ivs.len() ==> (#[trigger] ivs[m]).workblock_id == ivs.update(
                i,
                x,
            )[m].workblock_id);
        lemma_num_intervals_congruent(ivs, ivs.update(i, x), wid);
    }
}

/// Counting intervals never goes negative.
pub proof fn lemma_num_intervals_nonneg(ivs: Seq<Interval>, workblock_id: i64)
    ensures
        0 <= num_intervals_for(ivs, workblock_id),
    decreases ivs.len(),
{
    if ivs.len() > 0 {
        lemma_num_intervals_nonneg(ivs.drop_last(), workblock_id);
    }
}

/// At most one workblock is ever Active: any two Active rows of a
/// well-formed store are the same row.
pub proof fn lemma_at_most_one_active(s: Store, i: int, j: int)
    requires
        s.wf(),
        0 <= i < s.workblocks@.len(),
        0 <= j < s.workblocks@.len(),
        s.workblocks@[i].status is Active,
        s.workblocks@[j].status is Active,
    ensures
        i == j,
{
}

/// The interval numbers of any workblock of a well-formed store, read in
/// store order, are exactly 1, 2, ..., n: contiguous from 1, with no
/// gaps and no duplicates.
pub proof fn lemma_store_interval_numbers(s: Store, workblock_id: i64)
    requires
        s.wf(),
    ensures
        forall|k: int|
            0 <= k < intervals_for(s.intervals@, workblock_id).len() ==> (#[trigger] intervals_for(
                s.intervals@,
                workblock_id,
            )[k]).interval_number as int == k + 1,
{
    lemma_interval_numbers_contiguous(s.intervals@, workblock_id);
}

/// Round trip: after a date is archived, reading that date back yields an
/// archive whose totals are the date's totals and whose visualization
/// payload satisfies everything the whole-day generator states of the
/// pre-archive tables.
pub proof fn lemma_archive_round_trip(pre: Store, post: Store, date: Date, now: int)
    requires
        archive_outcome(pre, post, date, now),
    ensures
        archive_entry_of(post.archives@, date) matches Some(st) && {
            &&& st.total_workblocks as int == crate::viz::spec_count_i64(
                spec_sort_workblocks(workblocks_with_date(pre.workblocks@, date)).len() as int,
            )
            &&& st.total_minutes as int == crate::viz::total_planned_minutes(
                spec_sort_workblocks(workblocks_with_date(pre.workblocks@, date)),
            )
            &&& st.visualization_data matches Some(dv) && crate::viz::daily_viz_props(
                pre.workblocks@,
                pre.intervals@,
                date,
                dv,
            )
        },
{
}

/// The current interval, when one exists, is one of the rows.
pub proof fn lemma_current_interval_in(ivs: Seq<Interval>, workblock_id: i64)
    ensures
        current_interval_of(ivs, workblock_id) matches Some(cur) ==> exists|i: int|
            0 <= i < ivs.len() && ivs[i] == cur,
    decreases ivs.len(),
{
    if ivs.len() > 0 {
        if ivs.last().workblock_id == workblock_id && ivs.last().status is Pending {
            assert(ivs[ivs.len() - 1] == ivs.last());
        } else {
            lemma_current_interval_in(ivs.drop_last(), workblock_id);
            match current_interval_of(ivs, workblock_id) {
                Some(cur) => {
                    let i = choose|i: int|
                        0 <= i < ivs.drop_last().len() && ivs.drop_last()[i] == cur;
                    assert(ivs[i] == cur);
                },
                None => {},
            }
        }
    }
}

/// Day rollover forces a stale workblock's completion: when a date is
/// archived and the stale Active rows force-completed (the two steps of
/// the rollover's stale case), a row that was Active under the archived
/// date ends Completed with its end time stamped and marked archived,
/// every row of that date is marked archived, and the date's archive row
/// holds the freshly generated summary of the pre-rollover tables.
pub proof fn lemma_rollover_completes_stale(
    pre: Store,
    mid: Store,
    post: Store,
    today: Date,
    d: Date,
    now: int,
    i: int,
)
    requires
        archive_outcome(pre, mid, d, now),
        post.workblocks@ == spec_force_complete_stale(mid.workblocks@, today, now),
        0 <= i < pre.workblocks@.len(),
        pre.workblocks@[i].status is Active,
        pre.workblocks@[i].date != today,
        pre.workblocks@[i].date == d,
    ensures
        post.workblocks@.len() == pre.workblocks@.len(),
        post.workblocks@[i].status is Completed,
        post.workblocks@[i].end_time == Some(now as i64),
        post.workblocks@[i].is_archived,
        forall|j: int|
            0 <= j < pre.workblocks@.len() && (#[trigger] pre.workblocks@[j]).date == d
                ==> post.workblocks@[j].is_archived,
        archive_entry_of(mid.archives@, d) matches Some(st) && archive_content_ok(
            pre,
            d,
            now,
            st,
        ),
{
    assert(mid.workblocks@[i] == (Workblock { is_archived: true, ..pre.workblocks@[i] }));
    assert(post.workblocks@[i] == (Workblock {
        status: WorkblockStatus::Completed,
        end_time: Some(now as i64),
        ..mid.workblocks@[i]
    }));
    assert forall|j: int|
        0 <= j < pre.workblocks@.len() && (#[trigger] pre.workblocks@[j]).date == d implies post.workblocks@[j].is_archived by {
        assert(mid.workblocks@[j].is_archived);
    }
}

/// A date with an (un)archived workblock has a nonempty day listing.
proof fn lemma_with_date_has(wbs: Seq<Workblock>, date: Date)
    requires
        exists|i: int| 0 <= i < wbs.len() && (#[trigger] wbs[i]).date == date,
    ensures
        workblocks_with_date(wbs, date).len() > 0,
    decreases wbs.len(),
{
    if wbs.len() > 0 {
        if wbs.last().date == date {
        } else {
            let i = choose|i: int| 0 <= i < wbs.len() && (#[trigger] wbs[i]).date == date;
            assert(wbs.drop_last()[i] == wbs[i]);
            lemma_with_date_has(wbs.drop_last(), date);
        }
    }
}

} // verus!
