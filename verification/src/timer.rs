//! The interval scheduler: the workblock lifecycle state machine.
//!
//! [`TimerManager`] owns the transient timer state of one run: which
//! workblock is live, which interval is current, and whether an auto-away
//! timer is armed. The actual waiting (the slice tick and the grace
//! window) is the caller's: when a slice elapses the caller invokes
//! [`TimerManager::tick`], and when the grace window of an armed
//! auto-away timer expires it invokes [`TimerManager::auto_away_fire`].
//! Each method decides everything from its arguments and the store, so
//! the decisions are verified for every interleaving the caller can
//! produce.
//!
//! The one subtle rule of the lifecycle lives here: when the last slice
//! elapses, the tick loop stops *without* completing the workblock;
//! completion happens only once the final interval has its outcome, by
//! user submission or by auto-away.

use vstd::prelude::*;

use vstd::string::StringExecFns;

use crate::SLICE_LENGTH_MINUTES;
use crate::store::{
    IntervalStatus, Store, StoreError, WorkblockStatus, add_interval, complete_workblock,
    cancel_workblock, get_active_workblock, get_current_interval, get_interval_by_id,
    get_workblock_by_id, has_interval, has_workblock, num_intervals_for, update_interval_words,
};

verus! {

/// The transient scheduling state of one run.
#[derive(Clone, Copy, Debug, PartialEq, Eq, Structural)]
pub struct TimerState {
    pub workblock_id: Option<i64>,
    pub current_interval_id: Option<i64>,
    pub current_interval_number: i32,
    /// When the current interval began, seconds since the epoch.
    pub interval_start_time: Option<i64>,
    /// When the prompt for the elapsed interval was shown.
    pub prompt_shown_time: Option<i64>,
    pub is_running: bool,
}

/// The idle timer state: no workblock, nothing running.
pub open spec fn spec_idle_state() -> TimerState {
    TimerState {
        workblock_id: None,
        current_interval_id: None,
        current_interval_number: 0,
        interval_start_time: None,
        prompt_shown_time: None,
        is_running: false,
    }
}

impl Default for TimerState {
    /// The idle state.
    fn default() -> (r: Self)
        ensures
            r == spec_idle_state(),
    {
        TimerState {
            workblock_id: None,
            current_interval_id: None,
            current_interval_number: 0,
            interval_start_time: None,
            prompt_shown_time: None,
            is_running: false,
        }
    }
}

/// Why a timer operation was refused.
#[derive(Clone, Copy, Debug, PartialEq, Eq, Structural)]
pub enum TimerError {
    /// A workblock is already running.
    AlreadyRunning,
    /// The operation names a workblock the timer does not currently own.
    WorkblockMismatch,
    /// The store refused the persistence step.
    Store(StoreError),
}

/// What one tick decided.
#[derive(Clone, Copy, Debug, PartialEq, Eq, Structural)]
pub enum TickOutcome {
    /// The timer was not running: nothing was done and ticking stops.
    Stopped,
    /// A slice elapsed and the next Pending interval was persisted:
    /// prompt for the elapsed interval and keep ticking.
    SliceElapsed { workblock_id: i64, interval_id: i64, interval_number: i32, next_interval_id: i64 },
    /// The slice that elapsed was the workblock's last: prompt for it and
    /// stop ticking, leaving the workblock Active until that final
    /// interval gets its outcome.
    LastSliceElapsed { workblock_id: i64, interval_id: i64, interval_number: i32 },
    /// The next interval could not be persisted: this workblock's
    /// scheduling halts rather than run with broken numbering.
    Halted { workblock_id: i64, interval_id: i64, interval_number: i32, error: StoreError },
}

/// What firing the auto-away timer decided.
#[derive(Clone, Copy, Debug, PartialEq, Eq, Structural)]
pub enum AutoAwayOutcome {
    /// No auto-away timer was armed.
    NoTimer,
    /// The interval no longer qualifies (it already has content, or is
    /// gone): nothing was recorded.
    Skipped,
    /// The interval was recorded as away; the workblock goes on.
    RecordedAway { interval_id: i64 },
    /// The interval was recorded as away and, being the workblock's last,
    /// the workblock was completed and the timer reset.
    CompletedWorkblock { interval_id: i64, workblock_id: i64 },
}

/// What restoring from the store decided.
#[derive(Clone, Copy, Debug, PartialEq, Eq, Structural)]
pub enum RestoreOutcome {
    /// No Active workblock: the timer is idle.
    Idle,
    /// The state was rebuilt from the current Pending interval.
    Resumed { workblock_id: i64, interval_id: i64, remaining_intervals: i64 },
    /// No Pending interval existed, so a fresh one was persisted for the
    /// next slice.
    ResumedFresh { workblock_id: i64, interval_id: i64, remaining_intervals: i64 },
    /// An Active workblock exists but all its slices are spent: the timer
    /// stays idle awaiting explicit completion.
    Finished { workblock_id: i64 },
}

/// How many whole slices a planned duration yields; any remainder is
/// dropped, and a non-positive duration yields none.
pub open spec fn spec_total_intervals(duration_minutes: int) -> int {
    if duration_minutes <= 0 {
        0
    } else {
        duration_minutes / (SLICE_LENGTH_MINUTES as int)
    }
}

/// How many whole slices a planned duration yields. This is the single
/// place the slice arithmetic lives; the tick loop, the auto-away path
/// and the submission path all share it.
pub fn total_intervals(duration_minutes: i32) -> (n: i32)
    ensures
        n as int == spec_total_intervals(duration_minutes as int),
        0 <= n <= duration_minutes || n == 0,
{
    if duration_minutes <= 0 {
        0
    } else {
        duration_minutes / SLICE_LENGTH_MINUTES
    }
}

/// One interval is always scheduled, even for a run whose planned
/// duration yields no whole slice.
pub open spec fn spec_slice_cap(total: int) -> int {
    if total >= 1 {
        total
    } else {
        1
    }
}

/// The scheduling bound of one run: while the timer runs a workblock,
/// the store holds exactly `current_interval_number` intervals for it,
/// and that number never exceeds the run's slice total.
/// `start_workblock` establishes this, and `tick`, `auto_away_fire` and
/// content submission preserve it.
pub open spec fn run_invariant(t: TimerManager, s: Store, workblock_id: i64) -> bool {
    (t.state.is_running && t.state.workblock_id == Some(workblock_id)) ==> {
        &&& num_intervals_for(s.intervals@, workblock_id)
            == t.state.current_interval_number as int
        &&& t.state.current_interval_number as int <= spec_slice_cap(t.total_intervals as int)
    }
}

/// Exactly `total_intervals` slices are ever scheduled: under the run
/// invariant, the store never holds more intervals for the running
/// workblock than the run's slice total — a 60-minute run with 15-minute
/// slices schedules 4 intervals and never a 5th (`tick` persists another
/// interval only while the current number is below the total).
pub proof fn lemma_scheduling_bound(t: TimerManager, s: Store, workblock_id: i64)
    requires
        run_invariant(t, s, workblock_id),
        t.state.is_running,
        t.state.workblock_id == Some(workblock_id),
    ensures
        num_intervals_for(s.intervals@, workblock_id) <= spec_slice_cap(t.total_intervals as int),
{
}

/// Seconds left of the current slice: the slice length minus the elapsed
/// seconds, floored at 0 and capped at `i64::MAX`.
pub open spec fn spec_time_remaining(start: int, now: int) -> int {
    let slice_secs = SLICE_LENGTH_MINUTES as int * 60;
    if now - start >= slice_secs {
        0
    } else if slice_secs - (now - start) > i64::MAX {
        i64::MAX as int
    } else {
        slice_secs - (now - start)
    }
}

/// The timer's whole state: scheduling state, the armed auto-away timer,
/// and the run's slice count.
pub struct TimerManager {
    pub state: TimerState,
    /// The interval the armed auto-away timer would record, if any.
    pub auto_away_pending: Option<i64>,
    /// Total slices of the running workblock.
    pub total_intervals: i32,
}

impl TimerManager {
    /// A running timer always knows its workblock, its current interval
    /// and that interval's start.
    pub open spec fn wf(self) -> bool {
        self.state.is_running ==> {
            &&& self.state.workblock_id is Some
            &&& self.state.current_interval_id is Some
            &&& self.state.interval_start_time is Some
            &&& self.state.current_interval_number >= 1
        }
    }

    /// An idle timer.
    pub fn new() -> (t: Self)
        ensures
            t.state == spec_idle_state(),
            t.auto_away_pending is None,
            t.wf(),
    {
        TimerManager { state: TimerState::default(), auto_away_pending: None, total_intervals: 0 }
    }

    /// The current scheduling state.
    pub fn get_state(&self) -> (r: TimerState)
        ensures
            r == self.state,
    {
        self.state
    }

    /// Seconds left of the current slice, if an interval is running.
    pub fn get_interval_time_remaining(&self, now: i64) -> (r: Option<i64>)
        ensures
            match self.state.interval_start_time {
                Some(st) => r matches Some(rem) && rem as int == spec_time_remaining(
                    st as int,
                    now as int,
                ),
                None => r is None,
            },
    {
        match self.state.interval_start_time {
            Some(st) => {
                let slice_secs: i128 = SLICE_LENGTH_MINUTES as i128 * 60;
                let elapsed: i128 = now as i128 - st as i128;
                let remaining: i128 = slice_secs - elapsed;
                if remaining <= 0 {
                    Some(0)
                } else if remaining > i64::MAX as i128 {
                    Some(i64::MAX)
                } else {
                    Some(remaining as i64)
                }
            },
            None => None,
        }
    }

    /// Start the run of a workblock: persist interval 1 and set the
    /// scheduling state. Refused while a run is in progress.
    pub fn start_workblock(
        &mut self,
        s: &mut Store,
        workblock_id: i64,
        duration_minutes: i32,
        now: i64,
    ) -> (r: Result<(), TimerError>)
        requires
            old(s).wf(),
            old(self).wf(),
        ensures
            final(s).wf(),
            final(self).wf(),
            final(s).workblocks@ == old(s).workblocks@,
            final(s).archives@ == old(s).archives@,
            final(s).next_workblock_id == old(s).next_workblock_id,
            final(s).next_archive_id == old(s).next_archive_id,
            forall|wid: i64|
                #[trigger] run_invariant(*old(self), *old(s), wid) ==> run_invariant(
                    *final(self),
                    *final(s),
                    wid,
                ),
            match r {
                Ok(_) => {
                    &&& !old(self).state.is_running
                    &&& final(s).next_interval_id == old(s).next_interval_id + 1
                    &&& exists|iv: crate::store::Interval|
                        {
                            &&& #[trigger] final(s).intervals@ == old(s).intervals@.push(iv)
                            &&& iv == (crate::store::Interval {
                                id: Some(old(s).next_interval_id),
                                workblock_id,
                                interval_number: 1,
                                start_time: now,
                                end_time: None,
                                words: None,
                                status: IntervalStatus::Pending,
                                recorded_at: None,
                            })
                            &&& final(self).state == (TimerState {
                                workblock_id: Some(workblock_id),
                                current_interval_id: iv.id,
                                current_interval_number: 1,
                                interval_start_time: Some(now),
                                prompt_shown_time: None,
                                is_running: true,
                            })
                        }
                    &&& num_intervals_for(old(s).intervals@, workblock_id) == 0
                    &&& has_workblock(old(s).workblocks@, workblock_id)
                    &&& final(self).total_intervals as int == spec_total_intervals(
                        duration_minutes as int,
                    )
                    &&& final(self).auto_away_pending == old(self).auto_away_pending
                },
                Err(TimerError::AlreadyRunning) => {
                    &&& old(self).state.is_running
                    &&& *final(self) == *old(self)
                    &&& *final(s) == *old(s)
                },
                Err(TimerError::Store(se)) => {
                    &&& !old(self).state.is_running
                    &&& *final(s) == *old(s)
                    &&& final(self).state == spec_idle_state()
                    &&& (se == StoreError::NotFound || se == StoreError::Conflict)
                    &&& (se == StoreError::NotFound <==> !has_workblock(
                        old(s).workblocks@,
                        workblock_id,
                    ))
                    &&& (se == StoreError::Conflict <==> has_workblock(
                        old(s).workblocks@,
                        workblock_id,
                    ) && (num_intervals_for(old(s).intervals@, workblock_id) != 0 || old(
                        s,
                    ).next_interval_id == i64::MAX))
                },
                Err(TimerError::WorkblockMismatch) => false,
            },
    {
        if self.state.is_running {
            return Err(TimerError::AlreadyRunning);
        }
        let total = total_intervals(duration_minutes);
        match add_interval(s, workblock_id, 1, now) {
            Ok(iv) => {
                proof {
                    crate::store::lemma_num_intervals_push(old(s).intervals@, iv);
                }
                self.state = TimerState {
                    workblock_id: Some(workblock_id),
                    current_interval_id: iv.id,
                    current_interval_number: 1,
                    interval_start_time: Some(now),
                    prompt_shown_time: None,
                    is_running: true,
                };
                self.total_intervals = total;
                Ok(())
            },
            Err(e) => {
                self.state = TimerState::default();
                Err(TimerError::Store(e))
            },
        }
    }

    /// One elapsed slice. Decide under the current state: prompt for the
    /// elapsed interval, and either persist the next Pending interval,
    /// stop before the final outcome, or halt on a persistence failure.
    pub fn tick(&mut self, s: &mut Store, now: i64) -> (r: TickOutcome)
        requires
            old(s).wf(),
            old(self).wf(),
        ensures
            final(s).wf(),
            final(self).wf(),
            final(s).workblocks@ == old(s).workblocks@,
            final(s).archives@ == old(s).archives@,
            final(s).next_workblock_id == old(s).next_workblock_id,
            final(s).next_archive_id == old(s).next_archive_id,
            final(self).auto_away_pending == old(self).auto_away_pending,
            final(self).total_intervals == old(self).total_intervals,
            forall|wid: i64|
                #[trigger] run_invariant(*old(self), *old(s), wid) ==> run_invariant(
                    *final(self),
                    *final(s),
                    wid,
                ),
            match r {
                TickOutcome::Stopped => {
                    &&& !old(self).state.is_running
                    &&& *final(self) == *old(self)
                    &&& *final(s) == *old(s)
                },
                TickOutcome::LastSliceElapsed { workblock_id, interval_id, interval_number } => {
                    &&& old(self).state.is_running
                    &&& old(self).state.current_interval_number >= old(self).total_intervals
                    &&& Some(workblock_id) == old(self).state.workblock_id
                    &&& Some(interval_id) == old(self).state.current_interval_id
                    &&& interval_number == old(self).state.current_interval_number
                    &&& final(self).state == (TimerState {
                        prompt_shown_time: Some(now),
                        ..old(self).state
                    })
                    &&& *final(s) == *old(s)
                },
                TickOutcome::SliceElapsed {
                    workblock_id,
                    interval_id,
                    interval_number,
                    next_interval_id,
                } => {
                    &&& old(self).state.is_running
                    &&& old(self).state.current_interval_number < old(self).total_intervals
                    &&& Some(workblock_id) == old(self).state.workblock_id
                    &&& Some(interval_id) == old(self).state.current_interval_id
                    &&& interval_number == old(self).state.current_interval_number
                    &&& next_interval_id == old(s).next_interval_id
                    &&& final(s).next_interval_id == old(s).next_interval_id + 1
                    &&& exists|iv: crate::store::Interval|
                        {
                            &&& #[trigger] final(s).intervals@ == old(s).intervals@.push(iv)
                            &&& iv == (crate::store::Interval {
                                id: Some(next_interval_id),
                                workblock_id,
                                interval_number: (interval_number + 1) as i32,
                                start_time: now,
                                end_time: None,
                                words: None,
                                status: IntervalStatus::Pending,
                                recorded_at: None,
                            })
                        }
                    &&& final(self).state == (TimerState {
                        current_interval_id: Some(next_interval_id),
                        current_interval_number: (interval_number + 1) as i32,
                        interval_start_time: Some(now),
                        prompt_shown_time: Some(now),
                        ..old(self).state
                    })
                },
                TickOutcome::Halted { workblock_id, interval_id, interval_number, error } => {
                    &&& old(self).state.is_running
                    &&& old(self).state.current_interval_number < old(self).total_intervals
                    &&& Some(workblock_id) == old(self).state.workblock_id
                    &&& Some(interval_id) == old(self).state.current_interval_id
                    &&& interval_number == old(self).state.current_interval_number
                    &&& (error == StoreError::NotFound || error == StoreError::Conflict)
                    &&& (error == StoreError::NotFound <==> !has_workblock(
                        old(s).workblocks@,
                        workblock_id,
                    ))
                    &&& (error == StoreError::Conflict <==> has_workblock(
                        old(s).workblocks@,
                        workblock_id,
                    ) && (interval_number as int != num_intervals_for(
                        old(s).intervals@,
                        workblock_id,
                    ) || old(s).next_interval_id == i64::MAX))
                    &&& *final(s) == *old(s)
                    &&& final(self).state == (TimerState {
                        prompt_shown_time: Some(now),
                        is_running: false,
                        ..old(self).state
                    })
                },
            },
    {
        if !self.state.is_running {
            return TickOutcome::Stopped;
        }
        let workblock_id = match self.state.workblock_id {
            Some(id) => id,
            None => {
                return TickOutcome::Stopped;
            },
        };
        let interval_id = match self.state.current_interval_id {
            Some(id) => id,
            None => {
                return TickOutcome::Stopped;
            },
        };
        let interval_number = self.state.current_interval_number;
        self.state.prompt_shown_time = Some(now);
        if interval_number >= self.total_intervals {
            return TickOutcome::LastSliceElapsed { workblock_id, interval_id, interval_number };
        }
        let next_number = interval_number + 1;
        let next_interval_id = s.next_interval_id;
        match add_interval(s, workblock_id, next_number, now) {
            Ok(iv) => {
                proof {
                    crate::store::lemma_num_intervals_push(old(s).intervals@, iv);
                }
                self.state.current_interval_id = iv.id;
                self.state.current_interval_number = next_number;
                self.state.interval_start_time = Some(now);
                TickOutcome::SliceElapsed {
                    workblock_id,
                    interval_id,
                    interval_number,
                    next_interval_id,
                }
            },
            Err(e) => {
                self.state.is_running = false;
                TickOutcome::Halted { workblock_id, interval_id, interval_number, error: e }
            },
        }
    }

    /// Arm the auto-away timer for the given interval, replacing any
    /// armed one.
    pub fn start_auto_away_timer(&mut self, interval_id: i64) -> (r: Result<(), TimerError>)
        requires
            old(self).wf(),
        ensures
            final(self).wf(),
            r is Ok,
            final(self).auto_away_pending == Some(interval_id),
            final(self).state == old(self).state,
            final(self).total_intervals == old(self).total_intervals,
    {
        self.auto_away_pending = Some(interval_id);
        Ok(())
    }

    /// Disarm the auto-away timer. Idempotent: with no timer armed this
    /// changes nothing, and it never fails.
    pub fn cancel_auto_away_timer(&mut self)
        requires
            old(self).wf(),
        ensures
            final(self).wf(),
            final(self).auto_away_pending is None,
            final(self).state == old(self).state,
            final(self).total_intervals == old(self).total_intervals,
            old(self).auto_away_pending is None ==> *final(self) == *old(self),
    {
        self.auto_away_pending = None;
    }

    /// The grace window of the armed auto-away timer expired. If the
    /// interval still has no content, record it as away; if it was the
    /// workblock's last interval, also complete the workblock and reset
    /// the timer (the deferred completion the tick loop left behind).
    pub fn auto_away_fire(&mut self, s: &mut Store, now: i64) -> (r: AutoAwayOutcome)
        requires
            old(s).wf(),
            old(self).wf(),
        ensures
            final(s).wf(),
            final(self).wf(),
            final(s).next_workblock_id == old(s).next_workblock_id,
            final(s).next_interval_id == old(s).next_interval_id,
            final(s).next_archive_id == old(s).next_archive_id,
            forall|wid: i64|
                #[trigger] run_invariant(*old(self), *old(s), wid) ==> run_invariant(
                    *final(self),
                    *final(s),
                    wid,
                ),
            final(self).auto_away_pending is None || r is NoTimer,
            match r {
                AutoAwayOutcome::NoTimer => {
                    &&& old(self).auto_away_pending is None
                    &&& *final(self) == *old(self)
                    &&& *final(s) == *old(s)
                },
                AutoAwayOutcome::Skipped => {
                    &&& old(self).auto_away_pending matches Some(iid) && {
                        ||| !has_interval(old(s).intervals@, iid)
                        ||| exists|i: int|
                            {
                                &&& 0 <= i < old(s).intervals@.len()
                                &&& (#[trigger] old(s).intervals@[i]).id == Some(iid)
                                &&& (old(s).intervals@[i].words is Some || !(old(
                                    s,
                                ).intervals@[i].status is Pending))
                            }
                    }
                    &&& *final(s) == *old(s)
                    &&& final(self).state == old(self).state
                    &&& final(self).total_intervals == old(self).total_intervals
                },
                AutoAwayOutcome::RecordedAway { interval_id } => {
                    &&& old(self).auto_away_pending == Some(interval_id)
                    &&& final(self).state == old(self).state
                    &&& final(self).total_intervals == old(self).total_intervals
                    &&& final(s).workblocks@ == old(s).workblocks@
                    &&& final(s).archives@ == old(s).archives@
                    &&& recorded_away(old(s).intervals@, final(s).intervals@, interval_id, now as int)
                    &&& exists|i: int|
                        {
                            &&& 0 <= i < old(s).intervals@.len()
                            &&& (#[trigger] old(s).intervals@[i]).id == Some(interval_id)
                            &&& !spec_is_final_interval(old(s).workblocks@, old(s).intervals@[i])
                        }
                },
                AutoAwayOutcome::CompletedWorkblock { interval_id, workblock_id } => {
                    &&& old(self).auto_away_pending == Some(interval_id)
                    &&& final(self).state == spec_idle_state()
                    &&& final(s).archives@ == old(s).archives@
                    &&& recorded_away(old(s).intervals@, final(s).intervals@, interval_id, now as int)
                    &&& exists|i: int|
                        {
                            &&& 0 <= i < old(s).intervals@.len()
                            &&& (#[trigger] old(s).intervals@[i]).id == Some(interval_id)
                            &&& workblock_id == old(s).intervals@[i].workblock_id
                            &&& spec_is_final_interval(old(s).workblocks@, old(s).intervals@[i])
                        }
                    &&& (exists|wi: int|
                        {
                            &&& 0 <= wi < old(s).workblocks@.len()
                            &&& (#[trigger] old(s).workblocks@[wi]).id == Some(workblock_id)
                            &&& old(s).workblocks@[wi].status is Active
                        }) ==> exists|wi: int|
                        {
                            &&& 0 <= wi < old(s).workblocks@.len()
                            &&& (#[trigger] old(s).workblocks@[wi]).id == Some(workblock_id)
                            &&& old(s).workblocks@[wi].status is Active
                            &&& final(s).workblocks@ == old(s).workblocks@.update(
                                wi,
                                crate::store::spec_finish_workblock(
                                    old(s).workblocks@[wi],
                                    WorkblockStatus::Completed,
                                    now as int,
                                ),
                            )
                        }
                    &&& !(exists|wi: int|
                        {
                            &&& 0 <= wi < old(s).workblocks@.len()
                            &&& (#[trigger] old(s).workblocks@[wi]).id == Some(workblock_id)
                            &&& old(s).workblocks@[wi].status is Active
                        }) ==> final(s).workblocks@ == old(s).workblocks@
                },
            },
    {
        let interval_id = match self.auto_away_pending {
            Some(id) => id,
            None => {
                return AutoAwayOutcome::NoTimer;
            },
        };
        self.auto_away_pending = None;
        let iv = match get_interval_by_id(s, interval_id) {
            Ok(iv) => iv,
            Err(_) => {
                return AutoAwayOutcome::Skipped;
            },
        };
        proof {
            let gi = choose|i: int| 0 <= i < s.intervals@.len() && s.intervals@[i] == iv;
            assert(s.intervals@[gi].id == Some(interval_id));
        }
        if iv.words.is_some() {
            return AutoAwayOutcome::Skipped;
        }
        let away = String::from_str("Away from workspace");
        match update_interval_words(s, interval_id, away, IntervalStatus::AutoAway, now) {
            Ok(updated) => {
                proof {
                    let ui = choose|i: int|
                        {
                            &&& 0 <= i < old(s).intervals@.len()
                            &&& old(s).intervals@[i].id == Some(interval_id)
                            &&& old(s).intervals@[i].status is Pending
                            &&& s.intervals@ == old(s).intervals@.update(i, updated)
                        };
                    assert(updated.workblock_id == old(s).intervals@[ui].workblock_id);
                    crate::store::lemma_num_intervals_update(old(s).intervals@, ui, updated);
                }
            },
            Err(e) => {
                proof {
                    assert(e == StoreError::Conflict);
                    let ci = choose|i: int|
                        0 <= i < old(s).intervals@.len() && old(s).intervals@[i].id == Some(
                            interval_id,
                        ) && (!(old(s).intervals@[i].status is Pending)
                            || IntervalStatus::AutoAway is Pending);
                    assert(old(s).intervals@[ci].id == Some(interval_id));
                    assert(!(old(s).intervals@[ci].status is Pending));
                }
                return AutoAwayOutcome::Skipped;
            },
        }
        // If the recorded interval was the workblock's last, this is the
        // deferred completion point: finish the workblock and go idle.
        let ghost pre = *old(s);
        let ghost gi = choose|i: int| 0 <= i < pre.intervals@.len() && pre.intervals@[i] == iv;
        let workblock_id = iv.workblock_id;
        let is_last = match get_workblock_by_id(s, workblock_id) {
            Ok(wb) => {
                let duration = match wb.duration_minutes {
                    Some(d) => d,
                    None => 60,
                };
                proof {
                    let wi = choose|i: int|
                        0 <= i < s.workblocks@.len() && s.workblocks@[i] == wb;
                    assert(s.workblocks@[wi].id == Some(workblock_id));
                    let di = choose|i: int|
                        0 <= i < s.workblocks@.len() && (#[trigger] s.workblocks@[i]).id == Some(
                            workblock_id,
                        );
                    if di != wi {
                        assert(s.workblocks@[di].id != s.workblocks@[wi].id);
                    }
                    assert(spec_duration_or_default(s.workblocks@, workblock_id) == (
                    match wb.duration_minutes {
                        Some(d) => d as int,
                        None => 60,
                    }));
                }
                iv.interval_number >= total_intervals(duration)
            },
            Err(_) => false,
        };
        proof {
            assert(pre.intervals@[gi].id == Some(interval_id));
            assert(is_last == spec_is_final_interval(pre.workblocks@, pre.intervals@[gi]));
        }
        if is_last {
            match complete_workblock(s, workblock_id, now) {
                Ok(_) => {},
                Err(e) => {
                    proof {
                        if exists|wi: int|
                            {
                                &&& 0 <= wi < pre.workblocks@.len()
                                &&& (#[trigger] pre.workblocks@[wi]).status is Active
                                &&& pre.workblocks@[wi].id == Some(workblock_id)
                            } {
                            let wi = choose|wi: int|
                                {
                                    &&& 0 <= wi < pre.workblocks@.len()
                                    &&& (#[trigger] pre.workblocks@[wi]).status is Active
                                    &&& pre.workblocks@[wi].id == Some(workblock_id)
                                };
                            assert(has_workblock(pre.workblocks@, workblock_id));
                            assert(e == StoreError::Conflict);
                            let ci = choose|i: int|
                                0 <= i < pre.workblocks@.len() && pre.workblocks@[i].id == Some(
                                    workblock_id,
                                ) && !(pre.workblocks@[i].status is Active);
                            if ci != wi {
                                assert(pre.workblocks@[ci].id != pre.workblocks@[wi].id);
                            }
                            assert(false);
                        }
                    }
                },
            }
            self.state = TimerState::default();
            return AutoAwayOutcome::CompletedWorkblock { interval_id, workblock_id };
        }
        AutoAwayOutcome::RecordedAway { interval_id }
    }

    /// Explicit, user-driven completion: both timers are cancelled, the
    /// workblock is persisted Completed, and the timer goes idle. The id
    /// must be the one the timer owns.
    pub fn complete_workblock(&mut self, s: &mut Store, workblock_id: i64, now: i64) -> (r: Result<
        (),
        TimerError,
    >)
        requires
            old(s).wf(),
            old(self).wf(),
        ensures
            final(s).wf(),
            final(self).wf(),
            final(s).intervals@ == old(s).intervals@,
            final(s).archives@ == old(s).archives@,
            final(s).next_workblock_id == old(s).next_workblock_id,
            final(s).next_interval_id == old(s).next_interval_id,
            final(s).next_archive_id == old(s).next_archive_id,
            forall|wid: i64|
                #[trigger] run_invariant(*old(self), *old(s), wid) ==> run_invariant(
                    *final(self),
                    *final(s),
                    wid,
                ),
            match r {
                Ok(_) => {
                    &&& old(self).state.workblock_id == Some(workblock_id)
                    &&& final(self).state == spec_idle_state()
                    &&& final(self).auto_away_pending is None
                    &&& exists|wi: int|
                        {
                            &&& 0 <= wi < old(s).workblocks@.len()
                            &&& (#[trigger] old(s).workblocks@[wi]).id == Some(workblock_id)
                            &&& old(s).workblocks@[wi].status is Active
                            &&& final(s).workblocks@ == old(s).workblocks@.update(
                                wi,
                                crate::store::spec_finish_workblock(
                                    old(s).workblocks@[wi],
                                    WorkblockStatus::Completed,
                                    now as int,
                                ),
                            )
                        }
                },
                Err(TimerError::WorkblockMismatch) => {
                    &&& old(self).state.workblock_id != Some(workblock_id)
                    &&& *final(self) == *old(self)
                    &&& *final(s) == *old(s)
                },
                Err(TimerError::Store(se)) => {
                    &&& old(self).state.workblock_id == Some(workblock_id)
                    &&& *final(s) == *old(s)
                    &&& !final(self).state.is_running
                    &&& final(self).auto_away_pending is None
                    &&& (se == StoreError::NotFound || se == StoreError::Conflict)
                    &&& (se == StoreError::NotFound <==> !has_workblock(
                        old(s).workblocks@,
                        workblock_id,
                    ))
                    &&& (se == StoreError::Conflict <==> exists|wi: int|
                        0 <= wi < old(s).workblocks@.len() && (#[trigger] old(
                            s,
                        ).workblocks@[wi]).id == Some(workblock_id) && !(old(
                            s,
                        ).workblocks@[wi].status is Active))
                },
                Err(TimerError::AlreadyRunning) => false,
            },
    {
        self.finish_workblock(s, workblock_id, WorkblockStatus::Completed, now)
    }

    /// Explicit, user-driven cancellation: both timers are cancelled, the
    /// workblock is persisted Cancelled, and the timer goes idle. The id
    /// must be the one the timer owns.
    pub fn cancel_workblock(&mut self, s: &mut Store, workblock_id: i64, now: i64) -> (r: Result<
        (),
        TimerError,
    >)
        requires
            old(s).wf(),
            old(self).wf(),
        ensures
            final(s).wf(),
            final(self).wf(),
            final(s).intervals@ == old(s).intervals@,
            final(s).archives@ == old(s).archives@,
            final(s).next_workblock_id == old(s).next_workblock_id,
            final(s).next_interval_id == old(s).next_interval_id,
            final(s).next_archive_id == old(s).next_archive_id,
            forall|wid: i64|
                #[trigger] run_invariant(*old(self), *old(s), wid) ==> run_invariant(
                    *final(self),
                    *final(s),
                    wid,
                ),
            match r {
                Ok(_) => {
                    &&& old(self).state.workblock_id == Some(workblock_id)
                    &&& final(self).state == spec_idle_state()
                    &&& final(self).auto_away_pending is None
                    &&& exists|wi: int|
                        {
                            &&& 0 <= wi < old(s).workblocks@.len()
                            &&& (#[trigger] old(s).workblocks@[wi]).id == Some(workblock_id)
                            &&& old(s).workblocks@[wi].status is Active
                            &&& final(s).workblocks@ == old(s).workblocks@.update(
                                wi,
                                crate::store::spec_finish_workblock(
                                    old(s).workblocks@[wi],
                                    WorkblockStatus::Cancelled,
                                    now as int,
                                ),
                            )
                        }
                },
                Err(TimerError::WorkblockMismatch) => {
                    &&& old(self).state.workblock_id != Some(workblock_id)
                    &&& *final(self) == *old(self)
                    &&& *final(s) == *old(s)
                },
                Err(TimerError::Store(se)) => {
                    &&& old(self).state.workblock_id == Some(workblock_id)
                    &&& *final(s) == *old(s)
                    &&& !final(self).state.is_running
                    &&& final(self).auto_away_pending is None
                    &&& (se == StoreError::NotFound || se == StoreError::Conflict)
                    &&& (se == StoreError::NotFound <==> !has_workblock(
                        old(s).workblocks@,
                        workblock_id,
                    ))
                    &&& (se == StoreError::Conflict <==> exists|wi: int|
                        0 <= wi < old(s).workblocks@.len() && (#[trigger] old(
                            s,
                        ).workblocks@[wi]).id == Some(workblock_id) && !(old(
                            s,
                        ).workblocks@[wi].status is Active))
                },
                Err(TimerError::AlreadyRunning) => false,
            },
    {
        self.finish_workblock(s, workblock_id, WorkblockStatus::Cancelled, now)
    }

    /// The shared body of explicit completion and cancellation; they
    /// differ only in the terminal status written.
    fn finish_workblock(
        &mut self,
        s: &mut Store,
        workblock_id: i64,
        status: WorkblockStatus,
        now: i64,
    ) -> (r: Result<(), TimerError>)
        requires
            old(s).wf(),
            old(self).wf(),
            status is Completed || status is Cancelled,
        ensures
            final(s).wf(),
            final(self).wf(),
            final(s).intervals@ == old(s).intervals@,
            final(s).archives@ == old(s).archives@,
            final(s).next_workblock_id == old(s).next_workblock_id,
            final(s).next_interval_id == old(s).next_interval_id,
            final(s).next_archive_id == old(s).next_archive_id,
            forall|wid: i64|
                #[trigger] run_invariant(*old(self), *old(s), wid) ==> run_invariant(
                    *final(self),
                    *final(s),
                    wid,
                ),
            match r {
                Ok(_) => {
                    &&& old(self).state.workblock_id == Some(workblock_id)
                    &&& final(self).state == spec_idle_state()
                    &&& final(self).auto_away_pending is None
                    &&& exists|wi: int|
                        {
                            &&& 0 <= wi < old(s).workblocks@.len()
                            &&& (#[trigger] old(s).workblocks@[wi]).id == Some(workblock_id)
                            &&& old(s).workblocks@[wi].status is Active
                            &&& final(s).workblocks@ == old(s).workblocks@.update(
                                wi,
                                crate::store::spec_finish_workblock(
                                    old(s).workblocks@[wi],
                                    status,
                                    now as int,
                                ),
                            )
                        }
                },
                Err(TimerError::WorkblockMismatch) => {
                    &&& old(self).state.workblock_id != Some(workblock_id)
                    &&& *final(self) == *old(self)
                    &&& *final(s) == *old(s)
                },
                Err(TimerError::Store(se)) => {
                    &&& old(self).state.workblock_id == Some(workblock_id)
                    &&& *final(s) == *old(s)
                    &&& !final(self).state.is_running
                    &&& final(self).auto_away_pending is None
                    &&& (se == StoreError::NotFound || se == StoreError::Conflict)
                    &&& (se == StoreError::NotFound <==> !has_workblock(
                        old(s).workblocks@,
                        workblock_id,
                    ))
                    &&& (se == StoreError::Conflict <==> exists|wi: int|
                        0 <= wi < old(s).workblocks@.len() && (#[trigger] old(
                            s,
                        ).workblocks@[wi]).id == Some(workblock_id) && !(old(
                            s,
                        ).workblocks@[wi].status is Active))
                },
                Err(TimerError::AlreadyRunning) => false,
            },
    {
        let owned = match self.state.workblock_id {
            Some(id) => id == workblock_id,
            None => false,
        };
        if !owned {
            return Err(TimerError::WorkblockMismatch);
        }
        self.state.is_running = false;
        self.auto_away_pending = None;
        let res = if matches!(status, WorkblockStatus::Completed) {
            complete_workblock(s, workblock_id, now)
        } else {
            cancel_workblock(s, workblock_id, now)
        };
        match res {
            Ok(_) => {
                self.state = TimerState::default();
                Ok(())
            },
            Err(e) => Err(TimerError::Store(e)),
        }
    }

    /// Rebuild the timer from the store at process start: if an Active
    /// workblock exists, resume from its current Pending interval (or
    /// persist a fresh one), at slice-count granularity.
    pub fn restore_active_workblock(&mut self, s: &mut Store, now: i64) -> (r: Result<
        RestoreOutcome,
        TimerError,
    >)
        requires
            old(s).wf(),
            old(self).wf(),
        ensures
            final(s).wf(),
            final(self).wf(),
            final(s).workblocks@ == old(s).workblocks@,
            final(s).archives@ == old(s).archives@,
            final(s).next_workblock_id == old(s).next_workblock_id,
            final(s).next_archive_id == old(s).next_archive_id,
            match r {
                Ok(RestoreOutcome::Idle) => {
                    &&& !crate::store::has_active_workblock(old(s).workblocks@)
                    &&& final(self).state == spec_idle_state()
                    &&& *final(s) == *old(s)
                },
                Ok(RestoreOutcome::Resumed { workblock_id, interval_id, remaining_intervals }) => {
                    &&& *final(s) == *old(s)
                    &&& exists|wi: int|
                        {
                            &&& 0 <= wi < old(s).workblocks@.len()
                            &&& (#[trigger] old(s).workblocks@[wi]).status is Active
                            &&& old(s).workblocks@[wi].id == Some(workblock_id)
                        }
                    &&& crate::store::current_interval_of(old(s).intervals@, workblock_id)
                        matches Some(cur) && {
                        &&& cur.id == Some(interval_id)
                        &&& final(self).state == (TimerState {
                            workblock_id: Some(workblock_id),
                            current_interval_id: cur.id,
                            current_interval_number: cur.interval_number,
                            interval_start_time: Some(cur.start_time),
                            prompt_shown_time: None,
                            is_running: true,
                        })
                        &&& remaining_intervals == final(self).total_intervals
                            - cur.interval_number
                    }
                },
                Ok(
                    RestoreOutcome::ResumedFresh { workblock_id, interval_id, remaining_intervals },
                ) => {
                    &&& exists|wi: int|
                        {
                            &&& 0 <= wi < old(s).workblocks@.len()
                            &&& (#[trigger] old(s).workblocks@[wi]).status is Active
                            &&& old(s).workblocks@[wi].id == Some(workblock_id)
                        }
                    &&& crate::store::current_interval_of(old(s).intervals@, workblock_id) is None
                    &&& final(s).next_interval_id == old(s).next_interval_id + 1
                    &&& exists|iv: crate::store::Interval|
                        {
                            &&& #[trigger] final(s).intervals@ == old(s).intervals@.push(iv)
                            &&& iv.interval_number as int == num_intervals_for(
                                old(s).intervals@,
                                workblock_id,
                            ) + 1
                            &&& iv == (crate::store::Interval {
                                id: Some(interval_id),
                                workblock_id,
                                interval_number: iv.interval_number,
                                start_time: now,
                                end_time: None,
                                words: None,
                                status: IntervalStatus::Pending,
                                recorded_at: None,
                            })
                            &&& final(self).state == (TimerState {
                                workblock_id: Some(workblock_id),
                                current_interval_id: iv.id,
                                current_interval_number: iv.interval_number,
                                interval_start_time: Some(now),
                                prompt_shown_time: None,
                                is_running: true,
                            })
                        }
                },
                Ok(RestoreOutcome::Finished { workblock_id }) => {
                    &&& *final(s) == *old(s)
                    &&& exists|wi: int|
                        {
                            &&& 0 <= wi < old(s).workblocks@.len()
                            &&& (#[trigger] old(s).workblocks@[wi]).status is Active
                            &&& old(s).workblocks@[wi].id == Some(workblock_id)
                        }
                    &&& crate::store::current_interval_of(old(s).intervals@, workblock_id) is None
                    &&& num_intervals_for(old(s).intervals@, workblock_id) >= spec_total_intervals(
                        spec_duration_or_default(old(s).workblocks@, workblock_id),
                    )
                    &&& final(self).state == spec_idle_state()
                },
                Err(TimerError::Store(se)) => {
                    &&& se == StoreError::Conflict
                    &&& old(s).next_interval_id == i64::MAX
                    &&& exists|wi: int|
                        {
                            &&& 0 <= wi < old(s).workblocks@.len()
                            &&& (#[trigger] old(s).workblocks@[wi]).status is Active
                            &&& crate::store::current_interval_of(
                                old(s).intervals@,
                                old(s).workblocks@[wi].id->0,
                            ) is None
                        }
                    &&& *final(s) == *old(s)
                    &&& final(self).state == spec_idle_state()
                },
                Err(_) => false,
            },
    {
        let wb = match get_active_workblock(s) {
            Some(wb) => wb,
            None => {
                self.state = TimerState::default();
                return Ok(RestoreOutcome::Idle);
            },
        };
        let workblock_id = match wb.id {
            Some(id) => id,
            None => {
                proof {
                    let wi = choose|i: int|
                        0 <= i < s.workblocks@.len() && s.workblocks@[i] == wb;
                    assert(s.workblocks@[wi].id is Some);
                }
                self.state = TimerState::default();
                return Ok(RestoreOutcome::Idle);
            },
        };
        proof {
            let wi = choose|i: int| 0 <= i < s.workblocks@.len() && s.workblocks@[i] == wb;
            assert(s.workblocks@[wi].status is Active && s.workblocks@[wi].id == Some(
                workblock_id,
            ));
        }
        let duration = match wb.duration_minutes {
            Some(d) => d,
            None => 60,
        };
        let total = total_intervals(duration);
        let cur = match get_current_interval(s, workblock_id) {
            Ok(cur) => cur,
            Err(_) => {
                proof {
                    assert(false);
                }
                self.state = TimerState::default();
                return Err(TimerError::Store(StoreError::NotFound));
            },
        };
        match cur {
            Some(cur) => {
                self.state = TimerState {
                    workblock_id: Some(workblock_id),
                    current_interval_id: cur.id,
                    current_interval_number: cur.interval_number,
                    interval_start_time: Some(cur.start_time),
                    prompt_shown_time: None,
                    is_running: true,
                };
                self.total_intervals = total;
                proof {
                    crate::store::lemma_current_interval_in(s.intervals@, workblock_id);
                    let ci = choose|i: int|
                        0 <= i < s.intervals@.len() && s.intervals@[i] == cur;
                    assert(s.intervals@[ci].id is Some);
                    crate::store::lemma_num_intervals_nonneg(
                        s.intervals@.take(ci),
                        s.intervals@[ci].workblock_id,
                    );
                    assert(cur.interval_number >= 1);
                }
                let interval_id = match cur.id {
                    Some(id) => id,
                    None => 0,
                };
                let remaining: i64 = total as i64 - cur.interval_number as i64;
                Ok(RestoreOutcome::Resumed { workblock_id, interval_id, remaining_intervals: remaining })
            },
            None => {
                let count = crate::store::count_intervals_for(&s.intervals, workblock_id);
                if count >= total as usize || total <= 0 {
                    proof {
                        let wi = choose|i: int|
                            0 <= i < s.workblocks@.len() && s.workblocks@[i] == wb;
                        assert(s.workblocks@[wi].id == Some(workblock_id));
                        let ci = choose|i: int|
                            0 <= i < s.workblocks@.len() && (#[trigger] s.workblocks@[i]).id
                                == Some(workblock_id);
                        if ci != wi {
                            assert(s.workblocks@[ci].id != s.workblocks@[wi].id);
                        }
                        assert(spec_duration_or_default(s.workblocks@, workblock_id) == (
                        match wb.duration_minutes {
                            Some(d) => d as int,
                            None => 60,
                        }));
                    }
                    self.state = TimerState::default();
                    return Ok(RestoreOutcome::Finished { workblock_id });
                }
                let next_number = (count + 1) as i32;
                match add_interval(s, workblock_id, next_number, now) {
                    Ok(iv) => {
                        self.state = TimerState {
                            workblock_id: Some(workblock_id),
                            current_interval_id: iv.id,
                            current_interval_number: next_number,
                            interval_start_time: Some(now),
                            prompt_shown_time: None,
                            is_running: true,
                        };
                        self.total_intervals = total;
                        let interval_id = match iv.id {
                            Some(id) => id,
                            None => 0,
                        };
                        let remaining: i64 = total as i64 - next_number as i64;
                        Ok(
                            RestoreOutcome::ResumedFresh {
                                workblock_id,
                                interval_id,
                                remaining_intervals: remaining,
                            },
                        )
                    },
                    Err(e) => {
                        proof {
                            // The workblock exists and the number is the
                            // next in sequence, so only interval-id
                            // exhaustion can refuse persisting it.
                            let wi = choose|i: int|
                                0 <= i < s.workblocks@.len() && s.workblocks@[i] == wb;
                            assert(s.workblocks@[wi].id == Some(workblock_id));
                            assert(has_workblock(s.workblocks@, workblock_id));
                            assert(e == StoreError::Conflict);
                            assert(count + 1 <= total as usize);
                            assert(next_number as int == num_intervals_for(
                                s.intervals@,
                                workblock_id,
                            ) + 1);
                            assert(s.next_interval_id == i64::MAX);
                        }
                        self.state = TimerState::default();
                        Err(TimerError::Store(e))
                    },
                }
            },
        }
    }
}

/// Whether an interval is the final one of its workblock: the workblock
/// exists and the interval's number has reached the workblock's slice
/// count (its recorded duration, defaulting to 60 minutes, divided into
/// slices).
pub open spec fn spec_is_final_interval(
    wbs: Seq<crate::store::Workblock>,
    iv: crate::store::Interval,
) -> bool {
    &&& has_workblock(wbs, iv.workblock_id)
    &&& iv.interval_number as int >= spec_total_intervals(
        spec_duration_or_default(wbs, iv.workblock_id),
    )
}

/// The recorded planned duration of the named workblock, defaulting to 60
/// minutes where it is missing.
pub open spec fn spec_duration_or_default(wbs: Seq<crate::store::Workblock>, workblock_id: i64) -> int {
    if exists|i: int|
        0 <= i < wbs.len() && (#[trigger] wbs[i]).id == Some(workblock_id) {
        let i = choose|i: int| 0 <= i < wbs.len() && (#[trigger] wbs[i]).id == Some(workblock_id);
        match wbs[i].duration_minutes {
            Some(d) => d as int,
            None => 60,
        }
    } else {
        60
    }
}

/// An interval that was Pending without content was recorded as away:
/// its content is the away sentinel, its status AutoAway, its end and
/// recorded times `now`; every other interval is untouched.
pub open spec fn recorded_away(
    pre: Seq<crate::store::Interval>,
    post: Seq<crate::store::Interval>,
    interval_id: i64,
    now: int,
) -> bool {
    exists|i: int|
        {
            &&& 0 <= i < pre.len()
            &&& (#[trigger] pre[i]).id == Some(interval_id)
            &&& pre[i].words is None
            &&& pre[i].status is Pending
            &&& exists|w: String|
                w@ == "Away from workspace"@ && post == pre.update(
                    i,
                    crate::store::spec_record_interval(pre[i], w, IntervalStatus::AutoAway, now),
                )
        }
}

} // verus!
