//! The command surface: one entry point per user action.
//!
//! Each command coordinates the store and the timer under a single call:
//! starting runs the day-rollover check first and refuses a second Active
//! workblock, stopping and cancelling go through the timer (which owns
//! the run), and submitting an interval's content disarms the auto-away
//! timer and reports whether the workblock's final interval was just
//! recorded.

use vstd::prelude::*;

use vstd::string::StringExecFns;

use crate::date::Date;
use crate::store::{
    Interval, IntervalStatus, Store, StoreError, Workblock, check_and_reset_daily,
    create_workblock, get_active_workblock, get_workblock_by_id, get_workblocks_by_date,
    has_active_workblock, update_interval_words,
};
use crate::timer::{TimerError, TimerManager, spec_total_intervals, total_intervals};

verus! {

/// Why a command was refused.
#[derive(Clone, Copy, Debug, PartialEq, Eq, Structural)]
pub enum LifecycleError {
    /// A workblock with the given id is already Active.
    AlreadyActive(i64),
    /// No Active workblock exists to act on.
    NoActiveWorkblock,
    /// The timer refused the action.
    Timer(TimerError),
    /// The store refused the action.
    Store(StoreError),
}

/// What submitting an interval's content returned: the recorded interval,
/// and whether it was the workblock's final one.
#[derive(Clone, Debug, PartialEq)]
pub struct SubmitOutcome {
    pub interval: Interval,
    pub is_last_interval: bool,
}

/// Start a workblock of the given planned duration, dated `today` and
/// started at `now`: run the day-rollover check, refuse if a workblock is
/// already Active, then create the workblock and start its timer.
pub fn start_workblock_at(
    s: &mut Store,
    timer: &mut TimerManager,
    duration_minutes: i32,
    today: Date,
    now: i64,
) -> (r: Result<Workblock, LifecycleError>)
    requires
        old(s).wf(),
        old(timer).wf(),
        today.wf(),
    ensures
        final(s).wf(),
        final(timer).wf(),
        r is Err ==> {
            ||| old(timer).state.is_running
            ||| old(s).next_workblock_id == i64::MAX
            ||| old(s).next_interval_id == i64::MAX
            ||| old(s).next_archive_id == i64::MAX
            ||| crate::store::num_intervals_for(old(s).intervals@, old(s).next_workblock_id) != 0
            ||| has_active_workblock(final(s).workblocks@)
        },
        match r {
            Ok(wb) => {
                &&& wb.status is Active
                &&& wb.date == today
                &&& wb.start_time == now
                &&& wb.duration_minutes == Some(duration_minutes)
                &&& wb.is_archived == false
                &&& final(s).workblocks@.len() > 0
                &&& final(s).workblocks@.last() == wb
                &&& final(timer).state.workblock_id == wb.id
                &&& final(timer).state.is_running
                &&& final(timer).state.current_interval_number == 1
                &&& final(timer).total_intervals as int == spec_total_intervals(
                    duration_minutes as int,
                )
            },
            Err(LifecycleError::AlreadyActive(id)) => {
                &&& has_active_workblock(final(s).workblocks@)
                &&& exists|i: int|
                    {
                        &&& 0 <= i < final(s).workblocks@.len()
                        &&& (#[trigger] final(s).workblocks@[i]).status is Active
                        &&& final(s).workblocks@[i].id == Some(id)
                    }
                &&& final(s).intervals@ == old(s).intervals@
                &&& final(s).next_workblock_id == old(s).next_workblock_id
                &&& final(s).next_interval_id == old(s).next_interval_id
                &&& *final(timer) == *old(timer)
            },
            Err(LifecycleError::Timer(TimerError::AlreadyRunning)) => {
                &&& old(timer).state.is_running
                &&& *final(s) == *old(s)
                &&& *final(timer) == *old(timer)
            },
            Err(LifecycleError::Store(e)) => {
                &&& e == StoreError::Conflict
                &&& old(s).next_archive_id == i64::MAX || old(s).next_workblock_id == i64::MAX
                &&& *final(timer) == *old(timer)
            },
            Err(LifecycleError::Timer(TimerError::Store(se))) => {
                &&& se == StoreError::Conflict
                &&& crate::store::num_intervals_for(old(s).intervals@, old(s).next_workblock_id)
                    != 0 || old(s).next_interval_id == i64::MAX
                &&& final(timer).state == crate::timer::spec_idle_state()
            },
            Err(_) => false,
        },
{
    if timer.get_state().is_running {
        return Err(LifecycleError::Timer(TimerError::AlreadyRunning));
    }
    let roll = match check_and_reset_daily(s, today, now) {
        Ok(roll) => roll,
        Err(e) => {
            return Err(LifecycleError::Store(e));
        },
    };
    proof {
        // Whatever the rollover archived, it left the interval table and
        // the workblock/interval id counters as they were.
        match roll {
            Some(d) => {
                if crate::store::has_stale_active(old(s).workblocks@, today) {
                    let mid = choose|mid: Store|
                        {
                            &&& #[trigger] crate::store::archive_outcome(
                                *old(s),
                                mid,
                                d,
                                now as int,
                            )
                            &&& s.workblocks@ == crate::store::spec_force_complete_stale(
                                mid.workblocks@,
                                today,
                                now as int,
                            )
                            &&& s.intervals@ == mid.intervals@
                            &&& s.archives@ == mid.archives@
                        };
                    assert(s.intervals@ == old(s).intervals@);
                } else {
                    assert(crate::store::archive_outcome(*old(s), *s, d, now as int));
                }
            },
            None => {},
        }
        assert(s.intervals@ == old(s).intervals@);
        assert(s.next_workblock_id == old(s).next_workblock_id);
        assert(s.next_interval_id == old(s).next_interval_id);
    }
    if let Some(active) = get_active_workblock(s) {
        let id = match active.id {
            Some(id) => id,
            None => {
                proof {
                    let i = choose|i: int|
                        0 <= i < s.workblocks@.len() && s.workblocks@[i] == active;
                    assert(s.workblocks@[i].id is Some);
                }
                0
            },
        };
        proof {
            let i = choose|i: int| 0 <= i < s.workblocks@.len() && s.workblocks@[i] == active;
            assert(s.workblocks@[i].status is Active && s.workblocks@[i].id == Some(id));
        }
        return Err(LifecycleError::AlreadyActive(id));
    }
    let ghost post_roll = *s;
    let wb = match create_workblock(s, duration_minutes, today, now) {
        Ok(wb) => wb,
        Err(e) => {
            return Err(LifecycleError::Store(e));
        },
    };
    let workblock_id = match wb.id {
        Some(id) => id,
        None => 0,
    };
    match timer.start_workblock(s, workblock_id, duration_minutes, now) {
        Ok(_) => {},
        Err(e) => {
            proof {
                // The workblock was just appended, so only a stray
                // interval under its id or interval-id exhaustion can
                // refuse the first interval.
                assert(s.workblocks@ == post_roll.workblocks@.push(wb));
                assert(s.workblocks@[s.workblocks@.len() - 1].id == Some(workblock_id));
                assert(crate::store::has_workblock(s.workblocks@, workblock_id));
            }
            return Err(LifecycleError::Timer(e));
        },
    }
    Ok(wb)
}

/// Start a workblock now: the clock supplies today's date and the current
/// time, and the checked `start_workblock_at` does the rest. Whatever the
/// clock read, at most one workblock is Active afterwards and a started
/// workblock carries the requested duration.
pub fn start_workblock(s: &mut Store, timer: &mut TimerManager, duration_minutes: i32) -> (r:
    Result<Workblock, LifecycleError>)
    requires
        old(s).wf(),
        old(timer).wf(),
    ensures
        final(s).wf(),
        final(timer).wf(),
        r is Err ==> {
            ||| old(timer).state.is_running
            ||| old(s).next_workblock_id == i64::MAX
            ||| old(s).next_interval_id == i64::MAX
            ||| old(s).next_archive_id == i64::MAX
            ||| crate::store::num_intervals_for(old(s).intervals@, old(s).next_workblock_id) != 0
            ||| has_active_workblock(final(s).workblocks@)
        },
        r matches Ok(wb) ==> {
            &&& wb.status is Active
            &&& wb.duration_minutes == Some(duration_minutes)
            &&& final(s).workblocks@.len() > 0
            &&& final(s).workblocks@.last() == wb
            &&& final(timer).state.workblock_id == wb.id
            &&& final(timer).state.is_running
        },
        match r {
            Ok(_) => true,
            Err(LifecycleError::AlreadyActive(id)) => {
                &&& has_active_workblock(final(s).workblocks@)
                &&& exists|i: int|
                    {
                        &&& 0 <= i < final(s).workblocks@.len()
                        &&& (#[trigger] final(s).workblocks@[i]).status is Active
                        &&& final(s).workblocks@[i].id == Some(id)
                    }
                &&& *final(timer) == *old(timer)
            },
            Err(LifecycleError::Timer(TimerError::AlreadyRunning)) => {
                &&& old(timer).state.is_running
                &&& *final(s) == *old(s)
                &&& *final(timer) == *old(timer)
            },
            Err(LifecycleError::Store(e)) => {
                &&& e == StoreError::Conflict
                &&& old(s).next_archive_id == i64::MAX || old(s).next_workblock_id == i64::MAX
                &&& *final(timer) == *old(timer)
            },
            Err(LifecycleError::Timer(TimerError::Store(se))) => {
                &&& se == StoreError::Conflict
                &&& crate::store::num_intervals_for(old(s).intervals@, old(s).next_workblock_id)
                    != 0 || old(s).next_interval_id == i64::MAX
                &&& final(timer).state == crate::timer::spec_idle_state()
            },
            Err(_) => false,
        },
{
    let today = crate::clock::get_today_date();
    let now = crate::clock::now_timestamp();
    start_workblock_at(s, timer, duration_minutes, today, now)
}

/// Stop the Active workblock: the timer completes it and the refreshed
/// workblock row is returned.
pub fn stop_workblock(s: &mut Store, timer: &mut TimerManager, workblock_id: i64, now: i64) -> (r:
    Result<Workblock, LifecycleError>)
    requires
        old(s).wf(),
        old(timer).wf(),
    ensures
        final(s).wf(),
        final(timer).wf(),
        final(s).intervals@ == old(s).intervals@,
        final(s).archives@ == old(s).archives@,
        final(s).next_workblock_id == old(s).next_workblock_id,
        final(s).next_interval_id == old(s).next_interval_id,
        final(s).next_archive_id == old(s).next_archive_id,
        match r {
            Ok(wb) => {
                &&& wb.id == Some(workblock_id)
                &&& wb.status is Completed
                &&& wb.end_time == Some(now)
                &&& exists|i: int|
                    0 <= i < final(s).workblocks@.len() && final(s).workblocks@[i] == wb
                &&& final(timer).state == crate::timer::spec_idle_state()
            },
            Err(LifecycleError::NoActiveWorkblock) => {
                &&& !has_active_workblock(old(s).workblocks@)
                &&& *final(s) == *old(s)
            },
            Err(LifecycleError::Timer(TimerError::WorkblockMismatch)) => {
                &&& old(timer).state.workblock_id != Some(workblock_id)
                &&& *final(s) == *old(s)
            },
            Err(LifecycleError::Timer(TimerError::Store(se))) => {
                &&& old(timer).state.workblock_id == Some(workblock_id)
                &&& *final(s) == *old(s)
                &&& (se == StoreError::NotFound || se == StoreError::Conflict)
                &&& (se == StoreError::NotFound <==> !crate::store::has_workblock(
                    old(s).workblocks@,
                    workblock_id,
                ))
                &&& (se == StoreError::Conflict <==> exists|i: int|
                    0 <= i < old(s).workblocks@.len() && (#[trigger] old(s).workblocks@[i]).id
                        == Some(workblock_id) && !(old(s).workblocks@[i].status is Active))
            },
            Err(_) => false,
        },
{
    if get_active_workblock(s).is_none() {
        return Err(LifecycleError::NoActiveWorkblock);
    }
    match timer.complete_workblock(s, workblock_id, now) {
        Ok(_) => {},
        Err(e) => {
            return Err(LifecycleError::Timer(e));
        },
    }
    match get_workblock_by_id(s, workblock_id) {
        Ok(wb) => {
            proof {
                let wi = choose|i: int|
                    {
                        &&& 0 <= i < old(s).workblocks@.len()
                        &&& (#[trigger] old(s).workblocks@[i]).id == Some(workblock_id)
                        &&& old(s).workblocks@[i].status is Active
                        &&& s.workblocks@ == old(s).workblocks@.update(
                            i,
                            crate::store::spec_finish_workblock(
                                old(s).workblocks@[i],
                                crate::store::WorkblockStatus::Completed,
                                now as int,
                            ),
                        )
                    };
                let ri = choose|i: int|
                    0 <= i < s.workblocks@.len() && s.workblocks@[i] == wb;
                if ri != wi {
                    assert(s.workblocks@[ri].id != s.workblocks@[wi].id);
                }
                assert(wb == s.workblocks@[wi]);
            }
            Ok(wb)
        },
        Err(_) => {
            proof {
                let wi = choose|i: int|
                    {
                        &&& 0 <= i < old(s).workblocks@.len()
                        &&& (#[trigger] old(s).workblocks@[i]).id == Some(workblock_id)
                        &&& old(s).workblocks@[i].status is Active
                        &&& s.workblocks@ == old(s).workblocks@.update(
                            i,
                            crate::store::spec_finish_workblock(
                                old(s).workblocks@[i],
                                crate::store::WorkblockStatus::Completed,
                                now as int,
                            ),
                        )
                    };
                assert(s.workblocks@[wi].id == Some(workblock_id));
                assert(false);
            }
            Err(LifecycleError::Store(StoreError::NotFound))
        },
    }
}

/// Cancel a workblock: the timer's cancel path persists the Cancelled
/// status and the refreshed workblock row is returned.
pub fn cancel_workblock_cmd(
    s: &mut Store,
    timer: &mut TimerManager,
    workblock_id: i64,
    now: i64,
) -> (r: Result<Workblock, LifecycleError>)
    requires
        old(s).wf(),
        old(timer).wf(),
    ensures
        final(s).wf(),
        final(timer).wf(),
        final(s).intervals@ == old(s).intervals@,
        final(s).archives@ == old(s).archives@,
        final(s).next_workblock_id == old(s).next_workblock_id,
        final(s).next_interval_id == old(s).next_interval_id,
        final(s).next_archive_id == old(s).next_archive_id,
        match r {
            Ok(wb) => {
                &&& wb.id == Some(workblock_id)
                &&& wb.status is Cancelled
                &&& wb.end_time == Some(now)
                &&& exists|i: int|
                    0 <= i < final(s).workblocks@.len() && final(s).workblocks@[i] == wb
                &&& final(timer).state == crate::timer::spec_idle_state()
            },
            Err(LifecycleError::Timer(TimerError::WorkblockMismatch)) => {
                &&& old(timer).state.workblock_id != Some(workblock_id)
                &&& *final(s) == *old(s)
            },
            Err(LifecycleError::Timer(TimerError::Store(se))) => {
                &&& old(timer).state.workblock_id == Some(workblock_id)
                &&& *final(s) == *old(s)
                &&& (se == StoreError::NotFound || se == StoreError::Conflict)
                &&& (se == StoreError::NotFound <==> !crate::store::has_workblock(
                    old(s).workblocks@,
                    workblock_id,
                ))
                &&& (se == StoreError::Conflict <==> exists|i: int|
                    0 <= i < old(s).workblocks@.len() && (#[trigger] old(s).workblocks@[i]).id
                        == Some(workblock_id) && !(old(s).workblocks@[i].status is Active))
            },
            Err(_) => false,
        },
{
    match timer.cancel_workblock(s, workblock_id, now) {
        Ok(_) => {},
        Err(e) => {
            return Err(LifecycleError::Timer(e));
        },
    }
    match get_workblock_by_id(s, workblock_id) {
        Ok(wb) => {
            proof {
                let wi = choose|i: int|
                    {
                        &&& 0 <= i < old(s).workblocks@.len()
                        &&& (#[trigger] old(s).workblocks@[i]).id == Some(workblock_id)
                        &&& old(s).workblocks@[i].status is Active
                        &&& s.workblocks@ == old(s).workblocks@.update(
                            i,
                            crate::store::spec_finish_workblock(
                                old(s).workblocks@[i],
                                crate::store::WorkblockStatus::Cancelled,
                                now as int,
                            ),
                        )
                    };
                let ri = choose|i: int|
                    0 <= i < s.workblocks@.len() && s.workblocks@[i] == wb;
                if ri != wi {
                    assert(s.workblocks@[ri].id != s.workblocks@[wi].id);
                }
                assert(wb == s.workblocks@[wi]);
            }
            Ok(wb)
        },
        Err(_) => {
            proof {
                let wi = choose|i: int|
                    {
                        &&& 0 <= i < old(s).workblocks@.len()
                        &&& (#[trigger] old(s).workblocks@[i]).id == Some(workblock_id)
                        &&& old(s).workblocks@[i].status is Active
                        &&& s.workblocks@ == old(s).workblocks@.update(
                            i,
                            crate::store::spec_finish_workblock(
                                old(s).workblocks@[i],
                                crate::store::WorkblockStatus::Cancelled,
                                now as int,
                            ),
                        )
                    };
                assert(s.workblocks@[wi].id == Some(workblock_id));
                assert(false);
            }
            Err(LifecycleError::Store(StoreError::NotFound))
        },
    }
}

/// Submit the user's content for an interval: disarm the auto-away
/// timer, record the content, and report whether the workblock's final
/// interval was just recorded (so the caller can show the summary
/// instead of dismissing the prompt).
pub fn submit_interval_words(
    s: &mut Store,
    timer: &mut TimerManager,
    interval_id: i64,
    words: String,
    now: i64,
) -> (r: Result<SubmitOutcome, LifecycleError>)
    requires
        old(s).wf(),
        old(timer).wf(),
    ensures
        final(s).wf(),
        final(timer).wf(),
        final(timer).auto_away_pending is None,
        final(s).archives@ == old(s).archives@,
        final(s).next_workblock_id == old(s).next_workblock_id,
        final(s).next_interval_id == old(s).next_interval_id,
        final(s).next_archive_id == old(s).next_archive_id,
        forall|wid: i64|
            #[trigger] crate::timer::run_invariant(*old(timer), *old(s), wid)
                ==> crate::timer::run_invariant(*final(timer), *final(s), wid),
        r is Err ==> final(s).workblocks@ == old(s).workblocks@ && final(timer).state == old(
            timer,
        ).state,
        r is Err ==> {
            ||| !crate::store::has_interval(old(s).intervals@, interval_id)
            ||| exists|i: int|
                {
                    &&& 0 <= i < old(s).intervals@.len()
                    &&& (#[trigger] old(s).intervals@[i]).id == Some(interval_id)
                    &&& !(old(s).intervals@[i].status is Pending)
                }
            ||| exists|i: int|
                {
                    &&& 0 <= i < old(s).intervals@.len()
                    &&& (#[trigger] old(s).intervals@[i]).id == Some(interval_id)
                    &&& !crate::store::has_workblock(
                        old(s).workblocks@,
                        old(s).intervals@[i].workblock_id,
                    )
                }
        },
        match r {
            Ok(out) => {
                &&& exists|i: int|
                    {
                        &&& 0 <= i < old(s).intervals@.len()
                        &&& (#[trigger] old(s).intervals@[i]).id == Some(interval_id)
                        &&& old(s).intervals@[i].status is Pending
                        &&& out.interval == crate::store::spec_record_interval(
                            old(s).intervals@[i],
                            words,
                            IntervalStatus::Recorded,
                            now as int,
                        )
                        &&& final(s).intervals@ == old(s).intervals@.update(i, out.interval)
                    }
                &&& out.interval.status is Recorded
                &&& out.interval.words == Some(words)
                &&& out.is_last_interval == (out.interval.interval_number as int
                    >= spec_total_intervals(
                    crate::timer::spec_duration_or_default(
                        old(s).workblocks@,
                        out.interval.workblock_id,
                    ),
                ))
                &&& !out.is_last_interval ==> {
                    &&& final(s).workblocks@ == old(s).workblocks@
                    &&& final(timer).state == old(timer).state
                }
                &&& out.is_last_interval ==> {
                    &&& (exists|wi: int|
                        {
                            &&& 0 <= wi < old(s).workblocks@.len()
                            &&& (#[trigger] old(s).workblocks@[wi]).id == Some(
                                out.interval.workblock_id,
                            )
                            &&& old(s).workblocks@[wi].status is Active
                        }) ==> exists|wi: int|
                        {
                            &&& 0 <= wi < old(s).workblocks@.len()
                            &&& (#[trigger] old(s).workblocks@[wi]).id == Some(
                                out.interval.workblock_id,
                            )
                            &&& old(s).workblocks@[wi].status is Active
                            &&& final(s).workblocks@ == old(s).workblocks@.update(
                                wi,
                                crate::store::spec_finish_workblock(
                                    old(s).workblocks@[wi],
                                    crate::store::WorkblockStatus::Completed,
                                    now as int,
                                ),
                            )
                        }
                    &&& !(exists|wi: int|
                        {
                            &&& 0 <= wi < old(s).workblocks@.len()
                            &&& (#[trigger] old(s).workblocks@[wi]).id == Some(
                                out.interval.workblock_id,
                            )
                            &&& old(s).workblocks@[wi].status is Active
                        }) ==> final(s).workblocks@ == old(s).workblocks@
                    &&& final(timer).state == (if old(timer).state.workblock_id == Some(
                        out.interval.workblock_id,
                    ) {
                        crate::timer::spec_idle_state()
                    } else {
                        old(timer).state
                    })
                }
            },
            Err(_) => {
                ||| final(s).intervals@ == old(s).intervals@
                ||| exists|i: int|
                    {
                        &&& 0 <= i < old(s).intervals@.len()
                        &&& (#[trigger] old(s).intervals@[i]).id == Some(interval_id)
                        &&& old(s).intervals@[i].status is Pending
                        &&& final(s).intervals@ == old(s).intervals@.update(
                            i,
                            crate::store::spec_record_interval(
                                old(s).intervals@[i],
                                words,
                                IntervalStatus::Recorded,
                                now as int,
                            ),
                        )
                    }
            },
        },
{
    timer.cancel_auto_away_timer();
    let interval = match update_interval_words(
        s,
        interval_id,
        words,
        IntervalStatus::Recorded,
        now,
    ) {
        Ok(iv) => iv,
        Err(e) => {
            proof {
                if e == StoreError::Conflict {
                    let i = choose|i: int|
                        0 <= i < old(s).intervals@.len() && old(s).intervals@[i].id == Some(
                            interval_id,
                        ) && (!(old(s).intervals@[i].status is Pending)
                            || IntervalStatus::Recorded is Pending);
                    assert(!(old(s).intervals@[i].status is Pending));
                }
            }
            return Err(LifecycleError::Store(e));
        },
    };
    proof {
        let ui = choose|i: int|
            {
                &&& 0 <= i < old(s).intervals@.len()
                &&& old(s).intervals@[i].id == Some(interval_id)
                &&& old(s).intervals@[i].status is Pending
                &&& s.intervals@ == old(s).intervals@.update(i, interval)
            };
        assert(interval.workblock_id == old(s).intervals@[ui].workblock_id);
        crate::store::lemma_num_intervals_update(old(s).intervals@, ui, interval);
    }
    let workblock_id = interval.workblock_id;
    let wb = match get_workblock_by_id(s, workblock_id) {
        Ok(wb) => wb,
        Err(e) => {
            proof {
                let i = choose|i: int|
                    {
                        &&& 0 <= i < old(s).intervals@.len()
                        &&& old(s).intervals@[i].id == Some(interval_id)
                        &&& old(s).intervals@[i].status is Pending
                        &&& interval == crate::store::spec_record_interval(
                            old(s).intervals@[i],
                            words,
                            IntervalStatus::Recorded,
                            now as int,
                        )
                        &&& s.intervals@ == old(s).intervals@.update(i, interval)
                    };
                assert(old(s).intervals@[i].workblock_id == interval.workblock_id);
                assert(s.workblocks@ == old(s).workblocks@);
                assert(!crate::store::has_workblock(
                    old(s).workblocks@,
                    old(s).intervals@[i].workblock_id,
                ));
            }
            return Err(LifecycleError::Store(e));
        },
    };
    let duration = match wb.duration_minutes {
        Some(d) => d,
        None => 60,
    };
    let total = total_intervals(duration);
    let is_last_interval = interval.interval_number >= total;
    proof {
        let wi = choose|i: int| 0 <= i < s.workblocks@.len() && s.workblocks@[i] == wb;
        assert(s.workblocks@[wi].id == Some(workblock_id));
        let ci = choose|i: int|
            0 <= i < s.workblocks@.len() && (#[trigger] s.workblocks@[i]).id == Some(workblock_id);
        if ci != wi {
            assert(s.workblocks@[ci].id != s.workblocks@[wi].id);
        }
        assert(crate::timer::spec_duration_or_default(s.workblocks@, workblock_id) == (
        match wb.duration_minutes {
            Some(d) => d as int,
            None => 60,
        }));
    }
    if is_last_interval {
        // The deferred completion point: the final interval now has its
        // content, so the workblock may finish.
        let ghost pre = *old(s);
        match crate::store::complete_workblock(s, workblock_id, now) {
            Ok(_) => {},
            Err(e) => {
                proof {
                    if exists|wi: int|
                        {
                            &&& 0 <= wi < pre.workblocks@.len()
                            &&& (#[trigger] pre.workblocks@[wi]).id == Some(workblock_id)
                            &&& pre.workblocks@[wi].status is Active
                        } {
                        let wi = choose|wi: int|
                            {
                                &&& 0 <= wi < pre.workblocks@.len()
                                &&& (#[trigger] pre.workblocks@[wi]).id == Some(workblock_id)
                                &&& pre.workblocks@[wi].status is Active
                            };
                        assert(crate::store::has_workblock(pre.workblocks@, workblock_id));
                        assert(e == StoreError::Conflict);
                        let ci = choose|i: int|
                            0 <= i < pre.workblocks@.len() && pre.workblocks@[i].id == Some(
                                workblock_id,
                            ) && !(pre.workblocks@[i].status is Active);
                        if ci != wi {
                            assert(pre.workblocks@[ci].id != pre.workblocks@[wi].id);
                        }
                        assert(false);
                    }
                }
            },
        }
        let owned = match timer.get_state().workblock_id {
            Some(id) => id == workblock_id,
            None => false,
        };
        if owned {
            timer.state = crate::timer::TimerState::default();
        }
    }
    Ok(SubmitOutcome { interval, is_last_interval })
}

/// Record an interval as away by explicit command, mirroring what the
/// automatic grace-window path records.
pub fn auto_away_interval(s: &mut Store, interval_id: i64, now: i64) -> (r: Result<
    Interval,
    LifecycleError,
>)
    requires
        old(s).wf(),
    ensures
        final(s).wf(),
        final(s).workblocks@ == old(s).workblocks@,
        final(s).archives@ == old(s).archives@,
        final(s).next_workblock_id == old(s).next_workblock_id,
        final(s).next_interval_id == old(s).next_interval_id,
        final(s).next_archive_id == old(s).next_archive_id,
        match r {
            Ok(iv) => {
                &&& iv.status is AutoAway
                &&& iv.words matches Some(w) && w@ == "Away from workspace"@
                &&& exists|i: int|
                    {
                        &&& 0 <= i < old(s).intervals@.len()
                        &&& (#[trigger] old(s).intervals@[i]).id == Some(interval_id)
                        &&& old(s).intervals@[i].status is Pending
                        &&& final(s).intervals@ == old(s).intervals@.update(i, iv)
                    }
            },
            Err(e) => {
                &&& *final(s) == *old(s)
                &&& (e == LifecycleError::Store(StoreError::NotFound) || e
                    == LifecycleError::Store(StoreError::Conflict))
                &&& (e == LifecycleError::Store(StoreError::NotFound) <==> !crate::store::has_interval(
                    old(s).intervals@,
                    interval_id,
                ))
                &&& (e == LifecycleError::Store(StoreError::Conflict) <==> exists|i: int|
                    0 <= i < old(s).intervals@.len() && (#[trigger] old(s).intervals@[i]).id
                        == Some(interval_id) && !(old(s).intervals@[i].status is Pending))
            },
        },
{
    let away = String::from_str("Away from workspace");
    match update_interval_words(s, interval_id, away, IntervalStatus::AutoAway, now) {
        Ok(iv) => Ok(iv),
        Err(e) => Err(LifecycleError::Store(e)),
    }
}

/// Today's workblocks, read under the clock's date, in ascending
/// start-time order.
pub fn get_today_workblocks(s: &Store) -> (r: Result<Vec<Workblock>, LifecycleError>)
    requires
        s.wf(),
    ensures
        r matches Ok(wbs) && exists|today: Date|
            (#[trigger] today.wf()) && wbs@ == crate::store::spec_sort_workblocks(
                crate::store::workblocks_with_date(s.workblocks@, today),
            ),
{
    let today = crate::clock::get_today_date();
    match get_workblocks_by_date(s, today) {
        Ok(wbs) => Ok(wbs),
        Err(_) => {
            proof {
                assert(false);
            }
            Err(LifecycleError::Store(StoreError::NotFound))
        },
    }
}

} // verus!
