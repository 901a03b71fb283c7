// Whole-lifecycle scenarios: the tick loop, the auto-away race, the
// deferred completion of the final interval, cancellation, and the
// archive round trip.

use log15::date::Date;
use log15::lifecycle::{
    LifecycleError, cancel_workblock_cmd, start_workblock_at, stop_workblock,
    submit_interval_words,
};
use log15::store::{
    IntervalStatus, Store, WorkblockStatus, add_interval, cancel_workblock,
    complete_workblock, create_workblock, get_archived_day, get_current_interval,
    get_intervals_by_workblock, get_workblock_by_id, archive_daily_data, update_interval_words,
};
use log15::timer::{
    AutoAwayOutcome, RestoreOutcome, TickOutcome, TimerManager, total_intervals,
};
use log15::viz::{generate_daily_visualization_data, generate_workblock_visualization};

fn d(year: i32, month: i32, day: i32) -> Date {
    Date { year, month, day }
}

const T0: i64 = 1_000_000;

/// A 60-minute workblock with 15-minute slices runs exactly 4 intervals;
/// submitting content for all 4 before their deadlines completes the
/// workblock with no AutoAway interval.
#[test]
fn scenario_submitting_every_interval_completes_workblock() {
    let mut store = Store::new();
    let mut timer = TimerManager::new();
    let today = d(2024, 6, 15);

    let wb = start_workblock_at(&mut store, &mut timer, 60, today, T0).unwrap();
    let wb_id = wb.id.unwrap();
    assert_eq!(total_intervals(60), 4);

    for k in 0..4i64 {
        let now = T0 + (k + 1) * 900;
        let outcome = timer.tick(&mut store, now);
        let elapsed_interval = match outcome {
            TickOutcome::SliceElapsed { interval_id, .. } => {
                assert!(k < 3);
                interval_id
            }
            TickOutcome::LastSliceElapsed { interval_id, .. } => {
                assert_eq!(k, 3);
                interval_id
            }
            other => panic!("unexpected tick outcome: {:?}", other),
        };
        let out = submit_interval_words(
            &mut store,
            &mut timer,
            elapsed_interval,
            "deep work".to_string(),
            now + 10,
        )
        .unwrap();
        assert_eq!(out.is_last_interval, k == 3);
    }

    let finished = get_workblock_by_id(&store, wb_id).unwrap();
    assert!(matches!(finished.status, WorkblockStatus::Completed));

    let intervals = get_intervals_by_workblock(&store, wb_id).unwrap();
    assert_eq!(intervals.len(), 4);
    for iv in &intervals {
        assert!(matches!(iv.status, IntervalStatus::Recorded));
    }
}

/// A missed grace window records the interval as away with the sentinel
/// content, and the workblock stays Active while intervals remain.
#[test]
fn scenario_grace_window_expires_midway() {
    let mut store = Store::new();
    let mut timer = TimerManager::new();
    let today = d(2024, 6, 15);

    let wb = start_workblock_at(&mut store, &mut timer, 60, today, T0).unwrap();
    let wb_id = wb.id.unwrap();

    let outcome = timer.tick(&mut store, T0 + 900);
    let interval_id = match outcome {
        TickOutcome::SliceElapsed { interval_id, .. } => interval_id,
        other => panic!("unexpected tick outcome: {:?}", other),
    };

    timer.start_auto_away_timer(interval_id).unwrap();
    let fired = timer.auto_away_fire(&mut store, T0 + 900 + 600);
    assert!(matches!(fired, AutoAwayOutcome::RecordedAway { .. }));

    let intervals = get_intervals_by_workblock(&store, wb_id).unwrap();
    assert!(matches!(intervals[0].status, IntervalStatus::AutoAway));
    assert_eq!(intervals[0].words.as_deref(), Some("Away from workspace"));

    let still_active = get_workblock_by_id(&store, wb_id).unwrap();
    assert!(matches!(still_active.status, WorkblockStatus::Active));
}

/// Auto-away on the final interval records it AND completes the
/// workblock in the same operation: the deferred-completion rule.
#[test]
fn scenario_final_interval_auto_away_completes_workblock() {
    let mut store = Store::new();
    let mut timer = TimerManager::new();
    let today = d(2024, 6, 15);

    let wb = start_workblock_at(&mut store, &mut timer, 30, today, T0).unwrap();
    let wb_id = wb.id.unwrap();
    assert_eq!(total_intervals(30), 2);

    // First slice: submit normally.
    let first = match timer.tick(&mut store, T0 + 900) {
        TickOutcome::SliceElapsed { interval_id, .. } => interval_id,
        other => panic!("unexpected tick outcome: {:?}", other),
    };
    submit_interval_words(&mut store, &mut timer, first, "notes".to_string(), T0 + 910).unwrap();

    // Second (final) slice: let the grace window expire.
    let last = match timer.tick(&mut store, T0 + 1800) {
        TickOutcome::LastSliceElapsed { interval_id, .. } => interval_id,
        other => panic!("unexpected tick outcome: {:?}", other),
    };
    timer.start_auto_away_timer(last).unwrap();
    let fired = timer.auto_away_fire(&mut store, T0 + 1800 + 600);
    match fired {
        AutoAwayOutcome::CompletedWorkblock { interval_id, workblock_id } => {
            assert_eq!(interval_id, last);
            assert_eq!(workblock_id, wb_id);
        }
        other => panic!("unexpected auto-away outcome: {:?}", other),
    }

    let finished = get_workblock_by_id(&store, wb_id).unwrap();
    assert!(matches!(finished.status, WorkblockStatus::Completed));
    let intervals = get_intervals_by_workblock(&store, wb_id).unwrap();
    assert!(matches!(intervals[1].status, IntervalStatus::AutoAway));
    assert!(!timer.get_state().is_running);
}

/// "Coding" and "coding " normalize to the same activity: one bucket
/// with summed minutes and a phrase count of 2.
#[test]
fn scenario_identical_normalized_content_groups() {
    let mut store = Store::new();
    let today = d(2024, 6, 15);

    let wb = create_workblock(&mut store, 60, today, T0).unwrap();
    let wb_id = wb.id.unwrap();
    let iv1 = add_interval(&mut store, wb_id, 1, T0).unwrap();
    let iv2 = add_interval(&mut store, wb_id, 2, T0 + 900).unwrap();
    update_interval_words(
        &mut store,
        iv1.id.unwrap(),
        "Coding".to_string(),
        IntervalStatus::Recorded,
        T0 + 900,
    )
    .unwrap();
    update_interval_words(
        &mut store,
        iv2.id.unwrap(),
        "coding ".to_string(),
        IntervalStatus::Recorded,
        T0 + 1800,
    )
    .unwrap();

    let viz = generate_workblock_visualization(&store, wb_id).unwrap();
    assert_eq!(viz.activity_data.len(), 1);
    assert_eq!(viz.activity_data[0].words, "coding");
    assert_eq!(viz.activity_data[0].total_minutes, 30);
    assert_eq!(viz.activity_data[0].percentage, 100);
    assert_eq!(viz.word_frequency.len(), 1);
    assert_eq!(viz.word_frequency[0].count, 2);
}

/// Cancelling a workblock trims its timeline at the cancellation time:
/// later intervals are excluded and the last retained one is marked
/// cancelled.
#[test]
fn scenario_cancellation_trims_timeline() {
    let mut store = Store::new();
    let today = d(2024, 6, 15);

    let wb = create_workblock(&mut store, 60, today, T0).unwrap();
    let wb_id = wb.id.unwrap();
    for i in 0..2i64 {
        let iv = add_interval(&mut store, wb_id, (i + 1) as i32, T0 + i * 900).unwrap();
        update_interval_words(
            &mut store,
            iv.id.unwrap(),
            "coding".to_string(),
            IntervalStatus::Recorded,
            T0 + i * 900 + 900,
        )
        .unwrap();
    }
    add_interval(&mut store, wb_id, 3, T0 + 1800).unwrap();
    let cancel_time = T0 + 2000;
    cancel_workblock(&mut store, wb_id, cancel_time).unwrap();
    // A stray interval persisted after the cancellation.
    add_interval(&mut store, wb_id, 4, cancel_time + 500).unwrap();

    let viz = generate_workblock_visualization(&store, wb_id).unwrap();
    assert_eq!(viz.timeline_data.len(), 3, "intervals after cancellation are excluded");
    assert_eq!(viz.timeline_data[0].workblock_status, None);
    assert_eq!(viz.timeline_data[1].workblock_status, None);
    assert_eq!(
        viz.timeline_data[2].workblock_status,
        Some(WorkblockStatus::Cancelled),
        "the last retained interval carries the cancelled mark"
    );
}

/// Archiving a day and reading it back yields the same totals and the
/// same visualization structure the generator produces directly from the
/// pre-archive data.
#[test]
fn scenario_archive_round_trip() {
    let mut store = Store::new();
    let today = d(2024, 6, 15);

    let wb = create_workblock(&mut store, 60, today, T0).unwrap();
    let wb_id = wb.id.unwrap();
    for i in 0..2i64 {
        let iv = add_interval(&mut store, wb_id, (i + 1) as i32, T0 + i * 900).unwrap();
        update_interval_words(
            &mut store,
            iv.id.unwrap(),
            if i == 0 { "coding" } else { "review" }.to_string(),
            IntervalStatus::Recorded,
            T0 + i * 900 + 900,
        )
        .unwrap();
    }
    complete_workblock(&mut store, wb_id, T0 + 3600).unwrap();

    let direct = generate_daily_visualization_data(&store, today).unwrap();
    let archive = archive_daily_data(&mut store, today, T0 + 4000).unwrap();
    assert_eq!(archive.total_workblocks, 1);
    assert_eq!(archive.total_minutes, 60);

    let read_back = get_archived_day(&store, today).unwrap().unwrap();
    assert_eq!(read_back.total_workblocks, archive.total_workblocks);
    assert_eq!(read_back.total_minutes, archive.total_minutes);
    assert_eq!(read_back.visualization_data.as_ref().unwrap(), &direct);
}

/// Restoring after a process restart rebuilds the timer from the current
/// Pending interval.
#[test]
fn scenario_restore_resumes_pending_interval() {
    let mut store = Store::new();
    let today = d(2024, 6, 15);

    let wb = create_workblock(&mut store, 60, today, T0).unwrap();
    let wb_id = wb.id.unwrap();
    let iv1 = add_interval(&mut store, wb_id, 1, T0).unwrap();
    update_interval_words(
        &mut store,
        iv1.id.unwrap(),
        "coding".to_string(),
        IntervalStatus::Recorded,
        T0 + 900,
    )
    .unwrap();
    let iv2 = add_interval(&mut store, wb_id, 2, T0 + 900).unwrap();

    let mut timer = TimerManager::new();
    let outcome = timer.restore_active_workblock(&mut store, T0 + 1000).unwrap();
    match outcome {
        RestoreOutcome::Resumed { workblock_id, interval_id, remaining_intervals } => {
            assert_eq!(workblock_id, wb_id);
            assert_eq!(interval_id, iv2.id.unwrap());
            assert_eq!(remaining_intervals, 2);
        }
        other => panic!("unexpected restore outcome: {:?}", other),
    }
    let state = timer.get_state();
    assert!(state.is_running);
    assert_eq!(state.current_interval_number, 2);
    assert_eq!(state.interval_start_time, Some(T0 + 900));
}

/// Restoring with no Pending interval persists a fresh one for the next
/// slice.
#[test]
fn scenario_restore_creates_fresh_interval() {
    let mut store = Store::new();
    let today = d(2024, 6, 15);

    let wb = create_workblock(&mut store, 60, today, T0).unwrap();
    let wb_id = wb.id.unwrap();
    let iv1 = add_interval(&mut store, wb_id, 1, T0).unwrap();
    update_interval_words(
        &mut store,
        iv1.id.unwrap(),
        "coding".to_string(),
        IntervalStatus::Recorded,
        T0 + 900,
    )
    .unwrap();

    let mut timer = TimerManager::new();
    let outcome = timer.restore_active_workblock(&mut store, T0 + 1000).unwrap();
    match outcome {
        RestoreOutcome::ResumedFresh { workblock_id, remaining_intervals, .. } => {
            assert_eq!(workblock_id, wb_id);
            assert_eq!(remaining_intervals, 2);
        }
        other => panic!("unexpected restore outcome: {:?}", other),
    }
    let cur = get_current_interval(&store, wb_id).unwrap().unwrap();
    assert_eq!(cur.interval_number, 2);
    assert_eq!(cur.start_time, T0 + 1000);
}

/// Restoring with no Active workblock leaves the timer idle.
#[test]
fn scenario_restore_without_active_workblock() {
    let mut store = Store::new();
    let mut timer = TimerManager::new();
    let outcome = timer.restore_active_workblock(&mut store, T0).unwrap();
    assert!(matches!(outcome, RestoreOutcome::Idle));
    assert!(!timer.get_state().is_running);
}

/// Stopping an Active workblock through the command surface completes it
/// and resets the timer.
#[test]
fn scenario_stop_completes_and_resets() {
    let mut store = Store::new();
    let mut timer = TimerManager::new();
    let today = d(2024, 6, 15);

    let wb = start_workblock_at(&mut store, &mut timer, 60, today, T0).unwrap();
    let wb_id = wb.id.unwrap();

    let stopped = stop_workblock(&mut store, &mut timer, wb_id, T0 + 1800).unwrap();
    assert!(matches!(stopped.status, WorkblockStatus::Completed));
    assert_eq!(stopped.end_time, Some(T0 + 1800));
    assert_eq!(stopped.duration_minutes, Some(30));
    assert!(!timer.get_state().is_running);

    // With nothing Active left, stopping is refused.
    let again = stop_workblock(&mut store, &mut timer, wb_id, T0 + 1900);
    assert_eq!(again, Err(LifecycleError::NoActiveWorkblock));
}

/// Cancelling through the command surface goes through the timer: the
/// workblock it does not own is refused, the one it owns is cancelled.
#[test]
fn scenario_cancel_goes_through_the_timer() {
    let mut store = Store::new();
    let mut timer = TimerManager::new();
    let today = d(2024, 6, 15);

    let wb = start_workblock_at(&mut store, &mut timer, 60, today, T0).unwrap();
    let wb_id = wb.id.unwrap();

    let wrong = cancel_workblock_cmd(&mut store, &mut timer, wb_id + 7, T0 + 100);
    assert!(wrong.is_err());
    assert!(matches!(
        get_workblock_by_id(&store, wb_id).unwrap().status,
        WorkblockStatus::Active
    ));

    let cancelled = cancel_workblock_cmd(&mut store, &mut timer, wb_id, T0 + 200).unwrap();
    assert!(matches!(cancelled.status, WorkblockStatus::Cancelled));
    assert!(!timer.get_state().is_running);
}

/// A tick on an idle timer does nothing and reports that ticking stops.
#[test]
fn scenario_tick_when_idle_is_stopped() {
    let mut store = Store::new();
    let mut timer = TimerManager::new();
    assert!(matches!(timer.tick(&mut store, T0), TickOutcome::Stopped));
}

/// A second start while a run is in progress is refused.
#[test]
fn scenario_second_start_is_refused() {
    let mut store = Store::new();
    let mut timer = TimerManager::new();
    let today = d(2024, 6, 15);

    start_workblock_at(&mut store, &mut timer, 60, today, T0).unwrap();
    let second = start_workblock_at(&mut store, &mut timer, 30, today, T0 + 10);
    assert!(second.is_err());
}
