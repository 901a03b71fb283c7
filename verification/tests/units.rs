// Small exact checks: calendar arithmetic, normalization, status texts,
// durations, error cases, and the auto-away timer's idempotent cancel.

use log15::date::{Date, days_in_month, is_leap_year, prev_day};
use log15::norm::normalize;
use log15::store::{
    IntervalStatus, Store, StoreError, WorkblockStatus, add_interval, archive_daily_data,
    complete_workblock, create_workblock, elapsed_minutes, get_all_archived_dates,
    get_workblock_by_id, get_workblocks_by_date, update_interval_words,
};
use log15::timer::{TimerManager, total_intervals};
use log15::viz::generate_workblock_visualization;

fn d(year: i32, month: i32, day: i32) -> Date {
    Date { year, month, day }
}

const T0: i64 = 1_000_000;

#[test]
fn previous_day_within_month() {
    assert_eq!(prev_day(d(2024, 6, 15)), d(2024, 6, 14));
}

#[test]
fn previous_day_across_month_and_year() {
    assert_eq!(prev_day(d(2024, 7, 1)), d(2024, 6, 30));
    assert_eq!(prev_day(d(2024, 1, 1)), d(2023, 12, 31));
}

#[test]
fn previous_day_handles_leap_years() {
    assert!(is_leap_year(2024));
    assert!(!is_leap_year(2023));
    assert!(!is_leap_year(1900));
    assert!(is_leap_year(2000));
    assert_eq!(prev_day(d(2024, 3, 1)), d(2024, 2, 29));
    assert_eq!(prev_day(d(2023, 3, 1)), d(2023, 2, 28));
    assert_eq!(days_in_month(2024, 2), 29);
    assert_eq!(days_in_month(2023, 2), 28);
}

#[test]
fn normalization_lowercases_and_trims() {
    assert_eq!(normalize("  MiXed Case\t"), "mixed case");
    assert_eq!(normalize("coding"), "coding");
    assert_eq!(normalize("   "), "");
    assert_eq!(normalize(""), "");
}

#[test]
fn status_texts_round_trip() {
    for st in [WorkblockStatus::Active, WorkblockStatus::Completed, WorkblockStatus::Cancelled] {
        assert_eq!(WorkblockStatus::from_str(st.as_str()), st);
    }
    for st in [IntervalStatus::Pending, IntervalStatus::Recorded, IntervalStatus::AutoAway] {
        assert_eq!(IntervalStatus::from_str(st.as_str()), st);
    }
    assert_eq!(WorkblockStatus::from_str("unknown"), WorkblockStatus::Active);
    assert_eq!(IntervalStatus::from_str("unknown"), IntervalStatus::Pending);
}

#[test]
fn elapsed_minutes_floors_and_counts() {
    assert_eq!(elapsed_minutes(T0, T0 + 3600), 60);
    assert_eq!(elapsed_minutes(T0, T0 + 899), 14);
    assert_eq!(elapsed_minutes(T0, T0), 0);
    assert_eq!(elapsed_minutes(T0, T0 - 100), 0);
}

#[test]
fn total_intervals_drops_remainder() {
    assert_eq!(total_intervals(60), 4);
    assert_eq!(total_intervals(59), 3);
    assert_eq!(total_intervals(15), 1);
    assert_eq!(total_intervals(14), 0);
    assert_eq!(total_intervals(0), 0);
}

#[test]
fn second_active_workblock_is_refused() {
    let mut store = Store::new();
    let today = d(2024, 6, 15);
    create_workblock(&mut store, 60, today, T0).unwrap();
    let second = create_workblock(&mut store, 30, today, T0 + 10);
    assert_eq!(second, Err(StoreError::Conflict));
}

#[test]
fn interval_numbers_must_be_contiguous() {
    let mut store = Store::new();
    let today = d(2024, 6, 15);
    let wb = create_workblock(&mut store, 60, today, T0).unwrap();
    let wb_id = wb.id.unwrap();

    assert_eq!(add_interval(&mut store, wb_id, 2, T0), Err(StoreError::Conflict));
    add_interval(&mut store, wb_id, 1, T0).unwrap();
    assert_eq!(add_interval(&mut store, wb_id, 1, T0 + 900), Err(StoreError::Conflict));
    assert_eq!(add_interval(&mut store, wb_id, 3, T0 + 900), Err(StoreError::Conflict));
    add_interval(&mut store, wb_id, 2, T0 + 900).unwrap();
}

#[test]
fn interval_for_missing_workblock_is_refused() {
    let mut store = Store::new();
    assert_eq!(add_interval(&mut store, 42, 1, T0), Err(StoreError::NotFound));
}

#[test]
fn recorded_interval_is_immutable() {
    let mut store = Store::new();
    let today = d(2024, 6, 15);
    let wb = create_workblock(&mut store, 60, today, T0).unwrap();
    let iv = add_interval(&mut store, wb.id.unwrap(), 1, T0).unwrap();
    update_interval_words(
        &mut store,
        iv.id.unwrap(),
        "coding".to_string(),
        IntervalStatus::Recorded,
        T0 + 900,
    )
    .unwrap();
    let again = update_interval_words(
        &mut store,
        iv.id.unwrap(),
        "other".to_string(),
        IntervalStatus::Recorded,
        T0 + 950,
    );
    assert_eq!(again, Err(StoreError::Conflict));
}

#[test]
fn completing_twice_is_refused() {
    let mut store = Store::new();
    let today = d(2024, 6, 15);
    let wb = create_workblock(&mut store, 60, today, T0).unwrap();
    let wb_id = wb.id.unwrap();
    complete_workblock(&mut store, wb_id, T0 + 3600).unwrap();
    assert_eq!(complete_workblock(&mut store, wb_id, T0 + 3700), Err(StoreError::Conflict));
    assert_eq!(complete_workblock(&mut store, 999, T0 + 3700), Err(StoreError::NotFound));
}

#[test]
fn archiving_an_empty_date_is_refused() {
    let mut store = Store::new();
    let err = archive_daily_data(&mut store, d(2024, 6, 15), T0);
    assert_eq!(err, Err(StoreError::ArchiveEmpty));
}

#[test]
fn cancel_auto_away_timer_is_idempotent() {
    let mut timer = TimerManager::new();
    // No timer armed: a no-op, never an error.
    timer.cancel_auto_away_timer();
    timer.cancel_auto_away_timer();
    assert!(!timer.get_state().is_running);

    timer.start_auto_away_timer(7).unwrap();
    timer.cancel_auto_away_timer();
    timer.cancel_auto_away_timer();
    assert!(!timer.get_state().is_running);
}

#[test]
fn auto_away_fire_without_timer_is_a_no_op() {
    let mut store = Store::new();
    let mut timer = TimerManager::new();
    let fired = timer.auto_away_fire(&mut store, T0);
    assert!(matches!(fired, log15::timer::AutoAwayOutcome::NoTimer));
}

#[test]
fn auto_away_skips_an_interval_with_content() {
    let mut store = Store::new();
    let today = d(2024, 6, 15);
    let wb = create_workblock(&mut store, 60, today, T0).unwrap();
    let iv = add_interval(&mut store, wb.id.unwrap(), 1, T0).unwrap();
    update_interval_words(
        &mut store,
        iv.id.unwrap(),
        "already here".to_string(),
        IntervalStatus::Recorded,
        T0 + 100,
    )
    .unwrap();

    let mut timer = TimerManager::new();
    timer.start_auto_away_timer(iv.id.unwrap()).unwrap();
    let fired = timer.auto_away_fire(&mut store, T0 + 700);
    assert!(matches!(fired, log15::timer::AutoAwayOutcome::Skipped));
}

#[test]
fn time_remaining_counts_down_and_floors() {
    let mut store = Store::new();
    let mut timer = TimerManager::new();
    let today = d(2024, 6, 15);
    let wb = create_workblock(&mut store, 60, today, T0).unwrap();
    timer.start_workblock(&mut store, wb.id.unwrap(), 60, T0).unwrap();

    assert_eq!(timer.get_interval_time_remaining(T0 + 100), Some(800));
    assert_eq!(timer.get_interval_time_remaining(T0 + 900), Some(0));
    assert_eq!(timer.get_interval_time_remaining(T0 + 2000), Some(0));
}

#[test]
fn zero_duration_activities_have_zero_percentage() {
    let mut store = Store::new();
    let today = d(2024, 6, 15);
    let wb = create_workblock(&mut store, 60, today, T0).unwrap();
    let iv = add_interval(&mut store, wb.id.unwrap(), 1, T0).unwrap();
    // Recorded in the same second it started: zero minutes.
    update_interval_words(
        &mut store,
        iv.id.unwrap(),
        "blink".to_string(),
        IntervalStatus::Recorded,
        T0,
    )
    .unwrap();

    let viz = generate_workblock_visualization(&store, wb.id.unwrap()).unwrap();
    assert_eq!(viz.activity_data.len(), 1);
    assert_eq!(viz.activity_data[0].total_minutes, 0);
    assert_eq!(viz.activity_data[0].percentage, 0);
}

#[test]
fn completion_recomputes_duration_from_elapsed_time() {
    let mut store = Store::new();
    let today = d(2024, 6, 15);
    let wb = create_workblock(&mut store, 60, today, T0).unwrap();
    let done = complete_workblock(&mut store, wb.id.unwrap(), T0 + 1800).unwrap();
    assert_eq!(done.duration_minutes, Some(30));
    assert_eq!(done.end_time, Some(T0 + 1800));
    let row = get_workblock_by_id(&store, wb.id.unwrap()).unwrap();
    assert_eq!(row, done);
}

#[test]
fn archived_dates_list_most_recent_first() {
    let mut store = Store::new();
    let days = [d(2024, 6, 12), d(2024, 6, 14), d(2024, 6, 13)];
    for (i, day) in days.iter().enumerate() {
        let start = T0 + (i as i64) * 100_000;
        let wb = create_workblock(&mut store, 60, *day, start).unwrap();
        complete_workblock(&mut store, wb.id.unwrap(), start + 3600).unwrap();
        archive_daily_data(&mut store, *day, start + 4000).unwrap();
    }

    let archives = get_all_archived_dates(&store).unwrap();
    let dates: Vec<Date> = archives.iter().map(|a| a.date).collect();
    assert_eq!(dates, vec![d(2024, 6, 14), d(2024, 6, 13), d(2024, 6, 12)]);
}

#[test]
fn day_listing_is_ordered_by_start_time() {
    let mut store = Store::new();
    let today = d(2024, 6, 15);
    // Created out of start-time order: late, early, middle.
    for start in [T0 + 9000, T0, T0 + 5000] {
        let wb = create_workblock(&mut store, 60, today, start).unwrap();
        complete_workblock(&mut store, wb.id.unwrap(), start + 3600).unwrap();
    }

    let listed = get_workblocks_by_date(&store, today).unwrap();
    let starts: Vec<i64> = listed.iter().map(|wb| wb.start_time).collect();
    assert_eq!(starts, vec![T0, T0 + 5000, T0 + 9000]);
}
