// The tray icon state decision.

use log15::date::Date;
use log15::store::{
    Store, archive_daily_data, complete_workblock, cancel_workblock, create_workblock,
    get_workblocks_by_date,
};
use log15::tray::{TrayIconState, TrayManager};

fn d(year: i32, month: i32, day: i32) -> Date {
    Date { year, month, day }
}

fn refresh(store: &Store, today: Date) -> TrayIconState {
    let mut tray = TrayManager::new();
    tray.refresh_state(store, today);
    tray.get_state()
}

/// Create a workblock dated `date` and complete it an hour later.
fn completed_workblock(store: &mut Store, date: Date, start: i64) -> i64 {
    let wb = create_workblock(store, 60, date, start).unwrap();
    let id = wb.id.unwrap();
    complete_workblock(store, id, start + 3600).unwrap();
    id
}

#[test]
fn test_tray_state_idle_when_no_workblocks() {
    let store = Store::new();
    let today = d(2024, 6, 15);

    let state = refresh(&store, today);
    assert_eq!(state, TrayIconState::Idle, "Should be Idle when no workblocks exist");

    println!("\u{2713} Test: Tray state is Idle when no workblocks exist");
}

#[test]
fn test_tray_state_active_when_workblock_active() {
    let mut store = Store::new();
    let today = d(2024, 6, 15);

    create_workblock(&mut store, 60, today, 1_000_000).unwrap();

    let state = refresh(&store, today);
    assert_eq!(state, TrayIconState::Active, "Should be Active when workblock is active");

    println!("\u{2713} Test: Tray state is Active when workblock is active");
}

#[test]
fn test_tray_state_summary_ready_when_completed_workblocks() {
    let mut store = Store::new();
    let today = d(2024, 6, 15);

    completed_workblock(&mut store, today, 1_000_000);

    let state = refresh(&store, today);
    assert_eq!(
        state,
        TrayIconState::SummaryReady,
        "Should be SummaryReady when completed workblocks exist"
    );

    println!("\u{2713} Test: Tray state is SummaryReady when completed workblocks exist");
}

#[test]
fn test_tray_state_prioritizes_active_over_summary() {
    let mut store = Store::new();
    let today = d(2024, 6, 15);

    completed_workblock(&mut store, today, 1_000_000);
    create_workblock(&mut store, 60, today, 1_010_000).unwrap();

    let state = refresh(&store, today);
    assert_eq!(state, TrayIconState::Active, "Should prioritize Active state over SummaryReady");

    println!("\u{2713} Test: Tray state prioritizes Active over SummaryReady");
}

#[test]
fn test_tray_state_only_considers_today_for_summary() {
    let mut store = Store::new();
    let yesterday = d(2024, 6, 14);
    let today = d(2024, 6, 15);

    completed_workblock(&mut store, yesterday, 1_000_000);

    let state = refresh(&store, today);
    assert_eq!(
        state,
        TrayIconState::Idle,
        "Should be Idle when only yesterday has completed workblocks"
    );

    completed_workblock(&mut store, today, 1_010_000);

    let state = refresh(&store, today);
    assert_eq!(
        state,
        TrayIconState::SummaryReady,
        "Should be SummaryReady when today has completed workblocks"
    );

    println!("\u{2713} Test: Tray state only considers today's workblocks for SummaryReady");
}

#[test]
fn test_tray_state_transitions() {
    let mut store = Store::new();
    let today = d(2024, 6, 15);
    let tomorrow = d(2024, 6, 16);

    let mut state = refresh(&store, today);
    assert_eq!(state, TrayIconState::Idle, "Initial state should be Idle");

    let wb = create_workblock(&mut store, 60, today, 1_000_000).unwrap();
    state = refresh(&store, today);
    assert_eq!(state, TrayIconState::Active, "Should transition to Active");

    complete_workblock(&mut store, wb.id.unwrap(), 1_003_600).unwrap();
    state = refresh(&store, today);
    assert_eq!(
        state,
        TrayIconState::SummaryReady,
        "Should transition to SummaryReady after completion"
    );

    // Archiving today's data stands in for the day transition.
    archive_daily_data(&mut store, today, 1_003_700).unwrap();

    let tomorrow_finished = get_workblocks_by_date(&store, tomorrow)
        .unwrap()
        .iter()
        .any(|wb| matches!(wb.status, log15::store::WorkblockStatus::Completed));
    assert!(!tomorrow_finished, "Tomorrow should have no workblocks");

    println!("\u{2713} Test: Tray state transitions (Idle -> Active -> SummaryReady)");
}

#[test]
fn test_tray_state_with_multiple_workblocks() {
    let mut store = Store::new();
    let today = d(2024, 6, 15);

    for i in 0..3 {
        completed_workblock(&mut store, today, 1_000_000 + i * 10_000);
    }

    let state = refresh(&store, today);
    assert_eq!(
        state,
        TrayIconState::SummaryReady,
        "Should be SummaryReady with multiple completed workblocks"
    );

    create_workblock(&mut store, 60, today, 1_050_000).unwrap();

    let state = refresh(&store, today);
    assert_eq!(
        state,
        TrayIconState::Active,
        "Should be Active even with multiple completed workblocks"
    );

    println!("\u{2713} Test: Tray state with multiple workblocks");
}

#[test]
fn test_tray_state_cancelled_workblocks_included() {
    let mut store = Store::new();
    let today = d(2024, 6, 15);

    let wb = create_workblock(&mut store, 60, today, 1_000_000).unwrap();
    cancel_workblock(&mut store, wb.id.unwrap(), 1_001_000).unwrap();

    let state = refresh(&store, today);
    assert_eq!(
        state,
        TrayIconState::SummaryReady,
        "Should be SummaryReady when cancelled workblocks exist"
    );

    completed_workblock(&mut store, today, 1_010_000);

    let state = refresh(&store, today);
    assert_eq!(
        state,
        TrayIconState::SummaryReady,
        "Should be SummaryReady with both cancelled and completed workblocks"
    );

    println!("\u{2713} Test: Tray state includes cancelled workblocks in SummaryReady");
}
