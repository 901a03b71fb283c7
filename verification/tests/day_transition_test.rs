// The day-rollover check: archiving yesterday's data when a new day
// begins, and force-completing a workblock left Active across midnight.

use log15::date::Date;
use log15::store::{
    IntervalStatus, Store, WorkblockStatus, add_interval, check_and_reset_daily,
    complete_workblock, create_workblock, get_archived_day, get_workblock_by_id,
    update_interval_words,
};

fn d(year: i32, month: i32, day: i32) -> Date {
    Date { year, month, day }
}

/// Record one 15-minute interval with the given content.
fn record_interval(store: &mut Store, workblock_id: i64, number: i32, start: i64, words: &str) {
    let iv = add_interval(store, workblock_id, number, start).unwrap();
    update_interval_words(
        store,
        iv.id.unwrap(),
        words.to_string(),
        IntervalStatus::Recorded,
        start + 900,
    )
    .unwrap();
}

#[test]
fn test_day_transition_with_archiving() {
    let mut store = Store::new();
    let yesterday = d(2024, 6, 14);
    let today = d(2024, 6, 15);
    let start: i64 = 1_000_000;

    // A completed workblock from yesterday with four recorded intervals.
    let wb = create_workblock(&mut store, 60, yesterday, start).unwrap();
    let wb_id = wb.id.unwrap();
    let words_list = ["coding", "meeting", "planning", "coding"];
    for (i, words) in words_list.iter().enumerate() {
        record_interval(&mut store, wb_id, (i + 1) as i32, start + (i as i64) * 900, words);
    }
    complete_workblock(&mut store, wb_id, start + 3600).unwrap();

    let before = get_workblock_by_id(&store, wb_id).unwrap();
    assert!(!before.is_archived, "Workblock should not be archived before day transition");
    assert!(
        get_archived_day(&store, yesterday).unwrap().is_none(),
        "Archive should not exist before day transition"
    );

    let archived_date = check_and_reset_daily(&mut store, today, start + 90_000).unwrap();
    assert!(archived_date.is_some(), "Day transition should archive previous day");
    assert_eq!(archived_date.unwrap(), yesterday, "Should archive yesterday's date");

    let after = get_workblock_by_id(&store, wb_id).unwrap();
    assert!(after.is_archived, "Workblock should be archived after day transition");

    let archive = get_archived_day(&store, yesterday).unwrap();
    assert!(archive.is_some(), "Archive entry should exist after day transition");
    let archive = archive.unwrap();
    let viz = archive.visualization_data.as_ref().unwrap();

    assert_eq!(viz.workblocks.len(), 1);
    let wb_viz = &viz.workblocks[0];
    assert_eq!(wb_viz.id, wb_id);
    assert_eq!(wb_viz.timeline_data.len(), 4);

    let coding = wb_viz.activity_data.iter().find(|a| a.words == "coding");
    assert!(coding.is_some());
    assert_eq!(coding.unwrap().total_minutes, 30); // 2 intervals * 15 min

    let agg = &viz.daily_aggregate;
    assert_eq!(agg.total_workblocks, 1);
    assert_eq!(agg.total_minutes, 60);
    assert_eq!(agg.timeline_data.len(), 4);

    let agg_coding = agg.activity_data.iter().find(|a| a.words == "coding");
    assert!(agg_coding.is_some());
    assert_eq!(agg_coding.unwrap().total_minutes, 30);

    println!("\u{2713} Test: Day transition with archiving passed");
    println!("  - Yesterday workblock archived: {}", after.is_archived);
    println!("  - Archive entry created: true");
    println!("  - Workblocks in archive: {}", viz.workblocks.len());
    println!("  - Activities in aggregate: {}", agg.activity_data.len());
}

#[test]
fn test_day_transition_with_active_workblock() {
    let mut store = Store::new();
    let yesterday = d(2024, 6, 14);
    let today = d(2024, 6, 15);
    let start: i64 = 1_000_000;

    // A workblock left Active across midnight.
    let wb = create_workblock(&mut store, 120, yesterday, start).unwrap();
    let wb_id = wb.id.unwrap();
    for i in 1..=3 {
        record_interval(&mut store, wb_id, i, start + ((i - 1) as i64) * 900, "coding");
    }

    check_and_reset_daily(&mut store, today, start + 90_000).unwrap();

    let after = get_workblock_by_id(&store, wb_id).unwrap();
    assert!(
        matches!(after.status, WorkblockStatus::Completed),
        "Active workblock from previous day should be completed"
    );
    assert!(after.end_time.is_some(), "Completed workblock should have end_time");
    assert!(after.is_archived, "Workblock should be archived");

    println!("\u{2713} Test: Day transition with active workblock passed");
    println!("  - Active workblock completed: true");
    println!("  - Workblock archived: {}", after.is_archived);
}

#[test]
fn test_multiple_workblocks_archiving() {
    let mut store = Store::new();
    let yesterday = d(2024, 6, 14);
    let today = d(2024, 6, 15);

    let mut workblock_ids = Vec::new();
    for i in 0..3 {
        let start: i64 = 1_000_000 + (i as i64) * 10_000;
        let wb = create_workblock(&mut store, 60, yesterday, start).unwrap();
        let wb_id = wb.id.unwrap();
        workblock_ids.push(wb_id);
        let words = if i == 0 { "coding" } else { "meeting" };
        for j in 1..=2 {
            record_interval(&mut store, wb_id, j, start + ((j - 1) as i64) * 900, words);
        }
        complete_workblock(&mut store, wb_id, start + 3600).unwrap();
    }

    check_and_reset_daily(&mut store, today, 2_000_000).unwrap();

    for wb_id in &workblock_ids {
        let wb = get_workblock_by_id(&store, *wb_id).unwrap();
        assert!(wb.is_archived, "All workblocks should be archived");
    }

    let archive = get_archived_day(&store, yesterday).unwrap().unwrap();
    assert_eq!(archive.total_workblocks, 3, "Should have 3 workblocks in archive");
    assert_eq!(archive.total_minutes, 180, "Should have 180 total minutes (3 * 60)");

    let viz = archive.visualization_data.as_ref().unwrap();
    assert_eq!(viz.workblocks.len(), 3, "Visualization should include all 3 workblocks");

    let agg = &viz.daily_aggregate;
    assert_eq!(agg.total_workblocks, 3);
    assert_eq!(agg.total_minutes, 180);

    let coding = agg.activity_data.iter().find(|a| a.words == "coding");
    let meeting = agg.activity_data.iter().find(|a| a.words == "meeting");
    assert!(coding.is_some(), "Should have coding activity in aggregate");
    assert!(meeting.is_some(), "Should have meeting activity in aggregate");
    // Coding: 1 workblock * 2 intervals * 15 min = 30 min.
    assert_eq!(coding.unwrap().total_minutes, 30);
    // Meeting: 2 workblocks * 2 intervals * 15 min = 60 min.
    assert_eq!(meeting.unwrap().total_minutes, 60);

    println!("\u{2713} Test: Multiple workblocks archiving passed");
    println!("  - Workblocks archived: {}", workblock_ids.len());
    println!("  - Total workblocks in archive: {}", archive.total_workblocks);
    println!("  - Total minutes: {}", archive.total_minutes);
    println!("  - Activities in aggregate: {}", agg.activity_data.len());
}
