// Store CRUD and the generated summaries.

use log15::date::Date;
use log15::store::{
    IntervalStatus, Store, add_interval, archive_daily_data, complete_workblock,
    create_workblock, get_archived_day, get_intervals_by_workblock, update_interval_words,
};
use log15::viz::{generate_daily_aggregate, generate_workblock_visualization};

fn d(year: i32, month: i32, day: i32) -> Date {
    Date { year, month, day }
}

#[test]
fn test_create_and_complete_workblock() {
    let mut store = Store::new();
    let today = d(2024, 6, 15);
    let start: i64 = 1_000_000;

    let workblock = create_workblock(&mut store, 60, today, start).unwrap();
    assert!(workblock.id.is_some());
    assert_eq!(workblock.status.as_str(), "active");
    assert_eq!(workblock.duration_minutes, Some(60));

    let interval1 = add_interval(&mut store, workblock.id.unwrap(), 1, start).unwrap();
    let interval2 = add_interval(&mut store, workblock.id.unwrap(), 2, start + 900).unwrap();

    update_interval_words(
        &mut store,
        interval1.id.unwrap(),
        "coding".to_string(),
        IntervalStatus::Recorded,
        start + 900,
    )
    .unwrap();
    update_interval_words(
        &mut store,
        interval2.id.unwrap(),
        "meeting".to_string(),
        IntervalStatus::Recorded,
        start + 1800,
    )
    .unwrap();

    let completed = complete_workblock(&mut store, workblock.id.unwrap(), start + 3600).unwrap();
    assert_eq!(completed.status.as_str(), "completed");
    assert!(completed.end_time.is_some());

    println!("\u{2713} Test: Create and complete workblock passed");
}

#[test]
fn test_visualization_generation() {
    let mut store = Store::new();
    let today = d(2024, 6, 15);
    let start: i64 = 1_000_000;

    let workblock = create_workblock(&mut store, 60, today, start).unwrap();
    let wb_id = workblock.id.unwrap();

    for i in 0..4i64 {
        add_interval(&mut store, wb_id, (i + 1) as i32, start + i * 900).unwrap();
    }

    let intervals = get_intervals_by_workblock(&store, wb_id).unwrap();
    let words = ["coding", "coding", "meeting", "planning"];
    for (i, iv) in intervals.iter().enumerate() {
        update_interval_words(
            &mut store,
            iv.id.unwrap(),
            words[i].to_string(),
            IntervalStatus::Recorded,
            iv.start_time + 900,
        )
        .unwrap();
    }

    complete_workblock(&mut store, wb_id, start + 3600).unwrap();

    let viz = generate_workblock_visualization(&store, wb_id).unwrap();

    assert_eq!(viz.timeline_data.len(), 4);
    assert!(viz.activity_data.len() > 0);
    assert!(viz.word_frequency.len() > 0);

    let coding_activity = viz.activity_data.iter().find(|a| a.words == "coding");
    assert!(coding_activity.is_some());
    assert_eq!(coding_activity.unwrap().total_minutes, 30); // 2 intervals * 15 min

    println!("\u{2713} Test: Visualization generation passed");
}

#[test]
fn test_daily_aggregate() {
    let mut store = Store::new();
    let today = d(2024, 6, 15);
    let start: i64 = 1_000_000;

    // First workblock: two recorded coding intervals.
    let wb1 = create_workblock(&mut store, 60, today, start).unwrap();
    let int1 = add_interval(&mut store, wb1.id.unwrap(), 1, start).unwrap();
    let int2 = add_interval(&mut store, wb1.id.unwrap(), 2, start + 900).unwrap();
    update_interval_words(
        &mut store,
        int1.id.unwrap(),
        "coding".to_string(),
        IntervalStatus::Recorded,
        start + 900,
    )
    .unwrap();
    update_interval_words(
        &mut store,
        int2.id.unwrap(),
        "coding".to_string(),
        IntervalStatus::Recorded,
        start + 1800,
    )
    .unwrap();
    complete_workblock(&mut store, wb1.id.unwrap(), start + 3600).unwrap();

    // Second workblock: one recorded meeting interval.
    let wb2 = create_workblock(&mut store, 45, today, start + 4000).unwrap();
    let int3 = add_interval(&mut store, wb2.id.unwrap(), 1, start + 4000).unwrap();
    update_interval_words(
        &mut store,
        int3.id.unwrap(),
        "meeting".to_string(),
        IntervalStatus::Recorded,
        start + 4900,
    )
    .unwrap();
    complete_workblock(&mut store, wb2.id.unwrap(), start + 6700).unwrap();

    let aggregate = generate_daily_aggregate(&store, today).unwrap();

    assert_eq!(aggregate.total_workblocks, 2);
    assert!(aggregate.timeline_data.len() >= 3);
    assert!(aggregate.activity_data.len() >= 2);

    let coding = aggregate.activity_data.iter().find(|a| a.words == "coding");
    assert!(coding.is_some());

    println!("\u{2713} Test: Daily aggregate passed");
}

#[test]
fn test_archiving_and_persistence() {
    let mut store = Store::new();
    let today = d(2024, 6, 15);
    let start: i64 = 1_000_000;

    let wb = create_workblock(&mut store, 60, today, start).unwrap();
    let int1 = add_interval(&mut store, wb.id.unwrap(), 1, start).unwrap();
    let int2 = add_interval(&mut store, wb.id.unwrap(), 2, start + 900).unwrap();
    update_interval_words(
        &mut store,
        int1.id.unwrap(),
        "coding".to_string(),
        IntervalStatus::Recorded,
        start + 900,
    )
    .unwrap();
    update_interval_words(
        &mut store,
        int2.id.unwrap(),
        "testing".to_string(),
        IntervalStatus::Recorded,
        start + 1800,
    )
    .unwrap();
    complete_workblock(&mut store, wb.id.unwrap(), start + 3600).unwrap();

    let archive = archive_daily_data(&mut store, today, start + 4000).unwrap();

    assert_eq!(archive.total_workblocks, 1);
    assert!(archive.visualization_data.is_some());

    let viz_data = archive.visualization_data.as_ref().unwrap();
    assert_eq!(viz_data.workblocks.len(), 1);
    assert!(viz_data.daily_aggregate.timeline_data.len() > 0);
    assert!(viz_data.daily_aggregate.activity_data.len() > 0);

    let retrieved = get_archived_day(&store, today).unwrap();
    assert!(retrieved.is_some());
    assert_eq!(retrieved.unwrap().date, today);

    println!("\u{2713} Test: Archiving and persistence passed");
}
