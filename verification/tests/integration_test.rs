// Store operations end to end: creating workblocks with intervals,
// grouping activities, and separating archived days.

use log15::date::Date;
use log15::store::{
    IntervalStatus, Store, add_interval, archive_daily_data, complete_workblock,
    create_workblock, get_intervals_by_workblock, get_workblock_by_id, get_workblocks_by_date,
    update_interval_words,
};
use log15::viz::generate_workblock_visualization;

fn d(year: i32, month: i32, day: i32) -> Date {
    Date { year, month, day }
}

fn record_interval(store: &mut Store, workblock_id: i64, number: i32, start: i64, words: &str) {
    let iv = add_interval(store, workblock_id, number, start).unwrap();
    update_interval_words(
        store,
        iv.id.unwrap(),
        words.to_string(),
        IntervalStatus::Recorded,
        start + 900,
    )
    .unwrap();
}

#[test]
fn test_workblock_creation_and_visualization() {
    let mut store = Store::new();
    let today = d(2024, 6, 15);
    let start: i64 = 1_000_000;

    let wb = create_workblock(&mut store, 60, today, start).unwrap();
    let workblock_id = wb.id.unwrap();

    for i in 1..=4 {
        let words = match i {
            1 | 2 => "coding",
            3 => "meeting",
            _ => "planning",
        };
        record_interval(&mut store, workblock_id, i, start + ((i - 1) as i64) * 900, words);
    }
    complete_workblock(&mut store, workblock_id, start + 3600).unwrap();

    let intervals = get_intervals_by_workblock(&store, workblock_id).unwrap();
    assert_eq!(intervals.len(), 4);

    println!("\u{2713} Test: Workblock creation with intervals passed");

    let viz = generate_workblock_visualization(&store, workblock_id).unwrap();
    let count_of = |words: &str| {
        viz.word_frequency
            .iter()
            .find(|f| f.word == words)
            .map(|f| f.count)
    };
    assert_eq!(count_of("coding"), Some(2));
    assert_eq!(count_of("meeting"), Some(1));
    assert_eq!(count_of("planning"), Some(1));

    println!("\u{2713} Test: Activity grouping works correctly");
}

#[test]
fn test_day_transition() {
    let mut store = Store::new();
    let yesterday = d(2024, 6, 14);
    let today = d(2024, 6, 15);
    let start: i64 = 1_000_000;

    // Yesterday's workblock, completed, with two recorded intervals.
    let wb = create_workblock(&mut store, 60, yesterday, start).unwrap();
    let yesterday_wb_id = wb.id.unwrap();
    for i in 1..=2 {
        record_interval(&mut store, yesterday_wb_id, i, start + ((i - 1) as i64) * 900, "coding");
    }
    complete_workblock(&mut store, yesterday_wb_id, start + 3600).unwrap();

    // Archive yesterday, then start today's workblock.
    archive_daily_data(&mut store, yesterday, start + 90_000).unwrap();
    let today_wb = create_workblock(&mut store, 60, today, start + 90_100).unwrap();
    let today_wb_id = today_wb.id.unwrap();

    assert!(get_workblock_by_id(&store, yesterday_wb_id).unwrap().is_archived);
    assert!(!get_workblock_by_id(&store, today_wb_id).unwrap().is_archived);

    let yesterday_count = get_workblocks_by_date(&store, yesterday).unwrap().len();
    let today_count = get_workblocks_by_date(&store, today).unwrap().len();
    assert_eq!(yesterday_count, 1, "Expected 1 workblock for yesterday, got {}", yesterday_count);
    assert_eq!(today_count, 1, "Expected 1 workblock for today, got {}", today_count);

    println!("\u{2713} Test: Day transition passed");
    println!("  - Yesterday workblocks: {} (archived)", yesterday_count);
    println!("  - Today workblocks: {} (active)", today_count);
}
