use focustime::category::Category;
use focustime::models::UsageEvent;
use focustime::report::build_session_report;

fn ev(category: Category, started_at: i64, ended_at: Option<i64>) -> UsageEvent {
    UsageEvent {
        id: 0,
        session_id: 4,
        process_name: "p.exe".to_string(),
        domain: None,
        category,
        started_at,
        ended_at,
    }
}

#[test]
fn empty_session_report() {
    let report = build_session_report(4, Vec::new()).unwrap();
    assert_eq!(report.session_id, 4);
    assert_eq!(report.totals.work, 0);
    assert_eq!(report.interruption_count, 0);
    assert!(report.events.is_empty());
}

#[test]
fn totals_per_category() {
    let events = vec![
        ev(Category::Work, 0, Some(100)),
        ev(Category::Entertainment, 100, Some(130)),
        ev(Category::Work, 130, Some(150)),
        ev(Category::Unclassified, 150, Some(151)),
        ev(Category::Distraction, 151, Some(160)),
    ];
    let report = build_session_report(4, events).unwrap();
    assert_eq!(report.totals.work, 120);
    assert_eq!(report.totals.entertainment, 30);
    assert_eq!(report.totals.unclassified, 1);
    assert_eq!(report.totals.distraction, 9);
    assert_eq!(report.events.len(), 5);
    assert_eq!(report.events[1].started_at, 100);
}

#[test]
fn open_and_backwards_events_count_zero() {
    let events = vec![ev(Category::Work, 50, None), ev(Category::Work, 80, Some(60))];
    let report = build_session_report(4, events).unwrap();
    assert_eq!(report.totals.work, 0);
}

#[test]
fn interruptions_follow_work() {
    let events = vec![
        ev(Category::Entertainment, 0, Some(1)),
        ev(Category::Work, 1, Some(2)),
        ev(Category::Entertainment, 2, Some(3)),
        ev(Category::Distraction, 3, Some(4)),
        ev(Category::Unclassified, 4, Some(5)),
        ev(Category::Work, 5, Some(6)),
        ev(Category::Entertainment, 6, Some(7)),
    ];
    let report = build_session_report(4, events).unwrap();
    assert_eq!(report.interruption_count, 3);
}

#[test]
fn no_work_no_interruptions() {
    let events = vec![
        ev(Category::Entertainment, 0, Some(1)),
        ev(Category::Distraction, 1, Some(2)),
        ev(Category::Unclassified, 2, Some(3)),
    ];
    let report = build_session_report(4, events).unwrap();
    assert_eq!(report.interruption_count, 0);
}

#[test]
fn span_out_of_range_is_refused() {
    let events = vec![ev(Category::Work, -10, Some(i64::MAX))];
    assert!(build_session_report(4, events).is_none());
}

#[test]
fn total_out_of_range_is_refused() {
    let half = i64::MAX / 2 + 1;
    let events = vec![ev(Category::Work, 0, Some(half)), ev(Category::Work, 0, Some(half))];
    assert!(build_session_report(4, events).is_none());
    let events = vec![ev(Category::Work, 0, Some(half)), ev(Category::Distraction, 0, Some(half))];
    let report = build_session_report(4, events).unwrap();
    assert_eq!(report.totals.work, half);
    assert_eq!(report.totals.distraction, half);
}
