use focustime::category::Category;
use focustime::models::UsageEvent;
use focustime::report::build_session_report;
use focustime::session::{ClosedEvent, DomainUpdate, SessionEngine};

fn started(at: i64, process: &str, category: Category) -> SessionEngine {
    let mut engine = SessionEngine::new();
    let id = engine.start(9, 3, at, process.to_string(), category);
    assert_eq!(id, 9);
    engine
}

#[test]
fn new_engine_is_idle() {
    let engine = SessionEngine::default();
    assert!(engine.inner.is_none());
    assert!(!engine.running_flag());
    assert!(engine.live_state_at(100).is_none());
    assert!(engine.live_state().is_none());
}

#[test]
fn start_opens_first_event() {
    let engine = started(1000, "Code.exe", Category::Work);
    assert!(engine.running_flag());
    let s = engine.inner.as_ref().unwrap();
    assert_eq!(s.session_id, 9);
    assert_eq!(s.profile_id, 3);
    assert_eq!(s.session_start, 1000);
    assert_eq!(s.event_start, 1000);
    assert_eq!(s.current_process, "Code.exe");
    assert_eq!(s.current_domain, None);
    assert_eq!(s.totals.work, 0);
}

#[test]
fn tick_with_same_process_changes_nothing() {
    let mut engine = started(1000, "Code.exe", Category::Work);
    assert!(!engine.tick_needs_switch("Code.exe"));
    assert!(engine.on_tick_at("Code.exe", Category::Distraction, 1010).is_none());
    let s = engine.inner.as_ref().unwrap();
    assert_eq!(s.event_start, 1000);
    assert_eq!(s.current_category, Category::Work);
    assert_eq!(s.totals.work, 0);
}

#[test]
fn tick_with_new_process_closes_event() {
    let mut engine = started(1000, "Code.exe", Category::Work);
    assert!(engine.tick_needs_switch("Discord.exe"));
    let ev = engine.on_tick_at("Discord.exe", Category::Distraction, 1060).unwrap();
    assert_eq!(ev.session_id, 9);
    assert_eq!(ev.process_name, "Code.exe");
    assert_eq!(ev.domain, None);
    assert_eq!(ev.category, Category::Work);
    assert_eq!(ev.started_at, 1000);
    assert_eq!(ev.ended_at, 1060);
    let s = engine.inner.as_ref().unwrap();
    assert_eq!(s.current_process, "Discord.exe");
    assert_eq!(s.current_category, Category::Distraction);
    assert_eq!(s.event_start, 1060);
    assert_eq!(s.totals.work, 60);
    assert_eq!(s.totals.distraction, 0);
    // a repeated poll of the same process changes nothing
    assert!(engine.on_tick_at("Discord.exe", Category::Distraction, 1070).is_none());
}

#[test]
fn clock_running_backwards_counts_zero() {
    let mut engine = started(1000, "Code.exe", Category::Work);
    let ev = engine.on_tick_at("Spotify.exe", Category::Entertainment, 900).unwrap();
    assert_eq!(ev.ended_at, 900);
    assert_eq!(engine.inner.as_ref().unwrap().totals.work, 0);
}

#[test]
fn tick_without_session_is_ignored() {
    let mut engine = SessionEngine::new();
    assert!(!engine.tick_needs_switch("Code.exe"));
    assert!(engine.on_tick_at("Code.exe", Category::Work, 10).is_none());
    assert!(engine.on_tick("Code.exe", Category::Work).is_none());
    assert!(engine.inner.is_none());
}

#[test]
fn domain_decisions() {
    let mut engine = SessionEngine::new();
    assert_eq!(engine.domain_update_action("github.com"), DomainUpdate::NoSession);
    engine.start(1, 1, 0, "Code.exe".to_string(), Category::Work);
    assert_eq!(engine.domain_update_action("github.com"), DomainUpdate::NotBrowser);
    assert!(engine.on_domain_update_at("github.com", Category::Work, 5).is_none());
    engine.on_tick_at("chrome.exe", Category::Unclassified, 10);
    assert_eq!(engine.domain_update_action("github.com"), DomainUpdate::Switch);
    let ev = engine.on_domain_update_at("github.com", Category::Work, 20).unwrap();
    assert_eq!(ev.process_name, "chrome.exe");
    assert_eq!(ev.category, Category::Unclassified);
    assert_eq!(ev.started_at, 10);
    assert_eq!(ev.ended_at, 20);
    assert_eq!(engine.domain_update_action("github.com"), DomainUpdate::Unchanged);
    assert!(engine.on_domain_update_at("github.com", Category::Work, 30).is_none());
    let s = engine.inner.as_ref().unwrap();
    assert_eq!(s.current_process, "chrome.exe");
    assert_eq!(s.current_domain.as_deref(), Some("github.com"));
    assert_eq!(s.current_category, Category::Work);
    assert_eq!(s.event_start, 20);
    assert_eq!(s.totals.unclassified, 10);
    let ev = engine.on_domain_update_at("youtube.com", Category::Entertainment, 50).unwrap();
    assert_eq!(ev.domain.as_deref(), Some("github.com"));
    assert_eq!(engine.inner.as_ref().unwrap().totals.work, 40);
}

#[test]
fn switching_process_forgets_the_domain() {
    let mut engine = started(0, "chrome.exe", Category::Unclassified);
    engine.on_domain_update_at("github.com", Category::Work, 5);
    engine.on_tick_at("firefox.exe", Category::Unclassified, 8);
    assert_eq!(engine.inner.as_ref().unwrap().current_domain, None);
    assert_eq!(engine.domain_update_action("github.com"), DomainUpdate::Switch);
}

#[test]
fn live_state_folds_open_event() {
    let mut engine = started(100, "Code.exe", Category::Work);
    engine.on_tick_at("Discord.exe", Category::Distraction, 160);
    let live = engine.live_state_at(175).unwrap();
    assert_eq!(live.process_name, "Discord.exe");
    assert_eq!(live.category, Category::Distraction);
    assert_eq!(live.domain, None);
    assert_eq!(live.elapsed_seconds, 75);
    assert_eq!(live.totals.work, 60);
    assert_eq!(live.totals.distraction, 15);
    // the snapshot does not change the engine
    assert_eq!(engine.inner.as_ref().unwrap().totals.distraction, 0);
    let early = engine.live_state_at(50).unwrap();
    assert_eq!(early.elapsed_seconds, 0);
    assert_eq!(early.totals.distraction, 0);
}

#[test]
fn clock_driven_calls_use_the_current_time() {
    let mut engine = started(1_000_000_000, "Code.exe", Category::Work);
    let ev = engine.on_tick("chrome.exe", Category::Unclassified).unwrap();
    assert!(ev.ended_at > 1_600_000_000);
    assert!(engine.inner.as_ref().unwrap().totals.work > 600_000_000);
    let live = engine.live_state().unwrap();
    assert!(live.elapsed_seconds > 600_000_000);
    let ev = engine.on_domain_update("github.com", Category::Work).unwrap();
    assert_eq!(ev.process_name, "chrome.exe");
    let last = engine.stop().unwrap();
    assert_eq!(last.domain.as_deref(), Some("github.com"));
    assert!(last.ended_at >= ev.ended_at);
}

#[test]
fn clock_reading_out_of_range_changes_nothing() {
    let mut engine = started(0, "Code.exe", Category::Work);
    engine.inner.as_mut().unwrap().event_start = i64::MIN;
    assert!(engine.on_tick("chrome.exe", Category::Unclassified).is_none());
    assert_eq!(engine.inner.as_ref().unwrap().current_process, "Code.exe");
    assert!(engine.live_state().is_none());
}

#[test]
fn stop_returns_final_event() {
    let mut engine = started(100, "Code.exe", Category::Work);
    let ev = engine.stop_at(130).unwrap();
    assert_eq!(ev.session_id, 9);
    assert_eq!(ev.process_name, "Code.exe");
    assert_eq!(ev.started_at, 100);
    assert_eq!(ev.ended_at, 130);
    assert!(engine.inner.is_none());
    assert!(!engine.running_flag());
    assert!(engine.stop_at(140).is_none());
    assert!(engine.stop().is_none());
}

fn stored(id: i64, ev: &ClosedEvent) -> UsageEvent {
    UsageEvent {
        id,
        session_id: ev.session_id,
        process_name: ev.process_name.clone(),
        domain: ev.domain.clone(),
        category: ev.category,
        started_at: ev.started_at,
        ended_at: Some(ev.ended_at),
    }
}

#[test]
fn report_totals_match_session_totals() {
    let mut engine = started(0, "Code.exe", Category::Work);
    let mut rows = Vec::new();
    let steps: [(&str, Category, i64); 5] = [
        ("chrome.exe", Category::Unclassified, 40),
        ("Code.exe", Category::Work, 35),
        ("Spotify.exe", Category::Entertainment, 90),
        ("Discord.exe", Category::Distraction, 120),
        ("Code.exe", Category::Work, 200),
    ];
    for (i, (name, category, at)) in steps.iter().enumerate() {
        let ev = engine.on_tick_at(name, *category, *at).unwrap();
        rows.push(stored(i as i64, &ev));
    }
    let totals = engine.inner.as_ref().unwrap().totals;
    let report = build_session_report(9, rows).unwrap();
    assert_eq!(report.totals.work, totals.work);
    assert_eq!(report.totals.entertainment, totals.entertainment);
    assert_eq!(report.totals.distraction, totals.distraction);
    assert_eq!(report.totals.unclassified, totals.unclassified);
    assert_eq!(totals.work, 40 + 55);
    assert_eq!(totals.unclassified, 0);
    assert_eq!(totals.entertainment, 30);
    assert_eq!(totals.distraction, 80);
}

#[test]
fn live_totals_sum_to_session_time() {
    let mut engine = started(1000, "Code.exe", Category::Work);
    engine.on_tick_at("chrome.exe", Category::Unclassified, 1030);
    engine.on_domain_update_at("youtube.com", Category::Entertainment, 1045);
    engine.on_domain_update_at("github.com", Category::Work, 1045);
    engine.on_tick_at("Discord.exe", Category::Distraction, 1100);
    let s = engine.inner.as_ref().unwrap();
    let closed = s.totals.work + s.totals.entertainment + s.totals.distraction + s.totals.unclassified;
    assert_eq!(closed, 1100 - 1000);
    let live = engine.live_state_at(1130).unwrap();
    let sum = live.totals.work + live.totals.entertainment + live.totals.distraction + live.totals.unclassified;
    assert_eq!(sum, 130);
    assert_eq!(live.elapsed_seconds, 130);
}

#[test]
fn stored_rows_chain_from_start_to_stop() {
    let mut engine = started(500, "Code.exe", Category::Work);
    let mut rows = Vec::new();
    rows.push(engine.on_tick_at("chrome.exe", Category::Unclassified, 520).unwrap());
    rows.push(engine.on_domain_update_at("github.com", Category::Work, 530).unwrap());
    rows.push(engine.on_tick_at("Spotify.exe", Category::Entertainment, 600).unwrap());
    rows.push(engine.stop_at(660).unwrap());
    assert_eq!(rows[0].started_at, 500);
    for k in 0..rows.len() - 1 {
        assert_eq!(rows[k + 1].started_at, rows[k].ended_at);
    }
    assert_eq!(rows[rows.len() - 1].ended_at, 660);
    let covered: i64 = rows.iter().map(|r| r.ended_at - r.started_at).sum();
    assert_eq!(covered, 160);
    assert!(rows.iter().all(|r| r.session_id == 9));
}

#[test]
fn repeated_domain_report_settles() {
    let mut engine = started(0, "msedge.exe", Category::Unclassified);
    assert!(engine.on_domain_update_at("x.com", Category::Distraction, 10).is_some());
    assert_eq!(engine.domain_update_action("x.com"), DomainUpdate::Unchanged);
    assert!(engine.on_domain_update_at("x.com", Category::Distraction, 20).is_none());
    assert_eq!(engine.inner.as_ref().unwrap().event_start, 10);
}

#[test]
fn step_at_unrepresentable_time_changes_nothing() {
    let mut engine = started(10, "chrome.exe", Category::Unclassified);
    assert!(engine.on_tick_at("Code.exe", Category::Work, i64::MIN).is_none());
    assert!(engine.on_domain_update_at("x.com", Category::Work, i64::MIN).is_none());
    assert!(engine.live_state_at(i64::MIN).is_none());
    let s = engine.inner.as_ref().unwrap();
    assert_eq!(s.current_process, "chrome.exe");
    assert_eq!(s.event_start, 10);
    assert!(engine.live_state_at(20).is_some());
}
