use basedbrowser::persist::{
    load_bookmarks, load_history, load_session, record_visit, record_visit_at, session_snapshot,
    AppData, Bookmark, HistoryEntry, ReadOutcome, Session, HISTORY_CAP,
};

#[test]
fn record_visit_dedups_consecutive_same_url() {
    let mut history = Vec::new();
    assert!(record_visit(&mut history, "https://a.com", "A"));
    assert!(record_visit(
        &mut history,
        "https://a.com",
        "A (recarregada)"
    ));
    assert_eq!(history.len(), 1, "mesma URL consecutiva não duplica");
    assert_eq!(history[0].title, "A (recarregada)");
    assert!(record_visit(&mut history, "https://b.com", "B"));
    assert_eq!(history.len(), 2);
}

#[test]
fn record_visit_ignores_empty_and_caps() {
    let mut history = Vec::new();
    assert!(!record_visit(&mut history, "", "vazia"));
    assert!(history.is_empty());
    for i in 0..(HISTORY_CAP + 50) {
        record_visit(&mut history, &format!("https://site/{i}"), "x");
    }
    assert_eq!(history.len(), HISTORY_CAP, "respeita o teto");
    assert_eq!(
        history[0].url,
        format!("https://site/{}", 50),
        "descarta as mais antigas (FIFO)"
    );
}

#[test]
fn record_visit_at_sets_the_time_and_refreshes_on_reload() {
    let mut history = Vec::new();
    assert!(record_visit_at(&mut history, "https://a.com", "", 10));
    assert_eq!(history[0].visited_at, 10);
    assert!(record_visit_at(&mut history, "https://a.com", "A", 20));
    assert_eq!(history.len(), 1);
    assert_eq!(history[0].title, "A");
    assert_eq!(history[0].visited_at, 20);
    assert!(record_visit_at(&mut history, "https://b.com", "B", 30));
    assert!(record_visit_at(&mut history, "https://a.com", "A", 40));
    assert_eq!(history.len(), 3, "only consecutive repeats are merged");
}

#[test]
fn record_visit_at_full_history_drops_exactly_the_oldest() {
    let mut history: Vec<HistoryEntry> = (0..HISTORY_CAP)
        .map(|i| HistoryEntry { url: format!("u{i}"), title: String::new(), visited_at: 0 })
        .collect();
    assert!(record_visit_at(&mut history, "new", "N", 5));
    assert_eq!(history.len(), HISTORY_CAP);
    assert_eq!(history[0].url, "u1");
    assert_eq!(history[HISTORY_CAP - 1].url, "new");
}

#[test]
fn record_visit_reads_the_clock() {
    let mut history = Vec::new();
    assert!(record_visit(&mut history, "https://a.com", "A"));
    assert!(history[0].visited_at > 1_600_000_000, "a clock reading, not a constant");
}

#[test]
fn load_outcomes_give_empty_lists_on_failure() {
    let bm = vec![Bookmark { title: "GitHub".into(), url: "https://github.com".into() }];
    assert_eq!(load_bookmarks(ReadOutcome::Parsed(bm.clone())), bm);
    assert!(load_bookmarks(ReadOutcome::Missing).is_empty());
    assert!(load_bookmarks(ReadOutcome::Invalid).is_empty());
    assert!(load_bookmarks(ReadOutcome::Unreadable).is_empty());
    assert!(load_bookmarks(ReadOutcome::NoConfigDir).is_empty());
    assert!(load_history(ReadOutcome::Invalid).is_empty());
    let h = vec![HistoryEntry { url: "u".into(), title: "t".into(), visited_at: 3 }];
    assert_eq!(load_history(ReadOutcome::Parsed(h.clone())), h);
}

#[test]
fn load_session_distinguishes_missing_from_invalid() {
    assert_eq!(load_session(ReadOutcome::Missing), None);
    assert_eq!(load_session(ReadOutcome::NoConfigDir), None);
    let empty = Session { tabs: vec![], active: 0 };
    assert_eq!(load_session(ReadOutcome::Invalid), Some(empty.clone()));
    assert_eq!(load_session(ReadOutcome::Unreadable), Some(empty));
    let s = Session { tabs: vec!["https://a.com".into(), "https://b.com".into()], active: 1 };
    assert_eq!(load_session(ReadOutcome::Parsed(s.clone())), Some(s));
}

#[test]
fn app_data_load_and_clear_history_keeps_bookmarks() {
    let bm = vec![Bookmark { title: "Servo".into(), url: "https://servo.org".into() }];
    let mut data = AppData::load(ReadOutcome::Parsed(bm.clone()), ReadOutcome::Missing);
    assert_eq!(data.bookmarks, bm);
    assert!(data.history.is_empty());
    assert!(data.record_visit("https://a.com", "A"));
    assert!(!data.record_visit("", "nothing"));
    assert_eq!(data.history.len(), 1);
    data.clear_history();
    assert!(data.history.is_empty());
    assert_eq!(data.bookmarks, bm);
}

#[test]
fn add_bookmark_skips_empty_and_duplicates_and_labels_by_url() {
    let mut data = AppData::default();
    assert!(!data.add_bookmark("", "x"));
    assert!(data.add_bookmark("https://a.com", ""));
    assert_eq!(data.bookmarks[0].title, "https://a.com");
    assert!(!data.add_bookmark("https://a.com", "A again"));
    assert!(data.add_bookmark("https://b.com", "B"));
    assert_eq!(data.bookmarks.len(), 2);
    assert_eq!(data.bookmarks[1].title, "B");
    assert_eq!(data.bookmark_url(1), Some("https://b.com".to_string()));
    assert_eq!(data.bookmark_url(2), None);
    assert!(!data.remove_bookmark(5));
    assert!(data.remove_bookmark(0));
    assert_eq!(data.bookmarks.len(), 1);
    assert_eq!(data.bookmarks[0].url, "https://b.com");
}

#[test]
fn session_snapshot_skips_tabs_without_url_and_clamps_active() {
    assert_eq!(session_snapshot(vec![None, None], 1), None);
    let s = session_snapshot(
        vec![Some("https://a.com".into()), None, Some("https://b.com".into())],
        2,
    )
    .unwrap();
    assert_eq!(s.tabs, vec!["https://a.com".to_string(), "https://b.com".to_string()]);
    assert_eq!(s.active, 1);
    let s = session_snapshot(vec![Some("x".into()), Some("y".into())], 0).unwrap();
    assert_eq!(s.active, 0);
}
