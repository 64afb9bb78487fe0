use basedbrowser::persist::Session;
use basedbrowser::tabs::{restore_plan, TabList};

#[test]
fn open_set_active_and_cycle() {
    let mut tabs: TabList<&str> = TabList::new();
    assert_eq!(tabs.active_tab(), None);
    assert_eq!(tabs.next_index(), None);
    assert_eq!(tabs.open("a", true), 0);
    assert_eq!(tabs.open("b", false), 1);
    assert_eq!(tabs.active_index(), 0);
    assert_eq!(tabs.open("c", true), 2);
    assert_eq!(tabs.active_tab(), Some(&"c"));
    assert_eq!(tabs.next_index(), Some(0));
    assert!(!tabs.set_active(3));
    assert_eq!(tabs.active_index(), 2);
    assert!(tabs.set_active(1));
    assert_eq!(tabs.next_index(), Some(2));
    assert_eq!(tabs.len(), 3);
    assert_eq!(tabs.get(0), Some(&"a"));
    assert_eq!(tabs.get(9), None);
}

#[test]
fn close_keeps_the_same_tab_active_and_refuses_the_last() {
    let mut tabs: TabList<&str> = TabList::new();
    tabs.open("a", false);
    tabs.open("b", false);
    tabs.open("c", true);
    assert_eq!(tabs.close(0), Some("a"));
    assert_eq!(tabs.active_tab(), Some(&"c"));
    assert_eq!(tabs.active_index(), 1);
    assert_eq!(tabs.close(7), None);
    assert_eq!(tabs.close(1), Some("c"), "closing the active last tab");
    assert_eq!(tabs.active_tab(), Some(&"b"));
    assert_eq!(tabs.close(0), None, "the last tab is never closed");
    assert_eq!(tabs.len(), 1);
}

#[test]
fn closing_the_active_middle_tab_activates_its_successor() {
    let mut tabs: TabList<u32> = TabList::new();
    for t in 0..4 {
        tabs.open(t, false);
    }
    tabs.set_active(1);
    assert_eq!(tabs.close(1), Some(1));
    assert_eq!(tabs.active_tab(), Some(&2));
}

#[test]
fn restore_plan_skips_invalid_urls_and_clamps_active() {
    assert!(restore_plan(None).is_none());
    assert!(restore_plan(Some(Session { tabs: vec![], active: 0 })).is_none());
    assert!(restore_plan(Some(Session { tabs: vec!["   ".into()], active: 0 })).is_none());
    let plan = restore_plan(Some(Session {
        tabs: vec!["https://a.com".into(), " ".into(), "exemplo.com".into()],
        active: 5,
    }))
    .unwrap();
    assert_eq!(plan.urls, vec!["https://a.com/".to_string(), "https://exemplo.com/".to_string()]);
    assert_eq!(plan.active, 1);
}

#[test]
fn restore_plan_activates_the_tab_that_was_active() {
    let plan = restore_plan(Some(Session {
        tabs: vec![" ".into(), "https://a.com".into(), "https://b.com".into()],
        active: 1,
    }))
    .unwrap();
    assert_eq!(plan.urls, vec!["https://a.com/".to_string(), "https://b.com/".to_string()]);
    assert_eq!(plan.active, 0);
    let skipped = restore_plan(Some(Session {
        tabs: vec!["https://a.com".into(), "https://b.com".into(), "".into()],
        active: 2,
    }))
    .unwrap();
    assert_eq!(skipped.active, 1);
}
