use basedbrowser::shortcuts::{handle_chrome_key, ChromeAction, KeyDecision};

fn d(swallow: bool, action: Option<ChromeAction>) -> KeyDecision {
    KeyDecision { swallow, action }
}

#[test]
fn ctrl_shortcuts_act_on_initial_press_only() {
    assert_eq!(handle_chrome_key("t", true, true, false, false), d(true, Some(ChromeAction::NewTab)));
    assert_eq!(handle_chrome_key("T", false, true, false, false), d(true, None));
    assert_eq!(handle_chrome_key("w", true, true, true, false), d(true, None));
    assert_eq!(handle_chrome_key("W", true, true, false, false), d(true, Some(ChromeAction::CloseActiveTab)));
    assert_eq!(handle_chrome_key("l", true, true, false, false), d(true, Some(ChromeAction::FocusUrlBar)));
    assert_eq!(handle_chrome_key("r", true, true, false, false), d(true, Some(ChromeAction::Reload)));
    assert_eq!(handle_chrome_key("f", true, true, false, false), d(true, Some(ChromeAction::OpenFindBar)));
    assert_eq!(handle_chrome_key("=", true, true, false, false), d(true, Some(ChromeAction::ZoomIn)));
    assert_eq!(handle_chrome_key("+", true, true, false, false), d(true, Some(ChromeAction::ZoomIn)));
    assert_eq!(handle_chrome_key("_", true, true, false, false), d(true, Some(ChromeAction::ZoomOut)));
    assert_eq!(handle_chrome_key("0", true, true, false, false), d(true, Some(ChromeAction::ZoomReset)));
    assert_eq!(handle_chrome_key("\t", true, true, false, false), d(true, Some(ChromeAction::NextTab)));
}

#[test]
fn other_keys_go_to_the_page() {
    assert_eq!(handle_chrome_key("t", true, false, false, false), d(false, None));
    assert_eq!(handle_chrome_key("x", true, true, false, false), d(false, None));
    assert_eq!(handle_chrome_key("tt", true, true, false, false), d(false, None));
    assert_eq!(handle_chrome_key("\t", true, false, false, false), d(false, None));
}

#[test]
fn escape_closes_the_find_bar_only_when_open() {
    assert_eq!(handle_chrome_key("\u{1b}", true, false, false, true), d(true, Some(ChromeAction::CloseFindBar)));
    assert_eq!(handle_chrome_key("\u{1b}", false, false, false, true), d(true, None));
    assert_eq!(handle_chrome_key("\u{1b}", true, true, false, false), d(false, None));
}
