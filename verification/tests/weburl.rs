use basedbrowser::text::{contains, replace_all, same_text, starts_with, trim};
use basedbrowser::weburl::{is_secure_url, parse_user_url, tab_label, window_title};

#[test]
fn parse_user_url_accepts_absolute_urls_and_adds_https() {
    assert_eq!(parse_user_url("https://servo.org"), Some("https://servo.org/".to_string()));
    assert_eq!(parse_user_url("  exemplo.com  "), Some("https://exemplo.com/".to_string()));
    assert_eq!(parse_user_url("file:///tmp/x.html"), Some("file:///tmp/x.html".to_string()));
    assert_eq!(parse_user_url(""), None);
    assert_eq!(parse_user_url(" \t\n"), None);
    assert_eq!(parse_user_url("a b"), None);
}

#[test]
fn tab_label_prefers_title_then_host() {
    assert_eq!(tab_label("Servo", "https://servo.org/x"), "Servo");
    assert_eq!(tab_label("", "https://servo.org/x"), "servo.org");
    assert_eq!(tab_label("", "file:///tmp/a.html"), "");
    assert_eq!(tab_label("", "not a url"), "");
}

#[test]
fn window_title_and_lock() {
    assert_eq!(window_title(""), "BasedBrowser");
    assert_eq!(window_title("Servo"), "Servo \u{2014} BasedBrowser");
    assert!(is_secure_url("https://a.com"));
    assert!(!is_secure_url("http://a.com"));
    assert!(!is_secure_url("https:"));
}

#[test]
fn text_helpers() {
    assert_eq!(trim("\u{3000} a b \u{2028}"), "a b");
    assert_eq!(trim("\u{200B}x"), "\u{200B}x", "zero-width space is not white space");
    assert!(starts_with("abc", "ab"));
    assert!(!starts_with("a", "ab"));
    assert!(contains("hello world", "o w"));
    assert!(contains("abc", ""));
    assert!(!contains("abc", "abcd"));
    assert!(same_text("é", "é"));
    assert!(!same_text("e", "é"));
    assert_eq!(replace_all("__Q__ and __Q__", "__Q__", "x"), "x and x");
    assert_eq!(replace_all("aaa", "aa", "b"), "ba");
}
