use basedbrowser::clock::now_unix;
use basedbrowser::favicon::{favicon_rgba, PixelFormat};
use basedbrowser::gpu_memory::find_memory_type;
use basedbrowser::history_search::{filtered_history, history_panel, url_suggestions};
use basedbrowser::pacing::{idle_after_skip, idle_after_tick, init_tick, skip_tick};
use basedbrowser::persist::{AppData, HistoryEntry};

#[test]
fn favicon_conversion() {
    let px = [1u8, 2, 3, 4, 5, 6, 7, 8, 99];
    assert_eq!(favicon_rgba(2, 1, PixelFormat::Rgba8, &px), Some(vec![1, 2, 3, 4, 5, 6, 7, 8]));
    assert_eq!(favicon_rgba(2, 1, PixelFormat::Bgra8, &px), Some(vec![3, 2, 1, 4, 7, 6, 5, 8]));
    assert_eq!(favicon_rgba(0, 1, PixelFormat::Rgba8, &px), None);
    assert_eq!(favicon_rgba(2, 1, PixelFormat::Other, &px), None);
    assert_eq!(favicon_rgba(3, 1, PixelFormat::Rgba8, &px), None, "too few bytes");
}

#[test]
fn memory_type_choice() {
    let flags = [0b10u32, 0b01, 0b11];
    assert_eq!(find_memory_type(&flags, 0b111, 0b01), Some(1));
    assert_eq!(find_memory_type(&flags, 0b101, 0b01), Some(2));
    assert_eq!(find_memory_type(&flags, 0b001, 0b01), None);
    assert_eq!(find_memory_type(&[], u32::MAX, 0), None);
}

#[test]
fn pacing_decisions() {
    assert_eq!(init_tick(0), (true, 1));
    assert_eq!(init_tick(8), (false, 9));
    assert!(!skip_tick(true, 31));
    assert!(!skip_tick(false, 29));
    assert!(skip_tick(false, 31));
    assert!(!skip_tick(false, 36));
    assert_eq!(idle_after_tick(true, false, 40), 0);
    assert_eq!(idle_after_tick(false, true, 40), 0);
    assert_eq!(idle_after_tick(false, false, 40), 41);
    assert_eq!(idle_after_skip(u32::MAX), u32::MAX);
}

#[test]
fn clock_reads_a_plausible_time() {
    assert!(now_unix() > 1_600_000_000);
}

fn entry(url: &str, title: &str) -> HistoryEntry {
    HistoryEntry { url: url.into(), title: title.into(), visited_at: 0 }
}

#[test]
fn history_search_newest_first_dedup_and_limit() {
    let mut data = AppData::default();
    data.history = vec![
        entry("https://a.com", "Alpha"),
        entry("https://b.com", "Beta"),
        entry("https://a.com", "Alpha again"),
        entry("https://c.org", "Gamma"),
    ];
    let all = filtered_history(&data, "", 10);
    let urls: Vec<&str> = all.iter().map(|m| m.url.as_str()).collect();
    assert_eq!(urls, vec!["https://c.org", "https://a.com", "https://b.com"]);
    assert_eq!(all[1].title, "Alpha again");
    let hits = filtered_history(&data, "ALPHA", 10);
    assert_eq!(hits.len(), 1);
    let com = filtered_history(&data, ".COM", 1);
    assert_eq!(com.len(), 1);
    assert_eq!(com[0].url, "https://a.com");
    assert!(url_suggestions(&data, "").is_empty());
    assert_eq!(url_suggestions(&data, "gam").len(), 1);
    assert_eq!(history_panel(&data, "").len(), 3);
}

use basedbrowser::favicon::placeholder_rgba;
use basedbrowser::home::{second_page, start_page, PAGE2_HTML, START_HTML};
use basedbrowser::input::{mouse_button, pointer_action, MouseButtonKind, PointerAction};
use basedbrowser::tabs::extra_tab_count;

#[test]
fn pointer_decoding() {
    assert_eq!(pointer_action(0), PointerAction::Down);
    assert_eq!(pointer_action(1), PointerAction::Up);
    assert_eq!(pointer_action(7), PointerAction::Move);
    assert_eq!(mouse_button(1), MouseButtonKind::Right);
    assert_eq!(mouse_button(2), MouseButtonKind::Middle);
    assert_eq!(mouse_button(-3), MouseButtonKind::Left);
}

#[test]
fn start_pages_link_to_each_other() {
    let start = start_page("file:///tmp/basedbrowser-page2.html");
    assert!(start.contains("href=\"file:///tmp/basedbrowser-page2.html\""));
    assert!(!start.contains("__PAGE2_URL__"));
    assert_eq!(start, START_HTML.replace("__PAGE2_URL__", "file:///tmp/basedbrowser-page2.html"));
    let page2 = second_page("file:///tmp/basedbrowser-start.html");
    assert_eq!(page2, PAGE2_HTML.replace("__START_URL__", "file:///tmp/basedbrowser-start.html"));
}

#[test]
fn placeholder_pixels() {
    let px = placeholder_rgba(2, 1);
    assert_eq!(px, vec![28, 30, 38, 255, 28, 30, 38, 255]);
    assert!(placeholder_rgba(0, 5).is_empty());
}

#[test]
fn measurement_tabs() {
    assert_eq!(extra_tab_count(None, 1), 0);
    assert_eq!(extra_tab_count(Some("5"), 1), 4);
    assert_eq!(extra_tab_count(Some("1"), 1), 0);
    assert_eq!(extra_tab_count(Some("x"), 1), 0);
    assert_eq!(extra_tab_count(Some(" 5"), 1), 0, "no trimming, like usize::from_str");
}
