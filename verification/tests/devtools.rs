use basedbrowser::devtools::{
    decimal_string, dev_status, devtools_port, drain_devtools_net, join_headers, parse_u16,
    push_console_line, truncate, upsert_record, ConsoleLevel, ConsoleLine, NetRecord, BODY_CAP,
    CONSOLE_CAP,
};

fn rec(id: u64, status: &str) -> NetRecord {
    let mut r = NetRecord::new(id);
    r.status = status.to_string();
    r
}

#[test]
fn truncate_keeps_short_bodies_and_cuts_at_char_boundary() {
    assert_eq!(truncate("ok"), "ok");
    let exact = "a".repeat(BODY_CAP);
    assert_eq!(truncate(&exact), exact);
    let long = "b".repeat(BODY_CAP + 10);
    assert_eq!(truncate(&long), format!("{}\u{2026}", "b".repeat(BODY_CAP)));
    // 4095 ASCII bytes then a 2-byte char: the char would end past the cap, so it is dropped.
    let tricky = format!("{}é{}", "c".repeat(BODY_CAP - 1), "d".repeat(5));
    assert_eq!(truncate(&tricky), format!("{}\u{2026}", "c".repeat(BODY_CAP - 1)));
}

#[test]
fn join_headers_renders_lines() {
    assert_eq!(join_headers(&vec![]), "");
    let h = vec![
        ("Content-Type".to_string(), "text/html".to_string()),
        ("X-A".to_string(), "1".to_string()),
    ];
    assert_eq!(join_headers(&h), "Content-Type: text/html\nX-A: 1");
}

#[test]
fn upsert_replaces_by_id_or_appends() {
    let mut net = vec![rec(1, ""), rec(2, "")];
    upsert_record(&mut net, rec(2, "200 OK"));
    assert_eq!(net.len(), 2);
    assert_eq!(net[1].status, "200 OK");
    upsert_record(&mut net, rec(3, ""));
    assert_eq!(net.len(), 3);
    assert_eq!(net[2].id, 3);
}

#[test]
fn upserting_twice_leaves_one_row_per_id() {
    let mut net = vec![rec(1, ""), rec(2, "")];
    upsert_record(&mut net, rec(2, "304 Not Modified"));
    upsert_record(&mut net, rec(2, "304 Not Modified"));
    assert_eq!(net.len(), 2);
    assert_eq!(net[0].id, 1);
    assert_eq!(net[1].id, 2);
    assert_eq!(net[1].status, "304 Not Modified");
}

#[test]
fn drain_merges_in_arrival_order() {
    let mut net = vec![rec(1, "")];
    assert!(!drain_devtools_net(&mut net, vec![]));
    assert!(drain_devtools_net(&mut net, vec![rec(1, "404 Not Found"), rec(5, ""), rec(1, "200 OK")]));
    assert_eq!(net.len(), 2);
    assert_eq!(net[0].status, "200 OK");
    assert_eq!(net[1].id, 5);
}

#[test]
fn console_buffer_is_capped_fifo() {
    let mut buf = Vec::new();
    for i in 0..(CONSOLE_CAP + 3) {
        push_console_line(&mut buf, ConsoleLine { level: ConsoleLevel::Log, text: format!("{i}") });
    }
    assert_eq!(buf.len(), CONSOLE_CAP);
    assert_eq!(buf[0].text, "3");
    assert_eq!(buf[CONSOLE_CAP - 1].text, format!("{}", CONSOLE_CAP + 2));
}

#[test]
fn console_level_names() {
    assert_eq!(ConsoleLevel::Log.as_str(), "log");
    assert_eq!(ConsoleLevel::Warn.as_str(), "warn");
    assert_eq!(ConsoleLevel::Trace.as_str(), "trace");
    assert_eq!(ConsoleLevel::Eval.as_str(), "eval");
    assert_eq!(ConsoleLevel::Result.as_str(), "result");
    assert_eq!(ConsoleLevel::Failure.as_str(), "erro");
}

#[test]
fn devtools_port_setting() {
    assert_eq!(devtools_port(None), None);
    assert_eq!(devtools_port(Some("")), Some(7000));
    assert_eq!(devtools_port(Some(" yes ")), Some(7000));
    assert_eq!(devtools_port(Some("true")), Some(7000));
    assert_eq!(devtools_port(Some("9222")), Some(9222));
    assert_eq!(devtools_port(Some("+9222")), Some(9222));
    assert_eq!(devtools_port(Some("80")), Some(7000), "below 1024 falls back");
    assert_eq!(devtools_port(Some("70000")), Some(7000), "out of range falls back");
    assert_eq!(devtools_port(Some("abc")), Some(7000));
}

#[test]
fn parse_u16_like_std() {
    for s in ["0", "65535", "65536", "+1", "+", "-1", "", "12a", "007"] {
        assert_eq!(parse_u16(s), s.parse::<u16>().ok(), "input {s:?}");
    }
}

#[test]
fn status_line_and_decimal_text() {
    assert_eq!(decimal_string(0), "0");
    assert_eq!(decimal_string(1234), "1234");
    assert_eq!(dev_status(Some(7000), 3), "servidor 127.0.0.1:7000 \u{b7} 3 requisi\u{e7}\u{e3}o(\u{f5}es)");
    assert_eq!(
        dev_status(None, 3),
        "servidor desligado \u{2014} rode com BASEDBROWSER_DEVTOOLS p/ ver a rede"
    );
}
