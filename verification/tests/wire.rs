use basedbrowser::handshake::{
    detail_frames, first_tab_actor, get_watcher_frame, handshake_step, is_tab_list, list_tabs_frame,
    request_frame, watch_frame, watcher_actor, Handshake, HandshakeAction,
};
use basedbrowser::json::{Json, JsonNumber};
use basedbrowser::rdp_wire::{encode_decimal, frame_message, HeaderStep, LengthHeader};

fn s(x: &str) -> Json {
    Json::Str(x.to_string())
}

fn obj(members: Vec<(&str, Json)>) -> Json {
    Json::Object(members.into_iter().map(|(k, v)| (k.to_string(), v)).collect())
}

fn feed_all(bytes: &[u8]) -> Vec<HeaderStep> {
    let mut h = LengthHeader::new();
    bytes.iter().map(|b| h.feed(*b)).collect()
}

#[test]
fn frames_carry_the_byte_length() {
    assert_eq!(encode_decimal(0), b"0".to_vec());
    assert_eq!(encode_decimal(4096), b"4096".to_vec());
    assert_eq!(frame_message("{}"), b"2:{}".to_vec());
    assert_eq!(frame_message("é"), b"2:\xc3\xa9".to_vec());
}

#[test]
fn length_header_reads_digits_up_to_the_colon() {
    assert_eq!(
        feed_all(b"12:"),
        vec![HeaderStep::More, HeaderStep::More, HeaderStep::Length(12)]
    );
    assert_eq!(feed_all(b"x"), vec![HeaderStep::Invalid]);
    assert_eq!(feed_all(b"3x"), vec![HeaderStep::More, HeaderStep::Invalid]);
    assert_eq!(feed_all(b":"), vec![HeaderStep::Invalid]);
    let huge = format!("{}0:", usize::MAX);
    assert_eq!(*feed_all(huge.as_bytes()).last().unwrap(), HeaderStep::Invalid);
    let max = format!("{}:", usize::MAX);
    assert_eq!(*feed_all(max.as_bytes()).last().unwrap(), HeaderStep::Length(usize::MAX));
}

#[test]
fn a_frame_reads_back() {
    let frame = frame_message("{\"to\":\"root\"}");
    let colon = frame.iter().position(|b| *b == b':').unwrap();
    let steps = feed_all(&frame[..=colon]);
    assert_eq!(*steps.last().unwrap(), HeaderStep::Length(frame.len() - colon - 1));
}

#[test]
fn handshake_messages() {
    assert_eq!(list_tabs_frame(), b"31:{\"to\":\"root\",\"type\":\"listTabs\"}".to_vec());
    assert_eq!(
        get_watcher_frame("server1.conn0.tab1"),
        frame_message("{\"to\":\"server1.conn0.tab1\",\"type\":\"getWatcher\"}")
    );
    assert_eq!(
        watch_frame("w\"1"),
        frame_message("{\"resourceTypes\":[\"network-event\"],\"to\":\"w\\\"1\",\"type\":\"watchResources\"}")
    );
    assert_eq!(request_frame("a", "b"), frame_message("{\"to\":\"a\",\"type\":\"b\"}"));
    let d = detail_frames("ne1");
    assert_eq!(d.len(), 3);
    assert_eq!(d[0], frame_message("{\"to\":\"ne1\",\"type\":\"getRequestHeaders\"}"));
    assert_eq!(d[1], frame_message("{\"to\":\"ne1\",\"type\":\"getResponseHeaders\"}"));
    assert_eq!(d[2], frame_message("{\"to\":\"ne1\",\"type\":\"getResponseContent\"}"));
}

#[test]
fn handshake_replies() {
    let empty = obj(vec![("from", s("root")), ("tabs", Json::Array(vec![]))]);
    assert!(is_tab_list(&empty));
    assert_eq!(first_tab_actor(&empty), None);
    let one = obj(vec![("tabs", Json::Array(vec![obj(vec![("actor", s("tab1"))])]))]);
    assert_eq!(first_tab_actor(&one), Some("tab1".to_string()));
    assert!(!is_tab_list(&obj(vec![("from", s("root"))])));
    let reply = obj(vec![("actor", s("watcher2")), ("from", s("tab1"))]);
    assert_eq!(watcher_actor(&reply, "tab1"), Some("watcher2".to_string()));
    assert_eq!(watcher_actor(&reply, "tab9"), None);
    let n = Json::Number(JsonNumber { as_u64: Some(3), text: "3".into() });
    assert_eq!(watcher_actor(&obj(vec![("actor", n), ("from", s("tab1"))]), "tab1"), None);
}

#[test]
fn handshake_steps_through_tabs_watcher_and_subscription() {
    let greeting = obj(vec![("from", s("root")), ("applicationType", s("browser"))]);
    let (st, act) = handshake_step(Handshake::AwaitRoot, &greeting);
    assert_eq!(st, Handshake::AwaitTabs);
    assert_eq!(act, HandshakeAction::Send(list_tabs_frame()));

    let unrelated = obj(vec![("from", s("root"))]);
    let (st, act) = handshake_step(st, &unrelated);
    assert_eq!((st, act), (Handshake::AwaitTabs, HandshakeAction::Wait));

    let empty = obj(vec![("from", s("root")), ("tabs", Json::Array(vec![]))]);
    let (st, act) = handshake_step(Handshake::AwaitTabs, &empty);
    assert_eq!(st, Handshake::AwaitTabs);
    assert_eq!(act, HandshakeAction::SendAfterPause(list_tabs_frame()));

    let listed = obj(vec![("tabs", Json::Array(vec![obj(vec![("actor", s("tab1"))])]))]);
    let (st, act) = handshake_step(st, &listed);
    assert_eq!(st, Handshake::AwaitWatcher("tab1".to_string()));
    assert_eq!(act, HandshakeAction::Send(get_watcher_frame("tab1")));

    let other = obj(vec![("actor", s("w9")), ("from", s("tab2"))]);
    let (st, act) = handshake_step(st, &other);
    assert_eq!((st, act), (Handshake::AwaitWatcher("tab1".to_string()), HandshakeAction::Wait));

    let reply = obj(vec![("actor", s("watcher2")), ("from", s("tab1"))]);
    let (st, act) = handshake_step(Handshake::AwaitWatcher("tab1".to_string()), &reply);
    assert_eq!(st, Handshake::Watching("watcher2".to_string()));
    assert_eq!(act, HandshakeAction::Send(watch_frame("watcher2")));

    let (st, act) = handshake_step(st, &unrelated);
    assert_eq!((st, act), (Handshake::Watching("watcher2".to_string()), HandshakeAction::Ingest));
}
