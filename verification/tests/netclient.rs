use basedbrowser::json::{as_str, as_u64, get, parse_payload, to_json_text, Json, JsonNumber};
use basedbrowser::netclient::{parse_headers, sorted_unique, value_to_text, NetClient};

fn s(x: &str) -> Json {
    Json::Str(x.to_string())
}

fn n(v: u64) -> Json {
    Json::Number(JsonNumber { as_u64: Some(v), text: v.to_string() })
}

fn obj(members: Vec<(&str, Json)>) -> Json {
    Json::Object(members.into_iter().map(|(k, v)| (k.to_string(), v)).collect())
}

fn resources(kind: &str, items: Vec<Json>) -> Json {
    obj(vec![
        ("type", s(kind)),
        ("array", Json::Array(vec![Json::Array(vec![s("network-event"), Json::Array(items)])])),
    ])
}

#[test]
fn request_then_response_then_details() {
    let mut c = NetClient::new();
    let r = c.handle(&resources(
        "resources-available-array",
        vec![obj(vec![
            ("actor", s("ne1")),
            ("method", s("GET")),
            ("url", s("https://a.com/")),
            ("resourceId", n(7)),
        ])],
    ));
    assert!(r.requests.is_empty());
    assert_eq!(r.emitted.len(), 1);
    assert_eq!(r.emitted[0].id, 7);
    assert_eq!(r.emitted[0].method, "GET");
    assert_eq!(r.emitted[0].url, "https://a.com/");
    assert_eq!(r.emitted[0].status, "");

    let update = resources(
        "resources-updated-array",
        vec![obj(vec![("resourceId", n(7)), ("resourceUpdates", obj(vec![("status", s("200 OK"))]))])],
    );
    let r = c.handle(&update);
    assert_eq!(r.requests, vec!["ne1".to_string()]);
    assert_eq!(r.emitted[0].status, "200 OK");
    let r = c.handle(&update);
    assert!(r.requests.is_empty(), "details are asked once");

    let headers = |name: &str| {
        obj(vec![
            ("from", s("ne1")),
            ("headers", Json::Array(vec![obj(vec![("name", s(name)), ("value", s("v"))])])),
        ])
    };
    let r = c.handle(&headers("Accept"));
    assert_eq!(r.emitted[0].req_headers, vec![("Accept".to_string(), "v".to_string())]);
    let r = c.handle(&headers("Server"));
    assert_eq!(r.emitted[0].req_headers, vec![("Accept".to_string(), "v".to_string())]);
    assert_eq!(r.emitted[0].resp_headers, vec![("Server".to_string(), "v".to_string())]);

    let r = c.handle(&obj(vec![
        ("content", obj(vec![("mimeType", s("text/html")), ("text", s("<p>hi</p>"))])),
        ("from", s("ne1")),
    ]));
    assert_eq!(r.emitted.len(), 1);
    assert_eq!(r.emitted[0].mime, "text/html");
    assert_eq!(r.emitted[0].resp_body, "<p>hi</p>");
    assert_eq!(r.emitted[0].req_headers, vec![("Accept".to_string(), "v".to_string())]);
    assert_eq!(r.emitted[0].resp_headers, vec![("Server".to_string(), "v".to_string())]);
}

#[test]
fn unknown_packets_change_nothing() {
    let mut c = NetClient::new();
    let r = c.handle(&obj(vec![("from", s("root")), ("tabs", Json::Array(vec![]))]));
    assert!(r.requests.is_empty() && r.emitted.is_empty());
    let r = c.handle(&obj(vec![("from", s("ne-unknown")), ("headers", Json::Array(vec![]))]));
    assert!(r.emitted.is_empty());
    let r = c.handle(&Json::Null);
    assert!(r.emitted.is_empty());
}

#[test]
fn touched_records_are_emitted_once_in_id_order() {
    let mut c = NetClient::new();
    let item = |id: u64| obj(vec![("resourceId", n(id)), ("url", s("u"))]);
    let r = c.handle(&resources(
        "resources-available-array",
        vec![item(9), item(2), item(9), obj(vec![("url", s("no id"))])],
    ));
    let ids: Vec<u64> = r.emitted.iter().map(|r| r.id).collect();
    assert_eq!(ids, vec![2, 9]);
}

#[test]
fn update_without_actor_or_resource_updates() {
    let mut c = NetClient::new();
    let r = c.handle(&resources(
        "resources-updated-array",
        vec![obj(vec![("resourceId", n(4)), ("resourceUpdates", obj(vec![("responseHeadersAvailable", Json::Bool(true))]))])],
    ));
    assert!(r.requests.is_empty(), "no known actor for the event");
    assert_eq!(r.emitted.len(), 1);
    let r = c.handle(&resources("resources-updated-array", vec![obj(vec![("resourceId", n(5))])]));
    assert!(r.emitted.is_empty(), "an item without resourceUpdates creates no record");
}

#[test]
fn content_text_and_headers_parsing() {
    assert_eq!(value_to_text(None), "");
    assert_eq!(value_to_text(Some(&s("x"))), "x");
    let v = Json::Array(vec![n(1), Json::Bool(false), Json::Null, obj(vec![("k", s("a\"b"))])]);
    assert_eq!(value_to_text(Some(&v)), "[1,false,null,{\"k\":\"a\\\"b\"}]");
    assert_eq!(to_json_text(&s("tab\there")), "\"tab\\there\"");
    let hs = vec![
        obj(vec![("name", s("A")), ("value", s("1"))]),
        obj(vec![("value", s("no name"))]),
        obj(vec![("name", s("B"))]),
    ];
    assert_eq!(
        parse_headers(&hs),
        vec![("A".to_string(), "1".to_string()), ("B".to_string(), String::new())]
    );
}

#[test]
fn sorted_unique_ids() {
    assert_eq!(sorted_unique(&vec![5, 1, 5, 3, 1]), vec![1, 3, 5]);
    assert!(sorted_unique(&vec![]).is_empty());
}

#[test]
fn payloads_parse_into_the_json_model() {
    let v = parse_payload(br#"{"b":[1,true,null],"a":"x\"y","n":18446744073709551615}"#).unwrap();
    assert_eq!(as_str(get(&v, "a")), Some(&"x\"y".to_string()));
    assert_eq!(as_u64(get(&v, "n")), Some(u64::MAX));
    assert_eq!(to_json_text(&v), r#"{"a":"x\"y","b":[1,true,null],"n":18446744073709551615}"#);
    let neg = parse_payload(b"-3").unwrap();
    assert_eq!(as_u64(Some(&neg)), None);
    assert_eq!(to_json_text(&neg), "-3");
    assert!(parse_payload(b"{\"a\":").is_none());
    assert!(parse_payload(b"1 2").is_none());
    assert!(parse_payload(b"").is_none());
}
