use basedbrowser::jsvalue::{
    find_script, format_jsvalue, parse_find_result, parse_i32, JsValue, FIND_JS_TEMPLATE,
};

#[test]
fn format_jsvalue_renders_scalars_and_nesting() {
    assert_eq!(format_jsvalue(&JsValue::Undefined), "undefined");
    assert_eq!(format_jsvalue(&JsValue::Null), "null");
    assert_eq!(format_jsvalue(&JsValue::Boolean(true)), "true");
    assert_eq!(format_jsvalue(&JsValue::Number("4".into())), "4");
    assert_eq!(format_jsvalue(&JsValue::Element("el-1".into())), "el-1");
    let v = JsValue::Array(vec![
        JsValue::Number("1".into()),
        JsValue::String("a".into()),
        JsValue::Object(vec![("k".into(), JsValue::Null), ("j".into(), JsValue::Array(vec![]))]),
    ]);
    assert_eq!(format_jsvalue(&v), "[1, a, {k: null, j: []}]");
}

#[test]
fn find_result_parsing() {
    assert_eq!(parse_find_result(&JsValue::String("2,5".into())), Some((2, 5)));
    assert_eq!(parse_find_result(&JsValue::String(" 0 , 0 ".into())), Some((0, 0)));
    assert_eq!(parse_find_result(&JsValue::String("3".into())), None);
    assert_eq!(parse_find_result(&JsValue::String("x,1".into())), None);
    assert_eq!(parse_find_result(&JsValue::Undefined), None);
    assert_eq!(
        parse_find_result(&JsValue::Array(vec![JsValue::Number("1".into()), JsValue::Number("2".into())])),
        None,
        "\"[1, 2]\" does not parse"
    );
}

#[test]
fn parse_i32_like_std() {
    for s in ["0", "-0", "+7", "-2147483648", "2147483647", "2147483648", "-2147483649", "-", "+", "", "1-", "12 "] {
        assert_eq!(parse_i32(s), s.parse::<i32>().ok(), "input {s:?}");
    }
}

#[test]
fn find_script_embeds_the_query_as_a_json_literal() {
    let script = find_script("a\"b", true);
    assert!(script.ends_with("})(\"a\\\"b\", true)"));
    assert!(!script.contains("__Q__"));
    let back = find_script("x", false);
    assert!(back.ends_with("})(\"x\", false)"));
    assert_eq!(back.len(), FIND_JS_TEMPLATE.len() - 5 + 3 - 5 + 5);
}
