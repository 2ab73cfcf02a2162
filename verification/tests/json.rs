use codex_quota::binary64::Binary64;
use codex_quota::json::{parse_json, render_json, Json, JsonNumber};

#[test]
fn documents_are_taken_apart() {
    let read = parse_json(r#"{"a":[1,-2.5,true,null],"b":"x","c":{}}"#).unwrap();
    let number = |integer: Option<i64>, double: f64| {
        Json::Number(JsonNumber { integer, double: Some(Binary64 { bits: double.to_bits() }) })
    };
    let expected = Json::Object(vec![
        (
            "a".into(),
            Json::Array(vec![
                number(Some(1), 1.0),
                number(None, -2.5),
                Json::Bool(true),
                Json::Null,
            ]),
        ),
        ("b".into(), Json::Text("x".into())),
        ("c".into(), Json::Object(vec![])),
    ]);
    assert_eq!(read, expected);
}

#[test]
fn what_is_no_json_is_refused() {
    assert_eq!(parse_json(""), None);
    assert_eq!(parse_json("not-json"), None);
    assert_eq!(parse_json("{} {}"), None);
    assert_eq!(parse_json("{\"a\":1"), None);
}

#[test]
fn large_numbers_have_a_double_reading() {
    let read = parse_json("18446744073709551615").unwrap();
    assert_eq!(read.as_integer(), None);
    assert_eq!(read.as_double(), Some(Binary64 { bits: 18446744073709551615.0f64.to_bits() }));
}

#[test]
fn members_are_looked_up() {
    let read = parse_json(r#"{"a":"x","b":7}"#).unwrap();
    assert_eq!(read.get("a").and_then(|value| value.as_text()), Some("x"));
    assert_eq!(read.get("b").and_then(|value| value.as_integer()), Some(7));
    assert!(read.get("c").is_none());
    assert!(read.is_object() && !Json::Null.is_object());
    assert!(Json::Null.get("a").is_none());
    assert_eq!(read.as_text(), None);
}

#[test]
fn documents_are_written_on_one_line() {
    let tree = Json::Object(vec![
        ("z".into(), Json::Text("line\nfeed \"quoted\"".into())),
        ("a".into(), Json::Array(vec![Json::Null, Json::Bool(false)])),
        ("n".into(), Json::Number(JsonNumber { integer: Some(-5), double: None })),
    ]);
    assert_eq!(
        render_json(&tree),
        r#"{"a":[null,false],"n":-5,"z":"line\nfeed \"quoted\""}"#
    );
}

#[test]
fn documents_of_integers_are_recognized() {
    for text in ["null", "true", "\"1.5\"", "7", "[]", "{}", r#"{"a":[1,{"b":-2}]}"#] {
        assert!(parse_json(text).unwrap().is_integral());
    }
    for text in ["1.5", "18446744073709551615", "[1,2.5]", r#"{"a":[1,{"b":1e3}]}"#] {
        assert!(!parse_json(text).unwrap().is_integral());
    }
}
