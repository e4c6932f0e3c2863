use m4b_extractor::json::{Json, JsonNumber, Member};
use m4b_extractor::text::{i64_to_decimal, u64_to_decimal};

fn text(s: &str) -> Json {
    Json::Text(s.to_string())
}

fn object(members: Vec<(&str, Json)>) -> Json {
    Json::Object(
        members.into_iter().map(|(key, value)| Member { key: key.to_string(), value }).collect(),
    )
}

#[test]
fn numbers_are_written_in_decimal() {
    assert_eq!(u64_to_decimal(0), "0");
    assert_eq!(u64_to_decimal(9), "9");
    assert_eq!(u64_to_decimal(10), "10");
    assert_eq!(u64_to_decimal(1234567890), "1234567890");
    assert_eq!(u64_to_decimal(u64::MAX), "18446744073709551615");
    assert_eq!(i64_to_decimal(0), "0");
    assert_eq!(i64_to_decimal(-1), "-1");
    assert_eq!(i64_to_decimal(-120), "-120");
    assert_eq!(i64_to_decimal(i64::MAX), "9223372036854775807");
    assert_eq!(i64_to_decimal(i64::MIN), "-9223372036854775808");
}

#[test]
fn decimal_agrees_with_the_standard_library() {
    for n in [0i64, 1, -1, 7, 42, -99, 100, 1001, -65536, 4294967296] {
        assert_eq!(i64_to_decimal(n), n.to_string());
    }
}

#[test]
fn members_are_found_by_key() {
    let doc = object(vec![("a", text("1")), ("b", Json::integer(2)), ("c", Json::Null)]);
    assert_eq!(doc.get("a"), Some(&text("1")));
    assert_eq!(doc.get("b"), Some(&Json::integer(2)));
    assert_eq!(doc.get("c"), Some(&Json::Null));
    assert_eq!(doc.get("d"), None);
    assert_eq!(doc.get(""), None);
    assert_eq!(text("a").get("a"), None);
    assert_eq!(Json::Array(vec![text("a")]).get("a"), None);
}

#[test]
fn last_entry_of_a_repeated_key_counts() {
    let doc = object(vec![("a", text("first")), ("b", text("other")), ("a", text("last"))]);
    assert_eq!(doc.get("a"), Some(&text("last")));
}

#[test]
fn scalars_are_read_by_kind() {
    assert_eq!(text("x").as_str(), Some("x"));
    assert_eq!(Json::integer(3).as_str(), None);
    assert_eq!(Json::integer(-3).as_i64(), Some(-3));
    assert_eq!(text("3").as_i64(), None);
    assert_eq!(Json::Bool(true).as_i64(), None);
    let fraction = Json::Number(JsonNumber { integer: None, text: "1.5".to_string() });
    assert_eq!(fraction.as_i64(), None);
    assert_eq!(
        Json::integer(-40),
        Json::Number(JsonNumber { integer: Some(-40), text: "-40".to_string() })
    );
    assert_eq!(Json::text("hello"), text("hello"));
}

#[test]
fn arrays_and_objects_are_read_by_kind() {
    let items = vec![text("a"), Json::Null];
    assert_eq!(Json::Array(vec![text("a"), Json::Null]).as_array(), Some(&items));
    assert_eq!(text("a").as_array(), None);
    assert_eq!(object(vec![]).as_array(), None);
    let members = vec![Member { key: "k".to_string(), value: Json::Bool(false) }];
    assert_eq!(object(vec![("k", Json::Bool(false))]).as_object(), Some(&members));
    assert_eq!(Json::Array(vec![]).as_object(), None);
}

#[test]
fn deep_copy_equals_its_source() {
    let doc = object(vec![
        ("name", text("book")),
        ("size", Json::integer(12)),
        ("rate", Json::Number(JsonNumber { integer: None, text: "0.5".to_string() })),
        ("flags", Json::Array(vec![Json::Bool(true), Json::Null, object(vec![("x", text("y"))])])),
        ("empty", object(vec![])),
    ]);
    assert_eq!(doc.deep_copy(), doc);
    assert_eq!(Json::Null.deep_copy(), Json::Null);
}
