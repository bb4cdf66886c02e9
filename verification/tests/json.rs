use eas_attestor::json::{parse, Json};

fn read(text: &str) -> Json {
    parse(text.as_bytes()).unwrap()
}

#[test]
fn members_are_found_by_name() {
    let v = read("{\"a\": 1, \"b\": \"x\", \"c\": [true], \"d\": false, \"e\": null}");
    assert_eq!(v.number_at("a"), Some(1));
    assert_eq!(v.text_at("b"), Some("x"));
    assert_eq!(v.array_at("c").unwrap().len(), 1);
    assert_eq!(v.bool_at("d"), Some(false));
    assert!(matches!(v.get("e"), Some(Json::Null)));
    assert!(v.get("f").is_none());
    assert_eq!(v.text_at("a"), None);
    assert_eq!(v.number_at("b"), None);
    assert!(v.array_at("d").is_none());
    assert_eq!(v.bool_at("c"), None);
    assert!(read("[1]").get("a").is_none());
}

#[test]
fn only_unsigned_numbers_are_u64() {
    assert_eq!(read("18446744073709551615").as_u64(), Some(u64::MAX));
    assert_eq!(read("18446744073709551616").as_u64(), None);
    assert_eq!(read("-1").as_u64(), None);
    assert_eq!(read("1.0").as_u64(), None);
    assert_eq!(read("\"1\"").as_u64(), None);
}

#[test]
fn values_are_rendered_compactly_with_sorted_names() {
    let v = read("{ \"b\" : [ 1 , -2, 2.5 , \"q\\\"\" ], \"a\" : { \"x\" : null } }");
    assert_eq!(v.render(), "{\"a\":{\"x\":null},\"b\":[1,-2,2.5,\"q\\\"\"]}");
    assert_eq!(v.clone().render(), v.render());
}

#[test]
fn setting_a_member_replaces_it() {
    let mut v = Json::object();
    v.set("k", Json::number(1));
    v.set("a", Json::text("t"));
    v.set("k", Json::Bool(true));
    assert_eq!(v.bool_at("k"), Some(true));
    assert_eq!(v.render(), "{\"a\":\"t\",\"k\":true}");
    let mut list = Json::texts(&["x".to_string(), "y".to_string()]);
    list.set("k", Json::Null);
    assert_eq!(list.render(), "[\"x\",\"y\"]");
}

#[test]
fn bad_json_is_refused() {
    assert_eq!(parse(b"{").err().unwrap(), "EOF while parsing an object at line 1 column 1");
    assert_eq!(parse(b"").err().unwrap(), "EOF while parsing a value at line 1 column 0");
}
