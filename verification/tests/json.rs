use mii_text::json::{Json, Object};

#[test]
fn values_keep_the_order_of_their_members() {
    let text = r#"{"b":1,"a":[null,true,-2,0.5,"x"],"c":{}}"#;
    let value = Json::parse(text).unwrap();
    assert_eq!(value.to_compact(), text);
    assert_eq!(Json::parse(&value.to_pretty()).unwrap(), value);
    assert_eq!(Json::from_value(value.to_value()), value);
    assert_eq!(
        Json::parse(r#"{"a":[]}"#).unwrap().to_pretty(),
        "{\n  \"a\": []\n}"
    );
}

#[test]
fn objects_hold_each_key_once() {
    let object = Object::new()
        .insert("a", Json::Unsigned(1))
        .insert("b", Json::Null)
        .insert("a", Json::text("x"));
    assert_eq!(object.len(), 2);
    assert_eq!(object.get("a"), Some(&Json::text("x")));
    let (key, value) = object.entry(0);
    assert_eq!((key.as_str(), value), ("a", &Json::text("x")));
    let merged = object
        .extend(&Object::new().add("c", Json::Bool(true)).add("b", Json::Unsigned(2)))
        .remove("a");
    assert_eq!(Json::Object(merged).to_compact(), r#"{"b":2,"c":true}"#);
    assert_eq!(
        Json::parse(r#"{"a":1,"a":2}"#).unwrap().to_compact(),
        r#"{"a":2}"#
    );
}

#[test]
fn numbers_keep_their_kind() {
    assert_eq!(Json::parse("18446744073709551615").unwrap().as_u64(), Some(u64::MAX));
    assert_eq!(Json::parse("-9223372036854775808").unwrap(), Json::Signed(i64::MIN));
    assert_eq!(Json::parse("1.0").unwrap().as_u64(), None);
    assert!(Json::parse("1e300").unwrap().is_number());
    assert_eq!(Json::Signed(5).as_u64(), Some(5));
    assert_eq!(Json::Signed(5).to_compact(), "5");
    assert_eq!(Json::Signed(-5).as_u64(), None);
}

#[test]
fn members_are_read_by_kind() {
    let value = Json::parse(r#"{"s":"x","n":3,"a":[1],"z":null,"b":false}"#).unwrap();
    assert_eq!(value.get_str("s"), Some("x"));
    assert_eq!(value.get_str("n"), None);
    assert_eq!(value.get_u64("n"), Some(3));
    assert_eq!(value.get_array("a").map(|items| items.len()), Some(1));
    assert_eq!(value.get_array("s"), None);
    assert!(value.get("z").unwrap().is_null());
    assert_eq!(value.get("b").unwrap().as_bool(), Some(false));
    assert_eq!(value.get("missing"), None);
    assert_eq!(Json::Null.get("x"), None);
}

#[test]
fn deep_nesting_is_refused_by_the_reader() {
    let nested = |depth: usize| format!("{}{}", "[".repeat(depth), "]".repeat(depth));
    assert!(Json::parse(&nested(127)).is_ok());
    assert!(Json::parse(&nested(128)).is_err());
    let value = Json::parse(&nested(127)).unwrap();
    assert_eq!(value.to_compact(), nested(127));
}

#[test]
fn compact_text_has_no_line_breaks() {
    let value = Json::text("a\nb\r\u{2028}\t\"\\");
    let text = value.to_compact();
    assert!(!text.contains('\n') && !text.contains('\r'));
    assert_eq!(Json::parse(&text).unwrap(), value);
}
