use serde_json::Value;
use zeroclaw::json::{array_member, strings_value, text_member, unsigned_member, Members};

fn json(text: &str) -> Value {
    serde_json::from_str(text).unwrap()
}

#[test]
fn later_member_takes_the_place_of_an_earlier_one() {
    let mut members = Members::new();
    members.push_text("a", "first");
    members.push("b", json("[1]"));
    members.push_text("a", "second");
    assert_eq!(members.into_object(), json(r#"{"a": "second", "b": [1]}"#));
    assert_eq!(Members::new().into_object(), json("{}"));
}

#[test]
fn members_are_told_by_their_kind() {
    let args = json(r#"{"n": 18446744073709551615, "s": "x", "a": ["y", 2], "m": -1, "f": 1.0}"#);
    assert_eq!(unsigned_member(&args, "n"), Some(u64::MAX));
    assert_eq!(unsigned_member(&args, "m"), None);
    assert_eq!(unsigned_member(&args, "f"), None);
    assert_eq!(unsigned_member(&args, "s"), None);
    assert_eq!(text_member(&args, "s"), Some("x"));
    assert_eq!(text_member(&args, "n"), None);
    assert_eq!(array_member(&args, "a").unwrap().len(), 2);
    assert!(array_member(&args, "s").is_none());
    assert!(text_member(&args, "missing").is_none());
    assert!(text_member(&json("[]"), "s").is_none());
}

#[test]
fn texts_become_json_strings() {
    assert_eq!(strings_value(&["all", "any"]), json(r#"["all", "any"]"#));
    assert_eq!(strings_value(&[]), json("[]"));
}
