use oxi::hydrate::JsonValue;
use oxi::json::{command_in, command_of_json};

#[test]
fn command_member_of_object() {
    assert_eq!(command_of_json(r#"{"command":"ls -la","timeout":5}"#), Some("ls -la".to_string()));
}

#[test]
fn bare_json_string_is_the_command() {
    assert_eq!(command_of_json(r#""cargo test""#), Some("cargo test".to_string()));
}

#[test]
fn non_string_command_or_non_json_names_none() {
    assert_eq!(command_of_json(r#"{"command":3}"#), None);
    assert_eq!(command_of_json(r#"{"path":"a.rs"}"#), None);
    assert_eq!(command_of_json("ls -la"), None);
    assert_eq!(command_of_json("[1,2]"), None);
}

#[test]
fn command_in_reads_the_tree() {
    let v = JsonValue::Object(vec![
        ("path".to_string(), JsonValue::Str("x".into())),
        ("command".to_string(), JsonValue::Str("make".into())),
    ]);
    assert_eq!(command_in(&v), Some("make".to_string()));
    assert_eq!(command_in(&JsonValue::Str("echo".into())), Some("echo".to_string()));
    assert_eq!(command_in(&JsonValue::Null), None);
    let w = JsonValue::Object(vec![("command".to_string(), JsonValue::Bool(true))]);
    assert_eq!(command_in(&w), None);
}
