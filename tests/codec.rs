use kvs::{Command, CommandPos};

#[test]
fn set_record_bytes() {
    let b = Command::set("key".to_string(), "value".to_string()).encode();
    assert_eq!(String::from_utf8(b).unwrap(), r#"{"Set":{"key":"key","value":"value"}}"#);
}

#[test]
fn remove_record_bytes() {
    let b = Command::remove("key".to_string()).encode();
    assert_eq!(String::from_utf8(b).unwrap(), r#"{"Remove":{"key":"key"}}"#);
}

#[test]
fn strings_are_escaped() {
    let b = Command::set("a\"b".to_string(), "line\nnext\\".to_string()).encode();
    assert_eq!(
        String::from_utf8(b).unwrap(),
        r#"{"Set":{"key":"a\"b","value":"line\nnext\\"}}"#
    );
}

#[test]
fn records_are_json_objects() {
    let b = Command::set("ключ".to_string(), "値".to_string()).encode();
    let v: serde_json::Value = serde_json::from_slice(&b).unwrap();
    assert_eq!(v["Set"]["key"], "ключ");
    assert_eq!(v["Set"]["value"], "値");
}

#[test]
fn command_key() {
    assert_eq!(Command::set("a".to_string(), "b".to_string()).key(), "a");
    assert_eq!(Command::remove("c".to_string()).key(), "c");
}

#[test]
fn command_pos_fields() {
    let p = CommandPos::new(3, 40, 12);
    assert_eq!((p.fid, p.pos, p.len), (3, 40, 12));
}

#[test]
fn control_bytes_are_escaped() {
    let b = Command::set("\u{1}\t".to_string(), "\u{8}\u{c}\r\u{1f}\u{7f}/".to_string()).encode();
    assert_eq!(
        String::from_utf8(b).unwrap(),
        "{\"Set\":{\"key\":\"\\u0001\\t\",\"value\":\"\\b\\f\\r\\u001f\u{7f}/\"}}"
    );
}
