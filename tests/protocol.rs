use kvs::{encode_response, Request};

fn text(b: Vec<u8>) -> String {
    String::from_utf8(b).unwrap()
}

#[test]
fn request_bytes() {
    assert_eq!(text(Request::Get { key: "k".to_string() }.encode()), r#"{"Get":{"key":"k"}}"#);
    assert_eq!(
        text(Request::Put { key: "k".to_string(), value: "v".to_string() }.encode()),
        r#"{"Set":{"key":"k","value":"v"}}"#
    );
    assert_eq!(text(Request::Remove { key: "k".to_string() }.encode()), r#"{"Remove":{"key":"k"}}"#);
}

#[test]
fn response_bytes() {
    assert_eq!(text(encode_response(&Ok(Some("v".to_string())))), r#"{"Ok":"v"}"#);
    assert_eq!(text(encode_response(&Ok(None))), r#"{"Ok":null}"#);
    assert_eq!(text(encode_response(&Err("Key not found".to_string()))), r#"{"Err":"Key not found"}"#);
}

#[test]
fn responses_decode_as_results() {
    let b = encode_response(&Ok(Some("a \"quoted\" value".to_string())));
    let r: Result<Option<String>, String> = serde_json::from_slice(&b).unwrap();
    assert_eq!(r, Ok(Some("a \"quoted\" value".to_string())));
    let b = encode_response(&Err("boom".to_string()));
    let r: Result<Option<String>, String> = serde_json::from_slice(&b).unwrap();
    assert_eq!(r, Err("boom".to_string()));
}
