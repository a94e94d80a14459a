use chat_hub::codec::{decode_ws_message, encode_client_message, ClientMessage};

#[test]
fn encode_with_name() {
    let m = ClientMessage { id: 7, name: Some(String::from("alice")), msg: String::from("hi") };
    assert_eq!(encode_client_message(&m), "{\"id\":7,\"username\":\"alice\",\"message\":\"hi\"}");
}

#[test]
fn encode_without_name_omits_username_key() {
    let m = ClientMessage { id: 0, name: None, msg: String::from("Someone joined") };
    let s = encode_client_message(&m);
    assert_eq!(s, "{\"id\":0,\"message\":\"Someone joined\"}");
    assert!(!s.contains("username"));
    assert!(!s.contains("null"));
}

#[test]
fn encode_large_id() {
    let m = ClientMessage { id: 1234567890123456789, name: None, msg: String::from("x") };
    assert_eq!(encode_client_message(&m), "{\"id\":1234567890123456789,\"message\":\"x\"}");
}

#[test]
fn encode_escapes_quotes_backslashes_and_controls() {
    let m = ClientMessage {
        id: 1,
        name: Some(String::from("a\"b")),
        msg: String::from("line1\nline2\t\\end\u{1}"),
    };
    assert_eq!(
        encode_client_message(&m),
        "{\"id\":1,\"username\":\"a\\\"b\",\"message\":\"line1\\nline2\\t\\\\end\\u0001\"}"
    );
}

#[test]
fn round_trip_through_test_client() {
    // A test client decodes the outbound envelope with an off-the-shelf JSON
    // parser and sees exactly the three members.
    let m = ClientMessage { id: 7, name: Some(String::from("alice")), msg: String::from("hi") };
    let v: serde_json::Value = serde_json::from_str(&encode_client_message(&m)).unwrap();
    assert_eq!(v["id"], serde_json::Value::from(7u64));
    assert_eq!(v["username"], serde_json::Value::from("alice"));
    assert_eq!(v["message"], serde_json::Value::from("hi"));
    assert_eq!(v.as_object().unwrap().len(), 3);

    let nameless = ClientMessage { id: 0, name: None, msg: String::from("notice") };
    let v: serde_json::Value = serde_json::from_str(&encode_client_message(&nameless)).unwrap();
    assert!(v.as_object().unwrap().get("username").is_none());
    assert_eq!(v.as_object().unwrap().len(), 2);
}

#[test]
fn decode_compact_object() {
    let w = decode_ws_message("{\"username\":\"alice\",\"message\":\"hi\"}").unwrap();
    assert_eq!(w.name, "alice");
    assert_eq!(w.msg, "hi");
}

#[test]
fn decode_reversed_key_order() {
    let w = decode_ws_message("{\"message\":\"hi\",\"username\":\"alice\"}").unwrap();
    assert_eq!(w.name, "alice");
    assert_eq!(w.msg, "hi");
}

#[test]
fn decode_with_whitespace() {
    let w = decode_ws_message(" {\n\t\"username\" : \"a\" ,\r\n \"message\" : \"b c\" } ")
        .unwrap();
    assert_eq!(w.name, "a");
    assert_eq!(w.msg, "b c");
}

#[test]
fn decode_with_escapes() {
    let w = decode_ws_message("{\"username\":\"a\\\"b\",\"message\":\"x\\n\\t\\\\y\\/\"}")
        .unwrap();
    assert_eq!(w.name, "a\"b");
    assert_eq!(w.msg, "x\n\t\\y/");
}

#[test]
fn decode_rejects_plain_text() {
    assert!(decode_ws_message("not json").is_none());
}

#[test]
fn decode_rejects_wrong_shapes() {
    assert!(decode_ws_message("").is_none());
    assert!(decode_ws_message("{}").is_none());
    assert!(decode_ws_message("{\"username\":\"a\"}").is_none());
    assert!(decode_ws_message("{\"message\":\"b\"}").is_none());
    assert!(decode_ws_message("{\"username\":\"a\",\"username\":\"b\"}").is_none());
    assert!(decode_ws_message("{\"username\":\"a\",\"message\":7}").is_none());
    assert!(decode_ws_message("{\"username\":\"a\",\"message\":\"b\"} trailing").is_none());
    assert!(decode_ws_message("[\"username\",\"message\"]").is_none());
    assert!(decode_ws_message("{\"username\":\"a\",\"message\":\"b\"").is_none());
}

#[test]
fn decode_rejects_bad_strings() {
    // unescaped control character
    assert!(decode_ws_message("{\"username\":\"a\",\"message\":\"b\u{1}\"}").is_none());
    // unknown escape
    assert!(decode_ws_message("{\"username\":\"a\",\"message\":\"\\x\"}").is_none());
}
