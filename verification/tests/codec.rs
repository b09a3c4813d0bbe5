use handshake::codec::{frame_body_len, remove_leading_zeroes, DecodeError, EncodeError};
use handshake::message::{bytes_eq, str_eq, Message, MessageType, OperationResult, StringMap};

fn map_of(pairs: &[(&str, &str)]) -> StringMap {
    let mut m = StringMap::new();
    for (k, v) in pairs {
        m.insert(k.to_string(), v.to_string());
    }
    m
}

fn msg_eq(a: &Message, b: &Message) -> bool {
    a.msg_type == b.msg_type && a.header.entries == b.header.entries && match (&a.body, &b.body) {
        (Some(x), Some(y)) => x.entries == y.entries,
        (None, None) => true,
        _ => false,
    }
}

fn round_trips(m: &Message) {
    let frame = m.encode().expect("message should encode");
    let (back, used) = Message::decode(&frame).expect("frame should decode");
    assert_eq!(used, frame.len());
    assert!(msg_eq(m, &back));
}

#[test]
fn round_trip_send_token() {
    round_trips(&Message::send_token("abc123".to_string()));
}

#[test]
fn round_trip_request_token() {
    round_trips(&Message::request_token());
}

#[test]
fn round_trip_username() {
    round_trips(&Message::username("alice".to_string()));
}

#[test]
fn round_trip_login_request() {
    round_trips(&Message::login_request("deadbeef".to_string()));
}

#[test]
fn round_trip_results() {
    round_trips(&Message::result(OperationResult::Success));
    round_trips(&Message::result(OperationResult::Fail));
}

#[test]
fn round_trip_empty_header() {
    round_trips(&Message {
        header: StringMap::new(),
        msg_type: MessageType::RequestToken,
        body: None,
    });
}

#[test]
fn round_trip_many_entries() {
    round_trips(&Message {
        header: map_of(&[("timestamp", "01/01/2000 00:00:00"), ("trace", "7")]),
        msg_type: MessageType::Username,
        body: Some(map_of(&[("username", "bob"), ("extra", ""), ("", "odd")])),
    });
}

#[test]
fn round_trip_escaped_characters() {
    round_trips(&Message {
        header: map_of(&[("timestamp", "now")]),
        msg_type: MessageType::SendToken,
        body: Some(map_of(&[("token", "a\"b\\c\nd\te")])),
    });
}

#[test]
fn round_trip_unicode() {
    round_trips(&Message {
        header: map_of(&[("timestamp", "maintenant")]),
        msg_type: MessageType::Username,
        body: Some(map_of(&[("username", "héloïse–日本")])),
    });
}

#[test]
fn encode_exact_bytes() {
    let m = Message {
        header: StringMap::new(),
        msg_type: MessageType::RequestToken,
        body: None,
    };
    let frame = m.encode().unwrap();
    let expected = "0051{\"header\":{},\"msg_type\":\"RequestToken\",\"body\":null}";
    assert_eq!(frame, expected.as_bytes().to_vec());
}

#[test]
fn encode_exact_bytes_with_body() {
    let m = Message {
        header: map_of(&[("timestamp", "t")]),
        msg_type: MessageType::SendToken,
        body: Some(map_of(&[("token", "x\"y")])),
    };
    let frame = m.encode().unwrap();
    let expected =
        "0075{\"header\":{\"timestamp\":\"t\"},\"msg_type\":\"SendToken\",\"body\":{\"token\":\"x\\\"y\"}}";
    assert_eq!(frame, expected.as_bytes().to_vec());
}

#[test]
fn decode_short_prefix_is_framing_error() {
    assert!(matches!(Message::decode(b""), Err(DecodeError::Framing)));
    assert!(matches!(Message::decode(b"00"), Err(DecodeError::Framing)));
    assert!(matches!(Message::decode(b"005"), Err(DecodeError::Framing)));
}

#[test]
fn decode_non_numeric_prefix_is_framing_error() {
    assert!(matches!(Message::decode(b"12ab{\"x\":1}"), Err(DecodeError::Framing)));
    assert!(matches!(Message::decode(b"-012xxxx"), Err(DecodeError::Framing)));
}

#[test]
fn decode_short_body_is_framing_error() {
    assert!(matches!(Message::decode(b"0010hello"), Err(DecodeError::Framing)));
    let mut frame = Message::request_token().encode().unwrap();
    frame.pop();
    assert!(matches!(Message::decode(&frame), Err(DecodeError::Framing)));
}

#[test]
fn decode_zero_length_payload_is_decoding_error() {
    assert!(matches!(Message::decode(b"0000"), Err(DecodeError::Decoding)));
}

#[test]
fn decode_garbage_payload_is_decoding_error() {
    assert!(matches!(Message::decode(b"0004abcd"), Err(DecodeError::Decoding)));
    assert!(matches!(Message::decode(b"0002{}"), Err(DecodeError::Decoding)));
}

#[test]
fn decode_body_mismatch_is_decoding_error() {
    // A RequestToken payload carrying a body does not fit the tag.
    let bytes = "0056{\"header\":{},\"msg_type\":\"RequestToken\",\"body\":{\"x\":\"y\"}}";
    assert!(matches!(Message::decode(bytes.as_bytes()), Err(DecodeError::Decoding)));
}

#[test]
fn decode_leaves_cursor_at_next_frame() {
    let first = Message::username("u".to_string()).encode().unwrap();
    let second = Message::request_token().encode().unwrap();
    let mut wire = first.clone();
    wire.extend_from_slice(&second);
    let (m1, used1) = Message::decode(&wire).unwrap();
    assert_eq!(used1, first.len());
    assert_eq!(m1.msg_type, MessageType::Username);
    let (m2, used2) = Message::decode(&wire[used1..]).unwrap();
    assert_eq!(used2, second.len());
    assert_eq!(m2.msg_type, MessageType::RequestToken);
}

#[test]
fn encode_body_mismatch_fails() {
    let extra = Message {
        header: StringMap::new(),
        msg_type: MessageType::RequestToken,
        body: Some(StringMap::new()),
    };
    assert!(matches!(extra.encode(), Err(EncodeError::BodyMismatch)));
    let missing = Message {
        header: StringMap::new(),
        msg_type: MessageType::SendToken,
        body: None,
    };
    assert!(matches!(missing.encode(), Err(EncodeError::BodyMismatch)));
}

#[test]
fn encode_too_long_fails() {
    let m = Message {
        header: StringMap::new(),
        msg_type: MessageType::SendToken,
        body: Some(map_of(&[("token", &"a".repeat(10_000))])),
    };
    assert!(matches!(m.encode(), Err(EncodeError::TooLong)));
}

#[test]
fn remove_leading_zeroes_strips() {
    assert_eq!(remove_leading_zeroes("0012"), "12");
    assert_eq!(remove_leading_zeroes("0000"), "");
    assert_eq!(remove_leading_zeroes(""), "");
    assert_eq!(remove_leading_zeroes("12"), "12");
    assert_eq!(remove_leading_zeroes("0x0"), "x0");
}

#[test]
fn frame_body_len_reads_prefix() {
    assert_eq!(frame_body_len(b"0051"), Ok(51));
    assert_eq!(frame_body_len(b"0051rest-is-ignored"), Ok(51));
    assert_eq!(frame_body_len(b"9999"), Ok(9999));
    assert_eq!(frame_body_len(b"12"), Err(DecodeError::Framing));
    assert_eq!(frame_body_len(b"abcd"), Err(DecodeError::Framing));
}

#[test]
fn get_body_value_reads_first_binding() {
    let m = Message::send_token("tok".to_string());
    assert_eq!(m.get_body_value("token"), "tok");
    let shadowed = Message {
        header: StringMap::new(),
        msg_type: MessageType::SendToken,
        body: Some(map_of(&[("token", "first"), ("token", "second")])),
    };
    assert_eq!(shadowed.get_body_value("token"), "first");
}

#[test]
fn string_map_lookup() {
    let m = map_of(&[("a", "1"), ("b", "2")]);
    assert_eq!(m.get("a"), Some(&"1".to_string()));
    assert_eq!(m.get("b"), Some(&"2".to_string()));
    assert_eq!(m.get("c"), None);
    assert_eq!(m.len(), 2);
}

#[test]
fn string_and_byte_equality() {
    assert!(str_eq("héllo", "héllo"));
    assert!(!str_eq("héllo", "hello"));
    assert!(bytes_eq(&[1, 2, 3], &[1, 2, 3]));
    assert!(!bytes_eq(&[1, 2, 3], &[1, 2]));
}
