use kook::codec::{decode, encode, DecodeError, Envelope, EventRecord};

#[test]
fn encode_ping_exact() {
    let m = Envelope::Ping { sequence: 5 };
    assert_eq!(encode(&m), "{\"s\":2,\"sn\":5}");
}

#[test]
fn encode_pong_exact() {
    assert_eq!(encode(&Envelope::Pong), "{\"s\":3}");
}

#[test]
fn encode_hello_exact() {
    let m = Envelope::Hello {
        code: 0,
        session_id: Some("abc".to_string()),
    };
    assert_eq!(encode(&m), "{\"s\":1,\"d\":{\"code\":0,\"session_id\":\"abc\"}}");
    let n = Envelope::Hello {
        code: 40100,
        session_id: None,
    };
    assert_eq!(encode(&n), "{\"s\":1,\"d\":{\"code\":40100,\"session_id\":null}}");
}

#[test]
fn encode_reconnect_exact() {
    let m = Envelope::Reconnect {
        code: -3,
        err: "bad \"state\"".to_string(),
    };
    assert_eq!(
        encode(&m),
        "{\"s\":5,\"d\":{\"code\":-3,\"err\":\"bad \\\"state\\\"\"}}"
    );
}

#[test]
fn round_trip_ping() {
    let m = Envelope::Ping { sequence: u64::MAX };
    assert_eq!(decode(&encode(&m)), Ok(m));
}

#[test]
fn round_trip_pong() {
    assert_eq!(decode(&encode(&Envelope::Pong)), Ok(Envelope::Pong));
}

#[test]
fn round_trip_resume() {
    let m = Envelope::Resume { sequence: 9 };
    assert_eq!(decode(&encode(&m)), Ok(m));
}

#[test]
fn round_trip_hello() {
    let m = Envelope::Hello {
        code: 0,
        session_id: Some("s-1".to_string()),
    };
    assert_eq!(decode(&encode(&m)), Ok(m));
    let n = Envelope::Hello {
        code: -7,
        session_id: None,
    };
    assert_eq!(decode(&encode(&n)), Ok(n));
}

#[test]
fn round_trip_reconnect() {
    let m = Envelope::Reconnect {
        code: i64::MIN,
        err: "line\nbreak\tand \\ quote \" and unicode \u{00e9}\u{1F600}".to_string(),
    };
    assert_eq!(decode(&encode(&m)), Ok(m));
}

#[test]
fn round_trip_resume_ack() {
    let m = Envelope::ResumeAck {
        session_id: "xyz".to_string(),
    };
    assert_eq!(decode(&encode(&m)), Ok(m));
}

#[test]
fn round_trip_event() {
    let ev = EventRecord::new("author-77");
    let m = Envelope::Event {
        sequence: 7,
        event: ev,
    };
    let text = encode(&m);
    assert_eq!(text, "{\"s\":0,\"d\":{\"author_id\":\"author-77\"},\"sn\":7}");
    assert_eq!(decode(&text), Ok(m));
}

#[test]
fn round_trip_decoded_event() {
    let text = "{\"s\":0,\"d\":{\"content\":\"hi\",\"author_id\":\"u9\",\"extra\":{\"k\":[1,2,null,true]}},\"sn\":3}";
    let m = decode(text).unwrap();
    match &m {
        Envelope::Event { sequence, event } => {
            assert_eq!(*sequence, 3);
            assert_eq!(event.author_id(), "u9");
            assert_eq!(
                event.raw_text(),
                "{\"content\":\"hi\",\"author_id\":\"u9\",\"extra\":{\"k\":[1,2,null,true]}}"
            );
        }
        other => panic!("not an event: {:?}", other),
    }
    // a decoded event can be written back out and read again
    assert_eq!(decode(&encode(&m)), Ok(m));
}

#[test]
fn shape_rejection() {
    // Hello discriminant with a Reconnect-shaped payload
    assert_eq!(
        decode("{\"s\":1,\"d\":{\"err\":\"x\"}}"),
        Err(DecodeError::ShapeMismatch)
    );
}

#[test]
fn unknown_kind() {
    assert_eq!(decode("{\"s\":9}"), Err(DecodeError::UnknownKind));
    assert_eq!(decode("{\"s\":-1}"), Err(DecodeError::UnknownKind));
    assert_eq!(
        decode("{\"s\":99999999999999999999999}"),
        Err(DecodeError::UnknownKind)
    );
}

#[test]
fn malformed_frames() {
    assert_eq!(decode("nonsense"), Err(DecodeError::Malformed));
    assert_eq!(decode("{}"), Err(DecodeError::Malformed));
    assert_eq!(decode("{\"d\":{}}"), Err(DecodeError::Malformed));
    assert_eq!(decode("{\"s\":3} extra"), Err(DecodeError::Malformed));
    assert_eq!(decode("{\"s\":\"3\"}"), Err(DecodeError::Malformed));
    assert_eq!(decode(""), Err(DecodeError::Malformed));
}

#[test]
fn sequence_member_shape() {
    // sn is required for Ping/Resume/Event kinds and must be a non-negative integer
    assert_eq!(decode("{\"s\":2}"), Err(DecodeError::ShapeMismatch));
    assert_eq!(decode("{\"s\":4}"), Err(DecodeError::ShapeMismatch));
    assert_eq!(decode("{\"s\":2,\"sn\":-1}"), Err(DecodeError::ShapeMismatch));
    assert_eq!(
        decode("{\"s\":2,\"sn\":18446744073709551616}"),
        Err(DecodeError::ShapeMismatch)
    );
    assert_eq!(decode("{\"s\":2,\"sn\":1.5}"), Err(DecodeError::ShapeMismatch));
}

#[test]
fn unknown_fields_ignored() {
    assert_eq!(
        decode("{\"x\":[1,2,{\"a\":\"b\"}],\"s\":3,\"y\":\"z\"}"),
        Ok(Envelope::Pong)
    );
}

#[test]
fn member_order_is_free() {
    assert_eq!(
        decode("{\"sn\":5,\"s\":2}"),
        Ok(Envelope::Ping { sequence: 5 })
    );
}

#[test]
fn later_member_wins() {
    assert_eq!(decode("{\"s\":2,\"s\":3}"), Ok(Envelope::Pong));
}

#[test]
fn whitespace_tolerated() {
    assert_eq!(decode("  {  \"s\" : 3  }  "), Ok(Envelope::Pong));
}

#[test]
fn string_escapes_decoded() {
    let m = decode("{\"s\":1,\"d\":{\"code\":0,\"session_id\":\"a\\u0041\\n\\ud83d\\ude00\"}}").unwrap();
    assert_eq!(
        m,
        Envelope::Hello {
            code: 0,
            session_id: Some("aA\n\u{1F600}".to_string())
        }
    );
}

#[test]
fn hello_session_id_null_or_absent() {
    assert_eq!(
        decode("{\"s\":1,\"d\":{\"code\":0,\"session_id\":null}}"),
        Ok(Envelope::Hello { code: 0, session_id: None })
    );
    assert_eq!(
        decode("{\"s\":1,\"d\":{\"code\":0}}"),
        Ok(Envelope::Hello { code: 0, session_id: None })
    );
}

#[test]
fn event_payload_must_have_author() {
    assert_eq!(
        decode("{\"s\":0,\"d\":{\"content\":\"hi\"},\"sn\":1}"),
        Err(DecodeError::ShapeMismatch)
    );
    assert_eq!(
        decode("{\"s\":0,\"d\":5,\"sn\":1}"),
        Err(DecodeError::ShapeMismatch)
    );
    assert_eq!(decode("{\"s\":0,\"sn\":1}"), Err(DecodeError::ShapeMismatch));
}
