use bytes::BytesMut;
use rad::error::Error;
use rad::protocol::control::{
    decode_frame, encode_frame, encode_status_req, encode_status_resp, FrameError,
};
use rad::protocol::control_text::{read_control, write_control};
use rad::protocol::{
    ClearedInstance, ControlMessage, InstanceStatus, LspFrame, RadFrameCocdec, RadMessage,
    ServerStatus,
};

/// An error message whose control message has so many bytes.
fn error_of_len(len: usize) -> RadMessage {
    let frame = br#"{"type":"error","message":""}"#.len();
    RadMessage::control(ControlMessage::Error {
        message: "x".repeat(len - frame),
    })
}

#[test]
fn round_trips_lsp_message() {
    let message = RadMessage::lsp(LspFrame::new(
        serde_json::from_str(r#"{"jsonrpc":"2.0","method":"test"}"#).unwrap(),
    ));
    let bytes = message.to_bytes().unwrap();
    let decoded = RadFrameCocdec
        .decode_packet(&mut BytesMut::from(bytes.as_slice()))
        .unwrap()
        .expect("message should decode");

    assert_eq!(message, decoded);
}

#[test]
fn round_trips_control_message() {
    let message = RadMessage::control(ControlMessage::StatusRequest);
    let bytes = message.to_bytes().unwrap();
    let decoded = RadFrameCocdec
        .decode_packet(&mut BytesMut::from(bytes.as_slice()))
        .unwrap()
        .expect("message should decode");

    assert_eq!(message, decoded);
}

#[test]
fn message_has_kind_length_and_body() {
    let lsp = RadMessage::lsp(LspFrame::from_json_bytes(b"{}").unwrap());
    assert_eq!(vec![1, 0, 0, 0, 2, b'{', b'}'], lsp.to_bytes().unwrap());
    let bytes = error_of_len(258).to_bytes().unwrap();
    assert_eq!(vec![2, 0, 0, 1, 2, b'{'], bytes[..6].to_vec());
    assert_eq!(263, bytes.len());
}

#[test]
fn encoding_appends() {
    let mut buffer = BytesMut::from(&b"ab"[..]);
    RadFrameCocdec
        .encode(
            RadMessage::control(ControlMessage::StatusRequest),
            &mut buffer,
        )
        .unwrap();
    assert_eq!(
        b"ab\x02\x00\x00\x00\x19{\"type\":\"status_request\"}",
        &buffer[..]
    );
}

/// One control message of each sort, and its text.
fn control_messages() -> Vec<(ControlMessage, &'static str)> {
    let status = |workspace: &str, pid: u32, client_count: usize, idle_secs: i64| InstanceStatus {
        workspace: workspace.to_string(),
        pid,
        client_count,
        idle_secs,
        healthy: pid == 1,
    };
    let cleared = |workspace: &str, pid: u32| ClearedInstance {
        workspace: workspace.to_string(),
        pid,
    };
    vec![
        (ControlMessage::StatusRequest, r#"{"type":"status_request"}"#),
        (
            ControlMessage::StatusResponse {
                status: ServerStatus {
                    instances: Vec::new(),
                },
                pins: Vec::new(),
            },
            r#"{"type":"status_response","status":{"instances":[]}}"#,
        ),
        (
            ControlMessage::StatusResponse {
                status: ServerStatus {
                    instances: vec![status("a\"\n", 1, 2, -3), status("\u{e9}", 4294967295, 0, i64::MIN)],
                },
                pins: vec![true, false],
            },
            "{\"type\":\"status_response\",\"status\":{\"instances\":[{\"workspace\":\"a\\\"\\n\",\"pid\":1,\"client_count\":2,\"idle_secs\":-3,\"healthy\":true},{\"workspace\":\"\u{e9}\",\"pid\":4294967295,\"client_count\":0,\"idle_secs\":-9223372036854775808,\"healthy\":false}]},\"pins\":[true,false]}",
        ),
        (
            ControlMessage::ClearRequest { force: true },
            r#"{"type":"clear_request","force":true}"#,
        ),
        (
            ControlMessage::ClearResponse {
                cleared: vec![cleared("w", 7), cleared("", 0)],
            },
            r#"{"type":"clear_response","cleared":[{"workspace":"w","pid":7},{"workspace":"","pid":0}]}"#,
        ),
        (
            ControlMessage::PinRequest {
                pid: 12345,
                pinned: false,
            },
            r#"{"type":"pin_request","pid":12345,"pinned":false}"#,
        ),
        (
            ControlMessage::PinResponse { found: true },
            r#"{"type":"pin_response","found":true}"#,
        ),
        (
            ControlMessage::Error {
                message: "no".to_string(),
            },
            r#"{"type":"error","message":"no"}"#,
        ),
    ]
}

#[test]
fn control_messages_are_sent_and_received() {
    for (message, text) in control_messages() {
        assert_eq!(text.as_bytes(), &write_control(&message)[..]);
        let sent = RadMessage::control(message);
        let bytes = sent.to_bytes().unwrap();
        let mut src = BytesMut::from(bytes.as_slice());
        src.extend_from_slice(b"rest");
        assert_eq!(Some(sent), RadFrameCocdec.decode_packet(&mut src).unwrap());
        assert_eq!(b"rest", &src[..]);
        for count in 0..bytes.len() {
            let mut part = BytesMut::from(&bytes[..count]);
            assert_eq!(None, RadFrameCocdec.decode_packet(&mut part).unwrap());
            assert_eq!(count, part.len());
        }
    }
}

#[test]
fn control_text_is_read_in_any_order() {
    let read = |text: &str| read_control(text.as_bytes());
    assert_eq!(
        Some(ControlMessage::PinRequest {
            pid: 3,
            pinned: true
        }),
        read(r#" { "pinned": true, "other": [1.5], "pid": 3, "type": "pin_request" } "#)
    );
    // Fields may also stand in an array, in their order.
    assert_eq!(
        Some(ControlMessage::StatusRequest),
        read(r#"["status_request"]"#)
    );
    assert_eq!(
        Some(ControlMessage::ClearResponse {
            cleared: vec![ClearedInstance {
                workspace: "w".to_string(),
                pid: 2
            }]
        }),
        read(r#"["clear_response",[["w",2]]]"#)
    );
    assert!(read(r#"["status_response",[[["w",1,2,3,true]]]]"#).is_some());
    assert!(read(r#"["status_response",[[["w",1,2,3,true]]],[true]]"#).is_some());
}

#[test]
fn other_text_is_no_control_message() {
    for text in [
        "",
        "{",
        "{}",
        "[]",
        "3",
        r#""status_request""#,
        r#"{"type":1}"#,
        r#"{"type":"other"}"#,
        r#"{"type":"clear_request"}"#,
        r#"{"type":"clear_request","force":1}"#,
        r#"{"type":"pin_request","pid":-1,"pinned":true}"#,
        r#"{"type":"pin_request","pid":4294967296,"pinned":true}"#,
        r#"{"type":"pin_request","pid":1.0,"pinned":true}"#,
        r#"{"type":"error","message":null}"#,
        r#"{"type":"clear_response","cleared":{}}"#,
        r#"{"type":"clear_response","cleared":[{"workspace":"w"}]}"#,
        r#"{"type":"status_response","status":{}}"#,
        r#"{"type":"status_response","status":{"instances":[3]}}"#,
        r#"{"type":"status_response","status":{"instances":[]},"pins":[1]}"#,
        r#"["status_request",1]"#,
        r#"["clear_request",true,1]"#,
        r#"["status_response"]"#,
    ] {
        assert_eq!(None, read_control(text.as_bytes()));
    }
}

#[test]
fn decoding_waits_and_leaves_what_follows() {
    let first = RadMessage::control(ControlMessage::StatusRequest);
    let second = RadMessage::lsp(LspFrame::from_json_bytes(b"[2]").unwrap());
    let mut all = first.to_bytes().unwrap();
    for count in 0..all.len() {
        let mut src = BytesMut::from(&all[..count]);
        assert!(RadFrameCocdec.decode_packet(&mut src).unwrap().is_none());
        assert_eq!(count, src.len());
    }
    all.extend_from_slice(&second.to_bytes().unwrap());
    all.push(1);
    let mut src = BytesMut::from(all.as_slice());
    assert_eq!(Some(first), RadFrameCocdec.decode_packet(&mut src).unwrap());
    assert_eq!(
        Some(second),
        RadFrameCocdec.decode_packet(&mut src).unwrap()
    );
    assert_eq!(&[1u8][..], &src[..]);
}

fn plain_text(error: Error) -> String {
    match error {
        Error::PlainText { msg } => msg,
        other => panic!("expected plain text, got {}", other.message()),
    }
}

#[test]
fn large_bodies_are_refused() {
    let limit = 64 * 1024 * 1024;
    let fits = error_of_len(limit);
    assert_eq!(limit + 5, fits.to_bytes().unwrap().len());
    let large = error_of_len(limit + 1);
    assert_eq!(
        "rad message body too large: 67108865",
        plain_text(large.to_bytes().unwrap_err())
    );

    let mut src = BytesMut::from(&[1u8, 4, 0, 0, 1][..]);
    assert_eq!(
        "rad message body too large: 67108865",
        plain_text(RadFrameCocdec.decode_packet(&mut src).unwrap_err())
    );
    assert_eq!(5, src.len());
}

#[test]
fn unknown_kinds_and_bad_bodies_are_refused() {
    let mut src = BytesMut::from(&b"\x09\x00\x00\x00\x01xrest"[..]);
    assert_eq!(
        "unknown rad message kind: 9",
        plain_text(RadFrameCocdec.decode_packet(&mut src).unwrap_err())
    );
    assert_eq!(b"rest", &src[..]);

    let mut src = BytesMut::from(&b"\x01\x00\x00\x00\x01{rest"[..]);
    assert!(matches!(
        RadFrameCocdec.decode_packet(&mut src),
        Err(Error::InvalidJson)
    ));
    assert_eq!(b"rest", &src[..]);
}

#[test]
fn control_text_that_does_not_read_is_refused() {
    for body in ["{", "{}", "[1]", "{\"type\":\"other\"}"] {
        let mut bytes = vec![2, 0, 0, 0, body.len() as u8];
        bytes.extend_from_slice(body.as_bytes());
        bytes.push(b'r');
        let mut src = BytesMut::from(bytes.as_slice());
        assert!(matches!(
            RadFrameCocdec.decode_packet(&mut src),
            Err(Error::InvalidJson)
        ));
        assert_eq!(b"r", &src[..]);
    }
}

#[test]
fn messages_are_copied() {
    let message = RadMessage::control(ControlMessage::StatusRequest);
    assert_eq!(message, message.clone());
}

#[test]
fn control_frame_layout() {
    assert_eq!(
        vec![0x12, 0x12, 0x30, 0x01, 1, 0, 1, 0, 0, 0, 0, 0, 0],
        encode_status_req()
    );
    assert_eq!(
        vec![0x12, 0x12, 0x30, 0x01, 1, 0xab, 0xcd, 0, 0, 0, 0, 0, 2, 8, 9],
        encode_frame(0xabcd, &[8, 9])
    );
    let status = serde_json::from_str("{\"a\":1}").unwrap();
    let bytes = encode_status_resp(&status).unwrap();
    assert_eq!(vec![0, 2], bytes[5..7].to_vec());
    assert_eq!(b"{\"a\":1}".to_vec(), bytes[13..].to_vec());
}

#[test]
fn control_frame_reads_back() {
    let frame = decode_frame(&encode_frame(0xfffe, b"payload")).unwrap();
    assert_eq!(0xfffe, frame.msg_type);
    assert_eq!(b"payload".to_vec(), frame.payload);
    let frame = decode_frame(&encode_status_req()).unwrap();
    assert_eq!(1, frame.msg_type);
    assert!(frame.payload.is_empty());
}

#[test]
fn broken_control_frames_are_refused() {
    let good = encode_frame(1, b"ab");
    let error = |bytes: &[u8]| decode_frame(bytes).unwrap_err();

    let short = error(&good[..12]);
    assert_eq!(FrameError::HeaderTooShort, short);
    assert!(short.is_unexpected_eof());
    assert_eq!("control frame header too short", short.message());

    let mut bytes = good.clone();
    bytes[3] = 2;
    assert_eq!(FrameError::InvalidMagic, error(&bytes));
    assert!(!error(&bytes).is_unexpected_eof());
    assert_eq!("invalid control frame magic", error(&bytes).message());

    let mut bytes = good.clone();
    bytes[4] = 2;
    assert_eq!(FrameError::UnsupportedVersion, error(&bytes));
    assert_eq!("unsupported control frame version", error(&bytes).message());

    let mut bytes = good.clone();
    bytes.push(0);
    assert_eq!(FrameError::LengthMismatch, error(&bytes));
    assert_eq!(
        "control frame payload length mismatch",
        error(&bytes).message()
    );
    assert_eq!(
        "invalid control frame payload",
        FrameError::InvalidPayload.message()
    );
}

#[test]
fn errors_are_put_into_words() {
    let text = |value: &str| value.to_string();
    assert_eq!(
        "unexpected, err: x",
        Error::Unexpected { err_msg: text("x") }.message()
    );
    assert_eq!("x", Error::PlainText { msg: text("x") }.message());
    assert_eq!("io error, x", Error::Io { reason: text("x") }.message());
    assert_eq!(
        "invalid utf-8 in lsp headers: x",
        Error::InvalidHeaderUtf8 { source: text("x") }.message()
    );
    assert_eq!(
        "invalid Content-Length value",
        Error::InvalidContentLength.message()
    );
    assert_eq!(
        "missing Content-Length header",
        Error::MissingContentLength.message()
    );
    assert_eq!("invalid json", Error::InvalidJson.message());
}
