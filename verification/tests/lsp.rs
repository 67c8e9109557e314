use bytes::BytesMut;
use rad::error::Error;
use rad::protocol::lsp::{
    decode_frame_bounds, decode_single_packet, find_header_end, length_fits, parse_content_length,
    JsonRpcId,
};
use rad::protocol::{LspFrame, LspFrameDecoder};
use serde_json::Value;

fn frame(text: &str) -> LspFrame {
    LspFrame::new(serde_json::from_str(text).unwrap())
}

fn json(text: &str) -> Value {
    serde_json::from_str(text).unwrap()
}

#[test]
fn decoder_handles_split_headers_and_body() {
    let body = br#"{"jsonrpc":"2.0"}"#;
    let expected: Value = serde_json::from_slice(body).unwrap();
    let mut decoder = LspFrameDecoder;
    let mut src = BytesMut::new();
    src.extend_from_slice(format!("Content-Length: {}\r\n", body.len()).as_bytes());
    assert!(decoder.decode_packet(&mut src).unwrap().is_none());

    src.extend_from_slice(b"\r\n");
    src.extend_from_slice(body);
    let packet = decoder
        .decode_packet(&mut src)
        .unwrap()
        .expect("packet should exist");
    assert_eq!(packet.as_json(), &expected);
}

#[test]
fn decoder_waits_at_every_cut() {
    let bytes = frame(r#"{"id":1,"method":"x"}"#).to_bytes().unwrap();
    for count in 0..bytes.len() {
        let mut src = BytesMut::from(&bytes[..count]);
        assert!(LspFrameDecoder.decode_packet(&mut src).unwrap().is_none());
        assert_eq!(&bytes[..count], &src[..]);
    }
}

#[test]
fn decoder_leaves_what_follows() {
    let first = frame(r#"{"method":"first"}"#);
    let second = frame(r#"{"method":"second"}"#);
    let mut src = BytesMut::new();
    src.extend_from_slice(&first.to_bytes().unwrap());
    src.extend_from_slice(&second.to_bytes().unwrap());
    src.extend_from_slice(b"Cont");
    let mut decoder = LspFrameDecoder;
    assert_eq!(Some(first), decoder.decode_packet(&mut src).unwrap());
    assert_eq!(Some(second), decoder.decode_packet(&mut src).unwrap());
    assert_eq!(None, decoder.decode_packet(&mut src).unwrap());
    assert_eq!(b"Cont", &src[..]);
}

#[test]
fn messages_read_back() {
    for text in [
        r#"{"jsonrpc":"2.0","id":1,"method":"m","params":{"a":[1,-2,{"b":null}],"c":true}}"#,
        r#"{"text":"é😀\n\"\\"}"#,
        r#"[18446744073709551615,-9223372036854775808]"#,
        "null",
    ] {
        let message = frame(text);
        let bytes = message.to_bytes().unwrap();
        assert!(length_fits(&bytes));
        assert_eq!(Some(message), decode_single_packet(&bytes).unwrap());
    }
}

#[test]
fn frame_is_written_with_its_length() {
    assert_eq!(
        b"Content-Length: 8\r\n\r\n{\"id\":7}".to_vec(),
        frame(r#"{ "id" : 7 }"#).to_bytes().unwrap()
    );
    // The length counts bytes, not characters.
    assert_eq!(
        "Content-Length: 4\r\n\r\n\"\u{e9}\"".as_bytes().to_vec(),
        frame("\"\u{e9}\"").to_bytes().unwrap()
    );
    assert_eq!(
        b"{\"id\":7}".to_vec(),
        frame(r#"{"id":7}"#).to_json_bytes().unwrap()
    );
}

#[test]
fn content_length_is_read() {
    assert_eq!(5, parse_content_length(b"Content-Length: 5").unwrap());
    assert_eq!(
        17,
        parse_content_length(b"Content-Type: x\r\ncontent-LENGTH :\t+17 ").unwrap()
    );
    assert_eq!(
        1,
        parse_content_length(b"no colon\r\nContent-Length:1\r\nContent-Length:2").unwrap()
    );
    assert_eq!(
        0,
        parse_content_length("Content-Length:\u{2003}00\u{3000}".as_bytes()).unwrap()
    );
}

#[test]
fn bad_headers_are_refused() {
    assert!(matches!(
        parse_content_length(b""),
        Err(Error::MissingContentLength)
    ));
    assert!(matches!(
        parse_content_length(b"Content-Size: 5"),
        Err(Error::MissingContentLength)
    ));
    for value in ["", "x", "-1", "1 2", "+", "++1", "0x10", "99999999999999999999999"] {
        assert!(matches!(
            parse_content_length(format!("Content-Length: {value}").as_bytes()),
            Err(Error::InvalidContentLength)
        ));
    }
    let bytes = b"Content-Length: 5\xff";
    let source = std::str::from_utf8(bytes).unwrap_err();
    assert_eq!(
        format!("invalid utf-8 in lsp headers: {source}"),
        parse_content_length(bytes).unwrap_err().message()
    );
}

#[test]
fn header_end_is_the_first_empty_line() {
    assert_eq!(None, find_header_end(b""));
    assert_eq!(None, find_header_end(b"\r\n\r"));
    assert_eq!(Some(0), find_header_end(b"\r\n\r\n"));
    assert_eq!(Some(1), find_header_end(b"\r\r\n\r\n\r\n"));
    assert_eq!(Some(2), find_header_end(b"ab\r\n\r\ncd\r\n\r\n"));
}

#[test]
fn bounds_of_a_frame() {
    assert_eq!(
        Some((17, 21, 23)),
        decode_frame_bounds(b"Content-Length: 2\r\n\r\n{}x").unwrap()
    );
    assert_eq!(
        None,
        decode_frame_bounds(b"Content-Length: 2\r\n\r\n{").unwrap()
    );
    assert_eq!(None, decode_frame_bounds(b"Content-Length: 2\r\n").unwrap());
    assert!(matches!(
        decode_frame_bounds(b"A: b\r\n\r\n"),
        Err(Error::MissingContentLength)
    ));
}

#[test]
fn a_length_beyond_counting_is_told() {
    let huge = format!("Content-Length: {}\r\n\r\n", usize::MAX);
    assert!(!length_fits(huge.as_bytes()));
    assert!(length_fits(b"Content-Length: 99\r\n\r\n"));
    assert!(length_fits(b"Content-Length: x\r\n\r\n"));
    assert!(length_fits(b"Content-Le"));
}

#[test]
fn a_body_that_is_no_json_is_dropped() {
    let mut src = BytesMut::from(&b"Content-Length: 2\r\n\r\n{]rest"[..]);
    assert!(matches!(
        LspFrameDecoder.decode_packet(&mut src),
        Err(Error::InvalidJson)
    ));
    assert_eq!(b"rest", &src[..]);
    assert!(matches!(
        LspFrame::from_json_bytes(b"{} {}"),
        Err(Error::InvalidJson)
    ));
}

#[test]
fn nesting_is_read_up_to_a_depth() {
    let nested = |levels: usize| "[".repeat(levels) + &"]".repeat(levels);
    assert!(LspFrame::from_json_bytes(nested(127).as_bytes()).is_ok());
    assert!(LspFrame::from_json_bytes(nested(128).as_bytes()).is_err());
}

#[test]
fn a_header_error_leaves_the_buffer() {
    let mut src = BytesMut::from(&b"A: b\r\n\r\n{}"[..]);
    assert!(matches!(
        LspFrameDecoder.decode_packet(&mut src),
        Err(Error::MissingContentLength)
    ));
    assert_eq!(b"A: b\r\n\r\n{}", &src[..]);
}

#[test]
fn messages_are_told_apart() {
    let request = frame(r#"{"id":1,"method":"shutdown"}"#);
    assert_eq!(Some("shutdown"), request.method());
    assert!(request.is_method("shutdown"));
    assert!(!request.is_method("shut"));
    assert!(request.is_request_method("shutdown"));
    assert!(request.is_request());
    assert!(!request.is_response());

    let notification = frame(r#"{"method":"exit"}"#);
    assert!(notification.is_method("exit"));
    assert!(!notification.is_request_method("exit"));
    assert!(!notification.is_request());

    let response = frame(r#"{"id":1,"result":null}"#);
    assert!(response.is_response());
    assert!(response.is_success_response());
    let failure = frame(r#"{"id":1,"error":{}}"#);
    assert!(failure.is_response());
    assert!(!failure.is_success_response());

    assert_eq!(None, frame(r#"{"method":5}"#).method());
    assert!(frame(r#"{"id":null,"method":5}"#).is_request());
    assert_eq!(None, frame("[]").method());
    assert!(!frame("[]").is_response());
}

#[test]
fn ids_are_numbers_or_texts() {
    assert_eq!(Some(JsonRpcId::Number(-3)), frame(r#"{"id":-3}"#).id());
    assert_eq!(
        Some(JsonRpcId::String("7".to_string())),
        frame(r#"{"id":"7"}"#).id()
    );
    for other in [r#"{"id":1.5}"#, r#"{"id":null}"#, r#"{"id":[1]}"#, "{}", "3"] {
        assert_eq!(None, frame(other).id());
    }
    assert_eq!(None, frame(r#"{"id":9223372036854775808}"#).id());
    assert_eq!(Value::from(5), JsonRpcId::Number(5).into_value());
    assert_eq!(
        Value::from("x"),
        JsonRpcId::String("x".to_string()).into_value()
    );
}

#[test]
fn ids_are_set() {
    let mut message = frame(r#"{"id":1,"method":"m"}"#);
    message.set_id(JsonRpcId::String("a".to_string()));
    assert_eq!(&json(r#"{"id":"a","method":"m"}"#), message.as_json());
    let mut other = frame("[1]");
    other.set_id(JsonRpcId::Number(4));
    assert_eq!(&json("[1]"), other.as_json());
}

#[test]
fn cancel_notifications_name_a_request() {
    let mut cancel = frame(r#"{"method":"$/cancelRequest","params":{"id":9}}"#);
    assert_eq!(Some(JsonRpcId::Number(9)), cancel.cancel_request_id());
    cancel.set_cancel_request_id(JsonRpcId::Number(2));
    assert_eq!(
        &json(r#"{"method":"$/cancelRequest","params":{"id":2}}"#),
        cancel.as_json()
    );
    assert_eq!(
        None,
        frame(r#"{"method":"x","params":{"id":9}}"#).cancel_request_id()
    );
    assert_eq!(
        None,
        frame(r#"{"method":"$/cancelRequest"}"#).cancel_request_id()
    );
    let mut bare = frame(r#"{"method":"$/cancelRequest","params":[9]}"#);
    bare.set_cancel_request_id(JsonRpcId::Number(2));
    assert_eq!(
        &json(r#"{"method":"$/cancelRequest","params":[9]}"#),
        bare.as_json()
    );
}

#[test]
fn workspace_is_found_in_initialize() {
    let key = |params: &str| {
        frame(&format!("{{\"method\":\"initialize\",\"params\":{params}}}")).workspace_key()
    };
    assert_eq!(
        Some("file:///a".to_string()),
        key(r#"{"workspaceFolders":[{"uri":"file:///a"},{"uri":"file:///b"}],"rootUri":"file:///c"}"#)
    );
    assert_eq!(
        Some("".to_string()),
        key(r#"{"workspaceFolders":[{"uri":""}],"rootUri":"file:///c"}"#)
    );
    assert_eq!(
        Some("file:///c".to_string()),
        key(r#"{"workspaceFolders":[],"rootUri":"file:///c","rootPath":"/d"}"#)
    );
    assert_eq!(
        Some("/d".to_string()),
        key(r#"{"workspaceFolders":null,"rootUri":"","rootPath":"/d"}"#)
    );
    assert_eq!(None, key(r#"{"rootUri":"","rootPath":""}"#));
    assert_eq!(None, key("null"));
    assert_eq!(None, frame(r#"{"method":"initialize"}"#).workspace_key());
    assert_eq!(
        None,
        frame(r#"{"method":"other","params":{"rootUri":"file:///c"}}"#).workspace_key()
    );
}

#[test]
fn shutdown_response_keeps_the_id() {
    let response = frame(r#"{"id":"s","method":"shutdown"}"#)
        .shutdown_response()
        .unwrap();
    assert_eq!(
        &json(r#"{"jsonrpc":"2.0","id":"s","result":null}"#),
        response.as_json()
    );
    assert_eq!(
        None,
        frame(r#"{"method":"shutdown"}"#).shutdown_response()
    );
    assert_eq!(
        None,
        frame(r#"{"id":null,"method":"shutdown"}"#).shutdown_response()
    );
    assert_eq!(
        None,
        frame(r#"{"id":1,"method":"exit"}"#).shutdown_response()
    );
}

#[test]
fn copies_are_equal() {
    let message = frame(r#"{"id":1,"params":{"x":[1,2]}}"#);
    assert_eq!(message, message.clone());
    assert_eq!(
        JsonRpcId::String("a".to_string()),
        JsonRpcId::String("a".to_string()).clone()
    );
}
