use rad::instance::{
    is_healthy, ClientHandle, ClientMessage, Delivery, Instance, InstanceHandle, InstanceKey,
    ProcessState,
};
use rad::mapper::ReqIdMapper;
use rad::protocol::lsp::{decode_single_packet, JsonRpcId};
use rad::protocol::LspFrame;
use serde_json::Value;

fn frame(text: &str) -> LspFrame {
    LspFrame::new(serde_json::from_str(text).unwrap())
}

fn json(text: &str) -> Value {
    serde_json::from_str(text).unwrap()
}

fn id_of(message: &LspFrame) -> i64 {
    message.as_json()["id"].as_i64().unwrap()
}

fn response(id: i64) -> LspFrame {
    frame(&format!("{{\"jsonrpc\":\"2.0\",\"id\":{id},\"result\":null}}"))
}

#[test]
fn rewrites_request_id_and_restores_response() {
    let mut req_id_mapper = ReqIdMapper::new();

    let req = LspFrame::new(
        serde_json::from_slice(br#"{"jsonrpc":"2.0","id":1,"method":"textDocument/hover"}"#)
            .expect("valid request json"),
    );
    let rewritten = req_id_mapper.rewrite_client_packet(3, req, 100);
    let req_json = rewritten.as_json();
    let mapped = req_json["id"].as_i64().expect("mapped id should be i64");

    let resp = LspFrame::new(
        serde_json::from_str(&format!(
            "{{\"jsonrpc\":\"2.0\",\"id\":{},\"result\":null}}",
            mapped
        ))
        .expect("valid response json"),
    );
    let routed = req_id_mapper.rewrite_ra_packet(resp, 9, 100).unwrap();
    let resp_packet = decode_single_packet(&routed.frame.to_bytes().unwrap())
        .unwrap()
        .expect("rewritten response packet should parse");
    let resp_json = resp_packet.as_json();

    assert_eq!(routed.client_id, 3);
    assert_eq!(resp_json["id"], Value::Number(1.into()));
}

#[test]
fn same_id_of_two_clients_is_told_apart() {
    let mut mapper = ReqIdMapper::new();
    let first = mapper.rewrite_client_packet(1, frame(r#"{"id":5,"method":"a"}"#), 0);
    let second = mapper.rewrite_client_packet(2, frame(r#"{"id":"5","method":"b"}"#), 0);
    assert_eq!(1, id_of(&first));
    assert_eq!(2, id_of(&second));

    let routed = mapper.rewrite_ra_packet(response(2), 1, 0).unwrap();
    assert_eq!(2, routed.client_id);
    assert_eq!(Value::from("5"), routed.frame.as_json()["id"]);
    let routed = mapper.rewrite_ra_packet(response(1), 2, 0).unwrap();
    assert_eq!(1, routed.client_id);
    assert_eq!(Value::from(5), routed.frame.as_json()["id"]);
}

#[test]
fn no_id_is_given_twice() {
    let mut mapper = ReqIdMapper::new();
    let mut ids = Vec::new();
    for round in 0..50 {
        let asked = mapper.rewrite_client_packet(round % 3, frame(r#"{"id":1,"method":"a"}"#), 0);
        ids.push(id_of(&asked));
        mapper.rewrite_ra_packet(response(id_of(&asked)), 0, 0).unwrap();
    }
    assert_eq!((1..=50).collect::<Vec<i64>>(), ids);
}

#[test]
fn a_response_is_delivered_once() {
    let mut mapper = ReqIdMapper::new();
    mapper.rewrite_client_packet(4, frame(r#"{"id":70,"method":"a"}"#), 0);
    let routed = mapper.rewrite_ra_packet(response(1), 9, 0).unwrap();
    assert_eq!((4, 70), (routed.client_id, id_of(&routed.frame)));
    let routed = mapper.rewrite_ra_packet(response(1), 9, 0).unwrap();
    assert_eq!((9, 1), (routed.client_id, id_of(&routed.frame)));
}

#[test]
fn messages_that_are_no_requests_keep_their_ids() {
    let mut mapper = ReqIdMapper::new();
    for text in [
        r#"{"method":"textDocument/didOpen"}"#,
        r#"{"id":3,"result":{}}"#,
        r#"{"id":null,"method":"x"}"#,
        r#"{"id":1.5,"method":"x"}"#,
        "[]",
    ] {
        let rewritten = mapper.rewrite_client_packet(1, frame(text), 0);
        assert_eq!(&json(text), rewritten.as_json());
    }
    let asked = mapper.rewrite_client_packet(1, frame(r#"{"id":8,"method":"x"}"#), 0);
    assert_eq!(1, id_of(&asked));
}

#[test]
fn unasked_messages_go_to_the_active_client() {
    let mut mapper = ReqIdMapper::new();
    mapper.rewrite_client_packet(1, frame(r#"{"id":8,"method":"x"}"#), 0);
    for text in [
        r#"{"method":"window/logMessage"}"#,
        r#"{"id":1,"method":"workspace/configuration"}"#,
        r#"{"id":"1","result":1}"#,
        r#"{"id":99,"result":1}"#,
    ] {
        let routed = mapper.rewrite_ra_packet(frame(text), 6, 0).unwrap();
        assert_eq!(6, routed.client_id);
        assert_eq!(&json(text), routed.frame.as_json());
    }
}

#[test]
fn cancel_follows_its_request() {
    let mut mapper = ReqIdMapper::new();
    mapper.rewrite_client_packet(1, frame(r#"{"id":10,"method":"a"}"#), 0);
    mapper.rewrite_client_packet(2, frame(r#"{"id":10,"method":"b"}"#), 0);
    let cancel = r#"{"method":"$/cancelRequest","params":{"id":10}}"#;
    let cancelled = |mapper: &mut ReqIdMapper, cid: u32| {
        let rewritten = mapper.rewrite_client_packet(cid, frame(cancel), 0);
        rewritten.as_json()["params"]["id"].as_i64().unwrap()
    };
    assert_eq!(1, cancelled(&mut mapper, 1));
    assert_eq!(2, cancelled(&mut mapper, 2));
    assert_eq!(10, cancelled(&mut mapper, 3));
    mapper.rewrite_ra_packet(response(1), 0, 0).unwrap();
    assert_eq!(10, cancelled(&mut mapper, 1));
    assert_eq!(2, cancelled(&mut mapper, 2));
}

#[test]
fn initialize_is_answered_again() {
    let mut mapper = ReqIdMapper::new();
    let ask = |mapper: &mut ReqIdMapper| {
        id_of(&mapper.rewrite_client_packet(1, frame(r#"{"id":0,"method":"initialize"}"#), 0))
    };
    assert_eq!(
        None,
        mapper.initialize_response_from_cache(JsonRpcId::Number(7))
    );

    let id = ask(&mut mapper);
    let failure = frame(&format!("{{\"id\":{id},\"error\":{{}}}}"));
    mapper.rewrite_ra_packet(failure, 1, 0).unwrap();
    assert_eq!(
        None,
        mapper.initialize_response_from_cache(JsonRpcId::Number(7))
    );

    let id = ask(&mut mapper);
    let answer = frame(&format!("{{\"id\":{id},\"result\":{{\"capabilities\":1}}}}"));
    let routed = mapper.rewrite_ra_packet(answer, 1, 0).unwrap();
    assert_eq!(&json(r#"{"id":0,"result":{"capabilities":1}}"#), routed.frame.as_json());
    assert_eq!(
        Some(frame(r#"{"id":7,"result":{"capabilities":1}}"#)),
        mapper.initialize_response_from_cache(JsonRpcId::Number(7))
    );
    assert_eq!(
        Some(frame(r#"{"id":"x","result":{"capabilities":1}}"#)),
        mapper.initialize_response_from_cache(JsonRpcId::String("x".to_string()))
    );
}

fn dir(workspace: &str) -> Option<String> {
    InstanceKey::new(workspace.to_string()).workspace_dir()
}

#[test]
fn workspace_names_give_directories() {
    assert_eq!(Some("/home/u/p".to_string()), dir("file:///home/u/p"));
    assert_eq!(Some("/p".to_string()), dir("file://host/p"));
    assert_eq!(None, dir("file://host"));
    assert_eq!(None, dir("file://"));
    assert_eq!(Some("/p".to_string()), dir("/p"));
    assert_eq!(None, dir("default-workspace"));
    assert_eq!(None, dir(""));
    assert_eq!(None, dir("http:///p"));
    assert_eq!(Some("/\u{e9}".to_string()), dir("file://\u{e9}/\u{e9}"));
}

#[test]
fn keys_and_handles_tell_what_they_were_made_of() {
    let key = InstanceKey::new("w".to_string());
    assert_eq!("w", key.workspace());
    assert_eq!(key, key.clone());
    let handle = InstanceHandle::new(key, 12).clone();
    assert_eq!("w", handle.key().workspace());
    assert_eq!(12, handle.pid());
}

#[test]
fn clients_come_and_go() {
    let mut instance = Instance::new(10, 100);
    assert_eq!(10, instance.pid());
    assert_eq!(100, instance.last_used());
    assert_eq!(0, instance.client_count());
    assert!(!instance.is_pinned());
    instance.attach_client(ClientHandle { id: 1 });
    instance.attach_client(ClientHandle { id: 2 });
    instance.attach_client(ClientHandle { id: 1 });
    assert_eq!(2, instance.client_count());
    assert!(instance.detach_client(1));
    assert!(!instance.detach_client(1));
    assert_eq!(1, instance.client_count());
    instance.set_pinned(true);
    assert!(instance.is_pinned());
}

fn send(instance: &mut Instance, client_id: u32, text: &str, now: i64) -> Value {
    let bytes = frame(text).to_bytes().unwrap();
    let forwarded = instance.handle_client_msg_to_ra(ClientMessage { client_id, bytes }, now);
    decode_single_packet(&forwarded)
        .unwrap()
        .unwrap()
        .as_json()
        .clone()
}

fn delivered(delivery: Delivery) -> (u32, Value) {
    match delivery {
        Delivery::Deliver { client_id, frame } => (client_id, frame.as_json().clone()),
        _ => panic!("expected a delivery"),
    }
}

#[test]
fn answers_reach_the_client_that_asked() {
    let mut instance = Instance::new(10, 100);
    instance.attach_client(ClientHandle { id: 1 });
    instance.attach_client(ClientHandle { id: 2 });
    assert_eq!(
        json(r#"{"id":1,"method":"a"}"#),
        send(&mut instance, 1, r#"{"id":40,"method":"a"}"#, 101)
    );
    assert_eq!(
        json(r#"{"method":"b"}"#),
        send(&mut instance, 2, r#"{"method":"b"}"#, 102)
    );
    assert_eq!(102, instance.last_used());

    let unasked = frame(r#"{"method":"n"}"#);
    assert_eq!(
        (2, json(r#"{"method":"n"}"#)),
        delivered(instance.forward_ra_to_active_client(unasked))
    );
    let answer = frame(r#"{"id":1,"result":5}"#);
    assert_eq!(
        (1, json(r#"{"id":40,"result":5}"#)),
        delivered(instance.forward_ra_to_active_client(answer))
    );
}

#[test]
fn messages_for_nobody_are_dropped() {
    let mut instance = Instance::new(10, 100);
    assert!(matches!(
        instance.forward_ra_to_active_client(frame(r#"{"method":"n"}"#)),
        Delivery::NoActiveClient
    ));
    instance.attach_client(ClientHandle { id: 1 });
    instance.set_active_client(1);
    instance.detach_client(1);
    assert!(matches!(
        instance.forward_ra_to_active_client(frame(r#"{"method":"n"}"#)),
        Delivery::NotRegistered { client_id: 1 }
    ));
}

#[test]
fn bytes_that_hold_no_message_pass() {
    let mut instance = Instance::new(10, 100);
    for bytes in [
        &b"garbage"[..],
        &b"Content-Length: 9\r\n\r\n{}"[..],
        &b"Content-Length: 2\r\n\r\n{]"[..],
        &b"A: b\r\n\r\n"[..],
    ] {
        let msg = ClientMessage {
            client_id: 1,
            bytes: bytes.to_vec(),
        };
        assert_eq!(bytes.to_vec(), instance.handle_client_msg_to_ra(msg, 105));
    }
    assert_eq!(105, instance.last_used());
}

#[test]
fn instance_answers_initialize_from_memory() {
    let mut instance = Instance::new(10, 100);
    instance.attach_client(ClientHandle { id: 1 });
    send(&mut instance, 1, r#"{"id":0,"method":"initialize"}"#, 101);
    instance.forward_ra_to_active_client(frame(r#"{"id":1,"result":{}}"#));
    assert_eq!(
        Some(frame(r#"{"id":3,"result":{}}"#)),
        instance.build_initialize_response_from_cache(&Value::from(3))
    );
    assert_eq!(
        None,
        instance.build_initialize_response_from_cache(&Value::Null)
    );
}

#[test]
fn health_takes_an_open_input_and_a_running_process() {
    assert!(is_healthy(false, ProcessState::Running));
    assert!(!is_healthy(true, ProcessState::Running));
    assert!(!is_healthy(false, ProcessState::Exited));
    assert!(!is_healthy(false, ProcessState::Unknown));
}
