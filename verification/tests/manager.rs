use rad::config::ProjectConfig;
use rad::instance::{ClientMessage, Delivery, InstanceHandle, InstanceKey};
use rad::manager::{InstanceManager, SpawnAction, SpawnEvent};
use rad::protocol::lsp::decode_single_packet;
use rad::protocol::{ClearedInstance, ControlMessage, InstanceStatus, LspFrame};
use rad::server::{
    build_shutdown_response, do_process_lsp_frame, process_control, ClientSessionState,
    FrameAction,
};
use serde_json::Value;

fn frame(text: &str) -> LspFrame {
    LspFrame::new(serde_json::from_str(text).unwrap())
}

fn key(workspace: &str) -> InstanceKey {
    InstanceKey::new(workspace.to_string())
}

fn manager() -> InstanceManager {
    InstanceManager::new("rust-analyzer".to_string(), Vec::new())
}

/// Starts an instance for a client.
fn start(
    manager: &mut InstanceManager,
    client_id: u32,
    workspace: &str,
    pid: u32,
    now: i64,
) -> InstanceHandle {
    match manager.spawn_instance(
        client_id,
        &key(workspace),
        SpawnEvent::Started { pid, now },
    ) {
        SpawnAction::Attached { handle, reused } => {
            assert!(!reused);
            handle
        }
        _ => panic!("expected to be attached"),
    }
}

/// Attaches a client to an instance that is healthy.
fn share(manager: &mut InstanceManager, client_id: u32, workspace: &str) -> InstanceHandle {
    match manager.spawn_instance(
        client_id,
        &key(workspace),
        SpawnEvent::Health { healthy: true },
    ) {
        SpawnAction::Attached { handle, reused } => {
            assert!(reused);
            handle
        }
        _ => panic!("expected to be attached"),
    }
}

fn statuses(manager: &InstanceManager, now: i64, healthy: &[u32]) -> Vec<InstanceStatus> {
    let mut statuses = manager.status(now, &healthy.to_vec());
    statuses.sort_by_key(|status| status.pid);
    statuses
}

fn pids(manager: &InstanceManager) -> Vec<u32> {
    statuses(manager, 0, &[])
        .iter()
        .map(|status| status.pid)
        .collect()
}

fn sorted(mut cleared: Vec<ClearedInstance>) -> Vec<(String, u32)> {
    cleared.sort_by_key(|entry| entry.pid);
    cleared
        .into_iter()
        .map(|entry| (entry.workspace, entry.pid))
        .collect()
}

#[test]
fn clients_of_a_workspace_share_its_instance() {
    let mut manager = manager();
    assert!(matches!(
        manager.spawn_instance(1, &key("/w"), SpawnEvent::Requested),
        SpawnAction::Start
    ));
    let first = start(&mut manager, 1, "/w", 50, 10);
    assert!(matches!(
        manager.spawn_instance(2, &key("/w"), SpawnEvent::Requested),
        SpawnAction::CheckHealth { pid: 50 }
    ));
    let second = share(&mut manager, 2, "/w");
    assert_eq!((first.pid(), 50), (second.pid(), 50));
    start(&mut manager, 3, "/other", 60, 12);
    assert_eq!(
        vec![
            InstanceStatus {
                workspace: "/w".to_string(),
                pid: 50,
                client_count: 2,
                idle_secs: 5,
                healthy: true,
            },
            InstanceStatus {
                workspace: "/other".to_string(),
                pid: 60,
                client_count: 1,
                idle_secs: 3,
                healthy: false,
            },
        ],
        statuses(&manager, 15, &[50])
    );
}

#[test]
fn an_unhealthy_instance_is_replaced() {
    let mut manager = manager();
    start(&mut manager, 1, "/w", 50, 10);
    assert!(matches!(
        manager.spawn_instance(2, &key("/w"), SpawnEvent::Health { healthy: false }),
        SpawnAction::ShutDown { pid: 50 }
    ));
    assert!(pids(&manager).is_empty());
    assert!(matches!(
        manager.spawn_instance(2, &key("/w"), SpawnEvent::ShutDown),
        SpawnAction::Start
    ));
    start(&mut manager, 2, "/w", 51, 11);
    assert_eq!(vec![51], pids(&manager));
    // An instance that is gone by the time that its health is known is started anew.
    assert!(matches!(
        manager.spawn_instance(2, &key("/gone"), SpawnEvent::Health { healthy: true }),
        SpawnAction::Start
    ));
}

#[test]
fn instances_outlive_their_clients_until_reaped() {
    let mut manager = manager();
    start(&mut manager, 1, "/w", 50, 100);
    share(&mut manager, 2, "/w");
    manager.detach_client(&key("/w"), 1);
    manager.detach_client(&key("/nowhere"), 2);
    assert!(manager.reap_idle_instances(1000, 300).is_empty());
    manager.detach_client(&key("/w"), 2);
    assert_eq!(0, statuses(&manager, 100, &[])[0].client_count);
    assert!(manager.reap_idle_instances(399, 300).is_empty());
    assert_eq!(
        vec![("/w".to_string(), 50)],
        sorted(manager.reap_idle_instances(400, 300))
    );
    assert!(pids(&manager).is_empty());
}

#[test]
fn idle_time_is_counted_or_not() {
    let mut manager = manager();
    start(&mut manager, 1, "/w", 50, i64::MIN);
    assert!(manager.can_count_idle_secs(-1));
    assert!(!manager.can_count_idle_secs(0));
}

#[test]
fn pinned_instances_are_not_reaped() {
    let mut manager = manager();
    start(&mut manager, 1, "/w", 50, 0);
    manager.detach_client(&key("/w"), 1);
    assert!(!manager.set_pinned(51, true));
    assert!(manager.set_pinned(50, true));
    assert!(manager.reap_idle_instances(1_000_000, 1).is_empty());
    assert!(manager.clear_idle().is_empty());
    assert!(manager.set_pinned(50, false));
    assert_eq!(1, manager.clear_idle().len());
}

/// Four instances: in use, pinned, both, and neither.
fn mixed() -> InstanceManager {
    let mut manager = manager();
    start(&mut manager, 1, "/used", 1, 0);
    start(&mut manager, 2, "/pinned", 2, 0);
    start(&mut manager, 3, "/both", 3, 0);
    start(&mut manager, 4, "/neither", 4, 0);
    manager.detach_client(&key("/pinned"), 2);
    manager.detach_client(&key("/neither"), 4);
    manager.set_pinned(2, true);
    manager.set_pinned(3, true);
    manager
}

#[test]
fn clean_ends_what_is_neither_used_nor_pinned() {
    let mut manager = mixed();
    assert_eq!(
        vec![("/neither".to_string(), 4)],
        sorted(manager.clear_idle())
    );
    assert_eq!(vec![1, 2, 3], pids(&manager));
    assert!(manager.clear_idle().is_empty());
}

#[test]
fn reaper_spares_what_clean_spares() {
    let mut manager = mixed();
    assert_eq!(
        vec![("/neither".to_string(), 4)],
        sorted(manager.reap_idle_instances(i64::MAX, 0))
    );
    assert_eq!(vec![1, 2, 3], pids(&manager));
}

#[test]
fn joining_and_leaving_changes_nothing() {
    let mut manager = manager();
    start(&mut manager, 1, "/w", 50, 0);
    share(&mut manager, 2, "/w");
    manager.detach_client(&key("/w"), 2);
    assert_eq!(1, statuses(&manager, 0, &[])[0].client_count);
}

#[test]
fn workspaces_are_separate() {
    let mut manager = manager();
    let a = start(&mut manager, 1, "/a", 50, 0);
    let b = start(&mut manager, 2, "/b", 60, 0);
    let request = r#"{"id":9,"method":"x"}"#;
    for _ in 0..3 {
        manager.handle_client_msg(&a, message(1, request), 5);
    }
    let forwarded = manager
        .handle_client_msg(&b, message(2, request), 7)
        .unwrap();
    assert_eq!(
        Some(frame(r#"{"id":1,"method":"x"}"#)),
        decode_single_packet(&forwarded).unwrap()
    );
    let idle: Vec<i64> = statuses(&manager, 10, &[])
        .iter()
        .map(|status| status.idle_secs)
        .collect();
    assert_eq!(vec![5, 3], idle);
}

#[test]
fn forced_clean_ends_everything() {
    let mut manager = mixed();
    let cleared: Vec<u32> = sorted(manager.clear_all())
        .into_iter()
        .map(|entry| entry.1)
        .collect();
    assert_eq!(vec![1, 2, 3, 4], cleared);
    assert!(pids(&manager).is_empty());
}

fn project(dir: &str, path: Option<&str>) -> (String, ProjectConfig) {
    (
        dir.to_string(),
        ProjectConfig {
            lsp_server_path: path.map(|path| path.to_string()),
        },
    )
}

#[test]
fn projects_choose_their_language_server() {
    let manager = InstanceManager::new(
        "ra".to_string(),
        vec![
            project("/a", None),
            project("/b", Some("ra-b")),
            project("/c", Some("ra-c")),
        ],
    );
    let none = vec![false, false, false];
    assert_eq!("ra", manager.resolve_lsp_server_path(None, &none));
    assert_eq!("ra", manager.resolve_lsp_server_path(Some("/a"), &none));
    assert_eq!("ra-b", manager.resolve_lsp_server_path(Some("/b"), &none));
    assert_eq!("ra-c", manager.resolve_lsp_server_path(Some("/c"), &none));
    assert_eq!("ra", manager.resolve_lsp_server_path(Some("/d"), &none));
    let reversed = InstanceManager::new(
        "ra".to_string(),
        vec![
            project("/c", Some("ra-c")),
            project("/b", Some("ra-b")),
            project("/a", None),
        ],
    );
    for dir in ["/a", "/b", "/c", "/d"] {
        assert_eq!(
            manager.resolve_lsp_server_path(Some(dir), &none),
            reversed.resolve_lsp_server_path(Some(dir), &none)
        );
    }
    // Paths are compared name by name, as `std` compares them.
    for dir in ["/b/", "//b", "/./b/.", "/b/..", "b", "./b", "/b/c", "/"] {
        let same = std::path::Path::new(dir) == std::path::Path::new("/b");
        let expected = if same { "ra-b" } else { "ra" };
        assert_eq!(expected, manager.resolve_lsp_server_path(Some(dir), &none));
    }
    let dotted = InstanceManager::new(
        "ra".to_string(),
        vec![project("./x//y", Some("ra-dot")), project("x/y", Some("ra-x"))],
    );
    let two = vec![false, false];
    assert_eq!("ra-dot", dotted.resolve_lsp_server_path(Some("././x/y/"), &two));
    assert_eq!("ra-x", dotted.resolve_lsp_server_path(Some("x/./y"), &two));
    assert_eq!("ra", dotted.resolve_lsp_server_path(Some("/x/y"), &two));
    let third = vec![true, false, true];
    assert_eq!("ra-c", manager.resolve_lsp_server_path(Some("/d"), &third));
}

fn message(client_id: u32, text: &str) -> ClientMessage {
    ClientMessage {
        client_id,
        bytes: frame(text).to_bytes().unwrap(),
    }
}

#[test]
fn messages_pass_through_the_instance_of_the_handle() {
    let mut manager = manager();
    let handle = start(&mut manager, 1, "/w", 50, 0);
    let forwarded = manager
        .handle_client_msg(&handle, message(1, r#"{"id":9,"method":"a"}"#), 20)
        .unwrap();
    assert_eq!(
        Some(frame(r#"{"id":1,"method":"a"}"#)),
        decode_single_packet(&forwarded).unwrap()
    );
    assert_eq!(5, statuses(&manager, 25, &[])[0].idle_secs);
    match manager.route_server_frame(&handle, frame(r#"{"id":1,"result":2}"#)) {
        Some(Delivery::Deliver { client_id, frame: delivered }) => {
            assert_eq!(1, client_id);
            assert_eq!(frame(r#"{"id":9,"result":2}"#), delivered);
        }
        _ => panic!("expected a delivery"),
    }
}

#[test]
fn messages_for_an_ended_instance_go_nowhere() {
    let mut manager = manager();
    let old = start(&mut manager, 1, "/w", 50, 0);
    manager.clear_all();
    assert!(manager
        .handle_client_msg(&old, message(1, "{}"), 1)
        .is_none());
    start(&mut manager, 2, "/w", 51, 0);
    assert!(manager
        .handle_client_msg(&old, message(1, "{}"), 1)
        .is_none());
    assert!(manager.route_server_frame(&old, frame("{}")).is_none());
    assert_eq!(7, statuses(&manager, 7, &[])[0].idle_secs);
}

/// A manager with an instance that has answered initialize.
fn initialized() -> (InstanceManager, InstanceHandle) {
    let mut manager = manager();
    let handle = start(&mut manager, 1, "/w", 50, 0);
    manager.handle_client_msg(&handle, message(1, r#"{"id":0,"method":"initialize"}"#), 0);
    manager.route_server_frame(&handle, frame(r#"{"id":1,"result":{"x":1}}"#));
    (manager, handle)
}

#[test]
fn initialize_is_answered_from_memory() {
    let (manager, _) = initialized();
    assert_eq!(
        Some(frame(r#"{"id":"q","result":{"x":1}}"#)),
        manager.build_initialize_response_from_cache(&key("/w"), &Value::from("q"))
    );
    assert_eq!(
        None,
        manager.build_initialize_response_from_cache(&key("/v"), &Value::from("q"))
    );
}

fn act(
    manager: &InstanceManager,
    session: &mut ClientSessionState,
    text: &str,
) -> FrameAction {
    do_process_lsp_frame(&frame(text), manager, session).unwrap()
}

fn replied(action: FrameAction) -> LspFrame {
    match action {
        FrameAction::Reply { frame } => frame,
        _ => panic!("expected a reply"),
    }
}

fn forwarded(action: FrameAction) -> LspFrame {
    match action {
        FrameAction::Forward { bytes } => decode_single_packet(&bytes).unwrap().unwrap(),
        _ => panic!("expected to be forwarded"),
    }
}

const INITIALIZE: &str =
    r#"{"id":5,"method":"initialize","params":{"rootUri":"file:///home/u/p"}}"#;

#[test]
fn first_message_binds_to_a_workspace() {
    let manager = manager();
    let mut session = ClientSessionState::default();
    assert_eq!("<unknown>", session.workspace_label());
    assert!(session.handle().is_none());
    match act(&manager, &mut session, INITIALIZE) {
        FrameAction::Bind { key } => assert_eq!("file:///home/u/p", key.workspace()),
        _ => panic!("expected to be bound"),
    }
    assert_eq!("file:///home/u/p", session.workspace_label());
    match act(&manager, &mut session, r#"{"method":"exit"}"#) {
        FrameAction::Bind { key } => assert_eq!("default-workspace", key.workspace()),
        _ => panic!("expected to be bound"),
    }
}

#[test]
fn client_of_a_new_instance_initializes_it() {
    let mut manager = manager();
    let handle = start(&mut manager, 1, "/w", 50, 0);
    let mut session = ClientSessionState::default();
    session.bind(handle, false);
    assert_eq!(50, session.handle().unwrap().pid());
    assert_eq!(
        frame(INITIALIZE),
        forwarded(act(&manager, &mut session, INITIALIZE))
    );
    let notification = r#"{"method":"initialized"}"#;
    assert_eq!(
        frame(notification),
        forwarded(act(&manager, &mut session, notification))
    );
}

#[test]
fn client_of_a_shared_instance_is_answered() {
    let (mut manager, _) = initialized();
    let handle = share(&mut manager, 2, "/w");
    let mut session = ClientSessionState::default();
    session.bind(handle, true);
    assert_eq!(
        frame(r#"{"id":5,"result":{"x":1}}"#),
        replied(act(&manager, &mut session, INITIALIZE))
    );
    assert!(matches!(
        act(&manager, &mut session, r#"{"method":"initialized"}"#),
        FrameAction::Ignore
    ));
    let other = r#"{"id":6,"method":"textDocument/hover"}"#;
    assert_eq!(
        frame(other),
        forwarded(act(&manager, &mut session, other))
    );
}

#[test]
fn shared_instance_without_an_answer_is_asked() {
    let mut manager = manager();
    start(&mut manager, 1, "/w", 50, 0);
    let handle = share(&mut manager, 2, "/w");
    let mut session = ClientSessionState::default();
    session.bind(handle, true);
    assert_eq!(
        frame(INITIALIZE),
        forwarded(act(&manager, &mut session, INITIALIZE))
    );
}

#[test]
fn clients_cannot_end_the_language_server() {
    let mut manager = manager();
    let handle = start(&mut manager, 1, "/w", 50, 0);
    let mut session = ClientSessionState::default();
    session.bind(handle, false);
    assert!(matches!(
        act(&manager, &mut session, r#"{"method":"exit"}"#),
        FrameAction::Ignore
    ));
    assert_eq!(
        frame(r#"{"jsonrpc":"2.0","id":null,"result":null}"#),
        replied(act(
            &manager,
            &mut session,
            r#"{"id":null,"method":"shutdown"}"#
        ))
    );
    // Without an id it is no request, and the language server may make of it what it wants.
    let notification = r#"{"method":"shutdown"}"#;
    assert_eq!(
        frame(notification),
        forwarded(act(&manager, &mut session, notification))
    );
    assert_eq!(None, build_shutdown_response(&frame(r#"{"id":1,"method":"x"}"#)));
}

#[test]
fn closing_a_session_leaves_the_instance() {
    let mut manager = manager();
    let handle = start(&mut manager, 1, "/w", 50, 0);
    let mut session = ClientSessionState::default();
    session.bind(handle, false);
    session.close(&mut manager, 1);
    assert_eq!(vec![50], pids(&manager));
    assert_eq!(0, statuses(&manager, 0, &[])[0].client_count);
    ClientSessionState::default().close(&mut manager, 1);
    assert_eq!(vec![50], pids(&manager));
}

#[test]
fn control_messages_are_carried_out() {
    let mut manager = mixed();
    let healthy = vec![2, 4];
    match process_control(&mut manager, ControlMessage::StatusRequest, 9, &healthy) {
        Some(ControlMessage::StatusResponse { status, pins }) => {
            let mut seen: Vec<(u32, usize, i64, bool, bool)> = status
                .instances
                .iter()
                .zip(pins)
                .map(|(entry, pinned)| {
                    (
                        entry.pid,
                        entry.client_count,
                        entry.idle_secs,
                        entry.healthy,
                        pinned,
                    )
                })
                .collect();
            seen.sort();
            assert_eq!(
                vec![
                    (1, 1, 9, false, false),
                    (2, 0, 9, true, true),
                    (3, 1, 9, false, true),
                    (4, 0, 9, true, false)
                ],
                seen
            );
        }
        _ => panic!("expected a status"),
    }
    let unpin = ControlMessage::PinRequest {
        pid: 2,
        pinned: false,
    };
    assert_eq!(
        Some(ControlMessage::PinResponse { found: true }),
        process_control(&mut manager, unpin, 9, &healthy)
    );
    let missing = ControlMessage::PinRequest {
        pid: 99,
        pinned: true,
    };
    assert_eq!(
        Some(ControlMessage::PinResponse { found: false }),
        process_control(&mut manager, missing, 9, &healthy)
    );
    match process_control(
        &mut manager,
        ControlMessage::ClearRequest { force: false },
        9,
        &healthy,
    ) {
        Some(ControlMessage::ClearResponse { cleared }) => assert_eq!(
            vec![("/pinned".to_string(), 2), ("/neither".to_string(), 4)],
            sorted(cleared)
        ),
        _ => panic!("expected a list"),
    }
    match process_control(
        &mut manager,
        ControlMessage::ClearRequest { force: true },
        9,
        &healthy,
    ) {
        Some(ControlMessage::ClearResponse { cleared }) => assert_eq!(2, cleared.len()),
        _ => panic!("expected a list"),
    }
    assert!(pids(&manager).is_empty());
    assert_eq!(
        None,
        process_control(
            &mut manager,
            ControlMessage::PinResponse { found: true },
            9,
            &healthy
        )
    );
}
