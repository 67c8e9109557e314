use rad::client::{
    clear_reply, control_request, editor_bytes, format_cleared, format_duration_secs,
    format_instance_status, format_pinned_status, format_status, pin_reply, status_reply, Options, Reply,
};
use rad::config::{Mode, RadConfig};
use rad::error::Error;
use rad::protocol::{
    ClearedInstance, ControlMessage, InstanceStatus, LspFrame, RadMessage, ServerStatus,
};

#[test]
fn formats_empty_status() {
    let status = ServerStatus {
        instances: Vec::new(),
    };

    assert_eq!("no lsp instances\n", format_status(status));
}

#[test]
fn formats_status_by_workspace() {
    let status = ServerStatus {
        instances: vec![
            InstanceStatus {
                workspace: "file:///z".to_string(),
                pid: 20,
                client_count: 2,
                idle_secs: 75,
                healthy: false,
            },
            InstanceStatus {
                workspace: "file:///a".to_string(),
                pid: 10,
                client_count: 1,
                idle_secs: 5,
                healthy: true,
            },
        ],
    };

    let expected = [
        "workspace: file:///a\n",
        "  pid:      10\n",
        "  clients:  1\n",
        "  idle:     5s\n",
        "  healthy:  yes\n",
        "\n",
        "workspace: file:///z\n",
        "  pid:      20\n",
        "  clients:  2\n",
        "  idle:     1m 15s\n",
        "  healthy:  no\n",
    ]
    .concat();
    assert_eq!(expected, format_status(status));
}

#[test]
fn formats_duration_secs() {
    assert_eq!("0s", format_duration_secs(-1));
    assert_eq!("59s", format_duration_secs(59));
    assert_eq!("1m 0s", format_duration_secs(60));
    assert_eq!("1h 1m", format_duration_secs(3661));
}

fn instance(workspace: &str, pid: u32, client_count: usize) -> InstanceStatus {
    InstanceStatus {
        workspace: workspace.to_string(),
        pid,
        client_count,
        idle_secs: 0,
        healthy: true,
    }
}

fn pids_shown(instances: Vec<InstanceStatus>) -> Vec<String> {
    format_status(ServerStatus { instances })
        .lines()
        .filter_map(|line| line.strip_prefix("  pid:      "))
        .map(|pid| pid.to_string())
        .collect()
}

#[test]
fn status_is_shown_by_workspace_then_by_pid() {
    let shown = pids_shown(vec![
        instance("file:///b", 3, 0),
        instance("file:///a", 11, 0),
        instance("file:///ab", 5, 0),
        instance("file:///a", 2, 0),
    ]);
    assert_eq!(vec!["2", "11", "5", "3"], shown);
}

#[test]
fn status_sorts_by_bytes_of_the_text() {
    // U+FF5E encodes to a smaller first byte than U+10000.
    let shown = pids_shown(vec![
        instance("\u{10000}", 1, 0),
        instance("\u{ff5e}", 2, 0),
        instance("Z", 3, 0),
        instance("a", 4, 0),
        instance("", 5, 0),
    ]);
    assert_eq!(vec!["5", "3", "4", "2", "1"], shown);
}

#[test]
fn status_keeps_order_of_equals() {
    let text = format_status(ServerStatus {
        instances: vec![
            instance("w", 1, 7),
            instance("v", 1, 0),
            instance("w", 1, 3),
        ],
    });
    let clients: Vec<&str> = text
        .lines()
        .filter_map(|line| line.strip_prefix("  clients:  "))
        .collect();
    assert_eq!(vec!["0", "7", "3"], clients);
}

#[test]
fn status_does_not_depend_on_the_order_it_is_told_in() {
    let one = vec![
        instance("c", 1, 1),
        instance("a", 2, 2),
        instance("b", 3, 3),
    ];
    let other = vec![
        instance("b", 3, 3),
        instance("c", 1, 1),
        instance("a", 2, 2),
    ];
    assert_eq!(
        format_status(ServerStatus { instances: one }),
        format_status(ServerStatus { instances: other })
    );
}

#[test]
fn instance_is_written_out_in_full() {
    let status = InstanceStatus {
        workspace: "/w".to_string(),
        pid: u32::MAX,
        client_count: usize::MAX,
        idle_secs: i64::MAX,
        healthy: true,
    };
    assert_eq!(
        format!(
            "workspace: /w\n  pid:      4294967295\n  clients:  {}\n  idle:     2562047788015215h 30m\n  healthy:  yes\n",
            usize::MAX
        ),
        format_instance_status(&status, None)
    );
}

#[test]
fn status_shows_pins_as_in_the_manual() {
    let status = ServerStatus {
        instances: vec![
            InstanceStatus {
                workspace: "file:///home/user/rad".to_string(),
                pid: 67890,
                client_count: 0,
                idle_secs: 330,
                healthy: true,
            },
            InstanceStatus {
                workspace: "file:///home/user/greptimedb".to_string(),
                pid: 12345,
                client_count: 2,
                idle_secs: 75,
                healthy: true,
            },
        ],
    };
    let expected = [
        "workspace: file:///home/user/greptimedb\n",
        "  pid:      12345\n",
        "  clients:  2\n",
        "  idle:     1m 15s\n",
        "  pinned:   yes\n",
        "  healthy:  yes\n",
        "\n",
        "workspace: file:///home/user/rad\n",
        "  pid:      67890\n",
        "  clients:  0\n",
        "  idle:     5m 30s\n",
        "  pinned:   no\n",
        "  healthy:  yes\n",
    ]
    .concat();
    let reply = Reply::Control {
        message: ControlMessage::StatusResponse {
            status: status.clone(),
            pins: vec![false, true],
        },
    };
    assert_eq!(expected, status_reply(reply).unwrap());
    assert_eq!(expected, format_pinned_status(status, &vec![false, true]));
}

#[test]
fn durations_at_the_edges() {
    assert_eq!("0s", format_duration_secs(0));
    assert_eq!("0s", format_duration_secs(i64::MIN));
    assert_eq!("59m 59s", format_duration_secs(3599));
    assert_eq!("1h 0m", format_duration_secs(3600));
    assert_eq!("1m 15s", format_duration_secs(75));
    assert_eq!("5m 30s", format_duration_secs(330));
    assert_eq!("100h 59m", format_duration_secs(363_599));
}

#[test]
fn client_looks_for_the_daemon_where_it_listens_by_default() {
    assert_eq!("127.0.0.1:27631", Options::default().server_addr);
    assert_eq!(
        RadConfig::default().listen_addr(),
        Options::default().server_addr
    );
}

#[test]
fn commands_become_requests() {
    assert_eq!(None, control_request(&Mode::Server));
    assert_eq!(None, control_request(&Mode::Client));
    assert_eq!(
        Some(ControlMessage::StatusRequest),
        control_request(&Mode::Status)
    );
    assert_eq!(
        Some(ControlMessage::ClearRequest { force: true }),
        control_request(&Mode::Clean { force: true })
    );
    assert_eq!(
        Some(ControlMessage::PinRequest {
            pid: 12345,
            pinned: true
        }),
        control_request(&Mode::Pin {
            pid: 12345,
            remove: false
        })
    );
    assert_eq!(
        Some(ControlMessage::PinRequest {
            pid: 12345,
            pinned: false
        }),
        control_request(&Mode::Pin {
            pid: 12345,
            remove: true
        })
    );
}

fn complaint(result: Result<String, Error>) -> String {
    match result {
        Ok(text) => panic!("expected an error, got {text}"),
        Err(error) => error.message(),
    }
}

fn control(message: ControlMessage) -> Reply {
    Reply::Control { message }
}

#[test]
fn status_reply_is_shown_or_complained_about() {
    let empty = control(ControlMessage::StatusResponse {
        status: ServerStatus {
            instances: Vec::new(),
        },
        pins: Vec::new(),
    });
    assert_eq!("no lsp instances\n", status_reply(empty).unwrap());
    assert_eq!(
        "rad server closed connection before status response",
        complaint(status_reply(Reply::Closed))
    );
    assert_eq!(
        "unexpected lsp message from rad server",
        complaint(status_reply(Reply::Lsp))
    );
    assert_eq!(
        "unexpected status request from rad server",
        complaint(status_reply(control(ControlMessage::StatusRequest)))
    );
    assert_eq!(
        "no such thing",
        complaint(status_reply(control(ControlMessage::Error {
            message: "no such thing".to_string()
        })))
    );
    assert_eq!(
        "unexpected control message from rad server",
        complaint(status_reply(control(ControlMessage::PinResponse {
            found: true
        })))
    );
}

#[test]
fn cleared_instances_are_listed() {
    let reply = control(ControlMessage::ClearResponse {
        cleared: vec![
            ClearedInstance {
                workspace: "file:///home/user/rad".to_string(),
                pid: 67890,
            },
            ClearedInstance {
                workspace: "/w".to_string(),
                pid: 1,
            },
        ],
    });
    assert_eq!(
        "file:///home/user/rad (pid: 67890)\n/w (pid: 1)\n",
        clear_reply(reply).unwrap()
    );
    assert_eq!("", format_cleared(&Vec::new()));
    assert_eq!(
        "rad server closed connection before clear response",
        complaint(clear_reply(Reply::Closed))
    );
}

#[test]
fn pin_tells_only_of_a_missing_instance() {
    assert_eq!(
        "",
        pin_reply(7, control(ControlMessage::PinResponse { found: true })).unwrap()
    );
    assert_eq!(
        "no lsp instance with pid 7",
        complaint(pin_reply(
            7,
            control(ControlMessage::PinResponse { found: false })
        ))
    );
    assert_eq!(
        "rad server closed connection before pin response",
        complaint(pin_reply(7, Reply::Closed))
    );
}

#[test]
fn editor_gets_messages_and_no_control() {
    let frame = LspFrame::from_json_bytes(b"{\"method\":\"x\"}").unwrap();
    assert_eq!(
        Some(b"Content-Length: 14\r\n\r\n{\"method\":\"x\"}".to_vec()),
        editor_bytes(&RadMessage::lsp(frame)).unwrap()
    );
    assert_eq!(
        None,
        editor_bytes(&RadMessage::control(ControlMessage::StatusRequest)).unwrap()
    );
}
