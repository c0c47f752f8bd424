use can_bridge::binary_message::{encode_client, ClientBinaryRequest, DaemonBinaryResponse};
use can_bridge::discovery_stub::StubDiscovery;
use can_bridge::format::WireError;
use can_bridge::json_session::{line_request_text, request_text, JsonSession};
use can_bridge::ports::FrameToSend;
use can_bridge::protocol::{ClientRequest, ServerResponse};
use can_bridge::session::{
    choose_tcp_mode, client_request_text, listing_reply, response_text_string, send_reply,
    BinarySession, Phase, Step, TcpMode, Transport,
};
use can_bridge::subscription::Subscriptions;

fn hello() -> ClientBinaryRequest {
    ClientBinaryRequest::ClientHello { client: "test".into(), protocol: "binary".into() }
}

fn reply<R: std::fmt::Debug>(step: Step<R>) -> R {
    match step {
        Step::Reply(r) => r,
        _ => panic!("expected a reply"),
    }
}

fn transmitted<R>(step: Step<R>) -> FrameToSend {
    match step {
        Step::Transmit(f) => f,
        _ => panic!("expected a frame to transmit"),
    }
}

/// A header for a payload of `len` bytes of the given type.
fn header(msg_type: u16, len: u32) -> Vec<u8> {
    let mut h = b"CBD1".to_vec();
    h.extend_from_slice(&msg_type.to_le_bytes());
    h.extend_from_slice(&0u16.to_le_bytes());
    h.extend_from_slice(&len.to_le_bytes());
    h
}

fn ready_tcp_session(subs: &mut Subscriptions) -> BinarySession {
    let mut s = BinarySession::new(Transport::Tcp);
    s.feed(&encode_client(&hello()).unwrap());
    let req = s.next_request().unwrap().unwrap();
    let _ = reply(s.on_request(req, subs, &StubDiscovery::new()));
    s
}

#[test]
fn tcp_mode_is_chosen_by_magic() {
    assert_eq!(choose_tcp_mode(b"CBD1"), TcpMode::Binary);
    assert_eq!(choose_tcp_mode(b"{\"ty"), TcpMode::JsonLines);
    assert_eq!(choose_tcp_mode(b"CBD"), TcpMode::JsonLines);
    assert_eq!(choose_tcp_mode(b""), TcpMode::JsonLines);
}

#[test]
fn tcp_binary_session_answers_hello_then_serves() {
    let mut s = BinarySession::new(Transport::Tcp);
    let mut subs = Subscriptions::new();
    let d = StubDiscovery::new();
    // the hello arrives split in two reads; nothing is said before it is whole
    let bytes = encode_client(&hello()).unwrap();
    s.feed(&bytes[..5]);
    assert!(s.next_request().unwrap().is_none());
    s.feed(&bytes[5..]);
    let req = s.next_request().unwrap().unwrap();
    match reply(s.on_request(req, &mut subs, &d)) {
        DaemonBinaryResponse::HelloAck { version, server_name, features } => {
            assert_eq!(version, "1.0");
            assert_eq!(server_name, "can-bridge-daemon");
            assert_eq!(features, vec!["tcp", "binary", "jsonl"]);
        }
        other => panic!("unexpected {:?}", other),
    }
    assert_eq!(s.phase(), Phase::Ready);

    // two requests in one read
    let mut more = encode_client(&ClientBinaryRequest::Ping { id: 9 }).unwrap();
    more.extend(encode_client(&ClientBinaryRequest::ListIfaces).unwrap());
    s.feed(&more);
    let r1 = s.next_request().unwrap().unwrap();
    assert!(matches!(reply(s.on_request(r1, &mut subs, &d)), DaemonBinaryResponse::Pong { id: 9 }));
    let r2 = s.next_request().unwrap().unwrap();
    match reply(s.on_request(r2, &mut subs, &d)) {
        DaemonBinaryResponse::Ifaces { items } => assert_eq!(items, vec!["vcan0", "can0"]),
        other => panic!("unexpected {:?}", other),
    }
    assert!(s.next_request().unwrap().is_none());

    let sub = ClientBinaryRequest::Subscribe { ifaces: vec!["can0".into()] };
    match reply(s.on_request(sub, &mut subs, &d)) {
        DaemonBinaryResponse::Subscribed { ifaces } => assert_eq!(ifaces, vec!["can0"]),
        other => panic!("unexpected {:?}", other),
    }
    assert!(subs.contains(&"can0".to_string()));
    assert!(matches!(reply(s.on_request(ClientBinaryRequest::Unsubscribe, &mut subs, &d)), DaemonBinaryResponse::Unsubscribed));
    assert!(!subs.contains(&"can0".to_string()));

    match reply(s.on_request(hello(), &mut subs, &d)) {
        DaemonBinaryResponse::Error { message } => assert_eq!(message, "client_hello already completed"),
        other => panic!("unexpected {:?}", other),
    }
}

#[test]
fn binary_frame_request_is_planned_then_acknowledged() {
    let mut subs = Subscriptions::new();
    let mut s = ready_tcp_session(&mut subs);
    let d = StubDiscovery::new();
    let send = ClientBinaryRequest::SendFrame { iface: "can0".into(), id: 0x123, is_fd: true, brs: true, esi: false, data: vec![1, 2] };
    let f = transmitted(s.on_request(send, &mut subs, &d));
    assert_eq!((f.iface.as_str(), f.id, f.is_fd, f.brs, f.esi, f.data), ("can0", 0x123, true, true, false, vec![1, 2]));
    match s.transmitted(Err("tx unavailable".to_string())) {
        DaemonBinaryResponse::SendAck { ok, error_message } => {
            assert!(!ok);
            assert_eq!(error_message.as_deref(), Some("tx unavailable"));
        }
        other => panic!("unexpected {:?}", other),
    }
    assert!(matches!(s.transmitted(Ok(())), DaemonBinaryResponse::SendAck { ok: true, error_message: None }));

    let nine = ClientBinaryRequest::SendFrame { iface: "can0".into(), id: 1, is_fd: false, brs: false, esi: false, data: vec![0; 9] };
    match reply(s.on_request(nine, &mut subs, &d)) {
        DaemonBinaryResponse::SendAck { ok: false, error_message } => assert_eq!(error_message.as_deref(), Some("data too long for frame")),
        other => panic!("unexpected {:?}", other),
    }
}

#[test]
fn unknown_message_type_is_answered_and_session_goes_on() {
    let mut subs = Subscriptions::new();
    let mut s = ready_tcp_session(&mut subs);
    let mut bytes = header(999, 0);
    bytes.extend(encode_client(&ClientBinaryRequest::Ping { id: 1 }).unwrap());
    s.feed(&bytes);
    let e = s.next_request().unwrap_err();
    assert_eq!(e, WireError::UnknownMsgType { value: 999 });
    match reply(s.on_decode_error(e)) {
        DaemonBinaryResponse::Error { message } => assert_eq!(message, "unknown msg_type: 999"),
        other => panic!("unexpected {:?}", other),
    }
    assert_eq!(s.phase(), Phase::Ready);
    let ping = s.next_request().unwrap().unwrap();
    assert!(matches!(reply(s.on_request(ping, &mut subs, &StubDiscovery::new())), DaemonBinaryResponse::Pong { id: 1 }));
    assert!(s.next_request().unwrap().is_none());
}

#[test]
fn unknown_type_with_payload_is_skipped_whole() {
    let mut subs = Subscriptions::new();
    let mut s = ready_tcp_session(&mut subs);
    let mut bytes = header(500, 3);
    bytes.extend([0xaa, 0xbb, 0xcc]);
    bytes.extend(encode_client(&ClientBinaryRequest::Unsubscribe).unwrap());
    s.feed(&bytes);
    assert_eq!(s.next_request().unwrap_err(), WireError::UnknownMsgType { value: 500 });
    assert!(matches!(s.next_request().unwrap(), Some(ClientBinaryRequest::Unsubscribe)));
}

#[test]
fn reads_split_anywhere_decode_alike() {
    let stream: Vec<u8> = [
        encode_client(&hello()).unwrap(),
        encode_client(&ClientBinaryRequest::Ping { id: 5 }).unwrap(),
        encode_client(&ClientBinaryRequest::Subscribe { ifaces: vec!["can0".into(), "vcan0".into()] }).unwrap(),
    ]
    .concat();
    for cut in 0..=stream.len() {
        let mut s = BinarySession::new(Transport::Tcp);
        let mut seen = Vec::new();
        for part in [&stream[..cut], &stream[cut..]] {
            s.feed(part);
            while let Some(req) = s.next_request().unwrap() {
                seen.push(client_request_text(&req));
            }
        }
        assert_eq!(
            seen,
            vec![
                "ClientHello { client: \"test\", protocol: \"binary\" }",
                "Ping { id: 5 }",
                "Subscribe { ifaces: [\"can0\", \"vcan0\"] }",
            ]
        );
    }
}

#[test]
fn binary_session_refuses_requests_before_hello() {
    let mut s = BinarySession::new(Transport::Tcp);
    let mut subs = Subscriptions::new();
    match s.on_request(ClientBinaryRequest::Ping { id: 1 }, &mut subs, &StubDiscovery::new()) {
        Step::ReplyAndClose(DaemonBinaryResponse::Error { message }) => {
            assert_eq!(message, "expected client_hello, got Ping { id: 1 }")
        }
        _ => panic!("expected refusal"),
    }
    assert_eq!(s.phase(), Phase::Closed);
    assert!(matches!(s.on_request(hello(), &mut subs, &StubDiscovery::new()), Step::Close));
}

#[test]
fn ws_binary_session_answers_hello_with_greeting() {
    let mut subs = Subscriptions::new();
    let mut s = BinarySession::new(Transport::WebSocket);
    assert!(matches!(s.on_text(), Step::Fail));
    let mut s = BinarySession::new(Transport::WebSocket);
    match reply(s.on_request(hello(), &mut subs, &StubDiscovery::new())) {
        DaemonBinaryResponse::HelloAck { features, .. } => assert_eq!(features, vec!["ws", "binary", "json"]),
        other => panic!("unexpected {:?}", other),
    }
    match reply(s.on_text()) {
        DaemonBinaryResponse::Error { message } => assert_eq!(message, "unexpected Text in binary mode"),
        other => panic!("unexpected {:?}", other),
    }
    match reply(s.on_request(hello(), &mut subs, &StubDiscovery::new())) {
        DaemonBinaryResponse::Error { message } => assert_eq!(message, "ClientHello already completed"),
        other => panic!("unexpected {:?}", other),
    }
    let mut fresh = BinarySession::new(Transport::WebSocket);
    match fresh.on_request(ClientBinaryRequest::ListIfaces, &mut subs, &StubDiscovery::new()) {
        Step::ReplyAndClose(DaemonBinaryResponse::Error { message }) => assert_eq!(message, "expected ClientHello, got ListIfaces"),
        _ => panic!("expected refusal"),
    }
}

#[test]
fn binary_session_skips_garbage_to_the_next_magic() {
    let mut s = BinarySession::new(Transport::Tcp);
    s.feed(b"GARBAGE-BYTES");
    assert!(s.next_request().unwrap().is_none());
    assert_eq!(s.phase(), Phase::AwaitingHello);
    // garbage, then a whole hello: the hello is found
    let mut bytes = b"xxCBxxxxxxxxxxxxC".to_vec();
    bytes.extend(encode_client(&hello()).unwrap());
    s.feed(&bytes);
    assert!(matches!(s.next_request().unwrap(), Some(ClientBinaryRequest::ClientHello { .. })));
    assert!(s.next_request().unwrap().is_none());
}

#[test]
fn garbage_ending_in_a_partial_magic_waits() {
    let mut subs = Subscriptions::new();
    let mut s = ready_tcp_session(&mut subs);
    s.feed(b"0123456789abCB");
    assert!(s.next_request().unwrap().is_none());
    let ping = encode_client(&ClientBinaryRequest::Ping { id: 3 }).unwrap();
    // the rest of the magic and the packet arrive later
    s.feed(&ping[2..]);
    assert!(matches!(s.next_request().unwrap(), Some(ClientBinaryRequest::Ping { id: 3 })));
}

#[test]
fn payload_error_still_ends_the_session() {
    let mut subs = Subscriptions::new();
    let mut s = ready_tcp_session(&mut subs);
    s.feed(&header(102, 3));
    s.feed(&[1, 2, 3]);
    let e = s.next_request().unwrap_err();
    assert_eq!(e, WireError::Eof);
    assert!(matches!(s.on_decode_error(e), Step::Fail));
    assert_eq!(s.phase(), Phase::Closed);
}

#[test]
fn service_answers_map_onto_binary_replies() {
    match listing_reply(Transport::Tcp, ServerResponse::Ifaces { items: vec!["can0".into()] }) {
        DaemonBinaryResponse::Ifaces { items } => assert_eq!(items, vec!["can0"]),
        other => panic!("unexpected {:?}", other),
    }
    match listing_reply(Transport::Tcp, ServerResponse::Error { message: "list_ifaces failed: x".into() }) {
        DaemonBinaryResponse::Error { message } => assert_eq!(message, "list_ifaces failed: x"),
        other => panic!("unexpected {:?}", other),
    }
    match listing_reply(Transport::Tcp, ServerResponse::Pong { id: 1 }) {
        DaemonBinaryResponse::Error { message } => assert_eq!(message, "unexpected response for list_ifaces: Pong { id: 1 }"),
        other => panic!("unexpected {:?}", other),
    }
    match listing_reply(Transport::WebSocket, ServerResponse::Unsubscribed) {
        DaemonBinaryResponse::Error { message } => assert_eq!(message, "unexpected list_ifaces response: Unsubscribed"),
        other => panic!("unexpected {:?}", other),
    }
    match send_reply(Transport::Tcp, ServerResponse::Error { message: "bad".into() }) {
        DaemonBinaryResponse::SendAck { ok: false, error_message } => assert_eq!(error_message.as_deref(), Some("bad")),
        other => panic!("unexpected {:?}", other),
    }
    assert!(matches!(send_reply(Transport::Tcp, ServerResponse::SendAck { ok: true, error_message: None }), DaemonBinaryResponse::SendAck { ok: true, error_message: None }));
    match send_reply(Transport::Tcp, ServerResponse::Unsubscribed) {
        DaemonBinaryResponse::Error { message } => assert_eq!(message, "unexpected response for send_frame: Unsubscribed"),
        other => panic!("unexpected {:?}", other),
    }
    match send_reply(Transport::WebSocket, ServerResponse::Ifaces { items: vec!["a\"b".into()] }) {
        DaemonBinaryResponse::Error { message } => assert_eq!(message, "unexpected send_frame response: Ifaces { items: [\"a\\\"b\"] }"),
        other => panic!("unexpected {:?}", other),
    }
}

/// Names that `Debug` writes with escapes of every kind.
fn awkward_names() -> Vec<String> {
    vec![
        "".into(),
        "can0".into(),
        "a\"b".into(),
        "back\\slash".into(),
        "tab\tnl\ncr\r".into(),
        "nul\0bell\u{7}esc\u{1b}del\u{7f}".into(),
        "it's".into(),
        "caf\u{e9}".into(),
        "e\u{301}".into(),
        "\u{301}start".into(),
        "nbsp\u{a0}zw\u{200b}".into(),
        "\u{65e5}\u{672c}".into(),
        "emoji\u{1f600}".into(),
        "\u{10ffff}".into(),
    ]
}

#[test]
fn request_texts_match_debug() {
    for name in awkward_names() {
        let reqs = vec![
            ClientBinaryRequest::ClientHello { client: name.clone(), protocol: "binary".into() },
            ClientBinaryRequest::Subscribe { ifaces: vec![name.clone(), "vcan0".into()] },
            ClientBinaryRequest::SendFrame { iface: name.clone(), id: 7, is_fd: true, brs: false, esi: true, data: vec![0, 9, 255] },
            ClientBinaryRequest::Ping { id: u64::MAX },
            ClientBinaryRequest::ListIfaces,
            ClientBinaryRequest::Unsubscribe,
        ];
        for req in reqs {
            assert_eq!(client_request_text(&req), format!("{:?}", req));
        }
        let json = vec![
            ClientRequest::ClientHello { client: name.clone(), protocol: "json".into() },
            ClientRequest::Subscribe { ifaces: vec![name.clone()] },
            ClientRequest::SendFrame { iface: "can0".into(), id: 1, is_fd: false, brs: true, esi: false, data_hex: name.clone() },
            ClientRequest::Ping { id: 0 },
        ];
        for req in json {
            assert_eq!(request_text(&req), format!("{:?}", req));
        }
        let responses = vec![
            ServerResponse::HelloAck { version: name.clone(), features: vec![name.clone()], server_name: "d".into() },
            ServerResponse::Pong { id: 12 },
            ServerResponse::Ifaces { items: vec![] },
            ServerResponse::Subscribed { ifaces: vec![name.clone(), name.clone()] },
            ServerResponse::Unsubscribed,
            ServerResponse::SendAck { ok: false, error_message: Some(name.clone()) },
            ServerResponse::SendAck { ok: true, error_message: None },
            ServerResponse::Frame { ts_ms: 5, iface: name.clone(), dir: "rx".into(), id: 9, is_fd: true, data_hex: "00".into() },
            ServerResponse::Error { message: name.clone() },
        ];
        for r in responses {
            assert_eq!(response_text_string(&r), format!("{:?}", r));
        }
    }
}

#[test]
fn rejected_hello_names_the_request_as_debug_does() {
    let mut subs = Subscriptions::new();
    let mut s = BinarySession::new(Transport::Tcp);
    let req = ClientBinaryRequest::Subscribe { ifaces: vec!["a\"b".into()] };
    match s.on_request(req, &mut subs, &StubDiscovery::new()) {
        Step::ReplyAndClose(DaemonBinaryResponse::Error { message }) => {
            assert_eq!(message, "expected client_hello, got Subscribe { ifaces: [\"a\\\"b\"] }")
        }
        _ => panic!("expected refusal"),
    }
    let mut j = JsonSession::new(Transport::WebSocket);
    let req = ClientRequest::Subscribe { ifaces: vec!["a\\b".into()] };
    match j.on_message(Ok(req), &mut subs, &StubDiscovery::new()) {
        Step::ReplyAndClose(ServerResponse::Error { message }) => {
            assert_eq!(message, "expected client_hello, got: Subscribe { ifaces: [\"a\\\\b\"] }")
        }
        _ => panic!("expected refusal"),
    }
}

#[test]
fn blank_json_lines_hold_no_request() {
    assert_eq!(line_request_text(""), None);
    assert_eq!(line_request_text("   \t \r"), None);
    assert_eq!(line_request_text("\u{a0}\u{3000}"), None);
    assert_eq!(line_request_text("  {\"type\":\"ping\",\"id\":4} \r"), Some("{\"type\":\"ping\",\"id\":4}"));
    assert_eq!(line_request_text("{bad"), Some("{bad"));
    assert_eq!(line_request_text(" a b "), Some("a b"));
    for line in ["", " x ", "\u{2003}y\u{2029}", "\u{200b}", "z"] {
        assert_eq!(line_request_text(line), if line.trim().is_empty() { None } else { Some(line.trim()) });
    }
}

#[test]
fn requests_render_for_error_messages() {
    let send = ClientBinaryRequest::SendFrame { iface: "can0".into(), id: 801, is_fd: false, brs: true, esi: false, data: vec![0, 255] };
    assert_eq!(client_request_text(&send), "SendFrame { iface: \"can0\", id: 801, is_fd: false, brs: true, esi: false, data: [0, 255] }");
    assert_eq!(client_request_text(&ClientBinaryRequest::Unsubscribe), "Unsubscribe");
    let json = ClientRequest::SendFrame { iface: "vcan1".into(), id: 1, is_fd: true, brs: false, esi: true, data_hex: "ff".into() };
    assert_eq!(request_text(&json), "SendFrame { iface: \"vcan1\", id: 1, is_fd: true, brs: false, esi: true, data_hex: \"ff\" }");
    assert_eq!(request_text(&ClientRequest::Subscribe { ifaces: vec![] }), "Subscribe { ifaces: [] }");
}

#[test]
fn tcp_json_session_answers_hello_then_serves() {
    let d = StubDiscovery::new();
    let mut subs = Subscriptions::new();
    let mut s = JsonSession::new(Transport::Tcp);
    let hello = ClientRequest::ClientHello { client: "py".into(), protocol: "json".into() };
    match reply(s.on_message(Ok(hello.clone()), &mut subs, &d)) {
        ServerResponse::HelloAck { version, features, server_name } => {
            assert_eq!(version, "1.0");
            assert_eq!(features, vec!["tcp", "jsonl", "binary"]);
            assert_eq!(server_name, "can-bridge-daemon");
        }
        other => panic!("unexpected {:?}", other),
    }
    assert!(matches!(reply(s.on_message(Ok(ClientRequest::Ping { id: 3 }), &mut subs, &d)), ServerResponse::Pong { id: 3 }));
    match reply(s.on_message(Err("expected value at line 1".into()), &mut subs, &d)) {
        ServerResponse::Error { message } => assert_eq!(message, "invalid json: expected value at line 1"),
        other => panic!("unexpected {:?}", other),
    }
    match reply(s.on_message(Ok(ClientRequest::Subscribe { ifaces: vec!["vcan0".into()] }), &mut subs, &d)) {
        ServerResponse::Subscribed { ifaces } => assert_eq!(ifaces, vec!["vcan0"]),
        other => panic!("unexpected {:?}", other),
    }
    assert!(subs.contains(&"vcan0".to_string()));
    assert!(matches!(reply(s.on_message(Ok(ClientRequest::Unsubscribe), &mut subs, &d)), ServerResponse::Unsubscribed));
    match reply(s.on_message(Ok(hello), &mut subs, &d)) {
        ServerResponse::Error { message } => assert_eq!(message, "client_hello already completed"),
        other => panic!("unexpected {:?}", other),
    }
    let send = ClientRequest::SendFrame { iface: "can0".into(), id: 2, is_fd: false, brs: false, esi: true, data_hex: "0102".into() };
    let f = transmitted(s.on_message(Ok(send), &mut subs, &d));
    assert_eq!((f.iface.as_str(), f.id, f.is_fd, f.brs, f.esi, f.data), ("can0", 2, false, false, true, vec![1, 2]));
    match s.transmitted(Err("busy".into())) {
        ServerResponse::SendAck { ok: false, error_message } => assert_eq!(error_message.as_deref(), Some("busy")),
        other => panic!("unexpected {:?}", other),
    }
    let bad = ClientRequest::SendFrame { iface: "can0".into(), id: 2, is_fd: false, brs: false, esi: false, data_hex: "0g".into() };
    match reply(s.on_message(Ok(bad), &mut subs, &d)) {
        ServerResponse::SendAck { ok: false, error_message } => assert_eq!(error_message.as_deref(), Some("invalid hex")),
        other => panic!("unexpected {:?}", other),
    }
}

#[test]
fn tcp_json_session_handshake_failures() {
    let d = StubDiscovery::new();
    let mut subs = Subscriptions::new();
    let mut s = JsonSession::new(Transport::Tcp);
    assert!(matches!(s.on_message(Err("eof".into()), &mut subs, &d), Step::Fail));
    let mut s = JsonSession::new(Transport::Tcp);
    match s.on_message(Ok(ClientRequest::ListIfaces), &mut subs, &d) {
        Step::ReplyAndClose(ServerResponse::Error { message }) => assert_eq!(message, "expected client_hello, got ListIfaces"),
        _ => panic!("expected refusal"),
    }
    assert_eq!(s.phase(), Phase::Closed);
}

#[test]
fn ws_json_session_flow() {
    let d = StubDiscovery::new();
    let mut subs = Subscriptions::new();
    let mut s = JsonSession::new(Transport::WebSocket);
    match s.on_message(Err("trailing comma".into()), &mut subs, &d) {
        Step::ReplyAndClose(ServerResponse::Error { message }) => assert_eq!(message, "invalid client_hello json: trailing comma"),
        _ => panic!("expected refusal"),
    }
    let mut s = JsonSession::new(Transport::WebSocket);
    match s.on_message(Ok(ClientRequest::Ping { id: 1 }), &mut subs, &d) {
        Step::ReplyAndClose(ServerResponse::Error { message }) => assert_eq!(message, "expected client_hello, got: Ping { id: 1 }"),
        _ => panic!("expected refusal"),
    }
    let mut s = JsonSession::new(Transport::WebSocket);
    let hello = ClientRequest::ClientHello { client: "py-ws-test".into(), protocol: "json".into() };
    match reply(s.on_message(Ok(hello.clone()), &mut subs, &d)) {
        ServerResponse::HelloAck { version, features, server_name } => {
            assert_eq!(version, "0.9");
            assert_eq!(features, vec!["ws", "json", "stream"]);
            assert_eq!(server_name, "can-bridge-daemon");
        }
        other => panic!("unexpected {:?}", other),
    }
    match reply(s.on_message(Ok(hello), &mut subs, &d)) {
        ServerResponse::Error { message } => assert_eq!(message, "hello_ack is handled by transport layer"),
        other => panic!("unexpected {:?}", other),
    }
    match reply(s.on_message(Err("bad".into()), &mut subs, &d)) {
        ServerResponse::Error { message } => assert_eq!(message, "invalid json request: bad"),
        other => panic!("unexpected {:?}", other),
    }
    match reply(s.on_non_utf8()) {
        ServerResponse::Error { message } => assert_eq!(message, "binary message must be utf-8 json"),
        other => panic!("unexpected {:?}", other),
    }
    match reply(s.on_message(Ok(ClientRequest::ListIfaces), &mut subs, &d)) {
        ServerResponse::Ifaces { items } => assert_eq!(items, vec!["vcan0", "can0"]),
        other => panic!("unexpected {:?}", other),
    }
}
