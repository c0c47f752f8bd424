use can_bridge::binary_message::DaemonBinaryResponse;
use can_bridge::discovery_stub::StubDiscovery;
use can_bridge::frame::{frame_event_to_daemon_binary, frame_event_to_json_response, Direction, FrameEvent};
use can_bridge::hex::{bytes_to_hex_lower, parse_hex};
use can_bridge::ports::{DiscoveryPort, FrameToSend};
use can_bridge::protocol::{ClientRequest, ServerResponse};
use can_bridge::service::{
    frame_data_to_send, handle_request, list_ifaces_response, send_frame_response, ServiceStep,
};
use can_bridge::subscription::{
    clear_subscription_set, should_send_frame, update_subscription_set, Subscriptions,
};

struct FailingDiscovery;

impl DiscoveryPort for FailingDiscovery {
    fn list_can_ifaces(&self) -> Result<Vec<String>, String> {
        Err("netlink down".to_string())
    }
}

fn answer(step: ServiceStep) -> ServerResponse {
    match step {
        ServiceStep::Answer(r) => r,
        ServiceStep::Transmit(f) => panic!("unexpected transmission {:?}", f),
    }
}

fn planned(step: ServiceStep) -> FrameToSend {
    match step {
        ServiceStep::Transmit(f) => f,
        ServiceStep::Answer(r) => panic!("unexpected answer {:?}", r),
    }
}

fn refusal(step: ServiceStep) -> String {
    match answer(step) {
        ServerResponse::SendAck { ok: false, error_message: Some(m) } => m,
        other => panic!("unexpected {:?}", other),
    }
}

fn frame(iface: &str, data: Vec<u8>) -> FrameEvent {
    FrameEvent { ts_ms: 99, iface: iface.to_string(), dir: Direction::Rx, id: 0x123, is_fd: false, data }
}

#[test]
fn hex_text_is_lower_case_two_digits_per_byte() {
    assert_eq!(bytes_to_hex_lower(&[0xde, 0xad, 0xbe, 0xef]), "deadbeef");
    assert_eq!(bytes_to_hex_lower(&[0x00, 0x0f, 0xa0]), "000fa0");
    assert_eq!(bytes_to_hex_lower(&[]), "");
}

#[test]
fn hex_text_reads_back() {
    let all: Vec<u8> = (0u8..=255).collect();
    assert_eq!(parse_hex(&bytes_to_hex_lower(&all)), Some(all));
    assert_eq!(parse_hex("DEADbeef"), Some(vec![0xde, 0xad, 0xbe, 0xef]));
    assert_eq!(parse_hex(""), Some(vec![]));
    assert_eq!(parse_hex("abc"), None);
    assert_eq!(parse_hex("zz"), None);
    assert_eq!(parse_hex("0é"), None);
}

#[test]
fn frame_events_in_both_modes() {
    let ev = FrameEvent { ts_ms: 5, iface: "can0".into(), dir: Direction::Tx, id: 7, is_fd: true, data: vec![1, 0xab] };
    match frame_event_to_daemon_binary(ev.clone()) {
        DaemonBinaryResponse::FrameEvent { ts_ms, iface, dir, id, is_fd, data } => {
            assert_eq!((ts_ms, iface.as_str(), dir.as_str(), id, is_fd, data), (5, "can0", "tx", 7, true, vec![1, 0xab]));
        }
        other => panic!("unexpected {:?}", other),
    }
    match frame_event_to_json_response(frame("vcan0", vec![0xde, 0xad])) {
        ServerResponse::Frame { ts_ms, iface, dir, id, is_fd, data_hex } => {
            assert_eq!((ts_ms, iface.as_str(), dir.as_str(), id, is_fd, data_hex.as_str()), (99, "vcan0", "rx", 0x123, false, "dead"));
        }
        other => panic!("unexpected {:?}", other),
    }
}

#[test]
fn stub_discovery_lists_vcan0_then_can0() {
    let stub = StubDiscovery::new();
    assert_eq!(stub.list_can_ifaces().unwrap(), vec!["vcan0".to_string(), "can0".to_string()]);
}

#[test]
fn service_answers() {
    let stub = StubDiscovery::new();
    assert!(matches!(answer(handle_request(&stub, ClientRequest::Ping { id: 42 })), ServerResponse::Pong { id: 42 }));
    match answer(handle_request(&stub, ClientRequest::ListIfaces)) {
        ServerResponse::Ifaces { items } => assert_eq!(items, vec!["vcan0", "can0"]),
        other => panic!("unexpected {:?}", other),
    }
    match answer(handle_request(&FailingDiscovery, ClientRequest::ListIfaces)) {
        ServerResponse::Error { message } => assert_eq!(message, "list_ifaces failed: netlink down"),
        other => panic!("unexpected {:?}", other),
    }
    match answer(handle_request(&stub, ClientRequest::ClientHello { client: "c".into(), protocol: "json".into() })) {
        ServerResponse::Error { message } => assert_eq!(message, "hello_ack is handled by transport layer"),
        other => panic!("unexpected {:?}", other),
    }
    for req in [ClientRequest::Subscribe { ifaces: vec!["can0".into()] }, ClientRequest::Unsubscribe] {
        match answer(handle_request(&stub, req)) {
            ServerResponse::Error { message } => assert_eq!(message, "subscribe/unsubscribe are handled by transport layer"),
            other => panic!("unexpected {:?}", other),
        }
    }
}

#[test]
fn service_plans_frames_exactly_as_asked() {
    let stub = StubDiscovery::new();
    let req = ClientRequest::SendFrame { iface: "can0".into(), id: 801, is_fd: false, brs: false, esi: false, data_hex: "deadbeef".into() };
    let f = planned(handle_request(&stub, req));
    assert_eq!((f.iface.as_str(), f.id, f.is_fd, f.brs, f.esi), ("can0", 801, false, false, false));
    assert_eq!(f.data, vec![0xde, 0xad, 0xbe, 0xef]);

    // bit-rate switch and error state stay where they were asked
    let req = ClientRequest::SendFrame { iface: "can9".into(), id: 7, is_fd: true, brs: true, esi: false, data_hex: "01".into() };
    let f = planned(handle_request(&stub, req));
    assert_eq!((f.iface.as_str(), f.id, f.is_fd, f.brs, f.esi, f.data), ("can9", 7, true, true, false, vec![1]));
    let req = ClientRequest::SendFrame { iface: "can9".into(), id: 7, is_fd: true, brs: false, esi: true, data_hex: "".into() };
    let f = planned(handle_request(&stub, req));
    assert_eq!((f.brs, f.esi, f.data), (false, true, vec![]));
}

#[test]
fn service_refuses_bad_frames() {
    let stub = StubDiscovery::new();
    let bad_hex = ClientRequest::SendFrame { iface: "can0".into(), id: 1, is_fd: false, brs: false, esi: false, data_hex: "xyz".into() };
    assert_eq!(refusal(handle_request(&stub, bad_hex)), "invalid hex");
    let nine = ClientRequest::SendFrame { iface: "can0".into(), id: 1, is_fd: false, brs: false, esi: false, data_hex: "00".repeat(9) };
    assert_eq!(refusal(handle_request(&stub, nine)), "data too long for frame");
    let eight = ClientRequest::SendFrame { iface: "can0".into(), id: 1, is_fd: false, brs: false, esi: false, data_hex: "00".repeat(8) };
    assert_eq!(planned(handle_request(&stub, eight)).data.len(), 8);
    let fd64 = ClientRequest::SendFrame { iface: "can0".into(), id: 1, is_fd: true, brs: false, esi: false, data_hex: "00".repeat(64) };
    assert_eq!(planned(handle_request(&stub, fd64)).data.len(), 64);
    let fd65 = ClientRequest::SendFrame { iface: "can0".into(), id: 1, is_fd: true, brs: false, esi: false, data_hex: "00".repeat(65) };
    assert_eq!(refusal(handle_request(&stub, fd65)), "data too long for frame");
}

#[test]
fn frame_data_is_read_from_hex() {
    assert_eq!(frame_data_to_send(false, "0aFF").unwrap(), vec![0x0a, 0xff]);
    assert!(matches!(frame_data_to_send(false, "0"), Err(ServerResponse::SendAck { ok: false, .. })));
    assert!(matches!(frame_data_to_send(false, &"ab".repeat(9)), Err(ServerResponse::SendAck { ok: false, .. })));
    assert_eq!(frame_data_to_send(true, &"ab".repeat(9)).unwrap().len(), 9);
}

#[test]
fn listing_and_send_answers() {
    match list_ifaces_response(Ok(vec!["can1".into()])) {
        ServerResponse::Ifaces { items } => assert_eq!(items, vec!["can1"]),
        other => panic!("unexpected {:?}", other),
    }
    match list_ifaces_response(Err("x".into())) {
        ServerResponse::Error { message } => assert_eq!(message, "list_ifaces failed: x"),
        other => panic!("unexpected {:?}", other),
    }
    assert!(matches!(send_frame_response(Ok(())), ServerResponse::SendAck { ok: true, error_message: None }));
    match send_frame_response(Err("busy".into())) {
        ServerResponse::SendAck { ok: false, error_message: Some(m) } => assert_eq!(m, "busy"),
        other => panic!("unexpected {:?}", other),
    }
}

#[test]
fn subscriptions_filter_frames() {
    let mut subs = Subscriptions::new();
    assert!(!should_send_frame(&subs, &frame("can0", vec![])));
    update_subscription_set(&mut subs, vec!["can0".into(), "vcan0".into()]);
    assert!(should_send_frame(&subs, &frame("can0", vec![])));
    assert!(should_send_frame(&subs, &frame("vcan0", vec![])));
    assert!(!should_send_frame(&subs, &frame("can1", vec![])));
    update_subscription_set(&mut subs, vec!["can1".into()]);
    assert!(!should_send_frame(&subs, &frame("can0", vec![])));
    assert!(should_send_frame(&subs, &frame("can1", vec![])));
    clear_subscription_set(&mut subs);
    assert!(!should_send_frame(&subs, &frame("can1", vec![])));
}
