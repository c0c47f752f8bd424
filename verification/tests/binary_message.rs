use can_bridge::binary_message::{
    decode_client_from, decode_daemon_from, encode_client, encode_daemon, ClientBinaryRequest,
    DaemonBinaryResponse, HEADER_LEN, MAGIC,
};
use can_bridge::format::{MsgType, WireError};

fn client_roundtrip(req: ClientBinaryRequest) -> ClientBinaryRequest {
    let bytes = encode_client(&req).unwrap();
    let (decoded, used) = decode_client_from(&bytes).unwrap().unwrap();
    assert_eq!(used, bytes.len());
    decoded
}

fn daemon_roundtrip(resp: DaemonBinaryResponse) -> DaemonBinaryResponse {
    let bytes = encode_daemon(&resp).unwrap();
    let (decoded, used) = decode_daemon_from(&bytes).unwrap().unwrap();
    assert_eq!(used, bytes.len());
    decoded
}

#[test]
fn msg_type_numbers() {
    assert_eq!(MsgType::from_u16(101), Ok(MsgType::ClientHello));
    assert_eq!(MsgType::from_u16(106), Ok(MsgType::SendFrame));
    assert_eq!(MsgType::from_u16(1), Ok(MsgType::HelloAck));
    assert_eq!(MsgType::from_u16(8), Ok(MsgType::Error));
    assert_eq!(MsgType::from_u16(9), Err(WireError::UnknownMsgType { value: 9 }));
    assert_eq!(MsgType::from_u16(0), Err(WireError::UnknownMsgType { value: 0 }));
    assert_eq!(MsgType::FrameEvent.to_u16(), 7);
    assert_eq!(MsgType::Unsubscribe.to_u16(), 105);
}

#[test]
fn ping_packet_bytes() {
    let bytes = encode_client(&ClientBinaryRequest::Ping { id: 0x1122334455667788 }).unwrap();
    assert_eq!(
        bytes,
        vec![
            0x43, 0x42, 0x44, 0x31, 0x66, 0x00, 0x00, 0x00, 0x08, 0x00, 0x00, 0x00, 0x88, 0x77,
            0x66, 0x55, 0x44, 0x33, 0x22, 0x11
        ]
    );
    assert_eq!(&bytes[0..4], &MAGIC);
    assert_eq!(HEADER_LEN, 12);
}

#[test]
fn subscribe_payload_bytes() {
    let req = ClientBinaryRequest::Subscribe { ifaces: vec!["can0".to_string(), "vcan0".to_string()] };
    let bytes = encode_client(&req).unwrap();
    assert_eq!(&bytes[4..12], &[104, 0, 0, 0, 15, 0, 0, 0]);
    assert_eq!(
        &bytes[12..],
        &[0x02, 0x00, 0x04, 0x00, 0x63, 0x61, 0x6e, 0x30, 0x05, 0x00, 0x76, 0x63, 0x61, 0x6e, 0x30]
    );
}

#[test]
fn send_frame_payload_bytes() {
    let req = ClientBinaryRequest::SendFrame {
        iface: "can0".to_string(),
        id: 0x18DAF110,
        is_fd: true,
        brs: true,
        esi: false,
        data: vec![0x02, 0x10, 0x03],
    };
    let bytes = encode_client(&req).unwrap();
    assert_eq!(&bytes[8..12], &[18, 0, 0, 0]);
    assert_eq!(
        &bytes[12..],
        &[
            0x04, 0x00, 0x63, 0x61, 0x6e, 0x30, 0x10, 0xF1, 0xDA, 0x18, 0x01, 0x01, 0x00, 0x03,
            0x00, 0x02, 0x10, 0x03
        ]
    );
}

#[test]
fn send_ack_payload_bytes() {
    let ok = encode_daemon(&DaemonBinaryResponse::SendAck { ok: true, error_message: None }).unwrap();
    assert_eq!(&ok[4..6], &[6, 0]);
    assert_eq!(&ok[12..], &[0x01, 0x00, 0x00]);
    let failed = encode_daemon(&DaemonBinaryResponse::SendAck {
        ok: false,
        error_message: Some("iface not found".to_string()),
    })
    .unwrap();
    assert_eq!(&failed[12..15], &[0x00, 0x0F, 0x00]);
    assert_eq!(&failed[15..], b"iface not found");
}

#[test]
fn every_client_request_roundtrips() {
    let cases = vec![
        ClientBinaryRequest::ClientHello { client: "tauri-ui".into(), protocol: "binary".into() },
        ClientBinaryRequest::Ping { id: 42 },
        ClientBinaryRequest::ListIfaces,
        ClientBinaryRequest::Subscribe { ifaces: vec!["can0".into(), "vcan0".into()] },
        ClientBinaryRequest::Subscribe { ifaces: vec![] },
        ClientBinaryRequest::Unsubscribe,
        ClientBinaryRequest::SendFrame {
            iface: "vcan0".into(),
            id: 0x123,
            is_fd: false,
            brs: false,
            esi: true,
            data: vec![0xde, 0xad, 0xbe, 0xef],
        },
    ];
    for case in cases {
        let back = client_roundtrip(case.clone());
        assert_eq!(format!("{:?}", back), format!("{:?}", case));
    }
}

#[test]
fn every_daemon_response_roundtrips() {
    let cases = vec![
        DaemonBinaryResponse::HelloAck {
            version: "1.0".into(),
            server_name: "can-bridge-daemon".into(),
            features: vec!["tcp".into(), "binary".into()],
        },
        DaemonBinaryResponse::Pong { id: u64::MAX },
        DaemonBinaryResponse::Ifaces { items: vec!["can0".into()] },
        DaemonBinaryResponse::Subscribed { ifaces: vec!["vcan0".into(), "can1".into()] },
        DaemonBinaryResponse::Unsubscribed,
        DaemonBinaryResponse::SendAck { ok: true, error_message: None },
        DaemonBinaryResponse::SendAck { ok: false, error_message: Some("bus off".into()) },
        DaemonBinaryResponse::FrameEvent {
            ts_ms: 1700000123456,
            iface: "can0".into(),
            dir: "rx".into(),
            id: 0x18DAF110,
            is_fd: true,
            data: (0u8..64).collect(),
        },
        DaemonBinaryResponse::Error { message: "bad request ÄÖ".into() },
    ];
    for case in cases {
        let back = daemon_roundtrip(case.clone());
        assert_eq!(format!("{:?}", back), format!("{:?}", case));
    }
}

#[test]
fn empty_error_text_reads_back_as_none() {
    let back = daemon_roundtrip(DaemonBinaryResponse::SendAck {
        ok: false,
        error_message: Some(String::new()),
    });
    match back {
        DaemonBinaryResponse::SendAck { ok, error_message } => {
            assert!(!ok);
            assert!(error_message.is_none());
        }
        other => panic!("unexpected {:?}", other),
    }
}

#[test]
fn partial_packet_waits_for_more_bytes() {
    let bytes = encode_client(&ClientBinaryRequest::Subscribe { ifaces: vec!["can0".into()] }).unwrap();
    for k in 0..bytes.len() {
        assert!(decode_client_from(&bytes[..k]).unwrap().is_none(), "prefix of {} bytes", k);
    }
    assert!(decode_client_from(&bytes).unwrap().is_some());
}

#[test]
fn two_packets_in_one_buffer() {
    let mut buffer = encode_client(&ClientBinaryRequest::Ping { id: 7 }).unwrap();
    buffer.extend(encode_client(&ClientBinaryRequest::ListIfaces).unwrap());
    let (first, used) = decode_client_from(&buffer).unwrap().unwrap();
    assert!(matches!(first, ClientBinaryRequest::Ping { id: 7 }));
    assert_eq!(used, 20);
    let (second, used2) = decode_client_from(&buffer[used..]).unwrap().unwrap();
    assert!(matches!(second, ClientBinaryRequest::ListIfaces));
    assert_eq!(used2, 12);
}

#[test]
fn bad_magic_is_refused() {
    let mut bytes = encode_client(&ClientBinaryRequest::ListIfaces).unwrap();
    bytes[0] = b'X';
    assert_eq!(decode_client_from(&bytes).unwrap_err(), WireError::BadMagic);
    // fewer bytes than a header: nothing is checked yet
    assert!(decode_client_from(b"XXXX").unwrap().is_none());
}

#[test]
fn unknown_type_is_refused() {
    let mut bytes = encode_client(&ClientBinaryRequest::ListIfaces).unwrap();
    bytes[4] = 200;
    assert_eq!(decode_client_from(&bytes).unwrap_err(), WireError::UnknownMsgType { value: 200 });
}

#[test]
fn sides_do_not_mix() {
    let client = encode_client(&ClientBinaryRequest::Ping { id: 1 }).unwrap();
    assert_eq!(
        decode_daemon_from(&client).unwrap_err(),
        WireError::ClientTypeForDaemon { msg_type: MsgType::Ping }
    );
    let daemon = encode_daemon(&DaemonBinaryResponse::Pong { id: 1 }).unwrap();
    assert_eq!(
        decode_client_from(&daemon).unwrap_err(),
        WireError::DaemonTypeForClient { msg_type: MsgType::Pong }
    );
}

fn raw_packet(msg_type: u16, payload: &[u8]) -> Vec<u8> {
    let mut out = b"CBD1".to_vec();
    out.extend_from_slice(&msg_type.to_le_bytes());
    out.extend_from_slice(&0u16.to_le_bytes());
    out.extend_from_slice(&(payload.len() as u32).to_le_bytes());
    out.extend_from_slice(payload);
    out
}

#[test]
fn payload_errors() {
    // Ping needs eight bytes
    assert_eq!(decode_client_from(&raw_packet(102, &[1, 2, 3])).unwrap_err(), WireError::Eof);
    // string announces more bytes than there are
    assert_eq!(
        decode_client_from(&raw_packet(101, &[5, 0, b'a'])).unwrap_err(),
        WireError::EofInString
    );
    // string bytes are not UTF-8
    assert_eq!(
        decode_client_from(&raw_packet(101, &[2, 0, 0xff, 0xfe, 0, 0])).unwrap_err(),
        WireError::InvalidUtf8
    );
    // frame data announces more bytes than there are
    let mut frame = vec![1, 0, b'c'];
    frame.extend_from_slice(&[1, 0, 0, 0, 0, 0, 0, 9, 0, 1, 2]);
    assert_eq!(decode_client_from(&raw_packet(106, &frame)).unwrap_err(), WireError::BadDataLen);
    // flags are ignored, extra payload bytes are ignored
    let mut pkt = raw_packet(102, &[1, 0, 0, 0, 0, 0, 0, 0, 0xaa]);
    pkt[6] = 0x55;
    let (req, used) = decode_client_from(&pkt).unwrap().unwrap();
    assert!(matches!(req, ClientBinaryRequest::Ping { id: 1 }));
    assert_eq!(used, 21);
}

#[test]
fn non_zero_flag_bytes_read_as_true() {
    let mut frame = vec![1, 0, b'c'];
    frame.extend_from_slice(&[5, 0, 0, 0, 7, 2, 0, 0, 0]);
    let (req, _) = decode_client_from(&raw_packet(106, &frame)).unwrap().unwrap();
    match req {
        ClientBinaryRequest::SendFrame { iface, id, is_fd, brs, esi, data } => {
            assert_eq!(iface, "c");
            assert_eq!(id, 5);
            assert!(is_fd && brs && !esi);
            assert!(data.is_empty());
        }
        other => panic!("unexpected {:?}", other),
    }
}

#[test]
fn long_string_is_cut_at_65535_bytes() {
    let long = "x".repeat(70000);
    let bytes = encode_daemon(&DaemonBinaryResponse::Error { message: long }).unwrap();
    assert_eq!(bytes.len(), 12 + 2 + 65535);
    let (back, _) = decode_daemon_from(&bytes).unwrap().unwrap();
    match back {
        DaemonBinaryResponse::Error { message } => assert_eq!(message.len(), 65535),
        other => panic!("unexpected {:?}", other),
    }
}

#[test]
fn absent_and_empty_error_text_encode_alike() {
    for ok in [false, true] {
        let none = encode_daemon(&DaemonBinaryResponse::SendAck { ok, error_message: None }).unwrap();
        let empty = encode_daemon(&DaemonBinaryResponse::SendAck { ok, error_message: Some(String::new()) }).unwrap();
        assert_eq!(none, empty);
        assert_eq!(&none[12..], &[ok as u8, 0x00, 0x00]);
    }
}

#[test]
fn trailing_payload_bytes_are_ignored() {
    let mut payload = 77u64.to_le_bytes().to_vec();
    payload.extend_from_slice(&[0xde, 0xad]);
    let packet = raw_packet(102, &payload);
    match decode_client_from(&packet).unwrap().unwrap() {
        (ClientBinaryRequest::Ping { id }, used) => {
            assert_eq!(id, 77);
            assert_eq!(used, packet.len());
        }
        other => panic!("unexpected {:?}", other),
    }
    let mut hello = vec![2, 0, b'p', b'y', 4, 0];
    hello.extend_from_slice(b"json");
    hello.extend_from_slice(b"extra");
    match decode_client_from(&raw_packet(101, &hello)).unwrap().unwrap().0 {
        ClientBinaryRequest::ClientHello { client, protocol } => assert_eq!((client.as_str(), protocol.as_str()), ("py", "json")),
        other => panic!("unexpected {:?}", other),
    }
}

#[test]
fn truncated_daemon_payloads_are_refused() {
    let hello = encode_daemon(&DaemonBinaryResponse::HelloAck {
        version: "1.0".into(),
        server_name: "can-bridge-daemon".into(),
        features: vec!["tcp".into(), "binary".into()],
    })
    .unwrap();
    let payload = &hello[12..];
    for k in 0..payload.len() {
        let packet = raw_packet(1, &payload[..k]);
        assert!(decode_daemon_from(&packet).is_err(), "prefix of {k} bytes decoded");
    }
    assert!(decode_daemon_from(&raw_packet(1, payload)).unwrap().is_some());
}
