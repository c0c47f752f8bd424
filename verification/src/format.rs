//! The binary wire format as mathematics: the abstract messages, the bytes
//! that encode them, and the parser that reads them back.
use vstd::bytes::*;
use vstd::prelude::*;
use vstd::utf8::*;

verus! {

/// The packet magic, ASCII `CBD1`.
pub open spec fn magic_bytes() -> Seq<u8> {
    seq![0x43u8, 0x42u8, 0x44u8, 0x31u8]
}

/// Length of the fixed packet header: magic, type, flags, payload length.
pub open spec fn header_len() -> nat {
    12
}

/// Every message type of the binary protocol.
#[derive(Debug, Clone, Copy, PartialEq, Eq, Structural)]
pub enum MsgType {
    ClientHello,
    Ping,
    ListIfaces,
    Subscribe,
    Unsubscribe,
    SendFrame,
    HelloAck,
    Pong,
    Ifaces,
    Subscribed,
    Unsubscribed,
    SendAck,
    FrameEvent,
    Error,
}

impl MsgType {
    /// The number that stands for the type on the wire.
    pub open spec fn wire_code(self) -> u16 {
        match self {
            MsgType::ClientHello => 101,
            MsgType::Ping => 102,
            MsgType::ListIfaces => 103,
            MsgType::Subscribe => 104,
            MsgType::Unsubscribe => 105,
            MsgType::SendFrame => 106,
            MsgType::HelloAck => 1,
            MsgType::Pong => 2,
            MsgType::Ifaces => 3,
            MsgType::Subscribed => 4,
            MsgType::Unsubscribed => 5,
            MsgType::SendAck => 6,
            MsgType::FrameEvent => 7,
            MsgType::Error => 8,
        }
    }

    /// Types that only a client sends.
    pub open spec fn is_client_type(self) -> bool {
        match self {
            MsgType::ClientHello | MsgType::Ping | MsgType::ListIfaces | MsgType::Subscribe
            | MsgType::Unsubscribe | MsgType::SendFrame => true,
            _ => false,
        }
    }
}

/// Why bytes could not be read as a message.
#[derive(Debug, Clone, Copy, PartialEq, Eq, Structural)]
pub enum WireError {
    /// The header names no known message type.
    UnknownMsgType { value: u16 },
    /// The packet does not start with `CBD1`.
    BadMagic,
    /// A fixed-size field runs past the end of the payload.
    Eof,
    /// A string's bytes run past the end of the payload.
    EofInString,
    /// A string's bytes are not UTF-8.
    InvalidUtf8,
    /// A frame's data runs past the end of the payload.
    BadDataLen,
    /// A daemon-side decoder was given a client message type.
    ClientTypeForDaemon { msg_type: MsgType },
    /// A client-side decoder was given a daemon message type.
    DaemonTypeForClient { msg_type: MsgType },
}

/// The message type with the given wire number, if there is one.
pub open spec fn msg_type_of(v: u16) -> Result<MsgType, WireError> {
    if v == 101 {
        Ok(MsgType::ClientHello)
    } else if v == 102 {
        Ok(MsgType::Ping)
    } else if v == 103 {
        Ok(MsgType::ListIfaces)
    } else if v == 104 {
        Ok(MsgType::Subscribe)
    } else if v == 105 {
        Ok(MsgType::Unsubscribe)
    } else if v == 106 {
        Ok(MsgType::SendFrame)
    } else if v == 1 {
        Ok(MsgType::HelloAck)
    } else if v == 2 {
        Ok(MsgType::Pong)
    } else if v == 3 {
        Ok(MsgType::Ifaces)
    } else if v == 4 {
        Ok(MsgType::Subscribed)
    } else if v == 5 {
        Ok(MsgType::Unsubscribed)
    } else if v == 6 {
        Ok(MsgType::SendAck)
    } else if v == 7 {
        Ok(MsgType::FrameEvent)
    } else if v == 8 {
        Ok(MsgType::Error)
    } else {
        Err(WireError::UnknownMsgType { value: v })
    }
}

/// A client request as an abstract value.
#[allow(inconsistent_fields)]
pub enum ClientMsg {
    ClientHello { client: Seq<char>, protocol: Seq<char> },
    Ping { id: u64 },
    ListIfaces,
    Subscribe { ifaces: Seq<Seq<char>> },
    Unsubscribe,
    SendFrame { iface: Seq<char>, id: u32, is_fd: bool, brs: bool, esi: bool, data: Seq<u8> },
}

/// A daemon response as an abstract value.
#[allow(inconsistent_fields)]
pub enum DaemonMsg {
    HelloAck { version: Seq<char>, server_name: Seq<char>, features: Seq<Seq<char>> },
    Pong { id: u64 },
    Ifaces { items: Seq<Seq<char>> },
    Subscribed { ifaces: Seq<Seq<char>> },
    Unsubscribed,
    SendAck { ok: bool, error_message: Option<Seq<char>> },
    FrameEvent {
        ts_ms: u64,
        iface: Seq<char>,
        dir: Seq<char>,
        id: u32,
        is_fd: bool,
        data: Seq<u8>,
    },
    Error { message: Seq<char> },
}

// ---------------- encoding ----------------

/// A boolean as one byte.
pub open spec fn bool_byte(b: bool) -> u8 {
    if b {
        1
    } else {
        0
    }
}

/// How many of a string's UTF-8 bytes are written: all of them, at most 65535.
pub open spec fn str_len_written(s: Seq<char>) -> nat {
    let n = encode_utf8(s).len();
    if n <= 0xffff {
        n
    } else {
        0xffff
    }
}

/// A string field: its byte count as a little-endian `u16`, then its UTF-8
/// bytes, cut at 65535.
pub open spec fn str_field(s: Seq<char>) -> Seq<u8> {
    spec_u16_to_le_bytes(str_len_written(s) as u16) + encode_utf8(s).take(
        str_len_written(s) as int,
    )
}

/// The string fields of all items, one after the other.
pub open spec fn str_fields(items: Seq<Seq<char>>) -> Seq<u8>
    decreases items.len(),
{
    if items.len() == 0 {
        seq![]
    } else {
        str_fields(items.drop_last()) + str_field(items.last())
    }
}

/// A list of strings: its count as a `u16` (wrapping), then every item.
pub open spec fn str_list(items: Seq<Seq<char>>) -> Seq<u8> {
    spec_u16_to_le_bytes(items.len() as u16) + str_fields(items)
}

/// Frame data: its length as a `u16` (wrapping), then all its bytes.
pub open spec fn data_field(data: Seq<u8>) -> Seq<u8> {
    spec_u16_to_le_bytes(data.len() as u16) + data
}

impl ClientMsg {
    pub open spec fn msg_type(self) -> MsgType {
        match self {
            ClientMsg::ClientHello { .. } => MsgType::ClientHello,
            ClientMsg::Ping { .. } => MsgType::Ping,
            ClientMsg::ListIfaces => MsgType::ListIfaces,
            ClientMsg::Subscribe { .. } => MsgType::Subscribe,
            ClientMsg::Unsubscribe => MsgType::Unsubscribe,
            ClientMsg::SendFrame { .. } => MsgType::SendFrame,
        }
    }

    /// The payload bytes of the request.
    pub open spec fn payload(self) -> Seq<u8> {
        match self {
            ClientMsg::ClientHello { client, protocol } => str_field(client) + str_field(protocol),
            ClientMsg::Ping { id } => spec_u64_to_le_bytes(id),
            ClientMsg::ListIfaces => seq![],
            ClientMsg::Subscribe { ifaces } => str_list(ifaces),
            ClientMsg::Unsubscribe => seq![],
            ClientMsg::SendFrame { iface, id, is_fd, brs, esi, data } => str_field(iface)
                + spec_u32_to_le_bytes(id) + seq![bool_byte(is_fd), bool_byte(brs), bool_byte(esi)]
                + data_field(data),
        }
    }

    /// A request that the format carries faithfully: no string longer than
    /// 65535 bytes, no list or data longer than 65535 items, and a payload that
    /// fits a `u32` length.
    pub open spec fn well_formed(self) -> bool {
        &&& match self {
            ClientMsg::ClientHello { client, protocol } => str_fits(client) && str_fits(protocol),
            ClientMsg::Subscribe { ifaces } => list_fits(ifaces),
            ClientMsg::SendFrame { iface, data, .. } => str_fits(iface) && data.len() <= 0xffff,
            _ => true,
        }
        &&& self.payload().len() <= u32::MAX
    }
}

impl DaemonMsg {
    pub open spec fn msg_type(self) -> MsgType {
        match self {
            DaemonMsg::HelloAck { .. } => MsgType::HelloAck,
            DaemonMsg::Pong { .. } => MsgType::Pong,
            DaemonMsg::Ifaces { .. } => MsgType::Ifaces,
            DaemonMsg::Subscribed { .. } => MsgType::Subscribed,
            DaemonMsg::Unsubscribed => MsgType::Unsubscribed,
            DaemonMsg::SendAck { .. } => MsgType::SendAck,
            DaemonMsg::FrameEvent { .. } => MsgType::FrameEvent,
            DaemonMsg::Error { .. } => MsgType::Error,
        }
    }

    /// The payload bytes of the response.
    pub open spec fn payload(self) -> Seq<u8> {
        match self {
            DaemonMsg::HelloAck { version, server_name, features } => str_field(version)
                + str_field(server_name) + str_list(features),
            DaemonMsg::Pong { id } => spec_u64_to_le_bytes(id),
            DaemonMsg::Ifaces { items } => str_list(items),
            DaemonMsg::Subscribed { ifaces } => str_list(ifaces),
            DaemonMsg::Unsubscribed => seq![],
            DaemonMsg::SendAck { ok, error_message } => seq![bool_byte(ok)] + str_field(
                match error_message {
                    Some(m) => m,
                    None => Seq::<char>::empty(),
                },
            ),
            DaemonMsg::FrameEvent { ts_ms, iface, dir, id, is_fd, data } => spec_u64_to_le_bytes(
                ts_ms,
            ) + str_field(iface) + str_field(dir) + spec_u32_to_le_bytes(id) + seq![
                bool_byte(is_fd),
            ] + data_field(data),
            DaemonMsg::Error { message } => str_field(message),
        }
    }

    /// A response that the format carries faithfully: the bounds of
    /// `ClientMsg::well_formed`, and no acknowledgement whose error text is
    /// present but empty (the format cannot tell that from an absent one).
    pub open spec fn well_formed(self) -> bool {
        &&& match self {
            DaemonMsg::HelloAck { version, server_name, features } => str_fits(version) && str_fits(
                server_name,
            ) && list_fits(features),
            DaemonMsg::Ifaces { items } => list_fits(items),
            DaemonMsg::Subscribed { ifaces } => list_fits(ifaces),
            DaemonMsg::SendAck { error_message, .. } => match error_message {
                Some(m) => str_fits(m) && m.len() > 0,
                None => true,
            },
            DaemonMsg::FrameEvent { iface, dir, data, .. } => str_fits(iface) && str_fits(dir)
                && data.len() <= 0xffff,
            DaemonMsg::Error { message } => str_fits(message),
            _ => true,
        }
        &&& self.payload().len() <= u32::MAX
    }
}

/// A string whose UTF-8 encoding is written whole.
pub open spec fn str_fits(s: Seq<char>) -> bool {
    encode_utf8(s).len() <= 0xffff
}

/// A list whose count and items are all written faithfully.
pub open spec fn list_fits(items: Seq<Seq<char>>) -> bool {
    &&& items.len() <= 0xffff
    &&& forall|i: int| 0 <= i < items.len() ==> str_fits(#[trigger] items[i])
}

/// A whole packet: magic, type, zero flags, payload length, payload.
pub open spec fn packet(t: MsgType, payload: Seq<u8>) -> Seq<u8> {
    magic_bytes() + spec_u16_to_le_bytes(t.wire_code()) + spec_u16_to_le_bytes(0)
        + spec_u32_to_le_bytes(payload.len() as u32) + payload
}

/// The packet that carries a client request.
pub open spec fn client_packet(m: ClientMsg) -> Seq<u8> {
    packet(m.msg_type(), m.payload())
}

/// The packet that carries a daemon response.
pub open spec fn daemon_packet(m: DaemonMsg) -> Seq<u8> {
    packet(m.msg_type(), m.payload())
}

// ---------------- decoding ----------------

/// Reads one byte off the front.
pub open spec fn take_u8(s: Seq<u8>) -> Result<(u8, Seq<u8>), WireError> {
    if s.len() < 1 {
        Err(WireError::Eof)
    } else {
        Ok((s[0], s.skip(1)))
    }
}

/// Reads a little-endian `u16` off the front.
pub open spec fn take_u16(s: Seq<u8>) -> Result<(u16, Seq<u8>), WireError> {
    if s.len() < 2 {
        Err(WireError::Eof)
    } else {
        Ok((spec_u16_from_le_bytes(s.take(2)), s.skip(2)))
    }
}

/// Reads a little-endian `u32` off the front.
pub open spec fn take_u32(s: Seq<u8>) -> Result<(u32, Seq<u8>), WireError> {
    if s.len() < 4 {
        Err(WireError::Eof)
    } else {
        Ok((spec_u32_from_le_bytes(s.take(4)), s.skip(4)))
    }
}

/// Reads a little-endian `u64` off the front.
pub open spec fn take_u64(s: Seq<u8>) -> Result<(u64, Seq<u8>), WireError> {
    if s.len() < 8 {
        Err(WireError::Eof)
    } else {
        Ok((spec_u64_from_le_bytes(s.take(8)), s.skip(8)))
    }
}

/// Reads a string field off the front.
pub open spec fn take_str(s: Seq<u8>) -> Result<(Seq<char>, Seq<u8>), WireError> {
    match take_u16(s) {
        Err(e) => Err(e),
        Ok((n, r)) => if r.len() < n {
            Err(WireError::EofInString)
        } else if !valid_utf8(r.take(n as int)) {
            Err(WireError::InvalidUtf8)
        } else {
            Ok((decode_utf8(r.take(n as int)), r.skip(n as int)))
        },
    }
}

/// Reads `count` string fields off the front.
pub open spec fn take_strs(s: Seq<u8>, count: nat) -> Result<(Seq<Seq<char>>, Seq<u8>), WireError>
    decreases count,
{
    if count == 0 {
        Ok((seq![], s))
    } else {
        match take_strs(s, (count - 1) as nat) {
            Err(e) => Err(e),
            Ok((items, r)) => match take_str(r) {
                Err(e) => Err(e),
                Ok((x, r2)) => Ok((items.push(x), r2)),
            },
        }
    }
}

/// Reads a list of strings (count, then items) off the front.
pub open spec fn take_str_list(s: Seq<u8>) -> Result<(Seq<Seq<char>>, Seq<u8>), WireError> {
    match take_u16(s) {
        Err(e) => Err(e),
        Ok((n, r)) => take_strs(r, n as nat),
    }
}

/// Reads frame data (length, then bytes) off the front.
pub open spec fn take_data(s: Seq<u8>) -> Result<(Seq<u8>, Seq<u8>), WireError> {
    match take_u16(s) {
        Err(e) => Err(e),
        Ok((n, r)) => if r.len() < n {
            Err(WireError::BadDataLen)
        } else {
            Ok((r.take(n as int), r.skip(n as int)))
        },
    }
}

/// The client request that a payload of the given type holds. Bytes after
/// the last field are ignored.
pub open spec fn parse_client_payload(t: MsgType, p: Seq<u8>) -> Result<ClientMsg, WireError> {
    match t {
        MsgType::ClientHello => match take_str(p) {
            Err(e) => Err(e),
            Ok((client, r)) => match take_str(r) {
                Err(e) => Err(e),
                Ok((protocol, _)) => Ok(ClientMsg::ClientHello { client, protocol }),
            },
        },
        MsgType::Ping => match take_u64(p) {
            Err(e) => Err(e),
            Ok((id, _)) => Ok(ClientMsg::Ping { id }),
        },
        MsgType::ListIfaces => Ok(ClientMsg::ListIfaces),
        MsgType::Subscribe => match take_str_list(p) {
            Err(e) => Err(e),
            Ok((ifaces, _)) => Ok(ClientMsg::Subscribe { ifaces }),
        },
        MsgType::Unsubscribe => Ok(ClientMsg::Unsubscribe),
        MsgType::SendFrame => parse_send_frame(p),
        _ => Err(WireError::DaemonTypeForClient { msg_type: t }),
    }
}

/// The fields of a frame-send request.
pub open spec fn parse_send_frame(p: Seq<u8>) -> Result<ClientMsg, WireError> {
    match take_str(p) {
        Err(e) => Err(e),
        Ok((iface, r1)) => match take_u32(r1) {
            Err(e) => Err(e),
            Ok((id, r2)) => match take_u8(r2) {
                Err(e) => Err(e),
                Ok((fd, r3)) => match take_u8(r3) {
                    Err(e) => Err(e),
                    Ok((brs, r4)) => match take_u8(r4) {
                        Err(e) => Err(e),
                        Ok((esi, r5)) => match take_data(r5) {
                            Err(e) => Err(e),
                            Ok((data, _)) => Ok(
                                ClientMsg::SendFrame {
                                    iface,
                                    id,
                                    is_fd: fd != 0,
                                    brs: brs != 0,
                                    esi: esi != 0,
                                    data,
                                },
                            ),
                        },
                    },
                },
            },
        },
    }
}

/// The daemon response that a payload of the given type holds. Bytes after
/// the last field are ignored.
pub open spec fn parse_daemon_payload(t: MsgType, p: Seq<u8>) -> Result<DaemonMsg, WireError> {
    match t {
        MsgType::HelloAck => match take_str(p) {
            Err(e) => Err(e),
            Ok((version, r1)) => match take_str(r1) {
                Err(e) => Err(e),
                Ok((server_name, r2)) => match take_str_list(r2) {
                    Err(e) => Err(e),
                    Ok((features, _)) => Ok(DaemonMsg::HelloAck { version, server_name, features }),
                },
            },
        },
        MsgType::Pong => match take_u64(p) {
            Err(e) => Err(e),
            Ok((id, _)) => Ok(DaemonMsg::Pong { id }),
        },
        MsgType::Ifaces => match take_str_list(p) {
            Err(e) => Err(e),
            Ok((items, _)) => Ok(DaemonMsg::Ifaces { items }),
        },
        MsgType::Subscribed => match take_str_list(p) {
            Err(e) => Err(e),
            Ok((ifaces, _)) => Ok(DaemonMsg::Subscribed { ifaces }),
        },
        MsgType::Unsubscribed => Ok(DaemonMsg::Unsubscribed),
        MsgType::SendAck => match take_u8(p) {
            Err(e) => Err(e),
            Ok((ok, r)) => match take_str(r) {
                Err(e) => Err(e),
                Ok((text, _)) => Ok(
                    DaemonMsg::SendAck {
                        ok: ok != 0,
                        error_message: if text.len() == 0 {
                            None
                        } else {
                            Some(text)
                        },
                    },
                ),
            },
        },
        MsgType::FrameEvent => parse_frame_event(p),
        MsgType::Error => match take_str(p) {
            Err(e) => Err(e),
            Ok((message, _)) => Ok(DaemonMsg::Error { message }),
        },
        _ => Err(WireError::ClientTypeForDaemon { msg_type: t }),
    }
}

/// The fields of a frame event.
pub open spec fn parse_frame_event(p: Seq<u8>) -> Result<DaemonMsg, WireError> {
    match take_u64(p) {
        Err(e) => Err(e),
        Ok((ts_ms, r1)) => match take_str(r1) {
            Err(e) => Err(e),
            Ok((iface, r2)) => match take_str(r2) {
                Err(e) => Err(e),
                Ok((dir, r3)) => match take_u32(r3) {
                    Err(e) => Err(e),
                    Ok((id, r4)) => match take_u8(r4) {
                        Err(e) => Err(e),
                        Ok((fd, r5)) => match take_data(r5) {
                            Err(e) => Err(e),
                            Ok((data, _)) => Ok(
                                DaemonMsg::FrameEvent { ts_ms, iface, dir, id, is_fd: fd != 0, data },
                            ),
                        },
                    },
                },
            },
        },
    }
}

/// The payload length that a header announces.
pub open spec fn announced_len(buf: Seq<u8>) -> nat {
    spec_u32_from_le_bytes(buf.subrange(8, 12)) as nat
}

/// What the front of a receive buffer holds: `Ok(None)` while the header
/// or the announced payload is not complete; an error for a wrong magic or an
/// unknown type; else the type, the payload and the packet's length.
pub open spec fn parse_packet(buf: Seq<u8>) -> Result<Option<(MsgType, Seq<u8>, nat)>, WireError> {
    if buf.len() < header_len() {
        Ok(None)
    } else if buf.take(4) != magic_bytes() {
        Err(WireError::BadMagic)
    } else if buf.len() < header_len() + announced_len(buf) {
        Ok(None)
    } else {
        match msg_type_of(spec_u16_from_le_bytes(buf.subrange(4, 6))) {
            Err(e) => Err(e),
            Ok(t) => Ok(
                Some(
                    (
                        t,
                        buf.subrange(header_len() as int, (header_len() + announced_len(buf)) as int),
                        header_len() + announced_len(buf),
                    ),
                ),
            ),
        }
    }
}

/// What decoding a client request off the front of a buffer gives.
pub open spec fn parse_client_from(buf: Seq<u8>) -> Result<Option<(ClientMsg, nat)>, WireError> {
    match parse_packet(buf) {
        Err(e) => Err(e),
        Ok(None) => Ok(None),
        Ok(Some((t, p, n))) => match parse_client_payload(t, p) {
            Err(e) => Err(e),
            Ok(m) => Ok(Some((m, n))),
        },
    }
}

/// What decoding a daemon response off the front of a buffer gives.
pub open spec fn parse_daemon_from(buf: Seq<u8>) -> Result<Option<(DaemonMsg, nat)>, WireError> {
    match parse_packet(buf) {
        Err(e) => Err(e),
        Ok(None) => Ok(None),
        Ok(Some((t, p, n))) => match parse_daemon_payload(t, p) {
            Err(e) => Err(e),
            Ok(m) => Ok(Some((m, n))),
        },
    }
}

} // verus!
