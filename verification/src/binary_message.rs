//! The binary protocol: packet framing and message payloads.
use crate::format::{
    bool_byte, client_packet, daemon_packet, data_field, parse_client_from, parse_client_payload,
    parse_daemon_from, parse_daemon_payload, take_data, magic_bytes, msg_type_of, packet, parse_packet, str_field, str_fields, str_list, take_str,
    take_str_list, take_strs, take_u16, take_u32, take_u64, take_u8, ClientMsg, DaemonMsg,
};
use vstd::bytes::*;
use vstd::prelude::*;
use vstd::slice::{slice_subrange, slice_to_vec};
use vstd::string::*;
use vstd::utf8::*;

pub use crate::format::{MsgType, WireError};

verus! {

broadcast use vstd::seq_lib::group_seq_properties;

/// The packet magic, ASCII `CBD1`.
pub const MAGIC: [u8; 4] = [0x43u8, 0x42u8, 0x44u8, 0x31u8];

/// Length of the fixed packet header.
pub const HEADER_LEN: usize = 12;

impl MsgType {
    /// The message type with the given wire number.
    pub fn from_u16(v: u16) -> (r: Result<MsgType, WireError>)
        ensures
            r == msg_type_of(v),
    {
        match v {
            101 => Ok(MsgType::ClientHello),
            102 => Ok(MsgType::Ping),
            103 => Ok(MsgType::ListIfaces),
            104 => Ok(MsgType::Subscribe),
            105 => Ok(MsgType::Unsubscribe),
            106 => Ok(MsgType::SendFrame),
            1 => Ok(MsgType::HelloAck),
            2 => Ok(MsgType::Pong),
            3 => Ok(MsgType::Ifaces),
            4 => Ok(MsgType::Subscribed),
            5 => Ok(MsgType::Unsubscribed),
            6 => Ok(MsgType::SendAck),
            7 => Ok(MsgType::FrameEvent),
            8 => Ok(MsgType::Error),
            _ => Err(WireError::UnknownMsgType { value: v }),
        }
    }

    /// The wire number of the type.
    pub fn to_u16(&self) -> (r: u16)
        ensures
            r == self.wire_code(),
    {
        match self {
            MsgType::ClientHello => 101,
            MsgType::Ping => 102,
            MsgType::ListIfaces => 103,
            MsgType::Subscribe => 104,
            MsgType::Unsubscribe => 105,
            MsgType::SendFrame => 106,
            MsgType::HelloAck => 1,
            MsgType::Pong => 2,
            MsgType::Ifaces => 3,
            MsgType::Subscribed => 4,
            MsgType::Unsubscribed => 5,
            MsgType::SendAck => 6,
            MsgType::FrameEvent => 7,
            MsgType::Error => 8,
        }
    }
}

/// The abstract strings of a vector of strings.
pub open spec fn strings_view(v: Seq<String>) -> Seq<Seq<char>> {
    v.map_values(|s: String| s@)
}

/// A request that a client sends in binary mode.
#[derive(Debug, Clone)]
#[allow(inconsistent_fields)]
pub enum ClientBinaryRequest {
    ClientHello { client: String, protocol: String },
    Ping { id: u64 },
    ListIfaces,
    Subscribe { ifaces: Vec<String> },
    Unsubscribe,
    SendFrame { iface: String, id: u32, is_fd: bool, brs: bool, esi: bool, data: Vec<u8> },
}

impl View for ClientBinaryRequest {
    type V = ClientMsg;

    open spec fn view(&self) -> ClientMsg {
        match self {
            ClientBinaryRequest::ClientHello { client, protocol } => ClientMsg::ClientHello {
                client: client@,
                protocol: protocol@,
            },
            ClientBinaryRequest::Ping { id } => ClientMsg::Ping { id: *id },
            ClientBinaryRequest::ListIfaces => ClientMsg::ListIfaces,
            ClientBinaryRequest::Subscribe { ifaces } => ClientMsg::Subscribe {
                ifaces: strings_view(ifaces@),
            },
            ClientBinaryRequest::Unsubscribe => ClientMsg::Unsubscribe,
            ClientBinaryRequest::SendFrame { iface, id, is_fd, brs, esi, data } =>
                ClientMsg::SendFrame {
                iface: iface@,
                id: *id,
                is_fd: *is_fd,
                brs: *brs,
                esi: *esi,
                data: data@,
            },
        }
    }
}

/// A response or event that the daemon sends in binary mode.
#[derive(Debug, Clone)]
#[allow(inconsistent_fields)]
pub enum DaemonBinaryResponse {
    HelloAck { version: String, server_name: String, features: Vec<String> },
    Pong { id: u64 },
    Ifaces { items: Vec<String> },
    Subscribed { ifaces: Vec<String> },
    Unsubscribed,
    SendAck { ok: bool, error_message: Option<String> },
    FrameEvent { ts_ms: u64, iface: String, dir: String, id: u32, is_fd: bool, data: Vec<u8> },
    Error { message: String },
}

impl View for DaemonBinaryResponse {
    type V = DaemonMsg;

    open spec fn view(&self) -> DaemonMsg {
        match self {
            DaemonBinaryResponse::HelloAck { version, server_name, features } =>
                DaemonMsg::HelloAck {
                version: version@,
                server_name: server_name@,
                features: strings_view(features@),
            },
            DaemonBinaryResponse::Pong { id } => DaemonMsg::Pong { id: *id },
            DaemonBinaryResponse::Ifaces { items } => DaemonMsg::Ifaces {
                items: strings_view(items@),
            },
            DaemonBinaryResponse::Subscribed { ifaces } => DaemonMsg::Subscribed {
                ifaces: strings_view(ifaces@),
            },
            DaemonBinaryResponse::Unsubscribed => DaemonMsg::Unsubscribed,
            DaemonBinaryResponse::SendAck { ok, error_message } => DaemonMsg::SendAck {
                ok: *ok,
                error_message: match error_message {
                    Some(m) => Some(m@),
                    None => None,
                },
            },
            DaemonBinaryResponse::FrameEvent { ts_ms, iface, dir, id, is_fd, data } =>
                DaemonMsg::FrameEvent {
                ts_ms: *ts_ms,
                iface: iface@,
                dir: dir@,
                id: *id,
                is_fd: *is_fd,
                data: data@,
            },
            DaemonBinaryResponse::Error { message } => DaemonMsg::Error { message: message@ },
        }
    }
}

// ---------------- primitives ----------------

/// Checks bytes for UTF-8 with `std::str::from_utf8`. The contract claims what
/// the function's documentation says: it succeeds exactly on valid UTF-8, and
/// the string it returns is made of the same bytes.
#[verifier::external_body]
fn str_from_utf8(bytes: &[u8]) -> (r: Option<&str>)
    ensures
        r is Some <==> valid_utf8(bytes@),
        r matches Some(s) ==> s.spec_bytes() == bytes@,
{
    std::str::from_utf8(bytes).ok()
}

fn put_u16(out: &mut Vec<u8>, value: u16)
    ensures
        final(out)@ == old(out)@ + spec_u16_to_le_bytes(value),
{
    let bytes = u16_to_le_bytes(value);
    out.extend_from_slice(bytes.as_slice());
    assert(final(out)@ =~= old(out)@ + spec_u16_to_le_bytes(value));
}

fn put_string(out: &mut Vec<u8>, value: &str)
    ensures
        final(out)@ == old(out)@ + str_field(value@),
{
    let bytes = value.as_bytes();
    let len: u16 = if bytes.len() <= 0xffff {
        bytes.len() as u16
    } else {
        0xffff
    };
    put_u16(out, len);
    let head = slice_subrange(bytes, 0, len as usize);
    let ghost mid = out@;
    out.extend_from_slice(head);
    assert(out@ =~= mid + head@);
    assert(out@ =~= old(out)@ + str_field(value@));
}

fn get_u8(input: &mut &[u8]) -> (r: Result<u8, WireError>)
    ensures
        match take_u8(old(input)@) {
            Ok((v, rest)) => r == Ok::<u8, WireError>(v) && final(input)@ == rest,
            Err(e) => r == Err::<u8, WireError>(e) && final(input)@ == old(input)@,
        },
{
    if input.len() < 1 {
        return Err(WireError::Eof);
    }
    let value = input[0];
    *input = slice_subrange(*input, 1, input.len());
    Ok(value)
}

fn get_u16(input: &mut &[u8]) -> (r: Result<u16, WireError>)
    ensures
        match take_u16(old(input)@) {
            Ok((v, rest)) => r == Ok::<u16, WireError>(v) && final(input)@ == rest,
            Err(e) => r == Err::<u16, WireError>(e) && final(input)@ == old(input)@,
        },
{
    if input.len() < 2 {
        return Err(WireError::Eof);
    }
    let value = u16_from_le_bytes(slice_subrange(*input, 0, 2));
    *input = slice_subrange(*input, 2, input.len());
    Ok(value)
}

fn get_u32(input: &mut &[u8]) -> (r: Result<u32, WireError>)
    ensures
        match take_u32(old(input)@) {
            Ok((v, rest)) => r == Ok::<u32, WireError>(v) && final(input)@ == rest,
            Err(e) => r == Err::<u32, WireError>(e) && final(input)@ == old(input)@,
        },
{
    if input.len() < 4 {
        return Err(WireError::Eof);
    }
    let value = u32_from_le_bytes(slice_subrange(*input, 0, 4));
    *input = slice_subrange(*input, 4, input.len());
    Ok(value)
}

fn get_u64(input: &mut &[u8]) -> (r: Result<u64, WireError>)
    ensures
        match take_u64(old(input)@) {
            Ok((v, rest)) => r == Ok::<u64, WireError>(v) && final(input)@ == rest,
            Err(e) => r == Err::<u64, WireError>(e) && final(input)@ == old(input)@,
        },
{
    if input.len() < 8 {
        return Err(WireError::Eof);
    }
    let value = u64_from_le_bytes(slice_subrange(*input, 0, 8));
    *input = slice_subrange(*input, 8, input.len());
    Ok(value)
}

fn get_string(input: &mut &[u8]) -> (r: Result<String, WireError>)
    ensures
        match take_str(old(input)@) {
            Ok((v, rest)) => r matches Ok(s) && s@ == v && final(input)@ == rest,
            Err(e) => r == Err::<String, WireError>(e) && final(input)@ == (if old(input)@.len() < 2 {
                old(input)@
            } else {
                old(input)@.skip(2)
            }),
        },
{
    let len = get_u16(input)? as usize;
    if input.len() < len {
        return Err(WireError::EofInString);
    }
    let head = slice_subrange(*input, 0, len);
    match str_from_utf8(head) {
        None => Err(WireError::InvalidUtf8),
        Some(text) => {
            proof {
                decode_utf8_encode_utf8(head@);
                encode_utf8_decode_utf8(text@);
            }
            let owned = text.to_owned();
            *input = slice_subrange(*input, len, input.len());
            Ok(owned)
        },
    }
}


fn put_string_list(out: &mut Vec<u8>, items: &Vec<String>)
    ensures
        final(out)@ == old(out)@ + str_list(strings_view(items@)),
{
    put_u16(out, items.len() as u16);
    let ghost base = out@;
    let ghost all = strings_view(items@);
    let mut i: usize = 0;
    while i < items.len()
        invariant
            i <= items.len(),
            all == strings_view(items@),
            out@ == base + str_fields(all.take(i as int)),
        decreases items.len() - i,
    {
        put_string(out, items[i].as_str());
        proof {
            assert(all.take(i + 1).drop_last() =~= all.take(i as int));
            assert(all.take(i + 1).last() == items@[i as int]@);
        }
        i += 1;
    }
    proof {
        assert(all.take(items.len() as int) =~= all);
    }
}

/// Errors in reading a run of strings persist when more strings are asked for.
proof fn lemma_take_strs_err(s: Seq<u8>, i: nat, n: nat)
    requires
        i <= n,
        take_strs(s, i) is Err,
    ensures
        take_strs(s, n) == take_strs(s, i),
    decreases n - i,
{
    if i < n {
        lemma_take_strs_err(s, i, (n - 1) as nat);
    }
}

fn get_string_list(input: &mut &[u8]) -> (r: Result<Vec<String>, WireError>)
    ensures
        match take_str_list(old(input)@) {
            Ok((v, rest)) => r matches Ok(items) && strings_view(items@) == v && final(input)@
                == rest,
            Err(e) => r == Err::<Vec<String>, WireError>(e),
        },
{
    let ghost old_in = input@;
    let count = get_u16(input)? as usize;
    let ghost start = input@;
    let mut items: Vec<String> = Vec::with_capacity(count);
    assert(strings_view(items@) =~= Seq::<Seq<char>>::empty());
    let mut i: usize = 0;
    while i < count
        invariant
            i <= count,
            old_in == old(input)@,
            take_str_list(old_in) == take_strs(start, count as nat),
            take_strs(start, i as nat) == Ok::<(Seq<Seq<char>>, Seq<u8>), WireError>(
                (strings_view(items@), input@),
            ),
        decreases count - i,
    {
        let ghost before = items@;
        match get_string(input) {
            Ok(item) => {
                items.push(item);
                assert(strings_view(items@) =~= strings_view(before).push(item@));
            },
            Err(e) => {
                proof {
                    assert(take_strs(start, (i + 1) as nat) == Err::<(Seq<Seq<char>>, Seq<u8>), WireError>(e));
                    lemma_take_strs_err(start, (i + 1) as nat, count as nat);
                }
                return Err(e);
            },
        }
        i += 1;
    }
    Ok(items)
}

// ---------------- packet framing ----------------

fn encode_packet(msg_type: MsgType, payload: &[u8]) -> (out: Vec<u8>)
    ensures
        out@ == packet(msg_type, payload@),
{
    let payload_len = payload.len() as u32;
    let mut packet: Vec<u8> = Vec::new();
    packet.push(MAGIC[0]);
    packet.push(MAGIC[1]);
    packet.push(MAGIC[2]);
    packet.push(MAGIC[3]);
    assert(packet@ =~= magic_bytes());
    put_u16(&mut packet, msg_type.to_u16());
    put_u16(&mut packet, 0);
    let len_bytes = u32_to_le_bytes(payload_len);
    packet.extend_from_slice(len_bytes.as_slice());
    let ghost mid = packet@;
    assert(mid =~= magic_bytes() + spec_u16_to_le_bytes(msg_type.wire_code())
        + spec_u16_to_le_bytes(0) + spec_u32_to_le_bytes(payload@.len() as u32));
    packet.extend_from_slice(payload);
    assert(packet@ =~= mid + payload@);
    packet
}

/// The front of a buffer as a packet: `Ok(None)` while incomplete, else the
/// type, the payload and how many bytes the packet takes.
fn decode_packet(buffer: &[u8]) -> (r: Result<Option<(MsgType, &[u8], usize)>, WireError>)
    ensures
        match parse_packet(buffer@) {
            Ok(None) => r matches Ok(None),
            Ok(Some((t, p, n))) => r matches Ok(Some((t2, p2, n2))) && t2 == t && p2@ == p && n2
                == n,
            Err(e) => r matches Err(e2) && e2 == e,
        },
{
    if buffer.len() < HEADER_LEN {
        return Ok(None);
    }
    if buffer[0] != MAGIC[0] || buffer[1] != MAGIC[1] || buffer[2] != MAGIC[2] || buffer[3]
        != MAGIC[3] {
        proof {
            assert(buffer@.take(4) != magic_bytes()) by {
                if buffer@.take(4) == magic_bytes() {
                    assert(buffer@.take(4)[0] == buffer@[0]);
                    assert(buffer@.take(4)[1] == buffer@[1]);
                    assert(buffer@.take(4)[2] == buffer@[2]);
                    assert(buffer@.take(4)[3] == buffer@[3]);
                }
            }
        }
        return Err(WireError::BadMagic);
    }
    assert(buffer@.take(4) =~= magic_bytes());
    let msg_type_raw = u16_from_le_bytes(slice_subrange(buffer, 4, 6));
    let payload_len = u32_from_le_bytes(slice_subrange(buffer, 8, 12)) as usize;
    if buffer.len() - HEADER_LEN < payload_len {
        return Ok(None);
    }
    let total_len = HEADER_LEN + payload_len;
    let msg_type = MsgType::from_u16(msg_type_raw)?;
    let payload = slice_subrange(buffer, HEADER_LEN, total_len);
    Ok(Some((msg_type, payload, total_len)))
}


// ---------------- payload helpers ----------------

fn put_bytes(out: &mut Vec<u8>, bytes: &[u8])
    ensures
        final(out)@ == old(out)@ + bytes@,
{
    out.extend_from_slice(bytes);
    assert(final(out)@ =~= old(out)@ + bytes@);
}

fn put_bool(out: &mut Vec<u8>, value: bool)
    ensures
        final(out)@ == old(out)@.push(bool_byte(value)),
{
    out.push(if value {
        1
    } else {
        0
    });
}

fn put_data(out: &mut Vec<u8>, data: &Vec<u8>)
    ensures
        final(out)@ == old(out)@ + data_field(data@),
{
    put_u16(out, data.len() as u16);
    put_bytes(out, data.as_slice());
    assert(final(out)@ =~= old(out)@ + data_field(data@));
}

fn get_data(input: &mut &[u8]) -> (r: Result<Vec<u8>, WireError>)
    ensures
        match take_data(old(input)@) {
            Ok((v, rest)) => r matches Ok(d) && d@ == v && final(input)@ == rest,
            Err(e) => r == Err::<Vec<u8>, WireError>(e) && final(input)@ == (if old(input)@.len() < 2 {
                old(input)@
            } else {
                old(input)@.skip(2)
            }),
        },
{
    let data_len = get_u16(input)? as usize;
    if input.len() < data_len {
        return Err(WireError::BadDataLen);
    }
    let data = slice_to_vec(slice_subrange(*input, 0, data_len));
    *input = slice_subrange(*input, data_len, input.len());
    Ok(data)
}

/// An executable decoding result agrees with the abstract one.
pub open spec fn client_result_matches(
    r: Result<ClientBinaryRequest, WireError>,
    s: Result<ClientMsg, WireError>,
) -> bool {
    match s {
        Ok(m) => r matches Ok(x) && x@ == m,
        Err(e) => r == Err::<ClientBinaryRequest, WireError>(e),
    }
}

/// An executable decoding result agrees with the abstract one.
pub open spec fn daemon_result_matches(
    r: Result<DaemonBinaryResponse, WireError>,
    s: Result<DaemonMsg, WireError>,
) -> bool {
    match s {
        Ok(m) => r matches Ok(x) && x@ == m,
        Err(e) => r == Err::<DaemonBinaryResponse, WireError>(e),
    }
}

// ---------------- payload encode: daemon ----------------

fn encode_daemon_payload(resp: &DaemonBinaryResponse) -> (r: (MsgType, Vec<u8>))
    ensures
        r.0 == resp@.msg_type(),
        r.1@ == resp@.payload(),
{
    let mut payload: Vec<u8> = Vec::new();
    match resp {
        DaemonBinaryResponse::HelloAck { version, server_name, features } => {
            put_string(&mut payload, version.as_str());
            put_string(&mut payload, server_name.as_str());
            put_string_list(&mut payload, features);
            assert(payload@ =~= resp@.payload());
            (MsgType::HelloAck, payload)
        },
        DaemonBinaryResponse::Pong { id } => {
            let bytes = u64_to_le_bytes(*id);
            put_bytes(&mut payload, bytes.as_slice());
            assert(payload@ =~= resp@.payload());
            (MsgType::Pong, payload)
        },
        DaemonBinaryResponse::Ifaces { items } => {
            put_string_list(&mut payload, items);
            assert(payload@ =~= resp@.payload());
            (MsgType::Ifaces, payload)
        },
        DaemonBinaryResponse::Subscribed { ifaces } => {
            put_string_list(&mut payload, ifaces);
            assert(payload@ =~= resp@.payload());
            (MsgType::Subscribed, payload)
        },
        DaemonBinaryResponse::Unsubscribed => {
            assert(payload@ =~= resp@.payload());
            (MsgType::Unsubscribed, payload)
        },
        DaemonBinaryResponse::SendAck { ok, error_message } => {
            put_bool(&mut payload, *ok);
            match error_message {
                Some(msg) => put_string(&mut payload, msg.as_str()),
                None => {
                    let empty = String::new();
                    put_string(&mut payload, empty.as_str());
                },
            }
            assert(payload@ =~= resp@.payload());
            (MsgType::SendAck, payload)
        },
        DaemonBinaryResponse::FrameEvent { ts_ms, iface, dir, id, is_fd, data } => {
            let ts_bytes = u64_to_le_bytes(*ts_ms);
            put_bytes(&mut payload, ts_bytes.as_slice());
            put_string(&mut payload, iface.as_str());
            put_string(&mut payload, dir.as_str());
            let id_bytes = u32_to_le_bytes(*id);
            put_bytes(&mut payload, id_bytes.as_slice());
            put_bool(&mut payload, *is_fd);
            put_data(&mut payload, data);
            assert(payload@ =~= resp@.payload());
            (MsgType::FrameEvent, payload)
        },
        DaemonBinaryResponse::Error { message } => {
            put_string(&mut payload, message.as_str());
            assert(payload@ =~= resp@.payload());
            (MsgType::Error, payload)
        },
    }
}

// ---------------- payload decode: daemon ----------------

fn decode_daemon_payload(msg_type: MsgType, payload: &[u8]) -> (r: Result<
    DaemonBinaryResponse,
    WireError,
>)
    ensures
        daemon_result_matches(r, parse_daemon_payload(msg_type, payload@)),
{
    let mut input = payload;
    match msg_type {
        MsgType::HelloAck => {
            let version = get_string(&mut input)?;
            let server_name = get_string(&mut input)?;
            let features = get_string_list(&mut input)?;
            Ok(DaemonBinaryResponse::HelloAck { version, server_name, features })
        },
        MsgType::Pong => Ok(DaemonBinaryResponse::Pong { id: get_u64(&mut input)? }),
        MsgType::Ifaces => {
            let items = get_string_list(&mut input)?;
            Ok(DaemonBinaryResponse::Ifaces { items })
        },
        MsgType::Subscribed => {
            let ifaces = get_string_list(&mut input)?;
            Ok(DaemonBinaryResponse::Subscribed { ifaces })
        },
        MsgType::Unsubscribed => Ok(DaemonBinaryResponse::Unsubscribed),
        MsgType::SendAck => {
            let ok = get_u8(&mut input)? != 0;
            let error_text = get_string(&mut input)?;
            let error = if error_text.as_str().is_empty() {
                None
            } else {
                Some(error_text)
            };
            Ok(DaemonBinaryResponse::SendAck { ok, error_message: error })
        },
        MsgType::FrameEvent => {
            let ts_ms = get_u64(&mut input)?;
            let iface = get_string(&mut input)?;
            let dir = get_string(&mut input)?;
            let id = get_u32(&mut input)?;
            let is_fd = get_u8(&mut input)? != 0;
            let data = get_data(&mut input)?;
            Ok(DaemonBinaryResponse::FrameEvent { ts_ms, iface, dir, id, is_fd, data })
        },
        MsgType::Error => Ok(DaemonBinaryResponse::Error { message: get_string(&mut input)? }),
        MsgType::ClientHello
        | MsgType::Ping
        | MsgType::ListIfaces
        | MsgType::Subscribe
        | MsgType::Unsubscribe
        | MsgType::SendFrame => Err(WireError::ClientTypeForDaemon { msg_type }),
    }
}

// ---------------- payload encode: client ----------------

fn encode_client_payload(req: &ClientBinaryRequest) -> (r: (MsgType, Vec<u8>))
    ensures
        r.0 == req@.msg_type(),
        r.1@ == req@.payload(),
{
    let mut payload: Vec<u8> = Vec::new();
    match req {
        ClientBinaryRequest::ClientHello { client, protocol } => {
            put_string(&mut payload, client.as_str());
            put_string(&mut payload, protocol.as_str());
            assert(payload@ =~= req@.payload());
            (MsgType::ClientHello, payload)
        },
        ClientBinaryRequest::Ping { id } => {
            let bytes = u64_to_le_bytes(*id);
            put_bytes(&mut payload, bytes.as_slice());
            assert(payload@ =~= req@.payload());
            (MsgType::Ping, payload)
        },
        ClientBinaryRequest::ListIfaces => {
            assert(payload@ =~= req@.payload());
            (MsgType::ListIfaces, payload)
        },
        ClientBinaryRequest::Subscribe { ifaces } => {
            put_string_list(&mut payload, ifaces);
            assert(payload@ =~= req@.payload());
            (MsgType::Subscribe, payload)
        },
        ClientBinaryRequest::Unsubscribe => {
            assert(payload@ =~= req@.payload());
            (MsgType::Unsubscribe, payload)
        },
        ClientBinaryRequest::SendFrame { iface, id, is_fd, brs, esi, data } => {
            put_string(&mut payload, iface.as_str());
            let id_bytes = u32_to_le_bytes(*id);
            put_bytes(&mut payload, id_bytes.as_slice());
            put_bool(&mut payload, *is_fd);
            put_bool(&mut payload, *brs);
            put_bool(&mut payload, *esi);
            put_data(&mut payload, data);
            assert(payload@ =~= req@.payload());
            (MsgType::SendFrame, payload)
        },
    }
}

// ---------------- payload decode: client ----------------

fn decode_client_payload(msg_type: MsgType, payload: &[u8]) -> (r: Result<
    ClientBinaryRequest,
    WireError,
>)
    ensures
        client_result_matches(r, parse_client_payload(msg_type, payload@)),
{
    let mut input = payload;
    match msg_type {
        MsgType::ClientHello => {
            let client = get_string(&mut input)?;
            let protocol = get_string(&mut input)?;
            Ok(ClientBinaryRequest::ClientHello { client, protocol })
        },
        MsgType::Ping => Ok(ClientBinaryRequest::Ping { id: get_u64(&mut input)? }),
        MsgType::ListIfaces => Ok(ClientBinaryRequest::ListIfaces),
        MsgType::Subscribe => {
            let ifaces = get_string_list(&mut input)?;
            Ok(ClientBinaryRequest::Subscribe { ifaces })
        },
        MsgType::Unsubscribe => Ok(ClientBinaryRequest::Unsubscribe),
        MsgType::SendFrame => {
            let iface = get_string(&mut input)?;
            let id = get_u32(&mut input)?;
            let is_fd = get_u8(&mut input)? != 0;
            let brs = get_u8(&mut input)? != 0;
            let esi = get_u8(&mut input)? != 0;
            let data = get_data(&mut input)?;
            Ok(ClientBinaryRequest::SendFrame { iface, id, is_fd, brs, esi, data })
        },
        MsgType::HelloAck
        | MsgType::Pong
        | MsgType::Ifaces
        | MsgType::Subscribed
        | MsgType::Unsubscribed
        | MsgType::SendAck
        | MsgType::FrameEvent
        | MsgType::Error => Err(WireError::DaemonTypeForClient { msg_type }),
    }
}

// ---------------- public entry points ----------------

/// Encodes a daemon response into one framed packet. Never fails.
pub fn encode_daemon(resp: &DaemonBinaryResponse) -> (r: Result<Vec<u8>, WireError>)
    ensures
        r matches Ok(bytes) && bytes@ == daemon_packet(resp@),
{
    let (msg_type, payload) = encode_daemon_payload(resp);
    Ok(encode_packet(msg_type, payload.as_slice()))
}

/// Encodes a client request into one framed packet. Never fails.
pub fn encode_client(req: &ClientBinaryRequest) -> (r: Result<Vec<u8>, WireError>)
    ensures
        r matches Ok(bytes) && bytes@ == client_packet(req@),
{
    let (msg_type, payload) = encode_client_payload(req);
    Ok(encode_packet(msg_type, payload.as_slice()))
}

/// Decodes one client request off the front of `buffer`: `Ok(None)` while
/// the packet is incomplete, else the request and how many bytes it took.
pub fn decode_client_from(buffer: &[u8]) -> (r: Result<
    Option<(ClientBinaryRequest, usize)>,
    WireError,
>)
    ensures
        match parse_client_from(buffer@) {
            Ok(None) => r matches Ok(None),
            Ok(Some((m, n))) => r matches Ok(Some((x, k))) && x@ == m && k == n,
            Err(e) => r matches Err(e2) && e2 == e,
        },
{
    let (msg_type, payload, consumed_bytes) = match decode_packet(buffer)? {
        Some(found) => found,
        None => return Ok(None),
    };
    let request = decode_client_payload(msg_type, payload)?;
    Ok(Some((request, consumed_bytes)))
}

/// Decodes one daemon response off the front of `buffer`: `Ok(None)` while
/// the packet is incomplete, else the response and how many bytes it took.
pub fn decode_daemon_from(buffer: &[u8]) -> (r: Result<
    Option<(DaemonBinaryResponse, usize)>,
    WireError,
>)
    ensures
        match parse_daemon_from(buffer@) {
            Ok(None) => r matches Ok(None),
            Ok(Some((m, n))) => r matches Ok(Some((x, k))) && x@ == m && k == n,
            Err(e) => r matches Err(e2) && e2 == e,
        },
{
    let (msg_type, payload, consumed_bytes) = match decode_packet(buffer)? {
        Some(found) => found,
        None => return Ok(None),
    };
    let response = decode_daemon_payload(msg_type, payload)?;
    Ok(Some((response, consumed_bytes)))
}

} // verus!
