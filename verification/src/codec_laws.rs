//! What the binary format promises as a whole: what one side encodes the
//! other decodes, packet by packet, from a byte stream.
use crate::format::{
    bool_byte, client_packet, daemon_packet, data_field, header_len, list_fits, magic_bytes, msg_type_of,
    packet, parse_client_from, parse_client_payload, parse_daemon_from, parse_daemon_payload,
    parse_packet, str_field, str_fields, str_fits, str_len_written, str_list, take_data, take_str,
    take_str_list, take_strs, take_u16, take_u32, take_u64, take_u8, ClientMsg, DaemonMsg, MsgType,
    WireError,
};
use vstd::bytes::*;
use vstd::prelude::*;
use vstd::utf8::*;

verus! {

proof fn lemma_le_bytes()
    ensures
        forall|x: u16|
            #![trigger spec_u16_to_le_bytes(x)]
            spec_u16_to_le_bytes(x).len() == 2 && spec_u16_from_le_bytes(spec_u16_to_le_bytes(x))
                == x,
        forall|x: u32|
            #![trigger spec_u32_to_le_bytes(x)]
            spec_u32_to_le_bytes(x).len() == 4 && spec_u32_from_le_bytes(spec_u32_to_le_bytes(x))
                == x,
        forall|x: u64|
            #![trigger spec_u64_to_le_bytes(x)]
            spec_u64_to_le_bytes(x).len() == 8 && spec_u64_from_le_bytes(spec_u64_to_le_bytes(x))
                == x,
{
    lemma_auto_spec_u16_to_from_le_bytes();
    lemma_auto_spec_u32_to_from_le_bytes();
    lemma_auto_spec_u64_to_from_le_bytes();
}

proof fn lemma_take_u16_of(x: u16, rest: Seq<u8>)
    ensures
        take_u16(spec_u16_to_le_bytes(x) + rest) == Ok::<(u16, Seq<u8>), WireError>((x, rest)),
{
    lemma_le_bytes();
    let s = spec_u16_to_le_bytes(x) + rest;
    assert(s.take(2) =~= spec_u16_to_le_bytes(x));
    assert(s.skip(2) =~= rest);
}

proof fn lemma_take_u32_of(x: u32, rest: Seq<u8>)
    ensures
        take_u32(spec_u32_to_le_bytes(x) + rest) == Ok::<(u32, Seq<u8>), WireError>((x, rest)),
{
    lemma_le_bytes();
    let s = spec_u32_to_le_bytes(x) + rest;
    assert(s.take(4) =~= spec_u32_to_le_bytes(x));
    assert(s.skip(4) =~= rest);
}

proof fn lemma_take_u64_of(x: u64, rest: Seq<u8>)
    ensures
        take_u64(spec_u64_to_le_bytes(x) + rest) == Ok::<(u64, Seq<u8>), WireError>((x, rest)),
{
    lemma_le_bytes();
    let s = spec_u64_to_le_bytes(x) + rest;
    assert(s.take(8) =~= spec_u64_to_le_bytes(x));
    assert(s.skip(8) =~= rest);
}

proof fn lemma_take_u8_of(x: u8, rest: Seq<u8>)
    ensures
        take_u8(seq![x] + rest) == Ok::<(u8, Seq<u8>), WireError>((x, rest)),
{
    assert((seq![x] + rest).skip(1) =~= rest);
}

/// A string field that fits is read back whole, and reading stops right after it.
pub proof fn lemma_str_roundtrip(s: Seq<char>, rest: Seq<u8>)
    requires
        str_fits(s),
    ensures
        take_str(str_field(s) + rest) == Ok::<(Seq<char>, Seq<u8>), WireError>((s, rest)),
{
    broadcast use encode_utf8_valid_utf8, encode_utf8_decode_utf8;

    let b = encode_utf8(s);
    let n = str_len_written(s);
    assert(b.take(n as int) =~= b);
    assert(str_field(s) + rest =~= spec_u16_to_le_bytes(n as u16) + (b + rest));
    lemma_take_u16_of(n as u16, b + rest);
    assert((b + rest).take(n as int) =~= b);
    assert((b + rest).skip(n as int) =~= rest);
}

proof fn lemma_strs_roundtrip(items: Seq<Seq<char>>, rest: Seq<u8>)
    requires
        forall|i: int| 0 <= i < items.len() ==> str_fits(#[trigger] items[i]),
    ensures
        take_strs(str_fields(items) + rest, items.len()) == Ok::<
            (Seq<Seq<char>>, Seq<u8>),
            WireError,
        >((items, rest)),
    decreases items.len(),
{
    broadcast use vstd::seq_lib::group_seq_properties;

    if items.len() == 0 {
        assert(str_fields(items) + rest =~= rest);
    } else {
        let front = items.drop_last();
        let last = items.last();
        assert(str_fields(items) + rest =~= str_fields(front) + (str_field(last) + rest));
        assert forall|i: int| 0 <= i < front.len() implies str_fits(#[trigger] front[i]) by {
            assert(front[i] == items[i]);
        }
        lemma_strs_roundtrip(front, str_field(last) + rest);
        assert(str_fits(items[items.len() - 1]));
        lemma_str_roundtrip(last, rest);
        assert(front.push(last) =~= items);
    }
}

/// A list of strings that fits is read back whole.
pub proof fn lemma_str_list_roundtrip(items: Seq<Seq<char>>, rest: Seq<u8>)
    requires
        list_fits(items),
    ensures
        take_str_list(str_list(items) + rest) == Ok::<(Seq<Seq<char>>, Seq<u8>), WireError>(
            (items, rest),
        ),
{
    assert(str_list(items) + rest =~= spec_u16_to_le_bytes(items.len() as u16) + (str_fields(items)
        + rest));
    lemma_take_u16_of(items.len() as u16, str_fields(items) + rest);
    lemma_strs_roundtrip(items, rest);
}

/// Frame data of at most 65535 bytes is read back whole.
pub proof fn lemma_data_roundtrip(data: Seq<u8>, rest: Seq<u8>)
    requires
        data.len() <= 0xffff,
    ensures
        take_data(data_field(data) + rest) == Ok::<(Seq<u8>, Seq<u8>), WireError>((data, rest)),
{
    assert(data_field(data) + rest =~= spec_u16_to_le_bytes(data.len() as u16) + (data + rest));
    lemma_take_u16_of(data.len() as u16, data + rest);
    assert((data + rest).take(data.len() as int) =~= data);
    assert((data + rest).skip(data.len() as int) =~= rest);
}

/// Every message type is read back from its wire number, and only from it.
pub proof fn lemma_msg_type_code(t: MsgType, v: u16)
    ensures
        msg_type_of(t.wire_code()) == Ok::<MsgType, WireError>(t),
        msg_type_of(v) == Ok::<MsgType, WireError>(t) ==> v == t.wire_code(),
{
}

proof fn lemma_send_frame_roundtrip(
    iface: Seq<char>,
    id: u32,
    is_fd: bool,
    brs: bool,
    esi: bool,
    data: Seq<u8>,
)
    requires
        str_fits(iface),
        data.len() <= 0xffff,
    ensures
        ({
            let m = ClientMsg::SendFrame { iface, id, is_fd, brs, esi, data };
            crate::format::parse_send_frame(m.payload()) == Ok::<ClientMsg, WireError>(m)
        }),
{
    let m = ClientMsg::SendFrame { iface, id, is_fd, brs, esi, data };
    let e = Seq::<u8>::empty();
    let r5 = data_field(data) + e;
    let r4 = seq![bool_byte(esi)] + r5;
    let r3 = seq![bool_byte(brs)] + r4;
    let r2 = seq![bool_byte(is_fd)] + r3;
    let r1 = spec_u32_to_le_bytes(id) + r2;
    assert(m.payload() =~= str_field(iface) + r1);
    lemma_str_roundtrip(iface, r1);
    assert(take_str(m.payload()) == Ok::<(Seq<char>, Seq<u8>), WireError>((iface, r1)));
    lemma_take_u32_of(id, r2);
    lemma_take_u8_of(bool_byte(is_fd), r3);
    lemma_take_u8_of(bool_byte(brs), r4);
    lemma_take_u8_of(bool_byte(esi), r5);
    lemma_data_roundtrip(data, e);
    assert((bool_byte(is_fd) != 0) == is_fd);
    assert((bool_byte(brs) != 0) == brs);
    assert((bool_byte(esi) != 0) == esi);
    assert(crate::format::parse_send_frame(m.payload()) == Ok::<ClientMsg, WireError>(m));
}

proof fn lemma_client_hello_roundtrip(client: Seq<char>, protocol: Seq<char>)
    requires
        str_fits(client),
        str_fits(protocol),
    ensures
        ({
            let m = ClientMsg::ClientHello { client, protocol };
            parse_client_payload(m.msg_type(), m.payload()) == Ok::<ClientMsg, WireError>(m)
        }),
{
    let m = ClientMsg::ClientHello { client, protocol };
    let e = Seq::<u8>::empty();
    assert(m.payload() =~= str_field(client) + (str_field(protocol) + e));
    lemma_str_roundtrip(client, str_field(protocol) + e);
    lemma_str_roundtrip(protocol, e);
}

/// A client payload carries its request faithfully.
pub proof fn lemma_client_payload_roundtrip(m: ClientMsg)
    requires
        m.well_formed(),
    ensures
        parse_client_payload(m.msg_type(), m.payload()) == Ok::<ClientMsg, WireError>(m),
{
    let e = Seq::<u8>::empty();
    match m {
        ClientMsg::ClientHello { client, protocol } => {
            lemma_client_hello_roundtrip(client, protocol);
        },
        ClientMsg::Ping { id } => {
            assert(m.payload() =~= spec_u64_to_le_bytes(id) + e);
            lemma_take_u64_of(id, e);
        },
        ClientMsg::Subscribe { ifaces } => {
            assert(m.payload() =~= str_list(ifaces) + e);
            lemma_str_list_roundtrip(ifaces, e);
        },
        ClientMsg::SendFrame { iface, id, is_fd, brs, esi, data } => {
            lemma_send_frame_roundtrip(iface, id, is_fd, brs, esi, data);
            assert(parse_client_payload(m.msg_type(), m.payload()) == crate::format::parse_send_frame(m.payload()));
        },
        _ => {},
    }
}

proof fn lemma_hello_ack_roundtrip(
    version: Seq<char>,
    server_name: Seq<char>,
    features: Seq<Seq<char>>,
)
    requires
        str_fits(version),
        str_fits(server_name),
        list_fits(features),
    ensures
        ({
            let m = DaemonMsg::HelloAck { version, server_name, features };
            parse_daemon_payload(m.msg_type(), m.payload()) == Ok::<DaemonMsg, WireError>(m)
        }),
{
    let m = DaemonMsg::HelloAck { version, server_name, features };
    let e = Seq::<u8>::empty();
    let r2 = str_list(features) + e;
    let r1 = str_field(server_name) + r2;
    assert(m.payload() =~= str_field(version) + r1);
    lemma_str_roundtrip(version, r1);
    lemma_str_roundtrip(server_name, r2);
    lemma_str_list_roundtrip(features, e);
}

proof fn lemma_send_ack_roundtrip(ok: bool, error_message: Option<Seq<char>>)
    requires
        match error_message {
            Some(t) => str_fits(t) && t.len() > 0,
            None => true,
        },
    ensures
        ({
            let m = DaemonMsg::SendAck { ok, error_message };
            parse_daemon_payload(m.msg_type(), m.payload()) == Ok::<DaemonMsg, WireError>(m)
        }),
{
    let m = DaemonMsg::SendAck { ok, error_message };
    let e = Seq::<u8>::empty();
    let text = match error_message {
        Some(t) => t,
        None => Seq::<char>::empty(),
    };
    let r = str_field(text) + e;
    assert(m.payload() =~= seq![bool_byte(ok)] + r);
    lemma_take_u8_of(bool_byte(ok), r);
    assert(str_fits(text)) by {
        if error_message is None {
            assert(encode_utf8(text) =~= Seq::<u8>::empty());
        }
    }
    lemma_str_roundtrip(text, e);
}

proof fn lemma_frame_event_roundtrip(
    ts_ms: u64,
    iface: Seq<char>,
    dir: Seq<char>,
    id: u32,
    is_fd: bool,
    data: Seq<u8>,
)
    requires
        str_fits(iface),
        str_fits(dir),
        data.len() <= 0xffff,
    ensures
        ({
            let m = DaemonMsg::FrameEvent { ts_ms, iface, dir, id, is_fd, data };
            crate::format::parse_frame_event(m.payload()) == Ok::<DaemonMsg, WireError>(m)
        }),
{
    let m = DaemonMsg::FrameEvent { ts_ms, iface, dir, id, is_fd, data };
    let e = Seq::<u8>::empty();
    let r5 = data_field(data) + e;
    let r4 = seq![bool_byte(is_fd)] + r5;
    let r3 = spec_u32_to_le_bytes(id) + r4;
    let r2 = str_field(dir) + r3;
    let r1 = str_field(iface) + r2;
    assert(m.payload() =~= spec_u64_to_le_bytes(ts_ms) + r1);
    lemma_take_u64_of(ts_ms, r1);
    assert(take_u64(m.payload()) == Ok::<(u64, Seq<u8>), WireError>((ts_ms, r1)));
    lemma_str_roundtrip(iface, r2);
    lemma_str_roundtrip(dir, r3);
    lemma_take_u32_of(id, r4);
    lemma_take_u8_of(bool_byte(is_fd), r5);
    lemma_data_roundtrip(data, e);
    assert((bool_byte(is_fd) != 0) == is_fd);
    assert(crate::format::parse_frame_event(m.payload()) == Ok::<DaemonMsg, WireError>(m));
}

/// A daemon payload carries its response faithfully.
pub proof fn lemma_daemon_payload_roundtrip(m: DaemonMsg)
    requires
        m.well_formed(),
    ensures
        parse_daemon_payload(m.msg_type(), m.payload()) == Ok::<DaemonMsg, WireError>(m),
{
    let e = Seq::<u8>::empty();
    match m {
        DaemonMsg::HelloAck { version, server_name, features } => {
            lemma_hello_ack_roundtrip(version, server_name, features);
        },
        DaemonMsg::Pong { id } => {
            assert(m.payload() =~= spec_u64_to_le_bytes(id) + e);
            lemma_take_u64_of(id, e);
        },
        DaemonMsg::Ifaces { items } => {
            assert(m.payload() =~= str_list(items) + e);
            lemma_str_list_roundtrip(items, e);
        },
        DaemonMsg::Subscribed { ifaces } => {
            assert(m.payload() =~= str_list(ifaces) + e);
            lemma_str_list_roundtrip(ifaces, e);
        },
        DaemonMsg::SendAck { ok, error_message } => {
            lemma_send_ack_roundtrip(ok, error_message);
        },
        DaemonMsg::FrameEvent { ts_ms, iface, dir, id, is_fd, data } => {
            lemma_frame_event_roundtrip(ts_ms, iface, dir, id, is_fd, data);
            assert(parse_daemon_payload(m.msg_type(), m.payload()) == crate::format::parse_frame_event(m.payload()));
        },
        DaemonMsg::Error { message } => {
            assert(m.payload() =~= str_field(message) + e);
            lemma_str_roundtrip(message, e);
        },
        _ => {},
    }
}

/// A packet whose payload length fits a `u32` is found at the front of any
/// buffer that starts with it, with its payload and its exact length.
pub proof fn lemma_packet_roundtrip(t: MsgType, p: Seq<u8>, rest: Seq<u8>)
    requires
        p.len() <= u32::MAX,
    ensures
        parse_packet(packet(t, p) + rest) == Ok::<Option<(MsgType, Seq<u8>, nat)>, WireError>(
            Some((t, p, header_len() + p.len()))),
        packet(t, p).len() == header_len() + p.len(),
{
    lemma_le_bytes();
    let buf = packet(t, p) + rest;
    let code = spec_u16_to_le_bytes(t.wire_code());
    let flags = spec_u16_to_le_bytes(0);
    let len = spec_u32_to_le_bytes(p.len() as u32);
    assert(buf =~= magic_bytes() + code + flags + len + p + rest);
    assert(buf.take(4) =~= magic_bytes());
    assert(buf.subrange(4, 6) =~= code);
    assert(buf.subrange(8, 12) =~= len);
    assert(buf.subrange(12, 12 + p.len() as int) =~= p);
    lemma_msg_type_code(t, 0);
}

/// Law: what `encode_client` writes, `decode_client_from` reads back — the
/// same request, consuming exactly the packet, whatever bytes follow it.
pub proof fn client_roundtrip(m: ClientMsg, rest: Seq<u8>)
    requires
        m.well_formed(),
    ensures
        parse_client_from(client_packet(m) + rest) == Ok::<Option<(ClientMsg, nat)>, WireError>(
            Some((m, client_packet(m).len()))),
        (client_packet(m) + rest).skip(client_packet(m).len() as int) == rest,
{
    lemma_packet_roundtrip(m.msg_type(), m.payload(), rest);
    lemma_client_payload_roundtrip(m);
    assert((client_packet(m) + rest).skip(client_packet(m).len() as int) =~= rest);
}

/// Law: what `encode_daemon` writes, `decode_daemon_from` reads back — the
/// same response, consuming exactly the packet, whatever bytes follow it.
pub proof fn daemon_roundtrip(m: DaemonMsg, rest: Seq<u8>)
    requires
        m.well_formed(),
    ensures
        parse_daemon_from(daemon_packet(m) + rest) == Ok::<Option<(DaemonMsg, nat)>, WireError>(
            Some((m, daemon_packet(m).len()))),
        (daemon_packet(m) + rest).skip(daemon_packet(m).len() as int) == rest,
{
    lemma_packet_roundtrip(m.msg_type(), m.payload(), rest);
    lemma_daemon_payload_roundtrip(m);
    assert((daemon_packet(m) + rest).skip(daemon_packet(m).len() as int) =~= rest);
}

/// Law: a packet that has only partly arrived is not decoded yet: every
/// proper prefix of an encoded packet gives `Ok(None)`, for either side.
pub proof fn partial_packet_waits(t: MsgType, p: Seq<u8>, k: int)
    requires
        p.len() <= u32::MAX,
        0 <= k < packet(t, p).len(),
    ensures
        parse_packet(packet(t, p).take(k)) == Ok::<Option<(MsgType, Seq<u8>, nat)>, WireError>(
            None,
        ),
{
    lemma_le_bytes();
    let buf = packet(t, p).take(k);
    let len = spec_u32_to_le_bytes(p.len() as u32);
    if k >= 12 {
        assert(packet(t, p) =~= magic_bytes() + spec_u16_to_le_bytes(t.wire_code())
            + spec_u16_to_le_bytes(0) + len + p);
        assert(buf.take(4) =~= magic_bytes());
        assert(buf.subrange(8, 12) =~= len);
    }
}

/// Law: a client packet is refused by the daemon-side decoder, and a daemon
/// packet by the client-side decoder, each with the error that names the type.
pub proof fn sides_do_not_mix(c: ClientMsg, d: DaemonMsg, rest: Seq<u8>)
    requires
        c.payload().len() <= u32::MAX,
        d.payload().len() <= u32::MAX,
    ensures
        parse_daemon_from(client_packet(c) + rest) == Err::<Option<(DaemonMsg, nat)>, WireError>(
            WireError::ClientTypeForDaemon { msg_type: c.msg_type() },
        ),
        parse_client_from(daemon_packet(d) + rest) == Err::<Option<(ClientMsg, nat)>, WireError>(
            WireError::DaemonTypeForClient { msg_type: d.msg_type() },
        ),
{
    lemma_packet_roundtrip(c.msg_type(), c.payload(), rest);
    lemma_packet_roundtrip(d.msg_type(), d.payload(), rest);
}

/// The bytes of several client packets sent back to back.
pub open spec fn client_stream(ms: Seq<ClientMsg>) -> Seq<u8>
    decreases ms.len(),
{
    if ms.len() == 0 {
        seq![]
    } else {
        client_packet(ms[0]) + client_stream(ms.drop_first())
    }
}

/// Law: requests sent back to back and received in one buffer come out one
/// at a time, in order: decoding the buffer gives the first request, and the
/// bytes after it are exactly the remaining requests' packets.
pub proof fn back_to_back_requests(ms: Seq<ClientMsg>, rest: Seq<u8>)
    requires
        ms.len() > 0,
        forall|i: int| 0 <= i < ms.len() ==> (#[trigger] ms[i]).well_formed(),
    ensures
        parse_client_from(client_stream(ms) + rest) == Ok::<Option<(ClientMsg, nat)>, WireError>(
            Some((ms[0], client_packet(ms[0]).len()))),
        (client_stream(ms) + rest).skip(client_packet(ms[0]).len() as int) == client_stream(
            ms.drop_first(),
        ) + rest,
{
    let tail = client_stream(ms.drop_first()) + rest;
    assert(client_stream(ms) + rest =~= client_packet(ms[0]) + tail);
    assert(ms[0].well_formed());
    client_roundtrip(ms[0], tail);
}

/// Law: a decoded packet never reaches past the buffer: it takes at least
/// the header and at most the bytes received, and its payload is exactly the
/// bytes after the header, so the caller may drop that many bytes.
pub proof fn decoded_packet_lies_in_buffer(buf: Seq<u8>)
    ensures
        parse_packet(buf) matches Ok(Some((t, p, n))) ==> header_len() <= n <= buf.len() && p
            == buf.subrange(header_len() as int, n as int) && buf.take(4) == magic_bytes(),
{
}

/// Law: an acknowledgement without an error text is written exactly as one
/// whose text is empty: the ok byte, then a string field of length zero.
pub proof fn absent_error_is_empty_text(ok: bool)
    ensures
        (DaemonMsg::SendAck { ok, error_message: None }).payload() == (DaemonMsg::SendAck {
            ok,
            error_message: Some(Seq::empty()),
        }).payload(),
        (DaemonMsg::SendAck { ok, error_message: None }).payload() == seq![bool_byte(ok)]
            + str_field(Seq::empty()),
        str_field(Seq::empty()).len() == 2,
        take_u16(str_field(Seq::empty())) == Ok::<(u16, Seq<u8>), WireError>((0, Seq::empty())),
{
    lemma_le_bytes();
    assert(encode_utf8(Seq::<char>::empty()) =~= Seq::<u8>::empty());
    assert(str_len_written(Seq::empty()) == 0);
    lemma_take_u16_of(0, Seq::empty());
    assert(spec_u16_to_le_bytes(0) + Seq::<u8>::empty() =~= spec_u16_to_le_bytes(0));
    assert(str_field(Seq::empty()) =~= spec_u16_to_le_bytes(0));
}

proof fn lemma_u8_extends(s: Seq<u8>, e: Seq<u8>)
    ensures
        take_u8(s) matches Ok((x, r)) ==> take_u8(s + e) == Ok::<(u8, Seq<u8>), WireError>(
            (x, r + e),
        ),
{
    if s.len() >= 1 {
        assert((s + e).skip(1) =~= s.skip(1) + e);
    }
}

proof fn lemma_u16_extends(s: Seq<u8>, e: Seq<u8>)
    ensures
        take_u16(s) matches Ok((x, r)) ==> take_u16(s + e) == Ok::<(u16, Seq<u8>), WireError>(
            (x, r + e),
        ),
{
    if s.len() >= 2 {
        assert((s + e).take(2) =~= s.take(2));
        assert((s + e).skip(2) =~= s.skip(2) + e);
    }
}

proof fn lemma_u32_extends(s: Seq<u8>, e: Seq<u8>)
    ensures
        take_u32(s) matches Ok((x, r)) ==> take_u32(s + e) == Ok::<(u32, Seq<u8>), WireError>(
            (x, r + e),
        ),
{
    if s.len() >= 4 {
        assert((s + e).take(4) =~= s.take(4));
        assert((s + e).skip(4) =~= s.skip(4) + e);
    }
}

proof fn lemma_u64_extends(s: Seq<u8>, e: Seq<u8>)
    ensures
        take_u64(s) matches Ok((x, r)) ==> take_u64(s + e) == Ok::<(u64, Seq<u8>), WireError>(
            (x, r + e),
        ),
{
    if s.len() >= 8 {
        assert((s + e).take(8) =~= s.take(8));
        assert((s + e).skip(8) =~= s.skip(8) + e);
    }
}

proof fn lemma_str_extends(s: Seq<u8>, e: Seq<u8>)
    ensures
        take_str(s) matches Ok((x, r)) ==> take_str(s + e) == Ok::<(Seq<char>, Seq<u8>), WireError>(
            (x, r + e),
        ),
{
    lemma_u16_extends(s, e);
    if let Ok((n, r)) = take_u16(s) {
        if r.len() >= n {
            assert((r + e).take(n as int) =~= r.take(n as int));
            assert((r + e).skip(n as int) =~= r.skip(n as int) + e);
        }
    }
}

proof fn lemma_strs_extends(s: Seq<u8>, count: nat, e: Seq<u8>)
    ensures
        take_strs(s, count) matches Ok((x, r)) ==> take_strs(s + e, count) == Ok::<
            (Seq<Seq<char>>, Seq<u8>),
            WireError,
        >((x, r + e)),
    decreases count,
{
    if count > 0 {
        lemma_strs_extends(s, (count - 1) as nat, e);
        if let Ok((items, r)) = take_strs(s, (count - 1) as nat) {
            lemma_str_extends(r, e);
        }
    }
}

proof fn lemma_str_list_extends(s: Seq<u8>, e: Seq<u8>)
    ensures
        take_str_list(s) matches Ok((x, r)) ==> take_str_list(s + e) == Ok::<
            (Seq<Seq<char>>, Seq<u8>),
            WireError,
        >((x, r + e)),
{
    lemma_u16_extends(s, e);
    if let Ok((n, r)) = take_u16(s) {
        lemma_strs_extends(r, n as nat, e);
    }
}

proof fn lemma_data_extends(s: Seq<u8>, e: Seq<u8>)
    ensures
        take_data(s) matches Ok((x, r)) ==> take_data(s + e) == Ok::<(Seq<u8>, Seq<u8>), WireError>(
            (x, r + e),
        ),
{
    lemma_u16_extends(s, e);
    if let Ok((n, r)) = take_u16(s) {
        if r.len() >= n {
            assert((r + e).take(n as int) =~= r.take(n as int));
            assert((r + e).skip(n as int) =~= r.skip(n as int) + e);
        }
    }
}

/// Law: bytes after the last field of a client payload are ignored: a
/// payload that decodes still decodes, to the same request, with anything
/// appended.
pub proof fn trailing_bytes_ignored(t: MsgType, p: Seq<u8>, extra: Seq<u8>)
    requires
        (parse_client_payload(t, p) is Ok),
    ensures
        parse_client_payload(t, p + extra) == parse_client_payload(t, p),
{
    match t {
        MsgType::ClientHello => {
            lemma_str_extends(p, extra);
            if let Ok((client, r)) = take_str(p) {
                lemma_str_extends(r, extra);
            }
        },
        MsgType::Ping => lemma_u64_extends(p, extra),
        MsgType::Subscribe => lemma_str_list_extends(p, extra),
        MsgType::SendFrame => {
            lemma_str_extends(p, extra);
            if let Ok((iface, r1)) = take_str(p) {
                lemma_u32_extends(r1, extra);
                if let Ok((id, r2)) = take_u32(r1) {
                    lemma_u8_extends(r2, extra);
                    if let Ok((fd, r3)) = take_u8(r2) {
                        lemma_u8_extends(r3, extra);
                        if let Ok((brs, r4)) = take_u8(r3) {
                            lemma_u8_extends(r4, extra);
                            if let Ok((esi, r5)) = take_u8(r4) {
                                lemma_data_extends(r5, extra);
                            }
                        }
                    }
                }
            }
        },
        _ => {},
    }
}

/// A prefix of `a + t` is a prefix of `a`, or all of `a` and a prefix of `t`.
proof fn lemma_prefix_split(a: Seq<u8>, t: Seq<u8>, k: int)
    requires
        0 <= k <= a.len() + t.len(),
    ensures
        k < a.len() ==> (a + t).take(k) == a.take(k),
        k >= a.len() ==> (a + t).take(k) == a + t.take(k - a.len()),
{
    if k < a.len() {
        assert((a + t).take(k) =~= a.take(k));
    } else {
        assert((a + t).take(k) =~= a + t.take(k - a.len()));
    }
}

/// A string field cut short is refused.
proof fn lemma_str_prefix_fails(s: Seq<char>, k: int)
    requires
        str_fits(s),
        0 <= k < str_field(s).len(),
    ensures
        (take_str(str_field(s).take(k)) is Err),
{
    lemma_le_bytes();
    let b = encode_utf8(s);
    let n = str_len_written(s);
    assert(b.take(n as int) =~= b);
    if k >= 2 {
        lemma_prefix_split(spec_u16_to_le_bytes(n as u16), b, k);
        lemma_take_u16_of(n as u16, b.take(k - 2));
    }
}

/// String fields cut short are refused.
proof fn lemma_strs_prefix_fails(items: Seq<Seq<char>>, j: int)
    requires
        forall|i: int| 0 <= i < items.len() ==> str_fits(#[trigger] items[i]),
        0 <= j < str_fields(items).len(),
    ensures
        (take_strs(str_fields(items).take(j), items.len()) is Err),
    decreases items.len(),
{
    let front = items.drop_last();
    let last = items.last();
    let ff = str_fields(front);
    assert forall|i: int| 0 <= i < front.len() implies str_fits(#[trigger] front[i]) by {
        assert(front[i] == items[i]);
    }
    assert(str_fits(items[items.len() - 1]));
    lemma_prefix_split(ff, str_field(last), j);
    if j < ff.len() {
        lemma_strs_prefix_fails(front, j);
    } else {
        let j2 = j - ff.len();
        lemma_strs_roundtrip(front, str_field(last).take(j2));
        lemma_str_prefix_fails(last, j2);
    }
}

/// A list of strings cut short is refused.
proof fn lemma_str_list_prefix_fails(items: Seq<Seq<char>>, k: int)
    requires
        list_fits(items),
        0 <= k < str_list(items).len(),
    ensures
        (take_str_list(str_list(items).take(k)) is Err),
{
    lemma_le_bytes();
    if k >= 2 {
        let c = items.len() as u16;
        lemma_prefix_split(spec_u16_to_le_bytes(c), str_fields(items), k);
        lemma_take_u16_of(c, str_fields(items).take(k - 2));
        lemma_strs_prefix_fails(items, k - 2);
    }
}

/// Frame data cut short is refused.
proof fn lemma_data_prefix_fails(data: Seq<u8>, k: int)
    requires
        data.len() <= 0xffff,
        0 <= k < data_field(data).len(),
    ensures
        (take_data(data_field(data).take(k)) is Err),
{
    lemma_le_bytes();
    if k >= 2 {
        lemma_prefix_split(spec_u16_to_le_bytes(data.len() as u16), data, k);
        lemma_take_u16_of(data.len() as u16, data.take(k - 2));
    }
}

/// A greeting cut short is refused.
proof fn lemma_hello_ack_prefix_fails(
    version: Seq<char>,
    server_name: Seq<char>,
    features: Seq<Seq<char>>,
    k: int,
)
    requires
        str_fits(version),
        str_fits(server_name),
        list_fits(features),
        0 <= k < (DaemonMsg::HelloAck { version, server_name, features }).payload().len(),
    ensures
        (parse_daemon_payload(
            MsgType::HelloAck,
            (DaemonMsg::HelloAck { version, server_name, features }).payload().take(k),
        ) is Err),
{
    let a = str_field(version);
    let b = str_field(server_name);
    let c = str_list(features);
    assert((DaemonMsg::HelloAck { version, server_name, features }).payload() =~= a + (b + c));
    lemma_prefix_split(a, b + c, k);
    if k < a.len() {
        lemma_str_prefix_fails(version, k);
    } else {
        let k1 = k - a.len();
        lemma_prefix_split(b, c, k1);
        lemma_str_roundtrip(version, (b + c).take(k1));
        if k1 < b.len() {
            lemma_str_prefix_fails(server_name, k1);
        } else {
            lemma_str_roundtrip(server_name, c.take(k1 - b.len()));
            lemma_str_list_prefix_fails(features, k1 - b.len());
        }
    }
}

/// A frame event cut short is refused.
proof fn lemma_frame_event_prefix_fails(
    ts_ms: u64,
    iface: Seq<char>,
    dir: Seq<char>,
    id: u32,
    is_fd: bool,
    data: Seq<u8>,
    k: int,
)
    requires
        str_fits(iface),
        str_fits(dir),
        data.len() <= 0xffff,
        0 <= k < (DaemonMsg::FrameEvent { ts_ms, iface, dir, id, is_fd, data }).payload().len(),
    ensures
        (crate::format::parse_frame_event(
            (DaemonMsg::FrameEvent { ts_ms, iface, dir, id, is_fd, data }).payload().take(k),
        ) is Err),
{
    lemma_le_bytes();
    let u = spec_u64_to_le_bytes(ts_ms);
    let i = str_field(iface);
    let d = str_field(dir);
    let v = spec_u32_to_le_bytes(id);
    let f = seq![bool_byte(is_fd)];
    let x = data_field(data);
    let t4 = f + x;
    let t3 = v + t4;
    let t2 = d + t3;
    let t1 = i + t2;
    assert((DaemonMsg::FrameEvent { ts_ms, iface, dir, id, is_fd, data }).payload() =~= u + t1);
    lemma_prefix_split(u, t1, k);
    if k >= 8 {
        let k1 = k - 8;
        lemma_take_u64_of(ts_ms, t1.take(k1));
        lemma_prefix_split(i, t2, k1);
        if k1 < i.len() {
            lemma_str_prefix_fails(iface, k1);
        } else {
            let k2 = k1 - i.len();
            lemma_str_roundtrip(iface, t2.take(k2));
            lemma_prefix_split(d, t3, k2);
            if k2 < d.len() {
                lemma_str_prefix_fails(dir, k2);
            } else {
                let k3 = k2 - d.len();
                lemma_str_roundtrip(dir, t3.take(k3));
                lemma_prefix_split(v, t4, k3);
                if k3 >= 4 {
                    let k4 = k3 - 4;
                    lemma_take_u32_of(id, t4.take(k4));
                    lemma_prefix_split(f, x, k4);
                    if k4 >= 1 {
                        lemma_take_u8_of(bool_byte(is_fd), x.take(k4 - 1));
                        lemma_data_prefix_fails(data, k4 - 1);
                    }
                }
            }
        }
    }
}

/// Law: a response's payload cut short is never decoded: every strict
/// prefix of the payload of a response that the format carries faithfully,
/// or of an acknowledgement with an empty error text, is refused with an
/// error.
pub proof fn truncated_payload_refused(m: DaemonMsg, k: int)
    requires
        m.well_formed() || (m matches DaemonMsg::SendAck { error_message: Some(t), .. } && t.len()
            == 0),
        0 <= k < m.payload().len(),
    ensures
        (parse_daemon_payload(m.msg_type(), m.payload().take(k)) is Err),
{
    lemma_le_bytes();
    match m {
        DaemonMsg::HelloAck { version, server_name, features } => {
            lemma_hello_ack_prefix_fails(version, server_name, features, k);
        },
        DaemonMsg::Pong { id } => {},
        DaemonMsg::Ifaces { items } => lemma_str_list_prefix_fails(items, k),
        DaemonMsg::Subscribed { ifaces } => lemma_str_list_prefix_fails(ifaces, k),
        DaemonMsg::Unsubscribed => {},
        DaemonMsg::SendAck { ok, error_message } => {
            let text = match error_message {
                Some(t) => t,
                None => Seq::<char>::empty(),
            };
            assert(str_fits(text)) by {
                if error_message is None {
                    assert(encode_utf8(text) =~= Seq::<u8>::empty());
                }
            }
            let f = seq![bool_byte(ok)];
            lemma_prefix_split(f, str_field(text), k);
            if k >= 1 {
                lemma_take_u8_of(bool_byte(ok), str_field(text).take(k - 1));
                lemma_str_prefix_fails(text, k - 1);
            }
        },
        DaemonMsg::FrameEvent { ts_ms, iface, dir, id, is_fd, data } => {
            lemma_frame_event_prefix_fails(ts_ms, iface, dir, id, is_fd, data, k);
        },
        DaemonMsg::Error { message } => lemma_str_prefix_fails(message, k),
    }
}

/// Law: each message travels under the type number that the protocol
/// assigns it (requests 101 to 106, responses 1 to 8), and exactly those
/// numbers are read back as types, each as the type that travels under it.
pub proof fn protocol_type_numbers(c: ClientMsg, d: DaemonMsg, v: u16)
    ensures
        c.msg_type().wire_code() == match c {
            ClientMsg::ClientHello { .. } => 101u16,
            ClientMsg::Ping { .. } => 102u16,
            ClientMsg::ListIfaces => 103u16,
            ClientMsg::Subscribe { .. } => 104u16,
            ClientMsg::Unsubscribe => 105u16,
            ClientMsg::SendFrame { .. } => 106u16,
        },
        d.msg_type().wire_code() == match d {
            DaemonMsg::HelloAck { .. } => 1u16,
            DaemonMsg::Pong { .. } => 2u16,
            DaemonMsg::Ifaces { .. } => 3u16,
            DaemonMsg::Subscribed { .. } => 4u16,
            DaemonMsg::Unsubscribed => 5u16,
            DaemonMsg::SendAck { .. } => 6u16,
            DaemonMsg::FrameEvent { .. } => 7u16,
            DaemonMsg::Error { .. } => 8u16,
        },
        (msg_type_of(v) is Ok) <==> (1 <= v <= 8 || 101 <= v <= 106),
        msg_type_of(v) matches Ok(t) ==> t.wire_code() == v,
{
}

/// Law: a greeting's payload holds the version first, then the server name,
/// then the features: the packet's bytes right after the header are the
/// version's string field, and reading a string, a string and a list of
/// strings off the payload gives those three, with nothing left.
pub proof fn hello_ack_field_order(
    version: Seq<char>,
    server_name: Seq<char>,
    features: Seq<Seq<char>>,
)
    requires
        str_fits(version),
        str_fits(server_name),
        list_fits(features),
    ensures
        ({
            let m = DaemonMsg::HelloAck { version, server_name, features };
            let p = m.payload();
            &&& daemon_packet(m).subrange(12, 12 + str_field(version).len() as int) == str_field(version)
            &&& take_str(p) matches Ok((v, r1)) && v == version && (take_str(r1) matches Ok(
                (s, r2),
            ) && s == server_name && take_str_list(r2) == Ok::<
                (Seq<Seq<char>>, Seq<u8>),
                WireError,
            >((features, Seq::empty())))
        }),
{
    lemma_le_bytes();
    let m = DaemonMsg::HelloAck { version, server_name, features };
    let e = Seq::<u8>::empty();
    let r2 = str_list(features) + e;
    let r1 = str_field(server_name) + r2;
    assert(m.payload() =~= str_field(version) + r1);
    lemma_str_roundtrip(version, r1);
    lemma_str_roundtrip(server_name, r2);
    lemma_str_list_roundtrip(features, e);
    let pk = daemon_packet(m);
    assert(pk =~= (magic_bytes() + spec_u16_to_le_bytes(m.msg_type().wire_code())
        + spec_u16_to_le_bytes(0) + spec_u32_to_le_bytes(m.payload().len() as u32)) + m.payload());
    assert(pk.subrange(12, 12 + str_field(version).len() as int) =~= str_field(version));
}

/// Law: an acknowledgement's payload holds the ok flag as one byte (1 for
/// success, 0 for failure), then the error text as a string field.
pub proof fn send_ack_field_order(ok: bool, text: Seq<char>)
    requires
        str_fits(text),
    ensures
        ({
            let p = (DaemonMsg::SendAck { ok, error_message: Some(text) }).payload();
            &&& p[0] == (if ok {
                1u8
            } else {
                0u8
            })
            &&& take_str(p.skip(1)) == Ok::<(Seq<char>, Seq<u8>), WireError>((text, Seq::empty()))
        }),
{
    let p = (DaemonMsg::SendAck { ok, error_message: Some(text) }).payload();
    assert(p.skip(1) =~= str_field(text) + Seq::<u8>::empty());
    lemma_str_roundtrip(text, Seq::empty());
}

/// Law: a frame event's payload holds, in this order, the time stamp as a
/// little-endian `u64`, the interface, the direction, the id as a `u32`, the
/// FD flag as one byte, and the data; reading them off in that order gives
/// exactly the event's fields, with nothing left.
pub proof fn frame_event_field_order(
    ts_ms: u64,
    iface: Seq<char>,
    dir: Seq<char>,
    id: u32,
    is_fd: bool,
    data: Seq<u8>,
)
    requires
        str_fits(iface),
        str_fits(dir),
        data.len() <= 0xffff,
    ensures
        ({
            let p = (DaemonMsg::FrameEvent { ts_ms, iface, dir, id, is_fd, data }).payload();
            let a = str_field(iface).len() as int;
            let b = str_field(dir).len() as int;
            &&& take_u64(p) matches Ok((t, r1)) && t == ts_ms
            &&& take_str(p.skip(8)) matches Ok((i, r2)) && i == iface
            &&& take_str(p.skip(8 + a)) matches Ok((d, r3)) && d == dir
            &&& take_u32(p.skip(8 + a + b)) matches Ok(
                (n, r4),
            ) && n == id
            &&& p[12 + a + b] == (if is_fd {
                1u8
            } else {
                0u8
            })
            &&& take_data(p.skip(13 + a + b)) == Ok::<
                (Seq<u8>, Seq<u8>),
                WireError,
            >((data, Seq::empty()))
        }),
{
    lemma_le_bytes();
    let p = (DaemonMsg::FrameEvent { ts_ms, iface, dir, id, is_fd, data }).payload();
    let e = Seq::<u8>::empty();
    let x = data_field(data) + e;
    let f = seq![bool_byte(is_fd)] + x;
    let v = spec_u32_to_le_bytes(id) + f;
    let dd = str_field(dir) + v;
    let ii = str_field(iface) + dd;
    assert(p =~= spec_u64_to_le_bytes(ts_ms) + ii);
    lemma_take_u64_of(ts_ms, ii);
    let a = str_field(iface).len() as int;
    let b = str_field(dir).len() as int;
    assert(p.skip(8) =~= ii);
    lemma_str_roundtrip(iface, dd);
    assert(p.skip(8 + a) =~= dd);
    lemma_str_roundtrip(dir, v);
    assert(p.skip(8 + a + b) =~= v);
    lemma_take_u32_of(id, f);
    assert(p[12 + a + b] == bool_byte(is_fd));
    assert(p.skip(13 + a + b) =~= x);
    lemma_data_roundtrip(data, e);
}

/// Law: a hello request's payload holds the client's name, then the
/// protocol, each as a string field.
pub proof fn client_hello_field_order(client: Seq<char>, protocol: Seq<char>)
    requires
        str_fits(client),
        str_fits(protocol),
    ensures
        ({
            let p = (ClientMsg::ClientHello { client, protocol }).payload();
            &&& take_str(p) matches Ok((c, r1)) && c == client && take_str(r1) == Ok::<
                (Seq<char>, Seq<u8>),
                WireError,
            >((protocol, Seq::empty()))
        }),
{
    let e = Seq::<u8>::empty();
    let r1 = str_field(protocol) + e;
    assert((ClientMsg::ClientHello { client, protocol }).payload() =~= str_field(client) + r1);
    lemma_str_roundtrip(client, r1);
    lemma_str_roundtrip(protocol, e);
}

/// Law: a frame-send request's payload holds, in this order, the interface,
/// the id as a little-endian `u32`, the FD, bit-rate-switch and error-state
/// flags as one byte each, and the data.
pub proof fn send_frame_field_order(
    iface: Seq<char>,
    id: u32,
    is_fd: bool,
    brs: bool,
    esi: bool,
    data: Seq<u8>,
)
    requires
        str_fits(iface),
        data.len() <= 0xffff,
    ensures
        ({
            let p = (ClientMsg::SendFrame { iface, id, is_fd, brs, esi, data }).payload();
            let a = str_field(iface).len() as int;
            &&& take_str(p) matches Ok((i, r1)) && i == iface
            &&& take_u32(p.skip(a)) matches Ok((n, r2)) && n == id
            &&& p[a + 4] == (if is_fd {
                1u8
            } else {
                0u8
            })
            &&& p[a + 5] == (if brs {
                1u8
            } else {
                0u8
            })
            &&& p[a + 6] == (if esi {
                1u8
            } else {
                0u8
            })
            &&& take_data(p.skip(a + 7)) == Ok::<(Seq<u8>, Seq<u8>), WireError>(
                (data, Seq::empty()),
            )
        }),
{
    lemma_le_bytes();
    let p = (ClientMsg::SendFrame { iface, id, is_fd, brs, esi, data }).payload();
    let e = Seq::<u8>::empty();
    let x = data_field(data) + e;
    let flags = seq![bool_byte(is_fd), bool_byte(brs), bool_byte(esi)];
    let v = spec_u32_to_le_bytes(id) + (flags + x);
    assert(p =~= str_field(iface) + v);
    let a = str_field(iface).len() as int;
    lemma_str_roundtrip(iface, v);
    assert(p.skip(a) =~= v);
    lemma_take_u32_of(id, flags + x);
    assert(p.skip(a + 7) =~= x);
    lemma_data_roundtrip(data, e);
}

} // verus!
