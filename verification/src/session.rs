//! One client connection in binary mode, as a state machine: the transport
//! feeds it bytes and requests, and does what each step says.
use crate::binary_message::{
    decode_client_from, strings_view, ClientBinaryRequest, DaemonBinaryResponse, HEADER_LEN, MAGIC,
};
use crate::format::{
    announced_len, header_len, magic_bytes, parse_client_from, parse_packet, take_strs, take_u16,
    ClientMsg, DaemonMsg, MsgType, WireError,
};
use crate::hex::{bytes_to_hex_lower, hex_roundtrip};
use crate::ports::{DiscoveryPort, FrameToSend};
use crate::protocol::{ClientRequest, ServerResponse};
use crate::service::{
    answers_listing, frame_capacity, handle_request, is_frame, send_frame_response, ServiceStep,
};
use crate::subscription::{clear_subscription_set, update_subscription_set, Subscriptions};
use crate::text::{
    bool_string, bool_text, bytes_string, bytes_text, decimal, decimal_string, quoted, quoted_string,
    strings_string, strings_text,
};
use vstd::prelude::*;
use vstd::bytes::u32_from_le_bytes;
use vstd::slice::{slice_subrange, slice_to_vec};
use vstd::string::*;

verus! {

/// The transport a session runs on; greetings and error texts differ.
#[derive(Debug, Clone, Copy, PartialEq, Eq, Structural)]
pub enum Transport {
    Tcp,
    WebSocket,
}

/// Where a session stands in its lifecycle.
#[derive(Debug, Clone, Copy, PartialEq, Eq, Structural)]
pub enum Phase {
    /// Waiting for the client's hello; nothing else is served.
    AwaitingHello,
    /// Handshake done; requests are served.
    Ready,
    /// The session has ended.
    Closed,
}

/// What the transport does after a step.
pub enum Step<R> {
    /// Send the reply and go on.
    Reply(R),
    /// Transmit the frame; the reply follows from the outcome.
    Transmit(FrameToSend),
    /// Send the reply, then end the session.
    ReplyAndClose(R),
    /// End the session without a reply.
    Close,
    /// End the session with an error.
    Fail,
}

/// The state of a binary session as an abstract value.
pub struct BinarySessionView {
    pub transport: Transport,
    pub phase: Phase,
    pub buffer: Seq<u8>,
}

/// A binary-mode session: the bytes received but not yet decoded, and the
/// handshake phase.
pub struct BinarySession {
    transport: Transport,
    phase: Phase,
    buffer: Vec<u8>,
}

impl View for BinarySession {
    type V = BinarySessionView;

    closed spec fn view(&self) -> BinarySessionView {
        BinarySessionView { transport: self.transport, phase: self.phase, buffer: self.buffer@ }
    }
}

/// The text that names a binary request in an error message.
pub open spec fn client_msg_text(m: ClientMsg) -> Seq<char> {
    match m {
        ClientMsg::ClientHello { client, protocol } => "ClientHello { client: "@ + quoted(client)
            + ", protocol: "@ + quoted(protocol) + " }"@,
        ClientMsg::Ping { id } => "Ping { id: "@ + decimal(id as nat) + " }"@,
        ClientMsg::ListIfaces => "ListIfaces"@,
        ClientMsg::Subscribe { ifaces } => "Subscribe { ifaces: "@ + strings_text(ifaces) + " }"@,
        ClientMsg::Unsubscribe => "Unsubscribe"@,
        ClientMsg::SendFrame { iface, id, is_fd, brs, esi, data } => "SendFrame { iface: "@
            + quoted(iface) + ", id: "@ + decimal(id as nat) + ", is_fd: "@ + bool_text(is_fd)
            + ", brs: "@ + bool_text(brs) + ", esi: "@ + bool_text(esi) + ", data: "@ + bytes_text(
            data,
        ) + " }"@,
    }
}

/// Renders a binary request for an error message.
pub fn client_request_text(req: &ClientBinaryRequest) -> (s: String)
    ensures
        s@ == client_msg_text(req@),
{
    match req {
        ClientBinaryRequest::ClientHello { client, protocol } => {
            let s = "ClientHello { client: ".to_owned().concat(
                quoted_string(client.as_str()).as_str(),
            ).concat(", protocol: ").concat(quoted_string(protocol.as_str()).as_str()).concat(
                " }",
            );
            assert(s@ =~= client_msg_text(req@));
            s
        },
        ClientBinaryRequest::Ping { id } => {
            let s = "Ping { id: ".to_owned().concat(decimal_string(*id).as_str()).concat(" }");
            assert(s@ =~= client_msg_text(req@));
            s
        },
        ClientBinaryRequest::ListIfaces => "ListIfaces".to_owned(),
        ClientBinaryRequest::Subscribe { ifaces } => {
            let s = "Subscribe { ifaces: ".to_owned().concat(strings_string(ifaces).as_str()).concat(
                " }",
            );
            assert(s@ =~= client_msg_text(req@));
            s
        },
        ClientBinaryRequest::Unsubscribe => "Unsubscribe".to_owned(),
        ClientBinaryRequest::SendFrame { iface, id, is_fd, brs, esi, data } => {
            let s = "SendFrame { iface: ".to_owned().concat(quoted_string(iface.as_str()).as_str()).concat(
                ", id: ",
            ).concat(decimal_string(*id as u64).as_str()).concat(", is_fd: ").concat(
                bool_string(*is_fd).as_str(),
            ).concat(", brs: ").concat(bool_string(*brs).as_str()).concat(", esi: ").concat(
                bool_string(*esi).as_str(),
            ).concat(", data: ").concat(bytes_string(data).as_str()).concat(" }");
            assert(s@ =~= client_msg_text(req@));
            s
        },
    }
}

/// The server name that every greeting carries.
pub open spec fn server_name_text() -> Seq<char> {
    "can-bridge-daemon"@
}

/// The features that a binary session announces.
pub open spec fn binary_features(transport: Transport) -> Seq<Seq<char>> {
    match transport {
        Transport::Tcp => seq!["tcp"@, "binary"@, "jsonl"@],
        Transport::WebSocket => seq!["ws"@, "binary"@, "json"@],
    }
}

/// The binary greeting of a transport.
pub open spec fn binary_hello_ack(transport: Transport) -> DaemonMsg {
    DaemonMsg::HelloAck {
        version: "1.0"@,
        server_name: server_name_text(),
        features: binary_features(transport),
    }
}

/// The start of the error sent when the first request is not a hello.
pub open spec fn binary_expected_hello_text(transport: Transport) -> Seq<char> {
    match transport {
        Transport::Tcp => "expected client_hello, got "@,
        Transport::WebSocket => "expected ClientHello, got "@,
    }
}

/// The error sent for a second hello.
pub open spec fn binary_repeated_hello_text(transport: Transport) -> Seq<char> {
    match transport {
        Transport::Tcp => "client_hello already completed"@,
        Transport::WebSocket => "ClientHello already completed"@,
    }
}

/// `r` answers an interface listing that came out as `listed`.
pub open spec fn binary_answers_listing(r: DaemonMsg, listed: Result<Vec<String>, String>) -> bool {
    match listed {
        Ok(items) => r == DaemonMsg::Ifaces { items: strings_view(items@) },
        Err(e) => r == DaemonMsg::Error { message: "list_ifaces failed: "@ + e@ },
    }
}

/// `r` acknowledges a transmission that came out as `sent`.
pub open spec fn binary_answers_send(r: DaemonMsg, sent: Result<(), String>) -> bool {
    match sent {
        Ok(()) => r == DaemonMsg::SendAck { ok: true, error_message: None },
        Err(e) => r == DaemonMsg::SendAck { ok: false, error_message: Some(e@) },
    }
}

/// The text that names a service answer in an error message.
pub open spec fn response_text(r: ServerResponse) -> Seq<char> {
    match r {
        ServerResponse::HelloAck { version, features, server_name } => "HelloAck { version: "@
            + quoted(version@) + ", features: "@ + strings_text(strings_view(features@))
            + ", server_name: "@ + quoted(server_name@) + " }"@,
        ServerResponse::Pong { id } => "Pong { id: "@ + decimal(id as nat) + " }"@,
        ServerResponse::Ifaces { items } => "Ifaces { items: "@ + strings_text(strings_view(items@))
            + " }"@,
        ServerResponse::Subscribed { ifaces } => "Subscribed { ifaces: "@ + strings_text(
            strings_view(ifaces@),
        ) + " }"@,
        ServerResponse::Unsubscribed => "Unsubscribed"@,
        ServerResponse::SendAck { ok, error_message } => "SendAck { ok: "@ + bool_text(ok)
            + ", error_message: "@ + match error_message {
            Some(m) => "Some("@ + quoted(m@) + ")"@,
            None => "None"@,
        } + " }"@,
        ServerResponse::Frame { ts_ms, iface, dir, id, is_fd, data_hex } => "Frame { ts_ms: "@
            + decimal(ts_ms as nat) + ", iface: "@ + quoted(iface@) + ", dir: "@ + quoted(dir@)
            + ", id: "@ + decimal(id as nat) + ", is_fd: "@ + bool_text(is_fd) + ", data_hex: "@
            + quoted(data_hex@) + " }"@,
        ServerResponse::Error { message } => "Error { message: "@ + quoted(message@) + " }"@,
    }
}

/// Renders a service answer for an error message.
pub fn response_text_string(r: &ServerResponse) -> (s: String)
    ensures
        s@ == response_text(*r),
{
    match r {
        ServerResponse::HelloAck { version, features, server_name } => {
            let s = "HelloAck { version: ".to_owned().concat(quoted_string(version.as_str()).as_str())
                .concat(", features: ").concat(strings_string(features).as_str()).concat(
                ", server_name: ",
            ).concat(quoted_string(server_name.as_str()).as_str()).concat(" }");
            assert(s@ =~= response_text(*r));
            s
        },
        ServerResponse::Pong { id } => {
            let s = "Pong { id: ".to_owned().concat(decimal_string(*id).as_str()).concat(" }");
            assert(s@ =~= response_text(*r));
            s
        },
        ServerResponse::Ifaces { items } => {
            let s = "Ifaces { items: ".to_owned().concat(strings_string(items).as_str()).concat(
                " }",
            );
            assert(s@ =~= response_text(*r));
            s
        },
        ServerResponse::Subscribed { ifaces } => {
            let s = "Subscribed { ifaces: ".to_owned().concat(strings_string(ifaces).as_str()).concat(
                " }",
            );
            assert(s@ =~= response_text(*r));
            s
        },
        ServerResponse::Unsubscribed => "Unsubscribed".to_owned(),
        ServerResponse::SendAck { ok, error_message } => {
            let detail = match error_message {
                Some(m) => "Some(".to_owned().concat(quoted_string(m.as_str()).as_str()).concat(")"),
                None => "None".to_owned(),
            };
            let s = "SendAck { ok: ".to_owned().concat(bool_string(*ok).as_str()).concat(
                ", error_message: ",
            ).concat(detail.as_str()).concat(" }");
            assert(s@ =~= response_text(*r));
            s
        },
        ServerResponse::Frame { ts_ms, iface, dir, id, is_fd, data_hex } => {
            let s = "Frame { ts_ms: ".to_owned().concat(decimal_string(*ts_ms).as_str()).concat(
                ", iface: ",
            ).concat(quoted_string(iface.as_str()).as_str()).concat(", dir: ").concat(
                quoted_string(dir.as_str()).as_str(),
            ).concat(", id: ").concat(decimal_string(*id as u64).as_str()).concat(", is_fd: ").concat(
                bool_string(*is_fd).as_str(),
            ).concat(", data_hex: ").concat(quoted_string(data_hex.as_str()).as_str()).concat(" }");
            assert(s@ =~= response_text(*r));
            s
        },
        ServerResponse::Error { message } => {
            let s = "Error { message: ".to_owned().concat(quoted_string(message.as_str()).as_str())
                .concat(" }");
            assert(s@ =~= response_text(*r));
            s
        },
    }
}

/// The start of the error sent when the service answers a listing with
/// something else.
pub open spec fn unexpected_listing_text(transport: Transport) -> Seq<char> {
    match transport {
        Transport::Tcp => "unexpected response for list_ifaces: "@,
        Transport::WebSocket => "unexpected list_ifaces response: "@,
    }
}

/// The start of the error sent when the service answers a frame request
/// with something else.
pub open spec fn unexpected_send_text(transport: Transport) -> Seq<char> {
    match transport {
        Transport::Tcp => "unexpected response for send_frame: "@,
        Transport::WebSocket => "unexpected send_frame response: "@,
    }
}

/// The binary reply to the service's answer to a listing.
pub open spec fn listing_reply_msg(transport: Transport, resp: ServerResponse) -> DaemonMsg {
    match resp {
        ServerResponse::Ifaces { items } => DaemonMsg::Ifaces { items: strings_view(items@) },
        ServerResponse::Error { message } => DaemonMsg::Error { message: message@ },
        _ => DaemonMsg::Error {
            message: unexpected_listing_text(transport) + response_text(resp),
        },
    }
}

/// The binary reply to the service's answer to a frame request.
pub open spec fn send_reply_msg(transport: Transport, resp: ServerResponse) -> DaemonMsg {
    match resp {
        ServerResponse::SendAck { ok, error_message } => DaemonMsg::SendAck {
            ok,
            error_message: match error_message {
                Some(m) => Some(m@),
                None => None,
            },
        },
        ServerResponse::Error { message } => DaemonMsg::SendAck {
            ok: false,
            error_message: Some(message@),
        },
        _ => DaemonMsg::Error { message: unexpected_send_text(transport) + response_text(resp) },
    }
}

/// Maps the service's answer to a listing onto the binary reply.
pub fn listing_reply(transport: Transport, resp: ServerResponse) -> (r: DaemonBinaryResponse)
    ensures
        r@ == listing_reply_msg(transport, resp),
{
    match resp {
        ServerResponse::Ifaces { items } => DaemonBinaryResponse::Ifaces { items },
        ServerResponse::Error { message } => DaemonBinaryResponse::Error { message },
        other => {
            let prefix = match transport {
                Transport::Tcp => "unexpected response for list_ifaces: ".to_owned(),
                Transport::WebSocket => "unexpected list_ifaces response: ".to_owned(),
            };
            DaemonBinaryResponse::Error {
                message: prefix.concat(response_text_string(&other).as_str()),
            }
        },
    }
}

/// Maps the service's answer to a frame request onto the binary reply.
pub fn send_reply(transport: Transport, resp: ServerResponse) -> (r: DaemonBinaryResponse)
    ensures
        r@ == send_reply_msg(transport, resp),
{
    match resp {
        ServerResponse::SendAck { ok, error_message } => DaemonBinaryResponse::SendAck {
            ok,
            error_message,
        },
        ServerResponse::Error { message } => DaemonBinaryResponse::SendAck {
            ok: false,
            error_message: Some(message),
        },
        other => {
            let prefix = match transport {
                Transport::Tcp => "unexpected response for send_frame: ".to_owned(),
                Transport::WebSocket => "unexpected send_frame response: ".to_owned(),
            };
            DaemonBinaryResponse::Error {
                message: prefix.concat(response_text_string(&other).as_str()),
            }
        },
    }
}

/// What a ready binary session does with a request, as far as it does not
/// rest on the discovery; `subs_after` is the subscription set after it.
pub open spec fn binary_ready_answer(
    transport: Transport,
    req: ClientMsg,
    subs_before: Set<Seq<char>>,
    subs_after: Set<Seq<char>>,
    step: Step<DaemonBinaryResponse>,
) -> bool {
    match req {
        ClientMsg::Ping { id } => subs_after == subs_before && (step matches Step::Reply(r) && r@
            == DaemonMsg::Pong { id }),
        ClientMsg::ListIfaces => subs_after == subs_before && (step matches Step::Reply(r)
            && exists|listed: Result<Vec<String>, String>| binary_answers_listing(r@, listed)),
        ClientMsg::Subscribe { ifaces } => subs_after == ifaces.to_set() && (step matches Step::Reply(
            r,
        ) && r@ == DaemonMsg::Subscribed { ifaces }),
        ClientMsg::Unsubscribe => subs_after == Set::<Seq<char>>::empty() && (step matches Step::Reply(
            r,
        ) && r@ == DaemonMsg::Unsubscribed),
        ClientMsg::SendFrame { iface, id, is_fd, brs, esi, data } => subs_after == subs_before
            && if data.len() > frame_capacity(is_fd) {
            step matches Step::Reply(r) && r@ == DaemonMsg::SendAck {
                ok: false,
                error_message: Some("data too long for frame"@),
            }
        } else {
            step matches Step::Transmit(f) && is_frame(f, iface, id, is_fd, brs, esi, data)
        },
        ClientMsg::ClientHello { .. } => subs_after == subs_before && (step matches Step::Reply(r)
            && r@ == DaemonMsg::Error { message: binary_repeated_hello_text(transport) }),
    }
}

/// Three owned strings.
pub(crate) fn owned_strings(a: &str, b: &str, c: &str) -> (v: Vec<String>)
    ensures
        strings_view(v@) == seq![a@, b@, c@],
{
    let mut v: Vec<String> = Vec::new();
    v.push(a.to_owned());
    v.push(b.to_owned());
    v.push(c.to_owned());
    assert(strings_view(v@) =~= seq![a@, b@, c@]);
    v
}

/// A copy of a list of strings.
pub(crate) fn copy_strings(v: &Vec<String>) -> (r: Vec<String>)
    ensures
        strings_view(r@) == strings_view(v@),
{
    let mut r: Vec<String> = Vec::new();
    let mut i: usize = 0;
    while i < v.len()
        invariant
            i <= v@.len(),
            strings_view(r@) == strings_view(v@).take(i as int),
        decreases v.len() - i,
    {
        let ghost before = r@;
        r.push(v[i].clone());
        assert(strings_view(r@) =~= strings_view(v@).take(i + 1)) by {
            assert(strings_view(r@) =~= strings_view(before).push(v@[i as int]@));
        }
        i += 1;
    }
    assert(strings_view(v@).take(v@.len() as int) =~= strings_view(v@));
    r
}

fn binary_greeting(transport: Transport) -> (r: DaemonBinaryResponse)
    ensures
        r@ == binary_hello_ack(transport),
{
    let features = match transport {
        Transport::Tcp => owned_strings("tcp", "binary", "jsonl"),
        Transport::WebSocket => owned_strings("ws", "binary", "json"),
    };
    DaemonBinaryResponse::HelloAck {
        version: "1.0".to_owned(),
        server_name: "can-bridge-daemon".to_owned(),
        features,
    }
}

/// Answers a request in a ready session.
fn answer_ready<D: DiscoveryPort + ?Sized>(
    transport: Transport,
    req: ClientBinaryRequest,
    subscribed: &mut Subscriptions,
    discovery: &D,
) -> (step: Step<DaemonBinaryResponse>)
    ensures
        binary_ready_answer(transport, req@, old(subscribed)@, final(subscribed)@, step),
        (req@ is ListIfaces) ==> exists|listed: Result<Vec<String>, String>|
            {
                &&& discovery.reports(listed)
                &&& step matches Step::Reply(r)
                &&& binary_answers_listing(r@, listed)
            },
{
    match req {
        ClientBinaryRequest::Ping { id } => Step::Reply(DaemonBinaryResponse::Pong { id }),
        ClientBinaryRequest::ListIfaces => {
            let answer = handle_request(discovery, ClientRequest::ListIfaces);
            match answer {
                ServiceStep::Answer(resp) => {
                    let r = listing_reply(transport, resp);
                    proof {
                        let listed = choose|listed: Result<Vec<String>, String>|
                            discovery.reports(listed) && answers_listing(resp, listed);
                        assert(binary_answers_listing(r@, listed));
                    }
                    Step::Reply(r)
                },
                ServiceStep::Transmit(f) => Step::Transmit(f),
            }
        },
        ClientBinaryRequest::Subscribe { ifaces } => {
            update_subscription_set(subscribed, copy_strings(&ifaces));
            Step::Reply(DaemonBinaryResponse::Subscribed { ifaces })
        },
        ClientBinaryRequest::Unsubscribe => {
            clear_subscription_set(subscribed);
            Step::Reply(DaemonBinaryResponse::Unsubscribed)
        },
        ClientBinaryRequest::SendFrame { iface, id, is_fd, brs, esi, data } => {
            let data_hex = bytes_to_hex_lower(data.as_slice());
            proof {
                hex_roundtrip(data@);
            }
            let answer = handle_request(
                discovery,
                ClientRequest::SendFrame { iface, id, is_fd, brs, esi, data_hex },
            );
            match answer {
                ServiceStep::Answer(resp) => Step::Reply(send_reply(transport, resp)),
                ServiceStep::Transmit(f) => Step::Transmit(f),
            }
        },
        ClientBinaryRequest::ClientHello { .. } => Step::Reply(
            DaemonBinaryResponse::Error {
                message: match transport {
                    Transport::Tcp => "client_hello already completed".to_owned(),
                    Transport::WebSocket => "ClientHello already completed".to_owned(),
                },
            },
        ),
    }
}

/// What the front of a receive buffer holds for a binary session: an
/// incomplete packet; a request and its packet's length; a complete packet
/// of an unknown type and its length; bytes that cannot start a packet, to
/// be skipped up to the next place where one could start; or an error that
/// ends the session.
pub enum StreamItem {
    Incomplete,
    Request(ClientMsg, nat),
    Unknown(u16, nat),
    Skip(nat),
    Fatal(WireError),
}

/// Position `q` of the buffer could start a packet: the bytes from there, as
/// far as they go (at most four), agree with the magic.
pub open spec fn may_start_packet(buf: Seq<u8>, q: int) -> bool {
    forall|j: int| q <= j < buf.len() && j < q + 4 ==> buf[j] == magic_bytes()[j - q]
}

/// The first position from `q` on that could start a packet; the buffer's
/// length if there is none.
pub open spec fn next_packet_start(buf: Seq<u8>, q: int) -> int
    decreases buf.len() - q,
{
    if q >= buf.len() || may_start_packet(buf, q) {
        q
    } else {
        next_packet_start(buf, q + 1)
    }
}

/// The front of a receive buffer, as a binary session reads it. A wrong
/// magic does not end the session: the bytes up to the next place where the
/// magic could start are skipped, and reading starts again there.
pub open spec fn stream_step(buf: Seq<u8>) -> StreamItem {
    match parse_client_from(buf) {
        Ok(None) => StreamItem::Incomplete,
        Ok(Some((m, n))) => StreamItem::Request(m, n),
        Err(e) => match e {
            WireError::UnknownMsgType { value } => StreamItem::Unknown(
                value,
                header_len() + announced_len(buf),
            ),
            WireError::BadMagic => StreamItem::Skip(next_packet_start(buf, 1) as nat),
            _ => StreamItem::Fatal(e),
        },
    }
}

/// How many bytes an item takes off the buffer.
pub open spec fn item_len(item: StreamItem) -> nat {
    match item {
        StreamItem::Request(_, n) => n,
        StreamItem::Unknown(_, n) => n,
        StreamItem::Skip(n) => n,
        _ => 0,
    }
}

/// The first item of a buffer that is not a skip, and how many bytes are
/// skipped before it.
pub open spec fn front(buf: Seq<u8>) -> (StreamItem, nat)
    decreases buf.len(),
{
    match stream_step(buf) {
        StreamItem::Skip(n) => if 0 < n <= buf.len() {
            let (item, k) = front(buf.skip(n as int));
            (item, n + k)
        } else {
            (StreamItem::Skip(n), 0)
        },
        item => (item, 0),
    }
}

/// Reading strings never fails for a wrong magic.
proof fn lemma_strs_error(buf: Seq<u8>, count: nat)
    ensures
        take_strs(buf, count) != Err::<(Seq<Seq<char>>, Seq<u8>), WireError>(WireError::BadMagic),
    decreases count,
{
    if count > 0 {
        lemma_strs_error(buf, (count - 1) as nat);
    }
}

/// A wrong magic is the error exactly for a header whose first four bytes
/// are not the magic.
proof fn lemma_bad_magic(buf: Seq<u8>)
    ensures
        (parse_client_from(buf) == Err::<Option<(ClientMsg, nat)>, WireError>(WireError::BadMagic))
            <==> (buf.len() >= header_len() && buf.take(4) != magic_bytes()),
{
    if let Ok(Some((t, p, n))) = parse_packet(buf) {
        if t == MsgType::Subscribe {
            if let Ok((c, r)) = take_u16(p) {
                lemma_strs_error(r, c as nat);
            }
        }
    }
}

/// A skip comes from a wrong magic, and reaches the next possible start.
proof fn lemma_skip_step(buf: Seq<u8>)
    requires
        stream_step(buf) is Skip,
    ensures
        buf.len() >= header_len(),
        buf.take(4) != magic_bytes(),
        1 <= next_packet_start(buf, 1) <= buf.len(),
        stream_step(buf) == StreamItem::Skip(next_packet_start(buf, 1) as nat),
        item_len(stream_step(buf)) == next_packet_start(buf, 1),
{
    lemma_bad_magic(buf);
    match parse_client_from(buf) {
        Err(WireError::BadMagic) => {},
        _ => {},
    }
    lemma_next_start_bounds(buf, 1);
}

/// The bounds of the next possible packet start.
proof fn lemma_next_start_bounds(buf: Seq<u8>, q: int)
    requires
        0 <= q <= buf.len(),
    ensures
        q <= next_packet_start(buf, q) <= buf.len(),
    decreases buf.len() - q,
{
    if q < buf.len() && !may_start_packet(buf, q) {
        lemma_next_start_bounds(buf, q + 1);
    }
}

/// A taken packet or a skip lies within the buffer and is not empty.
proof fn lemma_item_len_fits(buf: Seq<u8>)
    requires
        stream_step(buf) is Request || stream_step(buf) is Unknown || stream_step(buf) is Skip,
    ensures
        0 < item_len(stream_step(buf)) <= buf.len(),
{
    if stream_step(buf) is Unknown {
        lemma_unknown_type_is_whole_packet(buf);
    }
    if stream_step(buf) is Skip {
        lemma_skip_step(buf);
    }
}

/// The first item is never a skip.
proof fn lemma_front_not_skip(buf: Seq<u8>)
    ensures
        !(front(buf).0 is Skip),
        front(buf).1 <= buf.len(),
        front(buf).0 == stream_step(buf.skip(front(buf).1 as int)),
    decreases buf.len(),
{
    if stream_step(buf) is Skip {
        lemma_item_len_fits(buf);
        let n = item_len(stream_step(buf)) as int;
        lemma_front_not_skip(buf.skip(n));
        assert(buf.skip(n).skip(front(buf.skip(n)).1 as int) =~= buf.skip(front(buf).1 as int));
    } else {
        assert(buf.skip(0) =~= buf);
    }
}

/// The error reply for a packet of an unknown type.
pub open spec fn unknown_type_text(value: u16) -> Seq<char> {
    "unknown msg_type: "@ + decimal(value as nat)
}

/// The byte of the magic at place `i`.
fn magic_byte(i: usize) -> (b: u8)
    requires
        i < 4,
    ensures
        b == magic_bytes()[i as int],
{
    MAGIC[i]
}

/// Whether place `q` of the buffer could start a packet.
fn may_start_at(buf: &[u8], q: usize) -> (r: bool)
    requires
        q <= buf@.len(),
    ensures
        r == may_start_packet(buf@, q as int),
{
    let mut j: usize = q;
    while j < buf.len() && j - q < 4
        invariant
            q <= j <= buf@.len(),
            j <= q + 4,
            forall|i: int| q <= i < j ==> buf@[i] == magic_bytes()[i - q],
        decreases buf.len() - j,
    {
        if buf[j] != magic_byte(j - q) {
            return false;
        }
        j += 1;
    }
    true
}

/// The first place after the front where a packet could start; the
/// buffer's length if there is none.
fn next_start_after_front(buf: &[u8]) -> (q: usize)
    requires
        buf@.len() >= 1,
    ensures
        q == next_packet_start(buf@, 1),
{
    let mut q: usize = 1;
    while q < buf.len() && !may_start_at(buf, q)
        invariant
            1 <= q <= buf@.len(),
            next_packet_start(buf@, 1) == next_packet_start(buf@, q as int),
        decreases buf.len() - q,
    {
        q += 1;
    }
    q
}

impl BinarySession {
    /// A fresh session, waiting for the client's hello with nothing buffered.
    pub fn new(transport: Transport) -> (s: BinarySession)
        ensures
            s@.transport == transport,
            s@.phase == Phase::AwaitingHello,
            s@.buffer == Seq::<u8>::empty(),
    {
        BinarySession { transport, phase: Phase::AwaitingHello, buffer: Vec::new() }
    }

    /// Where the session stands.
    pub fn phase(&self) -> (p: Phase)
        ensures
            p == self@.phase,
    {
        self.phase
    }

    /// Appends received bytes to the buffer.
    pub fn feed(&mut self, bytes: &[u8])
        ensures
            final(self)@.buffer == old(self)@.buffer + bytes@,
            final(self)@.phase == old(self)@.phase,
            final(self)@.transport == old(self)@.transport,
    {
        self.buffer.extend_from_slice(bytes);
        assert(self.buffer@ =~= old(self)@.buffer + bytes@);
    }

    /// Takes the next complete packet off the front of the buffer. Bytes
    /// behind a wrong magic are skipped first, up to the next place where a
    /// packet could start. Then: `Ok(None)` while the packet is incomplete
    /// (it is kept); the request it holds; for a packet of an unknown type,
    /// that error, with the packet dropped so that the session can go on; or
    /// an error that ends the session, with the buffer kept.
    pub fn next_request(&mut self) -> (r: Result<Option<ClientBinaryRequest>, WireError>)
        ensures
            final(self)@.phase == old(self)@.phase,
            final(self)@.transport == old(self)@.transport,
            ({
                let (item, k) = front(old(self)@.buffer);
                let before = old(self)@.buffer;
                let after = final(self)@.buffer;
                match item {
                    StreamItem::Incomplete => r matches Ok(None) && after == before.skip(k as int),
                    StreamItem::Request(m, n) => r matches Ok(Some(x)) && x@ == m && after
                        == before.skip((k + n) as int),
                    StreamItem::Unknown(v, n) => r == Err::<Option<ClientBinaryRequest>, WireError>(
                        WireError::UnknownMsgType { value: v },
                    ) && after == before.skip((k + n) as int),
                    StreamItem::Fatal(e) => r == Err::<Option<ClientBinaryRequest>, WireError>(e)
                        && after == before.skip(k as int),
                    // a front item is never a skip
                    StreamItem::Skip(_) => false,
                }
            }),
    {
        let ghost start = self.buffer@;
        let ghost mut skipped: int = 0;
        proof {
            assert(start.skip(0) =~= start);
        }
        loop
            invariant
                start == old(self)@.buffer,
                0 <= skipped <= start.len(),
                self.buffer@ == start.skip(skipped),
                front(start).0 == front(self.buffer@).0,
                front(start).1 == skipped + front(self.buffer@).1,
                self.phase == old(self).phase,
                self.transport == old(self).transport,
            decreases self.buffer.len(),
        {
            proof {
                lemma_front_not_skip(self.buffer@);
            }
            match decode_client_from(self.buffer.as_slice()) {
                Err(WireError::BadMagic) => {
                    proof {
                        lemma_bad_magic(self.buffer@);
                        lemma_skip_step(self.buffer@);
                    }
                    let q = next_start_after_front(self.buffer.as_slice());
                    let ghost before = self.buffer@;
                    let rest = slice_to_vec(slice_subrange(self.buffer.as_slice(), q, self.buffer.len()));
                    self.buffer = rest;
                    proof {
                        assert(start.skip(skipped).skip(q as int) =~= start.skip(skipped + q));
                        skipped = skipped + q;
                        assert(self.buffer@ == before.skip(q as int));
                    }
                },
                Err(WireError::UnknownMsgType { value }) => {
                    proof {
                        lemma_unknown_type_is_whole_packet(self.buffer@);
                    }
                    let announced = slice_subrange(self.buffer.as_slice(), 8, 12);
                    assert(announced@ == self.buffer@.subrange(8, 12));
                    let payload_len = u32_from_le_bytes(announced) as usize;
                    assert(payload_len == announced_len(self.buffer@));
                    let held = self.buffer.len();
                    assert(HEADER_LEN + payload_len <= held);
                    let total = HEADER_LEN + payload_len;
                    let rest = slice_to_vec(
                        slice_subrange(self.buffer.as_slice(), total, self.buffer.len()),
                    );
                    proof {
                        assert(start.skip(skipped).skip(total as int) =~= start.skip(
                            skipped + total,
                        ));
                    }
                    proof {
                        assert(front(self.buffer@) == (stream_step(self.buffer@), 0nat));
                    }
                    self.buffer = rest;
                    return Err(WireError::UnknownMsgType { value });
                },
                Err(e) => {
                    proof {
                        lemma_bad_magic(self.buffer@);
                        assert(front(self.buffer@) == (stream_step(self.buffer@), 0nat));
                        assert(self.buffer@.skip(0) =~= self.buffer@);
                    }
                    return Err(e);
                },
                Ok(None) => {
                    proof {
                        assert(front(self.buffer@) == (stream_step(self.buffer@), 0nat));
                    }
                    return Ok(None);
                },
                Ok(Some((request, consumed_bytes))) => {
                    let rest = slice_to_vec(
                        slice_subrange(self.buffer.as_slice(), consumed_bytes, self.buffer.len()),
                    );
                    proof {
                        assert(start.skip(skipped).skip(consumed_bytes as int) =~= start.skip(
                            skipped + consumed_bytes,
                        ));
                    }
                    proof {
                        assert(front(self.buffer@) == (stream_step(self.buffer@), 0nat));
                    }
                    self.buffer = rest;
                    return Ok(Some(request));
                },
            }
        }
    }

    /// Answers an error from `next_request`. A packet of an unknown type is
    /// answered with an error and the session goes on; any other error ends it.
    pub fn on_decode_error(&mut self, e: WireError) -> (step: Step<DaemonBinaryResponse>)
        ensures
            final(self)@.buffer == old(self)@.buffer,
            final(self)@.transport == old(self)@.transport,
            match e {
                WireError::UnknownMsgType { value } => if old(self)@.phase == Phase::Closed {
                    final(self)@.phase == Phase::Closed && step is Close
                } else {
                    final(self)@.phase == old(self)@.phase && (step matches Step::Reply(r) && r@
                        == DaemonMsg::Error { message: unknown_type_text(value) })
                },
                _ => final(self)@.phase == Phase::Closed && step is Fail,
            },
    {
        match e {
            WireError::UnknownMsgType { value } => {
                if self.phase == Phase::Closed {
                    Step::Close
                } else {
                    let message = "unknown msg_type: ".to_owned().concat(
                        decimal_string(value as u64).as_str(),
                    );
                    Step::Reply(DaemonBinaryResponse::Error { message })
                }
            },
            _ => {
                self.phase = Phase::Closed;
                Step::Fail
            },
        }
    }

    /// Handles one decoded request. Before the handshake only a hello is
    /// accepted: it readies the session and is answered with the greeting;
    /// anything else is refused and ends the session. Once ready, each
    /// request is answered once, or yields the frame to transmit; subscriptions
    /// change only on subscribe and unsubscribe.
    pub fn on_request<D: DiscoveryPort + ?Sized>(
        &mut self,
        req: ClientBinaryRequest,
        subscribed: &mut Subscriptions,
        discovery: &D,
    ) -> (step: Step<DaemonBinaryResponse>)
        ensures
            final(self)@.buffer == old(self)@.buffer,
            final(self)@.transport == old(self)@.transport,
            match old(self)@.phase {
                Phase::AwaitingHello => final(subscribed)@ == old(subscribed)@ && match req@ {
                    ClientMsg::ClientHello { .. } => final(self)@.phase == Phase::Ready && (
                    step matches Step::Reply(g) && g@ == binary_hello_ack(old(self)@.transport)),
                    _ => final(self)@.phase == Phase::Closed && (step matches Step::ReplyAndClose(e)
                        && e@ == DaemonMsg::Error {
                        message: binary_expected_hello_text(old(self)@.transport) + client_msg_text(
                            req@,
                        ),
                    }),
                },
                Phase::Ready => final(self)@.phase == Phase::Ready && binary_ready_answer(
                    old(self)@.transport,
                    req@,
                    old(subscribed)@,
                    final(subscribed)@,
                    step,
                ),
                Phase::Closed => final(self)@.phase == Phase::Closed && step is Close
                    && final(subscribed)@ == old(subscribed)@,
            },
            (old(self)@.phase == Phase::Ready && req@ is ListIfaces) ==> exists|
                listed: Result<Vec<String>, String>,
            |
                {
                    &&& discovery.reports(listed)
                    &&& step matches Step::Reply(r)
                    &&& binary_answers_listing(r@, listed)
                },
    {
        match self.phase {
            Phase::AwaitingHello => {
                match req {
                    ClientBinaryRequest::ClientHello { .. } => {
                        self.phase = Phase::Ready;
                        Step::Reply(binary_greeting(self.transport))
                    },
                    other => {
                        let text = client_request_text(&other);
                        let prefix = match self.transport {
                            Transport::Tcp => "expected client_hello, got ".to_owned(),
                            Transport::WebSocket => "expected ClientHello, got ".to_owned(),
                        };
                        self.phase = Phase::Closed;
                        Step::ReplyAndClose(
                            DaemonBinaryResponse::Error { message: prefix.concat(text.as_str()) },
                        )
                    },
                }
            },
            Phase::Ready => answer_ready(self.transport, req, subscribed, discovery),
            Phase::Closed => Step::Close,
        }
    }

    /// The reply to a frame that the session asked to transmit, given how the
    /// transmission came out.
    pub fn transmitted(&self, sent: Result<(), String>) -> (r: DaemonBinaryResponse)
        ensures
            binary_answers_send(r@, sent),
    {
        send_reply(self.transport, send_frame_response(sent))
    }

    /// Handles a text message, which a binary WebSocket session does not
    /// take: before the handshake the session fails; once ready the client is
    /// told, and the session goes on.
    pub fn on_text(&mut self) -> (step: Step<DaemonBinaryResponse>)
        ensures
            final(self)@.buffer == old(self)@.buffer,
            final(self)@.transport == old(self)@.transport,
            match old(self)@.phase {
                Phase::AwaitingHello => final(self)@.phase == Phase::Closed && step is Fail,
                Phase::Ready => final(self)@.phase == Phase::Ready && (step matches Step::Reply(e)
                    && e@ == DaemonMsg::Error { message: "unexpected Text in binary mode"@ }),
                Phase::Closed => final(self)@.phase == Phase::Closed && step is Close,
            },
    {
        match self.phase {
            Phase::AwaitingHello => {
                self.phase = Phase::Closed;
                Step::Fail
            },
            Phase::Ready => Step::Reply(
                DaemonBinaryResponse::Error { message: "unexpected Text in binary mode".to_owned() },
            ),
            Phase::Closed => Step::Close,
        }
    }

    /// Ends the session.
    pub fn close(&mut self)
        ensures
            final(self)@.phase == Phase::Closed,
            final(self)@.buffer == old(self)@.buffer,
            final(self)@.transport == old(self)@.transport,
    {
        self.phase = Phase::Closed;
    }
}

/// A packet of an unknown type is complete in the buffer.
proof fn lemma_unknown_type_is_whole_packet(buf: Seq<u8>)
    requires
        parse_client_from(buf) matches Err(e) && e is UnknownMsgType,
    ensures
        buf.len() >= header_len() + announced_len(buf),
{
}

/// How a TCP connection is served, chosen by its first bytes.
#[derive(Debug, Clone, Copy, PartialEq, Eq, Structural)]
pub enum TcpMode {
    Binary,
    JsonLines,
}

/// Chooses binary mode exactly when the first four bytes peeked off a new
/// connection are the packet magic; anything else, a shorter peek included,
/// is served as JSON lines.
pub fn choose_tcp_mode(peeked: &[u8]) -> (mode: TcpMode)
    ensures
        mode == TcpMode::Binary <==> peeked@ == crate::format::magic_bytes(),
{
    if peeked.len() == 4 && peeked[0] == MAGIC[0] && peeked[1] == MAGIC[1] && peeked[2] == MAGIC[2]
        && peeked[3] == MAGIC[3] {
        assert(peeked@ =~= crate::format::magic_bytes());
        TcpMode::Binary
    } else {
        proof {
            if peeked@ == crate::format::magic_bytes() {
                assert(peeked@[0] == 0x43u8);
            }
        }
        TcpMode::JsonLines
    }
}

/// Law: once a ready session has answered a subscription to `ifaces`, frames
/// are delivered for exactly those interfaces; after an unsubscription, for none.
pub proof fn subscription_law(
    transport: Transport,
    req: ClientMsg,
    before: Set<Seq<char>>,
    after: Set<Seq<char>>,
    step: Step<DaemonBinaryResponse>,
    iface: Seq<char>,
)
    requires
        binary_ready_answer(transport, req, before, after, step),
    ensures
        req matches ClientMsg::Subscribe { ifaces } ==> (after.contains(iface) <==> ifaces.contains(
            iface,
        )),
        req is Unsubscribe ==> !after.contains(iface),
        !(req is Subscribe || req is Unsubscribe) ==> after == before,
{
}

/// What a binary session takes off a receive buffer when it drains it: the
/// items in order (skipped bytes give none), the bytes left, and whether it
/// stopped at an error that ends the session (the last item then).
pub open spec fn decode_stream(buf: Seq<u8>) -> (Seq<StreamItem>, Seq<u8>, bool)
    decreases buf.len(),
{
    match stream_step(buf) {
        StreamItem::Incomplete => (Seq::empty(), buf, false),
        StreamItem::Fatal(e) => (seq![StreamItem::Fatal(e)], buf, true),
        StreamItem::Skip(n) => if 0 < n <= buf.len() {
            decode_stream(buf.skip(n as int))
        } else {
            // never taken: a skip lies within the buffer
            (Seq::empty(), buf, true)
        },
        item => {
            let n = item_len(item);
            if 0 < n <= buf.len() {
                let (items, rest, failed) = decode_stream(buf.skip(n as int));
                (seq![item] + items, rest, failed)
            } else {
                // never taken: a packet taken off lies within the buffer
                (seq![item], buf, true)
            }
        },
    }
}

/// The bytes of several reads, one after another.
pub open spec fn concat_reads(reads: Seq<Seq<u8>>) -> Seq<u8>
    decreases reads.len(),
{
    if reads.len() == 0 {
        Seq::empty()
    } else {
        reads[0] + concat_reads(reads.skip(1))
    }
}

/// What a binary session takes off its buffer when `reads` arrive one at a
/// time after the bytes `held`, draining the buffer after each; once an
/// error has ended the session it reads no more. The items, and whether the
/// session ended so.
pub open spec fn decode_reads(held: Seq<u8>, reads: Seq<Seq<u8>>) -> (Seq<StreamItem>, bool)
    decreases reads.len(),
{
    if reads.len() == 0 {
        (Seq::empty(), false)
    } else {
        let (items, rest, failed) = decode_stream(held + reads[0]);
        if failed {
            (items, true)
        } else {
            let (more, failed_later) = decode_reads(rest, reads.skip(1));
            (items + more, failed_later)
        }
    }
}

/// Bytes that arrive later do not change how a buffer's front is read, once
/// it holds a whole packet or an error.
proof fn lemma_step_extends(x: Seq<u8>, y: Seq<u8>)
    requires
        !(stream_step(x) is Incomplete),
        !(stream_step(x) is Skip),
    ensures
        stream_step(x + y) == stream_step(x),
{
    let xy = x + y;
    assert(xy.take(4) =~= x.take(4));
    if x.take(4) == magic_bytes() {
        assert(xy.subrange(8, 12) =~= x.subrange(8, 12));
        assert(announced_len(xy) == announced_len(x));
        assert(xy.subrange(4, 6) =~= x.subrange(4, 6));
        let end = (header_len() + announced_len(x)) as int;
        assert(xy.subrange(header_len() as int, end) =~= x.subrange(header_len() as int, end));
    }
}

/// A place where a packet could start in `x + y` could start one in `x`.
proof fn lemma_may_start_shrinks(x: Seq<u8>, y: Seq<u8>, q: int)
    requires
        0 <= q,
        may_start_packet(x + y, q),
    ensures
        may_start_packet(x, q),
{
    assert forall|j: int| q <= j < x.len() && j < q + 4 implies x[j] == magic_bytes()[j - q] by {
        assert((x + y)[j] == x[j]);
    }
}

/// Looking further in `x + y` than in `x`: the next possible start is not
/// earlier, and it is the same where `x + y` can start a packet there.
proof fn lemma_next_start_extends(x: Seq<u8>, y: Seq<u8>, q: int)
    requires
        0 <= q <= x.len(),
    ensures
        next_packet_start(x, q) <= next_packet_start(x + y, q),
        may_start_packet(x + y, next_packet_start(x, q)) ==> next_packet_start(x + y, q)
            == next_packet_start(x, q),
        next_packet_start(x + y, q) == next_packet_start(x + y, next_packet_start(x, q)),
    decreases x.len() - q,
{
    lemma_next_start_bounds(x + y, q);
    if q < x.len() && !may_start_packet(x, q) {
        if may_start_packet(x + y, q) {
            lemma_may_start_shrinks(x, y, q);
        }
        lemma_next_start_extends(x, y, q + 1);
    }
}

/// Looking from a later place in a buffer is looking in what follows it.
proof fn lemma_next_start_shift(w: Seq<u8>, a: int, q: int)
    requires
        0 <= a <= w.len(),
        0 <= q,
    ensures
        next_packet_start(w.skip(a), q) + a == next_packet_start(w, q + a),
    decreases w.len() - a - q,
{
    let v = w.skip(a);
    assert(may_start_packet(v, q) == may_start_packet(w, q + a)) by {
        if may_start_packet(v, q) {
            assert forall|j: int| q + a <= j < w.len() && j < q + a + 4 implies w[j]
                == magic_bytes()[j - (q + a)] by {
                assert(v[j - a] == w[j]);
            }
        }
        if may_start_packet(w, q + a) {
            assert forall|j: int| q <= j < v.len() && j < q + 4 implies v[j] == magic_bytes()[j
                - q] by {
                assert(v[j] == w[j + a]);
            }
        }
    }
    if q < v.len() && !may_start_packet(v, q) {
        lemma_next_start_shift(w, a, q + 1);
    }
}

/// Once `x` has a wrong magic, reading `x + y` skips to where reading what
/// is left of `x` after its skip, with `y` appended, leads: the two give the
/// same items and the same ending.
proof fn lemma_skip_extends(x: Seq<u8>, y: Seq<u8>)
    requires
        stream_step(x) is Skip,
    ensures
        ({
            let p = item_len(stream_step(x)) as int;
            &&& decode_stream(x + y).0 == decode_stream(x.skip(p) + y).0
            &&& decode_stream(x + y).2 == decode_stream(x.skip(p) + y).2
        }),
{
    let xy = x + y;
    lemma_skip_step(x);
    lemma_bad_magic(xy);
    let p = item_len(stream_step(x)) as int;
    assert(xy.take(4) =~= x.take(4));
    assert(xy.skip(p) =~= x.skip(p) + y);
    lemma_next_start_bounds(xy, 1);
    lemma_next_start_extends(x, y, 1);
    let big_p = next_packet_start(xy, 1);
    assert(stream_step(xy) == StreamItem::Skip(big_p as nat));
    assert(decode_stream(xy) == decode_stream(xy.skip(big_p)));
    if big_p != p {
        let z = xy.skip(p);
        assert(!may_start_packet(xy, p));
        lemma_next_start_shift(xy, p, 1);
        assert(next_packet_start(xy, p) == next_packet_start(xy, p + 1));
        if z.len() >= 12 {
            let j = choose|j: int| p <= j < xy.len() && j < p + 4 && xy[j] != magic_bytes()[j - p];
            assert(z.take(4)[j - p] == xy[j]);
            assert(z.take(4) != magic_bytes());
            let q = next_packet_start(z, 1);
            lemma_bad_magic(z);
            assert(stream_step(z) == StreamItem::Skip(q as nat));
            lemma_next_start_bounds(z, 1);
            assert(q + p == big_p);
            assert(z.skip(q) =~= xy.skip(big_p));
            assert(decode_stream(z) == decode_stream(z.skip(q)));
        } else {
            let w = xy.skip(big_p);
            assert(w.len() < 12);
            assert(stream_step(z) is Incomplete);
            assert(stream_step(w) is Incomplete);
        }
    }
}

/// What is left after a drain that did not fail is an incomplete packet.
proof fn lemma_rest_incomplete(buf: Seq<u8>)
    requires
        !decode_stream(buf).2,
    ensures
        stream_step(decode_stream(buf).1) is Incomplete,
    decreases buf.len(),
{
    match stream_step(buf) {
        StreamItem::Incomplete => {},
        StreamItem::Fatal(_) => {},
        item => {
            lemma_item_len_fits(buf);
            lemma_rest_incomplete(buf.skip(item_len(item) as int));
        },
    }
}

/// Draining `x` and then, with `y` appended to what is left, draining again
/// takes off what draining `x + y` at once does; if `x` alone ends the
/// session, so does `x + y`, with the same items.
proof fn lemma_decode_split(x: Seq<u8>, y: Seq<u8>)
    ensures
        !decode_stream(x).2 ==> decode_stream(x + y).0 == decode_stream(x).0 + decode_stream(
            decode_stream(x).1 + y,
        ).0 && decode_stream(x + y).2 == decode_stream(decode_stream(x).1 + y).2,
        decode_stream(x).2 ==> decode_stream(x + y).0 == decode_stream(x).0 && decode_stream(
            x + y,
        ).2,
    decreases x.len(),
{
    match stream_step(x) {
        StreamItem::Incomplete => {
            let d = decode_stream(x + y);
            assert(Seq::<StreamItem>::empty() + d.0 =~= d.0);
        },
        StreamItem::Fatal(_) => {
            lemma_step_extends(x, y);
        },
        StreamItem::Skip(_) => {
            lemma_item_len_fits(x);
            let p = item_len(stream_step(x)) as int;
            lemma_skip_extends(x, y);
            lemma_decode_split(x.skip(p), y);
        },
        item => {
            lemma_item_len_fits(x);
            lemma_step_extends(x, y);
            let n = item_len(item) as int;
            assert((x + y).skip(n) =~= x.skip(n) + y);
            lemma_decode_split(x.skip(n), y);
            let d = decode_stream(x.skip(n));
            let e = decode_stream(d.1 + y);
            if !d.2 {
                assert(seq![item] + (d.0 + e.0) =~= (seq![item] + d.0) + e.0);
            }
        },
    }
}

/// The general form of the split law, from any drained buffer.
proof fn lemma_reads_from(held: Seq<u8>, reads: Seq<Seq<u8>>)
    requires
        stream_step(held) is Incomplete,
    ensures
        decode_reads(held, reads).0 == decode_stream(held + concat_reads(reads)).0,
        decode_reads(held, reads).1 == decode_stream(held + concat_reads(reads)).2,
    decreases reads.len(),
{
    if reads.len() == 0 {
        assert(held + concat_reads(reads) =~= held);
    } else {
        let x = held + reads[0];
        let y = concat_reads(reads.skip(1));
        assert(held + concat_reads(reads) =~= x + y);
        lemma_decode_split(x, y);
        let d = decode_stream(x);
        if !d.2 {
            lemma_rest_incomplete(x);
            lemma_reads_from(d.1, reads.skip(1));
        }
    }
}

/// Law: draining a buffer with `next_request` takes off the items of
/// `decode_stream`, one per call: the item that a call yields (after the
/// bytes it skips) is the first item of `decode_stream`, and the items after
/// it are those of what the call leaves in the buffer.
pub proof fn next_request_drains_decode(buf: Seq<u8>)
    ensures
        ({
            let (item, k) = front(buf);
            match item {
                StreamItem::Incomplete => decode_stream(buf) == (
                    Seq::<StreamItem>::empty(),
                    buf.skip(k as int),
                    false,
                ),
                StreamItem::Fatal(e) => decode_stream(buf) == (
                    seq![StreamItem::Fatal(e)],
                    buf.skip(k as int),
                    true,
                ),
                StreamItem::Skip(_) => false,
                _ => {
                    let rest = decode_stream(buf.skip((k + item_len(item)) as int));
                    decode_stream(buf) == (seq![item] + rest.0, rest.1, rest.2)
                },
            }
        }),
    decreases buf.len(),
{
    lemma_front_not_skip(buf);
    match stream_step(buf) {
        StreamItem::Skip(_) => {
            lemma_skip_step(buf);
            let n = item_len(stream_step(buf)) as int;
            next_request_drains_decode(buf.skip(n));
            let k2 = front(buf.skip(n)).1 as int;
            assert(buf.skip(n).skip(k2) =~= buf.skip(n + k2));
            let item = front(buf).0;
            if item is Request || item is Unknown {
                lemma_item_len_fits(buf.skip(n + k2));
                assert(buf.skip(n).skip(k2 + item_len(item)) =~= buf.skip(
                    n + k2 + item_len(item),
                ));
            }
        },
        StreamItem::Request(_, _) | StreamItem::Unknown(_, _) => {
            lemma_item_len_fits(buf);
            assert(buf.skip(0) =~= buf);
        },
        _ => {
            assert(buf.skip(0) =~= buf);
        },
    }
}

/// Law: a byte stream is read the same however it is split into reads.
/// Draining the buffer after each read takes off exactly the requests,
/// unknown-type packets and session-ending error that decoding the whole
/// stream at once gives, in the same order; so the session answers them
/// alike.
pub proof fn split_reads_decode_alike(reads: Seq<Seq<u8>>)
    ensures
        decode_reads(Seq::empty(), reads).0 == decode_stream(concat_reads(reads)).0,
        decode_reads(Seq::empty(), reads).1 == decode_stream(concat_reads(reads)).2,
{
    assert(Seq::<u8>::empty() + concat_reads(reads) =~= concat_reads(reads));
    lemma_reads_from(Seq::empty(), reads);
}

/// Law: the binary greeting carries version `1.0` and the server name
/// `can-bridge-daemon` on both transports, and announces `tcp`, `binary`,
/// `jsonl` over TCP and `ws`, `binary`, `json` over WebSocket.
pub proof fn binary_greeting_contents(transport: Transport)
    ensures
        binary_hello_ack(transport) matches DaemonMsg::HelloAck { version, server_name, features }
            && version == "1.0"@ && server_name == "can-bridge-daemon"@ && features == (if transport
            == Transport::Tcp {
            seq!["tcp"@, "binary"@, "jsonl"@]
        } else {
            seq!["ws"@, "binary"@, "json"@]
        }),
{
}

} // verus!
