//! One client connection in JSON mode, as a state machine: the transport
//! parses each line or text message and does what each step says.
use crate::binary_message::strings_view;
use crate::ports::DiscoveryPort;
use crate::protocol::{ClientRequest, JsonRequestMsg, ServerResponse};
use crate::service::{
    answers_listing, answers_send, handle_request, is_error_text, send_frame_response, service_answer, ServiceStep,
};
use crate::session::{copy_strings, owned_strings, server_name_text, Phase, Step, Transport};
use crate::subscription::{clear_subscription_set, update_subscription_set, Subscriptions};
use crate::text::{
    bool_string, bool_text, decimal, decimal_string, quoted, quoted_string, strings_string,
    strings_text,
};
use vstd::prelude::*;
use vstd::string::*;

verus! {

/// The text that names a JSON request in an error message.
pub open spec fn json_request_text(m: JsonRequestMsg) -> Seq<char> {
    match m {
        JsonRequestMsg::ClientHello { client, protocol } => "ClientHello { client: "@ + quoted(
            client,
        ) + ", protocol: "@ + quoted(protocol) + " }"@,
        JsonRequestMsg::Ping { id } => "Ping { id: "@ + decimal(id as nat) + " }"@,
        JsonRequestMsg::ListIfaces => "ListIfaces"@,
        JsonRequestMsg::Subscribe { ifaces } => "Subscribe { ifaces: "@ + strings_text(ifaces)
            + " }"@,
        JsonRequestMsg::Unsubscribe => "Unsubscribe"@,
        JsonRequestMsg::SendFrame { iface, id, is_fd, brs, esi, data_hex } => "SendFrame { iface: "@
            + quoted(iface) + ", id: "@ + decimal(id as nat) + ", is_fd: "@ + bool_text(is_fd)
            + ", brs: "@ + bool_text(brs) + ", esi: "@ + bool_text(esi) + ", data_hex: "@ + quoted(
            data_hex,
        ) + " }"@,
    }
}

/// Renders a JSON request for an error message.
pub fn request_text(req: &ClientRequest) -> (s: String)
    ensures
        s@ == json_request_text(req@),
{
    match req {
        ClientRequest::ClientHello { client, protocol } => {
            let s = "ClientHello { client: ".to_owned().concat(
                quoted_string(client.as_str()).as_str(),
            ).concat(", protocol: ").concat(quoted_string(protocol.as_str()).as_str()).concat(
                " }",
            );
            assert(s@ =~= json_request_text(req@));
            s
        },
        ClientRequest::Ping { id } => {
            let s = "Ping { id: ".to_owned().concat(decimal_string(*id).as_str()).concat(" }");
            assert(s@ =~= json_request_text(req@));
            s
        },
        ClientRequest::ListIfaces => "ListIfaces".to_owned(),
        ClientRequest::Subscribe { ifaces } => {
            let s = "Subscribe { ifaces: ".to_owned().concat(strings_string(ifaces).as_str()).concat(
                " }",
            );
            assert(s@ =~= json_request_text(req@));
            s
        },
        ClientRequest::Unsubscribe => "Unsubscribe".to_owned(),
        ClientRequest::SendFrame { iface, id, is_fd, brs, esi, data_hex } => {
            let s = "SendFrame { iface: ".to_owned().concat(quoted_string(iface.as_str()).as_str()).concat(
                ", id: ",
            ).concat(decimal_string(*id as u64).as_str()).concat(", is_fd: ").concat(
                bool_string(*is_fd).as_str(),
            ).concat(", brs: ").concat(bool_string(*brs).as_str()).concat(", esi: ").concat(
                bool_string(*esi).as_str(),
            ).concat(", data_hex: ").concat(quoted_string(data_hex.as_str()).as_str()).concat(" }");
            assert(s@ =~= json_request_text(req@));
            s
        },
    }
}

/// A character with Unicode's `White_Space` property, which is what
/// `char::is_whitespace` tests.
pub open spec fn is_white_space(c: char) -> bool {
    let n = c as u32;
    ||| 0x09 <= n <= 0x0d
    ||| n == 0x20
    ||| n == 0x85
    ||| n == 0xa0
    ||| n == 0x1680
    ||| 0x2000 <= n <= 0x200a
    ||| n == 0x2028
    ||| n == 0x2029
    ||| n == 0x202f
    ||| n == 0x205f
    ||| n == 0x3000
}

/// The text without its leading white space.
pub open spec fn trim_start(s: Seq<char>) -> Seq<char>
    decreases s.len(),
{
    if s.len() > 0 && is_white_space(s[0]) {
        trim_start(s.drop_first())
    } else {
        s
    }
}

/// The text without its trailing white space.
pub open spec fn trim_end(s: Seq<char>) -> Seq<char>
    decreases s.len(),
{
    if s.len() > 0 && is_white_space(s.last()) {
        trim_end(s.drop_last())
    } else {
        s
    }
}

/// The text without leading and trailing white space.
pub open spec fn trimmed(s: Seq<char>) -> Seq<char> {
    trim_end(trim_start(s))
}

fn white_space(c: char) -> (r: bool)
    ensures
        r == is_white_space(c),
{
    let n = c as u32;
    (0x09 <= n && n <= 0x0d) || n == 0x20 || n == 0x85 || n == 0xa0 || n == 0x1680 || (0x2000 <= n
        && n <= 0x200a) || n == 0x2028 || n == 0x2029 || n == 0x202f || n == 0x205f || n == 0x3000
}

/// The request in one line of a JSON-lines connection: the line without
/// leading and trailing white space. A line of white space only holds no
/// request (`None`): it is skipped, and gets no reply.
pub fn line_request_text(line: &str) -> (r: Option<&str>)
    ensures
        r is None <==> forall|i: int| 0 <= i < line@.len() ==> is_white_space(#[trigger] line@[i]),
        r matches Some(t) ==> t@ == trimmed(line@),
{
    let n = line.unicode_len();
    let mut i: usize = 0;
    assert(line@.skip(0) =~= line@);
    while i < n && white_space(line.get_char(i))
        invariant
            i <= n,
            n == line@.len(),
            trim_start(line@) == trim_start(line@.skip(i as int)),
            forall|k: int| 0 <= k < i ==> is_white_space(#[trigger] line@[k]),
        decreases n - i,
    {
        assert(line@.skip(i as int).drop_first() =~= line@.skip(i + 1));
        i += 1;
    }
    if i == n {
        return None;
    }
    assert(trim_start(line@) == line@.skip(i as int));
    let mut j: usize = n;
    assert(line@.skip(i as int) =~= line@.subrange(i as int, j as int));
    while j > i + 1 && white_space(line.get_char(j - 1))
        invariant
            i < j <= n,
            n == line@.len(),
            !is_white_space(line@[i as int]),
            trim_end(line@.skip(i as int)) == trim_end(line@.subrange(i as int, j as int)),
        decreases j,
    {
        assert(line@.subrange(i as int, j as int).drop_last() =~= line@.subrange(
            i as int,
            j - 1,
        ));
        j -= 1;
    }
    let t = line.substring_char(i, j);
    proof {
        let sub = line@.subrange(i as int, j as int);
        if j == i + 1 {
            assert(sub.last() == line@[i as int]);
        }
        assert(trim_end(sub) == sub);
    }
    Some(t)
}

/// The version that a JSON session announces.
pub open spec fn json_version(transport: Transport) -> Seq<char> {
    match transport {
        Transport::Tcp => "1.0"@,
        Transport::WebSocket => "0.9"@,
    }
}

/// The features that a JSON session announces.
pub open spec fn json_features(transport: Transport) -> Seq<Seq<char>> {
    match transport {
        Transport::Tcp => seq!["tcp"@, "jsonl"@, "binary"@],
        Transport::WebSocket => seq!["ws"@, "json"@, "stream"@],
    }
}

/// `r` is the JSON greeting of a transport.
pub open spec fn is_json_hello_ack(r: ServerResponse, transport: Transport) -> bool {
    match r {
        ServerResponse::HelloAck { version, features, server_name } => version@ == json_version(
            transport,
        ) && strings_view(features@) == json_features(transport) && server_name@
            == server_name_text(),
        _ => false,
    }
}

/// The start of the error sent when the first message is not a hello.
pub open spec fn json_expected_hello_text(transport: Transport) -> Seq<char> {
    match transport {
        Transport::Tcp => "expected client_hello, got "@,
        Transport::WebSocket => "expected client_hello, got: "@,
    }
}

/// The start of the error sent for a message that is not valid JSON.
pub open spec fn json_invalid_text(transport: Transport) -> Seq<char> {
    match transport {
        Transport::Tcp => "invalid json: "@,
        Transport::WebSocket => "invalid json request: "@,
    }
}

/// `step` is what the service makes of `req`: its answer as the reply, or
/// the frame it has transmitted.
pub open spec fn served(req: JsonRequestMsg, step: Step<ServerResponse>) -> bool {
    match step {
        Step::Reply(r) => service_answer(req, ServiceStep::Answer(r)),
        Step::Transmit(f) => service_answer(req, ServiceStep::Transmit(f)),
        _ => false,
    }
}

/// What a ready JSON session does with a parsed request; `subs_after` is
/// the subscription set after it.
pub open spec fn json_ready_answer(
    transport: Transport,
    req: JsonRequestMsg,
    subs_before: Set<Seq<char>>,
    subs_after: Set<Seq<char>>,
    step: Step<ServerResponse>,
) -> bool {
    match req {
        JsonRequestMsg::Subscribe { ifaces } => subs_after == ifaces.to_set() && (
        step matches Step::Reply(r) && match r {
            ServerResponse::Subscribed { ifaces: echoed } => strings_view(echoed@) == ifaces,
            _ => false,
        }),
        JsonRequestMsg::Unsubscribe => subs_after == Set::<Seq<char>>::empty() && (
        step matches Step::Reply(r) && r == ServerResponse::Unsubscribed),
        JsonRequestMsg::ClientHello { .. } => subs_after == subs_before && if transport
            == Transport::Tcp {
            step matches Step::Reply(r) && is_error_text(r, "client_hello already completed"@)
        } else {
            served(req, step)
        },
        _ => subs_after == subs_before && served(req, step),
    }
}

/// The state of a JSON session as an abstract value.
pub struct JsonSessionView {
    pub transport: Transport,
    pub phase: Phase,
}

/// A JSON-mode session: the handshake phase of one connection.
pub struct JsonSession {
    transport: Transport,
    phase: Phase,
}

impl View for JsonSession {
    type V = JsonSessionView;

    closed spec fn view(&self) -> JsonSessionView {
        JsonSessionView { transport: self.transport, phase: self.phase }
    }
}

fn answer_ready<D: DiscoveryPort + ?Sized>(
    transport: Transport,
    req: ClientRequest,
    subscribed: &mut Subscriptions,
    discovery: &D,
) -> (step: Step<ServerResponse>)
    ensures
        json_ready_answer(transport, req@, old(subscribed)@, final(subscribed)@, step),
        (req@ is ListIfaces) ==> exists|listed: Result<Vec<String>, String>|
            {
                &&& discovery.reports(listed)
                &&& step matches Step::Reply(r)
                &&& answers_listing(r, listed)
            },
{
    match req {
        ClientRequest::Subscribe { ifaces } => {
            update_subscription_set(subscribed, copy_strings(&ifaces));
            Step::Reply(ServerResponse::Subscribed { ifaces })
        },
        ClientRequest::Unsubscribe => {
            clear_subscription_set(subscribed);
            Step::Reply(ServerResponse::Unsubscribed)
        },
        ClientRequest::ClientHello { client, protocol } => match transport {
            Transport::Tcp => Step::Reply(
                ServerResponse::Error { message: "client_hello already completed".to_owned() },
            ),
            Transport::WebSocket => service_step(
                handle_request(discovery, ClientRequest::ClientHello { client, protocol }),
            ),
        },
        other => service_step(handle_request(discovery, other)),
    }
}

/// The session step that carries out what the service decided.
fn service_step(answer: ServiceStep) -> (step: Step<ServerResponse>)
    ensures
        match answer {
            ServiceStep::Answer(r) => step == Step::<ServerResponse>::Reply(r),
            ServiceStep::Transmit(f) => step == Step::<ServerResponse>::Transmit(f),
        },
{
    match answer {
        ServiceStep::Answer(r) => Step::Reply(r),
        ServiceStep::Transmit(f) => Step::Transmit(f),
    }
}

/// The greeting that answers the client's hello.
fn json_greeting(transport: Transport) -> (r: ServerResponse)
    ensures
        is_json_hello_ack(r, transport),
{
    match transport {
        Transport::Tcp => ServerResponse::HelloAck {
            version: "1.0".to_owned(),
            features: owned_strings("tcp", "jsonl", "binary"),
            server_name: "can-bridge-daemon".to_owned(),
        },
        Transport::WebSocket => ServerResponse::HelloAck {
            version: "0.9".to_owned(),
            features: owned_strings("ws", "json", "stream"),
            server_name: "can-bridge-daemon".to_owned(),
        },
    }
}

impl JsonSession {
    /// A fresh session, waiting for the client's hello.
    pub fn new(transport: Transport) -> (s: JsonSession)
        ensures
            s@.transport == transport,
            s@.phase == Phase::AwaitingHello,
    {
        JsonSession { transport, phase: Phase::AwaitingHello }
    }

    /// Where the session stands.
    pub fn phase(&self) -> (p: Phase)
        ensures
            p == self@.phase,
    {
        self.phase
    }

    /// Handles one message, given as the request it parsed to or the parser's
    /// complaint. Before the handshake only a hello is accepted, and answered
    /// with the greeting; anything else ends the session. Once ready, every
    /// message gets exactly one reply, or yields the frame to transmit.
    pub fn on_message<D: DiscoveryPort + ?Sized>(
        &mut self,
        parsed: Result<ClientRequest, String>,
        subscribed: &mut Subscriptions,
        discovery: &D,
    ) -> (step: Step<ServerResponse>)
        ensures
            final(self)@.transport == old(self)@.transport,
            match old(self)@.phase {
                Phase::AwaitingHello => final(subscribed)@ == old(subscribed)@ && match parsed {
                    Err(e) => final(self)@.phase == Phase::Closed && match old(self)@.transport {
                        Transport::Tcp => step is Fail,
                        Transport::WebSocket => (step matches Step::ReplyAndClose(r)
                            && is_error_text(r, "invalid client_hello json: "@ + e@)),
                    },
                    Ok(req) => match req@ {
                        JsonRequestMsg::ClientHello { .. } => final(self)@.phase == Phase::Ready
                            && (step matches Step::Reply(r) && is_json_hello_ack(
                            r,
                            old(self)@.transport,
                        )),
                        m => final(self)@.phase == Phase::Closed && (step matches Step::ReplyAndClose(
                            r,
                        ) && is_error_text(
                            r,
                            json_expected_hello_text(old(self)@.transport) + json_request_text(m),
                        )),
                    },
                },
                Phase::Ready => final(self)@.phase == Phase::Ready && match parsed {
                    Err(e) => final(subscribed)@ == old(subscribed)@ && (step matches Step::Reply(
                        r,
                    ) && is_error_text(r, json_invalid_text(old(self)@.transport) + e@)),
                    Ok(req) => json_ready_answer(
                        old(self)@.transport,
                        req@,
                        old(subscribed)@,
                        final(subscribed)@,
                        step,
                    ),
                },
                Phase::Closed => final(self)@.phase == Phase::Closed && step is Close
                    && final(subscribed)@ == old(subscribed)@,
            },
            (old(self)@.phase == Phase::Ready && (parsed matches Ok(req) && req@ is ListIfaces))
                ==> exists|listed: Result<Vec<String>, String>|
                {
                    &&& discovery.reports(listed)
                    &&& step matches Step::Reply(r)
                    &&& answers_listing(r, listed)
                },
    {
        match self.phase {
            Phase::AwaitingHello => match parsed {
                Err(e) => {
                    self.phase = Phase::Closed;
                    match self.transport {
                        Transport::Tcp => Step::Fail,
                        Transport::WebSocket => Step::ReplyAndClose(
                            ServerResponse::Error {
                                message: "invalid client_hello json: ".to_owned().concat(
                                    e.as_str(),
                                ),
                            },
                        ),
                    }
                },
                Ok(ClientRequest::ClientHello { .. }) => {
                    self.phase = Phase::Ready;
                    Step::Reply(json_greeting(self.transport))
                },
                Ok(other) => {
                    let text = request_text(&other);
                    let prefix = match self.transport {
                        Transport::Tcp => "expected client_hello, got ".to_owned(),
                        Transport::WebSocket => "expected client_hello, got: ".to_owned(),
                    };
                    self.phase = Phase::Closed;
                    Step::ReplyAndClose(ServerResponse::Error { message: prefix.concat(text.as_str()) })
                },
            },
            Phase::Ready => match parsed {
                Err(e) => {
                    let prefix = match self.transport {
                        Transport::Tcp => "invalid json: ".to_owned(),
                        Transport::WebSocket => "invalid json request: ".to_owned(),
                    };
                    Step::Reply(ServerResponse::Error { message: prefix.concat(e.as_str()) })
                },
                Ok(req) => answer_ready(self.transport, req, subscribed, discovery),
            },
            Phase::Closed => Step::Close,
        }
    }

    /// The reply to a frame that the session asked to transmit, given how the
    /// transmission came out.
    pub fn transmitted(&self, sent: Result<(), String>) -> (r: ServerResponse)
        ensures
            answers_send(r, sent),
    {
        send_frame_response(sent)
    }

    /// Handles a binary WebSocket message that is not UTF-8: before the
    /// handshake the session ends; once ready the client is told.
    pub fn on_non_utf8(&mut self) -> (step: Step<ServerResponse>)
        ensures
            final(self)@.transport == old(self)@.transport,
            match old(self)@.phase {
                Phase::AwaitingHello => final(self)@.phase == Phase::Closed && step is Close,
                Phase::Ready => final(self)@.phase == Phase::Ready && (step matches Step::Reply(r)
                    && is_error_text(r, "binary message must be utf-8 json"@)),
                Phase::Closed => final(self)@.phase == Phase::Closed && step is Close,
            },
    {
        match self.phase {
            Phase::AwaitingHello => {
                self.phase = Phase::Closed;
                Step::Close
            },
            Phase::Ready => Step::Reply(
                ServerResponse::Error { message: "binary message must be utf-8 json".to_owned() },
            ),
            Phase::Closed => Step::Close,
        }
    }

    /// Ends the session.
    pub fn close(&mut self)
        ensures
            final(self)@.phase == Phase::Closed,
            final(self)@.transport == old(self)@.transport,
    {
        self.phase = Phase::Closed;
    }
}

/// Law: once a ready JSON session has answered a subscription to `ifaces`,
/// frames are delivered for exactly those interfaces; after an
/// unsubscription, for none; no other request changes the set.
pub proof fn json_subscription_law(
    transport: Transport,
    req: JsonRequestMsg,
    before: Set<Seq<char>>,
    after: Set<Seq<char>>,
    step: Step<ServerResponse>,
    iface: Seq<char>,
)
    requires
        json_ready_answer(transport, req, before, after, step),
    ensures
        req matches JsonRequestMsg::Subscribe { ifaces } ==> (after.contains(iface)
            <==> ifaces.contains(iface)),
        req is Unsubscribe ==> !after.contains(iface),
        !(req is Subscribe || req is Unsubscribe) ==> after == before,
{
}

/// Law: the JSON greeting names the server `can-bridge-daemon`; over TCP it
/// carries version `1.0` and announces `tcp`, `jsonl`, `binary`, over
/// WebSocket version `0.9` and `ws`, `json`, `stream`.
pub proof fn json_greeting_contents(r: ServerResponse, transport: Transport)
    requires
        is_json_hello_ack(r, transport),
    ensures
        r matches ServerResponse::HelloAck { version, features, server_name } && server_name@
            == "can-bridge-daemon"@ && if transport == Transport::Tcp {
            version@ == "1.0"@ && strings_view(features@) == seq!["tcp"@, "jsonl"@, "binary"@]
        } else {
            version@ == "0.9"@ && strings_view(features@) == seq!["ws"@, "json"@, "stream"@]
        },
{
}

} // verus!
