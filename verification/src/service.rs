//! The application's answer to a JSON-mode request.
use crate::hex::{parse_hex, parse_hex_text};
use crate::ports::{DiscoveryPort, FrameToSend};
use crate::protocol::{ClientRequest, JsonRequestMsg, ServerResponse};
use vstd::prelude::*;
use vstd::string::*;

verus! {

/// The most data bytes a frame carries: 64 for CAN-FD, 8 for classic CAN.
pub open spec fn frame_capacity(is_fd: bool) -> nat {
    if is_fd {
        64
    } else {
        8
    }
}

/// `resp` is the answer to an interface listing that came out as `listed`.
pub open spec fn answers_listing(resp: ServerResponse, listed: Result<Vec<String>, String>) -> bool {
    match listed {
        Ok(items) => resp == ServerResponse::Ifaces { items },
        Err(e) => resp matches ServerResponse::Error { message } && message@
            == "list_ifaces failed: "@ + e@,
    }
}

/// `resp` is the acknowledgement of a transmission that came out as `sent`.
pub open spec fn answers_send(resp: ServerResponse, sent: Result<(), String>) -> bool {
    match sent {
        Ok(()) => resp matches ServerResponse::SendAck { ok, error_message } && ok
            && error_message is None,
        Err(e) => is_refused_send(resp, e@),
    }
}

/// `resp` is an error response with the given text.
pub open spec fn is_error_text(resp: ServerResponse, text: Seq<char>) -> bool {
    resp matches ServerResponse::Error { message } && message@ == text
}

/// `resp` is a failed acknowledgement with the given text.
pub open spec fn is_refused_send(resp: ServerResponse, text: Seq<char>) -> bool {
    match resp {
        ServerResponse::SendAck { ok, error_message } => !ok && match error_message {
            Some(m) => m@ == text,
            None => false,
        },
        _ => false,
    }
}

/// `f` carries exactly the given frame.
pub open spec fn is_frame(
    f: FrameToSend,
    iface: Seq<char>,
    id: u32,
    is_fd: bool,
    brs: bool,
    esi: bool,
    data: Seq<u8>,
) -> bool {
    f.iface@ == iface && f.id == id && f.is_fd == is_fd && f.brs == brs && f.esi == esi && f.data@
        == data
}

/// `step` answers `req` as the service does. A frame whose hex text reads and
/// fits is to be transmitted exactly as asked; every other request is
/// answered at once, a listing as far as it does not rest on the discovery.
pub open spec fn service_answer(req: JsonRequestMsg, step: ServiceStep) -> bool {
    match req {
        JsonRequestMsg::SendFrame { iface, id, is_fd, brs, esi, data_hex } => match parse_hex_text(
            data_hex,
        ) {
            None => step matches ServiceStep::Answer(r) && is_refused_send(r, "invalid hex"@),
            Some(data) => if data.len() > frame_capacity(is_fd) {
                step matches ServiceStep::Answer(r) && is_refused_send(
                    r,
                    "data too long for frame"@,
                )
            } else {
                step matches ServiceStep::Transmit(f) && is_frame(f, iface, id, is_fd, brs, esi, data)
            },
        },
        _ => step matches ServiceStep::Answer(r) && match req {
            JsonRequestMsg::Ping { id } => r == ServerResponse::Pong { id },
            JsonRequestMsg::ListIfaces => exists|listed: Result<Vec<String>, String>|
                answers_listing(r, listed),
            JsonRequestMsg::ClientHello { .. } => is_error_text(
                r,
                "hello_ack is handled by transport layer"@,
            ),
            _ => is_error_text(r, "subscribe/unsubscribe are handled by transport layer"@),
        },
    }
}

/// What the service does with a request: answer it, or have a frame
/// transmitted and then acknowledge the outcome with `send_frame_response`.
pub enum ServiceStep {
    Answer(ServerResponse),
    Transmit(FrameToSend),
}

/// The answer to an interface listing, given how the listing came out.
pub fn list_ifaces_response(listed: Result<Vec<String>, String>) -> (resp: ServerResponse)
    ensures
        answers_listing(resp, listed),
{
    match listed {
        Ok(items) => ServerResponse::Ifaces { items },
        Err(e) => {
            let message = "list_ifaces failed: ".to_owned().concat(e.as_str());
            ServerResponse::Error { message }
        },
    }
}

/// The acknowledgement of a transmission, given how it came out.
pub fn send_frame_response(sent: Result<(), String>) -> (resp: ServerResponse)
    ensures
        answers_send(resp, sent),
{
    match sent {
        Ok(()) => ServerResponse::SendAck { ok: true, error_message: None },
        Err(e) => ServerResponse::SendAck { ok: false, error_message: Some(e) },
    }
}

/// The data bytes that a frame-send request hands to the transmitter: its
/// hex text read back, if that succeeds and fits the frame; else the refusal
/// that answers the request.
pub fn frame_data_to_send(is_fd: bool, data_hex: &str) -> (r: Result<Vec<u8>, ServerResponse>)
    ensures
        match parse_hex_text(data_hex@) {
            None => r matches Err(refusal) && is_refused_send(refusal, "invalid hex"@),
            Some(data) => if data.len() > frame_capacity(is_fd) {
                r matches Err(refusal) && is_refused_send(refusal, "data too long for frame"@)
            } else {
                r matches Ok(bytes) && bytes@ == data
            },
        },
{
    match parse_hex(data_hex) {
        None => Err(ServerResponse::SendAck { ok: false, error_message: Some("invalid hex".to_owned()) }),
        Some(data) => {
            let capacity: usize = if is_fd {
                64
            } else {
                8
            };
            if data.len() > capacity {
                Err(
                    ServerResponse::SendAck {
                        ok: false,
                        error_message: Some("data too long for frame".to_owned()),
                    },
                )
            } else {
                Ok(data)
            }
        },
    }
}

/// Answers one request. Handshake and subscriptions belong to the session,
/// so they are answered with an error here; a listing asks the discovery;
/// a frame whose hex text reads and fits comes back as the frame to transmit.
pub fn handle_request<D: DiscoveryPort + ?Sized>(discovery: &D, req: ClientRequest) -> (step:
    ServiceStep)
    ensures
        service_answer(req@, step),
        (req@ is ListIfaces) ==> exists|listed: Result<Vec<String>, String>|
            {
                &&& discovery.reports(listed)
                &&& step matches ServiceStep::Answer(r)
                &&& answers_listing(r, listed)
            },
{
    match req {
        ClientRequest::Ping { id } => ServiceStep::Answer(ServerResponse::Pong { id }),
        ClientRequest::ListIfaces => {
            let listed = discovery.list_can_ifaces();
            ServiceStep::Answer(list_ifaces_response(listed))
        },
        ClientRequest::ClientHello { .. } => ServiceStep::Answer(
            ServerResponse::Error { message: "hello_ack is handled by transport layer".to_owned() },
        ),
        ClientRequest::Subscribe { .. } | ClientRequest::Unsubscribe => ServiceStep::Answer(
            ServerResponse::Error {
                message: "subscribe/unsubscribe are handled by transport layer".to_owned(),
            },
        ),
        ClientRequest::SendFrame { iface, id, is_fd, brs, esi, data_hex } => {
            match frame_data_to_send(is_fd, data_hex.as_str()) {
                Err(refusal) => ServiceStep::Answer(refusal),
                Ok(data) => ServiceStep::Transmit(FrameToSend { iface, id, is_fd, brs, esi, data }),
            }
        },
    }
}

} // verus!
