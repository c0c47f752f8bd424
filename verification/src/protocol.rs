//! The JSON-mode messages: what a client asks and what the daemon answers.
use crate::binary_message::strings_view;
use vstd::prelude::*;

verus! {

/// A request sent to the daemon in JSON mode.
#[derive(Debug, Clone)]
#[allow(inconsistent_fields)]
pub enum ClientRequest {
    /// Handshake: the client names itself and the protocol it speaks.
    ClientHello { client: String, protocol: String },
    /// Liveness test.
    Ping { id: u64 },
    /// Asks for the available CAN interfaces.
    ListIfaces,
    /// Replaces the set of interfaces whose frames the client receives.
    Subscribe { ifaces: Vec<String> },
    /// Empties the set of subscribed interfaces.
    Unsubscribe,
    /// Asks the daemon to transmit a frame; the data is hex text.
    SendFrame { iface: String, id: u32, is_fd: bool, brs: bool, esi: bool, data_hex: String },
}

/// A response or event sent by the daemon in JSON mode.
#[derive(Debug, Clone)]
#[allow(inconsistent_fields)]
pub enum ServerResponse {
    /// Handshake greeting.
    HelloAck { version: String, features: Vec<String>, server_name: String },
    /// Answer to a ping.
    Pong { id: u64 },
    /// The available CAN interfaces.
    Ifaces { items: Vec<String> },
    /// The interfaces now subscribed.
    Subscribed { ifaces: Vec<String> },
    /// No interface is subscribed any more.
    Unsubscribed,
    /// Outcome of a frame transmission.
    SendAck { ok: bool, error_message: Option<String> },
    /// A CAN frame seen on a subscribed interface; the data is hex text.
    Frame { ts_ms: u64, iface: String, dir: String, id: u32, is_fd: bool, data_hex: String },
    /// Protocol, parsing or service error.
    Error { message: String },
}

/// A JSON-mode request as an abstract value.
#[allow(inconsistent_fields)]
pub enum JsonRequestMsg {
    ClientHello { client: Seq<char>, protocol: Seq<char> },
    Ping { id: u64 },
    ListIfaces,
    Subscribe { ifaces: Seq<Seq<char>> },
    Unsubscribe,
    SendFrame { iface: Seq<char>, id: u32, is_fd: bool, brs: bool, esi: bool, data_hex: Seq<char> },
}

impl View for ClientRequest {
    type V = JsonRequestMsg;

    open spec fn view(&self) -> JsonRequestMsg {
        match self {
            ClientRequest::ClientHello { client, protocol } => JsonRequestMsg::ClientHello {
                client: client@,
                protocol: protocol@,
            },
            ClientRequest::Ping { id } => JsonRequestMsg::Ping { id: *id },
            ClientRequest::ListIfaces => JsonRequestMsg::ListIfaces,
            ClientRequest::Subscribe { ifaces } => JsonRequestMsg::Subscribe {
                ifaces: strings_view(ifaces@),
            },
            ClientRequest::Unsubscribe => JsonRequestMsg::Unsubscribe,
            ClientRequest::SendFrame { iface, id, is_fd, brs, esi, data_hex } =>
                JsonRequestMsg::SendFrame {
                iface: iface@,
                id: *id,
                is_fd: *is_fd,
                brs: *brs,
                esi: *esi,
                data_hex: data_hex@,
            },
        }
    }
}

} // verus!
