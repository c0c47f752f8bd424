//! CAN frames seen on an interface, and how they are shown to clients.
use crate::binary_message::DaemonBinaryResponse;
use crate::format::DaemonMsg;
use crate::hex::{bytes_to_hex_lower, hex_text};
use crate::protocol::ServerResponse;
use vstd::prelude::*;
use vstd::string::*;

verus! {

/// Whether a frame was received from or sent to the bus.
#[derive(Debug, Clone, Copy, PartialEq, Eq, Structural)]
pub enum Direction {
    Rx,
    Tx,
}

/// A CAN frame seen on an interface.
#[derive(Debug, Clone)]
pub struct FrameEvent {
    pub ts_ms: u64,
    pub iface: String,
    pub dir: Direction,
    pub id: u32,
    pub is_fd: bool,
    pub data: Vec<u8>,
}

/// The text that names a direction: `rx` or `tx`.
pub open spec fn direction_text(dir: Direction) -> Seq<char> {
    match dir {
        Direction::Rx => seq!['r', 'x'],
        Direction::Tx => seq!['t', 'x'],
    }
}

fn direction_name(dir: Direction) -> (s: String)
    ensures
        s@ == direction_text(dir),
{
    match dir {
        Direction::Rx => {
            let s = "rx".to_owned();
            proof {
                reveal_strlit("rx");
            }
            s
        },
        Direction::Tx => {
            let s = "tx".to_owned();
            proof {
                reveal_strlit("tx");
            }
            s
        },
    }
}

/// A frame as a binary-mode event.
pub fn frame_event_to_daemon_binary(frame_event: FrameEvent) -> (r: DaemonBinaryResponse)
    ensures
        r@ == (DaemonMsg::FrameEvent {
            ts_ms: frame_event.ts_ms,
            iface: frame_event.iface@,
            dir: direction_text(frame_event.dir),
            id: frame_event.id,
            is_fd: frame_event.is_fd,
            data: frame_event.data@,
        }),
{
    DaemonBinaryResponse::FrameEvent {
        ts_ms: frame_event.ts_ms,
        iface: frame_event.iface,
        dir: direction_name(frame_event.dir),
        id: frame_event.id,
        is_fd: frame_event.is_fd,
        data: frame_event.data,
    }
}

/// A frame as a JSON-mode event, its data as lower-case hex text.
pub fn frame_event_to_json_response(frame_event: FrameEvent) -> (r: ServerResponse)
    ensures
        r matches ServerResponse::Frame { ts_ms, iface, dir, id, is_fd, data_hex } && ts_ms
            == frame_event.ts_ms && iface@ == frame_event.iface@ && dir@ == direction_text(
            frame_event.dir,
        ) && id == frame_event.id && is_fd == frame_event.is_fd && data_hex@ == hex_text(
            frame_event.data@,
        ),
{
    let data_hex = bytes_to_hex_lower(frame_event.data.as_slice());
    ServerResponse::Frame {
        ts_ms: frame_event.ts_ms,
        iface: frame_event.iface,
        dir: direction_name(frame_event.dir),
        id: frame_event.id,
        is_fd: frame_event.is_fd,
        data_hex,
    }
}

} // verus!
