//! The wire protocol: fixed-size binary frames exchanged between the hook
//! module injected into foreign processes and the server.
//!
//! One logical exchange is one connection: the client writes exactly one
//! encoded [`ClientEvent`], the server replies with exactly one encoded
//! [`ServerCommand`], and the connection is torn down. A frame is a tag byte
//! followed by fixed-width little-endian fields, never larger than
//! [`MAX_FRAME`], and decoding is the exact inverse of encoding, so two
//! independently loaded copies of this module always agree on the format.

use vstd::prelude::*;

verus! {

use vstd::bytes::{
    spec_u32_from_le_bytes, spec_u32_to_le_bytes, spec_u64_from_le_bytes, spec_u64_to_le_bytes,
    u32_from_le_bytes, u32_to_le_bytes, u64_from_le_bytes, u64_to_le_bytes,
};
use crate::keys::{KBDelta, KeyState};
use crate::rect::Rect;

/// The fixed maximum frame size in bytes.
pub const MAX_FRAME: usize = 512;

/// One event sent from a hook to the server. Window and monitor tokens
/// travel as their raw 64-bit identity values.
#[derive(Copy, Clone, Debug, PartialEq, Eq, Structural)]
pub enum ClientEvent {
    Keyboard(KBDelta),
    WindowOpen(u64, u64),
    WindowClose(u64, u64),
    WindowMonitorChanged(u64, u64),
    WindowFocusChanged(u64),
    MonitorConnected(u64),
    MonitorDisconnected(u64),
}

/// The server's reply to one exchange.
#[derive(Copy, Clone, Debug, PartialEq, Eq, Structural)]
pub enum ServerCommand {
    InterceptKeypress,
    ChangeWindowRect(Rect),
    DoNothing,
}

/// An `i32` as four little-endian bytes, through its `u32` bit pattern.
pub open spec fn spec_i32_le(x: i32) -> Seq<u8> {
    spec_u32_to_le_bytes(x as u32)
}

/// The encoding of one client event: a tag byte, then the fields.
pub open spec fn spec_encode_client_event(e: ClientEvent) -> Seq<u8> {
    match e {
        ClientEvent::Keyboard(d) => seq![
            0u8,
            d.vk_code,
            if d.key_state is Down {
                1u8
            } else {
                0u8
            },
        ],
        ClientEvent::WindowOpen(w, m) => seq![1u8] + spec_u64_to_le_bytes(w)
            + spec_u64_to_le_bytes(m),
        ClientEvent::WindowClose(w, m) => seq![2u8] + spec_u64_to_le_bytes(w)
            + spec_u64_to_le_bytes(m),
        ClientEvent::WindowMonitorChanged(w, m) => seq![3u8] + spec_u64_to_le_bytes(w)
            + spec_u64_to_le_bytes(m),
        ClientEvent::WindowFocusChanged(w) => seq![4u8] + spec_u64_to_le_bytes(w),
        ClientEvent::MonitorConnected(m) => seq![5u8] + spec_u64_to_le_bytes(m),
        ClientEvent::MonitorDisconnected(m) => seq![6u8] + spec_u64_to_le_bytes(m),
    }
}

/// The decoding of one client-event frame; `None` for any malformed frame.
pub open spec fn spec_decode_client_event(b: Seq<u8>) -> Option<ClientEvent> {
    if b.len() < 1 {
        None
    } else if b[0] == 0 {
        if b.len() == 3 && b[2] <= 1 {
            Some(
                ClientEvent::Keyboard(
                    KBDelta {
                        vk_code: b[1],
                        key_state: if b[2] == 1 {
                            KeyState::Down
                        } else {
                            KeyState::Up
                        },
                    },
                ),
            )
        } else {
            None
        }
    } else if b[0] == 1 || b[0] == 2 || b[0] == 3 {
        if b.len() == 17 {
            let w = spec_u64_from_le_bytes(b.subrange(1, 9));
            let m = spec_u64_from_le_bytes(b.subrange(9, 17));
            if b[0] == 1 {
                Some(ClientEvent::WindowOpen(w, m))
            } else if b[0] == 2 {
                Some(ClientEvent::WindowClose(w, m))
            } else {
                Some(ClientEvent::WindowMonitorChanged(w, m))
            }
        } else {
            None
        }
    } else if b[0] == 4 || b[0] == 5 || b[0] == 6 {
        if b.len() == 9 {
            let t = spec_u64_from_le_bytes(b.subrange(1, 9));
            if b[0] == 4 {
                Some(ClientEvent::WindowFocusChanged(t))
            } else if b[0] == 5 {
                Some(ClientEvent::MonitorConnected(t))
            } else {
                Some(ClientEvent::MonitorDisconnected(t))
            }
        } else {
            None
        }
    } else {
        None
    }
}

/// The encoding of one server command.
pub open spec fn spec_encode_server_command(c: ServerCommand) -> Seq<u8> {
    match c {
        ServerCommand::InterceptKeypress => seq![0u8],
        ServerCommand::ChangeWindowRect(r) => seq![1u8] + spec_i32_le(r.x) + spec_i32_le(r.y)
            + spec_i32_le(r.width) + spec_i32_le(r.height),
        ServerCommand::DoNothing => seq![2u8],
    }
}

/// The decoding of one server-command frame; `None` for any malformed
/// frame.
pub open spec fn spec_decode_server_command(b: Seq<u8>) -> Option<ServerCommand> {
    if b.len() < 1 {
        None
    } else if b[0] == 0 {
        if b.len() == 1 {
            Some(ServerCommand::InterceptKeypress)
        } else {
            None
        }
    } else if b[0] == 1 {
        if b.len() == 17 {
            Some(
                ServerCommand::ChangeWindowRect(
                    Rect {
                        x: spec_u32_from_le_bytes(b.subrange(1, 5)) as i32,
                        y: spec_u32_from_le_bytes(b.subrange(5, 9)) as i32,
                        width: spec_u32_from_le_bytes(b.subrange(9, 13)) as i32,
                        height: spec_u32_from_le_bytes(b.subrange(13, 17)) as i32,
                    },
                ),
            )
        } else {
            None
        }
    } else if b[0] == 2 {
        if b.len() == 1 {
            Some(ServerCommand::DoNothing)
        } else {
            None
        }
    } else {
        None
    }
}

/// Encode one client event into a frame.
pub fn encode_client_event(e: &ClientEvent) -> (out: Vec<u8>)
    ensures
        out@ == spec_encode_client_event(*e),
        1 <= out@.len() <= MAX_FRAME,
{
    let mut out: Vec<u8> = Vec::new();
    match e {
        ClientEvent::Keyboard(d) => {
            out.push(0u8);
            out.push(d.vk_code);
            out.push(if d.key_state.is_down() { 1u8 } else { 0u8 });
        },
        ClientEvent::WindowOpen(w, m) => {
            out.push(1u8);
            let mut wb = u64_to_le_bytes(*w);
            out.append(&mut wb);
            let mut mb = u64_to_le_bytes(*m);
            out.append(&mut mb);
        },
        ClientEvent::WindowClose(w, m) => {
            out.push(2u8);
            let mut wb = u64_to_le_bytes(*w);
            out.append(&mut wb);
            let mut mb = u64_to_le_bytes(*m);
            out.append(&mut mb);
        },
        ClientEvent::WindowMonitorChanged(w, m) => {
            out.push(3u8);
            let mut wb = u64_to_le_bytes(*w);
            out.append(&mut wb);
            let mut mb = u64_to_le_bytes(*m);
            out.append(&mut mb);
        },
        ClientEvent::WindowFocusChanged(w) => {
            out.push(4u8);
            let mut wb = u64_to_le_bytes(*w);
            out.append(&mut wb);
        },
        ClientEvent::MonitorConnected(m) => {
            out.push(5u8);
            let mut mb = u64_to_le_bytes(*m);
            out.append(&mut mb);
        },
        ClientEvent::MonitorDisconnected(m) => {
            out.push(6u8);
            let mut mb = u64_to_le_bytes(*m);
            out.append(&mut mb);
        },
    }
    proof {
        assert(out@ =~= spec_encode_client_event(*e));
    }
    out
}

/// Decode one client-event frame; `None` when the frame is malformed.
pub fn decode_client_event(b: &[u8]) -> (r: Option<ClientEvent>)
    ensures
        r == spec_decode_client_event(b@),
{
    let n = b.len();
    if n < 1 {
        return None;
    }
    let tag = *vstd::slice::slice_index_get(b, 0);
    if tag == 0 {
        if n == 3 {
            let vk = *vstd::slice::slice_index_get(b, 1);
            let st = *vstd::slice::slice_index_get(b, 2);
            if st <= 1 {
                Some(
                    ClientEvent::Keyboard(
                        KBDelta {
                            vk_code: vk,
                            key_state: if st == 1 {
                                KeyState::Down
                            } else {
                                KeyState::Up
                            },
                        },
                    ),
                )
            } else {
                None
            }
        } else {
            None
        }
    } else if tag == 1 || tag == 2 || tag == 3 {
        if n == 17 {
            let w = u64_from_le_bytes(vstd::slice::slice_subrange(b, 1, 9));
            let m = u64_from_le_bytes(vstd::slice::slice_subrange(b, 9, 17));
            if tag == 1 {
                Some(ClientEvent::WindowOpen(w, m))
            } else if tag == 2 {
                Some(ClientEvent::WindowClose(w, m))
            } else {
                Some(ClientEvent::WindowMonitorChanged(w, m))
            }
        } else {
            None
        }
    } else if tag == 4 || tag == 5 || tag == 6 {
        if n == 9 {
            let t = u64_from_le_bytes(vstd::slice::slice_subrange(b, 1, 9));
            if tag == 4 {
                Some(ClientEvent::WindowFocusChanged(t))
            } else if tag == 5 {
                Some(ClientEvent::MonitorConnected(t))
            } else {
                Some(ClientEvent::MonitorDisconnected(t))
            }
        } else {
            None
        }
    } else {
        None
    }
}

/// Encode one server command into a frame.
pub fn encode_server_command(c: &ServerCommand) -> (out: Vec<u8>)
    ensures
        out@ == spec_encode_server_command(*c),
        1 <= out@.len() <= MAX_FRAME,
{
    let mut out: Vec<u8> = Vec::new();
    match c {
        ServerCommand::InterceptKeypress => {
            out.push(0u8);
        },
        ServerCommand::ChangeWindowRect(r) => {
            out.push(1u8);
            let mut xb = u32_to_le_bytes(r.x as u32);
            out.append(&mut xb);
            let mut yb = u32_to_le_bytes(r.y as u32);
            out.append(&mut yb);
            let mut wb = u32_to_le_bytes(r.width as u32);
            out.append(&mut wb);
            let mut hb = u32_to_le_bytes(r.height as u32);
            out.append(&mut hb);
        },
        ServerCommand::DoNothing => {
            out.push(2u8);
        },
    }
    proof {
        assert(out@ =~= spec_encode_server_command(*c));
    }
    out
}

/// Decode one server-command frame; `None` when the frame is malformed.
pub fn decode_server_command(b: &[u8]) -> (r: Option<ServerCommand>)
    ensures
        r == spec_decode_server_command(b@),
{
    let n = b.len();
    if n < 1 {
        return None;
    }
    let tag = *vstd::slice::slice_index_get(b, 0);
    if tag == 0 {
        if n == 1 {
            Some(ServerCommand::InterceptKeypress)
        } else {
            None
        }
    } else if tag == 1 {
        if n == 17 {
            let x = u32_from_le_bytes(vstd::slice::slice_subrange(b, 1, 5));
            let y = u32_from_le_bytes(vstd::slice::slice_subrange(b, 5, 9));
            let w = u32_from_le_bytes(vstd::slice::slice_subrange(b, 9, 13));
            let h = u32_from_le_bytes(vstd::slice::slice_subrange(b, 13, 17));
            Some(
                ServerCommand::ChangeWindowRect(
                    Rect { x: x as i32, y: y as i32, width: w as i32, height: h as i32 },
                ),
            )
        } else {
            None
        }
    } else if tag == 2 {
        if n == 1 {
            Some(ServerCommand::DoNothing)
        } else {
            None
        }
    } else {
        None
    }
}

/// An `i32` survives the round trip through its `u32` bit pattern.
proof fn lemma_i32_u32_round_trip(x: i32)
    by (bit_vector)
    ensures
        (x as u32) as i32 == x,
{
}

/// Decoding a client-event frame that encoding produced gives back exactly
/// the encoded event: the format loses nothing.
pub proof fn lemma_client_event_round_trip(e: ClientEvent)
    ensures
        spec_decode_client_event(spec_encode_client_event(e)) == Some(e),
{
    vstd::bytes::lemma_auto_spec_u64_to_from_le_bytes();
    let b = spec_encode_client_event(e);
    match e {
        ClientEvent::Keyboard(d) => {},
        ClientEvent::WindowOpen(w, m) => {
            assert(b.subrange(1, 9) =~= spec_u64_to_le_bytes(w));
            assert(b.subrange(9, 17) =~= spec_u64_to_le_bytes(m));
        },
        ClientEvent::WindowClose(w, m) => {
            assert(b.subrange(1, 9) =~= spec_u64_to_le_bytes(w));
            assert(b.subrange(9, 17) =~= spec_u64_to_le_bytes(m));
        },
        ClientEvent::WindowMonitorChanged(w, m) => {
            assert(b.subrange(1, 9) =~= spec_u64_to_le_bytes(w));
            assert(b.subrange(9, 17) =~= spec_u64_to_le_bytes(m));
        },
        ClientEvent::WindowFocusChanged(w) => {
            assert(b.subrange(1, 9) =~= spec_u64_to_le_bytes(w));
        },
        ClientEvent::MonitorConnected(m) => {
            assert(b.subrange(1, 9) =~= spec_u64_to_le_bytes(m));
        },
        ClientEvent::MonitorDisconnected(m) => {
            assert(b.subrange(1, 9) =~= spec_u64_to_le_bytes(m));
        },
    }
}

/// Decoding a server-command frame that encoding produced gives back
/// exactly the encoded command.
pub proof fn lemma_server_command_round_trip(c: ServerCommand)
    ensures
        spec_decode_server_command(spec_encode_server_command(c)) == Some(c),
{
    vstd::bytes::lemma_auto_spec_u32_to_from_le_bytes();
    let b = spec_encode_server_command(c);
    match c {
        ServerCommand::InterceptKeypress => {},
        ServerCommand::ChangeWindowRect(r) => {
            assert(b.subrange(1, 5) =~= spec_u32_to_le_bytes(r.x as u32));
            assert(b.subrange(5, 9) =~= spec_u32_to_le_bytes(r.y as u32));
            assert(b.subrange(9, 13) =~= spec_u32_to_le_bytes(r.width as u32));
            assert(b.subrange(13, 17) =~= spec_u32_to_le_bytes(r.height as u32));
            lemma_i32_u32_round_trip(r.x);
            lemma_i32_u32_round_trip(r.y);
            lemma_i32_u32_round_trip(r.width);
            lemma_i32_u32_round_trip(r.height);
        },
        ServerCommand::DoNothing => {},
    }
}

} // verus!
