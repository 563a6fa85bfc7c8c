//! Binary frames exchanged between client and server:
//! `[length: u16 BE][opcode: u8][payload]`, the length covering opcode and payload.

use vstd::prelude::*;

verus! {

/// Protocol version; any format break bumps it.
pub const PROTOCOL_VERSION: u16 = 1;

/// Ceiling of a frame; bounds what untrusted input can make the server hold.
pub const MAX_FRAME_LEN: usize = 8192;

/// Why a frame cannot be decoded.
#[derive(Debug, Clone, Copy, PartialEq, Eq, Structural)]
pub enum DecodeError {
    /// Missing bytes: call again later.
    Incomplete,
    /// Announced length above [`MAX_FRAME_LEN`].
    FrameTooLarge { announced: usize },
    /// Unknown opcode.
    UnknownOpcode(u8),
    /// Payload inconsistent with the opcode.
    MalformedPayload,
}

} // verus!

use crate::codec::{be_bytes, read_be, push_be, read_be_slice, be_roundtrip_exact, radix_values, read_be_bound, be_bytes_len};

verus! {

/// Length of the length prefix, which the announced length excludes.
const HEADER_LEN: usize = 2;

pub const OP_HANDSHAKE: u8 = 0x01;
pub const OP_PING: u8 = 0x02;
pub const OP_HANDSHAKE_ACCEPTED: u8 = 0x81;
pub const OP_HANDSHAKE_REJECTED: u8 = 0x82;
pub const OP_PONG: u8 = 0x83;

/// Frames sent by a client.
#[derive(Debug, Clone, Copy, PartialEq, Eq, Structural)]
pub enum ClientMessage {
    /// First frame sent by the client.
    Handshake { protocol_version: u16 },
    /// Keep-alive.
    Ping { nonce: u32 },
}

/// Frames sent by the server.
#[derive(Debug, Clone, Copy, PartialEq, Eq, Structural)]
pub enum ServerMessage {
    HandshakeAccepted { session_id: u64 },
    HandshakeRejected { expected_version: u16 },
    Pong { nonce: u32 },
}

/// A frame: two-byte big-endian length of opcode plus payload, the opcode,
/// the payload.
pub open spec fn frame_bytes(opcode: u8, payload: Seq<u8>) -> Seq<u8> {
    be_bytes(payload.len() + 1int, 2) + seq![opcode] + payload
}

/// Bytes of a client frame.
pub open spec fn client_bytes(m: ClientMessage) -> Seq<u8> {
    match m {
        ClientMessage::Handshake { protocol_version } => frame_bytes(
            OP_HANDSHAKE,
            be_bytes(protocol_version as int, 2),
        ),
        ClientMessage::Ping { nonce } => frame_bytes(OP_PING, be_bytes(nonce as int, 4)),
    }
}

/// Bytes of a server frame.
pub open spec fn server_bytes(m: ServerMessage) -> Seq<u8> {
    match m {
        ServerMessage::HandshakeAccepted { session_id } => frame_bytes(
            OP_HANDSHAKE_ACCEPTED,
            be_bytes(session_id as int, 8),
        ),
        ServerMessage::HandshakeRejected { expected_version } => frame_bytes(
            OP_HANDSHAKE_REJECTED,
            be_bytes(expected_version as int, 2),
        ),
        ServerMessage::Pong { nonce } => frame_bytes(OP_PONG, be_bytes(nonce as int, 4)),
    }
}

/// Isolating the first frame of a stream: opcode, payload, bytes consumed.
pub open spec fn split_spec(input: Seq<u8>) -> Result<(u8, Seq<u8>, int), DecodeError> {
    if input.len() < 2 {
        Err(DecodeError::Incomplete)
    } else {
        let announced = read_be(input.take(2));
        if announced > MAX_FRAME_LEN {
            Err(DecodeError::FrameTooLarge { announced: announced as usize })
        } else if announced == 0 {
            Err(DecodeError::MalformedPayload)
        } else if input.len() < 2 + announced {
            Err(DecodeError::Incomplete)
        } else {
            Ok((input[2], input.subrange(3, 2 + announced), 2 + announced))
        }
    }
}

/// Decoding of the first client frame of `input`.
pub open spec fn client_decoding(input: Seq<u8>) -> Result<(ClientMessage, usize), DecodeError> {
    match split_spec(input) {
        Err(e) => Err(e),
        Ok((op, payload, total)) => if op == OP_HANDSHAKE {
            if payload.len() == 2 {
                Ok((ClientMessage::Handshake { protocol_version: read_be(payload) as u16 }, total as usize))
            } else {
                Err(DecodeError::MalformedPayload)
            }
        } else if op == OP_PING {
            if payload.len() == 4 {
                Ok((ClientMessage::Ping { nonce: read_be(payload) as u32 }, total as usize))
            } else {
                Err(DecodeError::MalformedPayload)
            }
        } else {
            Err(DecodeError::UnknownOpcode(op))
        },
    }
}

/// Decoding of the first server frame of `input`.
pub open spec fn server_decoding(input: Seq<u8>) -> Result<(ServerMessage, usize), DecodeError> {
    match split_spec(input) {
        Err(e) => Err(e),
        Ok((op, payload, total)) => if op == OP_HANDSHAKE_ACCEPTED {
            if payload.len() == 8 {
                Ok((ServerMessage::HandshakeAccepted { session_id: read_be(payload) as u64 }, total as usize))
            } else {
                Err(DecodeError::MalformedPayload)
            }
        } else if op == OP_HANDSHAKE_REJECTED {
            if payload.len() == 2 {
                Ok((ServerMessage::HandshakeRejected { expected_version: read_be(payload) as u16 }, total as usize))
            } else {
                Err(DecodeError::MalformedPayload)
            }
        } else if op == OP_PONG {
            if payload.len() == 4 {
                Ok((ServerMessage::Pong { nonce: read_be(payload) as u32 }, total as usize))
            } else {
                Err(DecodeError::MalformedPayload)
            }
        } else {
            Err(DecodeError::UnknownOpcode(op))
        },
    }
}

/// Isolates one frame of the stream: `(opcode, payload, bytes consumed)`.
fn split_frame(input: &[u8]) -> (r: Result<(u8, &[u8], usize), DecodeError>)
    ensures
        match split_spec(input@) {
            Err(e) => r == Err::<(u8, &[u8], usize), DecodeError>(e),
            Ok((op, payload, total)) => r matches Ok((o, p, t)) && o == op && p@ == payload && t == total,
        },
{
    if input.len() < HEADER_LEN {
        return Err(DecodeError::Incomplete);
    }
    let announced: usize = read_be_slice(&input[0..2]) as usize;
    proof {
        assert(input@.subrange(0, 2) =~= input@.take(2));
        read_be_bound(input@.take(2));
        radix_values();
    }
    if announced > MAX_FRAME_LEN {
        return Err(DecodeError::FrameTooLarge { announced });
    }
    if announced == 0 {
        return Err(DecodeError::MalformedPayload);
    }
    let total = HEADER_LEN + announced;
    if input.len() < total {
        return Err(DecodeError::Incomplete);
    }
    let opcode = input[2];
    let payload = &input[3..total];
    Ok((opcode, payload, total))
}

/// Builds a frame around a payload.
fn encode(opcode: u8, payload: &[u8]) -> (r: Vec<u8>)
    requires
        payload@.len() < 0xffff,
    ensures
        r@ == frame_bytes(opcode, payload@),
{
    let announced: u64 = payload.len() as u64 + 1;
    let mut out: Vec<u8> = Vec::new();
    push_be(&mut out, announced, 2);
    out.push(opcode);
    let mut i: usize = 0;
    let ghost head = out@;
    while i < payload.len()
        invariant
            i <= payload@.len(),
            out@ == head + payload@.take(i as int),
        decreases payload@.len() - i,
    {
        out.push(payload[i]);
        i = i + 1;
        proof {
            assert(out@ =~= head + payload@.take(i as int));
        }
    }
    proof {
        assert(payload@.take(i as int) =~= payload@);
        assert(head =~= be_bytes(payload@.len() + 1int, 2) + seq![opcode]);
    }
    out
}

/// Bytes of a fixed-size big-endian field.
fn field_bytes(value: u64, n: usize) -> (r: Vec<u8>)
    requires
        n <= 8,
    ensures
        r@ == be_bytes(value as int, n as nat),
        r@.len() == n,
{
    let mut out: Vec<u8> = Vec::new();
    push_be(&mut out, value, n);
    proof {
        assert(out@ =~= be_bytes(value as int, n as nat));
        be_bytes_len(value as int, n as nat);
    }
    out
}

impl ClientMessage {
    pub fn encode(self) -> (r: Vec<u8>)
        ensures
            r@ == client_bytes(self),
    {
        match self {
            ClientMessage::Handshake { protocol_version } => {
                let payload = field_bytes(protocol_version as u64, 2);
                encode(OP_HANDSHAKE, payload.as_slice())
            },
            ClientMessage::Ping { nonce } => {
                let payload = field_bytes(nonce as u64, 4);
                encode(OP_PING, payload.as_slice())
            },
        }
    }

    /// Decodes the first frame of `input` and tells how many bytes it used,
    /// so that the caller can drop them from its buffer.
    pub fn decode(input: &[u8]) -> (r: Result<(Self, usize), DecodeError>)
        ensures
            r == client_decoding(input@),
    {
        let (opcode, payload, consumed) = match split_frame(input) {
            Ok(parts) => parts,
            Err(e) => return Err(e),
        };
        proof {
            radix_values();
            read_be_bound(payload@);
        }
        if opcode == OP_HANDSHAKE {
            if payload.len() == 2 {
                Ok((ClientMessage::Handshake { protocol_version: read_be_slice(payload) as u16 }, consumed))
            } else {
                Err(DecodeError::MalformedPayload)
            }
        } else if opcode == OP_PING {
            if payload.len() == 4 {
                Ok((ClientMessage::Ping { nonce: read_be_slice(payload) as u32 }, consumed))
            } else {
                Err(DecodeError::MalformedPayload)
            }
        } else {
            Err(DecodeError::UnknownOpcode(opcode))
        }
    }
}

impl ServerMessage {
    pub fn encode(self) -> (r: Vec<u8>)
        ensures
            r@ == server_bytes(self),
    {
        match self {
            ServerMessage::HandshakeAccepted { session_id } => {
                let payload = field_bytes(session_id, 8);
                encode(OP_HANDSHAKE_ACCEPTED, payload.as_slice())
            },
            ServerMessage::HandshakeRejected { expected_version } => {
                let payload = field_bytes(expected_version as u64, 2);
                encode(OP_HANDSHAKE_REJECTED, payload.as_slice())
            },
            ServerMessage::Pong { nonce } => {
                let payload = field_bytes(nonce as u64, 4);
                encode(OP_PONG, payload.as_slice())
            },
        }
    }

    pub fn decode(input: &[u8]) -> (r: Result<(Self, usize), DecodeError>)
        ensures
            r == server_decoding(input@),
    {
        let (opcode, payload, consumed) = match split_frame(input) {
            Ok(parts) => parts,
            Err(e) => return Err(e),
        };
        proof {
            radix_values();
            read_be_bound(payload@);
        }
        if opcode == OP_HANDSHAKE_ACCEPTED {
            if payload.len() == 8 {
                Ok((ServerMessage::HandshakeAccepted { session_id: read_be_slice(payload) }, consumed))
            } else {
                Err(DecodeError::MalformedPayload)
            }
        } else if opcode == OP_HANDSHAKE_REJECTED {
            if payload.len() == 2 {
                Ok((ServerMessage::HandshakeRejected { expected_version: read_be_slice(payload) as u16 }, consumed))
            } else {
                Err(DecodeError::MalformedPayload)
            }
        } else if opcode == OP_PONG {
            if payload.len() == 4 {
                Ok((ServerMessage::Pong { nonce: read_be_slice(payload) as u32 }, consumed))
            } else {
                Err(DecodeError::MalformedPayload)
            }
        } else {
            Err(DecodeError::UnknownOpcode(opcode))
        }
    }
}

/// A frame followed by anything splits back into its opcode and payload.
proof fn frame_splits(opcode: u8, payload: Seq<u8>, rest: Seq<u8>)
    requires
        payload.len() + 1 <= MAX_FRAME_LEN,
    ensures
        split_spec(frame_bytes(opcode, payload) + rest) == Ok::<(u8, Seq<u8>, int), DecodeError>(
            (opcode, payload, payload.len() + 3int),
        ),
        frame_bytes(opcode, payload).len() == payload.len() + 3,
{
    let f = frame_bytes(opcode, payload);
    let s = f + rest;
    radix_values();
    be_roundtrip_exact(payload.len() + 1int, 2);
    assert(s.take(2) =~= be_bytes(payload.len() + 1int, 2));
    assert(s[2] == opcode);
    assert(s.subrange(3, 3int + payload.len()) =~= payload);
}

/// Every prefix of a frame shorter than the frame is incomplete.
proof fn frame_prefix_incomplete(opcode: u8, payload: Seq<u8>, cut: int)
    requires
        payload.len() + 1 <= MAX_FRAME_LEN,
        0 <= cut < payload.len() + 3,
    ensures
        split_spec(frame_bytes(opcode, payload).take(cut)) == Err::<(u8, Seq<u8>, int), DecodeError>(
            DecodeError::Incomplete,
        ),
{
    let f = frame_bytes(opcode, payload);
    frame_splits(opcode, payload, Seq::empty());
    assert(f + Seq::<u8>::empty() =~= f);
    radix_values();
    be_roundtrip_exact(payload.len() + 1int, 2);
    if cut >= 2 {
        assert(f.take(cut).take(2) =~= be_bytes(payload.len() + 1int, 2));
    }
}

/// The payload of a fixed-size field reads back to the field.
proof fn field_reads_back(v: int, n: nat)
    requires
        n == 2 || n == 4 || n == 8,
        0 <= v < crate::codec::radix(n),
    ensures
        read_be(be_bytes(v, n)) == v,
        be_bytes(v, n).len() == n,
{
    be_roundtrip_exact(v, n);
}

/// Decoding what a client encoded, followed by anything, gives back the
/// message and consumes exactly its bytes.
pub proof fn client_roundtrip(m: ClientMessage, rest: Seq<u8>)
    ensures
        client_decoding(client_bytes(m) + rest) == Ok::<(ClientMessage, usize), DecodeError>(
            (m, client_bytes(m).len() as usize),
        ),
{
    radix_values();
    match m {
        ClientMessage::Handshake { protocol_version } => {
            field_reads_back(protocol_version as int, 2);
            frame_splits(OP_HANDSHAKE, be_bytes(protocol_version as int, 2), rest);
        },
        ClientMessage::Ping { nonce } => {
            field_reads_back(nonce as int, 4);
            frame_splits(OP_PING, be_bytes(nonce as int, 4), rest);
        },
    }
}

/// Decoding what the server encoded, followed by anything, gives back the
/// message and consumes exactly its bytes.
pub proof fn server_roundtrip(m: ServerMessage, rest: Seq<u8>)
    ensures
        server_decoding(server_bytes(m) + rest) == Ok::<(ServerMessage, usize), DecodeError>(
            (m, server_bytes(m).len() as usize),
        ),
{
    radix_values();
    match m {
        ServerMessage::HandshakeAccepted { session_id } => {
            field_reads_back(session_id as int, 8);
            frame_splits(OP_HANDSHAKE_ACCEPTED, be_bytes(session_id as int, 8), rest);
        },
        ServerMessage::HandshakeRejected { expected_version } => {
            field_reads_back(expected_version as int, 2);
            frame_splits(OP_HANDSHAKE_REJECTED, be_bytes(expected_version as int, 2), rest);
        },
        ServerMessage::Pong { nonce } => {
            field_reads_back(nonce as int, 4);
            frame_splits(OP_PONG, be_bytes(nonce as int, 4), rest);
        },
    }
}

/// A client frame cut short is incomplete, never invalid.
pub proof fn truncated_client_frame_is_incomplete(m: ClientMessage, cut: int)
    requires
        0 <= cut < client_bytes(m).len(),
    ensures
        client_decoding(client_bytes(m).take(cut)) == Err::<(ClientMessage, usize), DecodeError>(
            DecodeError::Incomplete,
        ),
{
    radix_values();
    match m {
        ClientMessage::Handshake { protocol_version } => {
            field_reads_back(protocol_version as int, 2);
            frame_splits(OP_HANDSHAKE, be_bytes(protocol_version as int, 2), Seq::empty());
            frame_prefix_incomplete(OP_HANDSHAKE, be_bytes(protocol_version as int, 2), cut);
        },
        ClientMessage::Ping { nonce } => {
            field_reads_back(nonce as int, 4);
            frame_splits(OP_PING, be_bytes(nonce as int, 4), Seq::empty());
            frame_prefix_incomplete(OP_PING, be_bytes(nonce as int, 4), cut);
        },
    }
}

/// A server frame cut short is incomplete, never invalid.
pub proof fn truncated_server_frame_is_incomplete(m: ServerMessage, cut: int)
    requires
        0 <= cut < server_bytes(m).len(),
    ensures
        server_decoding(server_bytes(m).take(cut)) == Err::<(ServerMessage, usize), DecodeError>(
            DecodeError::Incomplete,
        ),
{
    radix_values();
    match m {
        ServerMessage::HandshakeAccepted { session_id } => {
            field_reads_back(session_id as int, 8);
            frame_splits(OP_HANDSHAKE_ACCEPTED, be_bytes(session_id as int, 8), Seq::empty());
            frame_prefix_incomplete(OP_HANDSHAKE_ACCEPTED, be_bytes(session_id as int, 8), cut);
        },
        ServerMessage::HandshakeRejected { expected_version } => {
            field_reads_back(expected_version as int, 2);
            frame_splits(OP_HANDSHAKE_REJECTED, be_bytes(expected_version as int, 2), Seq::empty());
            frame_prefix_incomplete(OP_HANDSHAKE_REJECTED, be_bytes(expected_version as int, 2), cut);
        },
        ServerMessage::Pong { nonce } => {
            field_reads_back(nonce as int, 4);
            frame_splits(OP_PONG, be_bytes(nonce as int, 4), Seq::empty());
            frame_prefix_incomplete(OP_PONG, be_bytes(nonce as int, 4), cut);
        },
    }
}

/// A successful decoding never claims more bytes than it was given.
pub proof fn decoding_stays_within_input(input: Seq<u8>)
    ensures
        client_decoding(input) matches Ok((_, n)) ==> n <= input.len(),
        server_decoding(input) matches Ok((_, n)) ==> n <= input.len(),
{
    radix_values();
    if input.len() >= 2 {
        read_be_bound(input.take(2));
    }
}

} // verus!
