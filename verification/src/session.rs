//! Connection life cycle, without I/O: a frame in, a reaction out.

use vstd::prelude::*;
use crate::protocol::{ClientMessage, DecodeError, MAX_FRAME_LEN, PROTOCOL_VERSION, ServerMessage, client_decoding, decoding_stays_within_input};

verus! {

/// What to do after handling a frame.
#[derive(Debug, Clone, Copy, PartialEq, Eq, Structural)]
pub enum Reaction {
    /// Answer and keep the connection.
    Reply(ServerMessage),
    /// Answer, then close.
    ReplyAndClose(ServerMessage),
    /// Close without answering: the client broke the protocol.
    Close,
}

#[derive(Debug, Clone, Copy, PartialEq, Eq, Structural)]
enum State {
    AwaitingHandshake,
    Established { session_id: u64 },
}

/// State of one connection.
#[derive(Debug)]
pub struct Session {
    state: State,
    session_id: u64,
}

/// The reaction to a frame and whether the session is established afterwards,
/// from whether it was established before. A frame out of sequence (anything
/// before the handshake, or a replayed handshake) closes the connection.
pub open spec fn session_step(established: bool, session_id: u64, message: ClientMessage) -> (Reaction, bool) {
    match message {
        ClientMessage::Handshake { protocol_version } => if established {
            (Reaction::Close, true)
        } else if protocol_version == PROTOCOL_VERSION {
            (Reaction::Reply(ServerMessage::HandshakeAccepted { session_id }), true)
        } else {
            (Reaction::ReplyAndClose(ServerMessage::HandshakeRejected { expected_version: PROTOCOL_VERSION }), false)
        },
        ClientMessage::Ping { nonce } => if established {
            (Reaction::Reply(ServerMessage::Pong { nonce }), true)
        } else {
            (Reaction::Close, false)
        },
    }
}

impl Session {
    #[verifier::type_invariant]
    spec fn consistent(self) -> bool {
        self.state matches State::Established { session_id } ==> session_id == self.session_id
    }

    /// Whether the handshake has been accepted.
    pub closed spec fn established(self) -> bool {
        self.state is Established
    }

    /// Identifier of the session.
    pub closed spec fn id(self) -> u64 {
        self.session_id
    }

    pub fn new(session_id: u64) -> (r: Self)
        ensures
            !r.established(),
            r.id() == session_id,
    {
        Self { state: State::AwaitingHandshake, session_id }
    }

    /// Handles an incoming frame.
    pub fn on_message(&mut self, message: ClientMessage) -> (r: Reaction)
        ensures
            (r, final(self).established()) == session_step(old(self).established(), old(self).id(), message),
            final(self).id() == old(self).id(),
    {
        match (self.state, message) {
            (State::AwaitingHandshake, ClientMessage::Handshake { protocol_version }) => {
                if protocol_version == PROTOCOL_VERSION {
                    self.state = State::Established { session_id: self.session_id };
                    Reaction::Reply(ServerMessage::HandshakeAccepted { session_id: self.session_id })
                } else {
                    Reaction::ReplyAndClose(
                        ServerMessage::HandshakeRejected { expected_version: PROTOCOL_VERSION },
                    )
                }
            },
            (State::AwaitingHandshake, _) | (State::Established { .. }, ClientMessage::Handshake { .. }) => {
                Reaction::Close
            },
            (State::Established { .. }, ClientMessage::Ping { nonce }) => {
                Reaction::Reply(ServerMessage::Pong { nonce })
            },
        }
    }
}


/// Appends the bytes just read from the connection to `buffer`, and tells
/// whether the buffer is still within `MAX_FRAME_LEN`. A client that streams
/// bytes without ever completing a frame is to be dropped rather than let the
/// buffer swell.
pub fn take_in(buffer: &mut Vec<u8>, chunk: &[u8]) -> (r: bool)
    ensures
        final(buffer)@ == old(buffer)@ + chunk@,
        r == (final(buffer)@.len() <= MAX_FRAME_LEN),
{
    buffer.extend_from_slice(chunk);
    proof {
        assert(buffer@ =~= old(buffer)@ + chunk@);
    }
    buffer.len() <= MAX_FRAME_LEN
}

/// Consumes one complete frame from the front of `buffer`, if there is one,
/// and lets the session react to it.
///
/// `None` means "bytes are missing", not "nothing to do": that is what tells
/// a frame split by TCP from a silent client. An invalid frame closes the
/// connection: resynchronising on a corrupted stream opens more surface than
/// it closes.
pub fn next_reaction(buffer: &mut Vec<u8>, session: &mut Session) -> (r: Option<Reaction>)
    ensures
        final(session).id() == old(session).id(),
        match client_decoding(old(buffer)@) {
            Ok((message, consumed)) => {
                &&& final(buffer)@ == old(buffer)@.subrange(consumed as int, old(buffer)@.len() as int)
                &&& r == Some(session_step(old(session).established(), old(session).id(), message).0)
                &&& final(session).established() == session_step(old(session).established(), old(session).id(), message).1
            },
            Err(DecodeError::Incomplete) => {
                &&& r is None
                &&& final(buffer)@ == old(buffer)@
                &&& final(session).established() == old(session).established()
            },
            Err(_) => {
                &&& r == Some(Reaction::Close)
                &&& final(buffer)@ == old(buffer)@
                &&& final(session).established() == old(session).established()
            },
        },
{
    proof {
        decoding_stays_within_input(buffer@);
    }
    match ClientMessage::decode(buffer.as_slice()) {
        Ok((message, consumed)) => {
            let rest = buffer.split_off(consumed);
            *buffer = rest;
            Some(session.on_message(message))
        },
        Err(DecodeError::Incomplete) => None,
        Err(_) => Some(Reaction::Close),
    }
}

/// Nothing but an accepted handshake establishes a session, and an
/// established session stays established.
pub proof fn only_a_valid_handshake_establishes(established: bool, id: u64, message: ClientMessage)
    ensures
        session_step(established, id, message).1 <==> (established || message
            == (ClientMessage::Handshake { protocol_version: PROTOCOL_VERSION })),
{
}

/// Before the handshake, any other frame closes without an answer.
pub proof fn early_frames_close(id: u64, message: ClientMessage)
    requires
        !(message is Handshake),
    ensures
        session_step(false, id, message).0 == Reaction::Close,
{
}


/// An established session answers a ping with a pong carrying the same
/// nonce, and stays established.
pub proof fn established_ping_echoes_nonce(id: u64, nonce: u32)
    ensures
        session_step(true, id, ClientMessage::Ping { nonce }) == (Reaction::Reply(ServerMessage::Pong { nonce }), true),
{
}

/// A handshake in the current version is accepted with the session's own
/// identifier, and establishes the session.
pub proof fn valid_handshake_is_accepted(id: u64)
    ensures
        session_step(false, id, ClientMessage::Handshake { protocol_version: PROTOCOL_VERSION }) == (
            Reaction::Reply(ServerMessage::HandshakeAccepted { session_id: id }),
            true,
        ),
{
}

} // verus!
