//! The session that follows the handshake. It is one-way by design: the
//! server only receives and decrypts, the client only encrypts and sends.
//!
//! Like the key exchange, the session is a state machine that the owner of
//! the connection drives. Its keystream moves exactly as many positions as
//! bytes cross the wire, which is what keeps the two peers in step.

use crate::exchange::{
    lemma_secrets_agree, spec_public_value, spec_shared_secret, KeyExchange, Role,
};
use crate::keystream::{
    lemma_advance_adds, lemma_apply_splits, lemma_round_trip, spec_advance, spec_apply, Keystream,
};
use vstd::prelude::*;
use vstd::slice::slice_subrange;

verus! {

/// The most bytes that a server takes from the socket in one read.
pub const RECEIVE_LIMIT: usize = 1024;

/// The byte that ends a line.
pub const LINE_FEED: u8 = 0x0a;

/// The byte that may stand before the line feed.
pub const CARRIAGE_RETURN: u8 = 0x0d;

/// A line without its line ending: without a final line feed, and without
/// the carriage return that stands directly before that line feed. Nothing
/// else is removed.
pub open spec fn spec_trim_line_ending(line: Seq<u8>) -> Seq<u8> {
    if line.len() >= 2 && line[line.len() - 1] == LINE_FEED && line[line.len() - 2]
        == CARRIAGE_RETURN {
        line.subrange(0, line.len() - 2)
    } else if line.len() >= 1 && line[line.len() - 1] == LINE_FEED {
        line.subrange(0, line.len() - 1)
    } else {
        line
    }
}

/// Cuts the line ending off a line of input.
pub fn trim_line_ending(line: &[u8]) -> (text: &[u8])
    ensures
        text@ == spec_trim_line_ending(line@),
{
    let n = line.len();
    if n >= 2 && line[n - 1] == LINE_FEED && line[n - 2] == CARRIAGE_RETURN {
        slice_subrange(line, 0, n - 2)
    } else if n >= 1 && line[n - 1] == LINE_FEED {
        slice_subrange(line, 0, n - 1)
    } else {
        line
    }
}

/// Whether a session is still running.
#[derive(Clone, Copy, Debug, PartialEq, Eq, Structural)]
pub enum SessionPhase {
    /// Application data may flow.
    Open,
    /// The peer closed the connection, or local input ran out.
    Closed,
    /// The transport failed.
    Failed,
}

/// What the driver reports to the session.
#[derive(Debug, PartialEq, Eq)]
pub enum SessionEvent {
    /// What one read of the socket returned; empty when the peer has closed.
    Received(Vec<u8>),
    /// One line of local input, with its line ending if it had one.
    Line(Vec<u8>),
    /// Local input is exhausted.
    EndOfInput,
    /// A read or a write failed.
    TransportError,
}

/// A [`SessionEvent`] as a value: the bytes as sequences.
pub enum SessionEventView {
    Received(Seq<u8>),
    Line(Seq<u8>),
    EndOfInput,
    TransportError,
}

impl View for SessionEvent {
    type V = SessionEventView;

    open spec fn view(&self) -> SessionEventView {
        match *self {
            SessionEvent::Received(bytes) => SessionEventView::Received(bytes@),
            SessionEvent::Line(bytes) => SessionEventView::Line(bytes@),
            SessionEvent::EndOfInput => SessionEventView::EndOfInput,
            SessionEvent::TransportError => SessionEventView::TransportError,
        }
    }
}

/// What the session asks the driver to do with the event it was given.
#[derive(Debug, PartialEq, Eq)]
pub enum SessionAction {
    /// Show these decrypted bytes as text, then read the socket again.
    Display(Vec<u8>),
    /// Write this ciphertext in one write, then read the next line.
    Transmit(Vec<u8>),
    /// Leave the loop: the session has ended in good order.
    Close,
    /// Leave the loop: the transport failed.
    Abort,
    /// The event is not one that this role takes. Nothing was consumed.
    Ignore,
}

/// A [`SessionAction`] as a value: the bytes as sequences.
pub enum SessionActionView {
    Display(Seq<u8>),
    Transmit(Seq<u8>),
    Close,
    Abort,
    Ignore,
}

impl View for SessionAction {
    type V = SessionActionView;

    open spec fn view(&self) -> SessionActionView {
        match *self {
            SessionAction::Display(bytes) => SessionActionView::Display(bytes@),
            SessionAction::Transmit(bytes) => SessionActionView::Transmit(bytes@),
            SessionAction::Close => SessionActionView::Close,
            SessionAction::Abort => SessionActionView::Abort,
            SessionAction::Ignore => SessionActionView::Ignore,
        }
    }
}

/// What the session waits for next.
#[derive(Clone, Copy, Debug, PartialEq, Eq, Structural)]
pub enum Awaited {
    /// One read of the socket, of at most `limit` bytes.
    SocketData { limit: usize },
    /// One line of local input.
    InputLine,
    /// Nothing: the session is over.
    Nothing,
}

/// The state of a session, as a value.
pub struct SessionState {
    pub role: Role,
    /// The seed of the keystream: the shared secret.
    pub seed: u64,
    /// The position in the keystream: the number of application bytes that
    /// have crossed the wire.
    pub cursor: u128,
    pub phase: SessionPhase,
}

impl SessionState {
    /// The state right after the handshake.
    pub open spec fn initial(role: Role, shared_secret: u64) -> SessionState {
        SessionState { role, seed: shared_secret, cursor: 0, phase: SessionPhase::Open }
    }

    /// This state in another phase.
    pub open spec fn ended(self, phase: SessionPhase) -> SessionState {
        SessionState { role: self.role, seed: self.seed, cursor: self.cursor, phase }
    }

    /// This state with the keystream `n` positions further on.
    pub open spec fn advanced(self, n: nat) -> SessionState {
        SessionState {
            role: self.role,
            seed: self.seed,
            cursor: spec_advance(self.cursor, n),
            phase: self.phase,
        }
    }

    /// What the session waits for: a server for the socket, a client for a
    /// line of input, a finished session for nothing.
    pub open spec fn awaits(self) -> Awaited {
        match (self.phase, self.role) {
            (SessionPhase::Open, Role::Server) => Awaited::SocketData { limit: RECEIVE_LIMIT },
            (SessionPhase::Open, Role::Client) => Awaited::InputLine,
            _ => Awaited::Nothing,
        }
    }

    /// The transition function: the state after `event` and the action that
    /// answers it.
    ///
    /// A server decrypts what it receives, in the order received, and ends
    /// on an empty read. A client encrypts each line without its line
    /// ending and ends when input runs out. An event meant for the other
    /// role is ignored. A finished session stays as it is.
    pub open spec fn step(self, event: SessionEventView) -> (SessionState, SessionActionView) {
        match self.phase {
            SessionPhase::Closed => (self, SessionActionView::Close),
            SessionPhase::Failed => (self, SessionActionView::Abort),
            SessionPhase::Open => match (event, self.role) {
                (SessionEventView::TransportError, _) => (
                    self.ended(SessionPhase::Failed),
                    SessionActionView::Abort,
                ),
                (SessionEventView::Received(bytes), Role::Server) => if bytes.len() == 0 {
                    (self.ended(SessionPhase::Closed), SessionActionView::Close)
                } else {
                    (
                        self.advanced(bytes.len()),
                        SessionActionView::Display(spec_apply(self.seed, self.cursor, bytes)),
                    )
                },
                (SessionEventView::Line(line), Role::Client) => {
                    let text = spec_trim_line_ending(line);
                    (
                        self.advanced(text.len()),
                        SessionActionView::Transmit(spec_apply(self.seed, self.cursor, text)),
                    )
                },
                (SessionEventView::EndOfInput, Role::Client) => (
                    self.ended(SessionPhase::Closed),
                    SessionActionView::Close,
                ),
                _ => (self, SessionActionView::Ignore),
            },
        }
    }
}

/// One side of an established session.
#[derive(Debug)]
pub struct Session {
    role: Role,
    keystream: Keystream,
    phase: SessionPhase,
}

impl View for Session {
    type V = SessionState;

    closed spec fn view(&self) -> SessionState {
        SessionState {
            role: self.role,
            seed: self.keystream.seed(),
            cursor: self.keystream.cursor(),
            phase: self.phase,
        }
    }
}

impl Session {
    /// A session for `role` whose keystream is seeded with the shared
    /// secret as it is, without any key derivation.
    pub fn new(role: Role, shared_secret: u64) -> (session: Session)
        ensures
            session@ == SessionState::initial(role, shared_secret),
    {
        Session { role, keystream: Keystream::new(shared_secret), phase: SessionPhase::Open }
    }

    /// The session that follows a key exchange: `Some` exactly when the
    /// exchange is established, and then seeded with its shared secret.
    pub fn establish(exchange: &KeyExchange) -> (session: Option<Session>)
        ensures
            match exchange@.shared_secret() {
                Some(secret) => session matches Some(s) && s@ == SessionState::initial(
                    exchange@.role,
                    secret,
                ),
                None => session is None,
            },
    {
        match exchange.shared_secret() {
            Some(secret) => Some(Session::new(exchange.role(), secret)),
            None => None,
        }
    }

    /// The role of this side.
    pub fn role(&self) -> (role: Role)
        ensures
            role == self@.role,
    {
        self.role
    }

    /// Whether the session is still running.
    pub fn phase(&self) -> (phase: SessionPhase)
        ensures
            phase == self@.phase,
    {
        self.phase
    }

    /// The number of application bytes that have crossed the wire.
    pub fn position(&self) -> (cursor: u128)
        ensures
            cursor == self@.cursor,
    {
        self.keystream.position()
    }

    /// What the driver has to wait for next.
    pub fn awaits(&self) -> (awaited: Awaited)
        ensures
            awaited == self@.awaits(),
    {
        match (self.phase, self.role) {
            (SessionPhase::Open, Role::Server) => Awaited::SocketData { limit: RECEIVE_LIMIT },
            (SessionPhase::Open, Role::Client) => Awaited::InputLine,
            _ => Awaited::Nothing,
        }
    }

    /// Takes one event and answers with the action for it.
    ///
    /// The new state and the action are those of [`SessionState::step`].
    pub fn step(&mut self, event: SessionEvent) -> (action: SessionAction)
        ensures
            final(self)@ == old(self)@.step(event@).0,
            action@ == old(self)@.step(event@).1,
    {
        match self.phase {
            SessionPhase::Closed => SessionAction::Close,
            SessionPhase::Failed => SessionAction::Abort,
            SessionPhase::Open => match (event, self.role) {
                (SessionEvent::TransportError, _) => {
                    self.phase = SessionPhase::Failed;
                    SessionAction::Abort
                },
                (SessionEvent::Received(bytes), Role::Server) => {
                    if bytes.len() == 0 {
                        self.phase = SessionPhase::Closed;
                        SessionAction::Close
                    } else {
                        SessionAction::Display(self.keystream.apply(bytes.as_slice()))
                    }
                },
                (SessionEvent::Line(line), Role::Client) => {
                    let text = trim_line_ending(line.as_slice());
                    SessionAction::Transmit(self.keystream.apply(text))
                },
                (SessionEvent::EndOfInput, Role::Client) => {
                    self.phase = SessionPhase::Closed;
                    SessionAction::Close
                },
                _ => SessionAction::Ignore,
            },
        }
    }
}

/// The session is one-way: a server never transmits and a client never
/// displays.
pub proof fn lemma_one_way(state: SessionState, event: SessionEventView)
    ensures
        state.role == Role::Server ==> !(state.step(event).1 is Transmit),
        state.role == Role::Client ==> !(state.step(event).1 is Display),
{
}

/// The keystream moves exactly as far as bytes cross the wire: by the
/// length of what is displayed or transmitted, and not at all otherwise.
/// Role and seed never change.
pub proof fn lemma_cursor_counts_bytes(state: SessionState, event: SessionEventView)
    ensures
        state.step(event).0.role == state.role,
        state.step(event).0.seed == state.seed,
        match state.step(event).1 {
            SessionActionView::Display(bytes) => state.step(event).0.cursor == spec_advance(
                state.cursor,
                bytes.len(),
            ),
            SessionActionView::Transmit(bytes) => state.step(event).0.cursor == spec_advance(
                state.cursor,
                bytes.len(),
            ),
            _ => state.step(event).0.cursor == state.cursor,
        },
{
}

/// A finished session is final: no event changes its state.
pub proof fn lemma_end_is_final(state: SessionState, event: SessionEventView)
    requires
        state.phase != SessionPhase::Open,
    ensures
        state.step(event).0 == state,
        state.step(event).1 is Close || state.step(event).1 is Abort,
{
}

/// Two peers in step stay in step. When a client and a server hold the same
/// seed at the same position, the server displays the line the client was
/// given, without its line ending, and both end at the same position.
pub proof fn lemma_lock_step(client: SessionState, server: SessionState, line: Seq<u8>)
    requires
        client.role == Role::Client,
        server.role == Role::Server,
        client.phase == SessionPhase::Open,
        server.phase == SessionPhase::Open,
        client.seed == server.seed,
        client.cursor == server.cursor,
        spec_trim_line_ending(line).len() > 0,
    ensures
        ({
            let (client_after, sent) = client.step(SessionEventView::Line(line));
            &&& sent matches SessionActionView::Transmit(ciphertext)
            &&& ({
                let (server_after, shown) = server.step(SessionEventView::Received(ciphertext));
                &&& shown == SessionActionView::Display(spec_trim_line_ending(line))
                &&& server_after.cursor == client_after.cursor
                &&& server_after.phase == SessionPhase::Open
                &&& client_after.phase == SessionPhase::Open
            })
        }),
{
    lemma_round_trip(client.seed, client.cursor, spec_trim_line_ending(line));
}

/// Message boundaries are not kept, and need not be: a server that receives
/// a ciphertext in two pieces displays, piece by piece, what it would have
/// displayed for the whole, and ends in the same state.
pub proof fn lemma_delivery_in_pieces(server: SessionState, first: Seq<u8>, second: Seq<u8>)
    requires
        server.role == Role::Server,
        server.phase == SessionPhase::Open,
        first.len() > 0,
        second.len() > 0,
    ensures
        ({
            let (whole_after, whole) = server.step(SessionEventView::Received(first + second));
            let (first_after, shown_first) = server.step(SessionEventView::Received(first));
            let (second_after, shown_second) = first_after.step(
                SessionEventView::Received(second),
            );
            &&& whole matches SessionActionView::Display(all)
            &&& shown_first matches SessionActionView::Display(head)
            &&& shown_second matches SessionActionView::Display(tail)
            &&& all == head + tail
            &&& second_after == whole_after
        }),
{
    lemma_apply_splits(server.seed, server.cursor, first, second);
    lemma_advance_adds(server.cursor, first.len(), second.len());
}

/// From handshake to first message: the sessions that follow a handshake
/// between a server and a client begin in step, so the server displays the
/// first line the client is given, without its line ending.
pub proof fn lemma_first_line_arrives(server_exponent: u64, client_exponent: u64, line: Seq<u8>)
    requires
        spec_trim_line_ending(line).len() > 0,
    ensures
        ({
            let server = SessionState::initial(
                Role::Server,
                spec_shared_secret(spec_public_value(client_exponent), server_exponent),
            );
            let client = SessionState::initial(
                Role::Client,
                spec_shared_secret(spec_public_value(server_exponent), client_exponent),
            );
            &&& client.step(SessionEventView::Line(line)).1 matches SessionActionView::Transmit(
                ciphertext,
            )
            &&& server.step(SessionEventView::Received(ciphertext)).1
                == SessionActionView::Display(spec_trim_line_ending(line))
        }),
{
    lemma_secrets_agree(server_exponent, client_exponent);
    let secret = spec_shared_secret(spec_public_value(client_exponent), server_exponent);
    lemma_lock_step(
        SessionState::initial(Role::Client, secret),
        SessionState::initial(Role::Server, secret),
        line,
    );
}

} // verus!
