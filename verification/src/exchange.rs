//! The key exchange: each peer raises the shared generator to a secret
//! exponent, the two public values cross the wire in an order fixed by role,
//! and each side raises what it received to its own exponent.
//!
//! The exchange is a state machine. The program that owns the connection
//! feeds it events and performs the action it answers with; the machine never
//! touches the transport itself.

use crate::modexp::{lemma_power_mod_bound, lemma_power_mod_commutes, power_mod, spec_power_mod};
use crate::wire::{
    decode_public_value, encode_public_value, lemma_value_of_bytes, spec_be_bytes, spec_be_value,
};
use rand::Rng;
use vstd::prelude::*;

verus! {

/// The modulus of the group. Both peers are built with the same value; it is
/// not negotiated and not checked for primality, and at 64 bits it gives no
/// real protection.
pub const P: u64 = 0xD87F_A3E2_91B4_C7F3;

/// The generator that both peers raise to their secret exponents.
pub const G: u64 = 2;

/// Which end of the connection a peer is. The role fixes the order of the
/// handshake and the direction of the session.
#[derive(Clone, Copy, Debug, PartialEq, Eq, Structural)]
pub enum Role {
    /// Listens, speaks first in the handshake, then only receives.
    Server,
    /// Dials, listens first in the handshake, then only sends.
    Client,
}

/// Why a handshake was given up. Every one of these is final.
#[derive(Clone, Copy, Debug, PartialEq, Eq, Structural)]
pub enum HandshakeError {
    /// The stream ended before all eight bytes of the peer's public value
    /// had arrived.
    Incomplete { received: usize },
    /// More than the eight bytes of one public value were handed in.
    Overlong { received: usize },
    /// The transport reported an error.
    Transport,
    /// An event arrived that the handshake was not waiting for.
    OutOfTurn,
}

/// How far a handshake has come, with what is known at that point.
#[derive(Clone, Copy, Debug, PartialEq, Eq, Structural)]
pub enum Phase {
    /// Nothing has crossed the wire.
    Idle,
    /// A server has handed out its public value for writing.
    Sending,
    /// The peer's public value has been asked for.
    Receiving,
    /// A client holds the server's public value and has handed out its own
    /// for writing.
    Answering { peer_public_value: u64 },
    /// Both values have crossed; the shared secret is known.
    Established { peer_public_value: u64 },
    /// The handshake was given up.
    Failed { error: HandshakeError },
}

/// What the driver reports to the exchange.
#[derive(Debug, PartialEq, Eq)]
pub enum HandshakeEvent {
    /// The connection is open and nothing has been done on it.
    Start,
    /// The bytes of the last `Send` were written in full.
    Sent,
    /// What arrived in answer to `Receive`: the eight bytes asked for, or
    /// the fewer that came before the stream ended.
    Received(Vec<u8>),
    /// A read or a write failed.
    TransportError,
}

/// A [`HandshakeEvent`] as a value: the bytes as a sequence.
pub enum HandshakeEventView {
    Start,
    Sent,
    Received(Seq<u8>),
    TransportError,
}

impl View for HandshakeEvent {
    type V = HandshakeEventView;

    open spec fn view(&self) -> HandshakeEventView {
        match *self {
            HandshakeEvent::Start => HandshakeEventView::Start,
            HandshakeEvent::Sent => HandshakeEventView::Sent,
            HandshakeEvent::Received(bytes) => HandshakeEventView::Received(bytes@),
            HandshakeEvent::TransportError => HandshakeEventView::TransportError,
        }
    }
}

/// What the exchange asks the driver to do next.
#[derive(Clone, Copy, Debug, PartialEq, Eq)]
pub enum HandshakeAction {
    /// Write these eight bytes, then report `Sent`.
    Send([u8; 8]),
    /// Read exactly eight bytes, then report `Received`.
    Receive,
    /// The handshake is done; the value is the shared secret.
    Established(u64),
    /// The handshake is over without a secret.
    Abort(HandshakeError),
}

/// A [`HandshakeAction`] as a value: the bytes as a sequence.
pub enum HandshakeActionView {
    Send(Seq<u8>),
    Receive,
    Established(u64),
    Abort(HandshakeError),
}

impl View for HandshakeAction {
    type V = HandshakeActionView;

    open spec fn view(&self) -> HandshakeActionView {
        match *self {
            HandshakeAction::Send(bytes) => HandshakeActionView::Send(bytes@),
            HandshakeAction::Receive => HandshakeActionView::Receive,
            HandshakeAction::Established(secret) => HandshakeActionView::Established(secret),
            HandshakeAction::Abort(error) => HandshakeActionView::Abort(error),
        }
    }
}

/// Whether `e` lies in the range from which private exponents are drawn,
/// `[1, P - 1)`.
pub open spec fn spec_valid_exponent(e: u64) -> bool {
    1 <= e < P - 1
}

/// The public value that belongs to a private exponent: `G^e mod P`.
pub open spec fn spec_public_value(private_exponent: u64) -> u64 {
    spec_power_mod(G as int, private_exponent as nat, P as int) as u64
}

/// The secret that the holder of `private_exponent` derives from the peer's
/// public value: `peer^e mod P`.
pub open spec fn spec_shared_secret(peer_public_value: u64, private_exponent: u64) -> u64 {
    spec_power_mod(peer_public_value as int, private_exponent as nat, P as int) as u64
}

/// The state of one key exchange, as a value.
pub struct ExchangeState {
    pub role: Role,
    pub private_exponent: u64,
    pub phase: Phase,
}

impl ExchangeState {
    /// The state before anything has crossed the wire.
    pub open spec fn initial(role: Role, private_exponent: u64) -> ExchangeState {
        ExchangeState { role, private_exponent, phase: Phase::Idle }
    }

    /// The phase fits the role: only a server writes before it has read,
    /// and only a client writes after.
    pub open spec fn wf(self) -> bool {
        match self.phase {
            Phase::Sending => self.role == Role::Server,
            Phase::Answering { .. } => self.role == Role::Client,
            _ => true,
        }
    }

    /// The peer's public value, held from the moment all eight bytes of it
    /// have arrived, and dropped when the handshake fails.
    pub open spec fn peer_public_value(self) -> Option<u64> {
        match self.phase {
            Phase::Answering { peer_public_value } => Some(peer_public_value),
            Phase::Established { peer_public_value } => Some(peer_public_value),
            _ => None,
        }
    }

    /// The shared secret, known once the exchange is established.
    pub open spec fn shared_secret(self) -> Option<u64> {
        match self.phase {
            Phase::Established { peer_public_value } => Some(
                spec_shared_secret(peer_public_value, self.private_exponent),
            ),
            _ => None,
        }
    }

    /// Why the handshake was given up, if it was.
    pub open spec fn error(self) -> Option<HandshakeError> {
        match self.phase {
            Phase::Failed { error } => Some(error),
            _ => None,
        }
    }

    /// This state moved to `phase`.
    pub open spec fn moved(self, phase: Phase) -> ExchangeState {
        ExchangeState { role: self.role, private_exponent: self.private_exponent, phase }
    }

    /// The handshake given up with `error`, and the action that says so.
    /// Whatever had arrived is dropped.
    pub open spec fn abort(self, error: HandshakeError) -> (ExchangeState, HandshakeActionView) {
        (self.moved(Phase::Failed { error }), HandshakeActionView::Abort(error))
    }

    /// The action that hands out the own public value in wire format.
    pub open spec fn send_own(self) -> HandshakeActionView {
        HandshakeActionView::Send(spec_be_bytes(spec_public_value(self.private_exponent)))
    }

    /// The state reached with the peer's value `peer` in hand and both
    /// values across the wire, and the action that reports the secret.
    pub open spec fn establish(self, peer: u64) -> (ExchangeState, HandshakeActionView) {
        (
            self.moved(Phase::Established { peer_public_value: peer }),
            HandshakeActionView::Established(spec_shared_secret(peer, self.private_exponent)),
        )
    }

    /// What an unfinished handshake does with an event that is not the one
    /// it waits for: a transport error ends it as such, anything else as
    /// out of turn.
    pub open spec fn refuse(self, event: HandshakeEventView) -> (
        ExchangeState,
        HandshakeActionView,
    ) {
        match event {
            HandshakeEventView::TransportError => self.abort(HandshakeError::Transport),
            _ => self.abort(HandshakeError::OutOfTurn),
        }
    }

    /// The transition function: the state after `event` and the action that
    /// answers it.
    ///
    /// A server writes, then reads; a client reads, then writes. A finished
    /// handshake, established or failed, stays as it is and repeats its
    /// last word. Anything else that does not come in turn, and any
    /// transport error, ends the handshake.
    pub open spec fn step(self, event: HandshakeEventView) -> (ExchangeState, HandshakeActionView) {
        match self.phase {
            Phase::Established { peer_public_value } => (
                self,
                HandshakeActionView::Established(
                    spec_shared_secret(peer_public_value, self.private_exponent),
                ),
            ),
            Phase::Failed { error } => (self, HandshakeActionView::Abort(error)),
            Phase::Idle => match event {
                HandshakeEventView::Start => match self.role {
                    Role::Server => (self.moved(Phase::Sending), self.send_own()),
                    Role::Client => (self.moved(Phase::Receiving), HandshakeActionView::Receive),
                },
                _ => self.refuse(event),
            },
            Phase::Sending => match event {
                HandshakeEventView::Sent => (
                    self.moved(Phase::Receiving),
                    HandshakeActionView::Receive,
                ),
                _ => self.refuse(event),
            },
            Phase::Receiving => match event {
                HandshakeEventView::Received(bytes) => if bytes.len() < 8 {
                    self.abort(HandshakeError::Incomplete { received: bytes.len() as usize })
                } else if bytes.len() > 8 {
                    self.abort(HandshakeError::Overlong { received: bytes.len() as usize })
                } else {
                    let peer = spec_be_value(bytes) as u64;
                    match self.role {
                        Role::Server => self.establish(peer),
                        Role::Client => (
                            self.moved(Phase::Answering { peer_public_value: peer }),
                            self.send_own(),
                        ),
                    }
                },
                _ => self.refuse(event),
            },
            Phase::Answering { peer_public_value } => match event {
                HandshakeEventView::Sent => self.establish(peer_public_value),
                _ => self.refuse(event),
            },
        }
    }
}

/// Draws a number from `[low, high)` with `rand::thread_rng()` and
/// `Rng::gen_range`.
///
/// Trusted: the result lies in the range asked for. `gen_range` panics on an
/// empty range, which `requires` leaves out. Which number comes is chance,
/// so nothing more is claimed. `thread_rng` panics where the operating
/// system gives it no entropy to start from; no argument decides that.
#[verifier::external_body]
fn random_in_range(low: u64, high: u64) -> (r: u64)
    requires
        low < high,
    ensures
        low <= r < high,
{
    rand::thread_rng().gen_range(low..high)
}

/// Draws a private exponent at random from `[1, P - 1)`.
pub fn sample_private_exponent() -> (exponent: u64)
    ensures
        spec_valid_exponent(exponent),
{
    random_in_range(1, P - 1)
}

/// Computes the public value that belongs to a private exponent.
pub fn derive_public_value(private_exponent: u64) -> (value: u64)
    ensures
        value == spec_public_value(private_exponent),
        value < P,
{
    power_mod(G, private_exponent, P)
}

/// Computes the secret that the holder of `private_exponent` shares with
/// the peer whose public value is given. The peer's value is taken as it
/// came; it is not checked in any way.
pub fn derive_shared_secret(peer_public_value: u64, private_exponent: u64) -> (secret: u64)
    ensures
        secret == spec_shared_secret(peer_public_value, private_exponent),
        secret < P,
{
    power_mod(peer_public_value, private_exponent, P)
}

/// One side of a key exchange.
#[derive(Debug)]
pub struct KeyExchange {
    role: Role,
    private_exponent: u64,
    phase: Phase,
}

impl View for KeyExchange {
    type V = ExchangeState;

    closed spec fn view(&self) -> ExchangeState {
        ExchangeState {
            role: self.role,
            private_exponent: self.private_exponent,
            phase: self.phase,
        }
    }
}

impl KeyExchange {
    /// An exchange for `role` with the given private exponent, before
    /// anything has crossed the wire.
    pub fn with_exponent(role: Role, private_exponent: u64) -> (exchange: KeyExchange)
        ensures
            exchange@ == ExchangeState::initial(role, private_exponent),
    {
        KeyExchange { role, private_exponent, phase: Phase::Idle }
    }

    /// An exchange for `role` with a private exponent drawn at random from
    /// `[1, P - 1)`.
    pub fn generate(role: Role) -> (exchange: KeyExchange)
        ensures
            spec_valid_exponent(exchange@.private_exponent),
            exchange@ == ExchangeState::initial(role, exchange@.private_exponent),
    {
        KeyExchange::with_exponent(role, sample_private_exponent())
    }

    /// The role this exchange was made for.
    pub fn role(&self) -> (role: Role)
        ensures
            role == self@.role,
    {
        self.role
    }

    /// How far the handshake has come.
    pub fn phase(&self) -> (phase: Phase)
        ensures
            phase == self@.phase,
    {
        self.phase
    }

    /// The own public value, `G^e mod P` for the private exponent `e`.
    pub fn public_value(&self) -> (value: u64)
        ensures
            value == spec_public_value(self@.private_exponent),
            value < P,
    {
        derive_public_value(self.private_exponent)
    }

    /// The peer's public value, once all eight bytes of it have arrived.
    pub fn peer_public_value(&self) -> (value: Option<u64>)
        ensures
            value == self@.peer_public_value(),
    {
        match self.phase {
            Phase::Answering { peer_public_value } => Some(peer_public_value),
            Phase::Established { peer_public_value } => Some(peer_public_value),
            _ => None,
        }
    }

    /// The shared secret: `Some` exactly when the exchange is established.
    pub fn shared_secret(&self) -> (secret: Option<u64>)
        ensures
            secret == self@.shared_secret(),
            secret is Some <==> self@.phase is Established,
    {
        match self.phase {
            Phase::Established { peer_public_value } => Some(
                derive_shared_secret(peer_public_value, self.private_exponent),
            ),
            _ => None,
        }
    }

    /// Why the handshake was given up: `Some` exactly when it has failed.
    pub fn error(&self) -> (error: Option<HandshakeError>)
        ensures
            error == self@.error(),
            error is Some <==> self@.phase is Failed,
    {
        match self.phase {
            Phase::Failed { error } => Some(error),
            _ => None,
        }
    }

    fn abort(&mut self, error: HandshakeError) -> (action: HandshakeAction)
        ensures
            (final(self)@, action@) == old(self)@.abort(error),
    {
        self.phase = Phase::Failed { error };
        HandshakeAction::Abort(error)
    }

    fn refuse(&mut self, event: &HandshakeEvent) -> (action: HandshakeAction)
        ensures
            (final(self)@, action@) == old(self)@.refuse(event@),
    {
        match event {
            HandshakeEvent::TransportError => self.abort(HandshakeError::Transport),
            _ => self.abort(HandshakeError::OutOfTurn),
        }
    }

    fn send_own(&self) -> (action: HandshakeAction)
        ensures
            action@ == self@.send_own(),
    {
        HandshakeAction::Send(encode_public_value(self.public_value()))
    }

    fn establish(&mut self, peer: u64) -> (action: HandshakeAction)
        ensures
            (final(self)@, action@) == old(self)@.establish(peer),
    {
        self.phase = Phase::Established { peer_public_value: peer };
        HandshakeAction::Established(derive_shared_secret(peer, self.private_exponent))
    }

    /// Takes one event and answers with the next action.
    ///
    /// The new state and the action are those of [`ExchangeState::step`].
    pub fn step(&mut self, event: HandshakeEvent) -> (action: HandshakeAction)
        ensures
            final(self)@ == old(self)@.step(event@).0,
            action@ == old(self)@.step(event@).1,
            old(self)@.wf() ==> final(self)@.wf(),
    {
        match self.phase {
            Phase::Established { peer_public_value } => HandshakeAction::Established(
                derive_shared_secret(peer_public_value, self.private_exponent),
            ),
            Phase::Failed { error } => HandshakeAction::Abort(error),
            Phase::Idle => match event {
                HandshakeEvent::Start => match self.role {
                    Role::Server => {
                        self.phase = Phase::Sending;
                        self.send_own()
                    },
                    Role::Client => {
                        self.phase = Phase::Receiving;
                        HandshakeAction::Receive
                    },
                },
                _ => self.refuse(&event),
            },
            Phase::Sending => match event {
                HandshakeEvent::Sent => {
                    self.phase = Phase::Receiving;
                    HandshakeAction::Receive
                },
                _ => self.refuse(&event),
            },
            Phase::Receiving => match event {
                HandshakeEvent::Received(bytes) => {
                    let received = bytes.len();
                    match decode_public_value(bytes.as_slice()) {
                        Some(peer) => match self.role {
                            Role::Server => self.establish(peer),
                            Role::Client => {
                                self.phase = Phase::Answering { peer_public_value: peer };
                                self.send_own()
                            },
                        },
                        None => if received < 8 {
                            self.abort(HandshakeError::Incomplete { received })
                        } else {
                            self.abort(HandshakeError::Overlong { received })
                        },
                    }
                },
                _ => self.refuse(&event),
            },
            Phase::Answering { peer_public_value } => match event {
                HandshakeEvent::Sent => self.establish(peer_public_value),
                _ => self.refuse(&event),
            },
        }
    }
}

/// Both peers derive the same secret: what the holder of `a` computes from
/// the public value of `b` is what the holder of `b` computes from the
/// public value of `a`.
pub proof fn lemma_secrets_agree(a: u64, b: u64)
    ensures
        spec_shared_secret(spec_public_value(b), a) == spec_shared_secret(spec_public_value(a), b),
{
    lemma_power_mod_commutes(G as int, a as nat, b as nat, P as int);
    lemma_power_mod_bound(G as int, a as nat, P as int);
    lemma_power_mod_bound(G as int, b as nat, P as int);
}

/// A public value survives the wire: the eight bytes sent for it decode to it.
pub proof fn lemma_public_value_crosses(private_exponent: u64)
    ensures
        spec_be_bytes(spec_public_value(private_exponent)).len() == 8,
        spec_be_value(spec_be_bytes(spec_public_value(private_exponent))) == spec_public_value(
            private_exponent,
        ),
{
    lemma_value_of_bytes(spec_public_value(private_exponent));
}

/// A step never changes the role or the private exponent, and it keeps
/// the phase fitting the role.
pub proof fn lemma_step_keeps_identity(state: ExchangeState, event: HandshakeEventView)
    ensures
        state.step(event).0.role == state.role,
        state.step(event).0.private_exponent == state.private_exponent,
        state.wf() ==> state.step(event).0.wf(),
{
}

/// A finished handshake is final: once established or failed, no event
/// changes the state, and there is no way back from failure.
pub proof fn lemma_finished_is_final(state: ExchangeState, event: HandshakeEventView)
    requires
        state.phase is Established || state.phase is Failed,
    ensures
        state.step(event).0 == state,
{
}

/// A secret is reported exactly when the step ends established, and it is
/// the secret of the state reached. A failed handshake holds none.
pub proof fn lemma_secret_only_when_established(state: ExchangeState, event: HandshakeEventView)
    ensures
        state.step(event).1 is Established <==> state.step(event).0.phase is Established,
        state.step(event).1 matches HandshakeActionView::Established(secret) ==> state.step(
            event,
        ).0.shared_secret() == Some(secret),
        state.step(event).1 is Abort <==> state.step(event).0.phase is Failed,
        state.step(event).1 matches HandshakeActionView::Abort(error) ==> state.step(
            event,
        ).0.error() == Some(error),
        state.step(event).0.phase is Failed ==> state.step(event).0.shared_secret() is None,
{
}

/// A short read is fatal: when fewer than eight bytes of the peer's value
/// arrive, an unfinished handshake fails, and no secret is derived from the
/// part that came.
pub proof fn lemma_short_read_aborts(state: ExchangeState, bytes: Seq<u8>)
    requires
        !(state.phase is Established),
        bytes.len() < 8,
    ensures
        state.step(HandshakeEventView::Received(bytes)).0.phase is Failed,
        state.step(HandshakeEventView::Received(bytes)).0.peer_public_value() is None,
        state.step(HandshakeEventView::Received(bytes)).0.shared_secret() is None,
        state.step(HandshakeEventView::Received(bytes)).1 is Abort,
        state.phase is Receiving ==> state.step(HandshakeEventView::Received(bytes)).1
            == HandshakeActionView::Abort(
            HandshakeError::Incomplete { received: bytes.len() as usize },
        ),
{
}

/// The order of the handshake is fixed by role. A server is told to write
/// only as its first move and to read only once its write is done; a client
/// is told to read only as its first move and to write only once all eight
/// bytes of the server's value are in. So the two never wait on each other.
pub proof fn lemma_turn_order(state: ExchangeState, event: HandshakeEventView)
    requires
        state.wf(),
    ensures
        state.step(event).1 is Send && state.role == Role::Server ==> state.phase is Idle
            && event is Start,
        state.step(event).1 is Receive && state.role == Role::Server ==> state.phase is Sending
            && event is Sent,
        state.step(event).1 is Receive && state.role == Role::Client ==> state.phase is Idle
            && event is Start,
        state.step(event).1 is Send && state.role == Role::Client ==> state.phase is Receiving
            && (event matches HandshakeEventView::Received(bytes) && bytes.len() == 8),
{
}

/// A handshake between a server and a client over a transport that delivers
/// what is written runs to the end, and both sides hold the same secret.
///
/// The server writes its value and reads; the client reads that value,
/// writes its own, and is established when the write is done; the server is
/// established when the client's value arrives.
pub proof fn lemma_handshake_agrees(server_exponent: u64, client_exponent: u64)
    ensures
        ({
            let server = ExchangeState::initial(Role::Server, server_exponent);
            let client = ExchangeState::initial(Role::Client, client_exponent);
            let server_value = spec_be_bytes(spec_public_value(server_exponent));
            let client_value = spec_be_bytes(spec_public_value(client_exponent));
            let secret = spec_shared_secret(spec_public_value(client_exponent), server_exponent);
            let (server, server_first) = server.step(HandshakeEventView::Start);
            let (client, client_first) = client.step(HandshakeEventView::Start);
            let (server, server_second) = server.step(HandshakeEventView::Sent);
            let (client, client_second) = client.step(HandshakeEventView::Received(server_value));
            let (client, client_third) = client.step(HandshakeEventView::Sent);
            let (server, server_third) = server.step(HandshakeEventView::Received(client_value));
            &&& server_first == HandshakeActionView::Send(server_value)
            &&& client_first == HandshakeActionView::Receive
            &&& server_second == HandshakeActionView::Receive
            &&& client_second == HandshakeActionView::Send(client_value)
            &&& client_third == HandshakeActionView::Established(secret)
            &&& server_third == HandshakeActionView::Established(secret)
            &&& server.shared_secret() == Some(secret)
            &&& client.shared_secret() == Some(secret)
        }),
{
    lemma_secrets_agree(server_exponent, client_exponent);
    lemma_public_value_crosses(server_exponent);
    lemma_public_value_crosses(client_exponent);
}

} // verus!
