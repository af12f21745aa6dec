//! The states of a client connection: a handshake, then either a status
//! request or a login, and after the login the game.

use vstd::prelude::*;
use crate::version::ProtocolVersion;

verus! {

/// Where a connection stands.
#[derive(Clone, Copy, Debug, PartialEq, Eq, Structural)]
pub enum ConnState {
    Handshake,
    Status,
    Login,
    Play,
    /// The connection is over.
    Closed,
}

/// What happens on a connection.
#[derive(Clone, Copy, Debug, PartialEq, Eq, Structural)]
pub enum Event {
    /// The client's handshake arrived: the number of its version, and 1 for
    /// a status request or 2 for a login.
    Handshake { protocol_version: i32, next_state: i32 },
    /// The client named the player that logs in.
    LoginStart,
    /// The packet that sets the compression threshold was sent.
    CompressionSet { threshold: i32 },
    /// The client's answer to the encryption request was found good.
    EncryptionAccepted,
    /// The packet that ends the login was sent.
    LoginSuccess,
    /// A packet of the game arrived or was sent.
    Game,
    /// The peer closed the connection, or sent what cannot be read.
    Failure,
}

/// What an event does to the frames that follow it.
#[derive(Clone, Copy, Debug, PartialEq, Eq, Structural)]
pub enum Effect {
    Nothing,
    /// The frames that follow are compressed above the threshold.
    Compress(i32),
    /// The bytes that follow are encrypted.
    Encrypt,
}

/// Where a connection stands after an event, and what the event does to the
/// frames that follow. A handshake leads to a status request or, for a
/// version that the server speaks, to a login. Compression and encryption
/// can only be turned on during the login. The login ends with its last
/// packet; from then on only packets of the game pass. Whatever else
/// happens closes the connection.
pub open spec fn spec_step(state: ConnState, e: Event) -> (ConnState, Effect) {
    match (state, e) {
        (ConnState::Handshake, Event::Handshake { protocol_version, next_state }) => if next_state
            == 1 {
            (ConnState::Status, Effect::Nothing)
        } else if next_state == 2 && exists|v: ProtocolVersion| v.spec_id() == protocol_version {
            (ConnState::Login, Effect::Nothing)
        } else {
            (ConnState::Closed, Effect::Nothing)
        },
        (ConnState::Login, Event::LoginStart) => (ConnState::Login, Effect::Nothing),
        (ConnState::Login, Event::CompressionSet { threshold }) => (
            ConnState::Login,
            Effect::Compress(threshold),
        ),
        (ConnState::Login, Event::EncryptionAccepted) => (ConnState::Login, Effect::Encrypt),
        (ConnState::Login, Event::LoginSuccess) => (ConnState::Play, Effect::Nothing),
        (ConnState::Play, Event::Game) => (ConnState::Play, Effect::Nothing),
        _ => (ConnState::Closed, Effect::Nothing),
    }
}

/// Where a connection stands after an event (see [`spec_step`]).
pub fn step(state: ConnState, e: Event) -> (r: (ConnState, Effect))
    ensures
        r == spec_step(state, e),
{
    match (state, e) {
        (ConnState::Handshake, Event::Handshake { protocol_version, next_state }) => {
            if next_state == 1 {
                (ConnState::Status, Effect::Nothing)
            } else if next_state == 2 && ProtocolVersion::from_id(protocol_version).is_some() {
                (ConnState::Login, Effect::Nothing)
            } else {
                (ConnState::Closed, Effect::Nothing)
            }
        },
        (ConnState::Login, Event::LoginStart) => (ConnState::Login, Effect::Nothing),
        (ConnState::Login, Event::CompressionSet { threshold }) => (
            ConnState::Login,
            Effect::Compress(threshold),
        ),
        (ConnState::Login, Event::EncryptionAccepted) => (ConnState::Login, Effect::Encrypt),
        (ConnState::Login, Event::LoginSuccess) => (ConnState::Play, Effect::Nothing),
        (ConnState::Play, Event::Game) => (ConnState::Play, Effect::Nothing),
        _ => (ConnState::Closed, Effect::Nothing),
    }
}

/// Compression and encryption are turned on during the login and at no
/// other time, and a connection that is over stays over.
pub proof fn effects_only_in_login(state: ConnState, e: Event)
    ensures
        spec_step(state, e).1 != Effect::Nothing ==> state == ConnState::Login && spec_step(
            state,
            e,
        ).0 == ConnState::Login,
        spec_step(ConnState::Closed, e).0 == ConnState::Closed,
        spec_step(state, e).0 == ConnState::Play ==> (state == ConnState::Login && e
            == Event::LoginSuccess) || (state == ConnState::Play && e == Event::Game),
{
}

} // verus!
