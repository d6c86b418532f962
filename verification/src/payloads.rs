//! The value shapes that game operations take and return. The transport
//! layer moves these to and from the wire; the core only fills them.

use crate::models::{Game, Player};
use vstd::prelude::*;

verus! {

/// Request to open a new game, naming its first player (the host).
#[derive(Debug)]
pub struct CreateGamePayload {
    pub player_name: String,
}

/// Request to join an existing lobby.
#[derive(Debug)]
pub struct JoinGamePayload {
    pub player_name: String,
}

/// Request to start a game, credentialed by the caller's auth token.
#[derive(Debug)]
pub struct StartGamePayload {
    pub auth_token: String,
}

/// Request to leave a game, credentialed by the caller's auth token.
#[derive(Debug)]
pub struct LeaveGamePayload {
    pub auth_token: String,
}

/// Request to eliminate a target, proven by the target's secret code.
#[derive(Debug)]
pub struct KillPayload {
    pub secret_code: String,
}

/// Everything the creator of a game learns: the fresh game, their own
/// identity and credentials, and the initial player list.
#[derive(Debug)]
pub struct GameCreatedPayload {
    pub game_code: String,
    pub player_id: u64,
    pub player_secret: String,
    pub auth_token: String,
    pub players: Vec<Player>,
    pub game: Game,
}

/// Everything a joining (or reconnecting) player learns: their identity and
/// credentials, and the current player list.
#[derive(Debug)]
pub struct GameJoinedPayload {
    pub game_code: String,
    pub player_id: u64,
    pub player_secret: String,
    pub auth_token: String,
    pub players: Vec<Player>,
    pub game: Game,
}

/// Outcome of a successful elimination. `game_over` holds exactly when no
/// new target is reported: the killer was the last player standing.
#[derive(Debug)]
pub struct KillResponsePayload {
    pub eliminated_player_name: String,
    pub killer_name: String,
    pub new_target_name: Option<String>,
    pub game_over: bool,
}

/// The change-poll request: the latest version the client has seen.
#[derive(Debug)]
pub struct VersionQuery {
    pub version: Option<u64>,
}

/// The change-poll answer: whether anything changed since the client's
/// version, and the version to poll with next.
#[derive(Debug)]
pub struct ChangedResponse {
    pub changed: bool,
    pub current_version: u64,
}

/// One player as shown to a requesting player: the secret code is present
/// only on the requester's own entry.
#[derive(Debug)]
pub struct PlayerGameState {
    pub id: u64,
    pub name: String,
    pub is_alive: bool,
    pub target_name: Option<String>,
    pub secret_code: Option<String>,
}

/// A game and its players, as shown to one requesting player.
#[derive(Debug)]
pub struct GameStateResponse {
    pub game: Game,
    pub players: Vec<PlayerGameState>,
    pub version: u64,
}

} // verus!
