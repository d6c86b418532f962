//! Core of a multiplayer elimination party game: a host opens a game, players
//! gather in a lobby, the host starts the game which arranges everyone into a
//! single target ring, and players eliminate their assigned target by
//! presenting that target's secret code, until one survivor remains.
//!
//! The whole game state lives in [`store::Store`]; every rule of the game is
//! stated in the contracts of its methods and checked by Verus.

pub mod codes;
pub mod errors;
pub mod kill;
pub mod laws;
pub mod leave;
pub mod lobby;
pub mod models;
pub mod payloads;
pub mod ring;
pub mod start;
pub mod store;
