//! Players: one connected client each.

use vstd::prelude::*;
use crate::network::endpoint::Endpoint;
use crate::network::ident::{fresh_id, is_random_id};

verus! {

/// Whether a player is free to be matched or already sits in a room.
///
/// The only transition is from `Available` to `InMatch`.
#[derive(Clone, Copy, Debug, PartialEq, Eq, Hash, Structural)]
pub enum PlayerStatus {
    Available,
    InMatch,
}

impl Default for PlayerStatus {
    fn default() -> (status: PlayerStatus)
        ensures
            status == PlayerStatus::Available,
    {
        PlayerStatus::Available
    }
}

/// A point of the court, in whole units along each axis.
#[derive(Clone, Copy, Debug, PartialEq, Eq, Structural)]
pub struct Position {
    pub x: i32,
    pub y: i32,
}

/// One connected client.
#[derive(Clone, Copy, Debug, PartialEq, Eq, Structural)]
pub struct Player {
    /// Stable identifier, drawn once when the player is created.
    pub id: u128,
    /// The endpoint the player talks from; the key of the player in the registry.
    pub addr: Endpoint,
    /// Where the player stands on the court.
    pub position: Position,
    pub status: PlayerStatus,
}

impl Player {
    /// The player that a first message from `addr` creates, given its identifier:
    /// available, at the origin.
    pub open spec fn fresh(id: u128, addr: Endpoint) -> Player {
        Player { id, addr, position: Position { x: 0, y: 0 }, status: PlayerStatus::Available }
    }

    /// This player once placed in a room. Nothing but the status changes.
    pub open spec fn matched(self) -> Player {
        Player { status: PlayerStatus::InMatch, ..self }
    }

    /// A new player at `addr` with a freshly drawn identifier.
    pub fn new(addr: Endpoint) -> (player: Player)
        ensures
            player == Player::fresh(player.id, addr),
            is_random_id(player.id),
    {
        let id: u128 = fresh_id();
        Player::with_id(id, addr)
    }

    /// A new player at `addr` with the identifier `id`.
    pub fn with_id(id: u128, addr: Endpoint) -> (player: Player)
        ensures
            player == Player::fresh(id, addr),
    {
        Player { id, addr, position: Position { x: 0, y: 0 }, status: PlayerStatus::default() }
    }

    /// The same player with status `InMatch`.
    pub fn in_match(&self) -> (player: Player)
        ensures
            player == self.matched(),
    {
        Player {
            id: self.id,
            addr: self.addr,
            position: self.position,
            status: PlayerStatus::InMatch,
        }
    }

    /// Whether the player sits in a room.
    pub fn is_in_match(&self) -> (b: bool)
        ensures
            b == (self.status == PlayerStatus::InMatch),
    {
        self.status == PlayerStatus::InMatch
    }
}

} // verus!
