//! Rooms: one live session of two players each.

use vstd::prelude::*;
use crate::network::endpoint::Endpoint;
use crate::network::ident::{fresh_id, is_random_id};
use crate::network::player::Player;

verus! {

/// A session of exactly two players.
///
/// A room names its players by their endpoints; the players themselves stay
/// in the registry, so that a change made there is the change seen from the
/// room.
#[derive(Clone, Copy, Debug, PartialEq, Eq, Structural)]
pub struct Room {
    pub id: u128,
    /// The player that waited longer.
    pub first: Endpoint,
    /// The player that completed the pair.
    pub second: Endpoint,
}

impl Room {
    /// Well-formedness: the two players are distinct.
    pub open spec fn wf(self) -> bool {
        self.first != self.second
    }

    /// Whether `addr` is one of the two players.
    pub open spec fn has(self, addr: Endpoint) -> bool {
        addr == self.first || addr == self.second
    }

    /// The two players, as a set.
    pub open spec fn members(self) -> Set<Endpoint> {
        set![self.first, self.second]
    }

    /// The room of two players under the identifier `id`.
    pub open spec fn of(id: u128, first: Endpoint, second: Endpoint) -> Room {
        Room { id, first, second }
    }

    /// A well-formed room has exactly two members.
    pub proof fn lemma_two_members(self)
        requires
            self.wf(),
        ensures
            self.members().finite(),
            self.members().len() == 2,
            forall|addr: Endpoint| self.members().contains(addr) <==> self.has(addr),
    {
        assert(self.members() =~= Set::<Endpoint>::empty().insert(self.first).insert(self.second));
    }

    /// A room for two distinct players, under a freshly drawn identifier.
    /// Returns the identifier beside the room.
    pub fn new(player1: &Player, player2: &Player) -> (created: (u128, Room))
        requires
            player1.addr != player2.addr,
        ensures
            created.1 == Room::of(created.0, player1.addr, player2.addr),
            created.1.wf(),
            is_random_id(created.0),
    {
        let id: u128 = fresh_id();
        (id, Room::with_id(id, player1, player2))
    }

    /// A room for two distinct players, under the identifier `id`.
    pub fn with_id(id: u128, player1: &Player, player2: &Player) -> (room: Room)
        requires
            player1.addr != player2.addr,
        ensures
            room == Room::of(id, player1.addr, player2.addr),
            room.wf(),
    {
        Room { id, first: player1.addr, second: player2.addr }
    }

    /// Whether `addr` is one of the two players.
    pub fn contains(&self, addr: &Endpoint) -> (found: bool)
        ensures
            found == self.has(*addr),
    {
        *addr == self.first || *addr == self.second
    }

    /// Lifecycle hook from which the simulation of a session will be driven.
    /// The session engine attaches no behaviour to it: the room is left as it is.
    pub fn start(&self) {
    }
}

} // verus!
