//! The mathematical model of matchmaking: the four tables as maps and
//! sequences, and what registering, queueing and pairing do to them.

use vstd::prelude::*;
use crate::network::endpoint::Endpoint;
use crate::network::player::{Player, PlayerStatus};
use crate::network::registry::{keyed_by_addr, marked, registered};
use crate::network::room::Room;

verus! {

/// The shared state of the server, as plain mathematics.
pub ghost struct MatchState {
    /// The registry: the player of each endpoint that has entered.
    pub players: Map<Endpoint, Player>,
    /// The endpoints that wait for a room, oldest first.
    pub queue: Seq<Endpoint>,
    /// The live rooms, each under its identifier.
    pub rooms: Map<u128, Room>,
    /// The room that each paired endpoint was last placed in.
    pub index: Map<Endpoint, u128>,
}

/// The consecutive pairs of `queue` that can be matched, oldest first: the
/// pairs at positions `(0, 1)`, `(2, 3)`, and so on, of two distinct endpoints
/// that are both in `known`.
pub open spec fn ready_pairs(known: Set<Endpoint>, queue: Seq<Endpoint>) -> Seq<
    (Endpoint, Endpoint),
>
    decreases queue.len(),
{
    if queue.len() < 2 {
        Seq::empty()
    } else if queue[0] != queue[1] && known.contains(queue[0]) && known.contains(queue[1]) {
        seq![(queue[0], queue[1])] + ready_pairs(known, queue.skip(2))
    } else {
        ready_pairs(known, queue.skip(2))
    }
}

/// The two players of each room of `formed`, in the same order.
pub open spec fn pairs_of(formed: Seq<Room>) -> Seq<(Endpoint, Endpoint)> {
    Seq::new(formed.len(), |i: int| (formed[i].first, formed[i].second))
}

/// The identifier of each room of `formed`, in the same order.
pub open spec fn room_ids(formed: Seq<Room>) -> Seq<u128> {
    Seq::new(formed.len(), |i: int| formed[i].id)
}

impl MatchState {
    /// The state in which nobody has entered yet.
    pub open spec fn empty() -> MatchState {
        MatchState {
            players: Map::empty(),
            queue: Seq::empty(),
            rooms: Map::empty(),
            index: Map::empty(),
        }
    }

    /// The invariant of the shared state.
    ///
    /// Every player is filed under its own endpoint. Every room is filed
    /// under its own identifier and holds two distinct registered players,
    /// both in a match and both indexed. Every entry of the index belongs to a
    /// registered endpoint and names a live room.
    pub open spec fn consistent(self) -> bool {
        &&& self.players.dom().finite()
        &&& self.rooms.dom().finite()
        &&& self.index.dom().finite()
        &&& keyed_by_addr(self.players)
        &&& forall|id: u128| #[trigger]
            self.rooms.contains_key(id) ==> {
                let room = self.rooms[id];
                &&& room.id == id
                &&& room.wf()
                &&& self.players.contains_key(room.first)
                &&& self.players.contains_key(room.second)
                &&& self.players[room.first].status == PlayerStatus::InMatch
                &&& self.players[room.second].status == PlayerStatus::InMatch
                &&& self.index.contains_key(room.first)
                &&& self.index.contains_key(room.second)
            }
        &&& forall|addr: Endpoint| #[trigger]
            self.index.contains_key(addr) ==> self.players.contains_key(addr)
        &&& forall|addr: Endpoint|
            self.index.contains_key(addr) ==> self.rooms.contains_key(#[trigger] self.index[addr])
    }

    /// Whether some live room holds `addr`.
    pub open spec fn in_some_room(self, addr: Endpoint) -> bool {
        exists|id: u128| self.rooms.contains_key(id) && #[trigger] self.rooms[id].has(addr)
    }

    /// Whether `addr` takes part in matchmaking: it waits or it sits in a
    /// room.
    pub open spec fn engaged(self, addr: Endpoint) -> bool {
        self.queue.contains(addr) || self.in_some_room(addr)
    }

    /// Whether nobody is paired twice: no endpoint waits twice, no waiting
    /// endpoint sits in a room, and no two rooms share a player.
    pub open spec fn exclusive(self) -> bool {
        &&& self.queue.no_duplicates()
        &&& forall|i: int, id: u128|
            0 <= i < self.queue.len() && self.rooms.contains_key(id) ==> !(
            #[trigger] self.rooms[id].has(self.queue[i]))
        &&& forall|id1: u128, id2: u128, addr: Endpoint|
            #![trigger self.rooms[id1].has(addr), self.rooms[id2].has(addr)]
            self.rooms.contains_key(id1) && self.rooms.contains_key(id2) && self.rooms[id1].has(
                addr,
            ) && self.rooms[id2].has(addr) ==> id1 == id2
    }

    /// Whether the index and the rooms agree: the index sends each player of
    /// a room to that room, and each indexed endpoint to a room that holds it.
    pub open spec fn index_agrees(self) -> bool {
        &&& forall|id: u128| #[trigger]
            self.rooms.contains_key(id) ==> {
                let room = self.rooms[id];
                &&& self.index.contains_key(room.first)
                &&& self.index[room.first] == id
                &&& self.index.contains_key(room.second)
                &&& self.index[room.second] == id
            }
        &&& forall|addr: Endpoint|
            self.index.contains_key(addr) ==> self.rooms.contains_key(#[trigger] self.index[addr])
                && self.rooms[self.index[addr]].has(addr)
    }

    /// Whether the identifiers of `ids` are new: none names a live room, and
    /// no two are the same.
    pub open spec fn unused(self, ids: Seq<u128>) -> bool {
        &&& ids.no_duplicates()
        &&& forall|i: int| 0 <= i < ids.len() ==> !self.rooms.contains_key(#[trigger] ids[i])
    }

    /// Whether `a` and `b` can share a room: they are two different endpoints
    /// and both are registered.
    pub open spec fn can_pair(self, a: Endpoint, b: Endpoint) -> bool {
        a != b && self.players.contains_key(a) && self.players.contains_key(b)
    }

    /// The state after `addr` entered, where `id` is the identifier drawn for
    /// it: a known endpoint changes nothing.
    pub open spec fn entered(self, addr: Endpoint, id: u128) -> MatchState {
        MatchState { players: registered(self.players, addr, id), ..self }
    }

    /// The state with `addr` appended to the waiting queue.
    pub open spec fn enqueued(self, addr: Endpoint) -> MatchState {
        MatchState { queue: self.queue.push(addr), ..self }
    }

    /// The state with `room` made live: its two players are in a match, the
    /// room stands under its identifier, in place of any room that stood
    /// there, and the index sends both players to it. The queue is not
    /// touched.
    pub open spec fn installed(self, room: Room) -> MatchState {
        MatchState {
            players: marked(marked(self.players, room.first), room.second),
            queue: self.queue,
            rooms: self.rooms.insert(room.id, room),
            index: self.index.insert(room.first, room.id).insert(room.second, room.id),
        }
    }

    /// The state with the two oldest waiting endpoints taken off the queue.
    pub open spec fn popped(self) -> MatchState {
        MatchState { queue: self.queue.skip(2), ..self }
    }

    /// The state once no two endpoints wait any more.
    ///
    /// Pair after pair leaves the front of the queue. A pair that can be
    /// matched gets a room under the next identifier of `ids`; a pair that
    /// cannot, or for which no identifier is left, is dropped. One endpoint
    /// may be left waiting.
    pub open spec fn drained(self, ids: Seq<u128>) -> MatchState
        decreases self.queue.len(),
    {
        if self.queue.len() < 2 {
            self
        } else if self.can_pair(self.queue[0], self.queue[1]) && ids.len() > 0 {
            self.popped().installed(Room::of(ids[0], self.queue[0], self.queue[1])).drained(
                ids.skip(1),
            )
        } else {
            self.popped().drained(ids)
        }
    }

    /// The state after `addr` asked to join, where `ids` are the identifiers
    /// drawn for the rooms that this formed.
    pub open spec fn joined(self, addr: Endpoint, ids: Seq<u128>) -> MatchState {
        self.enqueued(addr).drained(ids)
    }

    /// The state after the endpoints of `addrs` asked to join, one after the
    /// other, where `ids` holds for each join the identifiers drawn during it.
    pub open spec fn joined_all(self, addrs: Seq<Endpoint>, ids: Seq<Seq<u128>>) -> MatchState
        decreases addrs.len(),
    {
        if addrs.len() == 0 {
            self
        } else {
            self.joined_all(addrs.drop_last(), ids.drop_last()).joined(addrs.last(), ids.last())
        }
    }
}

impl MatchState {
    /// Entering keeps the state consistent.
    pub proof fn lemma_entered_consistent(self, addr: Endpoint, id: u128)
        requires
            self.consistent(),
        ensures
            self.entered(addr, id).consistent(),
    {
    }

    /// Making a room of two distinct registered players live keeps the state
    /// consistent, whatever its identifier: a room that stood under the same
    /// identifier is replaced.
    pub proof fn lemma_installed_consistent(self, room: Room)
        requires
            self.consistent(),
            room.wf(),
            self.players.contains_key(room.first),
            self.players.contains_key(room.second),
        ensures
            self.installed(room).consistent(),
            self.installed(room).players.dom() == self.players.dom(),
    {
        let after = self.installed(room);
        assert(after.players.dom() =~= self.players.dom());
        assert forall|id: u128| #[trigger] after.rooms.contains_key(id) implies {
            let r = after.rooms[id];
            &&& r.id == id
            &&& r.wf()
            &&& after.players.contains_key(r.first)
            &&& after.players.contains_key(r.second)
            &&& after.players[r.first].status == PlayerStatus::InMatch
            &&& after.players[r.second].status == PlayerStatus::InMatch
            &&& after.index.contains_key(r.first)
            &&& after.index.contains_key(r.second)
        } by {
            if id != room.id {
                assert(self.rooms.contains_key(id));
            }
        }
        assert forall|addr: Endpoint|
            after.index.contains_key(addr) implies after.rooms.contains_key(
            #[trigger] after.index[addr],
        ) by {
            if addr != room.first && addr != room.second {
                assert(self.rooms.contains_key(self.index[addr]));
            }
        }
    }
}

} // verus!
