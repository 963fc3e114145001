//! The match maker: turns the queue of waiting endpoints into rooms, two at
//! a time, oldest first.

use std::collections::HashMap;
use std::collections::VecDeque;
use vstd::prelude::*;
use vstd::std_specs::hash::group_hash_axioms;
use crate::network::endpoint::Endpoint;
use crate::network::endpoint_map::EndpointMap;
use crate::network::ident::is_random_id;
use crate::network::match_state::{pairs_of, ready_pairs, room_ids, MatchState};
use crate::network::player::Player;
use crate::network::registry::Registry;
use crate::network::room::Room;

verus! {

broadcast use group_hash_axioms;

/// The registry, the waiting queue, the room table and the index from
/// endpoint to room, owned together so that one call changes them as one
/// step.
pub struct MatchMaker {
    players: Registry,
    queue: VecDeque<Endpoint>,
    rooms: HashMap<u128, Room>,
    player_room_map: EndpointMap<u128>,
}

impl View for MatchMaker {
    type V = MatchState;

    closed spec fn view(&self) -> MatchState {
        MatchState {
            players: self.players@,
            queue: self.queue@,
            rooms: self.rooms@,
            index: self.player_room_map@,
        }
    }
}

impl MatchMaker {
    /// Well-formedness: the tables are well-formed each, and together they
    /// meet the invariant of the shared state.
    pub closed spec fn wf(&self) -> bool {
        &&& self.players.wf()
        &&& self.player_room_map.wf()
        &&& self@.consistent()
    }

    /// A well-formed match maker is in a consistent state.
    pub proof fn lemma_consistent(&self)
        requires
            self.wf(),
        ensures
            self@.consistent(),
    {
    }

    /// A match maker over the given tables, with nobody waiting. The tables
    /// have to fit together: each room of two distinct registered players
    /// that are in a match and indexed, each index entry for a registered
    /// endpoint and a live room.
    pub fn new(
        players: Registry,
        rooms: HashMap<u128, Room>,
        player_room_map: EndpointMap<u128>,
    ) -> (maker: MatchMaker)
        requires
            players.wf(),
            player_room_map.wf(),
            (MatchState {
                players: players@,
                queue: Seq::empty(),
                rooms: rooms@,
                index: player_room_map@,
            }).consistent(),
        ensures
            maker.wf(),
            maker@ == (MatchState {
                players: players@,
                queue: Seq::empty(),
                rooms: rooms@,
                index: player_room_map@,
            }),
    {
        MatchMaker { players, queue: VecDeque::new(), rooms, player_room_map }
    }

    /// The registry.
    pub fn players(&self) -> (players: &Registry)
        requires
            self.wf(),
        ensures
            players.wf(),
            players@ == self@.players,
    {
        &self.players
    }

    /// The player at `addr`, if it is registered.
    pub fn player(&self, addr: &Endpoint) -> (player: Option<&Player>)
        requires
            self.wf(),
        ensures
            match player {
                Some(p) => self@.players.contains_key(*addr) && *p == self@.players[*addr],
                None => !self@.players.contains_key(*addr),
            },
    {
        self.players.get(addr)
    }

    /// The number of endpoints that wait for a room.
    pub fn waiting(&self) -> (n: usize)
        ensures
            n == self@.queue.len(),
    {
        self.queue.len()
    }

    /// The endpoint at position `i` of the waiting queue, the oldest at 0.
    pub fn waiting_at(&self, i: usize) -> (addr: Option<Endpoint>)
        ensures
            addr == if i < self@.queue.len() {
                Some(self@.queue[i as int])
            } else {
                None::<Endpoint>
            },
    {
        if i < self.queue.len() {
            Some(self.queue[i])
        } else {
            None
        }
    }

    /// The number of live rooms.
    pub fn room_count(&self) -> (n: usize)
        requires
            self.wf(),
        ensures
            n == self@.rooms.len(),
    {
        self.rooms.len()
    }

    /// The room under the identifier `id`, if it is live.
    pub fn room(&self, id: u128) -> (room: Option<&Room>)
        requires
            self.wf(),
        ensures
            match room {
                Some(r) => self@.rooms.contains_key(id) && *r == self@.rooms[id] && r.id == id
                    && r.wf(),
                None => !self@.rooms.contains_key(id),
            },
    {
        self.rooms.get(&id)
    }

    /// The two players of the room under the identifier `id`, as the registry
    /// holds them now, if the room is live.
    pub fn players_of(&self, id: u128) -> (pair: Option<(Player, Player)>)
        requires
            self.wf(),
        ensures
            match pair {
                Some((first, second)) => {
                    &&& self@.rooms.contains_key(id)
                    &&& first == self@.players[self@.rooms[id].first]
                    &&& second == self@.players[self@.rooms[id].second]
                    &&& first.addr == self@.rooms[id].first
                    &&& second.addr == self@.rooms[id].second
                },
                None => !self@.rooms.contains_key(id),
            },
    {
        match self.rooms.get(&id) {
            Some(room) => {
                match (self.players.get(&room.first), self.players.get(&room.second)) {
                    (Some(first), Some(second)) => Some((*first, *second)),
                    _ => {
                        proof {
                            assert(self@.rooms.contains_key(id));
                        }
                        None
                    },
                }
            },
            None => None,
        }
    }

    /// The identifier of the room that `addr` was last placed in, if any.
    pub fn room_of(&self, addr: &Endpoint) -> (id: Option<u128>)
        requires
            self.wf(),
        ensures
            match id {
                Some(id) => self@.index.contains_key(*addr) && id == self@.index[*addr]
                    && self@.rooms.contains_key(id),
                None => !self@.index.contains_key(*addr),
            },
    {
        match self.player_room_map.get(addr) {
            Some(id) => Some(*id),
            None => None,
        }
    }

    /// Registers `addr` unless it is known already. Returns the identifier of
    /// the player created, or `None` where the endpoint was known and nothing
    /// changed.
    pub fn register(&mut self, addr: Endpoint) -> (created: Option<u128>)
        requires
            old(self).wf(),
        ensures
            final(self).wf(),
            created is Some <==> !old(self)@.players.contains_key(addr),
            match created {
                Some(id) => is_random_id(id) && final(self)@ == old(self)@.entered(addr, id),
                None => final(self)@ == old(self)@,
            },
    {
        let created = self.players.register(addr);
        proof {
            if let Some(id) = created {
                old(self)@.lemma_entered_consistent(addr, id);
            }
        }
        created
    }

    /// Makes `room` live: marks its two players as in a match, files the room
    /// under its identifier and points the index of both players at it. A
    /// room that stood under the same identifier is replaced.
    pub fn install(&mut self, room: Room)
        requires
            old(self).wf(),
            room.wf(),
            old(self)@.players.contains_key(room.first),
            old(self)@.players.contains_key(room.second),
        ensures
            final(self).wf(),
            final(self)@ == old(self)@.installed(room),
    {
        self.players.mark_in_match(&room.first);
        self.players.mark_in_match(&room.second);
        self.rooms.insert(room.id, room);
        self.player_room_map.insert(room.first, room.id);
        self.player_room_map.insert(room.second, room.id);
        proof {
            old(self)@.lemma_installed_consistent(room);
        }
    }

    /// Appends `addr` to the waiting queue and forms rooms at once, as long
    /// as two endpoints wait. Returns the rooms formed, oldest pair first.
    ///
    /// The rooms formed are those of the consecutive waiting pairs that can
    /// be matched; the identifiers are drawn at random, and the state is the
    /// one that these identifiers lead to. At most one endpoint waits
    /// afterwards.
    pub fn add_to_queue(&mut self, addr: &Endpoint) -> (formed: Vec<Room>)
        requires
            old(self).wf(),
        ensures
            final(self).wf(),
            pairs_of(formed@) == ready_pairs(
                old(self)@.players.dom(),
                old(self)@.queue.push(*addr),
            ),
            forall|i: int| 0 <= i < formed@.len() ==> is_random_id(#[trigger] formed@[i].id),
            final(self)@ == old(self)@.joined(*addr, room_ids(formed@)),
            final(self)@.queue.len() <= 1,
    {
        self.queue.push_back(*addr);
        self.try_create_room()
    }

    /// Forms rooms as long as two endpoints wait: the two oldest leave the
    /// queue; where both are registered and they differ, they get a room under
    /// a freshly drawn identifier, else both are dropped. Returns the rooms
    /// formed, oldest pair first.
    pub fn try_create_room(&mut self) -> (formed: Vec<Room>)
        requires
            old(self).wf(),
        ensures
            final(self).wf(),
            pairs_of(formed@) == ready_pairs(old(self)@.players.dom(), old(self)@.queue),
            forall|i: int| 0 <= i < formed@.len() ==> is_random_id(#[trigger] formed@[i].id),
            final(self)@ == old(self)@.drained(room_ids(formed@)),
            final(self)@.queue.len() <= 1,
    {
        let mut formed: Vec<Room> = Vec::new();
        let ghost known = self@.players.dom();
        proof {
            assert(pairs_of(formed@) + ready_pairs(known, self@.queue) =~= ready_pairs(
                known,
                old(self)@.queue,
            ));
            assert forall|rest: Seq<u128>| #[trigger]
                old(self)@.drained(room_ids(formed@) + rest) == self@.drained(rest) by {
                assert(room_ids(formed@) + rest =~= rest);
            }
        }
        while self.queue.len() >= 2
            invariant
                self.wf(),
                known == old(self)@.players.dom(),
                self@.players.dom() == known,
                pairs_of(formed@) + ready_pairs(known, self@.queue) == ready_pairs(
                    known,
                    old(self)@.queue,
                ),
                forall|i: int| 0 <= i < formed@.len() ==> is_random_id(#[trigger] formed@[i].id),
                forall|rest: Seq<u128>| #[trigger]
                    old(self)@.drained(room_ids(formed@) + rest) == self@.drained(rest),
            decreases self@.queue.len(),
        {
            let ghost before = self@;
            let ghost formed_before = formed@;
            let made = self.form_room();
            proof {
                let a = before.queue[0];
                let b = before.queue[1];
                match made {
                    Some(room) => {
                        assert(pairs_of(formed_before.push(room)) =~= pairs_of(formed_before)
                            + seq![(a, b)]);
                        assert((pairs_of(formed_before) + seq![(a, b)]) + ready_pairs(
                            known,
                            before.queue.skip(2),
                        ) =~= pairs_of(formed_before) + (seq![(a, b)] + ready_pairs(
                            known,
                            before.queue.skip(2),
                        )));
                        assert forall|rest: Seq<u128>| #[trigger]
                            old(self)@.drained(room_ids(formed_before.push(room)) + rest)
                                == self@.drained(rest) by {
                            let longer = seq![room.id] + rest;
                            assert(room_ids(formed_before.push(room)) + rest =~= room_ids(
                                formed_before,
                            ) + longer);
                            assert(longer.skip(1) =~= rest);
                            assert(longer[0] == room.id);
                            assert(old(self)@.drained(room_ids(formed_before) + longer)
                                == before.drained(longer));
                        }
                    },
                    None => {
                        assert forall|rest: Seq<u128>| #[trigger]
                            old(self)@.drained(room_ids(formed_before) + rest) == self@.drained(
                                rest,
                            ) by {
                            assert(old(self)@.drained(room_ids(formed_before) + rest)
                                == before.drained(rest));
                        }
                    },
                }
            }
            if let Some(room) = made {
                formed.push(room);
            }
        }
        proof {
            let none = Seq::<u128>::empty();
            assert(room_ids(formed@) + none =~= room_ids(formed@));
            assert(old(self)@.drained(room_ids(formed@) + none) == self@.drained(none));
            assert(pairs_of(formed@) + ready_pairs(known, self@.queue) =~= pairs_of(formed@));
        }
        formed
    }

    /// One formation attempt. With fewer than two endpoints waiting nothing
    /// happens. Else the two oldest leave the queue; where both are
    /// registered and they differ, they get a room under a freshly drawn
    /// identifier, which is returned; else both are dropped.
    pub fn form_room(&mut self) -> (made: Option<Room>)
        requires
            old(self).wf(),
        ensures
            final(self).wf(),
            made is Some <==> old(self)@.queue.len() >= 2 && old(self)@.can_pair(
                old(self)@.queue[0],
                old(self)@.queue[1],
            ),
            match made {
                Some(room) => {
                    &&& is_random_id(room.id)
                    &&& room == Room::of(room.id, old(self)@.queue[0], old(self)@.queue[1])
                    &&& final(self)@ == old(self)@.popped().installed(room)
                },
                None => final(self)@ == if old(self)@.queue.len() >= 2 {
                    old(self)@.popped()
                } else {
                    old(self)@
                },
            },
            final(self)@.players.dom() == old(self)@.players.dom(),
    {
        if self.queue.len() < 2 {
            return None;
        }
        let first = self.queue.pop_front();
        let second = self.queue.pop_front();
        proof {
            assert(old(self)@.queue.subrange(1, old(self)@.queue.len() as int).subrange(
                1,
                old(self)@.queue.len() - 1,
            ) =~= old(self)@.queue.skip(2));
        }
        match (first, second) {
            (Some(addr1), Some(addr2)) => {
                if addr1 == addr2 {
                    return None;
                }
                let created = match (self.players.get(&addr1), self.players.get(&addr2)) {
                    (Some(player1), Some(player2)) => Some(Room::new(player1, player2)),
                    _ => None,
                };
                match created {
                    Some((_, room)) => {
                        self.install(room);
                        Some(room)
                    },
                    None => None,
                }
            },
            _ => None,
        }
    }
}

} // verus!
