//! What holds of the shared state in every run: theorems about the model of
//! matchmaking.

use vstd::prelude::*;
use crate::network::endpoint::Endpoint;
use crate::network::match_state::{ready_pairs, MatchState};
use crate::network::player::PlayerStatus;
use crate::network::room::Room;

verus! {

/// Entering twice from one endpoint is entering once: the second message
/// changes nothing, whatever identifier was drawn for it, so there is one
/// player at the endpoint and it keeps its identifier and its status. No
/// other endpoint is touched.
pub proof fn lemma_enter_idempotent(state: MatchState, addr: Endpoint, id1: u128, id2: u128)
    ensures
        state.entered(addr, id1).entered(addr, id2) == state.entered(addr, id1),
        state.entered(addr, id1).players.contains_key(addr),
        state.players.contains_key(addr) ==> state.entered(addr, id1) == state,
        !state.players.contains_key(addr) ==> state.entered(addr, id1).players[addr].id == id1
            && state.entered(addr, id1).players[addr].status == PlayerStatus::Available,
        forall|other: Endpoint|
            other != addr ==> (state.entered(addr, id1).players.contains_key(other)
                <==> state.players.contains_key(other)),
        forall|other: Endpoint|
            other != addr && state.players.contains_key(other) ==> state.entered(
                addr,
                id1,
            ).players[other] == state.players[other],
{
}

/// Every pair that is ready to be matched stands at an even position of the
/// queue, next to its partner; its two endpoints differ and both are known.
/// The pairs keep the order of the queue.
pub proof fn lemma_ready_pairs_sound(known: Set<Endpoint>, queue: Seq<Endpoint>)
    ensures
        ready_pairs(known, queue).len() <= queue.len() / 2,
        forall|i: int|
            0 <= i < ready_pairs(known, queue).len() ==> {
                let pair = #[trigger] ready_pairs(known, queue)[i];
                &&& pair.0 != pair.1
                &&& known.contains(pair.0)
                &&& known.contains(pair.1)
                &&& exists|k: int|
                    i <= k && 0 <= 2 * k && 2 * k + 1 < queue.len() && pair == (
                        #[trigger] queue[2 * k],
                        queue[2 * k + 1],
                    )
            },
    decreases queue.len(),
{
    if queue.len() >= 2 {
        let rest = queue.skip(2);
        lemma_ready_pairs_sound(known, rest);
        let here = queue[0] != queue[1] && known.contains(queue[0]) && known.contains(queue[1]);
        assert forall|i: int| 0 <= i < ready_pairs(known, queue).len() implies {
            let pair = #[trigger] ready_pairs(known, queue)[i];
            &&& pair.0 != pair.1
            &&& known.contains(pair.0)
            &&& known.contains(pair.1)
            &&& exists|k: int|
                i <= k && 0 <= 2 * k && 2 * k + 1 < queue.len() && pair == (
                    #[trigger] queue[2 * k],
                    queue[2 * k + 1],
                )
        } by {
            let pair = ready_pairs(known, queue)[i];
            if here && i == 0 {
                let k: int = 0;
                assert(pair == (queue[2 * k], queue[2 * k + 1]));
            } else {
                let j = if here {
                    i - 1
                } else {
                    i
                };
                assert(pair == ready_pairs(known, rest)[j]);
                let k = choose|k: int|
                    j <= k && 0 <= 2 * k && 2 * k + 1 < rest.len() && pair == (
                        #[trigger] rest[2 * k],
                        rest[2 * k + 1],
                    );
                assert(rest[2 * k] == queue[2 * (k + 1)]);
                assert(rest[2 * k + 1] == queue[2 * (k + 1) + 1]);
            }
        }
    }
}

/// Four distinct registered endpoints that wait in the order `a`, `b`, `c`,
/// `d` are matched as `a` with `b`, then `c` with `d`.
pub proof fn lemma_ready_pairs_fifo(
    known: Set<Endpoint>,
    a: Endpoint,
    b: Endpoint,
    c: Endpoint,
    d: Endpoint,
)
    requires
        known.contains(a),
        known.contains(b),
        known.contains(c),
        known.contains(d),
        a != b,
        c != d,
    ensures
        ready_pairs(known, seq![a, b, c, d]) == seq![(a, b), (c, d)],
{
    let queue = seq![a, b, c, d];
    assert(queue.skip(2) =~= seq![c, d]);
    assert(seq![c, d].skip(2) =~= Seq::<Endpoint>::empty());
    reveal_with_fuel(ready_pairs, 3);
    assert(ready_pairs(known, queue) =~= seq![(a, b), (c, d)]);
}

impl MatchState {
    /// Draining keeps the state consistent and the registry's endpoints, and
    /// leaves at most one endpoint waiting: the last of an odd queue. A
    /// player's status is the one it had or `InMatch`; nothing else of a player
    /// changes.
    pub proof fn lemma_drained(self, ids: Seq<u128>)
        requires
            self.consistent(),
        ensures
            self.drained(ids).consistent(),
            self.drained(ids).players.dom() == self.players.dom(),
            self.drained(ids).queue == self.queue.skip(2 * (self.queue.len() as int / 2)),
            self.drained(ids).queue.len() <= 1,
            forall|addr: Endpoint|
                self.players.contains_key(addr) ==> #[trigger] self.drained(ids).players[addr]
                    == self.players[addr] || self.drained(ids).players[addr]
                    == self.players[addr].matched(),
        decreases self.queue.len(),
    {
        if self.queue.len() < 2 {
            assert(self.queue.skip(0) =~= self.queue);
        } else {
            let a = self.queue[0];
            let b = self.queue[1];
            let rest = self.queue.skip(2);
            assert(rest.skip(2 * (rest.len() as int / 2)) =~= self.queue.skip(
                2 * (self.queue.len() as int / 2),
            ));
            if self.can_pair(a, b) && ids.len() > 0 {
                let room = Room::of(ids[0], a, b);
                self.popped().lemma_installed_consistent(room);
                let next = self.popped().installed(room);
                next.lemma_drained(ids.skip(1));
                let last = self.drained(ids);
                assert forall|addr: Endpoint|
                    self.players.contains_key(addr) implies #[trigger] last.players[addr]
                    == self.players[addr] || last.players[addr]
                    == self.players[addr].matched() by {
                    assert(next.players.contains_key(addr));
                    assert(next.players[addr] == self.players[addr] || next.players[addr]
                        == self.players[addr].matched());
                }
            } else {
                self.popped().lemma_drained(ids);
            }
        }
    }

    /// Joining keeps the state consistent and leaves at most one endpoint
    /// waiting.
    pub proof fn lemma_joined(self, addr: Endpoint, ids: Seq<u128>)
        requires
            self.consistent(),
        ensures
            self.joined(addr, ids).consistent(),
            self.joined(addr, ids).players.dom() == self.players.dom(),
            self.joined(addr, ids).queue.len() <= 1,
    {
        self.enqueued(addr).lemma_drained(ids);
    }

    /// With nobody waiting, the endpoint that joins waits alone and nothing
    /// else changes.
    pub proof fn lemma_join_alone(self, addr: Endpoint, ids: Seq<u128>)
        requires
            self.queue.len() == 0,
        ensures
            self.joined(addr, ids) == (MatchState { queue: seq![addr], ..self }),
    {
        assert(self.queue.push(addr) =~= seq![addr]);
    }

    /// With one endpoint `w` waiting, the endpoint that joins is matched with
    /// it in a room under the first identifier drawn, where the two can be
    /// paired; where they cannot, both are dropped and nothing else changes.
    /// Either way nobody waits afterwards.
    pub proof fn lemma_join_partner(self, addr: Endpoint, ids: Seq<u128>)
        requires
            self.queue.len() == 1,
        ensures
            self.joined(addr, ids) == if self.can_pair(self.queue[0], addr) && ids.len() > 0 {
                (MatchState { queue: Seq::empty(), ..self }).installed(
                    Room::of(ids[0], self.queue[0], addr),
                )
            } else {
                MatchState { queue: Seq::empty(), ..self }
            },
    {
        let queued = self.enqueued(addr);
        assert(queued.queue.skip(2) =~= Seq::<Endpoint>::empty());
        reveal_with_fuel(MatchState::drained, 2);
    }

    /// An endpoint that never entered sits in no room.
    pub proof fn lemma_unregistered_in_no_room(self, addr: Endpoint)
        requires
            self.consistent(),
            !self.players.contains_key(addr),
        ensures
            !self.in_some_room(addr),
    {
    }

    /// A join from an endpoint that never entered is inert. No room is formed
    /// for it, and none for the endpoint it is paired with: the rooms, the
    /// registry and the index come out as if it had not joined. Where an
    /// endpoint was left waiting, that endpoint is dropped with it; where none
    /// was, the unregistered endpoint waits, and whoever joins next is dropped
    /// with it.
    pub proof fn lemma_unregistered_join_is_inert(self, addr: Endpoint, ids: Seq<u128>)
        requires
            !self.players.contains_key(addr),
        ensures
            self.joined(addr, ids) == (MatchState {
                queue: if self.queue.len() % 2 == 0 {
                    seq![addr]
                } else {
                    Seq::empty()
                },
                ..self.drained(ids)
            }),
            self.queue.len() <= 1 ==> self.drained(ids) == self,
            self.consistent() ==> !self.joined(addr, ids).in_some_room(addr),
            forall|next: Endpoint, more: Seq<u128>|
                self.queue.len() == 0 ==> #[trigger] self.joined(addr, ids).joined(next, more) == (
                MatchState { queue: Seq::empty(), ..self }),
        decreases self.queue.len(),
    {
        let queued = self.enqueued(addr);
        if self.queue.len() == 0 {
            self.lemma_join_alone(addr, ids);
            assert forall|next: Endpoint, more: Seq<u128>|
                self.queue.len() == 0 implies #[trigger] self.joined(addr, ids).joined(next, more)
                == (MatchState { queue: Seq::empty(), ..self }) by {
                self.joined(addr, ids).lemma_join_partner(next, more);
            }
        } else if self.queue.len() == 1 {
            self.lemma_join_partner(addr, ids);
        } else {
            let a = self.queue[0];
            let b = self.queue[1];
            assert(queued.queue.skip(2) =~= self.queue.skip(2).push(addr));
            if self.can_pair(a, b) && ids.len() > 0 {
                let room = Room::of(ids[0], a, b);
                let next = self.popped().installed(room);
                assert(queued.popped().installed(room) == next.enqueued(addr));
                next.lemma_unregistered_join_is_inert(addr, ids.skip(1));
            } else {
                assert(queued.popped() == self.popped().enqueued(addr));
                self.popped().lemma_unregistered_join_is_inert(addr, ids);
            }
        }
        if self.consistent() {
            self.lemma_joined(addr, ids);
        }
    }

    /// Making a room of two waiting endpoints live, once they have left the
    /// queue, pairs nobody twice.
    pub proof fn lemma_pairing_is_exclusive(self, id: u128)
        requires
            self.consistent(),
            self.exclusive(),
            self.queue.len() >= 2,
        ensures
            self.popped().exclusive(),
            self.popped().installed(Room::of(id, self.queue[0], self.queue[1])).exclusive(),
    {
        let a = self.queue[0];
        let b = self.queue[1];
        let room = Room::of(id, a, b);
        let rest = self.popped();
        let after = rest.installed(room);
        assert forall|i: int, j: int|
            0 <= i < rest.queue.len() && 0 <= j < rest.queue.len() && i != j implies rest.queue[i]
            != rest.queue[j] by {
            assert(rest.queue[i] == self.queue[i + 2]);
            assert(rest.queue[j] == self.queue[j + 2]);
        }
        assert forall|i: int, other: u128|
            0 <= i < rest.queue.len() && rest.rooms.contains_key(other) implies !(
            #[trigger] rest.rooms[other].has(rest.queue[i])) by {
            assert(rest.queue[i] == self.queue[i + 2]);
            assert(!self.rooms[other].has(self.queue[i + 2]));
        }
        assert(rest.exclusive());
        assert forall|i: int, other: u128|
            0 <= i < after.queue.len() && after.rooms.contains_key(other) implies !(
            #[trigger] after.rooms[other].has(after.queue[i])) by {
            assert(after.queue[i] == self.queue[i + 2]);
            if other != id {
                assert(!self.rooms[other].has(self.queue[i + 2]));
            }
        }
        assert forall|id1: u128, id2: u128, addr: Endpoint|
            #![trigger after.rooms[id1].has(addr), after.rooms[id2].has(addr)]
            after.rooms.contains_key(id1) && after.rooms.contains_key(id2) && after.rooms[id1].has(
                addr,
            ) && after.rooms[id2].has(addr) implies id1 == id2 by {
            if id1 != id2 {
                if id1 == id {
                    assert(!self.rooms[id2].has(self.queue[0]));
                    assert(!self.rooms[id2].has(self.queue[1]));
                } else if id2 == id {
                    assert(!self.rooms[id1].has(self.queue[0]));
                    assert(!self.rooms[id1].has(self.queue[1]));
                } else {
                    assert(self.rooms[id1].has(addr) && self.rooms[id2].has(addr));
                }
            }
        }
    }

    /// Draining pairs nobody twice.
    pub proof fn lemma_drained_exclusive(self, ids: Seq<u128>)
        requires
            self.consistent(),
            self.exclusive(),
        ensures
            self.drained(ids).exclusive(),
        decreases self.queue.len(),
    {
        if self.queue.len() >= 2 {
            let a = self.queue[0];
            let b = self.queue[1];
            if self.can_pair(a, b) && ids.len() > 0 {
                let room = Room::of(ids[0], a, b);
                self.lemma_pairing_is_exclusive(ids[0]);
                self.popped().lemma_installed_consistent(room);
                self.popped().installed(room).lemma_drained_exclusive(ids.skip(1));
            } else {
                self.lemma_pairing_is_exclusive(0);
                self.popped().lemma_drained_exclusive(ids);
            }
        }
    }

    /// Entering pairs nobody: the queue and the rooms stay as they are.
    pub proof fn lemma_entering_pairs_nobody(self, addr: Endpoint, id: u128)
        ensures
            self.entered(addr, id).queue == self.queue,
            self.entered(addr, id).rooms == self.rooms,
            self.entered(addr, id).index == self.index,
            self.exclusive() ==> self.entered(addr, id).exclusive(),
    {
    }

    /// No double pairing. Where nobody is paired twice, a join from an
    /// endpoint that neither waits nor sits in a room leaves it so: each
    /// endpoint is in at most one room, no waiting endpoint is in a room, and
    /// each room holds two distinct endpoints. This holds whatever identifiers
    /// are drawn.
    pub proof fn lemma_no_double_pairing(self, addr: Endpoint, ids: Seq<u128>)
        requires
            self.consistent(),
            self.exclusive(),
            !self.engaged(addr),
        ensures
            self.joined(addr, ids).exclusive(),
            forall|room: u128| #[trigger]
                self.joined(addr, ids).rooms.contains_key(room) ==> self.joined(
                    addr,
                    ids,
                ).rooms[room].wf(),
    {
        self.lemma_joined(addr, ids);
        if !self.queue.contains(addr) && !self.in_some_room(addr) {
            let queued = self.enqueued(addr);
            assert forall|i: int, j: int|
                0 <= i < queued.queue.len() && 0 <= j < queued.queue.len() && i
                    != j implies queued.queue[i] != queued.queue[j] by {
                if i < self.queue.len() {
                    assert(self.queue.contains(queued.queue[i]));
                }
                if j < self.queue.len() {
                    assert(self.queue.contains(queued.queue[j]));
                }
            }
            assert forall|i: int, other: u128|
                0 <= i < queued.queue.len() && queued.rooms.contains_key(
                    other,
                ) implies !#[trigger] queued.rooms[other].has(queued.queue[i]) by {
                if i < self.queue.len() {
                    assert(!self.rooms[other].has(self.queue[i]));
                }
            }
            queued.lemma_drained_exclusive(ids);
        }
    }

    /// Draining engages nobody new: who waits afterwards waited before, and
    /// who sits in a room afterwards sat in one or waited before.
    pub proof fn lemma_drained_engages_nobody_new(self, ids: Seq<u128>)
        ensures
            forall|addr: Endpoint|
                self.drained(ids).queue.contains(addr) ==> self.queue.contains(addr),
            forall|addr: Endpoint| #[trigger]
                self.drained(ids).engaged(addr) ==> self.engaged(addr),
        decreases self.queue.len(),
    {
        if self.queue.len() >= 2 {
            let a = self.queue[0];
            let b = self.queue[1];
            let rest = self.popped();
            assert forall|addr: Endpoint| rest.queue.contains(addr) implies self.queue.contains(
                addr,
            ) by {
                let i = choose|i: int| 0 <= i < rest.queue.len() && rest.queue[i] == addr;
                assert(self.queue[i + 2] == addr);
            }
            if self.can_pair(a, b) && ids.len() > 0 {
                let room = Room::of(ids[0], a, b);
                let next = rest.installed(room);
                next.lemma_drained_engages_nobody_new(ids.skip(1));
                assert forall|addr: Endpoint|
                    self.drained(ids).queue.contains(addr) implies self.queue.contains(addr) by {
                    assert(next.queue.contains(addr));
                    assert(rest.queue.contains(addr));
                }
                assert forall|addr: Endpoint| #[trigger]
                    self.drained(ids).engaged(addr) implies self.engaged(addr) by {
                    assert(next.engaged(addr));
                    if next.in_some_room(addr) {
                        let id = choose|id: u128|
                            next.rooms.contains_key(id) && #[trigger] next.rooms[id].has(addr);
                        if id == room.id {
                            assert(addr == self.queue[0] || addr == self.queue[1]);
                        } else {
                            assert(self.rooms.contains_key(id) && self.rooms[id].has(addr));
                        }
                    }
                }
            } else {
                rest.lemma_drained_engages_nobody_new(ids);
                assert forall|addr: Endpoint|
                    self.drained(ids).queue.contains(addr) implies self.queue.contains(addr) by {
                    assert(rest.queue.contains(addr));
                }
                assert forall|addr: Endpoint| #[trigger]
                    self.drained(ids).engaged(addr) implies self.engaged(addr) by {
                    assert(rest.engaged(addr));
                    if rest.in_some_room(addr) {
                        let id = choose|id: u128|
                            rest.rooms.contains_key(id) && #[trigger] rest.rooms[id].has(addr);
                        assert(self.rooms.contains_key(id) && self.rooms[id].has(addr));
                    }
                }
            }
        }
    }

    /// No double pairing, over a whole run. Where nobody is paired twice and
    /// distinct endpoints that take no part in matchmaking yet join one after
    /// the other, nobody is paired twice afterwards: each endpoint sits in at
    /// most one room, nobody both waits and sits in a room, and each room
    /// holds two distinct endpoints. This holds whatever identifiers are
    /// drawn, and whichever of the endpoints are registered.
    pub proof fn lemma_distinct_joins_pair_nobody_twice(
        self,
        addrs: Seq<Endpoint>,
        ids: Seq<Seq<u128>>,
    )
        requires
            self.consistent(),
            self.exclusive(),
            addrs.no_duplicates(),
            forall|i: int| 0 <= i < addrs.len() ==> !self.engaged(#[trigger] addrs[i]),
        ensures
            self.joined_all(addrs, ids).consistent(),
            self.joined_all(addrs, ids).exclusive(),
            self.joined_all(addrs, ids).queue.len() <= self.queue.len() + 1,
            forall|addr: Endpoint| #[trigger]
                self.joined_all(addrs, ids).engaged(addr) ==> self.engaged(addr) || addrs.contains(
                    addr,
                ),
            forall|room: u128| #[trigger]
                self.joined_all(addrs, ids).rooms.contains_key(room) ==> self.joined_all(
                    addrs,
                    ids,
                ).rooms[room].wf(),
        decreases addrs.len(),
    {
        if addrs.len() > 0 {
            let before = addrs.drop_last();
            let addr = addrs.last();
            let prev = self.joined_all(before, ids.drop_last());
            self.lemma_distinct_joins_pair_nobody_twice(before, ids.drop_last());
            assert(!prev.engaged(addr)) by {
                if prev.engaged(addr) {
                    assert(!self.engaged(addrs[addrs.len() - 1]));
                    assert(before.contains(addr));
                    let i = choose|i: int| 0 <= i < before.len() && before[i] == addr;
                    assert(addrs[i] == addrs[addrs.len() - 1]);
                }
            }
            prev.lemma_no_double_pairing(addr, ids.last());
            prev.lemma_joined(addr, ids.last());
            let queued = prev.enqueued(addr);
            queued.lemma_drained_engages_nobody_new(ids.last());
            assert forall|other: Endpoint| #[trigger]
                self.joined_all(addrs, ids).engaged(other) implies self.engaged(other)
                || addrs.contains(other) by {
                assert(queued.engaged(other));
                if other == addr {
                    assert(addrs[addrs.len() - 1] == other);
                } else {
                    if queued.queue.contains(other) {
                        let i = choose|i: int|
                            0 <= i < queued.queue.len() && queued.queue[i] == other;
                        assert(prev.queue[i] == other);
                    } else {
                        let id = choose|id: u128|
                            queued.rooms.contains_key(id) && #[trigger] queued.rooms[id].has(other);
                        assert(prev.rooms.contains_key(id) && prev.rooms[id].has(other));
                    }
                    assert(prev.engaged(other));
                    if before.contains(other) {
                        let i = choose|i: int| 0 <= i < before.len() && before[i] == other;
                        assert(addrs[i] == other);
                    }
                }
            }
            prev.lemma_drained(Seq::empty());
        }
    }

    /// With new identifiers no room is lost and the index stays right. Where
    /// nobody is paired twice, the index agrees with the rooms and the
    /// identifiers drawn are unused, draining keeps every live room as it is,
    /// and the index still sends each player to the room that holds it.
    pub proof fn lemma_unused_ids_keep_rooms(self, ids: Seq<u128>)
        requires
            self.consistent(),
            self.exclusive(),
            self.index_agrees(),
            self.unused(ids),
        ensures
            self.drained(ids).index_agrees(),
            forall|id: u128| #[trigger]
                self.rooms.contains_key(id) ==> self.drained(ids).rooms.contains_key(id)
                    && self.drained(ids).rooms[id] == self.rooms[id],
        decreases self.queue.len(),
    {
        if self.queue.len() >= 2 {
            let a = self.queue[0];
            let b = self.queue[1];
            let rest = self.popped();
            if self.can_pair(a, b) && ids.len() > 0 {
                let id = ids[0];
                let room = Room::of(id, a, b);
                let next = rest.installed(room);
                self.lemma_pairing_is_exclusive(id);
                rest.lemma_installed_consistent(room);
                assert(!self.rooms.contains_key(ids[0]));
                assert(!self.index.contains_key(a)) by {
                    if self.index.contains_key(a) {
                        assert(self.rooms[self.index[a]].has(self.queue[0]));
                    }
                }
                assert(!self.index.contains_key(b)) by {
                    if self.index.contains_key(b) {
                        assert(self.rooms[self.index[b]].has(self.queue[1]));
                    }
                }
                assert forall|other: u128| #[trigger] next.rooms.contains_key(other) implies {
                    let held = next.rooms[other];
                    &&& next.index.contains_key(held.first)
                    &&& next.index[held.first] == other
                    &&& next.index.contains_key(held.second)
                    &&& next.index[held.second] == other
                } by {
                    if other != id {
                        assert(self.rooms.contains_key(other));
                    }
                }
                assert forall|addr: Endpoint|
                    next.index.contains_key(addr) implies next.rooms.contains_key(
                    #[trigger] next.index[addr],
                ) && next.rooms[next.index[addr]].has(addr) by {
                    if addr != a && addr != b {
                        assert(self.rooms.contains_key(self.index[addr]));
                    }
                }
                let later = ids.skip(1);
                assert forall|i: int| 0 <= i < later.len() implies !next.rooms.contains_key(
                    #[trigger] later[i],
                ) by {
                    assert(later[i] == ids[i + 1]);
                }
                assert forall|i: int, j: int|
                    0 <= i < later.len() && 0 <= j < later.len() && i != j implies later[i]
                    != later[j] by {
                    assert(later[i] == ids[i + 1] && later[j] == ids[j + 1]);
                }
                next.lemma_unused_ids_keep_rooms(later);
                let last = self.drained(ids);
                assert forall|other: u128| #[trigger]
                    self.rooms.contains_key(other) implies last.rooms.contains_key(other)
                    && last.rooms[other] == self.rooms[other] by {
                    assert(next.rooms.contains_key(other));
                }
            } else {
                self.lemma_pairing_is_exclusive(0);
                rest.lemma_unused_ids_keep_rooms(ids);
            }
        }
    }

    /// Four distinct registered endpoints that join in the order `a`, `b`,
    /// `c`, `d` while nobody else waits are matched first come, first served:
    /// the first room holds `a` and `b`, the second `c` and `d`, all four are
    /// in a match and nobody waits.
    pub proof fn lemma_fifo_fairness(
        self,
        a: Endpoint,
        b: Endpoint,
        c: Endpoint,
        d: Endpoint,
        id1: u128,
        id2: u128,
    )
        requires
            self.queue.len() == 0,
            self.players.contains_key(a),
            self.players.contains_key(b),
            self.players.contains_key(c),
            self.players.contains_key(d),
            a != b && a != c && a != d && b != c && b != d && c != d,
        ensures
            ({
                let none = Seq::<u128>::empty();
                let first = self.joined(a, none).joined(b, seq![id1]);
                let second = first.joined(c, none).joined(d, seq![id2]);
                &&& first.queue.len() == 0
                &&& first.rooms == self.rooms.insert(id1, Room::of(id1, a, b))
                &&& second.queue.len() == 0
                &&& second.rooms == first.rooms.insert(id2, Room::of(id2, c, d))
                &&& second.players[a].status == PlayerStatus::InMatch
                &&& second.players[b].status == PlayerStatus::InMatch
                &&& second.players[c].status == PlayerStatus::InMatch
                &&& second.players[d].status == PlayerStatus::InMatch
                &&& second.index[a] == id1 && second.index[b] == id1
                &&& second.index[c] == id2 && second.index[d] == id2
            }),
    {
        let none = Seq::<u128>::empty();
        self.lemma_join_alone(a, none);
        let s1 = self.joined(a, none);
        s1.lemma_join_partner(b, seq![id1]);
        let first = s1.joined(b, seq![id1]);
        first.lemma_join_alone(c, none);
        let s3 = first.joined(c, none);
        s3.lemma_join_partner(d, seq![id2]);
    }
}

} // verus!
