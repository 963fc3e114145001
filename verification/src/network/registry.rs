//! The player registry: who is connected.

use vstd::prelude::*;
use crate::network::endpoint::Endpoint;
use crate::network::endpoint_map::EndpointMap;
use crate::network::ident::{fresh_id, is_random_id};
use crate::network::player::Player;

verus! {

/// The state that registering `addr` under the identifier `id` leads to from
/// `players`: a known endpoint keeps its player, a new one gets a fresh
/// player.
pub open spec fn registered(
    players: Map<Endpoint, Player>,
    addr: Endpoint,
    id: u128,
) -> Map<Endpoint, Player> {
    if players.contains_key(addr) {
        players
    } else {
        players.insert(addr, Player::fresh(id, addr))
    }
}

/// The registry with the player at `addr` placed in a match. An endpoint that
/// is not registered changes nothing.
pub open spec fn marked(players: Map<Endpoint, Player>, addr: Endpoint) -> Map<Endpoint, Player> {
    if players.contains_key(addr) {
        players.insert(addr, players[addr].matched())
    } else {
        players
    }
}

/// Whether each player of `players` is filed under its own endpoint.
pub open spec fn keyed_by_addr(players: Map<Endpoint, Player>) -> bool {
    forall|addr: Endpoint| players.contains_key(addr) ==> (#[trigger] players[addr]).addr == addr
}

/// Registering an endpoint twice is registering it once: the second
/// registration changes nothing, whatever identifier it brings, so the player
/// keeps the identifier and the status of the first.
pub proof fn lemma_register_idempotent(
    players: Map<Endpoint, Player>,
    addr: Endpoint,
    id1: u128,
    id2: u128,
)
    ensures
        registered(registered(players, addr, id1), addr, id2) == registered(players, addr, id1),
        registered(players, addr, id1).contains_key(addr),
        players.contains_key(addr) ==> registered(players, addr, id1)[addr] == players[addr],
        forall|other: Endpoint|
            other != addr ==> (registered(players, addr, id1).contains_key(other)
                <==> players.contains_key(other)),
{
}

/// The single source of truth for who is connected: one player for each
/// endpoint that has entered.
pub struct Registry {
    players: EndpointMap<Player>,
}

impl View for Registry {
    type V = Map<Endpoint, Player>;

    closed spec fn view(&self) -> Map<Endpoint, Player> {
        self.players@
    }
}

impl Registry {
    /// Well-formedness: each player is filed under its own endpoint, and the
    /// players are finitely many.
    pub closed spec fn wf(&self) -> bool {
        &&& self.players.wf()
        &&& keyed_by_addr(self.players@)
    }

    /// What well-formedness says of the view.
    pub proof fn lemma_wf(&self)
        requires
            self.wf(),
        ensures
            keyed_by_addr(self@),
            self@.dom().finite(),
    {
        self.players.lemma_finite();
    }

    /// The registry with nobody in it.
    pub fn new() -> (registry: Registry)
        ensures
            registry.wf(),
            registry@ == Map::<Endpoint, Player>::empty(),
    {
        Registry { players: EndpointMap::new() }
    }

    /// The number of registered players.
    pub fn len(&self) -> (n: usize)
        requires
            self.wf(),
        ensures
            self@.dom().finite(),
            n == self@.len(),
    {
        self.players.len()
    }

    /// Whether `addr` is registered.
    pub fn contains(&self, addr: &Endpoint) -> (found: bool)
        requires
            self.wf(),
        ensures
            found == self@.contains_key(*addr),
    {
        self.players.contains_key(addr)
    }

    /// The player at `addr`, if it is registered.
    pub fn get(&self, addr: &Endpoint) -> (player: Option<&Player>)
        requires
            self.wf(),
        ensures
            match player {
                Some(p) => self@.contains_key(*addr) && *p == self@[*addr] && p.addr == *addr,
                None => !self@.contains_key(*addr),
            },
    {
        self.players.get(addr)
    }

    /// Registers `addr` under a freshly drawn identifier unless it is known
    /// already. Returns the identifier of the player created, or `None` where
    /// the endpoint was known and nothing changed.
    pub fn register(&mut self, addr: Endpoint) -> (created: Option<u128>)
        requires
            old(self).wf(),
        ensures
            final(self).wf(),
            created is Some <==> !old(self)@.contains_key(addr),
            match created {
                Some(id) => is_random_id(id) && final(self)@ == registered(old(self)@, addr, id),
                None => final(self)@ == old(self)@,
            },
    {
        if self.players.contains_key(&addr) {
            None
        } else {
            let id: u128 = fresh_id();
            self.register_with_id(addr, id);
            Some(id)
        }
    }

    /// Registers `addr` under the identifier `id` unless it is known already.
    /// Returns whether a player was created.
    pub fn register_with_id(&mut self, addr: Endpoint, id: u128) -> (created: bool)
        requires
            old(self).wf(),
        ensures
            final(self).wf(),
            created == !old(self)@.contains_key(addr),
            final(self)@ == registered(old(self)@, addr, id),
    {
        if self.players.contains_key(&addr) {
            false
        } else {
            self.players.insert(addr, Player::with_id(id, addr));
            true
        }
    }

    /// Marks the player at `addr` as placed in a room. An endpoint that is not
    /// registered is left alone.
    pub fn mark_in_match(&mut self, addr: &Endpoint)
        requires
            old(self).wf(),
        ensures
            final(self).wf(),
            final(self)@ == marked(old(self)@, *addr),
    {
        let updated = match self.players.get(addr) {
            Some(player) => Some(player.in_match()),
            None => None,
        };
        if let Some(player) = updated {
            self.players.insert(*addr, player);
        }
    }
}

} // verus!
