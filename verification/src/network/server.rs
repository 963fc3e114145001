//! The server: decodes each datagram and applies what it asks for to the
//! shared state.

use std::collections::HashMap;
use vstd::prelude::*;
use crate::network::endpoint::Endpoint;
use crate::network::endpoint_map::EndpointMap;
use crate::network::ident::is_random_id;
use crate::network::match_maker::MatchMaker;
use crate::network::match_state::{pairs_of, ready_pairs, room_ids, MatchState};
use crate::network::json::json_object;
use crate::network::message::{action_key, message_of, Message, MessageView};
use crate::network::pipeline::Packet;
use crate::network::player::Player;
use crate::network::registry::Registry;
use crate::network::room::Room;
use crate::network::text::utf8_lossy;

verus! {

/// What processing one datagram came to. Nothing is sent back to the client;
/// the outcome is for the caller's diagnostics.
#[derive(Debug, PartialEq, Eq)]
pub enum Outcome {
    /// The payload was not one JSON object; nothing changed.
    Malformed,
    /// The object named no action; nothing changed.
    NoAction,
    /// The sender entered: with the identifier of the player created, or
    /// `None` where the sender was known already and nothing changed.
    Entered(Option<u128>),
    /// The sender was queued, and these rooms were formed, oldest pair first.
    Joined(Vec<Room>),
    /// `"leave"` is reserved; nothing changed.
    Left,
    /// `"move"` is reserved; nothing changed.
    Moved,
    /// The action is not one the server knows; nothing changed.
    Unknown(String),
}

/// An outcome as plain mathematics.
pub ghost enum OutcomeView {
    Malformed,
    NoAction,
    Entered(Option<u128>),
    Joined(Seq<Room>),
    Left,
    Moved,
    Unknown(Seq<char>),
}

impl View for Outcome {
    type V = OutcomeView;

    open spec fn view(&self) -> OutcomeView {
        match *self {
            Outcome::Malformed => OutcomeView::Malformed,
            Outcome::NoAction => OutcomeView::NoAction,
            Outcome::Entered(created) => OutcomeView::Entered(created),
            Outcome::Joined(formed) => OutcomeView::Joined(formed@),
            Outcome::Left => OutcomeView::Left,
            Outcome::Moved => OutcomeView::Moved,
            Outcome::Unknown(name) => OutcomeView::Unknown(name@),
        }
    }
}

/// Whether entering from `addr` takes the state `before` to `after` with the
/// answer `created`: a new endpoint gets a player under the identifier
/// `created`, a known one changes nothing.
pub open spec fn enters(
    before: MatchState,
    addr: Endpoint,
    created: Option<u128>,
    after: MatchState,
) -> bool {
    match created {
        Some(id) => !before.players.contains_key(addr) && is_random_id(id) && after
            == before.entered(addr, id),
        None => before.players.contains_key(addr) && after == before,
    }
}

/// Whether joining from `addr` takes the state `before` to `after` with the
/// rooms `formed`: the rooms are those of the waiting pairs that can be
/// matched, under random identifiers, and the state is the one these lead to.
pub open spec fn joins(
    before: MatchState,
    addr: Endpoint,
    formed: Seq<Room>,
    after: MatchState,
) -> bool {
    &&& pairs_of(formed) == ready_pairs(before.players.dom(), before.queue.push(addr))
    &&& forall|i: int| 0 <= i < formed.len() ==> is_random_id(#[trigger] formed[i].id)
    &&& after == before.joined(addr, room_ids(formed))
}

/// Whether handling `message` from `addr` takes the state `before` to `after`
/// with the answer `outcome`.
pub open spec fn handles(
    before: MatchState,
    addr: Endpoint,
    message: MessageView,
    outcome: OutcomeView,
    after: MatchState,
) -> bool {
    match message {
        MessageView::Malformed => outcome == OutcomeView::Malformed && after == before,
        MessageView::NoAction => outcome == OutcomeView::NoAction && after == before,
        MessageView::Enter => outcome matches OutcomeView::Entered(created) && enters(
            before,
            addr,
            created,
            after,
        ),
        MessageView::Join => outcome matches OutcomeView::Joined(formed) && joins(
            before,
            addr,
            formed,
            after,
        ),
        MessageView::Leave => outcome == OutcomeView::Left && after == before,
        MessageView::Move => outcome == OutcomeView::Moved && after == before,
        MessageView::Unknown(name) => outcome == OutcomeView::Unknown(name) && after == before,
    }
}

/// A message that is neither `enter` nor `join` changes nothing: not a
/// payload that is no JSON object, not an object without an action, not a
/// reserved or an unknown action.
pub proof fn lemma_only_enter_and_join_act(
    before: MatchState,
    addr: Endpoint,
    message: MessageView,
    outcome: OutcomeView,
    after: MatchState,
)
    requires
        handles(before, addr, message, outcome, after),
        !(message is Enter),
        !(message is Join),
    ensures
        after == before,
{
}

/// A player is never removed nor reset. Whatever message is handled, every
/// registered endpoint stays registered, and its player is the one it was or
/// that one placed in a match: the identifier, the endpoint and the position
/// stay, and the status moves from `Available` to `InMatch` at most.
pub proof fn lemma_players_only_advance(
    before: MatchState,
    addr: Endpoint,
    message: MessageView,
    outcome: OutcomeView,
    after: MatchState,
)
    requires
        before.consistent(),
        handles(before, addr, message, outcome, after),
    ensures
        after.consistent(),
        forall|known: Endpoint| #[trigger]
            before.players.contains_key(known) ==> after.players.contains_key(known) && (
            after.players[known] == before.players[known] || after.players[known]
                == before.players[known].matched()),
{
    match message {
        MessageView::Enter => {
            if let OutcomeView::Entered(Some(id)) = outcome {
                before.lemma_entered_consistent(addr, id);
            }
        },
        MessageView::Join => {
            if let OutcomeView::Joined(formed) = outcome {
                before.lemma_joined(addr, room_ids(formed));
                before.enqueued(addr).lemma_drained(room_ids(formed));
            }
        },
        _ => {},
    }
}

/// Malformed input is safe. A payload that is not one JSON object, and an
/// object without a string member `action`, are handled without any change
/// to the shared state, whoever sent them.
pub proof fn lemma_malformed_payload_is_inert(
    before: MatchState,
    addr: Endpoint,
    bytes: Seq<u8>,
    outcome: OutcomeView,
    after: MatchState,
)
    ensures
        handles(before, addr, message_of(bytes), outcome, after) && json_object(utf8_lossy(bytes))
            is None ==> after == before && outcome == OutcomeView::Malformed,
        handles(before, addr, message_of(bytes), outcome, after) && json_object(utf8_lossy(bytes))
            is Some && !json_object(utf8_lossy(bytes))->0.contains_key(action_key()) ==> after
            == before && outcome == OutcomeView::NoAction,
{
}

/// The server's shared state and the handlers that change it.
pub struct Server {
    match_maker: MatchMaker,
}

impl View for Server {
    type V = MatchState;

    closed spec fn view(&self) -> MatchState {
        self.match_maker@
    }
}

impl Server {
    /// Well-formedness: the shared state is well-formed.
    pub closed spec fn wf(&self) -> bool {
        self.match_maker.wf()
    }

    /// A well-formed server is in a consistent state.
    pub proof fn lemma_consistent(&self)
        requires
            self.wf(),
        ensures
            self@.consistent(),
    {
        self.match_maker.lemma_consistent();
    }

    /// A server that nobody has talked to yet: no players, nobody waiting, no
    /// rooms.
    pub fn new() -> (server: Server)
        ensures
            server.wf(),
            server@ == MatchState::empty(),
    {
        let players = Registry::new();
        let rooms: HashMap<u128, Room> = HashMap::new();
        let player_room_map: EndpointMap<u128> = EndpointMap::new();
        let match_maker = MatchMaker::new(players, rooms, player_room_map);
        Server { match_maker }
    }

    /// The match maker, which holds the tables.
    pub fn match_maker(&self) -> (maker: &MatchMaker)
        requires
            self.wf(),
        ensures
            maker.wf(),
            maker@ == self@,
    {
        &self.match_maker
    }

    /// The player at `addr`, if it is registered.
    pub fn player(&self, addr: &Endpoint) -> (player: Option<&Player>)
        requires
            self.wf(),
        ensures
            match player {
                Some(p) => self@.players.contains_key(*addr) && *p == self@.players[*addr],
                None => !self@.players.contains_key(*addr),
            },
    {
        self.match_maker.player(addr)
    }

    /// The number of registered players.
    pub fn player_count(&self) -> (n: usize)
        requires
            self.wf(),
        ensures
            n == self@.players.len(),
    {
        self.match_maker.players().len()
    }

    /// The number of live rooms.
    pub fn room_count(&self) -> (n: usize)
        requires
            self.wf(),
        ensures
            n == self@.rooms.len(),
    {
        self.match_maker.room_count()
    }

    /// Decodes the payload of `packet` and handles the message for its
    /// sender.
    pub fn process(&mut self, packet: &Packet) -> (outcome: Outcome)
        requires
            old(self).wf(),
        ensures
            final(self).wf(),
            handles(old(self)@, packet.addr, message_of(packet.bytes@), outcome@, final(self)@),
    {
        let message = Message::decode(packet.bytes.as_slice());
        self.handle(&packet.addr, message)
    }

    /// Handles one decoded message for the sender `addr`.
    pub fn handle(&mut self, addr: &Endpoint, message: Message) -> (outcome: Outcome)
        requires
            old(self).wf(),
        ensures
            final(self).wf(),
            handles(old(self)@, *addr, message@, outcome@, final(self)@),
    {
        match message {
            Message::Malformed => Outcome::Malformed,
            Message::NoAction => Outcome::NoAction,
            Message::Enter => Outcome::Entered(self.handle_enter(addr)),
            Message::Join => Outcome::Joined(self.handle_join(addr)),
            Message::Leave => {
                self.handle_leave();
                Outcome::Left
            },
            Message::Move => {
                self.handle_move();
                Outcome::Moved
            },
            Message::Unknown(name) => Outcome::Unknown(name),
        }
    }

    /// Registers the sender as a new player unless it is known already.
    /// Returns the identifier of the player created, if one was.
    pub fn handle_enter(&mut self, addr: &Endpoint) -> (created: Option<u128>)
        requires
            old(self).wf(),
        ensures
            final(self).wf(),
            enters(old(self)@, *addr, created, final(self)@),
    {
        self.match_maker.register(*addr)
    }

    /// Puts the sender on the waiting queue and forms the rooms that this
    /// makes possible. Returns the rooms formed.
    pub fn handle_join(&mut self, addr: &Endpoint) -> (formed: Vec<Room>)
        requires
            old(self).wf(),
        ensures
            final(self).wf(),
            joins(old(self)@, *addr, formed@, final(self)@),
    {
        self.match_maker.add_to_queue(addr)
    }

    /// Reserved for moving a player. Changes nothing.
    pub fn handle_move(&self) {
    }

    /// Reserved for leaving a room. Changes nothing.
    pub fn handle_leave(&self) {
    }
}

} // verus!
