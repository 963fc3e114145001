//! The networked side of the server: endpoints, players, rooms, matchmaking,
//! message decoding and the admission pipeline.

pub mod endpoint;
pub mod endpoint_map;
pub mod ident;
pub mod invariants;
pub mod json;
pub mod match_maker;
pub mod match_state;
pub mod message;
pub mod pipeline;
pub mod player;
pub mod registry;
pub mod room;
pub mod server;
pub mod text;
