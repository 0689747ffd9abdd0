//! State synchronisation and simulation for a small multiplayer arena shooter:
//! player identity allocation, the relay server's event handling, the message
//! vocabulary, and the client's world model with its per-tick simulation.
//!
//! Coordinates are fixed-point integers (`UNIT` steps per pixel) and angles are
//! whole degrees, so every rule here is exact integer arithmetic.

mod ids;
mod proto;
mod relay;
mod world;

pub use ids::{lemma_freed_id_reused, lemma_smallest_free_unique, smallest_free, IdAllocator};
pub use proto::{ClientMessage, Position, ServerMessage, MAX_ANGLE, MAX_COORD, UNIT};
pub use relay::{
    answer, lemma_relay_order, lemma_respawn_keeps_id, relay_reply, Outgoing, PeerEvent, Relay,
};
pub use world::{
    after_tick, clamp, covers, deaths, dec, deg, flown, holds, hurts, keys_unique, landed, muzzle,
    receive, rem360, sat_sub, stepped, strikes, strikes_id, survivors, wounds, ClientError,
    Headings, Key, Moving, Rotating, Shot, Sprites, World, FULL_HEALTH, PLAYER_SPEED, SHOT_REACH,
    SHOT_SPEED, SHOT_TTL, TURN_SPEED,
};
pub use world::{
    lemma_charged_hit_spends, lemma_corner_bounce, lemma_discharged_harmless,
    lemma_left_wall_bounce, lemma_survivors_alive, lemma_ttl_never_grows,
};
