//! Procedural room-graph generation and exploration state for a small
//! roguelike: blue-noise placement of rooms, a connected room graph, a
//! cooldown-gated player, one-shot room effects, and growing hazards.
//!
//! All quantities are fixed-point integers: a coordinate or a length is
//! counted in thousandths of a world unit, a time in milliseconds, a speed
//! multiplier in millionths.
//!
//! One tick of a session runs, in this order: `GameState::handle_input`
//! (clicks become a pending move), `GameState::resolve_move` (battles,
//! arrival, room effects, room requests), room growth, then
//! `GameState::update_dangers`. Room growth alternates with the caller:
//! `GameState::next_room_request` draws the sweep directions of a request
//! (fractions of a turn), the caller turns each direction into a candidate
//! offset on the sampling ring (`map_graph::SAMPLING_RING`), and
//! `GameState::place_room` keeps the first candidate far enough from every
//! room. The first build of a map works the same way through
//! `GameState::initial_sweep` and `GameState::place_initial_room`.
//!
//! - `math_utils`: points, squared distances, integer square root.
//! - `poisson`: the sweep directions and the rejection sampler.
//! - `random`: the seeded ChaCha20 random source.
//! - `map_graph`: the room graph, its invariants, room creation.
//! - `exploration`: cooldown, clicks, pending moves, refusals.
//! - `combat`: battles that block moves.
//! - `danger`: hazards, their growth, the death check.
//! - `game`: the session state, arrival effects, room requests.
//! - `graphics_rooms`, `text_feedback`: what the display reads.

pub mod math_utils;
pub mod combat;
pub mod danger;
pub mod exploration;
pub mod game;
pub mod graphics_rooms;
pub mod map_graph;
pub mod poisson;
pub mod random;
pub mod text_feedback;
