//! Client-side engine of a multiplayer snake game: toroidal grid geometry,
//! the tick-driven movement and growth simulation, collision and food
//! predicates, and the JSON wire protocol that synchronizes local state with
//! an authoritative peer.

pub mod codec;
pub mod game;
pub mod grid;
pub mod random;
