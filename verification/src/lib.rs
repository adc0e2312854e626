//! The maths of a five-reel slot floor: reel strips, the visible grid, how a
//! grid pays (paylines, ways, clusters), cascades, the seam feature and the
//! cabinet data that drives all of it; one player's session at a cabinet
//! (stake, spin, settle, bet, free spins, cards, unattended runs); and what
//! the game does about each intent, from the session-limit gate to the
//! panels, sounds and notices an outcome asks for. Every function here is
//! deterministic: randomness arrives as values already drawn.

pub mod actions;
pub mod audio;
pub mod data;
pub mod engine;
pub mod game;
pub mod music;
pub mod state;
pub mod text;
