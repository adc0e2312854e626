//! The parts of the cabinet's front end that decide rather than draw: the
//! screen registry, and what a refusal says to the player.

pub mod drift;
pub mod outcomes;
pub mod screens;
