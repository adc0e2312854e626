//! How long a random-play run goes on, and which evening it replays.

use vstd::prelude::*;

verus! {

/// A random-play run: how many presses, and the seed that replays it.
#[derive(Debug, Clone, Copy, PartialEq, Eq, Structural)]
pub struct DriftConfig {
    pub steps: usize,
    pub seed: u64,
}

} // verus!
