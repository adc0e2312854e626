//! What a simulation run is asked to do, what a feature-buy run reports, and
//! how many rounds fell in each win band. The figures a run derives from
//! these (return to player, volatility, band shares) are ratios and live with
//! the player.

use vstd::prelude::*;

verus! {

/// How a simulation run is set up.
#[derive(Debug, Clone, Copy, PartialEq, Eq, Structural)]
pub struct SimConfig {
    pub spins: u64,
    pub ante: bool,
    pub line_bet_index: usize,
    pub seed: u64,
}

impl Default for SimConfig {
    fn default() -> (config: Self)
        ensures
            config == (SimConfig { spins: 100_000, ante: false, line_bet_index: 0, seed: 0xD2A6_0F1E }),
    {
        SimConfig { spins: 100_000, ante: false, line_bet_index: 0, seed: 0xD2A6_0F1E }
    }
}

/// What buying one feature tier over and over returned.
#[derive(Debug, Clone, Copy, PartialEq, Eq, Structural)]
pub struct BuyReport {
    pub buys: u64,
    pub spent: i64,
    pub won: i64,
}

impl Default for BuyReport {
    fn default() -> (report: Self)
        ensures
            report == (BuyReport { buys: 0, spent: 0, won: 0 }),
    {
        BuyReport { buys: 0, spent: 0, won: 0 }
    }
}

/// How many win bands a round can fall in.
pub const BAND_COUNT: usize = 7;

/// Upper bound of each win band but the last, in multiples of the total bet.
pub open spec fn band_bounds() -> Seq<int> {
    seq![0, 1, 2, 5, 20, 100]
}

/// The first band whose bound the round's return does not exceed, or the
/// last band when it exceeds them all. With a positive stake, a return of
/// at most `bound` times the stake is `credits <= bound * total_bet`.
pub open spec fn band_from(credits: int, total_bet: int, k: int) -> int
    decreases 6 - k,
{
    if k >= 6 {
        6
    } else if credits <= band_bounds()[k] * total_bet {
        k
    } else {
        band_from(credits, total_bet, k + 1)
    }
}

pub open spec fn spec_band_of(credits: int, total_bet: int) -> int {
    band_from(credits, total_bet, 0)
}

/// The band a round of `credits` at a stake of `total_bet` falls in.
pub fn band_of(credits: i64, total_bet: i64) -> (band: usize)
    requires
        total_bet > 0,
        100 * total_bet <= i64::MAX,
    ensures
        band == spec_band_of(credits as int, total_bet as int),
        band < BAND_COUNT,
{
    let bounds: [i64; 6] = [0, 1, 2, 5, 20, 100];
    assert(bounds@ =~= seq![0i64, 1, 2, 5, 20, 100]);
    let mut k: usize = 0;
    while k < 6
        invariant
            0 <= k <= 6,
            total_bet > 0,
            100 * total_bet <= i64::MAX,
            bounds@ == seq![0i64, 1, 2, 5, 20, 100],
            band_from(credits as int, total_bet as int, 0) == band_from(credits as int, total_bet as int, k as int),
        decreases 6 - k,
    {
        let bound = bounds[k];
        assert(bound == band_bounds()[k as int]);
        assert(0 <= bound <= 100);
        assert(bound * total_bet <= 100 * total_bet) by (nonlinear_arith)
            requires
                0 <= bound <= 100,
                total_bet > 0,
        ;
        assert(bound * total_bet >= 0) by (nonlinear_arith)
            requires
                0 <= bound,
                total_bet > 0,
        ;
        if credits <= bound * total_bet {
            return k;
        }
        k = k + 1;
    }
    6
}

/// Rounds counted by the band their return fell in.
#[derive(Debug)]
pub struct BandCounts {
    pub rounds: u64,
    pub bands: Vec<u64>,
}

impl BandCounts {
    pub fn new() -> (counts: BandCounts)
        ensures
            counts.rounds == 0,
            counts.bands@ == seq![0u64, 0, 0, 0, 0, 0, 0],
    {
        let counts = BandCounts { rounds: 0, bands: vec![0, 0, 0, 0, 0, 0, 0] };
        assert(counts.bands@ =~= seq![0u64, 0, 0, 0, 0, 0, 0]);
        counts
    }

    /// Count one round. A round with no stake has no return and counts
    /// nowhere.
    pub fn record(&mut self, credits: i64, total_bet: i64)
        requires
            old(self).bands@.len() == BAND_COUNT,
            old(self).rounds < u64::MAX,
            forall|i: int| 0 <= i < BAND_COUNT ==> #[trigger] old(self).bands@[i] < u64::MAX,
            100 * total_bet <= i64::MAX,
        ensures
            if total_bet <= 0 {
                *final(self) == *old(self)
            } else {
                let band = spec_band_of(credits as int, total_bet as int);
                &&& final(self).rounds == old(self).rounds + 1
                &&& final(self).bands@ == old(self).bands@.update(band, (old(self).bands@[band] + 1) as u64)
            },
    {
        if total_bet <= 0 {
            return;
        }
        let band = band_of(credits, total_bet);
        self.rounds = self.rounds + 1;
        let count = self.bands[band];
        self.bands.set(band, count + 1);
    }
}

} // verus!
