//! Feature configuration: one type per system, all of it data.

use vstd::prelude::*;

verus! {

/// The Vault Pick board.
#[derive(Debug)]
pub struct BonusConfig {
    pub board_size: usize,
    /// How many empty chests end the round.
    pub blanks: usize,
    /// Prize pool, in permille of the hatch base. Drawn with replacement.
    pub prizes_permille: Vec<i64>,
}

/// The Dragon's Wrath hold-and-spin round.
#[derive(Debug)]
pub struct HoldSpinConfig {
    /// Eggs on one grid that wake the dragon.
    pub trigger_eggs: usize,
    /// Respins granted, and restored in full by every coin that lands.
    pub respins: usize,
    /// Per-cell chance a coin lands on a respin, in permille.
    pub coin_chance_permille: usize,
    pub coin_values: Vec<CoinValue>,
    /// Paid on top when every cell fills.
    pub full_board_multiple: i64,
}

/// One rung of the coin table: a payout in multiples of total bet, and how
/// often it is drawn relative to the others.
#[derive(Debug)]
pub struct CoinValue {
    pub multiple: i64,
    pub weight: u32,
}

/// The Seam: the mini-game a board taken over by one treasure opens.
#[derive(Debug)]
pub struct SeamConfig {
    /// Cells of one paying symbol on the resting grid that open a seam.
    pub trigger_count: usize,
    /// Beats the seam works itself out over.
    pub steps: usize,
    /// Most a single seam may pay, in multiples of total bet.
    pub max_multiple: i64,
    /// The rites, drawn by weight when a seam opens.
    pub rites: Vec<RiteDef>,
}

/// One thing a seam can do, and how often it is the thing that happens.
#[derive(Debug)]
pub struct RiteDef {
    pub id: String,
    /// What the banner calls it while it runs.
    pub name: String,
    pub weight: u32,
    pub kind: RiteKind,
}

/// What a rite does to the board on each of its beats.
#[derive(Debug, Clone, Copy, PartialEq, Eq, Structural)]
pub enum RiteKind {
    /// Each cell touching the seam converts with this chance, in permille.
    Widen { spread_permille: usize },
    /// Every cell of the seam climbs this many rungs of the pay ladder.
    Enrich { rungs: usize },
}

/// Cascading reels. Absent on a cabinet whose reels do not cascade.
#[derive(Debug)]
pub struct CascadeConfig {
    /// Multiplier per step of the chain. The last value repeats.
    pub multipliers: Vec<i64>,
    /// Hard cap on chain length.
    pub max_steps: usize,
}

impl CascadeConfig {
    /// The multiplier at a step, holding the top of the ladder once reached,
    /// and never below 1.
    pub open spec fn spec_multiplier_at(&self, step: int) -> i64 {
        let ladder = self.multipliers@;
        let raw: i64 = if 0 <= step < ladder.len() {
            ladder[step]
        } else if ladder.len() > 0 {
            ladder.last()
        } else {
            1
        };
        if raw >= 1 {
            raw
        } else {
            1
        }
    }

    pub fn multiplier_at(&self, step: usize) -> (m: i64)
        ensures
            m == self.spec_multiplier_at(step as int),
            m >= 1,
    {
        let n = self.multipliers.len();
        let raw = if step < n {
            self.multipliers[step]
        } else if n > 0 {
            self.multipliers[n - 1]
        } else {
            1
        };
        if raw >= 1 {
            raw
        } else {
            1
        }
    }
}

/// The Dragon's Gamble.
#[derive(Debug)]
pub struct GambleConfig {
    /// How many doubles a single win may be pushed through.
    pub max_steps: usize,
    /// Highest stake that may be gambled, in multiples of total bet.
    pub ceiling_multiple: i64,
    pub allow_half: bool,
}

/// The Feature Buy menu.
#[derive(Debug)]
pub struct FeatureBuyConfig {
    /// The return a bought feature is priced to give back, in permille.
    pub target_rtp_permille: i64,
    pub tiers: Vec<FeatureBuyTier>,
}

#[derive(Debug)]
pub struct FeatureBuyTier {
    pub id: String,
    pub name: String,
    pub description: String,
    pub award: FeatureAward,
    /// Price in multiples of total bet.
    pub price_multiple: i64,
}

/// What a tier hands over once it is paid for.
#[derive(Debug, Clone, Copy, PartialEq, Eq, Structural)]
pub enum FeatureAward {
    FreeSpins { spins: u32 },
    Wrath { coins: usize },
}

} // verus!
