//! What a resolved spin did to a session, and the free-spin feature's
//! bookkeeping.

pub mod session;

use vstd::prelude::*;
use crate::data::{fits_i64, GameData};
use crate::engine::evaluate::SpinOutcome;
use crate::engine::reels::{count_in, Grid, GridView};
use crate::engine::SpinResult;

verus! {

/// Active free-spin feature. `line_bet` is frozen at the triggering bet.
#[derive(Debug, Clone, Copy, PartialEq, Eq, Structural)]
pub struct FreeSpinState {
    pub remaining: u32,
    pub awarded: u32,
    pub line_bet: i64,
    pub total_won: i64,
}

/// A progressive that landed on a spin.
#[derive(Debug)]
pub struct JackpotWin {
    pub name: String,
    pub credits: i64,
}

/// What a single resolved spin did to the session.
#[derive(Debug)]
pub struct SpinResolution {
    pub result: SpinResult,
    pub was_free_spin: bool,
    /// Line and scatter credits, already multiplied.
    pub spin_credits: i64,
    /// Hatch prize paid this spin.
    pub hatch_credits: i64,
    /// A progressive that landed on this spin. Independent of the reels.
    pub jackpot: Option<JackpotWin>,
}

impl SpinResolution {
    pub open spec fn spec_jackpot_credits(&self) -> int {
        match self.jackpot {
            Some(win) => win.credits as int,
            None => 0,
        }
    }

    pub fn jackpot_credits(&self) -> (credits: i64)
        ensures
            credits == self.spec_jackpot_credits(),
    {
        match &self.jackpot {
            Some(win) => win.credits,
            None => 0,
        }
    }

    /// Everything the spin paid: reels, hatch and progressive.
    pub fn total_credits(&self) -> (credits: i64)
        requires
            fits_i64(self.spin_credits + self.hatch_credits),
            fits_i64(self.spin_credits + self.hatch_credits + self.spec_jackpot_credits()),
        ensures
            credits == self.spin_credits + self.hatch_credits + self.spec_jackpot_credits(),
    {
        self.spin_credits + self.hatch_credits + self.jackpot_credits()
    }

    pub fn outcome(&self) -> (outcome: &SpinOutcome)
        ensures
            outcome == &self.result.outcome,
    {
        &self.result.outcome
    }
}

/// Why a spin could not start.
#[derive(Debug, Clone, Copy, PartialEq, Eq, Structural)]
pub enum SpinBlocked {
    InsufficientBalance,
    /// The reels are still turning or paying out.
    Busy,
}

/// Why an unattended run stopped.
#[derive(Debug, Clone, Copy, PartialEq, Eq, Structural)]
pub enum AutospinStop {
    Cancelled,
    OutOfCredits,
    JackpotWon,
    FeatureTriggered,
    Hatched,
    BigWin,
    Completed,
}

/// Which of the player's session caps.
#[derive(Debug, Clone, Copy, PartialEq, Eq, Structural)]
pub enum Cap {
    Time,
    Loss,
    Spins,
}

/// Which way a gamble is called.
#[derive(Debug, Clone, Copy, PartialEq, Eq, Structural)]
pub enum Scale {
    Ember,
    Ash,
}

/// How one gamble flip came out.
#[derive(Debug, Clone, Copy, PartialEq, Eq, Structural)]
pub struct GambleFlip {
    pub won: bool,
}

/// A feature that was bought: what it was, and what it cost.
#[derive(Debug)]
pub struct BuyResult {
    pub tier_name: String,
    pub price: i64,
}

/// A way back in for a player who could not spin.
#[derive(Debug, Clone, Copy, PartialEq, Eq, Structural)]
pub enum Lifeline {
    /// The hoard broken open for its value, losing the eggs in it.
    BreakHoard { credits: i64, eggs: u32 },
    /// A stake advanced by the vault.
    VaultStake { credits: i64 },
}

/// Why a gamble was refused.
#[derive(Debug, Clone, Copy, PartialEq, Eq, Structural)]
pub enum GambleBlocked {
    NotOffered,
    LimitReached,
    CannotHalve,
}

/// Why a feature buy was refused.
#[derive(Debug, Clone, Copy, PartialEq, Eq, Structural)]
pub enum BuyBlocked {
    Busy,
    InsufficientBalance,
    FeatureActive,
    UnknownTier,
}

/// The feature after a spin's award, before a spent feature is retired: a
/// running feature banks the spin's credits and grows by the award; an idle
/// one starts when something was awarded.
pub open spec fn awarded_state(
    free_spins: Option<FreeSpinState>,
    awarded: u32,
    line_bet: i64,
    spin_credits: i64,
) -> Option<FreeSpinState> {
    match free_spins {
        Some(state) => Some(
            FreeSpinState {
                remaining: if awarded > 0 {
                    (state.remaining + awarded) as u32
                } else {
                    state.remaining
                },
                awarded: if awarded > 0 {
                    (state.awarded + awarded) as u32
                } else {
                    state.awarded
                },
                line_bet: state.line_bet,
                total_won: (state.total_won + spin_credits) as i64,
            },
        ),
        None => if awarded > 0 {
            Some(FreeSpinState { remaining: awarded, awarded, line_bet, total_won: 0 })
        } else {
            None
        },
    }
}

/// The award's arithmetic stays inside its types.
pub open spec fn award_fits(free_spins: Option<FreeSpinState>, awarded: u32, spin_credits: i64) -> bool {
    match free_spins {
        Some(state) => {
            &&& fits_i64(state.total_won + spin_credits)
            &&& awarded > 0 ==> state.remaining + awarded <= u32::MAX && state.awarded + awarded <= u32::MAX
        },
        None => true,
    }
}

/// Start or extend the feature, then retire it when it runs dry. Returns
/// whether this was a retrigger, and the finished feature if it just ended.
pub fn apply_free_spin_award(
    free_spins: &mut Option<FreeSpinState>,
    awarded: u32,
    line_bet: i64,
    spin_credits: i64,
) -> (r: (bool, Option<FreeSpinState>))
    requires
        award_fits(*old(free_spins), awarded, spin_credits),
    ensures
        r.0 == ((*old(free_spins)) is Some && awarded > 0),
        match awarded_state(*old(free_spins), awarded, line_bet, spin_credits) {
            Some(state) => if state.remaining == 0 {
                &&& *final(free_spins) == None::<FreeSpinState>
                &&& r.1 == Some(state)
            } else {
                &&& *final(free_spins) == Some(state)
                &&& r.1 == None::<FreeSpinState>
            },
            None => *final(free_spins) == None::<FreeSpinState> && r.1 == None::<FreeSpinState>,
        },
{
    let mut retriggered = false;
    let next = match *free_spins {
        Some(state) => {
            let mut state = state;
            state.total_won = state.total_won + spin_credits;
            if awarded > 0 {
                retriggered = true;
                state.remaining = state.remaining + awarded;
                state.awarded = state.awarded + awarded;
            }
            Some(state)
        },
        None => {
            if awarded > 0 {
                Some(FreeSpinState { remaining: awarded, awarded, line_bet, total_won: 0 })
            } else {
                None
            }
        },
    };
    match next {
        Some(state) => {
            if state.remaining == 0 {
                *free_spins = None;
                (retriggered, Some(state))
            } else {
                *free_spins = Some(state);
                (retriggered, None)
            }
        },
        None => {
            *free_spins = None;
            (retriggered, None)
        },
    }
}

/// Take one spin off a running feature: the line bet it was frozen at, with
/// a spin spent; `None`, and nothing changed, when no feature runs.
pub fn spend_free_spin(free_spins: &mut Option<FreeSpinState>) -> (line_bet: Option<i64>)
    ensures
        match *old(free_spins) {
            Some(state) => {
                &&& line_bet == Some(state.line_bet)
                &&& *final(free_spins) == Some(
                    FreeSpinState {
                        remaining: if state.remaining > 0 { (state.remaining - 1) as u32 } else { 0 },
                        ..state
                    },
                )
            },
            None => line_bet is None && *final(free_spins) == None::<FreeSpinState>,
        },
{
    match *free_spins {
        Some(state) => {
            let remaining = if state.remaining > 0 {
                state.remaining - 1
            } else {
                0
            };
            *free_spins = Some(FreeSpinState { remaining, ..state });
            Some(state.line_bet)
        },
        None => None,
    }
}

/// A card the game raises over the reels.
#[derive(Debug)]
pub enum CelebrationKind {
    FreeSpinsEntry { spins: u32, scatters: usize },
    FreeSpinsRetrigger { spins: u32 },
    FreeSpinsSummary { spins: u32, won: i64 },
    BigWin { credits: i64 },
    Hatch { credits: i64, eggs: u32 },
    Jackpot { name: String, credits: i64 },
}

/// Everything a settled spin produced that might deserve a card or halt an
/// unattended run.
#[derive(Debug)]
pub struct SpinHighlights {
    pub awarded: u32,
    pub retriggered: bool,
    pub scatters: usize,
    pub hatch_credits: i64,
    pub credited: i64,
    pub finished: Option<FreeSpinState>,
    pub jackpot: Option<JackpotWin>,
    pub was_free_spin: bool,
    /// The hoard filled and dealt a board; the run must stop for it.
    pub opened_bonus: bool,
}

/// A win of this many total bets or more is a big win; the multiple is at
/// least one.
pub open spec fn spec_big_win_threshold(data: GameData, line_bet: i64) -> int {
    data.spec_total_bet(line_bet) * (if data.config.big_win_multiple >= 1 {
        data.config.big_win_multiple
    } else {
        1
    })
}

pub fn big_win_threshold(data: &GameData, line_bet: i64) -> (threshold: i64)
    requires
        data.spec_bet_units() <= i64::MAX,
        fits_i64(data.spec_total_bet(line_bet)),
        fits_i64(spec_big_win_threshold(*data, line_bet)),
    ensures
        threshold == spec_big_win_threshold(*data, line_bet),
{
    let multiple = if data.config.big_win_multiple >= 1 {
        data.config.big_win_multiple
    } else {
        1
    };
    data.total_bet(line_bet) * multiple
}

/// The celebration a spin's money earns: a jackpot outranks a big-win card,
/// and a spin that hatched raises its own card instead.
pub open spec fn money_card(h: SpinHighlights, threshold: i64) -> Option<CelebrationKind> {
    match h.jackpot {
        Some(win) => Some(CelebrationKind::Jackpot { name: win.name, credits: win.credits }),
        None => if h.hatch_credits == 0 && h.credited >= threshold {
            Some(CelebrationKind::BigWin { credits: h.credited })
        } else {
            None
        },
    }
}

/// The cards a spin earned, in the order the player should read them: the
/// feature ending, then the feature starting, then the money.
pub open spec fn cards_for(h: SpinHighlights, threshold: i64) -> Seq<CelebrationKind> {
    let ending: Seq<CelebrationKind> = match h.finished {
        Some(feature) => seq![CelebrationKind::FreeSpinsSummary { spins: feature.awarded, won: feature.total_won }],
        None => Seq::empty(),
    };
    let starting: Seq<CelebrationKind> = if h.awarded > 0 {
        if h.retriggered {
            seq![CelebrationKind::FreeSpinsRetrigger { spins: h.awarded }]
        } else {
            seq![CelebrationKind::FreeSpinsEntry { spins: h.awarded, scatters: h.scatters }]
        }
    } else {
        Seq::empty()
    };
    let money: Seq<CelebrationKind> = match money_card(h, threshold) {
        Some(card) => seq![card],
        None => Seq::empty(),
    };
    ending + starting + money
}

/// Raise the cards this spin earned, in reading order, with the biggest
/// prize last as the climax.
pub fn celebrations_for(h: &SpinHighlights, threshold: i64) -> (cards: Vec<CelebrationKind>)
    ensures
        cards@ == cards_for(*h, threshold),
{
    let mut cards: Vec<CelebrationKind> = Vec::new();
    match h.finished {
        Some(feature) => {
            cards.push(CelebrationKind::FreeSpinsSummary { spins: feature.awarded, won: feature.total_won });
        },
        None => {},
    }
    if h.awarded > 0 {
        if h.retriggered {
            cards.push(CelebrationKind::FreeSpinsRetrigger { spins: h.awarded });
        } else {
            cards.push(CelebrationKind::FreeSpinsEntry { spins: h.awarded, scatters: h.scatters });
        }
    }
    match &h.jackpot {
        Some(win) => {
            cards.push(CelebrationKind::Jackpot { name: win.name.clone(), credits: win.credits });
        },
        None => {
            if h.hatch_credits == 0 && h.credited >= threshold {
                cards.push(CelebrationKind::BigWin { credits: h.credited });
            }
        },
    }
    assert(cards@ =~= cards_for(*h, threshold));
    cards
}

/// Why an unattended run must stop after this spin, if it must: it never
/// skates past a progressive, a feature, a dealt board or a big win.
pub open spec fn autospin_stop_reason(h: SpinHighlights, threshold: i64) -> Option<AutospinStop> {
    if h.jackpot is Some {
        Some(AutospinStop::JackpotWon)
    } else if h.awarded > 0 {
        Some(AutospinStop::FeatureTriggered)
    } else if h.opened_bonus {
        Some(AutospinStop::Hatched)
    } else if h.credited >= threshold {
        Some(AutospinStop::BigWin)
    } else {
        None
    }
}

pub fn autospin_stop(h: &SpinHighlights, threshold: i64) -> (reason: Option<AutospinStop>)
    ensures
        reason == autospin_stop_reason(*h, threshold),
{
    if h.jackpot.is_some() {
        Some(AutospinStop::JackpotWon)
    } else if h.awarded > 0 {
        Some(AutospinStop::FeatureTriggered)
    } else if h.opened_bonus {
        Some(AutospinStop::Hatched)
    } else if h.credited >= threshold {
        Some(AutospinStop::BigWin)
    } else {
        None
    }
}

/// The bet step a press moves to, clamped to the ladder; `None` when the
/// press changes nothing or the bet is locked.
pub open spec fn stepped_bet(index: usize, delta: i32, steps: usize, locked: bool) -> Option<usize> {
    let want: int = index + delta;
    let next: int = if want < 0 { 0 } else if want > steps - 1 { steps - 1 } else { want };
    if locked || next == index {
        None
    } else {
        Some(next as usize)
    }
}

/// Step the bet by `delta` places along a ladder of `steps` bets.
pub fn step_bet(index: usize, delta: i32, steps: usize, locked: bool) -> (next: Option<usize>)
    requires
        steps > 0,
        index < steps,
        steps <= i32::MAX,
        i32::MIN <= index + delta <= i32::MAX,
    ensures
        next == stepped_bet(index, delta, steps, locked),
        next matches Some(n) ==> n < steps,
{
    if locked {
        return None;
    }
    let last = (steps - 1) as i64;
    let want = index as i64 + delta as i64;
    let next: i64 = if want < 0 {
        0
    } else if want > last {
        last
    } else {
        want
    };
    if next == index as i64 {
        None
    } else {
        Some(next as usize)
    }
}

/// Go straight to the top bet; `None` when already there or locked.
pub fn top_bet(index: usize, steps: usize, locked: bool) -> (next: Option<usize>)
    requires
        steps > 0,
    ensures
        next == (if locked || index == steps - 1 {
            None
        } else {
            Some((steps - 1) as usize)
        }),
{
    let last = steps - 1;
    if locked || index == last {
        None
    } else {
        Some(last)
    }
}

/// Scatters on reel `reel` of a grid.
pub open spec fn scatters_on_reel(g: GridView, scatter: usize, reel: int) -> nat {
    count_in(Seq::new(g.rows_on(reel) as nat, |row: int| g.at(reel, row)), scatter)
}

/// Scatters landing on each reel of a decided grid, for anticipation; none
/// anywhere when the cabinet has no scatter.
pub fn scatters_per_reel(data: &GameData, grid: &Grid) -> (counts: Vec<usize>)
    requires
        grid.inv(),
    ensures
        counts@.len() == grid@.reel_count(),
        forall|r: int|
            0 <= r < counts@.len() ==> #[trigger] counts@[r] == match data.symbols@.scatter {
                Some(s) => scatters_on_reel(grid@, s, r),
                None => 0,
            },
{
    let reels = grid.reel_count();
    let mut counts: Vec<usize> = Vec::new();
    let mut reel: usize = 0;
    while reel < reels
        invariant
            grid.inv(),
            reels == grid@.reel_count(),
            0 <= reel <= reels,
            counts@.len() == reel,
            forall|r: int|
                0 <= r < reel ==> #[trigger] counts@[r] == match data.symbols@.scatter {
                    Some(s) => scatters_on_reel(grid@, s, r),
                    None => 0,
                },
        decreases reels - reel,
    {
        let count = match data.symbols.scatter() {
            None => 0,
            Some(scatter) => {
                let rows = grid.rows_on(reel);
                let ghost column = Seq::new(rows as nat, |row: int| grid@.at(reel as int, row));
                let mut n: usize = 0;
                let mut row: usize = 0;
                proof {
                    grid.lemma_wf();
                }
                while row < rows
                    invariant
                        grid.inv(),
                        grid@.wf(),
                        reel < grid@.reel_count(),
                        rows == grid@.rows_on(reel as int),
                        column == Seq::new(rows as nat, |row: int| grid@.at(reel as int, row)),
                        0 <= row <= rows,
                        n == count_in(column.subrange(0, row as int), scatter),
                        n <= row,
                    decreases rows - row,
                {
                    proof {
                        crate::engine::reels::lemma_index_in_bounds(grid@, reel as int, row as int);
                        assert(column.subrange(0, row + 1).drop_last() == column.subrange(0, row as int));
                    }
                    if grid.at(reel, row) == scatter {
                        n = n + 1;
                    }
                    row = row + 1;
                }
                assert(column.subrange(0, row as int) == column);
                n
            },
        };
        counts.push(count);
        reel = reel + 1;
    }
    counts
}

} // verus!
