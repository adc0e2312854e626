//! One player's session at one cabinet: the balance, the bet, the free-spin
//! feature, the cards waiting to be shown and an unattended run, and the
//! gameplay intents that change them. A spin is staked and decided when it
//! starts and credited when it settles; the reels turning in between belong
//! to the player's screen.

use vstd::prelude::*;
use crate::actions::{ActionOutcome, UiAction};
use crate::data::{fits_i64, GameData};
use crate::engine::{spin, spins_to, spin_ready, SpinMode, SpinResult};
use crate::data::features::FeatureAward;
use crate::state::{BuyBlocked, BuyResult, GambleBlocked};
use crate::state::{
    apply_free_spin_award, autospin_stop, autospin_stop_reason, award_fits, awarded_state, big_win_threshold,
    cards_for, celebrations_for, spec_big_win_threshold, stepped_bet, step_bet, top_bet, AutospinStop,
    CelebrationKind, FreeSpinState, JackpotWin, SpinBlocked, SpinHighlights, SpinResolution,
};

verus! {

/// Running totals of a session.
#[derive(Debug, Clone, Copy, PartialEq, Eq, Structural)]
pub struct SessionStats {
    pub total_spins: u64,
    pub total_wagered: i64,
    pub total_won: i64,
    pub biggest_win: i64,
    pub free_spins_played: u64,
    pub jackpots: u64,
}

/// A spin that has been paid for and decided but not yet credited. The
/// stake is already gone and the outcome already fixed.
#[derive(Debug)]
pub struct PendingSpin {
    pub result: SpinResult,
    pub was_free_spin: bool,
    pub line_bet: i64,
}

/// The draws one spin needs: a stop per strip it turns, and a height draw
/// per reel on a cabinet whose reels change height.
#[derive(Debug)]
pub struct SpinDraws {
    pub stops: Vec<usize>,
    pub heights: Vec<usize>,
}

#[derive(Debug)]
pub struct GameSession {
    pub balance: i64,
    pub line_bet_index: usize,
    pub last_win: i64,
    pub free_spins: Option<FreeSpinState>,
    pub stats: SessionStats,
    /// Full-screen cards waiting to be shown, first one showing. They hold
    /// the game while any is up.
    pub celebrations: Vec<CelebrationKind>,
    /// Spins left in an unattended run, when one is going.
    pub autospin: Option<u32>,
    /// The run length the player picked, as an index into the cabinet's
    /// autospin choices. It belongs to the player rather than to the round:
    /// it starts at the cabinet's default and only the player moves it.
    pub autospin_choice: usize,
    /// Where each reel came to rest on the last settled spin.
    pub reel_stops: Vec<usize>,
    pub pending: Option<PendingSpin>,
}

/// The line bet at a ladder index; the first rung for an index past the end.
pub open spec fn spec_line_bet(data: GameData, index: usize) -> i64 {
    if index < data.config.line_bets@.len() {
        data.config.line_bets@[index as int]
    } else {
        data.config.line_bets@[0]
    }
}

/// The run length an unattended run starts with: the choice the player
/// picked, or none when it names no choice.
pub open spec fn chosen_autospin(data: GameData, choice: usize) -> u32 {
    if choice < data.config.autospin_choices@.len() {
        data.config.autospin_choices@[choice as int]
    } else {
        0
    }
}

/// The next run length along the cabinet's choices, wrapping to the first.
pub open spec fn next_autospin_choice(data: GameData, choice: usize) -> usize {
    if choice + 1 < data.config.autospin_choices@.len() {
        (choice + 1) as usize
    } else {
        0
    }
}

/// The intents the session answers itself.
pub open spec fn is_gameplay(action: UiAction) -> bool {
    ||| action is Spin
    ||| action is BetUp
    ||| action is BetDown
    ||| action is MaxBet
    ||| action is ToggleAutospin
    ||| action is DismissCelebration
    ||| action is BuyFeature
    ||| action is PickBonus
    ||| action is OfferGamble
    ||| action is Gamble
    ||| action is GambleHalf
    ||| action is TakeGamble
    ||| action is ChooseFreeSpinShape
    ||| action is ChooseRite
    ||| action is TakeLifeline
}

/// What a feature-buy tier costs at a total bet: its price multiple of it.
pub open spec fn tier_price(data: GameData, index: int, stake: int) -> int {
    data.featurebuy.tiers@[index].price_multiple * stake
}

impl GameSession {
    /// The bet ladder is usable and every rung's stake fits.
    pub open spec fn inv(&self, data: GameData) -> bool {
        &&& data.config.line_bets@.len() > 0
        &&& data.config.line_bets@.len() <= i32::MAX
        &&& self.line_bet_index < data.config.line_bets@.len()
        &&& data.spec_bet_units() <= i64::MAX
        &&& forall|i: int|
            0 <= i < data.config.line_bets@.len() ==> 0 <= #[trigger] data.config.line_bets@[i] && fits_i64(
                data.spec_total_bet(data.config.line_bets@[i]),
            )
    }

    /// Nothing in flight: no spin waiting to be credited, no card showing.
    pub open spec fn settled(&self) -> bool {
        self.pending is None && self.celebrations@.len() == 0
    }

    /// The bet is locked while the feature runs, while a spin is in flight
    /// (the stake is already committed) and during an unattended run (it was
    /// started at a bet the player chose).
    pub open spec fn locked(&self) -> bool {
        self.free_spins is Some || self.pending is Some || self.autospin is Some
    }

    /// The total bet a paid spin stakes.
    pub open spec fn stake(&self, data: GameData) -> int {
        data.spec_total_bet(spec_line_bet(data, self.line_bet_index))
    }

    /// The line bet the next spin plays: the feature's frozen bet during free
    /// spins, the chosen rung otherwise.
    pub open spec fn next_line_bet(&self, data: GameData) -> i64 {
        match self.free_spins {
            Some(state) => state.line_bet,
            None => spec_line_bet(data, self.line_bet_index),
        }
    }

    /// The strips the next spin turns: the base strips, or the feature's,
    /// refined once for every free spin already played.
    pub open spec fn next_mode(&self) -> SpinMode {
        match self.free_spins {
            Some(state) => SpinMode::FreeSpin {
                burned: if state.awarded >= state.remaining {
                    (state.awarded - state.remaining) as usize
                } else {
                    0
                },
                multiplier: 0,
            },
            None => SpinMode::Base,
        }
    }

    /// A spin may start, and would be staked.
    pub open spec fn would_spin(&self, data: GameData) -> bool {
        self.settled() && (self.free_spins is Some || self.balance >= self.stake(data))
    }

    /// What a spin press needs: the draws fit the spin, and the counters the
    /// stake moves stay inside their types.
    pub open spec fn spin_fits(&self, data: GameData, draws: SpinDraws) -> bool {
        self.would_spin(data) ==> {
            &&& spin_ready(data, draws.stops@, draws.heights@, self.next_line_bet(data), self.next_mode())
            &&& self.free_spins is Some ==> self.stats.free_spins_played < u64::MAX
            &&& self.free_spins is None ==> fits_i64(self.stats.total_wagered + self.stake(data))
        }
    }

    /// A fresh session: the cabinet's starting balance at its default bet,
    /// clamped onto the ladder, with nothing running and nothing owed.
    pub fn new(data: &GameData) -> (s: GameSession)
        requires
            data.config.line_bets@.len() > 0,
        ensures
            s.balance == data.config.starting_balance,
            s.line_bet_index == (if data.config.default_line_bet_index < data.config.line_bets@.len() - 1 {
                data.config.default_line_bet_index
            } else {
                (data.config.line_bets@.len() - 1) as usize
            }),
            s.last_win == 0,
            s.free_spins is None,
            s.stats == (SessionStats {
                total_spins: 0,
                total_wagered: 0,
                total_won: 0,
                biggest_win: 0,
                free_spins_played: 0,
                jackpots: 0,
            }),
            s.celebrations@.len() == 0,
            s.autospin is None,
            s.reel_stops@ == Seq::new(data.reels@.len(), |i: int| 0usize),
            s.autospin_choice == data.config.default_autospin_choice,
            s.pending is None,
    {
        let last = data.config.line_bets.len() - 1;
        let index = if data.config.default_line_bet_index < last {
            data.config.default_line_bet_index
        } else {
            last
        };
        let mut reel_stops: Vec<usize> = Vec::new();
        let mut i: usize = 0;
        while i < data.reels.len()
            invariant
                i <= data.reels@.len(),
                reel_stops@ == Seq::new(i as nat, |k: int| 0usize),
            decreases data.reels@.len() - i,
        {
            reel_stops.push(0);
            i = i + 1;
            assert(reel_stops@ =~= Seq::new(i as nat, |k: int| 0usize));
        }
        GameSession {
            balance: data.config.starting_balance,
            line_bet_index: index,
            last_win: 0,
            free_spins: None,
            stats: SessionStats {
                total_spins: 0,
                total_wagered: 0,
                total_won: 0,
                biggest_win: 0,
                free_spins_played: 0,
                jackpots: 0,
            },
            celebrations: Vec::new(),
            autospin: None,
            reel_stops,
            autospin_choice: data.config.default_autospin_choice,
            pending: None,
        }
    }

    /// Step the player's run length to the next of the cabinet's choices.
    pub fn cycle_autospin(&mut self, data: &GameData)
        ensures
            *final(self) == (GameSession {
                autospin_choice: next_autospin_choice(*data, old(self).autospin_choice),
                ..*old(self)
            }),
    {
        let len = data.config.autospin_choices.len();
        if len > 0 && self.autospin_choice < len - 1 {
            self.autospin_choice = self.autospin_choice + 1;
        } else {
            self.autospin_choice = 0;
        }
    }

    /// What buying tier `index` needs: its price, and the balance and total
    /// wagered it moves, stay inside `i64`.
    pub open spec fn buy_fits(&self, data: GameData, index: usize) -> bool {
        index < data.featurebuy.tiers@.len() ==> {
            let price = tier_price(data, index as int, self.stake(data));
            &&& fits_i64(price)
            &&& fits_i64(self.balance - price)
            &&& fits_i64(self.stats.total_wagered + price)
        }
    }

    pub fn line_bet(&self, data: &GameData) -> (bet: i64)
        requires
            self.inv(*data),
        ensures
            bet == spec_line_bet(*data, self.line_bet_index),
    {
        data.line_bet(self.line_bet_index)
    }

    pub fn total_bet(&self, data: &GameData) -> (bet: i64)
        requires
            self.inv(*data),
        ensures
            bet == self.stake(*data),
    {
        let line_bet = self.line_bet(data);
        data.total_bet(line_bet)
    }

    pub fn in_free_spins(&self) -> (running: bool)
        ensures
            running == (self.free_spins is Some),
    {
        self.free_spins.is_some()
    }

    pub fn is_settled(&self) -> (settled: bool)
        ensures
            settled == self.settled(),
    {
        self.pending.is_none() && self.celebrations.len() == 0
    }

    pub fn bet_locked(&self) -> (locked: bool)
        ensures
            locked == self.locked(),
    {
        self.free_spins.is_some() || self.pending.is_some() || self.autospin.is_some()
    }

    /// Whether a spin press would start a spin now.
    pub fn can_spin(&self, data: &GameData) -> (can: bool)
        requires
            self.inv(*data),
        ensures
            can == self.would_spin(*data),
    {
        if !self.is_settled() {
            return false;
        }
        self.in_free_spins() || self.balance >= self.total_bet(data)
    }

    pub fn autospin_remaining(&self) -> (spins: u32)
        ensures
            spins == match self.autospin {
                Some(n) => n,
                None => 0,
            },
    {
        match self.autospin {
            Some(n) => n,
            None => 0,
        }
    }

    /// Begin an unattended run. Refused for a run of nothing, over a run
    /// already going, and mid-spin, so the counter cannot be started against
    /// a stake that is already committed.
    pub fn start_autospin(&mut self, spins: u32) -> (started: bool)
        ensures
            started == (spins > 0 && (old(self).autospin is None) && old(self).settled()),
            *final(self) == (if started {
                (GameSession { autospin: Some(spins), ..*old(self) })
            } else {
                *old(self)
            }),
    {
        if spins == 0 || self.autospin.is_some() || !self.is_settled() {
            return false;
        }
        self.autospin = Some(spins);
        true
    }

    /// End an unattended run for `reason`; `None` when none was going.
    pub fn stop_autospin(&mut self, reason: AutospinStop) -> (stopped: Option<AutospinStop>)
        ensures
            stopped == (if (old(self).autospin is Some) {
                Some(reason)
            } else {
                None
            }),
            *final(self) == (GameSession { autospin: None, ..*old(self) }),
    {
        let was = self.autospin.is_some();
        self.autospin = None;
        if was {
            Some(reason)
        } else {
            None
        }
    }

    /// Step the bet by `delta` rungs, clamped to the ladder. Refused while
    /// the bet is locked, and a press that lands where it started changes
    /// nothing.
    pub fn adjust_bet(&mut self, data: &GameData, delta: i32) -> (changed: bool)
        requires
            old(self).inv(*data),
            i32::MIN <= old(self).line_bet_index + delta <= i32::MAX,
        ensures
            match stepped_bet(
                old(self).line_bet_index,
                delta,
                data.config.line_bets@.len() as usize,
                old(self).locked(),
            ) {
                Some(next) => changed && *final(self) == (GameSession { line_bet_index: next, ..*old(self) }),
                None => !changed && *final(self) == *old(self),
            },
            final(self).inv(*data),
    {
        let locked = self.bet_locked();
        match step_bet(self.line_bet_index, delta, data.config.line_bets.len(), locked) {
            Some(next) => {
                self.line_bet_index = next;
                true
            },
            None => false,
        }
    }

    /// Go straight to the top rung. Refused while the bet is locked or when
    /// already there.
    pub fn set_max_bet(&mut self, data: &GameData) -> (changed: bool)
        requires
            old(self).inv(*data),
        ensures
            changed == (!old(self).locked() && old(self).line_bet_index != data.config.line_bets@.len() - 1),
            *final(self) == (if changed {
                (GameSession { line_bet_index: (data.config.line_bets@.len() - 1) as usize, ..*old(self) })
            } else {
                *old(self)
            }),
            final(self).inv(*data),
    {
        let locked = self.bet_locked();
        match top_bet(self.line_bet_index, data.config.line_bets.len(), locked) {
            Some(next) => {
                self.line_bet_index = next;
                true
            },
            None => false,
        }
    }
}

/// What a spin press does. Mid-spin, or with a card up, it is refused as
/// busy and nothing changes. A free spin spends a spin of the feature at its
/// frozen bet and costs nothing; a paid spin is refused when the balance does
/// not cover the total bet, and otherwise takes the stake off the balance and
/// adds it to what was wagered. Either way the spin is decided from the
/// draws and waits to be credited.
pub open spec fn spin_step(
    data: GameData,
    old: GameSession,
    stops: Seq<usize>,
    heights: Seq<usize>,
    new: GameSession,
    outcome: ActionOutcome,
) -> bool {
    if !old.settled() {
        outcome == ActionOutcome::SpinBlocked(SpinBlocked::Busy) && new == old
    } else {
        match old.free_spins {
            Some(state) => {
                &&& outcome == ActionOutcome::SpinStarted
                &&& new.pending matches Some(p) && p.was_free_spin && p.line_bet == state.line_bet && spins_to(
                    data,
                    stops,
                    heights,
                    state.line_bet,
                    old.next_mode(),
                    p.result,
                )
                &&& new == GameSession {
                    free_spins: Some(
                        FreeSpinState {
                            remaining: if state.remaining > 0 { (state.remaining - 1) as u32 } else { 0 },
                            ..state
                        },
                    ),
                    stats: SessionStats { free_spins_played: (old.stats.free_spins_played + 1) as u64, ..old.stats },
                    pending: new.pending,
                    ..old
                }
            },
            None => if old.balance < old.stake(data) {
                outcome == ActionOutcome::SpinBlocked(SpinBlocked::InsufficientBalance) && new == old
            } else {
                let line_bet = spec_line_bet(data, old.line_bet_index);
                &&& outcome == ActionOutcome::SpinStarted
                &&& new.pending matches Some(p) && !p.was_free_spin && p.line_bet == line_bet && spins_to(
                    data,
                    stops,
                    heights,
                    line_bet,
                    SpinMode::Base,
                    p.result,
                )
                &&& new == GameSession {
                    balance: (old.balance - old.stake(data)) as i64,
                    stats: SessionStats {
                        total_wagered: (old.stats.total_wagered + old.stake(data)) as i64,
                        ..old.stats
                    },
                    pending: new.pending,
                    ..old
                }
            },
        }
    }
}

/// What a bet press does: the new rung and its line bet when it moved,
/// nothing otherwise.
pub open spec fn bet_step(data: GameData, old: GameSession, next: Option<usize>, new: GameSession, outcome: ActionOutcome) -> bool {
    match next {
        Some(index) => {
            &&& new == GameSession { line_bet_index: index, ..old }
            &&& outcome == ActionOutcome::BetChanged(spec_line_bet(data, index))
        },
        None => new == old && outcome == ActionOutcome::Ignored,
    }
}

/// The autospin button's two jobs: stop a running run, or start a fresh one
/// of the default length. Free spins drive themselves, so no run is layered
/// on top of them.
pub open spec fn autospin_step(data: GameData, old: GameSession, new: GameSession, outcome: ActionOutcome) -> bool {
    if old.autospin is Some {
        &&& new == GameSession { autospin: None, ..old }
        &&& outcome == ActionOutcome::AutospinStopped(AutospinStop::Cancelled)
    } else if old.free_spins is Some || chosen_autospin(data, old.autospin_choice) == 0 || !old.settled() {
        new == old && outcome == ActionOutcome::Ignored
    } else {
        &&& new == GameSession { autospin: Some(chosen_autospin(data, old.autospin_choice)), ..old }
        &&& outcome == ActionOutcome::AutospinStarted(chosen_autospin(data, old.autospin_choice))
    }
}

/// Skipping the card that is showing, when one is.
pub open spec fn dismiss_step(old: GameSession, new: GameSession, outcome: ActionOutcome) -> bool {
    if old.celebrations@.len() > 0 {
        &&& new.celebrations@ == old.celebrations@.drop_first()
        &&& new == GameSession { celebrations: new.celebrations, ..old }
        &&& outcome == ActionOutcome::CelebrationDismissed
    } else {
        new == old && outcome == ActionOutcome::Ignored
    }
}

/// What buying tier `index` does. Refused mid-spin or with a card up, for a
/// tier the menu does not hold, while the feature already runs, and when the
/// balance does not cover the price. Otherwise the price (the tier's
/// multiple of the total bet) leaves the balance as a stake and the feature
/// starts at the current line bet. The session holds no Dragon's Wrath
/// round, so a tier that hands one over is not on its menu.
pub open spec fn buy_step(data: GameData, old: GameSession, index: usize, new: GameSession, outcome: ActionOutcome) -> bool {
    let tiers = data.featurebuy.tiers@;
    if !old.settled() {
        outcome == ActionOutcome::FeatureBuyRefused(BuyBlocked::Busy) && new == old
    } else if index >= tiers.len() || tiers[index as int].award is Wrath {
        outcome == ActionOutcome::FeatureBuyRefused(BuyBlocked::UnknownTier) && new == old
    } else if old.free_spins is Some {
        outcome == ActionOutcome::FeatureBuyRefused(BuyBlocked::FeatureActive) && new == old
    } else {
        let price = tier_price(data, index as int, old.stake(data));
        let spins = tiers[index as int].award->FreeSpins_spins;
        if old.balance < price {
            outcome == ActionOutcome::FeatureBuyRefused(BuyBlocked::InsufficientBalance) && new == old
        } else {
            &&& outcome == ActionOutcome::FeatureBought(BuyResult { tier_name: tiers[index as int].name, price: price as i64 })
            &&& new == GameSession {
                balance: (old.balance - price) as i64,
                stats: SessionStats { total_wagered: (old.stats.total_wagered + price) as i64, ..old.stats },
                free_spins: Some(
                    FreeSpinState {
                        remaining: spins,
                        awarded: spins,
                        line_bet: spec_line_bet(data, old.line_bet_index),
                        total_won: 0,
                    },
                ),
                ..old
            }
        }
    }
}

/// What one gameplay intent does to the session, and what it answers.
pub open spec fn gameplay_step(
    data: GameData,
    old: GameSession,
    action: UiAction,
    stops: Seq<usize>,
    heights: Seq<usize>,
    new: GameSession,
    outcome: ActionOutcome,
) -> bool {
    let steps = data.config.line_bets@.len() as usize;
    match action {
        UiAction::Spin => spin_step(data, old, stops, heights, new, outcome),
        UiAction::BetUp => bet_step(data, old, stepped_bet(old.line_bet_index, 1i32, steps, old.locked()), new, outcome),
        UiAction::BetDown => bet_step(data, old, stepped_bet(old.line_bet_index, -1i32, steps, old.locked()), new, outcome),
        UiAction::MaxBet => bet_step(
            data,
            old,
            if old.locked() || old.line_bet_index == steps - 1 {
                None
            } else {
                Some((steps - 1) as usize)
            },
            new,
            outcome,
        ),
        UiAction::ToggleAutospin => autospin_step(data, old, new, outcome),
        UiAction::DismissCelebration => dismiss_step(old, new, outcome),
        UiAction::BuyFeature(index) => buy_step(data, old, index, new, outcome),
        // No Vault Pick board is open on this session, so a pick turns
        // nothing over and the round, such as it is, continues.
        UiAction::PickBonus(..) => new == old && outcome == ActionOutcome::BonusPicked,
        // No gamble is open on this session: every gamble intent is refused
        // as one that was never offered.
        UiAction::OfferGamble => new == old && outcome == ActionOutcome::GambleRefused(GambleBlocked::NotOffered),
        UiAction::Gamble(..) => new == old && outcome == ActionOutcome::GambleRefused(GambleBlocked::NotOffered),
        UiAction::GambleHalf(..) => new == old && outcome == ActionOutcome::GambleRefused(GambleBlocked::NotOffered),
        UiAction::TakeGamble => new == old && outcome == ActionOutcome::GambleRefused(GambleBlocked::NotOffered),
        // No shape choice, rite or way back in is on offer: nothing changes.
        UiAction::ChooseFreeSpinShape(..) => new == old && outcome == ActionOutcome::Ignored,
        UiAction::ChooseRite(..) => new == old && outcome == ActionOutcome::Ignored,
        UiAction::TakeLifeline => new == old && outcome == ActionOutcome::Ignored,
        _ => false,
    }
}

/// Take the stake and decide the outcome. Nothing is credited here.
fn begin_spin(data: &GameData, session: &mut GameSession, draws: &SpinDraws) -> (outcome: ActionOutcome)
    requires
        old(session).inv(*data),
        old(session).spin_fits(*data, *draws),
    ensures
        spin_step(*data, *old(session), draws.stops@, draws.heights@, *final(session), outcome),
        final(session).inv(*data),
{
    if !session.is_settled() {
        return ActionOutcome::SpinBlocked(SpinBlocked::Busy);
    }
    match session.free_spins {
        Some(state) => {
            let burned = if state.awarded >= state.remaining {
                (state.awarded - state.remaining) as usize
            } else {
                0
            };
            let mode = SpinMode::FreeSpin { burned, multiplier: 0 };
            let result = spin(data, draws.stops.as_slice(), draws.heights.as_slice(), state.line_bet, mode);
            let remaining = if state.remaining > 0 {
                state.remaining - 1
            } else {
                0
            };
            session.free_spins = Some(FreeSpinState { remaining, ..state });
            session.stats.free_spins_played = session.stats.free_spins_played + 1;
            session.pending = Some(PendingSpin { result, was_free_spin: true, line_bet: state.line_bet });
            ActionOutcome::SpinStarted
        },
        None => {
            let line_bet = session.line_bet(data);
            let stake = data.total_bet(line_bet);
            if session.balance < stake {
                return ActionOutcome::SpinBlocked(SpinBlocked::InsufficientBalance);
            }
            let result = spin(data, draws.stops.as_slice(), draws.heights.as_slice(), line_bet, SpinMode::Base);
            session.balance = session.balance - stake;
            session.stats.total_wagered = session.stats.total_wagered + stake;
            session.pending = Some(PendingSpin { result, was_free_spin: false, line_bet });
            ActionOutcome::SpinStarted
        },
    }
}

/// The one place a gameplay intent becomes a change to the session.
pub fn apply_gameplay(data: &GameData, session: &mut GameSession, action: UiAction, draws: &SpinDraws) -> (outcome:
    ActionOutcome)
    requires
        is_gameplay(action),
        old(session).inv(*data),
        (action is Spin) ==> old(session).spin_fits(*data, *draws),
        (action matches UiAction::BuyFeature(index) ==> old(session).buy_fits(*data, index)),
    ensures
        gameplay_step(*data, *old(session), action, draws.stops@, draws.heights@, *final(session), outcome),
        final(session).inv(*data),
{
    match action {
        UiAction::Spin => begin_spin(data, session, draws),
        UiAction::BetUp => {
            if session.adjust_bet(data, 1) {
                ActionOutcome::BetChanged(session.line_bet(data))
            } else {
                ActionOutcome::Ignored
            }
        },
        UiAction::BetDown => {
            if session.adjust_bet(data, -1) {
                ActionOutcome::BetChanged(session.line_bet(data))
            } else {
                ActionOutcome::Ignored
            }
        },
        UiAction::MaxBet => {
            if session.set_max_bet(data) {
                ActionOutcome::BetChanged(session.line_bet(data))
            } else {
                ActionOutcome::Ignored
            }
        },
        UiAction::ToggleAutospin => {
            match session.stop_autospin(AutospinStop::Cancelled) {
                Some(reason) => {
                    return ActionOutcome::AutospinStopped(reason);
                },
                None => {},
            }
            if session.in_free_spins() {
                return ActionOutcome::Ignored;
            }
            let choice = session.autospin_choice;
            let spins = if choice < data.config.autospin_choices.len() {
                data.config.autospin_choices[choice]
            } else {
                0
            };
            if session.start_autospin(spins) {
                ActionOutcome::AutospinStarted(spins)
            } else {
                ActionOutcome::Ignored
            }
        },
        UiAction::DismissCelebration => {
            if session.celebrations.len() > 0 {
                let _skipped = session.celebrations.remove(0);
                ActionOutcome::CelebrationDismissed
            } else {
                ActionOutcome::Ignored
            }
        },
        UiAction::BuyFeature(index) => buy_feature(data, session, index),
        UiAction::PickBonus(..) => ActionOutcome::BonusPicked,
        UiAction::OfferGamble | UiAction::Gamble(..) | UiAction::GambleHalf(..) | UiAction::TakeGamble => {
            ActionOutcome::GambleRefused(GambleBlocked::NotOffered)
        },
        _ => ActionOutcome::Ignored,
    }
}

fn buy_feature(data: &GameData, session: &mut GameSession, index: usize) -> (outcome: ActionOutcome)
    requires
        old(session).inv(*data),
        old(session).buy_fits(*data, index),
    ensures
        buy_step(*data, *old(session), index, *final(session), outcome),
        final(session).inv(*data),
{
    if !session.is_settled() {
        return ActionOutcome::FeatureBuyRefused(BuyBlocked::Busy);
    }
    if index >= data.featurebuy.tiers.len() {
        return ActionOutcome::FeatureBuyRefused(BuyBlocked::UnknownTier);
    }
    let tier = &data.featurebuy.tiers[index];
    let spins = match tier.award {
        FeatureAward::FreeSpins { spins } => spins,
        FeatureAward::Wrath { .. } => {
            return ActionOutcome::FeatureBuyRefused(BuyBlocked::UnknownTier);
        },
    };
    if session.free_spins.is_some() {
        return ActionOutcome::FeatureBuyRefused(BuyBlocked::FeatureActive);
    }
    let line_bet = session.line_bet(data);
    let stake = data.total_bet(line_bet);
    let price = tier.price_multiple * stake;
    if session.balance < price {
        return ActionOutcome::FeatureBuyRefused(BuyBlocked::InsufficientBalance);
    }
    session.balance = session.balance - price;
    session.stats.total_wagered = session.stats.total_wagered + price;
    session.free_spins = Some(FreeSpinState { remaining: spins, awarded: spins, line_bet, total_won: 0 });
    ActionOutcome::FeatureBought(BuyResult { tier_name: tier.name.clone(), price })
}

/// What a progressive pays a settling spin: only a paid spin fed the pots,
/// so only a paid spin can draw from them.
pub open spec fn jackpot_paid(was_free_spin: bool, jackpot: Option<JackpotWin>) -> Option<JackpotWin> {
    if was_free_spin {
        None
    } else {
        jackpot
    }
}

pub open spec fn jackpot_credits_of(jackpot: Option<JackpotWin>) -> int {
    match jackpot {
        Some(win) => win.credits as int,
        None => 0,
    }
}

/// Everything a settling spin credits: the reels and, on a paid spin, the
/// progressive that landed.
pub open spec fn credited(p: PendingSpin, jackpot: Option<JackpotWin>) -> int {
    p.result.outcome.total_credits + jackpot_credits_of(jackpot_paid(p.was_free_spin, jackpot))
}

/// The feature after a settling spin's award, with a spent feature retired.
pub open spec fn feature_after(fs: Option<FreeSpinState>, awarded: u32, line_bet: i64, spin_credits: i64) -> Option<
    FreeSpinState,
> {
    match awarded_state(fs, awarded, line_bet, spin_credits) {
        Some(state) => if state.remaining == 0 {
            None
        } else {
            Some(state)
        },
        None => None,
    }
}

/// The feature that ended on a settling spin, if one did.
pub open spec fn feature_finished(fs: Option<FreeSpinState>, awarded: u32, line_bet: i64, spin_credits: i64) -> Option<
    FreeSpinState,
> {
    match awarded_state(fs, awarded, line_bet, spin_credits) {
        Some(state) => if state.remaining == 0 {
            Some(state)
        } else {
            None
        },
        None => None,
    }
}

/// What a settling spin highlights for the cards and the unattended run.
pub open spec fn highlights_of(old: GameSession, p: PendingSpin, jackpot: Option<JackpotWin>) -> SpinHighlights {
    let awarded = p.result.outcome.free_spins_awarded;
    let spin_credits = p.result.outcome.total_credits;
    SpinHighlights {
        awarded,
        retriggered: old.free_spins is Some && awarded > 0,
        scatters: p.result.outcome.scatter_count,
        hatch_credits: 0,
        credited: credited(p, jackpot) as i64,
        finished: feature_finished(old.free_spins, awarded, p.line_bet, spin_credits),
        jackpot: jackpot_paid(p.was_free_spin, jackpot),
        was_free_spin: p.was_free_spin,
        opened_bonus: false,
    }
}

/// The unattended run after a settling spin: stopped for a moment worth
/// watching; otherwise a paid spin uses one of its spins and a run with none
/// left is complete. Free spins cost the run nothing.
pub open spec fn autospin_after(run: Option<u32>, h: SpinHighlights, threshold: i64) -> Option<u32> {
    match run {
        None => None,
        Some(n) => if autospin_stop_reason(h, threshold) is Some {
            None
        } else if h.was_free_spin {
            Some(n)
        } else if n <= 1 {
            None
        } else {
            Some((n - 1) as u32)
        },
    }
}

impl GameSession {
    /// What settling the waiting spin needs: its credits, the running totals
    /// and the feature's counters stay inside their types.
    pub open spec fn settle_fits(&self, data: GameData, jackpot: Option<JackpotWin>) -> bool {
        match self.pending {
            None => true,
            Some(p) => {
                let c = credited(p, jackpot);
                &&& fits_i64(c)
                &&& fits_i64(self.balance + c)
                &&& fits_i64(self.stats.total_won + c)
                &&& self.stats.total_spins < u64::MAX
                &&& self.stats.jackpots < u64::MAX
                &&& award_fits(self.free_spins, p.result.outcome.free_spins_awarded, p.result.outcome.total_credits)
                &&& fits_i64(data.spec_total_bet(p.line_bet))
                &&& fits_i64(spec_big_win_threshold(data, p.line_bet))
            },
        }
    }
}

/// What settling does. With nothing waiting it does nothing. Otherwise the
/// spin's credits and any progressive land on the balance and the totals,
/// the feature takes its award, the reels rest where they stopped, the
/// spin's cards join the queue in reading order and the unattended run
/// either stops for the spin or counts it.
pub open spec fn settles_to(
    data: GameData,
    old: GameSession,
    jackpot: Option<JackpotWin>,
    new: GameSession,
    r: Option<SpinResolution>,
) -> bool {
    match old.pending {
        None => new == old && r is None,
        Some(p) => {
            let c = credited(p, jackpot);
            let h = highlights_of(old, p, jackpot);
            let threshold = spec_big_win_threshold(data, p.line_bet) as i64;
            let won = jackpot_paid(p.was_free_spin, jackpot);
            &&& new.balance == old.balance + c
            &&& new.line_bet_index == old.line_bet_index
            &&& new.last_win == c
            &&& new.stats == SessionStats {
                total_spins: (old.stats.total_spins + 1) as u64,
                total_won: (old.stats.total_won + c) as i64,
                biggest_win: if c > old.stats.biggest_win { c as i64 } else { old.stats.biggest_win },
                jackpots: if won is Some { (old.stats.jackpots + 1) as u64 } else { old.stats.jackpots },
                ..old.stats
            }
            &&& new.free_spins == feature_after(
                old.free_spins,
                p.result.outcome.free_spins_awarded,
                p.line_bet,
                p.result.outcome.total_credits,
            )
            &&& new.reel_stops@ == p.result.stops@
            &&& new.pending is None
            &&& new.celebrations@ == old.celebrations@ + cards_for(h, threshold)
            &&& new.autospin == autospin_after(old.autospin, h, threshold)
            &&& r matches Some(res) && res.result == p.result && res.was_free_spin == p.was_free_spin
                && res.spin_credits == p.result.outcome.total_credits && res.hatch_credits == 0 && res.jackpot == won
        },
    }
}

fn copy_jackpot(jackpot: &Option<JackpotWin>) -> (copy: Option<JackpotWin>)
    ensures
        copy == *jackpot,
{
    match jackpot {
        Some(win) => Some(JackpotWin { name: win.name.clone(), credits: win.credits }),
        None => None,
    }
}

impl GameSession {
    /// Credit the spin that was waiting: the reels have landed. `jackpot` is
    /// what the progressive ladder drew for this spin; a free spin staked
    /// nothing and so draws nothing, whatever is passed.
    pub fn settle(&mut self, data: &GameData, jackpot: Option<JackpotWin>) -> (r: Option<SpinResolution>)
        requires
            old(self).settle_fits(*data, jackpot),
            data.spec_bet_units() <= i64::MAX,
        ensures
            settles_to(*data, *old(self), jackpot, *final(self), r),
    {
        let ghost was = *self;
        let pending = self.pending.take();
        let p = match pending {
            None => {
                return None;
            },
            Some(p) => p,
        };
        let won = if p.was_free_spin {
            None
        } else {
            jackpot
        };
        let jackpot_credits = match &won {
            Some(win) => win.credits,
            None => 0,
        };
        let spin_credits = p.result.outcome.total_credits;
        let credited = spin_credits + jackpot_credits;
        self.balance = self.balance + credited;
        self.stats.total_spins = self.stats.total_spins + 1;
        self.stats.total_won = self.stats.total_won + credited;
        if credited > self.stats.biggest_win {
            self.stats.biggest_win = credited;
        }
        if won.is_some() {
            self.stats.jackpots = self.stats.jackpots + 1;
        }
        let awarded = p.result.outcome.free_spins_awarded;
        let (retriggered, finished) = apply_free_spin_award(&mut self.free_spins, awarded, p.line_bet, spin_credits);
        self.reel_stops = copy_stops(&p.result.stops);
        self.last_win = credited;
        let h = SpinHighlights {
            awarded,
            retriggered,
            scatters: p.result.outcome.scatter_count,
            hatch_credits: 0,
            credited,
            finished,
            jackpot: copy_jackpot(&won),
            was_free_spin: p.was_free_spin,
            opened_bonus: false,
        };
        assert(h == highlights_of(was, p, jackpot));
        let threshold = big_win_threshold(data, p.line_bet);
        let mut cards = celebrations_for(&h, threshold);
        self.celebrations.append(&mut cards);
        match self.autospin {
            None => {},
            Some(n) => {
                if autospin_stop(&h, threshold).is_some() {
                    self.autospin = None;
                } else if !p.was_free_spin {
                    if n <= 1 {
                        self.autospin = None;
                    } else {
                        self.autospin = Some(n - 1);
                    }
                }
            },
        }
        Some(
            SpinResolution {
                result: p.result,
                was_free_spin: p.was_free_spin,
                spin_credits,
                hatch_credits: 0,
                jackpot: won,
            },
        )
    }
}

fn copy_stops(stops: &Vec<usize>) -> (copy: Vec<usize>)
    ensures
        copy@ == stops@,
{
    let mut copy: Vec<usize> = Vec::new();
    let mut i: usize = 0;
    while i < stops.len()
        invariant
            i <= stops.len(),
            copy@ == stops@.subrange(0, i as int),
        decreases stops.len() - i,
    {
        copy.push(stops[i]);
        i = i + 1;
    }
    assert(copy@ =~= stops@);
    copy
}

/// The session's books: what is on the balance, plus what was ever staked,
/// less what was ever won. A spin moves credits between these and never
/// makes or loses one, so the figure never changes.
pub open spec fn books(s: GameSession) -> int {
    s.balance + s.stats.total_wagered - s.stats.total_won
}

/// No gameplay intent makes or loses a credit: a stake leaves the balance
/// exactly as it joins what was wagered, and everything else leaves both
/// alone.
pub proof fn gameplay_keeps_the_books(
    data: GameData,
    old: GameSession,
    action: UiAction,
    stops: Seq<usize>,
    heights: Seq<usize>,
    new: GameSession,
    outcome: ActionOutcome,
)
    requires
        old.inv(data),
        gameplay_step(data, old, action, stops, heights, new, outcome),
        fits_i64(old.stats.total_wagered + old.stake(data)),
        (action matches UiAction::BuyFeature(index) ==> old.buy_fits(data, index)),
    ensures
        books(new) == books(old),
{
    let stake = old.stake(data);
    let line_bet = spec_line_bet(data, old.line_bet_index);
    assert(0 <= line_bet && fits_i64(data.spec_total_bet(line_bet))) by {
        if old.line_bet_index < data.config.line_bets@.len() {
            assert(0 <= data.config.line_bets@[old.line_bet_index as int]);
        } else {
            assert(0 <= data.config.line_bets@[0]);
        }
    }
    assert(stake >= 0) by (nonlinear_arith)
        requires
            stake == line_bet * data.spec_bet_units(),
            line_bet >= 0,
    ;
}

/// Settling a spin makes or loses no credit either: what lands on the
/// balance is exactly what joins what was won.
pub proof fn settling_keeps_the_books(
    data: GameData,
    old: GameSession,
    jackpot: Option<JackpotWin>,
    new: GameSession,
    r: Option<SpinResolution>,
)
    requires
        old.settle_fits(data, jackpot),
        settles_to(data, old, jackpot, new, r),
    ensures
        books(new) == books(old),
{
}

} // verus!
