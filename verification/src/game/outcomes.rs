//! What the game does about a settled action outcome: the session-limit
//! gate in front of the dispatcher, the panels an outcome opens or closes,
//! and the sound, notice, hint and follow-up it asks the orchestrator for.
//! Playing the sound, showing the notice and writing the save stay with the
//! orchestrator; deciding which ones is here.

use vstd::prelude::*;
use crate::actions::{ActionOutcome, SessionRequest, UiAction};
use crate::audio::Sfx;
use crate::state::{AutospinStop, BuyBlocked, BuyResult, Cap, GambleBlocked, Lifeline, SpinBlocked};

verus! {

pub open spec fn gamble_refusal_text(reason: GambleBlocked) -> Seq<char> {
    match reason {
        GambleBlocked::NotOffered => "Nothing to gamble — win a spin first"@,
        GambleBlocked::LimitReached => "The gamble ladder is spent"@,
        GambleBlocked::CannotHalve => "This win cannot be split"@,
    }
}

pub open spec fn buy_refusal_text(reason: BuyBlocked) -> Seq<char> {
    match reason {
        BuyBlocked::Busy => "Wait for the reels to settle first"@,
        BuyBlocked::InsufficientBalance => "Not enough credits for that feature"@,
        BuyBlocked::FeatureActive => "A feature is already running"@,
        BuyBlocked::UnknownTier => "That feature is no longer on the menu"@,
    }
}

/// Why a gamble was refused, in the player's terms. `NotOffered` is the one a
/// player will actually hit, so it says what is needed rather than what is
/// missing.
pub fn gamble_refusal(reason: GambleBlocked) -> (text: &'static str)
    ensures
        text@ == gamble_refusal_text(reason),
{
    match reason {
        GambleBlocked::NotOffered => "Nothing to gamble — win a spin first",
        GambleBlocked::LimitReached => "The gamble ladder is spent",
        GambleBlocked::CannotHalve => "This win cannot be split",
    }
}

/// Why a feature buy was refused, in the player's terms. Every refusal says
/// something: a press that produces silence reads as a broken button.
pub fn buy_refusal(reason: BuyBlocked) -> (text: &'static str)
    ensures
        text@ == buy_refusal_text(reason),
{
    match reason {
        BuyBlocked::Busy => "Wait for the reels to settle first",
        BuyBlocked::InsufficientBalance => "Not enough credits for that feature",
        BuyBlocked::FeatureActive => "A feature is already running",
        BuyBlocked::UnknownTier => "That feature is no longer on the menu",
    }
}

/// A bound session cap refuses a spin, or the start of an unattended run,
/// before the session ever sees it. Every other press stays available: a
/// player who has stopped playing can still read the ledger, the rules and
/// their own figures.
pub fn gate_action(action: UiAction, breach: Option<Cap>) -> (refusal: Option<Cap>)
    ensures
        refusal == (if action is Spin || action is ToggleAutospin {
            breach
        } else {
            None
        }),
{
    match action {
        UiAction::Spin | UiAction::ToggleAutospin => breach,
        _ => None,
    }
}

/// The overlays the orchestrator shows, apart from the paytable, which the
/// dispatcher flips itself.
#[derive(Debug, Clone, Copy, PartialEq, Eq, Structural)]
pub struct Panels {
    pub settings: bool,
    pub machines: bool,
    pub achievements: bool,
    pub vision: bool,
    pub waveforms: bool,
    pub history: bool,
    pub limits: bool,
    pub rules: bool,
    pub ledger: bool,
    pub featurebuy: bool,
    /// The reality-check reminder is up.
    pub reality_check: bool,
}

/// What the player is told about an outcome.
#[derive(Debug)]
pub enum Notice {
    /// A success: the vault paid this many credits.
    VaultYield(i64),
    /// A success: the gamble was taken for this total.
    GambleTaken(i64),
    /// A warning: why the gamble was refused.
    GambleRefused(GambleBlocked),
    /// A success: what was bought, and for how much.
    FeatureBought(BuyResult),
    /// A warning: why the buy was refused.
    FeatureBuyRefused(BuyBlocked),
    /// Information: an unattended run of this many spins began.
    AutospinStarted(u32),
    /// Information, or a warning when the credits ran out: why a run stopped.
    AutospinStopped(AutospinStop),
    /// A warning: the balance does not cover the bet.
    NotEnoughCredits,
    /// Information: the way back in the player took.
    LifelineTaken(Lifeline),
    /// Information: the new line bet.
    BetChanged(i64),
}

/// The hint counters an outcome advances.
#[derive(Debug, Clone, Copy, PartialEq, Eq, Structural)]
pub enum HintCount {
    Gambles,
    RulesOpened,
    LedgerOpened,
    Buys,
}

/// The work an outcome hands back to the orchestrator, which owns the
/// hints, the limits, the machine catalogue, the preferences and the saves.
#[derive(Debug, Clone, Copy, PartialEq, Eq, Structural)]
pub enum FollowUp {
    Nothing,
    /// Dismiss the showing hint and store the dismissal.
    DismissHint,
    /// Step this cap and store the limits.
    CycleLimit(Cap),
    /// Step the reality-check interval and store the limits.
    CycleRealityCheck,
    /// Restart the reality-check clock.
    AcknowledgeRealityCheck,
    /// Measure the machine the ledger compares the player against.
    MeasureMachine,
    /// Swap to the cabinet at this index.
    SwitchMachine(usize),
    /// Apply the changed preferences and store them.
    ApplyPreferences,
    /// Clear the floating win texts of the last spin.
    ClearFloating,
    /// Press spin on the player's behalf.
    QueueSpin,
    /// Stop the unattended run.
    StopAutospin,
    /// Service a save-system request.
    Session(SessionRequest),
}

/// Everything the orchestrator does about one outcome.
#[derive(Debug)]
pub struct Effects {
    pub sound: Option<Sfx>,
    /// How loud the sound plays, in percent of its usual level.
    pub volume_percent: u32,
    pub notice: Option<Notice>,
    /// Shake the screen a little.
    pub shake: bool,
    pub hint: Option<HintCount>,
    /// Write the save now.
    pub autosave: bool,
    pub follow: FollowUp,
}

pub open spec fn effect(
    sound: Option<Sfx>,
    volume_percent: u32,
    notice: Option<Notice>,
    hint: Option<HintCount>,
    autosave: bool,
    follow: FollowUp,
) -> Effects {
    Effects { sound, volume_percent, notice, shake: false, hint, autosave, follow }
}

pub open spec fn click() -> Effects {
    effect(Some(Sfx::Click), 100, None, None, false, FollowUp::Nothing)
}

pub open spec fn nothing() -> Effects {
    effect(None, 100, None, None, false, FollowUp::Nothing)
}

/// The panels after an outcome: each toggle flips its own panel, a gamble
/// or a purchase closes the feature-buy menu, and acknowledging the reality
/// check takes its reminder down.
pub open spec fn panels_after(p: Panels, outcome: ActionOutcome) -> Panels {
    match outcome {
        ActionOutcome::SettingsToggled => Panels { settings: !p.settings, ..p },
        ActionOutcome::MachinesToggled => Panels { machines: !p.machines, ..p },
        ActionOutcome::AchievementsToggled => Panels { achievements: !p.achievements, ..p },
        ActionOutcome::VisionToggled => Panels { vision: !p.vision, ..p },
        ActionOutcome::WaveformsToggled => Panels { waveforms: !p.waveforms, ..p },
        ActionOutcome::HistoryToggled => Panels { history: !p.history, ..p },
        ActionOutcome::LimitsToggled => Panels { limits: !p.limits, ..p },
        ActionOutcome::RulesToggled => Panels { rules: !p.rules, ..p },
        ActionOutcome::LedgerToggled => Panels { ledger: !p.ledger, ..p },
        ActionOutcome::FeatureBuyToggled => Panels { featurebuy: !p.featurebuy, ..p },
        ActionOutcome::GambleOffered => Panels { featurebuy: false, ..p },
        ActionOutcome::FeatureBought(..) => Panels { featurebuy: false, ..p },
        ActionOutcome::RealityCheckAcknowledged => Panels { reality_check: false, ..p },
        _ => p,
    }
}

/// What the orchestrator does about an outcome, given the panels as they
/// stood and whether an unattended run is going. Outcomes that name no
/// reaction of their own (the lines, the menu, the proofs and the like)
/// ask for nothing here.
pub open spec fn effects_of(p: Panels, outcome: ActionOutcome, autospin_running: bool) -> Effects {
    match outcome {
        ActionOutcome::PaytableToggled => click(),
        ActionOutcome::CelebrationDismissed => click(),
        ActionOutcome::SettingsToggled => click(),
        ActionOutcome::MachinesToggled => click(),
        ActionOutcome::AchievementsToggled => click(),
        ActionOutcome::VisionToggled => click(),
        ActionOutcome::WaveformsToggled => click(),
        ActionOutcome::HistoryToggled => click(),
        ActionOutcome::LimitsToggled => click(),
        ActionOutcome::FeatureBuyToggled => click(),
        ActionOutcome::BonusPicked => click(),
        ActionOutcome::BonusFinished(credits) => effect(
            Some(Sfx::WinBig),
            100,
            Some(Notice::VaultYield(credits)),
            None,
            true,
            FollowUp::Nothing,
        ),
        ActionOutcome::GambleOffered => effect(Some(Sfx::Scatter), 100, None, Some(HintCount::Gambles), false, FollowUp::Nothing),
        ActionOutcome::GambleFlipped(flip) => if flip.won {
            Effects { shake: true, ..effect(Some(Sfx::WinSmall), 100, None, None, false, FollowUp::Nothing) }
        } else {
            effect(Some(Sfx::ReelStop), 50, None, None, false, FollowUp::Nothing)
        },
        ActionOutcome::GambleTaken(total) => effect(
            Some(Sfx::CoinLock),
            100,
            Some(Notice::GambleTaken(total)),
            None,
            true,
            FollowUp::Nothing,
        ),
        ActionOutcome::GambleRefused(reason) => effect(
            Some(Sfx::Click),
            60,
            Some(Notice::GambleRefused(reason)),
            None,
            false,
            FollowUp::Nothing,
        ),
        ActionOutcome::HintDismissed => effect(Some(Sfx::Click), 100, None, None, false, FollowUp::DismissHint),
        ActionOutcome::LimitRequested(cap) => effect(None, 100, None, None, false, FollowUp::CycleLimit(cap)),
        ActionOutcome::RealityCheckCycled => effect(Some(Sfx::Click), 100, None, None, false, FollowUp::CycleRealityCheck),
        ActionOutcome::RealityCheckAcknowledged => effect(
            Some(Sfx::Click),
            100,
            None,
            None,
            false,
            FollowUp::AcknowledgeRealityCheck,
        ),
        ActionOutcome::RulesToggled => effect(
            Some(Sfx::Click),
            100,
            None,
            if !p.rules { Some(HintCount::RulesOpened) } else { None },
            false,
            FollowUp::Nothing,
        ),
        ActionOutcome::LedgerToggled => effect(
            Some(Sfx::Click),
            100,
            None,
            if !p.ledger { Some(HintCount::LedgerOpened) } else { None },
            false,
            if !p.ledger { FollowUp::MeasureMachine } else { FollowUp::Nothing },
        ),
        ActionOutcome::FeatureBought(purchase) => effect(
            Some(Sfx::Scatter),
            100,
            Some(Notice::FeatureBought(purchase)),
            Some(HintCount::Buys),
            true,
            FollowUp::Nothing,
        ),
        ActionOutcome::FeatureBuyRefused(reason) => effect(
            Some(Sfx::Click),
            60,
            Some(Notice::FeatureBuyRefused(reason)),
            None,
            false,
            FollowUp::Nothing,
        ),
        ActionOutcome::MachineSelected(index) => effect(None, 100, None, None, false, FollowUp::SwitchMachine(index)),
        ActionOutcome::PreferenceChanged => effect(Some(Sfx::Click), 100, None, None, false, FollowUp::ApplyPreferences),
        ActionOutcome::SpinStarted => effect(Some(Sfx::SpinStart), 100, None, None, false, FollowUp::ClearFloating),
        ActionOutcome::AutospinStarted(spins) => effect(
            None,
            100,
            Some(Notice::AutospinStarted(spins)),
            None,
            false,
            FollowUp::QueueSpin,
        ),
        ActionOutcome::AutospinStopped(reason) => effect(
            None,
            100,
            Some(Notice::AutospinStopped(reason)),
            None,
            false,
            FollowUp::Nothing,
        ),
        ActionOutcome::SpinBlocked(SpinBlocked::InsufficientBalance) => if autospin_running {
            effect(None, 100, Some(Notice::AutospinStopped(AutospinStop::OutOfCredits)), None, false, FollowUp::StopAutospin)
        } else {
            effect(None, 100, Some(Notice::NotEnoughCredits), None, false, FollowUp::Nothing)
        },
        ActionOutcome::LifelineTaken(lifeline) => effect(
            Some(Sfx::WinSmall),
            100,
            Some(Notice::LifelineTaken(lifeline)),
            None,
            false,
            FollowUp::Nothing,
        ),
        ActionOutcome::BetChanged(line_bet) => effect(
            Some(Sfx::Click),
            100,
            Some(Notice::BetChanged(line_bet)),
            None,
            false,
            FollowUp::Nothing,
        ),
        ActionOutcome::Session(request) => effect(None, 100, None, None, false, FollowUp::Session(request)),
        _ => nothing(),
    }
}

fn effect_now(
    sound: Option<Sfx>,
    volume_percent: u32,
    notice: Option<Notice>,
    hint: Option<HintCount>,
    autosave: bool,
    follow: FollowUp,
) -> (e: Effects)
    ensures
        e == effect(sound, volume_percent, notice, hint, autosave, follow),
{
    Effects { sound, volume_percent, notice, shake: false, hint, autosave, follow }
}

fn click_now() -> (e: Effects)
    ensures
        e == click(),
{
    effect_now(Some(Sfx::Click), 100, None, None, false, FollowUp::Nothing)
}

#[verifier::rlimit(50)]
fn effects_for(was: Panels, outcome: ActionOutcome, autospin_running: bool) -> (effects: Effects)
    ensures
        effects == effects_of(was, outcome, autospin_running),
{
    match outcome {
        ActionOutcome::PaytableToggled => click_now(),
        ActionOutcome::CelebrationDismissed => click_now(),
        ActionOutcome::SettingsToggled => click_now(),
        ActionOutcome::MachinesToggled => click_now(),
        ActionOutcome::AchievementsToggled => click_now(),
        ActionOutcome::VisionToggled => click_now(),
        ActionOutcome::WaveformsToggled => click_now(),
        ActionOutcome::HistoryToggled => click_now(),
        ActionOutcome::LimitsToggled => click_now(),
        ActionOutcome::FeatureBuyToggled => click_now(),
        ActionOutcome::BonusPicked => click_now(),
        ActionOutcome::BonusFinished(credits) => effect_now(
            Some(Sfx::WinBig),
            100,
            Some(Notice::VaultYield(credits)),
            None,
            true,
            FollowUp::Nothing,
        ),
        ActionOutcome::GambleOffered => {
            effect_now(Some(Sfx::Scatter), 100, None, Some(HintCount::Gambles), false, FollowUp::Nothing)
        },
        ActionOutcome::GambleFlipped(flip) => {
            if flip.won {
                let mut e = effect_now(Some(Sfx::WinSmall), 100, None, None, false, FollowUp::Nothing);
                e.shake = true;
                e
            } else {
                effect_now(Some(Sfx::ReelStop), 50, None, None, false, FollowUp::Nothing)
            }
        },
        ActionOutcome::GambleTaken(total) => effect_now(
            Some(Sfx::CoinLock),
            100,
            Some(Notice::GambleTaken(total)),
            None,
            true,
            FollowUp::Nothing,
        ),
        ActionOutcome::GambleRefused(reason) => effect_now(
            Some(Sfx::Click),
            60,
            Some(Notice::GambleRefused(reason)),
            None,
            false,
            FollowUp::Nothing,
        ),
        ActionOutcome::HintDismissed => effect_now(Some(Sfx::Click), 100, None, None, false, FollowUp::DismissHint),
        ActionOutcome::LimitRequested(cap) => effect_now(None, 100, None, None, false, FollowUp::CycleLimit(cap)),
        ActionOutcome::RealityCheckCycled => effect_now(
            Some(Sfx::Click),
            100,
            None,
            None,
            false,
            FollowUp::CycleRealityCheck,
        ),
        ActionOutcome::RealityCheckAcknowledged => {
            effect_now(Some(Sfx::Click), 100, None, None, false, FollowUp::AcknowledgeRealityCheck)
        },
        ActionOutcome::RulesToggled => {
            let hint = if !was.rules {
                Some(HintCount::RulesOpened)
            } else {
                None
            };
            effect_now(Some(Sfx::Click), 100, None, hint, false, FollowUp::Nothing)
        },
        ActionOutcome::LedgerToggled => {
            if !was.ledger {
                effect_now(Some(Sfx::Click), 100, None, Some(HintCount::LedgerOpened), false, FollowUp::MeasureMachine)
            } else {
                effect_now(Some(Sfx::Click), 100, None, None, false, FollowUp::Nothing)
            }
        },
        ActionOutcome::FeatureBought(purchase) => {
            effect_now(
                Some(Sfx::Scatter),
                100,
                Some(Notice::FeatureBought(purchase)),
                Some(HintCount::Buys),
                true,
                FollowUp::Nothing,
            )
        },
        ActionOutcome::FeatureBuyRefused(reason) => effect_now(
            Some(Sfx::Click),
            60,
            Some(Notice::FeatureBuyRefused(reason)),
            None,
            false,
            FollowUp::Nothing,
        ),
        ActionOutcome::MachineSelected(index) => effect_now(
            None,
            100,
            None,
            None,
            false,
            FollowUp::SwitchMachine(index),
        ),
        ActionOutcome::PreferenceChanged => effect_now(
            Some(Sfx::Click),
            100,
            None,
            None,
            false,
            FollowUp::ApplyPreferences,
        ),
        ActionOutcome::SpinStarted => effect_now(
            Some(Sfx::SpinStart),
            100,
            None,
            None,
            false,
            FollowUp::ClearFloating,
        ),
        ActionOutcome::AutospinStarted(spins) => effect_now(
            None,
            100,
            Some(Notice::AutospinStarted(spins)),
            None,
            false,
            FollowUp::QueueSpin,
        ),
        ActionOutcome::AutospinStopped(reason) => effect_now(
            None,
            100,
            Some(Notice::AutospinStopped(reason)),
            None,
            false,
            FollowUp::Nothing,
        ),
        ActionOutcome::SpinBlocked(SpinBlocked::InsufficientBalance) => {
            if autospin_running {
                effect_now(
                    None,
                    100,
                    Some(Notice::AutospinStopped(AutospinStop::OutOfCredits)),
                    None,
                    false,
                    FollowUp::StopAutospin,
                )
            } else {
                effect_now(None, 100, Some(Notice::NotEnoughCredits), None, false, FollowUp::Nothing)
            }
        },
        ActionOutcome::LifelineTaken(lifeline) => effect_now(
            Some(Sfx::WinSmall),
            100,
            Some(Notice::LifelineTaken(lifeline)),
            None,
            false,
            FollowUp::Nothing,
        ),
        ActionOutcome::BetChanged(line_bet) => effect_now(
            Some(Sfx::Click),
            100,
            Some(Notice::BetChanged(line_bet)),
            None,
            false,
            FollowUp::Nothing,
        ),
        ActionOutcome::Session(request) => effect_now(None, 100, None, None, false, FollowUp::Session(request)),
        _ => effect_now(None, 100, None, None, false, FollowUp::Nothing),
    }
}

/// Flip the panels an outcome names.
fn flip_panels(panels: &mut Panels, outcome: &ActionOutcome)
    ensures
        *final(panels) == panels_after(*old(panels), *outcome),
{
    match outcome {
        ActionOutcome::SettingsToggled => panels.settings = !panels.settings,
        ActionOutcome::MachinesToggled => panels.machines = !panels.machines,
        ActionOutcome::AchievementsToggled => panels.achievements = !panels.achievements,
        ActionOutcome::VisionToggled => panels.vision = !panels.vision,
        ActionOutcome::WaveformsToggled => panels.waveforms = !panels.waveforms,
        ActionOutcome::HistoryToggled => panels.history = !panels.history,
        ActionOutcome::LimitsToggled => panels.limits = !panels.limits,
        ActionOutcome::RulesToggled => panels.rules = !panels.rules,
        ActionOutcome::LedgerToggled => panels.ledger = !panels.ledger,
        ActionOutcome::FeatureBuyToggled => panels.featurebuy = !panels.featurebuy,
        ActionOutcome::GambleOffered => panels.featurebuy = false,
        ActionOutcome::FeatureBought(..) => panels.featurebuy = false,
        ActionOutcome::RealityCheckAcknowledged => panels.reality_check = false,
        _ => {},
    }
}

/// Turn a settled outcome into the panels it flips and everything else the
/// orchestrator should do about it.
pub fn after_outcome(panels: &mut Panels, outcome: ActionOutcome, autospin_running: bool) -> (effects: Effects)
    ensures
        *final(panels) == panels_after(*old(panels), outcome),
        effects == effects_of(*old(panels), outcome, autospin_running),
{
    let was = *panels;
    flip_panels(panels, &outcome);
    effects_for(was, outcome, autospin_running)
}

} // verus!
