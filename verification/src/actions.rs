//! Intents and what became of them: the vocabulary the dispatcher speaks,
//! the navigation intents it answers without touching the session, and the
//! dispatcher that routes every intent to whatever answers it.

use vstd::prelude::*;
use crate::data::GameData;
use crate::game::screens::Screen;
use crate::state::session::{apply_gameplay, gameplay_step, is_gameplay, next_autospin_choice, GameSession, SpinDraws};
use crate::state::{AutospinStop, BuyBlocked, BuyResult, Cap, GambleBlocked, GambleFlip, Lifeline, Scale, SpinBlocked};

verus! {

/// Everything a player can ask for.
#[derive(Debug, Clone, Copy, PartialEq, Eq, Structural)]
pub enum UiAction {
    Spin,
    BetUp,
    BetDown,
    MaxBet,
    ToggleAutospin,
    TogglePaytable,
    ToggleSettings,
    ToggleMachines,
    ToggleAchievements,
    ToggleFeatureBuy,
    ToggleLedger,
    ToggleLines,
    ToggleMenu,
    OpenScreen(Screen),
    ToggleSessions,
    ToggleAnte,
    ToggleProofs,
    CheckProofs,
    DismissSessionOver,
    ToggleRules,
    ToggleLimits,
    ToggleHistory,
    CycleLimit(Cap),
    CycleRealityCheck,
    AcknowledgeRealityCheck,
    DismissHint,
    ToggleWaveforms,
    ToggleVision,
    SelectMachine(usize),
    VolumeUp,
    VolumeDown,
    MusicVolumeUp,
    MusicVolumeDown,
    CycleTextScale,
    CycleSpinSpeed,
    CycleAutospinLength,
    ToggleShake,
    ToggleParticles,
    NewGame,
    Save,
    Load,
    DeleteSave,
    ChooseFreeSpinShape(usize),
    ChooseRite(usize),
    OfferGamble,
    Gamble(Scale),
    GambleHalf(Scale),
    TakeGamble,
    BuyFeature(usize),
    PickBonus(usize),
    DismissCelebration,
    TakeLifeline,
}

/// Requests the dispatcher cannot service itself because they touch the save
/// system, which lives with the game orchestrator.
#[derive(Debug, Clone, Copy, PartialEq, Eq, Structural)]
pub enum SessionRequest {
    NewGame,
    Save,
    Load,
    DeleteSave,
}

#[derive(Debug)]
pub enum ActionOutcome {
    /// The intent was valid but changed nothing (bet already at the cap, etc.).
    Ignored,
    /// The stake is committed and the reels are turning.
    SpinStarted,
    SpinBlocked(SpinBlocked),
    /// A hoard broken, or a stake advanced, to a player who could not spin.
    LifelineTaken(Lifeline),
    BetChanged(i64),
    PaytableToggled,
    SettingsToggled,
    MachinesToggled,
    AchievementsToggled,
    FeatureBuyToggled,
    LedgerToggled,
    LinesToggled,
    MenuToggled,
    /// A screen picked from the menu.
    ScreenOpened(Screen),
    SessionsToggled,
    /// The ante side bet.
    AnteToggled,
    /// The spin verifier.
    ProofsToggled,
    /// Re-run every recorded spin.
    ProofsChecked,
    SessionOverDismissed,
    /// A free-spin run reshaped, and the spins it now holds.
    FreeSpinShapeChosen(u32),
    /// A rite was taken for an open seam, by name.
    RiteChosen(String),
    RulesToggled,
    LimitsToggled,
    HistoryToggled,
    /// A cap or the reality-check interval was stepped.
    LimitRequested(Cap),
    RealityCheckCycled,
    RealityCheckAcknowledged,
    HintDismissed,
    WaveformsToggled,
    VisionToggled,
    /// A gamble opened, flipped, or was taken.
    GambleOffered,
    GambleFlipped(GambleFlip),
    GambleTaken(i64),
    GambleRefused(GambleBlocked),
    /// A feature was bought: what it was, and what it cost.
    FeatureBought(BuyResult),
    /// The buy was refused. Carries why, so the message can say so.
    FeatureBuyRefused(BuyBlocked),
    /// A chest was turned over and the round continues.
    BonusPicked,
    /// The last blank was found; the round paid out.
    BonusFinished(i64),
    /// The player picked a cabinet; the orchestrator owns the swap.
    MachineSelected(usize),
    /// A preference changed and should be written back to disk.
    PreferenceChanged,
    AutospinStarted(u32),
    AutospinStopped(AutospinStop),
    CelebrationDismissed,
    Session(SessionRequest),
}

/// Intents that only open, close or step something the orchestrator owns.
pub open spec fn is_navigation(action: UiAction) -> bool {
    match action {
        UiAction::TogglePaytable => true,
        UiAction::ToggleSettings => true,
        UiAction::ToggleMachines => true,
        UiAction::ToggleAchievements => true,
        UiAction::ToggleFeatureBuy => true,
        UiAction::ToggleLedger => true,
        UiAction::ToggleLines => true,
        UiAction::ToggleMenu => true,
        UiAction::OpenScreen(..) => true,
        UiAction::ToggleSessions => true,
        UiAction::ToggleAnte => true,
        UiAction::ToggleProofs => true,
        UiAction::CheckProofs => true,
        UiAction::DismissSessionOver => true,
        UiAction::ToggleRules => true,
        UiAction::ToggleLimits => true,
        UiAction::ToggleHistory => true,
        UiAction::CycleLimit(..) => true,
        UiAction::CycleRealityCheck => true,
        UiAction::AcknowledgeRealityCheck => true,
        UiAction::DismissHint => true,
        UiAction::ToggleWaveforms => true,
        UiAction::ToggleVision => true,
        UiAction::SelectMachine(..) => true,
        _ => false,
    }
}

/// What a navigation intent becomes. The toggles are answered by name; the
/// ones that carry a payload carry it on.
pub open spec fn navigation_outcome(action: UiAction) -> ActionOutcome {
    match action {
        UiAction::TogglePaytable => ActionOutcome::PaytableToggled,
        UiAction::ToggleSettings => ActionOutcome::SettingsToggled,
        UiAction::ToggleMachines => ActionOutcome::MachinesToggled,
        UiAction::ToggleAchievements => ActionOutcome::AchievementsToggled,
        UiAction::ToggleFeatureBuy => ActionOutcome::FeatureBuyToggled,
        UiAction::ToggleLedger => ActionOutcome::LedgerToggled,
        UiAction::ToggleLines => ActionOutcome::LinesToggled,
        UiAction::ToggleMenu => ActionOutcome::MenuToggled,
        UiAction::OpenScreen(screen) => ActionOutcome::ScreenOpened(screen),
        UiAction::ToggleSessions => ActionOutcome::SessionsToggled,
        UiAction::ToggleAnte => ActionOutcome::AnteToggled,
        UiAction::ToggleProofs => ActionOutcome::ProofsToggled,
        UiAction::CheckProofs => ActionOutcome::ProofsChecked,
        UiAction::DismissSessionOver => ActionOutcome::SessionOverDismissed,
        UiAction::ToggleRules => ActionOutcome::RulesToggled,
        UiAction::ToggleLimits => ActionOutcome::LimitsToggled,
        UiAction::ToggleHistory => ActionOutcome::HistoryToggled,
        UiAction::CycleLimit(cap) => ActionOutcome::LimitRequested(cap),
        UiAction::CycleRealityCheck => ActionOutcome::RealityCheckCycled,
        UiAction::AcknowledgeRealityCheck => ActionOutcome::RealityCheckAcknowledged,
        UiAction::DismissHint => ActionOutcome::HintDismissed,
        UiAction::ToggleWaveforms => ActionOutcome::WaveformsToggled,
        UiAction::ToggleVision => ActionOutcome::VisionToggled,
        UiAction::SelectMachine(index) => ActionOutcome::MachineSelected(index),
        _ => ActionOutcome::Ignored,
    }
}

/// Answer a navigation intent. Only the paytable's flag lives here; every
/// other panel is the orchestrator's to flip when it reads the outcome.
pub fn apply_navigation(show_paytable: &mut bool, action: UiAction) -> (outcome: ActionOutcome)
    requires
        is_navigation(action),
    ensures
        outcome == navigation_outcome(action),
        *final(show_paytable) == (if action is TogglePaytable {
            !*old(show_paytable)
        } else {
            *old(show_paytable)
        }),
{
    match action {
        UiAction::TogglePaytable => {
            *show_paytable = !*show_paytable;
            ActionOutcome::PaytableToggled
        },
        UiAction::ToggleSettings => ActionOutcome::SettingsToggled,
        UiAction::ToggleMachines => ActionOutcome::MachinesToggled,
        UiAction::ToggleAchievements => ActionOutcome::AchievementsToggled,
        UiAction::ToggleFeatureBuy => ActionOutcome::FeatureBuyToggled,
        UiAction::ToggleLedger => ActionOutcome::LedgerToggled,
        UiAction::ToggleLines => ActionOutcome::LinesToggled,
        UiAction::ToggleMenu => ActionOutcome::MenuToggled,
        UiAction::OpenScreen(screen) => ActionOutcome::ScreenOpened(screen),
        UiAction::ToggleSessions => ActionOutcome::SessionsToggled,
        UiAction::ToggleAnte => ActionOutcome::AnteToggled,
        UiAction::ToggleProofs => ActionOutcome::ProofsToggled,
        UiAction::CheckProofs => ActionOutcome::ProofsChecked,
        UiAction::DismissSessionOver => ActionOutcome::SessionOverDismissed,
        UiAction::ToggleRules => ActionOutcome::RulesToggled,
        UiAction::ToggleLimits => ActionOutcome::LimitsToggled,
        UiAction::ToggleHistory => ActionOutcome::HistoryToggled,
        UiAction::CycleLimit(cap) => ActionOutcome::LimitRequested(cap),
        UiAction::CycleRealityCheck => ActionOutcome::RealityCheckCycled,
        UiAction::AcknowledgeRealityCheck => ActionOutcome::RealityCheckAcknowledged,
        UiAction::DismissHint => ActionOutcome::HintDismissed,
        UiAction::ToggleWaveforms => ActionOutcome::WaveformsToggled,
        UiAction::ToggleVision => ActionOutcome::VisionToggled,
        UiAction::SelectMachine(index) => ActionOutcome::MachineSelected(index),
        _ => ActionOutcome::Ignored,
    }
}

/// The save-system request an intent makes, if it makes one.
pub open spec fn session_request_of(action: UiAction) -> Option<SessionRequest> {
    match action {
        UiAction::NewGame => Some(SessionRequest::NewGame),
        UiAction::Save => Some(SessionRequest::Save),
        UiAction::Load => Some(SessionRequest::Load),
        UiAction::DeleteSave => Some(SessionRequest::DeleteSave),
        _ => None,
    }
}

/// Pass a save-system intent on to the orchestrator.
pub fn session_request(action: UiAction) -> (request: Option<SessionRequest>)
    ensures
        request == session_request_of(action),
{
    match action {
        UiAction::NewGame => Some(SessionRequest::NewGame),
        UiAction::Save => Some(SessionRequest::Save),
        UiAction::Load => Some(SessionRequest::Load),
        UiAction::DeleteSave => Some(SessionRequest::DeleteSave),
        _ => None,
    }
}

/// Intents that change a player preference. The run length of an
/// unattended run is held on the session; the volumes, text scale, spin
/// speed, shake and particles are levels the orchestrator applies and stores
/// when it reads the outcome.
pub open spec fn is_preference(action: UiAction) -> bool {
    ||| action is VolumeUp
    ||| action is VolumeDown
    ||| action is MusicVolumeUp
    ||| action is MusicVolumeDown
    ||| action is CycleTextScale
    ||| action is CycleSpinSpeed
    ||| action is CycleAutospinLength
    ||| action is ToggleShake
    ||| action is ToggleParticles
}

/// What one intent does: navigation answers itself and flips only the
/// paytable, a preference is reported changed (stepping the run length when
/// that is the one pressed), a save-system intent is passed on, and every
/// other intent is the session's.
pub open spec fn dispatch_step(
    data: GameData,
    old: GameSession,
    paytable: bool,
    action: UiAction,
    stops: Seq<usize>,
    heights: Seq<usize>,
    new: GameSession,
    new_paytable: bool,
    outcome: ActionOutcome,
) -> bool {
    if is_navigation(action) {
        &&& outcome == navigation_outcome(action)
        &&& new == old
        &&& new_paytable == (if action is TogglePaytable { !paytable } else { paytable })
    } else if is_preference(action) {
        &&& outcome == ActionOutcome::PreferenceChanged
        &&& new_paytable == paytable
        &&& new == (if action is CycleAutospinLength {
            GameSession { autospin_choice: next_autospin_choice(data, old.autospin_choice), ..old }
        } else {
            old
        })
    } else if session_request_of(action) is Some {
        outcome == ActionOutcome::Session(session_request_of(action)->Some_0) && new == old && new_paytable == paytable
    } else if is_gameplay(action) {
        gameplay_step(data, old, action, stops, heights, new, outcome) && new_paytable == paytable
    } else {
        outcome == ActionOutcome::Ignored && new == old && new_paytable == paytable
    }
}

/// The one place an intent becomes a change of state.
pub fn apply(
    data: &GameData,
    session: &mut GameSession,
    show_paytable: &mut bool,
    action: UiAction,
    draws: &SpinDraws,
) -> (outcome: ActionOutcome)
    requires
        old(session).inv(*data),
        (action is Spin) ==> old(session).spin_fits(*data, *draws),
        (action matches UiAction::BuyFeature(index) ==> old(session).buy_fits(*data, index)),
    ensures
        dispatch_step(
            *data,
            *old(session),
            *old(show_paytable),
            action,
            draws.stops@,
            draws.heights@,
            *final(session),
            *final(show_paytable),
            outcome,
        ),
        final(session).inv(*data),
{
    match action {
        UiAction::CycleAutospinLength => {
            session.cycle_autospin(data);
            return ActionOutcome::PreferenceChanged;
        },
        UiAction::VolumeUp | UiAction::VolumeDown | UiAction::MusicVolumeUp | UiAction::MusicVolumeDown
        | UiAction::CycleTextScale | UiAction::CycleSpinSpeed | UiAction::ToggleShake | UiAction::ToggleParticles => {
            return ActionOutcome::PreferenceChanged;
        },
        UiAction::NewGame | UiAction::Save | UiAction::Load | UiAction::DeleteSave => {
            return ActionOutcome::Session(session_request(action).unwrap());
        },
        UiAction::Spin | UiAction::BetUp | UiAction::BetDown | UiAction::MaxBet | UiAction::ToggleAutospin
        | UiAction::DismissCelebration | UiAction::ChooseFreeSpinShape(..) | UiAction::ChooseRite(..)
        | UiAction::OfferGamble | UiAction::Gamble(..) | UiAction::GambleHalf(..) | UiAction::TakeGamble
        | UiAction::BuyFeature(..) | UiAction::PickBonus(..) | UiAction::TakeLifeline => {
            return apply_gameplay(data, session, action, draws);
        },
        _ => {},
    }
    apply_navigation(show_paytable, action)
}

} // verus!
