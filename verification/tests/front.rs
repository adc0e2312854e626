use dragons_hoard_engine::actions::{apply_navigation, session_request, ActionOutcome, SessionRequest, UiAction};
use dragons_hoard_engine::audio::Sfx;
use dragons_hoard_engine::engine::sim::{BuyReport, SimConfig};
use dragons_hoard_engine::game::drift::DriftConfig;
use dragons_hoard_engine::game::outcomes::{buy_refusal, gamble_refusal};
use dragons_hoard_engine::game::screens::Screen;
use dragons_hoard_engine::music::{Mood, Track};
use dragons_hoard_engine::state::{
    apply_free_spin_award, autospin_stop, celebrations_for, spend_free_spin, step_bet, top_bet, AutospinStop, BuyBlocked,
    Cap, CelebrationKind, FreeSpinState, GambleBlocked, JackpotWin, SpinHighlights,
};

#[test]
fn every_screen_id_finds_its_screen() {
    let all = Screen::all();
    assert_eq!(all.len(), 22);
    for screen in all {
        assert_eq!(Screen::from_id(screen.id()), Some(screen));
    }
    assert_eq!(Screen::from_id("wrath"), Some(Screen::Holdspin));
    assert_eq!(Screen::from_id("nowhere"), None);
    assert_eq!(Screen::Ledger.label(), "The Ledger");
}

#[test]
fn the_menu_offers_what_a_flag_opens_except_itself() {
    let menu = Screen::in_menu();
    assert_eq!(menu.len(), 15);
    assert_eq!(menu[0], Screen::Paytable);
    assert!(!menu.contains(&Screen::Menu));
    assert!(!menu.contains(&Screen::Gamble));
    assert!(!menu.contains(&Screen::Ruin));
    assert!(Screen::Vision.reachable_by_flag());
    assert!(!Screen::Seam.reachable_by_flag());
}

#[test]
fn every_refusal_says_something() {
    assert_eq!(gamble_refusal(GambleBlocked::NotOffered), "Nothing to gamble — win a spin first");
    assert_eq!(gamble_refusal(GambleBlocked::CannotHalve), "This win cannot be split");
    assert_eq!(buy_refusal(BuyBlocked::FeatureActive), "A feature is already running");
    assert_eq!(buy_refusal(BuyBlocked::UnknownTier), "That feature is no longer on the menu");
}

#[test]
fn navigation_answers_without_the_session() {
    let mut paytable = false;
    assert!(matches!(apply_navigation(&mut paytable, UiAction::TogglePaytable), ActionOutcome::PaytableToggled));
    assert!(paytable);
    assert!(matches!(
        apply_navigation(&mut paytable, UiAction::OpenScreen(Screen::Rules)),
        ActionOutcome::ScreenOpened(Screen::Rules)
    ));
    assert!(paytable);
    assert!(matches!(
        apply_navigation(&mut paytable, UiAction::CycleLimit(Cap::Loss)),
        ActionOutcome::LimitRequested(Cap::Loss)
    ));
    assert!(matches!(apply_navigation(&mut paytable, UiAction::SelectMachine(3)), ActionOutcome::MachineSelected(3)));
    assert_eq!(session_request(UiAction::Save), Some(SessionRequest::Save));
    assert_eq!(session_request(UiAction::Spin), None);
}

#[test]
fn a_free_spin_award_starts_extends_and_retires_the_feature() {
    let mut feature: Option<FreeSpinState> = None;
    let (retriggered, finished) = apply_free_spin_award(&mut feature, 10, 5, 0);
    assert!(!retriggered);
    assert!(finished.is_none());
    assert_eq!(feature, Some(FreeSpinState { remaining: 10, awarded: 10, line_bet: 5, total_won: 0 }));

    let mut running = Some(FreeSpinState { remaining: 2, awarded: 10, line_bet: 5, total_won: 40 });
    let (retriggered, finished) = apply_free_spin_award(&mut running, 5, 9, 12);
    assert!(retriggered);
    assert!(finished.is_none());
    assert_eq!(running, Some(FreeSpinState { remaining: 7, awarded: 15, line_bet: 5, total_won: 52 }));

    let mut last = Some(FreeSpinState { remaining: 0, awarded: 10, line_bet: 5, total_won: 40 });
    let (retriggered, finished) = apply_free_spin_award(&mut last, 0, 5, 8);
    assert!(!retriggered);
    assert_eq!(finished, Some(FreeSpinState { remaining: 0, awarded: 10, line_bet: 5, total_won: 48 }));
    assert_eq!(last, None);

    let mut idle: Option<FreeSpinState> = None;
    assert_eq!(apply_free_spin_award(&mut idle, 0, 5, 8), (false, None));
    assert_eq!(idle, None);
}

#[test]
fn the_registries_list_everything() {
    assert_eq!(Track::all().len(), 4);
    assert_eq!(Track::Arp.label(), "Arp");
    assert_eq!(Mood::all().len(), 3);
    assert_eq!(Mood::default(), Mood::Base);
    assert_eq!(Sfx::all().len(), 10);
    assert_eq!(Sfx::all()[9], Sfx::Click);
}

#[test]
fn the_run_defaults_are_stated() {
    let sim = SimConfig::default();
    assert_eq!(sim.spins, 100_000);
    assert!(!sim.ante);
    assert_eq!(sim.seed, 0xD2A6_0F1E);
    let report = BuyReport::default();
    assert_eq!((report.buys, report.spent, report.won), (0, 0, 0));
    let drift = DriftConfig { steps: 10, seed: 1 };
    assert_eq!(drift.steps, 10);
}

#[test]
fn a_free_spin_spends_one_and_keeps_its_frozen_bet() {
    let mut feature = Some(FreeSpinState { remaining: 3, awarded: 10, line_bet: 7, total_won: 0 });
    assert_eq!(spend_free_spin(&mut feature), Some(7));
    assert_eq!(feature, Some(FreeSpinState { remaining: 2, awarded: 10, line_bet: 7, total_won: 0 }));
    let mut idle: Option<FreeSpinState> = None;
    assert_eq!(spend_free_spin(&mut idle), None);
    assert_eq!(idle, None);
}

#[test]
fn cards_come_in_reading_order_with_the_money_last() {
    let highlights = SpinHighlights {
        awarded: 5,
        retriggered: true,
        scatters: 3,
        hatch_credits: 0,
        credited: 500,
        finished: Some(FreeSpinState { remaining: 0, awarded: 10, line_bet: 1, total_won: 77 }),
        jackpot: Some(JackpotWin { name: "Mini".to_string(), credits: 400 }),
        was_free_spin: true,
        opened_bonus: false,
    };
    let cards = celebrations_for(&highlights, 100);
    assert_eq!(cards.len(), 3);
    assert!(matches!(cards[0], CelebrationKind::FreeSpinsSummary { spins: 10, won: 77 }));
    assert!(matches!(cards[1], CelebrationKind::FreeSpinsRetrigger { spins: 5 }));
    assert!(matches!(&cards[2], CelebrationKind::Jackpot { credits: 400, .. }));

    let quiet = SpinHighlights {
        awarded: 0,
        retriggered: false,
        scatters: 0,
        hatch_credits: 0,
        credited: 150,
        finished: None,
        jackpot: None,
        was_free_spin: false,
        opened_bonus: false,
    };
    let cards = celebrations_for(&quiet, 100);
    assert_eq!(cards.len(), 1);
    assert!(matches!(cards[0], CelebrationKind::BigWin { credits: 150 }));
    assert!(celebrations_for(&quiet, 151).is_empty());
}

#[test]
fn an_unattended_run_stops_for_the_moments_worth_watching() {
    let mut h = SpinHighlights {
        awarded: 0,
        retriggered: false,
        scatters: 0,
        hatch_credits: 0,
        credited: 10,
        finished: None,
        jackpot: None,
        was_free_spin: false,
        opened_bonus: false,
    };
    assert_eq!(autospin_stop(&h, 100), None);
    h.opened_bonus = true;
    assert_eq!(autospin_stop(&h, 100), Some(AutospinStop::Hatched));
    h.awarded = 3;
    assert_eq!(autospin_stop(&h, 100), Some(AutospinStop::FeatureTriggered));
    h.awarded = 0;
    h.opened_bonus = false;
    h.credited = 100;
    assert_eq!(autospin_stop(&h, 100), Some(AutospinStop::BigWin));
}

#[test]
fn the_bet_steps_along_its_ladder_and_stops_at_the_ends() {
    assert_eq!(step_bet(1, 1, 4, false), Some(2));
    assert_eq!(step_bet(3, 1, 4, false), None);
    assert_eq!(step_bet(0, -1, 4, false), None);
    assert_eq!(step_bet(2, -5, 4, false), Some(0));
    assert_eq!(step_bet(1, 1, 4, true), None);
    assert_eq!(top_bet(1, 4, false), Some(3));
    assert_eq!(top_bet(3, 4, false), None);
    assert_eq!(top_bet(0, 4, true), None);
}

use dragons_hoard_engine::game::outcomes::{after_outcome, gate_action, FollowUp, HintCount, Notice, Panels};
use dragons_hoard_engine::state::{GambleFlip, SpinBlocked};

fn closed() -> Panels {
    Panels {
        settings: false,
        machines: false,
        achievements: false,
        vision: false,
        waveforms: false,
        history: false,
        limits: false,
        rules: false,
        ledger: false,
        featurebuy: false,
        reality_check: false,
    }
}

#[test]
fn a_reached_cap_refuses_only_the_spin_and_the_run() {
    assert_eq!(gate_action(UiAction::Spin, Some(Cap::Loss)), Some(Cap::Loss));
    assert_eq!(gate_action(UiAction::ToggleAutospin, Some(Cap::Time)), Some(Cap::Time));
    assert_eq!(gate_action(UiAction::ToggleLedger, Some(Cap::Loss)), None);
    assert_eq!(gate_action(UiAction::BetUp, Some(Cap::Spins)), None);
    assert_eq!(gate_action(UiAction::Spin, None), None);
}

#[test]
fn a_toggle_flips_its_panel_and_clicks() {
    let mut panels = closed();
    let effects = after_outcome(&mut panels, ActionOutcome::SettingsToggled, false);
    assert!(panels.settings);
    assert_eq!(effects.sound, Some(Sfx::Click));
    assert_eq!(effects.volume_percent, 100);
    after_outcome(&mut panels, ActionOutcome::SettingsToggled, false);
    assert!(!panels.settings);
}

#[test]
fn opening_the_rules_or_the_ledger_counts_toward_a_hint() {
    let mut panels = closed();
    let effects = after_outcome(&mut panels, ActionOutcome::RulesToggled, false);
    assert!(panels.rules);
    assert_eq!(effects.hint, Some(HintCount::RulesOpened));
    let effects = after_outcome(&mut panels, ActionOutcome::RulesToggled, false);
    assert!(!panels.rules);
    assert_eq!(effects.hint, None);
    let effects = after_outcome(&mut panels, ActionOutcome::LedgerToggled, false);
    assert_eq!(effects.hint, Some(HintCount::LedgerOpened));
    assert_eq!(effects.follow, FollowUp::MeasureMachine);
}

#[test]
fn a_gamble_closes_the_feature_menu_and_a_flip_sounds_its_result() {
    let mut panels = closed();
    panels.featurebuy = true;
    let effects = after_outcome(&mut panels, ActionOutcome::GambleOffered, false);
    assert!(!panels.featurebuy);
    assert_eq!(effects.sound, Some(Sfx::Scatter));
    let won = after_outcome(&mut panels, ActionOutcome::GambleFlipped(GambleFlip { won: true }), false);
    assert!(won.shake);
    assert_eq!(won.sound, Some(Sfx::WinSmall));
    let lost = after_outcome(&mut panels, ActionOutcome::GambleFlipped(GambleFlip { won: false }), false);
    assert_eq!(lost.sound, Some(Sfx::ReelStop));
    assert_eq!(lost.volume_percent, 50);
}

#[test]
fn running_out_of_credits_stops_a_run_or_warns() {
    let mut panels = closed();
    let running = after_outcome(&mut panels, ActionOutcome::SpinBlocked(SpinBlocked::InsufficientBalance), true);
    assert!(matches!(running.notice, Some(Notice::AutospinStopped(AutospinStop::OutOfCredits))));
    assert_eq!(running.follow, FollowUp::StopAutospin);
    let idle = after_outcome(&mut panels, ActionOutcome::SpinBlocked(SpinBlocked::InsufficientBalance), false);
    assert!(matches!(idle.notice, Some(Notice::NotEnoughCredits)));
    let busy = after_outcome(&mut panels, ActionOutcome::SpinBlocked(SpinBlocked::Busy), false);
    assert!(busy.notice.is_none() && busy.sound.is_none());
}

#[test]
fn a_vault_payout_is_announced_and_saved() {
    let mut panels = closed();
    let effects = after_outcome(&mut panels, ActionOutcome::BonusFinished(250), false);
    assert!(matches!(effects.notice, Some(Notice::VaultYield(250))));
    assert_eq!(effects.sound, Some(Sfx::WinBig));
    assert!(effects.autosave);
    let effects = after_outcome(&mut panels, ActionOutcome::Session(SessionRequest::Save), false);
    assert_eq!(effects.follow, FollowUp::Session(SessionRequest::Save));
    let effects = after_outcome(&mut panels, ActionOutcome::RealityCheckAcknowledged, false);
    assert_eq!(effects.follow, FollowUp::AcknowledgeRealityCheck);
}
