use dragons_hoard_engine::data::load::CabinetParts;
use dragons_hoard_engine::data::{
    machine_by_id, machines, render, validate_jackpots, weave, Ante, BonusConfig, CascadeConfig, CelebrationText,
    CoinValue, DataError, Evaluation, FeatureBuyConfig, FreeSpinShape, FreeSpinsConfig, GambleConfig, GameConfig,
    GameData, HoldSpinConfig, JackpotTier, Jackpots, MachineDef, Payline, PresentationConfig, Refine, RiteDef,
    RiteKind, RuleText, SeamConfig, ShortcutText, SymbolDef, Symbols,
};
use dragons_hoard_engine::text::parse_count;

fn text(s: &str) -> String {
    s.to_string()
}

fn entries(list: &[(&str, i64)]) -> Vec<(String, i64)> {
    list.iter().map(|(k, v)| (k.to_string(), *v)).collect()
}

fn bare(id: &str, wild: bool, scatter: bool, hoard: bool) -> SymbolDef {
    SymbolDef {
        id: text(id),
        name: text(id),
        tier: text("low"),
        short: text("XXX"),
        art: text(id),
        texture: text(id),
        is_wild: wild,
        is_scatter: scatter,
        is_hoard: hoard,
        pays: Vec::new(),
    }
}

fn symbol_set() -> Vec<SymbolDef> {
    vec![
        bare("wild", true, false, false),
        bare("scatter", false, true, false),
        bare("egg", false, false, true),
        bare("copper", false, false, false),
        bare("gold", false, false, false),
        bare("ruby", false, false, false),
    ]
}

fn paytable() -> Vec<(String, Vec<(String, i64)>)> {
    vec![
        (text("wild"), Vec::new()),
        (text("scatter"), entries(&[("3", 2), ("4", 5), ("5", 10)])),
        (text("egg"), Vec::new()),
        (text("copper"), entries(&[("3", 5), ("4", 10), ("5", 20)])),
        (text("gold"), entries(&[("3", 10), ("4", 25), ("5", 50)])),
        (text("ruby"), entries(&[("3", 20), ("4", 50), ("5", 100)])),
    ]
}

fn named_strips() -> Vec<Vec<String>> {
    let strip = ["copper", "gold", "ruby", "copper", "scatter", "gold", "egg", "copper", "wild", "ruby"];
    (0..5).map(|_| strip.iter().map(|s| s.to_string()).collect()).collect()
}

fn config() -> GameConfig {
    GameConfig {
        game_name: text("Toy"),
        display_name: text("Toy"),
        save_slot: text("toy"),
        version: text("1"),
        starting_balance: 1000,
        reel_count: 5,
        row_count: 3,
        line_bets: vec![1, 2, 5, 10],
        default_line_bet_index: 0,
        hoard_capacity: 10,
        hatch_pot_multiplier: 5,
        hoard_salvage_permille: 500,
        vault_stake: 100,
        free_spin_multiplier: 2,
        autospin_choices: vec![10, 25],
        default_autospin_choice: 0,
        big_win_multiple: 10,
        evaluation: Evaluation::Lines,
        reel_heights: None,
        bet_units: None,
        symbol_set: text("hoard"),
        theme: None,
    }
}

fn tier(id: &str, share: i64, odds: i64) -> JackpotTier {
    JackpotTier { id: text(id), name: text(id), seed: 100, share_permille: share, odds_per_credit: odds, shared: false }
}

fn freespins() -> FreeSpinsConfig {
    FreeSpinsConfig {
        awards: vec![(text("3"), 10), (text("4"), 15), (text("5"), 20)],
        retrigger: true,
        multiplier: 2,
        expanding_wilds: false,
        refine: None,
        ante: None,
        shapes: Vec::new(),
    }
}

fn parts() -> CabinetParts {
    CabinetParts {
        config: config(),
        symbols: symbol_set(),
        paytable: paytable(),
        strips: named_strips(),
        paylines: vec![
            Payline { id: 1, name: text("middle"), rows: vec![1, 1, 1, 1, 1] },
            Payline { id: 2, name: text("top"), rows: vec![0, 0, 0, 0, 0] },
        ],
        freespins: freespins(),
        jackpots: Jackpots { contribution_permille: 10, tiers: vec![tier("mini", 600, 1000), tier("major", 400, 50000)] },
        bonus: BonusConfig { board_size: 12, blanks: 3, prizes_permille: vec![500, 1000] },
        holdspin: HoldSpinConfig {
            trigger_eggs: 6,
            respins: 3,
            coin_chance_permille: 100,
            coin_values: vec![CoinValue { multiple: 1, weight: 1 }],
            full_board_multiple: 100,
        },
        seam: SeamConfig {
            trigger_count: 9,
            steps: 3,
            max_multiple: 50,
            rites: vec![RiteDef { id: text("widen"), name: text("Widen"), weight: 1, kind: RiteKind::Widen { spread_permille: 500 } }],
        },
        featurebuy: FeatureBuyConfig { target_rtp_permille: 960, tiers: Vec::new() },
        gamble: GambleConfig { max_steps: 5, ceiling_multiple: 100, allow_half: true },
        cascade: None,
        presentation: PresentationConfig {
            shortcuts: ShortcutText { spin: text("Space"), labels: Vec::new() },
            celebration: CelebrationText {
                continue_prompt: text("Continue"),
                headings: Vec::new(),
                titles: Vec::new(),
                subtitles: Vec::new(),
            },
            rules: RuleText { templates: Vec::new() },
        },
    }
}

fn toy() -> MachineDef {
    MachineDef { id: text("toy"), blurb: text("A toy cabinet.") }
}

#[test]
fn a_cabinet_assembles_from_its_parts() {
    let data = GameData::assemble(toy(), parts()).expect("the toy cabinet is sound");
    assert_eq!(data.symbols.len(), 6);
    assert_eq!(data.symbols.index_of("gold"), Some(4));
    assert_eq!(data.symbols.pay(4, 4), 25);
    assert_eq!(data.symbols.pay(4, 2), 0);
    assert_eq!(data.symbols.wild(), Some(0));
    assert_eq!(data.symbols.scatter(), Some(1));
    assert_eq!(data.symbols.hoard(), Some(2));
    assert_eq!(data.reels[0], vec![3, 4, 5, 3, 1, 4, 2, 3, 0, 5]);
    assert_eq!(data.machine_id(), "toy");
    assert_eq!(data.bet_units(), 2);
    assert_eq!(data.total_bet(5), 10);
    assert_eq!(data.line_bet(2), 5);
    assert_eq!(data.line_bet(9), 1);
    assert_eq!(data.ways_count(), None);
}

#[test]
fn a_symbol_the_paytable_does_not_price_is_refused() {
    let mut p = parts();
    p.paytable.retain(|(id, _)| id != "ruby");
    assert_eq!(GameData::assemble(toy(), p).unwrap_err(), DataError::NoPaytableEntry(text("ruby")));
}

#[test]
fn a_paytable_entry_for_a_missing_symbol_is_refused() {
    let mut p = parts();
    p.paytable.push((text("opal"), entries(&[("3", 1)])));
    assert_eq!(GameData::assemble(toy(), p).unwrap_err(), DataError::PaytableExtra(text("opal")));
}

#[test]
fn a_strip_naming_an_unknown_symbol_is_refused() {
    let mut p = parts();
    p.strips[2][4] = text("opal");
    assert_eq!(
        GameData::assemble(toy(), p).unwrap_err(),
        DataError::UnknownStripSymbol { reel: 2, id: text("opal") }
    );
}

#[test]
fn a_payline_cabinet_without_paylines_is_refused() {
    let mut p = parts();
    p.paylines.clear();
    assert_eq!(GameData::assemble(toy(), p).unwrap_err(), DataError::NoPaylines);
}

#[test]
fn six_reels_of_paylines_are_refused() {
    let mut p = parts();
    p.config.reel_count = 6;
    assert_eq!(GameData::assemble(toy(), p).unwrap_err(), DataError::TooManyReels(6));
}

#[test]
fn a_short_strip_is_refused() {
    let mut p = parts();
    p.strips[3].truncate(2);
    assert_eq!(GameData::assemble(toy(), p).unwrap_err(), DataError::ShortStrip { reel: 3, len: 2, rows: 3 });
}

#[test]
fn symbol_sets_are_checked_in_order() {
    assert_eq!(Symbols::new(Vec::new()).unwrap_err(), DataError::NoSymbols);
    let mut defs = symbol_set();
    defs.push(bare("gold", false, false, false));
    assert_eq!(Symbols::new(defs).unwrap_err(), DataError::DuplicateSymbol(text("gold")));
    let mut defs = symbol_set();
    defs[3].pays = entries(&[("three", 5)]);
    assert_eq!(
        Symbols::new(defs).unwrap_err(),
        DataError::NonNumericPayKey { symbol: text("copper"), key: text("three") }
    );
    let mut defs = symbol_set();
    defs[4].pays = entries(&[("6", 5)]);
    assert_eq!(Symbols::new(defs).unwrap_err(), DataError::RunTooLong { symbol: text("gold"), count: 6 });
    let mut defs = symbol_set();
    defs[5].is_wild = true;
    assert_eq!(Symbols::new(defs).unwrap_err(), DataError::MultipleWilds);
    let mut defs = symbol_set();
    defs[0].is_scatter = true;
    defs[1].is_scatter = false;
    assert_eq!(Symbols::new(defs).unwrap_err(), DataError::WildScatter);
}

#[test]
fn a_jackpot_ladder_must_share_out_exactly_and_climb() {
    let ok = Jackpots { contribution_permille: 10, tiers: vec![tier("mini", 600, 1000), tier("major", 400, 50000)] };
    assert!(validate_jackpots(&ok).is_ok());
    let short = Jackpots { contribution_permille: 10, tiers: vec![tier("mini", 600, 1000), tier("major", 300, 50000)] };
    assert_eq!(validate_jackpots(&short).unwrap_err(), DataError::JackpotShares(900));
    let flat = Jackpots { contribution_permille: 10, tiers: vec![tier("mini", 600, 1000), tier("major", 400, 1000)] };
    assert_eq!(validate_jackpots(&flat).unwrap_err(), DataError::JackpotOrder);
    let none = Jackpots { contribution_permille: 10, tiers: Vec::new() };
    assert_eq!(validate_jackpots(&none).unwrap_err(), DataError::NoJackpotTiers);
}

#[test]
fn free_spin_awards_and_shapes() {
    let fs = freespins();
    assert_eq!(fs.trigger_count(), 3);
    assert_eq!(fs.award_for(4), 15);
    assert_eq!(fs.award_for(2), 0);
    let shape = FreeSpinShape { id: text("fewer"), name: text("Fewer"), spin_permille: 500, multiplier: 4 };
    assert_eq!(shape.value(), 2000);
    assert_eq!(shape.spins(10), 5);
    assert_eq!(shape.spins(1), 1);
}

#[test]
fn the_cascade_ladder_holds_its_top_rung() {
    let config = CascadeConfig { multipliers: vec![1, 2, 3], max_steps: 5 };
    assert_eq!(config.multiplier_at(0), 1);
    assert_eq!(config.multiplier_at(2), 3);
    assert_eq!(config.multiplier_at(7), 3);
    let empty = CascadeConfig { multipliers: Vec::new(), max_steps: 5 };
    assert_eq!(empty.multiplier_at(0), 1);
}

#[test]
fn weaving_spaces_the_copies_evenly_and_adds_exactly_them() {
    let woven = weave(&[1, 2, 3, 4], 9, 2);
    assert_eq!(woven, vec![1, 2, 9, 3, 4, 9]);
    assert_eq!(woven.len(), 6);
    assert_eq!(woven.iter().filter(|s| **s == 9).count(), 2);
    assert_eq!(weave(&[1, 2, 3], 9, 0), vec![1, 2, 3]);
}

#[test]
fn the_ante_costs_a_stated_share_and_weaves_only_the_first_reel() {
    let mut p = parts();
    p.freespins.ante = Some(Ante { cost_permille: 1250, extra_scatters: 1 });
    let data = GameData::assemble(toy(), p).expect("an ante cabinet is sound");
    assert_eq!(data.staked(15, false), 30);
    assert_eq!(data.staked(15, true), 37);
    let reels = data.ante_reels();
    assert_eq!(reels[0].len(), 81);
    assert_eq!(reels[0].iter().filter(|s| **s == 1).count(), 9);
    assert_eq!(reels[1], data.reels[1]);
}

#[test]
fn refining_burns_in_order_and_never_empties_a_reel() {
    let mut p = parts();
    p.freespins.refine = Some(Refine { order: vec![text("copper"), text("gold")] });
    let data = GameData::assemble(toy(), p).expect("a refining cabinet is sound");
    assert_eq!(data.refine_depth(), 2);
    let once = data.refined_reels(1);
    assert_eq!(once[0], vec![4, 5, 1, 4, 2, 0, 5]);
    let twice = data.refined_reels(2);
    assert_eq!(twice[0], vec![5, 1, 2, 0, 5]);
    assert_eq!(data.refined_reels(0)[0], data.reels[0]);
}

#[test]
fn the_catalog_falls_back_to_its_first_machine() {
    assert_eq!(machines().len(), 5);
    assert_eq!(machine_by_id("frost").id, "frost");
    assert_eq!(machine_by_id("nowhere").id, "dragon");
    assert_eq!(
        machine_by_id("frost").blurb,
        "High volatility. Rarer wins, far bigger, with tripled free spins."
    );
    assert_eq!(
        machines()[4].blurb,
        "Cascading 243 ways. Winners are cleared, the grid refills, and the multiplier climbs."
    );
}

#[test]
fn templates_fill_their_placeholders() {
    assert_eq!(render("Win {n} credits", &[("n", text("12"))]), "Win 12 credits");
    assert_eq!(render("{a}{a}", &[("a", text("x"))]), "xx");
    assert_eq!(render("plain", &[]), "plain");
}

#[test]
fn counts_parse_as_usize_does() {
    assert_eq!(parse_count("12"), Some(12));
    assert_eq!(parse_count("+3"), Some(3));
    assert_eq!(parse_count("x"), None);
    assert_eq!(parse_count(""), None);
}

#[test]
fn a_refusal_says_what_was_wrong_in_words() {
    assert_eq!(
        DataError::SeamTrigger { trigger: 40, cells: 15 }.message(),
        "seam trigger_count (40) must fit on a 15-cell grid"
    );
    assert_eq!(
        DataError::JackpotShares(990).message(),
        "jackpot shares must total 1000 permille, got 990"
    );
    assert_eq!(DataError::JackpotShares(-5).message(), "jackpot shares must total 1000 permille, got -5");
    assert_eq!(
        DataError::ShortStrip { reel: 3, len: 2, rows: 3 }.message(),
        "reel strip 3 has 2 symbols, fewer than row_count 3"
    );
    assert_eq!(DataError::DuplicateSymbol(text("gold")).message(), "duplicate symbol id 'gold'");
    assert_eq!(DataError::NoRites.message(), "seam.json declared no rites");
    assert_eq!(
        DataError::UnknownStripSymbol { reel: 0, id: text("opal") }.message(),
        "reel 0 references unknown symbol 'opal'"
    );
}

#[test]
fn a_bought_wrath_must_fit_its_coins_on_the_grid() {
    let mut p = parts();
    p.featurebuy.tiers = vec![dragons_hoard_engine::data::features::FeatureBuyTier {
        id: text("wrath"),
        name: text("The Dragon's Wrath"),
        description: text("A hold-and-spin round."),
        award: dragons_hoard_engine::data::features::FeatureAward::Wrath { coins: 16 },
        price_multiple: 50,
    }];
    let error = GameData::assemble(toy(), p).unwrap_err();
    assert_eq!(error, DataError::BuyCoins { tier: text("wrath"), coins: 16, cells: 15 });
    assert_eq!(error.message(), "feature buy tier 'wrath' places 16 coins, which must fit on a 15-cell grid");
}
