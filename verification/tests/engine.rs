use dragons_hoard_engine::data::{
    BonusConfig, CascadeConfig, CelebrationText, CoinValue, Evaluation, FeatureBuyConfig, FreeSpinsConfig,
    GambleConfig, GameConfig, GameData, HoldSpinConfig, JackpotTier, Jackpots, MachineDef, Payline,
    PresentationConfig, RiteDef, RiteKind, RuleText, SeamConfig, ShortcutText, SymbolDef, Symbols,
};
use dragons_hoard_engine::engine::cascade::{collapse, resolve, total_credits};
use dragons_hoard_engine::engine::evaluate::{evaluate, expand_wilds, EvalContext, WinSource};
use dragons_hoard_engine::engine::reels::{grid_from_stops, Grid};
use dragons_hoard_engine::engine::{cluster, seam, spin, SpinMode};

const WILD: usize = 0;
const SCATTER: usize = 1;
const EGG: usize = 2;
const COPPER: usize = 3;
const GOLD: usize = 4;
const RUBY: usize = 5;

fn text(s: &str) -> String {
    s.to_string()
}

fn pays(entries: &[(&str, i64)]) -> Vec<(String, i64)> {
    entries.iter().map(|(k, v)| (k.to_string(), *v)).collect()
}

fn def(id: &str, wild: bool, scatter: bool, hoard: bool, entries: &[(&str, i64)]) -> SymbolDef {
    SymbolDef {
        id: text(id),
        name: text(id),
        tier: text("low"),
        short: text("XXX"),
        art: text(id),
        texture: text(id),
        is_wild: wild,
        is_scatter: scatter,
        is_hoard: hoard,
        pays: pays(entries),
    }
}

fn symbol_defs() -> Vec<SymbolDef> {
    vec![
        def("wild", true, false, false, &[]),
        def("scatter", false, true, false, &[("3", 2), ("4", 5), ("5", 10)]),
        def("egg", false, false, true, &[]),
        def("copper", false, false, false, &[("3", 5), ("4", 10), ("5", 20)]),
        def("gold", false, false, false, &[("3", 10), ("4", 25), ("5", 50)]),
        def("ruby", false, false, false, &[("3", 20), ("4", 50), ("5", 100)]),
    ]
}

fn config(evaluation: Evaluation, bet_units: Option<usize>) -> GameConfig {
    GameConfig {
        game_name: text("Toy"),
        display_name: text("Toy"),
        save_slot: text("toy"),
        version: text("1"),
        starting_balance: 1000,
        reel_count: 5,
        row_count: 3,
        line_bets: vec![1, 2, 5, 10],
        default_line_bet_index: 0,
        hoard_capacity: 10,
        hatch_pot_multiplier: 5,
        hoard_salvage_permille: 500,
        vault_stake: 100,
        free_spin_multiplier: 2,
        autospin_choices: vec![10, 25],
        default_autospin_choice: 0,
        big_win_multiple: 10,
        evaluation,
        reel_heights: None,
        bet_units,
        symbol_set: text("hoard"),
        theme: None,
    }
}

fn strips() -> Vec<Vec<usize>> {
    vec![
        vec![COPPER, GOLD, RUBY, COPPER, SCATTER, GOLD, EGG, COPPER, WILD, RUBY],
        vec![COPPER, GOLD, EGG, RUBY, COPPER, SCATTER, GOLD, COPPER, RUBY, WILD],
        vec![SCATTER, WILD, COPPER, GOLD, RUBY, COPPER, EGG, GOLD, COPPER, RUBY],
        vec![RUBY, COPPER, SCATTER, GOLD, EGG, COPPER, WILD, RUBY, GOLD, COPPER],
        vec![EGG, COPPER, RUBY, GOLD, COPPER, WILD, SCATTER, RUBY, COPPER, GOLD],
    ]
}

fn cabinet(evaluation: Evaluation, cascade: Option<CascadeConfig>) -> GameData {
    let (paylines, bet_units) = match evaluation {
        Evaluation::Lines => (
            vec![
                Payline { id: 1, name: text("middle"), rows: vec![1, 1, 1, 1, 1] },
                Payline { id: 2, name: text("top"), rows: vec![0, 0, 0, 0, 0] },
                Payline { id: 3, name: text("bottom"), rows: vec![2, 2, 2, 2, 2] },
            ],
            None,
        ),
        _ => (Vec::new(), Some(25)),
    };
    GameData {
        machine: MachineDef { id: text("toy"), blurb: text("A toy cabinet.") },
        config: config(evaluation, bet_units),
        symbols: Symbols::new(symbol_defs()).unwrap(),
        reels: strips(),
        paylines,
        freespins: FreeSpinsConfig {
            awards: vec![(text("3"), 10), (text("4"), 15), (text("5"), 20)],
            retrigger: true,
            multiplier: 2,
            expanding_wilds: true,
            refine: None,
            ante: None,
            shapes: Vec::new(),
        },
        jackpots: Jackpots {
            contribution_permille: 10,
            tiers: vec![JackpotTier {
                id: text("mini"),
                name: text("Mini"),
                seed: 100,
                share_permille: 1000,
                odds_per_credit: 1000,
                shared: false,
            }],
        },
        bonus: BonusConfig { board_size: 12, blanks: 3, prizes_permille: vec![500, 1000] },
        holdspin: HoldSpinConfig {
            trigger_eggs: 6,
            respins: 3,
            coin_chance_permille: 100,
            coin_values: vec![CoinValue { multiple: 1, weight: 1 }],
            full_board_multiple: 100,
        },
        seam: SeamConfig {
            trigger_count: 9,
            steps: 3,
            max_multiple: 50,
            rites: vec![
                RiteDef { id: text("widen"), name: text("Widen"), weight: 3, kind: RiteKind::Widen { spread_permille: 500 } },
                RiteDef { id: text("enrich"), name: text("Enrich"), weight: 1, kind: RiteKind::Enrich { rungs: 1 } },
            ],
        },
        featurebuy: FeatureBuyConfig { target_rtp_permille: 960, tiers: Vec::new() },
        gamble: GambleConfig { max_steps: 5, ceiling_multiple: 100, allow_half: true },
        cascade,
        presentation: PresentationConfig {
            shortcuts: ShortcutText { spin: text("Space"), labels: Vec::new() },
            celebration: CelebrationText {
                continue_prompt: text("Continue"),
                headings: Vec::new(),
                titles: Vec::new(),
                subtitles: Vec::new(),
            },
            rules: RuleText { templates: Vec::new() },
        },
    }
}

fn grid(columns: &[[usize; 3]]) -> Grid {
    let columns: Vec<Vec<usize>> = columns.iter().map(|c| c.to_vec()).collect();
    Grid::from_columns(&columns)
}

fn sample_grid() -> Grid {
    grid(&[
        [COPPER, GOLD, RUBY],
        [COPPER, GOLD, EGG],
        [SCATTER, WILD, COPPER],
        [RUBY, COPPER, SCATTER],
        [EGG, COPPER, RUBY],
    ])
}

#[test]
fn a_line_pays_its_best_reading_times_the_bet() {
    let data = cabinet(Evaluation::Lines, None);
    let ctx = EvalContext::base(&data, 10);
    assert_eq!(ctx.total_bet, 30);
    let outcome = evaluate(&data, &sample_grid(), &ctx);
    assert_eq!(outcome.wins.len(), 1);
    let win = &outcome.wins[0];
    assert_eq!(win.source, WinSource::Line(0));
    assert_eq!(win.symbol, GOLD);
    assert_eq!(win.count, 3);
    assert_eq!(win.credits, 100);
    assert_eq!(win.cells, vec![1, 4, 7]);
    assert_eq!(outcome.win_credits, 100);
    assert_eq!(outcome.scatter_count, 2);
    assert_eq!(outcome.scatter_credits, 0);
    assert_eq!(outcome.free_spins_awarded, 0);
    assert_eq!(outcome.egg_count, 2);
    assert_eq!(outcome.total_credits, 100);
}

#[test]
fn three_scatters_pay_the_total_bet_and_award_spins() {
    let data = cabinet(Evaluation::Lines, None);
    let ctx = EvalContext::base(&data, 2);
    let g = grid(&[
        [SCATTER, GOLD, RUBY],
        [COPPER, SCATTER, EGG],
        [RUBY, EGG, SCATTER],
        [RUBY, COPPER, GOLD],
        [EGG, COPPER, RUBY],
    ]);
    let outcome = evaluate(&data, &g, &ctx);
    assert_eq!(outcome.scatter_count, 3);
    assert_eq!(outcome.scatter_credits, 2 * 6);
    assert_eq!(outcome.free_spins_awarded, 10);
    assert_eq!(outcome.egg_count, 3);
    assert_eq!(outcome.total_credits, outcome.win_credits + 12);
}

#[test]
fn a_free_spin_multiplies_reel_wins_only() {
    let data = cabinet(Evaluation::Lines, None);
    let ctx = EvalContext::free_spin(&data, 10);
    assert_eq!(ctx.win_multiplier, 2);
    let outcome = evaluate(&data, &sample_grid(), &ctx);
    assert_eq!(outcome.win_credits, 200);
    let at = EvalContext::free_spin_at(&data, 10, 0);
    assert_eq!(at.win_multiplier, 1);
}

#[test]
fn ways_pay_every_path_from_the_left() {
    let data = cabinet(Evaluation::Ways, None);
    let ctx = EvalContext::base(&data, 1);
    assert_eq!(ctx.total_bet, 25);
    let g = grid(&[
        [GOLD, GOLD, RUBY],
        [COPPER, GOLD, EGG],
        [WILD, RUBY, COPPER],
        [RUBY, COPPER, SCATTER],
        [EGG, COPPER, RUBY],
    ]);
    let outcome = evaluate(&data, &g, &ctx);
    // Gold: 2 ways on reel one, 1 on reel two, the wild on reel three: run 3,
    // 2 ways, pays 10 each.
    let gold = outcome.wins.iter().find(|w| w.symbol == GOLD).expect("gold pays");
    assert_eq!(gold.source, WinSource::Ways(2));
    assert_eq!(gold.count, 3);
    assert_eq!(gold.credits, 20);
}

#[test]
fn a_cluster_pays_its_size_and_shares_no_gem() {
    let data = cabinet(Evaluation::Cluster, None);
    let ctx = EvalContext::base(&data, 1);
    let g = grid(&[
        [COPPER, COPPER, RUBY],
        [COPPER, WILD, GOLD],
        [COPPER, COPPER, GOLD],
        [RUBY, GOLD, GOLD],
        [GOLD, GOLD, RUBY],
    ]);
    let outcome = evaluate(&data, &g, &ctx);
    assert_eq!(outcome.wins.len(), 2);
    let copper = &outcome.wins[0];
    assert_eq!(copper.symbol, COPPER);
    assert_eq!(copper.cells, vec![0, 1, 3, 4, 6, 7]);
    assert_eq!(copper.source, WinSource::Cluster(6));
    // Six cells: the top rung (20) and a quarter more.
    assert_eq!(copper.credits, 25);
    let gold = &outcome.wins[1];
    assert_eq!(gold.symbol, GOLD);
    assert_eq!(gold.cells, vec![4, 5, 8, 10, 11, 12, 13]);
    // Seven cells: the top rung (50) and half again.
    assert_eq!(gold.credits, 75);
    // The wild at cell 4 is in both; no ordinary cell is.
    for cell in &copper.cells {
        if *cell != 4 {
            assert!(!gold.cells.contains(cell));
        }
    }
}

#[test]
fn a_cluster_below_five_pays_nothing_and_a_wild_never_seeds() {
    let data = cabinet(Evaluation::Cluster, None);
    assert_eq!(cluster::pay(&data, COPPER, 5), 20);
    // Nine cells doubles the top rung, thirteen doubles it again.
    assert_eq!(cluster::pay(&data, RUBY, 9), 200);
    assert_eq!(cluster::pay(&data, RUBY, 13), 400);
    assert_eq!(cluster::pay(&data, RUBY, 10), 250);
    let g = grid(&[
        [WILD, WILD, WILD],
        [WILD, WILD, WILD],
        [COPPER, RUBY, GOLD],
        [RUBY, GOLD, COPPER],
        [GOLD, COPPER, RUBY],
    ]);
    let wins = cluster::wins(&data, &g, 1, 1);
    for win in &wins {
        assert_ne!(win.symbol, WILD);
    }
}

#[test]
fn expanding_wilds_fills_every_reel_showing_one_and_only_those() {
    let data = cabinet(Evaluation::Lines, None);
    let expanded = expand_wilds(&data, &sample_grid());
    for row in 0..3 {
        assert_eq!(expanded.at(2, row), WILD);
    }
    assert_eq!(expanded.at(0, 0), COPPER);
    assert_eq!(expanded.at(4, 2), RUBY);
    let again = expand_wilds(&data, &expanded);
    for reel in 0..5 {
        for row in 0..3 {
            assert_eq!(again.at(reel, row), expanded.at(reel, row));
        }
    }
}

#[test]
fn survivors_fall_and_keep_their_order() {
    let data = cabinet(Evaluation::Lines, Some(CascadeConfig { multipliers: vec![1, 2, 3], max_steps: 4 }));
    let stops = vec![3, 7, 1, 5, 2];
    let landed = grid_from_stops(&data, &stops);
    let rows = landed.rows_on(0);
    let mut consumed = vec![0; landed.reel_count()];
    let after = collapse(&data, &landed, &[rows - 1], &stops, &mut consumed);
    for row in 1..rows {
        assert_eq!(after.at(0, row), landed.at(0, row - 1), "row {} did not fall by one", row);
    }
    for reel in 1..landed.reel_count() {
        for row in 0..rows {
            assert_eq!(after.at(reel, row), landed.at(reel, row), "untouched reel moved");
        }
    }
}

#[test]
fn a_refill_comes_from_the_strip_above_the_stop() {
    let data = cabinet(Evaluation::Lines, Some(CascadeConfig { multipliers: vec![1, 2, 3], max_steps: 4 }));
    let stops = vec![0, 7, 1, 5, 2];
    let landed = grid_from_stops(&data, &stops);
    let rows = landed.rows_on(0);
    let mut consumed = vec![0; landed.reel_count()];
    let after = collapse(&data, &landed, &[rows - 1], &stops, &mut consumed);
    let strip = &data.reels[0];
    let expected = strip[(stops[0] as i64 - 1).rem_euclid(strip.len() as i64) as usize];
    assert_eq!(after.at(0, 0), expected);
    assert_eq!(after.at(0, 0), RUBY);
    assert_eq!(consumed[0], 1, "the strip should have advanced by one");
    assert_eq!(consumed[1], 0);
}

#[test]
fn a_chain_starts_on_the_landing_grid_and_ends_without_holes() {
    let data = cabinet(Evaluation::Lines, Some(CascadeConfig { multipliers: vec![1, 2, 3], max_steps: 4 }));
    let config = data.cascade.as_ref().unwrap();
    for first in 0..10 {
        let stops = vec![first, (first + 3) % 10, (first + 5) % 10, (first + 7) % 10, (first + 2) % 10];
        let landed = grid_from_stops(&data, &stops);
        let ctx = EvalContext::base(&data, 1);
        let steps = resolve(&data, config, &landed, &stops, &ctx);
        assert!(!steps.is_empty());
        assert!(steps.len() <= 4);
        assert!(steps.last().unwrap().cleared.is_empty());
        for (index, step) in steps.iter().enumerate() {
            assert_eq!(step.multiplier, config.multiplier_at(index));
            assert_eq!(step.credits, step.outcome.win_credits * step.multiplier);
            if index + 1 < steps.len() {
                assert!(!step.cleared.is_empty());
            }
        }
        let expected: i64 = steps.iter().map(|step| step.credits).sum();
        assert_eq!(total_credits(&steps), expected);
        let again = resolve(&data, config, &landed, &stops, &ctx);
        assert_eq!(again.len(), steps.len());
        for (a, b) in steps.iter().zip(again.iter()) {
            assert_eq!(a.credits, b.credits);
            assert_eq!(a.cleared, b.cleared);
        }
    }
}

#[test]
fn engine_a_fixed_seed_reproduces_a_whole_spin() {
    let data = cabinet(Evaluation::Lines, Some(CascadeConfig { multipliers: vec![1, 2], max_steps: 3 }));
    for stops in stop_sets() {
        let first = spin(&data, &stops, &[], 10, SpinMode::Base);
        let second = spin(&data, &stops, &[], 10, SpinMode::Base);
        assert_eq!(first.stops, second.stops);
        assert_eq!(first.outcome.wins.len(), second.outcome.wins.len());
        for (a, b) in first.outcome.wins.iter().zip(second.outcome.wins.iter()) {
            assert_eq!(a.source, b.source);
            assert_eq!(a.symbol, b.symbol);
            assert_eq!(a.count, b.count);
            assert_eq!(a.credits, b.credits);
            assert_eq!(a.cells, b.cells);
        }
        assert_eq!(first.outcome.win_credits, second.outcome.win_credits);
        assert_eq!(first.outcome.scatter_count, second.outcome.scatter_count);
        assert_eq!(first.outcome.scatter_credits, second.outcome.scatter_credits);
        assert_eq!(first.outcome.egg_count, second.outcome.egg_count);
        assert_eq!(first.outcome.free_spins_awarded, second.outcome.free_spins_awarded);
        assert_eq!(first.outcome.total_credits, second.outcome.total_credits);
        assert_eq!(first.cascades.len(), second.cascades.len());
        for (a, b) in first.cascades.iter().zip(second.cascades.iter()) {
            assert_eq!(a.cleared, b.cleared);
            assert_eq!(a.credits, b.credits);
            for reel in 0..5 {
                for row in 0..3 {
                    assert_eq!(a.grid.at(reel, row), b.grid.at(reel, row));
                }
            }
        }
        for reel in 0..5 {
            for row in 0..3 {
                assert_eq!(first.grid.at(reel, row), second.grid.at(reel, row));
            }
        }
        let expected: i64 = first.cascades.iter().map(|s| s.credits).sum();
        assert_eq!(first.outcome.win_credits, expected);
    }
}

#[test]
fn engine_free_spins_expand_wilds_before_evaluating() {
    let data = cabinet(Evaluation::Lines, None);
    for stops in stop_sets() {
        let result = spin(&data, &stops, &[], 10, SpinMode::FreeSpin { burned: 0, multiplier: 0 });
        for reel in 0..result.grid.reel_count() {
            if result.grid.reel_contains(reel, WILD) {
                for row in 0..result.grid.rows_on(reel) {
                    assert_eq!(result.grid.at(reel, row), WILD);
                }
            }
        }
        assert_eq!(result.cascades.len(), 1);
    }
}

#[test]
fn the_ladder_climbs_and_leaves_out_everything_a_rite_must_not_mint() {
    let data = cabinet(Evaluation::Lines, None);
    let ladder = seam::ladder(&data);
    assert_eq!(ladder, vec![COPPER, GOLD, RUBY]);
    assert!(!seam::seamable(&data, WILD));
    assert!(!seam::seamable(&data, SCATTER));
    assert!(!seam::seamable(&data, EGG));
}

#[test]
fn the_widest_seam_is_the_one_that_opens() {
    let data = cabinet(Evaluation::Lines, None);
    let g = grid(&[
        [COPPER, COPPER, COPPER],
        [COPPER, COPPER, COPPER],
        [COPPER, COPPER, COPPER],
        [COPPER, COPPER, COPPER],
        [RUBY, RUBY, RUBY],
    ]);
    let found = seam::find(&data, &g, &data.seam).expect("a flooded board is a seam");
    assert_eq!(found.symbol, COPPER);
    assert_eq!(found.cells.len(), 12);
    let flooded = grid(&[[WILD; 3], [WILD; 3], [WILD; 3], [WILD; 3], [WILD; 3]]);
    assert!(seam::find(&data, &flooded, &data.seam).is_none());
}

#[test]
fn widening_only_ever_takes_cells_that_touch_the_seam() {
    let data = cabinet(Evaluation::Lines, None);
    let mut g = grid(&[
        [GOLD, GOLD, GOLD],
        [GOLD, GOLD, GOLD],
        [GOLD, GOLD, GOLD],
        [COPPER, RUBY, WILD],
        [COPPER, COPPER, RUBY],
    ]);
    let mut found = seam::find(&data, &g, &data.seam).expect("gold floods three reels");
    let front = seam::frontier(&data, &g, &found);
    assert_eq!(front, vec![9, 10]);
    let taken = seam::widen(&data, &mut g, &mut found, 1000, &[0, 0]);
    assert_eq!(taken, vec![9, 10]);
    assert_eq!(g.at(3, 0), GOLD);
    assert_eq!(g.at(3, 1), GOLD);
    assert_eq!(g.at(3, 2), WILD);
    assert_eq!(found.cells, vec![0, 1, 2, 3, 4, 5, 6, 7, 8, 9, 10]);
}

#[test]
fn enriching_moves_the_whole_seam_one_rung_and_stops_at_the_top() {
    let data = cabinet(Evaluation::Lines, None);
    let mut g = grid(&[[COPPER; 3], [COPPER; 3], [COPPER; 3], [GOLD; 3], [RUBY; 3]]);
    let mut found = seam::find(&data, &g, &data.seam).expect("copper floods three reels");
    let changed = seam::enrich(&data, &mut g, &mut found, 1);
    assert_eq!(changed.len(), 9);
    assert_eq!(found.symbol, GOLD);
    assert_eq!(g.at(0, 0), GOLD);
    let changed = seam::enrich(&data, &mut g, &mut found, 5);
    assert_eq!(changed.len(), 9);
    assert_eq!(found.symbol, RUBY);
    let changed = seam::enrich(&data, &mut g, &mut found, 1);
    assert!(changed.is_empty());
    assert_eq!(found.symbol, RUBY);
    assert_eq!(seam::gild(&found), found.cells);
}

#[test]
fn a_rite_is_drawn_by_weight() {
    let data = cabinet(Evaluation::Lines, None);
    let rites = &data.seam.rites;
    assert_eq!(seam::draw_weighted(rites, 0).unwrap().id, "widen");
    assert_eq!(seam::draw_weighted(rites, 2).unwrap().id, "widen");
    assert_eq!(seam::draw_weighted(rites, 3).unwrap().id, "enrich");
    assert!(seam::draw_weighted(&[], 0).is_none());
}

fn cascading() -> GameData {
    cabinet(Evaluation::Lines, Some(CascadeConfig { multipliers: vec![1, 2, 3], max_steps: 4 }))
}

fn stop_sets() -> Vec<Vec<usize>> {
    (0..10).flat_map(|a| (0..10).map(move |b| vec![a, b, (a + b) % 10, (a * 3 + b) % 10, (b * 7 + 1) % 10])).collect()
}

fn chain_of(data: &GameData, stops: &[usize]) -> Vec<dragons_hoard_engine::engine::cascade::CascadeStep> {
    let landed = grid_from_stops(data, stops);
    let ctx = EvalContext::base(data, 1);
    resolve(data, data.cascade.as_ref().unwrap(), &landed, stops, &ctx)
}

#[test]
fn a_chain_always_has_at_least_the_landing_grid() {
    let data = cascading();
    for stops in stop_sets() {
        let steps = chain_of(&data, &stops);
        assert!(!steps.is_empty(), "stops {:?} produced no steps", stops);
        let landed = grid_from_stops(&data, &stops);
        for reel in 0..5 {
            for row in 0..3 {
                assert_eq!(steps[0].grid.at(reel, row), landed.at(reel, row));
            }
        }
    }
}

#[test]
fn the_chain_ends_on_a_grid_that_cleared_nothing() {
    let data = cascading();
    for stops in stop_sets() {
        let steps = chain_of(&data, &stops);
        assert!(steps.last().unwrap().cleared.is_empty(), "stops {:?} ended mid-clear", stops);
    }
}

#[test]
fn every_step_but_the_last_actually_paid() {
    let data = cascading();
    let mut cascaded = 0;
    for stops in stop_sets() {
        let steps = chain_of(&data, &stops);
        for step in &steps[..steps.len() - 1] {
            assert!(!step.cleared.is_empty());
            assert!(step.credits > 0, "stops {:?} cascaded without paying", stops);
            cascaded += 1;
        }
    }
    assert!(cascaded > 0, "no stop set cascaded at all");
}

#[test]
fn the_multiplier_climbs_with_the_chain() {
    let data = cascading();
    let config = data.cascade.as_ref().unwrap();
    for stops in stop_sets() {
        let steps = chain_of(&data, &stops);
        for (index, step) in steps.iter().enumerate() {
            assert_eq!(step.multiplier, config.multiplier_at(index));
        }
        if steps.len() > 1 {
            assert!(steps[1].multiplier >= steps[0].multiplier);
        }
    }
}

#[test]
fn a_chain_is_a_function_of_the_stops_alone() {
    let data = cascading();
    for stops in stop_sets() {
        let first = chain_of(&data, &stops);
        let second = chain_of(&data, &stops);
        assert_eq!(first.len(), second.len(), "stops {:?} did not replay", stops);
        for (a, b) in first.iter().zip(second.iter()) {
            assert_eq!(a.cleared, b.cleared);
            assert_eq!(a.credits, b.credits);
            assert_eq!(a.multiplier, b.multiplier);
            for reel in 0..5 {
                for row in 0..3 {
                    assert_eq!(a.grid.at(reel, row), b.grid.at(reel, row));
                }
            }
        }
    }
}

#[test]
fn a_chain_cannot_run_forever() {
    let data = cascading();
    let config = data.cascade.as_ref().unwrap();
    for stops in stop_sets() {
        assert!(chain_of(&data, &stops).len() <= config.max_steps.max(1));
    }
}

#[test]
fn total_credits_is_the_sum_of_the_steps() {
    let data = cascading();
    for stops in stop_sets() {
        let steps = chain_of(&data, &stops);
        let expected: i64 = steps.iter().map(|step| step.credits).sum();
        assert_eq!(total_credits(&steps), expected);
    }
}

#[test]
fn a_step_pays_its_wins_times_its_multiplier() {
    let data = cascading();
    for stops in stop_sets() {
        for step in chain_of(&data, &stops) {
            assert_eq!(step.credits, step.outcome.win_credits * step.multiplier);
        }
    }
}

#[test]
fn stops_read_three_consecutive_strip_cells() {
    let data = cabinet(Evaluation::Lines, None);
    let stops = vec![0, 1, 2, 3, 4];
    let g = grid_from_stops(&data, &stops);
    for (reel, stop) in stops.iter().enumerate() {
        let strip = &data.reels[reel];
        for row in 0..data.config.row_count {
            assert_eq!(g.at(reel, row), strip[(stop + row) % strip.len()]);
        }
    }
}

#[test]
fn stops_wrap_around_the_end_of_the_strip() {
    let data = cabinet(Evaluation::Lines, None);
    let last = data.reels[0].len() - 1;
    let g = grid_from_stops(&data, &[last, 0, 0, 0, 0]);
    assert_eq!(g.at(0, 0), data.reels[0][last]);
    assert_eq!(g.at(0, 1), data.reels[0][0]);
    assert_eq!(g.at(0, 2), data.reels[0][1]);
}

#[test]
fn a_board_short_of_the_trigger_opens_nothing() {
    let data = cabinet(Evaluation::Lines, None);
    // Eight coppers, one short of the trigger of nine; nothing else repeats
    // enough to open either.
    let g = grid(&[
        [COPPER, COPPER, COPPER],
        [COPPER, COPPER, COPPER],
        [COPPER, COPPER, GOLD],
        [RUBY, GOLD, RUBY],
        [GOLD, RUBY, SCATTER],
    ]);
    assert!(seam::find(&data, &g, &data.seam).is_none());
    // Gold flooding the rest still opens, and the short copper does not.
    let mut flooded = grid(&[[GOLD; 3], [GOLD; 3], [GOLD; 3], [GOLD; 3], [GOLD; 3]]);
    flooded.set(0, 0, COPPER);
    flooded.set(0, 1, COPPER);
    let found = seam::find(&data, &flooded, &data.seam).expect("gold floods the board");
    assert_eq!(found.symbol, GOLD);
}

#[test]
fn a_wild_or_scatter_never_forms_a_seam_and_never_falls_to_one() {
    let data = cabinet(Evaluation::Lines, None);
    for special in [WILD, SCATTER, EGG] {
        let flooded = grid(&[[special; 3], [special; 3], [special; 3], [special; 3], [special; 3]]);
        assert!(seam::find(&data, &flooded, &data.seam).is_none());
    }
    // The frontier will not offer them up to a rite either.
    let mut g = grid(&[[COPPER; 3], [COPPER; 3], [COPPER; 3], [COPPER; 3], [COPPER; 3]]);
    g.set(2, 0, WILD);
    g.set(2, 1, SCATTER);
    g.set(2, 2, EGG);
    let found = seam::find(&data, &g, &data.seam).unwrap();
    assert!(seam::frontier(&data, &g, &found).is_empty());
}

#[test]
fn the_same_seed_works_the_same_seam() {
    let data = cabinet(Evaluation::Lines, None);
    let build = || {
        let g = grid(&[[COPPER; 3], [COPPER; 3], [COPPER; 3], [GOLD, RUBY, GOLD], [RUBY, GOLD, RUBY]]);
        let found = seam::find(&data, &g, &data.seam).unwrap();
        (g, found)
    };
    let (mut first_grid, mut first_seam) = build();
    let (mut second_grid, mut second_seam) = build();
    let rolls: Vec<usize> = (0..16).map(|i| (i * 389) % 1000).collect();
    let a = seam::widen(&data, &mut first_grid, &mut first_seam, 400, &rolls);
    let b = seam::widen(&data, &mut second_grid, &mut second_seam, 400, &rolls);
    assert_eq!(a, b);
    assert_eq!(first_seam.cells, second_seam.cells);
    for reel in 0..5 {
        for row in 0..3 {
            assert_eq!(first_grid.at(reel, row), second_grid.at(reel, row));
        }
    }
}

use dragons_hoard_engine::actions::{apply, ActionOutcome, SessionRequest, UiAction};
use dragons_hoard_engine::state::session::{apply_gameplay, GameSession, SpinDraws};
use dragons_hoard_engine::data::features::{FeatureAward, FeatureBuyTier};
use dragons_hoard_engine::state::{
    AutospinStop, BuyBlocked, CelebrationKind, FreeSpinState, GambleBlocked, JackpotWin, SpinBlocked,
};

fn draws(stops: &[usize]) -> SpinDraws {
    SpinDraws { stops: stops.to_vec(), heights: Vec::new() }
}

#[test]
fn a_new_session_starts_at_the_default_bet_with_nothing_owed() {
    let data = cabinet(Evaluation::Lines, None);
    let session = GameSession::new(&data);
    assert_eq!(session.balance, 1000);
    assert_eq!(session.line_bet_index, 0);
    assert!(session.is_settled());
    assert!(!session.bet_locked());
    assert_eq!(session.reel_stops, vec![0; 5]);
    assert_eq!(session.total_bet(&data), 3);
}

#[test]
fn the_bet_presses_move_along_the_ladder() {
    let data = cabinet(Evaluation::Lines, None);
    let mut session = GameSession::new(&data);
    let none = draws(&[]);
    assert!(matches!(apply_gameplay(&data, &mut session, UiAction::BetDown, &none), ActionOutcome::Ignored));
    assert!(matches!(apply_gameplay(&data, &mut session, UiAction::BetUp, &none), ActionOutcome::BetChanged(2)));
    assert!(matches!(apply_gameplay(&data, &mut session, UiAction::MaxBet, &none), ActionOutcome::BetChanged(10)));
    assert!(matches!(apply_gameplay(&data, &mut session, UiAction::BetUp, &none), ActionOutcome::Ignored));
    assert!(matches!(apply_gameplay(&data, &mut session, UiAction::BetDown, &none), ActionOutcome::BetChanged(5)));
    assert_eq!(session.line_bet_index, 2);
}

#[test]
fn a_paid_spin_takes_the_stake_and_settling_pays_it_back() {
    let data = cabinet(Evaluation::Lines, None);
    let mut session = GameSession::new(&data);
    let stops = [4, 1, 0, 2, 6];
    assert!(matches!(apply_gameplay(&data, &mut session, UiAction::Spin, &draws(&stops)), ActionOutcome::SpinStarted));
    assert_eq!(session.balance, 997);
    assert_eq!(session.stats.total_wagered, 3);
    assert!(session.bet_locked());
    // Mid-spin the next press is busy, and changes nothing.
    assert!(matches!(
        apply_gameplay(&data, &mut session, UiAction::Spin, &draws(&stops)),
        ActionOutcome::SpinBlocked(SpinBlocked::Busy)
    ));
    assert!(matches!(apply_gameplay(&data, &mut session, UiAction::BetUp, &draws(&[])), ActionOutcome::Ignored));
    assert_eq!(session.balance, 997);
    let expected = spin(&data, &stops, &[], 1, SpinMode::Base).outcome.total_credits;
    let resolution = session.settle(&data, None).expect("a spin was waiting");
    assert_eq!(resolution.spin_credits, expected);
    assert_eq!(session.balance, 997 + expected);
    assert_eq!(session.last_win, expected);
    assert_eq!(session.stats.total_spins, 1);
    assert_eq!(session.stats.total_won, expected);
    assert_eq!(session.reel_stops, stops.to_vec());
    assert!(session.settle(&data, None).is_none());
}

#[test]
fn a_balance_short_of_the_bet_cannot_spin() {
    let data = cabinet(Evaluation::Lines, None);
    let mut session = GameSession::new(&data);
    session.balance = 2;
    assert!(!session.can_spin(&data));
    assert!(matches!(
        apply_gameplay(&data, &mut session, UiAction::Spin, &draws(&[0, 0, 0, 0, 0])),
        ActionOutcome::SpinBlocked(SpinBlocked::InsufficientBalance)
    ));
    assert_eq!(session.balance, 2);
    assert!(session.pending.is_none());
}

#[test]
fn a_free_spin_costs_nothing_and_spends_one() {
    let data = cabinet(Evaluation::Lines, None);
    let mut session = GameSession::new(&data);
    session.free_spins = Some(FreeSpinState { remaining: 3, awarded: 3, line_bet: 2, total_won: 0 });
    assert!(matches!(
        apply_gameplay(&data, &mut session, UiAction::Spin, &draws(&[4, 1, 0, 2, 6])),
        ActionOutcome::SpinStarted
    ));
    assert_eq!(session.balance, 1000);
    assert_eq!(session.stats.total_wagered, 0);
    assert_eq!(session.stats.free_spins_played, 1);
    assert_eq!(session.free_spins.unwrap().remaining, 2);
    let pending = session.pending.as_ref().unwrap();
    assert!(pending.was_free_spin);
    assert_eq!(pending.line_bet, 2);
    // A progressive passed to a free spin is not paid: it staked nothing.
    let jackpot = JackpotWin { name: text("Mini"), credits: 500 };
    let resolution = session.settle(&data, Some(jackpot)).unwrap();
    assert!(resolution.jackpot.is_none());
    assert_eq!(session.stats.jackpots, 0);
}

#[test]
fn a_progressive_on_a_paid_spin_is_credited_and_carded() {
    let data = cabinet(Evaluation::Lines, None);
    let mut session = GameSession::new(&data);
    let stops = [4, 1, 0, 2, 6];
    apply_gameplay(&data, &mut session, UiAction::Spin, &draws(&stops));
    let reels = spin(&data, &stops, &[], 1, SpinMode::Base).outcome.total_credits;
    let jackpot = JackpotWin { name: text("Mini"), credits: 500 };
    let resolution = session.settle(&data, Some(jackpot)).unwrap();
    assert_eq!(resolution.jackpot.as_ref().unwrap().credits, 500);
    assert_eq!(session.balance, 997 + reels + 500);
    assert_eq!(session.stats.jackpots, 1);
    assert!(matches!(session.celebrations.last(), Some(CelebrationKind::Jackpot { credits: 500, .. })));
    // The card holds the game until it is dismissed.
    assert!(!session.is_settled());
    let cards = session.celebrations.len();
    assert!(matches!(
        apply_gameplay(&data, &mut session, UiAction::DismissCelebration, &draws(&[])),
        ActionOutcome::CelebrationDismissed
    ));
    assert_eq!(session.celebrations.len(), cards - 1);
}

#[test]
fn the_autospin_button_starts_and_stops_a_run() {
    let data = cabinet(Evaluation::Lines, None);
    let mut session = GameSession::new(&data);
    assert!(matches!(
        apply_gameplay(&data, &mut session, UiAction::ToggleAutospin, &draws(&[])),
        ActionOutcome::AutospinStarted(10)
    ));
    assert_eq!(session.autospin_remaining(), 10);
    assert!(session.bet_locked());
    assert!(matches!(
        apply_gameplay(&data, &mut session, UiAction::ToggleAutospin, &draws(&[])),
        ActionOutcome::AutospinStopped(AutospinStop::Cancelled)
    ));
    assert_eq!(session.autospin_remaining(), 0);
    session.free_spins = Some(FreeSpinState { remaining: 3, awarded: 3, line_bet: 2, total_won: 0 });
    assert!(matches!(
        apply_gameplay(&data, &mut session, UiAction::ToggleAutospin, &draws(&[])),
        ActionOutcome::Ignored
    ));
}

#[test]
fn a_paid_spin_uses_one_spin_of_the_run() {
    let data = cabinet(Evaluation::Lines, None);
    let mut session = GameSession::new(&data);
    session.autospin = Some(2);
    // Stops whose grid pays no big win, no feature and no progressive.
    let stops = [0, 0, 0, 0, 0];
    let result = spin(&data, &stops, &[], 1, SpinMode::Base);
    if result.outcome.free_spins_awarded == 0 && result.outcome.total_credits < 30 {
        apply_gameplay(&data, &mut session, UiAction::Spin, &draws(&stops));
        session.settle(&data, None);
        assert_eq!(session.autospin, Some(1));
    }
}

#[test]
fn a_round_moves_credits_without_making_or_losing_any() {
    let data = cabinet(Evaluation::Lines, None);
    let books = |s: &GameSession| s.balance + s.stats.total_wagered - s.stats.total_won;
    let mut session = GameSession::new(&data);
    let start = books(&session);
    for stops in stop_sets().into_iter().take(30) {
        apply_gameplay(&data, &mut session, UiAction::Spin, &draws(&stops));
        assert_eq!(books(&session), start);
        session.settle(&data, None);
        assert_eq!(books(&session), start);
        while !session.celebrations.is_empty() {
            apply_gameplay(&data, &mut session, UiAction::DismissCelebration, &draws(&[]));
        }
    }
    assert_eq!(session.stats.total_spins, 30);
}

#[test]
fn the_dispatcher_routes_every_intent() {
    let data = cabinet(Evaluation::Lines, None);
    let mut session = GameSession::new(&data);
    let mut paytable = false;
    let none = draws(&[]);
    assert!(matches!(apply(&data, &mut session, &mut paytable, UiAction::TogglePaytable, &none), ActionOutcome::PaytableToggled));
    assert!(paytable);
    assert!(matches!(apply(&data, &mut session, &mut paytable, UiAction::VolumeUp, &none), ActionOutcome::PreferenceChanged));
    assert!(matches!(
        apply(&data, &mut session, &mut paytable, UiAction::Save, &none),
        ActionOutcome::Session(SessionRequest::Save)
    ));
    assert!(matches!(apply(&data, &mut session, &mut paytable, UiAction::MaxBet, &none), ActionOutcome::BetChanged(10)));
    assert!(matches!(
        apply(&data, &mut session, &mut paytable, UiAction::TakeGamble, &none),
        ActionOutcome::GambleRefused(GambleBlocked::NotOffered)
    ));
    assert!(matches!(
        apply(&data, &mut session, &mut paytable, UiAction::Spin, &draws(&[4, 1, 0, 2, 6])),
        ActionOutcome::SpinStarted
    ));
    assert_eq!(session.balance, 1000 - 30);
}

fn with_tiers() -> GameData {
    let mut data = cabinet(Evaluation::Lines, None);
    data.featurebuy.tiers = vec![
        FeatureBuyTier {
            id: text("spins"),
            name: text("Ten free spins"),
            description: text("Ten spins at the current bet."),
            award: FeatureAward::FreeSpins { spins: 10 },
            price_multiple: 100,
        },
        FeatureBuyTier {
            id: text("wrath"),
            name: text("The Dragon's Wrath"),
            description: text("A hold-and-spin round."),
            award: FeatureAward::Wrath { coins: 6 },
            price_multiple: 50,
        },
    ];
    data
}

#[test]
fn a_bought_feature_is_priced_in_total_bets_and_starts_at_the_current_bet() {
    let data = with_tiers();
    let mut session = GameSession::new(&data);
    match apply_gameplay(&data, &mut session, UiAction::BuyFeature(0), &draws(&[])) {
        ActionOutcome::FeatureBought(purchase) => {
            assert_eq!(purchase.tier_name, "Ten free spins");
            assert_eq!(purchase.price, 300);
        },
        other => panic!("expected a purchase, got {:?}", other),
    }
    assert_eq!(session.balance, 700);
    assert_eq!(session.stats.total_wagered, 300);
    let feature = session.free_spins.unwrap();
    assert_eq!((feature.remaining, feature.awarded, feature.line_bet), (10, 10, 1));
    // A second purchase while it runs is refused.
    assert!(matches!(
        apply_gameplay(&data, &mut session, UiAction::BuyFeature(0), &draws(&[])),
        ActionOutcome::FeatureBuyRefused(BuyBlocked::FeatureActive)
    ));
}

#[test]
fn every_buy_refusal_has_its_reason() {
    let data = with_tiers();
    let mut session = GameSession::new(&data);
    assert!(matches!(
        apply_gameplay(&data, &mut session, UiAction::BuyFeature(7), &draws(&[])),
        ActionOutcome::FeatureBuyRefused(BuyBlocked::UnknownTier)
    ));
    assert!(matches!(
        apply_gameplay(&data, &mut session, UiAction::BuyFeature(1), &draws(&[])),
        ActionOutcome::FeatureBuyRefused(BuyBlocked::UnknownTier)
    ));
    session.balance = 299;
    assert!(matches!(
        apply_gameplay(&data, &mut session, UiAction::BuyFeature(0), &draws(&[])),
        ActionOutcome::FeatureBuyRefused(BuyBlocked::InsufficientBalance)
    ));
    assert_eq!(session.balance, 299);
    session.balance = 1000;
    apply_gameplay(&data, &mut session, UiAction::Spin, &draws(&[4, 1, 0, 2, 6]));
    assert!(matches!(
        apply_gameplay(&data, &mut session, UiAction::BuyFeature(0), &draws(&[])),
        ActionOutcome::FeatureBuyRefused(BuyBlocked::Busy)
    ));
}

#[test]
fn with_no_board_or_gamble_open_a_pick_continues_and_a_gamble_is_not_offered() {
    let data = cabinet(Evaluation::Lines, None);
    let mut session = GameSession::new(&data);
    assert!(matches!(
        apply_gameplay(&data, &mut session, UiAction::PickBonus(3), &draws(&[])),
        ActionOutcome::BonusPicked
    ));
    for action in [
        UiAction::OfferGamble,
        UiAction::Gamble(dragons_hoard_engine::state::Scale::Ember),
        UiAction::GambleHalf(dragons_hoard_engine::state::Scale::Ash),
        UiAction::TakeGamble,
    ] {
        assert!(matches!(
            apply_gameplay(&data, &mut session, action, &draws(&[])),
            ActionOutcome::GambleRefused(GambleBlocked::NotOffered)
        ));
    }
    assert_eq!(session.balance, 1000);
}

#[test]
fn the_players_run_length_wins_over_the_default() {
    let data = cabinet(Evaluation::Lines, None);
    let mut session = GameSession::new(&data);
    let mut paytable = false;
    assert_eq!(session.autospin_choice, 0);
    assert!(matches!(
        apply(&data, &mut session, &mut paytable, UiAction::CycleAutospinLength, &draws(&[])),
        ActionOutcome::PreferenceChanged
    ));
    assert_eq!(session.autospin_choice, 1);
    assert!(matches!(
        apply_gameplay(&data, &mut session, UiAction::ToggleAutospin, &draws(&[])),
        ActionOutcome::AutospinStarted(25)
    ));
    apply_gameplay(&data, &mut session, UiAction::ToggleAutospin, &draws(&[]));
    // The choices wrap round to the first.
    apply(&data, &mut session, &mut paytable, UiAction::CycleAutospinLength, &draws(&[]));
    assert_eq!(session.autospin_choice, 0);
}
