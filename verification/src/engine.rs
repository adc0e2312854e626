//! Slot engine: strips, grid, outcome. Stateless; every entry point takes the
//! data it needs and returns a result rather than mutating session state.

pub mod cascade;
pub mod cluster;
pub mod evaluate;
pub mod reels;
pub mod seam;
pub mod sim;

use vstd::prelude::*;
use crate::data::{fits_i64, strips_view, GameData};
use crate::engine::cascade::{
    cascade_ready, chain_credits, chain_credits_fit, resolve, resolves_to, total_credits, CascadeStep,
};
use crate::engine::evaluate::{
    copy_outcome, copy_win, eval_ready, evaluate, evaluates_to, expand_wilds, scatter_credits, spec_expanded,
    win_views, EvalContext, SpinOutcome, WinView,
};
use crate::engine::reels::{grid_on, pick_heights, spec_grid_on, window_fits, Grid, GridView};

verus! {

/// Which strips a spin turns, and what its wins are multiplied by.
#[derive(Debug, Clone, Copy, PartialEq, Eq, Structural)]
pub enum SpinMode {
    Base,
    /// A free spin, on strips with `burned` symbols refined away; a
    /// multiplier of zero or less means the feature's own.
    FreeSpin { burned: usize, multiplier: i64 },
}

/// Everything one spin decided.
#[derive(Debug)]
pub struct SpinResult {
    pub stops: Vec<usize>,
    /// The grid the spin was evaluated on: the landing grid, with wilds
    /// expanded on a free spin that expands them.
    pub grid: Grid,
    /// Features read from the landing grid; wins and win credits summed over
    /// the whole cascade chain.
    pub outcome: SpinOutcome,
    /// Every step of the chain; one step on a cabinet without cascades.
    pub cascades: Vec<CascadeStep>,
}

impl SpinResult {
    /// The grid the reels finally rest on: the last step of the chain.
    pub fn resting_grid(&self) -> (g: &Grid)
        ensures
            g@ == (if self.cascades@.len() > 0 {
                self.cascades@.last().grid@
            } else {
                self.grid@
            }),
    {
        if self.cascades.len() > 0 {
            &self.cascades[self.cascades.len() - 1].grid
        } else {
            &self.grid
        }
    }
}

/// The strips a spin in `mode` turns.
pub open spec fn spin_strips(data: GameData, mode: SpinMode) -> Seq<Seq<usize>> {
    match mode {
        SpinMode::Base => data.strips(),
        SpinMode::FreeSpin { burned, .. } => data.spec_refined_reels(burned as int),
    }
}

/// The reel heights a spin shows, from its height draws.
pub open spec fn spin_heights(data: GameData, draws: Seq<usize>) -> Seq<usize> {
    match data.config.reel_heights {
        None => Seq::new(data.reels@.len(), |r: int| data.config.row_count),
        Some(h) => Seq::new(data.reels@.len(), |r: int| (h.min + draws[r]) as usize),
    }
}

/// The landing grid.
pub open spec fn spin_landed(data: GameData, stops: Seq<usize>, draws: Seq<usize>, mode: SpinMode) -> GridView {
    spec_grid_on(data.config.row_count, spin_strips(data, mode), stops, spin_heights(data, draws))
}

/// The grid a spin is evaluated on.
pub open spec fn spin_grid(data: GameData, stops: Seq<usize>, draws: Seq<usize>, mode: SpinMode) -> GridView {
    let landed = spin_landed(data, stops, draws, mode);
    match mode {
        SpinMode::Base => landed,
        SpinMode::FreeSpin { .. } => if data.freespins.expanding_wilds {
            spec_expanded(landed, data.symbols@.wild)
        } else {
            landed
        },
    }
}

/// The bet and multiplier a spin is evaluated with.
pub open spec fn spin_ctx(data: GameData, line_bet: i64, mode: SpinMode) -> EvalContext {
    let total = data.spec_total_bet(line_bet) as i64;
    match mode {
        SpinMode::Base => EvalContext { line_bet, total_bet: total, win_multiplier: 1 },
        SpinMode::FreeSpin { multiplier, .. } => {
            let m = if multiplier > 0 {
                multiplier
            } else {
                data.freespins.multiplier
            };
            EvalContext { line_bet, total_bet: total, win_multiplier: if m >= 1 { m } else { 1 } }
        },
    }
}

/// The one step of a spin on a cabinet without cascades.
pub open spec fn single_step(step: CascadeStep, data: GameData, g: GridView, ctx: EvalContext) -> bool {
    &&& step.grid@ == g
    &&& step.cleared@.len() == 0
    &&& step.multiplier == 1
    &&& evaluates_to(data, g, ctx, step.outcome)
    &&& step.credits == step.outcome.win_credits
}

/// What a spin's chain is: the resolved cascade, or the single step.
pub open spec fn chain_of(data: GameData, g: GridView, stops: Seq<usize>, ctx: EvalContext, steps: Seq<CascadeStep>) -> bool {
    match data.cascade {
        Some(config) => resolves_to(data, config, g, stops, ctx, steps),
        None => steps.len() == 1 && single_step(steps[0], data, g, ctx),
    }
}

/// Every win of every step, in order.
pub open spec fn chain_wins(steps: Seq<CascadeStep>) -> Seq<WinView> {
    steps.map_values(|s: CascadeStep| win_views(s.outcome.wins@)).flatten()
}

/// The spin can be read off its strips and evaluated, its chain resolved,
/// and its totals kept inside `i64`.
pub open spec fn spin_ready(
    data: GameData,
    stops: Seq<usize>,
    draws: Seq<usize>,
    line_bet: i64,
    mode: SpinMode,
) -> bool {
    let g = spin_grid(data, stops, draws, mode);
    let ctx = spin_ctx(data, line_bet, mode);
    &&& data.symbols@.wf()
    &&& data.config.reel_heights matches Some(h) ==> {
        &&& draws.len() >= data.reels@.len()
        &&& forall|r: int| 0 <= r < data.reels@.len() ==> h.min + #[trigger] draws[r] <= usize::MAX
    }
    &&& window_fits(data.config.row_count, spin_strips(data, mode), spin_heights(data, draws))
    &&& data.spec_bet_units() <= i64::MAX
    &&& fits_i64(data.spec_total_bet(line_bet))
    &&& eval_ready(data, g, ctx)
    &&& data.cascade matches Some(config) ==> cascade_ready(data, config, g, stops, ctx)
    &&& forall|steps: Seq<CascadeStep>|
        #[trigger] chain_of(data, g, stops, ctx, steps) ==> chain_credits_fit(steps) && fits_i64(
            chain_credits(steps) + scatter_credits(data, g, ctx),
        )
}

/// What a spin yields: its stops, the grid it was evaluated on, its chain,
/// the features of that grid, and the wins and credits of the whole chain.
pub open spec fn spins_to(
    data: GameData,
    stops: Seq<usize>,
    draws: Seq<usize>,
    line_bet: i64,
    mode: SpinMode,
    result: SpinResult,
) -> bool {
    let ctx = spin_ctx(data, line_bet, mode);
    let g = spin_grid(data, stops, draws, mode);
    &&& result.stops@ == stops
    &&& result.grid.inv()
    &&& result.grid@ == g
    &&& chain_of(data, g, stops, ctx, result.cascades@)
    &&& result.outcome.scatter_count == crate::engine::evaluate::scatters_on(data, g)
    &&& result.outcome.scatter_credits == scatter_credits(data, g, ctx)
    &&& result.outcome.free_spins_awarded == crate::engine::evaluate::scatter_award(data, g)
    &&& result.outcome.egg_count == crate::engine::evaluate::eggs_on(data, g)
    &&& result.outcome.win_credits == chain_credits(result.cascades@)
    &&& win_views(result.outcome.wins@) == chain_wins(result.cascades@)
    &&& result.outcome.total_credits == result.outcome.win_credits + result.outcome.scatter_credits
}

/// One spin, from stops already drawn against the strips `mode` turns and
/// one height draw per reel. Features are read from the landing grid; only
/// payouts cascade.
pub fn spin(data: &GameData, stops: &[usize], height_draws: &[usize], line_bet: i64, mode: SpinMode) -> (result:
    SpinResult)
    requires
        spin_ready(*data, stops@, height_draws@, line_bet, mode),
    ensures
        spins_to(*data, stops@, height_draws@, line_bet, mode, result),
{
    let ghost want = spin_grid(*data, stops@, height_draws@, mode);
    let ghost ctx_want = spin_ctx(*data, line_bet, mode);
    let reels = match mode {
        SpinMode::Base => crate::data::copy_strips(&data.reels),
        SpinMode::FreeSpin { burned, .. } => data.refined_reels(burned),
    };
    let heights = pick_heights(data, height_draws);
    assert(heights@ == spin_heights(*data, height_draws@));
    let landed = grid_on(data, &reels, stops, &heights);
    let (grid, ctx) = match mode {
        SpinMode::Base => (landed, EvalContext::base(data, line_bet)),
        SpinMode::FreeSpin { multiplier, .. } => {
            let grid = if data.freespins.expanding_wilds {
                expand_wilds(data, &landed)
            } else {
                landed
            };
            let multiplier = if multiplier > 0 {
                multiplier
            } else {
                data.freespins.multiplier
            };
            (grid, EvalContext::free_spin_at(data, line_bet, multiplier))
        },
    };
    assert(grid@ == want);
    assert(ctx == ctx_want);
    let mut outcome = evaluate(data, &grid, &ctx);
    let cascades = match &data.cascade {
        Some(config) => resolve(data, config, &grid, stops, &ctx),
        None => {
            let mut single: Vec<CascadeStep> = Vec::new();
            single.push(
                CascadeStep {
                    grid: grid.clone(),
                    cleared: Vec::new(),
                    multiplier: 1,
                    credits: outcome.win_credits,
                    outcome: copy_outcome(&outcome),
                },
            );
            single
        },
    };
    assert(chain_of(*data, grid@, stops@, ctx, cascades@));
    let win_credits = total_credits(cascades.as_slice());
    let mut wins: Vec<crate::engine::evaluate::Win> = Vec::new();
    let mut k: usize = 0;
    while k < cascades.len()
        invariant
            0 <= k <= cascades@.len(),
            win_views(wins@) == chain_wins(cascades@.subrange(0, k as int)),
        decreases cascades@.len() - k,
    {
        let step_wins = &cascades[k].outcome.wins;
        let ghost before = wins@;
        let mut j: usize = 0;
        while j < step_wins.len()
            invariant
                0 <= j <= step_wins@.len(),
                wins@.len() == before.len() + j,
                forall|t: int| 0 <= t < before.len() ==> (#[trigger] wins@[t])@ == before[t]@,
                forall|t: int| 0 <= t < j ==> (#[trigger] wins@[before.len() + t])@ == step_wins@[t]@,
            decreases step_wins@.len() - j,
        {
            wins.push(copy_win(&step_wins[j]));
            j = j + 1;
        }
        assert forall|t: int| 0 <= t < wins@.len() implies win_views(wins@)[t] == (win_views(before) + win_views(
            step_wins@,
        ))[t] by {
            if t >= before.len() {
                assert(wins@[before.len() + (t - before.len())]@ == step_wins@[t - before.len()]@);
            }
        }
        assert(win_views(wins@) =~= win_views(before) + win_views(step_wins@));
        proof {
            let pre = cascades@.subrange(0, k as int);
            let post = cascades@.subrange(0, k + 1);
            assert(post == pre.push(cascades@[k as int]));
            let f = |s: CascadeStep| win_views(s.outcome.wins@);
            assert(post.map_values(f) == pre.map_values(f).push(win_views(step_wins@)));
            pre.map_values(f).lemma_flatten_push(win_views(step_wins@));
        }
        k = k + 1;
    }
    assert(cascades@.subrange(0, k as int) == cascades@);
    outcome.win_credits = win_credits;
    outcome.wins = wins;
    outcome.total_credits = win_credits + outcome.scatter_credits;
    SpinResult { stops: crate::data::copy_strip(stops), grid, outcome, cascades }
}

proof fn lemma_chain_credits_agree(a: Seq<CascadeStep>, b: Seq<CascadeStep>)
    requires
        a.len() == b.len(),
        forall|k: int| 0 <= k < a.len() ==> (#[trigger] a[k]).credits == b[k].credits,
    ensures
        chain_credits(a) == chain_credits(b),
    decreases a.len(),
{
    if a.len() > 0 {
        lemma_chain_credits_agree(a.drop_last(), b.drop_last());
    }
}

/// The same draws give the same spin: two spins of one cabinet from the
/// same stops, height draws, bet and mode agree on the grid, every step of
/// the chain, and every figure of the outcome.
pub proof fn a_spin_is_fixed_by_its_draws(
    data: GameData,
    stops: Seq<usize>,
    draws: Seq<usize>,
    line_bet: i64,
    mode: SpinMode,
    a: SpinResult,
    b: SpinResult,
)
    requires
        spins_to(data, stops, draws, line_bet, mode, a),
        spins_to(data, stops, draws, line_bet, mode, b),
    ensures
        a.stops@ == b.stops@,
        a.grid@ == b.grid@,
        a.cascades@.len() == b.cascades@.len(),
        forall|k: int|
            0 <= k < a.cascades@.len() ==> (#[trigger] a.cascades@[k]).grid@ == b.cascades@[k].grid@
                && a.cascades@[k].credits == b.cascades@[k].credits,
        win_views(a.outcome.wins@) == win_views(b.outcome.wins@),
        a.outcome.win_credits == b.outcome.win_credits,
        a.outcome.scatter_count == b.outcome.scatter_count,
        a.outcome.scatter_credits == b.outcome.scatter_credits,
        a.outcome.free_spins_awarded == b.outcome.free_spins_awarded,
        a.outcome.egg_count == b.outcome.egg_count,
        a.outcome.total_credits == b.outcome.total_credits,
{
    let g = spin_grid(data, stops, draws, mode);
    let ctx = spin_ctx(data, line_bet, mode);
    let sa = a.cascades@;
    let sb = b.cascades@;
    match data.cascade {
        Some(config) => {
            crate::engine::cascade::cascade_is_fixed_by_stops(data, config, g, stops, ctx, sa, sb);
        },
        None => {},
    }
    assert forall|k: int| 0 <= k < sa.len() implies (#[trigger] sa[k]).credits == sb[k].credits && win_views(
        sa[k].outcome.wins@,
    ) == win_views(sb[k].outcome.wins@) by {
        match data.cascade {
            Some(config) => {
                assert(sa[k].credits == sb[k].credits);
            },
            None => {},
        }
    }
    lemma_chain_credits_agree(sa, sb);
    let f = |s: CascadeStep| win_views(s.outcome.wins@);
    assert(sa.map_values(f) =~= sb.map_values(f));
}

/// On a free spin that expands wilds, a reel of the evaluated grid that
/// shows a wild shows nothing else.
pub proof fn expanded_reels_are_wholly_wild(data: GameData, stops: Seq<usize>, draws: Seq<usize>, burned: usize, multiplier: i64, reel: int, row: int)
    requires
        data.freespins.expanding_wilds,
        data.symbols@.wild is Some,
        spin_landed(data, stops, draws, SpinMode::FreeSpin { burned, multiplier }).wf(),
        crate::engine::evaluate::reel_has(
            spin_grid(data, stops, draws, SpinMode::FreeSpin { burned, multiplier }),
            reel,
            data.symbols@.wild->Some_0,
        ),
        spin_grid(data, stops, draws, SpinMode::FreeSpin { burned, multiplier }).valid_cell(reel, row),
    ensures
        spin_grid(data, stops, draws, SpinMode::FreeSpin { burned, multiplier }).at(reel, row) == data.symbols@.wild->Some_0,
{
    let l = spin_landed(data, stops, draws, SpinMode::FreeSpin { burned, multiplier });
    let e = spin_grid(data, stops, draws, SpinMode::FreeSpin { burned, multiplier });
    let w = data.symbols@.wild->Some_0;
    crate::engine::evaluate::lemma_expanded_at(l, data.symbols@.wild);
    let r2 = choose|r2: int| 0 <= r2 < e.rows_on(reel) && e.at(reel, r2) == w;
    assert(e.at(reel, r2) == crate::engine::evaluate::expanded_at(l, data.symbols@.wild, reel, r2));
    if !crate::engine::evaluate::reel_has(l, reel, w) {
        assert(l.at(reel, r2) == w);
    }
    assert(e.at(reel, row) == crate::engine::evaluate::expanded_at(l, data.symbols@.wild, reel, row));
}

/// What a spin's reel wins are multiplied by: nothing on a base spin; on a
/// free spin the multiplier asked for when it is positive, and otherwise the
/// cabinet's own free-spin multiplier, never less than one. The bet the
/// wins are scaled by is the line bet the spin was played at.
pub proof fn a_free_spin_pays_the_feature_multiplier(data: GameData, line_bet: i64, mode: SpinMode)
    ensures
        spin_ctx(data, line_bet, mode).line_bet == line_bet,
        mode is Base ==> spin_ctx(data, line_bet, mode).win_multiplier == 1,
        (mode matches SpinMode::FreeSpin { multiplier, .. } ==> spin_ctx(data, line_bet, mode).win_multiplier == (
        if multiplier >= 1 {
            multiplier
        } else if data.freespins.multiplier >= 1 {
            data.freespins.multiplier
        } else {
            1
        })),
{
}

/// The landing grid of a free spin asked for no multiplier of its own is
/// evaluated at the spin's line bet with the cabinet's free-spin multiplier
/// (never less than one) on every reel win.
pub proof fn a_free_spin_evaluates_at_the_feature_multiplier(
    data: GameData,
    stops: Seq<usize>,
    draws: Seq<usize>,
    line_bet: i64,
    burned: usize,
    multiplier: i64,
    result: SpinResult,
)
    requires
        multiplier <= 0,
        spins_to(data, stops, draws, line_bet, SpinMode::FreeSpin { burned, multiplier }, result),
    ensures
        result.cascades@.len() >= 1,
        evaluates_to(
            data,
            result.grid@,
            EvalContext {
                line_bet,
                total_bet: data.spec_total_bet(line_bet) as i64,
                win_multiplier: if data.freespins.multiplier >= 1 {
                    data.freespins.multiplier
                } else {
                    1
                },
            },
            result.cascades@[0].outcome,
        ),
{
    let mode = SpinMode::FreeSpin { burned, multiplier };
    let ctx = spin_ctx(data, line_bet, mode);
    let g = spin_grid(data, stops, draws, mode);
    match data.cascade {
        Some(config) => {
            assert(crate::engine::cascade::step_is(result.cascades@[0], data, config, g, stops, ctx, 0));
        },
        None => {},
    }
}

} // verus!
