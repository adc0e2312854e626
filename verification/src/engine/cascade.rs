//! Cascading reels.
//!
//! On a cascading cabinet a win is not the end of a spin. The winning symbols
//! are cleared, everything above them falls into the gap, fresh symbols drop
//! in from above, and the new grid is evaluated again. As long as each grid
//! pays the chain continues, and a multiplier ladder climbs with it.
//!
//! Refills are not rolled: each reel keeps reading up its own strip from where
//! it stopped, so the whole chain is a function of the stops alone.

use vstd::prelude::*;
use crate::data::{fits_i64, CascadeConfig, GameData};
use crate::engine::cluster::{collect, set_indices};
use crate::engine::evaluate::{
    eval_ready, evaluate, evaluates_to, spec_reel_wins, sum_credits, win_views, EvalContext, SpinOutcome, WinView,
};
use crate::engine::reels::{grid_of_columns, lemma_columns_at, lemma_index_in_bounds, lemma_sum_prefix_ext, lemma_sum_prefix_monotone, sum_prefix, Grid, GridView};

verus! {

/// One grid in a cascade chain, and what it paid.
#[derive(Debug)]
pub struct CascadeStep {
    /// The grid as evaluated at this step.
    pub grid: Grid,
    /// Cells cleared by this step's wins, as flat indices. Empty on the final
    /// step.
    pub cleared: Vec<usize>,
    /// Multiplier in force, from the ladder.
    pub multiplier: i64,
    /// Credits this step paid, already multiplied.
    pub credits: i64,
    pub outcome: SpinOutcome,
}

/// The stop of reel `r`; reels past the list stop at zero.
pub open spec fn stop_at(stops: Seq<usize>, r: int) -> int {
    if 0 <= r < stops.len() {
        stops[r] as int
    } else {
        0
    }
}

/// The symbols of reel `r`'s first `k` rows that were not cleared, top to
/// bottom.
pub open spec fn kept_upto(g: GridView, cleared: Seq<usize>, r: int, k: int) -> Seq<usize>
    decreases k,
{
    if k <= 0 {
        Seq::empty()
    } else {
        let prev = kept_upto(g, cleared, r, k - 1);
        if cleared.contains(g.index(r, k - 1) as usize) {
            prev
        } else {
            prev.push(g.at(r, k - 1))
        }
    }
}

/// Survivors of reel `r`: they fall, they do not shuffle.
pub open spec fn kept(g: GridView, cleared: Seq<usize>, r: int) -> Seq<usize> {
    kept_upto(g, cleared, r, g.rows_on(r))
}

/// How many cells of reel `r` the clearing emptied.
pub open spec fn missing(g: GridView, cleared: Seq<usize>, r: int) -> int {
    g.rows_on(r) - kept(g, cleared, r).len()
}

/// The `missing` symbols above a window whose strip has already been read
/// `used` places up from `stop`, highest first.
pub open spec fn refill(strip: Seq<usize>, stop: int, used: int, missing: int) -> Seq<usize> {
    Seq::new(missing as nat, |i: int| strip[(stop - (used + missing - i)) % (strip.len() as int)])
}

/// How many reels a collapse rebuilds: one per entry of `used`, at most one
/// per reel.
pub open spec fn collapsed_reels(g: GridView, used: Seq<usize>) -> int {
    if used.len() < g.reel_count() {
        used.len() as int
    } else {
        g.reel_count()
    }
}

/// Reel `r` after a collapse: fresh symbols on top, survivors below.
pub open spec fn collapsed_column(
    data: GameData,
    g: GridView,
    cleared: Seq<usize>,
    stops: Seq<usize>,
    used: Seq<usize>,
    r: int,
) -> Seq<usize> {
    refill(data.reels@[r]@, stop_at(stops, r), used[r] as int, missing(g, cleared, r)) + kept(g, cleared, r)
}

pub open spec fn collapse_columns(
    data: GameData,
    g: GridView,
    cleared: Seq<usize>,
    stops: Seq<usize>,
    used: Seq<usize>,
) -> Seq<Seq<usize>> {
    Seq::new(collapsed_reels(g, used) as nat, |r: int| collapsed_column(data, g, cleared, stops, used, r))
}

/// The grid a collapse leaves.
pub open spec fn collapse_view(
    data: GameData,
    g: GridView,
    cleared: Seq<usize>,
    stops: Seq<usize>,
    used: Seq<usize>,
) -> GridView {
    let columns = collapse_columns(data, g, cleared, stops, used);
    GridView { heights: columns.map_values(|c: Seq<usize>| c.len() as usize), cells: columns.flatten() }
}

/// How far up each strip has been read after a collapse.
pub open spec fn collapse_used(g: GridView, cleared: Seq<usize>, used: Seq<usize>) -> Seq<usize> {
    Seq::new(
        used.len(),
        |r: int|
            if r < collapsed_reels(g, used) {
                (used[r] + missing(g, cleared, r)) as usize
            } else {
                used[r]
            },
    )
}

/// Every reel a collapse rebuilds has a strip, and reading further up it
/// stays inside `i64`; a reel that lost cells has something to refill from.
pub open spec fn collapse_ready(
    data: GameData,
    g: GridView,
    cleared: Seq<usize>,
    stops: Seq<usize>,
    used: Seq<usize>,
) -> bool {
    &&& g.wf()
    &&& g.cells.len() <= usize::MAX
    &&& collapsed_reels(g, used) <= data.reels@.len()
    &&& forall|r: int|
        0 <= r < collapsed_reels(g, used) ==> {
            &&& stop_at(stops, r) <= i64::MAX
            &&& used[r] + g.rows_on(r) <= i64::MAX
            &&& used[r] + g.rows_on(r) <= usize::MAX
            &&& (#[trigger] data.reels@[r]).len() <= i64::MAX
            &&& missing(g, cleared, r) > 0 ==> data.reels@[r].len() > 0
        }
}

/// Whether `x` is in `list`.
pub(crate) fn listed(list: &[usize], x: usize) -> (r: bool)
    ensures
        r == list@.contains(x),
{
    let mut i: usize = 0;
    while i < list.len()
        invariant
            0 <= i <= list@.len(),
            forall|j: int| 0 <= j < i ==> list@[j] != x,
        decreases list@.len() - i,
    {
        if list[i] == x {
            assert(list@[i as int] == x);
            return true;
        }
        i = i + 1;
    }
    false
}

proof fn lemma_kept_len(g: GridView, cleared: Seq<usize>, r: int, k: int)
    requires
        k >= 0,
    ensures
        kept_upto(g, cleared, r, k).len() <= k,
    decreases k,
{
    if k > 0 {
        lemma_kept_len(g, cleared, r, k - 1);
    }
}

/// The survivors of one reel.
fn kept_on(grid: &Grid, cleared: &[usize], reel: usize) -> (column: Vec<usize>)
    requires
        grid.inv(),
        reel < grid@.reel_count(),
    ensures
        column@ == kept(grid@, cleared@, reel as int),
        column@.len() <= grid@.rows_on(reel as int),
{
    let rows = grid.rows_on(reel);
    let mut column: Vec<usize> = Vec::new();
    let mut row: usize = 0;
    proof {
        grid.lemma_wf();
        grid.lemma_cells_fit();
    }
    while row < rows
        invariant
            grid.inv(),
            grid@.wf(),
            grid@.cells.len() <= usize::MAX,
            reel < grid@.reel_count(),
            rows == grid@.rows_on(reel as int),
            0 <= row <= rows,
            column@ == kept_upto(grid@, cleared@, reel as int, row as int),
        decreases rows - row,
    {
        proof {
            lemma_index_in_bounds(grid@, reel as int, row as int);
        }
        let flat = grid.index(reel, row);
        if !listed(cleared, flat) {
            column.push(grid.at(reel, row));
        }
        row = row + 1;
    }
    proof {
        lemma_kept_len(grid@, cleared@, reel as int, rows as int);
    }
    column
}

/// Drop survivors down and refill from above: each reel reads one symbol
/// further up its own strip for every cell it lost, so no draw is made.
/// `consumed` records, per reel, how far up the strip has been read.
pub fn collapse(
    data: &GameData,
    grid: &Grid,
    cleared: &[usize],
    stops: &[usize],
    consumed: &mut Vec<usize>,
) -> (next: Grid)
    requires
        grid.inv(),
        collapse_ready(*data, grid@, cleared@, stops@, old(consumed)@),
    ensures
        next.inv(),
        next@ == collapse_view(*data, grid@, cleared@, stops@, old(consumed)@),
        final(consumed)@ == collapse_used(grid@, cleared@, old(consumed)@),
{
    let ghost g = grid@;
    let ghost used0 = consumed@;
    let n = if consumed.len() < grid.reel_count() {
        consumed.len()
    } else {
        grid.reel_count()
    };
    let mut columns: Vec<Vec<usize>> = Vec::new();
    let mut reel: usize = 0;
    while reel < n
        invariant
            grid.inv(),
            g == grid@,
            collapse_ready(*data, g, cleared@, stops@, used0),
            n == collapsed_reels(g, used0),
            0 <= reel <= n,
            consumed@.len() == used0.len(),
            forall|r: int| 0 <= r < reel ==> #[trigger] consumed@[r] == collapse_used(g, cleared@, used0)[r],
            forall|r: int| reel <= r < used0.len() ==> #[trigger] consumed@[r] == used0[r],
            columns@.len() == reel,
            forall|r: int|
                0 <= r < reel ==> #[trigger] columns@[r]@ == collapsed_column(*data, g, cleared@, stops@, used0, r),
        decreases n - reel,
    {
        let survivors = kept_on(grid, cleared, reel);
        let rows = grid.rows_on(reel);
        let lost = rows - survivors.len();
        let strip = &data.reels[reel];
        let stop: usize = if reel < stops.len() {
            stops[reel]
        } else {
            0
        };
        let used = consumed[reel];
        assert(data.reels@[reel as int].len() <= i64::MAX);
        let ghost want = refill(strip@, stop as int, used as int, lost as int);
        let mut column: Vec<usize> = Vec::new();
        let mut i: usize = 0;
        while i < lost
            invariant
                0 <= i <= lost,
                lost > 0 ==> strip@.len() > 0,
                strip@.len() <= i64::MAX,
                stop <= i64::MAX,
                used + lost <= i64::MAX,
                used + lost <= usize::MAX,
                want == refill(strip@, stop as int, used as int, lost as int),
                column@ == want.subrange(0, i as int),
            decreases lost - i,
        {
            let back = (used + lost - i) as i64;
            let at = (stop as i64 - back).checked_rem_euclid(strip.len() as i64).unwrap();
            column.push(strip[at as usize]);
            i = i + 1;
            assert(column@ =~= want.subrange(0, i as int));
        }
        assert(column@ =~= want);
        let mut rest = survivors;
        column.append(&mut rest);
        consumed.set(reel, used + lost);
        columns.push(column);
        reel = reel + 1;
    }
    let ghost cols = collapse_columns(*data, g, cleared@, stops@, used0);
    assert(columns@.map_values(|c: Vec<usize>| c@) =~= cols);
    assert(consumed@ =~= collapse_used(g, cleared@, used0));
    let ghost lens = columns@.map_values(|c: Vec<usize>| c@.len() as usize);
    proof {
        assert(lens =~= cols.map_values(|c: Seq<usize>| c.len() as usize));
        assert forall|r: int| 0 <= r < n implies lens[r] == g.heights[r] by {
            lemma_kept_len(g, cleared@, r, g.rows_on(r));
            assert(columns@[r]@ == collapsed_column(*data, g, cleared@, stops@, used0, r));
        }
        lemma_sum_prefix_ext(lens, g.heights, n as int);
        grid.lemma_wf();
        lemma_sum_prefix_monotone(g.heights, n as int, g.heights.len() as int);
    }
    Grid::from_columns(&columns)
}

/// Whether some win used flat cell `i`.
pub open spec fn hit_by(wins: Seq<WinView>, i: int) -> bool {
    exists|k: int| 0 <= k < wins.len() && #[trigger] wins[k].cells.contains(i as usize)
}

/// Union of the cells every win on this grid used, ascending. Scatter pays
/// do not clear: a scatter that vanished would change the trigger count read
/// from the landing grid after the fact.
fn cleared_cells(grid: &Grid, outcome: &SpinOutcome) -> (cleared: Vec<usize>)
    requires
        grid.inv(),
    ensures
        cleared@ == collect(|i: int| hit_by(win_views(outcome.wins@), i), grid@.cells.len() as int),
{
    let ghost views = win_views(outcome.wins@);
    let n = grid.cell_count();
    let mut mask: Vec<bool> = Vec::new();
    let mut f: usize = 0;
    while f < n
        invariant
            0 <= f <= n,
            mask@ == Seq::new(f as nat, |i: int| false),
        decreases n - f,
    {
        mask.push(false);
        f = f + 1;
        assert(mask@ =~= Seq::new(f as nat, |i: int| false));
    }
    let mut w: usize = 0;
    while w < outcome.wins.len()
        invariant
            views == win_views(outcome.wins@),
            mask@.len() == n,
            0 <= w <= outcome.wins@.len(),
            forall|i: int|
                0 <= i < n ==> #[trigger] mask@[i] == exists|k: int|
                    0 <= k < w && #[trigger] views[k].cells.contains(i as usize),
        decreases outcome.wins@.len() - w,
    {
        let cells = &outcome.wins[w].cells;
        assert(cells@ == views[w as int].cells);
        let mut t: usize = 0;
        while t < cells.len()
            invariant
                views == win_views(outcome.wins@),
                0 <= w < outcome.wins@.len(),
                cells@ == views[w as int].cells,
                mask@.len() == n,
                0 <= t <= cells@.len(),
                forall|i: int|
                    0 <= i < n ==> #[trigger] mask@[i] == ((exists|k: int|
                        0 <= k < w && #[trigger] views[k].cells.contains(i as usize)) || exists|u: int|
                        0 <= u < t && cells@[u] == i as usize),
            decreases cells@.len() - t,
        {
            let c = cells[t];
            if c < n {
                mask.set(c, true);
            }
            t = t + 1;
        }
        proof {
            assert forall|i: int| 0 <= i < n implies #[trigger] mask@[i] == exists|k: int|
                0 <= k < w + 1 && #[trigger] views[k].cells.contains(i as usize) by {
                if exists|u: int| 0 <= u < t && cells@[u] == i as usize {
                    assert(views[w as int].cells.contains(i as usize));
                }
                if views[w as int].cells.contains(i as usize) {
                    let u = choose|u: int| 0 <= u < cells@.len() && cells@[u] == i as usize;
                    assert(0 <= u < t && cells@[u] == i as usize);
                }
                if exists|k: int| 0 <= k < w + 1 && #[trigger] views[k].cells.contains(i as usize) {
                    let k = choose|k: int| 0 <= k < w + 1 && #[trigger] views[k].cells.contains(i as usize);
                    if k < w {
                        assert(exists|k2: int| 0 <= k2 < w && #[trigger] views[k2].cells.contains(i as usize));
                    }
                }
            }
        }
        w = w + 1;
    }
    let out = set_indices(&mask);
    proof {
        crate::engine::cluster::lemma_collect_ext(
            |i: int| mask@[i],
            |i: int| hit_by(views, i),
            n as int,
        );
    }
    out
}

/// How many steps a chain may take: the configured cap, and at least one.
pub open spec fn bound_of(config: CascadeConfig) -> int {
    if config.max_steps >= 1 {
        config.max_steps as int
    } else {
        1
    }
}

/// The cells a paying grid clears: every cell any of its wins used.
pub open spec fn step_cleared(data: GameData, g: GridView, ctx: EvalContext) -> Seq<usize> {
    collect(|i: int| hit_by(spec_reel_wins(data, g, ctx), i), g.cells.len() as int)
}

/// The grid shown at step `k` of a chain, and how far up each strip has
/// been read to fill it. Nothing is drawn: it depends on the landing grid
/// and the stops alone.
pub open spec fn chain_state(
    data: GameData,
    landed: GridView,
    stops: Seq<usize>,
    ctx: EvalContext,
    k: int,
) -> (GridView, Seq<usize>)
    decreases k,
{
    if k <= 0 {
        (landed, Seq::new(landed.heights.len(), |r: int| 0usize))
    } else {
        let (g, used) = chain_state(data, landed, stops, ctx, k - 1);
        let cleared = step_cleared(data, g, ctx);
        (collapse_view(data, g, cleared, stops, used), collapse_used(g, cleared, used))
    }
}

/// Step `k` is followed by another: it is not the last permitted step, and
/// its grid paid something that clears.
pub open spec fn continues(
    data: GameData,
    config: CascadeConfig,
    landed: GridView,
    stops: Seq<usize>,
    ctx: EvalContext,
    k: int,
) -> bool {
    &&& k + 1 < bound_of(config)
    &&& step_cleared(data, chain_state(data, landed, stops, ctx, k).0, ctx).len() > 0
}

/// Every step before `k` continued, so the chain reaches step `k`.
pub open spec fn reached(
    data: GameData,
    config: CascadeConfig,
    landed: GridView,
    stops: Seq<usize>,
    ctx: EvalContext,
    k: int,
) -> bool {
    forall|j: int| 0 <= j < k ==> #[trigger] continues(data, config, landed, stops, ctx, j)
}

/// What step `k` of the chain records.
pub open spec fn step_is(
    step: CascadeStep,
    data: GameData,
    config: CascadeConfig,
    landed: GridView,
    stops: Seq<usize>,
    ctx: EvalContext,
    k: int,
) -> bool {
    let g = chain_state(data, landed, stops, ctx, k).0;
    &&& step.grid@ == g
    &&& step.multiplier == config.spec_multiplier_at(k)
    &&& evaluates_to(data, g, ctx, step.outcome)
    &&& step.credits == step.outcome.win_credits * step.multiplier
    &&& step.cleared@ == if k + 1 < bound_of(config) {
        step_cleared(data, g, ctx)
    } else {
        Seq::empty()
    }
}

/// The whole chain: step 0 is the landing grid, each step follows the one
/// before, and the chain stops at the first step that does not continue.
pub open spec fn resolves_to(
    data: GameData,
    config: CascadeConfig,
    landed: GridView,
    stops: Seq<usize>,
    ctx: EvalContext,
    steps: Seq<CascadeStep>,
) -> bool {
    &&& 1 <= steps.len() <= bound_of(config)
    &&& forall|k: int| 0 <= k < steps.len() ==> #[trigger] step_is(steps[k], data, config, landed, stops, ctx, k)
    &&& forall|k: int| 0 <= k < steps.len() - 1 ==> #[trigger] continues(data, config, landed, stops, ctx, k)
    &&& !continues(data, config, landed, stops, ctx, steps.len() - 1)
}

/// Every grid the chain reaches can be evaluated and its pay multiplied,
/// and every collapse it makes can be read off the strips.
pub open spec fn cascade_ready(
    data: GameData,
    config: CascadeConfig,
    landed: GridView,
    stops: Seq<usize>,
    ctx: EvalContext,
) -> bool {
    &&& landed.wf()
    &&& forall|k: int|
        0 <= k < bound_of(config) && #[trigger] reached(data, config, landed, stops, ctx, k) ==> {
            let (g, used) = chain_state(data, landed, stops, ctx, k);
            &&& eval_ready(data, g, ctx)
            &&& fits_i64(sum_credits(spec_reel_wins(data, g, ctx)) * config.spec_multiplier_at(k))
            &&& continues(data, config, landed, stops, ctx, k) ==> collapse_ready(
                data,
                g,
                step_cleared(data, g, ctx),
                stops,
                used,
            )
        }
}

/// Resolve a whole chain from a landing grid. Step 0 is always present and
/// holds the landing grid, so a chain that paid nothing has the same shape
/// as a cabinet without cascades. The last permitted step clears nothing,
/// or the chain would end showing holes.
pub fn resolve(
    data: &GameData,
    config: &CascadeConfig,
    landed: &Grid,
    stops: &[usize],
    ctx: &EvalContext,
) -> (steps: Vec<CascadeStep>)
    requires
        landed.inv(),
        cascade_ready(*data, *config, landed@, stops@, *ctx),
    ensures
        resolves_to(*data, *config, landed@, stops@, *ctx, steps@),
{
    let ghost l = landed@;
    let bound: usize = if config.max_steps >= 1 {
        config.max_steps
    } else {
        1
    };
    let mut grid = landed.clone();
    let reels = grid.reel_count();
    let mut consumed: Vec<usize> = Vec::new();
    let mut f: usize = 0;
    while f < reels
        invariant
            0 <= f <= reels,
            consumed@ == Seq::new(f as nat, |r: int| 0usize),
        decreases reels - f,
    {
        consumed.push(0);
        f = f + 1;
        assert(consumed@ =~= Seq::new(f as nat, |r: int| 0usize));
    }
    let mut steps: Vec<CascadeStep> = Vec::new();
    let mut step: usize = 0;
    let mut done = false;
    while !done
        invariant
            bound == bound_of(*config),
            cascade_ready(*data, *config, l, stops@, *ctx),
            grid.inv(),
            0 <= step <= bound,
            steps@.len() == step,
            forall|k: int|
                0 <= k < step ==> #[trigger] step_is(steps@[k], *data, *config, l, stops@, *ctx, k),
            forall|k: int|
                0 <= k < step && (k + 1 < step || !done) ==> #[trigger] continues(
                    *data,
                    *config,
                    l,
                    stops@,
                    *ctx,
                    k,
                ),
            !done ==> step < bound && grid@ == chain_state(*data, l, stops@, *ctx, step as int).0 && consumed@
                == chain_state(*data, l, stops@, *ctx, step as int).1,
            done ==> step >= 1 && !continues(*data, *config, l, stops@, *ctx, step - 1),
        decreases bound - step,
    {
        let ghost g = grid@;
        let ghost used = consumed@;
        assert(reached(*data, *config, l, stops@, *ctx, step as int));
        let multiplier = config.multiplier_at(step);
        let outcome = evaluate(data, &grid, ctx);
        let credits = outcome.win_credits * multiplier;
        let cleared = if step + 1 < bound {
            cleared_cells(&grid, &outcome)
        } else {
            Vec::new()
        };
        assert(cleared@ == if step + 1 < bound {
            step_cleared(*data, g, *ctx)
        } else {
            Seq::<usize>::empty()
        });
        let finished = cleared.len() == 0;
        let snapshot = grid.clone();
        if !finished {
            assert(continues(*data, *config, l, stops@, *ctx, step as int));
            let next = collapse(data, &grid, &cleared, stops, &mut consumed);
            grid = next;
        }
        steps.push(CascadeStep { grid: snapshot, cleared, multiplier, credits, outcome });
        assert(step_is(steps@[step as int], *data, *config, l, stops@, *ctx, step as int));
        step = step + 1;
        done = finished;
    }
    steps
}

/// Sum of the credits of a chain's steps.
pub open spec fn chain_credits(steps: Seq<CascadeStep>) -> int
    decreases steps.len(),
{
    if steps.len() == 0 {
        0
    } else {
        chain_credits(steps.drop_last()) + steps.last().credits
    }
}

/// Every running total of a chain's credits fits in `i64`.
pub open spec fn chain_credits_fit(steps: Seq<CascadeStep>) -> bool {
    forall|k: int| 0 <= k <= steps.len() ==> fits_i64(#[trigger] chain_credits(steps.subrange(0, k)))
}

/// Total credits a chain paid.
pub fn total_credits(steps: &[CascadeStep]) -> (total: i64)
    requires
        chain_credits_fit(steps@),
    ensures
        total == chain_credits(steps@),
{
    let mut total: i64 = 0;
    let mut i: usize = 0;
    assert(steps@.subrange(0, 0) =~= Seq::<CascadeStep>::empty());
    while i < steps.len()
        invariant
            chain_credits_fit(steps@),
            0 <= i <= steps@.len(),
            total == chain_credits(steps@.subrange(0, i as int)),
        decreases steps@.len() - i,
    {
        assert(steps@.subrange(0, i + 1).drop_last() =~= steps@.subrange(0, i as int));
        assert(fits_i64(chain_credits(steps@.subrange(0, i + 1))));
        total = total + steps[i].credits;
        i = i + 1;
    }
    assert(steps@.subrange(0, i as int) =~= steps@);
    total
}

/// The whole chain is decided by the landing grid and the stops: two chains
/// resolved from the same inputs agree step for step, in grid, cleared
/// cells, multiplier, wins and credits.
pub proof fn cascade_is_fixed_by_stops(
    data: GameData,
    config: CascadeConfig,
    landed: GridView,
    stops: Seq<usize>,
    ctx: EvalContext,
    a: Seq<CascadeStep>,
    b: Seq<CascadeStep>,
)
    requires
        resolves_to(data, config, landed, stops, ctx, a),
        resolves_to(data, config, landed, stops, ctx, b),
    ensures
        a.len() == b.len(),
        forall|k: int|
            0 <= k < a.len() ==> {
                &&& (#[trigger] a[k]).grid@ == b[k].grid@
                &&& a[k].cleared@ == b[k].cleared@
                &&& a[k].multiplier == b[k].multiplier
                &&& a[k].credits == b[k].credits
                &&& win_views(a[k].outcome.wins@) == win_views(b[k].outcome.wins@)
            },
{
    if a.len() < b.len() {
        assert(continues(data, config, landed, stops, ctx, a.len() - 1));
    }
    if b.len() < a.len() {
        assert(continues(data, config, landed, stops, ctx, b.len() - 1));
    }
    assert forall|k: int| 0 <= k < a.len() implies {
        &&& (#[trigger] a[k]).grid@ == b[k].grid@
        &&& a[k].cleared@ == b[k].cleared@
        &&& a[k].multiplier == b[k].multiplier
        &&& a[k].credits == b[k].credits
        &&& win_views(a[k].outcome.wins@) == win_views(b[k].outcome.wins@)
    } by {
        assert(step_is(a[k], data, config, landed, stops, ctx, k));
        assert(step_is(b[k], data, config, landed, stops, ctx, k));
    }
}

/// A chain ends on a grid that clears nothing, and every step before it
/// cleared at least one cell.
pub proof fn chain_ends_without_holes(
    data: GameData,
    config: CascadeConfig,
    landed: GridView,
    stops: Seq<usize>,
    ctx: EvalContext,
    steps: Seq<CascadeStep>,
)
    requires
        resolves_to(data, config, landed, stops, ctx, steps),
    ensures
        steps.last().cleared@.len() == 0,
        forall|k: int| 0 <= k < steps.len() - 1 ==> (#[trigger] steps[k]).cleared@.len() > 0,
{
    assert(step_is(steps[steps.len() - 1], data, config, landed, stops, ctx, steps.len() - 1));
    assert forall|k: int| 0 <= k < steps.len() - 1 implies (#[trigger] steps[k]).cleared@.len() > 0 by {
        assert(step_is(steps[k], data, config, landed, stops, ctx, k));
        assert(continues(data, config, landed, stops, ctx, k));
    }
}

/// A chain only goes on because a grid paid: at a positive bet, every step
/// but the last cleared cells and paid credits above zero.
pub proof fn every_step_but_the_last_paid(
    data: GameData,
    config: CascadeConfig,
    landed: GridView,
    stops: Seq<usize>,
    ctx: EvalContext,
    steps: Seq<CascadeStep>,
)
    requires
        resolves_to(data, config, landed, stops, ctx, steps),
        ctx.line_bet > 0,
        ctx.win_multiplier >= 1,
    ensures
        forall|k: int|
            0 <= k < steps.len() - 1 ==> (#[trigger] steps[k]).cleared@.len() > 0 && steps[k].credits > 0,
{
    assert forall|k: int| 0 <= k < steps.len() - 1 implies (#[trigger] steps[k]).cleared@.len() > 0
        && steps[k].credits > 0 by {
        assert(step_is(steps[k], data, config, landed, stops, ctx, k));
        assert(continues(data, config, landed, stops, ctx, k));
        let g = chain_state(data, landed, stops, ctx, k).0;
        let wins = spec_reel_wins(data, g, ctx);
        crate::engine::cluster::lemma_collect_nonempty(|i: int| hit_by(wins, i), g.cells.len() as int);
        let i = choose|i: int| 0 <= i < g.cells.len() && #[trigger] hit_by(wins, i);
        assert(hit_by(wins, i));
        assert(wins.len() > 0);
        crate::engine::evaluate::lemma_reel_wins_pay(data, g, ctx);
        crate::engine::evaluate::lemma_sum_positive(wins);
        let w = steps[k].outcome.win_credits;
        let m = steps[k].multiplier;
        assert(m >= 1);
        assert(w * m > 0) by (nonlinear_arith)
            requires
                w > 0,
                m >= 1,
        ;
    }
}

/// A collapse rebuilds each reel from the strip upward: top to bottom, a
/// reel that lost `m` cells shows the `m` strip symbols directly above the
/// part of the strip already read, in strip order, the highest of them on
/// top, and then its survivors in their old order. The strip is read as a
/// contiguous window that grows upward one cell per cleared cell.
pub proof fn a_refill_continues_the_strip(
    data: GameData,
    g: GridView,
    cleared: Seq<usize>,
    stops: Seq<usize>,
    used: Seq<usize>,
    r: int,
    i: int,
)
    requires
        collapse_ready(data, g, cleared, stops, used),
        0 <= r < collapsed_reels(g, used),
        0 <= i < g.rows_on(r),
    ensures
        ({
            let after = collapse_view(data, g, cleared, stops, used);
            let m = missing(g, cleared, r);
            let strip = data.reels@[r]@;
            &&& after.rows_on(r) == g.rows_on(r)
            &&& i < m ==> after.at(r, i) == strip[(stop_at(stops, r) - used[r] - m + i) % (strip.len() as int)]
            &&& m <= i ==> after.at(r, i) == kept(g, cleared, r)[i - m]
        }),
{
    let columns = collapse_columns(data, g, cleared, stops, used);
    assert forall|k: int| 0 <= k < columns.len() implies (#[trigger] columns[k]).len() <= usize::MAX by {
        lemma_kept_len(g, cleared, k, g.rows_on(k));
        assert(g.rows_on(k) <= usize::MAX);
    }
    lemma_kept_len(g, cleared, r, g.rows_on(r));
    assert(columns[r].len() == g.rows_on(r));
    lemma_columns_at(columns, r, i);
    assert(collapse_view(data, g, cleared, stops, used) == grid_of_columns(columns));
    let m = missing(g, cleared, r);
    if i < m {
        assert(stop_at(stops, r) - (used[r] + m - i) == stop_at(stops, r) - used[r] - m + i);
    }
}

} // verus!
