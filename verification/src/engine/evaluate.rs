//! Reel-win and scatter evaluation. Pure: grid in, outcome out.
//!
//! Three evaluators live behind one entry point, and which one runs is the
//! cabinet's `evaluation` setting rather than a choice a caller makes.

pub mod ways;

use vstd::prelude::*;
use crate::data::{award_of, fits_i64, Evaluation, GameData, SymbolsView, MAX_RUN};
use crate::engine::cluster;
use crate::engine::reels::{count_in, lemma_index_in_bounds, lemma_index_injective, Grid, GridView};

verus! {

/// How a win was formed, and the part of it that differs between the models.
#[derive(Debug, Clone, Copy, PartialEq, Eq, Structural)]
pub enum WinSource {
    /// Index into the cabinet's paylines.
    Line(usize),
    /// Number of distinct paths through the grid, all paid.
    Ways(usize),
    /// Cells in a connected group.
    Cluster(usize),
}

/// One paying combination.
#[derive(Debug)]
pub struct Win {
    pub source: WinSource,
    /// The symbol it was paid as (may differ from the leading cell when wilds
    /// lead the run).
    pub symbol: usize,
    pub count: usize,
    pub credits: i64,
    /// Flat indices of the cells that formed it.
    pub cells: Vec<usize>,
}

/// A win, abstractly. Credits are the exact product, before any claim that
/// it fits in a machine word.
pub struct WinView {
    pub source: WinSource,
    pub symbol: usize,
    pub count: usize,
    pub credits: int,
    pub cells: Seq<usize>,
}

impl View for Win {
    type V = WinView;

    open spec fn view(&self) -> WinView {
        WinView {
            source: self.source,
            symbol: self.symbol,
            count: self.count,
            credits: self.credits as int,
            cells: self.cells@,
        }
    }
}

pub open spec fn win_views(wins: Seq<Win>) -> Seq<WinView> {
    wins.map_values(|w: Win| w@)
}

/// Total credits of a list of wins.
pub open spec fn sum_credits(wins: Seq<WinView>) -> int
    decreases wins.len(),
{
    if wins.len() == 0 {
        0
    } else {
        sum_credits(wins.drop_last()) + wins.last().credits
    }
}

/// Every win's credits, and every running total of them, fit in `i64`.
pub open spec fn wins_fit(wins: Seq<WinView>) -> bool {
    &&& forall|i: int| 0 <= i < wins.len() ==> fits_i64(#[trigger] wins[i].credits)
    &&& forall|k: int| 0 <= k <= wins.len() ==> fits_i64(#[trigger] sum_credits(wins.subrange(0, k)))
}

/// Everything one spin produced, before any of it is applied to a session.
#[derive(Debug)]
pub struct SpinOutcome {
    pub wins: Vec<Win>,
    pub win_credits: i64,
    pub scatter_count: usize,
    pub scatter_credits: i64,
    /// Hoard symbols on the grid.
    pub egg_count: usize,
    pub free_spins_awarded: u32,
    pub total_credits: i64,
}

/// Bet and feature modifiers in force for a single evaluation.
#[derive(Debug, Clone, Copy)]
pub struct EvalContext {
    pub line_bet: i64,
    pub total_bet: i64,
    /// Applied to reel wins only; scatter pays already scale with total bet.
    pub win_multiplier: i64,
}

/// Whether a cell reads as `candidate`: the symbol itself, or a wild.
pub open spec fn reads_as(syms: SymbolsView, cell: usize, candidate: usize) -> bool {
    cell == candidate || syms.is_wild(cell as int)
}

/// Leading cells that read as `candidate`.
pub open spec fn leading_run(syms: SymbolsView, cells: Seq<usize>, candidate: usize) -> int
    decreases cells.len(),
{
    if cells.len() == 0 {
        0
    } else if reads_as(syms, cells[0], candidate) {
        1 + leading_run(syms, cells.drop_first(), candidate)
    } else {
        0
    }
}

/// The best-paying reading of a payline's cells among the first `k`
/// candidate symbols: `(symbol, run, multiplier)`. Scatters never read; a
/// run must be three long and pay something; a later candidate replaces the
/// best only by paying strictly more.
pub open spec fn best_upto(syms: SymbolsView, cells: Seq<usize>, k: int) -> Option<(usize, usize, i64)>
    decreases k,
{
    if k <= 0 {
        None
    } else {
        let prev = best_upto(syms, cells, k - 1);
        let c = (k - 1) as usize;
        let run = leading_run(syms, cells, c);
        let m = syms.pay(c as int, run);
        if syms.is_scatter(c as int) || run < 3 || m <= 0 {
            prev
        } else {
            match prev {
                None => Some((c, run as usize, m)),
                Some(p) => if m > p.2 {
                    Some((c, run as usize, m))
                } else {
                    prev
                },
            }
        }
    }
}

/// The cells a payline reads: row `rows[r]` of reel `r`.
pub open spec fn line_cells(g: GridView, rows: Seq<usize>) -> Seq<usize> {
    Seq::new(rows.len(), |r: int| g.cells[g.index(r, rows[r] as int)])
}

/// Every cell a payline names lies inside the grid.
pub open spec fn line_inside(g: GridView, rows: Seq<usize>) -> bool {
    forall|r: int| 0 <= r < rows.len() ==> 0 <= #[trigger] g.index(r, rows[r] as int) < g.cells.len()
}

/// The win payline `j` makes, if any.
pub open spec fn line_win(data: GameData, g: GridView, ctx: EvalContext, j: int) -> Option<WinView> {
    let rows = data.paylines@[j].rows@;
    match best_upto(data.symbols@, line_cells(g, rows), data.symbols@.len()) {
        None => None,
        Some((symbol, count, m)) => Some(
            WinView {
                source: WinSource::Line(j as usize),
                symbol,
                count,
                credits: m * ctx.line_bet * ctx.win_multiplier,
                cells: Seq::new(count as nat, |r: int| g.index(r, rows[r] as int) as usize),
            },
        ),
    }
}

/// Every paying payline among the first `k`, in payline order.
pub open spec fn line_wins_upto(data: GameData, g: GridView, ctx: EvalContext, k: int) -> Seq<WinView>
    decreases k,
{
    if k <= 0 {
        Seq::empty()
    } else {
        let prev = line_wins_upto(data, g, ctx, k - 1);
        match line_win(data, g, ctx, k - 1) {
            Some(w) => prev.push(w),
            None => prev,
        }
    }
}

pub open spec fn spec_line_wins(data: GameData, g: GridView, ctx: EvalContext) -> Seq<WinView> {
    line_wins_upto(data, g, ctx, data.paylines@.len() as int)
}

proof fn lemma_leading_run_bounds(syms: SymbolsView, cells: Seq<usize>, c: usize)
    ensures
        0 <= leading_run(syms, cells, c) <= cells.len(),
    decreases cells.len(),
{
    if cells.len() > 0 && reads_as(syms, cells[0], c) {
        lemma_leading_run_bounds(syms, cells.drop_first(), c);
    }
}

/// A run of `k` cells that all read as the candidate, stopped by the end of
/// the line or by a cell that does not, is the leading run.
proof fn lemma_leading_run_is(syms: SymbolsView, cells: Seq<usize>, c: usize, k: int)
    requires
        0 <= k <= cells.len(),
        forall|i: int| 0 <= i < k ==> reads_as(syms, #[trigger] cells[i], c),
        k == cells.len() || !reads_as(syms, cells[k], c),
    ensures
        leading_run(syms, cells, c) == k,
    decreases k,
{
    if k > 0 {
        let rest = cells.drop_first();
        assert forall|i: int| 0 <= i < k - 1 implies reads_as(syms, #[trigger] rest[i], c) by {
            assert(rest[i] == cells[i + 1]);
        }
        if k < cells.len() {
            assert(rest[k - 1] == cells[k]);
        }
        lemma_leading_run_is(syms, rest, c, k - 1);
    }
}

/// Two `i64` values multiply without leaving `i128`.
pub proof fn lemma_product_fits_i128(a: int, b: int)
    requires
        fits_i64(a),
        fits_i64(b),
    ensures
        i128::MIN <= a * b <= i128::MAX,
{
    let p: int = 0x8000_0000_0000_0000;
    assert(-p <= a <= p && -p <= b <= p);
    if a >= 0 && b >= 0 {
        assert(a * b <= p * p) by (nonlinear_arith)
            requires
                0 <= a <= p,
                0 <= b <= p,
        ;
        assert(a * b >= 0) by (nonlinear_arith)
            requires
                0 <= a,
                0 <= b,
        ;
    } else if a >= 0 {
        assert(a * (-b) <= p * p) by (nonlinear_arith)
            requires
                0 <= a <= p,
                0 <= -b <= p,
        ;
        assert(a * b <= 0) by (nonlinear_arith)
            requires
                0 <= a,
                b < 0,
        ;
        assert(a * b == -(a * (-b))) by (nonlinear_arith);
    } else if b >= 0 {
        assert((-a) * b <= p * p) by (nonlinear_arith)
            requires
                0 <= -a <= p,
                0 <= b <= p,
        ;
        assert(a * b <= 0) by (nonlinear_arith)
            requires
                a < 0,
                0 <= b,
        ;
        assert(a * b == -((-a) * b)) by (nonlinear_arith);
    } else {
        assert((-a) * (-b) <= p * p) by (nonlinear_arith)
            requires
                0 <= -a <= p,
                0 <= -b <= p,
        ;
        assert(a * b == (-a) * (-b)) by (nonlinear_arith);
        assert(a * b >= 0) by (nonlinear_arith)
            requires
                a < 0,
                b < 0,
        ;
    }
    assert(p * p == 0x4000_0000_0000_0000_0000_0000_0000_0000);
}

/// The best reading is one of the candidates, with that candidate's run and
/// pay.
proof fn lemma_best_upto(syms: SymbolsView, cells: Seq<usize>, k: int)
    ensures
        best_upto(syms, cells, k) matches Some((c, run, m)) ==> {
            &&& 0 <= c < k
            &&& run == leading_run(syms, cells, c)
            &&& m == syms.pay(c as int, run as int)
            &&& run >= 3
            &&& m > 0
        },
    decreases k,
{
    if k > 0 {
        lemma_best_upto(syms, cells, k - 1);
    }
}

fn leading_run_exec(data: &GameData, cells: &Vec<usize>, candidate: usize) -> (run: usize)
    ensures
        run == leading_run(data.symbols@, cells@, candidate),
{
    let mut k: usize = 0;
    while k < cells.len() && (cells[k] == candidate || data.symbols.is_wild(cells[k]))
        invariant
            0 <= k <= cells@.len(),
            forall|i: int| 0 <= i < k ==> reads_as(data.symbols@, #[trigger] cells@[i], candidate),
        decreases cells@.len() - k,
    {
        k = k + 1;
    }
    proof {
        lemma_leading_run_is(data.symbols@, cells@, candidate, k as int);
    }
    k
}

/// Best-paying interpretation of one payline, left to right.
fn best_line_result(data: &GameData, cells: &Vec<usize>) -> (best: Option<(usize, usize, i64)>)
    requires
        data.symbols@.wf(),
    ensures
        best == best_upto(data.symbols@, cells@, data.symbols@.len()),
{
    let mut best: Option<(usize, usize, i64)> = None;
    let n = data.symbols.len();
    let mut candidate: usize = 0;
    while candidate < n
        invariant
            n == data.symbols@.len(),
            data.symbols@.wf(),
            0 <= candidate <= n,
            best == best_upto(data.symbols@, cells@, candidate as int),
        decreases n - candidate,
    {
        let run = leading_run_exec(data, cells, candidate);
        proof {
            lemma_leading_run_bounds(data.symbols@, cells@, candidate);
        }
        let multiplier = data.symbols.pay(candidate, run);
        if !data.symbols.is_scatter(candidate) && run >= 3 && multiplier > 0 {
            let better = match best {
                None => true,
                Some((_, _, best_multiplier)) => multiplier > best_multiplier,
            };
            if better {
                best = Some((candidate, run, multiplier));
            }
        }
        candidate = candidate + 1;
    }
    best
}

/// Every paying payline's wins fit, and the paylines are inside the grid.
pub open spec fn lines_ready(data: GameData, g: GridView, ctx: EvalContext) -> bool {
    &&& data.symbols@.wf()
    &&& forall|j: int| 0 <= j < data.paylines@.len() ==> line_inside(g, #[trigger] data.paylines@[j].rows@)
    &&& wins_fit(spec_line_wins(data, g, ctx))
}

proof fn lemma_line_wins_prefix(data: GameData, g: GridView, ctx: EvalContext, k: int, m: int)
    requires
        0 <= k <= m,
    ensures
        line_wins_upto(data, g, ctx, k).len() <= line_wins_upto(data, g, ctx, m).len(),
        line_wins_upto(data, g, ctx, m).subrange(0, line_wins_upto(data, g, ctx, k).len() as int)
            == line_wins_upto(data, g, ctx, k),
    decreases m - k,
{
    if k < m {
        lemma_line_wins_prefix(data, g, ctx, k, m - 1);
        let a = line_wins_upto(data, g, ctx, k);
        let b = line_wins_upto(data, g, ctx, m - 1);
        let c = line_wins_upto(data, g, ctx, m);
        assert(c.subrange(0, a.len() as int) =~= b.subrange(0, a.len() as int));
    } else {
        assert(line_wins_upto(data, g, ctx, m).subrange(0, line_wins_upto(data, g, ctx, k).len() as int)
            =~= line_wins_upto(data, g, ctx, k));
    }
}

/// Every paying payline, in payline order.
fn line_wins(data: &GameData, grid: &Grid, ctx: &EvalContext) -> (wins: Vec<Win>)
    requires
        grid.inv(),
        lines_ready(*data, grid@, *ctx),
    ensures
        win_views(wins@) == spec_line_wins(*data, grid@, *ctx),
{
    let mut wins: Vec<Win> = Vec::new();
    let ghost all = spec_line_wins(*data, grid@, *ctx);
    let mut index: usize = 0;
    while index < data.paylines.len()
        invariant
            grid.inv(),
            lines_ready(*data, grid@, *ctx),
            all == spec_line_wins(*data, grid@, *ctx),
            0 <= index <= data.paylines@.len(),
            win_views(wins@) == line_wins_upto(*data, grid@, *ctx, index as int),
        decreases data.paylines@.len() - index,
    {
        let rows = &data.paylines[index].rows;
        assert(line_inside(grid@, rows@));
        let mut cells: Vec<usize> = Vec::new();
        let mut reel: usize = 0;
        while reel < rows.len()
            invariant
                grid.inv(),
                line_inside(grid@, rows@),
                0 <= reel <= rows@.len(),
                cells@ == line_cells(grid@, rows@).subrange(0, reel as int),
            decreases rows@.len() - reel,
        {
            assert(0 <= grid@.index(reel as int, rows@[reel as int] as int) < grid@.cells.len());
            proof {
                grid.lemma_cells_fit();
            }
            let i = grid.index(reel, rows[reel]);
            cells.push(grid.cells_at(i));
            reel = reel + 1;
            assert(cells@ =~= line_cells(grid@, rows@).subrange(0, reel as int));
        }
        assert(cells@ =~= line_cells(grid@, rows@));
        let ghost prev = wins@;
        match best_line_result(data, &cells) {
            None => {},
            Some((symbol, count, multiplier)) => {
                let ghost w = line_win(*data, grid@, *ctx, index as int)->Some_0;
                proof {
                    lemma_line_wins_prefix(*data, grid@, *ctx, index + 1, data.paylines@.len() as int);
                    let upto = line_wins_upto(*data, grid@, *ctx, index + 1);
                    assert(upto.last() == w);
                    assert(all[upto.len() - 1] == w);
                    assert(fits_i64(w.credits));
                    lemma_best_upto(data.symbols@, cells@, data.symbols@.len());
                    lemma_leading_run_bounds(data.symbols@, cells@, symbol);
                    let a = multiplier as int;
                    let b = ctx.line_bet as int;
                    lemma_product_fits_i128(a, b);
                }
                let credits = ((multiplier as i128) * (ctx.line_bet as i128) * (ctx.win_multiplier
                    as i128)) as i64;
                let mut win_cells: Vec<usize> = Vec::new();
                let mut r: usize = 0;
                while r < count
                    invariant
                        grid.inv(),
                        line_inside(grid@, rows@),
                        count <= rows@.len(),
                        0 <= r <= count,
                        win_cells@ == w.cells.subrange(0, r as int),
                        w.cells == Seq::new(count as nat, |k: int| grid@.index(k, rows@[k] as int) as usize),
                    decreases count - r,
                {
                    assert(0 <= grid@.index(r as int, rows@[r as int] as int) < grid@.cells.len());
                    proof {
                        grid.lemma_cells_fit();
                    }
                    win_cells.push(grid.index(r, rows[r]));
                    r = r + 1;
                    assert(win_cells@ =~= w.cells.subrange(0, r as int));
                }
                assert(win_cells@ =~= w.cells);
                wins.push(
                    Win { source: WinSource::Line(index), symbol, count, credits, cells: win_cells },
                );
                assert(win_views(wins@) =~= win_views(prev).push(w));
            },
        }
        index = index + 1;
    }
    wins
}

impl EvalContext {
    /// The context of an ordinary paid spin.
    pub fn base(data: &GameData, line_bet: i64) -> (ctx: Self)
        requires
            data.spec_bet_units() <= i64::MAX,
            fits_i64(data.spec_total_bet(line_bet)),
        ensures
            ctx.line_bet == line_bet,
            ctx.total_bet == data.spec_total_bet(line_bet),
            ctx.win_multiplier == 1,
    {
        EvalContext { line_bet, total_bet: data.total_bet(line_bet), win_multiplier: 1 }
    }

    /// The context of a free spin: reel wins carry the feature's multiplier,
    /// never less than one.
    pub fn free_spin(data: &GameData, line_bet: i64) -> (ctx: Self)
        requires
            data.spec_bet_units() <= i64::MAX,
            fits_i64(data.spec_total_bet(line_bet)),
        ensures
            ctx.line_bet == line_bet,
            ctx.total_bet == data.spec_total_bet(line_bet),
            ctx.win_multiplier == (if data.freespins.multiplier >= 1 {
                data.freespins.multiplier
            } else {
                1
            }),
    {
        let base = Self::base(data, line_bet);
        let multiplier = if data.freespins.multiplier >= 1 {
            data.freespins.multiplier
        } else {
            1
        };
        EvalContext { win_multiplier: multiplier, ..base }
    }
}

impl EvalContext {
    /// The context of a free spin run at a given multiplier, never less
    /// than one.
    pub fn free_spin_at(data: &GameData, line_bet: i64, multiplier: i64) -> (ctx: Self)
        requires
            data.spec_bet_units() <= i64::MAX,
            fits_i64(data.spec_total_bet(line_bet)),
        ensures
            ctx.line_bet == line_bet,
            ctx.total_bet == data.spec_total_bet(line_bet),
            ctx.win_multiplier == (if multiplier >= 1 {
                multiplier
            } else {
                1
            }),
    {
        let base = Self::base(data, line_bet);
        let multiplier = if multiplier >= 1 {
            multiplier
        } else {
            1
        };
        EvalContext { win_multiplier: multiplier, ..base }
    }
}

/// A copy of a win.
pub fn copy_win(win: &Win) -> (copy: Win)
    ensures
        copy@ == win@,
{
    Win {
        source: win.source,
        symbol: win.symbol,
        count: win.count,
        credits: win.credits,
        cells: crate::data::copy_strip(&win.cells),
    }
}

/// A copy of a list of wins.
pub fn copy_wins(wins: &Vec<Win>) -> (copy: Vec<Win>)
    ensures
        win_views(copy@) == win_views(wins@),
{
    let mut copy: Vec<Win> = Vec::new();
    let mut i: usize = 0;
    while i < wins.len()
        invariant
            0 <= i <= wins@.len(),
            copy@.len() == i,
            forall|k: int| 0 <= k < i ==> (#[trigger] copy@[k])@ == wins@[k]@,
        decreases wins@.len() - i,
    {
        copy.push(copy_win(&wins[i]));
        i = i + 1;
    }
    assert(win_views(copy@) =~= win_views(wins@));
    copy
}

/// A copy of an outcome.
pub fn copy_outcome(outcome: &SpinOutcome) -> (copy: SpinOutcome)
    ensures
        win_views(copy.wins@) == win_views(outcome.wins@),
        copy.win_credits == outcome.win_credits,
        copy.scatter_count == outcome.scatter_count,
        copy.scatter_credits == outcome.scatter_credits,
        copy.egg_count == outcome.egg_count,
        copy.free_spins_awarded == outcome.free_spins_awarded,
        copy.total_credits == outcome.total_credits,
{
    SpinOutcome {
        wins: copy_wins(&outcome.wins),
        win_credits: outcome.win_credits,
        scatter_count: outcome.scatter_count,
        scatter_credits: outcome.scatter_credits,
        egg_count: outcome.egg_count,
        free_spins_awarded: outcome.free_spins_awarded,
        total_credits: outcome.total_credits,
    }
}

/// Whether reel `reel` shows `symbol` anywhere.
pub open spec fn reel_has(g: GridView, reel: int, symbol: usize) -> bool {
    exists|row: int| 0 <= row < g.rows_on(reel) && g.at(reel, row) == symbol
}

/// What a cell shows once wilds expand: the wild, when its reel shows one;
/// otherwise what it showed.
pub open spec fn expanded_at(g: GridView, wild: Option<usize>, reel: int, row: int) -> usize {
    match wild {
        Some(w) => if reel_has(g, reel, w) {
            w
        } else {
            g.at(reel, row)
        },
        None => g.at(reel, row),
    }
}

/// The grid with wilds expanded, cell by cell.
pub open spec fn spec_expanded(g: GridView, wild: Option<usize>) -> GridView {
    GridView {
        heights: g.heights,
        cells: Seq::new(
            g.cells.len(),
            |i: int| expanded_at(g, wild, cluster::cell_at(g, i).0, cluster::cell_at(g, i).1),
        ),
    }
}

/// Every reel showing a wild becomes wild top to bottom.
pub fn expand_wilds(data: &GameData, grid: &Grid) -> (expanded: Grid)
    requires
        grid.inv(),
    ensures
        expanded.inv(),
        expanded@ == spec_expanded(grid@, data.symbols@.wild),
        expanded@.heights == grid@.heights,
        forall|reel: int, row: int|
            grid@.valid_cell(reel, row) ==> #[trigger] expanded@.at(reel, row) == expanded_at(
                grid@,
                data.symbols@.wild,
                reel,
                row,
            ),
{
    let mut expanded = grid.clone();
    proof {
        grid.lemma_wf();
    }
    let wild = match data.symbols.wild() {
        Some(w) => w,
        None => {
            proof {
                lemma_expanded_view(grid@, expanded@, None);
            }
            return expanded;
        },
    };
    let ghost g = grid@;
    proof {
        grid.lemma_wf();
    }
    let reels = grid.reel_count();
    let mut reel: usize = 0;
    while reel < reels
        invariant
            grid.inv(),
            g == grid@,
            g.wf(),
            data.symbols@.wild == Some(wild),
            reels == g.heights.len(),
            0 <= reel <= reels,
            expanded.inv(),
            expanded@.heights == g.heights,
            forall|r: int, c: int|
                g.valid_cell(r, c) ==> #[trigger] expanded@.at(r, c) == (if r < reel {
                    expanded_at(g, Some(wild), r, c)
                } else {
                    g.at(r, c)
                }),
        decreases reels - reel,
    {
        if grid.reel_contains(reel, wild) {
            let rows = grid.rows_on(reel);
            let mut row: usize = 0;
            while row < rows
                invariant
                    grid.inv(),
                    g == grid@,
                    g.wf(),
                    data.symbols@.wild == Some(wild),
                    reels == g.heights.len(),
                    0 <= reel < reels,
                    rows == g.heights[reel as int],
                    0 <= row <= rows,
                    reel_has(g, reel as int, wild),
                    expanded.inv(),
                    expanded@.heights == g.heights,
                    forall|r: int, c: int|
                        g.valid_cell(r, c) ==> #[trigger] expanded@.at(r, c) == (if r < reel || (r == reel && c
                            < row) {
                            expanded_at(g, Some(wild), r, c)
                        } else {
                            g.at(r, c)
                        }),
                decreases rows - row,
            {
                let ghost before = expanded@;
                proof {
                    expanded.lemma_wf();
                    assert(before.wf());
                    assert(before.cells.len() == g.cells.len());
                    lemma_index_in_bounds(g, reel as int, row as int);
                }
                expanded.set(reel, row, wild);
                proof {
                    assert forall|r: int, c: int| g.valid_cell(r, c) implies #[trigger] expanded@.at(r, c) == (if r
                        < reel || (r == reel && c < row + 1) {
                        expanded_at(g, Some(wild), r, c)
                    } else {
                        g.at(r, c)
                    }) by {
                        lemma_index_in_bounds(g, r, c);
                        if r == reel && c == row {
                            assert(expanded@.index(r, c) == before.index(reel as int, row as int));
                            assert(expanded@.at(r, c) == wild);
                        } else {
                            if g.index(r, c) == g.index(reel as int, row as int) {
                                lemma_index_injective(g, r, c, reel as int, row as int);
                            }
                            assert(before.index(r, c) == g.index(r, c));
                            assert(expanded@.index(r, c) == g.index(r, c));
                            assert(before.index(reel as int, row as int) == g.index(reel as int, row as int));
                            assert(g.index(r, c) != g.index(reel as int, row as int));
                            assert(expanded@.cells[g.index(r, c)] == before.cells[g.index(r, c)]);
                            assert(expanded@.at(r, c) == before.at(r, c));
                        }
                    }
                }
                row = row + 1;
            }
        } else {
            assert forall|r: int, c: int| g.valid_cell(r, c) implies #[trigger] expanded@.at(r, c) == (if r < reel
                + 1 {
                expanded_at(g, Some(wild), r, c)
            } else {
                g.at(r, c)
            }) by {
                if r == reel {
                    assert(!reel_has(g, r, wild));
                }
            }
        }
        reel = reel + 1;
    }
    proof {
        expanded.lemma_wf();
        lemma_expanded_view(g, expanded@, Some(wild));
    }
    expanded
}

/// The expanded grid shows, at every cell, what the expansion says.
pub proof fn lemma_expanded_at(g: GridView, wild: Option<usize>)
    requires
        g.wf(),
    ensures
        spec_expanded(g, wild).wf(),
        forall|reel: int, row: int|
            g.valid_cell(reel, row) ==> #[trigger] spec_expanded(g, wild).at(reel, row) == expanded_at(g, wild, reel, row),
{
    let e = spec_expanded(g, wild);
    assert forall|reel: int, row: int| g.valid_cell(reel, row) implies #[trigger] e.at(reel, row) == expanded_at(
        g,
        wild,
        reel,
        row,
    ) by {
        cluster::lemma_cell_at_of(g, (reel, row));
    }
}

/// A grid agreeing with the expansion on every cell is the expanded grid.
proof fn lemma_expanded_view(g: GridView, e: GridView, wild: Option<usize>)
    requires
        g.wf(),
        e.heights == g.heights,
        e.cells.len() == g.cells.len(),
        forall|reel: int, row: int| g.valid_cell(reel, row) ==> #[trigger] e.at(reel, row) == expanded_at(g, wild, reel, row),
    ensures
        e == spec_expanded(g, wild),
{
    let x = spec_expanded(g, wild);
    assert forall|i: int| 0 <= i < g.cells.len() implies e.cells[i] == x.cells[i] by {
        cluster::lemma_cell_at(g, i);
        let c = cluster::cell_at(g, i);
        assert(e.at(c.0, c.1) == expanded_at(g, wild, c.0, c.1));
    }
    assert(e.cells =~= x.cells);
}

/// Expanding wilds twice is expanding them once: a grid that `expand_wilds`
/// could return shows, after a second expansion, exactly what it showed.
pub proof fn expanding_wilds_twice_changes_nothing(g: GridView, e: GridView, wild: Option<usize>)
    requires
        e.heights == g.heights,
        forall|reel: int, row: int| g.valid_cell(reel, row) ==> #[trigger] e.at(reel, row) == expanded_at(g, wild, reel, row),
    ensures
        forall|reel: int, row: int| e.valid_cell(reel, row) ==> #[trigger] expanded_at(e, wild, reel, row) == e.at(reel, row),
{
    assert forall|reel: int, row: int| e.valid_cell(reel, row) implies #[trigger] expanded_at(e, wild, reel, row) == e.at(
        reel,
        row,
    ) by {
        if let Some(w) = wild {
            if reel_has(e, reel, w) {
                let r2 = choose|r2: int| 0 <= r2 < e.rows_on(reel) && e.at(reel, r2) == w;
                assert(g.valid_cell(reel, r2));
                assert(e.at(reel, r2) == expanded_at(g, wild, reel, r2));
                if !reel_has(g, reel, w) {
                    assert(g.at(reel, r2) == w);
                }
                assert(e.at(reel, row) == expanded_at(g, wild, reel, row));
            }
        }
    }
}

/// The reel wins the cabinet's evaluation model finds.
pub open spec fn spec_reel_wins(data: GameData, g: GridView, ctx: EvalContext) -> Seq<WinView> {
    match data.config.evaluation {
        Evaluation::Lines => spec_line_wins(data, g, ctx),
        Evaluation::Ways => ways::spec_ways_wins(data, g, ctx.line_bet, ctx.win_multiplier),
        Evaluation::Cluster => cluster::spec_cluster_wins(data, g, ctx.line_bet, ctx.win_multiplier),
    }
}

/// Scatters on the grid; none when the cabinet has no scatter.
pub open spec fn scatters_on(data: GameData, g: GridView) -> nat {
    match data.symbols@.scatter {
        Some(s) => count_in(g.cells, s),
        None => 0,
    }
}

/// Scatters that count toward pay and awards: the paytable stops at five.
pub open spec fn paid_scatters(data: GameData, g: GridView) -> int {
    if scatters_on(data, g) < MAX_RUN {
        scatters_on(data, g) as int
    } else {
        MAX_RUN as int
    }
}

/// Scatter pay, which scales with the total bet rather than the line bet.
pub open spec fn scatter_credits(data: GameData, g: GridView, ctx: EvalContext) -> int {
    match data.symbols@.scatter {
        Some(s) => data.symbols@.pay(s as int, paid_scatters(data, g)) * ctx.total_bet,
        None => 0,
    }
}

/// Free spins the scatters award.
pub open spec fn scatter_award(data: GameData, g: GridView) -> u32 {
    match data.symbols@.scatter {
        Some(s) => award_of(data.freespins.awards@, paid_scatters(data, g) as usize),
        None => 0,
    }
}

/// Hoard symbols on the grid; none when the cabinet has no hoard symbol.
pub open spec fn eggs_on(data: GameData, g: GridView) -> nat {
    match data.symbols@.hoard {
        Some(h) => count_in(g.cells, h),
        None => 0,
    }
}

/// The chosen model's arithmetic, the wins' sum, scatter pay and the total
/// all stay inside `i64`.
pub open spec fn eval_ready(data: GameData, g: GridView, ctx: EvalContext) -> bool {
    &&& data.symbols@.wf()
    &&& data.freespins.wf()
    &&& g.wf()
    &&& match data.config.evaluation {
        Evaluation::Lines => lines_ready(data, g, ctx),
        Evaluation::Ways => ways::ways_ready(data, g, ctx.line_bet, ctx.win_multiplier),
        Evaluation::Cluster => cluster::cluster_ready(data, g, ctx.line_bet, ctx.win_multiplier) && wins_fit(
            cluster::spec_cluster_wins(data, g, ctx.line_bet, ctx.win_multiplier),
        ),
    }
    &&& fits_i64(scatter_credits(data, g, ctx))
    &&& fits_i64(sum_credits(spec_reel_wins(data, g, ctx)) + scatter_credits(data, g, ctx))
}

/// Sum of the credits of a list of wins.
fn credits_of(wins: &Vec<Win>) -> (total: i64)
    requires
        wins_fit(win_views(wins@)),
    ensures
        total == sum_credits(win_views(wins@)),
{
    let ghost views = win_views(wins@);
    let mut total: i64 = 0;
    let mut i: usize = 0;
    assert(views.subrange(0, 0) =~= Seq::<WinView>::empty());
    while i < wins.len()
        invariant
            views == win_views(wins@),
            wins_fit(views),
            0 <= i <= wins@.len(),
            total == sum_credits(views.subrange(0, i as int)),
        decreases wins@.len() - i,
    {
        assert(views.subrange(0, i + 1).drop_last() =~= views.subrange(0, i as int));
        assert(fits_i64(sum_credits(views.subrange(0, i + 1))));
        total = total + wins[i].credits;
        i = i + 1;
    }
    assert(views.subrange(0, i as int) =~= views);
    total
}

/// What evaluating `g` yields: the model's reel wins and their sum, the
/// scatters with their pay and award, the hoard symbols, and the total.
pub open spec fn evaluates_to(data: GameData, g: GridView, ctx: EvalContext, outcome: SpinOutcome) -> bool {
    &&& win_views(outcome.wins@) == spec_reel_wins(data, g, ctx)
    &&& outcome.win_credits == sum_credits(spec_reel_wins(data, g, ctx))
    &&& outcome.scatter_count == scatters_on(data, g)
    &&& outcome.scatter_credits == scatter_credits(data, g, ctx)
    &&& outcome.free_spins_awarded == scatter_award(data, g)
    &&& outcome.egg_count == eggs_on(data, g)
    &&& outcome.total_credits == outcome.win_credits + outcome.scatter_credits
}

/// Evaluate one grid: the reel wins of the cabinet's model, then scatters,
/// which pay from anywhere, and the hoard symbols on show.
pub fn evaluate(data: &GameData, grid: &Grid, ctx: &EvalContext) -> (outcome: SpinOutcome)
    requires
        grid.inv(),
        eval_ready(*data, grid@, *ctx),
    ensures
        evaluates_to(*data, grid@, *ctx, outcome),
{
    let wins = match data.config.evaluation {
        Evaluation::Lines => line_wins(data, grid, ctx),
        Evaluation::Ways => ways::wins(data, grid, ctx.line_bet, ctx.win_multiplier),
        Evaluation::Cluster => cluster::wins(data, grid, ctx.line_bet, ctx.win_multiplier),
    };
    let win_credits = credits_of(&wins);
    let mut scatter_count: usize = 0;
    let mut scatter_credits: i64 = 0;
    let mut free_spins_awarded: u32 = 0;
    match data.symbols.scatter() {
        Some(scatter) => {
            let count = grid.count_of(scatter);
            scatter_count = count;
            let paid = if count < MAX_RUN {
                count
            } else {
                MAX_RUN
            };
            scatter_credits = data.symbols.pay(scatter, paid) * ctx.total_bet;
            free_spins_awarded = data.freespins.award_for(paid);
        },
        None => {},
    }
    let egg_count = match data.symbols.hoard() {
        Some(hoard) => grid.count_of(hoard),
        None => 0,
    };
    SpinOutcome {
        wins,
        win_credits,
        scatter_count,
        scatter_credits,
        egg_count,
        free_spins_awarded,
        total_credits: win_credits + scatter_credits,
    }
}

proof fn lemma_line_wins_count(data: GameData, g: GridView, ctx: EvalContext, k: int)
    requires
        0 <= k <= usize::MAX + 1,
    ensures
        line_wins_upto(data, g, ctx, k).len() <= k,
        forall|i: int|
            0 <= i < line_wins_upto(data, g, ctx, k).len() ==> ((#[trigger] line_wins_upto(data, g, ctx, k)[i]).source
                matches WinSource::Line(j) && j < k),
        forall|i: int, m: int|
            0 <= i < m < line_wins_upto(data, g, ctx, k).len() ==> (#[trigger] line_wins_upto(data, g, ctx, k)[i]).source->Line_0
                < (#[trigger] line_wins_upto(data, g, ctx, k)[m]).source->Line_0,
    decreases k,
{
    if k > 0 {
        lemma_line_wins_count(data, g, ctx, k - 1);
        let prev = line_wins_upto(data, g, ctx, k - 1);
        let now = line_wins_upto(data, g, ctx, k);
        match line_win(data, g, ctx, k - 1) {
            Some(w) => {
                assert(now == prev.push(w));
                assert(w.source == WinSource::Line((k - 1) as usize));
                assert forall|i: int| 0 <= i < now.len() implies ((#[trigger] now[i]).source matches WinSource::Line(
                    j,
                ) && j < k) by {
                    if i < prev.len() {
                        assert(now[i] == prev[i]);
                    }
                }
                assert forall|i: int, m: int| 0 <= i < m < now.len() implies (#[trigger] now[i]).source->Line_0 < (
                #[trigger] now[m]).source->Line_0 by {
                    assert(now[i] == prev[i]);
                    if m < prev.len() {
                        assert(now[m] == prev[m]);
                    } else {
                        assert(prev[i].source matches WinSource::Line(j) && j < k - 1);
                        assert(now[m] == w);
                    }
                }
            },
            None => {
                assert(now == prev);
            },
        }
    }
}

/// A payline pays at most once: the line wins name distinct paylines, in
/// payline order, so there are never more wins than lines.
pub proof fn a_line_pays_at_most_once(data: GameData, g: GridView, ctx: EvalContext)
    requires
        data.paylines@.len() <= usize::MAX,
    ensures
        spec_line_wins(data, g, ctx).len() <= data.paylines@.len(),
        forall|i: int, m: int|
            0 <= i < m < spec_line_wins(data, g, ctx).len() ==> (#[trigger] spec_line_wins(data, g, ctx)[i]).source->Line_0
                < (#[trigger] spec_line_wins(data, g, ctx)[m]).source->Line_0,
{
    lemma_line_wins_count(data, g, ctx, data.paylines@.len() as int);
}

proof fn lemma_line_wins_pay(data: GameData, g: GridView, ctx: EvalContext, k: int)
    requires
        ctx.line_bet > 0,
        ctx.win_multiplier >= 1,
    ensures
        forall|i: int|
            0 <= i < line_wins_upto(data, g, ctx, k).len() ==> (#[trigger] line_wins_upto(data, g, ctx, k)[i]).credits
                > 0,
    decreases k,
{
    if k > 0 {
        lemma_line_wins_pay(data, g, ctx, k - 1);
        let rows = data.paylines@[k - 1].rows@;
        lemma_best_upto(data.symbols@, line_cells(g, rows), data.symbols@.len());
        match best_upto(data.symbols@, line_cells(g, rows), data.symbols@.len()) {
            Some((symbol, count, m)) => {
                assert(m * ctx.line_bet * ctx.win_multiplier > 0) by (nonlinear_arith)
                    requires
                        m > 0,
                        ctx.line_bet > 0,
                        ctx.win_multiplier >= 1,
                ;
            },
            None => {},
        }
    }
}

/// Every reel win pays something when the bet and multiplier do.
pub(crate) proof fn lemma_reel_wins_pay(data: GameData, g: GridView, ctx: EvalContext)
    requires
        ctx.line_bet > 0,
        ctx.win_multiplier >= 1,
    ensures
        forall|i: int|
            0 <= i < spec_reel_wins(data, g, ctx).len() ==> (#[trigger] spec_reel_wins(data, g, ctx)[i]).credits > 0,
{
    match data.config.evaluation {
        Evaluation::Lines => lemma_line_wins_pay(data, g, ctx, data.paylines@.len() as int),
        Evaluation::Ways => ways::lemma_ways_wins_pay(
            data,
            g,
            ctx.line_bet,
            ctx.win_multiplier,
            data.symbols@.len() as int,
        ),
        Evaluation::Cluster => cluster::lemma_cluster_wins_pay(
            data,
            g,
            ctx.line_bet,
            ctx.win_multiplier,
            g.cells.len() as int,
        ),
    }
}

/// Wins that each pay something add up to something.
pub(crate) proof fn lemma_sum_positive(wins: Seq<WinView>)
    requires
        wins.len() > 0,
        forall|i: int| 0 <= i < wins.len() ==> (#[trigger] wins[i]).credits > 0,
    ensures
        sum_credits(wins) > 0,
    decreases wins.len(),
{
    if wins.len() > 1 {
        let rest = wins.drop_last();
        assert forall|i: int| 0 <= i < rest.len() implies (#[trigger] rest[i]).credits > 0 by {
            assert(rest[i] == wins[i]);
        }
        lemma_sum_positive(rest);
    } else {
        assert(sum_credits(wins.drop_last()) == 0);
    }
    assert(wins.last() == wins[wins.len() - 1]);
}

proof fn lemma_best_dominates(syms: SymbolsView, cells: Seq<usize>, k: int, c: usize)
    requires
        0 <= c < k <= usize::MAX + 1,
        !syms.is_scatter(c as int),
        leading_run(syms, cells, c) >= 3,
        syms.pay(c as int, leading_run(syms, cells, c)) > 0,
    ensures
        best_upto(syms, cells, k) matches Some((b, run, m)) && m >= syms.pay(c as int, leading_run(syms, cells, c)),
    decreases k,
{
    let last = (k - 1) as usize;
    if c < k - 1 {
        lemma_best_dominates(syms, cells, k - 1, c);
    } else {
        assert(last == c);
    }
}

proof fn lemma_line_win_listed(data: GameData, g: GridView, ctx: EvalContext, j: int, k: int)
    requires
        0 <= j < k,
        line_win(data, g, ctx, j) is Some,
    ensures
        line_wins_upto(data, g, ctx, k).contains(line_win(data, g, ctx, j)->Some_0),
    decreases k,
{
    let prev = line_wins_upto(data, g, ctx, k - 1);
    if j < k - 1 {
        lemma_line_win_listed(data, g, ctx, j, k - 1);
        let i = choose|i: int| 0 <= i < prev.len() && prev[i] == line_win(data, g, ctx, j)->Some_0;
        match line_win(data, g, ctx, k - 1) {
            Some(w) => {
                assert(line_wins_upto(data, g, ctx, k)[i] == prev[i]);
            },
            None => {},
        }
    } else {
        let w = line_win(data, g, ctx, j)->Some_0;
        assert(line_wins_upto(data, g, ctx, k) == prev.push(w));
        assert(line_wins_upto(data, g, ctx, k)[prev.len() as int] == w);
    }
}

/// A payline pays its best reading. Whatever symbol `c` (scatters aside) the
/// line's leading cells read as (the symbol itself or a wild, so a
/// wild-led line reads as every symbol it runs into), if that run is `n`
/// cells, at least three, and pays, then the line makes a win worth at least
/// that pay times the line bet and the multiplier.
pub proof fn a_line_pays_at_least_every_reading(data: GameData, g: GridView, ctx: EvalContext, j: int, c: usize, n: int)
    requires
        0 <= j < data.paylines@.len(),
        c < data.symbols@.len() <= usize::MAX,
        !data.symbols@.is_scatter(c as int),
        ctx.line_bet > 0,
        ctx.win_multiplier >= 1,
        3 <= n <= data.paylines@[j].rows@.len(),
        forall|i: int|
            0 <= i < n ==> #[trigger] line_cells(g, data.paylines@[j].rows@)[i] == c || data.symbols@.is_wild(
                line_cells(g, data.paylines@[j].rows@)[i] as int,
            ),
        n == data.paylines@[j].rows@.len() || !(line_cells(g, data.paylines@[j].rows@)[n] == c
            || data.symbols@.is_wild(line_cells(g, data.paylines@[j].rows@)[n] as int)),
        data.symbols@.pay(c as int, n) > 0,
    ensures
        line_win(data, g, ctx, j) matches Some(w) && w.source == WinSource::Line(j as usize) && w.credits
            >= data.symbols@.pay(c as int, n) * ctx.line_bet * ctx.win_multiplier && spec_line_wins(
            data,
            g,
            ctx,
        ).contains(w),
{
    let syms = data.symbols@;
    let cells = line_cells(g, data.paylines@[j].rows@);
    assert forall|i: int| 0 <= i < n implies reads_as(syms, #[trigger] cells[i], c) by {}
    lemma_leading_run_is(syms, cells, c, n);
    lemma_best_dominates(syms, cells, syms.len() as int, c);
    lemma_line_win_listed(data, g, ctx, j, data.paylines@.len() as int);
    let m = best_upto(syms, cells, syms.len() as int)->Some_0.2;
    let p = syms.pay(c as int, n);
    assert(m * ctx.line_bet * ctx.win_multiplier >= p * ctx.line_bet * ctx.win_multiplier) by (nonlinear_arith)
        requires
            m >= p,
            ctx.line_bet > 0,
            ctx.win_multiplier >= 1,
    ;
}

} // verus!
