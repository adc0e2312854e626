//! Ways-to-win evaluation.
//!
//! A symbol pays if it appears at least once on each of reels 1..n, and the
//! win is multiplied by how many distinct paths there are: the product of its
//! per-reel counts. Every symbol pays alongside the others, except that a run
//! made entirely of wilds pays only as the wild, so the same cells are never
//! paid twice under two names.

use vstd::prelude::*;
use crate::data::{fits_i64, GameData, SymbolsView};
use crate::engine::evaluate::{sum_credits, win_views, wins_fit, Win, WinSource, WinView};
use crate::engine::reels::{Grid, GridView};

verus! {

/// Minimum run length that can pay, matching the payline evaluator.
pub const MIN_RUN: usize = 3;

/// Whether a cell counts toward `candidate`'s ways: the symbol itself, or a
/// wild when the candidate is not the wild.
pub open spec fn hits(syms: SymbolsView, candidate: usize, cell: usize) -> bool {
    cell == candidate || (!syms.is_wild(candidate as int) && syms.is_wild(cell as int))
}

/// Flat indices of the cells among the first `k` rows of reel `r` that hit.
pub open spec fn reel_hits_upto(syms: SymbolsView, g: GridView, candidate: usize, r: int, k: int) -> Seq<usize>
    decreases k,
{
    if k <= 0 {
        Seq::empty()
    } else {
        let prev = reel_hits_upto(syms, g, candidate, r, k - 1);
        if hits(syms, candidate, g.at(r, k - 1)) {
            prev.push(g.index(r, k - 1) as usize)
        } else {
            prev
        }
    }
}

pub open spec fn reel_hits(syms: SymbolsView, g: GridView, candidate: usize, r: int) -> Seq<usize> {
    reel_hits_upto(syms, g, candidate, r, g.rows_on(r))
}

/// Cells among the first `k` rows of reel `r` that are the candidate itself.
pub open spec fn genuine_upto(g: GridView, candidate: usize, r: int, k: int) -> int
    decreases k,
{
    if k <= 0 {
        0
    } else {
        genuine_upto(g, candidate, r, k - 1) + if g.at(r, k - 1) == candidate { 1int } else { 0 }
    }
}

/// How many reels, from the first, the candidate appears on without a gap.
pub open spec fn run_from(syms: SymbolsView, g: GridView, candidate: usize, r: int) -> int
    decreases g.reel_count() - r,
{
    if r < 0 || r >= g.reel_count() || reel_hits(syms, g, candidate, r).len() == 0 {
        0
    } else {
        1 + run_from(syms, g, candidate, r + 1)
    }
}

pub open spec fn ways_run(syms: SymbolsView, g: GridView, candidate: usize) -> int {
    run_from(syms, g, candidate, 0)
}

/// Paths through the first `k` reels: the product of their hit counts.
pub open spec fn ways_upto(syms: SymbolsView, g: GridView, candidate: usize, k: int) -> int
    decreases k,
{
    if k <= 0 {
        1
    } else {
        ways_upto(syms, g, candidate, k - 1) * reel_hits(syms, g, candidate, k - 1).len()
    }
}

pub open spec fn cells_upto(syms: SymbolsView, g: GridView, candidate: usize, k: int) -> Seq<usize>
    decreases k,
{
    if k <= 0 {
        Seq::empty()
    } else {
        cells_upto(syms, g, candidate, k - 1) + reel_hits(syms, g, candidate, k - 1)
    }
}

pub open spec fn genuine_reels_upto(g: GridView, candidate: usize, k: int) -> int
    decreases k,
{
    if k <= 0 {
        0
    } else {
        genuine_reels_upto(g, candidate, k - 1) + genuine_upto(g, candidate, k - 1, g.rows_on(k - 1))
    }
}

/// One symbol's ways win, or `None` if it does not pay.
pub open spec fn symbol_win(data: GameData, g: GridView, candidate: usize, line_bet: i64, multiplier: i64) -> Option<WinView> {
    let syms = data.symbols@;
    let run = ways_run(syms, g, candidate);
    let pay = syms.pay(candidate as int, run);
    if run < MIN_RUN || genuine_reels_upto(g, candidate, run) == 0 || pay <= 0 {
        None
    } else {
        let ways = ways_upto(syms, g, candidate, run);
        Some(
            WinView {
                source: WinSource::Ways(ways as usize),
                symbol: candidate,
                count: run as usize,
                credits: pay * ways * line_bet * multiplier,
                cells: cells_upto(syms, g, candidate, run),
            },
        )
    }
}

/// Every paying symbol among the first `k`, scatters excepted, in symbol
/// order.
pub open spec fn ways_wins_upto(data: GameData, g: GridView, line_bet: i64, multiplier: i64, k: int) -> Seq<WinView>
    decreases k,
{
    if k <= 0 {
        Seq::empty()
    } else {
        let prev = ways_wins_upto(data, g, line_bet, multiplier, k - 1);
        let c = (k - 1) as usize;
        if data.symbols@.is_scatter(c as int) {
            prev
        } else {
            match symbol_win(data, g, c, line_bet, multiplier) {
                Some(w) => prev.push(w),
                None => prev,
            }
        }
    }
}

pub open spec fn spec_ways_wins(data: GameData, g: GridView, line_bet: i64, multiplier: i64) -> Seq<WinView> {
    ways_wins_upto(data, g, line_bet, multiplier, data.symbols@.len())
}

/// Every way count a symbol builds stays inside `i64`, and every win and
/// running total does too.
pub open spec fn ways_ready(data: GameData, g: GridView, line_bet: i64, multiplier: i64) -> bool {
    &&& data.symbols@.wf()
    &&& g.wf()
    &&& forall|c: int, k: int|
        0 <= c < data.symbols@.len() && 0 <= k <= ways_run(data.symbols@, g, c as usize) ==> #[trigger] ways_upto(
            data.symbols@,
            g,
            c as usize,
            k,
        ) <= i64::MAX
    &&& forall|c: int, k: int|
        0 <= c < data.symbols@.len() && 0 <= k <= ways_run(data.symbols@, g, c as usize) ==> #[trigger] ways_upto(
            data.symbols@,
            g,
            c as usize,
            k,
        ) <= usize::MAX
    &&& wins_fit(spec_ways_wins(data, g, line_bet, multiplier))
}

proof fn lemma_run_from_bounds(syms: SymbolsView, g: GridView, c: usize, r: int)
    requires
        0 <= r,
    ensures
        0 <= run_from(syms, g, c, r),
        r <= g.reel_count() ==> r + run_from(syms, g, c, r) <= g.reel_count(),
    decreases g.reel_count() - r,
{
    if 0 <= r < g.reel_count() && reel_hits(syms, g, c, r).len() != 0 {
        lemma_run_from_bounds(syms, g, c, r + 1);
    }
}

/// Every reel before `r + run_from(r)` has a hit, and that reel (if it
/// exists) has none.
proof fn lemma_run_from_shape(syms: SymbolsView, g: GridView, c: usize, r: int, k: int)
    requires
        0 <= r <= k < r + run_from(syms, g, c, r),
    ensures
        k < g.reel_count(),
        reel_hits(syms, g, c, k).len() > 0,
    decreases k - r,
{
    if r < k {
        lemma_run_from_shape(syms, g, c, r + 1, k);
    }
}

/// A scan that found hits on reels `r..k` and none on reel `k` (or ran out
/// of reels) has found the run.
proof fn lemma_run_from_is(syms: SymbolsView, g: GridView, c: usize, r: int, k: int)
    requires
        0 <= r <= k <= g.reel_count(),
        forall|j: int| r <= j < k ==> #[trigger] reel_hits(syms, g, c, j).len() > 0,
        k == g.reel_count() || reel_hits(syms, g, c, k).len() == 0,
    ensures
        run_from(syms, g, c, r) == k - r,
    decreases k - r,
{
    if r < k {
        lemma_run_from_is(syms, g, c, r + 1, k);
    }
}

proof fn lemma_hits_in_order(syms: SymbolsView, g: GridView, c: usize, r: int, k: int)
    ensures
        reel_hits_upto(syms, g, c, r, k).len() <= if k > 0 { k } else { 0 },
    decreases k,
{
    if k > 0 {
        lemma_hits_in_order(syms, g, c, r, k - 1);
    }
}

/// `pay * ways * line_bet * multiplier` in `i64`, given the product fits.
fn scale_credits(pay: i64, ways: i64, line_bet: i64, multiplier: i64) -> (credits: i64)
    requires
        pay > 0,
        ways > 0,
        fits_i64(pay * ways * line_bet * multiplier),
    ensures
        credits == pay * ways * line_bet * multiplier,
{
    if line_bet == 0 || multiplier == 0 {
        assert(pay * ways * line_bet * multiplier == 0) by (nonlinear_arith)
            requires
                line_bet == 0 || multiplier == 0,
        ;
        return 0;
    }
    let ghost x = pay * ways;
    let ghost y = x * line_bet;
    let ghost z = y * multiplier;
    proof {
        lemma_abs_grows(pay as int, ways as int);
        lemma_abs_grows(x, line_bet as int);
        lemma_abs_grows(y, multiplier as int);
        assert(abs(z) <= 0x8000_0000_0000_0000);
    }
    let a = (pay as i128) * (ways as i128);
    let b = a * (line_bet as i128);
    let c = b * (multiplier as i128);
    c as i64
}

pub open spec fn abs(x: int) -> int {
    if x < 0 {
        -x
    } else {
        x
    }
}

/// Multiplying by a non-zero integer never shrinks a magnitude.
pub proof fn lemma_abs_grows(x: int, k: int)
    requires
        k != 0,
    ensures
        abs(x) <= abs(x * k),
{
    if k > 0 {
        if x >= 0 {
            assert(x <= x * k) by (nonlinear_arith)
                requires
                    k >= 1,
                    x >= 0,
            ;
        } else {
            assert(x * k <= x) by (nonlinear_arith)
                requires
                    k >= 1,
                    x < 0,
            ;
        }
    } else {
        if x >= 0 {
            assert(-(x * k) >= x) by (nonlinear_arith)
                requires
                    k <= -1,
                    x >= 0,
            ;
        } else {
            assert(x * k >= -x) by (nonlinear_arith)
                requires
                    k <= -1,
                    x < 0,
            ;
        }
    }
}

proof fn lemma_run_from_at_least(syms: SymbolsView, g: GridView, c: usize, r: int, k: int)
    requires
        0 <= r <= k <= g.reel_count(),
        forall|j: int| r <= j < k ==> #[trigger] reel_hits(syms, g, c, j).len() > 0,
    ensures
        run_from(syms, g, c, r) >= k - r,
    decreases k - r,
{
    if r < k {
        assert(reel_hits(syms, g, c, r).len() > 0);
        lemma_run_from_at_least(syms, g, c, r + 1, k);
        assert(run_from(syms, g, c, r) == 1 + run_from(syms, g, c, r + 1));
    } else {
        lemma_run_from_bounds(syms, g, c, r);
    }
}

proof fn lemma_ways_positive(syms: SymbolsView, g: GridView, c: usize, k: int)
    requires
        forall|j: int| 0 <= j < k ==> #[trigger] reel_hits(syms, g, c, j).len() > 0,
    ensures
        ways_upto(syms, g, c, k) >= 1,
    decreases k,
{
    if k > 0 {
        lemma_ways_positive(syms, g, c, k - 1);
        let w = ways_upto(syms, g, c, k - 1);
        let h = reel_hits(syms, g, c, k - 1).len() as int;
        assert(w * h >= 1) by (nonlinear_arith)
            requires
                w >= 1,
                h >= 1,
        ;
    }
}

proof fn lemma_genuine_nonneg(g: GridView, c: usize, k: int)
    ensures
        genuine_reels_upto(g, c, k) >= 0,
    decreases k,
{
    if k > 0 {
        lemma_genuine_nonneg(g, c, k - 1);
        lemma_genuine_row_nonneg(g, c, k - 1, g.rows_on(k - 1));
    }
}

proof fn lemma_genuine_row_nonneg(g: GridView, c: usize, r: int, k: int)
    ensures
        genuine_upto(g, c, r, k) >= 0,
    decreases k,
{
    if k > 0 {
        lemma_genuine_row_nonneg(g, c, r, k - 1);
    }
}

/// One symbol's ways run, or `None` if it does not pay.
fn symbol_win_exec(data: &GameData, grid: &Grid, candidate: usize, line_bet: i64, multiplier: i64) -> (r: Option<Win>)
    requires
        grid.inv(),
        candidate < data.symbols@.len(),
        ways_ready(*data, grid@, line_bet, multiplier),
        symbol_win(*data, grid@, candidate, line_bet, multiplier) matches Some(w) ==> fits_i64(w.credits),
    ensures
        match r {
            Some(win) => symbol_win(*data, grid@, candidate, line_bet, multiplier) == Some(win@),
            None => symbol_win(*data, grid@, candidate, line_bet, multiplier) is None,
        },
{
    let ghost syms = data.symbols@;
    let ghost g = grid@;
    let is_wild_candidate = data.symbols.is_wild(candidate);
    let mut ways: usize = 1;
    let mut run: usize = 0;
    let mut cells: Vec<usize> = Vec::new();
    let mut found = false;
    let reels = grid.reel_count();
    proof {
        grid.lemma_wf();
        grid.lemma_cells_fit();
    }
    let mut reel: usize = 0;
    let mut stopped = false;
    while reel < reels && !stopped
        invariant
            grid.inv(),
            g == grid@,
            syms == data.symbols@,
            g.wf(),
            g.cells.len() <= usize::MAX,
            reels == g.reel_count(),
            is_wild_candidate == syms.is_wild(candidate as int),
            ways_ready(*data, g, line_bet, multiplier),
            candidate < syms.len(),
            0 <= reel <= reels,
            run == reel,
            forall|j: int| 0 <= j < reel ==> #[trigger] reel_hits(syms, g, candidate, j).len() > 0,
            stopped ==> reel < reels && reel_hits(syms, g, candidate, reel as int).len() == 0,
            ways == ways_upto(syms, g, candidate, reel as int),
            cells@ == cells_upto(syms, g, candidate, reel as int),
            found == (genuine_reels_upto(g, candidate, reel as int) > 0),
        decreases reels - reel + if stopped { 0int } else { 1 },
    {
        let mut reel_cells: Vec<usize> = Vec::new();
        let mut here_genuine: bool = false;
        let rows = grid.rows_on(reel);
        let mut row: usize = 0;
        while row < rows
            invariant
                grid.inv(),
                g == grid@,
                g.wf(),
                g.cells.len() <= usize::MAX,
                0 <= reel < g.reel_count(),
                rows == g.rows_on(reel as int),
                is_wild_candidate == syms.is_wild(candidate as int),
                syms == data.symbols@,
                0 <= row <= rows,
                reel_cells@ == reel_hits_upto(syms, g, candidate, reel as int, row as int),
                here_genuine == (genuine_upto(g, candidate, reel as int, row as int) > 0),
                genuine_upto(g, candidate, reel as int, row as int) >= 0,
            decreases rows - row,
        {
            proof {
                crate::engine::reels::lemma_index_in_bounds(g, reel as int, row as int);
            }
            let symbol = grid.at(reel, row);
            let hit = symbol == candidate || (!is_wild_candidate && data.symbols.is_wild(symbol));
            if hit {
                reel_cells.push(grid.index(reel, row));
            }
            if symbol == candidate {
                here_genuine = true;
            }
            row = row + 1;
        }
        if reel_cells.len() == 0 {
            stopped = true;
        } else {
            proof {
                lemma_run_from_at_least(syms, g, candidate, 0, reel + 1);
                assert(ways_upto(syms, g, candidate, reel + 1) <= i64::MAX);
                assert(ways_upto(syms, g, candidate, reel + 1) <= usize::MAX);
                lemma_ways_positive(syms, g, candidate, reel as int);
                lemma_genuine_nonneg(g, candidate, reel as int);
                assert(ways_upto(syms, g, candidate, reel + 1) == ways * reel_cells@.len());
            }
            ways = ways * reel_cells.len();
            run = run + 1;
            cells.append(&mut reel_cells);
            found = found || here_genuine;
            reel = reel + 1;
        }
    }
    proof {
        lemma_run_from_is(syms, g, candidate, 0, reel as int);
        lemma_genuine_nonneg(g, candidate, reel as int);
    }
    if run < MIN_RUN || !found {
        return None;
    }
    let pay = data.symbols.pay(candidate, run);
    if pay <= 0 {
        return None;
    }
    proof {
        lemma_ways_positive(syms, g, candidate, run as int);
        assert(ways_upto(syms, g, candidate, run as int) <= i64::MAX);
    }
    let credits = scale_credits(pay, ways as i64, line_bet, multiplier);
    Some(Win { source: WinSource::Ways(ways), symbol: candidate, count: run, credits, cells })
}

proof fn lemma_genuine_bound(g: GridView, c: usize, r: int, k: int)
    ensures
        genuine_upto(g, c, r, k) <= if k > 0 { k } else { 0 },
    decreases k,
{
    if k > 0 {
        lemma_genuine_bound(g, c, r, k - 1);
    }
}

proof fn lemma_ways_wins_prefix(data: GameData, g: GridView, lb: i64, m: i64, k: int, n: int)
    requires
        0 <= k <= n,
    ensures
        ways_wins_upto(data, g, lb, m, k).len() <= ways_wins_upto(data, g, lb, m, n).len(),
        ways_wins_upto(data, g, lb, m, n).subrange(0, ways_wins_upto(data, g, lb, m, k).len() as int)
            == ways_wins_upto(data, g, lb, m, k),
    decreases n - k,
{
    if k < n {
        lemma_ways_wins_prefix(data, g, lb, m, k, n - 1);
        let a = ways_wins_upto(data, g, lb, m, k);
        let b = ways_wins_upto(data, g, lb, m, n - 1);
        let c = ways_wins_upto(data, g, lb, m, n);
        assert(c.subrange(0, a.len() as int) =~= b.subrange(0, a.len() as int));
    } else {
        assert(ways_wins_upto(data, g, lb, m, n).subrange(0, ways_wins_upto(data, g, lb, m, k).len() as int)
            =~= ways_wins_upto(data, g, lb, m, k));
    }
}

/// Every paying symbol on the grid, with its ways count and the cells that
/// formed it.
pub fn wins(data: &GameData, grid: &Grid, line_bet: i64, multiplier: i64) -> (found: Vec<Win>)
    requires
        grid.inv(),
        ways_ready(*data, grid@, line_bet, multiplier),
    ensures
        win_views(found@) == spec_ways_wins(*data, grid@, line_bet, multiplier),
{
    let mut found: Vec<Win> = Vec::new();
    let n = data.symbols.len();
    let ghost all = spec_ways_wins(*data, grid@, line_bet, multiplier);
    let mut candidate: usize = 0;
    while candidate < n
        invariant
            grid.inv(),
            ways_ready(*data, grid@, line_bet, multiplier),
            n == data.symbols@.len(),
            all == spec_ways_wins(*data, grid@, line_bet, multiplier),
            0 <= candidate <= n,
            win_views(found@) == ways_wins_upto(*data, grid@, line_bet, multiplier, candidate as int),
        decreases n - candidate,
    {
        if !data.symbols.is_scatter(candidate) {
            proof {
                lemma_ways_wins_prefix(*data, grid@, line_bet, multiplier, candidate + 1, n as int);
                let upto = ways_wins_upto(*data, grid@, line_bet, multiplier, candidate + 1);
                if let Some(w) = symbol_win(*data, grid@, candidate, line_bet, multiplier) {
                    assert(upto.last() == w);
                    assert(all[upto.len() - 1] == w);
                }
            }
            let ghost prev = found@;
            match symbol_win_exec(data, grid, candidate, line_bet, multiplier) {
                Some(win) => {
                    found.push(win);
                    assert(win_views(found@) =~= win_views(prev).push(win@));
                },
                None => {},
            }
        }
        candidate = candidate + 1;
    }
    found
}

/// Every ways win pays something when the bet and multiplier do.
pub(crate) proof fn lemma_ways_wins_pay(data: GameData, g: GridView, line_bet: i64, multiplier: i64, k: int)
    requires
        line_bet > 0,
        multiplier >= 1,
    ensures
        forall|i: int|
            0 <= i < ways_wins_upto(data, g, line_bet, multiplier, k).len() ==> (#[trigger] ways_wins_upto(
                data,
                g,
                line_bet,
                multiplier,
                k,
            )[i]).credits > 0,
    decreases k,
{
    if k > 0 {
        lemma_ways_wins_pay(data, g, line_bet, multiplier, k - 1);
        let c = (k - 1) as usize;
        let syms = data.symbols@;
        let run = ways_run(syms, g, c);
        let pay = syms.pay(c as int, run);
        if !syms.is_scatter(c as int) && !(run < MIN_RUN || genuine_reels_upto(g, c, run) == 0 || pay <= 0) {
            assert forall|j: int| 0 <= j < run implies #[trigger] reel_hits(syms, g, c, j).len() > 0 by {
                lemma_run_from_shape(syms, g, c, 0, j);
            }
            lemma_ways_positive(syms, g, c, run);
            let ways = ways_upto(syms, g, c, run);
            assert(pay * ways * line_bet * multiplier > 0) by (nonlinear_arith)
                requires
                    pay > 0,
                    ways >= 1,
                    line_bet > 0,
                    multiplier >= 1,
            ;
        }
    }
}

proof fn lemma_genuine_row_shows(g: GridView, c: usize, r: int, k: int)
    requires
        genuine_upto(g, c, r, k) != 0,
    ensures
        exists|row: int| 0 <= row < k && #[trigger] g.at(r, row) == c,
    decreases k,
{
    if k > 0 {
        if g.at(r, k - 1) == c {
            assert(g.at(r, k - 1) == c);
        } else {
            lemma_genuine_row_shows(g, c, r, k - 1);
        }
    }
}

proof fn lemma_genuine_reel_shows(g: GridView, c: usize, k: int)
    requires
        genuine_reels_upto(g, c, k) != 0,
    ensures
        exists|r: int, row: int| 0 <= r < k && 0 <= row < g.rows_on(r) && #[trigger] g.at(r, row) == c,
    decreases k,
{
    if k > 0 {
        if genuine_upto(g, c, k - 1, g.rows_on(k - 1)) != 0 {
            lemma_genuine_row_shows(g, c, k - 1, g.rows_on(k - 1));
            let row = choose|row: int| 0 <= row < g.rows_on(k - 1) && #[trigger] g.at(k - 1, row) == c;
            assert(g.at(k - 1, row) == c);
        } else {
            lemma_genuine_reel_shows(g, c, k - 1);
        }
    }
}

/// A ways win is never paid on wilds alone: the symbol it is paid under
/// shows itself somewhere on the reels its run covers, and the run is at
/// least three reels long and pays something.
pub proof fn a_ways_win_shows_its_own_symbol(data: GameData, g: GridView, line_bet: i64, multiplier: i64, k: int)
    requires
        g.heights.len() <= usize::MAX,
    ensures
        forall|i: int|
            0 <= i < ways_wins_upto(data, g, line_bet, multiplier, k).len() ==> {
                let w = #[trigger] ways_wins_upto(data, g, line_bet, multiplier, k)[i];
                &&& w.count >= MIN_RUN
                &&& data.symbols@.pay(w.symbol as int, w.count as int) > 0
                &&& exists|r: int, row: int|
                    0 <= r < w.count && 0 <= row < g.rows_on(r) && #[trigger] g.at(r, row) == w.symbol
            },
    decreases k,
{
    if k > 0 {
        a_ways_win_shows_its_own_symbol(data, g, line_bet, multiplier, k - 1);
        let c = (k - 1) as usize;
        let syms = data.symbols@;
        let run = ways_run(syms, g, c);
        let pay = syms.pay(c as int, run);
        lemma_run_from_bounds(syms, g, c, 0);
        if !syms.is_scatter(c as int) && !(run < MIN_RUN || genuine_reels_upto(g, c, run) == 0 || pay <= 0) {
            lemma_genuine_reel_shows(g, c, run);
            let now = ways_wins_upto(data, g, line_bet, multiplier, k);
            let prev = ways_wins_upto(data, g, line_bet, multiplier, k - 1);
            let w = symbol_win(data, g, c, line_bet, multiplier)->Some_0;
            assert(now == prev.push(w));
            assert(w.count as int == run);
            let (r, row) = choose|r: int, row: int| 0 <= r < run && 0 <= row < g.rows_on(r) && #[trigger] g.at(r, row) == c;
            assert(g.at(r, row) == w.symbol);
            assert forall|i: int| 0 <= i < now.len() implies {
                let v = #[trigger] now[i];
                &&& v.count >= MIN_RUN
                &&& syms.pay(v.symbol as int, v.count as int) > 0
                &&& exists|r: int, row: int|
                    0 <= r < v.count && 0 <= row < g.rows_on(r) && #[trigger] g.at(r, row) == v.symbol
            } by {
                if i < prev.len() {
                    assert(now[i] == prev[i]);
                } else {
                    assert(now[i] == w);
                    assert(g.at(r, row) == now[i].symbol);
                }
            }
        }
    }
}

} // verus!
