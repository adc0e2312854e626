//! The Seam: a board taken over by one treasure, and what it does next.
//!
//! When the reels come to rest with enough cells showing the same paying
//! symbol, that symbol is a seam, worked out over a few beats: it widens,
//! taking cells around it, or deepens, every cell of it climbing a rung of
//! the pay ladder. The three specials never form a seam and never fall to
//! one: a rite that could mint a scatter or a hoard symbol would reach into a
//! system that has already closed its books.

use vstd::prelude::*;
use crate::data::{GameData, RiteDef, SymbolsView, MAX_RUN};
use crate::engine::cluster::{
    adjacent, as_cell, cell_at, collect, lemma_cell_at_of, lemma_collect_ext, neighbours, on_stack, pushes_neighbours,
    set_indices,
};
use crate::engine::reels::{lemma_index_in_bounds, Grid, GridView};

verus! {

/// A seam found on a settled grid.
#[derive(Debug)]
pub struct Seam {
    pub symbol: usize,
    /// Flat cells the symbol holds, ascending.
    pub cells: Vec<usize>,
}

/// A symbol a seam can be made of, or turn a cell into: not wild, not the
/// scatter, not the hoard symbol, and paying something for a full run.
pub open spec fn is_seamable(syms: SymbolsView, symbol: int) -> bool {
    &&& !syms.is_wild(symbol)
    &&& !syms.is_scatter(symbol)
    &&& !syms.is_hoard(symbol)
    &&& syms.pay(symbol, MAX_RUN as int) > 0
}

pub fn seamable(data: &GameData, symbol: usize) -> (r: bool)
    requires
        data.symbols@.wf(),
        symbol < data.symbols@.len(),
    ensures
        r == is_seamable(data.symbols@, symbol as int),
{
    !data.symbols.is_wild(symbol) && !data.symbols.is_scatter(symbol) && !data.symbols.is_hoard(symbol)
        && data.symbols.pay(symbol, MAX_RUN) > 0
}

/// `a` sits below `b` on the ladder: it pays less for a full run, or the
/// same and comes first.
pub open spec fn rung_below(syms: SymbolsView, a: usize, b: usize) -> bool {
    let pa = syms.pay(a as int, MAX_RUN as int);
    let pb = syms.pay(b as int, MAX_RUN as int);
    pa < pb || (pa == pb && a < b)
}

/// `l` lists exactly the seamable symbols, poorest rung first.
pub open spec fn is_ladder(syms: SymbolsView, l: Seq<usize>) -> bool {
    &&& forall|i: int| 0 <= i < l.len() ==> #[trigger] l[i] < syms.len() && is_seamable(syms, l[i] as int)
    &&& forall|s: int| 0 <= s < syms.len() && is_seamable(syms, s) ==> #[trigger] l.contains(s as usize)
    &&& forall|i: int, j: int| 0 <= i < j < l.len() ==> rung_below(syms, #[trigger] l[i], #[trigger] l[j])
}

/// The ladder of a symbol set.
pub open spec fn spec_ladder(syms: SymbolsView) -> Seq<usize> {
    choose|l: Seq<usize>| is_ladder(syms, l)
}

/// Two lists sorted strictly by rung, holding the same symbols, are the same
/// list.
proof fn lemma_sorted_unique(syms: SymbolsView, a: Seq<usize>, b: Seq<usize>)
    requires
        forall|i: int, j: int| 0 <= i < j < a.len() ==> rung_below(syms, #[trigger] a[i], #[trigger] a[j]),
        forall|i: int, j: int| 0 <= i < j < b.len() ==> rung_below(syms, #[trigger] b[i], #[trigger] b[j]),
        forall|x: usize| a.contains(x) <==> b.contains(x),
    ensures
        a == b,
    decreases a.len(),
{
    if a.len() == 0 {
        if b.len() > 0 {
            assert(b.contains(b[0]));
        }
        assert(b.len() == 0);
    } else {
        assert(a.contains(a[0]));
        assert(b.len() > 0);
        assert(b.contains(b[0]));
        let p = choose|p: int| 0 <= p < b.len() && b[p] == a[0];
        let q = choose|q: int| 0 <= q < a.len() && a[q] == b[0];
        if p > 0 && q > 0 {
            assert(rung_below(syms, b[0], b[p]));
            assert(rung_below(syms, a[0], a[q]));
        } else if p > 0 {
            assert(rung_below(syms, b[0], b[p]));
        } else if q > 0 {
            assert(rung_below(syms, a[0], a[q]));
        }
        assert(a[0] == b[0]);
        let ta = a.drop_first();
        let tb = b.drop_first();
        assert forall|x: usize| ta.contains(x) <==> tb.contains(x) by {
            if ta.contains(x) {
                let i = choose|i: int| 0 <= i < ta.len() && ta[i] == x;
                assert(a[i + 1] == x);
                assert(rung_below(syms, a[0], a[i + 1]));
                assert(a.contains(x));
                let j = choose|j: int| 0 <= j < b.len() && b[j] == x;
                assert(j != 0);
                assert(tb[j - 1] == x);
            }
            if tb.contains(x) {
                let i = choose|i: int| 0 <= i < tb.len() && tb[i] == x;
                assert(b[i + 1] == x);
                assert(rung_below(syms, b[0], b[i + 1]));
                assert(b.contains(x));
                let j = choose|j: int| 0 <= j < a.len() && a[j] == x;
                assert(j != 0);
                assert(ta[j - 1] == x);
            }
        }
        assert forall|i: int, j: int| 0 <= i < j < ta.len() implies rung_below(syms, #[trigger] ta[i], #[trigger] ta[j]) by {
            assert(ta[i] == a[i + 1] && ta[j] == a[j + 1]);
        }
        assert forall|i: int, j: int| 0 <= i < j < tb.len() implies rung_below(syms, #[trigger] tb[i], #[trigger] tb[j]) by {
            assert(tb[i] == b[i + 1] && tb[j] == b[j + 1]);
        }
        lemma_sorted_unique(syms, ta, tb);
        assert(a =~= seq![a[0]] + ta);
        assert(b =~= seq![b[0]] + tb);
    }
}

/// A symbol set has one ladder.
pub proof fn lemma_ladder_unique(syms: SymbolsView, l: Seq<usize>)
    requires
        is_ladder(syms, l),
    ensures
        spec_ladder(syms) == l,
{
    let m = spec_ladder(syms);
    assert(is_ladder(syms, m));
    assert forall|x: usize| l.contains(x) <==> m.contains(x) by {
        if l.contains(x) {
            let i = choose|i: int| 0 <= i < l.len() && l[i] == x;
            assert(l[i] < syms.len() && is_seamable(syms, l[i] as int));
            assert(m.contains(x as int as usize));
        }
        if m.contains(x) {
            let i = choose|i: int| 0 <= i < m.len() && m[i] == x;
            assert(m[i] < syms.len() && is_seamable(syms, m[i] as int));
            assert(l.contains(x as int as usize));
        }
    }
    lemma_sorted_unique(syms, l, m);
}

fn below(data: &GameData, a: usize, b: usize) -> (r: bool)
    requires
        data.symbols@.wf(),
        a < data.symbols@.len(),
        b < data.symbols@.len(),
    ensures
        r == rung_below(data.symbols@, a, b),
{
    let pa = data.symbols.pay(a, MAX_RUN);
    let pb = data.symbols.pay(b, MAX_RUN);
    pa < pb || (pa == pb && a < b)
}

/// Every symbol a seam can be made of, poorest rung first: ordered by what
/// the symbol pays for a full run, ties broken on index, so "one rung richer"
/// is a claim about the paytable.
pub fn ladder(data: &GameData) -> (rungs: Vec<usize>)
    requires
        data.symbols@.wf(),
    ensures
        is_ladder(data.symbols@, rungs@),
        rungs@ == spec_ladder(data.symbols@),
{
    let ghost syms = data.symbols@;
    let n = data.symbols.len();
    let mut rungs: Vec<usize> = Vec::new();
    let mut s: usize = 0;
    while s < n
        invariant
            syms == data.symbols@,
            syms.wf(),
            n == syms.len(),
            0 <= s <= n,
            forall|i: int| 0 <= i < rungs@.len() ==> #[trigger] rungs@[i] < s && is_seamable(syms, rungs@[i] as int),
            forall|t: int| 0 <= t < s && is_seamable(syms, t) ==> #[trigger] rungs@.contains(t as usize),
            forall|i: int, j: int|
                0 <= i < j < rungs@.len() ==> rung_below(syms, #[trigger] rungs@[i], #[trigger] rungs@[j]),
        decreases n - s,
    {
        if seamable(data, s) {
            let mut p: usize = 0;
            while p < rungs.len() && !below(data, s, rungs[p])
                invariant
                    syms == data.symbols@,
                    syms.wf(),
                    s < n,
                    n == syms.len(),
                    0 <= p <= rungs@.len(),
                    forall|i: int| 0 <= i < rungs@.len() ==> #[trigger] rungs@[i] < s,
                    forall|i: int| 0 <= i < p ==> rung_below(syms, #[trigger] rungs@[i], s),
                decreases rungs@.len() - p,
            {
                p = p + 1;
            }
            let ghost before = rungs@;
            proof {
                assert forall|i: int| p <= i < before.len() implies rung_below(syms, s, #[trigger] before[i]) by {
                    if p < before.len() {
                        assert(rung_below(syms, s, before[p as int]));
                        if i > p {
                            assert(rung_below(syms, before[p as int], before[i]));
                        }
                    }
                }
            }
            rungs.insert(p, s);
            proof {
                assert forall|i: int, j: int| 0 <= i < j < rungs@.len() implies rung_below(
                    syms,
                    #[trigger] rungs@[i],
                    #[trigger] rungs@[j],
                ) by {
                    if i < p && j < p {
                        assert(rungs@[i] == before[i] && rungs@[j] == before[j]);
                    } else if i < p && j == p {
                        assert(rungs@[i] == before[i]);
                    } else if i < p {
                        assert(rungs@[i] == before[i] && rungs@[j] == before[j - 1]);
                        assert(rung_below(syms, before[i], s));
                        assert(rung_below(syms, s, before[j - 1]));
                    } else if i == p {
                        assert(rungs@[j] == before[j - 1]);
                    } else {
                        assert(rungs@[i] == before[i - 1] && rungs@[j] == before[j - 1]);
                    }
                }
                assert forall|t: int| 0 <= t < s + 1 && is_seamable(syms, t) implies #[trigger] rungs@.contains(
                    t as usize,
                ) by {
                    if t == s {
                        assert(rungs@[p as int] == s);
                    } else {
                        assert(before.contains(t as usize));
                        let k = choose|k: int| 0 <= k < before.len() && before[k] == t as usize;
                        if k < p {
                            assert(rungs@[k] == before[k]);
                        } else {
                            assert(rungs@[k + 1] == before[k]);
                        }
                    }
                }
                assert forall|i: int| 0 <= i < rungs@.len() implies #[trigger] rungs@[i] < s + 1 && is_seamable(
                    syms,
                    rungs@[i] as int,
                ) by {
                    if i < p {
                        assert(rungs@[i] == before[i]);
                    } else if i > p {
                        assert(rungs@[i] == before[i - 1]);
                    }
                }
            }
        } else {
            proof {
                assert forall|t: int| 0 <= t < s + 1 && is_seamable(syms, t) implies #[trigger] rungs@.contains(
                    t as usize,
                ) by {
                    assert(t != s);
                }
            }
        }
        s = s + 1;
    }
    proof {
        lemma_ladder_unique(syms, rungs@);
    }
    rungs
}

/// Flat cell `i` shows `symbol`.
pub open spec fn shows(g: GridView, symbol: usize, i: int) -> bool {
    g.cells[i] == symbol
}

/// The flat cells holding `symbol`, ascending.
pub open spec fn seam_cells(g: GridView, symbol: usize) -> Seq<usize> {
    collect(|i: int| shows(g, symbol, i), g.cells.len() as int)
}

/// Flat cells holding a symbol, ascending.
fn cells_of(grid: &Grid, symbol: usize) -> (cells: Vec<usize>)
    requires
        grid.inv(),
    ensures
        cells@ == seam_cells(grid@, symbol),
{
    let ghost g = grid@;
    let n = grid.cell_count();
    proof {
        grid.lemma_cells_fit();
    }
    let mut cells: Vec<usize> = Vec::new();
    let mut i: usize = 0;
    while i < n
        invariant
            grid.inv(),
            g == grid@,
            n == g.cells.len(),
            0 <= i <= n,
            cells@ == collect(|k: int| g.cells[k] == symbol, i as int),
        decreases n - i,
    {
        if grid.cells_at(i) == symbol {
            cells.push(i);
        }
        i = i + 1;
    }
    proof {
        lemma_collect_ext(|k: int| g.cells[k] == symbol, |i: int| shows(g, symbol, i), n as int);
    }
    cells
}

/// The widest seam among the first `k` symbols: the seamable symbol holding
/// the most cells, at least `trigger` of them, the richer symbol breaking a
/// tie and the earlier one a tie of both.
pub open spec fn widest_upto(syms: SymbolsView, g: GridView, trigger: usize, k: int) -> Option<usize>
    decreases k,
{
    if k <= 0 {
        None
    } else {
        let prev = widest_upto(syms, g, trigger, k - 1);
        let c = (k - 1) as usize;
        let n = seam_cells(g, c).len();
        if !is_seamable(syms, c as int) || n < trigger {
            prev
        } else {
            match prev {
                None => Some(c),
                Some(p) => {
                    let m = seam_cells(g, p).len();
                    if n > m || (n == m && syms.pay(c as int, MAX_RUN as int) > syms.pay(p as int, MAX_RUN as int)) {
                        Some(c)
                    } else {
                        prev
                    }
                },
            }
        }
    }
}

/// The seam's symbol on this grid, if any; a trigger of zero opens none.
pub open spec fn spec_find(syms: SymbolsView, g: GridView, trigger: usize) -> Option<usize> {
    if trigger == 0 {
        None
    } else {
        widest_upto(syms, g, trigger, syms.len())
    }
}

/// The seam on this grid, if any symbol holds enough of it. The widest seam
/// wins, and the richer symbol breaks a tie: the thing the player noticed is
/// the board being full of one treasure.
pub fn find(data: &GameData, grid: &Grid, config: &crate::data::SeamConfig) -> (seam: Option<Seam>)
    requires
        grid.inv(),
        data.symbols@.wf(),
    ensures
        seam matches Some(s) ==> spec_find(data.symbols@, grid@, config.trigger_count) == Some(s.symbol)
            && s.cells@ == seam_cells(grid@, s.symbol),
        seam is None ==> spec_find(data.symbols@, grid@, config.trigger_count) is None,
{
    if config.trigger_count == 0 {
        return None;
    }
    let ghost syms = data.symbols@;
    let ghost g = grid@;
    let trigger = config.trigger_count;
    let n = data.symbols.len();
    let mut best: Option<Seam> = None;
    let mut symbol: usize = 0;
    while symbol < n
        invariant
            grid.inv(),
            g == grid@,
            syms == data.symbols@,
            syms.wf(),
            n == syms.len(),
            0 <= symbol <= n,
            best matches Some(b) ==> widest_upto(syms, g, trigger, symbol as int) == Some(b.symbol) && b.cells@
                == seam_cells(g, b.symbol) && b.symbol < n,
            best is None ==> widest_upto(syms, g, trigger, symbol as int) is None,
        decreases n - symbol,
    {
        if seamable(data, symbol) {
            let cells = cells_of(grid, symbol);
            if cells.len() >= trigger {
                let better = match &best {
                    None => true,
                    Some(current) => {
                        let here = cells.len();
                        let there = current.cells.len();
                        here > there || (here == there && data.symbols.pay(symbol, MAX_RUN) > data.symbols.pay(
                            current.symbol,
                            MAX_RUN,
                        ))
                    },
                };
                if better {
                    best = Some(Seam { symbol, cells });
                }
            }
        }
        symbol = symbol + 1;
    }
    best
}

/// A seam's cells are strictly ascending flat indices inside the grid.
pub open spec fn seam_wf(cells: Seq<usize>, n: int) -> bool {
    &&& forall|i: int, j: int| 0 <= i < j < cells.len() ==> #[trigger] cells[i] < #[trigger] cells[j]
    &&& forall|i: int| 0 <= i < cells.len() ==> #[trigger] cells[i] < n
}

/// Some cell orthogonally touching flat cell `i` is held.
pub open spec fn touches(g: GridView, held: Seq<usize>, i: int) -> bool {
    exists|y: (int, int)| #[trigger] adjacent(g, cell_at(g, i), y) && held.contains(g.index(y.0, y.1) as usize)
}

/// Flat cell `i` is one a rite may take: not held, showing a seamable
/// symbol, and touching a held cell.
pub open spec fn on_frontier(syms: SymbolsView, g: GridView, held: Seq<usize>, i: int) -> bool {
    &&& !held.contains(i as usize)
    &&& is_seamable(syms, g.cells[i] as int)
    &&& touches(g, held, i)
}

pub open spec fn spec_frontier(syms: SymbolsView, g: GridView, held: Seq<usize>) -> Seq<usize> {
    collect(|i: int| on_frontier(syms, g, held, i), g.cells.len() as int)
}

/// Every cell of the grid shows a symbol of the set.
pub open spec fn symbols_known(syms: SymbolsView, g: GridView) -> bool {
    forall|i: int| 0 <= i < g.cells.len() ==> #[trigger] g.cells[i] < syms.len()
}

/// A mask of the cells `list` names, ignoring any past the grid.
fn mask_of(list: &Vec<usize>, n: usize) -> (mask: Vec<bool>)
    ensures
        mask@.len() == n,
        forall|k: int| 0 <= k < n ==> #[trigger] mask@[k] == list@.contains(k as usize),
{
    let mut mask: Vec<bool> = Vec::new();
    let mut f: usize = 0;
    while f < n
        invariant
            0 <= f <= n,
            mask@ == Seq::new(f as nat, |i: int| false),
        decreases n - f,
    {
        mask.push(false);
        f = f + 1;
        assert(mask@ =~= Seq::new(f as nat, |i: int| false));
    }
    let mut t: usize = 0;
    while t < list.len()
        invariant
            mask@.len() == n,
            0 <= t <= list@.len(),
            forall|k: int| 0 <= k < n ==> #[trigger] mask@[k] == exists|u: int| 0 <= u < t && list@[u] == k as usize,
        decreases list@.len() - t,
    {
        let c = list[t];
        if c < n {
            mask.set(c, true);
        }
        t = t + 1;
    }
    assert forall|k: int| 0 <= k < n implies #[trigger] mask@[k] == list@.contains(k as usize) by {
        if list@.contains(k as usize) {
            let u = choose|u: int| 0 <= u < list@.len() && list@[u] == k as usize;
            assert(0 <= u < t && list@[u] == k as usize);
        }
    }
    mask
}

/// Cells orthogonally touching the seam that a rite is allowed to take,
/// ascending. Orthogonal only, matching the cluster model.
pub fn frontier(data: &GameData, grid: &Grid, seam: &Seam) -> (f: Vec<usize>)
    requires
        grid.inv(),
        data.symbols@.wf(),
        symbols_known(data.symbols@, grid@),
    ensures
        f@ == spec_frontier(data.symbols@, grid@, seam.cells@),
{
    let ghost g = grid@;
    let ghost syms = data.symbols@;
    let ghost held_cells = seam.cells@;
    proof {
        grid.lemma_wf();
        grid.lemma_cells_fit();
    }
    let n = grid.cell_count();
    let held = mask_of(&seam.cells, n);
    let all = grid.cells();
    let mut out: Vec<usize> = Vec::new();
    let mut i: usize = 0;
    while i < n
        invariant
            grid.inv(),
            g == grid@,
            g.wf(),
            syms == data.symbols@,
            syms.wf(),
            symbols_known(syms, g),
            n == g.cells.len(),
            held@.len() == n,
            forall|k: int| 0 <= k < n ==> #[trigger] held@[k] == held_cells.contains(k as usize),
            all@.len() == n,
            forall|k: int|
                0 <= k < all@.len() ==> {
                    let (reel, row, symbol) = #[trigger] all@[k];
                    &&& g.valid_cell(reel as int, row as int)
                    &&& g.index(reel as int, row as int) == k
                    &&& symbol == g.cells[k]
                },
            0 <= i <= n,
            out@ == collect(|k: int| on_frontier(syms, g, held_cells, k), i as int),
        decreases n - i,
    {
        let (reel, row, symbol) = all[i];
        proof {
            lemma_cell_at_of(g, (reel as int, row as int));
        }
        if !held[i] && seamable(data, symbol) {
            let nbrs = neighbours(grid, reel, row);
            let mut any = false;
            let mut j: usize = 0;
            while j < nbrs.len()
                invariant
                    grid.inv(),
                    g == grid@,
                    g.wf(),
                    n == g.cells.len(),
                    held@.len() == n,
                    pushes_neighbours(g, (reel as int, row as int), nbrs@),
                    0 <= j <= nbrs@.len(),
                    any == exists|u: int| 0 <= u < j && #[trigger] held@[g.index(as_cell(nbrs@[u]).0, as_cell(nbrs@[u]).1)],
                decreases nbrs@.len() - j,
            {
                let (nr, nc) = nbrs[j];
                assert(adjacent(g, (reel as int, row as int), as_cell(nbrs@[j as int])));
                proof {
                    lemma_index_in_bounds(g, nr as int, nc as int);
                }
                let at = grid.index(nr, nc);
                if held[at] {
                    any = true;
                }
                j = j + 1;
            }
            proof {
                let x = (reel as int, row as int);
                if any {
                    let u = choose|u: int| 0 <= u < j && #[trigger] held@[g.index(as_cell(nbrs@[u]).0, as_cell(nbrs@[u]).1)];
                    let y = as_cell(nbrs@[u]);
                    assert(adjacent(g, x, y));
                    lemma_index_in_bounds(g, y.0, y.1);
                    assert(held_cells.contains(g.index(y.0, y.1) as usize));
                    assert(touches(g, held_cells, i as int));
                }
                if touches(g, held_cells, i as int) {
                    let y = choose|y: (int, int)| #[trigger] adjacent(g, cell_at(g, i as int), y) && held_cells.contains(
                        g.index(y.0, y.1) as usize,
                    );
                    assert(on_stack(nbrs@, y));
                    let u = choose|u: int| 0 <= u < nbrs@.len() && as_cell(#[trigger] nbrs@[u]) == y;
                    lemma_index_in_bounds(g, y.0, y.1);
                    assert(held@[g.index(as_cell(nbrs@[u]).0, as_cell(nbrs@[u]).1)]);
                }
            }
            if any {
                out.push(i);
            }
        }
        i = i + 1;
    }
    proof {
        lemma_collect_ext(
            |k: int| on_frontier(syms, g, held_cells, k),
            |i: int| on_frontier(data.symbols@, grid@, seam.cells@, i),
            n as int,
        );
    }
    out
}

/// The frontier cells whose roll came in under the chance, in frontier
/// order: `rolls[k]` is the roll for the `k`-th frontier cell.
pub open spec fn taken_upto(front: Seq<usize>, rolls: Seq<usize>, chance: int, k: int) -> Seq<usize>
    decreases k,
{
    if k <= 0 {
        Seq::empty()
    } else {
        let prev = taken_upto(front, rolls, chance, k - 1);
        if rolls[k - 1] < chance {
            prev.push(front[k - 1])
        } else {
            prev
        }
    }
}

/// The chance a frontier cell turns, in permille, capped at certainty.
pub open spec fn spread_chance(spread_permille: usize) -> int {
    if spread_permille < 1000 {
        spread_permille as int
    } else {
        1000
    }
}

/// Held before, or just taken.
pub open spec fn held_or_taken(held: Seq<usize>, taken: Seq<usize>, k: int) -> bool {
    held.contains(k as usize) || taken.contains(k as usize)
}

/// The grid with every listed flat cell turned to `symbol`.
pub open spec fn painted(cells: Seq<usize>, list: Seq<usize>, symbol: usize) -> Seq<usize> {
    Seq::new(cells.len(), |k: int| if list.contains(k as usize) { symbol } else { cells[k] })
}

proof fn lemma_collect_sorted(pred: spec_fn(int) -> bool, k: int)
    requires
        k <= usize::MAX,
    ensures
        seam_wf(collect(pred, k), k),
    decreases k,
{
    if k > 0 {
        lemma_collect_sorted(pred, k - 1);
    }
}

/// Turn every listed cell of the grid to `symbol`.
fn paint(grid: &mut Grid, list: &Vec<usize>, symbol: usize)
    requires
        old(grid).inv(),
    ensures
        final(grid).inv(),
        final(grid)@.heights == old(grid)@.heights,
        final(grid)@.cells == painted(old(grid)@.cells, list@, symbol),
{
    let ghost g = grid@;
    proof {
        grid.lemma_wf();
        grid.lemma_cells_fit();
    }
    let n = grid.cell_count();
    let all = grid.cells();
    let mut i: usize = 0;
    while i < n
        invariant
            grid.inv(),
            grid@.heights == g.heights,
            g.wf(),
            n == g.cells.len(),
            all@.len() == n,
            forall|k: int|
                0 <= k < all@.len() ==> {
                    let (reel, row, symbol) = #[trigger] all@[k];
                    &&& g.valid_cell(reel as int, row as int)
                    &&& g.index(reel as int, row as int) == k
                },
            0 <= i <= n,
            grid@.cells == Seq::new(n as nat, |k: int| if k < i && list@.contains(k as usize) { symbol } else { g.cells[k] }),
        decreases n - i,
    {
        let (reel, row, _) = all[i];
        if crate::engine::cascade::listed(list.as_slice(), i) {
            let ghost before = grid@;
            proof {
                grid.lemma_wf();
                lemma_index_in_bounds(g, reel as int, row as int);
            }
            grid.set(reel, row, symbol);
            assert(grid@.cells =~= Seq::new(n as nat, |k: int| if k < i + 1 && list@.contains(k as usize) { symbol } else { g.cells[k] }));
        } else {
            assert(grid@.cells =~= Seq::new(n as nat, |k: int| if k < i + 1 && list@.contains(k as usize) { symbol } else { g.cells[k] }));
        }
        i = i + 1;
    }
    assert(grid@.cells =~= painted(g.cells, list@, symbol));
}

/// Take some of the cells touching the seam, each frontier cell turning
/// independently on its own roll. Returns the cells that turned.
pub fn widen(
    data: &GameData,
    grid: &mut Grid,
    seam: &mut Seam,
    spread_permille: usize,
    rolls: &[usize],
) -> (taken: Vec<usize>)
    requires
        old(grid).inv(),
        data.symbols@.wf(),
        symbols_known(data.symbols@, old(grid)@),
        seam_wf(old(seam).cells@, old(grid)@.cells.len() as int),
        rolls@.len() >= spec_frontier(data.symbols@, old(grid)@, old(seam).cells@).len(),
    ensures
        taken@ == taken_upto(
            spec_frontier(data.symbols@, old(grid)@, old(seam).cells@),
            rolls@,
            spread_chance(spread_permille),
            spec_frontier(data.symbols@, old(grid)@, old(seam).cells@).len() as int,
        ),
        final(grid).inv(),
        final(grid)@.heights == old(grid)@.heights,
        final(grid)@.cells == painted(old(grid)@.cells, taken@, old(seam).symbol),
        final(seam).symbol == old(seam).symbol,
        final(seam).cells@ == collect(
            |k: int| held_or_taken(old(seam).cells@, taken@, k),
            old(grid)@.cells.len() as int,
        ),
        seam_wf(final(seam).cells@, old(grid)@.cells.len() as int),
{
    let ghost g = grid@;
    let ghost held0 = seam.cells@;
    let front = frontier(data, grid, seam);
    let chance: usize = if spread_permille < 1000 {
        spread_permille
    } else {
        1000
    };
    let mut taken: Vec<usize> = Vec::new();
    let mut k: usize = 0;
    while k < front.len()
        invariant
            rolls@.len() >= front@.len(),
            0 <= k <= front@.len(),
            chance == spread_chance(spread_permille),
            taken@ == taken_upto(front@, rolls@, chance as int, k as int),
        decreases front@.len() - k,
    {
        if rolls[k] < chance {
            taken.push(front[k]);
        }
        k = k + 1;
    }
    paint(grid, &taken, seam.symbol);
    proof {
        grid.lemma_cells_fit();
    }
    let n = grid.cell_count();
    let held = mask_of(&seam.cells, n);
    let took = mask_of(&taken, n);
    let mut both: Vec<bool> = Vec::new();
    let mut i: usize = 0;
    while i < n
        invariant
            0 <= i <= n,
            held@.len() == n,
            took@.len() == n,
            both@ == Seq::new(i as nat, |k: int| held@[k] || took@[k]),
        decreases n - i,
    {
        both.push(held[i] || took[i]);
        i = i + 1;
        assert(both@ =~= Seq::new(i as nat, |k: int| held@[k] || took@[k]));
    }
    let cells = set_indices(&both);
    proof {
        lemma_collect_ext(|k: int| both@[k], |k: int| held_or_taken(held0, taken@, k), n as int);
        lemma_collect_sorted(|k: int| held_or_taken(held0, taken@, k), n as int);
    }
    seam.cells = cells;
    taken
}

/// Where a seam of `symbol` lands after climbing `rungs` rungs (at least
/// one), stopping at the top; `None` when it cannot move: the symbol is not
/// on the ladder, or already at the top.
pub open spec fn enrich_target(syms: SymbolsView, symbol: usize, rungs: usize) -> Option<usize> {
    let l = spec_ladder(syms);
    if l.contains(symbol) {
        let at = choose|i: int| 0 <= i < l.len() && l[i] == symbol;
        let step: int = if rungs >= 1 { rungs as int } else { 1 };
        let next: int = if at + step < l.len() - 1 { at + step } else { l.len() - 1 };
        if next == at {
            None
        } else {
            Some(l[next])
        }
    } else {
        None
    }
}

/// Where `symbol` sits on the ladder.
pub open spec fn ladder_position(syms: SymbolsView, symbol: usize) -> int {
    let l = spec_ladder(syms);
    choose|i: int| 0 <= i < l.len() && l[i] == symbol
}

/// Climb the seam up the pay ladder. Returns the cells that changed, which
/// is every cell of the seam or none of them: a seam already on the top rung
/// has nowhere to go, and says so by changing nothing.
pub fn enrich(data: &GameData, grid: &mut Grid, seam: &mut Seam, rungs: usize) -> (changed: Vec<usize>)
    requires
        old(grid).inv(),
        data.symbols@.wf(),
        spec_ladder(data.symbols@).contains(old(seam).symbol) ==> ladder_position(data.symbols@, old(seam).symbol)
            + (if rungs >= 1 { rungs as int } else { 1 }) <= usize::MAX,
    ensures
        final(grid).inv(),
        final(seam).cells@ == old(seam).cells@,
        final(grid)@.heights == old(grid)@.heights,
        match enrich_target(data.symbols@, old(seam).symbol, rungs) {
            None => {
                &&& final(seam).symbol == old(seam).symbol
                &&& final(grid)@ == old(grid)@
                &&& changed@.len() == 0
            },
            Some(t) => {
                &&& final(seam).symbol == t
                &&& final(grid)@.cells == painted(old(grid)@.cells, old(seam).cells@, t)
                &&& changed@ == old(seam).cells@
            },
        },
{
    let ghost syms = data.symbols@;
    let l = ladder(data);
    let mut at: usize = 0;
    while at < l.len() && l[at] != seam.symbol
        invariant
            0 <= at <= l@.len(),
            forall|i: int| 0 <= i < at ==> l@[i] != seam.symbol,
        decreases l@.len() - at,
    {
        at = at + 1;
    }
    if at == l.len() {
        assert(!l@.contains(seam.symbol));
        return Vec::new();
    }
    proof {
        let c = choose|i: int| 0 <= i < l@.len() && l@[i] == seam.symbol;
        if c != at as int {
            if c < at {
            } else {
                assert(rung_below(syms, l@[at as int], l@[c]));
            }
        }
        assert(ladder_position(syms, seam.symbol) == at);
    }
    let step: usize = if rungs >= 1 {
        rungs
    } else {
        1
    };
    let top = l.len() - 1;
    let next = if at + step < top {
        at + step
    } else {
        top
    };
    if next == at {
        return Vec::new();
    }
    seam.symbol = l[next];
    paint(grid, &seam.cells, seam.symbol);
    crate::data::copy_strip(&seam.cells)
}

/// Gild the seam: change nothing, and report the cells that were stamped.
/// The round's payment is the board times a multiplier, and gilding raises
/// the multiplier; the cells come back so the beat has something to flash.
pub fn gild(seam: &Seam) -> (stamped: Vec<usize>)
    ensures
        stamped@ == seam.cells@,
{
    crate::data::copy_strip(&seam.cells)
}

/// Sum of the first `k` weights.
pub open spec fn weight_upto(rites: Seq<RiteDef>, k: int) -> int
    decreases k,
{
    if k <= 0 {
        0
    } else {
        weight_upto(rites, k - 1) + rites[k - 1].weight
    }
}

/// The rite a roll lands on, counting from rite `k`: the first whose weight
/// the roll falls under, spending each weight it passes; the last rite when
/// the roll outlasts them all.
pub open spec fn landed_on(rites: Seq<RiteDef>, roll: int, k: int) -> int
    decreases rites.len() - k,
{
    if k >= rites.len() - 1 {
        rites.len() - 1
    } else if roll < rites[k].weight {
        k
    } else {
        landed_on(rites, roll - rites[k].weight, k + 1)
    }
}

/// Draw a rite, weighted: `roll` is uniform below the total weight. With no
/// weight at all the first rite is drawn; `None` only when the list is empty.
pub fn draw_weighted<'a>(rites: &'a [RiteDef], roll: u32) -> (drawn: Option<&'a RiteDef>)
    requires
        weight_upto(rites@, rites@.len() as int) <= u32::MAX,
    ensures
        drawn == if rites@.len() == 0 {
            None
        } else if weight_upto(rites@, rites@.len() as int) == 0 {
            Some(&rites@[0])
        } else {
            Some(&rites@[landed_on(rites@, roll as int, 0)])
        },
{
    let mut total: u32 = 0;
    let mut i: usize = 0;
    while i < rites.len()
        invariant
            weight_upto(rites@, rites@.len() as int) <= u32::MAX,
            0 <= i <= rites@.len(),
            total == weight_upto(rites@, i as int),
        decreases rites@.len() - i,
    {
        proof {
            lemma_weight_monotone(rites@, i + 1, rites@.len() as int);
        }
        total = total + rites[i].weight;
        i = i + 1;
    }
    if rites.len() == 0 {
        return None;
    }
    if total == 0 {
        return Some(&rites[0]);
    }
    let mut left = roll;
    let mut k: usize = 0;
    while k < rites.len() - 1
        invariant
            rites@.len() > 0,
            weight_upto(rites@, rites@.len() as int) != 0,
            0 <= k < rites@.len(),
            landed_on(rites@, left as int, k as int) == landed_on(rites@, roll as int, 0),
        decreases rites@.len() - k,
    {
        if left < rites[k].weight {
            assert(landed_on(rites@, left as int, k as int) == k as int);
            return Some(&rites[k]);
        }
        left = left - rites[k].weight;
        k = k + 1;
    }
    Some(&rites[k])
}

proof fn lemma_weight_monotone(rites: Seq<RiteDef>, i: int, j: int)
    requires
        0 <= i <= j <= rites.len(),
    ensures
        weight_upto(rites, i) <= weight_upto(rites, j),
    decreases j - i,
{
    if i < j {
        lemma_weight_monotone(rites, i, j - 1);
    }
}

proof fn lemma_widest_upto(syms: SymbolsView, g: GridView, trigger: usize, k: int)
    ensures
        widest_upto(syms, g, trigger, k) matches Some(c) ==> 0 <= c < k && is_seamable(syms, c as int)
            && seam_cells(g, c).len() >= trigger,
    decreases k,
{
    if k > 0 {
        lemma_widest_upto(syms, g, trigger, k - 1);
    }
}

/// A seam is only ever made of an ordinary paying symbol of the set, never a
/// wild, scatter or hoard symbol, and only when it holds at least the
/// trigger's count of cells.
pub proof fn a_seam_is_an_ordinary_paying_symbol(syms: SymbolsView, g: GridView, trigger: usize)
    ensures
        spec_find(syms, g, trigger) matches Some(s) ==> {
            &&& s < syms.len()
            &&& is_seamable(syms, s as int)
            &&& seam_cells(g, s).len() >= trigger
            &&& trigger > 0
        },
{
    lemma_widest_upto(syms, g, trigger, syms.len());
}

proof fn lemma_taken_from_front(front: Seq<usize>, rolls: Seq<usize>, chance: int, k: int, x: usize)
    requires
        0 <= k <= front.len(),
        taken_upto(front, rolls, chance, k).contains(x),
    ensures
        exists|i: int| 0 <= i < k && front[i] == x,
    decreases k,
{
    let prev = taken_upto(front, rolls, chance, k - 1);
    if prev.contains(x) {
        lemma_taken_from_front(front, rolls, chance, k - 1, x);
        let i = choose|i: int| 0 <= i < k - 1 && front[i] == x;
        assert(0 <= i < k && front[i] == x);
    } else {
        let t = taken_upto(front, rolls, chance, k);
        let j = choose|j: int| 0 <= j < t.len() && t[j] == x;
        if rolls[k - 1] < chance {
            assert(j == t.len() - 1);
            assert(front[k - 1] == x);
        } else {
            assert(t == prev);
        }
    }
}

/// Widening only ever takes cells that touch the seam: every cell it turns
/// was not held, showed a seamable symbol, and was orthogonally next to a
/// held cell.
pub proof fn widening_only_takes_frontier_cells(
    syms: SymbolsView,
    g: GridView,
    held: Seq<usize>,
    rolls: Seq<usize>,
    chance: int,
    x: usize,
)
    requires
        g.cells.len() <= usize::MAX,
        taken_upto(spec_frontier(syms, g, held), rolls, chance, spec_frontier(syms, g, held).len() as int).contains(x),
    ensures
        x < g.cells.len(),
        on_frontier(syms, g, held, x as int),
{
    let front = spec_frontier(syms, g, held);
    lemma_taken_from_front(front, rolls, chance, front.len() as int, x);
    let i = choose|i: int| 0 <= i < front.len() && front[i] == x;
    assert(front.contains(x));
    crate::engine::cluster::lemma_collect_contains(
        |i: int| on_frontier(syms, g, held, i),
        g.cells.len() as int,
        x as int,
    );
}

/// Enriching always moves a seam up the ladder to a richer seamable symbol.
pub proof fn enriching_climbs_the_ladder(syms: SymbolsView, symbol: usize, rungs: usize)
    requires
        exists|l: Seq<usize>| is_ladder(syms, l),
    ensures
        enrich_target(syms, symbol, rungs) matches Some(t) ==> {
            &&& is_seamable(syms, t as int)
            &&& t < syms.len()
            &&& rung_below(syms, symbol, t)
        },
{
    let l = spec_ladder(syms);
    assert(is_ladder(syms, l));
    if l.contains(symbol) {
        let at = choose|i: int| 0 <= i < l.len() && l[i] == symbol;
        let step: int = if rungs >= 1 { rungs as int } else { 1 };
        let next: int = if at + step < l.len() - 1 { at + step } else { l.len() - 1 };
        if next != at {
            assert(at < next);
            assert(rung_below(syms, l[at], l[next]));
        }
    }
}

proof fn lemma_widest_is_widest(syms: SymbolsView, g: GridView, trigger: usize, k: int, c: int)
    requires
        0 <= c < k <= usize::MAX + 1,
        is_seamable(syms, c),
        seam_cells(g, c as usize).len() >= trigger,
    ensures
        widest_upto(syms, g, trigger, k) matches Some(s) && seam_cells(g, s).len() >= seam_cells(g, c as usize).len(),
    decreases k,
{
    let prev = widest_upto(syms, g, trigger, k - 1);
    let last = (k - 1) as usize;
    if c < k - 1 {
        lemma_widest_is_widest(syms, g, trigger, k - 1, c);
        let p = prev->Some_0;
        assert(seam_cells(g, p).len() >= seam_cells(g, c as usize).len());
        if is_seamable(syms, last as int) && seam_cells(g, last).len() >= trigger {
            let n = seam_cells(g, last).len();
            let m = seam_cells(g, p).len();
            if n > m || (n == m && syms.pay(last as int, MAX_RUN as int) > syms.pay(p as int, MAX_RUN as int)) {
                assert(widest_upto(syms, g, trigger, k) == Some(last));
            } else {
                assert(widest_upto(syms, g, trigger, k) == prev);
            }
        } else {
            assert(widest_upto(syms, g, trigger, k) == prev);
        }
    } else {
        assert(last == c as usize);
        match prev {
            None => {
                assert(widest_upto(syms, g, trigger, k) == Some(last));
            },
            Some(p) => {
                let n = seam_cells(g, last).len();
                let m = seam_cells(g, p).len();
                if n > m || (n == m && syms.pay(last as int, MAX_RUN as int) > syms.pay(p as int, MAX_RUN as int)) {
                    assert(widest_upto(syms, g, trigger, k) == Some(last));
                } else {
                    assert(widest_upto(syms, g, trigger, k) == prev);
                }
            },
        }
    }
}

/// The widest seam is the one that opens: no seamable symbol that meets the
/// trigger holds more cells than the seam that was found.
pub proof fn the_widest_seam_opens(syms: SymbolsView, g: GridView, trigger: usize, c: usize)
    requires
        trigger > 0,
        c < syms.len() <= usize::MAX,
        is_seamable(syms, c as int),
        seam_cells(g, c).len() >= trigger,
    ensures
        spec_find(syms, g, trigger) matches Some(s) && seam_cells(g, s).len() >= seam_cells(g, c).len(),
{
    lemma_widest_is_widest(syms, g, trigger, syms.len(), c as int);
}

/// How far an enrichment climbs. For a symbol at position `p` of the pay
/// ladder, an enrichment of `rungs` (at least one) takes the seam to the
/// symbol `rungs` places higher, or to the top rung when that would pass it;
/// a seam already on the top rung, or on a symbol off the ladder, stays.
pub proof fn enriching_climbs_as_many_rungs_as_asked(syms: SymbolsView, l: Seq<usize>, p: int, rungs: usize)
    requires
        is_ladder(syms, l),
        0 <= p < l.len(),
    ensures
        enrich_target(syms, l[p], rungs) == (if p == l.len() - 1 {
            None
        } else {
            let climb: int = if rungs == 0 { 1 } else { rungs as int };
            if p + climb >= l.len() {
                Some(l[l.len() - 1])
            } else {
                Some(l[p + climb])
            }
        }),
{
    lemma_ladder_unique(syms, l);
    assert(l.contains(l[p]));
    let at = choose|i: int| 0 <= i < l.len() && l[i] == l[p];
    if at != p {
        if at < p {
            assert(rung_below(syms, l[at], l[p]));
        } else {
            assert(rung_below(syms, l[p], l[at]));
        }
    }
    assert(at == p);
}

/// A symbol off the pay ladder is never enriched.
pub proof fn only_a_ladder_symbol_is_enriched(syms: SymbolsView, symbol: usize, rungs: usize)
    requires
        exists|l: Seq<usize>| is_ladder(syms, l),
        !is_seamable(syms, symbol as int) || symbol >= syms.len(),
    ensures
        enrich_target(syms, symbol, rungs) is None,
{
    let l = spec_ladder(syms);
    assert(is_ladder(syms, l));
    if l.contains(symbol) {
        let i = choose|i: int| 0 <= i < l.len() && l[i] == symbol;
        assert(l[i] < syms.len() && is_seamable(syms, l[i] as int));
    }
}

} // verus!
