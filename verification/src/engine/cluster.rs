//! Cluster pays: wins that ignore the reels entirely.
//!
//! A win is a connected group of the same symbol, orthogonally adjacent,
//! anywhere on the grid, and it pays on how many cells are in it. Wilds join
//! any group they touch, and may belong to several groups at once, but never
//! start one. An ordinary cell belongs to exactly one group of its symbol,
//! because a group is a connected component.

use vstd::prelude::*;
use crate::data::{fits_i64, trunc_div, GameData, SymbolsView, MAX_RUN};
use crate::engine::evaluate::{lemma_product_fits_i128, sum_credits, win_views, wins_fit, Win, WinSource, WinView};
use crate::engine::reels::{lemma_cell_of_index, lemma_index_in_bounds, lemma_index_injective, sum_prefix, Grid, GridView};

verus! {

/// Smallest group that pays anything.
pub const MIN_CLUSTER: usize = 5;

pub open spec fn valid(g: GridView, a: (int, int)) -> bool {
    g.valid_cell(a.0, a.1)
}

/// Two cells side by side or one above the other.
pub open spec fn adjacent(g: GridView, a: (int, int), b: (int, int)) -> bool {
    &&& valid(g, a)
    &&& valid(g, b)
    &&& {
        ||| (b.0 == a.0 - 1 && b.1 == a.1)
        ||| (b.0 == a.0 + 1 && b.1 == a.1)
        ||| (b.0 == a.0 && b.1 == a.1 - 1)
        ||| (b.0 == a.0 && b.1 == a.1 + 1)
    }
}

/// A cell that can be part of a group of `symbol`: the symbol, or a wild.
pub open spec fn member(g: GridView, symbol: usize, wild: Option<usize>, a: (int, int)) -> bool {
    valid(g, a) && (g.at(a.0, a.1) == symbol || wild == Some(g.at(a.0, a.1)))
}

/// A walk through member cells, each step to an adjacent cell.
pub open spec fn is_path(g: GridView, symbol: usize, wild: Option<usize>, p: Seq<(int, int)>) -> bool {
    &&& p.len() >= 1
    &&& forall|k: int| 0 <= k < p.len() ==> member(g, symbol, wild, #[trigger] p[k])
    &&& forall|k: int| 0 <= k < p.len() - 1 ==> adjacent(g, #[trigger] p[k], p[k + 1])
}

pub open spec fn connected(g: GridView, symbol: usize, wild: Option<usize>, a: (int, int), b: (int, int)) -> bool {
    exists|p: Seq<(int, int)>| #[trigger] is_path(g, symbol, wild, p) && p[0] == a && p.last() == b
}

/// The cell with flat index `i`.
pub open spec fn cell_at(g: GridView, i: int) -> (int, int) {
    choose|rc: (int, int)| g.valid_cell(rc.0, rc.1) && g.index(rc.0, rc.1) == i
}

/// Whether flat cell `i` is in the group of `symbol` that contains `a`.
pub open spec fn in_group(g: GridView, symbol: usize, wild: Option<usize>, a: (int, int), i: int) -> bool {
    connected(g, symbol, wild, a, cell_at(g, i))
}

/// The flat indices below `k` where `pred` holds, ascending.
pub open spec fn collect(pred: spec_fn(int) -> bool, k: int) -> Seq<usize>
    decreases k,
{
    if k <= 0 {
        Seq::empty()
    } else if pred(k - 1) {
        collect(pred, k - 1).push((k - 1) as usize)
    } else {
        collect(pred, k - 1)
    }
}

/// The group containing `a`, as ascending flat indices.
pub open spec fn group(g: GridView, symbol: usize, wild: Option<usize>, a: (int, int)) -> Seq<usize> {
    collect(|i: int| in_group(g, symbol, wild, a, i), g.cells.len() as int)
}

pub proof fn lemma_cell_at(g: GridView, i: int)
    requires
        g.wf(),
        0 <= i < g.cells.len(),
    ensures
        g.valid_cell(cell_at(g, i).0, cell_at(g, i).1),
        g.index(cell_at(g, i).0, cell_at(g, i).1) == i,
{
    let rc = lemma_cell_of_index(g, i);
    assert(g.valid_cell(rc.0, rc.1) && g.index(rc.0, rc.1) == i);
}

pub proof fn lemma_cell_at_of(g: GridView, a: (int, int))
    requires
        g.wf(),
        valid(g, a),
    ensures
        cell_at(g, g.index(a.0, a.1)) == a,
        0 <= g.index(a.0, a.1) < g.cells.len(),
{
    lemma_index_in_bounds(g, a.0, a.1);
    let i = g.index(a.0, a.1);
    lemma_cell_at(g, i);
    let b = cell_at(g, i);
    lemma_index_injective(g, a.0, a.1, b.0, b.1);
}

proof fn lemma_extend(g: GridView, s: usize, w: Option<usize>, a: (int, int), x: (int, int), y: (int, int))
    requires
        connected(g, s, w, a, x),
        adjacent(g, x, y),
        member(g, s, w, y),
    ensures
        connected(g, s, w, a, y),
{
    let p = choose|p: Seq<(int, int)>| #[trigger] is_path(g, s, w, p) && p[0] == a && p.last() == x;
    let q = p.push(y);
    assert forall|k: int| 0 <= k < q.len() - 1 implies adjacent(g, #[trigger] q[k], q[k + 1]) by {
        if k < p.len() - 1 {
            assert(q[k] == p[k] && q[k + 1] == p[k + 1]);
        }
    }
    assert forall|k: int| 0 <= k < q.len() implies member(g, s, w, #[trigger] q[k]) by {
        if k < p.len() {
            assert(q[k] == p[k]);
        }
    }
    assert(is_path(g, s, w, q));
}

/// How many entries are set.
pub open spec fn trues(s: Seq<bool>) -> nat
    decreases s.len(),
{
    if s.len() == 0 {
        0
    } else {
        trues(s.drop_last()) + if s.last() { 1nat } else { 0 }
    }
}

proof fn lemma_trues_bound(s: Seq<bool>)
    ensures
        trues(s) <= s.len(),
    decreases s.len(),
{
    if s.len() > 0 {
        lemma_trues_bound(s.drop_last());
    }
}

proof fn lemma_trues_set(s: Seq<bool>, i: int)
    requires
        0 <= i < s.len(),
        !s[i],
    ensures
        trues(s.update(i, true)) == trues(s) + 1,
    decreases s.len(),
{
    let t = s.update(i, true);
    if i == s.len() - 1 {
        assert(t.drop_last() =~= s.drop_last());
    } else {
        assert(t.drop_last() =~= s.drop_last().update(i, true));
        lemma_trues_set(s.drop_last(), i);
    }
}

/// Every cell reachable from the start is marked, given that the marked set
/// is closed under stepping to an adjacent member.
proof fn lemma_closed_reaches(
    g: GridView,
    s: usize,
    w: Option<usize>,
    start: (int, int),
    local: Seq<bool>,
    p: Seq<(int, int)>,
    k: int,
)
    requires
        g.wf(),
        local.len() == g.cells.len(),
        is_path(g, s, w, p),
        p[0] == start,
        local[g.index(start.0, start.1)],
        forall|x: (int, int), y: (int, int)|
            valid(g, x) && #[trigger] local[g.index(x.0, x.1)] && #[trigger] adjacent(g, x, y) && member(g, s, w, y)
                ==> local[g.index(y.0, y.1)],
        0 <= k < p.len(),
    ensures
        local[g.index(p[k].0, p[k].1)],
    decreases k,
{
    if k > 0 {
        lemma_closed_reaches(g, s, w, start, local, p, k - 1);
        assert(adjacent(g, p[k - 1], p[k]));
        assert(member(g, s, w, p[k]));
    }
}

pub open spec fn as_cell(p: (usize, usize)) -> (int, int) {
    (p.0 as int, p.1 as int)
}

pub open spec fn on_stack(stack: Seq<(usize, usize)>, y: (int, int)) -> bool {
    exists|k: int| 0 <= k < stack.len() && as_cell(#[trigger] stack[k]) == y
}

pub(crate) proof fn lemma_collect_ext(p1: spec_fn(int) -> bool, p2: spec_fn(int) -> bool, k: int)
    requires
        forall|i: int| 0 <= i < k ==> #[trigger] p1(i) == p2(i),
    ensures
        collect(p1, k) == collect(p2, k),
    decreases k,
{
    if k > 0 {
        lemma_collect_ext(p1, p2, k - 1);
    }
}

/// The flat indices below `n` that are set, ascending.
pub(crate) fn set_indices(local: &Vec<bool>) -> (out: Vec<usize>)
    ensures
        out@ == collect(|i: int| local@[i], local@.len() as int),
{
    let mut out: Vec<usize> = Vec::new();
    let mut i: usize = 0;
    while i < local.len()
        invariant
            0 <= i <= local@.len(),
            out@ == collect(|j: int| local@[j], i as int),
        decreases local@.len() - i,
    {
        if local[i] {
            out.push(i);
        }
        i = i + 1;
    }
    out
}

/// What the walk keeps true: every marked cell is a member reachable from
/// the start; every stacked cell is on the grid, and reachable if it is a
/// member; every member next to a marked cell is marked or stacked; and the
/// start is marked or stacked.
pub open spec fn walk_inv(
    g: GridView,
    s: usize,
    w: Option<usize>,
    start: (int, int),
    local: Seq<bool>,
    stack: Seq<(usize, usize)>,
) -> bool {
    &&& local.len() == g.cells.len()
    &&& forall|x: (int, int)|
        valid(g, x) && #[trigger] local[g.index(x.0, x.1)] ==> member(g, s, w, x) && connected(
            g,
            s,
            w,
            start,
            x,
        )
    &&& forall|k: int|
        0 <= k < stack.len() ==> valid(g, as_cell(#[trigger] stack[k])) && (member(
            g,
            s,
            w,
            as_cell(stack[k]),
        ) ==> connected(g, s, w, start, as_cell(stack[k])))
    &&& forall|x: (int, int), y: (int, int)|
        valid(g, x) && #[trigger] local[g.index(x.0, x.1)] && #[trigger] adjacent(g, x, y) && member(
            g,
            s,
            w,
            y,
        ) ==> local[g.index(y.0, y.1)] || on_stack(stack, y)
    &&& member(g, s, w, start)
    &&& local[g.index(start.0, start.1)] || on_stack(stack, start)
}

proof fn lemma_walk_init(g: GridView, s: usize, w: Option<usize>, start: (int, int), local: Seq<bool>, stack: Seq<(usize, usize)>)
    requires
        g.wf(),
        member(g, s, w, start),
        local.len() == g.cells.len(),
        forall|i: int| 0 <= i < local.len() ==> !local[i],
        stack.len() == 1,
        as_cell(stack[0]) == start,
    ensures
        walk_inv(g, s, w, start, local, stack),
{
    assert forall|x: (int, int)| valid(g, x) implies !#[trigger] local[g.index(x.0, x.1)] by {
        lemma_index_in_bounds(g, x.0, x.1);
    }
    let p = seq![start];
    assert(is_path(g, s, w, p));
    assert(connected(g, s, w, start, start));
    assert(on_stack(stack, start));
}

proof fn lemma_walk_skip(
    g: GridView,
    s: usize,
    w: Option<usize>,
    start: (int, int),
    local: Seq<bool>,
    stack: Seq<(usize, usize)>,
    top: (usize, usize),
)
    requires
        g.wf(),
        walk_inv(g, s, w, start, local, stack.push(top)),
        local[g.index(as_cell(top).0, as_cell(top).1)] || !member(g, s, w, as_cell(top)),
    ensures
        walk_inv(g, s, w, start, local, stack),
{
    let before = stack.push(top);
    let x = as_cell(top);
    assert(before[before.len() - 1] == top);
    assert forall|k: int| 0 <= k < stack.len() implies valid(g, as_cell(#[trigger] stack[k])) && (member(
        g,
        s,
        w,
        as_cell(stack[k]),
    ) ==> connected(g, s, w, start, as_cell(stack[k]))) by {
        assert(before[k] == stack[k]);
    }
    assert forall|a: (int, int), b: (int, int)|
        valid(g, a) && #[trigger] local[g.index(a.0, a.1)] && #[trigger] adjacent(g, a, b) && member(g, s, w, b)
            implies local[g.index(b.0, b.1)] || on_stack(stack, b) by {
        if !local[g.index(b.0, b.1)] {
            let k = choose|k: int| 0 <= k < before.len() && as_cell(#[trigger] before[k]) == b;
            if k == before.len() - 1 {
                assert(b == x);
            } else {
                assert(before[k] == stack[k]);
            }
        }
    }
    if !local[g.index(start.0, start.1)] {
        let k = choose|k: int| 0 <= k < before.len() && as_cell(#[trigger] before[k]) == start;
        if k == before.len() - 1 {
            assert(start == x);
        } else {
            assert(before[k] == stack[k]);
        }
    }
}

/// Every cell adjacent to `x` is on `pushed`, and everything on `pushed` is
/// adjacent to `x`.
pub open spec fn pushes_neighbours(g: GridView, x: (int, int), pushed: Seq<(usize, usize)>) -> bool {
    &&& forall|y: (int, int)| #[trigger] adjacent(g, x, y) ==> on_stack(pushed, y)
    &&& forall|k: int| 0 <= k < pushed.len() ==> adjacent(g, x, as_cell(#[trigger] pushed[k]))
}

proof fn lemma_walk_add_marks(
    g: GridView,
    s: usize,
    w: Option<usize>,
    start: (int, int),
    local: Seq<bool>,
    x: (int, int),
)
    requires
        g.wf(),
        local.len() == g.cells.len(),
        valid(g, x),
        member(g, s, w, x),
        connected(g, s, w, start, x),
        forall|y: (int, int)|
            valid(g, y) && #[trigger] local[g.index(y.0, y.1)] ==> member(g, s, w, y) && connected(g, s, w, start, y),
    ensures
        forall|y: (int, int)|
            valid(g, y) && #[trigger] local.update(g.index(x.0, x.1), true)[g.index(y.0, y.1)] ==> member(g, s, w, y)
                && connected(g, s, w, start, y),
{
    let xi = g.index(x.0, x.1);
    let local2 = local.update(xi, true);
    lemma_index_in_bounds(g, x.0, x.1);
    assert forall|y: (int, int)| valid(g, y) && #[trigger] local2[g.index(y.0, y.1)] implies member(g, s, w, y)
        && connected(g, s, w, start, y) by {
        lemma_index_in_bounds(g, y.0, y.1);
        if g.index(y.0, y.1) == xi {
            lemma_index_injective(g, y.0, y.1, x.0, x.1);
        } else {
            assert(local2[g.index(y.0, y.1)] == local[g.index(y.0, y.1)]);
        }
    }
}

proof fn lemma_walk_add_stack(
    g: GridView,
    s: usize,
    w: Option<usize>,
    start: (int, int),
    stack: Seq<(usize, usize)>,
    x: (int, int),
    pushed: Seq<(usize, usize)>,
)
    requires
        connected(g, s, w, start, x),
        pushes_neighbours(g, x, pushed),
        forall|k: int|
            0 <= k < stack.len() ==> valid(g, as_cell(#[trigger] stack[k])) && (member(g, s, w, as_cell(stack[k]))
                ==> connected(g, s, w, start, as_cell(stack[k]))),
    ensures
        forall|k: int|
            0 <= k < (stack + pushed).len() ==> valid(g, as_cell(#[trigger] (stack + pushed)[k])) && (member(
                g,
                s,
                w,
                as_cell((stack + pushed)[k]),
            ) ==> connected(g, s, w, start, as_cell((stack + pushed)[k]))),
{
    let after = stack + pushed;
    assert forall|k: int| 0 <= k < after.len() implies valid(g, as_cell(#[trigger] after[k])) && (member(
        g,
        s,
        w,
        as_cell(after[k]),
    ) ==> connected(g, s, w, start, as_cell(after[k]))) by {
        if k < stack.len() {
            assert(after[k] == stack[k]);
        } else {
            assert(after[k] == pushed[k - stack.len()]);
            let y = as_cell(pushed[k - stack.len()]);
            assert(adjacent(g, x, y));
            if member(g, s, w, y) {
                lemma_extend(g, s, w, start, x, y);
            }
        }
    }
}

proof fn lemma_walk_add_closed(
    g: GridView,
    s: usize,
    w: Option<usize>,
    start: (int, int),
    local: Seq<bool>,
    stack: Seq<(usize, usize)>,
    top: (usize, usize),
    pushed: Seq<(usize, usize)>,
)
    requires
        g.wf(),
        local.len() == g.cells.len(),
        valid(g, as_cell(top)),
        valid(g, start),
        pushes_neighbours(g, as_cell(top), pushed),
        forall|x: (int, int), y: (int, int)|
            valid(g, x) && #[trigger] local[g.index(x.0, x.1)] && #[trigger] adjacent(g, x, y) && member(g, s, w, y)
                ==> local[g.index(y.0, y.1)] || on_stack(stack.push(top), y),
        local[g.index(start.0, start.1)] || on_stack(stack.push(top), start),
    ensures
        forall|x: (int, int), y: (int, int)|
            valid(g, x) && #[trigger] local.update(g.index(as_cell(top).0, as_cell(top).1), true)[g.index(x.0, x.1)]
                && #[trigger] adjacent(g, x, y) && member(g, s, w, y) ==> local.update(
                g.index(as_cell(top).0, as_cell(top).1),
                true,
            )[g.index(y.0, y.1)] || on_stack(stack + pushed, y),
        local.update(g.index(as_cell(top).0, as_cell(top).1), true)[g.index(start.0, start.1)] || on_stack(
            stack + pushed,
            start,
        ),
{
    let before = stack.push(top);
    let x = as_cell(top);
    let xi = g.index(x.0, x.1);
    let local2 = local.update(xi, true);
    let after = stack + pushed;
    lemma_index_in_bounds(g, x.0, x.1);
    assert(before[before.len() - 1] == top);
    assert forall|a: (int, int), b: (int, int)|
        valid(g, a) && #[trigger] local2[g.index(a.0, a.1)] && #[trigger] adjacent(g, a, b) && member(g, s, w, b)
            implies local2[g.index(b.0, b.1)] || on_stack(after, b) by {
        lemma_index_in_bounds(g, a.0, a.1);
        lemma_index_in_bounds(g, b.0, b.1);
        if g.index(a.0, a.1) == xi {
            lemma_index_injective(g, a.0, a.1, x.0, x.1);
            assert(on_stack(pushed, b));
            let k = choose|k: int| 0 <= k < pushed.len() && as_cell(#[trigger] pushed[k]) == b;
            assert(after[stack.len() + k] == pushed[k]);
        } else {
            assert(local2[g.index(a.0, a.1)] == local[g.index(a.0, a.1)]);
            if !local2[g.index(b.0, b.1)] {
                assert(!local[g.index(b.0, b.1)]);
                let k = choose|k: int| 0 <= k < before.len() && as_cell(#[trigger] before[k]) == b;
                if k == before.len() - 1 {
                    assert(b == x);
                } else {
                    assert(before[k] == stack[k]);
                    assert(after[k] == stack[k]);
                }
            }
        }
    }
    lemma_index_in_bounds(g, start.0, start.1);
    if !local2[g.index(start.0, start.1)] {
        assert(!local[g.index(start.0, start.1)]);
        let k = choose|k: int| 0 <= k < before.len() && as_cell(#[trigger] before[k]) == start;
        if k == before.len() - 1 {
            assert(start == x);
        } else {
            assert(before[k] == stack[k]);
            assert(after[k] == stack[k]);
        }
    }
}

proof fn lemma_walk_add(
    g: GridView,
    s: usize,
    w: Option<usize>,
    start: (int, int),
    local: Seq<bool>,
    stack: Seq<(usize, usize)>,
    top: (usize, usize),
    pushed: Seq<(usize, usize)>,
)
    requires
        g.wf(),
        walk_inv(g, s, w, start, local, stack.push(top)),
        !local[g.index(as_cell(top).0, as_cell(top).1)],
        member(g, s, w, as_cell(top)),
        pushes_neighbours(g, as_cell(top), pushed),
    ensures
        walk_inv(
            g,
            s,
            w,
            start,
            local.update(g.index(as_cell(top).0, as_cell(top).1), true),
            stack + pushed,
        ),
{
    let before = stack.push(top);
    let x = as_cell(top);
    assert(before[before.len() - 1] == top);
    assert(valid(g, x));
    assert(connected(g, s, w, start, x));
    assert forall|k: int| 0 <= k < stack.len() implies valid(g, as_cell(#[trigger] stack[k])) && (member(
        g,
        s,
        w,
        as_cell(stack[k]),
    ) ==> connected(g, s, w, start, as_cell(stack[k]))) by {
        assert(before[k] == stack[k]);
    }
    lemma_walk_add_marks(g, s, w, start, local, x);
    lemma_walk_add_stack(g, s, w, start, stack, x, pushed);
    lemma_walk_add_closed(g, s, w, start, local, stack, top, pushed);
    lemma_index_in_bounds(g, x.0, x.1);
    assert(member(g, s, w, start));
}

/// With nothing left to visit, the marked cells are exactly the group.
proof fn lemma_walk_done(g: GridView, s: usize, w: Option<usize>, start: (int, int), local: Seq<bool>)
    requires
        g.wf(),
        walk_inv(g, s, w, start, local, Seq::empty()),
    ensures
        forall|i: int| 0 <= i < local.len() ==> #[trigger] local[i] == in_group(g, s, w, start, i),
{
    let empty = Seq::<(usize, usize)>::empty();
    assert(!on_stack(empty, start));
    assert forall|x: (int, int), y: (int, int)|
        valid(g, x) && #[trigger] local[g.index(x.0, x.1)] && #[trigger] adjacent(g, x, y) && member(g, s, w, y)
            implies local[g.index(y.0, y.1)] by {
        assert(!on_stack(empty, y));
    }
    assert forall|i: int| 0 <= i < local.len() implies #[trigger] local[i] == in_group(g, s, w, start, i) by {
        lemma_cell_at(g, i);
        let c = cell_at(g, i);
        if in_group(g, s, w, start, i) {
            let p = choose|p: Seq<(int, int)>| #[trigger] is_path(g, s, w, p) && p[0] == start && p.last() == c;
            lemma_closed_reaches(g, s, w, start, local, p, p.len() - 1);
        }
    }
}

/// The cells adjacent to `(r, c)`: left, right, below, above, where they exist.
pub(crate) fn neighbours(grid: &Grid, r: usize, c: usize) -> (out: Vec<(usize, usize)>)
    requires
        grid.inv(),
        grid@.valid_cell(r as int, c as int),
    ensures
        pushes_neighbours(grid@, (r as int, c as int), out@),
        out@.len() <= 4,
{
    let ghost g = grid@;
    let ghost x = (r as int, c as int);
    let mut out: Vec<(usize, usize)> = Vec::new();
    let ghost mut left: int = -1;
    let ghost mut right: int = -1;
    let ghost mut down: int = -1;
    let ghost mut up: int = -1;
    if r > 0 && c < grid.rows_on(r - 1) {
        proof { left = out@.len() as int; }
        out.push((r - 1, c));
    }
    let reels = grid.reel_count();
    if r < reels - 1 && c < grid.rows_on(r + 1) {
        proof { right = out@.len() as int; }
        out.push((r + 1, c));
    }
    if c > 0 {
        proof { down = out@.len() as int; }
        out.push((r, c - 1));
    }
    if c + 1 < grid.rows_on(r) {
        proof { up = out@.len() as int; }
        out.push((r, c + 1));
    }
    assert(left >= 0 ==> as_cell(out@[left]) == (x.0 - 1, x.1));
    assert(right >= 0 ==> as_cell(out@[right]) == (x.0 + 1, x.1));
    assert(down >= 0 ==> as_cell(out@[down]) == (x.0, x.1 - 1));
    assert(up >= 0 ==> as_cell(out@[up]) == (x.0, x.1 + 1));
    assert forall|y: (int, int)| #[trigger] adjacent(g, x, y) implies on_stack(out@, y) by {
        if y.0 == x.0 - 1 && y.1 == x.1 {
            assert(as_cell(out@[left]) == y);
        } else if y.0 == x.0 + 1 && y.1 == x.1 {
            assert(as_cell(out@[right]) == y);
        } else if y.0 == x.0 && y.1 == x.1 - 1 {
            assert(as_cell(out@[down]) == y);
        } else {
            assert(as_cell(out@[up]) == y);
        }
    }
    out
}

/// Collect the connected group containing `(reel, row)`, marking its
/// ordinary cells in `seen`. Iterative rather than recursive: a grid that is
/// one symbol end to end is an ordinary spin.
pub fn fill(grid: &Grid, reel: usize, row: usize, symbol: usize, wild: Option<usize>, seen: &mut Vec<bool>) -> (cells: Vec<usize>)
    requires
        grid.inv(),
        old(seen)@.len() == grid@.cells.len(),
        grid@.valid_cell(reel as int, row as int),
        grid@.at(reel as int, row as int) == symbol,
    ensures
        cells@ == group(grid@, symbol, wild, (reel as int, row as int)),
        final(seen)@.len() == old(seen)@.len(),
        forall|i: int|
            0 <= i < old(seen)@.len() ==> #[trigger] final(seen)@[i] == (old(seen)@[i] || (in_group(
                grid@,
                symbol,
                wild,
                (reel as int, row as int),
                i,
            ) && wild != Some(grid@.cells[i]))),
{
    let ghost g = grid@;
    let ghost start = (reel as int, row as int);
    let ghost seen0 = seen@;
    let n = grid.cell_count();
    proof {
        grid.lemma_wf();
        grid.lemma_cells_fit();
        lemma_index_in_bounds(g, reel as int, row as int);
    }
    let mut local: Vec<bool> = Vec::new();
    let mut k: usize = 0;
    while k < n
        invariant
            0 <= k <= n,
            local@ == Seq::new(k as nat, |i: int| false),
        decreases n - k,
    {
        local.push(false);
        k = k + 1;
        assert(local@ =~= Seq::new(k as nat, |i: int| false));
    }
    proof {
        lemma_trues_zero(local@);
    }
    let mut count: usize = 0;
    let mut stack: Vec<(usize, usize)> = Vec::new();
    stack.push((reel, row));
    proof {
        lemma_walk_init(g, symbol, wild, start, local@, stack@);
    }
    while stack.len() > 0
        invariant
            grid.inv(),
            g == grid@,
            g.wf(),
            n == g.cells.len(),
            seen@.len() == n,
            count == trues(local@),
            walk_inv(g, symbol, wild, start, local@, stack@),
            forall|i: int|
                0 <= i < n ==> #[trigger] seen@[i] == (seen0[i] || (local@[i] && wild != Some(g.cells[i]))),
        decreases (n - count) * 5 + stack@.len(),
    {
        let ghost before = stack@;
        let top = stack.pop().unwrap();
        let (r, c) = top;
        let ghost x = (r as int, c as int);
        assert(before == stack@.push(top));
        assert(valid(g, as_cell(before[before.len() - 1])));
        proof {
            lemma_index_in_bounds(g, r as int, c as int);
            lemma_trues_bound(local@);
            grid.lemma_cells_fit();
        }
        let flat = grid.index(r, c);
        if local[flat] {
            proof {
                lemma_walk_skip(g, symbol, wild, start, local@, stack@, top);
            }
            continue;
        }
        let here = grid.at(r, c);
        let is_wild = match wild {
            Some(w) => w == here,
            None => false,
        };
        if here != symbol && !is_wild {
            proof {
                lemma_walk_skip(g, symbol, wild, start, local@, stack@, top);
            }
            continue;
        }
        let ghost old_local = local@;
        let ghost rest = stack@;
        proof {
            lemma_trues_set(local@, flat as int);
            lemma_trues_bound(local@.update(flat as int, true));
        }
        local.set(flat, true);
        count = count + 1;
        if !is_wild {
            seen.set(flat, true);
        }
        let mut pushed = neighbours(grid, r, c);
        proof {
            lemma_walk_add(g, symbol, wild, start, old_local, rest, top, pushed@);
        }
        stack.append(&mut pushed);
    }
    proof {
        lemma_walk_done(g, symbol, wild, start, local@);
        lemma_collect_ext(|i: int| local@[i], |i: int| in_group(g, symbol, wild, start, i), n as int);
    }
    set_indices(&local)
}

proof fn lemma_trues_zero(s: Seq<bool>)
    requires
        forall|i: int| 0 <= i < s.len() ==> !s[i],
    ensures
        trues(s) == 0,
    decreases s.len(),
{
    if s.len() > 0 {
        lemma_trues_zero(s.drop_last());
    }
}

/// A walk from `a` to `b` followed by a walk from `b` to `c` is a walk from
/// `a` to `c`.
pub proof fn lemma_connected_trans(
    g: GridView,
    s: usize,
    w: Option<usize>,
    a: (int, int),
    b: (int, int),
    c: (int, int),
)
    requires
        connected(g, s, w, a, b),
        connected(g, s, w, b, c),
    ensures
        connected(g, s, w, a, c),
{
    let p = choose|p: Seq<(int, int)>| #[trigger] is_path(g, s, w, p) && p[0] == a && p.last() == b;
    let q = choose|q: Seq<(int, int)>| #[trigger] is_path(g, s, w, q) && q[0] == b && q.last() == c;
    let r = p + q.drop_first();
    assert forall|k: int| 0 <= k < r.len() implies member(g, s, w, #[trigger] r[k]) by {
        if k < p.len() {
            assert(r[k] == p[k]);
        } else {
            assert(r[k] == q[k - p.len() + 1]);
        }
    }
    assert forall|k: int| 0 <= k < r.len() - 1 implies adjacent(g, #[trigger] r[k], r[k + 1]) by {
        if k < p.len() - 1 {
            assert(r[k] == p[k] && r[k + 1] == p[k + 1]);
        } else if k == p.len() - 1 {
            assert(r[k] == p[k] && r[k + 1] == q[1]);
            assert(adjacent(g, q[0], q[1]));
        } else {
            assert(r[k] == q[k - p.len() + 1] && r[k + 1] == q[k - p.len() + 2]);
        }
    }
    if q.len() == 1 {
        assert(r =~= p);
    } else {
        assert(r.last() == q.last());
    }
    assert(is_path(g, s, w, r));
}

/// A walk read backwards is a walk.
pub proof fn lemma_connected_sym(g: GridView, s: usize, w: Option<usize>, a: (int, int), b: (int, int))
    requires
        connected(g, s, w, a, b),
    ensures
        connected(g, s, w, b, a),
{
    let p = choose|p: Seq<(int, int)>| #[trigger] is_path(g, s, w, p) && p[0] == a && p.last() == b;
    let r = p.reverse();
    assert forall|k: int| 0 <= k < r.len() implies member(g, s, w, #[trigger] r[k]) by {
        assert(r[k] == p[p.len() - 1 - k]);
    }
    assert forall|k: int| 0 <= k < r.len() - 1 implies adjacent(g, #[trigger] r[k], r[k + 1]) by {
        let j = p.len() - 2 - k;
        assert(r[k] == p[j + 1] && r[k + 1] == p[j]);
        assert(adjacent(g, p[j], p[j + 1]));
    }
    assert(r[0] == b && r.last() == a);
    assert(is_path(g, s, w, r));
}

/// The last cell of a walk is a member.
proof fn lemma_connected_member(g: GridView, s: usize, w: Option<usize>, a: (int, int), b: (int, int))
    requires
        connected(g, s, w, a, b),
    ensures
        member(g, s, w, b),
        member(g, s, w, a),
{
    let p = choose|p: Seq<(int, int)>| #[trigger] is_path(g, s, w, p) && p[0] == a && p.last() == b;
    assert(member(g, s, w, p[p.len() - 1]));
    assert(member(g, s, w, p[0]));
}

/// Whether the cells at flat indices `j` and `i` are in one group of
/// `symbol`.
pub open spec fn linked(g: GridView, symbol: usize, wild: Option<usize>, j: int, i: int) -> bool {
    connected(g, symbol, wild, cell_at(g, j), cell_at(g, i))
}

/// Flat cell `k` starts a group: it is an ordinary symbol, neither wild nor
/// scatter, and no earlier cell of its symbol is in its group.
pub open spec fn is_seed(syms: SymbolsView, g: GridView, k: int) -> bool {
    let s = g.cells[k];
    &&& !syms.is_wild(s as int)
    &&& !syms.is_scatter(s as int)
    &&& !exists|j: int| 0 <= j < k && g.cells[j] == s && #[trigger] linked(g, s, syms.wild, j, k)
}

/// Two to the power `q`.
pub open spec fn doubling(q: nat) -> int
    decreases q,
{
    if q == 0 {
        1
    } else {
        2 * doubling((q - 1) as nat)
    }
}

/// What a group of `size` cells pays per unit of line bet: the paytable's
/// rung for the run, and past the top rung the pay doubles every four cells,
/// growing by quarters of the doubled rung in between, rounded toward zero.
pub open spec fn cluster_pay(syms: SymbolsView, symbol: int, size: int) -> int {
    let base = syms.pay(symbol, if size < MAX_RUN { size } else { MAX_RUN as int }) as int;
    if size <= MAX_RUN {
        base
    } else {
        let over = size - MAX_RUN;
        trunc_div(base * (4 + over % 4) * doubling((over / 4) as nat), 4)
    }
}

/// The arithmetic `pay` does stays inside `i64`.
pub open spec fn pay_fits(syms: SymbolsView, symbol: int, size: int) -> bool {
    size <= MAX_RUN || {
        let over = size - MAX_RUN;
        fits_i64(syms.pay(symbol, MAX_RUN as int) * (4 + over % 4) * doubling((over / 4) as nat))
    }
}

proof fn lemma_doubling_grows(i: nat, q: nat)
    requires
        i <= q,
    ensures
        1 <= doubling(i) <= doubling(q),
    decreases q,
{
    if q > 0 {
        lemma_doubling_grows((q - 1) as nat, (q - 1) as nat);
        if i < q {
            lemma_doubling_grows(i, (q - 1) as nat);
        }
    }
}

/// A part of the doubling stays between zero and the whole.
proof fn lemma_partial_doubling_fits(x: int, i: nat, q: nat)
    requires
        i <= q,
        fits_i64(x * doubling(q)),
    ensures
        fits_i64(x * doubling(i)),
{
    lemma_doubling_grows(i, q);
    let a = doubling(i);
    let b = doubling(q);
    if x >= 0 {
        assert(0 <= x * a <= x * b) by (nonlinear_arith)
            requires
                x >= 0,
                1 <= a <= b,
        ;
    } else {
        assert(x * b <= x * a <= 0) by (nonlinear_arith)
            requires
                x < 0,
                1 <= a <= b,
        ;
    }
}

/// The win the group seeded at flat cell `k` makes, if any.
pub open spec fn cluster_win(data: GameData, g: GridView, line_bet: i64, multiplier: i64, k: int) -> Option<WinView> {
    let syms = data.symbols@;
    let s = g.cells[k];
    let cells = group(g, s, syms.wild, cell_at(g, k));
    let size = cells.len() as int;
    let credits = cluster_pay(syms, s as int, size) * line_bet * multiplier;
    if is_seed(syms, g, k) && size >= MIN_CLUSTER && credits > 0 {
        Some(WinView { source: WinSource::Cluster(size as usize), symbol: s, count: size as usize, credits, cells })
    } else {
        None
    }
}

/// Every paying group seeded among the first `k` cells, in cell order.
pub open spec fn cluster_wins_upto(data: GameData, g: GridView, line_bet: i64, multiplier: i64, k: int) -> Seq<WinView>
    decreases k,
{
    if k <= 0 {
        Seq::empty()
    } else {
        let prev = cluster_wins_upto(data, g, line_bet, multiplier, k - 1);
        match cluster_win(data, g, line_bet, multiplier, k - 1) {
            Some(w) => prev.push(w),
            None => prev,
        }
    }
}

pub open spec fn spec_cluster_wins(data: GameData, g: GridView, line_bet: i64, multiplier: i64) -> Seq<WinView> {
    cluster_wins_upto(data, g, line_bet, multiplier, g.cells.len() as int)
}

/// For every group large enough to be paid, the pay and its scaling by bet
/// and multiplier stay inside `i64`.
pub open spec fn cluster_ready(data: GameData, g: GridView, line_bet: i64, multiplier: i64) -> bool {
    let syms = data.symbols@;
    &&& syms.wf()
    &&& g.wf()
    &&& forall|k: int|
        0 <= k < g.cells.len() && #[trigger] is_seed(syms, g, k) && group(g, g.cells[k], syms.wild, cell_at(g, k)).len()
            >= MIN_CLUSTER ==> {
            let size = group(g, g.cells[k], syms.wild, cell_at(g, k)).len() as int;
            let pay = cluster_pay(syms, g.cells[k] as int, size);
            &&& g.cells[k] < syms.len()
            &&& pay_fits(syms, g.cells[k] as int, size)
            &&& fits_i64(pay * line_bet)
            &&& fits_i64(pay * line_bet * multiplier)
        }
}

/// What a cluster of `size` pays, as a multiple of the line bet. The
/// paytable stops at five, so the top rung is scaled by how far past it the
/// group went: doubling every four cells, in integers only.
pub fn pay(data: &GameData, symbol: usize, size: usize) -> (m: i64)
    requires
        data.symbols@.wf(),
        symbol < data.symbols@.len(),
        pay_fits(data.symbols@, symbol as int, size as int),
    ensures
        m == cluster_pay(data.symbols@, symbol as int, size as int),
{
    let top: usize = 5;
    let rung = if size < top {
        size
    } else {
        top
    };
    let base = data.symbols.pay(symbol, rung);
    if size <= top {
        return base;
    }
    let over = size - top;
    let quarters = (4 + over % 4) as i64;
    let doublings = over / 4;
    let ghost x = base * quarters;
    proof {
        lemma_partial_doubling_fits(x, 0, doublings as nat);
    }
    let mut scaled: i64 = base * quarters;
    let mut i: usize = 0;
    while i < doublings
        invariant
            i <= doublings,
            x == base * quarters,
            fits_i64(x * doubling(doublings as nat)),
            scaled == x * doubling(i as nat),
        decreases doublings - i,
    {
        proof {
            lemma_partial_doubling_fits(x, (i + 1) as nat, doublings as nat);
            assert(x * doubling((i + 1) as nat) == 2 * (x * doubling(i as nat))) by (nonlinear_arith)
                requires
                    doubling((i + 1) as nat) == 2 * doubling(i as nat),
            ;
        }
        scaled = scaled * 2;
        i = i + 1;
    }
    scaled / 4
}

/// What `seen` holds after the scan has passed the first `k` cells: a
/// scatter once passed, and an ordinary cell once an earlier cell of its
/// symbol in its group has been passed. Wilds are never held.
pub open spec fn passed(syms: SymbolsView, g: GridView, k: int, i: int) -> bool {
    let s = g.cells[i];
    &&& !syms.is_wild(s as int)
    &&& if syms.is_scatter(s as int) {
        i < k
    } else {
        exists|j: int| 0 <= j < k && g.cells[j] == s && #[trigger] linked(g, s, syms.wild, j, i)
    }
}

/// Passing a cell that is already held changes nothing: whatever it would
/// reach, the earlier cell that holds it reaches too.
proof fn lemma_pass_held(syms: SymbolsView, g: GridView, k: int)
    requires
        g.wf(),
        0 <= k < g.cells.len(),
        passed(syms, g, k, k),
    ensures
        forall|i: int| 0 <= i < g.cells.len() ==> #[trigger] passed(syms, g, k + 1, i) == passed(syms, g, k, i),
{
    assert forall|i: int| 0 <= i < g.cells.len() implies #[trigger] passed(syms, g, k + 1, i) == passed(syms, g, k, i) by {
        let s = g.cells[i];
        if passed(syms, g, k + 1, i) && !syms.is_scatter(s as int) {
            let j = choose|j: int| 0 <= j < k + 1 && g.cells[j] == s && #[trigger] linked(g, s, syms.wild, j, i);
            if j == k {
                let j2 = choose|j2: int| 0 <= j2 < k && g.cells[j2] == s && #[trigger] linked(g, s, syms.wild, j2, k);
                lemma_connected_trans(g, s, syms.wild, cell_at(g, j2), cell_at(g, k), cell_at(g, i));
                assert(linked(g, s, syms.wild, j2, i));
            }
        }
        if passed(syms, g, k, i) && !syms.is_scatter(s as int) {
            let j = choose|j: int| 0 <= j < k && g.cells[j] == s && #[trigger] linked(g, s, syms.wild, j, i);
            assert(linked(g, s, syms.wild, j, i));
        }
    }
}

/// Passing a wild, which no scan holds, changes nothing.
proof fn lemma_pass_wild(syms: SymbolsView, g: GridView, k: int)
    requires
        g.wf(),
        0 <= k < g.cells.len(),
        syms.is_wild(g.cells[k] as int),
    ensures
        forall|i: int| 0 <= i < g.cells.len() ==> #[trigger] passed(syms, g, k + 1, i) == passed(syms, g, k, i),
{
    assert forall|i: int| 0 <= i < g.cells.len() implies #[trigger] passed(syms, g, k + 1, i) == passed(syms, g, k, i) by {
        let s = g.cells[i];
        if passed(syms, g, k + 1, i) && !syms.is_scatter(s as int) {
            let j = choose|j: int| 0 <= j < k + 1 && g.cells[j] == s && #[trigger] linked(g, s, syms.wild, j, i);
            assert(j != k);
        }
        if passed(syms, g, k, i) && !syms.is_scatter(s as int) {
            let j = choose|j: int| 0 <= j < k && g.cells[j] == s && #[trigger] linked(g, s, syms.wild, j, i);
            assert(linked(g, s, syms.wild, j, i));
        }
    }
}

/// Passing a scatter holds that scatter and nothing else.
proof fn lemma_pass_scatter(syms: SymbolsView, g: GridView, k: int)
    requires
        g.wf(),
        syms.wf(),
        0 <= k < g.cells.len(),
        syms.is_scatter(g.cells[k] as int),
    ensures
        forall|i: int|
            0 <= i < g.cells.len() ==> #[trigger] passed(syms, g, k + 1, i) == (passed(syms, g, k, i) || i == k),
        !passed(syms, g, k, k),
{
    assert forall|i: int| 0 <= i < g.cells.len() implies #[trigger] passed(syms, g, k + 1, i) == (passed(
        syms,
        g,
        k,
        i,
    ) || i == k) by {
        let s = g.cells[i];
        if passed(syms, g, k + 1, i) && !syms.is_scatter(s as int) {
            let j = choose|j: int| 0 <= j < k + 1 && g.cells[j] == s && #[trigger] linked(g, s, syms.wild, j, i);
            assert(j != k);
        }
        if passed(syms, g, k, i) && !syms.is_scatter(s as int) {
            let j = choose|j: int| 0 <= j < k && g.cells[j] == s && #[trigger] linked(g, s, syms.wild, j, i);
            assert(linked(g, s, syms.wild, j, i));
        }
    }
}

/// Passing a seed holds exactly the ordinary cells of its group.
proof fn lemma_pass_seed(syms: SymbolsView, g: GridView, k: int)
    requires
        g.wf(),
        0 <= k < g.cells.len(),
        !syms.is_wild(g.cells[k] as int),
        !syms.is_scatter(g.cells[k] as int),
    ensures
        forall|i: int|
            0 <= i < g.cells.len() ==> #[trigger] passed(syms, g, k + 1, i) == (passed(syms, g, k, i) || (in_group(
                g,
                g.cells[k],
                syms.wild,
                cell_at(g, k),
                i,
            ) && syms.wild != Some(g.cells[i]))),
{
    let sk = g.cells[k];
    assert forall|i: int| 0 <= i < g.cells.len() implies #[trigger] passed(syms, g, k + 1, i) == (passed(
        syms,
        g,
        k,
        i,
    ) || (in_group(g, sk, syms.wild, cell_at(g, k), i) && syms.wild != Some(g.cells[i]))) by {
        let s = g.cells[i];
        lemma_cell_at(g, i);
        if in_group(g, sk, syms.wild, cell_at(g, k), i) && syms.wild != Some(s) {
            lemma_connected_member(g, sk, syms.wild, cell_at(g, k), cell_at(g, i));
            assert(s == sk);
            assert(linked(g, s, syms.wild, k, i));
        }
        if passed(syms, g, k + 1, i) && !syms.is_scatter(s as int) {
            let j = choose|j: int| 0 <= j < k + 1 && g.cells[j] == s && #[trigger] linked(g, s, syms.wild, j, i);
            if j < k {
                assert(linked(g, s, syms.wild, j, i));
            }
        }
        if passed(syms, g, k, i) && !syms.is_scatter(s as int) {
            let j = choose|j: int| 0 <= j < k && g.cells[j] == s && #[trigger] linked(g, s, syms.wild, j, i);
            assert(linked(g, s, syms.wild, j, i));
        }
    }
}

/// Every paying cluster on the grid, in cell order: reel by reel, top row
/// first, so a rendering that highlights them does so in a stable sequence.
pub fn wins(data: &GameData, grid: &Grid, line_bet: i64, multiplier: i64) -> (found: Vec<Win>)
    requires
        grid.inv(),
        cluster_ready(*data, grid@, line_bet, multiplier),
    ensures
        win_views(found@) == spec_cluster_wins(*data, grid@, line_bet, multiplier),
{
    let ghost g = grid@;
    let ghost syms = data.symbols@;
    proof {
        grid.lemma_wf();
        grid.lemma_cells_fit();
    }
    let wild = data.symbols.wild();
    let scatter = data.symbols.scatter();
    let n = grid.cell_count();
    let mut seen: Vec<bool> = Vec::new();
    let mut f: usize = 0;
    while f < n
        invariant
            0 <= f <= n,
            seen@ == Seq::new(f as nat, |i: int| false),
        decreases n - f,
    {
        seen.push(false);
        f = f + 1;
        assert(seen@ =~= Seq::new(f as nat, |i: int| false));
    }
    assert forall|i: int| 0 <= i < n implies #[trigger] seen@[i] == passed(syms, g, 0, i) by {}
    let mut found: Vec<Win> = Vec::new();
    let reels = grid.reel_count();
    let mut reel: usize = 0;
    while reel < reels
        invariant
            grid.inv(),
            g == grid@,
            g.wf(),
            syms == data.symbols@,
            cluster_ready(*data, g, line_bet, multiplier),
            wild == syms.wild,
            scatter == syms.scatter,
            n == g.cells.len(),
            reels == g.heights.len(),
            0 <= reel <= reels,
            seen@.len() == n,
            forall|i: int| 0 <= i < n ==> #[trigger] seen@[i] == passed(syms, g, sum_prefix(g.heights, reel as int), i),
            win_views(found@) == cluster_wins_upto(*data, g, line_bet, multiplier, sum_prefix(g.heights, reel as int)),
        decreases reels - reel,
    {
        let rows = grid.rows_on(reel);
        let mut row: usize = 0;
        while row < rows
            invariant
                grid.inv(),
                g == grid@,
                g.wf(),
                syms == data.symbols@,
                cluster_ready(*data, g, line_bet, multiplier),
                wild == syms.wild,
                scatter == syms.scatter,
                n == g.cells.len(),
                reels == g.heights.len(),
                0 <= reel < reels,
                rows == g.heights[reel as int],
                0 <= row <= rows,
                seen@.len() == n,
                forall|i: int|
                    0 <= i < n ==> #[trigger] seen@[i] == passed(syms, g, sum_prefix(g.heights, reel as int) + row, i),
                win_views(found@) == cluster_wins_upto(
                    *data,
                    g,
                    line_bet,
                    multiplier,
                    sum_prefix(g.heights, reel as int) + row,
                ),
            decreases rows - row,
        {
            let ghost k = sum_prefix(g.heights, reel as int) + row;
            let ghost prev = found@;
            proof {
                lemma_index_in_bounds(g, reel as int, row as int);
                lemma_cell_at_of(g, (reel as int, row as int));
            }
            let flat = grid.index(reel, row);
            assert(flat == k);
            let symbol = grid.at(reel, row);
            let is_wild = match wild {
                Some(w) => w == symbol,
                None => false,
            };
            let is_scatter = match scatter {
                Some(s) => s == symbol,
                None => false,
            };
            if seen[flat] {
                proof {
                    lemma_pass_held(syms, g, k);
                }
                assert forall|i: int| 0 <= i < n implies #[trigger] seen@[i] == passed(syms, g, k + 1, i) by {
                    assert(passed(syms, g, k + 1, i) == passed(syms, g, k, i));
                }
            } else if is_wild {
                proof {
                    lemma_pass_wild(syms, g, k);
                }
                assert forall|i: int| 0 <= i < n implies #[trigger] seen@[i] == passed(syms, g, k + 1, i) by {
                    assert(passed(syms, g, k + 1, i) == passed(syms, g, k, i));
                }
            } else if is_scatter {
                proof {
                    lemma_pass_scatter(syms, g, k);
                }
                let ghost seen0 = seen@;
                seen.set(flat, true);
                assert forall|i: int| 0 <= i < n implies #[trigger] seen@[i] == passed(syms, g, k + 1, i) by {
                    assert(seen@[i] == (seen0[i] || i == k));
                    assert(passed(syms, g, k + 1, i) == (passed(syms, g, k, i) || i == k));
                }
            } else {
                assert(is_seed(syms, g, k));
                let ghost seen0 = seen@;
                let cells = fill(grid, reel, row, symbol, wild, &mut seen);
                proof {
                    lemma_pass_seed(syms, g, k);
                    assert forall|i: int| 0 <= i < n implies #[trigger] seen@[i] == passed(syms, g, k + 1, i) by {
                        assert(seen@[i] == (seen0[i] || (in_group(g, symbol, wild, (reel as int, row as int), i)
                            && wild != Some(g.cells[i]))));
                        assert(passed(syms, g, k + 1, i) == (passed(syms, g, k, i) || (in_group(
                            g,
                            g.cells[k],
                            syms.wild,
                            cell_at(g, k),
                            i,
                        ) && syms.wild != Some(g.cells[i]))));
                    }
                }
                let size = cells.len();
                if size >= MIN_CLUSTER {
                    let base = pay(data, symbol, size);
                    let credits = base * line_bet * multiplier;
                    if credits > 0 {
                        let ghost w = cluster_win(*data, g, line_bet, multiplier, k)->Some_0;
                        found.push(
                            Win { source: WinSource::Cluster(size), symbol, count: size, credits, cells },
                        );
                        assert(win_views(found@) =~= win_views(prev).push(w));
                    }
                }
            }
            row = row + 1;
            assert(sum_prefix(g.heights, reel as int) + row == k + 1);
            assert forall|i: int| 0 <= i < n implies #[trigger] seen@[i] == passed(
                syms,
                g,
                sum_prefix(g.heights, reel as int) + row,
                i,
            ) by {
                assert(seen@[i] == passed(syms, g, k + 1, i));
            }
        }
        reel = reel + 1;
    }
    found
}

pub(crate) proof fn lemma_collect_contains(pred: spec_fn(int) -> bool, k: int, x: int)
    requires
        0 <= x <= usize::MAX,
        k <= usize::MAX,
    ensures
        collect(pred, k).contains(x as usize) <==> (x < k && pred(x)),
    decreases k,
{
    if k > 0 {
        lemma_collect_contains(pred, k - 1, x);
        let prev = collect(pred, k - 1);
        if pred(k - 1) {
            let now = prev.push((k - 1) as usize);
            if now.contains(x as usize) && !prev.contains(x as usize) {
                let t = choose|t: int| 0 <= t < now.len() && now[t] == x as usize;
                assert(t == now.len() - 1);
            }
            if prev.contains(x as usize) {
                let t = choose|t: int| 0 <= t < prev.len() && prev[t] == x as usize;
                assert(now[t] == x as usize);
            }
            if x == k - 1 {
                assert(now[now.len() - 1] == x as usize);
            }
        }
    }
}

/// No ordinary cell is paid twice: two paying clusters of the same symbol
/// never share a cell that is not a wild. Each group is a connected
/// component, and only the first cell of a component seeds a win.
pub proof fn clusters_share_no_ordinary_cell(
    data: GameData,
    g: GridView,
    line_bet: i64,
    multiplier: i64,
    j: int,
    k: int,
    i: int,
)
    requires
        g.wf(),
        g.cells.len() <= usize::MAX,
        0 <= j < k < g.cells.len(),
        0 <= i < g.cells.len(),
        cluster_win(data, g, line_bet, multiplier, j) is Some,
        cluster_win(data, g, line_bet, multiplier, k) is Some,
        g.cells[j] == g.cells[k],
        !data.symbols@.is_wild(g.cells[i] as int),
    ensures
        !(cluster_win(data, g, line_bet, multiplier, j)->Some_0.cells.contains(i as usize) && cluster_win(
            data,
            g,
            line_bet,
            multiplier,
            k,
        )->Some_0.cells.contains(i as usize)),
{
    let syms = data.symbols@;
    let s = g.cells[k];
    let w = syms.wild;
    lemma_collect_contains(|x: int| in_group(g, s, w, cell_at(g, j), x), g.cells.len() as int, i);
    lemma_collect_contains(|x: int| in_group(g, s, w, cell_at(g, k), x), g.cells.len() as int, i);
    if in_group(g, s, w, cell_at(g, j), i) && in_group(g, s, w, cell_at(g, k), i) {
        lemma_connected_sym(g, s, w, cell_at(g, k), cell_at(g, i));
        lemma_connected_trans(g, s, w, cell_at(g, j), cell_at(g, i), cell_at(g, k));
        assert(linked(g, s, w, j, k));
        assert(is_seed(syms, g, k));
    }
}

/// Every cluster win pays something: a group that pays nothing is no win.
pub(crate) proof fn lemma_cluster_wins_pay(data: GameData, g: GridView, line_bet: i64, multiplier: i64, k: int)
    ensures
        forall|i: int|
            0 <= i < cluster_wins_upto(data, g, line_bet, multiplier, k).len() ==> (#[trigger] cluster_wins_upto(
                data,
                g,
                line_bet,
                multiplier,
                k,
            )[i]).credits > 0,
    decreases k,
{
    if k > 0 {
        lemma_cluster_wins_pay(data, g, line_bet, multiplier, k - 1);
    }
}

/// A collected sequence that holds anything held an index that met the
/// predicate.
pub(crate) proof fn lemma_collect_nonempty(pred: spec_fn(int) -> bool, k: int)
    requires
        collect(pred, k).len() > 0,
    ensures
        exists|i: int| 0 <= i < k && #[trigger] pred(i),
    decreases k,
{
    if k > 0 {
        if pred(k - 1) {
            assert(pred(k - 1));
        } else {
            lemma_collect_nonempty(pred, k - 1);
        }
    }
}

} // verus!
