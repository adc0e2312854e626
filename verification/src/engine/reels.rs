//! Reel strips and the visible grid.

use vstd::prelude::*;
use vstd::seq_lib::lemma_flatten_concat;
use crate::data::{strips_view, GameData};

verus! {

/// Sum of the first `k` entries of `h`.
pub open spec fn sum_prefix(h: Seq<usize>, k: int) -> int
    decreases k,
{
    if k <= 0 {
        0
    } else {
        sum_prefix(h, k - 1) + h[k - 1]
    }
}

/// Product of every entry of `h`.
pub open spec fn product(h: Seq<usize>) -> int
    decreases h.len(),
{
    if h.len() == 0 {
        1
    } else {
        product(h.drop_last()) * h.last()
    }
}

/// The abstract grid: how tall each reel is, and every cell, column-major.
pub struct GridView {
    pub heights: Seq<usize>,
    pub cells: Seq<usize>,
}

impl GridView {
    pub open spec fn reel_count(self) -> int {
        self.heights.len() as int
    }

    pub open spec fn rows_on(self, reel: int) -> int {
        if 0 <= reel < self.heights.len() {
            self.heights[reel] as int
        } else {
            0
        }
    }

    /// Where a reel's cells start in the flat cell list.
    pub open spec fn offset(self, reel: int) -> int {
        if 0 <= reel < self.heights.len() {
            sum_prefix(self.heights, reel)
        } else {
            0
        }
    }

    pub open spec fn index(self, reel: int, row: int) -> int {
        self.offset(reel) + row
    }

    pub open spec fn at(self, reel: int, row: int) -> usize {
        self.cells[self.index(reel, row)]
    }

    pub open spec fn valid_cell(self, reel: int, row: int) -> bool {
        0 <= reel < self.heights.len() && 0 <= row < self.heights[reel]
    }

    pub open spec fn wf(self) -> bool {
        self.cells.len() == sum_prefix(self.heights, self.heights.len() as int)
    }
}

pub proof fn lemma_sum_prefix_monotone(h: Seq<usize>, i: int, j: int)
    requires
        0 <= i <= j <= h.len(),
    ensures
        sum_prefix(h, i) <= sum_prefix(h, j),
    decreases j - i,
{
    if i < j {
        lemma_sum_prefix_monotone(h, i, j - 1);
    }
}

/// A valid cell has an index inside the cell list, and that index is the
/// cell's alone.
pub proof fn lemma_index_in_bounds(g: GridView, reel: int, row: int)
    requires
        g.wf(),
        g.valid_cell(reel, row),
    ensures
        g.offset(reel) <= g.index(reel, row) < g.offset(reel) + g.heights[reel],
        0 <= g.index(reel, row) < g.cells.len(),
        g.offset(reel) + g.heights[reel] == sum_prefix(g.heights, reel + 1),
{
    lemma_sum_prefix_monotone(g.heights, 0, reel);
    lemma_sum_prefix_monotone(g.heights, reel + 1, g.heights.len() as int);
}

pub proof fn lemma_index_injective(g: GridView, r1: int, c1: int, r2: int, c2: int)
    requires
        g.wf(),
        g.valid_cell(r1, c1),
        g.valid_cell(r2, c2),
        g.index(r1, c1) == g.index(r2, c2),
    ensures
        r1 == r2 && c1 == c2,
{
    lemma_index_in_bounds(g, r1, c1);
    lemma_index_in_bounds(g, r2, c2);
    if r1 < r2 {
        lemma_sum_prefix_monotone(g.heights, r1 + 1, r2);
    } else if r2 < r1 {
        lemma_sum_prefix_monotone(g.heights, r2 + 1, r1);
    }
}

/// Every flat index belongs to exactly one valid cell.
pub proof fn lemma_cell_of_index(g: GridView, i: int) -> (rc: (int, int))
    requires
        g.wf(),
        0 <= i < g.cells.len(),
    ensures
        g.valid_cell(rc.0, rc.1),
        g.index(rc.0, rc.1) == i,
{
    cell_search(g, i, 0)
}

proof fn cell_search(g: GridView, i: int, r: int) -> (rc: (int, int))
    requires
        g.wf(),
        0 <= i < g.cells.len(),
        0 <= r <= g.heights.len(),
        sum_prefix(g.heights, r) <= i,
    ensures
        g.valid_cell(rc.0, rc.1),
        g.index(rc.0, rc.1) == i,
    decreases g.heights.len() - r,
{
    if r == g.heights.len() {
        assert(false);
        (0, 0)
    } else if sum_prefix(g.heights, r + 1) <= i {
        cell_search(g, i, r + 1)
    } else {
        (r, i - sum_prefix(g.heights, r))
    }
}

/// The visible symbol window, stored column-major so a reel's cells are
/// contiguous. Reels may differ in height.
#[derive(Debug)]
pub struct Grid {
    /// Visible rows per reel.
    heights: Vec<usize>,
    /// Where each reel's cells start in `cells`: a prefix sum of `heights`.
    offsets: Vec<usize>,
    cells: Vec<usize>,
}

impl View for Grid {
    type V = GridView;

    closed spec fn view(&self) -> GridView {
        GridView { heights: self.heights@, cells: self.cells@ }
    }
}

impl Grid {
    /// The offsets are the running sum of the heights, and the cell list is
    /// exactly as long as every reel put together.
    pub closed spec fn inv(&self) -> bool {
        &&& self.offsets@.len() == self.heights@.len()
        &&& forall|i: int|
            0 <= i < self.heights@.len() ==> #[trigger] self.offsets@[i] == sum_prefix(
                self.heights@,
                i,
            )
        &&& self.cells@.len() == sum_prefix(self.heights@, self.heights@.len() as int)
    }

    pub proof fn lemma_wf(&self)
        requires
            self.inv(),
        ensures
            self@.wf(),
    {
    }

    /// Build from column-major columns. Columns may differ in length.
    pub fn from_columns(columns: &[Vec<usize>]) -> (grid: Self)
        requires
            sum_prefix(columns@.map_values(|c: Vec<usize>| c@.len() as usize), columns@.len() as int)
                <= usize::MAX,
        ensures
            grid.inv(),
            grid@.heights == columns@.map_values(|c: Vec<usize>| c@.len() as usize),
            grid@.cells == columns@.map_values(|c: Vec<usize>| c@).flatten(),
    {
        let ghost hs = columns@.map_values(|c: Vec<usize>| c@.len() as usize);
        let mut heights: Vec<usize> = Vec::new();
        let mut offsets: Vec<usize> = Vec::new();
        let mut cells: Vec<usize> = Vec::new();
        let mut running: usize = 0;
        let mut i: usize = 0;
        while i < columns.len()
            invariant
                0 <= i <= columns@.len(),
                hs == columns@.map_values(|c: Vec<usize>| c@.len() as usize),
                sum_prefix(hs, columns@.len() as int) <= usize::MAX,
                heights@ == hs.subrange(0, i as int),
                offsets@.len() == i,
                forall|k: int| 0 <= k < i ==> #[trigger] offsets@[k] == sum_prefix(hs, k),
                running == sum_prefix(hs, i as int),
                cells@.len() == running,
                cells@ == columns@.subrange(0, i as int).map_values(|c: Vec<usize>| c@).flatten(),
            decreases columns@.len() - i,
        {
            proof {
                lemma_sum_prefix_monotone(hs, i + 1, columns@.len() as int);
            }
            let column = &columns[i];
            heights.push(column.len());
            offsets.push(running);
            let mut j: usize = 0;
            let ghost before = cells@;
            while j < column.len()
                invariant
                    0 <= j <= column@.len(),
                    cells@ == before + column@.subrange(0, j as int),
                    before.len() == running,
                    running + column@.len() <= usize::MAX,
                decreases column@.len() - j,
            {
                cells.push(column[j]);
                j = j + 1;
                assert(cells@ == before + column@.subrange(0, j as int));
            }
            proof {
                lemma_sum_prefix_monotone(hs, i + 1, columns@.len() as int);
                assert(hs[i as int] == column@.len());
            }
            running = running + column.len();
            proof {
                let pre = columns@.subrange(0, i as int);
                let post = columns@.subrange(0, i + 1);
                assert(post == pre.push(columns@[i as int]));
                assert(post.map_values(|c: Vec<usize>| c@) == pre.map_values(|c: Vec<usize>| c@).push(
                    columns@[i as int]@,
                ));
                pre.map_values(|c: Vec<usize>| c@).lemma_flatten_push(columns@[i as int]@);
                assert(column@.subrange(0, j as int) == column@);
            }
            i = i + 1;
            assert(heights@ == hs.subrange(0, i as int));
        }
        assert(columns@.subrange(0, i as int) == columns@);
        assert(heights@ == hs);
        Grid { heights, offsets, cells }
    }

    pub proof fn lemma_cells_fit(&self)
        ensures
            self@.cells.len() <= usize::MAX,
    {
        assert(self.cells@.len() == self.cells.len());
    }

    pub fn reel_count(&self) -> (n: usize)
        ensures
            n == self@.heights.len(),
    {
        self.heights.len()
    }

    /// Rows on one reel; zero past the last reel.
    pub fn rows_on(&self, reel: usize) -> (n: usize)
        ensures
            n == self@.rows_on(reel as int),
    {
        if reel < self.heights.len() {
            self.heights[reel]
        } else {
            0
        }
    }

    pub fn cell_count(&self) -> (n: usize)
        ensures
            n == self@.cells.len(),
    {
        self.cells.len()
    }

    /// Flat index of a cell. The only place this arithmetic lives.
    pub fn index(&self, reel: usize, row: usize) -> (i: usize)
        requires
            self.inv(),
            self@.offset(reel as int) + row <= usize::MAX,
        ensures
            i == self@.index(reel as int, row as int),
    {
        let base = if reel < self.offsets.len() {
            self.offsets[reel]
        } else {
            0
        };
        base + row
    }

    pub fn at(&self, reel: usize, row: usize) -> (symbol: usize)
        requires
            self.inv(),
            self@.valid_cell(reel as int, row as int),
        ensures
            symbol == self@.at(reel as int, row as int),
    {
        proof {
            lemma_index_in_bounds(self@, reel as int, row as int);
            assert(self.cells@.len() == self.cells.len());
        }
        let i = self.index(reel, row);
        self.cells[i]
    }

    /// The symbol in a cell, by flat index.
    pub fn cells_at(&self, index: usize) -> (symbol: usize)
        requires
            index < self@.cells.len(),
        ensures
            symbol == self@.cells[index as int],
    {
        self.cells[index]
    }

    pub fn set(&mut self, reel: usize, row: usize, symbol: usize)
        requires
            old(self).inv(),
            old(self)@.valid_cell(reel as int, row as int),
        ensures
            final(self).inv(),
            final(self)@.heights == old(self)@.heights,
            final(self)@.cells == old(self)@.cells.update(old(self)@.index(reel as int, row as int), symbol),
    {
        proof {
            lemma_index_in_bounds(self@, reel as int, row as int);
            assert(self.cells@.len() == self.cells.len());
        }
        let index = self.index(reel, row);
        self.cells.set(index, symbol);
    }
}

/// How many entries of `s` equal `x`.
pub open spec fn count_in(s: Seq<usize>, x: usize) -> nat
    decreases s.len(),
{
    if s.len() == 0 {
        0
    } else {
        count_in(s.drop_last(), x) + if s.last() == x { 1nat } else { 0 }
    }
}

impl Clone for Grid {
    fn clone(&self) -> (copy: Self)
        ensures
            copy@ == self@,
            copy.inv() == self.inv(),
    {
        Grid {
            heights: crate::data::copy_strip(&self.heights),
            offsets: crate::data::copy_strip(&self.offsets),
            cells: crate::data::copy_strip(&self.cells),
        }
    }
}

impl Grid {
    /// Every cell as `(reel, row, symbol)`, reel by reel, top to bottom.
    pub fn cells(&self) -> (all: Vec<(usize, usize, usize)>)
        requires
            self.inv(),
        ensures
            all@.len() == self@.cells.len(),
            forall|i: int|
                0 <= i < all@.len() ==> {
                    let (reel, row, symbol) = #[trigger] all@[i];
                    &&& self@.valid_cell(reel as int, row as int)
                    &&& self@.index(reel as int, row as int) == i
                    &&& symbol == self@.cells[i]
                },
    {
        let mut all: Vec<(usize, usize, usize)> = Vec::new();
        let mut reel: usize = 0;
        proof {
            self.lemma_wf();
        }
        while reel < self.heights.len()
            invariant
                self.inv(),
                self@.wf(),
                0 <= reel <= self@.heights.len(),
                all@.len() == sum_prefix(self@.heights, reel as int),
                forall|i: int|
                    0 <= i < all@.len() ==> {
                        let (r, c, symbol) = #[trigger] all@[i];
                        &&& self@.valid_cell(r as int, c as int)
                        &&& self@.index(r as int, c as int) == i
                        &&& symbol == self@.cells[i]
                    },
            decreases self@.heights.len() - reel,
        {
            let rows = self.heights[reel];
            let mut row: usize = 0;
            while row < rows
                invariant
                    self.inv(),
                    self@.wf(),
                    0 <= reel < self@.heights.len(),
                    rows == self@.heights[reel as int],
                    0 <= row <= rows,
                    all@.len() == sum_prefix(self@.heights, reel as int) + row,
                    forall|i: int|
                        0 <= i < all@.len() ==> {
                            let (r, c, symbol) = #[trigger] all@[i];
                            &&& self@.valid_cell(r as int, c as int)
                            &&& self@.index(r as int, c as int) == i
                            &&& symbol == self@.cells[i]
                        },
                decreases rows - row,
            {
                proof {
                    lemma_index_in_bounds(self@, reel as int, row as int);
                }
                let symbol = self.at(reel, row);
                all.push((reel, row, symbol));
                row = row + 1;
            }
            reel = reel + 1;
        }
        all
    }

    /// How many cells across the whole grid hold `symbol`.
    pub fn count_of(&self, symbol: usize) -> (n: usize)
        ensures
            n == count_in(self@.cells, symbol),
    {
        let mut n: usize = 0;
        let mut i: usize = 0;
        while i < self.cells.len()
            invariant
                0 <= i <= self@.cells.len(),
                n == count_in(self@.cells.subrange(0, i as int), symbol),
                n <= i,
            decreases self@.cells.len() - i,
        {
            proof {
                let next = self@.cells.subrange(0, i + 1);
                assert(next.drop_last() == self@.cells.subrange(0, i as int));
            }
            if self.cells[i] == symbol {
                n = n + 1;
            }
            i = i + 1;
        }
        assert(self@.cells.subrange(0, i as int) == self@.cells);
        n
    }

    /// Whether any cell of a reel holds `symbol`.
    pub fn reel_contains(&self, reel: usize, symbol: usize) -> (r: bool)
        requires
            self.inv(),
        ensures
            r == exists|row: int| 0 <= row < self@.rows_on(reel as int) && self@.at(reel as int, row) == symbol,
    {
        let rows = self.rows_on(reel);
        let mut row: usize = 0;
        while row < rows
            invariant
                self.inv(),
                rows == self@.rows_on(reel as int),
                0 <= row <= rows,
                forall|j: int| 0 <= j < row ==> self@.at(reel as int, j) != symbol,
            decreases rows - row,
        {
            if self.at(reel, row) == symbol {
                return true;
            }
            row = row + 1;
        }
        false
    }

    /// Ways through the grid: the product of the reel heights.
    pub fn ways(&self) -> (n: usize)
        requires
            forall|k: int| 0 <= k <= self@.heights.len() ==> #[trigger] product(self@.heights.subrange(0, k)) <= usize::MAX,
        ensures
            n == product(self@.heights),
    {
        let mut n: usize = 1;
        let mut i: usize = 0;
        while i < self.heights.len()
            invariant
                0 <= i <= self@.heights.len(),
                forall|k: int| 0 <= k <= self@.heights.len() ==> #[trigger] product(self@.heights.subrange(0, k)) <= usize::MAX,
                n == product(self@.heights.subrange(0, i as int)),
            decreases self@.heights.len() - i,
        {
            proof {
                let next = self@.heights.subrange(0, i + 1);
                assert(next.drop_last() == self@.heights.subrange(0, i as int));
                assert(product(next) <= usize::MAX);
            }
            n = n * self.heights[i];
            i = i + 1;
        }
        assert(self@.heights.subrange(0, i as int) == self@.heights);
        n
    }
}

/// The window a set of strips shows for these stops and heights: reel `r`
/// shows `heights[r]` symbols (the cabinet's row count past the end of
/// `heights`) read down its strip from `stops[r]` (0 past the end of
/// `stops`), wrapping at the end.
pub open spec fn column_on(strip: Seq<usize>, stop: int, rows: int) -> Seq<usize> {
    Seq::new(rows as nat, |row: int| strip[(stop % (strip.len() as int) + row) % (strip.len() as int)])
}

pub open spec fn reel_rows(row_count: usize, heights: Seq<usize>, reel: int) -> usize {
    if reel < heights.len() {
        heights[reel]
    } else {
        row_count
    }
}

pub open spec fn reel_stop(stops: Seq<usize>, reel: int) -> usize {
    if reel < stops.len() {
        stops[reel]
    } else {
        0
    }
}

pub open spec fn columns_on(row_count: usize, strips: Seq<Seq<usize>>, stops: Seq<usize>, heights: Seq<usize>) -> Seq<Seq<usize>> {
    Seq::new(
        strips.len(),
        |r: int| column_on(strips[r], reel_stop(stops, r) as int, reel_rows(row_count, heights, r) as int),
    )
}

pub open spec fn spec_grid_on(row_count: usize, strips: Seq<Seq<usize>>, stops: Seq<usize>, heights: Seq<usize>) -> GridView {
    let columns = columns_on(row_count, strips, stops, heights);
    GridView {
        heights: columns.map_values(|c: Seq<usize>| c.len() as usize),
        cells: columns.flatten(),
    }
}

/// Every strip has something on it, and the window the strips show fits in
/// memory.
pub open spec fn window_fits(row_count: usize, strips: Seq<Seq<usize>>, heights: Seq<usize>) -> bool {
    &&& forall|r: int| 0 <= r < strips.len() ==> #[trigger] strips[r].len() > 0
    &&& forall|r: int| 0 <= r < strips.len() ==> #[trigger] strips[r].len() + reel_rows(row_count, heights, r) <= usize::MAX
    &&& sum_prefix(Seq::new(strips.len(), |r: int| reel_rows(row_count, heights, r)), strips.len() as int) <= usize::MAX
}

pub proof fn lemma_sum_prefix_ext(a: Seq<usize>, b: Seq<usize>, k: int)
    requires
        0 <= k <= a.len(),
        k <= b.len(),
        forall|i: int| 0 <= i < k ==> a[i] == b[i],
    ensures
        sum_prefix(a, k) == sum_prefix(b, k),
    decreases k,
{
    if k > 0 {
        lemma_sum_prefix_ext(a, b, k - 1);
    }
}

/// The window read out of a given set of strips.
pub fn grid_on(data: &GameData, reels: &Vec<Vec<usize>>, stops: &[usize], heights: &[usize]) -> (grid: Grid)
    requires
        window_fits(data.config.row_count, strips_view(reels@), heights@),
    ensures
        grid.inv(),
        grid@ == spec_grid_on(data.config.row_count, strips_view(reels@), stops@, heights@),
{
    let ghost strips = strips_view(reels@);
    let ghost want = columns_on(data.config.row_count, strips, stops@, heights@);
    let mut columns: Vec<Vec<usize>> = Vec::new();
    let mut reel: usize = 0;
    while reel < reels.len()
        invariant
            strips == strips_view(reels@),
            want == columns_on(data.config.row_count, strips, stops@, heights@),
            window_fits(data.config.row_count, strips, heights@),
            0 <= reel <= reels@.len(),
            strips_view(columns@) == want.subrange(0, reel as int),
        decreases reels@.len() - reel,
    {
        let strip = &reels[reel];
        let len = strip.len();
        assert(strips[reel as int].len() > 0);
        let stop = (if reel < stops.len() { stops[reel] } else { 0 }) % len;
        let rows = if reel < heights.len() {
            heights[reel]
        } else {
            data.config.row_count
        };
        assert(strips[reel as int].len() + reel_rows(data.config.row_count, heights@, reel as int) <= usize::MAX);
        let mut column: Vec<usize> = Vec::new();
        let mut row: usize = 0;
        while row < rows
            invariant
                0 <= row <= rows,
                len == strip@.len(),
                len > 0,
                stop < len,
                len + rows <= usize::MAX,
                column@ == column_on(strip@, reel_stop(stops@, reel as int) as int, rows as int).subrange(0, row as int),
                stop as int == (reel_stop(stops@, reel as int) as int) % (len as int),
            decreases rows - row,
        {
            column.push(strip[(stop + row) % len]);
            row = row + 1;
            assert(column@ =~= column_on(strip@, reel_stop(stops@, reel as int) as int, rows as int).subrange(0, row as int));
        }
        let ghost prev = columns@;
        columns.push(column);
        proof {
            assert(column@ =~= want[reel as int]);
            assert(strips_view(columns@) =~= strips_view(prev).push(column@));
            assert(want.subrange(0, reel + 1) =~= want.subrange(0, reel as int).push(want[reel as int]));
        }
        reel = reel + 1;
    }
    proof {
        assert(want.subrange(0, reel as int) =~= want);
        let hs = columns@.map_values(|c: Vec<usize>| c@.len() as usize);
        let rows_seq = Seq::new(strips.len(), |r: int| reel_rows(data.config.row_count, heights@, r));
        assert forall|i: int| 0 <= i < strips.len() implies hs[i] == rows_seq[i] by {
            assert(columns@[i]@ == want[i]);
        }
        lemma_sum_prefix_ext(hs, rows_seq, strips.len() as int);
        assert(columns@.map_values(|c: Vec<usize>| c@) =~= want);
        assert(hs =~= want.map_values(|c: Seq<usize>| c.len() as usize));
    }
    Grid::from_columns(columns.as_slice())
}

/// `n` copies of `value`.
pub fn filled(n: usize, value: usize) -> (v: Vec<usize>)
    ensures
        v@ == Seq::new(n as nat, |i: int| value),
{
    let mut v: Vec<usize> = Vec::new();
    let mut i: usize = 0;
    while i < n
        invariant
            0 <= i <= n,
            v@ == Seq::new(i as nat, |k: int| value),
        decreases n - i,
    {
        v.push(value);
        i = i + 1;
        assert(v@ =~= Seq::new(i as nat, |k: int| value));
    }
    v
}

/// Read the visible window out of each strip at the cabinet's row count,
/// wrapping at the end.
pub fn grid_from_stops(data: &GameData, stops: &[usize]) -> (grid: Grid)
    requires
        window_fits(
            data.config.row_count,
            data.strips(),
            Seq::new(data.reels@.len(), |i: int| data.config.row_count),
        ),
    ensures
        grid.inv(),
        grid@ == spec_grid_on(
            data.config.row_count,
            data.strips(),
            stops@,
            Seq::new(data.reels@.len(), |i: int| data.config.row_count),
        ),
{
    let heights = filled(data.reels.len(), data.config.row_count);
    grid_from_stops_and_heights(data, stops, heights.as_slice())
}

/// Read the window with a given height per reel.
pub fn grid_from_stops_and_heights(data: &GameData, stops: &[usize], heights: &[usize]) -> (grid: Grid)
    requires
        window_fits(data.config.row_count, data.strips(), heights@),
    ensures
        grid.inv(),
        grid@ == spec_grid_on(data.config.row_count, data.strips(), stops@, heights@),
{
    grid_on(data, &data.reels, stops, heights)
}

/// A default, deliberately still display grid for a fresh session: every
/// reel at its first stop.
pub fn resting_grid(data: &GameData) -> (grid: Grid)
    requires
        window_fits(
            data.config.row_count,
            data.strips(),
            Seq::new(data.reels@.len(), |i: int| data.config.row_count),
        ),
    ensures
        grid.inv(),
        grid@ == spec_grid_on(
            data.config.row_count,
            data.strips(),
            Seq::new(data.reels@.len(), |i: int| 0usize),
            Seq::new(data.reels@.len(), |i: int| data.config.row_count),
        ),
{
    let stops = filled(data.reels.len(), 0);
    grid_from_stops(data, stops.as_slice())
}

/// How many heights a shifting reel can take: the range's width. `None` on
/// a fixed cabinet, where no height is drawn.
pub fn height_span(data: &GameData) -> (span: Option<usize>)
    requires
        data.config.reel_heights matches Some(h) ==> h.max - h.min < usize::MAX,
    ensures
        span == match data.config.reel_heights {
            None => None,
            Some(h) => Some(((if h.max >= h.min { h.max - h.min } else { 0 }) + 1) as usize),
        },
{
    match data.config.reel_heights {
        None => None,
        Some(range) => Some(range.max.saturating_sub(range.min) + 1),
    }
}

/// A height for every reel. `draws[r]` is the draw for reel `r`, uniform
/// below the span; a fixed cabinet ignores the draws.
pub fn pick_heights(data: &GameData, draws: &[usize]) -> (heights: Vec<usize>)
    requires
        data.config.reel_heights matches Some(h) ==> {
            &&& draws@.len() >= data.reels@.len()
            &&& forall|r: int| 0 <= r < data.reels@.len() ==> h.min + #[trigger] draws@[r] <= usize::MAX
        },
    ensures
        heights@ == match data.config.reel_heights {
            None => Seq::new(data.reels@.len(), |r: int| data.config.row_count),
            Some(h) => Seq::new(data.reels@.len(), |r: int| (h.min + draws@[r]) as usize),
        },
{
    let range = match data.config.reel_heights {
        None => {
            return filled(data.reels.len(), data.config.row_count);
        },
        Some(range) => range,
    };
    let n = data.reels.len();
    let mut heights: Vec<usize> = Vec::new();
    let mut r: usize = 0;
    while r < n
        invariant
            n == data.reels@.len(),
            data.config.reel_heights == Some(range),
            draws@.len() >= n,
            forall|k: int| 0 <= k < n ==> range.min + #[trigger] draws@[k] <= usize::MAX,
            0 <= r <= n,
            heights@ == Seq::new(r as nat, |k: int| (range.min + draws@[k]) as usize),
        decreases n - r,
    {
        heights.push(range.min + draws[r]);
        r = r + 1;
        assert(heights@ =~= Seq::new(r as nat, |k: int| (range.min + draws@[k]) as usize));
    }
    heights
}

/// The grid whose reels are `columns`, top to bottom.
pub open spec fn grid_of_columns(columns: Seq<Seq<usize>>) -> GridView {
    GridView { heights: columns.map_values(|c: Seq<usize>| c.len() as usize), cells: columns.flatten() }
}

proof fn lemma_flat_prefix_len(columns: Seq<Seq<usize>>, k: int)
    requires
        0 <= k <= columns.len(),
        forall|r: int| 0 <= r < columns.len() ==> (#[trigger] columns[r]).len() <= usize::MAX,
    ensures
        columns.subrange(0, k).flatten().len() == sum_prefix(grid_of_columns(columns).heights, k),
    decreases k,
{
    if k > 0 {
        lemma_flat_prefix_len(columns, k - 1);
        let a = columns.subrange(0, k - 1);
        let b = seq![columns[k - 1]];
        assert(columns.subrange(0, k) =~= a + b);
        lemma_flatten_concat(a, b);
        b.lemma_flatten_one_element();
    }
}

/// A cell of the grid built from columns is the cell of its column.
pub proof fn lemma_columns_at(columns: Seq<Seq<usize>>, r: int, i: int)
    requires
        0 <= r < columns.len(),
        0 <= i < columns[r].len(),
        forall|k: int| 0 <= k < columns.len() ==> (#[trigger] columns[k]).len() <= usize::MAX,
    ensures
        grid_of_columns(columns).rows_on(r) == columns[r].len(),
        grid_of_columns(columns).at(r, i) == columns[r][i],
{
    let g = grid_of_columns(columns);
    lemma_flat_prefix_len(columns, r);
    let a = columns.subrange(0, r);
    let b = seq![columns[r]];
    let c = columns.subrange(r + 1, columns.len() as int);
    assert(columns =~= a + (b + c));
    lemma_flatten_concat(a, b + c);
    lemma_flatten_concat(b, c);
    b.lemma_flatten_one_element();
    assert(columns.flatten() == a.flatten() + (columns[r] + c.flatten()));
    assert(g.index(r, i) == a.flatten().len() + i);
}

} // verus!
