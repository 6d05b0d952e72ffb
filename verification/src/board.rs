//! Board state: a fixed `H x W` occupancy grid, stored row-major.
//!
//! The grid starts empty and is exclusively owned and mutated by the search.
//! The canonical next empty cell is the first unoccupied cell in the fixed
//! column-major scan order; anchoring every placement there collapses the
//! branching factor and makes the enumeration deterministic.

use vstd::prelude::*;

use crate::SolverError;

verus! {

/// Flat row-major index of the cell `(i, j)` on a board `w` columns wide.
pub open spec fn cell_index(c: (int, int), w: int) -> int {
    c.0 * w + c.1
}

/// Whether `(i, j)` lies on a board of `h` rows and `w` columns.
pub open spec fn cell_in_bounds(c: (int, int), h: int, w: int) -> bool {
    0 <= c.0 < h && 0 <= c.1 < w
}

/// An in-bounds cell has an in-range flat index.
pub proof fn lemma_cell_index_bounds(c: (int, int), h: int, w: int)
    requires
        cell_in_bounds(c, h, w),
    ensures
        0 <= cell_index(c, w) < h * w,
{
    assert(0 <= c.0 * w + c.1 < h * w) by (nonlinear_arith)
        requires
            0 <= c.0 < h,
            0 <= c.1 < w,
    ;
}

/// Distinct in-bounds cells have distinct flat indices.
pub proof fn lemma_cell_index_injective(c1: (int, int), c2: (int, int), h: int, w: int)
    requires
        cell_in_bounds(c1, h, w),
        cell_in_bounds(c2, h, w),
        c1 != c2,
    ensures
        cell_index(c1, w) != cell_index(c2, w),
{
    assert(c1.0 * w + c1.1 != c2.0 * w + c2.1) by (nonlinear_arith)
        requires
            0 <= c1.0,
            0 <= c1.1 < w,
            0 <= c2.0,
            0 <= c2.1 < w,
            c1 != c2,
    ;
}

/// How many cells of the grid are occupied.
pub open spec fn count_occupied(cells: Seq<bool>) -> nat
    decreases cells.len(),
{
    if cells.len() == 0 {
        0
    } else {
        count_occupied(cells.drop_last()) + if cells.last() {
            1nat
        } else {
            0nat
        }
    }
}

/// Whether every cell of the grid is occupied.
pub open spec fn board_full(cells: Seq<bool>) -> bool {
    forall|k: int| 0 <= k < cells.len() ==> cells[k]
}

/// The occupancy count never exceeds the number of cells.
pub proof fn lemma_count_le_len(cells: Seq<bool>)
    ensures
        count_occupied(cells) <= cells.len(),
    decreases cells.len(),
{
    if cells.len() > 0 {
        lemma_count_le_len(cells.drop_last());
    }
}

/// A grid whose occupancy count equals its size is full.
pub proof fn lemma_count_full(cells: Seq<bool>)
    requires
        count_occupied(cells) == cells.len(),
    ensures
        board_full(cells),
    decreases cells.len(),
{
    if cells.len() > 0 {
        lemma_count_le_len(cells.drop_last());
        lemma_count_full(cells.drop_last());
        assert forall|k: int| 0 <= k < cells.len() implies cells[k] by {
            if k < cells.len() - 1 {
                assert(cells.drop_last()[k]);
            }
        }
    }
}

/// A full grid's occupancy count equals its size.
pub proof fn lemma_full_count(cells: Seq<bool>)
    requires
        board_full(cells),
    ensures
        count_occupied(cells) == cells.len(),
    decreases cells.len(),
{
    if cells.len() > 0 {
        assert(forall|k: int| 0 <= k < cells.drop_last().len() ==> cells.drop_last()[k]);
        lemma_full_count(cells.drop_last());
        assert(cells.last());
    }
}

/// A grid with no occupied cell has occupancy count zero.
pub proof fn lemma_count_all_empty(cells: Seq<bool>)
    requires
        forall|k: int| 0 <= k < cells.len() ==> !cells[k],
    ensures
        count_occupied(cells) == 0,
    decreases cells.len(),
{
    if cells.len() > 0 {
        assert(forall|k: int| 0 <= k < cells.drop_last().len() ==> !cells.drop_last()[k]);
        lemma_count_all_empty(cells.drop_last());
        assert(!cells.last());
    }
}

/// Occupying a previously empty cell raises the count by exactly one.
pub proof fn lemma_count_update_true(cells: Seq<bool>, k: int)
    requires
        0 <= k < cells.len(),
        !cells[k],
    ensures
        count_occupied(cells.update(k, true)) == count_occupied(cells) + 1,
    decreases cells.len(),
{
    let updated = cells.update(k, true);
    if k == cells.len() - 1 {
        assert(updated.drop_last() =~= cells.drop_last());
    } else {
        assert(updated.drop_last() =~= cells.drop_last().update(k, true));
        lemma_count_update_true(cells.drop_last(), k);
        assert(updated.last() == cells.last());
    }
}

/// The first unoccupied cell at or after `(i, j)` in the canonical
/// column-major scan order: columns ascending, rows ascending within each
/// column.
pub open spec fn first_empty_from(cells: Seq<bool>, h: int, w: int, i: int, j: int) -> Option<
    (int, int),
>
    decreases w - j, h - i,
{
    if i < 0 || j < 0 || j >= w {
        None
    } else if i >= h {
        first_empty_from(cells, h, w, 0, j + 1)
    } else if !cells[cell_index((i, j), w)] {
        Some((i, j))
    } else {
        first_empty_from(cells, h, w, i + 1, j)
    }
}

/// The canonical anchor: the first empty cell in the fixed column-major
/// scan order, if any.
pub open spec fn anchor_of(cells: Seq<bool>, h: int, w: int) -> Option<(int, int)> {
    first_empty_from(cells, h, w, 0, 0)
}

/// A scan that finds nothing saw only occupied cells: every in-bounds cell
/// at or after `(i, j)` in column-major order is occupied.
pub proof fn lemma_first_empty_none(cells: Seq<bool>, h: int, w: int, i: int, j: int)
    requires
        cells.len() == h * w,
        0 <= i <= h,
        0 <= j <= w,
        first_empty_from(cells, h, w, i, j) is None,
    ensures
        forall|i2: int, j2: int|
            0 <= i2 < h && 0 <= j2 < w && (j2 > j || (j2 == j && i2 >= i)) ==> cells[cell_index(
                (i2, j2),
                w,
            )],
    decreases w - j, h - i,
{
    if j >= w {
    } else if i >= h {
        lemma_first_empty_none(cells, h, w, 0, j + 1);
    } else {
        lemma_first_empty_none(cells, h, w, i + 1, j);
    }
}

/// The coordinates a flat row-major index stands for.
pub proof fn lemma_flat_to_coords(m: int, h: int, w: int)
    requires
        0 <= m < h * w,
        0 < w,
    ensures
        cell_in_bounds((m / w, m % w), h, w),
        m == cell_index((m / w, m % w), w),
{
    vstd::arithmetic::div_mod::lemma_mod_division_less_than_divisor(m, w);
    vstd::arithmetic::div_mod::lemma_div_pos_is_pos(m, w);
    vstd::arithmetic::div_mod::lemma_fundamental_div_mod(m, w);
    let q = m / w;
    let r = m % w;
    assert(q < h) by (nonlinear_arith)
        requires
            m == w * q + r,
            0 <= r < w,
            0 <= q,
            m < h * w,
    ;
}

/// A grid whose canonical scan finds no empty cell is full.
pub proof fn lemma_no_anchor_full(cells: Seq<bool>, h: int, w: int)
    requires
        cells.len() == h * w,
        0 <= h,
        0 <= w,
        anchor_of(cells, h, w) is None,
    ensures
        board_full(cells),
{
    lemma_first_empty_none(cells, h, w, 0, 0);
    assert forall|m: int| 0 <= m < cells.len() implies cells[m] by {
        assert(w > 0) by (nonlinear_arith)
            requires
                0 <= w,
                0 < h * w,
        ;
        lemma_flat_to_coords(m, h, w);
        assert(cells[cell_index((m / w, m % w), w)]);
    }
}

/// The rectangular occupancy grid with its dimensions.
pub struct Board {
    h: usize,
    w: usize,
    cells: Vec<bool>,
}

/// The mathematical value of a board: its dimensions and its row-major
/// occupancy grid.
pub ghost struct BoardView {
    pub h: int,
    pub w: int,
    pub cells: Seq<bool>,
}

impl View for Board {
    type V = BoardView;

    closed spec fn view(&self) -> BoardView {
        BoardView { h: self.h as int, w: self.w as int, cells: self.cells@ }
    }
}

impl Board {
    /// The board invariant: the grid has one cell per coordinate pair, and
    /// the cell total is divisible by four, so a perfect clear is reachable
    /// in exactly `h * w / 4` placements.
    pub open spec fn wf(&self) -> bool {
        &&& 0 <= self@.h <= usize::MAX
        &&& 0 <= self@.w <= usize::MAX
        &&& self@.cells.len() == self@.h * self@.w
        &&& (self@.h * self@.w) % 4 == 0
    }

    /// Builds an empty board. Dimensions whose product is not divisible by
    /// four are rejected as a configuration error, before any search.
    pub fn new(h: usize, w: usize) -> (r: Result<Board, SolverError>)
        requires
            h * w <= usize::MAX,
        ensures
            match r {
                Ok(b) => {
                    &&& b.wf()
                    &&& b@.h == h
                    &&& b@.w == w
                    &&& b@.cells =~= Seq::new((h * w) as nat, |k: int| false)
                    &&& (h * w) as int % 4 == 0
                },
                Err(e) => e == SolverError::Configuration && (h * w) as int % 4 != 0,
            },
    {
        let area = h * w;
        if area % 4 != 0 {
            return Err(SolverError::Configuration);
        }
        let cells = vec![false; area];
        Ok(Board { h, w, cells })
    }

    /// The number of rows.
    pub fn height(&self) -> (r: usize)
        ensures
            r == self@.h,
    {
        self.h
    }

    /// The number of columns.
    pub fn width(&self) -> (r: usize)
        ensures
            r == self@.w,
    {
        self.w
    }

    /// Whether the cell at row `i`, column `j` is occupied.
    pub fn occupied(&self, i: usize, j: usize) -> (r: bool)
        requires
            self.wf(),
            i < self@.h,
            j < self@.w,
        ensures
            r == self@.cells[cell_index((i as int, j as int), self@.w)],
    {
        let idx = self.cell_pos(i as i128, j as i128);
        self.cells[idx]
    }

    /// The flat index of the in-bounds cell `(ci, cj)`.
    pub(crate) fn cell_pos(&self, ci: i128, cj: i128) -> (idx: usize)
        requires
            self.wf(),
            0 <= ci < self@.h,
            0 <= cj < self@.w,
        ensures
            idx == cell_index((ci as int, cj as int), self@.w),
            idx < self@.cells.len(),
    {
        let n = self.cells.len();
        proof {
            lemma_cell_index_bounds((ci as int, cj as int), self@.h, self@.w);
            assert(ci as int * self@.w <= cell_index((ci as int, cj as int), self@.w));
        }
        (ci as usize) * self.w + (cj as usize)
    }

    /// Marks or unmarks one in-bounds cell.
    pub(crate) fn set_cell(&mut self, ci: i128, cj: i128, val: bool)
        requires
            old(self).wf(),
            0 <= ci < old(self)@.h,
            0 <= cj < old(self)@.w,
        ensures
            final(self)@.h == old(self)@.h,
            final(self)@.w == old(self)@.w,
            final(self)@.cells == old(self)@.cells.update(
                cell_index((ci as int, cj as int), old(self)@.w),
                val,
            ),
            final(self).wf(),
    {
        let idx = self.cell_pos(ci, cj);
        self.cells[idx] = val;
    }

    /// True iff every cell is occupied.
    #[verifier::loop_isolation(false)]
    pub fn is_full(&self) -> (r: bool)
        requires
            self.wf(),
        ensures
            r == board_full(self@.cells),
    {
        let n = self.cells.len();
        let mut k: usize = 0;
        while k < n
            invariant
                k <= n,
                forall|m: int| 0 <= m < k ==> self@.cells[m],
            decreases n - k,
        {
            if !self.cells[k] {
                return false;
            }
            k += 1;
        }
        true
    }

    /// Scans the grid in the fixed canonical column-major order (columns
    /// ascending, rows ascending within a column) and returns the first
    /// unoccupied cell, or nothing if the board is full.
    #[verifier::loop_isolation(false)]
    pub fn next_canonical_empty_cell(&self) -> (r: Option<(usize, usize)>)
        requires
            self.wf(),
        ensures
            match r {
                None => anchor_of(self@.cells, self@.h, self@.w) is None,
                Some(a) => anchor_of(self@.cells, self@.h, self@.w) == Some(
                    (a.0 as int, a.1 as int),
                ),
            },
    {
        let h = self.height();
        let w = self.width();
        let mut j: usize = 0;
        while j < w
            invariant
                j <= w,
                anchor_of(self@.cells, self@.h, self@.w) == first_empty_from(
                    self@.cells,
                    self@.h,
                    self@.w,
                    0,
                    j as int,
                ),
            decreases w - j,
        {
            let mut i: usize = 0;
            while i < h
                invariant
                    i <= h,
                    j < w,
                    anchor_of(self@.cells, self@.h, self@.w) == first_empty_from(
                        self@.cells,
                        self@.h,
                        self@.w,
                        i as int,
                        j as int,
                    ),
                decreases h - i,
            {
                if !self.occupied(i, j) {
                    return Some((i, j));
                }
                i += 1;
            }
            j += 1;
        }
        None
    }
}

} // verus!
