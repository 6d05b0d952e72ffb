//! Placements and the move generator.
//!
//! A placement anchors a catalog variant at a board cell; its footprint is
//! the anchor plus the variant's three offsets. A candidate is legal iff all
//! four footprint cells are in bounds and unoccupied. The generator offers
//! the legal candidates at the canonical anchor, in catalog order.

use vstd::prelude::*;

use crate::board::{
    anchor_of, cell_in_bounds, cell_index, count_occupied, lemma_cell_index_bounds,
    lemma_cell_index_injective, lemma_count_update_true, Board,
};
use crate::catalog::{footprint_cell_spec, variant_wf, Catalog, PieceVariant};

verus! {

/// A single move: a catalog variant anchored at a board cell.
#[derive(Clone, Copy, PartialEq, Eq, Structural, Debug)]
pub struct Placement {
    /// Row of the anchor cell.
    pub row: usize,
    /// Column of the anchor cell.
    pub col: usize,
    /// Index of the placed variant in the catalog.
    pub piece: usize,
}

/// Whether all four footprint cells of `v` anchored at `(ai, aj)` lie on the
/// board.
pub open spec fn placement_in_bounds(h: int, w: int, v: PieceVariant, ai: int, aj: int) -> bool {
    forall|k: int| 0 <= k < 4 ==> cell_in_bounds(#[trigger] footprint_cell_spec(v, ai, aj, k), h, w)
}

/// Whether placing `v` at `(ai, aj)` is legal on the given grid: every
/// footprint cell in bounds and currently unoccupied.
pub open spec fn placement_ok(
    cells: Seq<bool>,
    h: int,
    w: int,
    v: PieceVariant,
    ai: int,
    aj: int,
) -> bool {
    &&& placement_in_bounds(h, w, v, ai, aj)
    &&& forall|k: int|
        0 <= k < 4 ==> !cells[cell_index(#[trigger] footprint_cell_spec(v, ai, aj, k), w)]
}

/// The grid after marking the four footprint cells of `v` at `(ai, aj)`.
pub open spec fn place_cells(cells: Seq<bool>, w: int, v: PieceVariant, ai: int, aj: int) -> Seq<
    bool,
> {
    cells.update(cell_index(footprint_cell_spec(v, ai, aj, 0), w), true).update(
        cell_index(footprint_cell_spec(v, ai, aj, 1), w),
        true,
    ).update(cell_index(footprint_cell_spec(v, ai, aj, 2), w), true).update(
        cell_index(footprint_cell_spec(v, ai, aj, 3), w),
        true,
    )
}

/// The grid after unmarking the four footprint cells of `v` at `(ai, aj)`.
pub open spec fn unplace_cells(cells: Seq<bool>, w: int, v: PieceVariant, ai: int, aj: int) -> Seq<
    bool,
> {
    cells.update(cell_index(footprint_cell_spec(v, ai, aj, 0), w), false).update(
        cell_index(footprint_cell_spec(v, ai, aj, 1), w),
        false,
    ).update(cell_index(footprint_cell_spec(v, ai, aj, 2), w), false).update(
        cell_index(footprint_cell_spec(v, ai, aj, 3), w),
        false,
    )
}

/// Placing keeps the grid size.
pub proof fn lemma_place_len(cells: Seq<bool>, h: int, w: int, v: PieceVariant, ai: int, aj: int)
    requires
        cells.len() == h * w,
        placement_in_bounds(h, w, v, ai, aj),
    ensures
        place_cells(cells, w, v, ai, aj).len() == cells.len(),
{
    assert forall|k: int| 0 <= k < 4 implies 0 <= cell_index(
        #[trigger] footprint_cell_spec(v, ai, aj, k),
        w,
    ) < cells.len() by {
        lemma_cell_index_bounds(footprint_cell_spec(v, ai, aj, k), h, w);
    }
}

/// A legal placement of a well-formed variant occupies exactly four fresh
/// cells: the occupancy count rises by four.
pub proof fn lemma_place_count(
    cells: Seq<bool>,
    h: int,
    w: int,
    v: PieceVariant,
    ai: int,
    aj: int,
)
    requires
        variant_wf(v),
        cells.len() == h * w,
        placement_ok(cells, h, w, v, ai, aj),
    ensures
        count_occupied(place_cells(cells, w, v, ai, aj)) == count_occupied(cells) + 4,
{
    let i0 = cell_index(footprint_cell_spec(v, ai, aj, 0), w);
    let i1 = cell_index(footprint_cell_spec(v, ai, aj, 1), w);
    let i2 = cell_index(footprint_cell_spec(v, ai, aj, 2), w);
    let i3 = cell_index(footprint_cell_spec(v, ai, aj, 3), w);
    assert forall|k1: int, k2: int|
        0 <= k1 < 4 && 0 <= k2 < 4 && k1 != k2 implies cell_index(
        #[trigger] footprint_cell_spec(v, ai, aj, k1),
        w,
    ) != cell_index(#[trigger] footprint_cell_spec(v, ai, aj, k2), w) by {
        crate::catalog::lemma_variant_cells_distinct(v, ai, aj, k1, k2);
        lemma_cell_index_injective(
            footprint_cell_spec(v, ai, aj, k1),
            footprint_cell_spec(v, ai, aj, k2),
            h,
            w,
        );
    }
    assert forall|k: int| 0 <= k < 4 implies 0 <= cell_index(
        #[trigger] footprint_cell_spec(v, ai, aj, k),
        w,
    ) < cells.len() by {
        lemma_cell_index_bounds(footprint_cell_spec(v, ai, aj, k), h, w);
    }
    let s0 = cells.update(i0, true);
    let s1 = s0.update(i1, true);
    let s2 = s1.update(i2, true);
    lemma_count_update_true(cells, i0);
    lemma_count_update_true(s0, i1);
    lemma_count_update_true(s1, i2);
    lemma_count_update_true(s2, i3);
}

/// Reverting a legal placement restores the grid exactly: the four cells
/// were unoccupied before, and nothing else was touched.
pub proof fn lemma_unplace_place(
    cells: Seq<bool>,
    h: int,
    w: int,
    v: PieceVariant,
    ai: int,
    aj: int,
)
    requires
        cells.len() == h * w,
        placement_ok(cells, h, w, v, ai, aj),
    ensures
        unplace_cells(place_cells(cells, w, v, ai, aj), w, v, ai, aj) == cells,
{
    assert forall|k: int| 0 <= k < 4 implies 0 <= cell_index(
        #[trigger] footprint_cell_spec(v, ai, aj, k),
        w,
    ) < cells.len() by {
        lemma_cell_index_bounds(footprint_cell_spec(v, ai, aj, k), h, w);
    }
    assert(unplace_cells(place_cells(cells, w, v, ai, aj), w, v, ai, aj) =~= cells);
}

/// The k-th footprint cell of `v` anchored at `(ai, aj)`, computed in a
/// width that cannot overflow.
pub(crate) fn footprint_cell(v: &PieceVariant, ai: usize, aj: usize, k: usize) -> (c: (i128, i128))
    requires
        k < 4,
    ensures
        (c.0 as int, c.1 as int) == footprint_cell_spec(*v, ai as int, aj as int, k as int),
{
    if k == 0 {
        (ai as i128, aj as i128)
    } else if k == 1 {
        (ai as i128 + v.offsets.0.0 as i128, aj as i128 + v.offsets.0.1 as i128)
    } else if k == 2 {
        (ai as i128 + v.offsets.1.0 as i128, aj as i128 + v.offsets.1.1 as i128)
    } else {
        (ai as i128 + v.offsets.2.0 as i128, aj as i128 + v.offsets.2.1 as i128)
    }
}

/// Whether placing variant `v` anchored at `(ai, aj)` is legal on this
/// board: all four footprint cells in bounds and unoccupied.
#[verifier::loop_isolation(false)]
pub fn is_legal(board: &Board, v: &PieceVariant, ai: usize, aj: usize) -> (r: bool)
    requires
        board.wf(),
    ensures
        r == placement_ok(board@.cells, board@.h, board@.w, *v, ai as int, aj as int),
{
    let h = board.height();
    let w = board.width();
    let mut k: usize = 0;
    while k < 4
        invariant
            k <= 4,
            forall|m: int|
                0 <= m < k ==> cell_in_bounds(
                    #[trigger] footprint_cell_spec(*v, ai as int, aj as int, m),
                    board@.h,
                    board@.w,
                ) && !board@.cells[cell_index(footprint_cell_spec(*v, ai as int, aj as int, m), board@.w)],
        decreases 4 - k,
    {
        let c = footprint_cell(v, ai, aj, k);
        if c.0 < 0 || c.0 >= h as i128 || c.1 < 0 || c.1 >= w as i128 {
            return false;
        }
        if self_occupied(board, c.0, c.1) {
            return false;
        }
        k += 1;
    }
    true
}

/// Occupancy of an in-bounds cell addressed in footprint coordinates.
fn self_occupied(board: &Board, ci: i128, cj: i128) -> (r: bool)
    requires
        board.wf(),
        0 <= ci < board@.h,
        0 <= cj < board@.w,
    ensures
        r == board@.cells[cell_index((ci as int, cj as int), board@.w)],
{
    board.occupied(ci as usize, cj as usize)
}

impl Board {
    /// Marks the four footprint cells of an already-validated placement.
    /// Validity is the generator's responsibility: this layer requires it
    /// rather than re-checking.
    pub fn apply(&mut self, v: &PieceVariant, ai: usize, aj: usize)
        requires
            old(self).wf(),
            placement_ok(old(self)@.cells, old(self)@.h, old(self)@.w, *v, ai as int, aj as int),
        ensures
            final(self)@.h == old(self)@.h,
            final(self)@.w == old(self)@.w,
            final(self)@.cells == place_cells(
                old(self)@.cells,
                old(self)@.w,
                *v,
                ai as int,
                aj as int,
            ),
            final(self).wf(),
    {
        let c0 = footprint_cell(v, ai, aj, 0);
        let c1 = footprint_cell(v, ai, aj, 1);
        let c2 = footprint_cell(v, ai, aj, 2);
        let c3 = footprint_cell(v, ai, aj, 3);
        self.set_cell(c0.0, c0.1, true);
        self.set_cell(c1.0, c1.1, true);
        self.set_cell(c2.0, c2.1, true);
        self.set_cell(c3.0, c3.1, true);
    }

    /// Unmarks the four footprint cells of the placement most recently
    /// applied; strict stack discipline is the engine's responsibility.
    pub fn revert(&mut self, v: &PieceVariant, ai: usize, aj: usize)
        requires
            old(self).wf(),
            placement_in_bounds(old(self)@.h, old(self)@.w, *v, ai as int, aj as int),
        ensures
            final(self)@.h == old(self)@.h,
            final(self)@.w == old(self)@.w,
            final(self)@.cells == unplace_cells(
                old(self)@.cells,
                old(self)@.w,
                *v,
                ai as int,
                aj as int,
            ),
            final(self).wf(),
    {
        let c0 = footprint_cell(v, ai, aj, 0);
        let c1 = footprint_cell(v, ai, aj, 1);
        let c2 = footprint_cell(v, ai, aj, 2);
        let c3 = footprint_cell(v, ai, aj, 3);
        self.set_cell(c0.0, c0.1, false);
        self.set_cell(c1.0, c1.1, false);
        self.set_cell(c2.0, c2.1, false);
        self.set_cell(c3.0, c3.1, false);
    }
}

/// The legal placements at anchor `(ai, aj)` among catalog entries from
/// position `p` on, in catalog order.
pub open spec fn legal_list_from(
    cells: Seq<bool>,
    h: int,
    w: int,
    cat: Seq<PieceVariant>,
    ai: int,
    aj: int,
    p: int,
) -> Seq<Placement>
    decreases cat.len() - p,
{
    if p < 0 || p >= cat.len() {
        Seq::empty()
    } else {
        let rest = legal_list_from(cells, h, w, cat, ai, aj, p + 1);
        if placement_ok(cells, h, w, cat[p], ai, aj) {
            seq![Placement { row: ai as usize, col: aj as usize, piece: p as usize }] + rest
        } else {
            rest
        }
    }
}

/// The ordered sequence of legal next placements: empty if the board is
/// full, otherwise all legal candidates at the canonical anchor, in catalog
/// order.
pub open spec fn legal_moves_spec(
    cells: Seq<bool>,
    h: int,
    w: int,
    cat: Seq<PieceVariant>,
) -> Seq<Placement> {
    match anchor_of(cells, h, w) {
        None => Seq::empty(),
        Some(a) => legal_list_from(cells, h, w, cat, a.0, a.1, 0),
    }
}

/// Produces the legal next placements on this board, all anchored at the
/// canonical next empty cell, in catalog order. Pure: no side effects.
#[verifier::loop_isolation(false)]
pub fn legal_moves(board: &Board, catalog: &Catalog) -> (r: Vec<Placement>)
    requires
        board.wf(),
    ensures
        r@ == legal_moves_spec(board@.cells, board@.h, board@.w, catalog@),
{
    let mut r: Vec<Placement> = Vec::new();
    let anchor = match board.next_canonical_empty_cell() {
        None => {
            return r;
        },
        Some(a) => a,
    };
    let (ai, aj) = anchor;
    let n = catalog.len();
    let mut p: usize = n;
    while p > 0
        invariant
            p <= n,
            r@ == legal_list_from(board@.cells, board@.h, board@.w, catalog@, ai as int, aj as int, p as int),
        decreases p,
    {
        p -= 1;
        let v = catalog.get(p);
        if is_legal(board, v, ai, aj) {
            r.insert(0, Placement { row: ai, col: aj, piece: p });
            proof {
                assert(r@ =~= seq![
                    Placement { row: ai, col: aj, piece: p },
                ] + legal_list_from(
                    board@.cells,
                    board@.h,
                    board@.w,
                    catalog@,
                    ai as int,
                    aj as int,
                    p as int + 1,
                ));
            }
        }
    }
    r
}

} // verus!
