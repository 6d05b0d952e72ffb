//! The backtracking engine: depth-first enumeration of every perfect clear.
//!
//! Each recursion depth applies one legal candidate at the canonical anchor,
//! recurses, and unconditionally reverts, preserving board and history for
//! the sibling branches. Solutions are recorded exactly when the history
//! reaches the target move count. The contract pins the result to the
//! mathematical enumeration `solutions_from`, which fixes both the set of
//! solutions and their order, so the enumeration is deterministic.

use vstd::prelude::*;

use crate::board::{
    anchor_of, count_occupied, lemma_count_all_empty, lemma_full_count, lemma_no_anchor_full,
    Board,
};
use crate::catalog::{standard_catalog, Catalog, PieceVariant};
use crate::moves::{
    is_legal, lemma_place_count, lemma_place_len, lemma_unplace_place, place_cells, placement_ok,
};
use crate::{Solution, SolutionSet, SolverError};

verus! {

/// Every complete extension of `hist` by exactly `left` further placements,
/// searched depth-first: if no move is left, `hist` itself is the one
/// solution; otherwise each catalog variant is tried at the canonical
/// anchor, in catalog order.
pub open spec fn solutions_from(
    cells: Seq<bool>,
    h: int,
    w: int,
    cat: Seq<PieceVariant>,
    hist: Seq<usize>,
    left: nat,
) -> Seq<Seq<usize>>
    decreases left, cat.len() + 1,
{
    if left == 0 {
        seq![hist]
    } else {
        match anchor_of(cells, h, w) {
            None => Seq::empty(),
            Some(a) => solutions_between(cells, h, w, cat, hist, left, a.0, a.1, 0),
        }
    }
}

/// The solutions contributed by catalog entries at positions `p` and above,
/// each anchored at `(ai, aj)`, in catalog order.
pub open spec fn solutions_between(
    cells: Seq<bool>,
    h: int,
    w: int,
    cat: Seq<PieceVariant>,
    hist: Seq<usize>,
    left: nat,
    ai: int,
    aj: int,
    p: int,
) -> Seq<Seq<usize>>
    decreases left, cat.len() - p,
{
    if left == 0 || p < 0 || p >= cat.len() {
        Seq::empty()
    } else {
        let with_p = if placement_ok(cells, h, w, cat[p], ai, aj) {
            solutions_from(
                place_cells(cells, w, cat[p], ai, aj),
                h,
                w,
                cat,
                hist.push(p as usize),
                (left - 1) as nat,
            )
        } else {
            Seq::empty()
        };
        with_p + solutions_between(cells, h, w, cat, hist, left, ai, aj, p + 1)
    }
}

/// The ephemeral state of one enumeration: the board plus the ordered
/// history of catalog ids played so far.
pub struct SearchState {
    /// The occupancy grid being filled.
    pub board: Board,
    /// The catalog ids played so far, in play order.
    pub history: Vec<usize>,
}

impl SearchState {
    /// The search invariant: four cells occupied per move played.
    pub open spec fn wf(&self) -> bool {
        &&& self.board.wf()
        &&& count_occupied(self.board@.cells) == 4 * self.history@.len()
    }

    /// Starts a search on an empty board.
    pub fn new(board: Board) -> (st: SearchState)
        requires
            board.wf(),
            forall|k: int| 0 <= k < board@.cells.len() ==> !board@.cells[k],
        ensures
            st.wf(),
            st.board@ == board@,
            st.history@ == Seq::<usize>::empty(),
    {
        proof {
            lemma_count_all_empty(board@.cells);
        }
        let st = SearchState { board, history: Vec::new() };
        proof {
            assert(st.history@ =~= Seq::<usize>::empty());
        }
        st
    }
}

/// An element-for-element copy of the history, recorded as one solution.
fn copy_history(v: &Vec<usize>) -> (r: Solution)
    ensures
        r@ == v@,
{
    let mut r: Vec<usize> = Vec::new();
    let n = v.len();
    let mut k: usize = 0;
    while k < n
        invariant
            k <= n,
            n == v@.len(),
            r@ == v@.take(k as int),
        decreases n - k,
    {
        r.push(v[k]);
        proof {
            assert(r@ =~= v@.take(k as int + 1));
        }
        k += 1;
    }
    proof {
        assert(v@.take(n as int) =~= v@);
    }
    r
}

/// One node of the depth-first search: records the history as a solution at
/// the target depth, otherwise tries every catalog variant at the canonical
/// anchor with strict apply/recurse/revert discipline. Appends to `acc`
/// exactly the solutions of the mathematical enumeration, in its order, and
/// restores board and history on every path.
#[verifier::loop_isolation(false)]
fn search(st: &mut SearchState, catalog: &Catalog, target: usize, acc: &mut SolutionSet) -> (r:
    Result<(), SolverError>)
    requires
        catalog.wf(),
        old(st).wf(),
        old(st).board@.cells.len() == 4 * target,
        old(st).history@.len() <= target,
    ensures
        r is Ok,
        final(st).board@ == old(st).board@,
        final(st).history@ == old(st).history@,
        final(st).wf(),
        final(acc).deep_view() == old(acc).deep_view() + solutions_from(
            old(st).board@.cells,
            old(st).board@.h,
            old(st).board@.w,
            catalog@,
            old(st).history@,
            (target - old(st).history@.len()) as nat,
        ),
    decreases target - old(st).history@.len(),
{
    let ghost cells0 = st.board@.cells;
    let ghost hist0 = st.history@;
    let ghost acc0 = acc.deep_view();
    let ghost h = st.board@.h;
    let ghost w = st.board@.w;
    let ghost left = (target - st.history@.len()) as nat;

    if st.history.len() == target {
        let sol = copy_history(&st.history);
        acc.push(sol);
        proof {
            assert(sol.deep_view() =~= hist0);
            assert(acc.deep_view() =~= acc0 + solutions_from(cells0, h, w, catalog@, hist0, 0));
        }
        return Ok(());
    }

    let anchor = match st.board.next_canonical_empty_cell() {
        None => {
            // The scan found no empty cell although the move count is short
            // of the target. The search invariant makes this branch
            // unreachable: four fresh cells per move mean the board cannot
            // fill early.
            proof {
                lemma_no_anchor_full(cells0, h, w);
                lemma_full_count(cells0);
                assert(false);
            }
            return Err(SolverError::InternalConsistency);
        },
        Some(a) => a,
    };
    let (ai, aj) = anchor;

    let n = catalog.len();
    let mut p: usize = 0;
    while p < n
        invariant
            p <= n,
            st.wf(),
            st.board@.cells == cells0,
            st.board@.h == h,
            st.board@.w == w,
            st.history@ == hist0,
            acc.deep_view() + solutions_between(
                cells0,
                h,
                w,
                catalog@,
                hist0,
                left,
                ai as int,
                aj as int,
                p as int,
            ) == acc0 + solutions_between(
                cells0,
                h,
                w,
                catalog@,
                hist0,
                left,
                ai as int,
                aj as int,
                0,
            ),
        decreases n - p,
    {
        let ghost between_p = solutions_between(
            cells0,
            h,
            w,
            catalog@,
            hist0,
            left,
            ai as int,
            aj as int,
            p as int,
        );
        let ghost between_next = solutions_between(
            cells0,
            h,
            w,
            catalog@,
            hist0,
            left,
            ai as int,
            aj as int,
            p as int + 1,
        );
        let v = *catalog.get(p);
        if is_legal(&st.board, &v, ai, aj) {
            let ghost acc_pre = acc.deep_view();
            proof {
                lemma_place_count(cells0, h, w, v, ai as int, aj as int);
                lemma_place_len(cells0, h, w, v, ai as int, aj as int);
            }
            st.board.apply(&v, ai, aj);
            st.history.push(p);
            let _ = search(st, catalog, target, acc);
            st.board.revert(&v, ai, aj);
            st.history.pop();
            proof {
                lemma_unplace_place(cells0, h, w, v, ai as int, aj as int);
                assert(st.history@ =~= hist0);
                let with_p = solutions_from(
                    place_cells(cells0, w, v, ai as int, aj as int),
                    h,
                    w,
                    catalog@,
                    hist0.push(p as usize),
                    (left - 1) as nat,
                );
                assert(acc.deep_view() =~= acc_pre + with_p);
                assert(between_p == with_p + between_next);
                assert((acc_pre + with_p) + between_next =~= acc_pre + (with_p + between_next));
            }
        } else {
            proof {
                assert(between_p == Seq::<Seq<usize>>::empty() + between_next);
                assert(Seq::<Seq<usize>>::empty() + between_next =~= between_next);
            }
        }
        p += 1;
    }
    proof {
        let between_end = solutions_between(
            cells0,
            h,
            w,
            catalog@,
            hist0,
            left,
            ai as int,
            aj as int,
            n as int,
        );
        assert(between_end =~= Seq::<Seq<usize>>::empty());
        assert(acc.deep_view() + between_end =~= acc.deep_view());
        assert(solutions_from(cells0, h, w, catalog@, hist0, left) == solutions_between(
            cells0,
            h,
            w,
            catalog@,
            hist0,
            left,
            ai as int,
            aj as int,
            0,
        ));
    }
    Ok(())
}

/// Exhaustively enumerates every ordered sequence of `target_moves`
/// placements that fills the given empty board completely, using the given
/// catalog; the result and its order are pinned to the mathematical
/// enumeration, so identical inputs always produce identical solution sets.
pub fn enumerate_all(board: Board, catalog: &Catalog, target_moves: usize) -> (r: Result<
    SolutionSet,
    SolverError,
>)
    requires
        board.wf(),
        catalog.wf(),
        board@.cells.len() == 4 * target_moves,
        forall|k: int| 0 <= k < board@.cells.len() ==> !board@.cells[k],
    ensures
        r matches Ok(sols) && sols.deep_view() == solutions_from(
            board@.cells,
            board@.h,
            board@.w,
            catalog@,
            Seq::empty(),
            target_moves as nat,
        ),
{
    let ghost bv = board@;
    let mut st = SearchState::new(board);
    let mut acc: SolutionSet = Vec::new();
    let res = search(&mut st, catalog, target_moves, &mut acc);
    proof {
        assert(acc.deep_view() =~= Seq::<Seq<usize>>::empty() + acc.deep_view());
        assert(acc.deep_view() == solutions_from(
            bv.cells,
            bv.h,
            bv.w,
            catalog@,
            Seq::empty(),
            target_moves as nat,
        ));
    }
    match res {
        Ok(_) => Ok(acc),
        Err(e) => Err(e),
    }
}

/// The empty `h` by `w` occupancy grid.
pub open spec fn empty_cells(h: int, w: int) -> Seq<bool> {
    Seq::new((h * w) as nat, |k: int| false)
}

/// Every perfect clear of an empty `h` by `w` board under the standard
/// catalog, in deterministic enumeration order.
pub open spec fn perfect_clear_solutions(h: int, w: int) -> Seq<Seq<usize>> {
    solutions_from(
        empty_cells(h, w),
        h,
        w,
        standard_catalog(),
        Seq::empty(),
        ((h * w) / 4) as nat,
    )
}

/// The boundary operation of the solver: enumerates every perfect clear of
/// an empty board of the given dimensions under the standard catalog. Fails
/// with a configuration error, before any search, exactly when the cell
/// total is not divisible by four; a board with no tiling yields an empty
/// solution set, not an error.
pub fn compute_perfect_clears(board_height: usize, board_width: usize) -> (r: Result<
    SolutionSet,
    SolverError,
>)
    requires
        board_height * board_width <= usize::MAX,
    ensures
        (board_height * board_width) as int % 4 != 0 ==> (r matches Err(e) && e
            == SolverError::Configuration),
        (board_height * board_width) as int % 4 == 0 ==> (r matches Ok(sols) && sols.deep_view()
            == perfect_clear_solutions(board_height as int, board_width as int)),
{
    let board = match Board::new(board_height, board_width) {
        Ok(b) => b,
        Err(e) => {
            return Err(e);
        },
    };
    let catalog = Catalog::standard();
    let target = (board_height * board_width) / 4;
    proof {
        let area = (board_height * board_width) as int;
        assert(area == 4 * (area / 4)) by (nonlinear_arith)
            requires
                area % 4 == 0,
                area >= 0,
        ;
        assert(board@.cells =~= empty_cells(board_height as int, board_width as int));
    }
    enumerate_all(board, &catalog, target)
}

} // verus!
