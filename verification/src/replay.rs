//! Replaying a recorded solution against a fresh empty board.
//!
//! A presentation layer re-derives each placement's anchor with the same
//! canonical-empty-cell rule the search used, so replaying a solution
//! reproduces exactly the board the search constructed when it recorded it.

use vstd::prelude::*;

use crate::board::{anchor_of, Board};
use crate::catalog::{Catalog, PieceVariant};
use crate::engine::empty_cells;
use crate::moves::{is_legal, place_cells, placement_ok, Placement};
use crate::Solution;

verus! {

/// One replay step: anchor at the canonical empty cell and place catalog
/// variant `p` there; nothing if the board is full, the id is out of range,
/// or the placement would leave the board or overlap.
pub open spec fn replay_step(
    cells: Seq<bool>,
    h: int,
    w: int,
    cat: Seq<PieceVariant>,
    p: usize,
) -> Option<Seq<bool>> {
    match anchor_of(cells, h, w) {
        None => None,
        Some(a) => if p < cat.len() && placement_ok(cells, h, w, cat[p as int], a.0, a.1) {
            Some(place_cells(cells, w, cat[p as int], a.0, a.1))
        } else {
            None
        },
    }
}

/// The grid after replaying `moves` in order from `cells`, or nothing if
/// some step is invalid.
pub open spec fn replay_from(
    cells: Seq<bool>,
    h: int,
    w: int,
    cat: Seq<PieceVariant>,
    moves: Seq<usize>,
) -> Option<Seq<bool>>
    decreases moves.len(),
{
    if moves.len() == 0 {
        Some(cells)
    } else {
        match replay_step(cells, h, w, cat, moves[0]) {
            None => None,
            Some(c2) => replay_from(c2, h, w, cat, moves.drop_first()),
        }
    }
}

/// Replaying one more move is one more step after replaying the rest.
pub proof fn lemma_replay_snoc(
    cells: Seq<bool>,
    h: int,
    w: int,
    cat: Seq<PieceVariant>,
    moves: Seq<usize>,
    p: usize,
)
    ensures
        replay_from(cells, h, w, cat, moves.push(p)) == (match replay_from(
            cells,
            h,
            w,
            cat,
            moves,
        ) {
            None => None,
            Some(c) => replay_step(c, h, w, cat, p),
        }),
    decreases moves.len(),
{
    if moves.len() == 0 {
        assert(moves.push(p)[0] == p);
        assert(moves.push(p).drop_first() =~= Seq::<usize>::empty());
        match replay_step(cells, h, w, cat, p) {
            None => {},
            Some(c2) => {
                assert(replay_from(c2, h, w, cat, Seq::<usize>::empty()) == Some(c2));
            },
        }
    } else {
        assert(moves.push(p)[0] == moves[0]);
        assert(moves.push(p).drop_first() =~= moves.drop_first().push(p));
        match replay_step(cells, h, w, cat, moves[0]) {
            None => {},
            Some(c2) => {
                lemma_replay_snoc(c2, h, w, cat, moves.drop_first(), p);
            },
        }
    }
}

/// A replay that fails on a prefix fails on the whole sequence.
pub proof fn lemma_replay_none_extend(
    cells: Seq<bool>,
    h: int,
    w: int,
    cat: Seq<PieceVariant>,
    moves: Seq<usize>,
    k: int,
)
    requires
        0 <= k <= moves.len(),
        replay_from(cells, h, w, cat, moves.take(k)) is None,
    ensures
        replay_from(cells, h, w, cat, moves) is None,
    decreases moves.len() - k,
{
    if k == moves.len() {
        assert(moves.take(k) =~= moves);
    } else {
        assert(moves.take(k + 1) =~= moves.take(k).push(moves[k]));
        lemma_replay_snoc(cells, h, w, cat, moves.take(k), moves[k]);
        lemma_replay_none_extend(cells, h, w, cat, moves, k + 1);
    }
}

/// Replays a recorded solution against a fresh empty board, re-deriving
/// each placement's anchor via the canonical-empty-cell rule. Returns the
/// derived placements, in play order, together with the resulting board, or
/// nothing exactly when the sequence is not a valid replay.
#[verifier::loop_isolation(false)]
pub fn replay_solution(
    board_height: usize,
    board_width: usize,
    catalog: &Catalog,
    solution: &Solution,
) -> (r: Option<(Vec<Placement>, Board)>)
    requires
        board_height * board_width <= usize::MAX,
        (board_height * board_width) as int % 4 == 0,
    ensures
        match r {
            None => replay_from(
                empty_cells(board_height as int, board_width as int),
                board_height as int,
                board_width as int,
                catalog@,
                solution@,
            ) is None,
            Some(out) => {
                &&& replay_from(
                    empty_cells(board_height as int, board_width as int),
                    board_height as int,
                    board_width as int,
                    catalog@,
                    solution@,
                ) == Some(out.1@.cells)
                &&& out.1.wf()
                &&& out.1@.h == board_height
                &&& out.1@.w == board_width
                &&& out.0@.len() == solution@.len()
                &&& forall|m: int|
                    0 <= m < solution@.len() ==> (#[trigger] out.0@[m]).piece == solution@[m]
                &&& forall|m: int|
                    0 <= m < solution@.len() ==> #[trigger] replay_from(
                        empty_cells(board_height as int, board_width as int),
                        board_height as int,
                        board_width as int,
                        catalog@,
                        solution@.take(m),
                    ) is Some
                &&& forall|m: int|
                    0 <= m < solution@.len() ==> anchor_of(
                        #[trigger] replay_from(
                            empty_cells(board_height as int, board_width as int),
                            board_height as int,
                            board_width as int,
                            catalog@,
                            solution@.take(m),
                        )->Some_0,
                        board_height as int,
                        board_width as int,
                    ) == Some((out.0@[m].row as int, out.0@[m].col as int))
            },
        },
{
    let ghost h = board_height as int;
    let ghost w = board_width as int;
    let ghost cells0 = empty_cells(h, w);
    let mut board = match Board::new(board_height, board_width) {
        Ok(b) => b,
        Err(_) => {
            proof {
                assert(false);
            }
            return None;
        },
    };
    proof {
        assert(board@.cells =~= cells0);
    }
    let mut ps: Vec<Placement> = Vec::new();
    let n = solution.len();
    let mut k: usize = 0;
    while k < n
        invariant
            k <= n,
            board.wf(),
            board@.h == h,
            board@.w == w,
            replay_from(cells0, h, w, catalog@, solution@.take(k as int)) == Some(board@.cells),
            ps@.len() == k,
            forall|m: int| 0 <= m < k ==> (#[trigger] ps@[m]).piece == solution@[m],
            forall|m: int|
                0 <= m < k ==> #[trigger] replay_from(cells0, h, w, catalog@, solution@.take(m))
                    is Some,
            forall|m: int|
                0 <= m < k ==> anchor_of(
                    #[trigger] replay_from(cells0, h, w, catalog@, solution@.take(m))->Some_0,
                    h,
                    w,
                ) == Some((ps@[m].row as int, ps@[m].col as int)),
        decreases n - k,
    {
        let ghost cur = board@.cells;
        proof {
            assert(solution@.take(k as int + 1) =~= solution@.take(k as int).push(
                solution@[k as int],
            ));
            lemma_replay_snoc(cells0, h, w, catalog@, solution@.take(k as int), solution@[k as int]);
        }
        let piece = solution[k];
        let anchor = match board.next_canonical_empty_cell() {
            None => {
                proof {
                    lemma_replay_none_extend(cells0, h, w, catalog@, solution@, k as int + 1);
                }
                return None;
            },
            Some(a) => a,
        };
        let (ai, aj) = anchor;
        if piece >= catalog.len() {
            proof {
                lemma_replay_none_extend(cells0, h, w, catalog@, solution@, k as int + 1);
            }
            return None;
        }
        let v = *catalog.get(piece);
        if !is_legal(&board, &v, ai, aj) {
            proof {
                lemma_replay_none_extend(cells0, h, w, catalog@, solution@, k as int + 1);
            }
            return None;
        }
        board.apply(&v, ai, aj);
        ps.push(Placement { row: ai, col: aj, piece });
        proof {
            let ghost ki = k as int;
            assert(replay_from(cells0, h, w, catalog@, solution@.take(ki + 1)) == Some(
                board@.cells,
            ));
            assert(ps@[ki] == Placement { row: ai, col: aj, piece });
            assert(replay_from(cells0, h, w, catalog@, solution@.take(ki)) == Some(cur));
            assert(anchor_of(cur, h, w) == Some((ai as int, aj as int)));
        }
        k += 1;
    }
    proof {
        assert(solution@.take(n as int) =~= solution@);
    }
    Some((ps, board))
}

} // verus!
