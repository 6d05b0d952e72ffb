//! The laws of the enumeration, proved once and for all inputs: every
//! solution has exactly the target length; replaying a solution via the
//! canonical-anchor rule never goes out of bounds or overlaps and ends on a
//! fully occupied board; conversely, every stepwise-valid sequence of the
//! target length is enumerated; and the result of the boundary operation is
//! a function of the dimensions alone.

use vstd::prelude::*;

use crate::board::{
    anchor_of, board_full, count_occupied, lemma_count_all_empty, lemma_count_full,
};
use crate::catalog::{catalog_wf, lemma_standard_catalog_wf, standard_catalog, PieceVariant};
use crate::engine::{
    empty_cells, perfect_clear_solutions, solutions_between, solutions_from,
};
use crate::moves::{
    lemma_place_count, lemma_place_len, place_cells, placement_ok,
};
use crate::replay::{replay_from, replay_step};

verus! {

/// An element of a concatenation is an element of one of the parts.
proof fn lemma_add_contains<A>(a: Seq<A>, b: Seq<A>, x: A)
    requires
        (a + b).contains(x),
    ensures
        a.contains(x) || b.contains(x),
{
    let i = choose|i: int| 0 <= i < (a + b).len() && (a + b)[i] == x;
    if i < a.len() {
        assert(a[i] == x);
    } else {
        assert(b[i - a.len()] == x);
    }
}

/// An element of the left part is an element of the concatenation.
proof fn lemma_add_contains_left<A>(a: Seq<A>, b: Seq<A>, x: A)
    requires
        a.contains(x),
    ensures
        (a + b).contains(x),
{
    let i = choose|i: int| 0 <= i < a.len() && a[i] == x;
    assert((a + b)[i] == x);
}

/// An element of the right part is an element of the concatenation.
proof fn lemma_add_contains_right<A>(a: Seq<A>, b: Seq<A>, x: A)
    requires
        b.contains(x),
    ensures
        (a + b).contains(x),
{
    let i = choose|i: int| 0 <= i < b.len() && b[i] == x;
    assert((a + b)[a.len() + i] == x);
}

/// Law of lengths: every enumerated solution extends the history by exactly
/// the remaining number of moves.
pub proof fn lemma_solutions_from_len(
    cells: Seq<bool>,
    h: int,
    w: int,
    cat: Seq<PieceVariant>,
    hist: Seq<usize>,
    left: nat,
    s: Seq<usize>,
)
    requires
        solutions_from(cells, h, w, cat, hist, left).contains(s),
    ensures
        s.len() == hist.len() + left,
    decreases left, cat.len() + 1,
{
    if left == 0 {
        assert(seq![hist][0] == hist);
    } else {
        match anchor_of(cells, h, w) {
            None => {},
            Some(a) => {
                lemma_solutions_between_len(cells, h, w, cat, hist, left, a.0, a.1, 0, s);
            },
        }
    }
}

/// Length law for the per-catalog-position slice of the enumeration.
proof fn lemma_solutions_between_len(
    cells: Seq<bool>,
    h: int,
    w: int,
    cat: Seq<PieceVariant>,
    hist: Seq<usize>,
    left: nat,
    ai: int,
    aj: int,
    p: int,
    s: Seq<usize>,
)
    requires
        solutions_between(cells, h, w, cat, hist, left, ai, aj, p).contains(s),
    ensures
        s.len() == hist.len() + left,
    decreases left, cat.len() - p,
{
    if left == 0 || p < 0 || p >= cat.len() {
    } else {
        let with_p = if placement_ok(cells, h, w, cat[p], ai, aj) {
            solutions_from(
                place_cells(cells, w, cat[p], ai, aj),
                h,
                w,
                cat,
                hist.push(p as usize),
                (left - 1) as nat,
            )
        } else {
            Seq::<Seq<usize>>::empty()
        };
        let rest = solutions_between(cells, h, w, cat, hist, left, ai, aj, p + 1);
        lemma_add_contains(with_p, rest, s);
        if with_p.contains(s) {
            lemma_solutions_from_len(
                place_cells(cells, w, cat[p], ai, aj),
                h,
                w,
                cat,
                hist.push(p as usize),
                (left - 1) as nat,
                s,
            );
        } else {
            lemma_solutions_between_len(cells, h, w, cat, hist, left, ai, aj, p + 1, s);
        }
    }
}

/// Round-trip law, general form: every enumerated solution carries the
/// history as a prefix, its remainder replays validly step by step from the
/// current grid, and the replay ends on a fully occupied board.
pub proof fn lemma_solutions_replay(
    cells: Seq<bool>,
    h: int,
    w: int,
    cat: Seq<PieceVariant>,
    hist: Seq<usize>,
    left: nat,
    s: Seq<usize>,
)
    requires
        catalog_wf(cat),
        cells.len() == h * w,
        count_occupied(cells) == 4 * hist.len(),
        cells.len() == 4 * (hist.len() + left),
        solutions_from(cells, h, w, cat, hist, left).contains(s),
    ensures
        s.len() == hist.len() + left,
        s.take(hist.len() as int) == hist,
        replay_from(cells, h, w, cat, s.skip(hist.len() as int)) is Some,
        board_full(replay_from(cells, h, w, cat, s.skip(hist.len() as int))->Some_0),
    decreases left, cat.len() + 1,
{
    if left == 0 {
        assert(seq![hist][0] == hist);
        assert(s == hist);
        assert(s.take(hist.len() as int) =~= hist);
        assert(s.skip(hist.len() as int) =~= Seq::<usize>::empty());
        lemma_count_full(cells);
    } else {
        match anchor_of(cells, h, w) {
            None => {},
            Some(a) => {
                lemma_solutions_replay_between(cells, h, w, cat, hist, left, a.0, a.1, 0, s);
            },
        }
    }
}

/// Round-trip law for the per-catalog-position slice of the enumeration.
proof fn lemma_solutions_replay_between(
    cells: Seq<bool>,
    h: int,
    w: int,
    cat: Seq<PieceVariant>,
    hist: Seq<usize>,
    left: nat,
    ai: int,
    aj: int,
    p: int,
    s: Seq<usize>,
)
    requires
        catalog_wf(cat),
        cells.len() == h * w,
        count_occupied(cells) == 4 * hist.len(),
        cells.len() == 4 * (hist.len() + left),
        left > 0,
        anchor_of(cells, h, w) == Some((ai, aj)),
        solutions_between(cells, h, w, cat, hist, left, ai, aj, p).contains(s),
    ensures
        s.len() == hist.len() + left,
        s.take(hist.len() as int) == hist,
        replay_from(cells, h, w, cat, s.skip(hist.len() as int)) is Some,
        board_full(replay_from(cells, h, w, cat, s.skip(hist.len() as int))->Some_0),
    decreases left, cat.len() - p,
{
    if p < 0 || p >= cat.len() {
    } else {
        let hl = hist.len() as int;
        let with_p = if placement_ok(cells, h, w, cat[p], ai, aj) {
            solutions_from(
                place_cells(cells, w, cat[p], ai, aj),
                h,
                w,
                cat,
                hist.push(p as usize),
                (left - 1) as nat,
            )
        } else {
            Seq::<Seq<usize>>::empty()
        };
        let rest = solutions_between(cells, h, w, cat, hist, left, ai, aj, p + 1);
        lemma_add_contains(with_p, rest, s);
        if with_p.contains(s) {
            let child = place_cells(cells, w, cat[p], ai, aj);
            lemma_place_count(cells, h, w, cat[p], ai, aj);
            lemma_place_len(cells, h, w, cat[p], ai, aj);
            lemma_solutions_replay(
                child,
                h,
                w,
                cat,
                hist.push(p as usize),
                (left - 1) as nat,
                s,
            );
            // The history prefix of this level.
            assert(s.take(hl + 1) == hist.push(p as usize));
            assert forall|m: int| 0 <= m < hl implies s.take(hl)[m] == hist[m] by {
                assert(s.take(hl + 1)[m] == hist.push(p as usize)[m]);
            }
            assert(s.take(hl) =~= hist);
            // The remainder replays: its first move is p, placed at the
            // canonical anchor, and the rest is the child's remainder.
            let moves = s.skip(hl);
            assert(s.take(hl + 1)[hl] == hist.push(p as usize)[hl]);
            assert(s[hl] == p as usize);
            assert(moves[0] == s[hl]);
            assert(moves.len() == left);
            assert(replay_step(cells, h, w, cat, p as usize) == Some(child));
            assert(moves.drop_first() =~= s.skip(hl + 1));
            assert(replay_from(cells, h, w, cat, moves) == replay_from(
                child,
                h,
                w,
                cat,
                s.skip(hl + 1),
            ));
        } else {
            lemma_solutions_replay_between(cells, h, w, cat, hist, left, ai, aj, p + 1, s);
        }
    }
}

/// Completeness law, general form: every sequence of the target length
/// that replays validly step by step is enumerated. Together with the
/// round-trip law this characterizes the solution set exactly: it holds the
/// stepwise-valid sequences of the target length and nothing else.
pub proof fn lemma_solutions_complete(
    cells: Seq<bool>,
    h: int,
    w: int,
    cat: Seq<PieceVariant>,
    hist: Seq<usize>,
    left: nat,
    s: Seq<usize>,
)
    requires
        s.len() == left,
        replay_from(cells, h, w, cat, s) is Some,
    ensures
        solutions_from(cells, h, w, cat, hist, left).contains(hist + s),
    decreases left,
{
    if left == 0 {
        assert(hist + s =~= hist);
        assert(seq![hist][0] == hist);
    } else {
        let a = anchor_of(cells, h, w)->Some_0;
        let p = s[0];
        let child = place_cells(cells, w, cat[p as int], a.0, a.1);
        assert(replay_step(cells, h, w, cat, p) == Some(child));
        lemma_solutions_complete(
            child,
            h,
            w,
            cat,
            hist.push(p),
            (left - 1) as nat,
            s.drop_first(),
        );
        assert(hist.push(p) + s.drop_first() =~= hist + s);
        lemma_between_complete(cells, h, w, cat, hist, left, a.0, a.1, 0, p as int, hist + s);
    }
}

/// Completeness for the per-catalog-position slice: what the child search
/// below position `p` enumerates appears in every slice that starts at or
/// before `p`.
proof fn lemma_between_complete(
    cells: Seq<bool>,
    h: int,
    w: int,
    cat: Seq<PieceVariant>,
    hist: Seq<usize>,
    left: nat,
    ai: int,
    aj: int,
    q: int,
    p: int,
    x: Seq<usize>,
)
    requires
        left > 0,
        0 <= q <= p < cat.len(),
        placement_ok(cells, h, w, cat[p], ai, aj),
        solutions_from(
            place_cells(cells, w, cat[p], ai, aj),
            h,
            w,
            cat,
            hist.push(p as usize),
            (left - 1) as nat,
        ).contains(x),
    ensures
        solutions_between(cells, h, w, cat, hist, left, ai, aj, q).contains(x),
    decreases p - q,
{
    let with_q = if placement_ok(cells, h, w, cat[q], ai, aj) {
        solutions_from(
            place_cells(cells, w, cat[q], ai, aj),
            h,
            w,
            cat,
            hist.push(q as usize),
            (left - 1) as nat,
        )
    } else {
        Seq::<Seq<usize>>::empty()
    };
    let rest = solutions_between(cells, h, w, cat, hist, left, ai, aj, q + 1);
    if q == p {
        lemma_add_contains_left(with_q, rest, x);
    } else {
        lemma_between_complete(cells, h, w, cat, hist, left, ai, aj, q + 1, p, x);
        lemma_add_contains_right(with_q, rest, x);
    }
}

/// Every sequence of length `h * w / 4` that replays validly on the empty
/// `h` by `w` board under the standard catalog is among the computed
/// perfect clears: the enumeration misses nothing.
pub proof fn lemma_enumeration_complete(h: int, w: int, s: Seq<usize>)
    requires
        0 <= h,
        0 <= w,
        (h * w) % 4 == 0,
        s.len() == h * w / 4,
        replay_from(empty_cells(h, w), h, w, standard_catalog(), s) is Some,
    ensures
        perfect_clear_solutions(h, w).contains(s),
{
    assert(h * w >= 0) by (nonlinear_arith)
        requires
            0 <= h,
            0 <= w,
    ;
    lemma_solutions_complete(
        empty_cells(h, w),
        h,
        w,
        standard_catalog(),
        Seq::empty(),
        ((h * w) / 4) as nat,
        s,
    );
    assert(Seq::<usize>::empty() + s =~= s);
}

/// Every perfect clear of an `h` by `w` board has length exactly
/// `h * w / 4`.
pub proof fn lemma_solution_length(h: int, w: int, s: Seq<usize>)
    requires
        0 <= h,
        0 <= w,
        (h * w) % 4 == 0,
        perfect_clear_solutions(h, w).contains(s),
    ensures
        s.len() == h * w / 4,
{
    assert(h * w >= 0) by (nonlinear_arith)
        requires
            0 <= h,
            0 <= w,
    ;
    lemma_solutions_from_len(
        empty_cells(h, w),
        h,
        w,
        standard_catalog(),
        Seq::empty(),
        ((h * w) / 4) as nat,
        s,
    );
}

/// Replaying a perfect clear in order via the canonical-anchor rule never
/// produces an out-of-bounds or overlapping footprint: every step of the
/// replay succeeds.
pub proof fn lemma_replay_valid(h: int, w: int, s: Seq<usize>)
    requires
        0 <= h,
        0 <= w,
        (h * w) % 4 == 0,
        perfect_clear_solutions(h, w).contains(s),
    ensures
        replay_from(empty_cells(h, w), h, w, standard_catalog(), s) is Some,
{
    lemma_replay_round_trip(h, w, s);
}

/// Replaying a perfect clear results in a fully occupied board.
pub proof fn lemma_replay_fills(h: int, w: int, s: Seq<usize>)
    requires
        0 <= h,
        0 <= w,
        (h * w) % 4 == 0,
        perfect_clear_solutions(h, w).contains(s),
    ensures
        replay_from(empty_cells(h, w), h, w, standard_catalog(), s) is Some,
        board_full(replay_from(empty_cells(h, w), h, w, standard_catalog(), s)->Some_0),
{
    lemma_replay_round_trip(h, w, s);
}

/// Shared core of the two replay laws at the solver's boundary.
proof fn lemma_replay_round_trip(h: int, w: int, s: Seq<usize>)
    requires
        0 <= h,
        0 <= w,
        (h * w) % 4 == 0,
        perfect_clear_solutions(h, w).contains(s),
    ensures
        replay_from(empty_cells(h, w), h, w, standard_catalog(), s) is Some,
        board_full(replay_from(empty_cells(h, w), h, w, standard_catalog(), s)->Some_0),
{
    assert(h * w >= 0) by (nonlinear_arith)
        requires
            0 <= h,
            0 <= w,
    ;
    assert(h * w == 4 * ((h * w) / 4)) by (nonlinear_arith)
        requires
            (h * w) % 4 == 0,
            h * w >= 0,
    ;
    lemma_standard_catalog_wf();
    lemma_count_all_empty(empty_cells(h, w));
    lemma_solutions_replay(
        empty_cells(h, w),
        h,
        w,
        standard_catalog(),
        Seq::empty(),
        ((h * w) / 4) as nat,
        s,
    );
    assert(s.skip(0) =~= s);
}

/// Determinism: the contract of `compute_perfect_clears` pins its result to
/// `perfect_clear_solutions` alone, so any two results it can return for
/// identical dimensions are identical, solutions and order both.
pub proof fn lemma_deterministic(h: int, w: int, r1: Seq<Seq<usize>>, r2: Seq<Seq<usize>>)
    requires
        r1 == perfect_clear_solutions(h, w),
        r2 == perfect_clear_solutions(h, w),
    ensures
        r1 == r2,
{
}

} // verus!
