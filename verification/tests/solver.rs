use perfect_clear::{
    compute_perfect_clears, enumerate_all, is_legal, legal_moves, replay_solution, Board, Catalog,
    Color, PieceVariant, SolverError,
};

fn square_only_catalog() -> Catalog {
    let variants = vec![PieceVariant {
        id: 0,
        offsets: ((0, 1), (1, 0), (1, 1)),
        color: Color::O,
    }];
    Catalog::new(variants).unwrap()
}

#[test]
fn test_non_divisible_dimensions_yield_configuration_error() {
    let r = compute_perfect_clears(3, 5);
    assert!(matches!(r, Err(SolverError::Configuration)));
    assert!(matches!(Board::new(3, 5), Err(SolverError::Configuration)));
    assert!(matches!(Board::new(1, 7), Err(SolverError::Configuration)));
}

#[test]
fn test_square_scenario_yields_exactly_one_solution() {
    let board = Board::new(2, 2).unwrap();
    let catalog = square_only_catalog();
    let sols = enumerate_all(board, &catalog, 1).unwrap();
    assert_eq!(sols, vec![vec![0usize]]);
}

#[test]
fn test_full_catalog_4x6_solutions() {
    let sols = compute_perfect_clears(4, 6).unwrap();
    assert!(!sols.is_empty());
    for s in &sols {
        assert_eq!(s.len(), 6);
    }
    let catalog = Catalog::standard();
    let (placements, board) = replay_solution(4, 6, &catalog, &sols[0]).unwrap();
    assert_eq!(placements[0].row, 0);
    assert_eq!(placements[0].col, 0);
    assert!(board.is_full());
}

#[test]
fn test_single_row_scenarios() {
    // A catalog whose only variant fits in one row tiles the 1x4 board.
    let fitting = Catalog::new(vec![PieceVariant {
        id: 0,
        offsets: ((0, 1), (0, 2), (0, 3)),
        color: Color::I,
    }])
    .unwrap();
    let board = Board::new(1, 4).unwrap();
    let sols = enumerate_all(board, &fitting, 1).unwrap();
    assert_eq!(sols, vec![vec![0usize]]);

    // A catalog with no variant that fits yields an empty set, not an error.
    let unfitting = square_only_catalog();
    let board = Board::new(1, 4).unwrap();
    let sols = enumerate_all(board, &unfitting, 1).unwrap();
    assert!(sols.is_empty());
}

#[test]
fn test_determinism_of_two_runs() {
    let r1 = compute_perfect_clears(4, 6).unwrap();
    let r2 = compute_perfect_clears(4, 6).unwrap();
    assert_eq!(r1, r2);
}

#[test]
fn test_replay_round_trip_every_solution() {
    let sols = compute_perfect_clears(4, 6).unwrap();
    let catalog = Catalog::standard();
    for s in &sols {
        let (placements, board) = replay_solution(4, 6, &catalog, s)
            .expect("a recorded solution replays without going out of bounds or overlapping");
        assert!(board.is_full());
        assert_eq!(placements.len(), s.len());
        for (p, &piece) in placements.iter().zip(s.iter()) {
            assert_eq!(p.piece, piece);
        }
    }
}

#[test]
fn test_replay_rejects_invalid_sequence() {
    let catalog = Catalog::standard();
    // A vertical bar cannot stand on a 2x2 board.
    assert!(replay_solution(2, 2, &catalog, &vec![16]).is_none());
    // An id beyond the catalog is rejected, not followed.
    assert!(replay_solution(2, 2, &catalog, &vec![19]).is_none());
}

#[test]
fn test_legal_moves_on_empty_4x6() {
    let board = Board::new(4, 6).unwrap();
    let catalog = Catalog::standard();
    let moves = legal_moves(&board, &catalog);
    assert!(!moves.is_empty());
    let mut last_piece: Option<usize> = None;
    for m in &moves {
        assert_eq!(m.row, 0);
        assert_eq!(m.col, 0);
        assert!(is_legal(&board, catalog.get(m.piece), m.row, m.col));
        if let Some(prev) = last_piece {
            assert!(prev < m.piece);
        }
        last_piece = Some(m.piece);
    }
    // The S variant reaches above its anchor and cannot be first.
    assert!(!moves.iter().any(|m| m.piece == 0));
    // The flat Z variant lies fully below and to the right of the anchor.
    assert!(moves.iter().any(|m| m.piece == 2));
}

#[test]
fn test_apply_then_revert_restores_board() {
    let mut board = Board::new(4, 6).unwrap();
    let catalog = Catalog::standard();
    let v = *catalog.get(2);
    assert!(is_legal(&board, &v, 0, 0));
    board.apply(&v, 0, 0);
    assert!(board.occupied(0, 0));
    assert!(board.occupied(0, 1));
    assert!(board.occupied(1, 1));
    assert!(board.occupied(1, 2));
    assert!(!board.occupied(1, 0));
    assert!(!board.is_full());
    board.revert(&v, 0, 0);
    for i in 0..4 {
        for j in 0..6 {
            assert!(!board.occupied(i, j));
        }
    }
}

#[test]
fn test_standard_catalog_shape() {
    let catalog = Catalog::standard();
    assert_eq!(catalog.len(), 19);
    for (k, v) in catalog.all_variants().iter().enumerate() {
        assert_eq!(v.id, k);
    }
}

#[test]
fn test_catalog_rejects_ill_formed_variants() {
    // Two identical offsets: fewer than four distinct cells.
    let dup = vec![PieceVariant {
        id: 0,
        offsets: ((0, 1), (0, 1), (1, 1)),
        color: Color::O,
    }];
    assert!(matches!(Catalog::new(dup), Err(SolverError::Configuration)));
    // An offset of (0, 0) collides with the anchor.
    let zero = vec![PieceVariant {
        id: 0,
        offsets: ((0, 0), (1, 0), (1, 1)),
        color: Color::O,
    }];
    assert!(matches!(Catalog::new(zero), Err(SolverError::Configuration)));
    // An id out of order.
    let misnumbered = vec![PieceVariant {
        id: 5,
        offsets: ((0, 1), (1, 0), (1, 1)),
        color: Color::O,
    }];
    assert!(matches!(
        Catalog::new(misnumbered),
        Err(SolverError::Configuration)
    ));
}

#[test]
fn test_paint_colors() {
    assert_eq!(Color::T.paint(), "purple");
    assert_eq!(Color::S.paint(), "green");
    assert_eq!(Color::Z.paint(), "red");
    assert_eq!(Color::O.paint(), "yellow");
    assert_eq!(Color::I.paint(), "cyan");
    assert_eq!(Color::L.paint(), "orange");
    assert_eq!(Color::J.paint(), "blue");
}

#[test]
fn test_empty_board_queries() {
    let board = Board::new(4, 6).unwrap();
    assert_eq!(board.height(), 4);
    assert_eq!(board.width(), 6);
    assert!(!board.is_full());
    assert_eq!(board.next_canonical_empty_cell(), Some((0, 0)));
}

#[test]
fn test_canonical_scan_is_column_major() {
    // Occupy (0,0), (0,1), (1,1) and (2,1). The column-major scan stays in
    // column 0 and anchors at (1,0); a row-major scan would give (0,2).
    let mut board = Board::new(4, 6).unwrap();
    let catalog = Catalog::standard();
    let v = *catalog.get(14);
    assert!(is_legal(&board, &v, 0, 0));
    board.apply(&v, 0, 0);
    assert_eq!(board.next_canonical_empty_cell(), Some((1, 0)));
}

#[test]
fn test_variants_reaching_above_the_anchor_are_playable() {
    // The horizontal S (id 0) reaches one row above its anchor, so it can
    // only ever be played below an occupied row; the enumeration must still
    // find tilings that use it, such as this one.
    let sols = compute_perfect_clears(4, 6).unwrap();
    assert!(sols.contains(&vec![15, 0, 17, 9, 18, 16]));
}
