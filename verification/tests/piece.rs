use tetris::tetris_board::TetrisBoard;
use tetris::tetromino::Tetromino;

#[test]
fn catalog_shapes_and_spawns() {
    let i_piece = Tetromino::new_piece(0);
    assert_eq!(i_piece.rotation_constant, 5);
    assert_eq!((i_piece.x, i_piece.y), (8, 22));
    assert_eq!(
        i_piece.piece_data,
        vec![
            0, 0, 0, 0, 0,
            0, 0, 0, 0, 0,
            0, 1, 1, 1, 1,
            0, 0, 0, 0, 0,
            0, 0, 0, 0, 0,
        ]
    );
    assert_eq!(i_piece.rotation_state(), 0);

    let expected3: [(u8, Vec<u8>); 6] = [
        (1, vec![2, 0, 0, 2, 2, 2, 0, 0, 0]),
        (2, vec![0, 0, 3, 3, 3, 3, 0, 0, 0]),
        (3, vec![0, 4, 4, 0, 4, 4, 0, 0, 0]),
        (4, vec![0, 5, 5, 5, 5, 0, 0, 0, 0]),
        (5, vec![0, 6, 0, 6, 6, 6, 0, 0, 0]),
        (6, vec![7, 7, 0, 0, 7, 7, 0, 0, 0]),
    ];
    for (kind, data) in &expected3 {
        let t = Tetromino::new_piece(*kind);
        assert_eq!(t.rotation_constant, 3);
        assert_eq!((t.x, t.y), (7, 20));
        assert_eq!(&t.piece_data, data, "shape of kind {}", kind);
        assert_eq!(t.rotation_state(), 0);
    }
    // Kind ids beyond the catalog fall back to the last shape.
    let fallback = Tetromino::new_piece(9);
    assert_eq!(fallback.piece_data, vec![7, 7, 0, 0, 7, 7, 0, 0, 0]);
}

#[test]
fn rotate_cw_recomputes_mask_by_index_transform() {
    let b = TetrisBoard::new();
    let mut t = Tetromino::new_piece(1);
    assert!(t.rotate_piece(1, &b));
    assert_eq!(t.rotation_state(), 1);
    assert_eq!(t.piece_data, vec![0, 2, 2, 0, 2, 0, 0, 2, 0]);
    // The standard table's first kick test is in place for the J piece.
    assert_eq!((t.x, t.y), (7, 20));
}

#[test]
fn rotation_cw_four_times_restores_piece() {
    let b = TetrisBoard::new();
    for kind in 0..7u8 {
        let mut t = Tetromino::new_piece(kind);
        let orig_data = t.piece_data.clone();
        let (ox, oy) = (t.x, t.y);
        for _ in 0..4 {
            assert!(t.rotate_piece(1, &b));
        }
        assert_eq!(t.rotation_state(), 0, "kind {}", kind);
        assert_eq!(t.piece_data, orig_data, "kind {}", kind);
        assert_eq!((t.x, t.y), (ox, oy), "kind {}", kind);
    }
}

#[test]
fn rotation_ccw_four_times_restores_piece() {
    let b = TetrisBoard::new();
    for kind in 0..7u8 {
        let mut t = Tetromino::new_piece(kind);
        let orig_data = t.piece_data.clone();
        let (ox, oy) = (t.x, t.y);
        for _ in 0..4 {
            assert!(t.rotate_piece(-1, &b));
        }
        assert_eq!(t.rotation_state(), 0, "kind {}", kind);
        assert_eq!(t.piece_data, orig_data, "kind {}", kind);
        assert_eq!((t.x, t.y), (ox, oy), "kind {}", kind);
    }
}

#[test]
fn kicked_rotation_cycle_leaves_piece_displaced() {
    // Four rotations restore the piece only when no wall kick fires:
    // with the in-place rotation blocked once, the cycle ends one
    // column away from where it started.
    let mut b = TetrisBoard::new();
    b.set_cell(5, 20, 7);
    let mut t = Tetromino::new_piece(1);
    for _ in 0..4 {
        assert!(t.rotate_piece(1, &b));
    }
    assert_eq!(t.rotation_state(), 0);
    assert_eq!((t.x, t.y), (8, 20));
}

#[test]
fn o_piece_rotation_keeps_covered_cells() {
    let b = TetrisBoard::new();
    let mut t = Tetromino::new_piece(3);
    assert!(t.rotate_piece(1, &b));
    assert_eq!(t.rotation_state(), 1);
    // The simplified table shifts the anchor so the occupied cells stay.
    assert_eq!((t.x, t.y), (7, 21));
    assert_eq!(t.piece_data, vec![0, 0, 0, 0, 4, 4, 0, 4, 4]);
}

#[test]
fn wall_kick_shifts_blocked_rotation() {
    let mut b = TetrisBoard::new();
    let mut t = Tetromino::new_piece(1);
    // Block one cell of the in-place rotated position; the second kick
    // test (offset +1, 0) must win.
    b.set_cell(5, 20, 7);
    assert!(t.rotate_piece(1, &b));
    assert_eq!(t.rotation_state(), 1);
    assert_eq!((t.x, t.y), (8, 20));
}

#[test]
fn rotation_rejected_when_every_kick_collides() {
    let mut b = TetrisBoard::new();
    let mut t = Tetromino::new_piece(1);
    // One blocked cell per kick candidate of the J piece's CW rotation.
    b.set_cell(6, 20, 7); // in place
    b.set_cell(7, 20, 7); // kick (+1, 0)
    b.set_cell(7, 21, 7); // kick (+1, +1)
    b.set_cell(6, 18, 7); // kick (0, -2)
    b.set_cell(7, 18, 7); // kick (+1, -2)
    let before_data = t.piece_data.clone();
    assert!(!t.rotate_piece(1, &b));
    assert_eq!(t.rotation_state(), 0);
    assert_eq!(t.piece_data, before_data);
    assert_eq!((t.x, t.y), (7, 20));
}

#[test]
fn wall_kick_deterministic_on_equal_inputs() {
    let mut outcomes = Vec::new();
    for _ in 0..3 {
        let mut b = TetrisBoard::new();
        b.set_cell(5, 20, 7);
        b.set_cell(4, 12, 3);
        let mut t = Tetromino::new_piece(1);
        let ok = t.rotate_piece(1, &b);
        outcomes.push((ok, t.x, t.y, t.rotation_state(), t.piece_data.clone()));
    }
    assert_eq!(outcomes[0], outcomes[1]);
    assert_eq!(outcomes[1], outcomes[2]);
}

#[test]
fn move_piece_commits_or_reverts() {
    let b = TetrisBoard::new();
    let mut t = Tetromino::new_piece(1);
    assert!(t.move_piece(1, 0, &b));
    assert_eq!((t.x, t.y), (8, 20));
    assert!(t.move_piece(1, 0, &b));
    assert!(t.move_piece(1, 0, &b));
    assert_eq!((t.x, t.y), (10, 20));
    // The next step would put a cell on the wall column: silent revert.
    assert!(!t.move_piece(1, 0, &b));
    assert_eq!((t.x, t.y), (10, 20));
}

#[test]
fn force_down_falls_with_open_space() {
    let mut b = TetrisBoard::new();
    let mut t = Tetromino::new_piece(1);
    assert!(!t.force_down(&mut b));
    assert_eq!((t.x, t.y), (7, 19));
    // Nothing was merged into the board.
    assert_eq!(b.get_cell(7, 19), 0);
    assert!(!b.did_zero);
}

#[test]
fn force_down_locks_one_row_above_collision() {
    let mut b = TetrisBoard::new();
    let mut t = Tetromino::new_piece(1);
    t.y = 3;
    // Occupy the cell right below one piece cell: the next step collides.
    b.set_cell(7, 1, 7);
    assert!(t.force_down(&mut b));
    // The piece did not move and its color ids are on the board.
    assert_eq!((t.x, t.y), (7, 3));
    assert_eq!(b.get_cell(7, 3), 2);
    assert_eq!(b.get_cell(7, 2), 2);
    assert_eq!(b.get_cell(6, 2), 2);
    assert_eq!(b.get_cell(5, 2), 2);
}

#[test]
fn force_down_locks_on_floor() {
    let mut b = TetrisBoard::new();
    let mut t = Tetromino::new_piece(1);
    let mut steps = 0;
    while !t.force_down(&mut b) {
        steps += 1;
        assert!(steps < 100);
    }
    // From spawn row 20 the J piece rests with anchor row 2.
    assert_eq!((t.x, t.y), (7, 2));
    assert_eq!(steps, 18);
    assert_eq!(b.get_cell(7, 2), 2);
    assert_eq!(b.get_cell(7, 1), 2);
    assert_eq!(b.get_cell(6, 1), 2);
    assert_eq!(b.get_cell(5, 1), 2);
}

#[test]
fn ghost_probes_without_moving_piece() {
    let mut b = TetrisBoard::new();
    b.set_cell(6, 4, 7);
    let mut t = Tetromino::new_piece(1);
    assert!(t.rotate_piece(1, &b));
    let before = (t.x, t.y, t.rotation_state(), t.piece_data.clone());
    let (gx, gy) = t.get_ghost(&b);
    assert_eq!((t.x, t.y, t.rotation_state(), t.piece_data.clone()), before);
    assert_eq!(gx, t.x);
    // The rotated J's lowest cell is two rows under its anchor; the
    // occupied cell at row 4 stops it with the anchor at row 7.
    assert_eq!(gy, 7);
}

#[test]
fn ghost_on_empty_board_reaches_floor() {
    let mut b = TetrisBoard::new();
    let mut t = Tetromino::new_piece(1);
    let (gx, gy) = t.get_ghost(&b);
    assert_eq!((gx, gy), (7, 2));
    assert_eq!((t.x, t.y), (7, 20));
    b.set_cell(7, 15, 3);
    // The occupied cell at row 15 stops the column-7 cells one row above.
    let (gx2, gy2) = t.get_ghost(&b);
    assert_eq!((gx2, gy2), (7, 17));
}

#[test]
fn piece_render_draws_active_and_ghost() {
    let b = TetrisBoard::new();
    let mut t = Tetromino::new_piece(1);
    let reqs = t.render(&b);
    assert_eq!(reqs.len(), 8);
    let active: Vec<_> = reqs.iter().filter(|r| !r.dim).collect();
    let ghost: Vec<_> = reqs.iter().filter(|r| r.dim).collect();
    assert_eq!(active.len(), 4);
    assert_eq!(ghost.len(), 4);
    assert!(active.iter().all(|r| r.sprite == 1));
    assert!(active.iter().any(|r| r.x == 7 && r.y == 20));
    assert!(ghost.iter().any(|r| r.x == 7 && r.y == 2));
    assert!(ghost.iter().any(|r| r.x == 5 && r.y == 1));
}

#[test]
fn render_force_position_uses_given_anchor() {
    let t = Tetromino::new_piece(1);
    let reqs = t.render_force_position(-5, 20);
    assert_eq!(reqs.len(), 4);
    assert!(reqs.iter().any(|r| r.x == -5 && r.y == 20 && r.sprite == 1 && !r.dim));
    assert!(reqs.iter().any(|r| r.x == -7 && r.y == 19));
}
