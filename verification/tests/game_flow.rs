use tetris::game::Game;
use tetris::game::random_kind;
use tetris::game_options::BOARD_HEIGHT;
use tetris::game_options::BOARD_WIDTH;

fn fresh(kinds: [u8; 7]) -> Game {
    Game::from_kinds(&kinds.to_vec())
}

#[test]
fn session_from_kinds_is_deterministic() {
    let g = fresh([1, 2, 3, 4, 5, 6, 0]);
    assert_eq!((g.tet.x, g.tet.y), (7, 20));
    assert_eq!(g.tet.piece_data, vec![2, 0, 0, 2, 2, 2, 0, 0, 0]);
    assert_eq!(g.next_pieces, vec![2, 3, 4, 5, 6, 0]);
    assert_eq!(g.ticks, 0);
    assert_eq!(g.down_tick, 60);
    assert_eq!(g.clear_tick, 20);
}

#[test]
fn random_session_draws_catalog_kinds() {
    let g = Game::new();
    assert_eq!(g.next_pieces.len(), 6);
    for k in &g.next_pieces {
        assert!(*k < 7);
    }
    assert_eq!(g.ticks, 0);
}

#[test]
fn random_kind_stays_in_catalog() {
    for _ in 0..64 {
        assert!(random_kind() < 7);
    }
}

#[test]
fn gravity_fires_every_sixtieth_tick() {
    let mut g = fresh([1, 2, 3, 4, 5, 6, 0]);
    for _ in 0..59 {
        g.update(0);
    }
    assert_eq!(g.tet.y, 20);
    g.update(0);
    assert_eq!(g.tet.y, 19);
    assert_eq!(g.ticks, 60);
}

#[test]
fn lateral_moves_follow_mirrored_convention() {
    let mut g = fresh([1, 2, 3, 4, 5, 6, 0]);
    assert!(g.move_left());
    assert_eq!(g.tet.x, 8);
    assert!(g.move_right());
    assert!(g.move_right());
    assert_eq!(g.tet.x, 6);
}

#[test]
fn soft_drop_falls_then_locks() {
    let mut g = fresh([1, 2, 3, 4, 5, 6, 0]);
    assert!(!g.soft_drop(0));
    assert_eq!(g.tet.y, 19);
    // Drop to the floor: the final call locks and spawns the next kind.
    let mut locks = 0;
    while !g.soft_drop(6) {
        locks += 1;
        assert!(locks < 100);
    }
    assert_eq!(g.board.get_cell(7, 2), 2);
    assert_eq!(g.board.get_cell(7, 1), 2);
    assert_eq!(g.board.get_cell(6, 1), 2);
    assert_eq!(g.board.get_cell(5, 1), 2);
    // The preview queue advanced: front spawned, 6 appended at the back.
    assert_eq!(g.tet.piece_data, vec![0, 0, 3, 3, 3, 3, 0, 0, 0]);
    assert_eq!(g.next_pieces, vec![3, 4, 5, 6, 0, 6]);
    assert_eq!(g.clear_tick, g.ticks + 20);
}

#[test]
fn hard_drop_locks_at_ghost_row() {
    let mut g = fresh([1, 2, 3, 4, 5, 6, 0]);
    g.hard_drop(5);
    assert_eq!(g.board.get_cell(7, 2), 2);
    assert_eq!(g.board.get_cell(5, 1), 2);
    assert_eq!(g.next_pieces, vec![3, 4, 5, 6, 0, 5]);
    // The next piece spawned fresh at its spawn anchor.
    assert_eq!((g.tet.x, g.tet.y), (7, 20));
    assert_eq!(g.tet.piece_data, vec![0, 0, 3, 3, 3, 3, 0, 0, 0]);
}

#[test]
fn rotations_at_game_level_commit_and_revert() {
    let mut g = fresh([1, 2, 3, 4, 5, 6, 0]);
    assert!(g.rotate_cw());
    assert_eq!(g.tet.rotation_state(), 1);
    assert!(g.rotate_ccw());
    assert_eq!(g.tet.rotation_state(), 0);
    assert_eq!(g.tet.piece_data, vec![2, 0, 0, 2, 2, 2, 0, 0, 0]);
}

#[test]
fn completed_row_clears_on_the_scheduled_tick() {
    let mut g = fresh([1, 2, 3, 4, 5, 6, 0]);
    // Leave exactly the four cells of the dropped J piece open in the
    // bottom rows: cols 5..=7 in row 1.
    for x in 1..BOARD_WIDTH - 1 {
        if x < 5 || x > 7 {
            g.board.set_cell(x, 1, 4);
        }
    }
    // One stray block above the row about to clear.
    g.board.set_cell(8, 2, 6);
    g.hard_drop(0);
    // The J fills (7,2) and (7,1),(6,1),(5,1): row 1 is complete.
    assert!(g.board.did_zero);
    assert_eq!(g.board.get_cell(5, 1), 9);
    assert_eq!(g.clear_tick, g.ticks + 20);
    for _ in 0..20 {
        g.update(0);
    }
    assert!(!g.board.did_zero);
    // Row 1 took the pre-clear row 2: the J cell and the stray block.
    assert_eq!(g.board.get_cell(7, 1), 2);
    assert_eq!(g.board.get_cell(8, 1), 6);
    assert_eq!(g.board.get_cell(1, 1), 0);
    assert_eq!(g.board.get_cell(8, 2), 0);
    assert_eq!(g.board.get_cell(7, 2), 0);
}

#[test]
fn spawn_failure_resets_board_to_empty() {
    let mut g = fresh([1, 1, 2, 3, 4, 5, 6]);
    // Occupy the spawn region (without completing rows) so that the
    // piece locks at once and the next spawn cannot fit.
    for x in 5..=9usize {
        for y in 18..=20usize {
            g.board.set_cell(x, y, 7);
        }
    }
    assert!(g.soft_drop(0));
    // The only game-over signal: a fresh, empty board behind walls.
    for x in 0..BOARD_WIDTH {
        for y in 0..BOARD_HEIGHT {
            let border = x == 0 || x == BOARD_WIDTH - 1 || y == 0 || y == BOARD_HEIGHT - 1;
            let expect = if border { 8 } else { 0 };
            assert_eq!(g.board.get_cell(x, y), expect, "cell {} {}", x, y);
        }
    }
    assert!(!g.board.did_zero);
    // The queue still advanced past the failed spawn.
    assert_eq!(g.next_pieces, vec![2, 3, 4, 5, 6, 0]);
}

#[test]
fn identical_sessions_stay_identical() {
    let script = |g: &mut Game| {
        g.move_left();
        g.rotate_cw();
        g.soft_drop(3);
        g.rotate_ccw();
        g.hard_drop(4);
        for _ in 0..120 {
            g.update(2);
        }
    };
    let mut g1 = fresh([6, 5, 4, 3, 2, 1, 0]);
    let mut g2 = fresh([6, 5, 4, 3, 2, 1, 0]);
    script(&mut g1);
    script(&mut g2);
    assert_eq!(g1.tet.piece_data, g2.tet.piece_data);
    assert_eq!((g1.tet.x, g1.tet.y), (g2.tet.x, g2.tet.y));
    assert_eq!(g1.next_pieces, g2.next_pieces);
    assert_eq!(g1.ticks, g2.ticks);
    for x in 0..BOARD_WIDTH {
        for y in 0..BOARD_HEIGHT {
            assert_eq!(g1.board.get_cell(x, y), g2.board.get_cell(x, y));
        }
    }
}

#[test]
fn frame_render_covers_board_piece_ghost_and_previews() {
    let mut g = fresh([1, 2, 3, 4, 5, 6, 0]);
    let reqs = g.render();
    let walls = 2 * BOARD_WIDTH + 2 * BOARD_HEIGHT - 4;
    // 4 active cells, 4 ghost cells, 6 previews of 4 cells each.
    assert_eq!(reqs.len(), walls + 4 + 4 + 24);
    assert_eq!(reqs.iter().filter(|r| r.dim).count(), 4);
    // Preview slots sit left of the board at x <= -5.
    assert_eq!(reqs.iter().filter(|r| r.x <= -5).count(), 24);
}
