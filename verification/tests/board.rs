use tetris::game_options::BOARD_HEIGHT;
use tetris::game_options::BOARD_WIDTH;
use tetris::tetris_board::TetrisBoard;
use tetris::tetromino::Tetromino;

#[test]
fn new_board_has_walls_and_empty_interior() {
    let b = TetrisBoard::new();
    for x in 0..BOARD_WIDTH {
        for y in 0..BOARD_HEIGHT {
            let border = x == 0 || x == BOARD_WIDTH - 1 || y == 0 || y == BOARD_HEIGHT - 1;
            if border {
                assert_eq!(b.get_cell(x, y), 8, "wall missing at {} {}", x, y);
            } else {
                assert_eq!(b.get_cell(x, y), 0, "interior not empty at {} {}", x, y);
            }
        }
    }
    assert!(!b.did_zero);
}

#[test]
fn set_and_get_cell_roundtrip() {
    let mut b = TetrisBoard::new();
    b.set_cell(3, 7, 5);
    assert_eq!(b.get_cell(3, 7), 5);
    assert_eq!(b.get_cell(4, 7), 0);
    assert_eq!(b.get_cell(3, 8), 0);
    b.set_cell(3, 7, 0);
    assert_eq!(b.get_cell(3, 7), 0);
}

#[test]
fn piece_fits_in_open_interior() {
    let b = TetrisBoard::new();
    let t = Tetromino::new_piece(1);
    assert!(b.check_piece_fits(&t));
}

#[test]
fn piece_collides_with_left_wall() {
    let b = TetrisBoard::new();
    let mut t = Tetromino::new_piece(1);
    // The J piece spans columns x-2..=x; the wall column is BOARD_WIDTH-1
    // on the logical left (the renderer mirrors x).
    t.x = (BOARD_WIDTH - 1) as u8;
    t.y = 10;
    assert!(!b.check_piece_fits(&t));
    t.x = (BOARD_WIDTH - 2) as u8;
    assert!(b.check_piece_fits(&t));
}

#[test]
fn piece_collides_with_right_wall() {
    let b = TetrisBoard::new();
    let mut t = Tetromino::new_piece(1);
    // Nonzero J cells sit at columns x, x-1, x-2: anchor 2 puts one on
    // the column-0 wall.
    t.x = 2;
    t.y = 10;
    assert!(!b.check_piece_fits(&t));
    t.x = 3;
    assert!(b.check_piece_fits(&t));
}

#[test]
fn piece_collides_with_floor_and_ceiling() {
    let b = TetrisBoard::new();
    let mut t = Tetromino::new_piece(1);
    // Nonzero J cells sit at rows y and y-1: anchor row 1 puts one on
    // the bottom wall, anchor row 2 is the lowest legal position.
    t.x = 7;
    t.y = 1;
    assert!(!b.check_piece_fits(&t));
    t.y = 2;
    assert!(b.check_piece_fits(&t));
    // Row BOARD_HEIGHT-1 is the top wall.
    t.y = (BOARD_HEIGHT - 1) as u8;
    assert!(!b.check_piece_fits(&t));
    t.y = (BOARD_HEIGHT - 2) as u8;
    assert!(b.check_piece_fits(&t));
}

#[test]
fn piece_rejected_outside_grid() {
    let b = TetrisBoard::new();
    let mut t = Tetromino::new_piece(1);
    // An anchor beyond the grid maps nonzero cells outside the bounds.
    t.x = 40;
    t.y = 10;
    assert!(!b.check_piece_fits(&t));
    t.x = 7;
    t.y = 40;
    assert!(!b.check_piece_fits(&t));
}

#[test]
fn piece_collides_with_occupied_cell() {
    let mut b = TetrisBoard::new();
    let t = Tetromino::new_piece(1);
    // One J cell lands on (6, 19); occupying it must fail the check.
    b.set_cell(6, 19, 7);
    assert!(!b.check_piece_fits(&t));
    b.set_cell(6, 19, 0);
    assert!(b.check_piece_fits(&t));
    // A zero mask cell imposes no constraint: (6, 20) is under the
    // mask's empty top-middle cell.
    b.set_cell(6, 20, 7);
    assert!(b.check_piece_fits(&t));
}

#[test]
fn add_piece_writes_color_ids() {
    let mut b = TetrisBoard::new();
    let mut t = Tetromino::new_piece(1);
    t.x = 7;
    t.y = 10;
    b.add_piece_to_board(&t);
    assert_eq!(b.get_cell(7, 10), 2);
    assert_eq!(b.get_cell(7, 9), 2);
    assert_eq!(b.get_cell(6, 9), 2);
    assert_eq!(b.get_cell(5, 9), 2);
    assert_eq!(b.get_cell(6, 10), 0);
    assert_eq!(b.get_cell(5, 10), 0);
    assert_eq!(b.get_cell(7, 8), 0);
}

#[test]
fn board_render_draws_occupied_cells() {
    let mut b = TetrisBoard::new();
    let reqs = b.render();
    // A fresh board draws exactly its wall cells, sprite index 7.
    let wall_cells = 2 * BOARD_WIDTH + 2 * BOARD_HEIGHT - 4;
    assert_eq!(reqs.len(), wall_cells);
    for r in &reqs {
        assert_eq!(r.sprite, 7);
        assert!(!r.dim);
    }
    b.set_cell(4, 9, 3);
    let reqs2 = b.render();
    assert_eq!(reqs2.len(), wall_cells + 1);
    assert!(reqs2.iter().any(|r| r.x == 4 && r.y == 9 && r.sprite == 2 && !r.dim));
}
