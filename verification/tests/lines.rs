use tetris::game_options::BOARD_WIDTH;
use tetris::tetris_board::TetrisBoard;

fn fill_row(b: &mut TetrisBoard, row: usize, v: u8) {
    for x in 1..BOARD_WIDTH - 1 {
        b.set_cell(x, row, v);
    }
}

#[test]
fn full_row_is_marked_pending() {
    let mut b = TetrisBoard::new();
    fill_row(&mut b, 1, 4);
    b.set_cell(2, 2, 3);
    b.check_line(3, 3);
    assert!(b.did_zero);
    for x in 1..BOARD_WIDTH - 1 {
        assert_eq!(b.get_cell(x, 1), 9, "pending marker missing at col {}", x);
    }
    // The partially filled row above is untouched.
    assert_eq!(b.get_cell(2, 2), 3);
    assert_eq!(b.get_cell(3, 2), 0);
}

#[test]
fn incomplete_row_is_not_marked() {
    let mut b = TetrisBoard::new();
    fill_row(&mut b, 1, 4);
    b.set_cell(5, 1, 0);
    b.check_line(3, 3);
    assert!(!b.did_zero);
    assert_eq!(b.get_cell(1, 1), 4);
    assert_eq!(b.get_cell(5, 1), 0);
}

#[test]
fn scan_ignores_rows_outside_interior() {
    let mut b = TetrisBoard::new();
    fill_row(&mut b, 1, 4);
    // Anchor row 1 with a side of 3 scans rows 1, 0 and below: only the
    // interior row 1 is considered, the walls stay walls.
    b.check_line(3, 1);
    assert!(b.did_zero);
    assert_eq!(b.get_cell(1, 1), 9);
    assert_eq!(b.get_cell(0, 0), 8);
    assert_eq!(b.get_cell(1, 0), 8);
}

#[test]
fn single_line_clear_shifts_row_above_down() {
    let mut b = TetrisBoard::new();
    fill_row(&mut b, 1, 4);
    b.set_cell(2, 2, 3);
    b.set_cell(7, 2, 5);
    b.check_line(3, 3);
    b.clear_lines();
    // The cleared row now equals the pre-clear contents of the row above.
    assert_eq!(b.get_cell(2, 1), 3);
    assert_eq!(b.get_cell(7, 1), 5);
    for x in 1..BOARD_WIDTH - 1 {
        if x != 2 && x != 7 {
            assert_eq!(b.get_cell(x, 1), 0);
        }
        // The row that moved down leaves an empty row behind, and the
        // topmost interior row is empty.
        assert_eq!(b.get_cell(x, 2), 0);
        assert_eq!(b.get_cell(x, 22), 0);
    }
    // Walls are preserved.
    assert_eq!(b.get_cell(0, 1), 8);
    assert_eq!(b.get_cell(BOARD_WIDTH - 1, 1), 8);
}

#[test]
fn clear_lines_without_pending_rows_is_a_no_op() {
    let mut b = TetrisBoard::new();
    b.set_cell(4, 4, 6);
    b.clear_lines();
    assert_eq!(b.get_cell(4, 4), 6);
    b.did_zero = true;
    b.clear_lines();
    assert_eq!(b.get_cell(4, 4), 6);
}

#[test]
fn two_nonadjacent_rows_each_shift_independently() {
    let mut b = TetrisBoard::new();
    fill_row(&mut b, 2, 4);
    fill_row(&mut b, 5, 4);
    b.set_cell(4, 3, 6);
    b.set_cell(5, 4, 5);
    b.set_cell(6, 6, 3);
    b.check_line(5, 6);
    assert!(b.did_zero);
    assert_eq!(b.get_cell(1, 2), 9);
    assert_eq!(b.get_cell(1, 5), 9);
    b.clear_lines();
    // Rows between the two cleared rows move down one row; rows above
    // the higher cleared row move down two.
    assert_eq!(b.get_cell(4, 2), 6);
    assert_eq!(b.get_cell(5, 3), 5);
    assert_eq!(b.get_cell(6, 4), 3);
    for x in 1..BOARD_WIDTH - 1 {
        if x != 4 {
            assert_eq!(b.get_cell(x, 2), 0);
        }
        if x != 5 {
            assert_eq!(b.get_cell(x, 3), 0);
        }
        if x != 6 {
            assert_eq!(b.get_cell(x, 4), 0);
        }
        for y in 5..10 {
            assert_eq!(b.get_cell(x, y), 0);
        }
    }
}
