use vstd::prelude::*;

use crate::game_options::BOARD_HEIGHT;
use crate::game_options::BOARD_WIDTH;
use crate::tetris_board;
use crate::tetris_board::TetrisBoard;

verus! {

/// Base shape mask of the I piece (side 5, color id 1).
pub open spec fn cyan_shape() -> Seq<u8> {
    seq![
        0u8, 0, 0, 0, 0,
        0, 0, 0, 0, 0,
        0, 1, 1, 1, 1,
        0, 0, 0, 0, 0,
        0, 0, 0, 0, 0,
    ]
}

/// Base shape mask of the J piece (side 3, color id 2).
pub open spec fn blue_shape() -> Seq<u8> {
    seq![2u8, 0, 0, 2, 2, 2, 0, 0, 0]
}

/// Base shape mask of the L piece (side 3, color id 3).
pub open spec fn orange_shape() -> Seq<u8> {
    seq![0u8, 0, 3, 3, 3, 3, 0, 0, 0]
}

/// Base shape mask of the O piece (side 3, color id 4).
pub open spec fn yellow_shape() -> Seq<u8> {
    seq![0u8, 4, 4, 0, 4, 4, 0, 0, 0]
}

/// Base shape mask of the S piece (side 3, color id 5).
pub open spec fn green_shape() -> Seq<u8> {
    seq![0u8, 5, 5, 5, 5, 0, 0, 0, 0]
}

/// Base shape mask of the T piece (side 3, color id 6).
pub open spec fn purple_shape() -> Seq<u8> {
    seq![0u8, 6, 0, 6, 6, 6, 0, 0, 0]
}

/// Base shape mask of the Z piece (side 3, color id 7).
pub open spec fn red_shape() -> Seq<u8> {
    seq![7u8, 7, 0, 0, 7, 7, 0, 0, 0]
}

/// Standard 5-test wall-kick offset table (mirrored-x Super Rotation System
/// data), one (dx, dy) pair per rotation state and test index.
pub open spec fn standard_offsets() -> Seq<i8> {
    seq![
        0i8, 0, 0, 0, 0, 0, 0, 0, 0, 0,
        0, 0, -1i8, 0, -1i8, -1i8, 0, 2, -1i8, 2,
        0, 0, 0, 0, 0, 0, 0, 0, 0, 0,
        0, 0, 1, 0, 1, -1i8, 0, 2, 1, 2,
    ]
}

/// 5-test wall-kick offset table of the I piece.
pub open spec fn cyan_kick_offsets() -> Seq<i8> {
    seq![
        0i8, 0, 1, 0, -2i8, 0, 1, 0, -2i8, 0,
        1, 0, 0, 0, 0, 0, 0, 1, 0, -2i8,
        1, 1, -1i8, 1, 2, 1, -1i8, 0, 2, 0,
        0, 1, 0, 1, 0, 1, 0, -1i8, 0, 2,
    ]
}

/// Simplified 1-test offset table of the O piece: no wall kicks, offsets
/// only keep its center aligned across rotation states.
pub open spec fn yellow_kick_offsets() -> Seq<i8> {
    seq![0i8, 0, 0, -1i8, 1, -1i8, 1, 0]
}

/// A piece kind's wall-kick offset table: the standard shape runs 5 tests
/// per rotation, the simplified shape a single one.
pub enum WallKickTable {
    Standard(Vec<i8>),
    Simple(Vec<i8>),
}

/// Number of kick tests the table provides per rotation attempt.
pub open spec fn tests_of(t: WallKickTable) -> int {
    match t {
        WallKickTable::Standard(_) => 5,
        WallKickTable::Simple(_) => 1,
    }
}

/// The table's flat contents: one (dx, dy) pair per rotation state and
/// test index, rotation state outermost.
pub open spec fn table_seq(t: WallKickTable) -> Seq<i8> {
    match t {
        WallKickTable::Standard(v) => v@,
        WallKickTable::Simple(v) => v@,
    }
}

/// The table holds exactly 4 rotation states of (dx, dy) pairs.
pub open spec fn wf_table(t: WallKickTable) -> bool {
    table_seq(t).len() == 4 * 2 * tests_of(t)
}

/// Horizontal candidate offset of kick test `i` for a rotation from state
/// `from` to state `to`: the test offset of the current state minus the
/// test offset of the target state.
pub open spec fn kick_dx(t: WallKickTable, from: int, to: int, i: int) -> int {
    table_seq(t)[from * 2 * tests_of(t) + 2 * i] - table_seq(t)[to * 2 * tests_of(t) + 2 * i]
}

/// Vertical candidate offset of kick test `i`, as `kick_dx`.
pub open spec fn kick_dy(t: WallKickTable, from: int, to: int, i: int) -> int {
    table_seq(t)[from * 2 * tests_of(t) + 2 * i + 1] - table_seq(t)[to * 2 * tests_of(t) + 2 * i
        + 1]
}

/// Index into the base shape that rotation state `r` reads to produce
/// mask cell `i`: exact integer index algebra for 0, 90, 180, 270 degrees.
pub open spec fn rotated_index(side: int, r: int, i: int) -> int {
    let ix = i % side;
    let iy = i / side;
    if r == 1 {
        (side - 1 - ix) * side + iy
    } else if r == 2 {
        side * side - 1 - i
    } else if r == 3 {
        ix * side + (side - 1 - iy)
    } else {
        i
    }
}

/// The rotated cell mask for rotation state `r`: a pure function of the
/// base shape, the rotation state and the grid side length.
pub open spec fn mask_of(stat: Seq<u8>, side: int, r: int) -> Seq<u8> {
    Seq::new(stat.len(), |i: int| stat[rotated_index(side, r, i)])
}

pub proof fn lemma_rotated_index_bounds(side: int, r: int, i: int)
    requires
        1 <= side,
        0 <= i < side * side,
    ensures
        0 <= rotated_index(side, r, i) < side * side,
{
    let ix = i % side;
    let iy = i / side;
    assert(0 <= ix < side && 0 <= iy < side && iy * side + ix == i) by (nonlinear_arith)
        requires
            1 <= side,
            0 <= i < side * side,
            ix == i % side,
            iy == i / side,
    ;
    if r == 1 {
        assert(0 <= (side - 1 - ix) * side + iy < side * side) by (nonlinear_arith)
            requires
                0 <= ix < side,
                0 <= iy < side,
        ;
    } else if r == 3 {
        assert(0 <= ix * side + (side - 1 - iy) < side * side) by (nonlinear_arith)
            requires
                0 <= ix < side,
                0 <= iy < side,
        ;
    }
}

/// Each rotation state's index transform is onto: every base-shape index
/// is read by some mask cell.
pub proof fn lemma_rotated_index_onto(side: int, r: int, j: int)
    requires
        1 <= side,
        0 <= r < 4,
        0 <= j < side * side,
    ensures
        exists|i: int| 0 <= i < side * side && #[trigger] rotated_index(side, r, i) == j,
{
    let jx = j % side;
    let jy = j / side;
    assert(0 <= jx < side && 0 <= jy < side && jy * side + jx == j) by (nonlinear_arith)
        requires
            1 <= side,
            0 <= j < side * side,
            jx == j % side,
            jy == j / side,
    ;
    if r == 0 {
        assert(rotated_index(side, 0, j) == j);
    } else if r == 1 {
        let i = jx * side + (side - 1 - jy);
        assert(0 <= i < side * side && i % side == side - 1 - jy && i / side == jx)
            by (nonlinear_arith)
            requires
                0 <= jx < side,
                0 <= jy < side,
                1 <= side,
                i == jx * side + (side - 1 - jy),
        ;
        assert((side - 1 - (i % side)) * side + i / side == j) by (nonlinear_arith)
            requires
                i % side == side - 1 - jy,
                i / side == jx,
                jy * side + jx == j,
        ;
        assert(rotated_index(side, 1, i) == j);
    } else if r == 2 {
        let i = side * side - 1 - j;
        assert(rotated_index(side, 2, i) == j);
    } else {
        let i = (side - 1 - jx) * side + jy;
        assert(0 <= i < side * side && i % side == jy && i / side == side - 1 - jx)
            by (nonlinear_arith)
            requires
                0 <= jx < side,
                0 <= jy < side,
                1 <= side,
                i == (side - 1 - jx) * side + jy,
        ;
        assert((i % side) * side + (side - 1 - (i / side)) == j) by (nonlinear_arith)
            requires
                i % side == jy,
                i / side == side - 1 - jx,
                jy * side + jx == j,
        ;
        assert(rotated_index(side, 3, i) == j);
    }
}

/// Rotation permutes the shape's cells, so a shape with a nonzero cell
/// keeps one in every rotation state.
pub proof fn lemma_mask_has_nonzero(stat: Seq<u8>, side: int, r: int)
    requires
        1 <= side,
        0 <= r < 4,
        stat.len() == side * side,
        exists|j: int| 0 <= j < stat.len() && #[trigger] stat[j] != 0,
    ensures
        exists|i: int|
            0 <= i < mask_of(stat, side, r).len() && #[trigger] mask_of(stat, side, r)[i] != 0,
{
    let j = choose|j: int| 0 <= j < stat.len() && #[trigger] stat[j] != 0;
    lemma_rotated_index_onto(side, r, j);
    let i = choose|i: int| 0 <= i < side * side && #[trigger] rotated_index(side, r, i) == j;
    assert(mask_of(stat, side, r)[i] == stat[j]);
}

/// A rotated mask permutes the base shape's cells, so its values stay
/// within the shape's color-id range.
pub proof fn lemma_mask_vals(stat: Seq<u8>, side: int, r: int)
    requires
        1 <= side,
        stat.len() == side * side,
        forall|j: int| 0 <= j < stat.len() ==> #[trigger] stat[j] <= 7,
    ensures
        forall|i: int|
            0 <= i < mask_of(stat, side, r).len() ==> #[trigger] mask_of(stat, side, r)[i] <= 7,
{
    assert forall|i: int| 0 <= i < mask_of(stat, side, r).len() implies #[trigger] mask_of(
        stat,
        side,
        r,
    )[i] <= 7 by {
        lemma_rotated_index_bounds(side, r, i);
        assert(stat[rotated_index(side, r, i)] <= 7);
    }
}

/// A fitting anchored mask with at least one occupied cell keeps its
/// anchor within one mask side of the grid.
pub proof fn lemma_fits_anchor_bounds(b: Seq<u8>, m: Seq<u8>, side: int, ax: int, ay: int)
    requires
        1 <= side,
        m.len() == side * side,
        tetris_board::spec_fits(b, m, side, ax, ay),
        exists|j: int| 0 <= j < m.len() && #[trigger] m[j] != 0,
    ensures
        0 <= ax < BOARD_WIDTH + side - 1,
        0 <= ay < BOARD_HEIGHT + side - 1,
{
    let j = choose|j: int| 0 <= j < m.len() && #[trigger] m[j] != 0;
    let jx = j % side;
    let jy = j / side;
    assert(0 <= jx < side && 0 <= jy < side && jy * side + jx == j) by (nonlinear_arith)
        requires
            1 <= side,
            0 <= j < side * side,
            jx == j % side,
            jy == j / side,
    ;
    assert(tetris_board::mask_at(m, side, jx, jy) != 0);
    assert(tetris_board::in_bounds(ax - jx, ay - jy));
}

/// The lowest anchor row at or below `y` from which the mask still fits
/// at every row on the way down: the resting row of a dropped piece.
pub open spec fn drop_y(b: Seq<u8>, m: Seq<u8>, side: int, x: int, y: int) -> int
    decreases y,
{
    if y <= 0 {
        y
    } else if !tetris_board::spec_fits(b, m, side, x, y - 1) {
        y
    } else {
        drop_y(b, m, side, x, y - 1)
    }
}

/// The rotation state reached from `r` by one step in direction `d`
/// (+1 clockwise, -1 counterclockwise), wrapping within 0..=3.
pub open spec fn wrap_rot(r: int, d: int) -> int {
    if r + d < 0 {
        3
    } else if r + d > 3 {
        0
    } else {
        r + d
    }
}

/// Candidate anchor column of kick test `i` when the piece rotates from
/// its current state to state `to`.
pub open spec fn cand_x(t: Tetromino, to: int, i: int) -> int {
    t.x + kick_dx(t.piece_offsets, t.rotation as int, to, i)
}

/// Candidate anchor row of kick test `i`, as `cand_x`.
pub open spec fn cand_y(t: Tetromino, to: int, i: int) -> int {
    t.y + kick_dy(t.piece_offsets, t.rotation as int, to, i)
}

/// The first kick test index at or after `i` whose candidate position
/// fits on the board `b` with the rotated mask for state `to`.
pub open spec fn first_fit_from(b: Seq<u8>, t: Tetromino, to: int, i: int) -> Option<int>
    decreases tests_of(t.piece_offsets) - i,
{
    if i >= tests_of(t.piece_offsets) {
        None
    } else if tetris_board::spec_fits(
        b,
        mask_of(t.static_piece_data@, t.rotation_constant as int, to),
        t.rotation_constant as int,
        cand_x(t, to, i),
        cand_y(t, to, i),
    ) {
        Some(i)
    } else {
        first_fit_from(b, t, to, i + 1)
    }
}

/// The rotation state a rotation attempt in direction `d` aims for.
pub open spec fn rotate_target(t: Tetromino, d: int) -> int {
    wrap_rot(t.rotation as int, d)
}

/// Outcome of a rotation attempt of piece `t` in direction `d` on board
/// occupancy `b`: the winning kick test, or `None` when every test
/// collides. A pure function of the piece, the direction and the board.
pub open spec fn rotate_attempt(b: Seq<u8>, t: Tetromino, d: int) -> Option<int> {
    first_fit_from(b, t, rotate_target(t, d), 0)
}

/// A successful kick search never reports an index before its start.
pub proof fn lemma_first_fit_min(b: Seq<u8>, t: Tetromino, to: int, i: int)
    ensures
        match first_fit_from(b, t, to, i) {
            Some(j) => i <= j < tests_of(t.piece_offsets) && tetris_board::spec_fits(
                b,
                mask_of(t.static_piece_data@, t.rotation_constant as int, to),
                t.rotation_constant as int,
                cand_x(t, to, j),
                cand_y(t, to, j),
            ),
            None => true,
        },
    decreases tests_of(t.piece_offsets) - i,
{
    if i >= tests_of(t.piece_offsets) {
    } else if tetris_board::spec_fits(
        b,
        mask_of(t.static_piece_data@, t.rotation_constant as int, to),
        t.rotation_constant as int,
        cand_x(t, to, i),
        cand_y(t, to, i),
    ) {
    } else {
        lemma_first_fit_min(b, t, to, i + 1);
    }
}

/// The piece state reached when a rotation attempt in direction `d`
/// succeeds at the table's first kick test. The rotated mask itself is
/// not tracked here: it is determined by the rotation state.
pub open spec fn kicked_piece(t: Tetromino, d: int) -> Tetromino {
    let to = rotate_target(t, d);
    Tetromino {
        rotation: to as u8,
        x: cand_x(t, to, 0) as u8,
        y: cand_y(t, to, 0) as u8,
        ..t
    }
}

/// Law (rotation idempotence): if four successive rotation attempts in
/// one direction each succeed at the table's first kick test, the piece
/// returns to its original rotation state, position, and therefore its
/// original rotated mask.
pub proof fn lemma_rotation_cycle(b: Seq<u8>, t: Tetromino, d: int)
    requires
        t.wf(),
        d == 1 || d == -1,
        rotate_attempt(b, t, d) == Some(0int),
        rotate_attempt(b, kicked_piece(t, d), d) == Some(0int),
        rotate_attempt(b, kicked_piece(kicked_piece(t, d), d), d) == Some(0int),
        rotate_attempt(b, kicked_piece(kicked_piece(kicked_piece(t, d), d), d), d) == Some(0int),
    ensures
        ({
            let q = kicked_piece(kicked_piece(kicked_piece(kicked_piece(t, d), d), d), d);
            &&& q.rotation == t.rotation
            &&& q.x == t.x
            &&& q.y == t.y
            &&& mask_of(t.static_piece_data@, t.rotation_constant as int, q.rotation as int)
                == t.piece_data@
        }),
{
    let side = t.rotation_constant as int;
    let tb = t.piece_offsets;
    let n = tests_of(tb);
    let r0 = t.rotation as int;
    let r1 = rotate_target(t, d);
    let q1 = kicked_piece(t, d);
    lemma_anchor_in_range(b, t, d);
    assert(q1.rotation == r1 && q1.x == t.x + kick_dx(tb, r0, r1, 0) && q1.y == t.y + kick_dy(
        tb,
        r0,
        r1,
        0,
    ));
    let r2 = rotate_target(q1, d);
    let q2 = kicked_piece(q1, d);
    lemma_anchor_in_range(b, q1, d);
    let r3 = rotate_target(q2, d);
    let q3 = kicked_piece(q2, d);
    lemma_anchor_in_range(b, q2, d);
    let r4 = rotate_target(q3, d);
    let q4 = kicked_piece(q3, d);
    lemma_anchor_in_range(b, q3, d);
    assert(r4 == r0);
    assert(kick_dx(tb, r0, r1, 0) + kick_dx(tb, r1, r2, 0) + kick_dx(tb, r2, r3, 0) + kick_dx(
        tb,
        r3,
        r4,
        0,
    ) == 0);
    assert(kick_dy(tb, r0, r1, 0) + kick_dy(tb, r1, r2, 0) + kick_dy(tb, r2, r3, 0) + kick_dy(
        tb,
        r3,
        r4,
        0,
    ) == 0);
}

/// The first kick candidate of a successful attempt stays within the u8
/// coordinate range, so taking it as the new anchor loses nothing.
proof fn lemma_anchor_in_range(b: Seq<u8>, t: Tetromino, d: int)
    requires
        t.rotation_constant == 3 || t.rotation_constant == 5,
        t.static_piece_data@.len() == t.rotation_constant * t.rotation_constant,
        exists|j: int|
            0 <= j < t.static_piece_data@.len() && #[trigger] t.static_piece_data@[j] != 0,
        rotate_attempt(b, t, d) == Some(0int),
    ensures
        0 <= cand_x(t, rotate_target(t, d), 0) <= 255,
        0 <= cand_y(t, rotate_target(t, d), 0) <= 255,
        kicked_piece(t, d).x == cand_x(t, rotate_target(t, d), 0),
        kicked_piece(t, d).y == cand_y(t, rotate_target(t, d), 0),
{
    let to = rotate_target(t, d);
    let side = t.rotation_constant as int;
    lemma_first_fit_min(b, t, to, 0);
    lemma_mask_has_nonzero(t.static_piece_data@, side, to);
    lemma_fits_anchor_bounds(
        b,
        mask_of(t.static_piece_data@, side, to),
        side,
        cand_x(t, to, 0),
        cand_y(t, to, 0),
    );
}

/// Law (wall-kick determinism): the outcome of a rotation attempt — the
/// winning kick test and with it the resulting state and position — is a
/// pure function of the piece's shape, kick table, rotation state and
/// position, the direction, and the board occupancy. Two identical
/// attempts resolve identically.
pub proof fn lemma_rotation_deterministic(
    b1: Seq<u8>,
    t1: Tetromino,
    b2: Seq<u8>,
    t2: Tetromino,
    d: int,
)
    requires
        b1 == b2,
        t1.piece_offsets == t2.piece_offsets,
        t1.static_piece_data@ == t2.static_piece_data@,
        t1.rotation_constant == t2.rotation_constant,
        t1.rotation == t2.rotation,
        t1.x == t2.x,
        t1.y == t2.y,
    ensures
        rotate_attempt(b1, t1, d) == rotate_attempt(b2, t2, d),
        rotate_target(t1, d) == rotate_target(t2, d),
        forall|i: int|
            #[trigger] cand_x(t1, rotate_target(t1, d), i) == cand_x(t2, rotate_target(t2, d), i)
                && #[trigger] cand_y(t1, rotate_target(t1, d), i) == cand_y(
                t2,
                rotate_target(t2, d),
                i,
            ),
{
    lemma_first_fit_congruent(b1, t1, t2, rotate_target(t1, d), 0);
}

proof fn lemma_first_fit_congruent(b: Seq<u8>, t1: Tetromino, t2: Tetromino, to: int, i: int)
    requires
        t1.piece_offsets == t2.piece_offsets,
        t1.static_piece_data@ == t2.static_piece_data@,
        t1.rotation_constant == t2.rotation_constant,
        t1.rotation == t2.rotation,
        t1.x == t2.x,
        t1.y == t2.y,
    ensures
        first_fit_from(b, t1, to, i) == first_fit_from(b, t2, to, i),
    decreases tests_of(t1.piece_offsets) - i,
{
    if i < tests_of(t1.piece_offsets) {
        lemma_first_fit_congruent(b, t1, t2, to, i + 1);
    }
}

/// The seven piece kinds' catalog data: base shape, side length, wall-kick
/// table and spawn position, all deterministic in the kind id. Kind ids
/// above the catalog fall back to the last shape, as `new_piece` does.
pub open spec fn shape_of(k: u8) -> Seq<u8> {
    if k == 0 {
        cyan_shape()
    } else if k == 1 {
        blue_shape()
    } else if k == 2 {
        orange_shape()
    } else if k == 3 {
        yellow_shape()
    } else if k == 4 {
        green_shape()
    } else if k == 5 {
        purple_shape()
    } else {
        red_shape()
    }
}

/// Side length of the kind's square shape mask.
pub open spec fn side_of(k: u8) -> u8 {
    if k == 0 {
        5u8
    } else {
        3u8
    }
}

/// Spawn anchor column of the kind.
pub open spec fn spawn_x(k: u8) -> u8 {
    if k == 0 {
        8u8
    } else {
        7u8
    }
}

/// Spawn anchor row of the kind.
pub open spec fn spawn_y(k: u8) -> u8 {
    if k == 0 {
        22u8
    } else {
        20u8
    }
}

/// Contents of the kind's wall-kick offset table.
pub open spec fn offsets_of(k: u8) -> Seq<i8> {
    if k == 0 {
        cyan_kick_offsets()
    } else if k == 3 {
        yellow_kick_offsets()
    } else {
        standard_offsets()
    }
}

/// A single active piece: its rotated cell mask, base shape, wall-kick
/// table, square side length, rotation state and anchor position.
pub struct Tetromino {
    pub piece_data: Vec<u8>,
    pub static_piece_data: Vec<u8>,
    pub piece_offsets: WallKickTable,
    pub rotation_constant: u8,
    pub rotation: u8,
    pub x: u8,
    pub y: u8,
}

impl Tetromino {
    /// Internal invariant: a square shape of side 3 or 5 with some
    /// occupied cell, a rotation state below 4, the rotated mask derived
    /// from the base shape by the rotation-state index transform, and a
    /// well-formed kick table.
    pub open spec fn wf(&self) -> bool {
        &&& (self.rotation_constant == 3 || self.rotation_constant == 5)
        &&& self.static_piece_data@.len() == self.rotation_constant * self.rotation_constant
        &&& self.rotation < 4
        &&& self.piece_data@ == mask_of(
            self.static_piece_data@,
            self.rotation_constant as int,
            self.rotation as int,
        )
        &&& wf_table(self.piece_offsets)
        &&& exists|j: int|
            0 <= j < self.static_piece_data@.len() && #[trigger] self.static_piece_data@[j] != 0
        &&& forall|j: int|
            0 <= j < self.static_piece_data@.len() ==> #[trigger] self.static_piece_data@[j] <= 7
    }

    /// The piece is exactly a freshly spawned piece of kind `k`.
    pub open spec fn is_spawn(&self, k: u8) -> bool {
        &&& self.x == spawn_x(k)
        &&& self.y == spawn_y(k)
        &&& self.rotation == 0
        &&& self.rotation_constant == side_of(k)
        &&& self.static_piece_data@ == shape_of(k)
        &&& self.piece_data@ == shape_of(k)
        &&& table_seq(self.piece_offsets) == offsets_of(k)
        &&& (self.piece_offsets is Simple <==> k == 3)
    }

    /// Read the piece's rotation state.
    pub fn rotation_state(&self) -> (r: u8)
        ensures
            r == self.rotation,
    {
        self.rotation
    }

    /// Spawn a fresh piece of the given kind at its spawn position and
    /// rotation state 0. The kind id fully determines the result.
    #[verifier::rlimit(60)]
    pub fn new_piece(piece: u8) -> (t: Tetromino)
        ensures
            t.wf(),
            t.is_spawn(piece),
    {
        let (x, y): (u8, u8) = if piece == 0 {
            (8, 22)
        } else {
            (7, 20)
        };
        let piece_data: Vec<u8> = if piece == 0 {
            vec![
                0u8, 0, 0, 0, 0,
                0, 0, 0, 0, 0,
                0, 1, 1, 1, 1,
                0, 0, 0, 0, 0,
                0, 0, 0, 0, 0,
            ]
        } else if piece == 1 {
            vec![2u8, 0, 0, 2, 2, 2, 0, 0, 0]
        } else if piece == 2 {
            vec![0u8, 0, 3, 3, 3, 3, 0, 0, 0]
        } else if piece == 3 {
            vec![0u8, 4, 4, 0, 4, 4, 0, 0, 0]
        } else if piece == 4 {
            vec![0u8, 5, 5, 5, 5, 0, 0, 0, 0]
        } else if piece == 5 {
            vec![0u8, 6, 0, 6, 6, 6, 0, 0, 0]
        } else {
            vec![7u8, 7, 0, 0, 7, 7, 0, 0, 0]
        };
        let piece_offsets: WallKickTable = if piece == 0 {
            WallKickTable::Standard(
                vec![
                    0i8, 0, 1, 0, -2, 0, 1, 0, -2, 0,
                    1, 0, 0, 0, 0, 0, 0, 1, 0, -2,
                    1, 1, -1, 1, 2, 1, -1, 0, 2, 0,
                    0, 1, 0, 1, 0, 1, 0, -1, 0, 2,
                ],
            )
        } else if piece == 3 {
            WallKickTable::Simple(vec![0i8, 0, 0, -1, 1, -1, 1, 0])
        } else {
            WallKickTable::Standard(
                vec![
                    0i8, 0, 0, 0, 0, 0, 0, 0, 0, 0,
                    0, 0, -1, 0, -1, -1, 0, 2, -1, 2,
                    0, 0, 0, 0, 0, 0, 0, 0, 0, 0,
                    0, 0, 1, 0, 1, -1, 0, 2, 1, 2,
                ],
            )
        };
        let rotation_constant: u8 = if piece == 0 {
            5
        } else {
            3
        };
        let static_piece_data = copy_mask(&piece_data);
        proof {
            assert(piece_data@ =~= shape_of(piece));
            assert(table_seq(piece_offsets) =~= offsets_of(piece));
            assert(mask_of(piece_data@, rotation_constant as int, 0) =~= piece_data@);
            if piece == 0 {
                assert(shape_of(piece)[11] != 0);
            } else if piece == 1 {
                assert(shape_of(piece)[0] != 0);
            } else if piece == 2 {
                assert(shape_of(piece)[2] != 0);
            } else if piece == 3 {
                assert(shape_of(piece)[1] != 0);
            } else if piece == 4 {
                assert(shape_of(piece)[1] != 0);
            } else if piece == 5 {
                assert(shape_of(piece)[1] != 0);
            } else {
                assert(shape_of(piece)[0] != 0);
            }
        }
        let t = Tetromino {
            piece_data,
            static_piece_data,
            piece_offsets,
            rotation_constant,
            rotation: 0,
            x,
            y,
        };
        proof {
            assert(t.static_piece_data@ == shape_of(piece));
            assert(exists|j: int|
                0 <= j < t.static_piece_data@.len() && #[trigger] t.static_piece_data@[j] != 0);
            assert(t.piece_data@ == mask_of(
                t.static_piece_data@,
                t.rotation_constant as int,
                t.rotation as int,
            ));
            assert(t.wf());
            assert(t.is_spawn(piece));
        }
        t
    }

    /// Translate the piece by (`dx`, `dy`) if the target position fits;
    /// a colliding move reverts and reports false.
    pub fn move_piece(&mut self, dx: i8, dy: i8, board: &TetrisBoard) -> (r: bool)
        requires
            old(self).wf(),
            board.wf(),
        ensures
            final(self).wf(),
            r == tetris_board::spec_fits(
                board.grid(),
                old(self).piece_data@,
                old(self).rotation_constant as int,
                old(self).x + dx,
                old(self).y + dy,
            ),
            r ==> *final(self) == (Tetromino {
                x: (old(self).x + dx) as u8,
                y: (old(self).y + dy) as u8,
                ..*old(self)
            }),
            !r ==> *final(self) == *old(self),
    {
        let nx = self.x as i32 + dx as i32;
        let ny = self.y as i32 + dy as i32;
        if board.fits_at(&self.piece_data, self.rotation_constant, nx, ny) {
            proof {
                lemma_piece_mask_nonzero(*self);
                lemma_fits_anchor_bounds(
                    board.grid(),
                    self.piece_data@,
                    self.rotation_constant as int,
                    nx as int,
                    ny as int,
                );
            }
            self.x = nx as u8;
            self.y = ny as u8;
            true
        } else {
            false
        }
    }

    /// Gravity step. If the row below fits, the piece falls one row and
    /// the board is untouched (returns false). Otherwise the piece locks
    /// where it stands: it is merged into the board, line detection runs
    /// over the rows it spans, and true signals the caller to spawn.
    pub fn force_down(&mut self, board: &mut TetrisBoard) -> (r: bool)
        requires
            old(self).wf(),
            old(board).wf(),
            tetris_board::spec_inside(
                old(self).piece_data@,
                old(self).rotation_constant as int,
                old(self).x as int,
                old(self).y as int,
            ),
        ensures
            final(self).wf(),
            final(board).wf(),
            r == !tetris_board::spec_fits(
                old(board).grid(),
                old(self).piece_data@,
                old(self).rotation_constant as int,
                old(self).x as int,
                old(self).y as int - 1,
            ),
            !r ==> *final(board) == *old(board) && *final(self) == (Tetromino {
                y: (old(self).y - 1) as u8,
                ..*old(self)
            }),
            r ==> *final(self) == *old(self) && final(board).grid() == tetris_board::mark_lines(
                tetris_board::place_piece(
                    old(board).grid(),
                    old(self).piece_data@,
                    old(self).rotation_constant as int,
                    old(self).x as int,
                    old(self).y as int,
                ),
                old(self).rotation_constant as int,
                old(self).y as int,
            ),
            r ==> final(board).did_zero == (old(board).did_zero || exists|rr: int|
                #[trigger] tetris_board::newly_full(
                    tetris_board::place_piece(
                        old(board).grid(),
                        old(self).piece_data@,
                        old(self).rotation_constant as int,
                        old(self).x as int,
                        old(self).y as int,
                    ),
                    old(self).rotation_constant as int,
                    old(self).y as int,
                    rr,
                )),
            r ==> forall|rr: int|
                #[trigger] final(board).has_pending(rr) <==> (old(board).has_pending(rr)
                    || tetris_board::newly_full(
                    tetris_board::place_piece(
                        old(board).grid(),
                        old(self).piece_data@,
                        old(self).rotation_constant as int,
                        old(self).x as int,
                        old(self).y as int,
                    ),
                    old(self).rotation_constant as int,
                    old(self).y as int,
                    rr,
                )),
    {
        let ny = self.y as i32 - 1;
        if board.fits_at(&self.piece_data, self.rotation_constant, self.x as i32, ny) {
            proof {
                lemma_piece_mask_nonzero(*self);
                lemma_fits_anchor_bounds(
                    board.grid(),
                    self.piece_data@,
                    self.rotation_constant as int,
                    self.x as int,
                    ny as int,
                );
            }
            self.y = ny as u8;
            false
        } else {
            board.add_piece_to_board(self);
            board.check_line(self.rotation_constant, self.y);
            true
        }
    }

    /// The resting position the piece would reach if dropped now: probe
    /// one-row-down moves until the first collision, without disturbing
    /// the piece's committed position or rotation.
    pub fn get_ghost(&mut self, board: &TetrisBoard) -> (g: (u8, u8))
        requires
            old(self).wf(),
            board.wf(),
        ensures
            *final(self) == *old(self),
            g.0 == old(self).x,
            g.1 as int == (if tetris_board::spec_fits(
                board.grid(),
                old(self).piece_data@,
                old(self).rotation_constant as int,
                old(self).x as int,
                old(self).y as int,
            ) {
                drop_y(
                    board.grid(),
                    old(self).piece_data@,
                    old(self).rotation_constant as int,
                    old(self).x as int,
                    old(self).y as int,
                )
            } else {
                old(self).y as int
            }),
    {
        let gx = self.x;
        let mut gy: i32 = self.y as i32;
        let ghost b = board.grid();
        let ghost m = self.piece_data@;
        let ghost side = self.rotation_constant as int;
        let ghost x0 = self.x as int;
        let ghost y0 = self.y as int;
        if board.fits_at(&self.piece_data, self.rotation_constant, self.x as i32, gy) {
            proof {
                lemma_piece_mask_nonzero(*self);
                lemma_fits_anchor_bounds(b, m, side, x0, gy as int);
            }
            while board.fits_at(&self.piece_data, self.rotation_constant, self.x as i32, gy - 1)
                invariant
                    self.wf(),
                    board.wf(),
                    *self == *old(self),
                    b == board.grid(),
                    m == self.piece_data@,
                    side == self.rotation_constant as int,
                    x0 == self.x as int,
                    y0 == self.y as int,
                    0 <= gy <= y0,
                    tetris_board::spec_fits(b, m, side, x0, gy as int),
                    drop_y(b, m, side, x0, y0) == drop_y(b, m, side, x0, gy as int),
                decreases gy,
            {
                proof {
                    lemma_piece_mask_nonzero(*self);
                    lemma_fits_anchor_bounds(b, m, side, x0, gy - 1);
                }
                gy = gy - 1;
            }
            proof {
                assert(drop_y(b, m, side, x0, gy as int) == gy);
            }
        }
        (gx, gy as u8)
    }

    /// Rotate the piece one step (+1 CW, -1 CCW) with wall-kick
    /// resolution: recompute the mask for the target state, then try the
    /// table's candidate offsets in order; the first that fits commits
    /// the new rotation state, mask and position. If none fits, the
    /// rotation is rejected and the piece is left exactly as it was.
    pub fn rotate_piece(&mut self, rotate: i8, board: &TetrisBoard) -> (r: bool)
        requires
            old(self).wf(),
            board.wf(),
            rotate == 1 || rotate == -1,
        ensures
            final(self).wf(),
            ({
                let to = rotate_target(*old(self), rotate as int);
                match rotate_attempt(board.grid(), *old(self), rotate as int) {
                    Some(i) => r && *final(self) == (Tetromino {
                        piece_data: final(self).piece_data,
                        rotation: to as u8,
                        x: cand_x(*old(self), to, i) as u8,
                        y: cand_y(*old(self), to, i) as u8,
                        ..*old(self)
                    }) && final(self).piece_data@ == mask_of(
                        old(self).static_piece_data@,
                        old(self).rotation_constant as int,
                        to,
                    ) && final(self).x as int == cand_x(*old(self), to, i) && final(self).y as int
                        == cand_y(*old(self), to, i),
                    None => !r && *final(self) == *old(self),
                }
            }),
    {
        let ghost t0 = *self;
        let ghost b = board.grid();
        let to: u8 = if rotate == -1 {
            if self.rotation == 0 {
                3
            } else {
                self.rotation - 1
            }
        } else {
            if self.rotation == 3 {
                0
            } else {
                self.rotation + 1
            }
        };
        proof {
            assert(to as int == rotate_target(t0, rotate as int));
        }
        let new_mask = rotated_mask(&self.static_piece_data, self.rotation_constant, to);
        let (num_tests, stride): (u8, usize) = match &self.piece_offsets {
            WallKickTable::Standard(_) => (5, 10),
            WallKickTable::Simple(_) => (1, 2),
        };
        let mut i: u8 = 0;
        while i < num_tests
            invariant
                self.wf(),
                board.wf(),
                *self == t0,
                b == board.grid(),
                rotate == 1 || rotate == -1,
                to as int == rotate_target(t0, rotate as int),
                to < 4,
                new_mask@ == mask_of(
                    t0.static_piece_data@,
                    t0.rotation_constant as int,
                    to as int,
                ),
                num_tests as int == tests_of(t0.piece_offsets),
                1 <= num_tests <= 5,
                stride == 2 * num_tests,
                i <= num_tests,
                t0 == *old(self),
                first_fit_from(b, t0, to as int, 0) == first_fit_from(b, t0, to as int, i as int),
            decreases num_tests - i,
        {
            let table: &Vec<i8> = match &self.piece_offsets {
                WallKickTable::Standard(v) => v,
                WallKickTable::Simple(v) => v,
            };
            proof {
                assert(table@ == table_seq(t0.piece_offsets));
                assert(table@.len() == 4 * stride && self.rotation as int * stride + 2 * i + 1
                    < 4 * stride && to as int * stride + 2 * i + 1 < 4 * stride)
                    by (nonlinear_arith)
                    requires
                        table@.len() == 4 * 2 * (num_tests as int),
                        stride == 2 * num_tests,
                        1 <= num_tests <= 5,
                        self.rotation < 4,
                        to < 4,
                        0 <= i < num_tests,
                ;
            }
            let from_base = self.rotation as usize * stride + 2 * i as usize;
            let to_base = to as usize * stride + 2 * i as usize;
            let dx = table[from_base] as i32 - table[to_base] as i32;
            let dy = table[from_base + 1] as i32 - table[to_base + 1] as i32;
            let cx = self.x as i32 + dx;
            let cy = self.y as i32 + dy;
            proof {
                assert(from_base as int == t0.rotation as int * 2 * (num_tests as int) + 2 * (
                i as int) && to_base as int == to as int * 2 * (num_tests as int) + 2 * (
                i as int)) by (nonlinear_arith)
                    requires
                        from_base as int == t0.rotation as int * (stride as int) + 2 * (i as int),
                        to_base as int == to as int * (stride as int) + 2 * (i as int),
                        stride == 2 * num_tests,
                ;
                assert(cx as int == cand_x(t0, to as int, i as int));
                assert(cy as int == cand_y(t0, to as int, i as int));
            }
            if board.fits_at(&new_mask, self.rotation_constant, cx, cy) {
                proof {
                    lemma_mask_has_nonzero(
                        t0.static_piece_data@,
                        t0.rotation_constant as int,
                        to as int,
                    );
                    lemma_fits_anchor_bounds(
                        b,
                        new_mask@,
                        t0.rotation_constant as int,
                        cx as int,
                        cy as int,
                    );
                    assert(first_fit_from(b, t0, to as int, i as int) == Some(i as int));
                }
                self.piece_data = new_mask;
                self.rotation = to;
                self.x = cx as u8;
                self.y = cy as u8;
                return true;
            }
            proof {
                assert(first_fit_from(b, t0, to as int, i as int) == first_fit_from(
                    b,
                    t0,
                    to as int,
                    i as int + 1,
                ));
            }
            i = i + 1;
        }
        proof {
            assert(first_fit_from(b, t0, to as int, num_tests as int) is None);
        }
        false
    }

    /// Emit the draw requests of the active piece at its committed
    /// position, followed by those of its ghost at the resting position
    /// `get_ghost` computes, drawn with reduced opacity. The piece's
    /// committed state is untouched.
    pub fn render(&mut self, board: &TetrisBoard) -> (reqs: Vec<crate::draw::DrawRequest>)
        requires
            old(self).wf(),
            board.wf(),
        ensures
            *final(self) == *old(self),
            ({
                let m = old(self).piece_data@;
                let side = old(self).rotation_constant as int;
                let gy = if tetris_board::spec_fits(
                    board.grid(),
                    m,
                    side,
                    old(self).x as int,
                    old(self).y as int,
                ) {
                    drop_y(board.grid(), m, side, old(self).x as int, old(self).y as int)
                } else {
                    old(self).y as int
                };
                reqs@ == crate::draw::piece_draws(
                    m,
                    side,
                    old(self).x as int,
                    old(self).y as int,
                    false,
                    side * side,
                ) + crate::draw::piece_draws(m, side, old(self).x as int, gy, true, side * side)
            }),
    {
        let mut reqs = crate::draw::piece_cells(
            &self.piece_data,
            self.rotation_constant,
            self.x as i32,
            self.y as i32,
            false,
        );
        let g = self.get_ghost(board);
        let mut ghost_reqs = crate::draw::piece_cells(
            &self.piece_data,
            self.rotation_constant,
            g.0 as i32,
            g.1 as i32,
            true,
        );
        reqs.append(&mut ghost_reqs);
        reqs
    }

    /// Emit the draw requests of the piece's mask anchored at an
    /// arbitrary grid position, at full opacity: used to draw the
    /// preview queue beside the board.
    pub fn render_force_position(&self, x: i32, y: i32) -> (reqs: Vec<crate::draw::DrawRequest>)
        requires
            self.wf(),
            -1000 <= x <= 1000,
            -1000 <= y <= 1000,
        ensures
            reqs@ == crate::draw::piece_draws(
                self.piece_data@,
                self.rotation_constant as int,
                x as int,
                y as int,
                false,
                self.rotation_constant as int * self.rotation_constant as int,
            ),
    {
        crate::draw::piece_cells(&self.piece_data, self.rotation_constant, x, y, false)
    }

    /// Merge the piece into the board. The caller must have validated the
    /// placement through `check_piece_fits`.
    pub fn add_piece_to_board(&self, board: &mut TetrisBoard)
        requires
            self.wf(),
            old(board).wf(),
            tetris_board::spec_inside(
                self.piece_data@,
                self.rotation_constant as int,
                self.x as int,
                self.y as int,
            ),
        ensures
            final(board).wf(),
            final(board).grid() == tetris_board::place_piece(
                old(board).grid(),
                self.piece_data@,
                self.rotation_constant as int,
                self.x as int,
                self.y as int,
            ),
            final(board).did_zero == old(board).did_zero,
            final(board).pending() == old(board).pending(),
    {
        board.add_piece_to_board(self);
    }
}

/// A well-formed piece's rotated mask has an occupied cell.
pub proof fn lemma_piece_mask_nonzero(t: Tetromino)
    requires
        t.wf(),
    ensures
        exists|i: int| 0 <= i < t.piece_data@.len() && #[trigger] t.piece_data@[i] != 0,
{
    lemma_mask_has_nonzero(
        t.static_piece_data@,
        t.rotation_constant as int,
        t.rotation as int,
    );
}

/// Recompute a rotated cell mask from the base shape for rotation state
/// `r` by the exact index transform, never by cumulative rotation.
fn rotated_mask(stat: &Vec<u8>, side: u8, r: u8) -> (m: Vec<u8>)
    requires
        side == 3 || side == 5,
        stat@.len() == side * side,
        r < 4,
    ensures
        m@ == mask_of(stat@, side as int, r as int),
{
    let s = side as usize;
    let n = s * s;
    let mut m: Vec<u8> = Vec::new();
    let mut i: usize = 0;
    while i < n
        invariant
            side == 3 || side == 5,
            stat@.len() == side * side,
            r < 4,
            s == side,
            n == side * side,
            i <= n,
            m@.len() == i,
            forall|j: int|
                0 <= j < i ==> #[trigger] m@[j] == mask_of(stat@, side as int, r as int)[j],
        decreases n - i,
    {
        let ix = i % s;
        let iy = i / s;
        proof {
            assert(0 <= (i as int) % (s as int) < s && 0 <= (i as int) / (s as int) < s)
                by (nonlinear_arith)
                requires
                    1 <= s <= 5,
                    0 <= i < s * s,
            ;
            assert((s - 1 - (i as int) % (s as int)) * (s as int) + (i as int) / (s as int) < s
                * s && ((i as int) % (s as int)) * (s as int) + (s - 1 - (i as int) / (
            s as int)) < s * s) by (nonlinear_arith)
                requires
                    1 <= s <= 5,
                    0 <= (i as int) % (s as int) < s,
                    0 <= (i as int) / (s as int) < s,
            ;
        }
        let idx: usize = if r == 1 {
            (s - 1 - ix) * s + iy
        } else if r == 2 {
            n - 1 - i
        } else if r == 3 {
            ix * s + (s - 1 - iy)
        } else {
            i
        };
        proof {
            lemma_rotated_index_bounds(side as int, r as int, i as int);
            assert(idx == rotated_index(side as int, r as int, i as int));
        }
        m.push(stat[idx]);
        proof {
            assert(m@[i as int] == mask_of(stat@, side as int, r as int)[i as int]);
        }
        i = i + 1;
    }
    proof {
        assert(m@ =~= mask_of(stat@, side as int, r as int));
    }
    m
}

/// Byte-for-byte copy of a shape mask.
fn copy_mask(v: &Vec<u8>) -> (r: Vec<u8>)
    ensures
        r@ == v@,
{
    let mut r: Vec<u8> = Vec::new();
    let mut i: usize = 0;
    while i < v.len()
        invariant
            i <= v@.len(),
            r@ == v@.subrange(0, i as int),
        decreases v@.len() - i,
    {
        r.push(v[i]);
        assert(r@ =~= v@.subrange(0, i + 1));
        i = i + 1;
    }
    assert(r@ =~= v@);
    r
}

} // verus!
