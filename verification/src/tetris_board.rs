use vstd::prelude::*;

use crate::game_options::BOARD_HEIGHT;
use crate::game_options::BOARD_WIDTH;
use crate::tetromino::Tetromino;

verus! {

/// Cell value of the wall border that frames the playfield.
pub const WALL: u8 = 8;

/// Transient cell value of a row detected as full but not yet compacted.
pub const PENDING_CLEAR: u8 = 9;

/// Number of cells in the flat, row-major grid.
pub open spec fn board_len() -> int {
    BOARD_WIDTH * BOARD_HEIGHT
}

/// A coordinate pair that lies on the grid, border included.
pub open spec fn in_bounds(x: int, y: int) -> bool {
    0 <= x < BOARD_WIDTH && 0 <= y < BOARD_HEIGHT
}

/// A coordinate pair on one of the four border walls.
pub open spec fn is_border(x: int, y: int) -> bool {
    x == 0 || x == BOARD_WIDTH - 1 || y == 0 || y == BOARD_HEIGHT - 1
}

/// The cell of the flat grid `b` at column `x`, row `y`.
pub open spec fn cell_at(b: Seq<u8>, x: int, y: int) -> u8 {
    b[y * BOARD_WIDTH + x]
}

/// The cell of a square piece mask `m` of side `side` at column `ix`, row `iy`.
pub open spec fn mask_at(m: Seq<u8>, side: int, ix: int, iy: int) -> u8 {
    m[iy * side + ix]
}

/// A value an interior cell may hold: empty, a color id, or the
/// pending-clear marker — never the wall marker.
pub open spec fn interior_val(v: u8) -> bool {
    v <= PENDING_CLEAR && v != WALL
}

/// The grid is complete, its border walls are intact, and every
/// interior cell holds an interior value.
pub open spec fn wf_grid(b: Seq<u8>) -> bool {
    &&& b.len() == board_len()
    &&& forall|x: int, y: int|
        in_bounds(x, y) && is_border(x, y) ==> #[trigger] cell_at(b, x, y) == WALL
    &&& forall|x: int, y: int|
        in_bounds(x, y) && !is_border(x, y) ==> interior_val(#[trigger] cell_at(b, x, y))
}

/// A mask coordinate pair maps to an index inside the square mask.
pub proof fn lemma_mask_index(side: int, a: int, b: int)
    requires
        0 <= a < side,
        0 <= b < side,
    ensures
        0 <= b * side + a < side * side,
{
    assert(0 <= b * side + a < side * side) by (nonlinear_arith)
        requires
            0 <= a < side,
            0 <= b < side,
    ;
}

/// The sole collision predicate: a mask of side `side`, anchored so that its
/// cell (`ix`, `iy`) lands on grid cell (`ax - ix`, `ay - iy`), fits exactly
/// when every nonzero mask cell lands inside the grid on an empty cell.
pub open spec fn spec_fits(b: Seq<u8>, m: Seq<u8>, side: int, ax: int, ay: int) -> bool {
    forall|ix: int, iy: int|
        0 <= ix < side && 0 <= iy < side && #[trigger] mask_at(m, side, ix, iy) != 0
            ==> in_bounds(ax - ix, ay - iy) && cell_at(b, ax - ix, ay - iy) == 0
}

/// Every nonzero cell of the anchored mask lands on an interior grid
/// cell: inside the grid and off the border walls. Unlike `spec_fits`
/// this does not depend on the board's occupancy, so every board
/// mutation preserves it.
pub open spec fn spec_inside(m: Seq<u8>, side: int, ax: int, ay: int) -> bool {
    forall|ix: int, iy: int|
        0 <= ix < side && 0 <= iy < side && #[trigger] mask_at(m, side, ix, iy) != 0
            ==> in_bounds(ax - ix, ay - iy) && !is_border(ax - ix, ay - iy)
}

/// On a board with intact walls, a fitting piece lies inside them: a
/// wall cell is never empty.
pub proof fn lemma_fits_inside(b: Seq<u8>, m: Seq<u8>, side: int, ax: int, ay: int)
    requires
        wf_grid(b),
        spec_fits(b, m, side, ax, ay),
    ensures
        spec_inside(m, side, ax, ay),
{
    assert forall|ix: int, iy: int|
        0 <= ix < side && 0 <= iy < side && #[trigger] mask_at(m, side, ix, iy) != 0 implies
        in_bounds(ax - ix, ay - iy) && !is_border(ax - ix, ay - iy) by {
        assert(cell_at(b, ax - ix, ay - iy) == 0);
        if is_border(ax - ix, ay - iy) {
            assert(cell_at(b, ax - ix, ay - iy) == WALL);
        }
    }
}

/// Grid cell (`x`, `y`) receives a nonzero mask cell when the mask is
/// anchored at (`ax`, `ay`).
pub open spec fn covers(m: Seq<u8>, side: int, ax: int, ay: int, x: int, y: int) -> bool {
    &&& 0 <= ax - x < side
    &&& 0 <= ay - y < side
    &&& mask_at(m, side, ax - x, ay - y) != 0
}

/// The grid after the anchored mask's nonzero cells are written over it.
pub open spec fn place_piece(b: Seq<u8>, m: Seq<u8>, side: int, ax: int, ay: int) -> Seq<u8> {
    Seq::new(
        b.len(),
        |k: int|
            {
                let x = k % (BOARD_WIDTH as int);
                let y = k / (BOARD_WIDTH as int);
                if covers(m, side, ax, ay, x, y) {
                    mask_at(m, side, ax - x, ay - y)
                } else {
                    b[k]
                }
            },
    )
}

/// Every interior cell of row `r` is occupied.
pub open spec fn row_full(b: Seq<u8>, r: int) -> bool {
    forall|x: int| 1 <= x <= BOARD_WIDTH - 2 ==> #[trigger] cell_at(b, x, r) != 0
}

/// Row `r` is one of the rows a piece of side `side` whose anchor row is
/// `py` may span, clamped to the interior rows.
pub open spec fn scanned_row(side: int, py: int, r: int) -> bool {
    py - side < r <= py && 1 <= r <= BOARD_HEIGHT - 2
}

/// The grid after line detection: every scanned full row has its interior
/// cells set to the pending-clear marker.
pub open spec fn mark_lines(b: Seq<u8>, side: int, py: int) -> Seq<u8> {
    Seq::new(
        b.len(),
        |k: int|
            {
                let x = k % (BOARD_WIDTH as int);
                let y = k / (BOARD_WIDTH as int);
                if scanned_row(side, py, y) && row_full(b, y) && 1 <= x <= BOARD_WIDTH - 2 {
                    PENDING_CLEAR
                } else {
                    b[k]
                }
            },
    )
}

/// The grid after one cleared row `r` is compacted: every interior row from
/// `r` up to (not including) the top border row takes the row above it.
pub open spec fn shift_down(b: Seq<u8>, r: int) -> Seq<u8> {
    Seq::new(
        b.len(),
        |k: int|
            {
                let x = k % (BOARD_WIDTH as int);
                let y = k / (BOARD_WIDTH as int);
                if 1 <= x <= BOARD_WIDTH - 2 && r <= y <= BOARD_HEIGHT - 3 {
                    cell_at(b, x, y + 1)
                } else {
                    b[k]
                }
            },
    )
}

/// The grid after the pending rows `rows` (sorted ascending) are compacted
/// one at a time, highest row first, each shifting independently.
pub open spec fn clear_rows(b: Seq<u8>, rows: Seq<usize>) -> Seq<u8>
    decreases rows.len(),
{
    if rows.len() == 0 {
        b
    } else {
        clear_rows(shift_down(b, rows.last() as int), rows.drop_last())
    }
}

/// Row `r` is newly detected full during a scan of `d` rows ending at
/// anchor row `py`.
pub open spec fn newly_full(b: Seq<u8>, d: int, py: int, r: int) -> bool {
    scanned_row(d, py, r) && row_full(b, r)
}

/// The mask cell that would cover grid cell (`x`, `y`) has already been
/// written by a scan that stands at mask column `cx`, mask row `cy`
/// (columns outermost).
pub open spec fn covers_done(
    m: Seq<u8>,
    side: int,
    ax: int,
    ay: int,
    x: int,
    y: int,
    cx: int,
    cy: int,
) -> bool {
    covers(m, side, ax, ay, x, y) && (ax - x < cx || (ax - x == cx && ay - y < cy))
}

/// `r` occurs in the sequence `s`.
pub open spec fn seq_has(s: Seq<usize>, r: int) -> bool {
    exists|i: int| 0 <= i < s.len() && #[trigger] s[i] == r
}

/// A strictly increasing sequence: sorted with no duplicates.
pub open spec fn sorted_strict(s: Seq<usize>) -> bool {
    forall|i: int, j: int| 0 <= i < j < s.len() ==> s[i] < s[j]
}

/// Decompose a flat row-major index into its column and row.
pub proof fn lemma_flat_index(k: int)
    requires
        0 <= k < board_len(),
    ensures
        in_bounds(k % (BOARD_WIDTH as int), k / (BOARD_WIDTH as int)),
        (k / (BOARD_WIDTH as int)) * (BOARD_WIDTH as int) + k % (BOARD_WIDTH as int) == k,
{
    assert(0 <= k % (BOARD_WIDTH as int) < BOARD_WIDTH && 0 <= k / (BOARD_WIDTH as int)
        < BOARD_HEIGHT && (k / (BOARD_WIDTH as int)) * (BOARD_WIDTH as int) + k % (
    BOARD_WIDTH as int) == k) by (nonlinear_arith)
        requires
            0 <= k < 288,
    ;
}

/// A column-row pair maps back to a flat index inside the grid.
pub proof fn lemma_cell_index(x: int, y: int)
    requires
        in_bounds(x, y),
    ensures
        0 <= y * (BOARD_WIDTH as int) + x < board_len(),
        (y * (BOARD_WIDTH as int) + x) % (BOARD_WIDTH as int) == x,
        (y * (BOARD_WIDTH as int) + x) / (BOARD_WIDTH as int) == y,
{
    assert(0 <= y * 12 + x < 288 && (y * 12 + x) % 12 == x && (y * 12 + x) / 12 == y)
        by (nonlinear_arith)
        requires
            0 <= x < 12,
            0 <= y < 24,
    ;
}

/// Read one cell of a grid after line detection.
pub proof fn lemma_mark_cell(b: Seq<u8>, d: int, py: int, x: int, y: int)
    requires
        b.len() == board_len(),
        in_bounds(x, y),
    ensures
        cell_at(mark_lines(b, d, py), x, y) == (if scanned_row(d, py, y) && row_full(b, y) && 1
            <= x <= BOARD_WIDTH - 2 {
            PENDING_CLEAR
        } else {
            cell_at(b, x, y)
        }),
{
    lemma_cell_index(x, y);
}

/// Read one cell of a grid after one row's compaction.
pub proof fn lemma_shift_cell(b: Seq<u8>, r: int, x: int, y: int)
    requires
        b.len() == board_len(),
        in_bounds(x, y),
    ensures
        cell_at(shift_down(b, r), x, y) == (if 1 <= x <= BOARD_WIDTH - 2 && r <= y <= BOARD_HEIGHT
            - 3 {
            cell_at(b, x, y + 1)
        } else {
            cell_at(b, x, y)
        }),
{
    lemma_cell_index(x, y);
}

/// Two grids equal cell by cell are equal.
pub proof fn lemma_grid_ext(a: Seq<u8>, b: Seq<u8>)
    requires
        a.len() == board_len(),
        b.len() == board_len(),
        forall|x: int, y: int| in_bounds(x, y) ==> #[trigger] cell_at(a, x, y) == cell_at(b, x, y),
    ensures
        a == b,
{
    assert forall|k: int| 0 <= k < board_len() implies a[k] == b[k] by {
        lemma_flat_index(k);
        let x = k % (BOARD_WIDTH as int);
        let y = k / (BOARD_WIDTH as int);
        assert(cell_at(a, x, y) == cell_at(b, x, y));
    }
    assert(a =~= b);
}

/// Extending a line scan past a row that is absent or not full detects
/// nothing new and marks nothing new.
pub proof fn lemma_scan_step_skip(b: Seq<u8>, d: int, py: int)
    requires
        b.len() == board_len(),
        !(1 <= py - d <= BOARD_HEIGHT - 2 && row_full(b, py - d)),
    ensures
        forall|r: int| #[trigger] newly_full(b, d + 1, py, r) == newly_full(b, d, py, r),
        (exists|r: int| #[trigger] newly_full(b, d + 1, py, r)) == (exists|r: int|
            #[trigger] newly_full(b, d, py, r)),
        mark_lines(b, d + 1, py) == mark_lines(b, d, py),
{
    assert forall|r: int| #[trigger] newly_full(b, d + 1, py, r) == newly_full(b, d, py, r) by {}
    if exists|r: int| #[trigger] newly_full(b, d + 1, py, r) {
        let r = choose|r: int| #[trigger] newly_full(b, d + 1, py, r);
        assert(newly_full(b, d, py, r));
    }
    if exists|r: int| #[trigger] newly_full(b, d, py, r) {
        let r = choose|r: int| #[trigger] newly_full(b, d, py, r);
        assert(newly_full(b, d + 1, py, r));
    }
    assert forall|x: int, y: int| in_bounds(x, y) implies #[trigger] cell_at(
        mark_lines(b, d + 1, py),
        x,
        y,
    ) == cell_at(mark_lines(b, d, py), x, y) by {
        lemma_mark_cell(b, d + 1, py, x, y);
        lemma_mark_cell(b, d, py, x, y);
    }
    lemma_grid_ext(mark_lines(b, d + 1, py), mark_lines(b, d, py));
}

/// Extending a line scan over a full interior row detects exactly it.
pub proof fn lemma_scan_step_mark(b: Seq<u8>, d: int, py: int)
    requires
        b.len() == board_len(),
        0 <= d,
        1 <= py - d <= BOARD_HEIGHT - 2,
        row_full(b, py - d),
    ensures
        forall|r: int|
            #[trigger] newly_full(b, d + 1, py, r) == (newly_full(b, d, py, r) || r == py - d),
        exists|r: int| #[trigger] newly_full(b, d + 1, py, r),
{
    assert(newly_full(b, d + 1, py, py - d));
}

/// The fixed playfield: a flat row-major grid of cells framed by walls,
/// the set of rows pending a clear, and the flag that a clear is due.
pub struct TetrisBoard {
    pub board: Vec<u8>,
    pub did_zero: bool,
    pub empty_lines: Vec<usize>,
}

impl TetrisBoard {
    /// The grid contents as a mathematical sequence.
    pub open spec fn grid(&self) -> Seq<u8> {
        self.board@
    }

    /// The rows pending a clear, sorted ascending.
    pub open spec fn pending(&self) -> Seq<usize> {
        self.empty_lines@
    }

    /// Row `r` is recorded as pending a clear.
    pub open spec fn has_pending(&self, r: int) -> bool {
        seq_has(self.empty_lines@, r)
    }

    /// Internal invariant: intact walls, and pending rows strictly sorted
    /// interior row indices.
    pub open spec fn wf(&self) -> bool {
        &&& wf_grid(self.board@)
        &&& sorted_strict(self.empty_lines@)
        &&& forall|i: int|
            0 <= i < self.empty_lines@.len() ==> 1 <= #[trigger] self.empty_lines@[i]
                <= BOARD_HEIGHT - 2
    }

    /// A fresh board: walls on all four edges, every interior cell empty,
    /// no pending rows, no clear due.
    pub fn new() -> (b: TetrisBoard)
        ensures
            b.wf(),
            b.did_zero == false,
            b.pending().len() == 0,
            forall|x: int, y: int|
                in_bounds(x, y) ==> #[trigger] cell_at(b.grid(), x, y) == (if is_border(x, y) {
                    WALL
                } else {
                    0
                }),
    {
        let mut board: Vec<u8> = Vec::new();
        let mut k: usize = 0;
        while k < BOARD_WIDTH * BOARD_HEIGHT
            invariant
                k <= BOARD_WIDTH * BOARD_HEIGHT,
                board@.len() == k,
                forall|i: int| 0 <= i < k ==> #[trigger] board@[i] == 0,
            decreases BOARD_WIDTH * BOARD_HEIGHT - k,
        {
            board.push(0);
            k = k + 1;
        }
        assert forall|x: int, y: int| in_bounds(x, y) implies #[trigger] cell_at(board@, x, y)
            == 0 by {
            lemma_cell_index(x, y);
        }
        let mut x: usize = 0;
        while x < BOARD_WIDTH
            invariant
                x <= BOARD_WIDTH,
                board@.len() == board_len(),
                forall|xx: int, yy: int|
                    in_bounds(xx, yy) ==> #[trigger] cell_at(board@, xx, yy) == (if (yy == 0 || yy
                        == BOARD_HEIGHT - 1) && xx < x {
                        WALL
                    } else {
                        0
                    }),
            decreases BOARD_WIDTH - x,
        {
            vec_write_cell(&mut board, x, 0, WALL);
            vec_write_cell(&mut board, x, BOARD_HEIGHT - 1, WALL);
            x = x + 1;
        }
        let mut y: usize = 0;
        while y < BOARD_HEIGHT
            invariant
                y <= BOARD_HEIGHT,
                board@.len() == board_len(),
                forall|xx: int, yy: int|
                    in_bounds(xx, yy) ==> #[trigger] cell_at(board@, xx, yy) == (if (yy == 0 || yy
                        == BOARD_HEIGHT - 1) || ((xx == 0 || xx == BOARD_WIDTH - 1) && yy < y) {
                        WALL
                    } else {
                        0
                    }),
            decreases BOARD_HEIGHT - y,
        {
            vec_write_cell(&mut board, 0, y, WALL);
            vec_write_cell(&mut board, BOARD_WIDTH - 1, y, WALL);
            y = y + 1;
        }
        let did_zero = false;
        let empty_lines: Vec<usize> = Vec::new();
        TetrisBoard { board, did_zero, empty_lines }
    }

    /// Read one cell of the grid.
    pub fn get_cell(&self, x: usize, y: usize) -> (c: u8)
        requires
            self.wf(),
            x < BOARD_WIDTH,
            y < BOARD_HEIGHT,
        ensures
            c == cell_at(self.grid(), x as int, y as int),
    {
        proof {
            lemma_cell_index(x as int, y as int);
        }
        self.board[y * BOARD_WIDTH + x]
    }

    /// Overwrite one interior cell of the grid with an interior value;
    /// walls stay untouched.
    pub fn set_cell(&mut self, x: usize, y: usize, v: u8)
        requires
            old(self).wf(),
            1 <= x < BOARD_WIDTH - 1,
            1 <= y < BOARD_HEIGHT - 1,
            interior_val(v),
        ensures
            final(self).wf(),
            final(self).did_zero == old(self).did_zero,
            final(self).pending() == old(self).pending(),
            forall|xx: int, yy: int|
                in_bounds(xx, yy) && !(xx == x && yy == y) ==> #[trigger] cell_at(
                    final(self).grid(),
                    xx,
                    yy,
                ) == cell_at(old(self).grid(), xx, yy),
            cell_at(final(self).grid(), x as int, y as int) == v,
    {
        vec_write_cell(&mut self.board, x, y, v);
        proof {
            assert forall|xx: int, yy: int| in_bounds(xx, yy) && is_border(xx, yy) implies
                #[trigger] cell_at(self.board@, xx, yy) == WALL by {
                assert(cell_at(self.board@, xx, yy) == cell_at(old(self).board@, xx, yy));
            }
            assert forall|xx: int, yy: int| in_bounds(xx, yy) && !is_border(xx, yy) implies
                interior_val(#[trigger] cell_at(self.board@, xx, yy)) by {
                if !(xx == x && yy == y) {
                    assert(cell_at(self.board@, xx, yy) == cell_at(old(self).board@, xx, yy));
                }
            }
        }
    }

    /// Collision check for a square mask anchored at (`ax`, `ay`): true
    /// exactly when every nonzero mask cell lands inside the grid on an
    /// empty cell.
    pub fn fits_at(&self, m: &Vec<u8>, side: u8, ax: i32, ay: i32) -> (r: bool)
        requires
            self.wf(),
            1 <= side <= 5,
            m@.len() == side * side,
            -512 <= ax <= 512,
            -512 <= ay <= 512,
        ensures
            r == spec_fits(self.grid(), m@, side as int, ax as int, ay as int),
    {
        let mut ix: u8 = 0;
        while ix < side
            invariant
                self.wf(),
                1 <= side <= 5,
                m@.len() == side * side,
                -512 <= ax <= 512,
                -512 <= ay <= 512,
                ix <= side,
                forall|jx: int, jy: int|
                    0 <= jx < ix && 0 <= jy < side && #[trigger] mask_at(m@, side as int, jx, jy)
                        != 0 ==> in_bounds(ax - jx, ay - jy) && cell_at(
                        self.grid(),
                        ax - jx,
                        ay - jy,
                    ) == 0,
            decreases side - ix,
        {
            let mut iy: u8 = 0;
            while iy < side
                invariant
                    self.wf(),
                    1 <= side <= 5,
                    m@.len() == side * side,
                    -512 <= ax <= 512,
                    -512 <= ay <= 512,
                    ix < side,
                    iy <= side,
                    forall|jx: int, jy: int|
                        0 <= jx < ix && 0 <= jy < side && #[trigger] mask_at(
                            m@,
                            side as int,
                            jx,
                            jy,
                        ) != 0 ==> in_bounds(ax - jx, ay - jy) && cell_at(
                            self.grid(),
                            ax - jx,
                            ay - jy,
                        ) == 0,
                    forall|jy: int|
                        0 <= jy < iy && #[trigger] mask_at(m@, side as int, ix as int, jy) != 0
                            ==> in_bounds(ax - ix, ay - jy) && cell_at(
                            self.grid(),
                            ax - ix,
                            ay - jy,
                        ) == 0,
                decreases side - iy,
            {
                proof {
                    assert(iy * side + ix < side * side <= 25) by (nonlinear_arith)
                        requires
                            0 <= ix < side,
                            0 <= iy < side,
                            side <= 5,
                    ;
                }
                let mi = iy as usize * side as usize + ix as usize;
                if m[mi] > 0 {
                    assert(mask_at(m@, side as int, ix as int, iy as int) != 0);
                    let cx = ax - ix as i32;
                    let cy = ay - iy as i32;
                    if cx < 0 || cx >= BOARD_WIDTH as i32 || cy < 0 || cy >= BOARD_HEIGHT as i32 {
                        return false;
                    }
                    proof {
                        lemma_cell_index(cx as int, cy as int);
                    }
                    let bi = cy as usize * BOARD_WIDTH + cx as usize;
                    if self.board[bi] > 0 {
                        return false;
                    }
                }
                assert(mask_at(m@, side as int, ix as int, iy as int) == m@[iy * side + ix]);
                iy = iy + 1;
            }
            ix = ix + 1;
        }
        true
    }

    /// Collision check for a whole piece at its current anchor (§ the sole
    /// collision predicate: both movement and rotation route through it).
    pub fn check_piece_fits(&self, piece: &Tetromino) -> (r: bool)
        requires
            self.wf(),
            piece.wf(),
        ensures
            r == spec_fits(
                self.grid(),
                piece.piece_data@,
                piece.rotation_constant as int,
                piece.x as int,
                piece.y as int,
            ),
    {
        self.fits_at(&piece.piece_data, piece.rotation_constant, piece.x as i32, piece.y as i32)
    }

    /// Emit one draw request per occupied cell of the grid, walls
    /// included, scanning columns outermost.
    pub fn render(&self) -> (reqs: Vec<crate::draw::DrawRequest>)
        requires
            self.wf(),
        ensures
            reqs@ == crate::draw::board_draws(self.grid(), board_len()),
    {
        let mut reqs: Vec<crate::draw::DrawRequest> = Vec::new();
        let mut x: usize = 0;
        while x < BOARD_WIDTH
            invariant
                self.wf(),
                x <= BOARD_WIDTH,
                reqs@ == crate::draw::board_draws(self.grid(), x as int * BOARD_HEIGHT),
            decreases BOARD_WIDTH - x,
        {
            let mut y: usize = 0;
            while y < BOARD_HEIGHT
                invariant
                    self.wf(),
                    x < BOARD_WIDTH,
                    y <= BOARD_HEIGHT,
                    reqs@ == crate::draw::board_draws(
                        self.grid(),
                        x as int * BOARD_HEIGHT + y as int,
                    ),
                decreases BOARD_HEIGHT - y,
            {
                proof {
                    assert((x as int * 24 + y) / 24 == x && (x as int * 24 + y) % 24 == y && x
                        as int * 24 + y + 1 <= 288) by (nonlinear_arith)
                        requires
                            0 <= x < 12,
                            0 <= y < 24,
                    ;
                }
                let c = self.get_cell(x, y);
                if c > 0 {
                    reqs.push(
                        crate::draw::DrawRequest {
                            x: x as i32,
                            y: y as i32,
                            sprite: c - 1,
                            dim: false,
                        },
                    );
                }
                proof {
                    assert(reqs@ =~= crate::draw::board_draws(
                        self.grid(),
                        x as int * BOARD_HEIGHT + y as int + 1,
                    ));
                }
                y = y + 1;
            }
            x = x + 1;
        }
        reqs
    }

    /// Merge a validated piece into the board: every nonzero mask cell
    /// writes its color id into the grid cell it covers, overwriting
    /// whatever stands there. The caller must have validated the
    /// placement through `check_piece_fits`.
    pub fn add_piece_to_board(&mut self, piece: &Tetromino)
        requires
            old(self).wf(),
            piece.wf(),
            spec_inside(
                piece.piece_data@,
                piece.rotation_constant as int,
                piece.x as int,
                piece.y as int,
            ),
        ensures
            final(self).wf(),
            final(self).grid() == place_piece(
                old(self).grid(),
                piece.piece_data@,
                piece.rotation_constant as int,
                piece.x as int,
                piece.y as int,
            ),
            final(self).did_zero == old(self).did_zero,
            final(self).pending() == old(self).pending(),
    {
        let side = piece.rotation_constant;
        let ghost m = piece.piece_data@;
        let ghost ax = piece.x as int;
        let ghost ay = piece.y as int;
        let ghost b0 = self.board@;
        proof {
            crate::tetromino::lemma_mask_vals(
                piece.static_piece_data@,
                side as int,
                piece.rotation as int,
            );
        }
        let mut ix: u8 = 0;
        while ix < side
            invariant
                self.wf(),
                piece.wf(),
                side == piece.rotation_constant,
                m == piece.piece_data@,
                ax == piece.x as int,
                ay == piece.y as int,
                b0.len() == board_len(),
                wf_grid(b0),
                spec_inside(m, side as int, ax, ay),
                ix <= side,
                forall|j: int| 0 <= j < m.len() ==> #[trigger] m[j] <= 7,
                self.did_zero == old(self).did_zero,
                self.empty_lines@ == old(self).empty_lines@,
                forall|xx: int, yy: int|
                    in_bounds(xx, yy) ==> #[trigger] cell_at(self.board@, xx, yy) == (
                    if covers_done(m, side as int, ax, ay, xx, yy, ix as int, 0) {
                        mask_at(m, side as int, ax - xx, ay - yy)
                    } else {
                        cell_at(b0, xx, yy)
                    }),
            decreases side - ix,
        {
            let mut iy: u8 = 0;
            while iy < side
                invariant
                    self.wf(),
                    piece.wf(),
                    side == piece.rotation_constant,
                    m == piece.piece_data@,
                    ax == piece.x as int,
                    ay == piece.y as int,
                    b0.len() == board_len(),
                    wf_grid(b0),
                    spec_inside(m, side as int, ax, ay),
                    ix < side,
                    iy <= side,
                    forall|j: int| 0 <= j < m.len() ==> #[trigger] m[j] <= 7,
                    self.did_zero == old(self).did_zero,
                    self.empty_lines@ == old(self).empty_lines@,
                    forall|xx: int, yy: int|
                        in_bounds(xx, yy) ==> #[trigger] cell_at(self.board@, xx, yy) == (
                        if covers_done(m, side as int, ax, ay, xx, yy, ix as int, iy as int) {
                            mask_at(m, side as int, ax - xx, ay - yy)
                        } else {
                            cell_at(b0, xx, yy)
                        }),
                decreases side - iy,
            {
                proof {
                    assert(iy * side + ix < side * side <= 25) by (nonlinear_arith)
                        requires
                            0 <= ix < side,
                            0 <= iy < side,
                            side <= 5,
                    ;
                }
                let mi = iy as usize * side as usize + ix as usize;
                let mv = piece.piece_data[mi];
                if mv > 0 {
                    assert(mask_at(m, side as int, ix as int, iy as int) == mv);
                    assert(in_bounds(ax - ix, ay - iy) && !is_border(ax - ix, ay - iy));
                    let bx = piece.x as usize - ix as usize;
                    let by = piece.y as usize - iy as usize;
                    let ghost bpre = self.board@;
                    vec_write_cell(&mut self.board, bx, by, mv);
                    proof {
                        assert forall|xx: int, yy: int| in_bounds(xx, yy) implies #[trigger]
                            cell_at(self.board@, xx, yy) == (if covers_done(
                            m,
                            side as int,
                            ax,
                            ay,
                            xx,
                            yy,
                            ix as int,
                            iy as int + 1,
                        ) {
                            mask_at(m, side as int, ax - xx, ay - yy)
                        } else {
                            cell_at(b0, xx, yy)
                        }) by {
                            if xx == ax - ix && yy == ay - iy {
                            } else {
                                assert(cell_at(self.board@, xx, yy) == cell_at(bpre, xx, yy));
                            }
                        }
                        assert forall|xx: int, yy: int|
                            in_bounds(xx, yy) && is_border(xx, yy) implies #[trigger] cell_at(
                            self.board@,
                            xx,
                            yy,
                        ) == WALL by {
                            if covers_done(m, side as int, ax, ay, xx, yy, ix as int, iy as int
                                + 1) {
                                assert(mask_at(m, side as int, ax - xx, ay - yy) != 0);
                                assert(!is_border(xx, yy));
                                assert(false);
                            }
                        }
                        assert forall|xx: int, yy: int|
                            in_bounds(xx, yy) && !is_border(xx, yy) implies interior_val(
                            #[trigger] cell_at(self.board@, xx, yy),
                        ) by {
                            if covers_done(m, side as int, ax, ay, xx, yy, ix as int, iy as int
                                + 1) {
                                lemma_mask_index(side as int, ax - xx, ay - yy);
                                assert(mask_at(m, side as int, ax - xx, ay - yy) == m[(ay - yy)
                                    * (side as int) + (ax - xx)]);
                                assert(m[(ay - yy) * (side as int) + (ax - xx)] <= 7);
                            }
                        }
                    }
                } else {
                    proof {
                        assert forall|xx: int, yy: int| in_bounds(xx, yy) implies #[trigger]
                            cell_at(self.board@, xx, yy) == (if covers_done(
                            m,
                            side as int,
                            ax,
                            ay,
                            xx,
                            yy,
                            ix as int,
                            iy as int + 1,
                        ) {
                            mask_at(m, side as int, ax - xx, ay - yy)
                        } else {
                            cell_at(b0, xx, yy)
                        }) by {}
                    }
                }
                iy = iy + 1;
            }
            ix = ix + 1;
        }
        proof {
            assert forall|k: int| 0 <= k < board_len() implies self.board@[k] == place_piece(
                b0,
                m,
                side as int,
                ax,
                ay,
            )[k] by {
                lemma_flat_index(k);
                let xx = k % (BOARD_WIDTH as int);
                let yy = k / (BOARD_WIDTH as int);
                assert(cell_at(self.board@, xx, yy) == self.board@[k]);
            }
            assert(self.board@ =~= place_piece(b0, m, side as int, ax, ay));
        }
    }

    /// Line detection after a lock: scan every row the locked piece could
    /// have completed; a row is full iff every interior cell is nonzero.
    /// Full rows get the pending-clear marker and their index recorded;
    /// compaction is deferred to `clear_lines`.
    pub fn check_line(&mut self, rotation_constant: u8, piece_y: u8)
        requires
            old(self).wf(),
        ensures
            final(self).wf(),
            final(self).grid() == mark_lines(
                old(self).grid(),
                rotation_constant as int,
                piece_y as int,
            ),
            final(self).did_zero == (old(self).did_zero || exists|r: int|
                #[trigger] newly_full(
                    old(self).grid(),
                    rotation_constant as int,
                    piece_y as int,
                    r,
                )),
            forall|r: int|
                #[trigger] final(self).has_pending(r) <==> (old(self).has_pending(r) || newly_full(
                    old(self).grid(),
                    rotation_constant as int,
                    piece_y as int,
                    r,
                )),
    {
        let ghost b0 = self.board@;
        let ghost py = piece_y as int;
        let ghost dz0 = self.did_zero;
        let ghost p0 = self.empty_lines@;
        let mut dy: u8 = 0;
        proof {
            assert(mark_lines(b0, 0, py) == b0) by {
                assert forall|x: int, y: int| in_bounds(x, y) implies #[trigger] cell_at(
                    mark_lines(b0, 0, py),
                    x,
                    y,
                ) == cell_at(b0, x, y) by {
                    lemma_mark_cell(b0, 0, py, x, y);
                }
                lemma_grid_ext(mark_lines(b0, 0, py), b0);
            }
        }
        while dy < rotation_constant
            invariant
                self.wf(),
                b0.len() == board_len(),
                wf_grid(b0),
                py == piece_y as int,
                dy <= rotation_constant,
                self.board@ == mark_lines(b0, dy as int, py),
                self.did_zero == (dz0 || exists|r: int| #[trigger] newly_full(b0, dy as int, py, r)),
                forall|r: int|
                    #[trigger] seq_has(self.empty_lines@, r) <==> (seq_has(p0, r) || newly_full(
                        b0,
                        dy as int,
                        py,
                        r,
                    )),
            decreases rotation_constant - dy,
        {
            let ghost d = dy as int;
            let mut row_ok: bool = false;
            let mut ry: usize = 0;
            if piece_y >= dy {
                ry = (piece_y - dy) as usize;
                if 1 <= ry && ry <= BOARD_HEIGHT - 2 {
                    row_ok = true;
                }
            }
            if row_ok {
                let mut full: bool = true;
                let mut x: usize = 1;
                while x < BOARD_WIDTH - 1
                    invariant
                        self.wf(),
                        b0.len() == board_len(),
                        self.board@ == mark_lines(b0, d, py),
                        ry == py - d,
                        1 <= ry <= BOARD_HEIGHT - 2,
                        1 <= x <= BOARD_WIDTH - 1,
                        full == (forall|xx: int|
                            1 <= xx < x ==> #[trigger] cell_at(b0, xx, ry as int) != 0),
                    decreases BOARD_WIDTH - x,
                {
                    let c = self.get_cell(x, ry);
                    proof {
                        lemma_mark_cell(b0, d, py, x as int, ry as int);
                        assert(!scanned_row(d, py, ry as int));
                        assert(c == cell_at(b0, x as int, ry as int));
                    }
                    if c == 0 {
                        full = false;
                    }
                    x = x + 1;
                }
                proof {
                    assert(full == row_full(b0, ry as int));
                }
                if full {
                    self.did_zero = true;
                    insert_sorted(&mut self.empty_lines, ry);
                    proof {
                        assert forall|i: int|
                            0 <= i < self.empty_lines@.len() implies 1
                            <= #[trigger] self.empty_lines@[i] <= BOARD_HEIGHT - 2 by {}
                    }
                    let ghost pmid = self.empty_lines@;
                    let mut x2: usize = 1;
                    while x2 < BOARD_WIDTH - 1
                        invariant
                            self.wf(),
                            b0.len() == board_len(),
                            ry == py - d,
                            1 <= ry <= BOARD_HEIGHT - 2,
                            1 <= x2 <= BOARD_WIDTH - 1,
                            self.did_zero,
                            self.empty_lines@ == pmid,
                            forall|xx: int, yy: int|
                                in_bounds(xx, yy) ==> #[trigger] cell_at(self.board@, xx, yy) == (
                                if yy == ry && 1 <= xx < x2 {
                                    PENDING_CLEAR
                                } else {
                                    cell_at(mark_lines(b0, d, py), xx, yy)
                                }),
                        decreases BOARD_WIDTH - x2,
                    {
                        self.set_cell(x2, ry, PENDING_CLEAR);
                        x2 = x2 + 1;
                    }
                    proof {
                        lemma_scan_step_mark(b0, d, py);
                        assert forall|xx: int, yy: int| in_bounds(xx, yy) implies #[trigger]
                            cell_at(self.board@, xx, yy) == cell_at(
                            mark_lines(b0, d + 1, py),
                            xx,
                            yy,
                        ) by {
                            lemma_mark_cell(b0, d, py, xx, yy);
                            lemma_mark_cell(b0, d + 1, py, xx, yy);
                        }
                        lemma_grid_ext(self.board@, mark_lines(b0, d + 1, py));
                        assert(newly_full(b0, d + 1, py, ry as int));
                    }
                } else {
                    proof {
                        lemma_scan_step_skip(b0, d, py);
                    }
                }
            } else {
                proof {
                    if 1 <= py - d <= BOARD_HEIGHT - 2 {
                        assert(false);
                    }
                    lemma_scan_step_skip(b0, d, py);
                }
            }
            dy = dy + 1;
        }
    }

    /// Compact one cleared row: every interior row from `r` up to (not
    /// including) the top border row takes the interior cells of the row
    /// above it.
    fn shift_row(&mut self, r: usize)
        requires
            old(self).wf(),
            1 <= r <= BOARD_HEIGHT - 2,
        ensures
            final(self).wf(),
            final(self).grid() == shift_down(old(self).grid(), r as int),
            final(self).did_zero == old(self).did_zero,
            final(self).pending() == old(self).pending(),
    {
        let ghost bpre = self.board@;
        let mut x: usize = 1;
        while x < BOARD_WIDTH - 1
            invariant
                self.wf(),
                wf_grid(bpre),
                1 <= r <= BOARD_HEIGHT - 2,
                1 <= x <= BOARD_WIDTH - 1,
                self.did_zero == old(self).did_zero,
                self.empty_lines@ == old(self).empty_lines@,
                forall|xx: int, yy: int|
                    in_bounds(xx, yy) ==> #[trigger] cell_at(self.board@, xx, yy) == (if 1 <= xx
                        < x && r <= yy <= BOARD_HEIGHT - 3 {
                        cell_at(bpre, xx, yy + 1)
                    } else {
                        cell_at(bpre, xx, yy)
                    }),
            decreases BOARD_WIDTH - x,
        {
            let mut y: usize = r;
            while y + 1 < BOARD_HEIGHT - 1
                invariant
                    self.wf(),
                    wf_grid(bpre),
                    1 <= r <= BOARD_HEIGHT - 2,
                    1 <= x <= BOARD_WIDTH - 2,
                    r <= y <= BOARD_HEIGHT - 2,
                    self.did_zero == old(self).did_zero,
                    self.empty_lines@ == old(self).empty_lines@,
                    forall|xx: int, yy: int|
                        in_bounds(xx, yy) ==> #[trigger] cell_at(self.board@, xx, yy) == (if 1
                            <= xx <= BOARD_WIDTH - 2 && r <= yy <= BOARD_HEIGHT - 3 && (xx < x || (
                        xx == x && yy < y)) {
                            cell_at(bpre, xx, yy + 1)
                        } else {
                            cell_at(bpre, xx, yy)
                        }),
                decreases BOARD_HEIGHT - 1 - y,
            {
                let v = self.get_cell(x, y + 1);
                proof {
                    assert(v == cell_at(bpre, x as int, y as int + 1));
                }
                self.set_cell(x, y, v);
                y = y + 1;
            }
            x = x + 1;
        }
        proof {
            assert forall|xx: int, yy: int| in_bounds(xx, yy) implies #[trigger] cell_at(
                self.board@,
                xx,
                yy,
            ) == cell_at(shift_down(bpre, r as int), xx, yy) by {
                lemma_shift_cell(bpre, r as int, xx, yy);
            }
            lemma_grid_ext(self.board@, shift_down(bpre, r as int));
        }
    }

    /// Compact every pending row, highest first, so that each row shifts
    /// independently; then forget the pending set. Does nothing when no
    /// clear is due, and is idempotent when no rows are pending.
    pub fn clear_lines(&mut self)
        requires
            old(self).wf(),
        ensures
            final(self).wf(),
            final(self).did_zero == old(self).did_zero,
            old(self).did_zero ==> final(self).grid() == clear_rows(
                old(self).grid(),
                old(self).pending(),
            ) && final(self).pending().len() == 0,
            !old(self).did_zero ==> *final(self) == *old(self),
    {
        if self.did_zero {
            let ghost b_init = self.board@;
            let ghost rows = self.empty_lines@;
            proof {
                assert(rows.subrange(0, rows.len() as int) =~= rows);
            }
            let mut i: usize = self.empty_lines.len();
            while i > 0
                invariant
                    self.wf(),
                    self.empty_lines@ == rows,
                    i <= rows.len(),
                    self.did_zero == old(self).did_zero,
                    clear_rows(b_init, rows) == clear_rows(
                        self.board@,
                        rows.subrange(0, i as int),
                    ),
                decreases i,
            {
                let r = self.empty_lines[i - 1];
                let ghost bmid = self.board@;
                self.shift_row(r);
                proof {
                    let sub = rows.subrange(0, i as int);
                    assert(sub.last() == rows[i - 1]);
                    assert(sub.drop_last() =~= rows.subrange(0, i - 1));
                    assert(clear_rows(bmid, sub) == clear_rows(
                        shift_down(bmid, r as int),
                        rows.subrange(0, i - 1),
                    ));
                }
                i = i - 1;
            }
            proof {
                assert(rows.subrange(0, 0) =~= Seq::<usize>::empty());
                assert(clear_rows(self.board@, rows.subrange(0, 0)) == self.board@);
            }
            self.empty_lines = Vec::new();
        }
    }
}

/// Write one cell of a flat row-major grid; every other cell is unchanged.
fn vec_write_cell(b: &mut Vec<u8>, x: usize, y: usize, v: u8)
    requires
        old(b)@.len() == board_len(),
        x < BOARD_WIDTH,
        y < BOARD_HEIGHT,
    ensures
        final(b)@.len() == board_len(),
        cell_at(final(b)@, x as int, y as int) == v,
        forall|xx: int, yy: int|
            in_bounds(xx, yy) && !(xx == x && yy == y) ==> #[trigger] cell_at(final(b)@, xx, yy)
                == cell_at(old(b)@, xx, yy),
    {
    proof {
        lemma_cell_index(x as int, y as int);
    }
    let i = y * BOARD_WIDTH + x;
    b.set(i, v);
    proof {
        assert forall|xx: int, yy: int|
            in_bounds(xx, yy) && !(xx == x && yy == y) implies #[trigger] cell_at(b@, xx, yy)
            == cell_at(old(b)@, xx, yy) by {
            lemma_cell_index(xx, yy);
            if yy * (BOARD_WIDTH as int) + xx == y as int * (BOARD_WIDTH as int) + x as int {
                lemma_cell_index(x as int, y as int);
                assert(xx == (yy * (BOARD_WIDTH as int) + xx) % (BOARD_WIDTH as int));
                assert(false);
            }
        }
    }
}

/// Insert a row index into a strictly sorted sequence of row indices,
/// keeping it sorted and duplicate-free.
fn insert_sorted(v: &mut Vec<usize>, val: usize)
    requires
        sorted_strict(old(v)@),
    ensures
        sorted_strict(final(v)@),
        forall|r: int| #[trigger] seq_has(final(v)@, r) <==> (seq_has(old(v)@, r) || r == val),
        forall|i: int|
            0 <= i < final(v)@.len() ==> (#[trigger] final(v)@[i] == val || seq_has(
                old(v)@,
                final(v)@[i] as int,
            )),
{
    let mut pos: usize = 0;
    while pos < v.len() && v[pos] < val
        invariant
            sorted_strict(v@),
            v@ == old(v)@,
            pos <= v@.len(),
            forall|i: int| 0 <= i < pos ==> #[trigger] v@[i] < val,
        decreases v@.len() - pos,
    {
        pos = pos + 1;
    }
    if pos < v.len() {
        let cur = v[pos];
        if cur == val {
            proof {
                assert(seq_has(v@, val as int));
                assert forall|i: int|
                    0 <= i < v@.len() implies (#[trigger] v@[i] == val || seq_has(
                    old(v)@,
                    v@[i] as int,
                )) by {
                    assert(old(v)@[i] == v@[i]);
                }
            }
            return ;
        }
    }
    let ghost pre = v@;
    v.insert(pos, val);
    proof {
        assert forall|i: int, j: int| 0 <= i < j < v@.len() implies v@[i] < v@[j] by {
            if j < pos {
            } else if i < pos && j == pos {
                assert(v@[i] == pre[i] && pre[i] < val);
            } else if i < pos {
                assert(v@[i] == pre[i] && pre[i] < val);
                assert(v@[j] == pre[j - 1]);
                if j - 1 == pos as int {
                    assert(pre[j - 1] >= val && pre[j - 1] != val);
                } else {
                    assert(pre[pos as int] < pre[j - 1]);
                    assert(pre[pos as int] >= val && pre[pos as int] != val);
                }
            } else if i == pos {
                assert(v@[j] == pre[j - 1] && j - 1 >= pos);
                if j - 1 == pos as int {
                    assert(pre[j - 1] >= val && pre[j - 1] != val);
                } else {
                    assert(pre[pos as int] < pre[j - 1]);
                    assert(pre[pos as int] >= val && pre[pos as int] != val);
                }
            } else {
                assert(v@[i] == pre[i - 1] && v@[j] == pre[j - 1]);
            }
        }
        assert forall|r: int| #[trigger] seq_has(v@, r) <==> (seq_has(pre, r) || r == val) by {
            if seq_has(pre, r) {
                let i = choose|i: int| 0 <= i < pre.len() && #[trigger] pre[i] == r;
                if i < pos {
                    assert(v@[i] == r);
                } else {
                    assert(v@[i + 1] == r);
                }
            }
            if r == val {
                assert(v@[pos as int] == r);
            }
            if seq_has(v@, r) {
                let k = choose|k: int| 0 <= k < v@.len() && #[trigger] v@[k] == r;
                if k < pos {
                    assert(pre[k] == r);
                } else if k == pos {
                } else {
                    assert(pre[k - 1] == r);
                }
            }
        }
        assert forall|i: int|
            0 <= i < v@.len() implies (#[trigger] v@[i] == val || seq_has(
            pre,
            v@[i] as int,
        )) by {
            if i < pos {
                assert(pre[i] == v@[i]);
            } else if i > pos {
                assert(pre[i - 1] == v@[i]);
            }
        }
    }
}

} // verus!
