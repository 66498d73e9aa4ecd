use vstd::prelude::*;

use crate::tetris_board::cell_at;
use crate::game_options::BOARD_HEIGHT;

verus! {

/// One draw request the core emits to its renderer: a grid position, a
/// sprite index (the cell value minus one, since zero is reserved for
/// empty), and whether the sprite is drawn with reduced opacity (the
/// ghost piece). Depth and on-screen scaling are the renderer's affair.
#[derive(Clone, Copy, PartialEq, Eq, Structural, Debug)]
pub struct DrawRequest {
    pub x: i32,
    pub y: i32,
    pub sprite: u8,
    pub dim: bool,
}

/// The draw requests of the first `n` cells of the board scan (columns
/// outermost): one full-opacity request per occupied cell, in scan order.
pub open spec fn board_draws(b: Seq<u8>, n: int) -> Seq<DrawRequest>
    decreases n,
{
    if n <= 0 {
        Seq::empty()
    } else {
        let x = (n - 1) / (BOARD_HEIGHT as int);
        let y = (n - 1) % (BOARD_HEIGHT as int);
        board_draws(b, n - 1) + (if cell_at(b, x, y) != 0 {
            seq![
                DrawRequest {
                    x: x as i32,
                    y: y as i32,
                    sprite: (cell_at(b, x, y) - 1) as u8,
                    dim: false,
                },
            ]
        } else {
            Seq::empty()
        })
    }
}

/// The draw requests of the first `n` cells of a piece mask drawn with
/// its anchor at (`px`, `py`): one request per nonzero mask cell, in
/// mask order, dimmed iff `dim`.
pub open spec fn piece_draws(
    m: Seq<u8>,
    side: int,
    px: int,
    py: int,
    dim: bool,
    n: int,
) -> Seq<DrawRequest>
    decreases n,
{
    if n <= 0 {
        Seq::empty()
    } else {
        let i = n - 1;
        piece_draws(m, side, px, py, dim, i) + (if m[i] != 0 {
            seq![
                DrawRequest {
                    x: (px - i % side) as i32,
                    y: (py - i / side) as i32,
                    sprite: (m[i] - 1) as u8,
                    dim: dim,
                },
            ]
        } else {
            Seq::empty()
        })
    }
}

/// Emit the draw requests of a piece mask anchored at (`px`, `py`).
pub fn piece_cells(m: &Vec<u8>, side: u8, px: i32, py: i32, dim: bool) -> (reqs: Vec<DrawRequest>)
    requires
        side == 3 || side == 5,
        m@.len() == side * side,
        -1000 <= px <= 1000,
        -1000 <= py <= 1000,
    ensures
        reqs@ == piece_draws(m@, side as int, px as int, py as int, dim, (side * side) as int),
{
    let s = side as usize;
    let n = s * s;
    let mut reqs: Vec<DrawRequest> = Vec::new();
    let mut i: usize = 0;
    while i < n
        invariant
            side == 3 || side == 5,
            m@.len() == side * side,
            -1000 <= px <= 1000,
            -1000 <= py <= 1000,
            s == side,
            n == side * side,
            i <= n,
            reqs@ == piece_draws(m@, side as int, px as int, py as int, dim, i as int),
        decreases n - i,
    {
        let v = m[i];
        let ix = i % s;
        let iy = i / s;
        proof {
            assert(0 <= (i as int) % (s as int) < s && 0 <= (i as int) / (s as int) < s)
                by (nonlinear_arith)
                requires
                    1 <= s <= 5,
                    0 <= i < s * s,
            ;
        }
        if v > 0 {
            reqs.push(
                DrawRequest { x: px - ix as i32, y: py - iy as i32, sprite: v - 1, dim },
            );
        }
        proof {
            assert(reqs@ =~= piece_draws(
                m@,
                side as int,
                px as int,
                py as int,
                dim,
                i as int + 1,
            ));
        }
        i = i + 1;
    }
    reqs
}

} // verus!
