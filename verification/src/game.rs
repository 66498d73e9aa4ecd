use vstd::prelude::*;

use crate::tetris_board;
use crate::tetris_board::TetrisBoard;
use crate::tetromino;
use crate::tetromino::Tetromino;

verus! {

/// Relies on rand::random: an ambient random value drawn from the thread
/// rng; nothing is promised of the result.
pub assume_specification<T>[ rand::random::<T> ]() -> (r: T)
    where
        rand::distributions::Standard: rand::distributions::Distribution<T>,
;

/// Draw a random piece kind id below 7.
pub fn random_kind() -> (k: u8)
    ensures
        k < 7,
{
    let b: u8 = rand::random();
    b % 7
}

/// A freshly spawned piece of any kind fits a board whose interior is
/// completely empty.
pub proof fn lemma_spawn_fits(b: Seq<u8>, t: Tetromino, k: u8)
    requires
        t.is_spawn(k),
        forall|x: int, y: int|
            tetris_board::in_bounds(x, y) && !tetris_board::is_border(x, y)
                ==> #[trigger] tetris_board::cell_at(b, x, y) == 0,
    ensures
        tetris_board::spec_fits(
            b,
            t.piece_data@,
            t.rotation_constant as int,
            t.x as int,
            t.y as int,
        ),
        tetris_board::spec_inside(
            t.piece_data@,
            t.rotation_constant as int,
            t.x as int,
            t.y as int,
        ),
{
    let side = t.rotation_constant as int;
    assert forall|ix: int, iy: int|
        0 <= ix < side && 0 <= iy < side && #[trigger] tetris_board::mask_at(
            t.piece_data@,
            side,
            ix,
            iy,
        ) != 0 implies tetris_board::in_bounds(t.x - ix, t.y - iy) && tetris_board::cell_at(
        b,
        t.x - ix,
        t.y - iy,
    ) == 0 by {
        assert(!tetris_board::is_border(t.x - ix, t.y - iy));
    }
}

/// The lock-then-spawn sequence: the active piece locks with its anchor
/// at row `py`, line detection runs over the rows it spans, the preview
/// queue advances (front spawned, `k` appended), a clear is scheduled a
/// fixed number of ticks ahead — and if the spawned piece does not fit,
/// the board is reset to empty (the game-over signal).
pub open spec fn locked_spawn(pre: Game, post: Game, py: int, k: u8) -> bool {
    let side = pre.tet.rotation_constant as int;
    let placed = tetris_board::place_piece(
        pre.board.grid(),
        pre.tet.piece_data@,
        side,
        pre.tet.x as int,
        py,
    );
    let marked = tetris_board::mark_lines(placed, side, py);
    let kind = pre.next_pieces@[0];
    let spawn_fits = tetris_board::spec_fits(
        marked,
        tetromino::shape_of(kind),
        tetromino::side_of(kind) as int,
        tetromino::spawn_x(kind) as int,
        tetromino::spawn_y(kind) as int,
    );
    &&& post.tet.wf()
    &&& post.tet.is_spawn(kind)
    &&& post.next_pieces@ == pre.next_pieces@.subrange(1, 6).push(k)
    &&& post.down_tick == pre.down_tick
    &&& post.clear_tick == post.ticks + 20
    &&& (spawn_fits ==> {
        &&& post.board.grid() == marked
        &&& post.board.did_zero == (pre.board.did_zero || exists|r: int|
            #[trigger] tetris_board::newly_full(placed, side, py, r))
        &&& forall|r: int|
            #[trigger] post.board.has_pending(r) <==> (pre.board.has_pending(r)
                || tetris_board::newly_full(placed, side, py, r))
    })
    &&& (!spawn_fits ==> {
        &&& post.board.did_zero == false
        &&& post.board.pending().len() == 0
        &&& forall|x: int, y: int|
            tetris_board::in_bounds(x, y) ==> #[trigger] tetris_board::cell_at(
                post.board.grid(),
                x,
                y,
            ) == (if tetris_board::is_border(x, y) {
                tetris_board::WALL
            } else {
                0
            })
    })
}

/// The scheduled-clear step: when a clear is due and the tick counter
/// has reached the scheduled tick, the pending rows are compacted and
/// the clear flag reset; otherwise the board stays as it is.
pub open spec fn clear_phase(pre: TetrisBoard, post: TetrisBoard, t: int, ct: int) -> bool {
    if pre.did_zero && t == ct {
        &&& post.grid() == tetris_board::clear_rows(pre.grid(), pre.pending())
        &&& post.did_zero == false
        &&& post.pending().len() == 0
    } else {
        post == pre
    }
}

/// One game session: the active piece, the board, the gravity and
/// clear-scheduling tick counters, and the preview queue of upcoming
/// piece kinds. Input events map to the `move_left` / `move_right` /
/// `rotate_cw` / `rotate_ccw` / `soft_drop` / `hard_drop` methods, and
/// the periodic tick event to `update`.
pub struct Game {
    pub tet: Tetromino,
    pub board: TetrisBoard,
    pub ticks: u32,
    pub down_tick: u32,
    pub clear_tick: u32,
    pub next_pieces: Vec<u8>,
}

impl Game {
    /// Internal invariant: a well-formed board and piece, the piece in a
    /// position that fits, a six-long preview queue and a positive
    /// gravity interval.
    pub open spec fn wf(&self) -> bool {
        &&& self.tet.wf()
        &&& self.board.wf()
        &&& tetris_board::spec_inside(
            self.tet.piece_data@,
            self.tet.rotation_constant as int,
            self.tet.x as int,
            self.tet.y as int,
        )
        &&& self.next_pieces@.len() == 6
        &&& self.down_tick > 0
    }

    /// A new session with the given piece kinds: the first becomes the
    /// active piece, the remaining six fill the preview queue. The board
    /// starts empty.
    pub fn from_kinds(kinds: &Vec<u8>) -> (g: Game)
        requires
            kinds@.len() == 7,
        ensures
            g.wf(),
            g.ticks == 0,
            g.down_tick == 60,
            g.clear_tick == 20,
            g.tet.is_spawn(kinds@[0]),
            g.next_pieces@ == kinds@.subrange(1, 7),
            g.board.did_zero == false,
            g.board.pending().len() == 0,
            forall|x: int, y: int|
                tetris_board::in_bounds(x, y) ==> #[trigger] tetris_board::cell_at(
                    g.board.grid(),
                    x,
                    y,
                ) == (if tetris_board::is_border(x, y) {
                    tetris_board::WALL
                } else {
                    0
                }),
    {
        let tet = Tetromino::new_piece(kinds[0]);
        let board = TetrisBoard::new();
        let mut next_pieces: Vec<u8> = Vec::new();
        let mut i: usize = 1;
        while i < 7
            invariant
                kinds@.len() == 7,
                1 <= i <= 7,
                next_pieces@ == kinds@.subrange(1, i as int),
            decreases 7 - i,
        {
            next_pieces.push(kinds[i]);
            proof {
                assert(next_pieces@ =~= kinds@.subrange(1, i + 1));
            }
            i = i + 1;
        }
        let g = Game { tet, board, ticks: 0, down_tick: 60, clear_tick: 20, next_pieces };
        proof {
            lemma_spawn_fits(g.board.grid(), g.tet, kinds@[0]);
        }
        g
    }

    /// A new session with randomly drawn piece kinds.
    pub fn new() -> (g: Game)
        ensures
            g.wf(),
            g.ticks == 0,
            g.down_tick == 60,
            g.clear_tick == 20,
            exists|kk: u8| kk < 7 && #[trigger] g.tet.is_spawn(kk),
            forall|i: int| 0 <= i < 6 ==> #[trigger] g.next_pieces@[i] < 7,
            g.board.did_zero == false,
            g.board.pending().len() == 0,
            forall|x: int, y: int|
                tetris_board::in_bounds(x, y) ==> #[trigger] tetris_board::cell_at(
                    g.board.grid(),
                    x,
                    y,
                ) == (if tetris_board::is_border(x, y) {
                    tetris_board::WALL
                } else {
                    0
                }),
    {
        let mut kinds: Vec<u8> = Vec::new();
        let mut i: usize = 0;
        while i < 7
            invariant
                i <= 7,
                kinds@.len() == i,
                forall|j: int| 0 <= j < i ==> #[trigger] kinds@[j] < 7,
            decreases 7 - i,
        {
            kinds.push(random_kind());
            i = i + 1;
        }
        let g = Game::from_kinds(&kinds);
        proof {
            assert(g.tet.is_spawn(kinds@[0]));
            assert forall|j: int| 0 <= j < 6 implies #[trigger] g.next_pieces@[j] < 7 by {
                assert(g.next_pieces@[j] == kinds@[j + 1]);
            }
        }
        g
    }

    /// Advance the preview queue after a lock: spawn the queue's front as
    /// the active piece, shift the queue and append `k` at the back; if
    /// the spawned piece does not fit, reset the board to empty. A clear
    /// is scheduled a fixed number of ticks from now.
    fn spawn_after_lock(&mut self, k: u8)
        requires
            old(self).board.wf(),
            old(self).next_pieces@.len() == 6,
            old(self).down_tick > 0,
            old(self).ticks + 20 <= u32::MAX,
        ensures
            final(self).wf(),
            final(self).ticks == old(self).ticks,
            final(self).down_tick == old(self).down_tick,
            final(self).clear_tick == old(self).ticks + 20,
            final(self).tet.wf(),
            final(self).tet.is_spawn(old(self).next_pieces@[0]),
            final(self).next_pieces@ == old(self).next_pieces@.subrange(1, 6).push(k),
            ({
                let kind = old(self).next_pieces@[0];
                let spawn_fits = tetris_board::spec_fits(
                    old(self).board.grid(),
                    tetromino::shape_of(kind),
                    tetromino::side_of(kind) as int,
                    tetromino::spawn_x(kind) as int,
                    tetromino::spawn_y(kind) as int,
                );
                &&& (spawn_fits ==> final(self).board == old(self).board)
                &&& (!spawn_fits ==> {
                    &&& final(self).board.did_zero == false
                    &&& final(self).board.pending().len() == 0
                    &&& forall|x: int, y: int|
                        tetris_board::in_bounds(x, y) ==> #[trigger] tetris_board::cell_at(
                            final(self).board.grid(),
                            x,
                            y,
                        ) == (if tetris_board::is_border(x, y) {
                            tetris_board::WALL
                        } else {
                            0
                        })
                })
            }),
    {
        self.tet = Tetromino::new_piece(self.next_pieces[0]);
        let ghost q0 = self.next_pieces@;
        let ghost tpre = self.tet;
        let mut i: usize = 0;
        while i < 5
            invariant
                q0.len() == 6,
                i <= 5,
                self.next_pieces@.len() == 6,
                self.board == old(self).board,
                self.tet == tpre,
                self.ticks == old(self).ticks,
                self.down_tick == old(self).down_tick,
                self.clear_tick == old(self).clear_tick,
                forall|j: int| 0 <= j < i ==> #[trigger] self.next_pieces@[j] == q0[j + 1],
                forall|j: int| i <= j < 6 ==> #[trigger] self.next_pieces@[j] == q0[j],
            decreases 5 - i,
        {
            let v = self.next_pieces[i + 1];
            self.next_pieces.set(i, v);
            i = i + 1;
        }
        self.next_pieces.set(5, k);
        proof {
            assert(self.next_pieces@ =~= q0.subrange(1, 6).push(k));
        }
        if !self.board.check_piece_fits(&self.tet) {
            self.board = TetrisBoard::new();
            proof {
                lemma_spawn_fits(self.board.grid(), self.tet, q0[0]);
            }
        }
        self.clear_tick = self.ticks + 20;
    }

    /// One gravity tick. Every `down_tick`-th tick the piece falls one
    /// row, locking (and spawning the next piece) when it cannot; on the
    /// scheduled clear tick, pending rows are compacted and the clear
    /// flag reset.
    pub fn update(&mut self, k: u8)
        requires
            old(self).wf(),
            old(self).ticks + 21 <= u32::MAX,
        ensures
            final(self).wf(),
            final(self).ticks == old(self).ticks + 1,
            final(self).down_tick == old(self).down_tick,
            ({
                let t1 = old(self).ticks + 1;
                let grav = t1 as int % old(self).down_tick as int == 0;
                let fell = tetris_board::spec_fits(
                    old(self).board.grid(),
                    old(self).tet.piece_data@,
                    old(self).tet.rotation_constant as int,
                    old(self).tet.x as int,
                    old(self).tet.y as int - 1,
                );
                &&& (!grav ==> {
                    &&& final(self).tet == old(self).tet
                    &&& final(self).next_pieces@ == old(self).next_pieces@
                    &&& final(self).clear_tick == old(self).clear_tick
                    &&& clear_phase(
                        old(self).board,
                        final(self).board,
                        t1 as int,
                        old(self).clear_tick as int,
                    )
                })
                &&& (grav && fell ==> {
                    &&& final(self).tet == (Tetromino {
                        y: (old(self).tet.y - 1) as u8,
                        ..old(self).tet
                    })
                    &&& final(self).next_pieces@ == old(self).next_pieces@
                    &&& final(self).clear_tick == old(self).clear_tick
                    &&& clear_phase(
                        old(self).board,
                        final(self).board,
                        t1 as int,
                        old(self).clear_tick as int,
                    )
                })
                &&& (grav && !fell ==> locked_spawn(
                    *old(self),
                    *final(self),
                    old(self).tet.y as int,
                    k,
                ))
            }),
    {
        self.ticks = self.ticks + 1;
        if self.ticks % self.down_tick == 0 {
            if self.tet.force_down(&mut self.board) {
                self.spawn_after_lock(k);
            } else {
                proof {
                    tetris_board::lemma_fits_inside(
                        self.board.grid(),
                        self.tet.piece_data@,
                        self.tet.rotation_constant as int,
                        self.tet.x as int,
                        self.tet.y as int,
                    );
                }
            }
        }
        if self.board.did_zero {
            if self.ticks == self.clear_tick {
                self.board.clear_lines();
                self.board.did_zero = false;
            }
        }
    }

    /// Move the active piece one column toward the logical left; a
    /// colliding move is a silent no-op. The board is untouched.
    pub fn move_left(&mut self) -> (moved: bool)
        requires
            old(self).wf(),
        ensures
            final(self).wf(),
            self_still(*old(self), *final(self)),
            moved == tetris_board::spec_fits(
                old(self).board.grid(),
                old(self).tet.piece_data@,
                old(self).tet.rotation_constant as int,
                old(self).tet.x + 1,
                old(self).tet.y as int,
            ),
            moved ==> final(self).tet == (Tetromino {
                x: (old(self).tet.x + 1) as u8,
                ..old(self).tet
            }),
            !moved ==> final(self).tet == old(self).tet,
    {
        let moved = self.tet.move_piece(1, 0, &self.board);
        proof {
            if moved {
                tetris_board::lemma_fits_inside(
                    self.board.grid(),
                    self.tet.piece_data@,
                    self.tet.rotation_constant as int,
                    self.tet.x as int,
                    self.tet.y as int,
                );
            }
        }
        moved
    }

    /// Move the active piece one column toward the logical right; a
    /// colliding move is a silent no-op. The board is untouched.
    pub fn move_right(&mut self) -> (moved: bool)
        requires
            old(self).wf(),
        ensures
            final(self).wf(),
            self_still(*old(self), *final(self)),
            moved == tetris_board::spec_fits(
                old(self).board.grid(),
                old(self).tet.piece_data@,
                old(self).tet.rotation_constant as int,
                old(self).tet.x - 1,
                old(self).tet.y as int,
            ),
            moved ==> final(self).tet == (Tetromino {
                x: (old(self).tet.x - 1) as u8,
                ..old(self).tet
            }),
            !moved ==> final(self).tet == old(self).tet,
    {
        let moved = self.tet.move_piece(-1, 0, &self.board);
        proof {
            if moved {
                tetris_board::lemma_fits_inside(
                    self.board.grid(),
                    self.tet.piece_data@,
                    self.tet.rotation_constant as int,
                    self.tet.x as int,
                    self.tet.y as int,
                );
            }
        }
        moved
    }

    /// Rotate the active piece clockwise with wall-kick resolution; a
    /// rotation whose every kick test collides is a silent no-op.
    pub fn rotate_cw(&mut self) -> (rotated: bool)
        requires
            old(self).wf(),
        ensures
            final(self).wf(),
            self_still(*old(self), *final(self)),
            rotated_state(*old(self), *final(self), 1, rotated),
    {
        let rotated = self.tet.rotate_piece(1, &self.board);
        proof {
            tetromino::lemma_first_fit_min(
                self.board.grid(),
                old(self).tet,
                tetromino::rotate_target(old(self).tet, 1),
                0,
            );
            if rotated {
                tetris_board::lemma_fits_inside(
                    self.board.grid(),
                    self.tet.piece_data@,
                    self.tet.rotation_constant as int,
                    self.tet.x as int,
                    self.tet.y as int,
                );
            }
        }
        rotated
    }

    /// Rotate the active piece counterclockwise with wall-kick
    /// resolution; a rotation whose every kick test collides is a silent
    /// no-op.
    pub fn rotate_ccw(&mut self) -> (rotated: bool)
        requires
            old(self).wf(),
        ensures
            final(self).wf(),
            self_still(*old(self), *final(self)),
            rotated_state(*old(self), *final(self), -1, rotated),
    {
        let rotated = self.tet.rotate_piece(-1, &self.board);
        proof {
            tetromino::lemma_first_fit_min(
                self.board.grid(),
                old(self).tet,
                tetromino::rotate_target(old(self).tet, -1),
                0,
            );
            if rotated {
                tetris_board::lemma_fits_inside(
                    self.board.grid(),
                    self.tet.piece_data@,
                    self.tet.rotation_constant as int,
                    self.tet.x as int,
                    self.tet.y as int,
                );
            }
        }
        rotated
    }

    /// One input-driven gravity step: the piece falls one row, or locks
    /// where it stands, runs line detection, spawns the queue's front
    /// and schedules a clear.
    pub fn soft_drop(&mut self, k: u8) -> (locked: bool)
        requires
            old(self).wf(),
            old(self).ticks + 20 <= u32::MAX,
        ensures
            final(self).wf(),
            final(self).ticks == old(self).ticks,
            final(self).down_tick == old(self).down_tick,
            locked == !tetris_board::spec_fits(
                old(self).board.grid(),
                old(self).tet.piece_data@,
                old(self).tet.rotation_constant as int,
                old(self).tet.x as int,
                old(self).tet.y as int - 1,
            ),
            !locked ==> final(self).board == old(self).board && final(self).clear_tick == old(
                self,
            ).clear_tick && final(self).next_pieces@ == old(self).next_pieces@ && final(self).tet
                == (Tetromino { y: (old(self).tet.y - 1) as u8, ..old(self).tet }),
            locked ==> locked_spawn(*old(self), *final(self), old(self).tet.y as int, k),
    {
        if self.tet.force_down(&mut self.board) {
            self.spawn_after_lock(k);
            true
        } else {
            proof {
                tetris_board::lemma_fits_inside(
                    self.board.grid(),
                    self.tet.piece_data@,
                    self.tet.rotation_constant as int,
                    self.tet.x as int,
                    self.tet.y as int,
                );
            }
            false
        }
    }

    /// Hard drop: the piece falls straight to its resting row and locks
    /// there at once, with the same lock-then-spawn sequence as any lock.
    pub fn hard_drop(&mut self, k: u8)
        requires
            old(self).wf(),
            old(self).ticks + 20 <= u32::MAX,
        ensures
            final(self).wf(),
            final(self).ticks == old(self).ticks,
            final(self).down_tick == old(self).down_tick,
            ({
                let rest = tetromino::drop_y(
                    old(self).board.grid(),
                    old(self).tet.piece_data@,
                    old(self).tet.rotation_constant as int,
                    old(self).tet.x as int,
                    old(self).tet.y as int,
                );
                locked_spawn(
                    *old(self),
                    *final(self),
                    rest,
                    k,
                )
            }),
    {
        let ghost g0 = *self;
        let ghost b0 = self.board.grid();
        let ghost m = self.tet.piece_data@;
        let ghost side = self.tet.rotation_constant as int;
        let ghost x0 = self.tet.x as int;
        let ghost y0 = self.tet.y as int;
        loop
            invariant_except_break
                self.wf(),
                self.board == old(self).board,
                b0 == self.board.grid(),
                m == self.tet.piece_data@,
                side == self.tet.rotation_constant as int,
                x0 == self.tet.x as int,
                self.tet.y <= y0,
                self.ticks == old(self).ticks,
                self.down_tick == old(self).down_tick,
                self.clear_tick == old(self).clear_tick,
                self.next_pieces@ == old(self).next_pieces@,
                self.tet == (Tetromino { y: self.tet.y, ..old(self).tet }),
                old(self).ticks + 20 <= u32::MAX,
                tetromino::drop_y(b0, m, side, x0, y0) == tetromino::drop_y(
                    b0,
                    m,
                    side,
                    x0,
                    self.tet.y as int,
                ),
            ensures
                self.ticks == old(self).ticks,
                self.down_tick == old(self).down_tick,
                self.clear_tick == old(self).clear_tick,
                self.next_pieces@ == old(self).next_pieces@,
                self.tet == (Tetromino { y: self.tet.y, ..old(self).tet }),
                old(self).ticks + 20 <= u32::MAX,
                self.tet.y as int == tetromino::drop_y(b0, m, side, x0, y0),
                self.tet.wf(),
                side == self.tet.rotation_constant as int,
                m == self.tet.piece_data@,
                x0 == self.tet.x as int,
                self.board.wf(),
                self.next_pieces@.len() == 6,
                self.board.grid() == tetris_board::mark_lines(
                    tetris_board::place_piece(b0, m, side, x0, self.tet.y as int),
                    side,
                    self.tet.y as int,
                ),
                self.board.did_zero == (old(self).board.did_zero || exists|r: int|
                    #[trigger] tetris_board::newly_full(
                        tetris_board::place_piece(b0, m, side, x0, self.tet.y as int),
                        side,
                        self.tet.y as int,
                        r,
                    )),
                forall|r: int|
                    #[trigger] self.board.has_pending(r) <==> (old(self).board.has_pending(r)
                        || tetris_board::newly_full(
                        tetris_board::place_piece(b0, m, side, x0, self.tet.y as int),
                        side,
                        self.tet.y as int,
                        r,
                    )),
            decreases self.tet.y,
        {
            let ghost ypre = self.tet.y as int;
            let locked = self.tet.force_down(&mut self.board);
            if locked {
                proof {
                    assert(tetromino::drop_y(b0, m, side, x0, ypre) == ypre);
                }
                break ;
            }
            proof {
                tetromino::lemma_piece_mask_nonzero(self.tet);
                tetromino::lemma_fits_anchor_bounds(b0, m, side, x0, ypre - 1);
                tetris_board::lemma_fits_inside(b0, m, side, x0, ypre - 1);
                assert(ypre >= 1);
                assert(tetromino::drop_y(b0, m, side, x0, ypre) == tetromino::drop_y(
                    b0,
                    m,
                    side,
                    x0,
                    ypre - 1,
                ));
            }
        }
        self.spawn_after_lock(k);
    }

    /// Emit the frame's draw requests: the board's occupied cells, the
    /// active piece with its ghost, then the six preview pieces at their
    /// slots beside the board.
    pub fn render(&mut self) -> (reqs: Vec<crate::draw::DrawRequest>)
        requires
            old(self).wf(),
        ensures
            *final(self) == *old(self),
            ({
                let m = old(self).tet.piece_data@;
                let side = old(self).tet.rotation_constant as int;
                let px = old(self).tet.x as int;
                let py = old(self).tet.y as int;
                let gy = if tetris_board::spec_fits(old(self).board.grid(), m, side, px, py) {
                    tetromino::drop_y(old(self).board.grid(), m, side, px, py)
                } else {
                    py
                };
                reqs@ == crate::draw::board_draws(
                    old(self).board.grid(),
                    tetris_board::board_len(),
                ) + crate::draw::piece_draws(m, side, px, py, false, side * side)
                    + crate::draw::piece_draws(m, side, px, gy, true, side * side)
                    + preview_draws(old(self).next_pieces@, 6)
            }),
    {
        let mut reqs = self.board.render();
        let mut piece_reqs = self.tet.render(&self.board);
        reqs.append(&mut piece_reqs);
        let ghost pre = *self;
        let mut i: usize = 0;
        while i < 6
            invariant
                *self == pre,
                pre.wf(),
                i <= 6,
                reqs@ == crate::draw::board_draws(pre.board.grid(), tetris_board::board_len())
                    + crate::draw::piece_draws(
                    pre.tet.piece_data@,
                    pre.tet.rotation_constant as int,
                    pre.tet.x as int,
                    pre.tet.y as int,
                    false,
                    pre.tet.rotation_constant as int * pre.tet.rotation_constant as int,
                ) + crate::draw::piece_draws(
                    pre.tet.piece_data@,
                    pre.tet.rotation_constant as int,
                    pre.tet.x as int,
                    if tetris_board::spec_fits(
                        pre.board.grid(),
                        pre.tet.piece_data@,
                        pre.tet.rotation_constant as int,
                        pre.tet.x as int,
                        pre.tet.y as int,
                    ) {
                        tetromino::drop_y(
                            pre.board.grid(),
                            pre.tet.piece_data@,
                            pre.tet.rotation_constant as int,
                            pre.tet.x as int,
                            pre.tet.y as int,
                        )
                    } else {
                        pre.tet.y as int
                    },
                    true,
                    pre.tet.rotation_constant as int * pre.tet.rotation_constant as int,
                ) + preview_draws(pre.next_pieces@, i as int),
            decreases 6 - i,
        {
            let next_up = Tetromino::new_piece(self.next_pieces[i]);
            let mut preview_reqs = next_up.render_force_position(-5, 20 - 3 * i as i32);
            reqs.append(&mut preview_reqs);
            proof {
                assert(next_up.piece_data@ == tetromino::shape_of(pre.next_pieces@[i as int]));
                assert(reqs@ =~= crate::draw::board_draws(
                    pre.board.grid(),
                    tetris_board::board_len(),
                ) + crate::draw::piece_draws(
                    pre.tet.piece_data@,
                    pre.tet.rotation_constant as int,
                    pre.tet.x as int,
                    pre.tet.y as int,
                    false,
                    pre.tet.rotation_constant as int * pre.tet.rotation_constant as int,
                ) + crate::draw::piece_draws(
                    pre.tet.piece_data@,
                    pre.tet.rotation_constant as int,
                    pre.tet.x as int,
                    if tetris_board::spec_fits(
                        pre.board.grid(),
                        pre.tet.piece_data@,
                        pre.tet.rotation_constant as int,
                        pre.tet.x as int,
                        pre.tet.y as int,
                    ) {
                        tetromino::drop_y(
                            pre.board.grid(),
                            pre.tet.piece_data@,
                            pre.tet.rotation_constant as int,
                            pre.tet.x as int,
                            pre.tet.y as int,
                        )
                    } else {
                        pre.tet.y as int
                    },
                    true,
                    pre.tet.rotation_constant as int * pre.tet.rotation_constant as int,
                ) + preview_draws(pre.next_pieces@, i as int + 1));
            }
            i = i + 1;
        }
        reqs
    }
}

/// The draw requests of the first `n` preview pieces, each drawn at its
/// fixed slot beside the board, top slot first.
pub open spec fn preview_draws(ks: Seq<u8>, n: int) -> Seq<crate::draw::DrawRequest>
    decreases n,
{
    if n <= 0 {
        Seq::empty()
    } else {
        let k = ks[n - 1];
        let side = tetromino::side_of(k) as int;
        preview_draws(ks, n - 1) + crate::draw::piece_draws(
            tetromino::shape_of(k),
            side,
            -5,
            20 - 3 * (n - 1),
            false,
            side * side,
        )
    }
}

/// The parts of a session that a lateral move or a rotation never
/// touches: the board and every tick counter and queue entry.
pub open spec fn self_still(pre: Game, post: Game) -> bool {
    &&& post.board == pre.board
    &&& post.ticks == pre.ticks
    &&& post.down_tick == pre.down_tick
    &&& post.clear_tick == pre.clear_tick
    &&& post.next_pieces@ == pre.next_pieces@
}

/// The exact outcome of a rotation attempt in direction `d`, as decided
/// by `rotate_attempt` over the pre-state and the board occupancy.
pub open spec fn rotated_state(pre: Game, post: Game, d: int, r: bool) -> bool {
    let to = tetromino::rotate_target(pre.tet, d);
    match tetromino::rotate_attempt(pre.board.grid(), pre.tet, d) {
        Some(i) => r && post.tet == (Tetromino {
            piece_data: post.tet.piece_data,
            rotation: to as u8,
            x: tetromino::cand_x(pre.tet, to, i) as u8,
            y: tetromino::cand_y(pre.tet, to, i) as u8,
            ..pre.tet
        }) && post.tet.piece_data@ == tetromino::mask_of(
            pre.tet.static_piece_data@,
            pre.tet.rotation_constant as int,
            to,
        ),
        None => !r && post.tet == pre.tet,
    }
}

} // verus!
