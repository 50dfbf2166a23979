//! The game state machine: one board, the falling piece, the next and held
//! pieces, scoring, and the tick/lock/spawn/hold transitions.

use vstd::prelude::*;

use crate::board::{empty_rows, kept_rows, num_full, Board};
use crate::piece::{
    can_move_spec, can_stay_spec, delta_x, delta_y, lemma_can_stay_in_bounds,
    lemma_moved_in_bounds, lemma_rotated_can_stay, lemma_shape_eq_wf, nudged_x, piece_eq,
    piece_in_bounds, rotated_fits, Direction, Piece,
};
use crate::shape::{get_random_shape, is_catalog_shape, rotation_of, Color};

verus! {

/// The whole game: the single source of truth for board, pieces, score,
/// and the game-over flag.
pub struct GameState {
    pub board: Board,
    pub current_piece: Piece,
    pub next_piece: Piece,
    pub game_over: bool,
    pub score: u32,
    pub held_piece: Option<Piece>,
    pub hold_used: bool,
}

/// The points awarded for clearing `n` rows at once: exactly 1, 2, 3, or 4
/// rows award 100, 300, 500, or 800; anything else awards nothing.
pub open spec fn score_for(n: int) -> u32 {
    if n == 1 {
        100
    } else if n == 2 {
        300
    } else if n == 3 {
        500
    } else if n == 4 {
        800
    } else {
        0
    }
}

/// The piece covers board row `r`, column `c` with an occupied shape cell.
pub open spec fn covers(p: Piece, r: int, c: int) -> bool {
    exists|i: int, j: int| #[trigger] p.shape.occupied(i, j) && p.y + i == r && p.x + j == c
}

/// The grid after the piece's occupied cells are painted into it with the
/// piece's color; all other cells keep their value.
pub open spec fn merged_grid(g: Seq<Seq<Color>>, p: Piece) -> Seq<Seq<Color>> {
    Seq::new(
        g.len(),
        |r: int|
            Seq::new(
                g[r].len(),
                |c: int| if covers(p, r, c) {
                    p.shape.color
                } else {
                    g[r][c]
                },
            ),
    )
}

/// A freshly drawn piece: a catalog shape, horizontally centered on a
/// board of width `bw`, at the top row.
pub open spec fn is_spawn_piece(p: Piece, bw: int) -> bool {
    &&& p.shape.wf()
    &&& is_catalog_shape(p.shape)
    &&& p.y == 0
    &&& p.x as int == bw / 2 - p.shape.width as int / 2
}

/// What locking the current piece does to the board, the score, and the
/// hold latch: the piece's cells are merged in, full rows are cleared with
/// empty rows refilled at the top, the cleared count is scored, and the
/// hold latch is released.
pub open spec fn lock_board_rel(pre: GameState, post: GameState) -> bool {
    let m = merged_grid(pre.board.grid_view(), pre.current_piece);
    &&& post.board.width == pre.board.width
    &&& post.board.height == pre.board.height
    &&& post.board.grid_view() == empty_rows(num_full(m), pre.board.width as nat) + kept_rows(m)
    &&& post.score == pre.score + score_for(num_full(m) as int)
    &&& post.hold_used == false
}

/// A full lock step: lock the current piece (see [`lock_board_rel`]), then
/// promote the next piece if it can stay on the cleared board — otherwise
/// the game is over and the promoted piece is not installed — and draw a
/// fresh next piece.
pub open spec fn lock_spawn(pre: GameState, post: GameState) -> bool {
    let w = pre.board.width as int;
    let h = pre.board.height as int;
    &&& lock_board_rel(pre, post)
    &&& post.held_piece == pre.held_piece
    &&& is_spawn_piece(post.next_piece, w)
    &&& (can_stay_spec(pre.next_piece, post.board.grid_view(), w, h) ==> post.current_piece
        == pre.next_piece && post.game_over == pre.game_over)
    &&& (!can_stay_spec(pre.next_piece, post.board.grid_view(), w, h) ==> post.game_over == true
        && post.current_piece == pre.current_piece)
}

/// Everything except the current piece is unchanged between two states.
pub open spec fn only_current_changed(pre: GameState, post: GameState) -> bool {
    &&& post.board == pre.board
    &&& post.score == pre.score
    &&& post.next_piece == pre.next_piece
    &&& post.held_piece == pre.held_piece
    &&& post.hold_used == pre.hold_used
    &&& post.game_over == pre.game_over
}

/// The piece lowered by `k` rows.
pub open spec fn piece_down(p: Piece, k: int) -> Piece {
    Piece { y: (p.y + k) as u8, ..p }
}

/// Dropping the piece straight down comes to rest after exactly `k` legal
/// one-cell moves: each intermediate position can still move down, and the
/// final one cannot.
pub open spec fn drops_to(p: Piece, k: int, g: Seq<Seq<Color>>, w: int, h: int) -> bool {
    &&& 0 <= k
    &&& p.y + k <= u8::MAX
    &&& forall|j: int|
        0 <= j < k ==> can_move_spec(#[trigger] piece_down(p, j), Direction::Down, g, w, h)
    &&& !can_move_spec(piece_down(p, k), Direction::Down, g, w, h)
}

/// The state with its current piece lowered by `k` rows.
pub open spec fn with_current_down(pre: GameState, k: int) -> GameState {
    GameState { current_piece: piece_down(pre.current_piece, k), ..pre }
}

/// How a movement command relates the new state to the old: only the
/// current piece changes, stepped by the direction's unit delta when the
/// move is legal and left alone when it is not.
pub open spec fn moved_rel(pre: GameState, post: GameState, d: Direction) -> bool {
    &&& only_current_changed(pre, post)
    &&& post.current_piece.shape == pre.current_piece.shape
    &&& (can_move_spec(
        pre.current_piece,
        d,
        pre.board.grid_view(),
        pre.board.width as int,
        pre.board.height as int,
    ) ==> post.current_piece.x as int == pre.current_piece.x + delta_x(d)
        && post.current_piece.y as int == pre.current_piece.y + delta_y(d))
    &&& (!can_move_spec(
        pre.current_piece,
        d,
        pre.board.grid_view(),
        pre.board.width as int,
        pre.board.height as int,
    ) ==> post.current_piece == pre.current_piece)
}

/// A piece whose top-left corner sits at the centered spawn position of a
/// board that is at least 4 cells wide and tall lies within bounds.
pub proof fn lemma_centered_in_bounds(p: Piece, bw: int, bh: int)
    requires
        p.shape.wf(),
        p.y == 0,
        p.x as int == bw / 2 - p.shape.width as int / 2,
        4 <= bw,
        4 <= bh,
    ensures
        piece_in_bounds(p, bw, bh),
{
    let w = p.shape.width as int;
    assert forall|i: int, j: int| #[trigger] p.shape.occupied(i, j) implies p.x + j < bw && p.y + i
        < bh by {
        assert(p.x + j <= p.x + w - 1);
        assert(p.x + w == bw / 2 + (w - w / 2));
        assert(w - w / 2 <= 2);
        assert(bw / 2 + bw / 2 <= bw);
        assert(2 <= bw / 2);
        assert(p.y + i <= p.shape.height - 1);
    }
}

impl GameState {
    /// Structural soundness of the whole game state: a rectangular board
    /// of workable size, well-formed pieces, and a current piece inside
    /// the board.
    pub open spec fn wf(self) -> bool {
        &&& self.board.wf()
        &&& self.board.width >= 4
        &&& self.board.height >= 4
        &&& self.current_piece.shape.wf()
        &&& piece_in_bounds(
            self.current_piece,
            self.board.width as int,
            self.board.height as int,
        )
        &&& self.next_piece.shape.wf()
        &&& match self.held_piece {
            Option::Some(p) => p.shape.wf(),
            Option::None => true,
        }
    }

    /// A random catalog piece, horizontally centered at the top of a board
    /// of the given width.
    fn fresh_piece(width: u8) -> (p: Piece)
        requires
            width >= 4,
        ensures
            is_spawn_piece(p, width as int),
    {
        let shape = get_random_shape();
        let x = width / 2 - shape.width / 2;
        Piece { x, y: 0, shape }
    }

    /// A new game: an empty board of the given dimensions, a fresh current
    /// and next piece, nothing held, score zero, not over.  Dimensions
    /// under 4 cannot hold every tetromino and are rejected as degenerate.
    pub fn new(board_width: u8, board_height: u8) -> (r: GameState)
        requires
            board_width >= 4,
            board_height >= 4,
        ensures
            r.wf(),
            r.board.width == board_width,
            r.board.height == board_height,
            r.board.grid_view() == empty_rows(board_height as nat, board_width as nat),
            r.score == 0,
            !r.game_over,
            r.held_piece is None,
            !r.hold_used,
            is_spawn_piece(r.current_piece, board_width as int),
            is_spawn_piece(r.next_piece, board_width as int),
    {
        let board = Board::new(board_width, board_height);
        let current_piece = Self::fresh_piece(board_width);
        let next_piece = Self::fresh_piece(board_width);
        let r = GameState {
            board,
            current_piece,
            next_piece,
            game_over: false,
            score: 0,
            held_piece: Option::None,
            hold_used: false,
        };
        proof {
            lemma_centered_in_bounds(r.current_piece, board_width as int, board_height as int);
        }
        r
    }

    /// Whether the piece covers board row `r`, column `c`.
    #[verifier::loop_isolation(false)]
    fn is_covered(p: &Piece, r: usize, c: usize) -> (b: bool)
        requires
            p.shape.rect(),
        ensures
            b == covers(*p, r as int, c as int),
    {
        let mut i: usize = 0;
        while i < p.shape.height as usize
            invariant
                i <= p.shape.height as usize,
                forall|a: int, b: int|
                    #[trigger] p.shape.occupied(a, b) && a < i as int ==> !(p.y + a == r as int
                        && p.x + b == c as int),
            decreases p.shape.height as usize - i,
        {
            let mut j: usize = 0;
            while j < p.shape.width as usize
                invariant
                    j <= p.shape.width as usize,
                    forall|a: int, b: int|
                        #[trigger] p.shape.occupied(a, b) && a < i as int ==> !(p.y + a == r as int
                            && p.x + b == c as int),
                    forall|b: int|
                        #[trigger] p.shape.occupied(i as int, b) && b < j as int ==> !(p.y
                            + i as int == r as int && p.x + b == c as int),
                decreases p.shape.width as usize - j,
            {
                if p.shape.cells[i][j] == 1 {
                    proof {
                        assert(p.shape.occupied(i as int, j as int));
                    }
                    if p.y as usize + i == r && p.x as usize + j == c {
                        return true;
                    }
                }
                j += 1;
            }
            i += 1;
        }
        false
    }

    /// Lock the current piece: paint its occupied cells into the board,
    /// clear full rows, award the cleared count's score, and release the
    /// hold latch.  The pieces themselves are untouched.
    #[verifier::loop_isolation(false)]
    pub fn merge_current_piece(&mut self)
        requires
            old(self).wf(),
            old(self).score <= u32::MAX - 800,
        ensures
            final(self).wf(),
            lock_board_rel(*old(self), *final(self)),
            final(self).current_piece == old(self).current_piece,
            final(self).next_piece == old(self).next_piece,
            final(self).held_piece == old(self).held_piece,
            final(self).game_over == old(self).game_over,
    {
        let ghost g0 = self.board.grid_view();
        let ghost p = self.current_piece;
        let height = self.board.height as usize;
        let width = self.board.width as usize;
        let mut new_grid: Vec<Vec<Color>> = Vec::new();
        let mut r: usize = 0;
        while r < height
            invariant
                r <= height,
                self == old(self),
                new_grid@.len() == r as int,
                forall|a: int| 0 <= a < r as int ==> (#[trigger] new_grid@[a])@.len() == width as int,
                forall|a: int, c: int|
                    0 <= a < r as int && 0 <= c < width as int
                        ==> #[trigger] new_grid@[a]@[c] == (if covers(p, a, c) {
                        p.shape.color
                    } else {
                        g0[a][c]
                    }),
            decreases height - r,
        {
            let mut row: Vec<Color> = Vec::new();
            let mut c: usize = 0;
            while c < width
                invariant
                    c <= width,
                    r < height,
                    self == old(self),
                    row@.len() == c as int,
                    forall|b: int|
                        0 <= b < c as int ==> #[trigger] row@[b] == (if covers(p, r as int, b) {
                            p.shape.color
                        } else {
                            g0[r as int][b]
                        }),
                decreases width - c,
            {
                if Self::is_covered(&self.current_piece, r, c) {
                    row.push(self.current_piece.shape.color);
                } else {
                    row.push(self.board.grid[r][c]);
                }
                c += 1;
            }
            new_grid.push(row);
            r += 1;
        }
        self.board.grid = new_grid;
        proof {
            assert(self.board.grid_view() =~~= merged_grid(g0, p));
        }
        let lines_cleared = self.board.clear_full_lines();
        let points: u32 = match lines_cleared {
            1 => 100,
            2 => 300,
            3 => 500,
            4 => 800,
            _ => 0,
        };
        self.score = self.score + points;
        self.hold_used = false;
    }

    /// Promote the next piece to current if it can stay on the board —
    /// otherwise set `game_over` and leave the current piece alone — and
    /// draw a fresh next piece from the catalog.
    pub fn spawn_new_piece(&mut self)
        requires
            old(self).wf(),
        ensures
            final(self).wf(),
            final(self).board == old(self).board,
            final(self).score == old(self).score,
            final(self).hold_used == old(self).hold_used,
            final(self).held_piece == old(self).held_piece,
            is_spawn_piece(final(self).next_piece, old(self).board.width as int),
            can_stay_spec(
                old(self).next_piece,
                old(self).board.grid_view(),
                old(self).board.width as int,
                old(self).board.height as int,
            ) ==> final(self).current_piece == old(self).next_piece && final(self).game_over == old(
                self,
            ).game_over,
            !can_stay_spec(
                old(self).next_piece,
                old(self).board.grid_view(),
                old(self).board.width as int,
                old(self).board.height as int,
            ) ==> final(self).game_over == true && final(self).current_piece == old(
                self,
            ).current_piece,
    {
        let mut candidate = Self::fresh_piece(self.board.width);
        core::mem::swap(&mut self.next_piece, &mut candidate);
        if candidate.can_stay(&self.board) {
            proof {
                lemma_can_stay_in_bounds(
                    candidate,
                    self.board.grid_view(),
                    self.board.width as int,
                    self.board.height as int,
                );
            }
            self.current_piece = candidate;
        } else {
            self.game_over = true;
        }
    }

    /// One clock tick: move the current piece down one cell if it can
    /// move; otherwise lock it and spawn.  After game over, a no-op.
    pub fn tick(&mut self)
        requires
            old(self).wf(),
            old(self).score <= u32::MAX - 800,
        ensures
            final(self).wf(),
            old(self).game_over ==> *final(self) == *old(self),
            (!old(self).game_over && can_move_spec(
                old(self).current_piece,
                Direction::Down,
                old(self).board.grid_view(),
                old(self).board.width as int,
                old(self).board.height as int,
            )) ==> *final(self) == (GameState {
                current_piece: Piece {
                    y: (old(self).current_piece.y + 1) as u8,
                    ..old(self).current_piece
                },
                ..*old(self)
            }),
            (!old(self).game_over && !can_move_spec(
                old(self).current_piece,
                Direction::Down,
                old(self).board.grid_view(),
                old(self).board.width as int,
                old(self).board.height as int,
            )) ==> lock_spawn(*old(self), *final(self)),
    {
        if self.game_over {
            return ;
        }
        if self.current_piece.can_move(Direction::Down, &self.board) {
            self.current_piece.move_piece(Direction::Down, &self.board);
        } else {
            self.merge_current_piece();
            self.spawn_new_piece();
        }
    }

    /// Set the current piece aside, at most once per lock cycle.  With a
    /// piece already held, exchange it with the current piece and recenter
    /// the newly current piece at the top; with none held, store a copy of
    /// the current piece and spawn as a tick's lock step does.  After game
    /// over, or if the hold was already used this cycle, a no-op.
    pub fn hold_piece(&mut self)
        requires
            old(self).wf(),
        ensures
            final(self).wf(),
            (old(self).game_over || old(self).hold_used) ==> *final(self) == *old(self),
            (!old(self).game_over && !old(self).hold_used && old(self).held_piece is Some) ==> {
                &&& final(self).board == old(self).board
                &&& final(self).score == old(self).score
                &&& final(self).next_piece == old(self).next_piece
                &&& final(self).game_over == old(self).game_over
                &&& final(self).hold_used == true
                &&& final(self).held_piece == Option::Some(old(self).current_piece)
                &&& final(self).current_piece.shape == old(self).held_piece->Some_0.shape
                &&& final(self).current_piece.y == 0
                &&& final(self).current_piece.x as int == old(self).board.width as int / 2 - old(
                    self,
                ).held_piece->Some_0.shape.width as int / 2
            },
            (!old(self).game_over && !old(self).hold_used && old(self).held_piece is None) ==> {
                &&& final(self).board == old(self).board
                &&& final(self).score == old(self).score
                &&& final(self).hold_used == true
                &&& final(self).held_piece is Some
                &&& piece_eq(final(self).held_piece->Some_0, old(self).current_piece)
                &&& is_spawn_piece(final(self).next_piece, old(self).board.width as int)
                &&& (can_stay_spec(
                    old(self).next_piece,
                    old(self).board.grid_view(),
                    old(self).board.width as int,
                    old(self).board.height as int,
                ) ==> final(self).current_piece == old(self).next_piece && final(self).game_over
                    == old(self).game_over)
                &&& (!can_stay_spec(
                    old(self).next_piece,
                    old(self).board.grid_view(),
                    old(self).board.width as int,
                    old(self).board.height as int,
                ) ==> final(self).game_over == true && final(self).current_piece == old(
                    self,
                ).current_piece)
            },
    {
        if self.game_over || self.hold_used {
            return ;
        }
        let mut taken: Option<Piece> = Option::None;
        core::mem::swap(&mut self.held_piece, &mut taken);
        match taken {
            Option::Some(mut held) => {
                core::mem::swap(&mut self.current_piece, &mut held);
                self.current_piece.x = self.board.width / 2 - self.current_piece.shape.width / 2;
                self.current_piece.y = 0;
                self.held_piece = Option::Some(held);
                proof {
                    lemma_centered_in_bounds(
                        self.current_piece,
                        self.board.width as int,
                        self.board.height as int,
                    );
                }
            },
            Option::None => {
                let copy = self.current_piece.duplicate();
                proof {
                    lemma_shape_eq_wf(self.current_piece.shape, copy.shape);
                }
                self.held_piece = Option::Some(copy);
                self.spawn_new_piece();
            },
        }
        self.hold_used = true;
    }

    /// Drop the current piece straight down as far as it can legally move,
    /// then lock it and spawn, as a tick's lock step does.  After game
    /// over, a no-op.
    #[verifier::loop_isolation(false)]
    pub fn hard_drop(&mut self)
        requires
            old(self).wf(),
            old(self).score <= u32::MAX - 800,
        ensures
            final(self).wf(),
            old(self).game_over ==> *final(self) == *old(self),
            !old(self).game_over ==> exists|k: int|
                #[trigger] drops_to(
                    old(self).current_piece,
                    k,
                    old(self).board.grid_view(),
                    old(self).board.width as int,
                    old(self).board.height as int,
                ) && lock_spawn(with_current_down(*old(self), k), *final(self)),
    {
        if self.game_over {
            return ;
        }
        let ghost p0 = self.current_piece;
        let ghost g = self.board.grid_view();
        let ghost w = self.board.width as int;
        let ghost h = self.board.height as int;
        proof {
            assert(p0.shape.row_has_cell(0));
            let j0 = choose|j: int| p0.shape.occupied(0, j);
            assert(p0.shape.occupied(0, j0));
        }
        while self.current_piece.can_move(Direction::Down, &self.board)
            invariant
                self.board == old(self).board,
                self.score == old(self).score,
                self.next_piece == old(self).next_piece,
                self.held_piece == old(self).held_piece,
                self.hold_used == old(self).hold_used,
                self.game_over == old(self).game_over,
                self.current_piece.shape == p0.shape,
                self.current_piece.x == p0.x,
                p0.y <= self.current_piece.y,
                self.current_piece.y <= self.board.height,
                piece_in_bounds(self.current_piece, w, h),
                self.current_piece == piece_down(p0, self.current_piece.y - p0.y),
                forall|j: int|
                    0 <= j < self.current_piece.y - p0.y ==> can_move_spec(
                        #[trigger] piece_down(p0, j),
                        Direction::Down,
                        g,
                        w,
                        h,
                    ),
            decreases self.board.height - self.current_piece.y,
        {
            let ghost pre_p = self.current_piece;
            proof {
                assert(pre_p.shape.row_has_cell(0));
                let j0 = choose|j: int| pre_p.shape.occupied(0, j);
                assert(pre_p.shape.occupied(0, j0));
            }
            self.current_piece.move_piece(Direction::Down, &self.board);
            proof {
                lemma_moved_in_bounds(pre_p, self.current_piece, Direction::Down, g, w, h);
            }
        }
        let ghost k = self.current_piece.y - p0.y;
        proof {
            assert(drops_to(p0, k, g, w, h));
            assert(*self == with_current_down(*old(self), k));
        }
        self.merge_current_piece();
        self.spawn_new_piece();
    }

    /// Move the current piece one cell left if that is legal; a silent
    /// no-op otherwise, and after game over.
    pub fn move_left(&mut self)
        requires
            old(self).wf(),
        ensures
            final(self).wf(),
            old(self).game_over ==> *final(self) == *old(self),
            !old(self).game_over ==> moved_rel(*old(self), *final(self), Direction::Left),
    {
        self.step(Direction::Left)
    }

    /// Move the current piece one cell right if that is legal; a silent
    /// no-op otherwise, and after game over.
    pub fn move_right(&mut self)
        requires
            old(self).wf(),
        ensures
            final(self).wf(),
            old(self).game_over ==> *final(self) == *old(self),
            !old(self).game_over ==> moved_rel(*old(self), *final(self), Direction::Right),
    {
        self.step(Direction::Right)
    }

    /// Move the current piece one cell down if that is legal; a silent
    /// no-op otherwise, and after game over.  Unlike a tick, never locks.
    pub fn move_down(&mut self)
        requires
            old(self).wf(),
        ensures
            final(self).wf(),
            old(self).game_over ==> *final(self) == *old(self),
            !old(self).game_over ==> moved_rel(*old(self), *final(self), Direction::Down),
    {
        self.step(Direction::Down)
    }

    /// Apply one movement command to the current piece.
    fn step(&mut self, d: Direction)
        requires
            old(self).wf(),
        ensures
            final(self).wf(),
            old(self).game_over ==> *final(self) == *old(self),
            !old(self).game_over ==> moved_rel(*old(self), *final(self), d),
    {
        if !self.game_over {
            self.current_piece.move_piece(d, &self.board);
            proof {
                if can_move_spec(
                    old(self).current_piece,
                    d,
                    self.board.grid_view(),
                    self.board.width as int,
                    self.board.height as int,
                ) {
                    lemma_moved_in_bounds(
                        old(self).current_piece,
                        self.current_piece,
                        d,
                        self.board.grid_view(),
                        self.board.width as int,
                        self.board.height as int,
                    );
                }
            }
        }
    }

    /// Rotate the current piece clockwise with the nudge-then-validate
    /// policy of [`Piece::rotate_piece`]; a no-op after game over.
    pub fn rotate(&mut self)
        requires
            old(self).wf(),
        ensures
            final(self).wf(),
            old(self).game_over ==> *final(self) == *old(self),
            !old(self).game_over ==> {
                let nx = nudged_x(
                    old(self).current_piece.x as int,
                    old(self).current_piece.shape.height as int,
                    old(self).board.width as int,
                );
                let fits = rotated_fits(
                    old(self).current_piece.shape,
                    nx,
                    old(self).current_piece.y as int,
                    old(self).board.grid_view(),
                    old(self).board.width as int,
                    old(self).board.height as int,
                );
                &&& only_current_changed(*old(self), *final(self))
                &&& final(self).current_piece.y == old(self).current_piece.y
                &&& final(self).current_piece.x as int == nx
                &&& (fits ==> rotation_of(
                    old(self).current_piece.shape,
                    final(self).current_piece.shape,
                ))
                &&& (!fits ==> final(self).current_piece.shape == old(self).current_piece.shape)
            },
    {
        if !self.game_over {
            let ghost pre = *self;
            self.current_piece.rotate_piece(&self.board);
            proof {
                let w = self.board.width as int;
                let h = self.board.height as int;
                let g = self.board.grid_view();
                let nx = nudged_x(
                    pre.current_piece.x as int,
                    pre.current_piece.shape.height as int,
                    w,
                );
                if rotated_fits(pre.current_piece.shape, nx, pre.current_piece.y as int, g, w, h) {
                    lemma_rotated_can_stay(pre.current_piece.shape, self.current_piece, g, w, h);
                } else {
                    assert(nx <= pre.current_piece.x as int);
                    assert forall|i: int, j: int|
                        #[trigger] self.current_piece.shape.occupied(i, j) implies self
                        .current_piece.x + j < w && self.current_piece.y + i < h by {
                        assert(pre.current_piece.shape.occupied(i, j));
                        assert(pre.current_piece.x + j < w);
                    }
                }
            }
        }
    }
}

} // verus!
