//! The falling piece: a shape plus a board position, with movement and
//! rotation legality checks and the rotate-then-nudge-then-validate policy.

use vstd::prelude::*;

use crate::board::Board;
use crate::shape::{get_random_shape, is_catalog_shape, rotation_of, Color, Shape};

verus! {

/// A shape together with the board-space coordinates of its bounding
/// box's top-left corner.
#[derive(Clone)]
pub struct Piece {
    pub shape: Shape,
    pub x: u8,
    pub y: u8,
}

/// A movement command: one cell left, right, or down.
#[derive(Clone, Copy, PartialEq, Eq, Structural)]
pub enum Direction {
    Left,
    Right,
    Down,
}

/// The horizontal unit delta of a direction.
pub open spec fn delta_x(d: Direction) -> int {
    match d {
        Direction::Left => -1,
        Direction::Right => 1,
        Direction::Down => 0,
    }
}

/// The vertical unit delta of a direction.
pub open spec fn delta_y(d: Direction) -> int {
    match d {
        Direction::Left => 0,
        Direction::Right => 0,
        Direction::Down => 1,
    }
}

/// Two shapes have the same dimensions, color, and cell contents.
pub open spec fn shape_eq(a: Shape, b: Shape) -> bool {
    &&& a.cells_view() == b.cells_view()
    &&& a.width == b.width
    &&& a.height == b.height
    &&& a.color == b.color
}

/// Two pieces have equal shapes and equal positions.
pub open spec fn piece_eq(a: Piece, b: Piece) -> bool {
    &&& shape_eq(a.shape, b.shape)
    &&& a.x == b.x
    &&& a.y == b.y
}

/// After moving one step in direction `d`, the occupied cell `(i, j)` of
/// piece `p` lands inside the `w` by `h` grid `g`, on an empty cell.
pub open spec fn cell_move_ok(
    p: Piece,
    d: Direction,
    g: Seq<Seq<Color>>,
    w: int,
    h: int,
    i: int,
    j: int,
) -> bool {
    let nx = p.x + j + delta_x(d);
    let ny = p.y + i + delta_y(d);
    &&& 0 <= nx < w
    &&& 0 <= ny < h
    &&& g[ny][nx] == Color::Empty
}

/// The piece may move one step in direction `d`: every occupied cell of
/// its shape lands in bounds on an empty grid cell.
pub open spec fn can_move_spec(p: Piece, d: Direction, g: Seq<Seq<Color>>, w: int, h: int) -> bool {
    forall|i: int, j: int| #[trigger] p.shape.occupied(i, j) ==> cell_move_ok(p, d, g, w, h, i, j)
}

/// The piece may stay where it is: every occupied cell of its shape is in
/// bounds and on an empty grid cell.
pub open spec fn can_stay_spec(p: Piece, g: Seq<Seq<Color>>, w: int, h: int) -> bool {
    forall|i: int, j: int| #[trigger] p.shape.occupied(i, j)
        ==> p.x + j < w && p.y + i < h && g[p.y + i][p.x + j] == Color::Empty
}

/// Every occupied cell of the piece lies inside the `w` by `h` grid.
pub open spec fn piece_in_bounds(p: Piece, w: int, h: int) -> bool {
    forall|i: int, j: int| #[trigger] p.shape.occupied(i, j) ==> p.x + j < w && p.y + i < h
}

/// Where a nudged rotation ends up horizontally: `x` if a shape of width
/// `rw` fits there on a board of width `bw`, else pushed left to the wall
/// (stopping at 0).
pub open spec fn nudged_x(x: int, rw: int, bw: int) -> int {
    if x + rw <= bw {
        x
    } else if bw >= rw {
        bw - rw
    } else {
        0
    }
}

/// The clockwise rotation of shape `s`, placed with its top-left corner at
/// `(px, py)`, fits the grid: each occupied cell `(i, j)` of `s` shows up
/// at board column `px + (s.height - 1 - i)` and row `py + j`, which must
/// be in bounds and empty.
pub open spec fn rotated_fits(
    s: Shape,
    px: int,
    py: int,
    g: Seq<Seq<Color>>,
    w: int,
    h: int,
) -> bool {
    forall|i: int, j: int| #[trigger] s.occupied(i, j) ==> {
        let nx = px + (s.height - 1 - i);
        let ny = py + j;
        &&& 0 <= nx < w
        &&& 0 <= ny < h
        &&& g[ny][nx] == Color::Empty
    }
}

/// A piece whose shape is the clockwise rotation of `s` and whose nudged
/// placement fits may stay there; in particular it lies within bounds.
pub proof fn lemma_rotated_can_stay(s: Shape, p: Piece, g: Seq<Seq<Color>>, w: int, h: int)
    requires
        rotation_of(s, p.shape),
        rotated_fits(s, p.x as int, p.y as int, g, w, h),
    ensures
        can_stay_spec(p, g, w, h),
        piece_in_bounds(p, w, h),
{
    assert forall|a: int, b: int| #[trigger] p.shape.occupied(a, b) implies (p.x + b < w && p.y + a
        < h && g[p.y + a][p.x + b] == Color::Empty) by {
        assert(s.occupied(s.height - 1 - b, a));
    }
}

/// Well-formedness carries over to a shape with equal contents.
pub proof fn lemma_shape_eq_wf(a: Shape, b: Shape)
    requires
        shape_eq(a, b),
        a.wf(),
    ensures
        b.wf(),
{
    assert(b.cells@.len() == b.cells_view().len());
    assert(a.cells@.len() == a.cells_view().len());
    assert forall|i: int| 0 <= i < b.height as int implies #[trigger] b.cells@[i]@
        == a.cells@[i]@ by {
        assert(b.cells@[i]@ == b.cells_view()[i]);
        assert(a.cells@[i]@ == a.cells_view()[i]);
    }
    assert forall|i: int| 0 <= i < b.height as int implies (#[trigger] b.cells@[i])@.len()
        == b.width as int by {
        assert(b.cells@[i]@ == a.cells@[i]@);
    }
    assert forall|i: int, j: int|
        0 <= i < b.height as int && 0 <= j < b.width as int implies (#[trigger] b.cells@[i]@[j])
        == 0 || b.cells@[i]@[j] == 1 by {
        assert(b.cells@[i]@ == a.cells@[i]@);
    }
    assert forall|i: int| 0 <= i < b.height as int implies #[trigger] b.row_has_cell(i) by {
        assert(a.row_has_cell(i));
        let j = choose|j: int| a.occupied(i, j);
        assert(a.occupied(i, j));
        assert(b.cells@[i]@ == a.cells@[i]@);
        assert(b.occupied(i, j));
    }
    assert forall|j: int| 0 <= j < b.width as int implies #[trigger] b.col_has_cell(j) by {
        assert(a.col_has_cell(j));
        let i = choose|i: int| a.occupied(i, j);
        assert(a.occupied(i, j));
        assert(b.cells@[i]@ == a.cells@[i]@);
        assert(b.occupied(i, j));
    }
}

/// A piece that just made a legal move lies within bounds.
pub proof fn lemma_moved_in_bounds(p: Piece, q: Piece, d: Direction, g: Seq<Seq<Color>>, w: int, h: int)
    requires
        can_move_spec(p, d, g, w, h),
        q.shape == p.shape,
        q.x as int == p.x + delta_x(d),
        q.y as int == p.y + delta_y(d),
    ensures
        piece_in_bounds(q, w, h),
{
    assert forall|i: int, j: int| #[trigger] q.shape.occupied(i, j) implies q.x + j < w && q.y + i
        < h by {
        assert(p.shape.occupied(i, j));
        assert(cell_move_ok(p, d, g, w, h, i, j));
    }
}

/// A piece that may stay lies within bounds.
pub proof fn lemma_can_stay_in_bounds(p: Piece, g: Seq<Seq<Color>>, w: int, h: int)
    requires
        can_stay_spec(p, g, w, h),
    ensures
        piece_in_bounds(p, w, h),
{
}

impl Piece {
    /// A random catalog piece at the spawn position of a ten-wide board.
    pub fn random_piece() -> (p: Piece)
        ensures
            p.shape.wf(),
            is_catalog_shape(p.shape),
            p.y == 0,
            p.x == 5 - p.shape.width / 2,
    {
        let current_shape = get_random_shape();
        Piece { x: 5 - current_shape.width / 2, y: 0, shape: current_shape }
    }

    /// An element-for-element copy of the piece.
    pub fn duplicate(&self) -> (r: Piece)
        requires
            self.shape.rect(),
        ensures
            piece_eq(*self, r),
    {
        Piece { shape: self.shape.duplicate(), x: self.x, y: self.y }
    }

    /// Whether the piece may move one step in the given direction.
    #[verifier::loop_isolation(false)]
    pub fn can_move(&self, direction: Direction, board: &Board) -> (r: bool)
        requires
            self.shape.rect(),
            board.wf(),
        ensures
            r == can_move_spec(
                *self,
                direction,
                board.grid_view(),
                board.width as int,
                board.height as int,
            ),
    {
        let (dx, dy): (i32, i32) = match direction {
            Direction::Left => (-1, 0),
            Direction::Right => (1, 0),
            Direction::Down => (0, 1),
        };
        let ghost g = board.grid_view();
        let ghost w = board.width as int;
        let ghost h = board.height as int;
        let mut y: usize = 0;
        while y < self.shape.height as usize
            invariant
                y <= self.shape.height as usize,
                forall|i: int, j: int|
                    #[trigger] self.shape.occupied(i, j) && i < y as int ==> cell_move_ok(
                        *self,
                        direction,
                        g,
                        w,
                        h,
                        i,
                        j,
                    ),
            decreases self.shape.height as usize - y,
        {
            let mut x: usize = 0;
            while x < self.shape.width as usize
                invariant
                    x <= self.shape.width as usize,
                    forall|i: int, j: int|
                        #[trigger] self.shape.occupied(i, j) && i < y as int ==> cell_move_ok(
                            *self,
                            direction,
                            g,
                            w,
                            h,
                            i,
                            j,
                        ),
                    forall|j: int|
                        #[trigger] self.shape.occupied(y as int, j) && j < x as int
                            ==> cell_move_ok(*self, direction, g, w, h, y as int, j),
                decreases self.shape.width as usize - x,
            {
                if self.shape.cells[y][x] == 1 {
                    // Only check occupied cells in the shape
                    let new_x = self.x as i32 + x as i32 + dx;
                    let new_y = self.y as i32 + y as i32 + dy;
                    proof {
                        assert(self.shape.occupied(y as int, x as int));
                    }
                    // Check horizontal boundaries
                    if new_x < 0 || new_x >= board.width as i32 {
                        return false;
                    }
                    // Check vertical boundaries
                    if new_y < 0 || new_y >= board.height as i32 {
                        return false;
                    }
                    // Check if the space is occupied on the board
                    if board.grid[new_y as usize][new_x as usize] != Color::Empty {
                        return false;
                    }
                }
                x += 1;
            }
            y += 1;
        }
        true
    }

    /// Move one step in the given direction if that is legal; otherwise
    /// leave the position untouched (a silent no-op).
    pub fn move_piece(&mut self, direction: Direction, board: &Board)
        requires
            old(self).shape.wf(),
            board.wf(),
        ensures
            final(self).shape == old(self).shape,
            can_move_spec(
                *old(self),
                direction,
                board.grid_view(),
                board.width as int,
                board.height as int,
            ) ==> final(self).x as int == old(self).x as int + delta_x(direction)
                && final(self).y as int == old(self).y as int + delta_y(direction),
            !can_move_spec(
                *old(self),
                direction,
                board.grid_view(),
                board.width as int,
                board.height as int,
            ) ==> *final(self) == *old(self),
    {
        if self.can_move(direction, board) {
            proof {
                assert(self.shape.col_has_cell(0));
                let wi = choose|i: int| self.shape.occupied(i, 0);
                assert(self.shape.occupied(wi, 0));
                assert(cell_move_ok(
                    *self,
                    direction,
                    board.grid_view(),
                    board.width as int,
                    board.height as int,
                    wi,
                    0,
                ));
            }
            match direction {
                Direction::Left => {
                    self.x = self.x - 1;
                },
                Direction::Right => {
                    self.x = self.x + 1;
                },
                Direction::Down => {
                    self.y = self.y + 1;
                },
            }
        }
    }

    /// Whether the piece may stay at its current position.
    #[verifier::loop_isolation(false)]
    pub fn can_stay(&self, board: &Board) -> (r: bool)
        requires
            self.shape.rect(),
            board.wf(),
        ensures
            r == can_stay_spec(*self, board.grid_view(), board.width as int, board.height as int),
    {
        let ghost g = board.grid_view();
        let ghost w = board.width as int;
        let ghost h = board.height as int;
        let mut y: usize = 0;
        while y < self.shape.height as usize
            invariant
                y <= self.shape.height as usize,
                forall|i: int, j: int|
                    #[trigger] self.shape.occupied(i, j) && i < y as int ==> (self.x + j < w
                        && self.y + i < h && g[self.y + i][self.x + j] == Color::Empty),
            decreases self.shape.height as usize - y,
        {
            let mut x: usize = 0;
            while x < self.shape.width as usize
                invariant
                    x <= self.shape.width as usize,
                    forall|i: int, j: int|
                        #[trigger] self.shape.occupied(i, j) && i < y as int ==> (self.x + j < w
                            && self.y + i < h && g[self.y + i][self.x + j] == Color::Empty),
                    forall|j: int|
                        #[trigger] self.shape.occupied(y as int, j) && j < x as int ==> (self.x + j
                            < w && self.y + (y as int) < h && g[self.y + (y as int)][self.x + j]
                            == Color::Empty),
                decreases self.shape.width as usize - x,
            {
                if self.shape.cells[y][x] == 1 {
                    let board_x = self.x as i32 + x as i32;
                    let board_y = self.y as i32 + y as i32;
                    proof {
                        assert(self.shape.occupied(y as int, x as int));
                    }
                    // Check boundaries
                    if board_x >= board.width as i32 || board_y >= board.height as i32 {
                        return false;
                    }
                    // Check overlaps
                    if board.grid[board_y as usize][board_x as usize] != Color::Empty {
                        return false;
                    }
                }
                x += 1;
            }
            y += 1;
        }
        true
    }

    /// Rotate the piece clockwise, nudging it back inside the board's
    /// horizontal bounds if the rotation sticks out; if the nudged rotation
    /// still cannot stay, keep the nudged position but revert the shape.
    #[verifier::loop_isolation(false)]
    pub fn rotate_piece(&mut self, board: &Board)
        requires
            old(self).shape.wf(),
            board.wf(),
        ensures
            final(self).y == old(self).y,
            final(self).x as int == nudged_x(
                old(self).x as int,
                old(self).shape.height as int,
                board.width as int,
            ),
            rotated_fits(
                old(self).shape,
                nudged_x(old(self).x as int, old(self).shape.height as int, board.width as int),
                old(self).y as int,
                board.grid_view(),
                board.width as int,
                board.height as int,
            ) ==> rotation_of(old(self).shape, final(self).shape) && final(self).shape.wf(),
            !rotated_fits(
                old(self).shape,
                nudged_x(old(self).x as int, old(self).shape.height as int, board.width as int),
                old(self).y as int,
                board.grid_view(),
                board.width as int,
                board.height as int,
            ) ==> final(self).shape == old(self).shape,
    {
        let ghost s = self.shape;
        let ghost x0 = self.x as int;
        let ghost g = board.grid_view();
        let ghost w = board.width as int;
        let ghost h = board.height as int;
        let rotated = self.shape.rotate();
        let rw = rotated.width as usize;
        let mut nx = self.x;
        // Shift to the left while the rotation sticks out past the right
        // boundary, stopping at the left wall
        while nx as usize + rw > board.width as usize && nx > 0
            invariant
                nudged_x(nx as int, rw as int, board.width as int) == nudged_x(
                    x0,
                    rw as int,
                    board.width as int,
                ),
                nx as int <= x0,
            decreases nx,
        {
            nx -= 1;
        }
        proof {
            assert(nx as int == nudged_x(x0, s.height as int, w));
        }
        let cand = Piece { shape: rotated, x: nx, y: self.y };
        let fits = cand.can_stay(board);
        proof {
            let px = nx as int;
            let py = self.y as int;
            if fits {
                assert forall|i: int, j: int| #[trigger] s.occupied(i, j) implies {
                    let cx = px + (s.height - 1 - i);
                    let cy = py + j;
                    &&& 0 <= cx < w
                    &&& 0 <= cy < h
                    &&& g[cy][cx] == Color::Empty
                } by {
                    assert(cand.shape.occupied(j, s.height - 1 - i));
                }
                assert(rotated_fits(s, px, py, g, w, h));
            } else {
                assert(!can_stay_spec(cand, g, w, h));
                let (a, b): (int, int) = choose|a: int, b: int|
                    #[trigger] cand.shape.occupied(a, b) && !(cand.x + b < w && cand.y + a < h
                        && g[cand.y + a][cand.x + b] == Color::Empty);
                assert(s.occupied(s.height - 1 - b, a));
                assert(!rotated_fits(s, px, py, g, w, h)) by {
                    let i0 = s.height - 1 - b;
                    let j0 = a;
                    assert(s.occupied(i0, j0) && !({
                        let cx = px + (s.height - 1 - i0);
                        let cy = py + j0;
                        &&& 0 <= cx < w
                        &&& 0 <= cy < h
                        &&& g[cy][cx] == Color::Empty
                    }));
                }
            }
        }
        if fits {
            self.shape = cand.shape;
        }
        self.x = nx;
    }
}

} // verus!
