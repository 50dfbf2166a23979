//! Shapes: immutable rectangular occupancy bitmaps with a color, and the
//! fixed catalog of the seven tetrominoes.

use vstd::prelude::*;

verus! {

/// A cell value: one of the seven piece colors, or `Empty` for an
/// unoccupied grid cell.
#[derive(Clone, Copy, Debug, PartialEq, Eq, Structural)]
pub enum Color {
    Cyan,
    Yellow,
    Purple,
    Green,
    Red,
    Blue,
    Orange,
    /// The sentinel for an unoccupied cell in the grid.
    Empty,
}

/// A rectangular bitmap of occupied (`1`) and empty (`0`) cells, together
/// with its dimensions and the color the piece is drawn in.
#[derive(Clone)]
pub struct Shape {
    /// Row-major occupancy flags: `cells[y][x]` is `1` iff the cell is occupied.
    pub cells: Vec<Vec<u8>>,
    pub width: u8,
    pub height: u8,
    pub color: Color,
}

impl Shape {
    /// The mathematical view of the bitmap: a sequence of rows.
    pub open spec fn cells_view(self) -> Seq<Seq<u8>> {
        Seq::new(self.cells@.len(), |i: int| self.cells@[i]@)
    }

    /// The bitmap is rectangular and matches the declared dimensions.
    pub open spec fn rect(self) -> bool {
        &&& self.cells@.len() == self.height as int
        &&& forall|i: int|
            0 <= i < self.height as int ==> (#[trigger] self.cells@[i])@.len()
                == self.width as int
    }

    /// The cell at row `i`, column `j` is occupied.
    pub open spec fn occupied(self, i: int, j: int) -> bool {
        &&& 0 <= i < self.height as int
        &&& 0 <= j < self.width as int
        &&& self.cells@[i]@[j] == 1
    }

    /// Row `i` holds at least one occupied cell.
    pub open spec fn row_has_cell(self, i: int) -> bool {
        exists|j: int| self.occupied(i, j)
    }

    /// Column `j` holds at least one occupied cell.
    pub open spec fn col_has_cell(self, j: int) -> bool {
        exists|i: int| self.occupied(i, j)
    }

    /// Well-formedness: a rectangular bitmap of 0/1 flags, at most 4 cells
    /// on a side (a tetromino bounding box), a real piece color, and a
    /// tight bounding box: every row and every column holds an occupied
    /// cell.  All catalog shapes satisfy this, and rotation preserves it.
    pub open spec fn wf(self) -> bool {
        &&& self.rect()
        &&& 0 < self.width <= 4
        &&& 0 < self.height <= 4
        &&& self.color != Color::Empty
        &&& forall|i: int, j: int|
            0 <= i < self.height as int && 0 <= j < self.width as int
                ==> (#[trigger] self.cells@[i]@[j]) == 0 || self.cells@[i]@[j] == 1
        &&& forall|i: int| 0 <= i < self.height as int ==> #[trigger] self.row_has_cell(i)
        &&& forall|j: int| 0 <= j < self.width as int ==> #[trigger] self.col_has_cell(j)
    }

    /// Rotate the shape 90 degrees clockwise, returning a new shape whose
    /// width and height are swapped and whose cell at `(x, y)` is the old
    /// cell at `(height - 1 - y, x)`.
    #[verifier::loop_isolation(false)]
    pub fn rotate(&self) -> (r: Shape)
        requires
            self.wf(),
        ensures
            rotation_of(*self, r),
            r.wf(),
    {
        let w = self.width as usize;
        let h = self.height as usize;
        let mut new_cells: Vec<Vec<u8>> = Vec::new();
        let mut x: usize = 0;
        while x < w
            invariant
                x <= w,
                new_cells@.len() == x as int,
                forall|a: int| 0 <= a < x as int ==> (#[trigger] new_cells@[a])@.len() == h as int,
                forall|a: int, b: int|
                    0 <= a < x as int && 0 <= b < h as int
                        ==> #[trigger] new_cells@[a]@[b] == self.cells@[h - 1 - b]@[a],
            decreases w - x,
        {
            let mut row: Vec<u8> = Vec::new();
            let mut y: usize = 0;
            while y < h
                invariant
                    y <= h,
                    row@.len() == y as int,
                    forall|b: int|
                        0 <= b < y as int ==> #[trigger] row@[b] == self.cells@[h - 1 - b]@[x as int],
                decreases h - y,
            {
                row.push(self.cells[h - 1 - y][x]);
                y += 1;
            }
            new_cells.push(row);
            x += 1;
        }
        let r = Shape { cells: new_cells, width: self.height, height: self.width, color: self.color };
        proof {
            assert forall|i: int| 0 <= i < r.height as int implies #[trigger] r.row_has_cell(i) by {
                let oi = choose|a: int| self.occupied(a, i);
                assert(self.col_has_cell(i));
                assert(self.occupied(oi, i));
                assert(r.occupied(i, h - 1 - oi));
            }
            assert forall|j: int| 0 <= j < r.width as int implies #[trigger] r.col_has_cell(j) by {
                let hi = h - 1 - j;
                let oj = choose|b: int| self.occupied(hi, b);
                assert(self.row_has_cell(hi));
                assert(self.occupied(h - 1 - j, oj));
                assert(r.occupied(oj, j));
            }
        }
        r
    }

    /// An element-for-element copy of the shape.
    #[verifier::loop_isolation(false)]
    pub fn duplicate(&self) -> (r: Shape)
        requires
            self.rect(),
        ensures
            r.cells_view() == self.cells_view(),
            r.width == self.width,
            r.height == self.height,
            r.color == self.color,
    {
        let mut cells: Vec<Vec<u8>> = Vec::new();
        let mut y: usize = 0;
        while y < self.height as usize
            invariant
                y <= self.height as usize,
                cells@.len() == y as int,
                forall|i: int| 0 <= i < y as int ==> (#[trigger] cells@[i])@ == self.cells@[i]@,
            decreases self.height as usize - y,
        {
            let row = &self.cells[y];
            let mut copied: Vec<u8> = Vec::new();
            let mut x: usize = 0;
            while x < row.len()
                invariant
                    x <= row@.len(),
                    copied@ == row@.subrange(0, x as int),
                decreases row@.len() - x,
            {
                copied.push(row[x]);
                proof {
                    assert(copied@ =~= row@.subrange(0, x as int + 1));
                }
                x += 1;
            }
            proof {
                assert(copied@ =~= row@);
            }
            cells.push(copied);
            y += 1;
        }
        let r = Shape { cells, width: self.width, height: self.height, color: self.color };
        proof {
            assert(r.cells_view() =~~= self.cells_view());
        }
        r
    }

    pub fn iter_height(&self) -> (r: core::ops::Range<usize>)
        ensures
            r.start == 0,
            r.end == self.height as usize,
    {
        0..self.height as usize
    }

    pub fn iter_width(&self) -> (r: core::ops::Range<usize>)
        ensures
            r.start == 0,
            r.end == self.width as usize,
    {
        0..self.width as usize
    }
}

/// `b` is the 90-degree clockwise rotation of `a`.
pub open spec fn rotation_of(a: Shape, b: Shape) -> bool {
    &&& b.width == a.height
    &&& b.height == a.width
    &&& b.color == a.color
    &&& b.cells@.len() == a.width as int
    &&& forall|x: int|
        0 <= x < a.width as int ==> (#[trigger] b.cells@[x])@.len() == a.height as int
    &&& forall|x: int, y: int|
        0 <= x < a.width as int && 0 <= y < a.height as int
            ==> #[trigger] b.cells@[x]@[y] == a.cells@[a.height - 1 - y]@[x]
}

/// Four clockwise rotations bring a shape back to itself: the final shape
/// has the same dimensions, color, and cell contents as the original.
pub proof fn lemma_rotate_four(s0: Shape, s1: Shape, s2: Shape, s3: Shape, s4: Shape)
    requires
        s0.rect(),
        rotation_of(s0, s1),
        rotation_of(s1, s2),
        rotation_of(s2, s3),
        rotation_of(s3, s4),
    ensures
        s4.width == s0.width,
        s4.height == s0.height,
        s4.color == s0.color,
        s4.cells_view() == s0.cells_view(),
{
    let w = s0.width as int;
    let h = s0.height as int;
    assert forall|x: int, y: int| 0 <= x < h && 0 <= y < w implies s4.cells@[x]@[y]
        == s0.cells@[x]@[y] by {
        assert(s4.cells@[x]@[y] == s3.cells@[w - 1 - y]@[x]);
        assert(s3.cells@[w - 1 - y]@[x] == s2.cells@[h - 1 - x]@[w - 1 - y]);
        assert(s2.cells@[h - 1 - x]@[w - 1 - y] == s1.cells@[y]@[h - 1 - x]);
        assert(s1.cells@[y]@[h - 1 - x] == s0.cells@[x]@[y]);
    }
    assert(s4.cells_view() =~~= s0.cells_view());
}

/// The bitmap of the catalog entry `k` (O, I, T, S, Z, J, L in that order).
pub open spec fn catalog_cells(k: int) -> Seq<Seq<u8>> {
    if k == 0 {
        seq![seq![1u8, 1u8], seq![1u8, 1u8]]
    } else if k == 1 {
        seq![seq![1u8, 1u8, 1u8, 1u8]]
    } else if k == 2 {
        seq![seq![0u8, 1u8, 0u8], seq![1u8, 1u8, 1u8]]
    } else if k == 3 {
        seq![seq![0u8, 1u8, 1u8], seq![1u8, 1u8, 0u8]]
    } else if k == 4 {
        seq![seq![1u8, 1u8, 0u8], seq![0u8, 1u8, 1u8]]
    } else if k == 5 {
        seq![seq![1u8, 0u8, 0u8], seq![1u8, 1u8, 1u8]]
    } else {
        seq![seq![0u8, 0u8, 1u8], seq![1u8, 1u8, 1u8]]
    }
}

pub open spec fn catalog_width(k: int) -> u8 {
    if k == 0 {
        2
    } else if k == 1 {
        4
    } else {
        3
    }
}

pub open spec fn catalog_height(k: int) -> u8 {
    if k == 1 {
        1
    } else {
        2
    }
}

pub open spec fn catalog_color(k: int) -> Color {
    if k == 0 {
        Color::Yellow
    } else if k == 1 {
        Color::Cyan
    } else if k == 2 {
        Color::Purple
    } else if k == 3 {
        Color::Green
    } else if k == 4 {
        Color::Red
    } else if k == 5 {
        Color::Blue
    } else {
        Color::Orange
    }
}

/// `s` is exactly the catalog entry `k`.
pub open spec fn is_catalog_entry(k: int, s: Shape) -> bool {
    &&& s.cells_view() == catalog_cells(k)
    &&& s.width == catalog_width(k)
    &&& s.height == catalog_height(k)
    &&& s.color == catalog_color(k)
}

/// `s` is one of the seven tetrominoes.
pub open spec fn is_catalog_shape(s: Shape) -> bool {
    exists|k: int| 0 <= k < 7 && #[trigger] is_catalog_entry(k, s)
}

/// Every catalog entry is a well-formed shape.
pub proof fn lemma_catalog_wf(k: int, s: Shape)
    requires
        0 <= k < 7,
        is_catalog_entry(k, s),
    ensures
        s.wf(),
{
    let c = catalog_cells(k);
    if k == 1 {
        assert(c.len() == 1);
    } else {
        assert(c.len() == 2);
    }
    assert(s.cells_view().len() == c.len());
    assert(s.cells@.len() == s.height as int);
    assert forall|i: int| 0 <= i < s.height as int implies #[trigger] s.cells@[i]@ == c[i] by {
        assert(s.cells_view()[i] == c[i]);
    }
    assert forall|i: int| 0 <= i < s.height as int implies (#[trigger] s.cells@[i])@.len()
        == s.width as int by {
        assert(s.cells@[i]@ == c[i]);
    }
    assert forall|i: int, j: int|
        0 <= i < s.height as int && 0 <= j < s.width as int implies (#[trigger] s.cells@[i]@[j])
        == 0 || s.cells@[i]@[j] == 1 by {
        assert(s.cells@[i]@ == c[i]);
    }
    assert forall|i: int| 0 <= i < s.height as int implies #[trigger] s.row_has_cell(i) by {
        assert(s.cells@[i]@ == c[i]);
        if k == 0 || k == 1 {
            assert(s.occupied(i, 0));
        } else if k == 3 && i == 0 {
            assert(s.occupied(i, 1));
        } else if k == 4 && i == 1 {
            assert(s.occupied(i, 1));
        } else if k == 6 && i == 0 {
            assert(s.occupied(i, 2));
        } else {
            assert(s.occupied(i, 0) || s.occupied(i, 1));
        }
    }
    assert forall|j: int| 0 <= j < s.width as int implies #[trigger] s.col_has_cell(j) by {
        assert(s.cells@[0]@ == c[0]);
        if s.height as int > 1 {
            assert(s.cells@[1]@ == c[1]);
        }
        assert(s.occupied(0, j) || s.occupied(1, j));
    }
}

/// The fixed catalog of the seven tetromino shapes, in the order
/// O, I, T, S, Z, J, L.
pub fn get_tetris_shapes() -> (r: Vec<Shape>)
    ensures
        r@.len() == 7,
        forall|k: int| 0 <= k < 7 ==> #[trigger] is_catalog_entry(k, r@[k]),
        forall|k: int| 0 <= k < 7 ==> (#[trigger] r@[k]).wf(),
{
    let mut shapes: Vec<Shape> = Vec::new();
    // O shape
    shapes.push(Shape { cells: vec![vec![1, 1], vec![1, 1]], width: 2, height: 2, color: Color::Yellow });
    // I shape
    shapes.push(Shape { cells: vec![vec![1, 1, 1, 1]], width: 4, height: 1, color: Color::Cyan });
    // T shape
    shapes.push(Shape { cells: vec![vec![0, 1, 0], vec![1, 1, 1]], width: 3, height: 2, color: Color::Purple });
    // S shape
    shapes.push(Shape { cells: vec![vec![0, 1, 1], vec![1, 1, 0]], width: 3, height: 2, color: Color::Green });
    // Z shape
    shapes.push(Shape { cells: vec![vec![1, 1, 0], vec![0, 1, 1]], width: 3, height: 2, color: Color::Red });
    // J shape
    shapes.push(Shape { cells: vec![vec![1, 0, 0], vec![1, 1, 1]], width: 3, height: 2, color: Color::Blue });
    // L shape
    shapes.push(Shape { cells: vec![vec![0, 0, 1], vec![1, 1, 1]], width: 3, height: 2, color: Color::Orange });
    proof {
        assert forall|k: int| 0 <= k < 7 implies #[trigger] is_catalog_entry(k, shapes@[k]) by {
            assert(shapes@[k].cells_view() =~~= catalog_cells(k));
        }
        assert forall|k: int| 0 <= k < 7 implies (#[trigger] shapes@[k]).wf() by {
            lemma_catalog_wf(k, shapes@[k]);
        }
    }
    shapes
}

/// Relies on `rand::random_range`: a draw from the non-empty range
/// `0..n` is uniform over it and lies within it.
#[verifier::external_body]
fn random_index_below(n: usize) -> (r: usize)
    requires
        n > 0,
    ensures
        r < n,
{
    rand::random_range(0..n)
}

/// Pick one of the seven catalog shapes uniformly at random.
pub fn get_random_shape() -> (s: Shape)
    ensures
        s.wf(),
        is_catalog_shape(s),
{
    let mut shapes = get_tetris_shapes();
    let k = random_index_below(shapes.len());
    let s = shapes.remove(k);
    proof {
        assert(is_catalog_entry(k as int, s));
    }
    s
}

} // verus!
