//! The board: a fixed-size grid of colored cells, and line-clear logic.

use vstd::prelude::*;

use crate::shape::Color;

verus! {

/// A fixed-size grid of cells.  `grid` is row-major: `grid[y][x]` is the
/// cell in row `y`, column `x`.  Rows and columns never change size once
/// the board is constructed.
pub struct Board {
    pub width: u8,
    pub height: u8,
    /// Pixel size of a cell, used only by renderers.
    pub cell_size: u8,
    pub grid: Vec<Vec<Color>>,
}

/// A row is full iff every cell in it is occupied (non-`Empty`).
pub open spec fn row_full(row: Seq<Color>) -> bool {
    forall|j: int| 0 <= j < row.len() ==> row[j] != Color::Empty
}

/// A row of `w` `Empty` cells.
pub open spec fn empty_row(w: nat) -> Seq<Color> {
    Seq::new(w, |j: int| Color::Empty)
}

/// `n` empty rows of width `w`.
pub open spec fn empty_rows(n: nat, w: nat) -> Seq<Seq<Color>> {
    Seq::new(n, |i: int| empty_row(w))
}

/// The rows of `g` that are not full, in their original order.
pub open spec fn kept_rows(g: Seq<Seq<Color>>) -> Seq<Seq<Color>>
    decreases g.len(),
{
    if g.len() == 0 {
        Seq::empty()
    } else if row_full(g.last()) {
        kept_rows(g.drop_last())
    } else {
        kept_rows(g.drop_last()).push(g.last())
    }
}

/// How many rows of `g` are full.
pub open spec fn num_full(g: Seq<Seq<Color>>) -> nat
    decreases g.len(),
{
    if g.len() == 0 {
        0
    } else if row_full(g.last()) {
        num_full(g.drop_last()) + 1
    } else {
        num_full(g.drop_last())
    }
}

/// Splitting a grid into cleared and kept rows loses nothing:
/// the counts add up.
pub proof fn lemma_kept_plus_full(g: Seq<Seq<Color>>)
    ensures
        kept_rows(g).len() + num_full(g) == g.len(),
    decreases g.len(),
{
    if g.len() > 0 {
        lemma_kept_plus_full(g.drop_last());
    }
}

/// No kept row is full: a full row is always removed.
pub proof fn lemma_kept_rows_not_full(g: Seq<Seq<Color>>)
    ensures
        forall|i: int| 0 <= i < kept_rows(g).len() ==> !row_full(#[trigger] kept_rows(g)[i]),
    decreases g.len(),
{
    if g.len() > 0 {
        lemma_kept_rows_not_full(g.drop_last());
        assert forall|i: int| 0 <= i < kept_rows(g).len() implies !row_full(
            #[trigger] kept_rows(g)[i],
        ) by {
            if !row_full(g.last()) && i == kept_rows(g).len() - 1 {
                assert(kept_rows(g)[i] == g.last());
            } else {
                assert(kept_rows(g)[i] == kept_rows(g.drop_last())[i]);
            }
        }
    }
}

/// Every non-full row is preserved, in relative order: row `r` of `g`
/// reappears among the kept rows at the position given by the number of
/// non-full rows above it — a position that grows with `r`.
pub proof fn lemma_kept_rows_indexing(g: Seq<Seq<Color>>, r: int)
    requires
        0 <= r < g.len(),
        !row_full(g[r]),
    ensures
        kept_rows(g.subrange(0, r)).len() < kept_rows(g).len(),
        kept_rows(g)[kept_rows(g.subrange(0, r)).len() as int] == g[r],
    decreases g.len(),
{
    lemma_kept_plus_full(g);
    if r == g.len() - 1 {
        assert(g.subrange(0, r) =~= g.drop_last());
        assert(g.last() == g[r]);
    } else {
        lemma_kept_rows_indexing(g.drop_last(), r);
        assert(g.drop_last().subrange(0, r) =~= g.subrange(0, r));
        assert(g.drop_last()[r] == g[r]);
        let i = kept_rows(g.subrange(0, r)).len() as int;
        assert(kept_rows(g.drop_last())[i] == g[r]);
        if !row_full(g.last()) {
            assert(kept_rows(g)[i] == kept_rows(g.drop_last())[i]);
        }
    }
}

/// Kept rows are rows of `g`: each one equals some non-full row of `g`,
/// and their original order is preserved.
pub proof fn lemma_kept_rows_from(g: Seq<Seq<Color>>)
    ensures
        forall|i: int|
            0 <= i < kept_rows(g).len() ==> exists|r: int|
                0 <= r < g.len() && #[trigger] kept_rows(g)[i] == g[r],
    decreases g.len(),
{
    if g.len() > 0 {
        lemma_kept_rows_from(g.drop_last());
        assert forall|i: int| 0 <= i < kept_rows(g).len() implies exists|r: int|
            0 <= r < g.len() && #[trigger] kept_rows(g)[i] == g[r] by {
            if i < kept_rows(g.drop_last()).len() {
                let r = choose|r: int|
                    0 <= r < g.drop_last().len() && kept_rows(g.drop_last())[i]
                        == g.drop_last()[r];
                assert(g.drop_last()[r] == g[r]);
                assert(kept_rows(g)[i] == g[r]);
            } else {
                assert(kept_rows(g)[i] == g[g.len() - 1]);
            }
        }
    }
}

impl Board {
    /// The mathematical view of the grid: a sequence of rows.
    pub open spec fn grid_view(self) -> Seq<Seq<Color>> {
        Seq::new(self.grid@.len(), |i: int| self.grid@[i]@)
    }

    /// The grid is rectangular and matches the declared dimensions.
    pub open spec fn wf(self) -> bool {
        &&& self.grid@.len() == self.height as int
        &&& forall|i: int|
            0 <= i < self.height as int ==> (#[trigger] self.grid@[i])@.len()
                == self.width as int
    }

    /// A new board of the given dimensions with every cell `Empty`.
    #[verifier::loop_isolation(false)]
    pub fn new(width: u8, height: u8) -> (r: Board)
        ensures
            r.wf(),
            r.width == width,
            r.height == height,
            r.grid_view() == empty_rows(height as nat, width as nat),
    {
        let mut grid: Vec<Vec<Color>> = Vec::new();
        let mut y: usize = 0;
        while y < height as usize
            invariant
                y <= height as usize,
                grid@.len() == y as int,
                forall|i: int|
                    0 <= i < y as int ==> (#[trigger] grid@[i])@ == empty_row(width as nat),
            decreases height as usize - y,
        {
            let mut row: Vec<Color> = Vec::new();
            let mut x: usize = 0;
            while x < width as usize
                invariant
                    x <= width as usize,
                    row@.len() == x as int,
                    forall|j: int| 0 <= j < x as int ==> #[trigger] row@[j] == Color::Empty,
                decreases width as usize - x,
            {
                row.push(Color::Empty);
                x += 1;
            }
            proof {
                assert(row@ =~= empty_row(width as nat));
            }
            grid.push(row);
            y += 1;
        }
        let r = Board { width, height, cell_size: 30, grid };
        proof {
            assert(r.grid_view() =~~= empty_rows(height as nat, width as nat));
        }
        r
    }

    /// Remove every full row, insert that many empty rows at the top, and
    /// return how many rows were cleared.  The board keeps its height and
    /// every row keeps its width; the non-full rows keep their relative
    /// order below the inserted empty rows.
    #[verifier::loop_isolation(false)]
    pub fn clear_full_lines(&mut self) -> (cleared: u8)
        requires
            old(self).wf(),
        ensures
            final(self).wf(),
            final(self).width == old(self).width,
            final(self).height == old(self).height,
            final(self).cell_size == old(self).cell_size,
            cleared as nat == num_full(old(self).grid_view()),
            final(self).grid_view() == empty_rows(
                num_full(old(self).grid_view()),
                old(self).width as nat,
            ) + kept_rows(old(self).grid_view()),
            final(self).grid_view().len() == old(self).grid_view().len(),
            forall|i: int|
                0 <= i < final(self).grid_view().len()
                    ==> (#[trigger] final(self).grid_view()[i]).len() == old(self).width as int,
    {
        let ghost g = self.grid_view();
        let height = self.height as usize;
        let mut kept: Vec<Vec<Color>> = Vec::new();
        let mut cleared: u8 = 0;
        let mut y: usize = 0;
        while y < height
            invariant
                y <= height,
                self == old(self),
                kept@.len() + cleared as int == y as int,
                cleared as int <= y as int,
                Seq::new(kept@.len(), |i: int| kept@[i]@) == kept_rows(g.subrange(0, y as int)),
                cleared as nat == num_full(g.subrange(0, y as int)),
            decreases height - y,
        {
            let row = &self.grid[y];
            let full = Self::row_is_full(row);
            proof {
                assert(g.subrange(0, y as int + 1).drop_last() =~= g.subrange(0, y as int));
                assert(g.subrange(0, y as int + 1).last() == g[y as int]);
                assert(g[y as int] == self.grid@[y as int]@);
            }
            if full {
                cleared += 1;
            } else {
                let copied = Self::copy_row(row);
                kept.push(copied);
                proof {
                    assert(Seq::new(kept@.len(), |i: int| kept@[i]@) =~= kept_rows(
                        g.subrange(0, y as int + 1),
                    ));
                }
            }
            y += 1;
        }
        proof {
            assert(g.subrange(0, height as int) =~= g);
        }
        let mut new_grid: Vec<Vec<Color>> = Vec::new();
        let mut k: usize = 0;
        while k < cleared as usize
            invariant
                k <= cleared as usize,
                new_grid@.len() == k as int,
                forall|i: int|
                    0 <= i < k as int ==> (#[trigger] new_grid@[i])@ == empty_row(
                        self.width as nat,
                    ),
            decreases cleared as usize - k,
        {
            let mut row: Vec<Color> = Vec::new();
            let mut x: usize = 0;
            while x < self.width as usize
                invariant
                    x <= self.width as usize,
                    row@.len() == x as int,
                    forall|j: int| 0 <= j < x as int ==> #[trigger] row@[j] == Color::Empty,
                decreases self.width as usize - x,
            {
                row.push(Color::Empty);
                x += 1;
            }
            proof {
                assert(row@ =~= empty_row(self.width as nat));
            }
            new_grid.push(row);
            k += 1;
        }
        new_grid.append(&mut kept);
        self.grid = new_grid;
        proof {
            lemma_kept_plus_full(g);
            assert(self.grid_view() =~~= empty_rows(num_full(g), self.width as nat)
                + kept_rows(g));
            lemma_kept_rows_from(g);
            assert forall|i: int|
                0 <= i < self.grid_view().len() implies (#[trigger] self.grid_view()[i]).len()
                == self.width as int by {
                if i >= num_full(g) {
                    let gi = self.grid_view()[i];
                    let r = choose|r: int| 0 <= r < g.len() && kept_rows(g)[i - num_full(g)] == g[r];
                    assert(gi == g[r]);
                    assert(g[r] == old(self).grid@[r]@);
                }
            }
            assert(self.grid@.len() == self.height as int);
            assert forall|i: int| 0 <= i < self.height as int implies (#[trigger] self.grid@[i])@
                .len() == self.width as int by {
                assert(self.grid_view()[i].len() == self.width as int);
            }
        }
        cleared
    }

    /// Whether every cell of the row is occupied.
    #[verifier::loop_isolation(false)]
    fn row_is_full(row: &Vec<Color>) -> (full: bool)
        ensures
            full == row_full(row@),
    {
        let mut x: usize = 0;
        while x < row.len()
            invariant
                x <= row@.len(),
                forall|j: int| 0 <= j < x as int ==> row@[j] != Color::Empty,
            decreases row@.len() - x,
        {
            if row[x] == Color::Empty {
                return false;
            }
            x += 1;
        }
        true
    }

    /// An element-for-element copy of a row.
    #[verifier::loop_isolation(false)]
    fn copy_row(row: &Vec<Color>) -> (r: Vec<Color>)
        ensures
            r@ == row@,
    {
        let mut r: Vec<Color> = Vec::new();
        let mut x: usize = 0;
        while x < row.len()
            invariant
                x <= row@.len(),
                r@ == row@.subrange(0, x as int),
            decreases row@.len() - x,
        {
            r.push(row[x]);
            proof {
                assert(r@ =~= row@.subrange(0, x as int + 1));
            }
            x += 1;
        }
        proof {
            assert(row@.subrange(0, row@.len() as int) =~= row@);
        }
        r
    }

    pub fn iter_height(&self) -> (r: core::ops::Range<usize>)
        ensures
            r.start == 0,
            r.end == self.height as usize,
    {
        0..self.height as usize
    }

    pub fn iter_width(&self) -> (r: core::ops::Range<usize>)
        ensures
            r.start == 0,
            r.end == self.width as usize,
    {
        0..self.width as usize
    }
}

} // verus!
