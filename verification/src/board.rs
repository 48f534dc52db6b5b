//! The board of a Game of Life simulation: a fixed-size rectangular grid of
//! live/dead cells with bounds-checked access and Moore-neighborhood
//! enumeration (no wraparound).

use vstd::prelude::*;

verus! {

/// Errors raised by board operations. Both signal caller misuse: neither is
/// recoverable by the board itself, and the board is left unchanged.
#[derive(Debug, PartialEq, Eq, Structural, Clone, Copy)]
pub enum BoardError {
    /// Construction was attempted with a zero width or height.
    InvalidDimensions,
    /// A coordinate-indexed access lay outside `[0, cols) x [0, rows)`.
    OutOfBounds,
}

/// The number of `true` values in a sequence of cell states.
pub open spec fn count_live(s: Seq<bool>) -> nat
    decreases s.len(),
{
    if s.len() == 0 {
        0
    } else {
        count_live(s.drop_last()) + if s.last() {
            1nat
        } else {
            0nat
        }
    }
}

/// Counting distributes over extending a prefix by one element.
pub proof fn lemma_count_live_take(s: Seq<bool>, i: int)
    requires
        0 <= i < s.len(),
    ensures
        count_live(s.take(i + 1)) == count_live(s.take(i)) + if s[i] {
            1nat
        } else {
            0nat
        },
{
    assert(s.take(i + 1).drop_last() =~= s.take(i));
    assert(s.take(i + 1).last() == s[i]);
}

/// A sequence with no `true` value counts zero live cells.
pub proof fn lemma_count_live_all_false(s: Seq<bool>)
    requires
        forall|i: int| 0 <= i < s.len() ==> !s[i],
    ensures
        count_live(s) == 0,
    decreases s.len(),
{
    if s.len() > 0 {
        lemma_count_live_all_false(s.drop_last());
    }
}

/// A rectangular grid of cells, each live (`true`) or dead (`false`),
/// indexed by `(x, y)` with `x` in `[0, cols)` and `y` in `[0, rows)`.
/// `grid` is column-major: `grid[x][y]` is the cell at `(x, y)`.
/// Dimensions are fixed at construction and always positive.
#[derive(Debug)]
pub struct Board {
    pub grid: Vec<Vec<bool>>,
    pub cols: usize,
    pub rows: usize,
}

impl Board {
    /// Well-formedness: positive dimensions, and the storage has exactly
    /// `cols` columns of exactly `rows` cells each.
    pub open spec fn wf(self) -> bool {
        &&& self.cols > 0
        &&& self.rows > 0
        &&& self.grid@.len() == self.cols
        &&& forall|x: int| 0 <= x < self.cols ==> (#[trigger] self.grid@[x])@.len() == self.rows
    }

    /// `(x, y)` lies inside the board's coordinate domain.
    pub open spec fn in_bounds(self, x: int, y: int) -> bool {
        0 <= x < self.cols && 0 <= y < self.rows
    }

    /// The state of the cell at `(x, y)`: `true` means live.
    pub open spec fn cell(self, x: int, y: int) -> bool {
        self.grid@[x]@[y]
    }

    /// Every cell of the board is dead.
    pub open spec fn all_dead(self) -> bool {
        forall|x: int, y: int| self.in_bounds(x, y) ==> !#[trigger] self.cell(x, y)
    }

    /// The contribution of the single coordinate `(x, y)` to a neighbor
    /// enumeration: its state if it is on the board, nothing otherwise
    /// (no wraparound).
    pub open spec fn cell_seg(self, x: int, y: int) -> Seq<bool> {
        if self.in_bounds(x, y) {
            seq![self.cell(x, y)]
        } else {
            Seq::empty()
        }
    }

    /// The contribution of column `cx` to the neighbor enumeration around a
    /// cell with row `y`: the cells at rows `y - 1`, `y` and `y + 1` of that
    /// column in order, the middle one only when `include_center` is set,
    /// off-board coordinates dropped.
    pub open spec fn column_seg(self, cx: int, y: int, include_center: bool) -> Seq<bool> {
        self.cell_seg(cx, y - 1) + (if include_center {
            self.cell_seg(cx, y)
        } else {
            Seq::empty()
        }) + self.cell_seg(cx, y + 1)
    }

    /// The states of the valid Moore-neighborhood cells of `(x, y)`, in
    /// row-major order within the 3x3 block: by `dx` then `dy`, skipping
    /// offset `(0, 0)`, with off-board offsets dropped.
    pub open spec fn neighbor_states(self, x: int, y: int) -> Seq<bool> {
        self.column_seg(x - 1, y, true) + self.column_seg(x, y, false) + self.column_seg(
            x + 1,
            y,
            true,
        )
    }

    /// The number of live cells among the valid neighbors of `(x, y)`.
    pub open spec fn live_neighbors(self, x: int, y: int) -> nat {
        count_live(self.neighbor_states(x, y))
    }

    /// `post` is `self` with exactly the cell at `(x, y)` toggled:
    /// same dimensions, that cell inverted, every other cell unchanged.
    pub open spec fn toggled(self, post: Board, x: int, y: int) -> bool {
        &&& post.cols == self.cols
        &&& post.rows == self.rows
        &&& post.cell(x, y) == !self.cell(x, y)
        &&& forall|a: int, b: int|
            self.in_bounds(a, b) && !(a == x && b == y) ==> #[trigger] post.cell(a, b)
                == self.cell(a, b)
    }

    /// Creates a board of `width` columns and `height` rows with every cell
    /// dead. Fails with `InvalidDimensions` exactly when either dimension is
    /// zero; no partial board is returned.
    pub fn new(width: usize, height: usize) -> (r: Result<Board, BoardError>)
        ensures
            width > 0 && height > 0 ==> {
                &&& r is Ok
                &&& r->Ok_0.wf()
                &&& r->Ok_0.cols == width
                &&& r->Ok_0.rows == height
                &&& r->Ok_0.all_dead()
            },
            width == 0 || height == 0 ==> r == Err::<Board, BoardError>(
                BoardError::InvalidDimensions,
            ),
    {
        if width == 0 || height == 0 {
            return Err(BoardError::InvalidDimensions);
        }
        let mut grid: Vec<Vec<bool>> = Vec::new();
        for x in 0..width
            invariant
                grid@.len() == x,
                forall|i: int| 0 <= i < x ==> (#[trigger] grid@[i])@.len() == height,
                forall|i: int, j: int|
                    0 <= i < x && 0 <= j < height ==> !(#[trigger] grid@[i]@[j]),
        {
            let column: Vec<bool> = vec![false; height];
            assert(forall|j: int| 0 <= j < height ==> !(#[trigger] column@[j]));
            grid.push(column);
        }
        Ok(Board { grid, cols: width, rows: height })
    }

    /// Reads the cell at `(x, y)`. Fails with `OutOfBounds` exactly when the
    /// coordinate lies outside the board.
    pub fn get(&self, x: usize, y: usize) -> (r: Result<bool, BoardError>)
        requires
            self.wf(),
        ensures
            x < self.cols && y < self.rows ==> r == Ok::<bool, BoardError>(
                self.cell(x as int, y as int),
            ),
            x >= self.cols || y >= self.rows ==> r == Err::<bool, BoardError>(
                BoardError::OutOfBounds,
            ),
    {
        if x < self.cols && y < self.rows {
            Ok(self.grid[x][y])
        } else {
            Err(BoardError::OutOfBounds)
        }
    }

    /// Toggles the cell at `(col, row)`: exactly that cell's state is
    /// inverted and nothing else changes. Fails with `OutOfBounds` exactly
    /// when the coordinate lies outside the board, leaving the board
    /// unchanged.
    pub fn flip(&mut self, col: usize, row: usize) -> (r: Result<(), BoardError>)
        requires
            old(self).wf(),
        ensures
            final(self).wf(),
            col < old(self).cols && row < old(self).rows ==> {
                &&& r == Ok::<(), BoardError>(())
                &&& old(self).toggled(*final(self), col as int, row as int)
            },
            col >= old(self).cols || row >= old(self).rows ==> {
                &&& r == Err::<(), BoardError>(BoardError::OutOfBounds)
                &&& *final(self) == *old(self)
            },
    {
        if col < self.cols && row < self.rows {
            let cur = self.grid[col][row];
            self.grid[col][row] = !cur;
            Ok(())
        } else {
            Err(BoardError::OutOfBounds)
        }
    }

    /// Collects into `out` the states of the cells at rows `y - 1`, `y` and
    /// `y + 1` of column `cx`, in order, skipping the middle one unless
    /// `include_center` is set and skipping off-board rows.
    fn push_column(&self, out: &mut Vec<bool>, cx: usize, y: usize, include_center: bool)
        requires
            self.wf(),
            cx < self.cols,
        ensures
            final(out)@ == old(out)@ + self.column_seg(cx as int, y as int, include_center),
    {
        let ghost pre = out@;
        if y >= 1 && y - 1 < self.rows {
            out.push(self.grid[cx][y - 1]);
        }
        if include_center && y < self.rows {
            out.push(self.grid[cx][y]);
        }
        if y < self.rows - 1 {
            out.push(self.grid[cx][y + 1]);
        }
        assert(out@ =~= pre + self.column_seg(cx as int, y as int, include_center));
    }

    /// The states of the valid Moore-neighborhood cells of `(x, y)`, in the
    /// documented order (by `dx` then `dy`): 8 values for an interior cell,
    /// 5 for an edge cell, 3 for a corner, 0 on a 1x1 board.
    pub fn neighbors(&self, x: usize, y: usize) -> (r: Vec<bool>)
        requires
            self.wf(),
        ensures
            r@ == self.neighbor_states(x as int, y as int),
    {
        let ghost xi = x as int;
        let ghost yi = y as int;
        let mut r: Vec<bool> = Vec::new();
        if x >= 1 && x - 1 < self.cols {
            self.push_column(&mut r, x - 1, y, true);
        } else {
            assert(self.column_seg(xi - 1, yi, true) =~= Seq::<bool>::empty());
        }
        assert(r@ == self.column_seg(xi - 1, yi, true));
        if x < self.cols {
            self.push_column(&mut r, x, y, false);
        } else {
            assert(self.column_seg(xi, yi, false) =~= Seq::<bool>::empty());
            assert(r@ =~= r@ + self.column_seg(xi, yi, false));
        }
        assert(r@ == self.column_seg(xi - 1, yi, true) + self.column_seg(xi, yi, false));
        if x < self.cols - 1 {
            self.push_column(&mut r, x + 1, y, true);
        } else {
            assert(self.column_seg(xi + 1, yi, true) =~= Seq::<bool>::empty());
            assert(r@ =~= r@ + self.column_seg(xi + 1, yi, true));
        }
        assert(r@ == self.neighbor_states(xi, yi));
        r
    }

    /// Counts the live cells among the valid neighbors of `(x, y)`.
    pub fn count_live_neighbors(&self, x: usize, y: usize) -> (n: usize)
        requires
            self.wf(),
        ensures
            n == self.live_neighbors(x as int, y as int),
            n <= 8,
    {
        let states = self.neighbors(x, y);
        let mut n: usize = 0;
        let mut i: usize = 0;
        assert(states@.take(0) =~= Seq::<bool>::empty());
        while i < states.len()
            invariant
                i <= states@.len(),
                states@.len() <= 8,
                n == count_live(states@.take(i as int)),
                n <= i,
                states@ == self.neighbor_states(x as int, y as int),
            decreases states@.len() - i,
        {
            proof {
                lemma_count_live_take(states@, i as int);
            }
            if states[i] {
                n = n + 1;
            }
            i = i + 1;
        }
        assert(states@.take(states@.len() as int) =~= states@);
        n
    }

    /// The number of enumerated neighbors of a valid cell depends only on
    /// its position: one entry for every in-bounds coordinate of the 3x3
    /// block, minus the cell itself. So an interior cell has 8 neighbors, an
    /// edge (non-corner) cell 5, a corner cell 3 (on boards at least 2x2),
    /// and the single cell of a 1x1 board none.
    pub proof fn lemma_neighbor_count(self, x: int, y: int)
        requires
            self.wf(),
            self.in_bounds(x, y),
        ensures
            self.neighbor_states(x, y).len() == (1 + (if x > 0 {
                1int
            } else {
                0int
            }) + (if x + 1 < self.cols {
                1int
            } else {
                0int
            })) * (1 + (if y > 0 {
                1int
            } else {
                0int
            }) + (if y + 1 < self.rows {
                1int
            } else {
                0int
            })) - 1,
    {
        let cy = 1 + (if y > 0 {
            1int
        } else {
            0int
        }) + (if y + 1 < self.rows {
            1int
        } else {
            0int
        });
        assert(self.column_seg(x - 1, y, true).len() == if x > 0 {
            cy
        } else {
            0
        });
        assert(self.column_seg(x, y, false).len() == cy - 1);
        assert(self.column_seg(x + 1, y, true).len() == if x + 1 < self.cols {
            cy
        } else {
            0
        });
        if x > 0 && x + 1 < self.cols {
            assert(3 * cy == cy + cy + cy);
        } else if x > 0 || x + 1 < self.cols {
            assert(2 * cy == cy + cy);
        }
    }

    /// On an all-dead board the neighbor enumeration around any valid cell
    /// yields only `false` values.
    pub proof fn lemma_all_dead_neighbors(self, x: int, y: int)
        requires
            self.wf(),
            self.all_dead(),
            self.in_bounds(x, y),
        ensures
            forall|i: int|
                0 <= i < self.neighbor_states(x, y).len() ==> !self.neighbor_states(x, y)[i],
    {
        assert forall|i: int|
            0 <= i < self.neighbor_states(x, y).len() implies !self.neighbor_states(x, y)[i] by {
            if self.neighbor_states(x, y)[i] {
                assert(false);
            }
        }
    }
}

/// Toggling one cell and then toggling it again restores the board: the
/// dimensions and every cell are as they were before the first toggle.
pub proof fn lemma_flip_involution(b0: Board, b1: Board, b2: Board, x: int, y: int)
    requires
        b0.in_bounds(x, y),
        b0.toggled(b1, x, y),
        b1.toggled(b2, x, y),
    ensures
        b2.cols == b0.cols,
        b2.rows == b0.rows,
        forall|a: int, b: int| b0.in_bounds(a, b) ==> #[trigger] b2.cell(a, b) == b0.cell(a, b),
{
}

} // verus!
