//! A fixed-size rectangular grid of cells that are empty or hold a block.

use crate::tetromino::Block;
use vstd::prelude::*;

verus! {

/// The model of a [`Grid`]: its width and its rows from top to bottom, each
/// row a sequence of cells from left to right.
pub struct GridView {
    pub cols: nat,
    pub rows: Seq<Seq<Option<Block>>>,
}

impl GridView {
    /// Every row is `cols` cells wide.
    pub open spec fn wf(self) -> bool {
        forall|j: int| 0 <= j < self.rows.len() ==> (#[trigger] self.rows[j]).len() == self.cols
    }

    /// The number of rows.
    pub open spec fn height(self) -> nat {
        self.rows.len()
    }

    /// Whether column `i`, row `j` lies inside the grid.
    pub open spec fn contains(self, i: int, j: int) -> bool {
        0 <= i < self.cols && 0 <= j < self.rows.len()
    }

    /// The cell at column `i`, row `j`; empty outside the grid.
    pub open spec fn at(self, i: int, j: int) -> Option<Block> {
        if self.contains(i, j) {
            self.rows[j][i]
        } else {
            None
        }
    }

    /// Whether the cell at column `i`, row `j` holds a block.
    pub open spec fn occupied(self, i: int, j: int) -> bool {
        self.at(i, j) is Some
    }

    /// A row of `cols` empty cells.
    pub open spec fn empty_row(cols: nat) -> Seq<Option<Block>> {
        Seq::new(cols, |i: int| None)
    }

    /// The grid of the given size with every cell empty.
    pub open spec fn empty(cols: nat, rows: nat) -> GridView {
        GridView { cols, rows: Seq::new(rows, |j: int| GridView::empty_row(cols)) }
    }

    /// The grid of the given size whose cells are listed in `cells` row by
    /// row, each row from left to right.
    pub open spec fn from_cells(cols: nat, rows: nat, cells: Seq<Option<Block>>) -> GridView {
        GridView {
            cols,
            rows: Seq::new(rows, |j: int| Seq::new(cols, |i: int| cells[i + j * cols])),
        }
    }

    /// `self` with the cell at column `i`, row `j` replaced by `cell`;
    /// `self` unchanged when that place lies outside the grid.
    pub open spec fn with_cell(self, i: int, j: int, cell: Option<Block>) -> GridView {
        if self.contains(i, j) {
            GridView { cols: self.cols, rows: self.rows.update(j, self.rows[j].update(i, cell)) }
        } else {
            self
        }
    }

    /// The place of the `k`-th cell in scan order, which runs through each
    /// row from left to right, top row first.
    pub open spec fn scan(self, k: int) -> (int, int) {
        (k % self.cols as int, k / self.cols as int)
    }

    /// The number of cells.
    pub open spec fn area(self) -> nat {
        self.cols * self.rows.len()
    }
}

/// A rectangular board of `cols` by `rows` cells.
pub struct Grid {
    cols: usize,
    rows: usize,
    cells: Vec<Option<Block>>,
}

impl View for Grid {
    type V = GridView;

    closed spec fn view(&self) -> GridView {
        GridView::from_cells(self.cols as nat, self.rows as nat, self.cells@)
    }
}

impl Grid {
    #[verifier::type_invariant]
    spec fn inv(&self) -> bool {
        self.cells@.len() == self.cols * self.rows <= usize::MAX
    }

    /// The view of every grid is well formed.
    pub broadcast proof fn lemma_view_wf(&self)
        ensures
            #[trigger] self@.wf(),
    {
    }

    /// A grid of `size[0]` columns and `size[1]` rows with every cell empty.
    pub fn new(size: [usize; 2]) -> (g: Self)
        requires
            size[0] * size[1] <= usize::MAX,
        ensures
            g@ == GridView::empty(size[0] as nat, size[1] as nat),
    {
        let cols = size[0];
        let rows = size[1];
        let n = cols * rows;
        let mut cells: Vec<Option<Block>> = Vec::new();
        while cells.len() < n
            invariant
                cells@.len() <= n,
                forall|k: int| 0 <= k < cells@.len() ==> cells@[k] is None,
            decreases n - cells@.len(),
        {
            cells.push(None);
        }
        let g = Grid { cols, rows, cells };
        proof {
            let empty = GridView::empty(cols as nat, rows as nat);
            assert forall|j: int| 0 <= j < rows implies g@.rows[j] == empty.rows[j] by {
                assert forall|i: int| 0 <= i < cols implies g@.rows[j][i] == None::<Block> by {
                    lemma_cell_index(i, j, cols as int, rows as int);
                }
                assert(g@.rows[j] =~= empty.rows[j]);
            }
            assert(g@.rows =~= empty.rows);
        }
        g
    }

    /// The grid of the given size whose cells are listed in `cells` row by
    /// row, each row from left to right.
    pub fn from_vec(cols: usize, rows: usize, cells: Vec<Option<Block>>) -> (g: Self)
        requires
            cells@.len() == cols * rows,
        ensures
            g@ == GridView::from_cells(cols as nat, rows as nat, cells@),
    {
        // the length of a vector can be held in a `usize`
        assert(cells@.len() == cells.len());
        Grid { cols, rows, cells }
    }

    /// The number of columns.
    pub fn cols(&self) -> (n: usize)
        ensures
            n == self@.cols,
    {
        self.cols
    }

    /// The number of rows.
    pub fn rows(&self) -> (n: usize)
        ensures
            n == self@.height(),
    {
        self.rows
    }

    /// The block at column `i`, row `j`; nothing where the cell is empty or
    /// lies outside the grid.
    pub fn get(&self, i: isize, j: isize) -> (cell: Option<&Block>)
        ensures
            cell is Some <==> self@.occupied(i as int, j as int),
            cell matches Some(b) ==> self@.at(i as int, j as int) == Some(*b),
    {
        if i >= 0 && (i as usize) < self.cols && j >= 0 && (j as usize) < self.rows {
            proof {
                use_type_invariant(self);
                lemma_cell_index(
                    i as usize as int,
                    j as usize as int,
                    self.cols as int,
                    self.rows as int,
                );
            }
            self.cells[i as usize + j as usize * self.cols].as_ref()
        } else {
            None
        }
    }

    /// A walk over all cells in scan order, each with its column and row.
    pub fn cell_indices(&self) -> (it: CellIndices<'_>)
        ensures
            it.pos() == 0,
            it.grid() == self@,
    {
        CellIndices { i: 0, grid: self }
    }

    /// Puts `block` at column `i`, row `j`; does nothing where that place
    /// lies outside the grid.
    pub fn set(&mut self, i: isize, j: isize, block: Option<Block>)
        ensures
            final(self)@ == old(self)@.with_cell(i as int, j as int, block),
    {
        if i >= 0 && (i as usize) < self.cols && j >= 0 && (j as usize) < self.rows {
            proof {
                use_type_invariant(&*self);
                lemma_cell_index(
                    i as usize as int,
                    j as usize as int,
                    self.cols as int,
                    self.rows as int,
                );
            }
            let k = i as usize + j as usize * self.cols;
            self.cells[k] = block;
            proof {
                let after = old(self)@.with_cell(i as int, j as int, block);
                assert forall|i2: int, j2: int|
                    0 <= i2 < self.cols && 0 <= j2 < self.rows implies self@.rows[j2][i2]
                    == after.rows[j2][i2] by {
                    lemma_cell_index(i2, j2, self.cols as int, self.rows as int);
                    if i2 + j2 * self.cols == k {
                        lemma_cell_index_distinct(i as int, j as int, i2, j2, self.cols as int);
                    }
                }
                assert forall|j2: int| 0 <= j2 < self.rows implies self@.rows[j2]
                    == after.rows[j2] by {
                    assert(self@.rows[j2] =~= after.rows[j2]);
                }
                assert(self@.rows =~= after.rows);
            }
        }
    }
}

/// A walk over the cells of a grid in scan order.
pub struct CellIndices<'a> {
    i: usize,
    grid: &'a Grid,
}

impl<'a> CellIndices<'a> {
    /// The number of cells handed out so far.
    pub closed spec fn pos(&self) -> nat {
        self.i as nat
    }

    /// The grid that is walked.
    pub closed spec fn grid(&self) -> GridView {
        self.grid@
    }

    /// The next cell in scan order with its column and row, or nothing
    /// once every cell has been handed out.
    pub fn next(&mut self) -> (item: Option<(usize, usize, &'a Option<Block>)>)
        ensures
            final(self).grid() == old(self).grid(),
            old(self).pos() >= old(self).grid().area() ==> item is None && final(self).pos()
                == old(self).pos(),
            old(self).pos() < old(self).grid().area() ==> final(self).pos() == old(self).pos() + 1
                && {
                &&& item matches Some((col, row, cell))
                &&& (col as int, row as int) == old(self).grid().scan(old(self).pos() as int)
                &&& old(self).grid().contains(col as int, row as int)
                &&& *cell == old(self).grid().rows[row as int][col as int]
            },
    {
        proof {
            use_type_invariant(self.grid);
        }
        if self.i >= self.grid.cols * self.grid.rows {
            return None;
        }
        proof {
            lemma_scan_inside(self.i as int, self.grid.cols as int, self.grid.rows as int);
        }
        let col = self.i % self.grid.cols;
        let row = self.i / self.grid.cols;
        let item = (col, row, &self.grid.cells[self.i]);

        self.i += 1;
        Some(item)
    }
}

/// The `k`-th cell in scan order of a grid of `cols` by `rows` cells lies
/// in column `k % cols` of row `k / cols`, inside the grid.
pub proof fn lemma_scan_inside(k: int, cols: int, rows: int)
    requires
        0 <= cols,
        0 <= rows,
        0 <= k < cols * rows,
    ensures
        cols > 0,
        0 <= k % cols < cols,
        0 <= k / cols < rows,
        k % cols + (k / cols) * cols == k,
{
    assert(cols > 0) by (nonlinear_arith)
        requires
            0 <= cols,
            0 <= k < cols * rows,
    ;
    vstd::arithmetic::div_mod::lemma_fundamental_div_mod(k, cols);
    vstd::arithmetic::div_mod::lemma_mod_bound(k, cols);
    assert(0 <= k / cols < rows) by (nonlinear_arith)
        requires
            cols > 0,
            0 <= k < cols * rows,
            k == cols * (k / cols) + k % cols,
            0 <= k % cols < cols,
    ;
    assert((k / cols) * cols == cols * (k / cols)) by (nonlinear_arith);
}

/// The cell at column `i`, row `j` of a grid `cols` wide is the
/// `i + j * cols`-th in scan order.
pub proof fn lemma_scan_reaches(i: int, j: int, cols: int)
    requires
        0 <= i < cols,
        0 <= j,
    ensures
        (i + j * cols) % cols == i,
        (i + j * cols) / cols == j,
{
    vstd::arithmetic::div_mod::lemma_fundamental_div_mod_converse(i + j * cols, cols, j, i);
}

/// Inside a grid of `cols` by `rows` cells, the index `i + j * cols` of the
/// cell at column `i`, row `j` lies below `cols * rows`.
pub proof fn lemma_cell_index(i: int, j: int, cols: int, rows: int)
    requires
        0 <= i < cols,
        0 <= j < rows,
    ensures
        0 <= j * cols,
        0 <= i + j * cols < cols * rows,
{
    assert(0 <= j * cols && j * cols + cols <= cols * rows) by (nonlinear_arith)
        requires
            0 <= cols,
            0 <= j < rows,
    ;
}

/// Two cells of a grid `cols` wide that share the index `i + j * cols` are
/// the same cell.
pub proof fn lemma_cell_index_distinct(i: int, j: int, i2: int, j2: int, cols: int)
    requires
        0 <= i < cols,
        0 <= i2 < cols,
        i + j * cols == i2 + j2 * cols,
    ensures
        i == i2,
        j == j2,
{
    assert(j == j2) by (nonlinear_arith)
        requires
            0 <= i < cols,
            0 <= i2 < cols,
            i + j * cols == i2 + j2 * cols,
    ;
}

} // verus!
