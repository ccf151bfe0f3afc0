//! Full rows: finding them, taking one out, and taking out all of them.

use crate::grid::{Grid, GridView};
use crate::tetromino::Block;
use vstd::prelude::*;

verus! {

/// Whether a row has at least one cell and a block in every cell.
pub open spec fn full_row(row: Seq<Option<Block>>) -> bool {
    row.len() > 0 && forall|i: int| 0 <= i < row.len() ==> (#[trigger] row[i]) is Some
}

/// The number of blocks in a row.
pub open spec fn blocks_in_row(row: Seq<Option<Block>>) -> nat
    decreases row.len(),
{
    if row.len() == 0 {
        0
    } else {
        blocks_in_row(row.drop_last()) + if row.last() is Some {
            1nat
        } else {
            0nat
        }
    }
}

/// The number of blocks in a sequence of rows.
pub open spec fn blocks_in(rows: Seq<Seq<Option<Block>>>) -> nat
    decreases rows.len(),
{
    if rows.len() == 0 {
        0
    } else {
        blocks_in(rows.drop_last()) + blocks_in_row(rows.last())
    }
}

impl GridView {
    /// Whether row `j` lies inside the grid and is full. A grid without
    /// columns has no full row.
    pub open spec fn row_full(self, j: int) -> bool {
        0 <= j < self.height() && full_row(self.rows[j])
    }

    /// The grid after row `r` is taken out: the rows above it have moved
    /// down by one, an empty row has come in at the top, and the rows below
    /// it are as they were.
    pub open spec fn without_row(self, r: int) -> GridView {
        GridView {
            cols: self.cols,
            rows: seq![GridView::empty_row(self.cols)] + self.rows.take(r) + self.rows.skip(r + 1),
        }
    }

    /// The rows that are not full, in their order from top to bottom.
    pub open spec fn kept_rows(self) -> Seq<Seq<Option<Block>>> {
        self.rows.filter(|row: Seq<Option<Block>>| !full_row(row))
    }

    /// The grid after every full row is taken out: the rows that are not
    /// full, in their order, at the bottom, and empty rows above them.
    pub open spec fn compacted(self) -> GridView {
        let kept = self.kept_rows();
        GridView {
            cols: self.cols,
            rows: Seq::new(
                (self.height() - kept.len()) as nat,
                |j: int| GridView::empty_row(self.cols),
            ) + kept,
        }
    }

    /// The number of blocks on the grid.
    pub open spec fn count(self) -> nat {
        blocks_in(self.rows)
    }
}

/// The blocks of two runs of rows, one after the other, are those of the
/// first and those of the second.
pub proof fn lemma_blocks_in_add(a: Seq<Seq<Option<Block>>>, b: Seq<Seq<Option<Block>>>)
    ensures
        blocks_in(a + b) == blocks_in(a) + blocks_in(b),
    decreases b.len(),
{
    if b.len() == 0 {
        assert(a + b =~= a);
    } else {
        assert((a + b).drop_last() =~= a + b.drop_last());
        assert((a + b).last() == b.last());
        lemma_blocks_in_add(a, b.drop_last());
    }
}

/// A row in which every cell holds a block has as many blocks as cells; a
/// row of empty cells has none.
pub proof fn lemma_blocks_in_uniform_row(row: Seq<Option<Block>>)
    ensures
        (forall|i: int| 0 <= i < row.len() ==> (#[trigger] row[i]) is Some) ==> blocks_in_row(row)
            == row.len(),
        (forall|i: int| 0 <= i < row.len() ==> (#[trigger] row[i]) is None) ==> blocks_in_row(row)
            == 0,
    decreases row.len(),
{
    if row.len() > 0 {
        lemma_blocks_in_uniform_row(row.drop_last());
        assert(forall|i: int|
            0 <= i < row.drop_last().len() ==> #[trigger] row.drop_last()[i] == row[i]);
        assert(row.last() == row[row.len() - 1]);
    }
}

/// Taking a full row `r` out of a grid leaves the rows below `r` as they
/// were, moves each row above `r` down by one, leaves the top row empty,
/// and lowers the number of blocks by the number of columns.
pub proof fn lemma_without_full_row(grid: GridView, r: int)
    requires
        grid.wf(),
        grid.row_full(r),
    ensures
        ({
            let after = grid.without_row(r);
            &&& after.wf()
            &&& after.cols == grid.cols
            &&& after.height() == grid.height()
            &&& after.rows[0] == GridView::empty_row(grid.cols)
            &&& forall|i: int| !after.occupied(i, 0)
            &&& forall|j: int| 0 < j <= r ==> #[trigger] after.rows[j] == grid.rows[j - 1]
            &&& forall|j: int| r < j < grid.height() ==> #[trigger] after.rows[j] == grid.rows[j]
            &&& after.count() + grid.cols == grid.count()
        }),
{
    let after = grid.without_row(r);
    let top = seq![GridView::empty_row(grid.cols)];
    let gone = seq![grid.rows[r]];
    assert(grid.rows =~= grid.rows.take(r) + gone + grid.rows.skip(r + 1));
    lemma_blocks_in_add(grid.rows.take(r) + gone, grid.rows.skip(r + 1));
    lemma_blocks_in_add(grid.rows.take(r), gone);
    lemma_blocks_in_add(top + grid.rows.take(r), grid.rows.skip(r + 1));
    lemma_blocks_in_add(top, grid.rows.take(r));
    assert(blocks_in(gone) == blocks_in_row(grid.rows[r])) by {
        assert(gone.drop_last() =~= Seq::<Seq<Option<Block>>>::empty());
        assert(gone.last() == grid.rows[r]);
        assert(blocks_in(gone.drop_last()) == 0);
    }
    assert(blocks_in(top) == blocks_in_row(GridView::empty_row(grid.cols))) by {
        assert(top.drop_last() =~= Seq::<Seq<Option<Block>>>::empty());
        assert(top.last() == GridView::empty_row(grid.cols));
        assert(blocks_in(top.drop_last()) == 0);
    }
    lemma_blocks_in_uniform_row(grid.rows[r]);
    lemma_blocks_in_uniform_row(GridView::empty_row(grid.cols));
}

/// Filtering keeps a sequence as it is when every element passes.
pub proof fn lemma_filter_keeps_all<A>(s: Seq<A>, pred: spec_fn(A) -> bool)
    requires
        forall|i: int| 0 <= i < s.len() ==> pred(#[trigger] s[i]),
    ensures
        s.filter(pred) == s,
    decreases s.len(),
{
    reveal(Seq::filter);
    if s.len() > 0 {
        assert(forall|i: int| 0 <= i < s.drop_last().len() ==> #[trigger] s.drop_last()[i] == s[i]);
        lemma_filter_keeps_all(s.drop_last(), pred);
        assert(s.drop_last().push(s.last()) =~= s);
    }
}

/// A grid without a full row is its own compaction.
pub proof fn lemma_compacted_without_full_rows(grid: GridView)
    requires
        forall|j: int| 0 <= j < grid.height() ==> !grid.row_full(j),
    ensures
        grid.compacted() == grid,
{
    let keep = |row: Seq<Option<Block>>| !full_row(row);
    assert forall|j: int| 0 <= j < grid.rows.len() implies keep(#[trigger] grid.rows[j]) by {
        assert(!grid.row_full(j));
    }
    lemma_filter_keeps_all(grid.rows, keep);
    assert(grid.compacted().rows =~= grid.rows);
}

/// Taking one full row out of a grid does not change what the grid
/// compacts to.
pub proof fn lemma_compacted_after_row_taken(grid: GridView, r: int)
    requires
        grid.wf(),
        grid.row_full(r),
    ensures
        grid.without_row(r).compacted() == grid.compacted(),
{
    broadcast use Seq::filter_distributes_over_add, Seq::lemma_filter_len;

    let keep = |row: Seq<Option<Block>>| !full_row(row);
    let after = grid.without_row(r);
    let blank = GridView::empty_row(grid.cols);
    let top = seq![blank];
    let gone = seq![grid.rows[r]];
    let above = grid.rows.take(r);
    let below = grid.rows.skip(r + 1);
    assert(grid.rows =~= above + gone + below);
    assert(blank[0] is None);
    assert(!full_row(blank));
    assert(top.filter(keep) == top) by {
        lemma_filter_keeps_all(top, keep);
    }
    assert(gone.filter(keep) =~= Seq::<Seq<Option<Block>>>::empty()) by {
        reveal_with_fuel(Seq::filter, 2);
        assert(gone.drop_last().len() == 0);
    }
    assert(grid.kept_rows() == above.filter(keep) + gone.filter(keep) + below.filter(keep));
    assert(after.kept_rows() == top.filter(keep) + above.filter(keep) + below.filter(keep));
    assert(grid.kept_rows() =~= above.filter(keep) + below.filter(keep));
    assert(after.kept_rows() =~= top + grid.kept_rows());
    assert(after.compacted().rows =~= grid.compacted().rows);
}

impl GridView {
    /// The compaction of a grid is as wide and as tall as the grid.
    pub proof fn lemma_compacted_size(self)
        ensures
            self.compacted().cols == self.cols,
            self.compacted().height() == self.height(),
    {
        broadcast use Seq::lemma_filter_len;

    }
}

/// The compaction of a well-formed grid is as wide and as tall as the grid,
/// is well formed, and has no full row.
pub proof fn lemma_compacted_shape(grid: GridView)
    requires
        grid.wf(),
    ensures
        grid.compacted().wf(),
        grid.compacted().cols == grid.cols,
        grid.compacted().height() == grid.height(),
        forall|j: int| !grid.compacted().row_full(j),
{
    broadcast use Seq::lemma_filter_len;

    let keep = |row: Seq<Option<Block>>| !full_row(row);
    let kept = grid.kept_rows();
    let c = grid.compacted();
    let blanks = grid.height() - kept.len();
    assert forall|j: int| 0 <= j < c.rows.len() implies (#[trigger] c.rows[j]).len() == grid.cols
        && !full_row(c.rows[j]) by {
        if j < blanks {
            assert(c.rows[j] == GridView::empty_row(grid.cols));
            if grid.cols > 0 {
                assert(c.rows[j][0] is None);
            }
        } else {
            let e = j - blanks;
            assert(c.rows[j] == kept[e]);
            grid.rows.lemma_filter_pred(keep, e);
            assert(grid.rows.filter(keep).contains(kept[e]));
            grid.rows.lemma_filter_contains_rev(keep, kept[e]);
            let at = choose|at: int| 0 <= at < grid.rows.len() && grid.rows[at] == kept[e];
            assert(grid.rows[at].len() == grid.cols);
        }
    }
}

/// Whether row `j` of `board` is full.
pub fn is_row_full(board: &Grid, j: isize) -> (full: bool)
    requires
        board@.cols <= isize::MAX,
    ensures
        full == board@.row_full(j as int),
{
    proof {
        board.lemma_view_wf();
    }
    let cols = board.cols();
    if cols == 0 {
        return false;
    }
    let mut i: isize = 0;
    while i < cols as isize
        invariant
            0 <= i <= cols,
            cols == board@.cols,
            board@.wf(),
            forall|c: int| 0 <= c < i ==> board@.occupied(c, j as int),
        decreases cols - i,
    {
        if board.get(i, j).is_none() {
            proof {
                if board@.row_full(j as int) {
                    assert(board@.rows[j as int][i as int] is Some);
                }
            }
            return false;
        }
        i += 1;
    }
    proof {
        assert(board@.occupied(0, j as int));
        assert forall|c: int| 0 <= c < board@.rows[j as int].len() implies (
        #[trigger] board@.rows[j as int][c]) is Some by {
            assert(board@.occupied(c, j as int));
        }
    }
    true
}

/// Takes row `r` out of `board`: empties it, then moves every row above
/// it down by one, which leaves the top row empty.
pub fn clear_row(board: &mut Grid, r: isize)
    requires
        0 <= r < old(board)@.height(),
        old(board)@.cols <= isize::MAX,
    ensures
        final(board)@ == old(board)@.without_row(r as int),
{
    proof {
        board.lemma_view_wf();
    }
    let cols = board.cols() as isize;
    let ghost before = board@;
    let ghost blank = GridView::empty_row(before.cols);

    let mut i: isize = 0;
    while i < cols
        invariant
            0 <= i <= cols,
            cols == before.cols,
            0 <= r < before.height(),
            before.wf(),
            board@.cols == before.cols,
            board@.height() == before.height(),
            board@.wf(),
            forall|j: int| 0 <= j < before.height() && j != r ==> board@.rows[j] == before.rows[j],
            forall|c: int| 0 <= c < i ==> board@.rows[r as int][c] is None,
            forall|c: int| i <= c < cols ==> board@.rows[r as int][c] == before.rows[r as int][c],
        decreases cols - i,
    {
        board.set(i, r, None);
        i += 1;
    }
    assert(board@.rows[r as int] =~= blank);

    let mut k = r;
    while k >= 0
        invariant
            -1 <= k <= r,
            cols == before.cols,
            0 <= r < before.height(),
            blank == GridView::empty_row(before.cols),
            before.wf(),
            board@.cols == before.cols,
            board@.height() == before.height(),
            board@.wf(),
            forall|j: int| r < j < before.height() ==> board@.rows[j] == before.rows[j],
            forall|j: int| 0 <= j <= k && j != r ==> board@.rows[j] == before.rows[j],
            k == r ==> board@.rows[r as int] == blank,
            forall|j: int| k < j <= r && j > 0 ==> board@.rows[j] == before.rows[j - 1],
            k < 0 <= r ==> board@.rows[0] == blank,
        decreases k + 1,
    {
        let ghost start = board@;
        let ghost source = if k > 0 {
            before.rows[k - 1]
        } else {
            blank
        };
        let mut i: isize = 0;
        while i < cols
            invariant
                0 <= i <= cols,
                0 <= k <= r,
                cols == before.cols,
                0 <= r < before.height(),
                before.wf(),
                start.wf(),
                start.cols == before.cols,
                start.height() == before.height(),
                board@.cols == before.cols,
                board@.height() == before.height(),
                board@.wf(),
                source.len() == cols,
                forall|c: int| 0 <= c < cols ==> start.at(c, k - 1) == #[trigger] source[c],
                forall|j: int|
                    0 <= j < before.height() && j != k ==> board@.rows[j] == start.rows[j],
                forall|c: int| 0 <= c < i ==> board@.rows[k as int][c] == source[c],
                forall|c: int|
                    i <= c < cols ==> board@.rows[k as int][c] == start.rows[k as int][c],
            decreases cols - i,
        {
            let above = match board.get(i, k - 1) {
                Some(block) => Some(*block),
                None => None,
            };
            assert(above == source[i as int]) by {
                assert(board@.at(i as int, k - 1) == start.at(i as int, k - 1));
            }
            board.set(i, k, above);
            i += 1;
        }
        assert(board@.rows[k as int] =~= source);
        assert forall|j: int| k <= j <= r && j > 0 implies board@.rows[j] == before.rows[j - 1] by {
            if j > k {
                assert(board@.rows[j] == start.rows[j]);
            }
        }
        k -= 1;
    }
    assert(board@.rows =~= before.without_row(r as int).rows);
}

/// Takes every full row out of `board`, from the bottom row upwards. After
/// a row is taken out the row that has moved into its place is looked at
/// before the walk goes on, so that rows that are full together all leave.
pub fn clear_full_rows(board: &mut Grid)
    requires
        old(board)@.cols <= isize::MAX,
        old(board)@.height() <= isize::MAX,
    ensures
        final(board)@ == old(board)@.compacted(),
{
    proof {
        board.lemma_view_wf();
    }
    let ghost before = board@;
    let ghost blank = GridView::empty_row(before.cols);
    let ghost cleared: int = 0;
    let mut j = board.rows() as isize;
    while j >= 0
        invariant
            -1 <= j <= before.height(),
            before.cols <= isize::MAX,
            before.height() <= isize::MAX,
            blank == GridView::empty_row(before.cols),
            board@.wf(),
            board@.cols == before.cols,
            board@.height() == before.height(),
            board@.compacted() == before.compacted(),
            forall|r: int| j < r < before.height() ==> !board@.row_full(r),
            0 <= cleared <= j + 1,
            forall|r: int| 0 <= r < cleared && r < before.height() ==> board@.rows[r] == blank,
        decreases j + 1, j + 1 - cleared,
    {
        if is_row_full(board, j) {
            let ghost full = board@;
            proof {
                lemma_compacted_after_row_taken(full, j as int);
                lemma_without_full_row(full, j as int);
                if cleared > j {
                    assert(full.rows[j as int] == blank);
                    assert(blank[0] is None);
                }
            }
            clear_row(board, j);
            proof {
                assert forall|r: int| j < r < before.height() implies !board@.row_full(r) by {
                    assert(!full.row_full(r));
                    assert(board@.rows[r] == full.rows[r]);
                }
                assert forall|r: int| 0 <= r < cleared + 1 && r < before.height() implies
                    board@.rows[r] == blank by {
                    if r > 0 {
                        assert(board@.rows[r] == full.rows[r - 1]);
                    }
                }
                cleared = cleared + 1;
            }
        } else {
            j -= 1;
            proof {
                if cleared > j + 1 {
                    cleared = j + 1;
                }
            }
        }
    }
    proof {
        lemma_compacted_without_full_rows(board@);
    }
}

} // verus!
