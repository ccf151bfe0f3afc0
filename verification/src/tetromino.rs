//! Blocks and the catalog of piece shapes.

use crate::grid::{lemma_scan_reaches, Grid, GridView};
use vstd::prelude::*;
use vstd::string::StrSliceExecFns;

verus! {

/// Marks a cell as occupied. It carries nothing else.
#[derive(Debug, Clone, Copy, PartialEq, Eq)]
pub struct Block;

/// The widest and the tallest that a piece shape may be.
pub const MAX_SHAPE_EXTENT: usize = 0x100_0000;

/// The cell that a character of a shape pattern stands for: a block for
/// `#`, an empty cell for anything else.
pub open spec fn cell_of(c: char) -> Option<Block> {
    if c == '#' {
        Some(Block)
    } else {
        None
    }
}

/// The grid that a pattern draws, one string per row. Its width is the
/// length of the first row.
pub open spec fn shape_of(pattern: Seq<Seq<char>>) -> GridView {
    GridView {
        cols: pattern[0].len(),
        rows: Seq::new(
            pattern.len(),
            |j: int| Seq::new(pattern[0].len(), |i: int| cell_of(pattern[j][i])),
        ),
    }
}

/// Whether a grid can serve as the shape of a piece: it is at least one
/// cell and at most [`MAX_SHAPE_EXTENT`] cells wide and tall, and holds at
/// least one block.
pub open spec fn is_shape(shape: GridView) -> bool {
    &&& shape.wf()
    &&& 0 < shape.cols <= MAX_SHAPE_EXTENT
    &&& 0 < shape.height() <= MAX_SHAPE_EXTENT
    &&& exists|i: int, j: int| shape.occupied(i, j)
}

/// The rows of a pattern as sequences of characters.
pub open spec fn pattern_of(s: Seq<&str>) -> Seq<Seq<char>> {
    Seq::new(s.len(), |j: int| s[j]@)
}

/// Reads a shape from a pattern of equally long rows, in which `#` marks a
/// block.
pub fn parse_tetromino(s: &[&str]) -> (g: Grid)
    requires
        s@.len() > 0,
        s@[0]@.len() > 0,
        forall|j: int| 0 <= j < s@.len() ==> (#[trigger] s@[j])@.len() == s@[0]@.len(),
        s@.len() * s@[0]@.len() <= usize::MAX,
    ensures
        g@ == shape_of(pattern_of(s@)),
{
    let rows = s.len();
    let cols = s[0].unicode_len();
    let ghost pattern = pattern_of(s@);

    let mut cells: Vec<Option<Block>> = Vec::new();
    let mut j: usize = 0;
    while j < rows
        invariant
            0 < cols,
            rows == s@.len(),
            rows * cols <= usize::MAX,
            pattern == pattern_of(s@),
            forall|r: int| 0 <= r < rows ==> (#[trigger] s@[r])@.len() == cols,
            j <= rows,
            cells@.len() == j * cols,
            forall|k: int|
                0 <= k < cells@.len() ==> #[trigger] cells@[k] == cell_of(
                    pattern[k / cols as int][k % cols as int],
                ),
        decreases rows - j,
    {
        let row = s[j];
        let mut i: usize = 0;
        while i < cols
            invariant
                0 < cols,
                j < rows,
                rows == s@.len(),
                rows * cols <= usize::MAX,
                pattern == pattern_of(s@),
                row@ == s@[j as int]@,
                row@.len() == cols,
                i <= cols,
                cells@.len() == i + j * cols,
                forall|k: int|
                    0 <= k < cells@.len() ==> #[trigger] cells@[k] == cell_of(
                        pattern[k / cols as int][k % cols as int],
                    ),
            decreases cols - i,
        {
            let c = row.get_char(i);
            proof {
                lemma_scan_reaches(i as int, j as int, cols as int);
                crate::grid::lemma_cell_index(i as int, j as int, cols as int, rows as int);
                assert(rows * cols == cols * rows) by (nonlinear_arith);
            }
            cells.push(
                if c == '#' {
                    Some(Block)
                } else {
                    None
                },
            );
            i += 1;
        }
        proof {
            assert((j + 1) * cols == cols + j * cols) by (nonlinear_arith);
        }
        j += 1;
    }
    proof {
        assert(rows * cols == cols * rows) by (nonlinear_arith);
    }
    let g = Grid::from_vec(cols, rows, cells);
    proof {
        let want = shape_of(pattern);
        assert forall|r: int| 0 <= r < rows implies g@.rows[r] == want.rows[r] by {
            assert forall|i: int| 0 <= i < cols implies g@.rows[r][i] == want.rows[r][i] by {
                lemma_scan_reaches(i, r, cols as int);
                crate::grid::lemma_cell_index(i, r, cols as int, rows as int);
                assert(rows * cols == cols * rows) by (nonlinear_arith);
            }
            assert(g@.rows[r] =~= want.rows[r]);
        }
        assert(g@.rows =~= want.rows);
    }
    g
}

/// The patterns of the seven standard shapes.
pub open spec fn standard_patterns() -> Seq<Seq<Seq<char>>> {
    seq![
        seq![" #  "@, " #  "@, " #  "@, " #  "@],
        seq!["##"@, "##"@],
        seq![" # "@, " # "@, "## "@],
        seq![" # "@, " # "@, " ##"@],
        seq!["   "@, "###"@, " # "@],
        seq![" # "@, " ##"@, "  #"@],
        seq![" # "@, "## "@, "#  "@],
    ]
}

/// The seven standard shapes, in the order of [`standard_patterns`].
pub open spec fn standard_shapes() -> Seq<GridView> {
    Seq::new(7, |k: int| shape_of(standard_patterns()[k]))
}

/// The shapes that pieces are made of. It is never empty, and each of its
/// grids is a shape in the sense of [`is_shape`].
pub struct Catalog {
    shapes: Vec<Grid>,
}

impl View for Catalog {
    type V = Seq<GridView>;

    closed spec fn view(&self) -> Seq<GridView> {
        Seq::new(self.shapes@.len(), |k: int| self.shapes@[k]@)
    }
}

impl Catalog {
    #[verifier::type_invariant]
    spec fn inv(&self) -> bool {
        &&& self.shapes@.len() > 0
        &&& forall|k: int| 0 <= k < self.shapes@.len() ==> is_shape(#[trigger] self.shapes@[k]@)
    }

    /// The catalog of the seven standard shapes.
    pub fn standard() -> (c: Catalog)
        ensures
            c@ == standard_shapes(),
    {
        proof {
            reveal_strlit(" #  ");
            reveal_strlit("##");
            reveal_strlit(" # ");
            reveal_strlit("## ");
            reveal_strlit(" ##");
            reveal_strlit("   ");
            reveal_strlit("###");
            reveal_strlit("  #");
            reveal_strlit("#  ");
        }
        let mut shapes: Vec<Grid> = Vec::new();
        let bar_rows: [&str; 4] = [" #  ", " #  ", " #  ", " #  "];
        let bar = parse_tetromino(&bar_rows);
        proof {
            assert(pattern_of(bar_rows@) =~= standard_patterns()[0]);
            assert(bar@.occupied(1, 0));
            bar.lemma_view_wf();
        }
        shapes.push(bar);
        let square_rows: [&str; 2] = ["##", "##"];
        let square = parse_tetromino(&square_rows);
        proof {
            assert(pattern_of(square_rows@) =~= standard_patterns()[1]);
            assert(square@.occupied(0, 0));
            square.lemma_view_wf();
        }
        shapes.push(square);
        let hook_left_rows: [&str; 3] = [" # ", " # ", "## "];
        let hook_left = parse_tetromino(&hook_left_rows);
        proof {
            assert(pattern_of(hook_left_rows@) =~= standard_patterns()[2]);
            assert(hook_left@.occupied(1, 0));
            hook_left.lemma_view_wf();
        }
        shapes.push(hook_left);
        let hook_right_rows: [&str; 3] = [" # ", " # ", " ##"];
        let hook_right = parse_tetromino(&hook_right_rows);
        proof {
            assert(pattern_of(hook_right_rows@) =~= standard_patterns()[3]);
            assert(hook_right@.occupied(1, 0));
            hook_right.lemma_view_wf();
        }
        shapes.push(hook_right);
        let tee_rows: [&str; 3] = ["   ", "###", " # "];
        let tee = parse_tetromino(&tee_rows);
        proof {
            assert(pattern_of(tee_rows@) =~= standard_patterns()[4]);
            assert(tee@.occupied(0, 1));
            tee.lemma_view_wf();
        }
        shapes.push(tee);
        let step_right_rows: [&str; 3] = [" # ", " ##", "  #"];
        let step_right = parse_tetromino(&step_right_rows);
        proof {
            assert(pattern_of(step_right_rows@) =~= standard_patterns()[5]);
            assert(step_right@.occupied(1, 0));
            step_right.lemma_view_wf();
        }
        shapes.push(step_right);
        let step_left_rows: [&str; 3] = [" # ", "## ", "#  "];
        let step_left = parse_tetromino(&step_left_rows);
        proof {
            assert(pattern_of(step_left_rows@) =~= standard_patterns()[6]);
            assert(step_left@.occupied(1, 0));
            step_left.lemma_view_wf();
        }
        shapes.push(step_left);
        let c = Catalog { shapes };
        proof {
            assert(c@ =~= standard_shapes());
        }
        c
    }

    /// The number of shapes, which is never zero.
    pub fn len(&self) -> (n: usize)
        ensures
            n == self@.len(),
            n > 0,
    {
        proof {
            use_type_invariant(self);
        }
        self.shapes.len()
    }

    /// The `k`-th shape.
    pub fn shape(&self, k: usize) -> (g: &Grid)
        requires
            k < self@.len(),
        ensures
            g@ == self@[k as int],
            is_shape(g@),
    {
        proof {
            use_type_invariant(self);
        }
        &self.shapes[k]
    }

    /// All shapes, in order.
    pub fn shapes(&self) -> (all: &[Grid])
        ensures
            all@.len() == self@.len(),
            all@.len() > 0,
            forall|k: int|
                0 <= k < all@.len() ==> (#[trigger] all@[k])@ == self@[k] && is_shape(all@[k]@),
    {
        proof {
            use_type_invariant(self);
        }
        self.shapes.as_slice()
    }
}

} // verus!
