//! The piece that is falling: a shape with a place on the board and a
//! rotation.

use crate::grid::{lemma_cell_index, lemma_scan_reaches, Grid, GridView};
use crate::math::{
    lemma_apply_permutes, lemma_inverse_undoes_apply, lemma_rotations_form_group, Matrix2,
    Rotation,
};
use crate::tetromino::{is_shape, Block, MAX_SHAPE_EXTENT};
use vstd::prelude::*;

verus! {

/// The farthest from the board's origin, in columns or rows, that the
/// arithmetic on a piece is shown to stay within `isize`.
pub const MAX_COORD: isize = 0x1000_0000;

/// The farthest from the origin that a point handed to the two transforms
/// may lie, in columns or rows.
pub const MAX_POINT: isize = 0x4000_0000;

/// The shifts that a rotation tries in turn, after its correction for the
/// walls: none, left, right, and the same three one row up.
pub open spec fn kicks() -> Seq<(int, int)> {
    seq![(0, 0), (-1, 0), (1, 0), (-1, -1), (0, -1), (1, -1)]
}

/// The model of a [`FallingTetromino`].
pub struct Piece {
    pub shape: GridView,
    pub col: int,
    pub row: int,
    pub rot: Matrix2,
}

impl Piece {
    /// The cell of the shape that rotations turn about.
    pub open spec fn center(self) -> (int, int) {
        (self.shape.cols as int / 2, self.shape.height() as int / 2)
    }

    /// The place on the board of the shape's cell `p`: `p` is taken relative
    /// to the center, turned back by the inverse of the rotation, taken
    /// relative to the shape's corner again and shifted by the anchor.
    pub open spec fn local_to_global(self, p: (int, int)) -> (int, int) {
        let c = self.center();
        let q = self.rot.inverse().apply((p.0 - c.0, p.1 - c.1));
        (q.0 + c.0 + self.col, q.1 + c.1 + self.row)
    }

    /// The cell of the shape that lies at the place `p` of the board: the
    /// anchor and the center are taken off, the rotation is applied, and the
    /// center is added back.
    pub open spec fn global_to_local(self, p: (int, int)) -> (int, int) {
        let c = self.center();
        let q = self.rot.apply((p.0 - self.col - c.0, p.1 - self.row - c.1));
        (q.0 + c.0, q.1 + c.1)
    }

    /// Whether the piece has a block at column `i`, row `j` of the board.
    pub open spec fn covers(self, i: int, j: int) -> bool {
        let l = self.global_to_local((i, j));
        self.shape.occupied(l.0, l.1)
    }

    /// Whether the shape's cell `(li, lj)`, shifted by `(dx, dy)` from
    /// where it is now, lies above the board's floor, between its walls and
    /// on no block of the board.
    pub open spec fn cell_fits(self, board: GridView, li: int, lj: int, dx: int, dy: int) -> bool {
        let g = self.local_to_global((li, lj));
        &&& g.1 + dy < board.height()
        &&& 0 <= g.0 + dx < board.cols
        &&& !board.occupied(g.0 + dx, g.1 + dy)
    }

    /// Whether every block of the piece fits on the board once shifted by
    /// `(dx, dy)`.
    pub open spec fn fits(self, board: GridView, dx: int, dy: int) -> bool {
        forall|li: int, lj: int| #[trigger]
            self.shape.occupied(li, lj) ==> self.cell_fits(board, li, lj, dx, dy)
    }

    /// The piece shifted by `(dx, dy)`.
    pub open spec fn moved(self, dx: int, dy: int) -> Piece {
        Piece { col: self.col + dx, row: self.row + dy, ..self }
    }

    /// The piece turned by a quarter to the right, about its center.
    pub open spec fn turned(self) -> Piece {
        Piece { rot: self.rot.rotate_right(), ..self }
    }

    /// The correction for the walls of a board `cols` wide, as it stands
    /// after the first `n` cells of the shape in scan order. It starts at
    /// zero. A block left of the board raises it to the distance of that
    /// block from column zero, if it is lower. A block right of the board
    /// lowers it to the negated distance of that block from the last
    /// column, if it is higher.
    pub open spec fn wall_shift(self, cols: nat, n: nat) -> int
        decreases n,
    {
        if n == 0 {
            0
        } else {
            let dx = self.wall_shift(cols, (n - 1) as nat);
            let at = self.shape.scan(n - 1);
            let gi = self.local_to_global(at).0;
            if !self.shape.occupied(at.0, at.1) {
                dx
            } else if gi < 0 && dx < -gi {
                -gi
            } else if gi >= cols && dx > cols - 1 - gi {
                cols - 1 - gi
            } else {
                dx
            }
        }
    }

    /// Whether the `k`-th cell of the shape in scan order holds a block.
    pub open spec fn scan_block(self, k: int) -> bool {
        let at = self.shape.scan(k);
        self.shape.occupied(at.0, at.1)
    }

    /// The column of the board in which the `k`-th cell of the shape in scan
    /// order lies.
    pub open spec fn scan_column(self, k: int) -> int {
        self.local_to_global(self.shape.scan(k)).0
    }

    /// The piece shifted sideways by `dx`.
    pub open spec fn shifted(self, dx: int) -> Piece {
        self.moved(dx, 0)
    }

    /// Whether each block among the first `n` cells of the shape in scan
    /// order lies in a column of the board left of `bound`.
    pub open spec fn columns_below(self, n: nat, bound: int) -> bool {
        forall|k: int| 0 <= k < n && #[trigger] self.scan_block(k) ==> self.scan_column(k) < bound
    }

    /// Whether each block among the first `n` cells of the shape in scan
    /// order lies in column `bound` of the board or right of it.
    pub open spec fn columns_from(self, n: nat, bound: int) -> bool {
        forall|k: int| 0 <= k < n && #[trigger] self.scan_block(k) ==> self.scan_column(k) >= bound
    }

    /// Whether some block among the first `n` cells of the shape in scan
    /// order lies in column `column` of the board.
    pub open spec fn reaches_column(self, n: nat, column: int) -> bool {
        exists|k: int| 0 <= k < n && #[trigger] self.scan_block(k) && self.scan_column(k) == column
    }

    /// The piece that a rotation tries to place: turned by a quarter to the
    /// right and shifted sideways by the correction for the walls.
    pub open spec fn kick_candidate(self, board: GridView) -> Piece {
        let t = self.turned();
        t.shifted(t.wall_shift(board.cols, t.shape.area()))
    }

    /// Whether the `k`-th kick is the first with which the piece fits on
    /// the board.
    pub open spec fn accepts_kick(self, board: GridView, k: int) -> bool {
        &&& 0 <= k < kicks().len()
        &&& self.fits(board, kicks()[k].0, kicks()[k].1)
        &&& forall|e: int| 0 <= e < k ==> !self.fits(board, #[trigger] kicks()[e].0, kicks()[e].1)
    }

    /// The piece after a rotation on `board`: the candidate shifted by the
    /// first kick with which it fits, or the piece as it was if it fits with
    /// none.
    pub open spec fn rotated(self, board: GridView) -> Piece {
        let c = self.kick_candidate(board);
        if exists|k: int| c.accepts_kick(board, k) {
            let k = choose|k: int| c.accepts_kick(board, k);
            c.moved(kicks()[k].0, kicks()[k].1)
        } else {
            self
        }
    }

    /// The piece as it enters a board `board_cols` wide: not rotated,
    /// centered between the walls, and with its whole shape above the top
    /// row.
    pub open spec fn spawned(shape: GridView, board_cols: nat) -> Piece {
        Piece {
            shape,
            col: board_cols as int / 2 - shape.cols as int / 2,
            row: -(shape.height() as int),
            rot: Matrix2::identity(),
        }
    }

    /// Whether no block of the piece lies on a block of the board.
    pub open spec fn clear_of(self, board: GridView) -> bool {
        forall|i: int, j: int| !(self.covers(i, j) && #[trigger] board.occupied(i, j))
    }

    /// The board after the piece has settled on it: where the piece has a
    /// block inside the board the cell holds that block, and every other
    /// cell is as it was.
    pub open spec fn merged_into(self, board: GridView) -> GridView {
        GridView {
            cols: board.cols,
            rows: Seq::new(
                board.height(),
                |j: int|
                    Seq::new(
                        board.cols,
                        |i: int|
                            if self.covers(i, j) {
                                let l = self.global_to_local((i, j));
                                self.shape.at(l.0, l.1)
                            } else {
                                board.rows[j][i]
                            },
                    ),
            ),
        }
    }

    /// Whether the rotation is one of the four quarter turns and the shape
    /// and the anchor are within the limits that keep the arithmetic inside
    /// `isize`.
    pub open spec fn in_range(self) -> bool {
        &&& self.rot.is_rotation()
        &&& self.shape.cols <= MAX_SHAPE_EXTENT
        &&& self.shape.height() <= MAX_SHAPE_EXTENT
        &&& -MAX_COORD <= self.col <= MAX_COORD
        &&& -MAX_COORD <= self.row <= MAX_COORD
    }
}

/// Turning a cell of the shape into a place on the board and back gives
/// the cell again, and the other way round the place, whatever the anchor
/// and for each of the four rotations.
pub proof fn lemma_local_global_inverse(piece: Piece, p: (int, int))
    requires
        piece.rot.is_rotation(),
    ensures
        piece.global_to_local(piece.local_to_global(p)) == p,
        piece.local_to_global(piece.global_to_local(p)) == p,
{
    let c = piece.center();
    lemma_inverse_undoes_apply(piece.rot, (p.0 - c.0, p.1 - c.1));
    lemma_inverse_undoes_apply(piece.rot, (p.0 - piece.col - c.0, p.1 - piece.row - c.1));
}

/// A block of the piece lies at the place where `local_to_global` puts it,
/// and at no place that it puts no block.
pub proof fn lemma_covers_image(piece: Piece, i: int, j: int)
    requires
        piece.rot.is_rotation(),
    ensures
        piece.covers(i, j) <==> exists|li: int, lj: int| #[trigger]
            piece.shape.occupied(li, lj) && piece.local_to_global((li, lj)) == (i, j),
{
    let l = piece.global_to_local((i, j));
    lemma_local_global_inverse(piece, (i, j));
    if piece.covers(i, j) {
        assert(piece.shape.occupied(l.0, l.1) && piece.local_to_global((l.0, l.1)) == (i, j));
    }
    if exists|li: int, lj: int| #[trigger]
        piece.shape.occupied(li, lj) && piece.local_to_global((li, lj)) == (i, j) {
        let (li, lj) = choose|li: int, lj: int| #[trigger]
            piece.shape.occupied(li, lj) && piece.local_to_global((li, lj)) == (i, j);
        lemma_local_global_inverse(piece, (li, lj));
    }
}

/// A piece that fits on the board with a shift lies, once shifted, on no
/// block of the board, no farther than its shape's extent beyond the walls,
/// and no farther than that below the floor.
pub proof fn lemma_fits_places(piece: Piece, board: GridView, dx: int, dy: int)
    requires
        piece.rot.is_rotation(),
        is_shape(piece.shape),
        piece.fits(board, dx, dy),
    ensures
        piece.moved(dx, dy).clear_of(board),
        -MAX_SHAPE_EXTENT <= piece.col + dx <= board.cols + MAX_SHAPE_EXTENT,
        piece.row + dy <= board.height() + MAX_SHAPE_EXTENT,
{
    let after = piece.moved(dx, dy);
    assert forall|i: int, j: int| !(after.covers(i, j) && #[trigger] board.occupied(i, j)) by {
        if after.covers(i, j) {
            let l = after.global_to_local((i, j));
            lemma_local_global_inverse(after, (i, j));
            assert(piece.shape.occupied(l.0, l.1));
            assert(piece.cell_fits(board, l.0, l.1, dx, dy));
        }
    }
    let (li, lj) = choose|li: int, lj: int| piece.shape.occupied(li, lj);
    assert(piece.shape.occupied(li, lj));
    assert(piece.cell_fits(board, li, lj, dx, dy));
    lemma_cell_offset(piece, li, lj);
}

/// A piece that has just entered lies wholly above the board, and so on
/// none of its blocks.
pub proof fn lemma_spawned_is_clear(shape: GridView, board: GridView)
    requires
        shape.wf(),
    ensures
        Piece::spawned(shape, board.cols).clear_of(board),
        forall|i: int, j: int| Piece::spawned(shape, board.cols).covers(i, j) ==> j < 0,
{
    let piece = Piece::spawned(shape, board.cols);
    assert forall|i: int, j: int| piece.covers(i, j) implies j < 0 by {
        let l = piece.global_to_local((i, j));
        assert(shape.contains(l.0, l.1));
    }
}

/// A rotation keeps the shape and leaves a rotation. Unless it leaves the
/// piece as it was, the piece then lies on no block of the board and no
/// farther than its shape's extent beyond the walls or below the floor, and
/// it has risen by a row only if it lay no higher than that extent above
/// the top row.
pub proof fn lemma_rotated_places(piece: Piece, board: GridView)
    requires
        piece.rot.is_rotation(),
        is_shape(piece.shape),
    ensures
        ({
            let after = piece.rotated(board);
            &&& after.shape == piece.shape
            &&& after.rot.is_rotation()
            &&& after == piece || {
                &&& after.rot == piece.rot.rotate_right()
                &&& after.clear_of(board)
                &&& -MAX_SHAPE_EXTENT <= after.col <= board.cols + MAX_SHAPE_EXTENT
                &&& after.row <= board.height() + MAX_SHAPE_EXTENT
                &&& after.row == piece.row || (after.row == piece.row - 1 && piece.row
                    >= -MAX_SHAPE_EXTENT)
            }
        }),
{
    let cand = piece.kick_candidate(board);
    lemma_rotations_form_group(piece.rot, piece.rot);
    if exists|k: int| cand.accepts_kick(board, k) {
        let k = choose|k: int| cand.accepts_kick(board, k);
        let (kx, ky) = kicks()[k];
        lemma_fits_places(cand, board, kx, ky);
        if k >= 3 {
            // the kick with the same shift sideways and none upwards came earlier
            let e: int = if k == 3 {
                1
            } else if k == 4 {
                0
            } else {
                2
            };
            let level = kicks()[e];
            assert(level == (kx, 0int) && ky == -1);
            assert(!cand.fits(board, level.0, level.1));
            let (li, lj) = choose|li: int, lj: int| #[trigger]
                cand.shape.occupied(li, lj) && !cand.cell_fits(board, li, lj, kx, 0);
            assert(cand.cell_fits(board, li, lj, kx, ky));
            lemma_cell_offset(cand, li, lj);
        }
    }
}

/// The correction for the walls after the first `n` cells, where none of
/// those cells holds a block right of the board: it is the least shift to
/// the right that brings each of their blocks to column zero or beyond.
/// Where none holds a block left of the board it is, likewise, the least
/// shift to the left that brings each block to the last column or before.
pub proof fn lemma_wall_shift_among(piece: Piece, cols: nat, n: nat)
    ensures
        ({
            let dx = piece.wall_shift(cols, n);
            &&& piece.columns_below(n, cols as int) ==> {
                &&& dx >= 0
                &&& piece.shifted(dx).columns_from(n, 0)
                &&& dx == 0 || piece.shifted(dx).reaches_column(n, 0)
            }
            &&& piece.columns_from(n, 0) ==> {
                &&& dx <= 0
                &&& piece.shifted(dx).columns_below(n, cols as int)
                &&& dx == 0 || piece.shifted(dx).reaches_column(n, cols - 1)
            }
        }),
    decreases n,
{
    if n > 0 {
        let m = (n - 1) as nat;
        lemma_wall_shift_among(piece, cols, m);
        let dx = piece.wall_shift(cols, n);
        let before = piece.wall_shift(cols, m);
        let after = piece.shifted(dx);
        assert forall|k: int| #[trigger] after.scan_block(k) == piece.scan_block(k)
            && after.scan_column(k) == piece.scan_column(k) + dx by {}
        assert forall|k: int| #[trigger] piece.shifted(before).scan_block(k) == piece.scan_block(k)
            && piece.shifted(before).scan_column(k) == piece.scan_column(k) + before by {}
        if piece.columns_below(n, cols as int) {
            assert(piece.columns_below(m, cols as int));
            assert(piece.scan_block(m as int) ==> piece.scan_column(m as int) < cols);
            assert(dx >= before);
            assert forall|k: int| 0 <= k < n && #[trigger] after.scan_block(k) implies
                after.scan_column(k) >= 0 by {
                assert(piece.scan_block(k));
                if k < m {
                    assert(piece.shifted(before).scan_block(k));
                }
            }
            if dx != 0 {
                if dx == before {
                    let w = choose|k: int|
                        0 <= k < m && #[trigger] piece.shifted(before).scan_block(k)
                            && piece.shifted(before).scan_column(k) == 0;
                    assert(after.scan_block(w) && after.scan_column(w) == 0);
                } else {
                    assert(after.scan_block(m as int) && after.scan_column(m as int) == 0);
                }
            }
        }
        if piece.columns_from(n, 0) {
            assert(piece.columns_from(m, 0));
            assert(piece.scan_block(m as int) ==> piece.scan_column(m as int) >= 0);
            assert(dx <= before);
            assert forall|k: int| 0 <= k < n && #[trigger] after.scan_block(k) implies
                after.scan_column(k) < cols by {
                assert(piece.scan_block(k));
                if k < m {
                    assert(piece.shifted(before).scan_block(k));
                }
            }
            if dx != 0 {
                if dx == before {
                    let w = choose|k: int|
                        0 <= k < m && #[trigger] piece.shifted(before).scan_block(k)
                            && piece.shifted(before).scan_column(k) == cols - 1;
                    assert(after.scan_block(w) && after.scan_column(w) == cols - 1);
                } else {
                    assert(after.scan_block(m as int) && after.scan_column(m as int) == cols - 1);
                }
            }
        }
    }
}

/// The sideways shift of the piece that a rotation tries to place. Where
/// the turned piece has no block right of the board, the shift is the least
/// one to the right that leaves no block left of the board: none if there
/// was no such block, else one that brings some block to column zero. Where
/// it has no block left of the board, the shift is the least one to the
/// left that leaves no block right of the board.
pub proof fn lemma_kick_candidate_clears_walls(piece: Piece, board: GridView)
    ensures
        ({
            let turned = piece.turned();
            let cand = piece.kick_candidate(board);
            let dx = cand.col - piece.col;
            let n = piece.shape.area();
            &&& cand == turned.shifted(dx)
            &&& turned.columns_below(n, board.cols as int) ==> {
                &&& dx >= 0
                &&& cand.columns_from(n, 0)
                &&& dx == 0 || cand.reaches_column(n, 0)
            }
            &&& turned.columns_from(n, 0) ==> {
                &&& dx <= 0
                &&& cand.columns_below(n, board.cols as int)
                &&& dx == 0 || cand.reaches_column(n, board.cols - 1)
            }
        }),
{
    lemma_wall_shift_among(piece.turned(), board.cols, piece.shape.area());
}

/// Every block of a shape is one of its cells in scan order, so that what
/// holds of the column of each block among all cells in scan order holds of
/// each block of the piece.
pub proof fn lemma_columns_of_blocks(piece: Piece, li: int, lj: int)
    requires
        piece.shape.occupied(li, lj),
    ensures
        ({
            let n = piece.shape.area();
            let column = piece.local_to_global((li, lj)).0;
            &&& forall|bound: int| piece.columns_below(n, bound) ==> column < bound
            &&& forall|bound: int| piece.columns_from(n, bound) ==> column >= bound
        }),
{
    let shape = piece.shape;
    let k = li + lj * shape.cols;
    lemma_cell_index(li, lj, shape.cols as int, shape.height() as int);
    lemma_scan_reaches(li, lj, shape.cols as int);
    assert(piece.scan_block(k) && piece.scan_column(k) == piece.local_to_global((li, lj)).0);
}

/// A rotation can be applied to every vector whose coordinates have a
/// negative in `isize`, without leaving `isize`.
pub proof fn lemma_rotation_applies(r: Rotation, v: [isize; 2])
    requires
        r@.is_rotation(),
        v[0] > isize::MIN,
        v[1] > isize::MIN,
    ensures
        r.can_apply(v),
{
    let m = r@;
    let (x, y) = (v[0] as int, v[1] as int);
    assert(x * m.m00 == 0 || x * m.m00 == x || x * m.m00 == -x) by (nonlinear_arith)
        requires
            m.m00 == 0 || m.m00 == 1 || m.m00 == -1,
    ;
    assert(y * m.m01 == 0 || y * m.m01 == y || y * m.m01 == -y) by (nonlinear_arith)
        requires
            m.m01 == 0 || m.m01 == 1 || m.m01 == -1,
    ;
    assert(x * m.m10 == 0 || x * m.m10 == x || x * m.m10 == -x) by (nonlinear_arith)
        requires
            m.m10 == 0 || m.m10 == 1 || m.m10 == -1,
    ;
    assert(y * m.m11 == 0 || y * m.m11 == y || y * m.m11 == -y) by (nonlinear_arith)
        requires
            m.m11 == 0 || m.m11 == 1 || m.m11 == -1,
    ;
    lemma_apply_permutes(m, (x, y));
}

/// A shape with a place on the board and a rotation. The shape is shared:
/// the piece holds a reference to it.
#[derive(Clone, Copy)]
pub struct FallingTetromino<'a> {
    pub tetromino: &'a Grid,
    pub col: isize,
    pub row: isize,
    pub rotation: Rotation,
}

impl<'a> View for FallingTetromino<'a> {
    type V = Piece;

    open spec fn view(&self) -> Piece {
        Piece {
            shape: self.tetromino@,
            col: self.col as int,
            row: self.row as int,
            rot: self.rotation@,
        }
    }
}

/// Whether `x` is at least `n`.
fn reaches(x: isize, n: usize) -> (r: bool)
    ensures
        r == (x >= n),
{
    x >= 0 && x as usize >= n
}

impl<'a> FallingTetromino<'a> {
    /// The place on the board of the shape's cell `p`.
    pub fn local_to_global(&self, p: [isize; 2]) -> (g: [isize; 2])
        requires
            self@.in_range(),
            -MAX_POINT <= p[0] <= MAX_POINT,
            -MAX_POINT <= p[1] <= MAX_POINT,
        ensures
            (g[0] as int, g[1] as int) == self@.local_to_global((p[0] as int, p[1] as int)),
    {
        let ci = (self.tetromino.cols() / 2) as isize;
        let cj = (self.tetromino.rows() / 2) as isize;
        let back = self.rotation.inverse();
        let v = [p[0] - ci, p[1] - cj];
        proof {
            lemma_rotations_form_group(self.rotation@, self.rotation@);
            lemma_rotation_applies(back, v);
            lemma_apply_permutes(back@, (v[0] as int, v[1] as int));
        }
        let q = back * v;
        [q[0] + ci + self.col, q[1] + cj + self.row]
    }

    /// The cell of the shape that lies at the place `p` of the board.
    pub fn global_to_local(&self, p: [isize; 2]) -> (l: [isize; 2])
        requires
            self@.in_range(),
            -MAX_POINT <= p[0] <= MAX_POINT,
            -MAX_POINT <= p[1] <= MAX_POINT,
        ensures
            (l[0] as int, l[1] as int) == self@.global_to_local((p[0] as int, p[1] as int)),
    {
        let ci = (self.tetromino.cols() / 2) as isize;
        let cj = (self.tetromino.rows() / 2) as isize;
        let v = [p[0] - self.col - ci, p[1] - self.row - cj];
        proof {
            lemma_rotation_applies(self.rotation, v);
            lemma_apply_permutes(self.rotation@, (v[0] as int, v[1] as int));
        }
        let q = self.rotation * v;
        [q[0] + ci, q[1] + cj]
    }

    /// The block of the piece at column `i`, row `j` of the board, if it has
    /// one there.
    pub fn get(&self, i: usize, j: usize) -> (cell: Option<&Block>)
        requires
            self@.in_range(),
            i <= MAX_POINT,
            j <= MAX_POINT,
        ensures
            cell is Some <==> self@.covers(i as int, j as int),
            cell matches Some(block) ==> ({
                let l = self@.global_to_local((i as int, j as int));
                self@.shape.at(l.0, l.1) == Some(*block)
            }),
    {
        let l = self.global_to_local([i as isize, j as isize]);
        self.tetromino.get(l[0], l[1])
    }

    /// Shifts the piece by `(dx, dy)` if every one of its blocks then lies
    /// above the floor of `board`, between its walls and on no block of it;
    /// otherwise leaves the piece as it is. Says whether the piece moved.
    pub fn try_move(&mut self, dx: isize, dy: isize, board: &Grid) -> (moved: bool)
        requires
            old(self)@.in_range(),
            -MAX_COORD <= dx <= MAX_COORD,
            -MAX_COORD <= dy <= MAX_COORD,
        ensures
            moved == old(self)@.fits(board@, dx as int, dy as int),
            moved ==> final(self)@ == old(self)@.moved(dx as int, dy as int),
            !moved ==> *final(self) == *old(self),
            final(self).tetromino == old(self).tetromino,
            final(self).rotation == old(self).rotation,
    {
        let ghost piece = self@;
        let ghost shape = self.tetromino@;
        let mut cells = self.tetromino.cell_indices();
        loop
            invariant
                *self == *old(self),
                piece == self@,
                shape == self.tetromino@,
                piece.in_range(),
                -MAX_COORD <= dx <= MAX_COORD,
                -MAX_COORD <= dy <= MAX_COORD,
                cells.grid() == shape,
                forall|k: int|
                    0 <= k < cells.pos() ==> {
                        let at = #[trigger] shape.scan(k);
                        shape.occupied(at.0, at.1) ==> piece.cell_fits(
                            board@,
                            at.0,
                            at.1,
                            dx as int,
                            dy as int,
                        )
                    },
            ensures
                cells.pos() >= shape.area(),
            decreases shape.area() - cells.pos(),
        {
            match cells.next() {
                None => {
                    break ;
                },
                Some((i, j, falling_block)) => {
                    let g = self.local_to_global([i as isize, j as isize]);
                    proof {
                        lemma_cell_offset(piece, i as int, j as int);
                    }
                    if falling_block.is_some() {
                        if reaches(g[1] + dy, board.rows()) || g[0] + dx < 0 || reaches(
                            g[0] + dx,
                            board.cols(),
                        ) || board.get(g[0] + dx, g[1] + dy).is_some() {
                            proof {
                                assert(shape.occupied(i as int, j as int));
                                assert(!piece.cell_fits(
                                    board@,
                                    i as int,
                                    j as int,
                                    dx as int,
                                    dy as int,
                                ));
                            }
                            return false;
                        }
                    }
                },
            }
        }
        proof {
            assert forall|li: int, lj: int| #[trigger] shape.occupied(li, lj) implies
                piece.cell_fits(board@, li, lj, dx as int, dy as int) by {
                lemma_cell_index(li, lj, shape.cols as int, shape.height() as int);
                lemma_scan_reaches(li, lj, shape.cols as int);
                assert(shape.scan(li + lj * shape.cols) == (li, lj));
            }
        }
        self.col += dx;
        self.row += dy;

        true
    }

    /// Turns the piece by a quarter to the right if it can be placed on
    /// `board` that way: the turned piece is first shifted sideways by the
    /// correction for the walls, then tried with each kick in turn. With the
    /// first kick that fits the piece takes the new rotation and place. If
    /// none fits the piece stays as it is.
    pub fn rotate(&mut self, board: &Grid)
        requires
            old(self)@.in_range(),
        ensures
            final(self)@ == old(self)@.rotated(board@),
            final(self).tetromino == old(self).tetromino,
    {
        let mut new = *self;
        proof {
            lemma_rotations_form_group(self.rotation@, self.rotation@);
        }
        new.rotation = new.rotation.rotate_90deg_right();
        let ghost turned = new@;
        let ghost shape = new.tetromino@;
        let ghost cols = board@.cols;

        // the least shift sideways that keeps the blocks between the walls
        let mut dx: isize = 0;
        let mut cells = new.tetromino.cell_indices();
        loop
            invariant
                new@ == turned,
                turned == old(self)@.turned(),
                turned.in_range(),
                shape == turned.shape,
                cols == board@.cols,
                cells.grid() == shape,
                cells.pos() <= shape.area(),
                dx == turned.wall_shift(cols, cells.pos()),
                -1 - MAX_SHAPE_EXTENT - turned.col <= dx || 0 <= dx,
                dx <= MAX_SHAPE_EXTENT - turned.col || dx <= 0,
            ensures
                cells.pos() == shape.area(),
            decreases shape.area() - cells.pos(),
        {
            match cells.next() {
                None => {
                    break ;
                },
                Some((i, j, falling_block)) => {
                    let g = new.local_to_global([i as isize, j as isize]);
                    proof {
                        lemma_cell_offset(turned, i as int, j as int);
                    }
                    if falling_block.is_some() {
                        if g[0] < 0 {
                            if dx < -g[0] {
                                dx = -g[0];
                            }
                        }
                        if reaches(g[0], board.cols()) {
                            let room = board.cols() as isize - 1 - g[0];
                            if dx > room {
                                dx = room;
                            }
                        }
                    }
                },
            }
        }

        new.col += dx;
        let ghost cand = new@;
        assert(cand == old(self)@.kick_candidate(board@));

        // the kicks, in the order in which they are tried
        let offsets: [(isize, isize); 6] = [(0, 0), (-1, 0), (1, 0), (-1, -1), (0, -1), (1, -1)];
        let mut k: usize = 0;
        while k < 6
            invariant
                *self == *old(self),
                new@ == cand,
                new.tetromino == self.tetromino,
                cand.in_range(),
                cand == old(self)@.kick_candidate(board@),
                k <= 6,
                forall|e: int|
                    0 <= e < 6 ==> (#[trigger] offsets[e]).0 == kicks()[e].0 && offsets[e].1
                        == kicks()[e].1,
                forall|e: int|
                    0 <= e < k ==> !cand.fits(board@, #[trigger] kicks()[e].0, kicks()[e].1),
            decreases 6 - k,
        {
            let (kx, ky) = offsets[k];
            if new.try_move(kx, ky, board) {
                *self = new;
                proof {
                    assert(cand.accepts_kick(board@, k as int));
                    let c = choose|c: int| cand.accepts_kick(board@, c);
                    assert(c == k) by {
                        if c < k {
                            assert(!cand.fits(board@, kicks()[c].0, kicks()[c].1));
                        }
                        if c > k {
                            assert(!cand.fits(board@, kicks()[k as int].0, kicks()[k as int].1));
                        }
                    }
                }
                return ;
            }
            k += 1;
        }
        proof {
            assert forall|c: int| !cand.accepts_kick(board@, c) by {
                if 0 <= c < 6 {
                    assert(!cand.fits(board@, kicks()[c].0, kicks()[c].1));
                }
            }
        }
    }
}

/// A cell inside the shape of a piece within range lies no farther than
/// the shape's larger extent from the piece's anchor, to either side.
pub proof fn lemma_cell_offset(piece: Piece, li: int, lj: int)
    requires
        piece.rot.is_rotation(),
        piece.shape.contains(li, lj),
    ensures
        ({
            let g = piece.local_to_global((li, lj));
            let reach = if piece.shape.cols >= piece.shape.height() {
                piece.shape.cols as int
            } else {
                piece.shape.height() as int
            };
            &&& -reach <= g.0 - piece.col <= reach
            &&& -reach <= g.1 - piece.row <= reach
        }),
{
    let c = piece.center();
    lemma_rotations_form_group(piece.rot, piece.rot);
    lemma_apply_permutes(piece.rot.inverse(), (li - c.0, lj - c.1));
}

} // verus!

