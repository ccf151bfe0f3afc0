//! Quarter-turn rotations as 2x2 integer matrices.

use vstd::prelude::*;

verus! {

/// A 2x2 matrix over the mathematical integers; the model of a [`Rotation`].
pub struct Matrix2 {
    pub m00: int,
    pub m01: int,
    pub m10: int,
    pub m11: int,
}

impl Matrix2 {
    /// The matrix that maps every vector to itself.
    pub open spec fn identity() -> Matrix2 {
        Matrix2 { m00: 1, m01: 0, m10: 0, m11: 1 }
    }

    /// The quarter turn to the right, `[[0, -1], [1, 0]]`.
    pub open spec fn quarter_right() -> Matrix2 {
        Matrix2 { m00: 0, m01: -1, m10: 1, m11: 0 }
    }

    /// The half turn, `[[-1, 0], [0, -1]]`.
    pub open spec fn half_turn() -> Matrix2 {
        Matrix2 { m00: -1, m01: 0, m10: 0, m11: -1 }
    }

    /// The quarter turn to the left, `[[0, 1], [-1, 0]]`.
    pub open spec fn quarter_left() -> Matrix2 {
        Matrix2 { m00: 0, m01: 1, m10: -1, m11: 0 }
    }

    /// The matrix product `self * rhs`.
    pub open spec fn compose(self, rhs: Matrix2) -> Matrix2 {
        Matrix2 {
            m00: rhs.m00 * self.m00 + rhs.m10 * self.m01,
            m01: rhs.m01 * self.m00 + rhs.m11 * self.m01,
            m10: rhs.m00 * self.m10 + rhs.m10 * self.m11,
            m11: rhs.m01 * self.m10 + rhs.m11 * self.m11,
        }
    }

    /// The matrix-vector product `self * v`.
    pub open spec fn apply(self, v: (int, int)) -> (int, int) {
        (v.0 * self.m00 + v.1 * self.m01, v.0 * self.m10 + v.1 * self.m11)
    }

    /// The adjugate: diagonal swapped, off-diagonal negated. For a matrix of
    /// determinant one this is its inverse.
    pub open spec fn inverse(self) -> Matrix2 {
        Matrix2 { m00: self.m11, m01: -self.m01, m10: -self.m10, m11: self.m00 }
    }

    /// One more quarter turn to the right, applied after `self`.
    pub open spec fn rotate_right(self) -> Matrix2 {
        Matrix2::quarter_right().compose(self)
    }

    /// Whether `self` is one of the four quarter-turn rotations.
    pub open spec fn is_rotation(self) -> bool {
        self == Matrix2::identity() || self == Matrix2::quarter_right() || self
            == Matrix2::half_turn() || self == Matrix2::quarter_left()
    }
}

/// Four quarter turns to the right bring every matrix back to itself, and
/// starting from the identity they pass through the quarter turn to the
/// right, the half turn and the quarter turn to the left.
pub proof fn lemma_four_quarter_turns(m: Matrix2)
    ensures
        m.rotate_right().rotate_right().rotate_right().rotate_right() == m,
        Matrix2::identity().rotate_right() == Matrix2::quarter_right(),
        Matrix2::quarter_right().rotate_right() == Matrix2::half_turn(),
        Matrix2::half_turn().rotate_right() == Matrix2::quarter_left(),
        Matrix2::quarter_left().rotate_right() == Matrix2::identity(),
{
}

/// Undoing one quarter turn to the right from the identity gives the
/// quarter turn to the left.
pub proof fn lemma_inverse_of_quarter_right()
    ensures
        Matrix2::identity().rotate_right().inverse() == Matrix2::quarter_left(),
{
}

/// The four rotations are closed under product, inversion and quarter
/// turns, and a rotation times its inverse is the identity on either side.
pub proof fn lemma_rotations_form_group(a: Matrix2, b: Matrix2)
    by (nonlinear_arith)
    requires
        a.is_rotation(),
        b.is_rotation(),
    ensures
        a.compose(b).is_rotation(),
        a.compose(b) == b.compose(a),
        a.inverse().is_rotation(),
        a.rotate_right().is_rotation(),
        a.compose(a.inverse()) == Matrix2::identity(),
        a.inverse().compose(a) == Matrix2::identity(),
{
}

/// Applying a rotation and then its inverse, in either order, gives back
/// the vector one started with.
pub proof fn lemma_inverse_undoes_apply(a: Matrix2, v: (int, int))
    by (nonlinear_arith)
    requires
        a.is_rotation(),
    ensures
        a.inverse().apply(a.apply(v)) == v,
        a.apply(a.inverse().apply(v)) == v,
{
}

/// A rotation maps a vector to its two coordinates in some order, each with
/// some sign.
pub proof fn lemma_apply_permutes(a: Matrix2, v: (int, int))
    requires
        a.is_rotation(),
    ensures
        a.apply(v) == v || a.apply(v) == (-v.1, v.0) || a.apply(v) == (-v.0, -v.1) || a.apply(v)
            == (v.1, -v.0),
{
}

/// Whether `x` can be held in an `isize`.
pub open spec fn fits_isize(x: int) -> bool {
    isize::MIN <= x <= isize::MAX
}

/// A 2x2 integer matrix, stored row by row.
#[derive(Debug, Clone, Copy, PartialEq, Eq)]
pub struct Rotation(pub [[isize; 2]; 2]);

impl View for Rotation {
    type V = Matrix2;

    open spec fn view(&self) -> Matrix2 {
        Matrix2 {
            m00: self.0[0][0] as int,
            m01: self.0[0][1] as int,
            m10: self.0[1][0] as int,
            m11: self.0[1][1] as int,
        }
    }
}

impl Rotation {
    /// Whether every product and sum of `self * rhs` can be held in an `isize`.
    pub open spec fn can_apply(self, rhs: [isize; 2]) -> bool {
        let m = self@;
        let (x, y) = (rhs[0] as int, rhs[1] as int);
        &&& fits_isize(x * m.m00) && fits_isize(y * m.m01) && fits_isize(x * m.m00 + y * m.m01)
        &&& fits_isize(x * m.m10) && fits_isize(y * m.m11) && fits_isize(x * m.m10 + y * m.m11)
    }

    /// Whether every product and sum of the matrix product `self * rhs` can
    /// be held in an `isize`.
    pub open spec fn can_compose(self, rhs: Rotation) -> bool {
        let a = self@;
        let b = rhs@;
        &&& fits_isize(b.m00 * a.m00) && fits_isize(b.m10 * a.m01) && fits_isize(
            b.m00 * a.m00 + b.m10 * a.m01,
        )
        &&& fits_isize(b.m01 * a.m00) && fits_isize(b.m11 * a.m01) && fits_isize(
            b.m01 * a.m00 + b.m11 * a.m01,
        )
        &&& fits_isize(b.m00 * a.m10) && fits_isize(b.m10 * a.m11) && fits_isize(
            b.m00 * a.m10 + b.m10 * a.m11,
        )
        &&& fits_isize(b.m01 * a.m10) && fits_isize(b.m11 * a.m11) && fits_isize(
            b.m01 * a.m10 + b.m11 * a.m11,
        )
    }

    /// The rotation that leaves every vector where it is.
    pub fn identity() -> (r: Self)
        ensures
            r@ == Matrix2::identity(),
            r@.is_rotation(),
    {
        Rotation([[1, 0], [0, 1]])
    }

    /// The adjugate of `self`, which undoes `self` when `self` is a rotation.
    pub fn inverse(self) -> (r: Self)
        requires
            self@.m01 > isize::MIN,
            self@.m10 > isize::MIN,
        ensures
            r@ == self@.inverse(),
            self@.is_rotation() ==> r@.is_rotation() && self@.compose(r@) == Matrix2::identity()
                && r@.compose(self@) == Matrix2::identity(),
    {
        proof {
            if self@.is_rotation() {
                lemma_rotations_form_group(self@, self@);
            }
        }
        Rotation([[self.0[1][1], -self.0[0][1]], [-self.0[1][0], self.0[0][0]]])
    }

    /// `self` followed by a quarter turn to the right.
    pub fn rotate_90deg_right(self) -> (r: Self)
        requires
            self@.m10 > isize::MIN,
            self@.m11 > isize::MIN,
        ensures
            r@ == self@.rotate_right(),
            self@.is_rotation() ==> r@.is_rotation(),
    {
        let quarter = Rotation([[0, -1], [1, 0]]);
        proof {
            if self@.is_rotation() {
                lemma_rotations_form_group(self@, self@);
            }
            let (q, m) = (quarter@, self@);
            assert(q == Matrix2::quarter_right());
            assert(m.m00 * q.m00 == 0 && m.m10 * q.m01 == -m.m10) by (nonlinear_arith)
                requires
                    q.m00 == 0 && q.m01 == -1,
            ;
            assert(m.m01 * q.m00 == 0 && m.m11 * q.m01 == -m.m11) by (nonlinear_arith)
                requires
                    q.m00 == 0 && q.m01 == -1,
            ;
            assert(m.m00 * q.m10 == m.m00 && m.m10 * q.m11 == 0) by (nonlinear_arith)
                requires
                    q.m10 == 1 && q.m11 == 0,
            ;
            assert(m.m01 * q.m10 == m.m01 && m.m11 * q.m11 == 0) by (nonlinear_arith)
                requires
                    q.m10 == 1 && q.m11 == 0,
            ;
        }
        quarter * self
    }
}

impl core::ops::Mul<[isize; 2]> for Rotation {
    type Output = [isize; 2];

    /// The matrix-vector product.
    fn mul(self, rhs: [isize; 2]) -> (r: [isize; 2])
        ensures
            (r[0] as int, r[1] as int) == self@.apply((rhs[0] as int, rhs[1] as int)),
    {
        [
            rhs[0] * self.0[0][0] + rhs[1] * self.0[0][1],
            rhs[0] * self.0[1][0] + rhs[1] * self.0[1][1],
        ]
    }
}

impl vstd::std_specs::ops::MulSpecImpl<[isize; 2]> for Rotation {
    open spec fn obeys_mul_spec() -> bool {
        false
    }

    open spec fn mul_req(self, rhs: [isize; 2]) -> bool {
        self.can_apply(rhs)
    }

    open spec fn mul_spec(self, rhs: [isize; 2]) -> [isize; 2] {
        rhs
    }
}

impl core::ops::Mul<Rotation> for Rotation {
    type Output = Rotation;

    /// The matrix product.
    fn mul(self, rhs: Rotation) -> (r: Rotation)
        ensures
            r@ == self@.compose(rhs@),
    {
        Rotation(
            [
                [
                    rhs.0[0][0] * self.0[0][0] + rhs.0[1][0] * self.0[0][1],
                    rhs.0[0][1] * self.0[0][0] + rhs.0[1][1] * self.0[0][1],
                ],
                [
                    rhs.0[0][0] * self.0[1][0] + rhs.0[1][0] * self.0[1][1],
                    rhs.0[0][1] * self.0[1][0] + rhs.0[1][1] * self.0[1][1],
                ],
            ],
        )
    }
}

impl vstd::std_specs::ops::MulSpecImpl<Rotation> for Rotation {
    open spec fn obeys_mul_spec() -> bool {
        false
    }

    open spec fn mul_req(self, rhs: Rotation) -> bool {
        self.can_compose(rhs)
    }

    open spec fn mul_spec(self, rhs: Rotation) -> Rotation {
        rhs
    }
}

} // verus!
