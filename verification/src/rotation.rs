//! Rotations: the headings of segments and the turns of the chain, as fixed-point pairs of
//! a cosine and a sine.
use crate::algebra::{lemma_norm_of_turn, lemma_product_bounded, lemma_square_shrinks};
use crate::fixed::{lemma_trunc_div_bounds, lemma_trunc_div_within};
use crate::fixed::{trunc_div, wide_mul, COORD_MAX, ONE};
use crate::intersection::Point;
use vstd::prelude::*;

verus! {

/// A direction in the plane, or a turn about the origin: the cosine and the sine of its
/// angle, each scaled by `ONE` and rounded toward zero.
#[derive(Clone, Copy, Debug, PartialEq, Eq, Structural)]
pub struct Rotation {
    pub cos: i64,
    pub sin: i64,
}

impl Rotation {
    /// The rotation is no longer than a unit vector: `cos^2 + sin^2 <= ONE^2`.
    ///
    /// Rounding toward zero keeps this true of every product of two rotations, which an
    /// exact unit length would not survive.
    pub open spec fn wf(self) -> bool {
        self.cos * self.cos + self.sin * self.sin <= ONE * ONE
    }

    /// The turn by no angle at all.
    pub open spec fn spec_identity() -> Rotation {
        Rotation { cos: ONE, sin: 0 }
    }

    /// This direction turned a quarter of a circle counter-clockwise.
    pub open spec fn spec_quarter_turn(self) -> Rotation {
        Rotation { cos: (-self.sin) as i64, sin: self.cos }
    }

    /// First coordinate of the displacement `(x, y)` turned by this rotation, rounded
    /// toward zero.
    pub open spec fn turned_x(self, x: int, y: int) -> int {
        trunc_div(self.cos * x - self.sin * y, ONE as int)
    }

    /// Second coordinate of the displacement `(x, y)` turned by this rotation, rounded
    /// toward zero.
    pub open spec fn turned_y(self, x: int, y: int) -> int {
        trunc_div(self.sin * x + self.cos * y, ONE as int)
    }

    /// The direction `heading` turned by this rotation.
    pub open spec fn spec_compose(self, heading: Rotation) -> Rotation {
        Rotation {
            cos: self.turned_x(heading.cos as int, heading.sin as int) as i64,
            sin: self.turned_y(heading.cos as int, heading.sin as int) as i64,
        }
    }

    /// A well-formed rotation has components of magnitude at most `ONE`.
    pub proof fn lemma_components_bounded(self)
        requires
            self.wf(),
        ensures
            -ONE <= self.cos <= ONE,
            -ONE <= self.sin <= ONE,
    {
        let c = self.cos as int;
        let s = self.sin as int;
        let one = ONE as int;
        assert(-one <= c <= one && -one <= s <= one) by (nonlinear_arith)
            requires
                c * c + s * s <= one * one,
                one > 0,
        ;
    }

    /// The rotation with the given components, if it is no longer than a unit vector.
    pub fn new(cos: i64, sin: i64) -> (r: Option<Rotation>)
        ensures
            r == if (Rotation { cos, sin }).wf() {
                Some(Rotation { cos, sin })
            } else {
                None::<Rotation>
            },
    {
        if cos < -ONE || cos > ONE || sin < -ONE || sin > ONE {
            proof {
                if (Rotation { cos, sin }).wf() {
                    (Rotation { cos, sin }).lemma_components_bounded();
                }
            }
            return None;
        }
        let cc: i128 = wide_mul(cos, cos);
        let ss: i128 = wide_mul(sin, sin);
        let limit: i128 = wide_mul(ONE, ONE);
        assert(0 <= cc <= ONE * ONE && 0 <= ss <= ONE * ONE) by (nonlinear_arith)
            requires
                cc == cos * cos,
                ss == sin * sin,
                -ONE <= cos <= ONE,
                -ONE <= sin <= ONE,
        ;
        if cc + ss <= limit {
            Some(Rotation { cos, sin })
        } else {
            None
        }
    }

    /// Whether the rotation is no longer than a unit vector.
    pub fn is_valid(&self) -> (b: bool)
        ensures
            b == self.wf(),
    {
        Rotation::new(self.cos, self.sin).is_some()
    }

    /// The turn by no angle at all.
    pub fn identity() -> (r: Rotation)
        ensures
            r == Rotation::spec_identity(),
            r.wf(),
    {
        assert(ONE * ONE + 0 * 0 <= ONE * ONE) by (nonlinear_arith);
        Rotation { cos: ONE, sin: 0 }
    }

    /// This direction turned a quarter of a circle counter-clockwise: the long axis of a
    /// segment whose stored heading is `self`.
    pub fn quarter_turn(&self) -> (r: Rotation)
        requires
            self.wf(),
        ensures
            r == self.spec_quarter_turn(),
            r.cos == -self.sin,
            r.sin == self.cos,
            r.wf(),
    {
        proof {
            self.lemma_components_bounded();
            let c = self.cos as int;
            let s = self.sin as int;
            assert((-s) * (-s) + c * c == c * c + s * s) by (nonlinear_arith);
        }
        Rotation { cos: -self.sin, sin: self.cos }
    }

    /// Turning never lengthens: the turned displacement is no longer than the original,
    /// and each coordinate is within one sub-unit of the exact turn scaled by `ONE`.
    pub proof fn lemma_turn_is_short(self, x: int, y: int)
        requires
            self.wf(),
        ensures
            self.turned_x(x, y) * self.turned_x(x, y) + self.turned_y(x, y) * self.turned_y(x, y)
                <= x * x + y * y,
            -ONE < self.turned_x(x, y) * ONE - (self.cos * x - self.sin * y) < ONE,
            -ONE < self.turned_y(x, y) * ONE - (self.sin * x + self.cos * y) < ONE,
    {
        let c = self.cos as int;
        let s = self.sin as int;
        let one = ONE as int;
        let e1 = c * x - s * y;
        let e2 = s * x + c * y;
        let q1 = trunc_div(e1, one);
        let q2 = trunc_div(e2, one);
        lemma_trunc_div_bounds(e1, one);
        lemma_trunc_div_bounds(e2, one);
        lemma_square_shrinks(q1 * one, e1);
        lemma_square_shrinks(q2 * one, e2);
        let n = x * x + y * y;
        lemma_norm_of_turn(c, s, x, y);
        assert(n >= 0) by (nonlinear_arith)
            requires
                n == x * x + y * y,
        ;
        assert((c * c + s * s) * n <= (one * one) * n) by (nonlinear_arith)
            requires
                c * c + s * s <= one * one,
                n >= 0,
        ;
        assert((q1 * one) * (q1 * one) == (q1 * q1) * (one * one)) by (nonlinear_arith);
        assert((q2 * one) * (q2 * one) == (q2 * q2) * (one * one)) by (nonlinear_arith);
        let m = q1 * q1 + q2 * q2;
        assert((q1 * q1) * (one * one) + (q2 * q2) * (one * one) == m * (one * one))
            by (nonlinear_arith)
            requires
                m == q1 * q1 + q2 * q2,
        ;
        assert(m <= n) by (nonlinear_arith)
            requires
                m * (one * one) <= (one * one) * n,
                one * one > 0,
        ;
    }

    /// The displacement `v` turned by this rotation.
    pub fn apply(&self, v: Point) -> (r: Point)
        requires
            self.wf(),
            v.within(4 * COORD_MAX),
        ensures
            r.x == self.turned_x(v.x as int, v.y as int),
            r.y == self.turned_y(v.x as int, v.y as int),
            r.x * r.x + r.y * r.y <= v.x * v.x + v.y * v.y,
            r.within(8 * COORD_MAX),
    {
        proof {
            self.lemma_components_bounded();
            self.lemma_turn_is_short(v.x as int, v.y as int);
        }
        let bound: Ghost<int> = Ghost(4 * COORD_MAX * ONE);
        let cx: i128 = wide_mul(self.cos, v.x);
        let sy: i128 = wide_mul(self.sin, v.y);
        let sx: i128 = wide_mul(self.sin, v.x);
        let cy: i128 = wide_mul(self.cos, v.y);
        proof {
            lemma_product_bounded(self.cos as int, v.x as int, ONE as int, 4 * COORD_MAX);
            lemma_product_bounded(self.sin as int, v.y as int, ONE as int, 4 * COORD_MAX);
            lemma_product_bounded(self.sin as int, v.x as int, ONE as int, 4 * COORD_MAX);
            lemma_product_bounded(self.cos as int, v.y as int, ONE as int, 4 * COORD_MAX);
            assert(ONE * (4 * COORD_MAX) == 4722366482869645213696) by (nonlinear_arith);
        }
        let e1: i128 = cx - sy;
        let e2: i128 = sx + cy;
        let q1: i128 = e1 / (ONE as i128);
        let q2: i128 = e2 / (ONE as i128);
        proof {
            assert((8 * COORD_MAX) * ONE == 9444732965739290427392) by (nonlinear_arith);
            lemma_trunc_div_within(e1 as int, ONE as int, 8 * COORD_MAX);
            lemma_trunc_div_within(e2 as int, ONE as int, 8 * COORD_MAX);
        }
        Point { x: q1 as i64, y: q2 as i64 }
    }

    /// The direction `heading` turned by this rotation.
    pub fn compose(&self, heading: Rotation) -> (r: Rotation)
        requires
            self.wf(),
            heading.wf(),
        ensures
            r == self.spec_compose(heading),
            r.cos == self.turned_x(heading.cos as int, heading.sin as int),
            r.sin == self.turned_y(heading.cos as int, heading.sin as int),
            r.wf(),
    {
        proof {
            heading.lemma_components_bounded();
            self.lemma_turn_is_short(heading.cos as int, heading.sin as int);
        }
        let v: Point = self.apply(Point { x: heading.cos, y: heading.sin });
        Rotation { cos: v.x, sin: v.y }
    }
}

} // verus!
