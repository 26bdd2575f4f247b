//! Segment geometry: the endpoints of a centred segment and the exact intersection of two
//! bounded segments.
use crate::algebra::{lemma_cramer, lemma_distribute, lemma_product_bounded};
use crate::algebra::{lemma_square_of_product, lemma_square_shrinks};
use crate::fixed::{lemma_trunc_div_bounds, lemma_trunc_div_multiple, lemma_trunc_div_within};
use crate::fixed::{lower, max_of, min_of, scaled, trunc_div, upper, COORD_MAX, ONE};
use crate::rotation::Rotation;
use vstd::prelude::*;

verus! {

/// Largest magnitude of a coordinate of a segment's centre.
pub const CENTER_MAX: i64 = 549755813888;

/// Largest magnitude of a segment's length.
pub const LENGTH_MAX: i64 = 1099511627776;

/// A position or a displacement in the plane, in sub-units.
#[derive(Clone, Copy, Debug, PartialEq, Eq, Structural)]
pub struct Point {
    pub x: i64,
    pub y: i64,
}

impl Point {
    /// Both coordinates have magnitude at most `bound`.
    pub open spec fn within(self, bound: int) -> bool {
        &&& -bound <= self.x <= bound
        &&& -bound <= self.y <= bound
    }

    /// The point can be an endpoint handed to the intersection test.
    pub open spec fn in_world(self) -> bool {
        self.within(COORD_MAX as int)
    }

    /// Whether the point can be an endpoint handed to the intersection test.
    pub fn is_in_world(&self) -> (b: bool)
        ensures
            b == self.in_world(),
    {
        -COORD_MAX <= self.x && self.x <= COORD_MAX && -COORD_MAX <= self.y && self.y <= COORD_MAX
    }
}

/// Half of a segment of the given length along `axis`: the displacement from the centre to
/// the first endpoint, each coordinate rounded toward zero.
pub open spec fn half_axis_x(length: int, axis: Rotation) -> int {
    trunc_div(length * axis.cos, 2 * ONE)
}

/// Second coordinate of the displacement from the centre to the first endpoint.
pub open spec fn half_axis_y(length: int, axis: Rotation) -> int {
    trunc_div(length * axis.sin, 2 * ONE)
}

/// The two endpoints of the segment with the given centre and length whose long axis
/// points along `rotation`: the centre plus and minus half the length along that axis.
///
/// `rotation` is the direction of the long axis, a quarter turn away from the heading a
/// segment stores.
pub fn convert_to_endpoints(center: Point, length: i64, rotation: Rotation) -> (ends: (
    Point,
    Point,
))
    requires
        center.within(CENTER_MAX as int),
        -LENGTH_MAX <= length <= LENGTH_MAX,
        rotation.wf(),
    ensures
        ends.0.x == center.x + half_axis_x(length as int, rotation),
        ends.0.y == center.y + half_axis_y(length as int, rotation),
        ends.1.x == center.x - half_axis_x(length as int, rotation),
        ends.1.y == center.y - half_axis_y(length as int, rotation),
        ends.0.x + ends.1.x == 2 * center.x,
        ends.0.y + ends.1.y == 2 * center.y,
        ends.0.in_world(),
        ends.1.in_world(),
{
    proof {
        rotation.lemma_components_bounded();
        lemma_half_axis_bounded(length as int, rotation);
    }
    let dx: i128 = scaled(length, rotation.cos, 2 * ONE);
    let dy: i128 = scaled(length, rotation.sin, 2 * ONE);
    let dx: i64 = dx as i64;
    let dy: i64 = dy as i64;
    let start = Point { x: center.x + dx, y: center.y + dy };
    let end = Point { x: center.x - dx, y: center.y - dy };
    (start, end)
}

/// Half an axis is at most half the length in each coordinate.
pub proof fn lemma_half_axis_bounded(length: int, axis: Rotation)
    requires
        axis.wf(),
        -LENGTH_MAX <= length <= LENGTH_MAX,
    ensures
        -CENTER_MAX <= half_axis_x(length, axis) <= CENTER_MAX,
        -CENTER_MAX <= half_axis_y(length, axis) <= CENTER_MAX,
{
    axis.lemma_components_bounded();
    lemma_product_bounded(length, axis.cos as int, LENGTH_MAX as int, ONE as int);
    lemma_product_bounded(length, axis.sin as int, LENGTH_MAX as int, ONE as int);
    assert(CENTER_MAX * (2 * ONE) == LENGTH_MAX * ONE) by (nonlinear_arith);
    lemma_trunc_div_within(length * axis.cos, 2 * ONE, CENTER_MAX as int);
    lemma_trunc_div_within(length * axis.sin, 2 * ONE, CENTER_MAX as int);
}

/// The endpoints are as far apart as the segment is long, up to rounding.
///
/// The separation of the two endpoints is twice the half axis. Scaled by `ONE`, each of its
/// coordinates is within two sub-units of the length times the axis, on the side of zero,
/// and the separation is never longer than the length.
pub proof fn lemma_endpoint_separation(length: int, axis: Rotation)
    requires
        axis.wf(),
    ensures
        ({
            let sx = 2 * half_axis_x(length, axis);
            let sy = 2 * half_axis_y(length, axis);
            &&& -2 * ONE < sx * ONE - length * axis.cos < 2 * ONE
            &&& -2 * ONE < sy * ONE - length * axis.sin < 2 * ONE
            &&& sx * sx + sy * sy <= length * length
        }),
{
    let c = axis.cos as int;
    let s = axis.sin as int;
    let one = ONE as int;
    let hx = half_axis_x(length, axis);
    let hy = half_axis_y(length, axis);
    lemma_trunc_div_bounds(length * c, 2 * one);
    lemma_trunc_div_bounds(length * s, 2 * one);
    assert((2 * hx) * one == hx * (2 * one)) by (nonlinear_arith);
    assert((2 * hy) * one == hy * (2 * one)) by (nonlinear_arith);
    lemma_square_shrinks(hx * (2 * one), length * c);
    lemma_square_shrinks(hy * (2 * one), length * s);
    lemma_square_of_product(2 * hx, one);
    lemma_square_of_product(2 * hy, one);
    lemma_square_of_product(length, c);
    lemma_square_of_product(length, s);
    let sx = 2 * hx;
    let sy = 2 * hy;
    let ll = length * length;
    let m = sx * sx + sy * sy;
    assert((sx * sx) * (one * one) + (sy * sy) * (one * one) == m * (one * one))
        by (nonlinear_arith)
        requires
            m == sx * sx + sy * sy,
    ;
    assert(ll * (c * c) + ll * (s * s) == ll * (c * c + s * s)) by (nonlinear_arith);
    assert(ll * (c * c + s * s) <= ll * (one * one)) by (nonlinear_arith)
        requires
            c * c + s * s <= one * one,
            ll == length * length,
    ;
    assert(m <= ll) by (nonlinear_arith)
        requires
            m * (one * one) <= ll * (one * one),
            one * one > 0,
    ;
}

/// The determinant of the two direction vectors: zero exactly when the lines through
/// `p1 p2` and through `p3 p4` are parallel or coincident, or one of the segments is a
/// single point.
pub open spec fn det(p1: Point, p2: Point, p3: Point, p4: Point) -> int {
    (p1.x - p2.x) * (p3.y - p4.y) - (p1.y - p2.y) * (p3.x - p4.x)
}

/// The constant term of the line through `p` and `q`.
pub open spec fn line_moment(p: Point, q: Point) -> int {
    p.x * q.y - p.y * q.x
}

/// Numerator of the first coordinate of the point where the two lines cross; the
/// denominator is `det`.
pub open spec fn crossing_x(p1: Point, p2: Point, p3: Point, p4: Point) -> int {
    line_moment(p1, p2) * (p3.x - p4.x) - (p1.x - p2.x) * line_moment(p3, p4)
}

/// Numerator of the second coordinate of the point where the two lines cross; the
/// denominator is `det`.
pub open spec fn crossing_y(p1: Point, p2: Point, p3: Point, p4: Point) -> int {
    line_moment(p1, p2) * (p3.y - p4.y) - (p1.y - p2.y) * line_moment(p3, p4)
}

/// The fraction `num / den` lies in the closed interval spanned by `a` and `b`.
pub open spec fn spans(a: int, b: int, num: int, den: int) -> bool
    recommends
        den != 0,
{
    if den > 0 {
        min_of(a, b) * den <= num <= max_of(a, b) * den
    } else {
        min_of(a, b) * den >= num >= max_of(a, b) * den
    }
}

/// The point `(nx / den, ny / den)` lies in the closed bounding box of the segment from
/// `p` to `q`.
pub open spec fn in_box(p: Point, q: Point, nx: int, ny: int, den: int) -> bool
    recommends
        den != 0,
{
    &&& spans(p.x as int, q.x as int, nx, den)
    &&& spans(p.y as int, q.y as int, ny, den)
}

/// The segments from `p1` to `p2` and from `p3` to `p4` cross: their lines meet in exactly
/// one point, and that point lies in the bounding boxes of both segments, borders
/// included.
pub open spec fn segments_cross(p1: Point, p2: Point, p3: Point, p4: Point) -> bool {
    let d = det(p1, p2, p3, p4);
    let nx = crossing_x(p1, p2, p3, p4);
    let ny = crossing_y(p1, p2, p3, p4);
    &&& d != 0
    &&& in_box(p1, p2, nx, ny, d)
    &&& in_box(p3, p4, nx, ny, d)
}

/// The fraction `num / den`, rounded toward zero.
pub open spec fn ratio(num: int, den: int) -> int
    recommends
        den != 0,
{
    if den > 0 {
        trunc_div(num, den)
    } else {
        trunc_div(-num, -den)
    }
}

/// The point where the two segments cross, each coordinate rounded toward zero, or
/// nothing where they do not cross.
pub open spec fn intersection(p1: Point, p2: Point, p3: Point, p4: Point) -> Option<Point> {
    if segments_cross(p1, p2, p3, p4) {
        Some(
            Point {
                x: ratio(crossing_x(p1, p2, p3, p4), det(p1, p2, p3, p4)) as i64,
                y: ratio(crossing_y(p1, p2, p3, p4), det(p1, p2, p3, p4)) as i64,
            },
        )
    } else {
        None
    }
}

/// `a * b - c * d` for factors that keep every product within `bound`.
fn cross_product(a: i128, b: i128, c: i128, d: i128, Ghost(left): Ghost<int>, Ghost(right): Ghost<
    int,
>) -> (r: i128)
    requires
        0 <= left,
        0 <= right,
        left * right <= 0x2000_0000_0000_0000_0000_0000_0000_0000,
        -left <= a <= left,
        -right <= b <= right,
        -left <= c <= left,
        -right <= d <= right,
    ensures
        r == a * b - c * d,
        -(2 * (left * right)) <= r <= 2 * (left * right),
{
    proof {
        lemma_product_bounded(a as int, b as int, left, right);
        lemma_product_bounded(c as int, d as int, left, right);
    }
    let ab: i128 = a * b;
    let cd: i128 = c * d;
    ab - cd
}

/// Whether `lo * den <= num <= hi * den`, for a positive `den`.
fn spanned(lo: i64, hi: i64, num: i128, den: i128) -> (b: bool)
    requires
        0 < den <= 0x8_0000_0000_0000_0000_0000,
        -COORD_MAX <= lo <= hi <= COORD_MAX,
    ensures
        b == (lo * den <= num <= hi * den),
{
    proof {
        lemma_product_bounded(lo as int, den as int, COORD_MAX as int, 0x8_0000_0000_0000_0000_0000);
        lemma_product_bounded(hi as int, den as int, COORD_MAX as int, 0x8_0000_0000_0000_0000_0000);
        assert(COORD_MAX * 0x8_0000_0000_0000_0000_0000 == 0x800_0000_0000_0000_0000_0000_0000_0000)
            by (nonlinear_arith);
    }
    (lo as i128) * den <= num && num <= (hi as i128) * den
}

/// The point where the segment from `p1` to `p2` crosses the segment from `p3` to `p4`.
///
/// The segments are bounded, not infinite lines. A point is returned only where the two
/// lines are not parallel, tested exactly and without tolerance, and the point where they
/// meet lies in the closed bounding box of both segments, so that touching at an endpoint
/// counts. Parallel segments never cross, even where they overlap. The coordinates of the
/// crossing are rounded toward zero.
pub fn lines_intersect(p1: Point, p2: Point, p3: Point, p4: Point) -> (r: Option<Point>)
    requires
        p1.in_world(),
        p2.in_world(),
        p3.in_world(),
        p4.in_world(),
    ensures
        r == intersection(p1, p2, p3, p4),
        r.is_some() == segments_cross(p1, p2, p3, p4),
        det(p1, p2, p3, p4) == 0 ==> r.is_none(),
{
    let ghost b = COORD_MAX as int;
    let dx12: i128 = (p1.x - p2.x) as i128;
    let dy12: i128 = (p1.y - p2.y) as i128;
    let dx34: i128 = (p3.x - p4.x) as i128;
    let dy34: i128 = (p3.y - p4.y) as i128;
    proof {
        assert((2 * b) * (2 * b) == 0x4_0000_0000_0000_0000_0000) by (nonlinear_arith)
            requires
                b == 0x100_0000_0000,
        ;
        assert(b * b == 0x1_0000_0000_0000_0000_0000) by (nonlinear_arith)
            requires
                b == 0x100_0000_0000,
        ;
        assert((2 * (b * b)) * (2 * b) == 0x400_0000_0000_0000_0000_0000_0000_0000)
            by (nonlinear_arith)
            requires
                b == 0x100_0000_0000,
        ;
    }
    let den: i128 = cross_product(dx12, dy34, dy12, dx34, Ghost(2 * b), Ghost(2 * b));
    if den == 0 {
        return None;
    }
    let m12: i128 = cross_product(
        p1.x as i128,
        p2.y as i128,
        p1.y as i128,
        p2.x as i128,
        Ghost(b),
        Ghost(b),
    );
    let m34: i128 = cross_product(
        p3.x as i128,
        p4.y as i128,
        p3.y as i128,
        p4.x as i128,
        Ghost(b),
        Ghost(b),
    );
    let nx: i128 = cross_product(m12, dx34, m34, dx12, Ghost(2 * (b * b)), Ghost(2 * b));
    let ny: i128 = cross_product(m12, dy34, m34, dy12, Ghost(2 * (b * b)), Ghost(2 * b));
    proof {
        assert(m34 * dx12 == dx12 * m34) by (nonlinear_arith);
        assert(m34 * dy12 == dy12 * m34) by (nonlinear_arith);
        assert(nx == crossing_x(p1, p2, p3, p4));
        assert(ny == crossing_y(p1, p2, p3, p4));
        assert(den == det(p1, p2, p3, p4));
    }
    let (ux, uy, ud): (i128, i128, i128) = if den < 0 {
        (-nx, -ny, -den)
    } else {
        (nx, ny, den)
    };
    let ax: i64 = lower(p1.x, p2.x);
    let bx: i64 = upper(p1.x, p2.x);
    let ay: i64 = lower(p1.y, p2.y);
    let by: i64 = upper(p1.y, p2.y);
    let cx: i64 = lower(p3.x, p4.x);
    let dx: i64 = upper(p3.x, p4.x);
    let cy: i64 = lower(p3.y, p4.y);
    let dy: i64 = upper(p3.y, p4.y);
    proof {
        lemma_spans_normalised(p1.x as int, p2.x as int, nx as int, den as int);
        lemma_spans_normalised(p1.y as int, p2.y as int, ny as int, den as int);
        lemma_spans_normalised(p3.x as int, p4.x as int, nx as int, den as int);
        lemma_spans_normalised(p3.y as int, p4.y as int, ny as int, den as int);
    }
    let inside: bool = spanned(ax, bx, ux, ud) && spanned(ay, by, uy, ud) && spanned(
        cx,
        dx,
        ux,
        ud,
    ) && spanned(cy, dy, uy, ud);
    if !inside {
        return None;
    }
    let x: i128 = ux / ud;
    let y: i128 = uy / ud;
    proof {
        lemma_ratio_in_span(ax as int, bx as int, ux as int, ud as int);
        lemma_ratio_in_span(ay as int, by as int, uy as int, ud as int);
    }
    Some(Point { x: x as i64, y: y as i64 })
}

/// Changing the sign of both the numerator and the denominator changes neither the test
/// against an interval nor the rounded value.
pub proof fn lemma_spans_normalised(a: int, b: int, num: int, den: int)
    requires
        den != 0,
    ensures
        den < 0 ==> (spans(a, b, num, den) <==> min_of(a, b) * (-den) <= -num <= max_of(a, b) * (
        -den)),
        den > 0 ==> (spans(a, b, num, den) <==> min_of(a, b) * den <= num <= max_of(a, b) * den),
{
    let lo = min_of(a, b);
    let hi = max_of(a, b);
    assert(lo * (-den) == -(lo * den)) by (nonlinear_arith);
    assert(hi * (-den) == -(hi * den)) by (nonlinear_arith);
}

/// A fraction between two integers rounds to an integer between them.
pub proof fn lemma_ratio_in_span(lo: int, hi: int, num: int, den: int)
    requires
        den > 0,
        lo * den <= num <= hi * den,
    ensures
        lo <= trunc_div(num, den) <= hi,
{
    lemma_trunc_div_bounds(num, den);
    let q = trunc_div(num, den);
    if q < lo {
        assert(q * den + den <= lo * den) by (nonlinear_arith)
            requires
                q + 1 <= lo,
                den > 0,
        ;
        if num < 0 {
            assert(false) by (nonlinear_arith)
                requires
                    q * den >= lo * den,
                    q < lo,
                    den > 0,
            ;
        }
    }
    if q > hi {
        assert(q * den - den >= hi * den) by (nonlinear_arith)
            requires
                q - 1 >= hi,
                den > 0,
        ;
        if num > 0 {
            assert(false) by (nonlinear_arith)
                requires
                    q * den <= hi * den,
                    q > hi,
                    den > 0,
            ;
        }
    }
}

/// The point `e` lies on the line through `p` and `q`.
pub open spec fn on_line(e: Point, p: Point, q: Point) -> bool {
    (p.y - q.y) * e.x - (p.x - q.x) * e.y + line_moment(p, q) == 0
}

/// The point `e` lies on the segment from `p` to `q`, ends included.
pub open spec fn on_segment(e: Point, p: Point, q: Point) -> bool {
    &&& on_line(e, p, q)
    &&& min_of(p.x as int, q.x as int) <= e.x <= max_of(p.x as int, q.x as int)
    &&& min_of(p.y as int, q.y as int) <= e.y <= max_of(p.y as int, q.y as int)
}

/// The point where two lines cross lies on both of them: its coordinates, as fractions
/// over the determinant, satisfy the equation of each line.
pub proof fn lemma_crossing_on_lines(p1: Point, p2: Point, p3: Point, p4: Point)
    ensures
        (p1.y - p2.y) * crossing_x(p1, p2, p3, p4) - (p1.x - p2.x) * crossing_y(p1, p2, p3, p4)
            + line_moment(p1, p2) * det(p1, p2, p3, p4) == 0,
        (p3.y - p4.y) * crossing_x(p1, p2, p3, p4) - (p3.x - p4.x) * crossing_y(p1, p2, p3, p4)
            + line_moment(p3, p4) * det(p1, p2, p3, p4) == 0,
{
    let a = p1.x - p2.x;
    let b = p1.y - p2.y;
    let c = p3.x - p4.x;
    let d = p3.y - p4.y;
    let m = line_moment(p1, p2);
    let n = line_moment(p3, p4);
    assert(b * (m * c - a * n) - a * (m * d - b * n) + m * (a * d - b * c) == 0)
        by (nonlinear_arith);
    assert(d * (m * c - a * n) - c * (m * d - b * n) + n * (a * d - b * c) == 0)
        by (nonlinear_arith);
}

/// Each end of a segment lies on the line through its ends.
pub proof fn lemma_ends_on_line(p: Point, q: Point)
    ensures
        on_line(p, p, q),
        on_line(q, p, q),
        on_segment(p, p, q),
        on_segment(q, p, q),
{
    let px = p.x as int;
    let py = p.y as int;
    let qx = q.x as int;
    let qy = q.y as int;
    assert((py - qy) * px - (px - qx) * py + (px * qy - py * qx) == 0) by (nonlinear_arith);
    assert((py - qy) * qx - (px - qx) * qy + (px * qy - py * qx) == 0) by (nonlinear_arith);
}

/// A point on both lines is the point where they cross: its coordinates times the
/// determinant are the numerators of the crossing.
pub proof fn lemma_common_point_is_crossing(e: Point, p1: Point, p2: Point, p3: Point, p4: Point)
    requires
        on_line(e, p1, p2),
        on_line(e, p3, p4),
    ensures
        crossing_x(p1, p2, p3, p4) == e.x * det(p1, p2, p3, p4),
        crossing_y(p1, p2, p3, p4) == e.y * det(p1, p2, p3, p4),
{
    let a = p1.x - p2.x;
    let b = p1.y - p2.y;
    let c = p3.x - p4.x;
    let d = p3.y - p4.y;
    let m = line_moment(p1, p2);
    let n = line_moment(p3, p4);
    let x = e.x as int;
    let y = e.y as int;
    lemma_cramer(a, b, c, d, x, y);
}

/// A multiple of a nonzero denominator, taken as a fraction over it, lies between two
/// bounds exactly when the factor does, and rounds to the factor.
pub proof fn lemma_whole_fraction(a: int, b: int, k: int, den: int)
    requires
        den != 0,
    ensures
        spans(a, b, k * den, den) <==> min_of(a, b) <= k <= max_of(a, b),
        ratio(k * den, den) == k,
{
    let lo = min_of(a, b);
    let hi = max_of(a, b);
    if den > 0 {
        assert((lo * den <= k * den) <==> lo <= k) by (nonlinear_arith)
            requires
                den > 0,
        ;
        assert((k * den <= hi * den) <==> k <= hi) by (nonlinear_arith)
            requires
                den > 0,
        ;
        lemma_trunc_div_multiple(k, den);
    } else {
        assert((lo * den >= k * den) <==> lo <= k) by (nonlinear_arith)
            requires
                den < 0,
        ;
        assert((k * den >= hi * den) <==> k <= hi) by (nonlinear_arith)
            requires
                den < 0,
        ;
        assert(-(k * den) == k * (-den)) by (nonlinear_arith);
        lemma_trunc_div_multiple(k, -den);
    }
}

/// Two segments whose lines are not parallel and that have a point of the grid in
/// common cross in that point.
pub proof fn lemma_common_point_is_returned(e: Point, p1: Point, p2: Point, p3: Point, p4: Point)
    requires
        on_segment(e, p1, p2),
        on_segment(e, p3, p4),
        det(p1, p2, p3, p4) != 0,
    ensures
        segments_cross(p1, p2, p3, p4),
        intersection(p1, p2, p3, p4) == Some(e),
{
    let den = det(p1, p2, p3, p4);
    lemma_common_point_is_crossing(e, p1, p2, p3, p4);
    lemma_whole_fraction(p1.x as int, p2.x as int, e.x as int, den);
    lemma_whole_fraction(p1.y as int, p2.y as int, e.y as int, den);
    lemma_whole_fraction(p3.x as int, p4.x as int, e.x as int, den);
    lemma_whole_fraction(p3.y as int, p4.y as int, e.y as int, den);
}

/// Two segments that share an end, and whose lines are not parallel, cross in that end.
///
/// Segments that share an end and lie on one line do not cross: their determinant is
/// zero.
pub proof fn lemma_shared_end_is_returned(e: Point, p1: Point, p2: Point, p3: Point, p4: Point)
    requires
        e == p1 || e == p2,
        e == p3 || e == p4,
        det(p1, p2, p3, p4) != 0,
    ensures
        intersection(p1, p2, p3, p4) == Some(e),
{
    lemma_ends_on_line(p1, p2);
    lemma_ends_on_line(p3, p4);
    lemma_common_point_is_returned(e, p1, p2, p3, p4);
}

/// Segments with the same direction vector never cross, not even where they overlap.
pub proof fn lemma_parallel_never_cross(p1: Point, p2: Point, p3: Point, p4: Point)
    requires
        p2.x - p1.x == p4.x - p3.x,
        p2.y - p1.y == p4.y - p3.y,
    ensures
        det(p1, p2, p3, p4) == 0,
        intersection(p1, p2, p3, p4).is_none(),
{
    let a = p1.x - p2.x;
    let b = p1.y - p2.y;
    assert(a * b - b * a == 0) by (nonlinear_arith);
}

/// The crossing of two segments depends neither on the order of the two segments nor on
/// the order of the ends of either.
pub proof fn lemma_intersection_is_symmetric(p1: Point, p2: Point, p3: Point, p4: Point)
    ensures
        intersection(p3, p4, p1, p2) == intersection(p1, p2, p3, p4),
        intersection(p2, p1, p3, p4) == intersection(p1, p2, p3, p4),
        intersection(p1, p2, p4, p3) == intersection(p1, p2, p3, p4),
{
    let a = p1.x - p2.x;
    let b = p1.y - p2.y;
    let c = p3.x - p4.x;
    let d = p3.y - p4.y;
    let m = line_moment(p1, p2);
    let n = line_moment(p3, p4);
    let den = det(p1, p2, p3, p4);
    let nx = crossing_x(p1, p2, p3, p4);
    let ny = crossing_y(p1, p2, p3, p4);
    // the two segments exchanged
    assert(c * b - d * a == -(a * d - b * c)) by (nonlinear_arith);
    assert(n * a - c * m == -(m * c - a * n)) by (nonlinear_arith);
    assert(n * b - d * m == -(m * d - b * n)) by (nonlinear_arith);
    // the ends of the first segment exchanged
    assert(line_moment(p2, p1) == -m) by (nonlinear_arith)
        requires
            line_moment(p2, p1) == p2.x * p1.y - p2.y * p1.x,
            m == p1.x * p2.y - p1.y * p2.x,
    ;
    assert((-a) * d - (-b) * c == -(a * d - b * c)) by (nonlinear_arith);
    assert((-m) * c - (-a) * n == -(m * c - a * n)) by (nonlinear_arith);
    assert((-m) * d - (-b) * n == -(m * d - b * n)) by (nonlinear_arith);
    // the ends of the second segment exchanged
    assert(line_moment(p4, p3) == -n) by (nonlinear_arith)
        requires
            line_moment(p4, p3) == p4.x * p3.y - p4.y * p3.x,
            n == p3.x * p4.y - p3.y * p4.x,
    ;
    assert(a * (-d) - b * (-c) == -(a * d - b * c)) by (nonlinear_arith);
    assert(m * (-c) - a * (-n) == -(m * c - a * n)) by (nonlinear_arith);
    assert(m * (-d) - b * (-n) == -(m * d - b * n)) by (nonlinear_arith);
    assert(det(p3, p4, p1, p2) == -den);
    assert(det(p2, p1, p3, p4) == -den);
    assert(det(p1, p2, p4, p3) == -den);
    assert(crossing_x(p3, p4, p1, p2) == -nx);
    assert(crossing_y(p3, p4, p1, p2) == -ny);
    assert(crossing_x(p2, p1, p3, p4) == -nx);
    assert(crossing_y(p2, p1, p3, p4) == -ny);
    assert(crossing_x(p1, p2, p4, p3) == -nx);
    assert(crossing_y(p1, p2, p4, p3) == -ny);
    if den != 0 {
        lemma_negated_fraction(p1.x as int, p2.x as int, nx, den);
        lemma_negated_fraction(p1.y as int, p2.y as int, ny, den);
        lemma_negated_fraction(p3.x as int, p4.x as int, nx, den);
        lemma_negated_fraction(p3.y as int, p4.y as int, ny, den);
    }
}

/// Changing the sign of both the numerator and the denominator of a fraction changes
/// neither the interval it lies in nor its rounded value, and neither does the order in
/// which the ends of the interval are given.
pub proof fn lemma_negated_fraction(a: int, b: int, num: int, den: int)
    requires
        den != 0,
    ensures
        spans(a, b, -num, -den) == spans(a, b, num, den),
        spans(b, a, num, den) == spans(a, b, num, den),
        ratio(-num, -den) == ratio(num, den),
{
    lemma_spans_normalised(a, b, num, den);
    lemma_spans_normalised(a, b, -num, -den);
    assert(min_of(b, a) == min_of(a, b));
    assert(max_of(b, a) == max_of(a, b));
}

/// Where the point `e` stands relative to the line through `p` and `q`: zero on the
/// line, positive on one side of it and negative on the other.
pub open spec fn side(e: Point, p: Point, q: Point) -> int {
    (p.y - q.y) * e.x - (p.x - q.x) * e.y + line_moment(p, q)
}

/// The points `a` and `b` do not lie strictly on the same side of the line through `p`
/// and `q`.
pub open spec fn straddles(a: Point, b: Point, p: Point, q: Point) -> bool {
    side(a, p, q) * side(b, p, q) <= 0
}

/// The number `s` lies between zero and `d`, ends included.
pub open spec fn between_zero_and(s: int, d: int) -> bool {
    (0 <= s <= d) || (d <= s <= 0)
}

/// A number lies between zero and `d` exactly when it and its distance from `d` do not
/// have the same sign.
pub proof fn lemma_between_is_sign_change(s: int, d: int)
    ensures
        between_zero_and(s, d) <==> s * (s - d) <= 0,
{
    assert(between_zero_and(s, d) <==> s * (s - d) <= 0) by (nonlinear_arith)
        requires
            between_zero_and(s, d) == ((0 <= s <= d) || (d <= s <= 0)),
    ;
}

/// The fraction `(x * den - a * s) / den`, which is `x - a * (s / den)`, lies between `x`
/// and `x - a` exactly when `a` is zero or `s / den` lies between zero and one.
pub proof fn lemma_span_by_parameter(x: int, a: int, s: int, den: int)
    requires
        den != 0,
    ensures
        spans(x, x - a, x * den - a * s, den) <==> (a == 0 || between_zero_and(s, den)),
{
    assert((x - a) * den == x * den - a * den) by (nonlinear_arith);
    let xd = x * den;
    let ad = a * den;
    let as_ = a * s;
    if a == 0 {
        assert(a * s == 0 && a * den == 0) by (nonlinear_arith)
            requires
                a == 0,
        ;
    } else {
        assert((0 <= as_ <= ad || ad <= as_ <= 0) <==> between_zero_and(s, den))
            by (nonlinear_arith)
            requires
                a != 0,
                den != 0,
                as_ == a * s,
                ad == a * den,
                between_zero_and(s, den) == ((0 <= s <= den) || (den <= s <= 0)),
        ;
        assert(a > 0 ==> (ad > 0 <==> den > 0)) by (nonlinear_arith)
            requires
                ad == a * den,
                den != 0,
        ;
        assert(a < 0 ==> (ad < 0 <==> den > 0)) by (nonlinear_arith)
            requires
                ad == a * den,
                den != 0,
        ;
        assert(ad != 0) by (nonlinear_arith)
            requires
                ad == a * den,
                den != 0,
                a != 0,
        ;
    }
}

/// The crossing of two lines, seen from the first end of each segment: it is that end
/// moved along the segment by a share that the other line's `side` gives.
pub proof fn lemma_crossing_by_sides(p1: Point, p2: Point, p3: Point, p4: Point)
    ensures
        crossing_x(p1, p2, p3, p4) == p1.x * det(p1, p2, p3, p4) - (p1.x - p2.x) * side(
            p1,
            p3,
            p4,
        ),
        crossing_y(p1, p2, p3, p4) == p1.y * det(p1, p2, p3, p4) - (p1.y - p2.y) * side(
            p1,
            p3,
            p4,
        ),
        crossing_x(p1, p2, p3, p4) == p3.x * det(p1, p2, p3, p4) - (p3.x - p4.x) * (-side(
            p3,
            p1,
            p2,
        )),
        crossing_y(p1, p2, p3, p4) == p3.y * det(p1, p2, p3, p4) - (p3.y - p4.y) * (-side(
            p3,
            p1,
            p2,
        )),
        side(p2, p3, p4) == side(p1, p3, p4) - det(p1, p2, p3, p4),
        -side(p4, p1, p2) == -side(p3, p1, p2) - det(p1, p2, p3, p4),
{
    let x1 = p1.x as int;
    let y1 = p1.y as int;
    let x2 = p2.x as int;
    let y2 = p2.y as int;
    let x3 = p3.x as int;
    let y3 = p3.y as int;
    let x4 = p4.x as int;
    let y4 = p4.y as int;
    let a = x1 - x2;
    let b = y1 - y2;
    let c = x3 - x4;
    let d = y3 - y4;
    let m = x1 * y2 - y1 * x2;
    let n = x3 * y4 - y3 * x4;
    assert(m == a * y1 - b * x1) by (nonlinear_arith)
        requires
            m == x1 * y2 - y1 * x2,
            a == x1 - x2,
            b == y1 - y2,
    ;
    assert(m == a * y2 - b * x2) by (nonlinear_arith)
        requires
            m == x1 * y2 - y1 * x2,
            a == x1 - x2,
            b == y1 - y2,
    ;
    assert(n == c * y3 - d * x3) by (nonlinear_arith)
        requires
            n == x3 * y4 - y3 * x4,
            c == x3 - x4,
            d == y3 - y4,
    ;
    assert(n == c * y4 - d * x4) by (nonlinear_arith)
        requires
            n == x3 * y4 - y3 * x4,
            c == x3 - x4,
            d == y3 - y4,
    ;
    let s1 = d * x1 - c * y1 + n;
    let r3 = b * x3 - a * y3 + m;
    let n1 = c * y1 - d * x1;
    let m3 = a * y3 - b * x3;
    lemma_cramer(a, b, c, d, x1, y1);
    lemma_cramer(a, b, c, d, x3, y3);
    lemma_distribute(n, n1, a);
    lemma_distribute(n, n1, b);
    lemma_distribute(m, m3, c);
    lemma_distribute(m, m3, d);
    assert(s1 == n - n1);
    assert(r3 == m - m3);
    assert(c * (-r3) == -(c * r3)) by (nonlinear_arith);
    assert(d * (-r3) == -(d * r3)) by (nonlinear_arith);
    assert(d * x2 - c * y2 + n == s1 - (a * d - b * c)) by (nonlinear_arith)
        requires
            s1 == d * x1 - c * y1 + n,
            a == x1 - x2,
            b == y1 - y2,
    ;
    assert(-(b * x4 - a * y4 + m) == -r3 - (a * d - b * c)) by (nonlinear_arith)
        requires
            r3 == b * x3 - a * y3 + m,
            c == x3 - x4,
            d == y3 - y4,
    ;
}

/// Two segments whose lines are not parallel cross exactly when the ends of each do not
/// lie strictly on the same side of the line through the other.
pub proof fn lemma_cross_iff_straddle(p1: Point, p2: Point, p3: Point, p4: Point)
    requires
        det(p1, p2, p3, p4) != 0,
    ensures
        segments_cross(p1, p2, p3, p4) <==> (straddles(p1, p2, p3, p4) && straddles(
            p3,
            p4,
            p1,
            p2,
        )),
{
    let den = det(p1, p2, p3, p4);
    let a = p1.x - p2.x;
    let b = p1.y - p2.y;
    let c = p3.x - p4.x;
    let d = p3.y - p4.y;
    let s1 = side(p1, p3, p4);
    let u3 = -side(p3, p1, p2);
    lemma_crossing_by_sides(p1, p2, p3, p4);
    lemma_span_by_parameter(p1.x as int, a, s1, den);
    lemma_span_by_parameter(p1.y as int, b, s1, den);
    lemma_span_by_parameter(p3.x as int, c, u3, den);
    lemma_span_by_parameter(p3.y as int, d, u3, den);
    lemma_between_is_sign_change(s1, den);
    lemma_between_is_sign_change(u3, den);
    assert((a == 0 && b == 0) ==> a * d - b * c == 0) by (nonlinear_arith);
    assert((c == 0 && d == 0) ==> a * d - b * c == 0) by (nonlinear_arith);
    assert(in_box(p1, p2, crossing_x(p1, p2, p3, p4), crossing_y(p1, p2, p3, p4), den)
        <==> between_zero_and(s1, den));
    assert(in_box(p3, p4, crossing_x(p1, p2, p3, p4), crossing_y(p1, p2, p3, p4), den)
        <==> between_zero_and(u3, den));
    let s2 = side(p2, p3, p4);
    let u4 = -side(p4, p1, p2);
    assert(s1 * s2 == s1 * (s1 - den));
    assert(u3 * u4 == u3 * (u3 - den));
    assert(side(p3, p1, p2) * side(p4, p1, p2) == u3 * u4) by (nonlinear_arith)
        requires
            u3 == -side(p3, p1, p2),
            u4 == -side(p4, p1, p2),
    ;
}

} // verus!
