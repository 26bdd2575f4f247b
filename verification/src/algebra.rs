//! Identities and bounds of integer arithmetic that the geometry rests on.
use vstd::prelude::*;

verus! {

/// A difference times a factor is the difference of the products, on either side.
pub proof fn lemma_distribute(p: int, q: int, r: int)
    ensures
        (p - q) * r == p * r - q * r,
        r * (p - q) == r * p - r * q,
        r * p == p * r,
        r * q == q * r,
{
    assert((p - q) * r == p * r - q * r) by (nonlinear_arith);
    assert(r * (p - q) == r * p - r * q) by (nonlinear_arith);
    assert(r * p == p * r) by (nonlinear_arith);
    assert(r * q == q * r) by (nonlinear_arith);
}

/// A product of three factors does not depend on how they are grouped or ordered.
pub proof fn lemma_regroup(p: int, q: int, r: int)
    ensures
        (p * q) * r == p * (q * r),
        (p * q) * r == q * (p * r),
        (p * q) * r == r * (p * q),
        (p * q) * r == (p * r) * q,
{
    assert((p * q) * r == p * (q * r)) by (nonlinear_arith);
    assert((p * q) * r == q * (p * r)) by (nonlinear_arith);
    assert((p * q) * r == r * (p * q)) by (nonlinear_arith);
    assert((p * q) * r == (p * r) * q) by (nonlinear_arith);
}

/// The two lines `a * y - b * x = m` and `c * y - d * x = n` through the point `(x, y)`
/// give back that point, times their determinant, by the rule for the crossing.
pub proof fn lemma_cramer(a: int, b: int, c: int, d: int, x: int, y: int)
    ensures
        (a * y - b * x) * c - a * (c * y - d * x) == x * (a * d - b * c),
        (a * y - b * x) * d - b * (c * y - d * x) == y * (a * d - b * c),
{
    lemma_distribute(a * y, b * x, c);
    lemma_distribute(a * y, b * x, d);
    lemma_distribute(c * y, d * x, a);
    lemma_distribute(c * y, d * x, b);
    lemma_distribute(a * d, b * c, x);
    lemma_distribute(a * d, b * c, y);
    // a * y * c against a * (c * y)
    lemma_regroup(a, y, c);
    assert(a * (c * y) == a * (y * c)) by (nonlinear_arith);
    // b * x * c against x * (b * c)
    lemma_regroup(b, x, c);
    // a * (d * x) against x * (a * d)
    lemma_regroup(a, d, x);
    // a * y * d against y * (a * d)
    lemma_regroup(a, y, d);
    assert((a * y) * d == y * (a * d)) by (nonlinear_arith);
    // b * x * d against b * (d * x)
    lemma_regroup(b, x, d);
    assert(b * (d * x) == b * (x * d)) by (nonlinear_arith);
    // b * (c * y) against y * (b * c)
    lemma_regroup(b, c, y);
}

/// The square of a product is the product of the squares.
pub proof fn lemma_square_of_product(a: int, b: int)
    ensures
        (a * b) * (a * b) == (a * a) * (b * b),
{
    assert((a * b) * (a * b) == (a * a) * (b * b)) by (nonlinear_arith);
}

/// The exact turn of `(x, y)` by `(c, s)` has the product of the two squared lengths as
/// its squared length.
pub proof fn lemma_norm_of_turn(c: int, s: int, x: int, y: int)
    ensures
        (c * x - s * y) * (c * x - s * y) + (s * x + c * y) * (s * x + c * y) == (c * c + s * s)
            * (x * x + y * y),
{
    let cx = c * x;
    let sy = s * y;
    let sx = s * x;
    let cy = c * y;
    assert((cx - sy) * (cx - sy) == cx * cx - 2 * (cx * sy) + sy * sy) by (nonlinear_arith);
    assert((sx + cy) * (sx + cy) == sx * sx + 2 * (sx * cy) + cy * cy) by (nonlinear_arith);
    assert(cx * sy == sx * cy) by (nonlinear_arith)
        requires
            cx == c * x,
            sy == s * y,
            sx == s * x,
            cy == c * y,
    ;
    lemma_square_of_product(c, x);
    lemma_square_of_product(s, y);
    lemma_square_of_product(s, x);
    lemma_square_of_product(c, y);
    let cc = c * c;
    let ss = s * s;
    let xx = x * x;
    let yy = y * y;
    assert((cc + ss) * (xx + yy) == cc * xx + ss * yy + ss * xx + cc * yy) by (nonlinear_arith);
}

/// A number no farther from zero than another, and on the same side, has no larger
/// square.
pub proof fn lemma_square_shrinks(a: int, b: int)
    requires
        (0 <= a <= b) || (b <= a <= 0),
    ensures
        a * a <= b * b,
{
    assert(a * a <= b * b) by (nonlinear_arith)
        requires
            (0 <= a <= b) || (b <= a <= 0),
    ;
}

/// The product of two bounded numbers is bounded by the product of the bounds.
pub proof fn lemma_product_bounded(a: int, b: int, abound: int, bbound: int)
    requires
        -abound <= a <= abound,
        -bbound <= b <= bbound,
    ensures
        -(abound * bbound) <= a * b <= abound * bbound,
{
    assert(-(abound * bbound) <= a * b <= abound * bbound) by (nonlinear_arith)
        requires
            -abound <= a <= abound,
            -bbound <= b <= bbound,
    ;
}

} // verus!
