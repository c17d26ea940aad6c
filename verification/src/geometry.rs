//! Exact geometric predicates on integer grid points: twice-signed triangle
//! area, collinearity of four points, and concyclicity of four points via the
//! determinant of the lifted-paraboloid matrix.

use vstd::prelude::*;

verus! {

/// Coordinates are kept within this bound so that every intermediate product
/// of the determinant computation fits comfortably in the machine integers.
pub const COORD_BOUND: i32 = 100_000_000;

/// A grid point with integer coordinates.  A point is a value: equality is
/// coordinate equality and points are never mutated.
#[derive(Clone, Copy, PartialEq, Eq, Structural, Debug, Hash)]
pub struct Point {
    pub x: i32,
    pub y: i32,
}

/// Both coordinates of the point lie within `COORD_BOUND` in absolute value.
pub open spec fn in_bounds(p: Point) -> bool {
    &&& -(COORD_BOUND as int) <= p.x as int <= COORD_BOUND as int
    &&& -(COORD_BOUND as int) <= p.y as int <= COORD_BOUND as int
}

/// Twice the signed area of the triangle `(a, b, c)`: the cross product
/// `(b - a) x (c - a)`.  Zero exactly when the three points are collinear.
pub open spec fn spec_area2(a: Point, b: Point, c: Point) -> int {
    (b.x - a.x) * (c.y - a.y) - (b.y - a.y) * (c.x - a.x)
}

/// Twice the signed area of the triangle `(p1, p2, p3)`, computed exactly.
pub fn area2(p1: &Point, p2: &Point, p3: &Point) -> (r: i64)
    requires
        in_bounds(*p1),
        in_bounds(*p2),
        in_bounds(*p3),
    ensures
        r as int == spec_area2(*p1, *p2, *p3),
{
    let x1 = p1.x as i64;
    let y1 = p1.y as i64;
    let x2 = p2.x as i64;
    let y2 = p2.y as i64;
    let x3 = p3.x as i64;
    let y3 = p3.y as i64;
    assert((x2 - x1) * (y3 - y1) - (y2 - y1) * (x3 - x1) == spec_area2(*p1, *p2, *p3)
        && -400_000_000_000_000_000 <= (x2 - x1) * (y3 - y1) <= 400_000_000_000_000_000
        && -400_000_000_000_000_000 <= (y2 - y1) * (x3 - x1) <= 400_000_000_000_000_000)
        by (nonlinear_arith)
        requires
            x1 == p1.x as i64 && y1 == p1.y as i64,
            x2 == p2.x as i64 && y2 == p2.y as i64,
            x3 == p3.x as i64 && y3 == p3.y as i64,
            in_bounds(*p1) && in_bounds(*p2) && in_bounds(*p3),
    ;
    (x2 - x1) * (y3 - y1) - (y2 - y1) * (x3 - x1)
}

/// Four points are taken as collinear when `p3` and `p4` each lie on the line
/// spanned by `p1` and `p2`.  This is the right notion whenever `p1 != p2`;
/// inputs drawn from a duplicate-free grid never make them coincide.
pub open spec fn spec_collinear4(p1: Point, p2: Point, p3: Point, p4: Point) -> bool {
    spec_area2(p1, p2, p3) == 0 && spec_area2(p1, p2, p4) == 0
}

/// Whether `p3` and `p4` both lie on the line spanned by `p1` and `p2`.
pub fn four_points_are_collinear(p1: &Point, p2: &Point, p3: &Point, p4: &Point) -> (r: bool)
    requires
        in_bounds(*p1),
        in_bounds(*p2),
        in_bounds(*p3),
        in_bounds(*p4),
    ensures
        r == spec_collinear4(*p1, *p2, *p3, *p4),
{
    area2(p1, p2, p3) == 0 && area2(p1, p2, p4) == 0
}

/// The squared distance of `p` from the origin: the first entry of the
/// point's row in the lifted-paraboloid matrix.
pub open spec fn spec_q(p: Point) -> int {
    p.x * p.x + p.y * p.y
}

/// The determinant of the 4x4 lifted-paraboloid matrix whose row for point
/// `p` is `[p.x^2 + p.y^2, p.x, p.y, 1]`, expanded by cofactors along the
/// first column.  Each 3x3 minor there has a unit column, so it equals twice
/// the signed area of the triangle of the other three points.  The
/// determinant is zero exactly when the four points lie on a common circle
/// or on a common line.
pub open spec fn spec_det4(p1: Point, p2: Point, p3: Point, p4: Point) -> int {
    spec_q(p1) * spec_area2(p2, p3, p4) - spec_q(p2) * spec_area2(p1, p3, p4)
        + spec_q(p3) * spec_area2(p1, p2, p4) - spec_q(p4) * spec_area2(p1, p2, p3)
}

/// The policy predicate the search excludes: four points on a common circle,
/// where an exactly collinear quadruple also counts (a deliberate policy
/// choice, treating a line as a degenerate circle).
pub open spec fn spec_concyclic4(p1: Point, p2: Point, p3: Point, p4: Point) -> bool {
    spec_collinear4(p1, p2, p3, p4) || spec_det4(p1, p2, p3, p4) == 0
}

/// Whether the four points lie on a common circle (or, by policy, on a
/// common line).  Integer points give an integer determinant, so membership
/// is decided exactly, with no floating tolerance.
pub fn four_points_are_concyclic(p1: &Point, p2: &Point, p3: &Point, p4: &Point) -> (r: bool)
    requires
        in_bounds(*p1),
        in_bounds(*p2),
        in_bounds(*p3),
        in_bounds(*p4),
    ensures
        r == spec_concyclic4(*p1, *p2, *p3, *p4),
{
    if four_points_are_collinear(p1, p2, p3, p4) {
        return true;
    }
    let q1 = lifted_height(p1);
    let q2 = lifted_height(p2);
    let q3 = lifted_height(p3);
    let q4 = lifted_height(p4);
    let m1 = area2(p2, p3, p4) as i128;
    let m2 = area2(p1, p3, p4) as i128;
    let m3 = area2(p1, p2, p4) as i128;
    let m4 = area2(p1, p2, p3) as i128;
    proof {
        lemma_area2_bound(*p2, *p3, *p4);
        lemma_area2_bound(*p1, *p3, *p4);
        lemma_area2_bound(*p1, *p2, *p4);
        lemma_area2_bound(*p1, *p2, *p3);
        lemma_lifted_product_bound(q1 as int, m1 as int);
        lemma_lifted_product_bound(q2 as int, m2 as int);
        lemma_lifted_product_bound(q3 as int, m3 as int);
        lemma_lifted_product_bound(q4 as int, m4 as int);
    }
    let det: i128 = q1 * m1 - q2 * m2 + q3 * m3 - q4 * m4;
    det == 0
}

/// The lifted height `x^2 + y^2` of a point, computed exactly.
fn lifted_height(p: &Point) -> (r: i128)
    requires
        in_bounds(*p),
    ensures
        r as int == spec_q(*p),
        0 <= r <= 20_000_000_000_000_000,
{
    let x = p.x as i128;
    let y = p.y as i128;
    assert(x * x + y * y == spec_q(*p) && 0 <= x * x <= 10_000_000_000_000_000 && 0 <= y * y
        <= 10_000_000_000_000_000) by (nonlinear_arith)
        requires
            x == p.x as i128 && y == p.y as i128,
            in_bounds(*p),
    ;
    x * x + y * y
}

/// A product of a lifted height and a twice-signed area, both within the
/// bounds that `COORD_BOUND` forces, stays well inside the 128-bit range.
proof fn lemma_lifted_product_bound(q: int, m: int) by (nonlinear_arith)
    requires
        0 <= q <= 20_000_000_000_000_000,
        -800_000_000_000_000_000 <= m <= 800_000_000_000_000_000,
    ensures
        -16_000_000_000_000_000_000_000_000_000_000_000 <= q * m
            <= 16_000_000_000_000_000_000_000_000_000_000_000,
{
}

/// Twice-signed areas of triangles within coordinate bounds stay within
/// `8 * COORD_BOUND^2`.
pub proof fn lemma_area2_bound(a: Point, b: Point, c: Point)
    requires
        in_bounds(a),
        in_bounds(b),
        in_bounds(c),
    ensures
        -800_000_000_000_000_000 <= spec_area2(a, b, c) <= 800_000_000_000_000_000,
{
    assert(-800_000_000_000_000_000 <= (b.x - a.x) * (c.y - a.y) - (b.y - a.y) * (c.x - a.x)
        <= 800_000_000_000_000_000) by (nonlinear_arith)
        requires
            in_bounds(a) && in_bounds(b) && in_bounds(c),
    ;
}

/// The signed area is antisymmetric: swapping any two of the three points
/// negates it, and a cyclic rotation preserves it.  In particular
/// `spec_area2(p1, p2, p3) == -spec_area2(p2, p1, p3)` for all triples.
pub proof fn lemma_area2_antisymmetry(p1: Point, p2: Point, p3: Point)
    ensures
        spec_area2(p1, p2, p3) == -spec_area2(p2, p1, p3),
        spec_area2(p1, p2, p3) == -spec_area2(p1, p3, p2),
        spec_area2(p1, p2, p3) == spec_area2(p2, p3, p1),
{
    assert(spec_area2(p1, p2, p3) == -spec_area2(p2, p1, p3) && spec_area2(p1, p2, p3)
        == -spec_area2(p1, p3, p2) && spec_area2(p1, p2, p3) == spec_area2(p2, p3, p1))
        by (nonlinear_arith);
}

/// The four signed areas determined by four points satisfy one linear
/// relation: the triangle (b, c, d) is the alternating sum of the three
/// triangles through a.
proof fn lemma_area2_four_point(a: Point, b: Point, c: Point, d: Point)
    ensures
        spec_area2(b, c, d) == spec_area2(a, c, d) - spec_area2(a, b, d) + spec_area2(a, b, c),
{
    assert(spec_area2(b, c, d) == spec_area2(a, c, d) - spec_area2(a, b, d) + spec_area2(a, b, c))
        by (nonlinear_arith);
}

/// Each coordinate of `b - a`, weighted by the opposite signed area,
/// satisfies an alternating relation: the two-dimensional cross products of
/// the difference vectors from `a` are linearly dependent.
proof fn lemma_area2_cross_relation(a: Point, b: Point, c: Point, d: Point)
    ensures
        (b.x - a.x) * spec_area2(a, c, d) - (c.x - a.x) * spec_area2(a, b, d) + (d.x - a.x)
            * spec_area2(a, b, c) == 0,
        (b.y - a.y) * spec_area2(a, c, d) - (c.y - a.y) * spec_area2(a, b, d) + (d.y - a.y)
            * spec_area2(a, b, c) == 0,
{
    assert((b.x - a.x) * spec_area2(a, c, d) - (c.x - a.x) * spec_area2(a, b, d) + (d.x - a.x)
        * spec_area2(a, b, c) == 0 && (b.y - a.y) * spec_area2(a, c, d) - (c.y - a.y)
        * spec_area2(a, b, d) + (d.y - a.y) * spec_area2(a, b, c) == 0) by (nonlinear_arith);
}

/// A product with a factor known to be the negation of another collapses to
/// the negated product.
proof fn lemma_mul_of_negated(q: int, s: int, t: int) by (nonlinear_arith)
    requires
        t == -s,
    ensures
        q * t == -(q * s),
{
}

/// A product that vanishes with a nonzero left factor forces the right
/// factor to vanish.
proof fn lemma_zero_product_right(d: int, s: int) by (nonlinear_arith)
    requires
        d != 0,
        d * s == 0,
    ensures
        s == 0,
{
}

/// A product with a vanishing right factor vanishes.
proof fn lemma_mul_by_zero(a: int, s: int) by (nonlinear_arith)
    requires
        s == 0,
    ensures
        a * s == 0,
{
}

/// Four collinear points always lie on a degenerate circle: the lifted
/// determinant vanishes on every quadruple that `spec_collinear4` accepts,
/// including the coincident case `p1 == p2`.
pub proof fn lemma_collinear_implies_det4_zero(p1: Point, p2: Point, p3: Point, p4: Point)
    requires
        spec_collinear4(p1, p2, p3, p4),
    ensures
        spec_det4(p1, p2, p3, p4) == 0,
{
    lemma_area2_four_point(p1, p2, p3, p4);
    // With s123 == 0 and s124 == 0 this gives s234 == s134.
    assert(spec_area2(p2, p3, p4) == spec_area2(p1, p3, p4));
    // The last two cofactor terms carry vanishing areas.
    lemma_mul_by_zero(spec_q(p3), spec_area2(p1, p2, p4));
    lemma_mul_by_zero(spec_q(p4), spec_area2(p1, p2, p3));
    if p2.x == p1.x && p2.y == p1.y {
        // p1 and p2 coincide, so their lifted heights agree and the first
        // two cofactor terms cancel.
        assert(spec_q(p1) == spec_q(p2));
        assert(spec_q(p1) * spec_area2(p2, p3, p4) == spec_q(p2) * spec_area2(p1, p3, p4)) by (
        nonlinear_arith)
            requires
                spec_q(p1) == spec_q(p2),
                spec_area2(p2, p3, p4) == spec_area2(p1, p3, p4),
        ;
    } else {
        // p1 and p2 differ, so the cross relation forces the area through
        // p3 and p4 to vanish as well.
        lemma_area2_cross_relation(p1, p2, p3, p4);
        lemma_mul_by_zero(p3.x - p1.x, spec_area2(p1, p2, p4));
        lemma_mul_by_zero(p4.x - p1.x, spec_area2(p1, p2, p3));
        lemma_mul_by_zero(p3.y - p1.y, spec_area2(p1, p2, p4));
        lemma_mul_by_zero(p4.y - p1.y, spec_area2(p1, p2, p3));
        if p2.x != p1.x {
            lemma_zero_product_right(p2.x - p1.x, spec_area2(p1, p3, p4));
        } else {
            lemma_zero_product_right(p2.y - p1.y, spec_area2(p1, p3, p4));
        }
        lemma_mul_by_zero(spec_q(p1), spec_area2(p2, p3, p4));
        lemma_mul_by_zero(spec_q(p2), spec_area2(p1, p3, p4));
    }
}

/// The policy predicate coincides with the vanishing of the lifted
/// determinant: adding collinear quadruples changes nothing, because they
/// make the determinant vanish anyway.
pub proof fn lemma_concyclic_iff_det4_zero(p1: Point, p2: Point, p3: Point, p4: Point)
    ensures
        spec_concyclic4(p1, p2, p3, p4) == (spec_det4(p1, p2, p3, p4) == 0),
{
    if spec_collinear4(p1, p2, p3, p4) {
        lemma_collinear_implies_det4_zero(p1, p2, p3, p4);
    }
}

/// Swapping the first two points negates the lifted determinant.
proof fn lemma_det4_swap12(a: Point, b: Point, c: Point, d: Point)
    ensures
        spec_det4(b, a, c, d) == -spec_det4(a, b, c, d),
{
    lemma_area2_antisymmetry(a, b, d);
    lemma_area2_antisymmetry(a, b, c);
    lemma_mul_of_negated(spec_q(c), spec_area2(a, b, d), spec_area2(b, a, d));
    lemma_mul_of_negated(spec_q(d), spec_area2(a, b, c), spec_area2(b, a, c));
}

/// Swapping the middle two points negates the lifted determinant.
proof fn lemma_det4_swap23(a: Point, b: Point, c: Point, d: Point)
    ensures
        spec_det4(a, c, b, d) == -spec_det4(a, b, c, d),
{
    lemma_area2_antisymmetry(b, c, d);
    lemma_area2_antisymmetry(a, b, c);
    lemma_mul_of_negated(spec_q(a), spec_area2(b, c, d), spec_area2(c, b, d));
    lemma_mul_of_negated(spec_q(d), spec_area2(a, b, c), spec_area2(a, c, b));
}

/// Swapping the last two points negates the lifted determinant.
proof fn lemma_det4_swap34(a: Point, b: Point, c: Point, d: Point)
    ensures
        spec_det4(a, b, d, c) == -spec_det4(a, b, c, d),
{
    lemma_area2_antisymmetry(b, c, d);
    lemma_area2_antisymmetry(a, c, d);
    lemma_mul_of_negated(spec_q(a), spec_area2(b, c, d), spec_area2(b, d, c));
    lemma_mul_of_negated(spec_q(b), spec_area2(a, c, d), spec_area2(a, d, c));
}

/// Circle membership does not depend on the order of the four points: the
/// concyclicity predicate agrees on all 24 permutations of its arguments.
/// Every transposition negates the lifted determinant, so its vanishing is
/// invariant, and collinear quadruples make it vanish as well.
pub proof fn lemma_concyclic_permutation_invariant(p1: Point, p2: Point, p3: Point, p4: Point)
    ensures
        spec_concyclic4(p1, p2, p3, p4) == spec_concyclic4(p1, p2, p4, p3),
        spec_concyclic4(p1, p2, p3, p4) == spec_concyclic4(p1, p3, p2, p4),
        spec_concyclic4(p1, p2, p3, p4) == spec_concyclic4(p1, p3, p4, p2),
        spec_concyclic4(p1, p2, p3, p4) == spec_concyclic4(p1, p4, p2, p3),
        spec_concyclic4(p1, p2, p3, p4) == spec_concyclic4(p1, p4, p3, p2),
        spec_concyclic4(p1, p2, p3, p4) == spec_concyclic4(p2, p1, p3, p4),
        spec_concyclic4(p1, p2, p3, p4) == spec_concyclic4(p2, p1, p4, p3),
        spec_concyclic4(p1, p2, p3, p4) == spec_concyclic4(p2, p3, p1, p4),
        spec_concyclic4(p1, p2, p3, p4) == spec_concyclic4(p2, p3, p4, p1),
        spec_concyclic4(p1, p2, p3, p4) == spec_concyclic4(p2, p4, p1, p3),
        spec_concyclic4(p1, p2, p3, p4) == spec_concyclic4(p2, p4, p3, p1),
        spec_concyclic4(p1, p2, p3, p4) == spec_concyclic4(p3, p1, p2, p4),
        spec_concyclic4(p1, p2, p3, p4) == spec_concyclic4(p3, p1, p4, p2),
        spec_concyclic4(p1, p2, p3, p4) == spec_concyclic4(p3, p2, p1, p4),
        spec_concyclic4(p1, p2, p3, p4) == spec_concyclic4(p3, p2, p4, p1),
        spec_concyclic4(p1, p2, p3, p4) == spec_concyclic4(p3, p4, p1, p2),
        spec_concyclic4(p1, p2, p3, p4) == spec_concyclic4(p3, p4, p2, p1),
        spec_concyclic4(p1, p2, p3, p4) == spec_concyclic4(p4, p1, p2, p3),
        spec_concyclic4(p1, p2, p3, p4) == spec_concyclic4(p4, p1, p3, p2),
        spec_concyclic4(p1, p2, p3, p4) == spec_concyclic4(p4, p2, p1, p3),
        spec_concyclic4(p1, p2, p3, p4) == spec_concyclic4(p4, p2, p3, p1),
        spec_concyclic4(p1, p2, p3, p4) == spec_concyclic4(p4, p3, p1, p2),
        spec_concyclic4(p1, p2, p3, p4) == spec_concyclic4(p4, p3, p2, p1),
{
    // Walk all 24 argument orders by adjacent transpositions; each step
    // relates the determinants of two orders up to sign.
    lemma_det4_swap34(p1, p2, p3, p4);
    lemma_det4_swap23(p1, p2, p4, p3);
    lemma_det4_swap34(p1, p4, p2, p3);
    lemma_det4_swap23(p1, p4, p3, p2);
    lemma_det4_swap34(p1, p3, p4, p2);
    lemma_det4_swap12(p1, p2, p3, p4);
    lemma_det4_swap34(p2, p1, p3, p4);
    lemma_det4_swap23(p2, p1, p4, p3);
    lemma_det4_swap34(p2, p4, p1, p3);
    lemma_det4_swap23(p2, p4, p3, p1);
    lemma_det4_swap34(p2, p3, p4, p1);
    lemma_det4_swap12(p1, p3, p2, p4);
    lemma_det4_swap34(p3, p1, p2, p4);
    lemma_det4_swap23(p3, p1, p4, p2);
    lemma_det4_swap34(p3, p4, p1, p2);
    lemma_det4_swap23(p3, p4, p2, p1);
    lemma_det4_swap34(p3, p2, p4, p1);
    lemma_det4_swap12(p1, p4, p3, p2);
    lemma_det4_swap34(p4, p1, p3, p2);
    lemma_det4_swap23(p4, p1, p2, p3);
    lemma_det4_swap34(p4, p2, p1, p3);
    lemma_det4_swap23(p4, p2, p3, p1);
    lemma_det4_swap34(p4, p3, p2, p1);
    // Each order's predicate is the vanishing of its determinant.
    lemma_concyclic_iff_det4_zero(p1, p2, p3, p4);
    lemma_concyclic_iff_det4_zero(p1, p2, p4, p3);
    lemma_concyclic_iff_det4_zero(p1, p3, p2, p4);
    lemma_concyclic_iff_det4_zero(p1, p3, p4, p2);
    lemma_concyclic_iff_det4_zero(p1, p4, p2, p3);
    lemma_concyclic_iff_det4_zero(p1, p4, p3, p2);
    lemma_concyclic_iff_det4_zero(p2, p1, p3, p4);
    lemma_concyclic_iff_det4_zero(p2, p1, p4, p3);
    lemma_concyclic_iff_det4_zero(p2, p3, p1, p4);
    lemma_concyclic_iff_det4_zero(p2, p3, p4, p1);
    lemma_concyclic_iff_det4_zero(p2, p4, p1, p3);
    lemma_concyclic_iff_det4_zero(p2, p4, p3, p1);
    lemma_concyclic_iff_det4_zero(p3, p1, p2, p4);
    lemma_concyclic_iff_det4_zero(p3, p1, p4, p2);
    lemma_concyclic_iff_det4_zero(p3, p2, p1, p4);
    lemma_concyclic_iff_det4_zero(p3, p2, p4, p1);
    lemma_concyclic_iff_det4_zero(p3, p4, p1, p2);
    lemma_concyclic_iff_det4_zero(p3, p4, p2, p1);
    lemma_concyclic_iff_det4_zero(p4, p1, p2, p3);
    lemma_concyclic_iff_det4_zero(p4, p1, p3, p2);
    lemma_concyclic_iff_det4_zero(p4, p2, p1, p3);
    lemma_concyclic_iff_det4_zero(p4, p2, p3, p1);
    lemma_concyclic_iff_det4_zero(p4, p3, p1, p2);
    lemma_concyclic_iff_det4_zero(p4, p3, p2, p1);
}

} // verus!
