//! Squared distances and the circle-against-capsule overlap test.

use crate::components::{Ball, Bounds, Transform};
use crate::fixed::square;
use vstd::prelude::*;

verus! {

/// Largest magnitude of a coordinate that the segment functions accept.
pub const REACH: i32 = 0x4000_0000;

/// Both coordinates of `p` lie within `REACH` of the origin.
pub open spec fn in_reach(p: (i32, i32)) -> bool {
    &&& -REACH <= p.0 <= REACH
    &&& -REACH <= p.1 <= REACH
}

/// Squared Euclidean distance between `(x1, y1)` and `(x2, y2)`.
pub open spec fn spec_square_distance(x1: int, y1: int, x2: int, y2: int) -> int {
    square(x1 - x2) + square(y1 - y2)
}

/// Dot product of `c - a` with `b - a`.
pub open spec fn projection(a: (int, int), b: (int, int), c: (int, int)) -> int {
    (c.0 - a.0) * (b.0 - a.0) + (c.1 - a.1) * (b.1 - a.1)
}

/// Cross product of `b - a` with `c - a`: zero exactly when the three
/// points are collinear.
pub open spec fn cross(a: (int, int), b: (int, int), c: (int, int)) -> int {
    (b.0 - a.0) * (c.1 - a.1) - (b.1 - a.1) * (c.0 - a.0)
}

/// Squared distance from `c` to the segment from `a` to `b`. An endpoint
/// is the answer whenever the projection of `c` reaches it; in between,
/// the squared length of the projection is rounded down before it is
/// taken off, so the result is the exact squared distance rounded up.
pub open spec fn spec_point_segment(a: (int, int), b: (int, int), c: (int, int)) -> int {
    let e = projection(a, b, c);
    let f = spec_square_distance(b.0, b.1, a.0, a.1);
    if e <= 0 {
        spec_square_distance(c.0, c.1, a.0, a.1)
    } else if e >= f {
        spec_square_distance(c.0, c.1, b.0, b.1)
    } else {
        spec_square_distance(c.0, c.1, a.0, a.1) - (e * e) / f
    }
}

/// `c` lies on the segment from `a` to `b`.
pub open spec fn on_segment(a: (int, int), b: (int, int), c: (int, int)) -> bool {
    &&& cross(a, b, c) == 0
    &&& 0 <= projection(a, b, c) <= spec_square_distance(b.0, b.1, a.0, a.1)
    &&& (a == b ==> c == a)
}

/// Whether a circle of radius `r` at `s` touches the vertical capsule
/// centred at `c` with half-width `hw` and half-height `hh`.
pub open spec fn spec_sphere_capsule(s: (int, int), r: int, c: (int, int), hw: int, hh: int) -> bool {
    spec_point_segment((c.0, c.1 + hh), (c.0, c.1 - hh), s) <= square(r + hw)
}

/// Widens a point.
pub open spec fn as_ints(p: (i32, i32)) -> (int, int) {
    (p.0 as int, p.1 as int)
}

proof fn lemma_product_bound(a: int, b: int, m: int)
    requires
        -m <= a <= m,
        -m <= b <= m,
    ensures
        -(m * m) <= a * b <= m * m,
{
    assert(-(m * m) <= a * b <= m * m) by (nonlinear_arith)
        requires
            -m <= a <= m,
            -m <= b <= m,
    ;
}

/// Squared Euclidean distance between two points.
pub fn square_distance(x1: i32, y1: i32, x2: i32, y2: i32) -> (d: i128)
    ensures
        d == spec_square_distance(x1 as int, y1 as int, x2 as int, y2 as int),
        d >= 0,
{
    let dx: i128 = x1 as i128 - x2 as i128;
    let dy: i128 = y1 as i128 - y2 as i128;
    proof {
        lemma_product_bound(dx as int, dx as int, 0x1_0000_0000);
        lemma_product_bound(dy as int, dy as int, 0x1_0000_0000);
        assert(dx * dx >= 0) by (nonlinear_arith);
        assert(dy * dy >= 0) by (nonlinear_arith);
    }
    dx * dx + dy * dy
}

/// Squared distance from point `c` to the segment from `a` to `b`.
pub fn square_distance_point_segment(a: (i32, i32), b: (i32, i32), c: (i32, i32)) -> (d: i128)
    requires
        in_reach(a),
        in_reach(b),
        in_reach(c),
    ensures
        d == spec_point_segment(as_ints(a), as_ints(b), as_ints(c)),
        d >= 0,
{
    let ab: (i128, i128) = (b.0 as i128 - a.0 as i128, b.1 as i128 - a.1 as i128);
    let ac: (i128, i128) = (c.0 as i128 - a.0 as i128, c.1 as i128 - a.1 as i128);
    let bc: (i128, i128) = (c.0 as i128 - b.0 as i128, c.1 as i128 - b.1 as i128);
    proof {
        let m = 0x8000_0000int;
        lemma_product_bound(ac.0 as int, ab.0 as int, m);
        lemma_product_bound(ac.1 as int, ab.1 as int, m);
        lemma_product_bound(ac.0 as int, ac.0 as int, m);
        lemma_product_bound(ac.1 as int, ac.1 as int, m);
        lemma_product_bound(bc.0 as int, bc.0 as int, m);
        lemma_product_bound(bc.1 as int, bc.1 as int, m);
        lemma_product_bound(ab.0 as int, ab.0 as int, m);
        lemma_product_bound(ab.1 as int, ab.1 as int, m);
        assert(m * m == 0x4000_0000_0000_0000) by (nonlinear_arith)
            requires
                m == 0x8000_0000,
        ;
        assert(ac.0 * ac.0 >= 0) by (nonlinear_arith);
        assert(ac.1 * ac.1 >= 0) by (nonlinear_arith);
        assert(bc.0 * bc.0 >= 0) by (nonlinear_arith);
        assert(bc.1 * bc.1 >= 0) by (nonlinear_arith);
        assert(ab.0 * ab.0 >= 0) by (nonlinear_arith);
        assert(ab.1 * ab.1 >= 0) by (nonlinear_arith);
    }
    let e: i128 = ac.0 * ab.0 + ac.1 * ab.1;
    let ac2: i128 = ac.0 * ac.0 + ac.1 * ac.1;
    if e <= 0 {
        return ac2;
    }
    let f: i128 = ab.0 * ab.0 + ab.1 * ab.1;
    if e >= f {
        return bc.0 * bc.0 + bc.1 * bc.1;
    }
    proof {
        lemma_product_bound(e as int, e as int, 0x8000_0000_0000_0000);
        assert(0x8000_0000_0000_0000int * 0x8000_0000_0000_0000int
            == 0x4000_0000_0000_0000_0000_0000_0000_0000int) by (nonlinear_arith);
        lemma_interior_nonnegative(as_ints(a), as_ints(b), as_ints(c));
    }
    ac2 - (e * e) / f
}

/// The squares of a dot product and of the matching cross product add up
/// to the product of the two squared lengths.
pub proof fn lemma_lagrange(a: (int, int), b: (int, int), c: (int, int))
    ensures
        projection(a, b, c) * projection(a, b, c) + cross(a, b, c) * cross(a, b, c)
            == spec_square_distance(c.0, c.1, a.0, a.1) * spec_square_distance(b.0, b.1, a.0, a.1),
{
    let p = b.0 - a.0;
    let q = b.1 - a.1;
    let u = c.0 - a.0;
    let v = c.1 - a.1;
    let up = u * p;
    let vq = v * q;
    let pv = p * v;
    let qu = q * u;
    assert((up + vq) * (up + vq) == up * up + 2 * (up * vq) + vq * vq) by (nonlinear_arith);
    assert((pv - qu) * (pv - qu) == pv * pv - 2 * (pv * qu) + qu * qu) by (nonlinear_arith);
    assert(up * vq == pv * qu) by (nonlinear_arith)
        requires
            up == u * p,
            vq == v * q,
            pv == p * v,
            qu == q * u,
    ;
    assert(up * up == (u * u) * (p * p)) by (nonlinear_arith)
        requires
            up == u * p,
    ;
    assert(vq * vq == (v * v) * (q * q)) by (nonlinear_arith)
        requires
            vq == v * q,
    ;
    assert(pv * pv == (v * v) * (p * p)) by (nonlinear_arith)
        requires
            pv == p * v,
    ;
    assert(qu * qu == (u * u) * (q * q)) by (nonlinear_arith)
        requires
            qu == q * u,
    ;
    assert((u * u + v * v) * (p * p + q * q) == (u * u) * (p * p) + (u * u) * (q * q) + (v * v) * (
    p * p) + (v * v) * (q * q)) by (nonlinear_arith);
}

/// Between the endpoints the rounded-down squared projection never
/// exceeds the squared distance to `a`.
proof fn lemma_interior_nonnegative(a: (int, int), b: (int, int), c: (int, int))
    requires
        0 < projection(a, b, c) < spec_square_distance(b.0, b.1, a.0, a.1),
    ensures
        (projection(a, b, c) * projection(a, b, c)) / spec_square_distance(b.0, b.1, a.0, a.1)
            <= spec_square_distance(c.0, c.1, a.0, a.1),
        spec_point_segment(a, b, c) >= 0,
{
    let e = projection(a, b, c);
    let f = spec_square_distance(b.0, b.1, a.0, a.1);
    let g = spec_square_distance(c.0, c.1, a.0, a.1);
    let x = cross(a, b, c);
    lemma_lagrange(a, b, c);
    assert(x * x >= 0) by (nonlinear_arith);
    assert(e * e <= g * f);
    assert((e * e) / f <= g) by (nonlinear_arith)
        requires
            f > 0,
            e * e <= g * f,
    ;
}

/// Whether a circle touches a vertical capsule: the circle has the centre
/// of `sphere.0` and the radius of `sphere.1`, the capsule the centre of
/// `capsule.0` and the extents of `capsule.1`.
pub fn test_sphere_capsule(sphere: (&Transform, &Ball), capsule: (&Transform, &Bounds)) -> (hit:
    bool)
    requires
        sphere.0.valid(),
        capsule.0.valid(),
        capsule.1.valid(),
    ensures
        hit == spec_sphere_capsule(
            as_ints(sphere.0.position),
            sphere.1.radius as int,
            as_ints(capsule.0.position),
            capsule.1.0 as int,
            capsule.1.1 as int,
        ),
{
    let centre = capsule.0.position;
    let dist2 = square_distance_point_segment(
        (centre.0, centre.1 + capsule.1.1),
        (centre.0, centre.1 - capsule.1.1),
        sphere.0.position,
    );
    let reach: i128 = sphere.1.radius as i128 + capsule.1.0 as i128;
    proof {
        lemma_product_bound(reach as int, reach as int, 0x1_0000_0000);
    }
    dist2 <= reach * reach
}

/// The distance to a segment is zero for a point on it, and is the
/// distance to an endpoint whenever the projection of the point falls on
/// or beyond that endpoint.
pub proof fn lemma_point_segment_cases(a: (int, int), b: (int, int), c: (int, int))
    ensures
        on_segment(a, b, c) ==> spec_point_segment(a, b, c) == 0,
        projection(a, b, c) <= 0 ==> spec_point_segment(a, b, c) == spec_square_distance(
            c.0,
            c.1,
            a.0,
            a.1,
        ),
        projection(a, b, c) >= spec_square_distance(b.0, b.1, a.0, a.1) ==> spec_point_segment(
            a,
            b,
            c,
        ) == spec_square_distance(c.0, c.1, b.0, b.1),
{
    let e = projection(a, b, c);
    let f = spec_square_distance(b.0, b.1, a.0, a.1);
    let g = spec_square_distance(c.0, c.1, a.0, a.1);
    let p = b.0 - a.0;
    let q = b.1 - a.1;
    let u = c.0 - a.0;
    let v = c.1 - a.1;
    assert(p * p >= 0 && q * q >= 0 && u * u >= 0 && v * v >= 0) by (nonlinear_arith);
    if f == 0 {
        assert(p == 0) by (nonlinear_arith)
            requires
                p * p == 0,
        ;
        assert(q == 0) by (nonlinear_arith)
            requires
                q * q == 0,
        ;
        assert(a == b);
        assert(e == 0) by (nonlinear_arith)
            requires
                e == u * p + v * q,
                p == 0,
                q == 0,
        ;
    }
    if on_segment(a, b, c) {
        lemma_lagrange(a, b, c);
        assert(e * e == g * f);
        if e <= 0 {
            if f != 0 {
                assert(g == 0) by (nonlinear_arith)
                    requires
                        g * f == e * e,
                        e == 0,
                        f > 0,
                        g >= 0,
                ;
            }
        } else if e >= f {
            assert(e == f);
            assert(g == f) by (nonlinear_arith)
                requires
                    g * f == f * f,
                    f > 0,
            ;
            // c - b has the squared length g - 2e + f
            assert(spec_square_distance(c.0, c.1, b.0, b.1) == g - 2 * e + f) by (nonlinear_arith)
                requires
                    e == u * p + v * q,
                    f == p * p + q * q,
                    g == u * u + v * v,
                    spec_square_distance(c.0, c.1, b.0, b.1) == (u - p) * (u - p) + (v - q) * (v
                        - q),
            ;
        } else {
            assert((e * e) / f == g) by (nonlinear_arith)
                requires
                    e * e == g * f,
                    f > 0,
            ;
        }
    }
}

/// Between its endpoints, the distance to a segment is the exact squared
/// perpendicular distance `cross^2 / length^2`, rounded up.
pub proof fn lemma_point_segment_interior(a: (int, int), b: (int, int), c: (int, int))
    requires
        0 < projection(a, b, c) < spec_square_distance(b.0, b.1, a.0, a.1),
    ensures
        ({
            let d = spec_point_segment(a, b, c);
            let f = spec_square_distance(b.0, b.1, a.0, a.1);
            let x = cross(a, b, c);
            (d - 1) * f < x * x <= d * f
        }),
{
    let e = projection(a, b, c);
    let f = spec_square_distance(b.0, b.1, a.0, a.1);
    let g = spec_square_distance(c.0, c.1, a.0, a.1);
    let x = cross(a, b, c);
    let d = spec_point_segment(a, b, c);
    let k = (e * e) / f;
    lemma_lagrange(a, b, c);
    vstd::arithmetic::div_mod::lemma_fundamental_div_mod(e * e, f);
    vstd::arithmetic::div_mod::lemma_mod_bound(e * e, f);
    let r = (e * e) % f;
    assert(e * e == f * k + r);
    assert(d == g - k);
    assert(d * f == g * f - k * f) by (nonlinear_arith)
        requires
            d == g - k,
    ;
    assert(k * f == f * k) by (nonlinear_arith);
    assert((d - 1) * f == d * f - f) by (nonlinear_arith);
}

/// Swapping the endpoints of the segment does not change the distance.
pub proof fn lemma_point_segment_swap(a: (int, int), b: (int, int), c: (int, int))
    ensures
        spec_point_segment(a, b, c) == spec_point_segment(b, a, c),
{
    let e = projection(a, b, c);
    let e2 = projection(b, a, c);
    let f = spec_square_distance(b.0, b.1, a.0, a.1);
    let f2 = spec_square_distance(a.0, a.1, b.0, b.1);
    let g = spec_square_distance(c.0, c.1, a.0, a.1);
    let h = spec_square_distance(c.0, c.1, b.0, b.1);
    let p = b.0 - a.0;
    let q = b.1 - a.1;
    let u = c.0 - a.0;
    let v = c.1 - a.1;
    assert(f2 == f) by (nonlinear_arith)
        requires
            f == p * p + q * q,
            f2 == (-p) * (-p) + (-q) * (-q),
    ;
    assert(e2 == f - e) by (nonlinear_arith)
        requires
            e == u * p + v * q,
            f == p * p + q * q,
            e2 == (u - p) * (-p) + (v - q) * (-q),
    ;
    assert(h == g - 2 * e + f) by (nonlinear_arith)
        requires
            e == u * p + v * q,
            f == p * p + q * q,
            g == u * u + v * v,
            h == (u - p) * (u - p) + (v - q) * (v - q),
    ;
    lemma_point_segment_cases(a, b, c);
    lemma_point_segment_cases(b, a, c);
    if 0 < e < f {
        assert(e2 * e2 == f * (f - 2 * e) + e * e) by (nonlinear_arith)
            requires
                e2 == f - e,
        ;
        vstd::arithmetic::div_mod::lemma_div_multiples_vanish_fancy(f - 2 * e, 0, f);
        vstd::arithmetic::div_mod::lemma_hoist_over_denominator(e * e, f - 2 * e, f as nat);
        assert((e * e) / f + (f - 2 * e) == (e * e + (f - 2 * e) * f) / f);
        assert((f - 2 * e) * f == f * (f - 2 * e)) by (nonlinear_arith);
    }
}

/// Moving the circle and the capsule by the same vector `t` keeps the
/// outcome of the overlap test.
pub proof fn lemma_overlap_shift(
    s: (int, int),
    r: int,
    c: (int, int),
    hw: int,
    hh: int,
    t: (int, int),
)
    ensures
        spec_sphere_capsule((s.0 + t.0, s.1 + t.1), r, (c.0 + t.0, c.1 + t.1), hw, hh)
            == spec_sphere_capsule(s, r, c, hw, hh),
{
    let a = (c.0, c.1 + hh);
    let b = (c.0, c.1 - hh);
    let a2 = (c.0 + t.0, c.1 + t.1 + hh);
    let b2 = (c.0 + t.0, c.1 + t.1 - hh);
    let s2 = (s.0 + t.0, s.1 + t.1);
    lemma_same_offsets(a, b, s, a2, b2, s2);
}

/// Mirroring the circle and the capsule in the vertical line `x = k`
/// keeps the outcome of the overlap test.
pub proof fn lemma_overlap_mirror_x(s: (int, int), r: int, c: (int, int), hw: int, hh: int, k: int)
    ensures
        spec_sphere_capsule((2 * k - s.0, s.1), r, (2 * k - c.0, c.1), hw, hh)
            == spec_sphere_capsule(s, r, c, hw, hh),
{
    let a = (c.0, c.1 + hh);
    let b = (c.0, c.1 - hh);
    let a2 = (2 * k - c.0, c.1 + hh);
    let b2 = (2 * k - c.0, c.1 - hh);
    let s2 = (2 * k - s.0, s.1);
    let u = s.0 - c.0;
    assert((-u) * (-u) == u * u) by (nonlinear_arith);
    assert((-u) * 0 == 0 && u * 0 == 0) by (nonlinear_arith);
    assert(projection(a2, b2, s2) == projection(a, b, s));
    assert(spec_square_distance(b2.0, b2.1, a2.0, a2.1) == spec_square_distance(
        b.0,
        b.1,
        a.0,
        a.1,
    ));
    assert(spec_square_distance(s2.0, s2.1, a2.0, a2.1) == spec_square_distance(
        s.0,
        s.1,
        a.0,
        a.1,
    ));
    assert(spec_square_distance(s2.0, s2.1, b2.0, b2.1) == spec_square_distance(
        s.0,
        s.1,
        b.0,
        b.1,
    ));
}

/// Mirroring the circle and the capsule in the horizontal line `y = k`
/// keeps the outcome of the overlap test.
pub proof fn lemma_overlap_mirror_y(s: (int, int), r: int, c: (int, int), hw: int, hh: int, k: int)
    ensures
        spec_sphere_capsule((s.0, 2 * k - s.1), r, (c.0, 2 * k - c.1), hw, hh)
            == spec_sphere_capsule(s, r, c, hw, hh),
{
    let a = (c.0, c.1 + hh);
    let b = (c.0, c.1 - hh);
    // the mirrored capsule's ends are the images of the other end each
    let a2 = (c.0, 2 * k - c.1 + hh);
    let b2 = (c.0, 2 * k - c.1 - hh);
    let s2 = (s.0, 2 * k - s.1);
    lemma_point_segment_swap(a, b, s);
    let v = s.1 - b.1;
    let w = a.1 - b.1;
    let z = s.1 - a.1;
    assert((-v) * (-w) == v * w) by (nonlinear_arith);
    assert((-w) * (-w) == w * w) by (nonlinear_arith);
    assert((-v) * (-v) == v * v) by (nonlinear_arith);
    assert((-z) * (-z) == z * z) by (nonlinear_arith);
    assert(projection(a2, b2, s2) == projection(b, a, s));
    assert(spec_square_distance(b2.0, b2.1, a2.0, a2.1) == spec_square_distance(
        a.0,
        a.1,
        b.0,
        b.1,
    ));
    assert(spec_square_distance(s2.0, s2.1, a2.0, a2.1) == spec_square_distance(
        s.0,
        s.1,
        b.0,
        b.1,
    ));
    assert(spec_square_distance(s2.0, s2.1, b2.0, b2.1) == spec_square_distance(
        s.0,
        s.1,
        a.0,
        a.1,
    ));
}

/// The distance to a segment depends only on the offsets between the
/// three points.
proof fn lemma_same_offsets(
    a: (int, int),
    b: (int, int),
    c: (int, int),
    a2: (int, int),
    b2: (int, int),
    c2: (int, int),
)
    requires
        b2.0 - a2.0 == b.0 - a.0,
        b2.1 - a2.1 == b.1 - a.1,
        c2.0 - a2.0 == c.0 - a.0,
        c2.1 - a2.1 == c.1 - a.1,
    ensures
        spec_point_segment(a2, b2, c2) == spec_point_segment(a, b, c),
{
    assert(projection(a2, b2, c2) == projection(a, b, c));
    assert(spec_square_distance(b2.0, b2.1, a2.0, a2.1) == spec_square_distance(
        b.0,
        b.1,
        a.0,
        a.1,
    ));
    assert(spec_square_distance(c2.0, c2.1, a2.0, a2.1) == spec_square_distance(
        c.0,
        c.1,
        a.0,
        a.1,
    ));
    assert(c2.0 - b2.0 == c.0 - b.0);
    assert(c2.1 - b2.1 == c.1 - b.1);
    assert(spec_square_distance(c2.0, c2.1, b2.0, b2.1) == spec_square_distance(
        c.0,
        c.1,
        b.0,
        b.1,
    ));
}

} // verus!
