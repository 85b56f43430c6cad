//! Fixed-point 3D geometry for the sphere mesh.
//!
//! A coordinate of `SCALE` stands for 1.0, so a point on the unit sphere
//! has coordinates in `[-SCALE, SCALE]`. Midpoints and normalization are
//! computed entirely in integers (with an exact integer square root), which
//! keeps the mesh builder deterministic and free of floating point.

use vstd::prelude::*;

verus! {

/// Fixed-point unit: a coordinate of this value stands for 1.0.
pub const SCALE: i64 = 1_000_000;

/// Bound on the coordinates accepted by the fixed-point operations; wide
/// enough for the raw golden-ratio icosahedron coordinates and for every
/// midpoint of two unit-sphere points.
pub const COORD_LIMIT: i64 = 2_000_000;

/// A point in 3D space, each coordinate in fixed-point units of `SCALE`.
#[derive(Clone, Copy, Debug, PartialEq, Eq, Structural)]
pub struct Point3 {
    pub x: i64,
    pub y: i64,
    pub z: i64,
}

/// Absolute value on mathematical integers.
pub open spec fn abs_val(v: int) -> int {
    if v >= 0 {
        v
    } else {
        -v
    }
}

/// Halving that rounds toward zero, as the hardware division does.
pub open spec fn half_toward_zero(v: int) -> int {
    if v >= 0 {
        v / 2
    } else {
        -((-v) / 2)
    }
}

/// `v * SCALE / d` rounded toward zero, as the hardware division does.
pub open spec fn scaled_ratio(v: int, d: int) -> int
    recommends
        d > 0,
{
    if v >= 0 {
        (v * SCALE) / d
    } else {
        -(((-v) * SCALE) / d)
    }
}

/// `r` is the integer square root of `n`.
pub open spec fn is_isqrt(n: int, r: int) -> bool {
    &&& 0 <= r
    &&& r * r <= n
    &&& n < (r + 1) * (r + 1)
}

/// The integer square root, as a mathematical function.
pub open spec fn spec_isqrt(n: int) -> int {
    choose|r: int| is_isqrt(n, r)
}

impl Point3 {
    /// Squared Euclidean length, in squared fixed-point units.
    pub open spec fn norm_sq(self) -> int {
        (self.x as int) * (self.x as int) + (self.y as int) * (self.y as int) + (self.z as int)
            * (self.z as int)
    }

    /// All three coordinates lie within `b` of zero.
    pub open spec fn in_bounds(self, b: int) -> bool {
        &&& abs_val(self.x as int) <= b
        &&& abs_val(self.y as int) <= b
        &&& abs_val(self.z as int) <= b
    }
}

/// The integer square root is unique.
pub proof fn lemma_isqrt_unique(n: int, a: int, b: int)
    requires
        is_isqrt(n, a),
        is_isqrt(n, b),
    ensures
        a == b,
{
    if a < b {
        assert(b * b <= n < (a + 1) * (a + 1));
        assert((a + 1) * (a + 1) <= b * b) by (nonlinear_arith)
            requires
                0 <= a,
                a + 1 <= b,
        ;
    }
    if b < a {
        assert(a * a <= n < (b + 1) * (b + 1));
        assert((b + 1) * (b + 1) <= a * a) by (nonlinear_arith)
            requires
                0 <= b,
                b + 1 <= a,
        ;
    }
}

/// Exact integer square root by binary search.
pub fn isqrt(n: u64) -> (r: u64)
    ensures
        is_isqrt(n as int, r as int),
        r == spec_isqrt(n as int),
        r < 0x1_0000_0000u64,
{
    let mut lo: u64 = 0;
    let mut hi: u64 = 0x1_0000_0000;
    proof {
        assert((n as int) < 0x1_0000_0000 * 0x1_0000_0000);
    }
    while lo + 1 < hi
        invariant
            lo < hi <= 0x1_0000_0000u64,
            (lo as int) * (lo as int) <= n as int,
            (n as int) < (hi as int) * (hi as int),
        decreases hi - lo,
    {
        let mid = lo + (hi - lo) / 2;
        assert(lo < mid < hi);
        proof {
            assert((mid as int) * (mid as int) <= 0x1_0000_0000 * 0x1_0000_0000) by (nonlinear_arith)
                requires
                    0 <= mid as int <= 0x1_0000_0000,
            ;
        }
        if (mid as u128) * (mid as u128) <= (n as u128) {
            lo = mid;
        } else {
            hi = mid;
        }
    }
    proof {
        assert(hi == lo + 1);
        assert(is_isqrt(n as int, lo as int));
        lemma_isqrt_unique(n as int, lo as int, spec_isqrt(n as int));
    }
    lo
}

/// Halving toward zero on machine integers.
fn half_i64(v: i64) -> (r: i64)
    requires
        -0x4000_0000_0000_0000 <= v,
    ensures
        r == half_toward_zero(v as int),
{
    if v >= 0 {
        ((v as u64) / 2) as i64
    } else {
        let q = ((-v) as u64) / 2;
        -(q as i64)
    }
}

/// The component-wise midpoint of two points, rounding toward zero.
pub open spec fn spec_midpoint(a: Point3, b: Point3) -> Point3 {
    Point3 {
        x: half_toward_zero(a.x as int + b.x as int) as i64,
        y: half_toward_zero(a.y as int + b.y as int) as i64,
        z: half_toward_zero(a.z as int + b.z as int) as i64,
    }
}

/// Midpoint of two points whose coordinates are bounded by `COORD_LIMIT`.
pub fn midpoint(a: &Point3, b: &Point3) -> (r: Point3)
    requires
        a.in_bounds(COORD_LIMIT as int),
        b.in_bounds(COORD_LIMIT as int),
    ensures
        r == spec_midpoint(*a, *b),
        r.in_bounds(COORD_LIMIT as int),
{
    let x = half_i64(a.x + b.x);
    let y = half_i64(a.y + b.y);
    let z = half_i64(a.z + b.z);
    Point3 { x, y, z }
}

/// The midpoint does not depend on the order of its arguments.
pub proof fn lemma_midpoint_symmetric(a: Point3, b: Point3)
    ensures
        spec_midpoint(a, b) == spec_midpoint(b, a),
{
}

/// Coordinate `v` of a vector with squared length `nsq`, rescaled so that
/// the vector has length `SCALE` (rounded toward zero).
pub open spec fn normalized_coord(v: int, nsq: int) -> int {
    scaled_ratio(v, spec_isqrt(nsq))
}

/// The point `p` rescaled onto the sphere of radius `SCALE`; meaningful
/// only when `p.norm_sq() > 0`.
pub open spec fn spec_normalized(p: Point3) -> Point3 {
    Point3 {
        x: normalized_coord(p.x as int, p.norm_sq()) as i64,
        y: normalized_coord(p.y as int, p.norm_sq()) as i64,
        z: normalized_coord(p.z as int, p.norm_sq()) as i64,
    }
}

/// One coordinate of the rescaling: `v * SCALE / d` toward zero.
fn scale_coord(v: i64, d: u64) -> (r: i64)
    requires
        abs_val(v as int) <= COORD_LIMIT as int,
        0 < d,
    ensures
        r == scaled_ratio(v as int, d as int),
{
    if v >= 0 {
        (((v as u64) * (SCALE as u64)) / d) as i64
    } else {
        let q = (((-v) as u64) * (SCALE as u64)) / d;
        proof {
            assert(((-v) as u64) * (SCALE as u64) <= 0x7fff_ffff_ffff_ffffu64) by (nonlinear_arith)
                requires
                    ((-v) as u64) <= 2_000_000u64,
            ;
            assert(q <= ((-v) as u64) * (SCALE as u64));
        }
        -(q as i64)
    }
}

/// `v * SCALE / d` stays within `SCALE` when `|v| <= d`.
proof fn lemma_scaled_ratio_bounded(v: int, d: int)
    requires
        d > 0,
        abs_val(v) <= d,
    ensures
        abs_val(scaled_ratio(v, d)) <= SCALE as int,
{
    let a = abs_val(v);
    assert(a * SCALE <= d * SCALE) by (nonlinear_arith)
        requires
            0 <= a <= d,
            SCALE > 0,
    ;
    vstd::arithmetic::div_mod::lemma_div_is_ordered(a * SCALE, d * SCALE, d);
    vstd::arithmetic::div_mod::lemma_div_by_multiple(SCALE as int, d);
    assert((d * SCALE) / d == SCALE) by {
        vstd::arithmetic::mul::lemma_mul_is_commutative(d, SCALE as int);
    }
    vstd::arithmetic::div_mod::lemma_div_pos_is_pos(a * SCALE, d);
    assert(a * SCALE >= 0) by (nonlinear_arith)
        requires
            a >= 0,
            SCALE > 0,
    ;
}

/// Within rounding of the unit sphere: every coordinate lies in
/// `[-SCALE, SCALE]` and the squared length falls short of `SCALE`
/// squared by less than `6 * SCALE + 3`, the worst the three
/// truncating divisions can lose.
pub open spec fn near_unit(p: Point3) -> bool {
    &&& p.in_bounds(SCALE as int)
    &&& p.norm_sq() > SCALE * SCALE - 6 * SCALE - 3
}

/// An integer square root exists for every nonnegative integer.
pub proof fn lemma_isqrt_exists(n: int)
    requires
        n >= 0,
    ensures
        is_isqrt(n, spec_isqrt(n)),
    decreases n,
{
    if n == 0 {
        assert(is_isqrt(0, 0));
    } else {
        lemma_isqrt_exists(n - 1);
        let r = spec_isqrt(n - 1);
        if (r + 1) * (r + 1) <= n {
            assert(n <= (r + 1) * (r + 1));
            assert((r + 1) * (r + 1) < (r + 2) * (r + 2)) by (nonlinear_arith)
                requires
                    r >= 0,
            ;
            assert(is_isqrt(n, r + 1));
        } else {
            assert(is_isqrt(n, r));
        }
    }
    let w = choose|w: int| is_isqrt(n, w);
    lemma_isqrt_unique(n, w, spec_isqrt(n));
}

/// Squared bounds for one rescaled coordinate: writing `u` for its
/// magnitude, `d*d*u*u` sits within one truncation step of `v*v*SCALE*SCALE`.
proof fn lemma_scaled_coord_sq(v: int, d: int)
    requires
        d > 0,
        abs_val(v) <= d,
    ensures
        ({
            let q = scaled_ratio(v, d);
            let u = abs_val(q);
            &&& q * q == u * u
            &&& 0 <= u <= SCALE
            &&& d * d * (u * u) <= (v * v) * ((SCALE * SCALE) as int)
            &&& (v * v) * ((SCALE * SCALE) as int) < d * d * ((u + 1) * (u + 1))
        }),
{
    let a = abs_val(v);
    assert(a * SCALE >= 0) by (nonlinear_arith)
        requires
            a >= 0,
    ;
    let u = (a * SCALE) / d;
    vstd::arithmetic::div_mod::lemma_div_pos_is_pos(a * SCALE, d);
    vstd::arithmetic::div_mod::lemma_fundamental_div_mod(a * SCALE, d);
    vstd::arithmetic::div_mod::lemma_mod_bound(a * SCALE, d);
    assert(d * u <= a * SCALE);
    assert(a * SCALE < d * (u + 1)) by (nonlinear_arith)
        requires
            a * SCALE == d * u + (a * SCALE) % d,
            (a * SCALE) % d < d,
    ;
    assert((d * u) * (d * u) <= (a * SCALE) * (a * SCALE)) by (nonlinear_arith)
        requires
            0 <= d * u,
            d * u <= a * SCALE,
    ;
    assert((a * SCALE) * (a * SCALE) < (d * (u + 1)) * (d * (u + 1))) by (nonlinear_arith)
        requires
            0 <= a * SCALE,
            a * SCALE < d * (u + 1),
    ;
    assert((d * u) * (d * u) == d * d * (u * u)) by (nonlinear_arith);
    assert((d * (u + 1)) * (d * (u + 1)) == d * d * ((u + 1) * (u + 1))) by (nonlinear_arith);
    assert((a * SCALE) * (a * SCALE) == (a * a) * ((SCALE * SCALE) as int)) by (nonlinear_arith);
    if v >= 0 {
        assert(a == v);
    } else {
        assert(a == -v);
        assert(a * a == v * v) by (nonlinear_arith)
            requires
                a == -v,
        ;
    }
    let q = scaled_ratio(v, d);
    assert(q == u || q == -u);
    assert(q * q == u * u) by (nonlinear_arith)
        requires
            q == u || q == -u,
    ;
    lemma_scaled_ratio_bounded(v, d);
}

/// Rescaling a nonzero vector onto the sphere lands within rounding of the
/// unit sphere: the three truncating divisions lose less than `6*SCALE + 3`
/// of squared length, and no coordinate can exceed `SCALE`.
pub proof fn lemma_normalized_near_unit(p: Point3)
    requires
        p.in_bounds(COORD_LIMIT as int),
        p.norm_sq() > 0,
    ensures
        near_unit(spec_normalized(p)),
{
    let nsq = p.norm_sq();
    lemma_isqrt_exists(nsq);
    let d = spec_isqrt(nsq);
    assert(d > 0) by {
        if d == 0 {
            assert(nsq < (0 + 1) * (0 + 1));
        }
    }
    assert((p.x as int) * (p.x as int) >= 0 && (p.y as int) * (p.y as int) >= 0 && (p.z as int)
        * (p.z as int) >= 0) by (nonlinear_arith);
    lemma_coord_le_root(p.x as int, nsq, d);
    lemma_coord_le_root(p.y as int, nsq, d);
    lemma_coord_le_root(p.z as int, nsq, d);
    lemma_scaled_coord_sq(p.x as int, d);
    lemma_scaled_coord_sq(p.y as int, d);
    lemma_scaled_coord_sq(p.z as int, d);
    let qx = scaled_ratio(p.x as int, d);
    let qy = scaled_ratio(p.y as int, d);
    let qz = scaled_ratio(p.z as int, d);
    let ux = abs_val(qx);
    let uy = abs_val(qy);
    let uz = abs_val(qz);
    let ss = (SCALE * SCALE) as int;
    // summing the three per-coordinate lower bounds
    assert(nsq * ss < d * d * ((ux + 1) * (ux + 1) + (uy + 1) * (uy + 1) + (uz + 1) * (uz + 1)))
        by (nonlinear_arith)
        requires
            nsq == (p.x as int) * (p.x as int) + (p.y as int) * (p.y as int) + (p.z as int) * (
            p.z as int),
            ((p.x as int) * (p.x as int)) * ss < d * d * ((ux + 1) * (ux + 1)),
            ((p.y as int) * (p.y as int)) * ss < d * d * ((uy + 1) * (uy + 1)),
            ((p.z as int) * (p.z as int)) * ss < d * d * ((uz + 1) * (uz + 1)),
    ;
    // the squared root is no more than the squared length
    assert(d * d * ss <= nsq * ss) by (nonlinear_arith)
        requires
            d * d <= nsq,
            ss >= 0,
    ;
    // cancel the positive factor d * d
    assert(ss < (ux + 1) * (ux + 1) + (uy + 1) * (uy + 1) + (uz + 1) * (uz + 1))
        by (nonlinear_arith)
        requires
            d * d * ss < d * d * ((ux + 1) * (ux + 1) + (uy + 1) * (uy + 1) + (uz + 1) * (uz + 1)),
            d > 0,
    ;
    // expand the squares and bound the cross terms by 2 * SCALE each
    assert((ux + 1) * (ux + 1) + (uy + 1) * (uy + 1) + (uz + 1) * (uz + 1) == ux * ux + uy * uy + uz
        * uz + 2 * ux + 2 * uy + 2 * uz + 3) by (nonlinear_arith);
    let q = spec_normalized(p);
    assert(q.x == qx && q.y == qy && q.z == qz);
    assert(q.norm_sq() == qx * qx + qy * qy + qz * qz);
    assert(q.norm_sq() > SCALE * SCALE - 6 * SCALE - 3);
    assert(q.in_bounds(SCALE as int));
}

/// Rescale `p` onto the sphere of radius `SCALE`; `None` exactly when `p`
/// is the origin and has no direction to keep.
pub fn normalized(p: &Point3) -> (r: Option<Point3>)
    requires
        p.in_bounds(COORD_LIMIT as int),
    ensures
        match r {
            Some(q) => {
                &&& p.norm_sq() > 0
                &&& q == spec_normalized(*p)
                &&& near_unit(q)
            },
            None => p.norm_sq() == 0,
        },
{
    proof {
        assert((p.x as int) * (p.x as int) <= 2_000_000 * 2_000_000 && (p.x as int) * (p.x as int)
            >= 0) by (nonlinear_arith)
            requires
                abs_val(p.x as int) <= 2_000_000,
        ;
        assert((p.y as int) * (p.y as int) <= 2_000_000 * 2_000_000 && (p.y as int) * (p.y as int)
            >= 0) by (nonlinear_arith)
            requires
                abs_val(p.y as int) <= 2_000_000,
        ;
        assert((p.z as int) * (p.z as int) <= 2_000_000 * 2_000_000 && (p.z as int) * (p.z as int)
            >= 0) by (nonlinear_arith)
            requires
                abs_val(p.z as int) <= 2_000_000,
        ;
    }
    let xs = p.x * p.x;
    let ys = p.y * p.y;
    let zs = p.z * p.z;
    let nsq = (xs + ys + zs) as u64;
    if nsq == 0 {
        return None;
    }
    let d = isqrt(nsq);
    proof {
        if d == 0 {
            assert((0 + 1) * (0 + 1) > nsq as int);
        }
        lemma_coord_le_root(p.x as int, nsq as int, d as int);
        lemma_coord_le_root(p.y as int, nsq as int, d as int);
        lemma_coord_le_root(p.z as int, nsq as int, d as int);
        lemma_scaled_ratio_bounded(p.x as int, d as int);
        lemma_scaled_ratio_bounded(p.y as int, d as int);
        lemma_scaled_ratio_bounded(p.z as int, d as int);
    }
    let x = scale_coord(p.x, d);
    let y = scale_coord(p.y, d);
    let z = scale_coord(p.z, d);
    proof {
        lemma_normalized_near_unit(*p);
    }
    Some(Point3 { x, y, z })
}

/// Each coordinate of a vector is bounded by the integer square root of
/// the squared length.
proof fn lemma_coord_le_root(v: int, nsq: int, d: int)
    requires
        is_isqrt(nsq, d),
        v * v <= nsq,
    ensures
        abs_val(v) <= d,
{
    let a = abs_val(v);
    if v >= 0 {
        assert(a == v);
    } else {
        assert(a == -v);
        assert(a * a == v * v) by (nonlinear_arith)
            requires
                a == -v,
        ;
    }
    if a > d {
        assert((d + 1) * (d + 1) <= a * a) by (nonlinear_arith)
            requires
                0 <= d,
                d + 1 <= a,
        ;
    }
}

} // verus!
