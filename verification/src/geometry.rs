//! Points on the integer grid of the galaxy map, and the exact Euclidean
//! comparisons that range queries and route planning rest on.
//!
//! Distances are never rounded on the way in: two points are compared through
//! the square of their distance, which is an integer. Where a length itself is
//! wanted it is rounded up to the next whole grid unit, and the contract says
//! so.

use vstd::prelude::*;

verus! {

/// A point in three dimensions, in whole grid units.
///
/// The unit is the caller's choice; the galaxy map itself lies on a grid of
/// 1/32 light-year.
#[derive(Clone, Copy, Debug, PartialEq, Eq, Structural)]
pub struct Coordinate {
    pub x: i32,
    pub y: i32,
    pub z: i32,
}

/// `n` times `n`.
pub open spec fn square(n: int) -> int {
    n * n
}

/// `r` is the least natural number whose square is at least `n`: the square
/// root of `n`, rounded up.
pub open spec fn is_ceil_root(n: int, r: int) -> bool {
    &&& 0 <= r
    &&& n <= square(r)
    &&& r == 0 || square(r - 1) < n
}

/// `k` is the least number of straight legs of length `range` whose total
/// length reaches a distance whose square is `d2`: that distance divided by
/// `range`, rounded up.
pub open spec fn is_hop_estimate(d2: int, range: int, k: int) -> bool {
    &&& 0 <= k
    &&& d2 <= square(k * range)
    &&& k == 0 || square((k - 1) * range) < d2
}

impl Coordinate {
    /// The square of the Euclidean distance between two points.
    pub open spec fn distance_squared_to(self, other: Coordinate) -> int {
        square(self.x - other.x) + square(self.y - other.y) + square(self.z - other.z)
    }

    /// Whether `other` lies at most `range` away, the boundary included.
    pub open spec fn reaches(self, other: Coordinate, range: int) -> bool {
        self.distance_squared_to(other) <= square(range)
    }

    /// The square of the Euclidean distance to `other`, exactly.
    pub fn distance_squared(&self, other: &Coordinate) -> (d2: u128)
        ensures
            d2 == self.distance_squared_to(*other),
            d2 <= 3 * square(0xffff_ffff),
    {
        let dx: u64 = gap(self.x, other.x);
        let dy: u64 = gap(self.y, other.y);
        let dz: u64 = gap(self.z, other.z);
        proof {
            lemma_square_bounded(dx as int, 0xffff_ffff);
            lemma_square_bounded(dy as int, 0xffff_ffff);
            lemma_square_bounded(dz as int, 0xffff_ffff);
            lemma_square_of_difference(self.x as int, other.x as int, dx as int);
            lemma_square_of_difference(self.y as int, other.y as int, dy as int);
            lemma_square_of_difference(self.z as int, other.z as int, dz as int);
        }
        let sx: u128 = (dx as u128) * (dx as u128);
        let sy: u128 = (dy as u128) * (dy as u128);
        let sz: u128 = (dz as u128) * (dz as u128);
        sx + sy + sz
    }

    /// Whether `other` lies within `range` of this point: the Euclidean
    /// distance is at most `range`, the boundary included.
    pub fn is_within(&self, other: &Coordinate, range: u32) -> (near: bool)
        ensures
            near == self.reaches(*other, range as int),
    {
        proof {
            lemma_square_bounded(range as int, 0xffff_ffff);
        }
        let limit: u128 = (range as u128) * (range as u128);
        self.distance_squared(other) <= limit
    }

    /// The Euclidean distance to `other`, rounded up to a whole grid unit.
    pub fn distance(&self, other: &Coordinate) -> (d: u64)
        ensures
            is_ceil_root(self.distance_squared_to(*other), d as int),
            d <= 0x2_0000_0000,
    {
        let d2: u128 = self.distance_squared(other);
        let d: u64 = ceil_root(d2);
        proof {
            lemma_root_bounded(d2 as int, d as int);
        }
        d
    }

    /// The least number of jumps of length `range` that could possibly lead
    /// from this point to `other`: the distance divided by the range, rounded
    /// up. No route can be shorter, whatever lies in between.
    pub fn jumps_to(&self, other: &Coordinate, range: u32) -> (k: u64)
        requires
            range > 0,
        ensures
            is_hop_estimate(self.distance_squared_to(*other), range as int, k as int),
            k <= 0x2_0000_0000,
    {
        let d: u64 = self.distance(other);
        let r: u64 = range as u64;
        let k: u64 = if d == 0 {
            0
        } else {
            (d - 1) / r + 1
        };
        proof {
            lemma_hops_from_root(self.distance_squared_to(*other), d as int, r as int, k as int);
        }
        k
    }
}

/// The absolute difference of two grid coordinates.
fn gap(a: i32, b: i32) -> (d: u64)
    ensures
        d == if a >= b {
            a - b
        } else {
            b - a
        },
        d <= 0xffff_ffff,
{
    if a >= b {
        (a as i64 - b as i64) as u64
    } else {
        (b as i64 - a as i64) as u64
    }
}

/// The square root of `n`, rounded up.
fn ceil_root(n: u128) -> (r: u64)
    requires
        n <= 3 * square(0xffff_ffff),
    ensures
        is_ceil_root(n as int, r as int),
{
    if n == 0 {
        return 0;
    }
    let mut lo: u64 = 0;
    let mut hi: u64 = 0x2_0000_0000;
    assert(square(0x2_0000_0000) >= 3 * square(0xffff_ffff));
    while hi - lo > 1
        invariant
            0 <= lo < hi <= 0x2_0000_0000,
            square(lo as int) < n,
            n <= square(hi as int),
        decreases hi - lo,
    {
        let mid: u64 = lo + (hi - lo) / 2;
        proof {
            lemma_square_bounded(mid as int, 0x2_0000_0000);
        }
        let sq: u128 = (mid as u128) * (mid as u128);
        if sq >= n {
            hi = mid;
        } else {
            lo = mid;
        }
    }
    hi
}

/// Squaring keeps the order of natural numbers.
pub proof fn lemma_square_bounded(a: int, b: int)
    requires
        0 <= a <= b,
    ensures
        0 <= square(a) <= square(b),
{
    assert(0 <= a * a <= b * b) by (nonlinear_arith)
        requires
            0 <= a <= b,
    ;
}

/// A hop estimate is a lower bound: whenever `m` legs of length `range` can
/// span the distance, the estimate is at most `m`.
pub proof fn lemma_hop_estimate_is_least(d2: int, range: int, k: int, m: int)
    requires
        is_hop_estimate(d2, range, k),
        0 <= range,
        0 <= m,
        d2 <= square(m * range),
    ensures
        k <= m,
{
    if k > m {
        assert(0 <= m * range <= (k - 1) * range) by (nonlinear_arith)
            requires
                0 <= m <= k - 1,
                0 <= range,
        ;
        lemma_square_bounded(m * range, (k - 1) * range);
    }
}

/// The triangle inequality, in the form that route planning needs: if `b` is
/// one jump from `a`, and `c` lies within `m` jump lengths of `b`, then `c`
/// lies within `m + 1` jump lengths of `a`.
pub proof fn lemma_one_more_jump(a: Coordinate, b: Coordinate, c: Coordinate, range: int, m: int)
    requires
        0 <= range,
        0 <= m,
        a.reaches(b, range),
        b.distance_squared_to(c) <= square(m * range),
    ensures
        a.distance_squared_to(c) <= square((m + 1) * range),
{
    let (u1, u2, u3) = (a.x - b.x, a.y - b.y, a.z - b.z);
    let (v1, v2, v3) = (b.x - c.x, b.y - c.y, b.z - c.z);
    let uu = u1 * u1 + u2 * u2 + u3 * u3;
    let vv = v1 * v1 + v2 * v2 + v3 * v3;
    let uv = u1 * v1 + u2 * v2 + u3 * v3;
    let r = range;
    let k = m * range;
    assert(0 <= k) by (nonlinear_arith)
        requires
            0 <= m,
            0 <= range,
            k == m * range,
    ;
    assert((m + 1) * range == r + k) by (nonlinear_arith)
        requires
            k == m * range,
            r == range,
    ;
    lemma_dot_product_bounded(u1, u2, u3, v1, v2, v3, r, k);
    assert(square(a.x - c.x) + square(a.y - c.y) + square(a.z - c.z) == uu + 2 * uv + vv)
        by (nonlinear_arith)
        requires
            a.x - c.x == u1 + v1,
            a.y - c.y == u2 + v2,
            a.z - c.z == u3 + v3,
            uu == u1 * u1 + u2 * u2 + u3 * u3,
            vv == v1 * v1 + v2 * v2 + v3 * v3,
            uv == u1 * v1 + u2 * v2 + u3 * v3,
    ;
    assert(square(r + k) == r * r + 2 * (r * k) + k * k) by (nonlinear_arith);
}

/// Cauchy-Schwarz for three components: the dot product of two vectors is at
/// most the product of any bounds on their lengths.
proof fn lemma_dot_product_bounded(
    u1: int,
    u2: int,
    u3: int,
    v1: int,
    v2: int,
    v3: int,
    r: int,
    k: int,
)
    requires
        0 <= r,
        0 <= k,
        u1 * u1 + u2 * u2 + u3 * u3 <= r * r,
        v1 * v1 + v2 * v2 + v3 * v3 <= k * k,
    ensures
        u1 * v1 + u2 * v2 + u3 * v3 <= r * k,
{
    let uu = u1 * u1 + u2 * u2 + u3 * u3;
    let vv = v1 * v1 + v2 * v2 + v3 * v3;
    let uv = u1 * v1 + u2 * v2 + u3 * v3;
    // The square of the dot product, term by term.
    assert(uv * uv == square(u1 * v1) + square(u2 * v2) + square(u3 * v3) + 2 * ((u1 * v1) * (u2
        * v2)) + 2 * ((u1 * v1) * (u3 * v3)) + 2 * ((u2 * v2) * (u3 * v3))) by (nonlinear_arith)
        requires
            uv == u1 * v1 + u2 * v2 + u3 * v3,
    ;
    // The product of the squared lengths, term by term.
    assert(uu * vv == (u1 * u1) * (v1 * v1) + (u1 * u1) * (v2 * v2) + (u1 * u1) * (v3 * v3) + (u2
        * u2) * (v1 * v1) + (u2 * u2) * (v2 * v2) + (u2 * u2) * (v3 * v3) + (u3 * u3) * (v1 * v1)
        + (u3 * u3) * (v2 * v2) + (u3 * u3) * (v3 * v3)) by (nonlinear_arith)
        requires
            uu == u1 * u1 + u2 * u2 + u3 * u3,
            vv == v1 * v1 + v2 * v2 + v3 * v3,
    ;
    lemma_square_of_product(u1, v1);
    lemma_square_of_product(u2, v2);
    lemma_square_of_product(u3, v3);
    lemma_cross_terms(u1, v1, u2, v2);
    lemma_cross_terms(u1, v1, u3, v3);
    lemma_cross_terms(u2, v2, u3, v3);
    assert(uv * uv <= uu * vv);
    assert(0 <= uu && 0 <= vv) by (nonlinear_arith)
        requires
            uu == u1 * u1 + u2 * u2 + u3 * u3,
            vv == v1 * v1 + v2 * v2 + v3 * v3,
    ;
    assert(uu * vv <= (r * r) * (k * k)) by (nonlinear_arith)
        requires
            0 <= uu <= r * r,
            0 <= vv <= k * k,
    ;
    assert((r * r) * (k * k) == (r * k) * (r * k)) by (nonlinear_arith);
    if uv > r * k {
        assert(uv * uv > (r * k) * (r * k)) by (nonlinear_arith)
            requires
                uv > r * k,
                r * k >= 0,
        ;
        assert(r * k >= 0) by (nonlinear_arith)
            requires
                0 <= r,
                0 <= k,
        ;
    }
}

proof fn lemma_square_of_product(a: int, b: int)
    ensures
        square(a * b) == (a * a) * (b * b),
{
    assert((a * b) * (a * b) == (a * a) * (b * b)) by (nonlinear_arith);
}

/// Twice the product of two diagonal terms is at most the sum of the two
/// mixed squares: `2(ab)(cd) <= a²d² + c²b²`.
proof fn lemma_cross_terms(a: int, b: int, c: int, d: int)
    ensures
        2 * ((a * b) * (c * d)) <= (a * a) * (d * d) + (c * c) * (b * b),
{
    let p = a * d;
    let q = c * b;
    assert((a * b) * (c * d) == p * q) by (nonlinear_arith)
        requires
            p == a * d,
            q == c * b,
    ;
    assert(2 * (p * q) <= p * p + q * q) by (nonlinear_arith);
    assert(p * p == (a * a) * (d * d)) by (nonlinear_arith)
        requires
            p == a * d,
    ;
    assert(q * q == (c * c) * (b * b)) by (nonlinear_arith)
        requires
            q == c * b,
    ;
}

proof fn lemma_square_of_difference(a: int, b: int, d: int)
    requires
        d == a - b || d == b - a,
    ensures
        square(d) == square(a - b),
{
    assert((b - a) * (b - a) == (a - b) * (a - b)) by (nonlinear_arith);
}

proof fn lemma_root_bounded(n: int, r: int)
    requires
        is_ceil_root(n, r),
        n <= 3 * square(0xffff_ffff),
    ensures
        r <= 0x2_0000_0000,
{
    if r > 0x2_0000_0000 {
        lemma_square_bounded(0x2_0000_0000, r - 1);
        assert(square(0x2_0000_0000) >= 3 * square(0xffff_ffff));
    }
}

proof fn lemma_hops_from_root(d2: int, d: int, r: int, k: int)
    requires
        is_ceil_root(d2, d),
        r > 0,
        k == if d == 0 { 0 } else { (d - 1) / r + 1 },
    ensures
        is_hop_estimate(d2, r, k),
{
    if d == 0 {
        assert(square(0 * r) == 0) by (nonlinear_arith);
    } else {
        let q = (d - 1) / r;
        assert(q * r <= d - 1 < (q + 1) * r && q >= 0) by (nonlinear_arith)
            requires
                r > 0,
                d - 1 >= 0,
                q == (d - 1) / r,
        ;
        assert(k * r >= d);
        lemma_square_bounded(d, k * r);
        assert((k - 1) * r == q * r);
        lemma_square_bounded(q * r, d - 1);
    }
}

} // verus!
