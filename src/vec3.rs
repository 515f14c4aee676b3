//! Fixed-point vectors and the exact integer arithmetic behind them.

use vstd::prelude::*;
use vstd::arithmetic::div_mod::lemma_fundamental_div_mod_converse;

verus! {

/// Number of fixed-point ticks in one unit of length.
pub const SCALE: i64 = 1024;

/// Largest magnitude, in ticks, of a coordinate of a scene point.
pub const LIMIT: i64 = 16777216;

/// Largest magnitude, in ticks, of a ray parameter or of a coordinate being scaled.
pub const FAR: i64 = 0x1_0000_0000;

/// Largest magnitude, in ticks, of a coordinate whose length can be taken.
pub const BIG: i64 = 0x100_0000_0000;

/// A point or a direction in space, each coordinate in fixed-point ticks
/// (`SCALE` ticks make one unit).
#[derive(Clone, Copy, Debug, PartialEq, Eq, Structural)]
pub struct Vec3 {
    pub x: i64,
    pub y: i64,
    pub z: i64,
}

/// Every coordinate lies within `[-bound, bound]`.
pub open spec fn bounded_by(v: Vec3, bound: int) -> bool {
    -bound <= v.x <= bound && -bound <= v.y <= bound && -bound <= v.z <= bound
}

/// A point that a scene may hold.
pub open spec fn in_range(v: Vec3) -> bool {
    bounded_by(v, LIMIT as int)
}

/// A direction as rays carry it: no coordinate longer than one unit.
pub open spec fn is_direction(v: Vec3) -> bool {
    bounded_by(v, SCALE as int)
}

pub open spec fn vec3(x: int, y: int, z: int) -> Vec3 {
    Vec3 { x: x as i64, y: y as i64, z: z as i64 }
}

pub open spec fn add_spec(a: Vec3, b: Vec3) -> Vec3 {
    vec3(a.x + b.x, a.y + b.y, a.z + b.z)
}

pub open spec fn sub_spec(a: Vec3, b: Vec3) -> Vec3 {
    vec3(a.x - b.x, a.y - b.y, a.z - b.z)
}

pub open spec fn neg_spec(a: Vec3) -> Vec3 {
    vec3(-a.x, -a.y, -a.z)
}

/// Exact dot product, in ticks squared.
pub open spec fn dot_spec(a: Vec3, b: Vec3) -> int {
    a.x * b.x + a.y * b.y + a.z * b.z
}

/// `v` scaled by the fixed-point factor `k` (in ticks), rounded down.
pub open spec fn scale_spec(v: Vec3, k: int) -> Vec3 {
    vec3(v.x * k / SCALE as int, v.y * k / SCALE as int, v.z * k / SCALE as int)
}

/// `r` is the integer square root of `n`.
pub open spec fn is_isqrt(n: int, r: int) -> bool {
    0 <= r && r * r <= n && n < (r + 1) * (r + 1)
}

/// The integer square root (rounded down) of a non-negative `n`.
pub open spec fn isqrt_spec(n: int) -> int {
    choose|r: int| is_isqrt(n, r)
}

/// Length of `v` in ticks, rounded down.
pub open spec fn length_spec(v: Vec3) -> int {
    isqrt_spec(dot_spec(v, v))
}

/// `v` brought to a length of one unit (`SCALE` ticks); the zero vector stays zero.
pub open spec fn normalize_spec(v: Vec3) -> Vec3 {
    let len = length_spec(v);
    if len == 0 {
        v
    } else {
        vec3(v.x * SCALE / len, v.y * SCALE / len, v.z * SCALE / len)
    }
}

/// Two integer square roots of the same number agree.
pub proof fn lemma_isqrt_unique(n: int, r1: int, r2: int)
    requires
        is_isqrt(n, r1),
        is_isqrt(n, r2),
    ensures
        r1 == r2,
{
    if r1 < r2 {
        assert((r1 + 1) * (r1 + 1) <= r2 * r2) by (nonlinear_arith)
            requires
                0 <= r1 + 1 <= r2,
        ;
    } else if r2 < r1 {
        assert((r2 + 1) * (r2 + 1) <= r1 * r1) by (nonlinear_arith)
            requires
                0 <= r2 + 1 <= r1,
        ;
    }
}

/// A root found for `n` is the one that `isqrt_spec` names.
pub proof fn lemma_isqrt_is_spec(n: int, r: int)
    requires
        is_isqrt(n, r),
    ensures
        isqrt_spec(n) == r,
{
    let s = isqrt_spec(n);
    assert(is_isqrt(n, s));
    lemma_isqrt_unique(n, r, s);
}

/// A square's root is its base.
pub proof fn lemma_isqrt_of_square(k: int)
    requires
        k >= 0,
    ensures
        isqrt_spec(k * k) == k,
{
    assert(k * k < (k + 1) * (k + 1)) by (nonlinear_arith)
        requires
            k >= 0,
    ;
    lemma_isqrt_is_spec(k * k, k);
}

/// Integer square root, rounded down.
pub fn isqrt(n: u128) -> (r: u64)
    ensures
        is_isqrt(n as int, r as int),
        r == isqrt_spec(n as int),
{
    let mut lo: u128 = 0;
    let mut hi: u128 = 0x1_0000_0000_0000_0000;
    assert(n < hi * hi) by (nonlinear_arith)
        requires
            hi == 0x1_0000_0000_0000_0000u128,
            n <= u128::MAX,
    ;
    while hi - lo > 1
        invariant
            lo < hi <= 0x1_0000_0000_0000_0000u128,
            lo * lo <= n,
            n < hi * hi,
        decreases hi - lo,
    {
        let mid: u128 = lo + (hi - lo) / 2;
        assert(mid * mid < 0x1_0000_0000_0000_0000_0000_0000_0000_0000int) by (nonlinear_arith)
            requires
                mid < 0x1_0000_0000_0000_0000u128,
        ;
        if mid * mid <= n {
            lo = mid;
        } else {
            hi = mid;
        }
    }
    assert(hi == lo + 1);
    proof {
        lemma_isqrt_is_spec(n as int, lo as int);
    }
    lo as u64
}

/// Division rounded down (towards negative infinity).
pub fn div_floor(n: i128, d: i128) -> (q: i128)
    requires
        d > 0,
        n > i128::MIN,
    ensures
        q == n / d,
{
    if n >= 0 {
        let q = n / d;
        q
    } else {
        let m: i128 = -n;
        let q0: i128 = m / d;
        let r0: i128 = m % d;
        proof {
            vstd::arithmetic::div_mod::lemma_fundamental_div_mod(m as int, d as int);
        }
        assert(n == (-q0 - 1) * d + (d - r0) && n == (-q0) * d + r0 - 2 * r0) by (nonlinear_arith)
            requires
                m == d * q0 + r0,
                n == -m,
        ;
        if r0 == 0 {
            proof {
                lemma_fundamental_div_mod_converse(n as int, d as int, -q0, 0);
            }
            -q0
        } else {
            proof {
                lemma_fundamental_div_mod_converse(n as int, d as int, -q0 - 1, d - r0);
            }
            -q0 - 1
        }
    }
}

impl Vec3 {
    pub fn new(x: i64, y: i64, z: i64) -> (r: Vec3)
        ensures
            r.x == x && r.y == y && r.z == z,
    {
        Vec3 { x, y, z }
    }

    pub fn zero() -> (r: Vec3)
        ensures
            r.x == 0 && r.y == 0 && r.z == 0,
    {
        Vec3 { x: 0, y: 0, z: 0 }
    }

    pub fn add(&self, o: &Vec3) -> (r: Vec3)
        requires
            bounded_by(*self, 0x1000_0000_0000_0000),
            bounded_by(*o, 0x1000_0000_0000_0000),
        ensures
            r == add_spec(*self, *o),
    {
        Vec3 { x: self.x + o.x, y: self.y + o.y, z: self.z + o.z }
    }

    pub fn sub(&self, o: &Vec3) -> (r: Vec3)
        requires
            bounded_by(*self, 0x1000_0000_0000_0000),
            bounded_by(*o, 0x1000_0000_0000_0000),
        ensures
            r == sub_spec(*self, *o),
    {
        Vec3 { x: self.x - o.x, y: self.y - o.y, z: self.z - o.z }
    }

    pub fn neg(&self) -> (r: Vec3)
        requires
            bounded_by(*self, 0x1000_0000_0000_0000),
        ensures
            r == neg_spec(*self),
    {
        Vec3 { x: -self.x, y: -self.y, z: -self.z }
    }

    /// Exact dot product, in ticks squared.
    pub fn dot(&self, o: &Vec3) -> (r: i128)
        requires
            bounded_by(*self, BIG as int),
            bounded_by(*o, BIG as int),
        ensures
            r == dot_spec(*self, *o),
    {
        proof {
            lemma_mul_bound(self.x as int, o.x as int, BIG as int);
            lemma_mul_bound(self.y as int, o.y as int, BIG as int);
            lemma_mul_bound(self.z as int, o.z as int, BIG as int);
        }
        (self.x as i128) * (o.x as i128) + (self.y as i128) * (o.y as i128) + (self.z as i128) * (
        o.z as i128)
    }

    /// `self` times the fixed-point factor `k`, rounded down.
    pub fn scale(&self, k: i64) -> (r: Vec3)
        requires
            bounded_by(*self, FAR as int),
            -FAR <= k <= FAR,
        ensures
            r == scale_spec(*self, k as int),
    {
        proof {
            lemma_mul_bound(self.x as int, k as int, FAR as int);
            lemma_mul_bound(self.y as int, k as int, FAR as int);
            lemma_mul_bound(self.z as int, k as int, FAR as int);
        }
        let x = div_floor((self.x as i128) * (k as i128), SCALE as i128);
        let y = div_floor((self.y as i128) * (k as i128), SCALE as i128);
        let z = div_floor((self.z as i128) * (k as i128), SCALE as i128);
        proof {
            lemma_scaled_bound(self.x as int, k as int);
            lemma_scaled_bound(self.y as int, k as int);
            lemma_scaled_bound(self.z as int, k as int);
        }
        Vec3 { x: x as i64, y: y as i64, z: z as i64 }
    }

    /// Length in ticks, rounded down.
    pub fn length(&self) -> (r: i64)
        requires
            bounded_by(*self, BIG as int),
        ensures
            r == length_spec(*self),
            is_isqrt(dot_spec(*self, *self), r as int),
    {
        let d = self.dot(self);
        proof {
            lemma_mul_bound(self.x as int, self.x as int, BIG as int);
            lemma_mul_bound(self.y as int, self.y as int, BIG as int);
            lemma_mul_bound(self.z as int, self.z as int, BIG as int);
        }
        assert(d >= 0) by (nonlinear_arith)
            requires
                d == self.x * self.x + self.y * self.y + self.z * self.z,
        ;
        let r = isqrt(d as u128);
        proof {
            lemma_isqrt_bound(d as int, r as int);
        }
        r as i64
    }

    /// `self` brought to one unit of length; the zero vector stays zero.
    pub fn normalize(&self) -> (r: Vec3)
        requires
            bounded_by(*self, BIG as int),
        ensures
            r == normalize_spec(*self),
            is_direction(r),
    {
        let len = self.length();
        if len == 0 {
            proof {
                lemma_zero_length(*self);
            }
            *self
        } else {
            proof {
                lemma_normalized_bound(self.x as int, *self, len as int);
                lemma_normalized_bound(self.y as int, *self, len as int);
                lemma_normalized_bound(self.z as int, *self, len as int);
            }
            let x = div_floor((self.x as i128) * (SCALE as i128), len as i128);
            let y = div_floor((self.y as i128) * (SCALE as i128), len as i128);
            let z = div_floor((self.z as i128) * (SCALE as i128), len as i128);
            Vec3 { x: x as i64, y: y as i64, z: z as i64 }
        }
    }
}

pub proof fn lemma_mul_bound(a: int, b: int, m: int)
    requires
        -m <= a <= m,
        -m <= b <= m,
        m >= 0,
    ensures
        -(m * m) <= a * b <= m * m,
{
    assert(-(m * m) <= a * b <= m * m) by (nonlinear_arith)
        requires
            -m <= a <= m,
            -m <= b <= m,
            m >= 0,
    ;
}

proof fn lemma_scaled_bound(a: int, k: int)
    requires
        -FAR <= a <= FAR,
        -FAR <= k <= FAR,
    ensures
        -0x40_0000_0000_0000 <= a * k / SCALE as int <= 0x40_0000_0000_0000,
{
    lemma_mul_bound(a, k, FAR as int);
    vstd::arithmetic::div_mod::lemma_div_is_ordered(-(FAR * FAR), a * k, SCALE as int);
    vstd::arithmetic::div_mod::lemma_div_is_ordered(a * k, FAR * FAR, SCALE as int);
}

pub proof fn lemma_isqrt_bound(n: int, r: int)
    requires
        is_isqrt(n, r),
        0 <= n <= 3 * BIG * BIG,
    ensures
        r <= 4 * BIG,
{
    if r > 4 * BIG {
        assert(r * r > 16 * BIG * BIG) by (nonlinear_arith)
            requires
                r > 4 * BIG,
        ;
    }
}

proof fn lemma_zero_length(v: Vec3)
    requires
        is_isqrt(dot_spec(v, v), 0),
    ensures
        v.x == 0 && v.y == 0 && v.z == 0,
{
    assert(v.x == 0 && v.y == 0 && v.z == 0) by (nonlinear_arith)
        requires
            v.x * v.x + v.y * v.y + v.z * v.z < 1,
    ;
}

/// A coordinate divided by the vector's length stays within one unit.
proof fn lemma_normalized_bound(c: int, v: Vec3, len: int)
    requires
        c == v.x || c == v.y || c == v.z,
        is_isqrt(dot_spec(v, v), len),
        len > 0,
    ensures
        -SCALE <= c * SCALE / len <= SCALE,
{
    assert(c * c <= dot_spec(v, v)) by (nonlinear_arith)
        requires
            c == v.x || c == v.y || c == v.z,
    ;
    assert(-len <= c <= len) by (nonlinear_arith)
        requires
            c * c < (len + 1) * (len + 1),
            len >= 0,
    ;
    assert(-(len * SCALE) <= c * SCALE <= len * SCALE) by (nonlinear_arith)
        requires
            -len <= c <= len,
    ;
    vstd::arithmetic::div_mod::lemma_div_is_ordered(c * SCALE, len * SCALE, len);
    vstd::arithmetic::div_mod::lemma_div_is_ordered(-(len * SCALE), c * SCALE, len);
    assert(-(len * SCALE) == (-SCALE) * len) by (nonlinear_arith);
    assert(len * SCALE == SCALE * len) by (nonlinear_arith);
    lemma_fundamental_div_mod_converse(len * SCALE, len, SCALE as int, 0);
    lemma_fundamental_div_mod_converse(-(len * SCALE), len, -SCALE as int, 0);
}

/// The zero vector.
pub fn zero() -> (r: Vec3)
    ensures
        r == vec3(0, 0, 0),
{
    Vec3 { x: 0, y: 0, z: 0 }
}

/// Mirror image of `v` about the plane with unit normal `n`:
/// `v - 2 (v . n) n`, in fixed point.
pub open spec fn reflect_spec(v: Vec3, n: Vec3) -> Vec3 {
    sub_spec(v, scale_spec(n, 2 * dot_spec(v, n) / SCALE as int))
}

/// The component of `dir` along the surface, scaled by `ratio` (in ticks).
pub open spec fn refract_forward(dir: Vec3, n: Vec3, ratio: int) -> Vec3 {
    let cos = dot_spec(neg_spec(dir), n) / SCALE as int;
    scale_spec(add_spec(dir, scale_spec(n, cos)), ratio)
}

/// Snell's law: the refracted direction for the ratio of refraction indices
/// `ratio` (in ticks), or nothing where no refraction angle exists.
pub open spec fn refract_spec(dir: Vec3, n: Vec3, ratio: int) -> Option<Vec3> {
    let forward = refract_forward(dir, n, ratio);
    if dot_spec(forward, forward) > SCALE * SCALE {
        None
    } else {
        let out_cos = isqrt_spec(SCALE * SCALE - dot_spec(forward, forward));
        Some(add_spec(forward, scale_spec(neg_spec(n), out_cos)))
    }
}

/// Mirror reflection of `v` about the unit normal `n`.
pub fn reflect(v: Vec3, n: Vec3) -> (r: Vec3)
    requires
        is_direction(v),
        is_direction(n),
    ensures
        r == reflect_spec(v, n),
        bounded_by(r, 8 * SCALE),
{
    let d = v.dot(&n);
    proof {
        lemma_unit_dot(v, n);
    }
    let k = div_floor(2 * d, SCALE as i128);
    proof {
        vstd::arithmetic::div_mod::lemma_div_is_ordered(2 * d, 6 * SCALE * SCALE, SCALE as int);
        vstd::arithmetic::div_mod::lemma_div_is_ordered(-6 * SCALE * SCALE, 2 * d, SCALE as int);
        lemma_fundamental_div_mod_converse(6 * SCALE * SCALE, SCALE as int, 6 * SCALE, 0);
        lemma_fundamental_div_mod_converse(-6 * SCALE * SCALE, SCALE as int, -6 * SCALE, 0);
        lemma_scale_bound(n, k as int, SCALE as int, 6 * SCALE);
        lemma_fundamental_div_mod_converse(SCALE * (6 * SCALE), SCALE as int, 6 * SCALE, 0);
    }
    let s = n.scale(k as i64);
    v.sub(&s)
}

/// Refraction of the unit direction `dir` through a surface with unit normal `n`,
/// for the ratio of refraction indices `ratio` (in ticks); nothing where the ray
/// is wholly reflected.
pub fn refract(dir: Vec3, n: Vec3, ratio: i64) -> (r: Option<Vec3>)
    requires
        is_direction(dir),
        is_direction(n),
        0 <= ratio <= SCALE * SCALE,
    ensures
        r == refract_spec(dir, n, ratio as int),
        r matches Some(d) ==> bounded_by(d, 8 * SCALE),
{
    let nd = dir.neg();
    let c = nd.dot(&n);
    proof {
        lemma_unit_dot(nd, n);
    }
    let cos = div_floor(c, SCALE as i128);
    proof {
        vstd::arithmetic::div_mod::lemma_div_is_ordered(c as int, 3 * SCALE * SCALE, SCALE as int);
        vstd::arithmetic::div_mod::lemma_div_is_ordered(-3 * SCALE * SCALE, c as int, SCALE as int);
        lemma_fundamental_div_mod_converse(3 * SCALE * SCALE, SCALE as int, 3 * SCALE, 0);
        lemma_fundamental_div_mod_converse(-3 * SCALE * SCALE, SCALE as int, -3 * SCALE, 0);
        lemma_scale_bound(n, cos as int, SCALE as int, 3 * SCALE);
        lemma_fundamental_div_mod_converse(SCALE * (3 * SCALE), SCALE as int, 3 * SCALE, 0);
    }
    let along = dir.add(&n.scale(cos as i64));
    proof {
        lemma_scale_bound(along, ratio as int, 4 * SCALE + 1, SCALE * SCALE);
        lemma_fundamental_div_mod_converse(
            (4 * SCALE + 1) * (SCALE * SCALE),
            SCALE as int,
            (4 * SCALE + 1) * SCALE,
            0,
        );
    }
    let forward = along.scale(ratio);
    let f2 = forward.dot(&forward);
    if f2 > (SCALE as i128) * (SCALE as i128) {
        None
    } else {
        assert(f2 >= 0) by (nonlinear_arith)
            requires
                f2 == forward.x * forward.x + forward.y * forward.y + forward.z * forward.z,
        ;
        let out_cos = isqrt(((SCALE as i128) * (SCALE as i128) - f2) as u128);
        proof {
            assert(out_cos <= SCALE) by (nonlinear_arith)
                requires
                    out_cos * out_cos <= SCALE * SCALE,
                    out_cos >= 0,
            ;
            assert(-SCALE <= forward.x <= SCALE && -SCALE <= forward.y <= SCALE && -SCALE
                <= forward.z <= SCALE) by (nonlinear_arith)
                requires
                    forward.x * forward.x + forward.y * forward.y + forward.z * forward.z
                        <= SCALE * SCALE,
            ;
            lemma_scale_bound(neg_spec(n), out_cos as int, SCALE as int, SCALE as int);
            lemma_fundamental_div_mod_converse(SCALE * SCALE, SCALE as int, SCALE as int, 0);
        }
        let back = n.neg().scale(out_cos as i64);
        Some(forward.add(&back))
    }
}

/// Dot product of two directions.
proof fn lemma_unit_dot(a: Vec3, b: Vec3)
    requires
        is_direction(a),
        is_direction(b),
    ensures
        -3 * SCALE * SCALE <= dot_spec(a, b) <= 3 * SCALE * SCALE,
{
    lemma_mul_bound(a.x as int, b.x as int, SCALE as int);
    lemma_mul_bound(a.y as int, b.y as int, SCALE as int);
    lemma_mul_bound(a.z as int, b.z as int, SCALE as int);
}

/// A vector within `m` ticks scaled by a factor within `km` stays within
/// `m * km / SCALE + 1` ticks.
pub proof fn lemma_scale_bound(v: Vec3, k: int, m: int, km: int)
    requires
        bounded_by(v, m),
        -km <= k <= km,
        m >= 0,
        km >= 0,
    ensures
        bounded_by(scale_spec(v, k), m * km / SCALE as int + 1),
{
    lemma_scale_coord(v.x as int, k, m, km);
    lemma_scale_coord(v.y as int, k, m, km);
    lemma_scale_coord(v.z as int, k, m, km);
}

proof fn lemma_scale_coord(c: int, k: int, m: int, km: int)
    requires
        -m <= c <= m,
        -km <= k <= km,
        m >= 0,
        km >= 0,
    ensures
        -(m * km / SCALE as int + 1) <= c * k / SCALE as int <= m * km / SCALE as int + 1,
{
    let s = SCALE as int;
    assert(-(m * km) <= c * k <= m * km) by (nonlinear_arith)
        requires
            -m <= c <= m,
            -km <= k <= km,
    ;
    vstd::arithmetic::div_mod::lemma_div_is_ordered(c * k, m * km, s);
    vstd::arithmetic::div_mod::lemma_div_is_ordered(-(m * km), c * k, s);
    vstd::arithmetic::div_mod::lemma_fundamental_div_mod(m * km, s);
    vstd::arithmetic::div_mod::lemma_fundamental_div_mod(-(m * km), s);
}

/// A vector within `m` ticks scaled by a factor within `c` units stays within
/// `m * c + 1` ticks.
pub proof fn lemma_scale_units(v: Vec3, k: int, m: int, c: int)
    requires
        bounded_by(v, m),
        -(c * SCALE) <= k <= c * SCALE,
        m >= 0,
        c >= 0,
    ensures
        bounded_by(scale_spec(v, k), m * c + 1),
{
    lemma_scale_bound(v, k, m, c * SCALE);
    assert(m * (c * SCALE) == (m * c) * SCALE) by (nonlinear_arith);
    lemma_fundamental_div_mod_converse(m * (c * SCALE), SCALE as int, m * c, 0);
}

/// A vector within `c` units scaled by a factor within `m` ticks stays within
/// `m * c + 1` ticks.
pub proof fn lemma_scale_of_units(v: Vec3, k: int, c: int, m: int)
    requires
        bounded_by(v, c * SCALE),
        -m <= k <= m,
        m >= 0,
        c >= 0,
    ensures
        bounded_by(scale_spec(v, k), m * c + 1),
{
    lemma_scale_bound(v, k, c * SCALE, m);
    assert((c * SCALE) * m == (m * c) * SCALE) by (nonlinear_arith);
    lemma_fundamental_div_mod_converse((c * SCALE) * m, SCALE as int, m * c, 0);
}

/// Cross product in fixed point: `a x b`, rounded down.
pub open spec fn cross_spec(a: Vec3, b: Vec3) -> Vec3 {
    vec3(
        (a.y * b.z - a.z * b.y) / SCALE as int,
        (a.z * b.x - a.x * b.z) / SCALE as int,
        (a.x * b.y - a.y * b.x) / SCALE as int,
    )
}

/// Cross product of two vectors within two units each.
pub fn cross(a: &Vec3, b: &Vec3) -> (r: Vec3)
    requires
        bounded_by(*a, 2 * SCALE),
        bounded_by(*b, 2 * SCALE),
    ensures
        r == cross_spec(*a, *b),
        bounded_by(r, 8 * SCALE),
        is_direction(*a) && is_direction(*b) ==> bounded_by(r, 2 * SCALE),
{
    proof {
        lemma_cross_coord(a.y as int, b.z as int, a.z as int, b.y as int);
        lemma_cross_coord(a.z as int, b.x as int, a.x as int, b.z as int);
        lemma_cross_coord(a.x as int, b.y as int, a.y as int, b.x as int);
    }
    let x = div_floor((a.y as i128) * (b.z as i128) - (a.z as i128) * (b.y as i128), SCALE as i128);
    let y = div_floor((a.z as i128) * (b.x as i128) - (a.x as i128) * (b.z as i128), SCALE as i128);
    let z = div_floor((a.x as i128) * (b.y as i128) - (a.y as i128) * (b.x as i128), SCALE as i128);
    Vec3 { x: x as i64, y: y as i64, z: z as i64 }
}

proof fn lemma_cross_coord(p: int, q: int, r: int, s: int)
    requires
        -2 * SCALE <= p <= 2 * SCALE,
        -2 * SCALE <= q <= 2 * SCALE,
        -2 * SCALE <= r <= 2 * SCALE,
        -2 * SCALE <= s <= 2 * SCALE,
    ensures
        -8 * SCALE <= (p * q - r * s) / SCALE as int <= 8 * SCALE,
        -4 * SCALE * SCALE <= p * q <= 4 * SCALE * SCALE,
        -4 * SCALE * SCALE <= r * s <= 4 * SCALE * SCALE,
        -SCALE <= p <= SCALE && -SCALE <= q <= SCALE && -SCALE <= r <= SCALE && -SCALE <= s
            <= SCALE ==> -2 * SCALE <= (p * q - r * s) / SCALE as int <= 2 * SCALE,
{
    if -SCALE <= p <= SCALE && -SCALE <= q <= SCALE && -SCALE <= r <= SCALE && -SCALE <= s
        <= SCALE {
        lemma_mul_bound(p, q, SCALE as int);
        lemma_mul_bound(r, s, SCALE as int);
        let m2 = 2 * SCALE * SCALE;
        vstd::arithmetic::div_mod::lemma_div_is_ordered(p * q - r * s, m2, SCALE as int);
        vstd::arithmetic::div_mod::lemma_div_is_ordered(-m2, p * q - r * s, SCALE as int);
        lemma_fundamental_div_mod_converse(m2, SCALE as int, 2 * SCALE, 0);
        lemma_fundamental_div_mod_converse(-m2, SCALE as int, -2 * SCALE, 0);
    }
    lemma_mul_bound(p, q, 2 * SCALE);
    lemma_mul_bound(r, s, 2 * SCALE);
    assert((2 * SCALE) * (2 * SCALE) == 4 * SCALE * SCALE) by (nonlinear_arith);
    let m = 8 * SCALE * SCALE;
    vstd::arithmetic::div_mod::lemma_div_is_ordered(p * q - r * s, m, SCALE as int);
    vstd::arithmetic::div_mod::lemma_div_is_ordered(-m, p * q - r * s, SCALE as int);
    lemma_fundamental_div_mod_converse(m, SCALE as int, 8 * SCALE, 0);
    lemma_fundamental_div_mod_converse(-m, SCALE as int, -8 * SCALE, 0);
}

/// Half of each coordinate, rounded down.
pub open spec fn half_spec(v: Vec3) -> Vec3 {
    vec3(v.x / 2, v.y / 2, v.z / 2)
}

pub fn half(v: &Vec3) -> (r: Vec3)
    requires
        bounded_by(*v, BIG as int),
    ensures
        r == half_spec(*v),
        forall|m: int| m >= 0 && bounded_by(*v, 2 * m) ==> bounded_by(r, m),
{
    Vec3 {
        x: div_floor(v.x as i128, 2) as i64,
        y: div_floor(v.y as i128, 2) as i64,
        z: div_floor(v.z as i128, 2) as i64,
    }
}

/// Product of two fixed-point numbers, rounded down.
pub fn mul_fixed(a: i64, b: i64) -> (r: i64)
    requires
        -FAR <= a <= FAR,
        -FAR <= b <= FAR,
    ensures
        r == a * b / SCALE as int,
{
    proof {
        lemma_mul_bound(a as int, b as int, FAR as int);
        lemma_scaled_bound(a as int, b as int);
    }
    div_floor((a as i128) * (b as i128), SCALE as i128) as i64
}

} // verus!
