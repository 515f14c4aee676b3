//! Spheres and the ray-sphere intersection.

use vstd::prelude::*;
use crate::hittable::{Accuracy, HitRecord};
use crate::material::Material;
use crate::ray::{Ray, at_spec};
use crate::vec3::{
    Vec3, bounded_by, div_floor, dot_spec, in_range, is_direction, isqrt, isqrt_spec, neg_spec,
    normalize_spec, sub_spec, vec3, LIMIT, SCALE,
};

verus! {

/// A ball with a material on its surface.
#[derive(Clone, Copy, Debug)]
pub struct Sphere {
    pub center: Vec3,
    pub radius: i64,
    pub material: Material,
}

/// Coefficients of `a t^2 + 2 hb t + c = 0`, whose roots are where the ray meets
/// the sphere's surface: `(a, hb, c)`, in ticks squared.
pub open spec fn quadratic(center: Vec3, radius: int, ray: Ray) -> (int, int, int) {
    let oc = sub_spec(ray.orig, center);
    (dot_spec(ray.dir, ray.dir), dot_spec(oc, ray.dir), dot_spec(oc, oc) - radius * radius)
}

/// The ray parameter (in ticks) at which the ray first meets the sphere within
/// the window: the nearer root if it lies in the window, else the farther one.
pub open spec fn sphere_t(center: Vec3, radius: int, ray: Ray, acc: Accuracy) -> Option<int> {
    let (a, hb, c) = quadratic(center, radius, ray);
    let disc = hb * hb - a * c;
    if a == 0 || disc < 0 {
        None
    } else {
        let sq = isqrt_spec(disc);
        let near = (-hb - sq) * SCALE / a;
        let far = (-hb + sq) * SCALE / a;
        if acc.min <= near <= acc.max {
            Some(near)
        } else if acc.min <= far <= acc.max {
            Some(far)
        } else {
            None
        }
    }
}

/// The record of a hit at parameter `t`: the normal is the unit vector from the
/// center to the hit point, turned against the ray when the ray comes from inside.
pub open spec fn record_at(center: Vec3, material: Material, ray: Ray, t: int) -> HitRecord {
    let point = at_spec(ray, t);
    let outward = normalize_spec(sub_spec(point, center));
    let front = dot_spec(ray.dir, outward) < 0;
    HitRecord {
        point,
        normal: if front {
            outward
        } else {
            neg_spec(outward)
        },
        material,
        t: t as i64,
        front,
    }
}

/// The ball of radius `r + 1` around `c` lies within the scene's range.
pub open spec fn ball_fits(c: Vec3, r: int) -> bool {
    -LIMIT <= c.x - r - 1 && c.x + r + 1 <= LIMIT && -LIMIT <= c.y - r - 1 && c.y + r + 1 <= LIMIT
        && -LIMIT <= c.z - r - 1 && c.z + r + 1 <= LIMIT
}

/// What `hit` returns for a sphere.
pub open spec fn sphere_hit(s: Sphere, ray: Ray, acc: Accuracy) -> Option<HitRecord> {
    match sphere_t(s.center, s.radius as int, ray, acc) {
        Some(t) => Some(record_at(s.center, s.material, ray, t)),
        None => None,
    }
}

impl Sphere {
    /// The ball, widened by one tick for rounding, lies within the scene's range.
    pub open spec fn wf(&self) -> bool {
        in_range(self.center) && 0 < self.radius <= LIMIT && ball_fits(self.center, self.radius as int)
            && self.material.wf()
    }

    pub fn new(center: &Vec3, radius: i64, material: Material) -> (r: Sphere)
        ensures
            r == (Sphere { center: *center, radius, material }),
    {
        Sphere { center: *center, radius, material }
    }

    pub fn center(&self) -> (r: Vec3)
        ensures
            r == self.center,
    {
        self.center
    }

    pub fn radius(&self) -> (r: i64)
        ensures
            r == self.radius,
    {
        self.radius
    }

    /// The nearest point within the window where the ray meets the sphere.
    pub fn hit(&self, ray: &Ray, accuracy: &Accuracy) -> (r: Option<HitRecord>)
        requires
            self.wf(),
            ray.wf(),
            accuracy.wf(),
        ensures
            r == sphere_hit(*self, *ray, *accuracy),
            r matches Some(h) ==> accuracy.min <= h.t <= accuracy.max && is_direction(h.normal)
                && in_range(h.point),
    {
        let oc = ray.orig.sub(&self.center);
        proof {
            lemma_quadratic_bounds(oc, ray.dir, self.radius as int);
        }
        let a = ray.dir.dot(&ray.dir);
        let hb = oc.dot(&ray.dir);
        let c = oc.dot(&oc) - (self.radius as i128) * (self.radius as i128);
        let disc = hb * hb - a * c;
        if a == 0 || disc < 0 {
            return None;
        }
        let sq = isqrt(disc as u128);
        proof {
            crate::vec3::lemma_isqrt_bound(disc as int, sq as int);
        }
        let sq = sq as i128;
        assert(-0x10_0000_0000_0000 <= -hb - sq <= 0x10_0000_0000_0000);
        assert(-0x10_0000_0000_0000 <= -hb + sq <= 0x10_0000_0000_0000);
        let near = div_floor((-hb - sq) * (SCALE as i128), a);
        let t = if accuracy.min as i128 <= near && near <= accuracy.max as i128 {
            near as i64
        } else {
            let far = div_floor((-hb + sq) * (SCALE as i128), a);
            if accuracy.min as i128 <= far && far <= accuracy.max as i128 {
                far as i64
            } else {
                return None;
            }
        };
        let point = ray.at(t);
        let outward = point.sub(&self.center).normalize();
        let front = ray.dir.dot(&outward) < 0;
        let normal = if front {
            outward
        } else {
            outward.neg()
        };
        let r = Some(HitRecord { point, normal, material: self.material, t, front });
        proof {
            crate::bvh::lemma_hit_point_near(*self, *ray, *accuracy);
            assert(r == sphere_hit(*self, *ray, *accuracy));
        }
        r
    }
}

/// The vector with `k` on axis `axis` (0, 1 or 2 for x, y, z) and zero elsewhere.
pub open spec fn on_axis(axis: int, k: int) -> Vec3 {
    if axis == 0 {
        vec3(k, 0, 0)
    } else if axis == 1 {
        vec3(0, k, 0)
    } else {
        vec3(0, 0, k)
    }
}

/// A ray started at distance `d` from the center of a sphere of radius `r < d`,
/// on either side of it along any axis, and aimed straight at the center meets
/// the surface after `d - r`, from the outside, with the normal pointing away
/// from the center (towards the ray's origin).
pub proof fn lemma_head_on_hit(material: Material, r: i64, d: i64, axis: int, side: int, acc: Accuracy)
    requires
        0 < r < d <= LIMIT,
        0 <= axis < 3,
        side == 1 || side == -1,
        acc.min <= d - r <= acc.max,
    ensures
        sphere_hit(
            Sphere { center: Vec3 { x: 0, y: 0, z: 0 }, radius: r, material },
            Ray { orig: on_axis(axis, side * d), dir: on_axis(axis, -side * SCALE) },
            acc,
        ) == Some(
            HitRecord {
                point: on_axis(axis, side * r),
                normal: on_axis(axis, side * SCALE),
                material,
                t: (d - r) as i64,
                front: true,
            },
        ),
{
    let center = Vec3 { x: 0, y: 0, z: 0 };
    let s = SCALE as int;
    let o = side * d;
    let k = -side * s;
    let ray = Ray { orig: on_axis(axis, o), dir: on_axis(axis, k) };
    assert(side * side == 1) by (nonlinear_arith)
        requires
            side == 1 || side == -1,
    ;
    let step = -side * (d - r);
    let pr = side * r;
    let ns = side * s;
    assert((o == d || o == -d) && (k == s || k == -s) && (step == d - r || step == r - d) && (pr
        == r || pr == -r) && (ns == s || ns == -s)) by (nonlinear_arith)
        requires
            side == 1 || side == -1,
            o == side * d,
            k == -side * s,
            step == -side * (d - r),
            pr == side * r,
            ns == side * s,
    ;
    lemma_on_axis_sub(axis, o, 0);
    assert(sub_spec(ray.orig, center) == on_axis(axis, o));
    lemma_on_axis_dot(axis, k, k);
    lemma_on_axis_dot(axis, o, k);
    lemma_on_axis_dot(axis, o, o);
    let (a, hb, c) = quadratic(center, r as int, ray);
    assert(a == s * s && hb == -(d * s) && c == d * d - r * r) by (nonlinear_arith)
        requires
            a == k * k,
            hb == o * k,
            c == o * o - r * r,
            o == side * d,
            k == -side * s,
            side * side == 1,
    ;
    let disc = hb * hb - a * c;
    assert(disc == (s * r) * (s * r)) by (nonlinear_arith)
        requires
            disc == hb * hb - a * c,
            a == s * s,
            hb == -(d * s),
            c == d * d - r * r,
    ;
    crate::vec3::lemma_isqrt_of_square(s * r);
    assert((-hb - s * r) * s == (d - r) * (s * s)) by (nonlinear_arith)
        requires
            hb == -(d * s),
    ;
    vstd::arithmetic::div_mod::lemma_fundamental_div_mod_converse(
        (d - r) * (s * s),
        s * s,
        d - r,
        0,
    );
    assert(sphere_t(center, r as int, ray, acc) == Some(d - r));
    // The step along the ray, then the hit point.
    assert(k * (d - r) == step * s) by (nonlinear_arith)
        requires
            k == -side * s,
            step == -side * (d - r),
    ;
    vstd::arithmetic::div_mod::lemma_fundamental_div_mod_converse(step * s, s, step, 0);
    lemma_on_axis_scale(axis, k, d - r, step);
    lemma_on_axis_add(axis, o, step);
    assert(o + step == pr) by (nonlinear_arith)
        requires
            o == side * d,
            step == -side * (d - r),
            pr == side * r,
    ;
    let point = at_spec(ray, d - r);
    assert(point == on_axis(axis, pr));
    lemma_on_axis_sub(axis, pr, 0);
    let off = sub_spec(point, center);
    assert(off == on_axis(axis, pr));
    // Its length is the radius, so the outward normal is one unit along the axis.
    lemma_on_axis_dot(axis, pr, pr);
    assert(pr * pr == r * r) by (nonlinear_arith)
        requires
            pr == side * r,
            side * side == 1,
    ;
    crate::vec3::lemma_isqrt_of_square(r as int);
    assert(pr * s == ns * r) by (nonlinear_arith)
        requires
            pr == side * r,
            ns == side * s,
    ;
    vstd::arithmetic::div_mod::lemma_fundamental_div_mod_converse(pr * s, r as int, ns, 0);
    lemma_on_axis_normalize(axis, pr, r as int, ns);
    assert(normalize_spec(off) == on_axis(axis, ns));
    lemma_on_axis_dot(axis, k, ns);
    assert(k * ns < 0) by (nonlinear_arith)
        requires
            (k == s && ns == -s) || (k == -s && ns == s),
            s == 1024,
    ;
}

proof fn lemma_on_axis_dot(axis: int, p: int, q: int)
    requires
        0 <= axis < 3,
        i64::MIN <= p <= i64::MAX,
        i64::MIN <= q <= i64::MAX,
    ensures
        dot_spec(on_axis(axis, p), on_axis(axis, q)) == p * q,
{
    if axis == 0 {
        assert(dot_spec(on_axis(axis, p), on_axis(axis, q)) == p * q + 0 * 0 + 0 * 0);
    } else if axis == 1 {
        assert(dot_spec(on_axis(axis, p), on_axis(axis, q)) == 0 * 0 + p * q + 0 * 0);
    } else {
        assert(dot_spec(on_axis(axis, p), on_axis(axis, q)) == 0 * 0 + 0 * 0 + p * q);
    }
}

proof fn lemma_on_axis_sub(axis: int, p: int, q: int)
    requires
        0 <= axis < 3,
        q == 0,
        i64::MIN <= p <= i64::MAX,
    ensures
        sub_spec(on_axis(axis, p), Vec3 { x: 0, y: 0, z: 0 }) == on_axis(axis, p),
{
}

proof fn lemma_on_axis_add(axis: int, p: int, q: int)
    requires
        0 <= axis < 3,
        i64::MIN <= p <= i64::MAX,
        i64::MIN <= q <= i64::MAX,
        i64::MIN <= p + q <= i64::MAX,
    ensures
        crate::vec3::add_spec(on_axis(axis, p), on_axis(axis, q)) == on_axis(axis, p + q),
{
}

proof fn lemma_on_axis_scale(axis: int, p: int, t: int, q: int)
    requires
        0 <= axis < 3,
        i64::MIN <= p <= i64::MAX,
        i64::MIN <= q <= i64::MAX,
        p * t / SCALE as int == q,
    ensures
        crate::vec3::scale_spec(on_axis(axis, p), t) == on_axis(axis, q),
{
    assert(0 * t == 0);
}

proof fn lemma_on_axis_normalize(axis: int, p: int, len: int, q: int)
    requires
        0 <= axis < 3,
        i64::MIN <= p <= i64::MAX,
        i64::MIN <= q <= i64::MAX,
        len > 0,
        crate::vec3::isqrt_spec(p * p) == len,
        p * SCALE / len == q,
    ensures
        normalize_spec(on_axis(axis, p)) == on_axis(axis, q),
{
    lemma_on_axis_dot(axis, p, p);
    assert(0 * SCALE == 0);
}

/// A ray whose line passes farther from the center than the radius meets nothing.
/// With `oc` the offset of the origin from the center and `a = dir . dir`, the
/// squared closest distance of the line is `|oc|^2 - (oc . dir)^2 / a`; the
/// condition is stated multiplied by `a`.
pub proof fn lemma_far_line_misses(s: Sphere, ray: Ray, acc: Accuracy)
    requires
        dot_spec(ray.dir, ray.dir) > 0,
        ({
            let oc = sub_spec(ray.orig, s.center);
            let a = dot_spec(ray.dir, ray.dir);
            dot_spec(oc, oc) * a - dot_spec(oc, ray.dir) * dot_spec(oc, ray.dir) > s.radius
                * s.radius * a
        }),
    ensures
        sphere_hit(s, ray, acc) is None,
{
    let (a, hb, c) = quadratic(s.center, s.radius as int, ray);
    let oc = sub_spec(ray.orig, s.center);
    let rr = s.radius * s.radius;
    assert(hb * hb - a * c < 0) by (nonlinear_arith)
        requires
            c == dot_spec(oc, oc) - rr,
            dot_spec(oc, oc) * a - hb * hb > rr * a,
    ;
}

/// Sizes of the quadratic's coefficients for a sphere and a ray of the scene.
proof fn lemma_quadratic_bounds(oc: Vec3, d: Vec3, r: int)
    requires
        bounded_by(oc, 2 * LIMIT),
        is_direction(d),
        0 < r <= LIMIT,
    ensures
        0 <= dot_spec(d, d) <= 3 * SCALE * SCALE,
        -6 * LIMIT * SCALE <= dot_spec(oc, d) <= 6 * LIMIT * SCALE,
        0 <= dot_spec(oc, oc) <= 12 * LIMIT * LIMIT,
        0 < r * r <= LIMIT * LIMIT,
        0 <= dot_spec(oc, d) * dot_spec(oc, d) <= 0x400_0000_0000_0000_0000,
        -0x400_0000_0000_0000_0000 <= dot_spec(d, d) * (dot_spec(oc, oc) - r * r)
            <= 0x400_0000_0000_0000_0000,
        -0x800_0000_0000_0000_0000 <= dot_spec(oc, d) * dot_spec(oc, d) - dot_spec(d, d) * (
        dot_spec(oc, oc) - r * r) <= 0x800_0000_0000_0000_0000,
{
    let a = dot_spec(d, d);
    let hb = dot_spec(oc, d);
    let oo = dot_spec(oc, oc);
    assert(0 <= a <= 3 * SCALE * SCALE) by (nonlinear_arith)
        requires
            a == d.x * d.x + d.y * d.y + d.z * d.z,
            is_direction(d),
    ;
    assert(-6 * LIMIT * SCALE <= hb <= 6 * LIMIT * SCALE) by {
        lemma_mul_prod(oc.x as int, d.x as int);
        lemma_mul_prod(oc.y as int, d.y as int);
        lemma_mul_prod(oc.z as int, d.z as int);
    }
    assert(0 <= oo <= 12 * LIMIT * LIMIT) by (nonlinear_arith)
        requires
            oo == oc.x * oc.x + oc.y * oc.y + oc.z * oc.z,
            bounded_by(oc, 2 * LIMIT),
    ;
    assert(0 < r * r <= LIMIT * LIMIT) by (nonlinear_arith)
        requires
            0 < r <= LIMIT,
    ;
    let c = oo - r * r;
    assert(0 <= hb * hb <= 36 * LIMIT * SCALE * LIMIT * SCALE) by (nonlinear_arith)
        requires
            -6 * LIMIT * SCALE <= hb <= 6 * LIMIT * SCALE,
    ;
    assert(-(3 * SCALE * SCALE) * (LIMIT * LIMIT) <= a * c <= (3 * SCALE * SCALE) * (12 * LIMIT
        * LIMIT)) by (nonlinear_arith)
        requires
            0 <= a <= 3 * SCALE * SCALE,
            -(LIMIT * LIMIT) <= c <= 12 * LIMIT * LIMIT,
    ;
    assert(SCALE == 1024 && LIMIT == 16777216);
    assert(36 * LIMIT * SCALE * LIMIT * SCALE <= 0x400_0000_0000_0000_0000);
    assert((3 * SCALE * SCALE) * (12 * LIMIT * LIMIT) <= 0x400_0000_0000_0000_0000)
        by (nonlinear_arith)
        requires
            SCALE == 1024 && LIMIT == 16777216,
    ;
    assert((3 * SCALE * SCALE) * (LIMIT * LIMIT) <= 0x400_0000_0000_0000_0000) by (nonlinear_arith)
        requires
            SCALE == 1024 && LIMIT == 16777216,
    ;
}

proof fn lemma_mul_prod(o: int, d: int)
    requires
        -2 * LIMIT <= o <= 2 * LIMIT,
        -SCALE <= d <= SCALE,
    ensures
        -2 * LIMIT * SCALE <= o * d <= 2 * LIMIT * SCALE,
{
    assert(-2 * LIMIT * SCALE <= o * d <= 2 * LIMIT * SCALE) by (nonlinear_arith)
        requires
            -2 * LIMIT <= o <= 2 * LIMIT,
            -SCALE <= d <= SCALE,
    ;
}

} // verus!
