//! A thin-lens camera that turns viewport coordinates into rays.

use vstd::prelude::*;
use crate::ray::Ray;
use crate::time::TimeInterval;
use crate::utils::random_in_unit_disk;
use crate::vec3::{
    Vec3, add_spec, bounded_by, cross, cross_spec, half, half_spec, is_direction,
    lemma_scale_of_units, lemma_scale_units, mul_fixed, normalize_spec, scale_spec, sub_spec, LIMIT, SCALE,
};

verus! {

/// A thin-lens camera: the viewport's lower-left corner and its two edges, seen
/// from `origin`, with a lens of radius `lens_radius` spanned by `x` and `y`.
#[derive(Clone, Copy, Debug)]
pub struct Camera {
    pub origin: Vec3,
    pub lower_left_corner: Vec3,
    pub horizontal: Vec3,
    pub vertical: Vec3,
    pub lens_radius: i64,
    pub x: Vec3,
    pub y: Vec3,
    pub shutter: TimeInterval,
}

/// The camera at `from` looking at `at`, with `up` giving the vertical,
/// `half_height` the tangent of half the vertical field of view, the viewport's
/// width over its height, the distance to the plane in focus and the lens'
/// diameter, all in ticks.
pub open spec fn camera_spec(
    from: Vec3,
    at: Vec3,
    up: Vec3,
    half_height: int,
    aspect_ratio: int,
    focus_dist: int,
    aperture: int,
    shutter: TimeInterval,
) -> Camera {
    let viewport_height = 2 * half_height;
    let viewport_width = aspect_ratio * viewport_height / SCALE as int;
    let z = normalize_spec(sub_spec(from, at));
    let x = normalize_spec(cross_spec(up, z));
    let y = cross_spec(z, x);
    let horizontal = scale_spec(x, focus_dist * viewport_width / SCALE as int);
    let vertical = scale_spec(y, focus_dist * viewport_height / SCALE as int);
    Camera {
        origin: from,
        lower_left_corner: sub_spec(
            sub_spec(sub_spec(from, half_spec(horizontal)), half_spec(vertical)),
            scale_spec(z, focus_dist),
        ),
        horizontal,
        vertical,
        lens_radius: (aperture / 2) as i64,
        x,
        y,
        shutter,
    }
}

/// The ray through the viewport point at fractions `u`, `v` (in ticks) of its
/// width and height, leaving the lens at the point `(rx, ry)` of the unit square
/// scaled by the lens radius.
pub open spec fn camera_ray(c: Camera, u: int, v: int, rx: int, ry: int) -> Ray {
    let offset = add_spec(
        scale_spec(c.x, c.lens_radius * rx / SCALE as int),
        scale_spec(c.y, c.lens_radius * ry / SCALE as int),
    );
    let origin = add_spec(c.origin, offset);
    Ray {
        orig: origin,
        dir: normalize_spec(
            sub_spec(
                add_spec(
                    add_spec(c.lower_left_corner, scale_spec(c.horizontal, u)),
                    scale_spec(c.vertical, v),
                ),
                origin,
            ),
        ),
    }
}

impl Camera {
    pub open spec fn wf(&self) -> bool {
        bounded_by(self.origin, LIMIT / 2) && bounded_by(self.lower_left_corner, LIMIT as int)
            && bounded_by(self.horizontal, LIMIT as int) && bounded_by(self.vertical, LIMIT as int)
            && is_direction(self.x) && bounded_by(self.y, 2 * SCALE) && 0 <= self.lens_radius
            <= LIMIT / 8
    }

    pub fn new(
        from: &Vec3,
        at: &Vec3,
        up: &Vec3,
        half_height: i64,
        aspect_ratio: i64,
        focus_dist: i64,
        aperture: i64,
        shutter: TimeInterval,
    ) -> (r: Camera)
        requires
            bounded_by(*from, LIMIT / 2),
            bounded_by(*at, LIMIT / 2),
            is_direction(*up),
            0 <= half_height <= 4 * SCALE,
            0 <= aspect_ratio <= 4 * SCALE,
            0 <= focus_dist <= 128 * SCALE,
            0 <= aperture <= LIMIT / 4,
        ensures
            r == camera_spec(
                *from,
                *at,
                *up,
                half_height as int,
                aspect_ratio as int,
                focus_dist as int,
                aperture as int,
                shutter,
            ),
            r.wf(),
    {
        let viewport_height = 2 * half_height;
        let viewport_width = mul_fixed(aspect_ratio, viewport_height);
        assert(viewport_width <= 32 * SCALE) by (nonlinear_arith)
            requires
                viewport_width == aspect_ratio * viewport_height / SCALE as int,
                0 <= aspect_ratio <= 4 * SCALE,
                0 <= viewport_height <= 8 * SCALE,
        ;
        let z = from.sub(at).normalize();
        let x = cross(up, &z).normalize();
        let y = cross(&z, &x);
        let hk = mul_fixed(focus_dist, viewport_width);
        let vk = mul_fixed(focus_dist, viewport_height);
        assert(0 <= hk <= 4096 * SCALE && 0 <= vk <= 1024 * SCALE) by (nonlinear_arith)
            requires
                hk == focus_dist * viewport_width / SCALE as int,
                vk == focus_dist * viewport_height / SCALE as int,
                0 <= focus_dist <= 128 * SCALE,
                0 <= viewport_width <= 32 * SCALE,
                0 <= viewport_height <= 8 * SCALE,
        ;
        proof {
            lemma_scale_of_units(x, hk as int, 1, hk as int);
            lemma_scale_of_units(y, vk as int, 2, vk as int);
            lemma_scale_of_units(z, focus_dist as int, 1, focus_dist as int);
        }
        let horizontal = x.scale(hk);
        let vertical = y.scale(vk);
        let hh = half(&horizontal);
        let hv = half(&vertical);
        assert(bounded_by(hh, 0x20_0001));
        assert(bounded_by(hv, 0x10_0001));
        let back = z.scale(focus_dist);
        let lower_left_corner = from.sub(&hh).sub(&hv).sub(&back);
        Camera {
            origin: *from,
            lower_left_corner,
            horizontal,
            vertical,
            lens_radius: aperture / 2,
            x,
            y,
            shutter,
        }
    }

    pub fn shutter(&self) -> (r: TimeInterval)
        ensures
            r == self.shutter,
    {
        self.shutter
    }

    /// The ray through viewport point `u`, `v` leaving the lens at the given
    /// point of the unit square.
    pub fn get_ray_with(&self, u: i64, v: i64, lens_point: (i64, i64)) -> (r: Ray)
        requires
            self.wf(),
            0 <= u <= 2 * SCALE,
            0 <= v <= 2 * SCALE,
            -SCALE <= lens_point.0 <= SCALE,
            -SCALE <= lens_point.1 <= SCALE,
        ensures
            r == camera_ray(*self, u as int, v as int, lens_point.0 as int, lens_point.1 as int),
            r.wf(),
    {
        let (rd_x, rd_y) = lens_point;
        let kx = mul_fixed(self.lens_radius, rd_x);
        let ky = mul_fixed(self.lens_radius, rd_y);
        assert(-self.lens_radius <= kx <= self.lens_radius && -self.lens_radius <= ky
            <= self.lens_radius) by (nonlinear_arith)
            requires
                kx == self.lens_radius * rd_x / SCALE as int,
                ky == self.lens_radius * rd_y / SCALE as int,
                0 <= self.lens_radius,
                -SCALE <= rd_x <= SCALE,
                -SCALE <= rd_y <= SCALE,
        ;
        proof {
            lemma_scale_of_units(self.x, kx as int, 1, self.lens_radius as int);
            lemma_scale_of_units(self.y, ky as int, 2, self.lens_radius as int);
            lemma_scale_units(self.horizontal, u as int, LIMIT as int, 2);
            lemma_scale_units(self.vertical, v as int, LIMIT as int, 2);
        }
        let offset = self.x.scale(kx).add(&self.y.scale(ky));
        let origin = self.origin.add(&offset);
        let target = self.lower_left_corner.add(&self.horizontal.scale(u)).add(
            &self.vertical.scale(v),
        );
        let direction = target.sub(&origin);
        Ray::new(&origin, &direction)
    }

    /// The ray through viewport point `u`, `v`, from a random point of the lens.
    pub fn get_ray(&self, u: i64, v: i64) -> (r: Ray)
        requires
            self.wf(),
            0 <= u <= 2 * SCALE,
            0 <= v <= 2 * SCALE,
        ensures
            exists|rx: int, ry: int|
                -SCALE <= rx <= SCALE && -SCALE <= ry <= SCALE && r == camera_ray(
                    *self,
                    u as int,
                    v as int,
                    rx,
                    ry,
                ),
            r.wf(),
    {
        let lens_point = random_in_unit_disk();
        self.get_ray_with(u, v, lens_point)
    }
}

} // verus!
