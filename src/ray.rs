//! Rays: an origin and a unit direction.

use vstd::prelude::*;
use crate::vec3::{Vec3, add_spec, bounded_by, in_range, is_direction, normalize_spec, scale_spec, BIG, FAR, LIMIT, SCALE};

verus! {

/// A half-line: an origin and a direction of one unit of length (or zero,
/// for a degenerate ray that meets nothing).
#[derive(Clone, Copy, Debug)]
pub struct Ray {
    pub orig: Vec3,
    pub dir: Vec3,
}

/// The point reached after travelling `t` ticks along the ray.
pub open spec fn at_spec(ray: Ray, t: int) -> Vec3 {
    add_spec(ray.orig, scale_spec(ray.dir, t))
}

impl Ray {
    /// The origin lies in the scene's range and the direction is at most a unit long.
    pub open spec fn wf(&self) -> bool {
        in_range(self.orig) && is_direction(self.dir)
    }

    /// A ray from `orig` along `dir`, whose length is brought to one unit.
    pub fn new(orig: &Vec3, dir: &Vec3) -> (r: Ray)
        requires
            in_range(*orig),
            bounded_by(*dir, BIG as int),
        ensures
            r.orig == *orig,
            r.dir == normalize_spec(*dir),
            r.wf(),
    {
        Ray { orig: *orig, dir: dir.normalize() }
    }

    pub fn origin(&self) -> (r: Vec3)
        ensures
            r == self.orig,
    {
        self.orig
    }

    pub fn direction(&self) -> (r: Vec3)
        ensures
            r == self.dir,
    {
        self.dir
    }

    /// The point at parameter `t` (in ticks) along the ray.
    pub fn at(&self, t: i64) -> (r: Vec3)
        requires
            self.wf(),
            -FAR <= t <= FAR,
        ensures
            r == at_spec(*self, t as int),
            bounded_by(r, LIMIT + FAR),
    {
        let step = self.dir.scale(t);
        proof {
            lemma_direction_scaled(self.dir, t as int);
        }
        self.orig.add(&step)
    }
}

/// A direction scaled by a parameter within `FAR` stays within `FAR`.
pub proof fn lemma_direction_scaled(d: Vec3, t: int)
    requires
        is_direction(d),
        -FAR <= t <= FAR,
    ensures
        bounded_by(scale_spec(d, t), FAR as int),
{
    lemma_scaled_coord(d.x as int, t);
    lemma_scaled_coord(d.y as int, t);
    lemma_scaled_coord(d.z as int, t);
}

proof fn lemma_scaled_coord(c: int, t: int)
    requires
        -SCALE <= c <= SCALE,
        -FAR <= t <= FAR,
    ensures
        -FAR <= c * t / SCALE as int <= FAR,
{
    assert(-(SCALE * FAR) <= c * t <= SCALE * FAR) by (nonlinear_arith)
        requires
            -SCALE <= c <= SCALE,
            -FAR <= t <= FAR,
    ;
    vstd::arithmetic::div_mod::lemma_div_is_ordered(c * t, SCALE * FAR, SCALE as int);
    vstd::arithmetic::div_mod::lemma_div_is_ordered(-(SCALE * FAR), c * t, SCALE as int);
    vstd::arithmetic::div_mod::lemma_fundamental_div_mod_converse(SCALE * FAR, SCALE as int, FAR as int, 0);
    vstd::arithmetic::div_mod::lemma_fundamental_div_mod_converse(-(SCALE * FAR), SCALE as int, -FAR as int, 0);
}

} // verus!
