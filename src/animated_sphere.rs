//! Spheres whose centers move with time, tested one after another.

use vstd::prelude::*;
use crate::hittable::{Accuracy, HitRecord};
use crate::material::Material;
use crate::ray::Ray;
use crate::scene::closer;
use crate::sphere::{Sphere, ball_fits, sphere_hit};
use crate::time::TimePoint;
use crate::vec3::{Vec3, add_spec, bounded_by, in_range, scale_spec, FAR, LIMIT};

verus! {

/// How a sphere's center moves over time.
#[derive(Clone, Copy, Debug, PartialEq, Eq, Structural)]
pub enum Motion {
    /// It stays where it is.
    Static,
    /// It moves by `velocity` (ticks per unit of time) times the time.
    Linear { velocity: Vec3 },
}

/// A sphere whose center moves with time.
#[derive(Clone, Copy, Debug)]
pub struct AnimatedSphere {
    pub center: Vec3,
    pub radius: i64,
    pub material: Material,
    pub motion: Motion,
}

/// The center of `s` at `time`.
pub open spec fn center_at(s: AnimatedSphere, time: TimePoint) -> Vec3 {
    match s.motion {
        Motion::Static => s.center,
        Motion::Linear { velocity } => add_spec(s.center, scale_spec(velocity, time.0 as int)),
    }
}

/// What `hit` returns: the hit on the sphere moved to its place at `time`.
pub open spec fn animated_hit(s: AnimatedSphere, time: TimePoint, ray: Ray, acc: Accuracy) -> Option<
    HitRecord,
> {
    sphere_hit(Sphere { center: center_at(s, time), radius: s.radius, material: s.material }, ray, acc)
}

/// At `time` the sphere, moved, still lies within the scene's range.
pub open spec fn stays_in_range(s: AnimatedSphere, time: TimePoint) -> bool {
    ball_fits(center_at(s, time), s.radius as int)
}

/// Nearest hit over the first `n` animated spheres, scanned in order.
pub open spec fn animated_scan(
    list: Seq<AnimatedSphere>,
    n: int,
    time: TimePoint,
    ray: Ray,
    acc: Accuracy,
) -> Option<HitRecord>
    decreases n,
{
    if n <= 0 {
        None
    } else {
        closer(animated_scan(list, n - 1, time, ray, acc), animated_hit(list[n - 1], time, ray, acc))
    }
}

impl AnimatedSphere {
    pub open spec fn wf(&self) -> bool {
        in_range(self.center) && 0 < self.radius <= LIMIT && self.material.wf() && match self.motion {
            Motion::Static => true,
            Motion::Linear { velocity } => bounded_by(velocity, LIMIT as int),
        }
    }

    pub fn new(center: Vec3, radius: i64, material: Material, motion: Motion) -> (r:
        AnimatedSphere)
        ensures
            r == (AnimatedSphere { center, radius, material, motion }),
    {
        AnimatedSphere { center, radius, material, motion }
    }

    /// The nearest hit on the sphere as it stands at `time`.
    pub fn hit(&self, time: TimePoint, ray: &Ray, accuracy: &Accuracy) -> (r: Option<HitRecord>)
        requires
            self.wf(),
            -FAR <= time.0 <= FAR,
            stays_in_range(*self, time),
            ray.wf(),
            accuracy.wf(),
        ensures
            r == animated_hit(*self, time, *ray, *accuracy),
    {
        let center = match self.motion {
            Motion::Static => self.center,
            Motion::Linear { velocity } => {
                let shift = velocity.scale(time.0);
                proof {
                    crate::vec3::lemma_scale_bound(velocity, time.0 as int, LIMIT as int, FAR as int);
                    vstd::arithmetic::div_mod::lemma_fundamental_div_mod_converse(
                        LIMIT * FAR,
                        crate::vec3::SCALE as int,
                        LIMIT * FAR / crate::vec3::SCALE as int,
                        0,
                    );
                }
                self.center.add(&shift)
            },
        };
        Sphere::new(&center, self.radius, self.material).hit(ray, accuracy)
    }
}

/// Animated spheres tested one after another.
pub struct AnimatedHittableList {
    pub list: Vec<AnimatedSphere>,
}

impl AnimatedHittableList {
    pub open spec fn wf(&self) -> bool {
        forall|i: int| 0 <= i < self.list.len() ==> (#[trigger] self.list@[i]).wf()
    }

    /// The nearest hit at `time` over all the spheres.
    pub fn hit(&self, time: TimePoint, ray: &Ray, accuracy: &Accuracy) -> (r: Option<HitRecord>)
        requires
            self.wf(),
            -FAR <= time.0 <= FAR,
            forall|i: int| 0 <= i < self.list.len() ==> stays_in_range(#[trigger] self.list@[i], time),
            ray.wf(),
            accuracy.wf(),
        ensures
            r == animated_scan(self.list@, self.list.len() as int, time, *ray, *accuracy),
    {
        let mut best: Option<HitRecord> = None;
        let mut i: usize = 0;
        while i < self.list.len()
            invariant
                self.wf(),
                -FAR <= time.0 <= FAR,
                forall|i: int|
                    0 <= i < self.list.len() ==> stays_in_range(#[trigger] self.list@[i], time),
                ray.wf(),
                accuracy.wf(),
                i <= self.list.len(),
                best == animated_scan(self.list@, i as int, time, *ray, *accuracy),
            decreases self.list.len() - i,
        {
            let h = self.list[i].hit(time, ray, accuracy);
            best = match (best, h) {
                (Some(hb), Some(hh)) => if hb.t < hh.t {
                    best
                } else {
                    h
                },
                (Some(_), None) => best,
                (None, _) => h,
            };
            i = i + 1;
        }
        best
    }
}

} // verus!
