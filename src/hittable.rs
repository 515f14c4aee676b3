//! Hit records and the window of ray parameters at which hits count.

use vstd::prelude::*;
use crate::material::Material;
use crate::vec3::{Vec3, FAR};

verus! {

/// Where a ray met a surface.
#[derive(Clone, Copy, Debug)]
pub struct HitRecord {
    pub point: Vec3,
    /// Unit normal, turned to face the incoming ray.
    pub normal: Vec3,
    pub material: Material,
    /// Ray parameter of the hit, in ticks.
    pub t: i64,
    /// The ray arrived from the side that the outward normal points to.
    pub front: bool,
}

impl HitRecord {
    pub fn new(point: Vec3, normal: Vec3, material: Material, t: i64, front: bool) -> (r:
        HitRecord)
        ensures
            r == (HitRecord { point, normal, material, t, front }),
    {
        HitRecord { point, normal, material, t, front }
    }

    pub fn point(&self) -> (r: Vec3)
        ensures
            r == self.point,
    {
        self.point
    }

    pub fn normal(&self) -> (r: Vec3)
        ensures
            r == self.normal,
    {
        self.normal
    }

    pub fn front(&self) -> (r: bool)
        ensures
            r == self.front,
    {
        self.front
    }

    pub fn material(&self) -> (r: &Material)
        ensures
            *r == self.material,
    {
        &self.material
    }

    pub fn t(&self) -> (r: i64)
        ensures
            r == self.t,
    {
        self.t
    }
}

/// The window `[min, max]` of ray parameters (in ticks) at which hits count.
#[derive(Clone, Copy, Debug, PartialEq, Eq, Structural)]
pub struct Accuracy {
    pub min: i64,
    pub max: i64,
}

impl Accuracy {
    /// The window lies within `[-FAR, FAR]`; `FAR` stands for an unbounded search.
    pub open spec fn wf(&self) -> bool {
        -FAR <= self.min && self.max <= FAR
    }
}

} // verus!
