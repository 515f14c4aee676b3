//! Scene primitives and the nearest hit over a linear scan.

use vstd::prelude::*;
use crate::bbox::{BBox, ball_box, box_contains, lemma_ball_box_contains};
use crate::hittable::{Accuracy, HitRecord};
use crate::ray::Ray;
use crate::sphere::{Sphere, sphere_hit};
use crate::vec3::{Vec3, bounded_by, dot_spec, sub_spec, LIMIT};

verus! {

/// A primitive of a scene.
#[derive(Clone, Copy, Debug)]
pub enum SceneObject {
    Sphere(Sphere),
}

/// The scene's primitives.
pub struct Scene(pub Vec<SceneObject>);

/// The box that a primitive reports.
pub open spec fn object_box(o: SceneObject) -> BBox {
    match o {
        SceneObject::Sphere(s) => ball_box(s.center, s.radius as int),
    }
}

/// What a primitive's intersection test returns.
pub open spec fn object_hit(o: SceneObject, ray: Ray, acc: Accuracy) -> Option<HitRecord> {
    match o {
        SceneObject::Sphere(s) => sphere_hit(s, ray, acc),
    }
}

/// `p` belongs to the primitive's solid.
pub open spec fn object_holds(o: SceneObject, p: Vec3) -> bool {
    match o {
        SceneObject::Sphere(s) => dot_spec(sub_spec(p, s.center), sub_spec(p, s.center)) <= s.radius
            * s.radius,
    }
}

/// The nearer of two hits; on equal parameters, the second.  A miss counts as
/// infinitely far.
pub open spec fn closer(a: Option<HitRecord>, b: Option<HitRecord>) -> Option<HitRecord> {
    match (a, b) {
        (Some(ha), Some(hb)) => if ha.t < hb.t {
            a
        } else {
            b
        },
        (Some(_), None) => a,
        (None, _) => b,
    }
}

/// The ray parameter of a hit, if any.
pub open spec fn hit_t(h: Option<HitRecord>) -> Option<int> {
    match h {
        Some(r) => Some(r.t as int),
        None => None,
    }
}

/// Nearest hit over the first `n` primitives, scanned in order.
pub open spec fn scan_hit(objs: Seq<SceneObject>, n: int, ray: Ray, acc: Accuracy) -> Option<
    HitRecord,
>
    decreases n,
{
    if n <= 0 {
        None
    } else {
        closer(scan_hit(objs, n - 1, ray, acc), object_hit(objs[n - 1], ray, acc))
    }
}

impl SceneObject {
    pub open spec fn wf(&self) -> bool {
        match *self {
            SceneObject::Sphere(s) => s.wf(),
        }
    }

    /// The primitive's bounding box.
    pub fn bbox(&self) -> (r: BBox)
        requires
            self.wf(),
        ensures
            r == object_box(*self),
            r.wf(),
    {
        match self {
            SceneObject::Sphere(s) => {
                let d = Vec3 { x: s.radius, y: s.radius, z: s.radius };
                BBox { min: s.center.sub(&d), max: s.center.add(&d) }
            },
        }
    }

    /// The primitive's intersection test.
    pub fn hit(&self, ray: &Ray, accuracy: &Accuracy) -> (r: Option<HitRecord>)
        requires
            self.wf(),
            ray.wf(),
            accuracy.wf(),
        ensures
            r == object_hit(*self, *ray, *accuracy),
            r matches Some(h) ==> accuracy.min <= h.t <= accuracy.max && h.material.wf()
                && crate::vec3::is_direction(h.normal) && crate::vec3::in_range(h.point),
    {
        match self {
            SceneObject::Sphere(s) => s.hit(ray, accuracy),
        }
    }
}

impl Scene {
    pub open spec fn wf(&self) -> bool {
        forall|i: int| 0 <= i < self.0@.len() ==> #[trigger] self.0@[i].wf()
    }

    /// Nearest hit found by testing every primitive in turn.
    pub fn hit_linear(&self, ray: &Ray, accuracy: &Accuracy) -> (r: Option<HitRecord>)
        requires
            self.wf(),
            ray.wf(),
            accuracy.wf(),
        ensures
            r == scan_hit(self.0@, self.0@.len() as int, *ray, *accuracy),
    {
        let mut best: Option<HitRecord> = None;
        let mut i: usize = 0;
        while i < self.0.len()
            invariant
                self.wf(),
                ray.wf(),
                accuracy.wf(),
                i <= self.0@.len(),
                best == scan_hit(self.0@, i as int, *ray, *accuracy),
            decreases self.0@.len() - i,
        {
            let h = self.0[i].hit(ray, accuracy);
            best = match (best, h) {
                (Some(hb), Some(hh)) => if hb.t < hh.t {
                    best
                } else {
                    h
                },
                (Some(_), None) => best,
                (None, _) => h,
            };
            i = i + 1;
        }
        best
    }
}

/// Every primitive's box holds the primitive's whole solid; a sphere's box
/// reaches exactly one radius from the center on every axis.
pub proof fn lemma_box_holds_object(o: SceneObject, p: Vec3)
    requires
        o.wf(),
        bounded_by(p, 2 * LIMIT),
        object_holds(o, p),
    ensures
        box_contains(object_box(o), p),
{
    match o {
        SceneObject::Sphere(s) => {
            lemma_ball_box_contains(s.center, s.radius as int, p);
        },
    }
}

} // verus!
