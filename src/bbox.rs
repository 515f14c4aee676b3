//! Axis-aligned bounding boxes.

use vstd::prelude::*;
use crate::vec3::{Vec3, add_spec, bounded_by, dot_spec, in_range, sub_spec, vec3, LIMIT};

verus! {

/// An axis-aligned box, from its `min` corner to its `max` corner.
#[derive(Clone, Copy, Debug, PartialEq, Eq, Structural)]
pub struct BBox {
    pub min: Vec3,
    pub max: Vec3,
}

/// `z` lies in the box, faces included.
pub open spec fn box_contains(b: BBox, z: Vec3) -> bool {
    b.min.x <= z.x <= b.max.x && b.min.y <= z.y <= b.max.y && b.min.z <= z.z <= b.max.z
}

/// Every point of `inner` lies in `outer`.
pub open spec fn box_covers(outer: BBox, inner: BBox) -> bool {
    outer.min.x <= inner.min.x && outer.min.y <= inner.min.y && outer.min.z <= inner.min.z
        && inner.max.x <= outer.max.x && inner.max.y <= outer.max.y && inner.max.z
        <= outer.max.z
}

pub open spec fn min_int(a: int, b: int) -> int {
    if a <= b {
        a
    } else {
        b
    }
}

pub open spec fn max_int(a: int, b: int) -> int {
    if a >= b {
        a
    } else {
        b
    }
}

/// The smallest box holding both boxes.
pub open spec fn merge_spec(a: BBox, b: BBox) -> BBox {
    BBox {
        min: vec3(min_int(a.min.x as int, b.min.x as int), min_int(a.min.y as int, b.min.y as int),
            min_int(a.min.z as int, b.min.z as int)),
        max: vec3(max_int(a.max.x as int, b.max.x as int), max_int(a.max.y as int, b.max.y as int),
            max_int(a.max.z as int, b.max.z as int)),
    }
}

/// The box around a ball: each corner differs from the center by the radius on every axis.
pub open spec fn ball_box(center: Vec3, radius: int) -> BBox {
    BBox {
        min: sub_spec(center, vec3(radius, radius, radius)),
        max: add_spec(center, vec3(radius, radius, radius)),
    }
}

/// The middle of a box, rounded down.
pub open spec fn center_spec(b: BBox) -> Vec3 {
    vec3((b.min.x + b.max.x) / 2, (b.min.y + b.max.y) / 2, (b.min.z + b.max.z) / 2)
}

impl BBox {
    /// Both corners lie within twice the scene's range.
    pub open spec fn wf(&self) -> bool {
        bounded_by(self.min, 2 * LIMIT) && bounded_by(self.max, 2 * LIMIT)
    }

    /// The middle of the box, rounded down.
    pub fn center(&self) -> (r: Vec3)
        requires
            self.wf(),
        ensures
            r == center_spec(*self),
            bounded_by(r, 2 * LIMIT),
    {
        let s = self.min.add(&self.max);
        let x = crate::vec3::div_floor(s.x as i128, 2) as i64;
        let y = crate::vec3::div_floor(s.y as i128, 2) as i64;
        let z = crate::vec3::div_floor(s.z as i128, 2) as i64;
        Vec3 { x, y, z }
    }

    /// Whether `z` lies in the box.
    pub fn contains(&self, z: &Vec3) -> (r: bool)
        ensures
            r == box_contains(*self, *z),
    {
        self.min.x <= z.x && z.x <= self.max.x && self.min.y <= z.y && z.y <= self.max.y
            && self.min.z <= z.z && z.z <= self.max.z
    }

    /// The smallest box holding both `a` and `b`.
    pub fn merge(a: &BBox, b: &BBox) -> (r: BBox)
        ensures
            r == merge_spec(*a, *b),
            box_covers(r, *a),
            box_covers(r, *b),
            a.wf() && b.wf() ==> r.wf(),
    {
        BBox {
            min: Vec3 {
                x: if a.min.x <= b.min.x { a.min.x } else { b.min.x },
                y: if a.min.y <= b.min.y { a.min.y } else { b.min.y },
                z: if a.min.z <= b.min.z { a.min.z } else { b.min.z },
            },
            max: Vec3 {
                x: if a.max.x >= b.max.x { a.max.x } else { b.max.x },
                y: if a.max.y >= b.max.y { a.max.y } else { b.max.y },
                z: if a.max.z >= b.max.z { a.max.z } else { b.max.z },
            },
        }
    }
}

/// The box around a ball holds every point of the ball.
pub proof fn lemma_ball_box_contains(center: Vec3, radius: int, p: Vec3)
    requires
        radius >= 0,
        in_range(center),
        radius <= LIMIT,
        dot_spec(sub_spec(p, center), sub_spec(p, center)) <= radius * radius,
        bounded_by(p, 2 * LIMIT),
    ensures
        box_contains(ball_box(center, radius), p),
{
    let dx = p.x - center.x;
    let dy = p.y - center.y;
    let dz = p.z - center.z;
    assert(sub_spec(p, center) == vec3(dx, dy, dz));
    assert(-radius <= dx <= radius && -radius <= dy <= radius && -radius <= dz <= radius)
        by (nonlinear_arith)
        requires
            dx * dx + dy * dy + dz * dz <= radius * radius,
            radius >= 0,
    ;
}

} // verus!
