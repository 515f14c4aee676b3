//! Random draws.

use vstd::prelude::*;
use crate::vec3::{Vec3, is_direction, normalize_spec, vec3, SCALE};

verus! {

/// Relies on `rand::random::<u64>`: a number drawn from the thread-local
/// generator.  Nothing is assumed about which number comes out.
#[verifier::external_body]
fn random_u64() -> u64 {
    rand::random::<u64>()
}

/// The number of `[min, max)` that the raw draw `x` stands for: `min` plus `x`
/// modulo the width of the interval.
pub open spec fn draw_value(min: i64, max: i64, x: u64) -> int {
    min + (x % ((max - min) as u64)) as int
}

/// The number of `[min, max)` that the raw draw `x` stands for (`draw_value`).
pub fn from_draw(min: i64, max: i64, x: u64) -> (r: i64)
    requires
        min < max,
        max - min <= i64::MAX,
    ensures
        r == draw_value(min, max, x),
        min <= r < max,
{
    let span = (max - min) as u64;
    min + (x % span) as i64
}

/// A number drawn from `[min, max)`.
pub fn random_from(min: i64, max: i64) -> (r: i64)
    requires
        min < max,
        max - min <= i64::MAX,
    ensures
        min <= r < max,
        exists|x: u64| r == #[trigger] draw_value(min, max, x),
{
    from_draw(min, max, random_u64())
}

/// Tries made at drawing a point of the unit ball before the last point drawn
/// is taken as it is.
pub const DRAW_TRIES: u32 = 16;

/// `j` is what a draw of a direction can give: a point of the cube `[-1, 1]^3`
/// brought to one unit of length.  (`random_on_unit_sphere` keeps only points of
/// the unit ball, which makes the direction uniform, unless every try misses.)
pub open spec fn unit_draw(j: Vec3) -> bool {
    exists|x: int, y: int, z: int|
        -SCALE <= x <= SCALE && -SCALE <= y <= SCALE && -SCALE <= z <= SCALE && j
            == normalize_spec(vec3(x, y, z))
}

/// The direction that the drawn point `p` gives: `p` brought to one unit of length.
pub fn direction_from_point(p: Vec3) -> (r: Vec3)
    requires
        is_direction(p),
    ensures
        r == normalize_spec(p),
        is_direction(r),
{
    p.normalize()
}

/// A direction drawn uniformly: points of the cube `[-1, 1]^3` are drawn until
/// one falls in the unit ball (outside its center), and that point is brought to
/// one unit of length.  After `DRAW_TRIES` misses the last point is taken.
pub fn random_on_unit_sphere() -> (r: Vec3)
    ensures
        is_direction(r),
        unit_draw(r),
{
    let unit2: i128 = (SCALE as i128) * (SCALE as i128);
    let mut tries: u32 = 0;
    loop
        invariant
            tries <= DRAW_TRIES,
            unit2 == SCALE * SCALE,
        decreases DRAW_TRIES - tries,
    {
        let x = random_from(-SCALE, SCALE + 1);
        let y = random_from(-SCALE, SCALE + 1);
        let z = random_from(-SCALE, SCALE + 1);
        let v = Vec3 { x, y, z };
        let n2 = v.dot(&v);
        tries = tries + 1;
        if (n2 > 0 && n2 <= unit2) || tries >= DRAW_TRIES {
            assert(v == vec3(x as int, y as int, z as int));
            return direction_from_point(v);
        }
    }
}

/// A point drawn from the square `[-1, 1]^2`, in ticks.
pub fn random_in_unit_disk() -> (r: (i64, i64))
    ensures
        -SCALE <= r.0 <= SCALE,
        -SCALE <= r.1 <= SCALE,
{
    (random_from(-SCALE, SCALE + 1), random_from(-SCALE, SCALE + 1))
}

} // verus!
