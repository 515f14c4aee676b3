//! Moments and exposure intervals.

use vstd::prelude::*;
use crate::utils::random_from;
use crate::vec3::FAR;

verus! {

/// A moment, in ticks.
#[derive(Clone, Copy, Debug, PartialEq, Eq, Structural)]
pub struct TimePoint(pub i64);

/// The length of an exposure, in ticks.
#[derive(Clone, Copy, Debug, PartialEq, Eq, Structural)]
pub struct TimeInterval(pub i64);

/// A moment drawn within the shutter interval centered on `frame`: in
/// `[frame - shutter / 2, frame + shutter / 2)`, or `frame` itself when that
/// interval is empty.
pub fn sample_time_point(frame: TimePoint, shutter: TimeInterval) -> (r: TimePoint)
    requires
        -FAR <= frame.0 <= FAR,
        0 <= shutter.0 <= FAR,
    ensures
        shutter.0 / 2 == 0 ==> r == frame,
        shutter.0 / 2 > 0 ==> frame.0 - shutter.0 / 2 <= r.0 < frame.0 + shutter.0 / 2,
{
    let TimeInterval(interval) = shutter;
    let half = interval / 2;
    let offset = if half == 0 {
        0
    } else {
        random_from(-half, half)
    };
    sample_time_point_with(frame, shutter, offset)
}

/// The moment `offset` ticks away from `frame`, for an offset drawn within the
/// shutter interval (zero when that interval is empty).
pub fn sample_time_point_with(frame: TimePoint, shutter: TimeInterval, offset: i64) -> (r:
    TimePoint)
    requires
        -FAR <= frame.0 <= FAR,
        0 <= shutter.0 <= FAR,
        shutter.0 / 2 == 0 ==> offset == 0,
        shutter.0 / 2 > 0 ==> -(shutter.0 / 2) <= offset < shutter.0 / 2,
    ensures
        r.0 == frame.0 + offset,
{
    TimePoint(frame.0 + offset)
}

} // verus!
