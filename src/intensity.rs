//! Unbounded non-negative radiance.

use vstd::prelude::*;
use crate::vec3::LIMIT;

verus! {

/// Radiance carried along a path: three non-negative channels in ticks.
#[derive(Clone, Copy, Debug, PartialEq, Eq, Structural)]
pub struct Intensity {
    pub r: i64,
    pub g: i64,
    pub b: i64,
}

/// A channel value that an intensity may hold.
pub open spec fn intensity_channel(c: int) -> bool {
    0 <= c <= LIMIT
}

impl Intensity {
    pub open spec fn wf(&self) -> bool {
        intensity_channel(self.r as int) && intensity_channel(self.g as int) && intensity_channel(
            self.b as int,
        )
    }

    pub fn new(r: i64, g: i64, b: i64) -> (res: Intensity)
        requires
            intensity_channel(r as int),
            intensity_channel(g as int),
            intensity_channel(b as int),
        ensures
            res.r == r && res.g == g && res.b == b,
            res.wf(),
    {
        Intensity { r, g, b }
    }

    pub fn r(&self) -> (res: i64)
        ensures
            res == self.r,
    {
        self.r
    }

    pub fn g(&self) -> (res: i64)
        ensures
            res == self.g,
    {
        self.g
    }

    pub fn b(&self) -> (res: i64)
        ensures
            res == self.b,
    {
        self.b
    }

    /// No radiance at all.
    pub fn zero() -> (res: Intensity)
        ensures
            res == zero_intensity(),
            res.wf(),
    {
        Intensity { r: 0, g: 0, b: 0 }
    }
}

pub open spec fn zero_intensity() -> Intensity {
    Intensity { r: 0, g: 0, b: 0 }
}

} // verus!
