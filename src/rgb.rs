//! Displayable colors with channels in `[0, 1]`.

use vstd::prelude::*;
use crate::intensity::Intensity;
use crate::material::unit_channel;
use crate::vec3::SCALE;

verus! {

/// A displayable color: three channels in `[0, SCALE]` ticks.
#[derive(Clone, Copy, Debug, PartialEq, Eq, Structural)]
pub struct RGB {
    pub r: i64,
    pub g: i64,
    pub b: i64,
}

/// `c` brought into `[0, SCALE]`.
pub open spec fn clamp_unit(c: int) -> int {
    if c < 0 {
        0
    } else if c > SCALE {
        SCALE as int
    } else {
        c
    }
}

fn clamp_channel(c: i64) -> (r: i64)
    ensures
        r == clamp_unit(c as int),
{
    if c < 0 {
        0
    } else if c > SCALE {
        SCALE
    } else {
        c
    }
}

impl RGB {
    pub open spec fn wf(&self) -> bool {
        unit_channel(self.r as int) && unit_channel(self.g as int) && unit_channel(self.b as int)
    }

    pub fn new(r: i64, g: i64, b: i64) -> (res: RGB)
        requires
            unit_channel(r as int),
            unit_channel(g as int),
            unit_channel(b as int),
        ensures
            res == (RGB { r, g, b }),
            res.wf(),
    {
        RGB { r, g, b }
    }

    pub fn r(&self) -> (res: i64)
        ensures
            res == self.r,
    {
        self.r
    }

    pub fn g(&self) -> (res: i64)
        ensures
            res == self.g,
    {
        self.g
    }

    pub fn b(&self) -> (res: i64)
        ensures
            res == self.b,
    {
        self.b
    }

    pub fn black() -> (res: RGB)
        ensures
            res == (RGB { r: 0, g: 0, b: 0 }),
    {
        RGB { r: 0, g: 0, b: 0 }
    }

    pub fn green() -> (res: RGB)
        ensures
            res == (RGB { r: 0, g: SCALE, b: 0 }),
    {
        RGB { r: 0, g: SCALE, b: 0 }
    }

    pub fn red() -> (res: RGB)
        ensures
            res == (RGB { r: SCALE, g: 0, b: 0 }),
    {
        RGB { r: SCALE, g: 0, b: 0 }
    }

    pub fn blue() -> (res: RGB)
        ensures
            res == (RGB { r: 0, g: 0, b: SCALE }),
    {
        RGB { r: 0, g: 0, b: SCALE }
    }

    pub fn white() -> (res: RGB)
        ensures
            res == (RGB { r: SCALE, g: SCALE, b: SCALE }),
    {
        RGB { r: SCALE, g: SCALE, b: SCALE }
    }

    /// Each channel of the intensity, clamped to `[0, SCALE]`.
    pub fn from_intensity(intensity: Intensity) -> (res: RGB)
        ensures
            res == (RGB {
                r: clamp_unit(intensity.r as int) as i64,
                g: clamp_unit(intensity.g as int) as i64,
                b: clamp_unit(intensity.b as int) as i64,
            }),
            res.wf(),
    {
        RGB {
            r: clamp_channel(intensity.r),
            g: clamp_channel(intensity.g),
            b: clamp_channel(intensity.b),
        }
    }
}

impl From<Intensity> for RGB {
    /// Each channel clamped to `[0, SCALE]`.
    fn from(intensity: Intensity) -> (res: RGB) {
        RGB::from_intensity(intensity)
    }
}

impl vstd::std_specs::convert::FromSpecImpl<Intensity> for RGB {
    open spec fn obeys_from_spec() -> bool {
        true
    }

    open spec fn from_spec(v: Intensity) -> RGB {
        RGB {
            r: clamp_unit(v.r as int) as i64,
            g: clamp_unit(v.g as int) as i64,
            b: clamp_unit(v.b as int) as i64,
        }
    }
}

} // verus!
