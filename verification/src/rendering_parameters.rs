//! The viewport being resolved: a screen rectangle and a pixel pitch.
//! Scale and translation transforms express the same real viewport in a
//! child tracer's coordinate frame.

use vstd::prelude::*;
use crate::bounds::Bounds;
use crate::fixed::FX_ONE;
use crate::fixed::fx_add;
use crate::fixed::fx_ceil;
use crate::fixed::fx_ceil_spec;
use crate::fixed::fx_div;
use crate::fixed::fx_div_spec;
use crate::fixed::fx_floor;
use crate::fixed::fx_floor_spec;
use crate::fixed::fx_sub;
use crate::fixed::sat64;

verus! {

#[derive(Clone, Copy, Debug, PartialEq, Eq, Structural)]
pub struct RenderingParameters {
    pub pixel_size: i64,
    pub x_min: i64,
    pub x_max: i64,
    pub y_min: i64,
    pub y_max: i64,
}

/// The viewport enclosing a box: one unit of margin each way, settled onto
/// whole units.
pub open spec fn params_spec(pixel_size: i64, bounds: Bounds) -> RenderingParameters {
    RenderingParameters {
        pixel_size,
        x_min: fx_floor_spec(sat64(bounds.x_min - FX_ONE)) as i64,
        x_max: fx_ceil_spec(sat64(bounds.x_max + FX_ONE)) as i64,
        y_min: fx_floor_spec(sat64(bounds.y_min - FX_ONE)) as i64,
        y_max: fx_ceil_spec(sat64(bounds.y_max + FX_ONE)) as i64,
    }
}

/// Whether a box reaches into the viewport: the footprints overlap and
/// some of the box lies in front of the camera.
pub open spec fn contains_spec(p: RenderingParameters, b: Bounds) -> bool {
    &&& b.x_max >= p.x_min
    &&& b.x_min <= p.x_max
    &&& b.y_max >= p.y_min
    &&& b.y_min <= p.y_max
    &&& b.z_max > 0
}

/// The same viewport in a child frame scaled up by `scale`.
pub open spec fn scale_spec(p: RenderingParameters, scale: i64) -> RenderingParameters {
    RenderingParameters {
        pixel_size: fx_div_spec(p.pixel_size as int, scale as int) as i64,
        x_min: fx_div_spec(p.x_min as int, scale as int) as i64,
        x_max: fx_div_spec(p.x_max as int, scale as int) as i64,
        y_min: fx_div_spec(p.y_min as int, scale as int) as i64,
        y_max: fx_div_spec(p.y_max as int, scale as int) as i64,
    }
}

/// The same viewport in a child frame shifted by `(dx, dy)`.
pub open spec fn translate_spec(p: RenderingParameters, dx: i64, dy: i64) -> RenderingParameters {
    RenderingParameters {
        pixel_size: p.pixel_size,
        x_min: sat64(p.x_min - dx) as i64,
        x_max: sat64(p.x_max - dx) as i64,
        y_min: sat64(p.y_min - dy) as i64,
        y_max: sat64(p.y_max - dy) as i64,
    }
}

impl RenderingParameters {
    pub fn new(pixel_size: i64, bounds: &Bounds) -> (r: Self)
        ensures
            r == params_spec(pixel_size, *bounds),
    {
        RenderingParameters {
            pixel_size,
            x_min: fx_floor(fx_sub(bounds.x_min, FX_ONE)),
            x_max: fx_ceil(fx_add(bounds.x_max, FX_ONE)),
            y_min: fx_floor(fx_sub(bounds.y_min, FX_ONE)),
            y_max: fx_ceil(fx_add(bounds.y_max, FX_ONE)),
        }
    }

    /// Whether a coordinate has saturated: the fixed-point stand-in for an
    /// unbounded viewport.
    pub fn any_infinite(&self) -> (r: bool)
        ensures
            r == (self.x_min == i64::MIN || self.x_max == i64::MAX || self.y_min == i64::MIN
                || self.y_max == i64::MAX),
    {
        self.x_min == i64::MIN || self.x_max == i64::MAX || self.y_min == i64::MIN
            || self.y_max == i64::MAX
    }

    pub fn contains(&self, bounds: &Bounds) -> (r: bool)
        ensures
            r == contains_spec(*self, *bounds),
    {
        bounds.x_max >= self.x_min && bounds.x_min <= self.x_max && bounds.y_max >= self.y_min
            && bounds.y_min <= self.y_max && bounds.z_max > 0
    }

    pub fn scale(&self, scale: i64) -> (r: Self)
        ensures
            r == scale_spec(*self, scale),
    {
        RenderingParameters {
            pixel_size: fx_div(self.pixel_size, scale),
            x_min: fx_div(self.x_min, scale),
            x_max: fx_div(self.x_max, scale),
            y_min: fx_div(self.y_min, scale),
            y_max: fx_div(self.y_max, scale),
        }
    }

    pub fn translated(&self, dx: i64, dy: i64) -> (r: Self)
        ensures
            r == translate_spec(*self, dx, dy),
    {
        RenderingParameters {
            pixel_size: self.pixel_size,
            x_min: fx_sub(self.x_min, dx),
            x_max: fx_sub(self.x_max, dx),
            y_min: fx_sub(self.y_min, dy),
            y_max: fx_sub(self.y_max, dy),
        }
    }
}

/// Containment is monotone in the viewport: a wider viewport keeps every
/// box a narrower one contains.
pub proof fn lemma_contains_monotonic(wide: RenderingParameters, narrow: RenderingParameters, b: Bounds)
    requires
        wide.x_min <= narrow.x_min,
        narrow.x_max <= wide.x_max,
        wide.y_min <= narrow.y_min,
        narrow.y_max <= wide.y_max,
    ensures
        contains_spec(narrow, b) ==> contains_spec(wide, b),
{
}

} // verus!
