//! Spheres: a center, a radius and a color.  During pose construction a
//! ball's center is moved by rotations and distance constraints; afterward
//! it is read-only scene data.

use vstd::prelude::*;
use crate::axis::Axis;
use crate::color::Color;
use crate::fixed::fx_add;
use crate::fixed::sat64;
use crate::vector::Rotation;
use crate::vector::Vector;
use crate::vector::len_spec;
use crate::vector::rotate_spec;
use crate::vector::v_add;
use crate::vector::v_div;
use crate::vector::v_scale;
use crate::vector::v_sub;

verus! {

#[derive(Clone, Copy, Debug, PartialEq, Eq, Structural)]
pub struct Ball {
    pub center: Vector,
    pub radius: i64,
    pub color: Color,
}

/// Where a center lands when pushed to a given distance from an anchor,
/// along the ray from the anchor through it.
pub open spec fn set_distance_spec(center: Vector, distance: int, anchor: Vector) -> Vector {
    let span = v_sub(center, anchor);
    v_add(anchor, v_div(v_scale(span, distance), len_spec(span)))
}

impl Ball {
    pub fn new(x: i64, y: i64, z: i64, radius: i64, color: Color) -> (r: Self)
        ensures
            r == (Ball { center: Vector { x, y, z }, radius, color }),
    {
        Ball { center: Vector { x, y, z }, radius, color }
    }

    pub fn new_v(center: Vector, radius: i64, color: Color) -> (r: Self)
        ensures
            r == (Ball { center, radius, color }),
    {
        Ball { center, radius, color }
    }

    /// Move this ball's center onto the other ball's surface.
    pub fn move_to_sphere(&mut self, other: &Ball)
        ensures
            final(self).center == set_distance_spec(
                old(self).center,
                other.radius as int,
                other.center,
            ),
            final(self).radius == old(self).radius,
            final(self).color == old(self).color,
    {
        self.set_distance(other.radius, other);
    }

    /// Move this ball's center to the given distance from the other ball's
    /// center, along the line joining the two centers.
    pub fn set_distance(&mut self, distance: i64, other: &Ball)
        ensures
            final(self).center == set_distance_spec(
                old(self).center,
                distance as int,
                other.center,
            ),
            final(self).radius == old(self).radius,
            final(self).color == old(self).color,
    {
        let span = self.center.minus(&other.center);
        let l = span.length();
        self.center = other.center.plus(&span.scale(distance).div_by(l));
    }

    /// Leave the given gap between the two balls' surfaces.
    pub fn set_gap(&mut self, gap: i64, other: &Ball)
        ensures
            final(self).center == set_distance_spec(
                old(self).center,
                sat64(sat64(old(self).radius + other.radius) + gap),
                other.center,
            ),
            final(self).radius == old(self).radius,
            final(self).color == old(self).color,
    {
        let d = fx_add(fx_add(self.radius, other.radius), gap);
        self.set_distance(d, other);
    }

    /// Rotate the center about a pivot along an axis.
    pub fn rotate_around(&mut self, other: Vector, rot: Rotation, axis: Axis)
        ensures
            final(self).center == rotate_spec(old(self).center, other, rot, axis),
            final(self).radius == old(self).radius,
            final(self).color == old(self).color,
    {
        self.center = self.center.rotate_around(other, rot, axis);
    }
}

} // verus!
