//! A tapered capsule between two balls.  The radius interpolates linearly
//! from one end's to the other's along the bone.

use vstd::prelude::*;
use crate::axis::Axis;
use crate::ball::Ball;
use crate::vector::Rotation;
use crate::vector::Vector;
use crate::vector::rotate_spec;

verus! {

#[derive(Clone, Copy, Debug, PartialEq, Eq, Structural)]
pub struct Bone {
    pub b1: Ball,
    pub b2: Ball,
}

impl Bone {
    pub fn new(b1: Ball, b2: Ball) -> (r: Self)
        ensures
            r == (Bone { b1, b2 }),
    {
        Bone { b1, b2 }
    }

    /// Rotate both end balls about the same pivot.
    pub fn rotate_around(&mut self, other: Vector, rot: Rotation, axis: Axis)
        ensures
            final(self).b1.center == rotate_spec(old(self).b1.center, other, rot, axis),
            final(self).b2.center == rotate_spec(old(self).b2.center, other, rot, axis),
            final(self).b1.radius == old(self).b1.radius,
            final(self).b2.radius == old(self).b2.radius,
            final(self).b1.color == old(self).b1.color,
            final(self).b2.color == old(self).b2.color,
    {
        self.b1.rotate_around(other, rot, axis);
        self.b2.rotate_around(other, rot, axis);
    }
}

} // verus!
