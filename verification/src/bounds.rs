//! Axis-aligned screen-space boxes with a depth interval, and the interval
//! algebra pruning rests on: union, intersection, and containment tests.
//! The empty box is a distinguished value that acts as the identity of
//! `union`.

use vstd::prelude::*;
use crate::fixed::fx_add;
use crate::fixed::fx_sub;
use crate::fixed::sat64;
use crate::projection::BallProjection;
use crate::vector::len_spec;
use crate::vector::lemma_len_ge_abs;

verus! {

#[derive(Clone, Copy, Debug, PartialEq, Eq, Structural)]
pub struct Bounds {
    pub x_min: i64,
    pub x_max: i64,
    pub y_min: i64,
    pub y_max: i64,
    pub z_min: i64,
    pub z_max: i64,
    pub empty: bool,
}

pub open spec fn empty_spec() -> Bounds {
    Bounds { x_min: 0, x_max: 0, y_min: 0, y_max: 0, z_min: 0, z_max: 0, empty: true }
}

pub open spec fn min64(a: i64, b: i64) -> i64 {
    if a <= b {
        a
    } else {
        b
    }
}

pub open spec fn max64(a: i64, b: i64) -> i64 {
    if a >= b {
        a
    } else {
        b
    }
}

/// The smallest box containing both; the empty box is its identity.
pub open spec fn union_spec(a: Bounds, b: Bounds) -> Bounds {
    if a.empty && b.empty {
        empty_spec()
    } else if b.empty {
        a
    } else if a.empty {
        b
    } else {
        Bounds {
            x_min: min64(a.x_min, b.x_min),
            x_max: max64(a.x_max, b.x_max),
            y_min: min64(a.y_min, b.y_min),
            y_max: max64(a.y_max, b.y_max),
            z_min: min64(a.z_min, b.z_min),
            z_max: max64(a.z_max, b.z_max),
            empty: false,
        }
    }
}

/// The box of points lying in both; disjoint boxes intersect to empty.
pub open spec fn intersection_spec(a: Bounds, b: Bounds) -> Bounds {
    if a.empty && b.empty {
        empty_spec()
    } else {
        let x_min = max64(a.x_min, b.x_min);
        let x_max = min64(a.x_max, b.x_max);
        let y_min = max64(a.y_min, b.y_min);
        let y_max = min64(a.y_max, b.y_max);
        let z_min = max64(a.z_min, b.z_min);
        let z_max = min64(a.z_max, b.z_max);
        if x_min > x_max || y_min > y_max || z_min > z_max {
            empty_spec()
        } else {
            Bounds { x_min, x_max, y_min, y_max, z_min, z_max, empty: false }
        }
    }
}

/// The box of a projected ball: the screen footprint inflated by the
/// projected radius, and the camera-space depth interval widened by the
/// world radius.  A ball behind the camera is boxed around its camera-space
/// center instead of its screen center.
pub open spec fn for_ball_spec(bp: BallProjection) -> Bounds {
    let cx = if bp.sphere.center_cs.z < 0 {
        bp.sphere.center_cs.x
    } else {
        bp.sphere.projected_center_cs.x
    };
    let cy = if bp.sphere.center_cs.z < 0 {
        bp.sphere.center_cs.y
    } else {
        bp.sphere.projected_center_cs.y
    };
    let pr = bp.sphere.projected_radius;
    Bounds {
        x_min: sat64(cx - pr) as i64,
        x_max: sat64(cx + pr) as i64,
        y_min: sat64(cy - pr) as i64,
        y_max: sat64(cy + pr) as i64,
        z_min: sat64(bp.sphere.center_cs.z - bp.base.radius) as i64,
        z_max: sat64(len_spec(bp.sphere.center_cs) + bp.base.radius) as i64,
        empty: false,
    }
}

/// The union of the boxes of a list of projected balls.
pub open spec fn for_balls_spec(bps: Seq<BallProjection>) -> Bounds
    decreases bps.len(),
{
    if bps.len() == 0 {
        empty_spec()
    } else {
        union_spec(for_balls_spec(bps.drop_last()), for_ball_spec(bps.last()))
    }
}

impl Bounds {
    pub fn empty() -> (r: Self)
        ensures
            r == empty_spec(),
    {
        Bounds { x_min: 0, x_max: 0, y_min: 0, y_max: 0, z_min: 0, z_max: 0, empty: true }
    }

    pub fn union(&self, other: &Bounds) -> (r: Self)
        ensures
            r == union_spec(*self, *other),
    {
        if self.empty && other.empty {
            return Bounds::empty();
        }
        if other.empty {
            return *self;
        }
        if self.empty {
            return *other;
        }
        Bounds {
            x_min: if self.x_min <= other.x_min { self.x_min } else { other.x_min },
            x_max: if self.x_max >= other.x_max { self.x_max } else { other.x_max },
            y_min: if self.y_min <= other.y_min { self.y_min } else { other.y_min },
            y_max: if self.y_max >= other.y_max { self.y_max } else { other.y_max },
            z_min: if self.z_min <= other.z_min { self.z_min } else { other.z_min },
            z_max: if self.z_max >= other.z_max { self.z_max } else { other.z_max },
            empty: false,
        }
    }

    pub fn intersection(&self, other: &Bounds) -> (r: Self)
        ensures
            r == intersection_spec(*self, *other),
    {
        if self.empty && other.empty {
            return Bounds::empty();
        }
        let x_min = if self.x_min >= other.x_min { self.x_min } else { other.x_min };
        let x_max = if self.x_max <= other.x_max { self.x_max } else { other.x_max };
        let y_min = if self.y_min >= other.y_min { self.y_min } else { other.y_min };
        let y_max = if self.y_max <= other.y_max { self.y_max } else { other.y_max };
        let z_min = if self.z_min >= other.z_min { self.z_min } else { other.z_min };
        let z_max = if self.z_max <= other.z_max { self.z_max } else { other.z_max };
        if x_min > x_max || y_min > y_max || z_min > z_max {
            return Bounds::empty();
        }
        Bounds { x_min, x_max, y_min, y_max, z_min, z_max, empty: false }
    }

    /// The box's width; an empty box has none.
    pub fn dx(&self) -> (r: i64)
        ensures
            r as int == if self.empty { 0int } else { sat64(self.x_max - self.x_min) },
    {
        if self.empty {
            0
        } else {
            fx_sub(self.x_max, self.x_min)
        }
    }

    /// The box's height; an empty box has none.
    pub fn dy(&self) -> (r: i64)
        ensures
            r as int == if self.empty { 0int } else { sat64(self.y_max - self.y_min) },
    {
        if self.empty {
            0
        } else {
            fx_sub(self.y_max, self.y_min)
        }
    }

    /// Whether a screen position falls inside the box's footprint.
    pub fn contains_xy(&self, x: i64, y: i64) -> (r: bool)
        ensures
            r == (self.x_min <= x <= self.x_max && self.y_min <= y <= self.y_max),
    {
        self.x_min <= x && x <= self.x_max && self.y_min <= y && y <= self.y_max
    }

    /// Whether any of the box's depth range lies in front of `z`.
    pub fn contains_points_in_front_of_z(&self, z: i64) -> (r: bool)
        ensures
            r == (self.z_min < z),
    {
        self.z_min < z
    }

    pub fn for_ball(bp: &BallProjection) -> (r: Self)
        ensures
            r == for_ball_spec(*bp),
    {
        let ccs = bp.center_cs();
        let (x, y) = if ccs.z < 0 {
            (ccs.x, ccs.y)
        } else {
            (bp.x(), bp.y())
        };
        let pr = bp.projected_radius();
        Bounds {
            x_min: fx_sub(x, pr),
            x_max: fx_add(x, pr),
            y_min: fx_sub(y, pr),
            y_max: fx_add(y, pr),
            z_min: fx_sub(ccs.z, bp.base.radius),
            z_max: fx_add(bp.z(), bp.base.radius),
            empty: false,
        }
    }

    pub fn for_balls(bps: &Vec<BallProjection>) -> (r: Self)
        ensures
            r == for_balls_spec(bps@),
    {
        let mut acc = Bounds::empty();
        for i in 0..bps.len()
            invariant
                acc == for_balls_spec(bps@.subrange(0, i as int)),
        {
            proof {
                assert(bps@.subrange(0, i + 1).drop_last() =~= bps@.subrange(0, i as int));
            }
            acc = acc.union(&Bounds::for_ball(&bps[i]));
        }
        proof {
            assert(bps@.subrange(0, bps@.len() as int) =~= bps@);
        }
        acc
    }
}

/// The box of a ball contains its screen footprint: the chosen center
/// shifted by the projected radius each way in x and y, and the depth
/// interval one world radius around the camera-space depth.  The depth top
/// covers `z + r` because the stored depth is the full camera distance,
/// which dominates the z coordinate.  (The hypotheses keep the arithmetic
/// clear of the saturation rail.)
pub proof fn lemma_for_ball_contains(bp: BallProjection)
    requires
        -0x1000000000000000 <= bp.sphere.center_cs.x <= 0x1000000000000000,
        -0x1000000000000000 <= bp.sphere.center_cs.y <= 0x1000000000000000,
        -0x1000000000000000 <= bp.sphere.center_cs.z <= 0x1000000000000000,
        -0x1000000000000000 <= bp.sphere.projected_center_cs.x <= 0x1000000000000000,
        -0x1000000000000000 <= bp.sphere.projected_center_cs.y <= 0x1000000000000000,
        0 <= bp.sphere.projected_radius <= 0x1000000000000000,
        0 <= bp.base.radius <= 0x1000000000000000,
        len_spec(bp.sphere.center_cs) + bp.base.radius <= i64::MAX,
    ensures
        ({
            let b = for_ball_spec(bp);
            let cx = if bp.sphere.center_cs.z < 0 {
                bp.sphere.center_cs.x
            } else {
                bp.sphere.projected_center_cs.x
            };
            let cy = if bp.sphere.center_cs.z < 0 {
                bp.sphere.center_cs.y
            } else {
                bp.sphere.projected_center_cs.y
            };
            &&& b.x_min <= cx - bp.sphere.projected_radius
            &&& cx + bp.sphere.projected_radius <= b.x_max
            &&& b.y_min <= cy - bp.sphere.projected_radius
            &&& cy + bp.sphere.projected_radius <= b.y_max
            &&& b.z_min <= bp.sphere.center_cs.z - bp.base.radius
            &&& bp.sphere.center_cs.z + bp.base.radius <= b.z_max
        }),
{
    lemma_len_ge_abs(bp.sphere.center_cs);
}

/// `union` is commutative.
pub proof fn lemma_union_commutative(a: Bounds, b: Bounds)
    ensures
        union_spec(a, b) == union_spec(b, a),
{
}

/// `union` is associative.
pub proof fn lemma_union_associative(a: Bounds, b: Bounds, c: Bounds)
    ensures
        union_spec(union_spec(a, b), c) == union_spec(a, union_spec(b, c)),
{
}

/// The empty box is an identity of `union`, on either side.  (An empty
/// box is only ever built by `Bounds::empty`, so its coordinates are zero.)
pub proof fn lemma_union_empty_identity(a: Bounds)
    requires
        a.empty ==> a == empty_spec(),
    ensures
        union_spec(a, empty_spec()) == a,
        union_spec(empty_spec(), a) == a,
{
}

/// Two empty boxes intersect to the empty box.
pub proof fn lemma_intersection_empty_absorbing()
    ensures
        intersection_spec(empty_spec(), empty_spec()) == empty_spec(),
{
}

} // verus!
