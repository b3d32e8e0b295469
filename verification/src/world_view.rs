//! The camera: position, look-at point, focal length, and the derived
//! screen basis and ray generator.

use vstd::prelude::*;
use crate::fixed::FX_ONE;
use crate::fixed::lemma_fx_div_in_unit;
use crate::fixed::lemma_fxm_bound;
use crate::vector::Vector;
use crate::vector::cross_ux_spec;
use crate::vector::cross_uy_spec;
use crate::vector::len_spec;
use crate::vector::lemma_len_ge_abs;
use crate::vector::v_add;
use crate::vector::v_div;
use crate::vector::v_scale;
use crate::vector::v_sub;

verus! {

#[derive(Clone, Copy, Debug, PartialEq, Eq, Structural)]
pub struct WorldView {
    pub camera_position: Vector,
    pub look_at_point: Vector,
    pub focal_length: i64,
    pub ux: Vector,
    pub uy: Vector,
    pub zero: Vector,
}

/// A coordinate bound on scene positions: what 128-bit exact intermediate
/// arithmetic in the projection solver admits.
pub open spec fn small_coord(v: Vector, bound: int) -> bool {
    &&& -bound <= v.x <= bound
    &&& -bound <= v.y <= bound
    &&& -bound <= v.z <= bound
}

/// The derived camera frame.
pub open spec fn world_view_spec(cam: Vector, look: Vector, focal: int) -> WorldView {
    let view = v_sub(look, cam);
    let n = v_div(view, len_spec(view));
    WorldView {
        camera_position: cam,
        look_at_point: look,
        focal_length: focal as i64,
        ux: cross_ux_spec(n),
        uy: cross_uy_spec(n),
        zero: v_add(cam, v_scale(n, focal)),
    }
}

impl WorldView {
    /// The bounds every derived camera frame satisfies; the projection
    /// solver's exact arithmetic rests on them.
    pub open spec fn wf(&self) -> bool {
        &&& small_coord(self.camera_position, 0x100000000)
        &&& small_coord(self.look_at_point, 0x100000000)
        &&& 0 < self.focal_length <= 0x100000000
        &&& small_coord(self.ux, 0x40000)
        &&& small_coord(self.uy, 0x40000)
        &&& small_coord(self.zero, 0x400000000)
    }

    /// Derive the camera frame: view direction, screen basis, and the
    /// point the screen plane is anchored at.
    pub fn new(camera_position: Vector, look_at_point: Vector, focal_length: i64) -> (r: Self)
        requires
            small_coord(camera_position, 0x100000000),
            small_coord(look_at_point, 0x100000000),
            0 < focal_length <= 0x100000000,
        ensures
            r == world_view_spec(camera_position, look_at_point, focal_length as int),
            r.wf(),
    {
        let view = look_at_point.minus(&camera_position);
        let n = view.unit();
        proof {
            lemma_len_ge_abs(view);
            if len_spec(view) > 0 {
                lemma_fx_div_in_unit(view.x as int, len_spec(view));
                lemma_fx_div_in_unit(view.y as int, len_spec(view));
                lemma_fx_div_in_unit(view.z as int, len_spec(view));
            }
            lemma_unit_cross_bounds(n);
            lemma_fxm_bound(n.x as int, focal_length as int, FX_ONE as int, 0x100000000);
            lemma_fxm_bound(n.y as int, focal_length as int, FX_ONE as int, 0x100000000);
            lemma_fxm_bound(n.z as int, focal_length as int, FX_ONE as int, 0x100000000);
        }
        let (ux, uy) = n.cross_axes();
        let zero = camera_position.plus(&n.scale(focal_length));
        WorldView { camera_position, look_at_point, focal_length, ux, uy, zero }
    }

    /// The ray through screen position `(x, y)`: the unit vector toward
    /// that point of the screen plane, in the local screen frame.
    pub fn ray(&self, x: i64, y: i64) -> (r: Vector)
        ensures
            r == ray_spec(*self, x as int, y as int),
    {
        Vector::new(x, y, self.focal_length).unit()
    }
}

/// The ray a screen position yields.
pub open spec fn ray_spec(wv: WorldView, x: int, y: int) -> Vector {
    let v = Vector { x: x as i64, y: y as i64, z: wv.focal_length };
    v_div(v, len_spec(v))
}

/// The screen basis of a unit-bounded direction is itself bounded: each
/// basis vector's coordinates stay within two whole units.
pub proof fn lemma_unit_cross_bounds(n: Vector)
    requires
        small_coord(n, FX_ONE as int),
    ensures
        small_coord(cross_ux_spec(n), 0x40000),
        small_coord(cross_uy_spec(n), 0x40000),
{
    let ux = cross_ux_spec(n);
    if !(n.x == 0 && n.z == 0) {
        let l = crate::fixed::sat64(
            crate::fixed::sqrt_nat((n.x * n.x + n.z * n.z) as nat) as int,
        );
        crate::vector::lemma_len2_ge_abs(n.x as int, n.z as int);
        lemma_fx_div_in_unit(n.z as int, l);
        lemma_fx_div_in_unit(crate::fixed::sat64(-n.x) as int, l);
    }
    lemma_fxm_bound(ux.z as int, n.y as int, FX_ONE as int, FX_ONE as int);
    lemma_fxm_bound(ux.x as int, n.z as int, FX_ONE as int, FX_ONE as int);
    lemma_fxm_bound(ux.z as int, n.x as int, FX_ONE as int, FX_ONE as int);
    lemma_fxm_bound(
        crate::fixed::sat64(-(ux.x as int)) as int,
        n.y as int,
        FX_ONE as int,
        FX_ONE as int,
    );
}


/// Every generated ray is unit length up to rounding, so its coordinates
/// are bounded by a whole unit plus one rounding step.
pub proof fn lemma_ray_ok(wv: WorldView, x: int, y: int)
    ensures
        small_coord(ray_spec(wv, x, y), 0x20000),
{
    let v = Vector { x: x as i64, y: y as i64, z: wv.focal_length };
    crate::vector::lemma_unit_bounded(v);
}
} // verus!
