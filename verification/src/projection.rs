//! Projection of a sphere into camera and screen space: the line from the
//! camera through the sphere's center is intersected with the screen plane
//! by solving a three-by-three linear system exactly, and the projected
//! radius is estimated from four extremal points of the sphere's silhouette.
//! That estimate is the engine's documented approximation: the true
//! silhouette of a sphere is not the projected box of those four points at
//! extreme perspective angles.

use vstd::prelude::*;
use crate::ball::Ball;
use crate::fixed::FX_ONE;
use crate::fixed::fx_div;
use crate::fixed::fx_div_spec;
use crate::fixed::fx_div_wide;
use crate::fixed::fx_neg;
use crate::fixed::fx_sub;
use crate::fixed::lemma_fx_div_in_unit;
use crate::fixed::lemma_fxm_bound;
use crate::fixed::lemma_mul_bounds_abs;
use crate::fixed::sat64;
use crate::vector::Vector;
use crate::vector::len_spec;
use crate::vector::lemma_len_ge_abs;
use crate::vector::v_add;
use crate::vector::v_div;
use crate::vector::v_scale;
use crate::vector::v_sub;
use crate::world_view::WorldView;
use crate::world_view::small_coord;

verus! {

/// The determinant of the matrix with columns `a`, `b`, `c`.
pub open spec fn det3_spec(a: Vector, b: Vector, c: Vector) -> int {
    a.x * (b.y * c.z - b.z * c.y) - b.x * (a.y * c.z - a.z * c.y) + c.x * (a.y * b.z - a.z
        * b.y)
}

/// The negation of a vector, coordinate by coordinate.
pub open spec fn v_neg(a: Vector) -> Vector {
    Vector { x: sat64(-a.x) as i64, y: sat64(-a.y) as i64, z: sat64(-a.z) as i64 }
}

/// The intersection of the plane spanned by `ep1`, `ep2` through `p0` with
/// the line through `l0` along `el`, by Cramer's rule: the first two
/// result coordinates are the plane coordinates, the third the line
/// parameter.  A singular system has no result.
pub open spec fn plane_line_spec(
    p0: Vector,
    ep1: Vector,
    ep2: Vector,
    l0: Vector,
    el: Vector,
) -> Option<Vector> {
    let nel = v_neg(el);
    let rhs = v_sub(l0, p0);
    let d = det3_spec(ep1, ep2, nel);
    if d == 0 {
        None
    } else {
        Some(
            Vector {
                x: fx_div_spec(det3_spec(rhs, ep2, nel), d) as i64,
                y: fx_div_spec(det3_spec(ep1, rhs, nel), d) as i64,
                z: fx_div_spec(det3_spec(ep1, ep2, rhs), d) as i64,
            },
        )
    }
}

/// A determinant of coordinate-bounded columns is bounded.
pub proof fn lemma_det3_bound(a: Vector, b: Vector, c: Vector, ba: int, bb: int, bc: int)
    requires
        small_coord(a, ba),
        small_coord(b, bb),
        small_coord(c, bc),
        0 <= ba,
        0 <= bb,
        0 <= bc,
    ensures
        -6 * (ba * (bb * bc)) <= det3_spec(a, b, c) <= 6 * (ba * (bb * bc)),
{
    lemma_mul_bounds_abs(b.y as int, c.z as int, bb, bc);
    lemma_mul_bounds_abs(b.z as int, c.y as int, bb, bc);
    lemma_mul_bounds_abs(a.x as int, b.y * c.z - b.z * c.y, ba, 2 * (bb * bc));
    lemma_mul_bounds_abs(a.y as int, c.z as int, ba, bc);
    lemma_mul_bounds_abs(a.z as int, c.y as int, ba, bc);
    lemma_mul_bounds_abs(b.x as int, a.y * c.z - a.z * c.y, bb, 2 * (ba * bc));
    lemma_mul_bounds_abs(a.y as int, b.z as int, ba, bb);
    lemma_mul_bounds_abs(a.z as int, b.y as int, ba, bb);
    lemma_mul_bounds_abs(c.x as int, a.y * b.z - a.z * b.y, bc, 2 * (ba * bb));
    assert(ba * (2 * (bb * bc)) == 2 * (ba * (bb * bc)) && bb * (2 * (ba * bc)) == 2 * (ba
        * (bb * bc)) && bc * (2 * (ba * bb)) == 2 * (ba * (bb * bc))) by (nonlinear_arith);
}

/// Compute the determinant exactly in 128-bit arithmetic.
fn det3(a: &Vector, b: &Vector, c: &Vector) -> (r: i128)
    requires
        small_coord(*a, 0x10000000000),
        small_coord(*b, 0x10000000000),
        small_coord(*c, 0x10000000000),
    ensures
        r as int == det3_spec(*a, *b, *c),
{
    proof {
        let bd = 0x10000000000int;
        lemma_mul_bounds_abs(b.y as int, c.z as int, bd, bd);
        lemma_mul_bounds_abs(b.z as int, c.y as int, bd, bd);
        lemma_mul_bounds_abs(a.x as int, b.y * c.z - b.z * c.y, bd, 2 * (bd * bd));
        lemma_mul_bounds_abs(a.y as int, c.z as int, bd, bd);
        lemma_mul_bounds_abs(a.z as int, c.y as int, bd, bd);
        lemma_mul_bounds_abs(b.x as int, a.y * c.z - a.z * c.y, bd, 2 * (bd * bd));
        lemma_mul_bounds_abs(a.y as int, b.z as int, bd, bd);
        lemma_mul_bounds_abs(a.z as int, b.y as int, bd, bd);
        lemma_mul_bounds_abs(c.x as int, a.y * b.z - a.z * b.y, bd, 2 * (bd * bd));
    }
    let t1: i128 = a.x as i128 * (b.y as i128 * c.z as i128 - b.z as i128 * c.y as i128);
    let t2: i128 = b.x as i128 * (a.y as i128 * c.z as i128 - a.z as i128 * c.y as i128);
    let t3: i128 = c.x as i128 * (a.y as i128 * b.z as i128 - a.z as i128 * b.y as i128);
    t1 - t2 + t3
}

/// Solve the plane/line system; `None` means the system is singular and
/// the projection fails.
pub fn intersect_plane_line(
    p0: Vector,
    ep1: Vector,
    ep2: Vector,
    l0: Vector,
    el: Vector,
) -> (r: Option<Vector>)
    requires
        small_coord(p0, 0x400000000),
        small_coord(ep1, 0x40000),
        small_coord(ep2, 0x40000),
        small_coord(l0, 0x100000000),
        small_coord(el, 0x4000000000),
    ensures
        r == plane_line_spec(p0, ep1, ep2, l0, el),
{
    let nel = Vector { x: fx_neg(el.x), y: fx_neg(el.y), z: fx_neg(el.z) };
    let rhs = l0.minus(&p0);
    proof {
        lemma_det3_bound(ep1, ep2, nel, 0x40000, 0x40000, 0x4000000000);
    }
    let d = det3(&ep1, &ep2, &nel);
    if d == 0 {
        return None;
    }
    proof {
        lemma_det3_bound(rhs, ep2, nel, 0x500000000, 0x40000, 0x4000000000);
        lemma_det3_bound(ep1, rhs, nel, 0x40000, 0x500000000, 0x4000000000);
        lemma_det3_bound(ep1, ep2, rhs, 0x40000, 0x40000, 0x500000000);
    }
    let dx = det3(&rhs, &ep2, &nel);
    let dy = det3(&ep1, &rhs, &nel);
    let dz = det3(&ep1, &ep2, &rhs);
    Some(Vector { x: fx_div_wide(dx, d), y: fx_div_wide(dy, d), z: fx_div_wide(dz, d) })
}

#[derive(Clone, Copy, Debug, PartialEq, Eq, Structural)]
pub struct SphereProjection {
    pub center_cs: Vector,
    pub projected_center_cs: Vector,
    pub projected_center_os: Vector,
    pub projected_radius: i64,
}

/// Project a single point (a sphere of radius zero): its screen position,
/// its camera-space position, and its world-space foot on the screen plane.
pub open spec fn project_center_spec(wv: WorldView, center: Vector) -> Option<
    (Vector, Vector, Vector),
> {
    let cam2c = v_sub(center, wv.camera_position);
    let dist = len_spec(cam2c);
    match plane_line_spec(wv.zero, wv.ux, wv.uy, wv.camera_position, cam2c) {
        None => None,
        Some(intf) => {
            let pos = v_add(wv.camera_position, v_scale(cam2c, intf.z as int));
            let pcs0 = Vector { x: intf.x, y: intf.y, z: wv.focal_length };
            let factor0 = fx_div_spec(dist, len_spec(pcs0));
            let factor = if intf.z < 0 {
                sat64(-factor0)
            } else {
                factor0
            };
            let ccs = v_scale(pcs0, factor);
            let pcs = if intf.z < 0 {
                Vector { x: sat64(-pcs0.x) as i64, y: sat64(-pcs0.y) as i64, z: pcs0.z }
            } else {
                pcs0
            };
            Some((pcs, ccs, pos))
        },
    }
}

/// Fold one silhouette corner into the projected-radius estimate.
pub open spec fn corner_radius_spec(wv: WorldView, p: Vector, pcs: Vector, acc: int) -> int {
    match project_center_spec(wv, p) {
        None => acc,
        Some((cp, _, _)) => {
            let dx = sat64(cp.x - pcs.x);
            let dy = sat64(cp.y - pcs.y);
            let ax = if acc >= dx {
                acc
            } else {
                dx
            };
            if ax >= dy {
                ax
            } else {
                dy
            }
        },
    }
}

/// The whole sphere projection.
pub open spec fn sphere_projection_spec(wv: WorldView, center: Vector, radius: int) -> Option<
    SphereProjection,
> {
    let cam2c = v_sub(center, wv.camera_position);
    let dist = len_spec(cam2c);
    if radius > 0 && dist <= radius {
        None
    } else {
        match project_center_spec(wv, center) {
            None => None,
            Some((pcs, ccs, pos)) => {
                if radius == 0 {
                    Some(
                        SphereProjection {
                            center_cs: ccs,
                            projected_center_cs: pcs,
                            projected_center_os: pos,
                            projected_radius: 0,
                        },
                    )
                } else {
                    let closest = v_add(
                        wv.camera_position,
                        v_scale(cam2c, sat64(FX_ONE - fx_div_spec(radius, dist))),
                    );
                    let n = v_div(cam2c, dist);
                    let u1 = crate::vector::cross_ux_spec(n);
                    let u2 = crate::vector::cross_uy_spec(n);
                    let nr = sat64(-radius);
                    let p11 = v_add(v_add(closest, v_scale(u1, nr)), v_scale(u2, nr));
                    let p12 = v_add(v_add(closest, v_scale(u1, nr)), v_scale(u2, radius));
                    let p21 = v_add(v_add(closest, v_scale(u1, radius)), v_scale(u2, nr));
                    let p22 = v_add(v_add(closest, v_scale(u1, radius)), v_scale(u2, radius));
                    let r0 = corner_radius_spec(wv, p11, pcs, 0);
                    let r1 = corner_radius_spec(wv, p12, pcs, r0);
                    let r2 = corner_radius_spec(wv, p21, pcs, r1);
                    let r3 = corner_radius_spec(wv, p22, pcs, r2);
                    Some(
                        SphereProjection {
                            center_cs: ccs,
                            projected_center_cs: pcs,
                            projected_center_os: pos,
                            projected_radius: r3 as i64,
                        },
                    )
                }
            },
        }
    }
}

/// Project a point; the helper behind the radius estimate.
fn project_center(wv: &WorldView, center: Vector) -> (r: Option<(Vector, Vector, Vector)>)
    requires
        wv.wf(),
        small_coord(center, 0x2000000000),
    ensures
        r == project_center_spec(*wv, center),
{
    let cam2c = center.minus(&wv.camera_position);
    let dist = cam2c.length();
    let intf = match intersect_plane_line(wv.zero, wv.ux, wv.uy, wv.camera_position, cam2c) {
        None => {
            return None;
        },
        Some(v) => v,
    };
    let pos = wv.camera_position.plus(&cam2c.scale(intf.z));
    let pcs0 = Vector::new(intf.x, intf.y, wv.focal_length);
    let pl = pcs0.length();
    let factor0 = fx_div(dist, pl);
    let factor = if intf.z < 0 {
        fx_neg(factor0)
    } else {
        factor0
    };
    let ccs = pcs0.scale(factor);
    let pcs = if intf.z < 0 {
        Vector { x: fx_neg(pcs0.x), y: fx_neg(pcs0.y), z: pcs0.z }
    } else {
        pcs0
    };
    Some((pcs, ccs, pos))
}

impl SphereProjection {
    /// Project a sphere.  `None` stands for a projection the solver cannot
    /// resolve (a ray parallel to the screen plane, or a camera inside the
    /// sphere): such a sphere contributes nothing.
    #[verifier::rlimit(100)]
    pub fn new(wv: &WorldView, center: Vector, radius: i64) -> (r: Option<Self>)
        requires
            wv.wf(),
            small_coord(center, 0x400000000),
            0 <= radius <= 0x40000000,
        ensures
            r == sphere_projection_spec(*wv, center, radius as int),
    {
        let cam2c = center.minus(&wv.camera_position);
        let dist = cam2c.length();
        if radius > 0 && dist <= radius {
            return None;
        }
        let (pcs, ccs, pos) = match project_center(wv, center) {
            None => {
                return None;
            },
            Some(t) => t,
        };
        if radius == 0 {
            return Some(
                SphereProjection {
                    center_cs: ccs,
                    projected_center_cs: pcs,
                    projected_center_os: pos,
                    projected_radius: 0,
                },
            );
        }
        proof {
            lemma_len_ge_abs(cam2c);
            lemma_fx_div_in_unit(radius as int, dist as int);
            crate::fixed::lemma_fxm_contract(cam2c.x as int, sat64(FX_ONE - fx_div_spec(radius as int, dist as int)));
            crate::fixed::lemma_fxm_contract(cam2c.y as int, sat64(FX_ONE - fx_div_spec(radius as int, dist as int)));
            crate::fixed::lemma_fxm_contract(cam2c.z as int, sat64(FX_ONE - fx_div_spec(radius as int, dist as int)));
            lemma_fx_div_in_unit(cam2c.x as int, dist as int);
            lemma_fx_div_in_unit(cam2c.y as int, dist as int);
            lemma_fx_div_in_unit(cam2c.z as int, dist as int);
        }
        let factor = fx_sub(FX_ONE, fx_div(radius, dist));
        let closest = wv.camera_position.plus(&cam2c.scale(factor));
        let n = cam2c.div_by(dist);
        proof {
            crate::world_view::lemma_unit_cross_bounds(n);
        }
        let (u1, u2) = n.cross_axes();
        proof {
            lemma_fxm_bound(u1.x as int, -(radius as int), 0x40000, 0x40000000);
            lemma_fxm_bound(u1.y as int, -(radius as int), 0x40000, 0x40000000);
            lemma_fxm_bound(u1.z as int, -(radius as int), 0x40000, 0x40000000);
            lemma_fxm_bound(u2.x as int, -(radius as int), 0x40000, 0x40000000);
            lemma_fxm_bound(u2.y as int, -(radius as int), 0x40000, 0x40000000);
            lemma_fxm_bound(u2.z as int, -(radius as int), 0x40000, 0x40000000);
            lemma_fxm_bound(u1.x as int, radius as int, 0x40000, 0x40000000);
            lemma_fxm_bound(u1.y as int, radius as int, 0x40000, 0x40000000);
            lemma_fxm_bound(u1.z as int, radius as int, 0x40000, 0x40000000);
            lemma_fxm_bound(u2.x as int, radius as int, 0x40000, 0x40000000);
            lemma_fxm_bound(u2.y as int, radius as int, 0x40000, 0x40000000);
            lemma_fxm_bound(u2.z as int, radius as int, 0x40000, 0x40000000);
        }
        let nr = fx_neg(radius);
        let s1n = u1.scale(nr);
        let s1p = u1.scale(radius);
        let s2n = u2.scale(nr);
        let s2p = u2.scale(radius);
        let mut r: i64 = 0;
        r = corner_radius(wv, closest.plus(&s1n).plus(&s2n), &pcs, r);
        r = corner_radius(wv, closest.plus(&s1n).plus(&s2p), &pcs, r);
        r = corner_radius(wv, closest.plus(&s1p).plus(&s2n), &pcs, r);
        r = corner_radius(wv, closest.plus(&s1p).plus(&s2p), &pcs, r);
        Some(
            SphereProjection {
                center_cs: ccs,
                projected_center_cs: pcs,
                projected_center_os: pos,
                projected_radius: r,
            },
        )
    }

    pub fn x(&self) -> (r: i64)
        ensures
            r == self.projected_center_cs.x,
    {
        self.projected_center_cs.x
    }

    pub fn y(&self) -> (r: i64)
        ensures
            r == self.projected_center_cs.y,
    {
        self.projected_center_cs.y
    }

    pub fn z(&self) -> (r: i64)
        ensures
            r as int == len_spec(self.center_cs),
    {
        self.center_cs.length()
    }
}

/// Fold one silhouette corner into the radius estimate.
fn corner_radius(wv: &WorldView, p: Vector, pcs: &Vector, acc: i64) -> (r: i64)
    requires
        wv.wf(),
        small_coord(p, 0x2000000000),
    ensures
        r as int == corner_radius_spec(*wv, p, *pcs, acc as int),
{
    match project_center(wv, p) {
        None => acc,
        Some((cp, _, _)) => {
            let dx = fx_sub(cp.x, pcs.x);
            let dy = fx_sub(cp.y, pcs.y);
            let ax = if acc >= dx {
                acc
            } else {
                dx
            };
            if ax >= dy {
                ax
            } else {
                dy
            }
        },
    }
}

#[derive(Clone, Copy, Debug, PartialEq, Eq, Structural)]
pub struct BallProjection {
    pub sphere: SphereProjection,
    pub base: Ball,
}

impl BallProjection {
    /// Project a ball.
    pub fn new(wv: &WorldView, base: Ball) -> (r: Option<Self>)
        requires
            wv.wf(),
            small_coord(base.center, 0x400000000),
            0 <= base.radius <= 0x40000000,
        ensures
            ({
                let sp = sphere_projection_spec(*wv, base.center, base.radius as int);
                match r {
                    None => sp is None,
                    Some(bp) => sp == Some(bp.sphere) && bp.base == base,
                }
            }),
    {
        match SphereProjection::new(wv, base.center, base.radius) {
            None => None,
            Some(sphere) => Some(BallProjection { sphere, base }),
        }
    }

    pub fn center_cs(&self) -> (r: Vector)
        ensures
            r == self.sphere.center_cs,
    {
        self.sphere.center_cs
    }

    pub fn projected_radius(&self) -> (r: i64)
        ensures
            r == self.sphere.projected_radius,
    {
        self.sphere.projected_radius
    }

    pub fn x(&self) -> (r: i64)
        ensures
            r == self.sphere.projected_center_cs.x,
    {
        self.sphere.x()
    }

    pub fn y(&self) -> (r: i64)
        ensures
            r == self.sphere.projected_center_cs.y,
    {
        self.sphere.y()
    }

    pub fn z(&self) -> (r: i64)
        ensures
            r as int == len_spec(self.sphere.center_cs),
    {
        self.sphere.z()
    }
}

} // verus!
