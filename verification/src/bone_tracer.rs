//! The leaf tracer: a tapered capsule between two projected balls, resolved
//! in camera space by closed-form quadratics.  The surface is a quadric in
//! the ray depth `z` and the bone parameter `f`; the silhouette condition
//! eliminates `f`, the resulting quadratic in `z` is solved exactly on
//! rescaled 128-bit coefficients, and end caps are handled by clamping `f`
//! and solving the depth quadratic again.

use vstd::prelude::*;
use crate::bounds::Bounds;
use crate::bounds::for_balls_spec;
use crate::color::Color;
use crate::color::mix_channel;
use crate::fixed::FX_ONE;
use crate::fixed::bitlen;
use crate::fixed::bitlen_exec;
use crate::fixed::clamp_i128;
use crate::fixed::fdiv;
use crate::fixed::floor_div_i128;
use crate::fixed::isqrt_u128;
use crate::fixed::lemma_bitlen_le;
use crate::fixed::lemma_mul_bounds_abs;
use crate::fixed::lemma_pw2_adds;
use crate::fixed::lemma_pw2_increases;
use crate::fixed::lemma_pw2_values;
use crate::fixed::lemma_sqrt_unique;
use crate::fixed::pw2;
use crate::fixed::pw2_exec;
use crate::fixed::sat64;
use crate::fixed::sat_abs;
use crate::fixed::sqrt_nat;
use crate::projection::BallProjection;
use crate::vector::Vector;
use crate::vector::v_add;
use crate::vector::v_scale;
use crate::vector::v_sub;
use crate::world_view::small_coord;

verus! {

/// What a tracer yields at a pixel: the ray depth of the nearest hit, the
/// outward direction there, and the surface color.
pub type TraceResult = Option<(i64, Vector, Color)>;

/// The exact inner product of two coordinate-bounded vectors.
pub open spec fn dot_exact(a: Vector, b: Vector) -> int {
    a.x * b.x + a.y * b.y + a.z * b.z
}

fn dot_wide(a: &Vector, b: &Vector) -> (r: i128)
    requires
        small_coord(*a, 0x10000000000),
        small_coord(*b, 0x10000000000),
    ensures
        r as int == dot_exact(*a, *b),
{
    proof {
        lemma_mul_bounds_abs(a.x as int, b.x as int, 0x10000000000, 0x10000000000);
        lemma_mul_bounds_abs(a.y as int, b.y as int, 0x10000000000, 0x10000000000);
        lemma_mul_bounds_abs(a.z as int, b.z as int, 0x10000000000, 0x10000000000);
    }
    a.x as i128 * b.x as i128 + a.y as i128 * b.y as i128 + a.z as i128 * b.z as i128
}

/// The two roots of `aa z^2 + bb z + cc = 0` in fixed point, smaller root
/// first, after the coefficients are rescaled onto 62 bits.  `None` when
/// the (rescaled) parabola is degenerate or the discriminant is negative.
pub open spec fn solve_spec(aa: int, bb: int, cc: int) -> Option<(int, int)> {
    if aa == 0 {
        None
    } else {
        let a1 = if aa < 0 { -aa } else { aa };
        let b1 = if aa < 0 { -bb } else { bb };
        let c1 = if aa < 0 { -cc } else { cc };
        let mba = bitlen(sat_abs(a1) as nat);
        let mbb = bitlen(sat_abs(b1) as nat);
        let mbc = bitlen(sat_abs(c1) as nat);
        let mb = if mba >= mbb && mba >= mbc {
            mba
        } else if mbb >= mbc {
            mbb
        } else {
            mbc
        };
        let shift = if mb > 62 { (mb - 62) as nat } else { 0nat };
        let d = pw2(shift) as int;
        let ax = fdiv(a1, d);
        let bx = fdiv(b1, d);
        let cx = fdiv(c1, d);
        if ax <= 0 {
            None
        } else {
            let disc = bx * bx - 4 * ax * cx;
            if disc < 0 {
                None
            } else {
                let r = sqrt_nat(disc as nat) as int;
                Some(
                    (
                        sat64(fdiv((-bx - r) * FX_ONE as int, 2 * ax)),
                        sat64(fdiv((-bx + r) * FX_ONE as int, 2 * ax)),
                    ),
                )
            }
        }
    }
}

/// Rescale one coefficient.
fn rescale(v: i128, d: u128) -> (r: i128)
    requires
        1 <= d <= 0x80000000000000000,
        -0x40000000000000000000000000000000 <= v <= 0x40000000000000000000000000000000,
        sat_abs(v as int) <= 0x4000000000000000 * (d as int),
    ensures
        r as int == fdiv(v as int, d as int),
        -0x4000000000000000 <= r <= 0x4000000000000000,
{
    proof {
        assert(-(0x4000000000000000 * (d as int)) == (-0x4000000000000000) * (d as int) + 0
            && 0x4000000000000000 * (d as int) == 0x4000000000000000 * (d as int) + 0
            && (-0x4000000000000000) * (d as int) <= v as int <= 0x4000000000000000 * (
            d as int)) by (nonlinear_arith)
            requires
                sat_abs(v as int) <= 0x4000000000000000 * (d as int),
                d >= 1,
        ;
    }
    let q = floor_div_i128(v, d as i128);
    proof {
        vstd::arithmetic::div_mod::lemma_div_is_ordered(
            -0x4000000000000000 * (d as int),
            v as int,
            d as int,
        );
        vstd::arithmetic::div_mod::lemma_div_is_ordered(
            v as int,
            0x4000000000000000 * (d as int),
            d as int,
        );
        vstd::arithmetic::div_mod::lemma_fundamental_div_mod_converse(
            (-0x4000000000000000) * (d as int),
            d as int,
            -0x4000000000000000,
            0,
        );
        vstd::arithmetic::div_mod::lemma_fundamental_div_mod_converse(
            0x4000000000000000 * (d as int),
            d as int,
            0x4000000000000000,
            0,
        );
    }
    q
}

/// Solve the quadratic.
#[verifier::rlimit(100)]
fn solve_quadratic(aa: i128, bb: i128, cc: i128) -> (r: Option<(i64, i64)>)
    requires
        -0x40000000000000000000000000000000 <= aa <= 0x40000000000000000000000000000000,
        -0x40000000000000000000000000000000 <= bb <= 0x40000000000000000000000000000000,
        -0x40000000000000000000000000000000 <= cc <= 0x40000000000000000000000000000000,
    ensures
        r is None ==> solve_spec(aa as int, bb as int, cc as int) is None,
        r is Some ==> solve_spec(aa as int, bb as int, cc as int) == Some(
            (r->Some_0.0 as int, r->Some_0.1 as int),
        ),
{
    if aa == 0 {
        return None;
    }
    let (a1, b1, c1): (i128, i128, i128) = if aa < 0 {
        (-aa, -bb, -cc)
    } else {
        (aa, bb, cc)
    };
    let ab1: u128 = a1 as u128;
    let bb1: u128 = if b1 >= 0 {
        b1 as u128
    } else {
        (-b1) as u128
    };
    let cb1: u128 = if c1 >= 0 {
        c1 as u128
    } else {
        (-c1) as u128
    };
    proof {
        assert(ab1 as int == sat_abs(a1 as int));
        assert(bb1 as int == sat_abs(b1 as int));
        assert(cb1 as int == sat_abs(c1 as int));
    }
    let mba = bitlen_exec(ab1);
    let mbb = bitlen_exec(bb1);
    let mbc = bitlen_exec(cb1);
    let mb: u32 = if mba >= mbb && mba >= mbc {
        mba
    } else if mbb >= mbc {
        mbb
    } else {
        mbc
    };
    proof {
        lemma_pw2_values();
        lemma_bitlen_le(ab1 as nat, 127);
        lemma_bitlen_le(bb1 as nat, 127);
        lemma_bitlen_le(cb1 as nat, 127);
    }
    let shift: u32 = if mb > 62 {
        mb - 62
    } else {
        0
    };
    let d: u128 = pw2_exec(shift);
    proof {
        crate::fixed::lemma_bitlen_bounds(ab1 as nat);
        if bb1 > 0 {
            crate::fixed::lemma_bitlen_bounds(bb1 as nat);
        }
        if cb1 > 0 {
            crate::fixed::lemma_bitlen_bounds(cb1 as nat);
        }
        lemma_pw2_adds(62, shift as nat);
        lemma_pw2_increases(bitlen(ab1 as nat), (62 + shift) as nat);
        lemma_pw2_increases(bitlen(bb1 as nat), (62 + shift) as nat);
        lemma_pw2_increases(bitlen(cb1 as nat), (62 + shift) as nat);
        lemma_pw2_increases(shift as nat, 67);
        assert(pw2(0) == 1) by {
            reveal_with_fuel(pw2, 1);
        }
        assert(sat_abs(a1 as int) <= 0x4000000000000000 * (d as int)) by (nonlinear_arith)
            requires
                sat_abs(a1 as int) < pw2((62 + shift as nat) as nat),
                pw2((62 + shift as nat) as nat) == 0x4000000000000000 * pw2(shift as nat),
                d as int == pw2(shift as nat),
        ;
        assert(sat_abs(b1 as int) <= 0x4000000000000000 * (d as int)) by (nonlinear_arith)
            requires
                sat_abs(b1 as int) < pw2((62 + shift as nat) as nat),
                pw2((62 + shift as nat) as nat) == 0x4000000000000000 * pw2(shift as nat),
                d as int == pw2(shift as nat),
        ;
        assert(sat_abs(c1 as int) <= 0x4000000000000000 * (d as int)) by (nonlinear_arith)
            requires
                sat_abs(c1 as int) < pw2((62 + shift as nat) as nat),
                pw2((62 + shift as nat) as nat) == 0x4000000000000000 * pw2(shift as nat),
                d as int == pw2(shift as nat),
        ;
    }
    let ax = rescale(a1, d);
    let bx = rescale(b1, d);
    let cx = rescale(c1, d);
    if ax <= 0 {
        return None;
    }
    proof {
        lemma_mul_bounds_abs(bx as int, bx as int, 0x4000000000000000, 0x4000000000000000);
        lemma_mul_bounds_abs(ax as int, cx as int, 0x4000000000000000, 0x4000000000000000);
    }
    let disc: i128 = bx * bx - 4 * (ax * cx);
    proof {
        assert(bx * bx - 4 * (ax * cx) == bx * bx - 4 * ax * cx) by (nonlinear_arith);
    }
    if disc < 0 {
        return None;
    }
    let root: u64 = isqrt_u128(disc as u128);
    proof {
        lemma_sqrt_unique(disc as nat, root as nat);
    }
    let num_m: i128 = -(bx as i128) - root as i128;
    let num_p: i128 = -(bx as i128) + root as i128;
    let zm = clamp_i128(floor_div_i128(num_m * 65536, 2 * ax));
    let zp = clamp_i128(floor_div_i128(num_p * 65536, 2 * ax));
    Some((zm, zp))
}

/// The precomputed capsule data: end separation `w`, near center `a`, base
/// radius and radius spread, and the exact quadric coefficients.
#[derive(Clone, Copy, Debug)]
pub struct BoneTracer {
    pub w: Vector,
    pub a: Vector,
    pub ra: i64,
    pub dr: i64,
    pub c2: i128,
    pub c4: i128,
    pub c6: i128,
    pub b1: BallProjection,
    pub b2: BallProjection,
    pub bounds: Bounds,
}

/// A bone tracer whose stored data is in range and consistent: the exact
/// coefficients really are those of its geometry.
pub open spec fn bone_wf(t: BoneTracer) -> bool {
    &&& small_coord(t.a, 0x20000000)
    &&& small_coord(t.w, 0x40000000)
    &&& 0 <= t.ra <= 0x4000000
    &&& -0x8000000 <= t.dr <= 0x8000000
    &&& t.c2 as int == dot_exact(t.w, t.w) - t.dr * t.dr
    &&& t.c4 as int == 2 * dot_exact(t.a, t.w) - 2 * (t.ra * t.dr)
    &&& t.c6 as int == dot_exact(t.a, t.a) - t.ra * t.ra
}

/// A ray as `WorldView::ray` hands it out: unit length up to rounding.
pub open spec fn ray_ok(ray: Vector) -> bool {
    small_coord(ray, 0x20000)
}

/// The interpolated bone radius at parameter `f` is still nonnegative:
/// the test that tells a body hit from a cap graze.
pub open spec fn radius_positive(ra: int, dr: int, f: int) -> bool {
    ra * FX_ONE as int + f * dr >= 0
}

/// The candidate `f` the silhouette condition yields at depth `z`.
pub open spec fn f_at(c2: int, c3: int, c4: int, z: int) -> int {
    let num = -(c3 * z + c4 * FX_ONE as int);
    if c2 > 0 {
        sat64(fdiv(num, 2 * c2))
    } else {
        sat64(fdiv(-num, -(2 * c2)))
    }
}

/// The depth quadratic for a fixed bone parameter `f`: the coefficients of
/// `aa z^2 + bb z + cc = 0` over the real depth, scaled so that all three
/// are integers and the solver's fixed-point root is the fixed-point depth.
pub open spec fn cap_aa(vv: int) -> int {
    vv * FX_ONE as int * FX_ONE as int
}

pub open spec fn cap_bb(c3: int, c5: int, f: int) -> int {
    (c3 * f + c5 * FX_ONE as int) * FX_ONE as int
}

pub open spec fn cap_cc(c2: int, c4: int, c6: int, f: int) -> int {
    c2 * f * f + c4 * f * FX_ONE as int + c6 * FX_ONE as int * FX_ONE as int
}

/// The whole trace, mirrored: the silhouette phase picks the depth and
/// parameter of the capsule body; parameters outside the bone fall back to
/// the cap phase, which clamps `f`, retries with the far end if the near
/// cap misses, and takes the smaller (front) depth root.
pub open spec fn bone_trace_spec(t: BoneTracer, ray: Vector) -> TraceResult {
    let c3 = -2 * dot_exact(ray, t.w);
    let c5 = -2 * dot_exact(ray, t.a);
    let vv = dot_exact(ray, ray);
    let body = if t.c2 == 0 {
        let f0: int = if t.dr > 0 { FX_ONE as int } else { 0 };
        Some((0int, f0))
    } else {
        let aa = 4 * (t.c2 * vv) - c3 * c3;
        let bb = 4 * (t.c2 * c5) - 2 * (c3 * t.c4);
        let cc = 4 * (t.c2 * t.c6) - t.c4 * t.c4;
        match solve_spec(aa, bb, cc) {
            None => None,
            Some((z2, z1)) => {
                let f1 = f_at(t.c2 as int, c3, t.c4 as int, z1);
                let f2 = f_at(t.c2 as int, c3, t.c4 as int, z2);
                let g1 = radius_positive(t.ra as int, t.dr as int, f1);
                let g2 = radius_positive(t.ra as int, t.dr as int, f2);
                let e: int = if t.dr > 0 { FX_ONE as int } else { 0 };
                let (z1b, f1b, f2b) = if !g1 { (z2, f2, e) } else { (z1, f1, f2) };
                let (z2c, f2c, f1c) = if !g2 { (z1b, f1b, e) } else { (z2, f2b, f1b) };
                Some((z2c, f2c))
            },
        }
    };
    match body {
        None => None,
        Some((z0, f0)) => {
            let zf = if f0 <= 0 || f0 >= FX_ONE as int {
                let fc: int = if f0 <= 0 { 0 } else { FX_ONE as int };
                match solve_spec(
                    cap_aa(vv),
                    cap_bb(c3, c5, fc),
                    cap_cc(t.c2 as int, t.c4 as int, t.c6 as int, fc),
                ) {
                    Some((zm, _)) => Some((zm, fc)),
                    None => {
                        let ff = FX_ONE as int - fc;
                        match solve_spec(
                            cap_aa(vv),
                            cap_bb(c3, c5, ff),
                            cap_cc(t.c2 as int, t.c4 as int, t.c6 as int, ff),
                        ) {
                            Some((zm, _)) => Some((zm, ff)),
                            None => None,
                        }
                    },
                }
            } else {
                Some((z0, f0))
            };
            match zf {
                None => None,
                Some((z, f)) => {
                    let m = v_add(t.a, v_scale(t.w, f));
                    let p = v_scale(ray, z);
                    let dir = v_sub(p, m);
                    let color = Color {
                        r: mix_channel(t.b1.base.color.r as int, t.b2.base.color.r as int, f) as u8,
                        g: mix_channel(t.b1.base.color.g as int, t.b2.base.color.g as int, f) as u8,
                        b: mix_channel(t.b1.base.color.b as int, t.b2.base.color.b as int, f) as u8,
                        a: 255,
                    };
                    Some((z as i64, dir, color))
                },
            }
        },
    }
}

impl BoneTracer {
    /// Precompute the capsule from two projected balls.
    pub fn new(b1: BallProjection, b2: BallProjection) -> (r: Self)
        requires
            small_coord(b1.sphere.center_cs, 0x10000000),
            small_coord(b2.sphere.center_cs, 0x10000000),
            0 <= b1.base.radius <= 0x4000000,
            0 <= b2.base.radius <= 0x4000000,
        ensures
            bone_wf(r),
            r.b1 == b1,
            r.b2 == b2,
            r.a == b1.sphere.center_cs,
            r.w == v_sub(b2.sphere.center_cs, b1.sphere.center_cs),
            r.ra == b1.base.radius,
            r.dr as int == b2.base.radius - b1.base.radius,
            r.bounds == for_balls_spec(seq![b1, b2]),
    {
        let w = b2.sphere.center_cs.minus(&b1.sphere.center_cs);
        let a = b1.sphere.center_cs;
        let ra = b1.base.radius;
        let dr = b2.base.radius - b1.base.radius;
        proof {
            lemma_mul_bounds_abs(dr as int, dr as int, 0x8000000, 0x8000000);
            lemma_mul_bounds_abs(ra as int, dr as int, 0x4000000, 0x8000000);
            lemma_mul_bounds_abs(ra as int, ra as int, 0x4000000, 0x4000000);
            lemma_mul_bounds_abs(w.x as int, w.x as int, 0x40000000, 0x40000000);
            lemma_mul_bounds_abs(w.y as int, w.y as int, 0x40000000, 0x40000000);
            lemma_mul_bounds_abs(w.z as int, w.z as int, 0x40000000, 0x40000000);
            lemma_mul_bounds_abs(a.x as int, w.x as int, 0x20000000, 0x40000000);
            lemma_mul_bounds_abs(a.y as int, w.y as int, 0x20000000, 0x40000000);
            lemma_mul_bounds_abs(a.z as int, w.z as int, 0x20000000, 0x40000000);
            lemma_mul_bounds_abs(a.x as int, a.x as int, 0x20000000, 0x20000000);
            lemma_mul_bounds_abs(a.y as int, a.y as int, 0x20000000, 0x20000000);
            lemma_mul_bounds_abs(a.z as int, a.z as int, 0x20000000, 0x20000000);
        }
        let c2: i128 = dot_wide(&w, &w) - dr as i128 * dr as i128;
        let c4: i128 = 2 * dot_wide(&a, &w) - 2 * (ra as i128 * dr as i128);
        let c6: i128 = dot_wide(&a, &a) - ra as i128 * ra as i128;
        let mut balls: Vec<BallProjection> = Vec::new();
        balls.push(b1);
        balls.push(b2);
        proof {
            assert(balls@ =~= seq![b1, b2]);
        }
        let bounds = Bounds::for_balls(&balls);
        BoneTracer { w, a, ra, dr, c2, c4, c6, b1, b2, bounds }
    }

    /// Resolve the nearest capsule hit along a ray.
    #[verifier::rlimit(100)]
    pub fn trace(&self, _x: i64, _y: i64, ray: Vector) -> (r: TraceResult)
        requires
            bone_wf(*self),
            ray_ok(ray),
        ensures
            r == bone_trace_spec(*self, ray),
    {
        proof {
            lemma_trace_coeff_bounds(*self, ray);
        }
        let c3: i128 = -2 * dot_wide(&ray, &self.w);
        let c5: i128 = -2 * dot_wide(&ray, &self.a);
        let vv: i128 = dot_wide(&ray, &ray);
        let mut z: i64 = 0;
        let mut f: i64 = 0;
        if self.c2 == 0 {
            f = if self.dr > 0 {
                FX_ONE
            } else {
                0
            };
        } else {
            let aa: i128 = 4 * (self.c2 * vv) - c3 * c3;
            let bb: i128 = 4 * (self.c2 * c5) - 2 * (c3 * self.c4);
            let cc: i128 = 4 * (self.c2 * self.c6) - self.c4 * self.c4;
            let (z2, z1) = match solve_quadratic(aa, bb, cc) {
                None => {
                    return None;
                },
                Some(p) => p,
            };
            let mut f1 = self.f_candidate(c3, z1);
            let mut f2 = self.f_candidate(c3, z2);
            let mut z1v = z1;
            let mut z2v = z2;
            let g1 = self.radius_check(f1);
            let g2 = self.radius_check(f2);
            let e: i64 = if self.dr > 0 {
                FX_ONE
            } else {
                0
            };
            if !g1 {
                z1v = z2v;
                f1 = f2;
                f2 = e;
            }
            if !g2 {
                z2v = z1v;
                f2 = f1;
                f1 = e;
            }
            z = z2v;
            f = f2;
        }
        if f <= 0 || f >= FX_ONE {
            let fc: i64 = if f <= 0 {
                0
            } else {
                FX_ONE
            };
            match self.cap_solve(c3, c5, vv, fc) {
                Some((zm, _)) => {
                    z = zm;
                    f = fc;
                },
                None => {
                    let ff = FX_ONE - fc;
                    match self.cap_solve(c3, c5, vv, ff) {
                        Some((zm, _)) => {
                            z = zm;
                            f = ff;
                        },
                        None => {
                            return None;
                        },
                    }
                },
            }
        }
        let m = self.a.plus(&self.w.scale(f));
        let p = ray.scale(z);
        let dir = p.minus(&m);
        let color = self.b1.base.color.mix(self.b2.base.color, f);
        Some((z, dir, color))
    }

    /// The silhouette parameter at a depth.
    fn f_candidate(&self, c3: i128, z: i64) -> (r: i64)
        requires
            bone_wf(*self),
            self.c2 != 0,
            -0x4000000000000 <= c3 <= 0x4000000000000,
            -0x3100000000000000 <= self.c2 <= 0x3100000000000000,
            -0x3100000000000000 <= self.c4 <= 0x3100000000000000,
        ensures
            r as int == f_at(self.c2 as int, c3 as int, self.c4 as int, z as int),
    {
        proof {
            lemma_mul_bounds_abs(c3 as int, z as int, 0x4000000000000, 0x8000000000000000);
        }
        let num: i128 = -(c3 * z as i128 + self.c4 * 65536);
        if self.c2 > 0 {
            clamp_i128(floor_div_i128(num, 2 * self.c2))
        } else {
            clamp_i128(floor_div_i128(-num, -(2 * self.c2)))
        }
    }

    /// Whether the interpolated radius at `f` is still nonnegative.
    fn radius_check(&self, f: i64) -> (r: bool)
        requires
            bone_wf(*self),
        ensures
            r == radius_positive(self.ra as int, self.dr as int, f as int),
    {
        proof {
            lemma_mul_bounds_abs(f as int, self.dr as int, 0x8000000000000000, 0x8000000);
        }
        self.ra as i128 * 65536 + f as i128 * self.dr as i128 >= 0
    }

    /// Solve the depth quadratic for a clamped `f`.
    fn cap_solve(&self, c3: i128, c5: i128, vv: i128, f: i64) -> (r: Option<(i64, i64)>)
        requires
            bone_wf(*self),
            0 <= f <= FX_ONE,
            -0x4000000000000 <= c3 <= 0x4000000000000,
            -0x4000000000000 <= c5 <= 0x4000000000000,
            0 <= vv <= 0x4000000000000,
            -0x3100000000000000 <= self.c2 <= 0x3100000000000000,
            -0x3100000000000000 <= self.c4 <= 0x3100000000000000,
            -0x3100000000000000 <= self.c6 <= 0x3100000000000000,
        ensures
            ({
                let s = solve_spec(
                    cap_aa(vv as int),
                    cap_bb(c3 as int, c5 as int, f as int),
                    cap_cc(self.c2 as int, self.c4 as int, self.c6 as int, f as int),
                );
                match r {
                    None => s is None,
                    Some((zm, zp)) => s == Some((zm as int, zp as int)),
                }
            }),
    {
        proof {
            lemma_mul_bounds_abs(c3 as int, f as int, 0x4000000000000, 0x10000);
            lemma_mul_bounds_abs(self.c2 as int, f as int, 0x3100000000000000, 0x10000);
            lemma_mul_bounds_abs(
                self.c2 as int * f as int,
                f as int,
                0x31000000000000000000,
                0x10000,
            );
            lemma_mul_bounds_abs(self.c4 as int, f as int, 0x3100000000000000, 0x10000);
            lemma_mul_bounds_abs(
                (c3 as int) * (f as int) + (c5 as int) * 65536,
                65536,
                0x100000000000000000,
                0x10000,
            );
        }
        let aa: i128 = vv * 65536 * 65536;
        let bb: i128 = (c3 * f as i128 + c5 * 65536) * 65536;
        let qz: i128 = self.c2 * f as i128 * f as i128 + self.c4 * f as i128 * 65536 + self.c6
            * 65536 * 65536;
        solve_quadratic(aa, bb, qz)
    }
}

/// The per-ray quadric coefficients stay well inside the solver's range.
proof fn lemma_trace_coeff_bounds(t: BoneTracer, ray: Vector)
    requires
        bone_wf(t),
        ray_ok(ray),
    ensures
        -0x4000000000000 <= -2 * dot_exact(ray, t.w) <= 0x4000000000000,
        -0x4000000000000 <= -2 * dot_exact(ray, t.a) <= 0x4000000000000,
        0 <= dot_exact(ray, ray) <= 0x4000000000000,
        -0x3100000000000000 <= t.c2 as int <= 0x3100000000000000,
        -0x3100000000000000 <= t.c4 as int <= 0x3100000000000000,
        -0x3100000000000000 <= t.c6 as int <= 0x3100000000000000,
        ({
            let c3 = -2 * dot_exact(ray, t.w);
            let c5 = -2 * dot_exact(ray, t.a);
            let vv = dot_exact(ray, ray);
            &&& -0x10000000000000000000000000000 <= t.c2 as int * vv
                <= 0x10000000000000000000000000000
            &&& -0x10000000000000000000000000000 <= c3 * c3 <= 0x10000000000000000000000000000
            &&& -0x10000000000000000000000000000 <= t.c2 as int * c5
                <= 0x10000000000000000000000000000
            &&& -0x10000000000000000000000000000 <= c3 * (t.c4 as int)
                <= 0x10000000000000000000000000000
            &&& -0xa000000000000000000000000000000 <= t.c2 as int * (t.c6 as int)
                <= 0xa000000000000000000000000000000
            &&& -0xa000000000000000000000000000000 <= t.c4 as int * (t.c4 as int)
                <= 0xa000000000000000000000000000000
        }),
{
    lemma_mul_bounds_abs(ray.x as int, t.w.x as int, 0x20000, 0x40000000);
    lemma_mul_bounds_abs(ray.y as int, t.w.y as int, 0x20000, 0x40000000);
    lemma_mul_bounds_abs(ray.z as int, t.w.z as int, 0x20000, 0x40000000);
    lemma_mul_bounds_abs(ray.x as int, t.a.x as int, 0x20000, 0x20000000);
    lemma_mul_bounds_abs(ray.y as int, t.a.y as int, 0x20000, 0x20000000);
    lemma_mul_bounds_abs(ray.z as int, t.a.z as int, 0x20000, 0x20000000);
    lemma_mul_bounds_abs(ray.x as int, ray.x as int, 0x20000, 0x20000);
    lemma_mul_bounds_abs(ray.y as int, ray.y as int, 0x20000, 0x20000);
    lemma_mul_bounds_abs(ray.z as int, ray.z as int, 0x20000, 0x20000);
    assert(ray.x * ray.x >= 0 && ray.y * ray.y >= 0 && ray.z * ray.z >= 0) by (nonlinear_arith);
    lemma_mul_bounds_abs(t.w.x as int, t.w.x as int, 0x40000000, 0x40000000);
    lemma_mul_bounds_abs(t.w.y as int, t.w.y as int, 0x40000000, 0x40000000);
    lemma_mul_bounds_abs(t.w.z as int, t.w.z as int, 0x40000000, 0x40000000);
    lemma_mul_bounds_abs(t.dr as int, t.dr as int, 0x8000000, 0x8000000);
    lemma_mul_bounds_abs(t.a.x as int, t.w.x as int, 0x20000000, 0x40000000);
    lemma_mul_bounds_abs(t.a.y as int, t.w.y as int, 0x20000000, 0x40000000);
    lemma_mul_bounds_abs(t.a.z as int, t.w.z as int, 0x20000000, 0x40000000);
    lemma_mul_bounds_abs(t.ra as int, t.dr as int, 0x4000000, 0x8000000);
    lemma_mul_bounds_abs(t.a.x as int, t.a.x as int, 0x20000000, 0x20000000);
    lemma_mul_bounds_abs(t.a.y as int, t.a.y as int, 0x20000000, 0x20000000);
    lemma_mul_bounds_abs(t.a.z as int, t.a.z as int, 0x20000000, 0x20000000);
    lemma_mul_bounds_abs(t.ra as int, t.ra as int, 0x4000000, 0x4000000);
    let c3 = -2 * dot_exact(ray, t.w);
    let c5 = -2 * dot_exact(ray, t.a);
    let vv = dot_exact(ray, ray);
    lemma_mul_bounds_abs(t.c2 as int, vv, 0x3100000000000000, 0x4000000000000);
    lemma_mul_bounds_abs(c3, c3, 0x4000000000000, 0x4000000000000);
    lemma_mul_bounds_abs(t.c2 as int, c5, 0x3100000000000000, 0x4000000000000);
    lemma_mul_bounds_abs(c3, t.c4 as int, 0x4000000000000, 0x3100000000000000);
    lemma_mul_bounds_abs(t.c2 as int, t.c6 as int, 0x3100000000000000, 0x3100000000000000);
    lemma_mul_bounds_abs(t.c4 as int, t.c4 as int, 0x3100000000000000, 0x3100000000000000);
}

} // verus!
