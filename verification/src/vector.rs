//! 3D vectors over 16.16 fixed-point coordinates: arithmetic, length,
//! normalization, pivot rotation by axis permutation, and the construction
//! of a pair of screen-basis vectors orthogonal to a view direction.

use vstd::prelude::*;
use crate::axis::Axis;
use crate::fixed::FX_ONE;
use crate::fixed::fx_add;
use crate::fixed::fx_div;
use crate::fixed::fx_div_spec;
use crate::fixed::fx_mul;
use crate::fixed::fx_mul_spec;
use crate::fixed::fx_neg;
use crate::fixed::fx_sub;
use crate::fixed::isqrt_u128;
use crate::fixed::lemma_mul_i64_fits;
use crate::fixed::lemma_sqrt_unique;
use crate::fixed::sat64;
use crate::fixed::sqrt_nat;
use crate::fixed::sat_abs;

verus! {

/// A 2D screen offset.
#[derive(Clone, Copy, Debug, PartialEq, Eq, Structural)]
pub struct Point {
    pub x: i64,
    pub y: i64,
}

#[derive(Clone, Copy, Debug, PartialEq, Eq, Structural)]
pub struct Vector {
    pub x: i64,
    pub y: i64,
    pub z: i64,
}

/// A plane rotation, carried as the fixed-point cosine and sine of its
/// angle.  The pair is data: callers that rotate by an arbitrary angle
/// compute it outside and hand it in.
#[derive(Clone, Copy, Debug, PartialEq, Eq, Structural)]
pub struct Rotation {
    pub c: i64,
    pub s: i64,
}

pub open spec fn v_add(a: Vector, b: Vector) -> Vector {
    Vector {
        x: sat64(a.x + b.x) as i64,
        y: sat64(a.y + b.y) as i64,
        z: sat64(a.z + b.z) as i64,
    }
}

pub open spec fn v_sub(a: Vector, b: Vector) -> Vector {
    Vector {
        x: sat64(a.x - b.x) as i64,
        y: sat64(a.y - b.y) as i64,
        z: sat64(a.z - b.z) as i64,
    }
}

pub open spec fn v_scale(a: Vector, f: int) -> Vector {
    Vector {
        x: fx_mul_spec(a.x as int, f) as i64,
        y: fx_mul_spec(a.y as int, f) as i64,
        z: fx_mul_spec(a.z as int, f) as i64,
    }
}

pub open spec fn v_div(a: Vector, d: int) -> Vector {
    Vector {
        x: fx_div_spec(a.x as int, d) as i64,
        y: fx_div_spec(a.y as int, d) as i64,
        z: fx_div_spec(a.z as int, d) as i64,
    }
}

/// The clamped inner product of two vectors.
pub open spec fn dot_spec(a: Vector, b: Vector) -> int {
    sat64(
        sat64(fx_mul_spec(a.x as int, b.x as int) + fx_mul_spec(a.y as int, b.y as int))
            + fx_mul_spec(a.z as int, b.z as int),
    )
}

/// The clamped Euclidean length of a vector: the squares are exact, and
/// only the root is rounded.
pub open spec fn len_spec(a: Vector) -> int {
    sat64(sqrt_nat((a.x * a.x + a.y * a.y + a.z * a.z) as nat) as int)
}

/// Coordinates permuted so that the named axis becomes the third one.
pub open spec fn swap_spec(a: Vector, axis: Axis) -> Vector {
    match axis {
        Axis::X => Vector { x: a.y, y: a.z, z: a.x },
        Axis::Y => Vector { x: a.x, y: a.z, z: a.y },
        Axis::Z => a,
    }
}

/// The inverse coordinate permutation.
pub open spec fn reverse_spec(a: Vector, axis: Axis) -> Vector {
    match axis {
        Axis::X => Vector { x: a.z, y: a.x, z: a.y },
        Axis::Y => Vector { x: a.x, y: a.z, z: a.y },
        Axis::Z => a,
    }
}

/// The plane rotation applied to the first two coordinates.
pub open spec fn rot2_spec(a: Vector, r: Rotation) -> Vector {
    Vector {
        x: sat64(fx_mul_spec(a.x as int, r.c as int) - fx_mul_spec(a.y as int, r.s as int)) as i64,
        y: sat64(fx_mul_spec(a.x as int, r.s as int) + fx_mul_spec(a.y as int, r.c as int)) as i64,
        z: a.z,
    }
}

/// Rotation about a pivot along an axis: shift, permute, turn, permute
/// back, shift back.
pub open spec fn rotate_spec(a: Vector, pivot: Vector, r: Rotation, axis: Axis) -> Vector {
    v_add(reverse_spec(rot2_spec(swap_spec(v_sub(a, pivot), axis), r), axis), pivot)
}

/// The first screen-basis vector orthogonal to a direction: `(z, 0, -x)`
/// rescaled by the length of the direction's ground projection, with the
/// downward default where that projection vanishes.
pub open spec fn cross_ux_spec(a: Vector) -> Vector {
    if a.x == 0 && a.z == 0 {
        Vector { x: FX_ONE, y: 0, z: 0 }
    } else {
        let l = sat64(sqrt_nat((a.x * a.x + a.z * a.z) as nat) as int);
        Vector {
            x: fx_div_spec(a.z as int, l) as i64,
            y: 0,
            z: fx_div_spec(sat64(-a.x) as int, l) as i64,
        }
    }
}

/// The second screen-basis vector: the (reversed) cross product of the
/// first one with the direction.
pub open spec fn cross_uy_spec(a: Vector) -> Vector {
    let ux = cross_ux_spec(a);
    Vector {
        x: fx_mul_spec(ux.z as int, a.y as int) as i64,
        y: sat64(
            fx_mul_spec(ux.x as int, a.z as int) - fx_mul_spec(ux.z as int, a.x as int),
        ) as i64,
        z: fx_mul_spec(sat64(-(ux.x as int)) as int, a.y as int) as i64,
    }
}

impl Vector {
    pub fn new(x: i64, y: i64, z: i64) -> (r: Self)
        ensures
            r == (Vector { x, y, z }),
    {
        Vector { x, y, z }
    }

    pub fn zero() -> (r: Self)
        ensures
            r == (Vector { x: 0i64, y: 0i64, z: 0i64 }),
    {
        Vector { x: 0, y: 0, z: 0 }
    }

    pub fn plus(&self, o: &Vector) -> (r: Vector)
        ensures
            r == v_add(*self, *o),
    {
        Vector { x: fx_add(self.x, o.x), y: fx_add(self.y, o.y), z: fx_add(self.z, o.z) }
    }

    pub fn minus(&self, o: &Vector) -> (r: Vector)
        ensures
            r == v_sub(*self, *o),
    {
        Vector { x: fx_sub(self.x, o.x), y: fx_sub(self.y, o.y), z: fx_sub(self.z, o.z) }
    }

    pub fn scale(&self, f: i64) -> (r: Vector)
        ensures
            r == v_scale(*self, f as int),
    {
        Vector { x: fx_mul(self.x, f), y: fx_mul(self.y, f), z: fx_mul(self.z, f) }
    }

    pub fn div_by(&self, d: i64) -> (r: Vector)
        ensures
            r == v_div(*self, d as int),
    {
        Vector { x: fx_div(self.x, d), y: fx_div(self.y, d), z: fx_div(self.z, d) }
    }

    pub fn scalar_product(&self, o: &Vector) -> (r: i64)
        ensures
            r as int == dot_spec(*self, *o),
    {
        fx_add(fx_add(fx_mul(self.x, o.x), fx_mul(self.y, o.y)), fx_mul(self.z, o.z))
    }

    pub fn length(&self) -> (r: i64)
        ensures
            r as int == len_spec(*self),
            r >= 0,
    {
        let s = sum_of_squares(self.x, self.y, self.z);
        let root = isqrt_u128(s);
        proof {
            lemma_sqrt_unique(s as nat, root as nat);
        }
        if root > i64::MAX as u64 {
            i64::MAX
        } else {
            root as i64
        }
    }

    /// The unit vector with this one's direction; a zero vector is handed
    /// back unchanged, as division by a zero length is absorbed as zero.
    pub fn unit(&self) -> (r: Vector)
        ensures
            r == v_div(*self, len_spec(*self)),
    {
        let l = self.length();
        self.div_by(l)
    }

    pub fn nth(&self, n: usize) -> (r: Option<i64>)
        ensures
            n == 0 ==> r == Some(self.x),
            n == 1 ==> r == Some(self.y),
            n == 2 ==> r == Some(self.z),
            n >= 3 ==> r is None,
    {
        match n {
            0 => Some(self.x),
            1 => Some(self.y),
            2 => Some(self.z),
            _ => None,
        }
    }

    pub fn swap(&self, axis: &Axis) -> (r: Vector)
        ensures
            r == swap_spec(*self, *axis),
    {
        match axis {
            Axis::X => Vector { x: self.y, y: self.z, z: self.x },
            Axis::Y => Vector { x: self.x, y: self.z, z: self.y },
            Axis::Z => *self,
        }
    }

    pub fn reverse(&self, axis: &Axis) -> (r: Vector)
        ensures
            r == reverse_spec(*self, *axis),
    {
        match axis {
            Axis::X => Vector { x: self.z, y: self.x, z: self.y },
            Axis::Y => Vector { x: self.x, y: self.z, z: self.y },
            Axis::Z => *self,
        }
    }

    /// Rotate about a pivot along the named axis.
    pub fn rotate_around(&self, other: Vector, rot: Rotation, axis: Axis) -> (r: Vector)
        ensures
            r == rotate_spec(*self, other, rot, axis),
    {
        let shifted = self.minus(&other).swap(&axis);
        let x = fx_sub(fx_mul(shifted.x, rot.c), fx_mul(shifted.y, rot.s));
        let y = fx_add(fx_mul(shifted.x, rot.s), fx_mul(shifted.y, rot.c));
        let turned = Vector { x, y, z: shifted.z };
        turned.reverse(&axis).plus(&other)
    }

    /// Two unit vectors spanning the plane orthogonal to this direction,
    /// with the fixed sign convention the screen basis depends on.
    pub fn cross_axes(&self) -> (r: (Vector, Vector))
        ensures
            r.0 == cross_ux_spec(*self),
            r.1 == cross_uy_spec(*self),
    {
        let ux: Vector = if self.x == 0 && self.z == 0 {
            Vector { x: FX_ONE, y: 0, z: 0 }
        } else {
            let s = sum_of_squares(self.x, 0, self.z);
            let root = isqrt_u128(s);
            proof {
                lemma_sqrt_unique(s as nat, root as nat);
            }
            let l: i64 = if root > i64::MAX as u64 {
                i64::MAX
            } else {
                root as i64
            };
            Vector { x: fx_div(self.z, l), y: 0, z: fx_div(fx_neg(self.x), l) }
        };
        let y1 = fx_mul(ux.z, self.y);
        let y2 = fx_sub(fx_mul(ux.x, self.z), fx_mul(ux.z, self.x));
        let y3 = fx_mul(fx_neg(ux.x), self.y);
        (ux, Vector { x: y1, y: y2, z: y3 })
    }
}

/// The exact sum of squares of three coordinates.
fn sum_of_squares(x: i64, y: i64, z: i64) -> (r: u128)
    ensures
        r as int == x * x + y * y + z * z,
{
    proof {
        lemma_mul_i64_fits(x as int, x as int);
        lemma_mul_i64_fits(y as int, y as int);
        lemma_mul_i64_fits(z as int, z as int);
        assert(x * x >= 0 && y * y >= 0 && z * z >= 0) by (nonlinear_arith);
    }
    let xx: u128 = (x as i128 * x as i128) as u128;
    let yy: u128 = (y as i128 * y as i128) as u128;
    let zz: u128 = (z as i128 * z as i128) as u128;
    xx + yy + zz
}

/// Undoing the axis permutation restores the vector: `reverse` after
/// `swap` along the same axis is the identity.
pub proof fn lemma_reverse_swap(v: Vector, axis: Axis)
    ensures
        reverse_spec(swap_spec(v, axis), axis) == v,
{
}

/// The rotation law, over the exact (unscaled) arithmetic: turning by a
/// rotation and then by its inverse multiplies each coordinate by the
/// squared scale, so for an exact unit pair the round trip is the identity
/// up to that scale.
pub proof fn lemma_rotation_round_trip_exact(x: int, y: int, c: int, s: int)
    requires
        c * c + s * s == FX_ONE * FX_ONE,
    ensures
        c * (c * x - s * y) + s * (s * x + c * y) == FX_ONE * FX_ONE * x,
        c * (s * x + c * y) - s * (c * x - s * y) == FX_ONE * FX_ONE * y,
{
    assert(c * (c * x - s * y) + s * (s * x + c * y) == (c * c + s * s) * x
        && c * (s * x + c * y) - s * (c * x - s * y) == (c * c + s * s) * y)
        by (nonlinear_arith);
    assert((c * c + s * s) * x == FX_ONE * FX_ONE * x && (c * c + s * s) * y == FX_ONE
        * FX_ONE * y) by (nonlinear_arith)
        requires
            c * c + s * s == FX_ONE * FX_ONE,
    ;
}

/// For the exact quarter turn, the executable rotation and its inverse
/// cancel outright: no rounding is lost on whole units.
pub proof fn lemma_rotate_quarter_round_trip(v: Vector, p: Vector, axis: Axis)
    requires
        -0x400000000000000 <= v.x - p.x <= 0x400000000000000,
        -0x400000000000000 <= v.y - p.y <= 0x400000000000000,
        -0x400000000000000 <= v.z - p.z <= 0x400000000000000,
        -0x4000000000000000 <= p.x <= 0x4000000000000000,
        -0x4000000000000000 <= p.y <= 0x4000000000000000,
        -0x4000000000000000 <= p.z <= 0x4000000000000000,
    ensures
        rotate_spec(
            rotate_spec(v, p, Rotation { c: 0, s: FX_ONE }, axis),
            p,
            Rotation { c: 0, s: (-65536) as i64 },
            axis,
        ) == v,
{
    let d = v_sub(v, p);
    crate::fixed::lemma_fxm_unit(d.x as int);
    crate::fixed::lemma_fxm_unit(d.y as int);
    crate::fixed::lemma_fxm_unit(d.z as int);
    crate::fixed::lemma_fxm_unit(sat64(-d.x) as int);
    crate::fixed::lemma_fxm_unit(sat64(-d.y) as int);
    crate::fixed::lemma_fxm_unit(sat64(-d.z) as int);
    crate::fixed::lemma_fxm_unit(0);
}


/// The length of a vector dominates the magnitude of each coordinate.
pub proof fn lemma_len_ge_abs(v: Vector)
    requires
        -(i64::MAX as int) <= v.x,
        -(i64::MAX as int) <= v.y,
        -(i64::MAX as int) <= v.z,
    ensures
        len_spec(v) >= sat_abs(v.x as int),
        len_spec(v) >= sat_abs(v.y as int),
        len_spec(v) >= sat_abs(v.z as int),
        len_spec(v) >= 0,
{
    let s = (v.x * v.x + v.y * v.y + v.z * v.z) as nat;
    crate::fixed::lemma_sqrt_nat_correct(s);
    lemma_len2_ge_abs(v.x as int, v.y as int);
    let r = crate::fixed::sqrt_nat(s);
    assert(v.x * v.x >= 0 && v.y * v.y >= 0 && v.z * v.z >= 0) by (nonlinear_arith);
    assert(r >= sat_abs(v.x as int) && r >= sat_abs(v.y as int) && r >= sat_abs(v.z as int))
        by (nonlinear_arith)
        requires
            (r + 1) * (r + 1) > s,
            s >= v.x * v.x + v.y * v.y + v.z * v.z,
            v.x * v.x >= 0,
            v.y * v.y >= 0,
            v.z * v.z >= 0,
            s == v.x * v.x + v.y * v.y + v.z * v.z,
            r >= 0,
    ;
}

/// The root of a two-coordinate square sum dominates each coordinate.
pub proof fn lemma_len2_ge_abs(x: int, z: int)
    requires
        -(i64::MAX as int) <= x <= i64::MAX as int,
        -(i64::MAX as int) <= z <= i64::MAX as int,
    ensures
        sat64(sqrt_nat((x * x + z * z) as nat) as int) >= sat_abs(x),
        sat64(sqrt_nat((x * x + z * z) as nat) as int) >= sat_abs(z),
        sat64(sqrt_nat((x * x + z * z) as nat) as int) >= 0,
{
    let s = (x * x + z * z) as nat;
    crate::fixed::lemma_sqrt_nat_correct(s);
    let r = crate::fixed::sqrt_nat(s);
    assert(x * x >= 0 && z * z >= 0) by (nonlinear_arith);
    assert(r >= sat_abs(x) && r >= sat_abs(z)) by (nonlinear_arith)
        requires
            (r + 1) * (r + 1) > s,
            s == x * x + z * z,
            x * x >= 0,
            z * z >= 0,
            r >= 0,
    ;
}

/// A normalized vector's coordinates never exceed one whole unit by more
/// than the final rounding step.
pub proof fn lemma_unit_bounded(v: Vector)
    ensures
        -0x20000 <= v_div(v, len_spec(v)).x <= 0x20000,
        -0x20000 <= v_div(v, len_spec(v)).y <= 0x20000,
        -0x20000 <= v_div(v, len_spec(v)).z <= 0x20000,
{
    lemma_unit_comp_bounded(v, v.x as int);
    lemma_unit_comp_bounded(v, v.y as int);
    lemma_unit_comp_bounded(v, v.z as int);
}

/// One coordinate of the normalization: the quotient of a coordinate by
/// the vector's length stays within one rounding step of a whole unit.
proof fn lemma_unit_comp_bounded(v: Vector, c: int)
    requires
        c == v.x as int || c == v.y as int || c == v.z as int,
    ensures
        -0x20000 <= fx_div_spec(c, len_spec(v)) <= 0x20000,
{
    assert(v.x * v.x >= 0 && v.y * v.y >= 0 && v.z * v.z >= 0) by (nonlinear_arith);
    let s = (v.x * v.x + v.y * v.y + v.z * v.z) as nat;
    let r = sqrt_nat(s);
    crate::fixed::lemma_sqrt_nat_correct(s);
    assert(c * c <= s) by (nonlinear_arith)
        requires
            c == v.x as int || c == v.y as int || c == v.z as int,
            s == v.x * v.x + v.y * v.y + v.z * v.z,
            v.x * v.x >= 0,
            v.y * v.y >= 0,
            v.z * v.z >= 0,
    ;
    let l = len_spec(v);
    if l == 0 {
    } else if r <= i64::MAX {
        assert(l == r);
        assert(r >= sat_abs(c)) by (nonlinear_arith)
            requires
                (r + 1) * (r + 1) > s,
                c * c <= s,
                r >= 0,
                sat_abs(c) < 0x10000000000000000,
        ;
        crate::fixed::lemma_fx_div_in_unit(c, l);
    } else {
        assert(l == i64::MAX);
        let mx = i64::MAX as int;
        assert(c * 65536 <= 65536 * mx + 65536 && c * 65536 >= (-65537) * mx + (mx - 65536))
            by (nonlinear_arith)
            requires
                -(mx + 1) <= c <= mx,
                mx == 0x7fffffffffffffff,
        ;
        vstd::arithmetic::div_mod::lemma_fundamental_div_mod_converse(
            65536 * mx + 65536,
            mx,
            65536,
            65536,
        );
        vstd::arithmetic::div_mod::lemma_fundamental_div_mod_converse(
            (-65537) * mx + (mx - 65536),
            mx,
            -65537,
            mx - 65536,
        );
        vstd::arithmetic::div_mod::lemma_div_is_ordered(c * 65536, 65536 * mx + 65536, mx);
        vstd::arithmetic::div_mod::lemma_div_is_ordered(
            (-65537) * mx + (mx - 65536),
            c * 65536,
            mx,
        );
    }
}
} // verus!
