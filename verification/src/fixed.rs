//! Saturating 16.16 fixed-point arithmetic.
//!
//! All geometric quantities in this crate are carried as `i64` values that
//! stand for the real number `v / 65536`.  Products and quotients are computed
//! exactly in 128-bit intermediates, rounded toward minus infinity, and
//! clamped into the `i64` range, so every operation is total and its result is
//! pinned down exactly by the spec functions below.

use vstd::prelude::*;
use vstd::arithmetic::div_mod::lemma_fundamental_div_mod;
use vstd::arithmetic::div_mod::lemma_fundamental_div_mod_converse;

verus! {

/// The product of two `i64`-range factors stays well inside the `i128` range.
pub proof fn lemma_mul_i64_fits(a: int, b: int)
    by (nonlinear_arith)
    requires
        i64::MIN as int <= a <= i64::MAX as int,
        i64::MIN as int <= b <= i64::MAX as int,
    ensures
        -0x40000000000000000000000000000000 <= a * b <= 0x40000000000000000000000000000000,
{
}

/// Interval bound on a product from interval bounds on its factors.
pub proof fn lemma_mul_bounds_abs(a: int, b: int, ba: int, bb: int)
    by (nonlinear_arith)
    requires
        -ba <= a <= ba,
        -bb <= b <= bb,
        0 <= ba,
        0 <= bb,
    ensures
        -(ba * bb) <= a * b <= ba * bb,
{
}

/// The product of two `u64`-range factors fits in `u128`.
proof fn lemma_mul_u64_fits(a: int, b: int)
    by (nonlinear_arith)
    requires
        0 <= a <= u64::MAX as int,
        0 <= b <= u64::MAX as int,
    ensures
        0 <= a * b <= u128::MAX as int,
{
}

/// Number of fractional bits carried by a fixed-point value.
pub const FX_ONE: i64 = 65536;

/// Saturating clamp of a mathematical integer into the `i64` range.
pub open spec fn sat64(x: int) -> int {
    if x > i64::MAX as int {
        i64::MAX as int
    } else if x < i64::MIN as int {
        i64::MIN as int
    } else {
        x
    }
}

/// Quotient of `x / d` rounded toward minus infinity (`d > 0`).
/// Spec `/` on `int` is Euclidean division, which is floor division
/// whenever the divisor is positive.
pub open spec fn fdiv(x: int, d: int) -> int
    recommends
        d > 0,
{
    x / d
}

/// The fixed-point product: the exact integer product, rescaled.
pub open spec fn fx_mul_spec(a: int, b: int) -> int {
    sat64(fdiv(a * b, FX_ONE as int))
}

/// The fixed-point quotient; division by zero is absorbed as zero, matching
/// the engine's policy that geometric degeneracies contribute nothing.
pub open spec fn fx_div_spec(a: int, b: int) -> int {
    if b == 0 {
        0
    } else if b > 0 {
        sat64(fdiv(a * FX_ONE as int, b))
    } else {
        sat64(fdiv(-(a * FX_ONE as int), -b))
    }
}

/// Whether `r` is the floor of the real square root of `x`.
pub open spec fn isqrt_spec(x: int, r: int) -> bool {
    r * r <= x < (r + 1) * (r + 1)
}

/// Clamp a 128-bit intermediate into `i64`.
pub fn clamp_i128(x: i128) -> (r: i64)
    ensures
        r as int == sat64(x as int),
{
    if x > i64::MAX as i128 {
        i64::MAX
    } else if x < i64::MIN as i128 {
        i64::MIN
    } else {
        x as i64
    }
}

/// Quotient of `x / d` rounded toward minus infinity, for a positive divisor.
pub fn floor_div_i128(x: i128, d: i128) -> (q: i128)
    requires
        0 < d,
        -(i128::MAX as int) <= x,
    ensures
        q as int == fdiv(x as int, d as int),
{
    if x >= 0 {
        let m: u128 = x as u128;
        let du: u128 = d as u128;
        let qu: u128 = m / du;
        let ru: u128 = m % du;
        proof {
            lemma_fundamental_div_mod(m as int, du as int);
            assert(qu as int <= m as int) by (nonlinear_arith)
                requires
                    m as int == (du as int) * (qu as int) + (ru as int),
                    du as int >= 1,
                    ru as int >= 0,
                    qu as int >= 0,
            ;
            lemma_fundamental_div_mod_converse(x as int, d as int, qu as int, ru as int);
        }
        qu as i128
    } else {
        let m: u128 = (-x) as u128;
        let du: u128 = d as u128;
        let qu: u128 = m / du;
        let ru: u128 = m % du;
        proof {
            lemma_fundamental_div_mod(m as int, du as int);
            assert(qu as int <= m as int) by (nonlinear_arith)
                requires
                    m as int == (du as int) * (qu as int) + (ru as int),
                    du as int >= 1,
                    ru as int >= 0,
                    qu as int >= 0,
            ;
        }
        if ru == 0 {
            proof {
                assert(x as int == (-(qu as int)) * (d as int) + 0) by (nonlinear_arith)
                    requires
                        m as int == (du as int) * (qu as int) + (ru as int),
                        ru == 0,
                        x as int == -(m as int),
                        du as int == d as int,
                ;
                lemma_fundamental_div_mod_converse(x as int, d as int, -(qu as int), 0);
            }
            -(qu as i128)
        } else {
            proof {
                assert(x as int == (-(qu as int) - 1) * (d as int) + (d as int - ru as int))
                    by (nonlinear_arith)
                    requires
                        m as int == (du as int) * (qu as int) + (ru as int),
                        x as int == -(m as int),
                        du as int == d as int,
                ;
                lemma_fundamental_div_mod_converse(
                    x as int,
                    d as int,
                    -(qu as int) - 1,
                    d as int - ru as int,
                );
            }
            -(qu as i128) - 1
        }
    }
}

/// Fixed-point multiplication.
pub fn fx_mul(a: i64, b: i64) -> (r: i64)
    ensures
        r as int == fx_mul_spec(a as int, b as int),
{
    proof {
        lemma_mul_i64_fits(a as int, b as int);
    }
    let p: i128 = a as i128 * b as i128;
    clamp_i128(floor_div_i128(p, FX_ONE as i128))
}

/// Fixed-point division.
pub fn fx_div(a: i64, b: i64) -> (r: i64)
    ensures
        r as int == fx_div_spec(a as int, b as int),
{
    proof {
        lemma_mul_i64_fits(a as int, FX_ONE as int);
    }
    if b == 0 {
        0
    } else if b > 0 {
        let n: i128 = a as i128 * FX_ONE as i128;
        clamp_i128(floor_div_i128(n, b as i128))
    } else {
        let n: i128 = -(a as i128 * FX_ONE as i128);
        clamp_i128(floor_div_i128(n, -(b as i128)))
    }
}

/// Saturating fixed-point (and plain integer) addition.
pub fn fx_add(a: i64, b: i64) -> (r: i64)
    ensures
        r as int == sat64(a + b),
{
    clamp_i128(a as i128 + b as i128)
}

/// Saturating fixed-point (and plain integer) subtraction.
pub fn fx_sub(a: i64, b: i64) -> (r: i64)
    ensures
        r as int == sat64(a - b),
{
    clamp_i128(a as i128 - b as i128)
}

/// Saturating negation.
pub fn fx_neg(a: i64) -> (r: i64)
    ensures
        r as int == sat64(-a),
{
    clamp_i128(-(a as i128))
}

/// Integer square root: the floor of the real square root of a `u128`.
pub fn isqrt_u128(x: u128) -> (r: u64)
    ensures
        isqrt_spec(x as int, r as int),
{
    let mut lo: u64 = 0;
    let mut hi: u64 = u64::MAX;
    proof {
        assert((hi as int + 1) * (hi as int + 1) == 0x100000000000000000000000000000000int);
    }
    while lo < hi
        invariant
            lo as int * lo as int <= x as int,
            (x as int) < ((hi as int + 1) * (hi as int + 1)),
            lo <= hi,
        decreases hi - lo,
    {
        let mid: u64 = hi - (hi - lo) / 2;
        proof {
            lemma_mul_u64_fits(mid as int, mid as int);
        }
        if mid as u128 * mid as u128 <= x {
            lo = mid;
        } else {
            hi = mid - 1;
        }
    }
    lo
}

/// Fixed-point square root of a nonnegative fixed-point value.
pub fn fx_sqrt(a: i64) -> (r: i64)
    requires
        a >= 0,
    ensures
        isqrt_spec(a as int * FX_ONE as int, r as int),
        r >= 0,
{
    proof {
        lemma_mul_u64_fits(a as int, FX_ONE as int);
    }
    let wide: u128 = a as u128 * FX_ONE as u128;
    let root: u64 = isqrt_u128(wide);
    proof {
        assert(wide as int <= (i64::MAX as int) * (FX_ONE as int)) by (nonlinear_arith)
            requires
                wide as int == (a as int) * (FX_ONE as int),
                0 <= a <= i64::MAX,
                FX_ONE as int == 65536,
        ;
        assert(root < 0x10000000000u64) by (nonlinear_arith)
            requires
                (root as int) * (root as int) <= wide as int,
                wide as int <= (i64::MAX as int) * (FX_ONE as int),
                FX_ONE as int == 65536,
        ;
    }
    root as i64
}

/// Powers of two.
pub open spec fn pw2(k: nat) -> nat
    decreases k,
{
    if k == 0 {
        1
    } else {
        2 * pw2((k - 1) as nat)
    }
}

/// Powers of two are positive.
pub proof fn lemma_pw2_pos(k: nat)
    ensures
        pw2(k) >= 1,
    decreases k,
{
    if k > 0 {
        lemma_pw2_pos((k - 1) as nat);
    }
}

/// Powers of two are weakly monotone.
proof fn lemma_pw2_le(a: nat, b: nat)
    requires
        a <= b,
    ensures
        pw2(a) <= pw2(b),
    decreases b,
{
    if a < b {
        lemma_pw2_le(a, (b - 1) as nat);
        lemma_pw2_pos((b - 1) as nat);
    }
}

/// Powers of two are positive and weakly monotone.
pub proof fn lemma_pw2_increases(a: nat, b: nat)
    ensures
        a <= b ==> pw2(a) <= pw2(b),
        pw2(a) >= 1,
        pw2(b) >= 1,
{
    lemma_pw2_pos(a);
    lemma_pw2_pos(b);
    if a <= b {
        lemma_pw2_le(a, b);
    }
}

/// `pw2` turns addition into multiplication.
pub proof fn lemma_pw2_adds(a: nat, b: nat)
    ensures
        pw2(a + b) == pw2(a) * pw2(b),
    decreases b,
{
    if b == 0 {
        assert(pw2(a) * 1 == pw2(a)) by (nonlinear_arith);
    } else {
        lemma_pw2_adds(a, (b - 1) as nat);
        assert(pw2(a) * (2 * pw2((b - 1) as nat)) == 2 * (pw2(a) * pw2((b - 1) as nat)))
            by (nonlinear_arith);
    }
}

/// The number of binary digits of a natural number.
pub open spec fn bitlen(p: nat) -> nat
    decreases p,
{
    if p == 0 {
        0
    } else {
        (1 + bitlen(p / 2)) as nat
    }
}

/// A positive number lies between the powers of two its bit length names.
pub proof fn lemma_bitlen_bounds(p: nat)
    requires
        p >= 1,
    ensures
        bitlen(p) >= 1,
        pw2((bitlen(p) - 1) as nat) <= p < pw2(bitlen(p)),
    decreases p,
{
    if p == 1 {
        assert(bitlen(0nat) == 0);
        assert(bitlen(1nat) == 1);
        assert(pw2(0) == 1);
        assert(pw2(1) == 2);
    } else {
        lemma_bitlen_bounds(p / 2);
        lemma_fundamental_div_mod(p as int, 2);
        assert(bitlen(p) == 1 + bitlen(p / 2));
        assert(pw2(bitlen(p / 2)) == 2 * pw2((bitlen(p / 2) - 1) as nat));
        assert(pw2(bitlen(p)) == 2 * pw2(bitlen(p / 2)));
        assert(pw2((bitlen(p) - 1) as nat) == pw2(bitlen(p / 2)));
        assert(2 * (p / 2) <= p);
        assert(p < 2 * (p / 2) + 2);
    }
}


/// The concrete powers of two this module's proofs lean on.
pub proof fn lemma_pw2_values()
    ensures
        pw2(26) == 0x4000000,
        pw2(27) == 0x8000000,
        pw2(31) == 0x80000000,
        pw2(32) == 0x100000000,
        pw2(52) == 0x10000000000000,
        pw2(53) == 0x20000000000000,
        pw2(54) == 0x40000000000000,
        pw2(62) == 0x4000000000000000,
        pw2(63) == 0x8000000000000000,
        pw2(64) == 0x10000000000000000,
        pw2(65) == 0x20000000000000000,
        pw2(66) == 0x40000000000000000,
        pw2(67) == 0x80000000000000000,
        pw2(84) == 0x1000000000000000000000,
        pw2(106) == 0x400000000000000000000000000,
        pw2(120) == 0x1000000000000000000000000000000,
        pw2(127) == 0x80000000000000000000000000000000,
        pw2(128) == 0x100000000000000000000000000000000,
{
    assert(pw2(0) == 0x1);
    assert(pw2(1) == 0x2);
    assert(pw2(2) == 0x4);
    assert(pw2(3) == 0x8);
    assert(pw2(4) == 0x10);
    assert(pw2(5) == 0x20);
    assert(pw2(6) == 0x40);
    assert(pw2(7) == 0x80);
    assert(pw2(8) == 0x100);
    assert(pw2(9) == 0x200);
    assert(pw2(10) == 0x400);
    assert(pw2(11) == 0x800);
    assert(pw2(12) == 0x1000);
    assert(pw2(13) == 0x2000);
    assert(pw2(14) == 0x4000);
    assert(pw2(15) == 0x8000);
    assert(pw2(16) == 0x10000);
    assert(pw2(17) == 0x20000);
    assert(pw2(18) == 0x40000);
    assert(pw2(19) == 0x80000);
    assert(pw2(20) == 0x100000);
    assert(pw2(21) == 0x200000);
    assert(pw2(22) == 0x400000);
    assert(pw2(23) == 0x800000);
    assert(pw2(24) == 0x1000000);
    assert(pw2(25) == 0x2000000);
    assert(pw2(26) == 0x4000000);
    assert(pw2(27) == 0x8000000);
    assert(pw2(28) == 0x10000000);
    assert(pw2(29) == 0x20000000);
    assert(pw2(30) == 0x40000000);
    assert(pw2(31) == 0x80000000);
    assert(pw2(32) == 0x100000000);
    assert(pw2(33) == 0x200000000);
    assert(pw2(34) == 0x400000000);
    assert(pw2(35) == 0x800000000);
    assert(pw2(36) == 0x1000000000);
    assert(pw2(37) == 0x2000000000);
    assert(pw2(38) == 0x4000000000);
    assert(pw2(39) == 0x8000000000);
    assert(pw2(40) == 0x10000000000);
    assert(pw2(41) == 0x20000000000);
    assert(pw2(42) == 0x40000000000);
    assert(pw2(43) == 0x80000000000);
    assert(pw2(44) == 0x100000000000);
    assert(pw2(45) == 0x200000000000);
    assert(pw2(46) == 0x400000000000);
    assert(pw2(47) == 0x800000000000);
    assert(pw2(48) == 0x1000000000000);
    assert(pw2(49) == 0x2000000000000);
    assert(pw2(50) == 0x4000000000000);
    assert(pw2(51) == 0x8000000000000);
    assert(pw2(52) == 0x10000000000000);
    assert(pw2(53) == 0x20000000000000);
    assert(pw2(54) == 0x40000000000000);
    assert(pw2(55) == 0x80000000000000);
    assert(pw2(56) == 0x100000000000000);
    assert(pw2(57) == 0x200000000000000);
    assert(pw2(58) == 0x400000000000000);
    assert(pw2(59) == 0x800000000000000);
    assert(pw2(60) == 0x1000000000000000);
    assert(pw2(61) == 0x2000000000000000);
    assert(pw2(62) == 0x4000000000000000);
    assert(pw2(63) == 0x8000000000000000);
    assert(pw2(64) == 0x10000000000000000);
    assert(pw2(65) == 0x20000000000000000);
    assert(pw2(66) == 0x40000000000000000);
    assert(pw2(67) == 0x80000000000000000);
    assert(pw2(68) == 0x100000000000000000);
    assert(pw2(69) == 0x200000000000000000);
    assert(pw2(70) == 0x400000000000000000);
    assert(pw2(71) == 0x800000000000000000);
    assert(pw2(72) == 0x1000000000000000000);
    assert(pw2(73) == 0x2000000000000000000);
    assert(pw2(74) == 0x4000000000000000000);
    assert(pw2(75) == 0x8000000000000000000);
    assert(pw2(76) == 0x10000000000000000000);
    assert(pw2(77) == 0x20000000000000000000);
    assert(pw2(78) == 0x40000000000000000000);
    assert(pw2(79) == 0x80000000000000000000);
    assert(pw2(80) == 0x100000000000000000000);
    assert(pw2(81) == 0x200000000000000000000);
    assert(pw2(82) == 0x400000000000000000000);
    assert(pw2(83) == 0x800000000000000000000);
    assert(pw2(84) == 0x1000000000000000000000);
    assert(pw2(85) == 0x2000000000000000000000);
    assert(pw2(86) == 0x4000000000000000000000);
    assert(pw2(87) == 0x8000000000000000000000);
    assert(pw2(88) == 0x10000000000000000000000);
    assert(pw2(89) == 0x20000000000000000000000);
    assert(pw2(90) == 0x40000000000000000000000);
    assert(pw2(91) == 0x80000000000000000000000);
    assert(pw2(92) == 0x100000000000000000000000);
    assert(pw2(93) == 0x200000000000000000000000);
    assert(pw2(94) == 0x400000000000000000000000);
    assert(pw2(95) == 0x800000000000000000000000);
    assert(pw2(96) == 0x1000000000000000000000000);
    assert(pw2(97) == 0x2000000000000000000000000);
    assert(pw2(98) == 0x4000000000000000000000000);
    assert(pw2(99) == 0x8000000000000000000000000);
    assert(pw2(100) == 0x10000000000000000000000000);
    assert(pw2(101) == 0x20000000000000000000000000);
    assert(pw2(102) == 0x40000000000000000000000000);
    assert(pw2(103) == 0x80000000000000000000000000);
    assert(pw2(104) == 0x100000000000000000000000000);
    assert(pw2(105) == 0x200000000000000000000000000);
    assert(pw2(106) == 0x400000000000000000000000000);
    assert(pw2(107) == 0x800000000000000000000000000);
    assert(pw2(108) == 0x1000000000000000000000000000);
    assert(pw2(109) == 0x2000000000000000000000000000);
    assert(pw2(110) == 0x4000000000000000000000000000);
    assert(pw2(111) == 0x8000000000000000000000000000);
    assert(pw2(112) == 0x10000000000000000000000000000);
    assert(pw2(113) == 0x20000000000000000000000000000);
    assert(pw2(114) == 0x40000000000000000000000000000);
    assert(pw2(115) == 0x80000000000000000000000000000);
    assert(pw2(116) == 0x100000000000000000000000000000);
    assert(pw2(117) == 0x200000000000000000000000000000);
    assert(pw2(118) == 0x400000000000000000000000000000);
    assert(pw2(119) == 0x800000000000000000000000000000);
    assert(pw2(120) == 0x1000000000000000000000000000000);
    assert(pw2(121) == 0x2000000000000000000000000000000);
    assert(pw2(122) == 0x4000000000000000000000000000000);
    assert(pw2(123) == 0x8000000000000000000000000000000);
    assert(pw2(124) == 0x10000000000000000000000000000000);
    assert(pw2(125) == 0x20000000000000000000000000000000);
    assert(pw2(126) == 0x40000000000000000000000000000000);
    assert(pw2(127) == 0x80000000000000000000000000000000);
    assert(pw2(128) == 0x100000000000000000000000000000000);
}

/// A number below a power of two has at most that many binary digits.
pub proof fn lemma_bitlen_le(p: nat, k: nat)
    requires
        p < pw2(k),
    ensures
        bitlen(p) <= k,
{
    if p >= 1 && bitlen(p) > k {
        lemma_bitlen_bounds(p);
        lemma_pw2_increases(k, (bitlen(p) - 1) as nat);
    }
}

/// A number at or above a power of two has more binary digits than it.
pub proof fn lemma_bitlen_ge(p: nat, k: nat)
    requires
        p >= pw2(k),
    ensures
        bitlen(p) >= k + 1,
{
    lemma_pw2_increases(k, k);
    lemma_bitlen_bounds(p);
    if bitlen(p) < k + 1 {
        lemma_pw2_increases(bitlen(p), k);
    }
}

/// Compute a power of two.
pub fn pw2_exec(k: u32) -> (r: u128)
    requires
        k <= 67,
    ensures
        r as nat == pw2(k as nat),
        r >= 1,
{
    let mut r: u128 = 1;
    let mut j: u32 = 0;
    while j < k
        invariant
            j <= k <= 67,
            r as nat == pw2(j as nat),
        decreases k - j,
    {
        proof {
            lemma_pw2_values();
            lemma_pw2_increases(j as nat + 1, 67);
        }
        r = r * 2;
        j = j + 1;
    }
    proof {
        lemma_pw2_pos(k as nat);
    }
    r
}

/// Compute a bit length.
pub fn bitlen_exec(p: u128) -> (l: u32)
    ensures
        l as nat == bitlen(p as nat),
{
    let mut t: u128 = p;
    let mut l: u32 = 0;
    proof {
        lemma_pw2_values();
        lemma_bitlen_le(p as nat, 128);
    }
    while t > 0
        invariant
            bitlen(p as nat) == l + bitlen(t as nat),
            bitlen(p as nat) <= 128,
        decreases t,
    {
        proof {
            if t as nat >= 1 {
                lemma_bitlen_bounds(t as nat);
            }
        }
        t = t / 2;
        l = l + 1;
    }
    l
}


/// The floor of the real square root, as a total spec function.
pub open spec fn sqrt_nat(x: nat) -> nat
    decreases x,
{
    if x == 0 {
        0
    } else {
        let r = sqrt_nat((x - 1) as nat);
        if (r + 1) * (r + 1) <= x {
            (r + 1) as nat
        } else {
            r
        }
    }
}

/// `sqrt_nat` is the floor of the square root.
pub proof fn lemma_sqrt_nat_correct(x: nat)
    ensures
        isqrt_spec(x as int, sqrt_nat(x) as int),
    decreases x,
{
    if x > 0 {
        lemma_sqrt_nat_correct((x - 1) as nat);
        let r = sqrt_nat((x - 1) as nat);
        if (r + 1) * (r + 1) <= x {
            assert((r + 1 + 1) * (r + 1 + 1) > (r + 1) * (r + 1)) by (nonlinear_arith);
        }
    }
}

/// Any value sandwiched between consecutive squares is the floor root.
pub proof fn lemma_sqrt_unique(x: nat, r: nat)
    requires
        isqrt_spec(x as int, r as int),
    ensures
        r == sqrt_nat(x),
{
    lemma_sqrt_nat_correct(x);
    let s = sqrt_nat(x);
    if r < s {
        assert((r + 1) * (r + 1) <= s * s) by (nonlinear_arith)
            requires
                r + 1 <= s,
        ;
    }
    if s < r {
        assert((s + 1) * (s + 1) <= r * r) by (nonlinear_arith)
            requires
                s + 1 <= r,
        ;
    }
}

/// Multiplying by a whole fixed-point unit is exact.
pub proof fn lemma_fxm_unit(a: int)
    requires
        -0x4000000000000000 <= a <= 0x4000000000000000,
    ensures
        fx_mul_spec(a, FX_ONE as int) == a,
        fx_mul_spec(a, -(FX_ONE as int)) == -a,
        fx_mul_spec(a, 0) == 0,
        fx_mul_spec(0, a) == 0,
{
    assert(a * 65536 == 65536 * a + 0 && a * (-65536) == 65536 * (-a) + 0 && a * 0 == 0
        && 0 * a == 0) by (nonlinear_arith);
    lemma_fundamental_div_mod_converse(a * 65536, 65536, a, 0);
    lemma_fundamental_div_mod_converse(a * (-65536), 65536, -a, 0);
    lemma_fundamental_div_mod_converse(0, 65536, 0, 0);
}

/// The fixed-point quotient of a pair of wide exact intermediates.
pub fn fx_div_wide(a: i128, b: i128) -> (r: i64)
    requires
        -0x4000000000000000000000000000 <= a <= 0x4000000000000000000000000000,
        -(i128::MAX as int) <= b,
    ensures
        r as int == fx_div_spec(a as int, b as int),
{
    if b == 0 {
        0
    } else if b > 0 {
        clamp_i128(floor_div_i128(a * 65536i128, b))
    } else {
        clamp_i128(floor_div_i128(-(a * 65536i128), -b))
    }
}

/// A quotient with the numerator no larger than the denominator stays
/// within one fixed-point unit.
pub proof fn lemma_fx_div_in_unit(a: int, b: int)
    requires
        0 < b,
        -b <= a <= b,
    ensures
        -(FX_ONE as int) <= fx_div_spec(a, b) <= FX_ONE as int,
{
    assert(-(b * 65536) <= a * 65536 <= b * 65536) by (nonlinear_arith)
        requires
            -b <= a <= b,
            b > 0,
    ;
    lemma_fundamental_div_mod_converse(b * 65536, b, 65536, 0);
    lemma_fundamental_div_mod_converse(-(b * 65536), b, -65536, 0);
    vstd::arithmetic::div_mod::lemma_div_is_ordered(a * 65536, b * 65536, b);
    vstd::arithmetic::div_mod::lemma_div_is_ordered(-(b * 65536), a * 65536, b);
}

/// Scaling by a fraction of at most one whole unit never grows a value.
pub proof fn lemma_fxm_contract(a: int, f: int)
    requires
        0 <= f <= FX_ONE as int,
        i64::MIN as int <= a <= i64::MAX as int,
    ensures
        -sat_abs(a) <= fx_mul_spec(a, f) <= sat_abs(a),
{
    assert(-(sat_abs(a) * 65536) <= a * f <= sat_abs(a) * 65536) by (nonlinear_arith)
        requires
            0 <= f <= 65536,
            -sat_abs(a) <= a <= sat_abs(a),
            sat_abs(a) >= 0,
    ;
    lemma_fundamental_div_mod_converse(sat_abs(a) * 65536, 65536, sat_abs(a), 0);
    lemma_fundamental_div_mod_converse(-(sat_abs(a) * 65536), 65536, -sat_abs(a), 0);
    vstd::arithmetic::div_mod::lemma_div_is_ordered(a * f, sat_abs(a) * 65536, 65536);
    vstd::arithmetic::div_mod::lemma_div_is_ordered(-(sat_abs(a) * 65536), a * f, 65536);
}

/// The magnitude of a value, used to state contraction bounds.
pub open spec fn sat_abs(a: int) -> int {
    if a >= 0 {
        a
    } else {
        -a
    }
}

/// An interval bound on a fixed-point product from bounds on its factors.
pub proof fn lemma_fxm_bound(a: int, b: int, ba: int, bb: int)
    requires
        -ba <= a <= ba,
        -bb <= b <= bb,
        0 <= ba,
        0 <= bb,
    ensures
        fdiv(-(ba * bb), 65536) <= fx_mul_spec(a, b) <= fdiv(ba * bb, 65536),
{
    lemma_mul_bounds_abs(a, b, ba, bb);
    vstd::arithmetic::div_mod::lemma_div_is_ordered(-(ba * bb), a * b, 65536);
    vstd::arithmetic::div_mod::lemma_div_is_ordered(a * b, ba * bb, 65536);
    vstd::arithmetic::div_mod::lemma_div_is_ordered(-(ba * bb), 0, 65536);
    vstd::arithmetic::div_mod::lemma_div_is_ordered(0, ba * bb, 65536);
    assert(0int / 65536 == 0) by (nonlinear_arith);
}

/// Rounding down to a whole fixed-point unit.
pub open spec fn fx_floor_spec(a: int) -> int {
    sat64(fdiv(a, FX_ONE as int) * FX_ONE as int)
}

/// Rounding up to a whole fixed-point unit.
pub open spec fn fx_ceil_spec(a: int) -> int {
    sat64(-(fdiv(-a, FX_ONE as int) * FX_ONE as int))
}

/// Round down to a whole unit.
pub fn fx_floor(a: i64) -> (r: i64)
    ensures
        r as int == fx_floor_spec(a as int),
{
    let q: i128 = floor_div_i128(a as i128, 65536);
    clamp_i128(q * 65536)
}

/// Round up to a whole unit.
pub fn fx_ceil(a: i64) -> (r: i64)
    ensures
        r as int == fx_ceil_spec(a as int),
{
    let q: i128 = floor_div_i128(-(a as i128), 65536);
    clamp_i128(-(q * 65536))
}

/// Fixed-point division by a positive divisor is monotone in the numerator.
pub proof fn lemma_fx_div_monotone(a1: int, a2: int, b: int)
    requires
        a1 <= a2,
        b > 0,
    ensures
        fx_div_spec(a1, b) <= fx_div_spec(a2, b),
{
    assert(a1 * 65536 <= a2 * 65536) by (nonlinear_arith)
        requires
            a1 <= a2,
    ;
    vstd::arithmetic::div_mod::lemma_div_is_ordered(a1 * 65536, a2 * 65536, b);
}
} // verus!
