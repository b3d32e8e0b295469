//! The deterministic pseudo-random generator that drives creature assembly:
//! a Mersenne Twister with the seeding and number-drawing conventions of
//! CPython 2's `random` module, so that a given seed always yields the same
//! creature.
//!
//! The generator's whole behaviour is pinned down by the spec functions in
//! this module: `advance` and `raw` give the exact state and output sequence
//! of the twister, and every public method's contract is stated over them.

use vstd::prelude::*;
use vstd::arithmetic::div_mod::lemma_mod_multiples_vanish;
use vstd::arithmetic::div_mod::lemma_fundamental_div_mod;
use vstd::arithmetic::div_mod::lemma_fundamental_div_mod_converse;
use crate::fixed::lemma_mul_bounds_abs;
use crate::fixed::pw2;
use crate::fixed::bitlen;
use crate::fixed::lemma_pw2_increases;
use crate::fixed::lemma_pw2_adds;
use crate::fixed::lemma_pw2_values;
use crate::fixed::lemma_bitlen_bounds;
use crate::fixed::lemma_bitlen_le;
use crate::fixed::lemma_bitlen_ge;
use crate::fixed::pw2_exec;
use crate::fixed::bitlen_exec;

verus! {

/// Reduce an integer into a 32-bit word (the twister's wrapping arithmetic).
pub open spec fn w32(x: int) -> u32 {
    (x % 0x100000000) as u32
}

/// Element `i` of the state table seeded from a single word:
/// `mt[0] = seed`, then the Knuth multiplier recurrence.
pub open spec fn init_elem(seed: u32, i: int) -> u32
    decreases i,
{
    if i <= 0 {
        seed
    } else {
        let prev = init_elem(seed, i - 1);
        w32(1812433253 * ((prev ^ (prev >> 30u32)) as int) + i)
    }
}

/// The full 624-word state table seeded from a single word.
pub open spec fn init_state(seed: u32) -> Seq<u32> {
    Seq::new(624, |i| init_elem(seed, i))
}

/// One step of the generation pass: word `kk` is recombined from its
/// neighbours' high and low bits and the word 397 places ahead.
pub open spec fn twist_step(mt: Seq<u32>, kk: int) -> Seq<u32> {
    let y = (mt[kk] & 0x80000000u32) | (mt[if kk + 1 == 624 { 0int } else { kk + 1 }]
        & 0x7fffffffu32);
    let m = mt[if kk < 227 { kk + 397 } else { kk - 227 }];
    mt.update(kk, m ^ (y >> 1u32) ^ (if y & 1 == 1u32 { 0x9908b0dfu32 } else { 0u32 }))
}

/// The generation pass from word `kk` on.
pub open spec fn twist_from(mt: Seq<u32>, kk: int) -> Seq<u32>
    decreases 624 - kk,
{
    if kk < 0 || kk >= 624 {
        mt
    } else {
        twist_from(twist_step(mt, kk), kk + 1)
    }
}

/// A whole generation pass: 624 new words at one time.
pub open spec fn twist(mt: Seq<u32>) -> Seq<u32> {
    twist_from(mt, 0)
}

/// The output tempering applied to each extracted word.
pub open spec fn temper(y: u32) -> u32 {
    let y1 = y ^ (y >> 11u32);
    let y2 = y1 ^ ((y1 << 7u32) & 0x9d2c5680u32);
    let y3 = y2 ^ ((y2 << 15u32) & 0xefc60000u32);
    y3 ^ (y3 >> 18u32)
}

/// The word the next draw returns, given state table and cursor.
pub open spec fn gen_out(mt: Seq<u32>, index: int) -> u32 {
    if index >= 624 {
        temper(twist(mt)[0])
    } else {
        temper(mt[index])
    }
}

/// State table and cursor after one draw.
pub open spec fn gen_next(mt: Seq<u32>, index: int) -> (Seq<u32>, int) {
    if index >= 624 {
        (twist(mt), 1)
    } else {
        (mt, index + 1)
    }
}

/// State table and cursor after `k` draws.
pub open spec fn advance(mt: Seq<u32>, index: int, k: nat) -> (Seq<u32>, int)
    decreases k,
{
    if k == 0 {
        (mt, index)
    } else {
        let p = advance(mt, index, (k - 1) as nat);
        gen_next(p.0, p.1)
    }
}

/// The word returned by draw number `k` (counting from 0) from a state.
pub open spec fn raw(mt: Seq<u32>, index: int, k: nat) -> u32 {
    let p = advance(mt, index, k);
    gen_out(p.0, p.1)
}

/// Drawing `a` words and then `b` more is drawing `a + b` words.
pub proof fn lemma_advance_add(mt: Seq<u32>, index: int, a: nat, b: nat)
    ensures
        advance(advance(mt, index, a).0, advance(mt, index, a).1, b) == advance(
            mt,
            index,
            a + b,
        ),
    decreases b,
{
    if b > 0 {
        lemma_advance_add(mt, index, a, (b - 1) as nat);
    }
}

/// One pass of the seed-mixing loop that folds key words into the table:
/// the new word at `i`, and the cursors for the next pass.
pub open spec fn mix_key_step(mt: Seq<u32>, key: Seq<u32>, i: int, j: int) -> (
    Seq<u32>,
    int,
    int,
) {
    let prev = mt[i - 1];
    let x = mt[i] ^ w32(1664525 * ((prev ^ (prev >> 30u32)) as int));
    let mt1 = mt.update(i, w32(x as int + key[j] + j));
    let (mt2, i2) = if i + 1 >= 624 {
        (mt1.update(0, mt1[623]), 1int)
    } else {
        (mt1, i + 1)
    };
    let j2 = if j + 1 >= key.len() {
        0int
    } else {
        j + 1
    };
    (mt2, i2, j2)
}

/// `n` passes of the key-mixing loop.
pub open spec fn mix_key(mt: Seq<u32>, key: Seq<u32>, i: int, j: int, n: nat) -> (
    Seq<u32>,
    int,
    int,
)
    decreases n,
{
    if n == 0 {
        (mt, i, j)
    } else {
        let (mt1, i1, j1) = mix_key_step(mt, key, i, j);
        mix_key(mt1, key, i1, j1, (n - 1) as nat)
    }
}

/// One pass of the final scrambling loop of the seeding procedure.
pub open spec fn mix_final_step(mt: Seq<u32>, i: int) -> (Seq<u32>, int) {
    let prev = mt[i - 1];
    let x = mt[i] ^ w32(1566083941 * ((prev ^ (prev >> 30u32)) as int));
    let mt1 = mt.update(i, w32(x as int - i));
    if i + 1 >= 624 {
        (mt1.update(0, mt1[623]), 1int)
    } else {
        (mt1, i + 1)
    }
}

/// `n` passes of the final scrambling loop.
pub open spec fn mix_final(mt: Seq<u32>, i: int, n: nat) -> (Seq<u32>, int)
    decreases n,
{
    if n == 0 {
        (mt, i)
    } else {
        let (mt1, i1) = mix_final_step(mt, i);
        mix_final(mt1, i1, (n - 1) as nat)
    }
}

/// The state table produced by seeding with a vector of key words.
pub open spec fn seeded_state(key: Seq<u32>) -> Seq<u32> {
    let base = init_state(19650218);
    let k = if key.len() > 624 { key.len() as int } else { 624int };
    let (mt1, i1, _j1) = mix_key(base, key, 1, 0, k as nat);
    let (mt2, _i2) = mix_final(mt1, i1, 623);
    mt2.update(0, 0x80000000u32)
}

/// The seed words a big-endian byte string stands for: the bytes are
/// front-padded with zeros to a whole number of 32-bit words, and the words
/// are handed over least-significant first.  An empty byte string seeds
/// with the single word zero.
pub open spec fn byte_words(bytes: Seq<u8>) -> Seq<u32> {
    if bytes.len() == 0 {
        seq![0u32]
    } else {
        let nw = (bytes.len() + 3) / 4;
        let pad = nw * 4 - bytes.len();
        Seq::new(
            nw as nat,
            |w: int|
                {
                    let c = nw - 1 - w;
                    let at = |p: int| if c * 4 + p < pad {
                        0int
                    } else {
                        bytes[c * 4 + p - pad] as int
                    };
                    w32(at(0) * 0x1000000 + at(1) * 0x10000 + at(2) * 0x100 + at(3))
                },
        )
    }
}


/// The value of an ASCII letter or digit read as a base-36 digit, or 256
/// for any other byte; hex parsing accepts the values below 16.
pub open spec fn hex_digit_val(b: u8) -> int {
    if 48 <= b <= 57 {
        b - 48
    } else if 97 <= b <= 122 {
        b - 97 + 10
    } else if 65 <= b <= 90 {
        b - 65 + 10
    } else {
        256
    }
}

/// One optional leading plus sign is dropped, unless another follows it.
pub open spec fn strip_plus(s: Seq<u8>) -> Seq<u8> {
    if s.len() >= 1 && s[0] == 43 && !(s.len() >= 2 && s[1] == 43) {
        s.drop_first()
    } else {
        s
    }
}

/// A well-formed hex seed string (after sign stripping): nonempty, not led
/// by an underscore, and made of hex digits and underscore separators.
pub open spec fn hex_valid(t: Seq<u8>) -> bool {
    &&& t.len() > 0
    &&& t[0] != 95
    &&& forall|i: int| 0 <= i < t.len() ==> t[i] == 95 || hex_digit_val(t[i]) < 16
}

/// The digit values of a hex string, underscores skipped.
pub open spec fn hex_digits(t: Seq<u8>) -> Seq<u8>
    decreases t.len(),
{
    if t.len() == 0 {
        Seq::empty()
    } else {
        hex_digits(t.drop_last()) + (if t.last() == 95 {
            Seq::<u8>::empty()
        } else {
            seq![(hex_digit_val(t.last()) % 256) as u8]
        })
    }
}

/// Leading zero digits do not contribute to the number.
pub open spec fn drop_leading_zeros(d: Seq<u8>) -> Seq<u8>
    decreases d.len(),
{
    if d.len() == 0 || d[0] != 0 {
        d
    } else {
        drop_leading_zeros(d.drop_first())
    }
}

/// Big-endian bytes of an even-length digit sequence: two digits per byte.
pub open spec fn digit_pairs(t: Seq<u8>) -> Seq<u8> {
    Seq::new((t.len() / 2) as nat, |i: int| (t[2 * i] * 16 + t[2 * i + 1]) as u8)
}

/// The minimal big-endian byte string of the number a digit sequence
/// denotes; zero is one zero byte.
pub open spec fn digits_to_bytes(d: Seq<u8>) -> Seq<u8> {
    let t = drop_leading_zeros(d);
    if t.len() == 0 {
        seq![0u8]
    } else if t.len() % 2 == 1 {
        seq![t[0]] + digit_pairs(t.drop_first())
    } else {
        digit_pairs(t)
    }
}

/// Once the head of the digit list is nonzero (or gone), stripping stops.
proof fn lemma_drop_leading_zeros_at(d: Seq<u8>, z: int)
    requires
        0 <= z <= d.len(),
        forall|k: int| 0 <= k < z ==> d[k] == 0,
        z == d.len() || d[z] != 0,
    ensures
        drop_leading_zeros(d) == d.subrange(z, d.len() as int),
    decreases z,
{
    if z == 0 {
        if d.len() == 0 || d[0] != 0 {
            assert(d.subrange(0, d.len() as int) =~= d);
        }
    } else {
        assert(d[0] == 0);
        lemma_drop_leading_zeros_at(d.drop_first(), z - 1);
        assert(d.drop_first().subrange(z - 1, d.drop_first().len() as int) =~= d.subrange(
            z,
            d.len() as int,
        ));
    }
}


/// A `u64`-to-`f64` conversion, and every other rounding of a wide integer
/// into a 53-bit significand: round to nearest, ties to even.
pub open spec fn round53(p: nat) -> nat {
    if p < 0x20000000000000 {
        p
    } else {
        let k = (bitlen(p) - 53) as nat;
        let pw = pw2(k);
        let q = p / pw;
        let r = p % pw;
        if r * 2 > pw || (r * 2 == pw && q % 2 == 1) {
            (q + 1) * pw
        } else {
            q * pw
        }
    }
}

/// Round a wide integer to a 53-bit significand, ties to even.
#[verifier::rlimit(100)]
fn round53_exec(p: u128) -> (r: u128)
    requires
        p < 0x1000000000000000000000000000000,
    ensures
        r as nat == round53(p as nat),
{
    if p < 0x20000000000000 {
        return p;
    }
    let l: u32 = bitlen_exec(p);
    proof {
        lemma_pw2_values();
        lemma_bitlen_bounds(p as nat);
        lemma_bitlen_le(p as nat, 120);
        lemma_bitlen_ge(p as nat, 53);
    }
    let k: u32 = l - 53;
    let pw: u128 = pw2_exec(k);
    let q: u128 = p / pw;
    let r: u128 = p % pw;
    proof {
        lemma_fundamental_div_mod(p as int, pw as int);
        lemma_pw2_adds((k as nat), 53);
        // p < pw2(l) == pw2(k) * pw2(53), so the quotient is below 2^53
        assert((p as nat) < pw2(k as nat) * pw2(53));
        assert((q as nat) < 0x20000000000000) by (nonlinear_arith)
            requires
                p as int == pw as int * (q as int) + (r as int),
                r >= 0,
                q >= 0,
                pw as nat == pw2(k as nat),
                (p as nat) < pw2(k as nat) * pw2(53),
                pw2(53) == 0x20000000000000,
                pw >= 1,
        ;
        lemma_pw2_increases(k as nat, 67);
        lemma_mul_bounds_abs(q as int + 1, pw as int, 0x20000000000000, 0x80000000000000000);
    }
    if r > pw - r || (r == pw - r && q % 2 == 1) {
        (q + 1) * pw
    } else {
        q * pw
    }
}

/// The exact rounding never overshoots a whole multiple of the scale:
/// if `p <= (2^53 - 1) * mag` then `round53(p) < 2^53 * mag`.
#[verifier::rlimit(100)]
pub proof fn lemma_round53_bound(p: nat, mag: nat)
    requires
        mag >= 1,
        p <= 0x1fffffffffffff * mag,
    ensures
        round53(p) < 0x20000000000000 * mag,
{
    assert(0x20000000000000 * mag >= 0x20000000000000) by (nonlinear_arith)
        requires
            mag >= 1,
    ;
    if p < 0x20000000000000 {
        assert(0x1fffffffffffff * mag < 0x20000000000000 * mag) by (nonlinear_arith)
            requires
                mag >= 1,
        ;
    } else {
        let k = (bitlen(p) - 53) as nat;
        let pw = pw2(k);
        let q = p / pw;
        let r = p % pw;
        lemma_pw2_values();
        lemma_bitlen_bounds(p);
        lemma_bitlen_ge(p, 53);
        assert(k >= 1);
        lemma_pw2_adds(k, 52);
        lemma_pw2_adds((k - 1) as nat, 52);
        // pw2(k + 52) = pw2(bitlen - 1) <= p <= (2^53 - 1) * mag
        assert(pw2((k + 52) as nat) <= p);
        assert(pw2(k) * pw2(52) <= 0x1fffffffffffff * mag);
        // cancel pw2(52): pw2(k) < 2 * mag
        assert(pw2(k) < 2 * mag) by (nonlinear_arith)
            requires
                pw2(k) * 0x10000000000000 <= 0x1fffffffffffff * mag,
                mag >= 1,
        ;
        assert(pw == 2 * pw2((k - 1) as nat));
        lemma_fundamental_div_mod(p as int, pw as int);
        lemma_pw2_increases((k - 1) as nat, (k - 1) as nat);
        // the rounded value is at most p + pw / 2
        if r * 2 > pw || (r * 2 == pw && q % 2 == 1) {
            assert(r * 2 >= pw);
            assert((q + 1) * pw == q * pw + pw) by (nonlinear_arith);
            assert(q * pw == pw * q) by (nonlinear_arith);
            assert(q * pw + r == p);
            assert((q + 1) * pw <= p + pw2((k - 1) as nat));
            assert(pw2((k - 1) as nat) < mag);
            assert(round53(p) < 0x20000000000000 * mag) by (nonlinear_arith)
                requires
                    round53(p) <= p + pw2((k - 1) as nat),
                    pw2((k - 1) as nat) < mag,
                    p <= 0x1fffffffffffff * mag,
        ;
        } else {
            assert(q * pw == pw * q) by (nonlinear_arith);
            assert(q * pw <= p) by (nonlinear_arith)
                requires
                    q * pw + r == p,
                    r >= 0,
            ;
            assert(round53(p) < 0x20000000000000 * mag) by (nonlinear_arith)
                requires
                    round53(p) <= p,
                    p <= 0x1fffffffffffff * mag,
                    mag >= 1,
            ;
        }
    }
}

/// The 53-bit numerator of the next uniform draw on `[0, 1)`: the next two
/// raw words supply 27 and 26 bits.
pub open spec fn rand_num_spec(mt: Seq<u32>, index: int) -> int {
    (raw(mt, index, 0) >> 5u32) * 0x4000000 + (raw(mt, index, 1) >> 6u32)
}

/// The whole number of times the scaled draw `rand() * mag` fits the unit:
/// the product is rounded into a 53-bit significand, as the hardware
/// product of the two exact doubles would be, then divided out.
pub open spec fn rand_scale_spec(mt: Seq<u32>, index: int, mag: nat) -> nat {
    round53((rand_num_spec(mt, index) * mag) as nat) / 0x20000000000000
}

/// Element `i` of a `rand_bits` draw: a full raw word, except that the last
/// element keeps only the bits still owed.
pub open spec fn rand_bits_elem(mt: Seq<u32>, index: int, k: u32, i: int) -> u32 {
    let g = raw(mt, index, i as nat);
    if k - 32 * i < 32 {
        g >> ((32 - (k - 32 * i)) as u32)
    } else {
        g
    }
}

/// The number of words a `rand_bits(k)` draw returns.
pub open spec fn quads_of(k: u32) -> int {
    (k - 1) / 32 + 1
}

/// The bit width drawn per rejection round of `rand_below(n)`.  This mirrors
/// the width CPython 2 computes as `int(1.00001 + log(n - 1, 2.0))`: the
/// operand is rounded to a double twice, and the slack term bumps the width
/// by one where `n - 1` comes within a factor `2^-0.00001` of a power of
/// two; `width_bump(e)` is the least such value with `e + 1` binary digits.
#[verifier::opaque]
pub open spec fn width_bump(e: int) -> int {
    if e == 0 {
        2
    } else if e == 1 {
        4
    } else if e == 2 {
        8
    } else if e == 3 {
        16
    } else if e == 4 {
        32
    } else if e == 5 {
        64
    } else if e == 6 {
        128
    } else if e == 7 {
        256
    } else if e == 8 {
        512
    } else if e == 9 {
        1024
    } else if e == 10 {
        2048
    } else if e == 11 {
        4096
    } else if e == 12 {
        8192
    } else if e == 13 {
        16384
    } else if e == 14 {
        32768
    } else if e == 15 {
        65536
    } else if e == 16 {
        131072
    } else if e == 17 {
        262143
    } else if e == 18 {
        524285
    } else if e == 19 {
        1048569
    } else if e == 20 {
        2097138
    } else if e == 21 {
        4194275
    } else if e == 22 {
        8388550
    } else if e == 23 {
        16777100
    } else if e == 24 {
        33554200
    } else if e == 25 {
        67108399
    } else if e == 26 {
        134216798
    } else if e == 27 {
        268433596
    } else if e == 28 {
        536867191
    } else if e == 29 {
        1073734382
    } else if e == 30 {
        2147468763
    } else if e == 31 {
        4294937526
    } else if e == 32 {
        8589875052
    } else if e == 33 {
        17179750103
    } else if e == 34 {
        34359500206
    } else if e == 35 {
        68719000411
    } else if e == 36 {
        137438000822
    } else if e == 37 {
        274876001643
    } else if e == 38 {
        549752003285
    } else if e == 39 {
        1099504006569
    } else if e == 40 {
        2199008013138
    } else if e == 41 {
        4398016026275
    } else if e == 42 {
        8796032052549
    } else if e == 43 {
        17592064105097
    } else if e == 44 {
        35184128210194
    } else if e == 45 {
        70368256420388
    } else if e == 46 {
        140736512840776
    } else if e == 47 {
        281473025681552
    } else if e == 48 {
        562946051363103
    } else if e == 49 {
        1125892102726206
    } else if e == 50 {
        2251784205452412
    } else if e == 51 {
        4503568410904823
    } else if e == 52 {
        9007136821809645
    } else if e == 53 {
        18014273643619290
    } else if e == 54 {
        36028547287238579
    } else if e == 55 {
        72057094574477157
    } else if e == 56 {
        144114189148954313
    } else if e == 57 {
        288228378297908625
    } else if e == 58 {
        576456756595817249
    } else if e == 59 {
        1152913513191634497
    } else if e == 60 {
        2305827026383268993
    } else if e == 61 {
        4611654052766537985
    } else if e == 62 {
        9223308105533075969
    } else if e == 63 {
        18446616211066151937
    } else {
        0
    }
}

/// The drawn width for a bound `n`.
pub open spec fn width_spec(n: int) -> int {
    let m = round53((round53(n as nat) - 1) as nat);
    let e = bitlen(m) - 1;
    if e >= 64 {
        65
    } else if m >= width_bump(e as int) {
        e + 2
    } else {
        e + 1
    }
}

/// Look up the width-bump threshold.
fn width_bump_exec(e: u32) -> (t: u64)
    requires
        e < 64,
    ensures
        t as int == width_bump(e as int),
{
    proof {
        reveal(width_bump);
    }
    match e {
        0 => 2,
        1 => 4,
        2 => 8,
        3 => 16,
        4 => 32,
        5 => 64,
        6 => 128,
        7 => 256,
        8 => 512,
        9 => 1024,
        10 => 2048,
        11 => 4096,
        12 => 8192,
        13 => 16384,
        14 => 32768,
        15 => 65536,
        16 => 131072,
        17 => 262143,
        18 => 524285,
        19 => 1048569,
        20 => 2097138,
        21 => 4194275,
        22 => 8388550,
        23 => 16777100,
        24 => 33554200,
        25 => 67108399,
        26 => 134216798,
        27 => 268433596,
        28 => 536867191,
        29 => 1073734382,
        30 => 2147468763,
        31 => 4294937526,
        32 => 8589875052,
        33 => 17179750103,
        34 => 34359500206,
        35 => 68719000411,
        36 => 137438000822,
        37 => 274876001643,
        38 => 549752003285,
        39 => 1099504006569,
        40 => 2199008013138,
        41 => 4398016026275,
        42 => 8796032052549,
        43 => 17592064105097,
        44 => 35184128210194,
        45 => 70368256420388,
        46 => 140736512840776,
        47 => 281473025681552,
        48 => 562946051363103,
        49 => 1125892102726206,
        50 => 2251784205452412,
        51 => 4503568410904823,
        52 => 9007136821809645,
        53 => 18014273643619290,
        54 => 36028547287238579,
        55 => 72057094574477157,
        56 => 144114189148954313,
        57 => 288228378297908625,
        58 => 576456756595817249,
        59 => 1152913513191634497,
        60 => 2305827026383268993,
        61 => 4611654052766537985,
        62 => 9223308105533075969,
        63 => 18446616211066151937,
        _ => 0,
    }
}

/// Compute the drawn width for a bound `n`.
#[verifier::rlimit(100)]
fn width_exec(n: u64) -> (w: u32)
    requires
        n >= 2,
    ensures
        w as int == width_spec(n as int),
        1 <= w <= 65,
{
    let r1: u128 = round53_exec(n as u128);
    proof {
        lemma_round53_ge_one(n as nat);
    }
    let m: u128 = round53_exec(r1 - 1);
    proof {
        lemma_pw2_values();
        lemma_round53_ge_one((r1 - 1) as nat);
        lemma_bitlen_bounds(m as nat);
        lemma_bitlen_le(m as nat, 66);
    }
    let e: u32 = bitlen_exec(m) - 1;
    if e >= 64 {
        65
    } else {
        let t: u64 = width_bump_exec(e);
        if m >= t as u128 {
            e + 2
        } else {
            e + 1
        }
    }
}

/// Rounding keeps a positive value positive, and keeps `2` and above there.
#[verifier::rlimit(100)]
pub proof fn lemma_round53_ge_one(p: nat)
    ensures
        p >= 1 ==> round53(p) >= 1,
        p >= 2 ==> round53(p) >= 2,
        p < 0x10000000000000000 ==> round53(p) <= 0x10000000000000000,
        round53(p) <= 2 * p,
{
    if p >= 0x20000000000000 {
        let k = (bitlen(p) - 53) as nat;
        let pw = pw2(k);
        let q = p / pw;
        let r = p % pw;
        lemma_pw2_values();
        lemma_bitlen_bounds(p);
        lemma_bitlen_ge(p, 53);
        lemma_pw2_increases(k, k);
        lemma_fundamental_div_mod(p as int, pw as int);
        assert(q * pw == pw * q) by (nonlinear_arith);
        assert(q * pw <= p && r < pw) by (nonlinear_arith)
            requires
                q * pw + r == p,
                r >= 0,
                r < pw,
        ;
        lemma_pw2_adds(k, 52);
        assert(pw * pw2(52) <= p);
        assert(q >= 2) by (nonlinear_arith)
            requires
                q * pw + r == p,
                0 <= r < pw,
                pw * 0x10000000000000 <= p,
                pw >= 1,
                pw2(52) == 0x10000000000000,
        ;
        assert(q * pw >= 2 && (q + 1) * pw >= 2) by (nonlinear_arith)
            requires
                q >= 2,
                pw >= 1,
        ;
        if r * 2 > pw || (r * 2 == pw && q % 2 == 1) {
            assert((q + 1) * pw == q * pw + pw) by (nonlinear_arith);
            assert(round53(p) <= p + pw - r);
            assert(pw <= p) by {
                lemma_pw2_increases(k, (bitlen(p) - 1) as nat);
            }
        }
        if p < 0x10000000000000000 {
            // p < 2^64 = pw2(k) * pw2(64 - k), so q + 1 fits the cofactor
            lemma_bitlen_le(p, 64);
            lemma_pw2_adds(k, (64 - k) as nat);
            assert((q + 1) * pw <= pw2(64)) by (nonlinear_arith)
                requires
                    q * pw + r == p,
                    0 <= r < pw,
                    p < pw2(64),
                    pw2(64) == pw2(k) * pw2((64 - k) as nat),
                    pw == pw2(k),
                    pw >= 1,
            ;
            assert(q * pw <= (q + 1) * pw) by (nonlinear_arith)
                requires
                    pw >= 1,
                    q >= 0,
            ;
        }
    }
}


/// The candidate value one rejection round of `rand_below(n)` assembles
/// from its drawn words.
pub open spec fn below_v(mt: Seq<u32>, index: int, n: u64) -> int {
    let bits = width_spec(n as int) as u32;
    let v0 = rand_bits_elem(mt, index, bits, 0) as int;
    if bits > 32 {
        v0 + 0x100000000 * rand_bits_elem(mt, index, bits, 1)
    } else {
        v0
    }
}

/// Whether one rejection round accepts: no overflow word is set, and the
/// assembled value is under the bound.
pub open spec fn below_ok(mt: Seq<u32>, index: int, n: u64) -> bool {
    let bits = width_spec(n as int) as u32;
    &&& !(bits > 64 && rand_bits_elem(mt, index, bits, 2) > 0)
    &&& below_v(mt, index, n) < n
}

/// The generator state after one rejection round.
pub open spec fn below_after(mt: Seq<u32>, index: int, n: u64) -> (Seq<u32>, int) {
    advance(mt, index, quads_of(width_spec(n as int) as u32) as nat)
}

/// The result of `rand_below(n)`: rounds are rejected until one accepts;
/// `None` if no round within `fuel` accepts.
pub open spec fn below_fuel(mt: Seq<u32>, index: int, n: u64, fuel: nat) -> Option<
    (int, Seq<u32>, int),
>
    decreases fuel,
{
    if fuel == 0 {
        None
    } else {
        let nx = below_after(mt, index, n);
        if below_ok(mt, index, n) {
            Some((below_v(mt, index, n), nx.0, nx.1))
        } else {
            below_fuel(nx.0, nx.1, n, (fuel - 1) as nat)
        }
    }
}

/// The Mersenne Twister, seeded and stepped exactly as CPython 2 seeds and
/// steps its `random.Random`.
pub struct Random {
    state: Vec<u32>,
    index: usize,
}

impl Random {
    /// The current state table.
    pub closed spec fn mt(&self) -> Seq<u32> {
        self.state@
    }

    /// The current position in the state table.
    pub closed spec fn idx(&self) -> int {
        self.index as int
    }

    /// A structurally sound generator: full table, cursor within it.
    pub open spec fn wf(&self) -> bool {
        self.mt().len() == 624 && 0 <= self.idx() <= 624
    }

    /// A fresh, unseeded generator: all-zero table, cursor at the start.
    pub fn new() -> (r: Self)
        ensures
            r.wf(),
            r.mt() == Seq::new(624, |i: int| 0u32),
            r.idx() == 0,
    {
        let mut state: Vec<u32> = Vec::new();
        for n in 0..624
            invariant
                state@.len() == n,
                forall|i: int| 0 <= i < n ==> state@[i] == 0u32,
        {
            state.push(0);
        }
        proof {
            assert(state@ =~= Seq::new(624, |i: int| 0u32));
        }
        Random { state, index: 0 }
    }

    /// Fill the table from a single seed word and park the cursor at the
    /// end, so the next draw regenerates.
    fn init(&mut self, seed: u32)
        requires
            old(self).wf(),
        ensures
            final(self).wf(),
            final(self).mt() == init_state(seed),
            final(self).idx() == 624,
    {
        self.state[0] = seed;
        for mti in 1..624
            invariant
                self.state@.len() == 624,
                forall|i: int| 0 <= i < mti ==> self.state@[i] == init_elem(seed, i),
        {
            let prev = self.state[mti - 1];
            let x: u32 = prev ^ (prev >> 30u32);
            let val: u32 = ((1812433253u64 * (x as u64) + mti as u64) % 0x100000000u64) as u32;
            proof {
                assert(prev == init_elem(seed, mti as int - 1));
                assert(val as int == (1812433253 * ((prev ^ (prev >> 30u32)) as int)
                    + mti as int) % 0x100000000);
                assert(val == init_elem(seed, mti as int));
            }
            self.state[mti] = val;
        }
        self.index = 624;
        proof {
            assert(self.state@ =~= init_state(seed));
        }
    }

    /// Regenerate the whole table in place.
    fn twist_in_place(&mut self)
        requires
            old(self).wf(),
        ensures
            final(self).wf(),
            final(self).mt() == twist(old(self).mt()),
            final(self).idx() == old(self).idx(),
    {
        let ghost orig = self.state@;
        for kk in 0..624
            invariant
                self.state@.len() == 624,
                self.idx() == old(self).idx(),
                self.wf(),
                twist_from(self.state@, kk as int) == twist_from(orig, 0),
        {
            let next: usize = if kk + 1 == 624 {
                0
            } else {
                kk + 1
            };
            let y: u32 = (self.state[kk] & 0x80000000u32) | (self.state[next] & 0x7fffffffu32);
            let mi: usize = if kk < 227 {
                kk + 397
            } else {
                kk - 227
            };
            let mag: u32 = if y & 1 == 1u32 {
                0x9908b0dfu32
            } else {
                0u32
            };
            let val: u32 = self.state[mi] ^ (y >> 1u32) ^ mag;
            proof {
                assert(twist_step(self.state@, kk as int) == self.state@.update(
                    kk as int,
                    val,
                ));
            }
            self.state[kk] = val;
        }
    }

    /// Draw one raw (tempered) 32-bit word.
    fn gen_u32(&mut self) -> (r: u32)
        requires
            old(self).wf(),
        ensures
            final(self).wf(),
            r == raw(old(self).mt(), old(self).idx(), 0),
            (final(self).mt(), final(self).idx()) == advance(old(self).mt(), old(self).idx(), 1),
    {
        if self.index >= 624 {
            self.twist_in_place();
            self.index = 0;
        }
        proof {
            let m = old(self).mt();
            let ix = old(self).idx();
            assert(advance(m, ix, 0) == (m, ix));
            assert(advance(m, ix, 1) == gen_next(m, ix));
        }
        let y0 = self.state[self.index];
        self.index = self.index + 1;
        let y1 = y0 ^ (y0 >> 11u32);
        let y2 = y1 ^ ((y1 << 7u32) & 0x9d2c5680u32);
        let y3 = y2 ^ ((y2 << 15u32) & 0xefc60000u32);
        y3 ^ (y3 >> 18u32)
    }

    /// Seed from a vector of key words, least-significant word first.
    pub fn seed_vec(&mut self, seed: Vec<u32>) -> (r: Result<(), SeedError>)
        requires
            old(self).wf(),
            1 <= seed@.len() <= 0xffffffff,
        ensures
            final(self).wf(),
            r is Ok,
            final(self).mt() == seeded_state(seed@),
            final(self).idx() == 624,
    {
        self.init(19650218);
        let seed_len: usize = seed.len();
        let k: usize = if 624 > seed_len {
            624
        } else {
            seed_len
        };
        let ghost base = self.state@;
        let mut i: usize = 1;
        let mut j: usize = 0;
        let mut rounds: usize = k;
        while rounds > 0
            invariant
                self.state@.len() == 624,
                1 <= i < 624,
                0 <= j < seed@.len(),
                1 <= seed@.len() <= 0xffffffff,
                seed_len == seed@.len(),
                rounds <= k,
                mix_key(self.state@, seed@, i as int, j as int, rounds as nat) == mix_key(
                    base,
                    seed@,
                    1,
                    0,
                    k as nat,
                ),
            decreases rounds,
        {
            let prev = self.state[i - 1];
            let x: u32 = self.state[i] ^ ((1664525u64 * ((prev ^ (prev >> 30u32)) as u64))
                % 0x100000000u64) as u32;
            let val: u32 = ((x as u64 + seed[j] as u64 + j as u64) % 0x100000000u64) as u32;
            proof {
                let step = mix_key_step(self.state@, seed@, i as int, j as int);
                assert(step.0 == if i + 1 >= 624 {
                    self.state@.update(i as int, val).update(
                        0,
                        self.state@.update(i as int, val)[623],
                    )
                } else {
                    self.state@.update(i as int, val)
                });
            }
            self.state[i] = val;
            i = i + 1;
            j = j + 1;
            if i >= 624 {
                let last = self.state[623];
                self.state[0] = last;
                i = 1;
            }
            if j >= seed_len {
                j = 0;
            }
            rounds = rounds - 1;
        }
        let ghost mid = mix_key(base, seed@, 1, 0, k as nat);
        proof {
            assert((self.state@, i as int, j as int) == mid);
        }
        let mut rounds2: usize = 623;
        while rounds2 > 0
            invariant
                self.state@.len() == 624,
                1 <= i < 624,
                rounds2 <= 623,
                mix_final(self.state@, i as int, rounds2 as nat) == mix_final(
                    mid.0,
                    mid.1,
                    623,
                ),
            decreases rounds2,
        {
            let prev = self.state[i - 1];
            let x: u32 = self.state[i] ^ ((1566083941u64 * ((prev ^ (prev >> 30u32)) as u64))
                % 0x100000000u64) as u32;
            let val: u32 = ((x as u64 + 0x100000000u64 - i as u64) % 0x100000000u64) as u32;
            proof {
                lemma_mod_multiples_vanish(1, x as int - i as int, 0x100000000);
                let step = mix_final_step(self.state@, i as int);
                assert(step.0 == if i + 1 >= 624 {
                    self.state@.update(i as int, val).update(
                        0,
                        self.state@.update(i as int, val)[623],
                    )
                } else {
                    self.state@.update(i as int, val)
                });
            }
            self.state[i] = val;
            i = i + 1;
            if i >= 624 {
                let last = self.state[623];
                self.state[0] = last;
                i = 1;
            }
            rounds2 = rounds2 - 1;
        }
        self.state[0] = 0x80000000;
        self.index = 624;
        Ok(())
    }


    /// Seed from a big-endian byte string; an empty string seeds with zero.
    pub fn seed_bytes(&mut self, seed: Vec<u8>) -> (r: Result<(), SeedError>)
        requires
            old(self).wf(),
            seed@.len() <= 0xfffffff0,
        ensures
            final(self).wf(),
            r is Ok,
            final(self).mt() == seeded_state(byte_words(seed@)),
            final(self).idx() == 624,
    {
        let n: usize = seed.len();
        if n == 0 {
            self.seed_u32(0);
            return Ok(());
        }
        let nw: usize = (n + 3) / 4;
        let pad: usize = nw * 4 - n;
        let mut words: Vec<u32> = Vec::new();
        for w in 0..nw
            invariant
                nw == (seed@.len() + 3) / 4,
                pad == nw * 4 - seed@.len(),
                1 <= seed@.len() <= 0xfffffff0,
                n == seed@.len(),
                words@.len() == w,
                forall|x: int| 0 <= x < w ==> words@[x] == byte_words(seed@)[x],
        {
            let c: usize = nw - 1 - w;
            let base: usize = c * 4;
            let b0: u32 = if base < pad { 0 } else { seed[base - pad] as u32 };
            let b1: u32 = if base + 1 < pad { 0 } else { seed[base + 1 - pad] as u32 };
            let b2: u32 = if base + 2 < pad { 0 } else { seed[base + 2 - pad] as u32 };
            let b3: u32 = if base + 3 < pad { 0 } else { seed[base + 3 - pad] as u32 };
            let val: u32 = b0 * 0x1000000 + b1 * 0x10000 + b2 * 0x100 + b3;
            proof {
                vstd::arithmetic::div_mod::lemma_small_mod(val as nat, 0x100000000);
                assert(val == byte_words(seed@)[w as int]);
            }
            words.push(val);
        }
        proof {
            assert(words@ =~= byte_words(seed@));
        }
        self.seed_vec(words)
    }

    /// Seed from a string of hex digits (an optional leading plus sign and
    /// underscore separators are accepted, as in a big-integer literal);
    /// a string that does not parse is rejected and the state is untouched.
    pub fn seed_hex_string(&mut self, seed: String) -> (r: Result<(), SeedError>)
        requires
            old(self).wf(),
            vstd::utf8::encode_utf8(seed@).len() <= 0x10000000,
        ensures
            final(self).wf(),
            ({
                let t = strip_plus(vstd::utf8::encode_utf8(seed@));
                if hex_valid(t) {
                    &&& r is Ok
                    &&& final(self).mt() == seeded_state(
                        byte_words(digits_to_bytes(hex_digits(t))),
                    )
                    &&& final(self).idx() == 624
                } else {
                    r == Result::<(), SeedError>::Err(SeedError::InvalidHexString)
                        && *final(self) == *old(self)
                }
            }),
    {
        let bytes: Vec<u8> = seed.as_str().as_bytes_vec();
        proof {
            assert(bytes@ == vstd::utf8::encode_utf8(seed@));
        }
        let ghost t = strip_plus(bytes@);
        let len: usize = bytes.len();
        let start: usize = if len >= 1 && bytes[0] == 43 && !(len >= 2 && bytes[1] == 43) {
            1
        } else {
            0
        };
        proof {
            assert(t =~= bytes@.subrange(start as int, len as int));
        }
        if len == start {
            return Err(SeedError::InvalidHexString);
        }
        if bytes[start] == 95 {
            return Err(SeedError::InvalidHexString);
        }
        let mut digs: Vec<u8> = Vec::new();
        let mut i: usize = start;
        while i < len
            invariant
                *self == *old(self),
                old(self).wf(),
                start <= i <= len,
                len == bytes@.len(),
                t == bytes@.subrange(start as int, len as int),
                t == strip_plus(vstd::utf8::encode_utf8(seed@)),
                digs@ == hex_digits(t.subrange(0, i - start)),
                digs@.len() <= i - start,
                forall|x: int| 0 <= x < digs@.len() ==> digs@[x] < 16,
                forall|x: int|
                    0 <= x < i - start ==> t[x] == 95 || hex_digit_val(t[x]) < 16,
            decreases len - i,
        {
            let b: u8 = bytes[i];
            proof {
                assert(t.subrange(0, i + 1 - start).drop_last() =~= t.subrange(
                    0,
                    i - start,
                ));
                assert(t.subrange(0, i + 1 - start).last() == b);
            }
            if b == 95 {
                i = i + 1;
                continue;
            }
            let d: u8 = if 48 <= b && b <= 57 {
                b - 48
            } else if 97 <= b && b <= 122 {
                b - 97 + 10
            } else if 65 <= b && b <= 90 {
                b - 65 + 10
            } else {
                255
            };
            if d >= 16 {
                proof {
                    assert(t[i - start] == b);
                    assert(!(t[i - start] == 95 || hex_digit_val(t[i - start]) < 16));
                    assert(!hex_valid(t));
                }
                return Err(SeedError::InvalidHexString);
            }
            digs.push(d);
            i = i + 1;
        }
        proof {
            assert(t.subrange(0, len - start) =~= t);
        }
        let ghost stripped = drop_leading_zeros(digs@);
        let dn: usize = digs.len();
        let mut z: usize = 0;
        while z < dn && digs[z] == 0
            invariant
                0 <= z <= dn,
                dn == digs@.len(),
                forall|k: int| 0 <= k < z ==> digs@[k] == 0,
            decreases dn - z,
        {
            z = z + 1;
        }
        proof {
            lemma_drop_leading_zeros_at(digs@, z as int);
        }
        let mut out: Vec<u8> = Vec::new();
        let mut p: usize = z;
        if z == dn {
            out.push(0);
            proof {
                assert(out@ =~= digits_to_bytes(digs@));
            }
        } else {
            if (dn - z) % 2 == 1 {
                out.push(digs[z]);
                p = p + 1;
            }
            while p < dn
                invariant
                    z <= p <= dn,
                    dn == digs@.len(),
                    z < dn,
                    stripped == digs@.subrange(z as int, dn as int),
                    (dn - z) % 2 == 1 ==> {
                        &&& (p - z) % 2 == 1
                        &&& out@.len() == 1 + (p - z - 1) / 2
                        &&& out@[0] == stripped[0]
                        &&& forall|x: int|
                            1 <= x < out@.len() ==> out@[x] == digit_pairs(
                                stripped.drop_first(),
                            )[x - 1]
                    },
                    forall|x: int| 0 <= x < digs@.len() ==> digs@[x] < 16,
                    (dn - z) % 2 == 0 ==> {
                        &&& (p - z) % 2 == 0
                        &&& out@.len() == (p - z) / 2
                        &&& forall|x: int|
                            0 <= x < out@.len() ==> out@[x] == digit_pairs(stripped)[x]
                    },
                decreases dn - p,
            {
                let hi = digs[p];
                let lo = digs[p + 1];
                out.push(hi * 16 + lo);
                p = p + 2;
            }
            proof {
                if (dn - z) % 2 == 1 {
                    assert(out@ =~= seq![stripped[0]] + digit_pairs(stripped.drop_first()));
                } else {
                    assert(out@ =~= digit_pairs(stripped));
                }
            }
        }
        proof {
            assert(out@.len() <= digs@.len() + 1);
        }
        self.seed_bytes(out)
    }


    /// The numerator, over `2^53`, of the next uniform draw on `[0, 1)`:
    /// 27 bits of one raw word above 26 bits of the next.
    pub fn rand_num(&mut self) -> (r: u64)
        requires
            old(self).wf(),
        ensures
            final(self).wf(),
            r as int == rand_num_spec(old(self).mt(), old(self).idx()),
            r < 0x20000000000000,
            (final(self).mt(), final(self).idx()) == advance(
                old(self).mt(),
                old(self).idx(),
                2,
            ),
    {
        let ghost m0 = old(self).mt();
        let ghost i0 = old(self).idx();
        let a = self.gen_u32();
        let b = self.gen_u32();
        proof {
            lemma_advance_add(m0, i0, 1, 1);
            assert(a >> 5u32 < 0x8000000) by (bit_vector);
            assert(b >> 6u32 < 0x4000000) by (bit_vector);
        }
        (a >> 5u32) as u64 * 0x4000000 + (b >> 6u32) as u64
    }

    /// The whole part of `rand() * mag`, computed as the exact product of
    /// the two doubles would be: rounded to a 53-bit significand and
    /// divided out.  For a positive scale the result always lands below it.
    fn rand_scale(&mut self, mag: u64) -> (r: u64)
        requires
            old(self).wf(),
            mag <= 0x20000000000000,
        ensures
            final(self).wf(),
            r as nat == rand_scale_spec(old(self).mt(), old(self).idx(), mag as nat),
            (final(self).mt(), final(self).idx()) == advance(
                old(self).mt(),
                old(self).idx(),
                2,
            ),
            mag > 0 ==> r < mag,
            mag == 0 ==> r == 0,
    {
        let num = self.rand_num();
        proof {
            lemma_mul_bounds_abs(num as int, mag as int, 0x20000000000000, 0x20000000000000);
        }
        let p: u128 = num as u128 * mag as u128;
        let r53: u128 = round53_exec(p);
        if mag == 0 {
            proof {
                assert(p == 0);
            }
            return (r53 / 0x20000000000000) as u64;
        }
        proof {
            assert(p as nat <= 0x1fffffffffffff * (mag as nat)) by (nonlinear_arith)
                requires
                    p as nat == (num as nat) * (mag as nat),
                    num < 0x20000000000000,
                    mag >= 1,
            ;
            lemma_round53_bound(p as nat, mag as nat);
            vstd::arithmetic::div_mod::lemma_div_is_ordered(
                round53(p as nat) as int,
                0x20000000000000 * (mag as int) - 1,
                0x20000000000000,
            );
            assert(0x20000000000000 * (mag as int) - 1 == (mag as int - 1) * 0x20000000000000
                + 0x1fffffffffffff) by (nonlinear_arith);
            lemma_fundamental_div_mod_converse(
                0x20000000000000 * (mag as int) - 1,
                0x20000000000000,
                mag as int - 1,
                0x1fffffffffffff,
            );
        }
        (r53 / 0x20000000000000) as u64
    }

    /// The index CPython 2's `random.choice` would pick from a list of the
    /// given length: the whole part of `rand() * length`.  The well-known
    /// quirk that a non-positive length yields a non-positive value rather
    /// than failing is kept.
    pub fn choice(&mut self, length: i32) -> (r: i32)
        requires
            old(self).wf(),
        ensures
            final(self).wf(),
            (final(self).mt(), final(self).idx()) == advance(
                old(self).mt(),
                old(self).idx(),
                2,
            ),
            length >= 1 ==> 0 <= r < length && r as int == rand_scale_spec(
                old(self).mt(),
                old(self).idx(),
                length as nat,
            ),
            length == 0 ==> r == 0,
            length < 0 ==> length < r <= 0 && r as int == -(rand_scale_spec(
                old(self).mt(),
                old(self).idx(),
                (-(length as int)) as nat,
            ) as int),
    {
        if length >= 0 {
            let v = self.rand_scale(length as u64);
            v as i32
        } else {
            let mag: u64 = (-(length as i64)) as u64;
            let v = self.rand_scale(mag);
            (-(v as i64)) as i32
        }
    }

    /// Fill `(k - 1) / 32 + 1` words with random bits; if `k` is not a
    /// multiple of 32, the spare top bits of the last word are zero.
    pub fn rand_bits(&mut self, k: u32) -> (r: Vec<u32>)
        requires
            old(self).wf(),
            k >= 1,
        ensures
            final(self).wf(),
            r@.len() == quads_of(k),
            forall|x: int|
                0 <= x < r@.len() ==> r@[x] == rand_bits_elem(
                    old(self).mt(),
                    old(self).idx(),
                    k,
                    x,
                ),
            (final(self).mt(), final(self).idx()) == advance(
                old(self).mt(),
                old(self).idx(),
                quads_of(k) as nat,
            ),
    {
        let ghost m0 = old(self).mt();
        let ghost i0 = old(self).idx();
        let quads: usize = ((k - 1) / 32 + 1) as usize;
        let mut result: Vec<u32> = Vec::new();
        let mut rem: u32 = k;
        proof {
            assert(advance(m0, i0, 0) == (m0, i0));
        }
        for i in 0..quads
            invariant
                self.wf(),
                k >= 1,
                quads == quads_of(k),
                result@.len() == i,
                i < quads ==> rem == k - 32 * i,
                (self.mt(), self.idx()) == advance(m0, i0, i as nat),
                forall|x: int| 0 <= x < i ==> result@[x] == rand_bits_elem(m0, i0, k, x),
        {
            let ghost mcur = self.mt();
            let ghost icur = self.idx();
            let mut v = self.gen_u32();
            proof {
                lemma_advance_add(m0, i0, i as nat, 1);
                assert(v == raw(m0, i0, i as nat));
            }
            if rem < 32 {
                v = v >> (32 - rem);
            }
            result.push(v);
            rem = if rem >= 32 {
                rem - 32
            } else {
                0
            };
        }
        result
    }

    /// A uniform draw strictly below `n`: whole words of the computed width
    /// are drawn and rejected until one fits.  The fuel bound of `2^64 - 1`
    /// rounds exists only to make termination plain; it is never reached.
    pub fn rand_below(&mut self, n: u64) -> (r: u64)
        requires
            old(self).wf(),
            n >= 2,
        ensures
            final(self).wf(),
            r < n,
            ({
                let o = below_fuel(old(self).mt(), old(self).idx(), n, 0xffffffffffffffff);
                o is Some ==> o == Some(
                    (r as int, final(self).mt(), final(self).idx()),
                )
            }),
    {
        let bits: u32 = width_exec(n);
        let two = bits > 32;
        let three = bits > 64;
        let mut fuel: u64 = 0xffffffffffffffff;
        loop
            invariant
                self.wf(),
                n >= 2,
                bits as int == width_spec(n as int),
                1 <= bits <= 65,
                two == (bits > 32),
                three == (bits > 64),
                below_fuel(old(self).mt(), old(self).idx(), n, 0xffffffffffffffff)
                    == below_fuel(self.mt(), self.idx(), n, fuel as nat),
            decreases fuel,
        {
            if fuel == 0 {
                return 0;
            }
            let ghost mcur = self.mt();
            let ghost icur = self.idx();
            let s = self.rand_bits(bits);
            let mut rejected = false;
            if three && s[2] > 0 {
                rejected = true;
            }
            let mut v: u64 = s[0] as u64;
            if two {
                v = v + (s[1] as u64) * 0x100000000;
            }
            proof {
                assert((self.mt(), self.idx()) == below_after(mcur, icur, n));
                assert(v as int == below_v(mcur, icur, n));
            }
            if !rejected && v < n {
                proof {
                    assert(below_ok(mcur, icur, n));
                }
                return v;
            }
            proof {
                assert(!below_ok(mcur, icur, n));
            }
            fuel = fuel - 1;
        }
    }

    /// A uniform draw from the inclusive range `[a, b]`.
    pub fn rand_i32(&mut self, a: i32, b: i32) -> (r: i32)
        requires
            old(self).wf(),
            a <= b,
            b < i32::MAX,
            b - a + 1 <= i32::MAX,
        ensures
            final(self).wf(),
            a <= r <= b,
            r as int == a + rand_scale_spec(
                old(self).mt(),
                old(self).idx(),
                (b + 1 - a) as nat,
            ),
            (final(self).mt(), final(self).idx()) == advance(
                old(self).mt(),
                old(self).idx(),
                2,
            ),
    {
        self.rand_range(a, b + 1)
    }

    /// A uniform draw from the half-open range `[start, stop)`.  A span of
    /// an `i32` range is always far below `2^53`, so the draw is a single
    /// scaled `rand()`.
    fn rand_range(&mut self, start: i32, stop: i32) -> (r: i32)
        requires
            old(self).wf(),
            start < stop,
            stop - start <= i32::MAX,
        ensures
            final(self).wf(),
            start <= r < stop,
            r as int == start + rand_scale_spec(
                old(self).mt(),
                old(self).idx(),
                (stop - start) as nat,
            ),
            (final(self).mt(), final(self).idx()) == advance(
                old(self).mt(),
                old(self).idx(),
                2,
            ),
    {
        let width: u64 = (stop as i64 - start as i64) as u64;
        let v = self.rand_scale(width);
        start + v as i32
    }

    /// Seed from a single 32-bit word.
    pub fn seed_u32(&mut self, seed: u32)
        requires
            old(self).wf(),
        ensures
            final(self).wf(),
            final(self).mt() == seeded_state(seq![seed]),
            final(self).idx() == 624,
    {
        let mut v: Vec<u32> = Vec::new();
        v.push(seed);
        proof {
            assert(v@ =~= seq![seed]);
        }
        let _ = self.seed_vec(v);
    }

    /// Seed from a 64-bit word; a value that fits in 32 bits seeds exactly
    /// as its 32-bit counterpart.
    pub fn seed_u64(&mut self, seed: u64)
        requires
            old(self).wf(),
        ensures
            final(self).wf(),
            final(self).idx() == 624,
            seed <= 0xffffffff ==> final(self).mt() == seeded_state(seq![seed as u32]),
            seed > 0xffffffff ==> final(self).mt() == seeded_state(
                seq![seed as u32, (seed >> 32u64) as u32],
            ),
    {
        if seed <= 0xffffffff {
            self.seed_u32(seed as u32);
        } else {
            let mut v: Vec<u32> = Vec::new();
            v.push(seed as u32);
            v.push((seed >> 32u64) as u32);
            proof {
                assert(v@ =~= seq![seed as u32, (seed >> 32u64) as u32]);
            }
            let _ = self.seed_vec(v);
        }
    }
}

/// A seed string that does not parse.
#[derive(Clone, Copy, Debug, PartialEq, Eq, Structural)]
pub enum SeedError {
    InvalidHexString,
}

} // verus!
