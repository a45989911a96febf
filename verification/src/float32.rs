//! IEEE-754 binary32 values as bit patterns, and rounding to them.
//!
//! A finite magnitude is a point on a grid whose unit is 2^-149, the
//! smallest positive binary32 value. Rounding is stated as a relation
//! between a magnitude and a non-negative rational measured in that unit:
//! the magnitude is the grid point nearest to the rational, ties going to
//! the even magnitude, and everything at or beyond the midpoint above the
//! largest finite value going to infinity.

use vstd::arithmetic::power2::{
    lemma2_to64, lemma2_to64_rest, lemma_pow2_adds, lemma_pow2_pos, lemma_pow2_strictly_increases,
    lemma_pow2_unfold, pow2,
};
use vstd::prelude::*;

verus! {

/// The sign bit.
pub const SIGN_BIT: u32 = 0x8000_0000;

/// The magnitude of infinity; every larger magnitude is a NaN.
pub const INFINITY: u32 = 0x7F80_0000;

/// The bit pattern without its sign.
pub open spec fn magnitude(bits: u32) -> nat {
    (bits % 0x8000_0000) as nat
}

/// Whether the sign bit is set.
pub open spec fn is_negative(bits: u32) -> bool {
    bits >= 0x8000_0000
}

/// Whether the pattern is a NaN.
pub open spec fn is_nan(bits: u32) -> bool {
    magnitude(bits) > 0x7F80_0000
}

/// The value of magnitude `k`, in units of 2^-149. For the magnitude of
/// infinity this is 2^128 in the same units, the value that the next
/// binade would start with.
pub open spec fn grid(k: nat) -> nat {
    let e = k / 0x80_0000;
    let f = k % 0x80_0000;
    if e == 0 {
        f
    } else {
        (0x80_0000 + f) * pow2((e - 1) as nat)
    }
}

/// The distance from magnitude `k` to the next one, in units of 2^-149.
pub open spec fn gap(k: nat) -> nat {
    let e = k / 0x80_0000;
    if e == 0 {
        1
    } else {
        pow2((e - 1) as nat)
    }
}

/// Magnitude `k` is the rounding to nearest, ties to even, of `num / den`
/// units of 2^-149.
pub open spec fn rounds_to(k: nat, num: nat, den: nat) -> bool {
    &&& k <= 0x7F80_0000
    &&& k > 0 ==> {
        &&& (grid((k - 1) as nat) + grid(k)) * den <= 2 * num
        &&& k % 2 == 1 ==> (grid((k - 1) as nat) + grid(k)) * den < 2 * num
    }
    &&& k < 0x7F80_0000 ==> {
        &&& 2 * num <= (grid(k) + grid(k + 1)) * den
        &&& k % 2 == 1 ==> 2 * num < (grid(k) + grid(k + 1)) * den
    }
}

/// Each magnitude lies one gap below the next.
pub proof fn lemma_grid_next(k: nat)
    ensures
        grid(k + 1) == grid(k) + gap(k),
        gap(k) > 0,
{
    let e = k / 0x80_0000;
    let f = k % 0x80_0000;
    lemma2_to64();
    if e > 0 {
        lemma_pow2_pos((e - 1) as nat);
    }
    if f + 1 < 0x80_0000 {
        assert((k + 1) / 0x80_0000 == e && (k + 1) % 0x80_0000 == f + 1);
        if e > 0 {
            let p = pow2((e - 1) as nat);
            assert((0x80_0000 + (f + 1)) * p == (0x80_0000 + f) * p + p) by (nonlinear_arith);
        }
    } else {
        assert((k + 1) / 0x80_0000 == e + 1 && (k + 1) % 0x80_0000 == 0);
        if e > 0 {
            let p = pow2((e - 1) as nat);
            lemma_pow2_unfold(e);
            assert(pow2(e) == 2 * p);
            assert((0x80_0000 + 0) * (2 * p) == (0x80_0000 + f) * p + p) by (nonlinear_arith)
                requires
                    f == 0x80_0000 - 1,
            ;
        } else {
            assert((0x80_0000 + 0) * pow2(0) == 0x80_0000) by (nonlinear_arith)
                requires
                    pow2(0) == 1,
            ;
        }
    }
}

/// Larger magnitudes have larger values.
pub proof fn lemma_grid_increasing(a: nat, b: nat)
    requires
        a < b,
    ensures
        grid(a) < grid(b),
    decreases b - a,
{
    lemma_grid_next((b - 1) as nat);
    if a < b - 1 {
        lemma_grid_increasing(a, (b - 1) as nat);
    }
}

/// A rational rounds to one magnitude only.
pub proof fn lemma_rounds_to_unique(a: nat, b: nat, num: nat, den: nat)
    requires
        den > 0,
        rounds_to(a, num, den),
        rounds_to(b, num, den),
    ensures
        a == b,
{
    lemma_rounds_not_below(a, b, num, den);
    lemma_rounds_not_below(b, a, num, den);
}

proof fn lemma_rounds_not_below(a: nat, b: nat, num: nat, den: nat)
    requires
        den > 0,
        rounds_to(a, num, den),
        rounds_to(b, num, den),
    ensures
        b <= a,
{
    let low = grid(a) + grid(a + 1);
    let high = grid((b - 1) as nat) + grid(b);
    if a >= b {
    } else if a + 1 < b {
        lemma_grid_increasing(a, (b - 1) as nat);
        lemma_grid_increasing(a + 1, b);
        assert(low * den < high * den) by (nonlinear_arith)
            requires
                low < high,
                den > 0,
        ;
    } else {
        assert(low == high);
        assert(a % 2 == 1 || b % 2 == 1);
    }
}

/// Rounding does not depend on how the rational is written.
pub proof fn lemma_rounds_to_scaled(k: nat, num: nat, den: nat, c: nat)
    requires
        c > 0,
        rounds_to(k, num * c, den * c),
    ensures
        rounds_to(k, num, den),
{
    if k > 0 {
        let s = grid((k - 1) as nat) + grid(k);
        assert(s * den <= 2 * num) by (nonlinear_arith)
            requires
                s * (den * c) <= 2 * (num * c),
                c > 0,
        ;
        if k % 2 == 1 {
            assert(s * den < 2 * num) by (nonlinear_arith)
                requires
                    s * (den * c) < 2 * (num * c),
                    c > 0,
            ;
        }
    }
    if k < 0x7F80_0000 {
        let s = grid(k) + grid(k + 1);
        assert(2 * num <= s * den) by (nonlinear_arith)
            requires
                2 * (num * c) <= s * (den * c),
                c > 0,
        ;
        if k % 2 == 1 {
            assert(2 * num < s * den) by (nonlinear_arith)
                requires
                    2 * (num * c) < s * (den * c),
                    c > 0,
            ;
        }
    }
}

/// A rational that is a grid point rounds to that point.
pub proof fn lemma_exact_rounds_to_itself(k: nat, num: nat, den: nat)
    requires
        den > 0,
        k <= 0x7F80_0000,
        grid(k) * den == num,
    ensures
        rounds_to(k, num, den),
{
    let g = grid(k);
    if k > 0 {
        lemma_grid_increasing((k - 1) as nat, k);
        let below = grid((k - 1) as nat);
        assert((below + g) * den < 2 * (g * den)) by (nonlinear_arith)
            requires
                below < g,
                den > 0,
        ;
    }
    if k < 0x7F80_0000 {
        lemma_grid_increasing(k, k + 1);
        let above = grid(k + 1);
        assert(2 * (g * den) < (g + above) * den) by (nonlinear_arith)
            requires
                g < above,
                den > 0,
        ;
    }
}

/// The rounding step. Magnitude `k0` lies `rem` below the target, both
/// measured in parts of which `unit` make up the gap above `k0`; `up` says
/// whether the remainder is more than half a gap, or exactly half with `k0`
/// odd. The target then rounds to `k0` or to its successor accordingly.
proof fn lemma_round_step(k0: nat, sig: nat, rem: nat, unit: nat, w: nat, den: nat, up: bool)
    requires
        k0 < 0x7F80_0000,
        rem < unit,
        rem <= sig,
        w > 0,
        den > 0,
        grid(k0) * den == (sig - rem) * w,
        gap(k0) * den == unit * w,
        up <==> (2 * rem > unit || (2 * rem == unit && k0 % 2 == 1)),
    ensures
        rounds_to(
            if up {
                k0 + 1
            } else {
                k0
            },
            sig * w,
            den,
        ),
{
    let g0 = grid(k0);
    let g1 = grid(k0 + 1);
    let num = sig * w;
    lemma_grid_next(k0);
    assert(g1 * den == (sig - rem + unit) * w) by (nonlinear_arith)
        requires
            g1 == g0 + gap(k0),
            g0 * den == (sig - rem) * w,
            gap(k0) * den == unit * w,
    ;
    assert((g0 + g1) * den == (2 * (sig - rem) + unit) * w) by (nonlinear_arith)
        requires
            g0 * den == (sig - rem) * w,
            g1 * den == (sig - rem + unit) * w,
    ;
    if !up {
        if k0 > 0 {
            lemma_grid_increasing((k0 - 1) as nat, k0);
            let below = grid((k0 - 1) as nat);
            assert((below + g0) * den < 2 * (sig * w)) by (nonlinear_arith)
                requires
                    below < g0,
                    den > 0,
                    w > 0,
                    rem <= sig,
                    g0 * den == (sig - rem) * w,
            ;
        }
        assert(2 * (sig * w) <= (2 * (sig - rem) + unit) * w) by (nonlinear_arith)
            requires
                2 * rem <= unit,
                rem <= sig,
                w > 0,
        ;
        if k0 % 2 == 1 {
            assert(2 * (sig * w) < (2 * (sig - rem) + unit) * w) by (nonlinear_arith)
                requires
                    2 * rem < unit,
                    rem <= sig,
                    w > 0,
            ;
        }
    } else {
        assert((2 * (sig - rem) + unit) * w <= 2 * (sig * w)) by (nonlinear_arith)
            requires
                2 * rem >= unit,
                rem <= sig,
                w > 0,
        ;
        if (k0 + 1) % 2 == 1 {
            assert((2 * (sig - rem) + unit) * w < 2 * (sig * w)) by (nonlinear_arith)
                requires
                    2 * rem > unit,
                    rem <= sig,
                    w > 0,
            ;
        }
        if k0 + 1 < 0x7F80_0000 {
            lemma_grid_increasing(k0 + 1, k0 + 2);
            let above = grid(k0 + 2);
            assert(2 * (sig * w) < (g1 + above) * den) by (nonlinear_arith)
                requires
                    g1 < above,
                    den > 0,
                    w > 0,
                    rem < unit,
                    rem <= sig,
                    g1 * den == (sig - rem + unit) * w,
            ;
        }
    }
}

/// 2^n as a machine word.
pub(crate) fn power_of_two(n: u32) -> (p: u64)
    requires
        n < 64,
    ensures
        p == pow2(n as nat),
{
    let mut p: u64 = 1;
    let mut i: u32 = 0;
    proof {
        lemma2_to64();
    }
    while i < n
        invariant
            i <= n,
            n < 64,
            p == pow2(i as nat),
        decreases n - i,
    {
        proof {
            lemma2_to64();
            lemma_pow2_unfold((i + 1) as nat);
            lemma_pow2_strictly_increases((i + 1) as nat, 64);
        }
        p = p * 2;
        i = i + 1;
    }
    p
}

/// Rounds `sig * 2^(top - 63)` units of 2^-149, where `sig` has its highest
/// bit set, so that `top` is the position of the leading bit of the value.
fn round_normalized(sig: u64, top: i32) -> (k: u32)
    requires
        sig >= 0x8000_0000_0000_0000,
        -925 <= top <= 1200,
    ensures
        rounds_to(k as nat, sig as nat * pow2((top + 925) as nat), pow2(988)),
{
    let ghost w = pow2((top + 925) as nat);
    let ghost den = pow2(988);
    proof {
        lemma2_to64();
        lemma2_to64_rest();
        lemma_pow2_pos((top + 925) as nat);
        lemma_pow2_pos(988);
    }
    if top >= 277 {
        proof {
            let inf: nat = 0x7F80_0000;
            let g = grid(inf);
            assert(inf / 0x80_0000 == 255 && inf % 0x80_0000 == 0);
            lemma_pow2_adds(23, 254);
            assert(g == pow2(277));
            lemma_pow2_adds(277, 988);
            lemma_pow2_adds(63, (top + 925) as nat);
            if top > 277 {
                lemma_pow2_strictly_increases(1265, (top + 988) as nat);
            }
            assert(g * den <= pow2(63) * w);
            assert(g * den <= sig as nat * w) by (nonlinear_arith)
                requires
                    g * den <= pow2(63) * w,
                    sig >= pow2(63),
            ;
            lemma_grid_increasing((inf - 1) as nat, inf);
            let below = grid((inf - 1) as nat);
            assert((below + g) * den <= 2 * (sig as nat * w)) by (nonlinear_arith)
                requires
                    below < g,
                    g * den <= sig as nat * w,
            ;
        }
        return 0x7F80_0000;
    }
    if top >= 23 {
        let mant: u64 = sig / 0x100_0000_0000;
        let rem: u64 = sig % 0x100_0000_0000;
        let a: u32 = (top - 23) as u32;
        let k0: u32 = a * 0x80_0000 + (mant as u32);
        let up: bool = rem > 0x80_0000_0000 || (rem == 0x80_0000_0000 && k0 % 2 == 1);
        proof {
            let unit = pow2(40);
            let pa = pow2(a as nat);
            assert(k0 as nat / 0x80_0000 == a + 1 && k0 as nat % 0x80_0000 == mant - 0x80_0000);
            assert(grid(k0 as nat) == mant as nat * pa);
            assert(gap(k0 as nat) == pa);
            lemma_pow2_adds(a as nat, 988);
            lemma_pow2_adds(40, (top + 925) as nat);
            assert(pa * den == unit * w);
            assert((mant as nat * pa) * den == (sig - rem) as nat * w) by (nonlinear_arith)
                requires
                    pa * den == unit * w,
                    sig - rem == mant * unit,
            ;
            lemma_round_step(k0 as nat, sig as nat, rem as nat, unit, w, den, up);
        }
        return if up {
            k0 + 1
        } else {
            k0
        };
    }
    if top <= -2 {
        proof {
            assert(grid(0) == 0 && grid(1) == 1);
            lemma_pow2_adds(64, 923);
            lemma_pow2_unfold(988);
            if top < -2 {
                lemma_pow2_strictly_increases((top + 925) as nat, 923);
            }
            assert(2 * (sig as nat * w) <= 2 * (pow2(64) * pow2(923))) by (nonlinear_arith)
                requires
                    sig < pow2(64),
                    w <= pow2(923),
            ;
            assert(pow2(987) == pow2(64) * pow2(923));
            assert((0 + 1) * den == den) by (nonlinear_arith);
        }
        return 0;
    }
    if top == -1 {
        let up: bool = sig > 0x8000_0000_0000_0000;
        proof {
            let unit = pow2(64);
            assert(grid(0) == 0 && gap(0) == 1);
            lemma_pow2_adds(64, 924);
            assert(grid(0) * den == (sig - sig) as nat * w) by (nonlinear_arith)
                requires
                    grid(0) == 0,
            ;
            assert(gap(0) * den == unit * w) by (nonlinear_arith)
                requires
                    gap(0) == 1,
                    den == unit * w,
            ;
            lemma_round_step(0, sig as nat, sig as nat, unit, w, den, up);
        }
        return if up {
            1
        } else {
            0
        };
    }
    let d: u32 = (63 - top) as u32;
    let unit: u64 = power_of_two(d);
    let half: u64 = unit / 2;
    let q: u64 = sig / unit;
    let rem: u64 = sig % unit;
    proof {
        lemma_pow2_unfold(d as nat);
        if d > 41 {
            lemma_pow2_strictly_increases(41, d as nat);
        }
        lemma_pow2_adds(d as nat, (top + 925) as nat);
        vstd::arithmetic::div_mod::lemma_fundamental_div_mod(sig as int, unit as int);
        assert(q < 0x80_0000) by (nonlinear_arith)
            requires
                sig == unit * q + rem,
                unit >= 0x200_0000_0000,
                sig < 0x1_0000_0000_0000_0000,
                rem >= 0,
        ;
    }
    let k0: u32 = q as u32;
    let up: bool = rem > half || (rem == half && k0 % 2 == 1);
    proof {
        assert(grid(k0 as nat) == k0 && gap(k0 as nat) == 1);
        assert(grid(k0 as nat) * den == (sig - rem) as nat * w) by (nonlinear_arith)
            requires
                grid(k0 as nat) == q,
                den == unit * w,
                sig - rem == unit * q,
        ;
        assert(gap(k0 as nat) * den == unit as nat * w) by (nonlinear_arith)
            requires
                gap(k0 as nat) == 1,
                den == unit * w,
        ;
        lemma_round_step(k0 as nat, sig as nat, rem as nat, unit as nat, w, den, up);
    }
    if up {
        k0 + 1
    } else {
        k0
    }
}

/// Rounds `sig * 2^scale / 2^925` units of 2^-149.
fn round_scaled(sig: u64, scale: u32) -> (k: u32)
    requires
        scale <= 2046,
    ensures
        rounds_to(k as nat, sig as nat * pow2(scale as nat), pow2(925)),
{
    if sig == 0 {
        proof {
            assert(0 * pow2(scale as nat) == 0) by (nonlinear_arith);
        }
        return 0;
    }
    let mut m: u64 = sig;
    let mut s: u32 = 0;
    proof {
        lemma2_to64();
        assert(sig as nat * pow2(0) == sig) by (nonlinear_arith)
            requires
                pow2(0) == 1,
        ;
    }
    while m < 0x8000_0000_0000_0000
        invariant
            sig > 0,
            m > 0,
            s <= 63,
            m == sig as nat * pow2(s as nat),
        decreases 64 - s,
    {
        proof {
            lemma2_to64();
            lemma2_to64_rest();
            if s >= 63 {
                assert(sig as nat * pow2(63) >= pow2(63)) by (nonlinear_arith)
                    requires
                        sig > 0,
                ;
            }
            lemma_pow2_unfold((s + 1) as nat);
            assert(sig as nat * (2 * pow2(s as nat)) == 2 * (sig as nat * pow2(s as nat)))
                by (nonlinear_arith);
        }
        m = m * 2;
        s = s + 1;
    }
    let top: i32 = (63 - s) as i32 + (scale as i32) - 925;
    let k = round_normalized(m, top);
    proof {
        let c = pow2(63);
        let ps = pow2(s as nat);
        let pr = pow2((63 - s) as nat);
        let pc = pow2(scale as nat);
        lemma_pow2_pos(63);
        lemma_pow2_adds(s as nat, (63 - s) as nat);
        lemma_pow2_adds(63, scale as nat);
        lemma_pow2_adds((63 - s) as nat, scale as nat);
        lemma_pow2_adds(925, 63);
        assert(pow2((top + 925) as nat) == pr * pc);
        assert(m as nat * (pr * pc) == (sig as nat * pc) * c) by (nonlinear_arith)
            requires
                m == sig as nat * ps,
                ps * pr == c,
        ;
        lemma_rounds_to_scaled(k as nat, sig as nat * pc, pow2(925), c);
    }
    k
}

/// The binary32 value nearest to an unsigned integer, ties to even.
pub fn from_u64(value: u64) -> (bits: u32)
    ensures
        bits < 0x7F80_0000,
        rounds_to(bits as nat, value as nat * pow2(149), 1),
{
    let bits = round_scaled(value, 1074);
    proof {
        let c = pow2(925);
        lemma_pow2_pos(925);
        lemma_pow2_adds(149, 925);
        assert(value as nat * pow2(1074) == (value as nat * pow2(149)) * c) by (nonlinear_arith)
            requires
                pow2(1074) == pow2(149) * c,
        ;
        assert(pow2(925) == 1 * c);
        lemma_rounds_to_scaled(bits as nat, value as nat * pow2(149), 1, c);
        lemma_integers_stay_finite(bits as nat, value as nat);
    }
    bits
}

/// The binary32 value nearest to a 32-bit unsigned integer, ties to even.
pub fn from_u32(value: u32) -> (bits: u32)
    ensures
        bits < 0x7F80_0000,
        rounds_to(bits as nat, value as nat * pow2(149), 1),
{
    from_u64(value as u64)
}

/// No 64-bit integer is large enough to round to infinity.
proof fn lemma_integers_stay_finite(k: nat, value: nat)
    requires
        value < 0x1_0000_0000_0000_0000,
        rounds_to(k, value * pow2(149), 1),
    ensures
        k < 0x7F80_0000,
{
    if k == 0x7F80_0000 {
        let inf: nat = 0x7F80_0000;
        lemma2_to64();
        assert(inf / 0x80_0000 == 255 && inf % 0x80_0000 == 0);
        lemma_pow2_adds(23, 254);
        assert(grid(inf) == pow2(277));
        lemma_pow2_adds(64, 149);
        lemma_pow2_strictly_increases(213, 276);
        lemma_pow2_unfold(277);
        lemma_pow2_pos(149);
        assert(2 * (value * pow2(149)) < 2 * (pow2(64) * pow2(149))) by (nonlinear_arith)
            requires
                value < pow2(64),
                pow2(149) > 0,
        ;
        lemma_grid_increasing((inf - 1) as nat, inf);
    }
}

/// A binary64 bit pattern without its sign.
pub open spec fn wide_magnitude(wide: u64) -> nat {
    (wide % 0x8000_0000_0000_0000) as nat
}

/// Whether a binary64 bit pattern has its sign bit set.
pub open spec fn wide_is_negative(wide: u64) -> bool {
    wide >= 0x8000_0000_0000_0000
}

/// Whether a binary64 bit pattern is a NaN.
pub open spec fn wide_is_nan(wide: u64) -> bool {
    wide_magnitude(wide) > 0x7FF0_0000_0000_0000
}

/// The value of binary64 magnitude `j`, in units of 2^-1074, the smallest
/// positive binary64 value. For the magnitude of infinity this is 2^1024
/// in the same units.
pub open spec fn wide_grid(j: nat) -> nat {
    let e = j / 0x10_0000_0000_0000;
    let f = j % 0x10_0000_0000_0000;
    if e == 0 {
        f
    } else {
        (0x10_0000_0000_0000 + f) * pow2((e - 1) as nat)
    }
}

/// The quiet NaN magnitude that keeps the highest payload bits of a
/// binary64 NaN magnitude.
pub open spec fn quieted(mag: nat) -> nat {
    let payload = (mag % 0x10_0000_0000_0000) / 0x2000_0000;
    if payload < 0x40_0000 {
        0x7FC0_0000 + payload
    } else {
        0x7F80_0000 + payload
    }
}

/// `bits` is the binary32 value that the binary64 value `wide` narrows to.
/// The sign is kept. A NaN becomes the quiet NaN with its highest payload
/// bits; any other value goes to the magnitude nearest to its own, ties to
/// even. One unit of 2^-149 is 2^925 units of 2^-1074.
pub open spec fn narrows_to(bits: u32, wide: u64) -> bool {
    &&& is_negative(bits) == wide_is_negative(wide)
    &&& if wide_is_nan(wide) {
        magnitude(bits) == quieted(wide_magnitude(wide))
    } else {
        rounds_to(magnitude(bits), wide_grid(wide_magnitude(wide)), pow2(925))
    }
}

/// Rounds a binary64 magnitude that is no NaN.
fn round_wide(mag: u64) -> (k: u32)
    requires
        mag <= 0x7FF0_0000_0000_0000,
    ensures
        k <= 0x7F80_0000,
        rounds_to(k as nat, wide_grid(mag as nat), pow2(925)),
{
    let e: u64 = mag / 0x10_0000_0000_0000;
    let f: u64 = mag % 0x10_0000_0000_0000;
    assert(e <= 2047);
    if e == 0 {
        proof {
            lemma2_to64();
            assert(f as nat * pow2(0) == f) by (nonlinear_arith)
                requires
                    pow2(0) == 1,
            ;
        }
        round_scaled(f, 0)
    } else {
        round_scaled(0x10_0000_0000_0000 + f, (e - 1) as u32)
    }
}

/// Makes a quiet binary32 NaN magnitude out of a binary64 NaN magnitude.
fn quiet_nan(mag: u64) -> (k: u32)
    ensures
        0x7F80_0000 < k < 0x8000_0000,
        k == quieted(mag as nat),
{
    let f: u64 = mag % 0x10_0000_0000_0000;
    let payload: u32 = (f / 0x2000_0000) as u32;
    if payload < 0x40_0000 {
        0x7FC0_0000 + payload
    } else {
        0x7F80_0000 + payload
    }
}

/// Narrows a binary64 value to binary32. A NaN keeps its sign and the high
/// bits of its payload and is made quiet.
pub fn from_f64(wide: u64) -> (bits: u32)
    ensures
        narrows_to(bits, wide),
        wide_is_nan(wide) ==> is_nan(bits),
{
    let sign: u32 = if wide >= 0x8000_0000_0000_0000 {
        0x8000_0000
    } else {
        0
    };
    let mag: u64 = wide % 0x8000_0000_0000_0000;
    let k: u32 = if mag > 0x7FF0_0000_0000_0000 {
        quiet_nan(mag)
    } else {
        round_wide(mag)
    };
    assert(magnitude((sign + k) as u32) == k);
    sign + k
}

/// The same number with the opposite sign.
pub fn negated(bits: u32) -> (flipped: u32)
    ensures
        magnitude(flipped) == magnitude(bits),
        is_negative(flipped) != is_negative(bits),
{
    if bits >= 0x8000_0000 {
        bits - 0x8000_0000
    } else {
        bits + 0x8000_0000
    }
}

/// Whether two patterns denote equal numbers: neither is a NaN, and they
/// are the same pattern or both zeros.
pub open spec fn equal_numbers(a: u32, b: u32) -> bool {
    &&& !is_nan(a)
    &&& !is_nan(b)
    &&& (a == b || (magnitude(a) == 0 && magnitude(b) == 0))
}

/// Compares two patterns as numbers.
pub fn same_number(a: u32, b: u32) -> (same: bool)
    ensures
        same == equal_numbers(a, b),
{
    let ma: u32 = a % 0x8000_0000;
    let mb: u32 = b % 0x8000_0000;
    ma <= 0x7F80_0000 && mb <= 0x7F80_0000 && (a == b || (ma == 0 && mb == 0))
}

/// The size of a signed level.
pub open spec fn level_size(level: int) -> nat {
    if level < 0 {
        (-level) as nat
    } else {
        level as nat
    }
}

/// `bits` is a tenth of `level` as binary32 arithmetic computes it: the
/// level is rounded to binary32, and that value, divided by ten, is rounded
/// again. The sign is that of the level.
pub open spec fn is_tenth_of(bits: u32, level: int) -> bool {
    &&& is_negative(bits) == (level < 0)
    &&& exists|whole: nat| #[trigger]
        rounds_to(whole, level_size(level) * pow2(149), 1) && rounds_to(
            magnitude(bits),
            grid(whole),
            10,
        )
}

/// The tenth of a level.
pub open spec fn tenth_of(level: int) -> u32 {
    choose|bits: u32| is_tenth_of(bits, level)
}

/// Two patterns that are a tenth of the same level through the given
/// intermediate values are the same pattern.
proof fn lemma_tenths_agree(a: u32, b: u32, wa: nat, wb: nat, num: nat)
    requires
        is_negative(a) == is_negative(b),
        rounds_to(wa, num, 1),
        rounds_to(wb, num, 1),
        rounds_to(magnitude(a), grid(wa), 10),
        rounds_to(magnitude(b), grid(wb), 10),
    ensures
        a == b,
{
    lemma_rounds_to_unique(wa, wb, num, 1);
    lemma_rounds_to_unique(magnitude(a), magnitude(b), grid(wa), 10);
}

/// The intermediate value through which a pattern is a tenth of a level.
spec fn whole_of(bits: u32, level: int) -> nat {
    choose|whole: nat| #[trigger]
        rounds_to(whole, level_size(level) * pow2(149), 1) && rounds_to(
            magnitude(bits),
            grid(whole),
            10,
        )
}

/// A level has one tenth only.
pub proof fn lemma_tenth_is_determined(a: u32, b: u32, level: int)
    requires
        is_tenth_of(a, level),
        is_tenth_of(b, level),
    ensures
        a == b,
        a == tenth_of(level),
{
    let num = level_size(level) * pow2(149);
    lemma_tenths_agree(a, b, whole_of(a, level), whole_of(b, level), num);
    let c = tenth_of(level);
    assert(is_tenth_of(c, level));
    lemma_tenths_agree(a, c, whole_of(a, level), whole_of(c, level), num);
}

/// A positive integer rounds to one or more.
proof fn lemma_positive_integers_reach_one(k: nat, value: nat)
    requires
        value >= 1,
        rounds_to(k, value * pow2(149), 1),
    ensures
        k >= 0x3F80_0000,
{
    if k < 0x3F80_0000 {
        let one: nat = 0x3F80_0000;
        lemma2_to64();
        assert(one / 0x80_0000 == 127 && one % 0x80_0000 == 0);
        lemma_pow2_adds(23, 126);
        assert(grid(one) == pow2(149));
        lemma_grid_increasing(k, k + 1);
        if k + 1 < one {
            lemma_grid_increasing(k + 1, one);
        }
        assert(2 * pow2(149) <= 2 * (value * pow2(149))) by (nonlinear_arith)
            requires
                value >= 1,
        ;
    }
}

/// Divides a binary32 magnitude of at least one by ten.
fn divide_by_ten(whole: u32) -> (k: u32)
    requires
        0x3F80_0000 <= whole < 0x7F80_0000,
    ensures
        k < 0x7F80_0000,
        rounds_to(k as nat, grid(whole as nat), 10),
{
    let e1: u32 = whole / 0x80_0000;
    let m1: u32 = 0x80_0000 + whole % 0x80_0000;
    let n: u32 = m1 * 256;
    let q: u32 = n / 10;
    let r: u32 = n % 10;
    let d: u32 = if q >= 0x1000_0000 {
        5
    } else {
        4
    };
    let unit: u32 = if q >= 0x1000_0000 {
        32
    } else {
        16
    };
    let mant: u32 = q / unit;
    let rem: u32 = q % unit;
    let k0: u32 = (d + e1 - 9) * 0x80_0000 + mant;
    let part: u32 = 10 * rem + r;
    let up: bool = 2 * part > 10 * unit || (2 * part == 10 * unit && k0 % 2 == 1);
    proof {
        lemma2_to64();
        let w = pow2((e1 - 9) as nat);
        let pe = pow2((d + e1 - 9) as nat);
        lemma_pow2_pos((e1 - 9) as nat);
        lemma_pow2_adds(d as nat, (e1 - 9) as nat);
        lemma_pow2_adds(8, (e1 - 9) as nat);
        assert(unit == pow2(d as nat));
        assert(0x80_0000 <= mant < 0x100_0000);
        assert(k0 as nat / 0x80_0000 == d + e1 - 8 && k0 as nat % 0x80_0000 == mant - 0x80_0000);
        assert(grid(k0 as nat) == mant as nat * pe);
        assert(gap(k0 as nat) == pe);
        assert(n - part == 10 * (mant * unit));
        assert((mant as nat * pe) * 10 == (n - part) as nat * w) by (nonlinear_arith)
            requires
                pe == unit * w,
                n - part == 10 * (mant * unit),
                n >= part,
        ;
        assert(pe * 10 == (10 * unit) as nat * w) by (nonlinear_arith)
            requires
                pe == unit * w,
        ;
        lemma_round_step(k0 as nat, n as nat, part as nat, (10 * unit) as nat, w, 10, up);
        assert(grid(whole as nat) == m1 as nat * pow2((e1 - 1) as nat));
        assert(n as nat * w == m1 as nat * pow2((e1 - 1) as nat)) by (nonlinear_arith)
            requires
                n == m1 * 256,
                pow2((e1 - 1) as nat) == 256 * w,
        ;
    }
    if up {
        k0 + 1
    } else {
        k0
    }
}

/// A tenth of a signed level, as binary32 arithmetic computes it from the
/// level converted to binary32.
pub fn tenth_of_level(level: i32) -> (bits: u32)
    ensures
        is_tenth_of(bits, level as int),
        bits == tenth_of(level as int),
{
    let size: u32 = if level < 0 {
        (-(level as i64)) as u32
    } else {
        level as u32
    };
    let bits: u32 = if size == 0 {
        proof {
            assert(grid(0) == 0 && grid(1) == 1);
            assert(0 * pow2(149) == 0) by (nonlinear_arith);
            assert(rounds_to(0, level_size(level as int) * pow2(149), 1));
            assert(rounds_to(0, grid(0), 10));
        }
        0
    } else {
        let whole = from_u32(size);
        proof {
            lemma_positive_integers_reach_one(whole as nat, size as nat);
        }
        let k = divide_by_ten(whole);
        assert(rounds_to(whole as nat, level_size(level as int) * pow2(149), 1) && rounds_to(
            k as nat,
            grid(whole as nat),
            10,
        ));
        if level < 0 {
            0x8000_0000 + k
        } else {
            k
        }
    };
    proof {
        assert(is_tenth_of(bits, level as int));
        lemma_tenth_is_determined(bits, bits, level as int);
    }
    bits
}

} // verus!
