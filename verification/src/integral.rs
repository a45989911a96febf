//! Rounding binary32 values to whole numbers, and whole numbers to
//! binary32, on bit patterns.

use crate::float32::{
    from_u32, grid, is_nan, is_negative, lemma_grid_increasing, magnitude, power_of_two, rounds_to,
};
use vstd::arithmetic::div_mod::{
    lemma_fundamental_div_mod, lemma_mod_multiples_basic, lemma_mod_multiples_vanish,
};
use vstd::arithmetic::power2::{
    lemma2_to64, lemma_pow2_adds, lemma_pow2_pos, lemma_pow2_unfold, pow2,
};
use vstd::prelude::*;

verus! {

/// Whether the value of magnitude `k` is a whole number: a multiple of
/// 2^149 units of 2^-149.
pub open spec fn is_integral(k: nat) -> bool {
    grid(k) % pow2(149) == 0
}

/// `t` is magnitude `k` with its fraction cut off: the whole number that
/// lies less than one below it, or `k` itself.
pub open spec fn cuts_to(t: nat, k: nat) -> bool {
    t <= k && is_integral(t) && grid(k) - grid(t) < pow2(149)
}

/// `r` is magnitude `k` lifted to the next whole number: the one that lies
/// less than one above it, or `k` itself.
pub open spec fn lifts_to(r: nat, k: nat) -> bool {
    k <= r && is_integral(r) && grid(r) - grid(k) < pow2(149)
}

/// `c` is the least whole number that is not below `x`. A NaN stays as it
/// is, and the sign is kept even where the result is zero.
pub open spec fn is_ceil_of(c: u32, x: u32) -> bool {
    if is_nan(x) {
        c == x
    } else {
        &&& is_negative(c) == is_negative(x)
        &&& if is_negative(x) {
            cuts_to(magnitude(c), magnitude(x))
        } else {
            lifts_to(magnitude(c), magnitude(x))
        }
    }
}

/// `f` is the greatest whole number that is not above `x`. A NaN stays as
/// it is, and the sign is kept even where the result is zero.
pub open spec fn is_floor_of(f: u32, x: u32) -> bool {
    if is_nan(x) {
        f == x
    } else {
        &&& is_negative(f) == is_negative(x)
        &&& if is_negative(x) {
            lifts_to(magnitude(f), magnitude(x))
        } else {
            cuts_to(magnitude(f), magnitude(x))
        }
    }
}

/// `bits` is the binary32 value nearest to a signed integer, ties to even.
pub open spec fn is_nearest_to(bits: u32, value: int) -> bool {
    &&& is_negative(bits) == (value < 0)
    &&& rounds_to(
        magnitude(bits),
        (if value < 0 {
            -value
        } else {
            value
        }) as nat * pow2(149),
        1,
    )
}

/// Two different whole numbers lie at least one apart.
proof fn lemma_whole_numbers_are_apart(a: nat, b: nat)
    requires
        a < b,
        is_integral(a),
        is_integral(b),
    ensures
        grid(b) - grid(a) >= pow2(149),
{
    let one = pow2(149);
    lemma_pow2_pos(149);
    lemma_grid_increasing(a, b);
    lemma_fundamental_div_mod(grid(a) as int, one as int);
    lemma_fundamental_div_mod(grid(b) as int, one as int);
    let qa = grid(a) as int / one as int;
    let qb = grid(b) as int / one as int;
    assert(one * qb - one * qa >= one) by (nonlinear_arith)
        requires
            one * qa < one * qb,
            one > 0,
    ;
}

/// A magnitude has one cut and one lift only.
pub proof fn lemma_cut_and_lift_are_determined(a: nat, b: nat, k: nat)
    ensures
        cuts_to(a, k) && cuts_to(b, k) ==> a == b,
        lifts_to(a, k) && lifts_to(b, k) ==> a == b,
{
    if cuts_to(a, k) && cuts_to(b, k) && a != b {
        let (low, high) = if a < b {
            (a, b)
        } else {
            (b, a)
        };
        lemma_whole_numbers_are_apart(low, high);
        if high < k {
            lemma_grid_increasing(high, k);
        }
    }
    if lifts_to(a, k) && lifts_to(b, k) && a != b {
        let (low, high) = if a < b {
            (a, b)
        } else {
            (b, a)
        };
        lemma_whole_numbers_are_apart(low, high);
        if k < low {
            lemma_grid_increasing(k, low);
        }
    }
}

/// The value one is 2^149 units.
proof fn lemma_grid_of_one()
    ensures
        grid(0x3F80_0000) == pow2(149),
        grid(0) == 0,
        pow2(149) > 0,
        is_integral(0),
        is_integral(0x3F80_0000),
{
    let one: nat = 0x3F80_0000;
    lemma2_to64();
    assert(one / 0x80_0000 == 127 && one % 0x80_0000 == 0);
    lemma_pow2_adds(23, 126);
    lemma_pow2_pos(149);
    lemma_mod_multiples_basic(0, pow2(149) as int);
    lemma_mod_multiples_basic(1, pow2(149) as int);
    assert(grid(0) == 0);
}

/// From the exponent at which the gap reaches one, every value is whole.
proof fn lemma_large_is_integral(k: nat)
    requires
        k / 0x80_0000 >= 150,
    ensures
        is_integral(k),
        pow2(149) > 0,
{
    let e = k / 0x80_0000;
    let f = k % 0x80_0000;
    let high = pow2((e - 150) as nat);
    let unit = pow2(149);
    lemma_pow2_adds((e - 150) as nat, 149);
    lemma_pow2_pos(149);
    assert(grid(k) == ((0x80_0000 + f) * high) * unit) by (nonlinear_arith)
        requires
            grid(k) == (0x80_0000 + f) * pow2((e - 1) as nat),
            pow2((e - 1) as nat) == high * unit,
    ;
    lemma_mod_multiples_basic(((0x80_0000 + f) * high) as int, unit as int);
}

/// Splits a magnitude between one and 2^23 into its whole part and its
/// fraction.
proof fn lemma_fraction_split(k: nat)
    requires
        127 <= k / 0x80_0000 <= 149,
    ensures
        ({
            let e = k / 0x80_0000;
            let unit = pow2((150 - e) as nat);
            let fl = k % unit;
            let t = (k - fl) as nat;
            &&& 0 < unit <= 0x80_0000
            &&& pow2(149) > 0
            &&& fl <= k
            &&& is_integral(t)
            &&& grid(t) <= grid(k) < grid(t) + pow2(149)
            &&& (fl == 0 <==> grid(k) == grid(t))
            &&& grid(t + unit) == grid(t) + pow2(149)
        }),
{
    let e = k / 0x80_0000;
    let f = k % 0x80_0000;
    let fb = (150 - e) as nat;
    let unit = pow2(fb);
    let rest = pow2((23 - fb) as nat);
    let pe = pow2((e - 1) as nat);
    let one = pow2(149);
    lemma2_to64();
    lemma_pow2_pos(fb);
    lemma_pow2_pos((23 - fb) as nat);
    lemma_pow2_pos((e - 1) as nat);
    lemma_pow2_pos(149);
    lemma_pow2_adds(fb, (23 - fb) as nat);
    lemma_pow2_adds(fb, (e - 1) as nat);
    assert(unit * rest == 0x80_0000);
    assert(unit * pe == one);
    assert(unit <= 0x80_0000) by (nonlinear_arith)
        requires
            unit * rest == 0x80_0000,
            rest >= 1,
            unit >= 1,
    ;
    assert(k == unit * (rest * e) + f) by (nonlinear_arith)
        requires
            k == 0x80_0000 * e + f,
            unit * rest == 0x80_0000,
    ;
    lemma_mod_multiples_vanish((rest * e) as int, f as int, unit as int);
    let fl = k % unit;
    assert(fl == f % unit);
    let fh = f / unit;
    lemma_fundamental_div_mod(f as int, unit as int);
    assert(f == unit * fh + fl);
    assert(fh < rest) by (nonlinear_arith)
        requires
            f == unit * fh + fl,
            f < 0x80_0000,
            unit * rest == 0x80_0000,
            unit > 0,
            fl >= 0,
    ;
    let t = (k - fl) as nat;
    assert(t == 0x80_0000 * e + (f - fl));
    assert(t / 0x80_0000 == e && t % 0x80_0000 == f - fl);
    assert(0x80_0000 + (f - fl) == unit * (rest + fh)) by (nonlinear_arith)
        requires
            f == unit * fh + fl,
            unit * rest == 0x80_0000,
    ;
    assert(grid(t) == (rest + fh) * one) by (nonlinear_arith)
        requires
            grid(t) == (0x80_0000 + (f - fl)) * pe,
            0x80_0000 + (f - fl) == unit * (rest + fh),
            unit * pe == one,
    ;
    lemma_mod_multiples_basic((rest + fh) as int, one as int);
    assert(grid(k) == grid(t) + fl * pe) by (nonlinear_arith)
        requires
            grid(k) == (0x80_0000 + f) * pe,
            grid(t) == (0x80_0000 + (f - fl)) * pe,
            fl <= f,
    ;
    assert(fl * pe < one && (fl == 0 <==> fl * pe == 0)) by (nonlinear_arith)
        requires
            fl < unit,
            pe > 0,
            unit * pe == one,
    ;
    let above = t + unit;
    if f - fl + unit < 0x80_0000 {
        assert(above == 0x80_0000 * e + (f - fl + unit));
        assert(above / 0x80_0000 == e && above % 0x80_0000 == f - fl + unit);
        assert(grid(above) == grid(t) + one) by (nonlinear_arith)
            requires
                grid(above) == (0x80_0000 + (f - fl + unit)) * pe,
                grid(t) == (0x80_0000 + (f - fl)) * pe,
                unit * pe == one,
        ;
    } else {
        assert(f - fl + unit == 0x80_0000) by (nonlinear_arith)
            requires
                f - fl == unit * fh,
                fh < rest,
                unit * rest == 0x80_0000,
                f - fl + unit >= 0x80_0000,
        ;
        assert(above == 0x80_0000 * (e + 1));
        assert(above / 0x80_0000 == e + 1 && above % 0x80_0000 == 0);
        lemma_pow2_unfold(e);
        assert(grid(above) == grid(t) + one) by (nonlinear_arith)
            requires
                grid(above) == (0x80_0000 + 0) * pow2(e),
                pow2(e) == 2 * pe,
                grid(t) == (0x80_0000 + (f - fl)) * pe,
                f - fl + unit == 0x80_0000,
                unit * pe == one,
        ;
    }
}

/// Cuts the fraction off a magnitude.
fn cut_magnitude(k: u32) -> (t: u32)
    requires
        k <= 0x7F80_0000,
    ensures
        t <= k,
        cuts_to(t as nat, k as nat),
{
    let e: u32 = k / 0x80_0000;
    if e < 127 {
        proof {
            lemma_grid_of_one();
            lemma_grid_increasing(k as nat, 0x3F80_0000);
        }
        0
    } else if e >= 150 {
        proof {
            lemma_large_is_integral(k as nat);
        }
        k
    } else {
        proof {
            lemma_fraction_split(k as nat);
        }
        let unit: u32 = power_of_two(150 - e) as u32;
        k - k % unit
    }
}

/// Lifts a magnitude to the next whole number.
fn lift_magnitude(k: u32) -> (r: u32)
    requires
        k <= 0x7F80_0000,
    ensures
        r <= 0x7F80_0000,
        lifts_to(r as nat, k as nat),
{
    let e: u32 = k / 0x80_0000;
    if k == 0 {
        proof {
            lemma_grid_of_one();
        }
        0
    } else if e < 127 {
        proof {
            lemma_grid_of_one();
            lemma_grid_increasing(0, k as nat);
            assert(grid(0) == 0);
        }
        0x3F80_0000
    } else if e >= 150 {
        proof {
            lemma_large_is_integral(k as nat);
        }
        k
    } else {
        proof {
            lemma_fraction_split(k as nat);
        }
        let unit: u32 = power_of_two(150 - e) as u32;
        let fl: u32 = k % unit;
        if fl == 0 {
            k
        } else {
            proof {
                let one = pow2(149);
                let t = (k - fl) as nat;
                lemma_pow2_pos(149);
                vstd::arithmetic::div_mod::lemma_mod_add_multiples_vanish(
                    grid(t) as int,
                    one as int,
                );
            }
            k - fl + unit
        }
    }
}

/// The least whole number that is not below `bits`.
pub fn ceil(bits: u32) -> (c: u32)
    ensures
        is_ceil_of(c, bits),
{
    let mag: u32 = bits % 0x8000_0000;
    if mag > 0x7F80_0000 {
        bits
    } else if bits >= 0x8000_0000 {
        0x8000_0000 + cut_magnitude(mag)
    } else {
        lift_magnitude(mag)
    }
}

/// The greatest whole number that is not above `bits`.
pub fn floor(bits: u32) -> (f: u32)
    ensures
        is_floor_of(f, bits),
{
    let mag: u32 = bits % 0x8000_0000;
    if mag > 0x7F80_0000 {
        bits
    } else if bits >= 0x8000_0000 {
        0x8000_0000 + lift_magnitude(mag)
    } else {
        cut_magnitude(mag)
    }
}

/// The binary32 value nearest to a signed integer, ties to even.
pub fn from_i32(value: i32) -> (bits: u32)
    ensures
        is_nearest_to(bits, value as int),
{
    let size: u32 = if value < 0 {
        (-(value as i64)) as u32
    } else {
        value as u32
    };
    let mag: u32 = from_u32(size);
    let bits: u32 = if value < 0 {
        0x8000_0000 + mag
    } else {
        mag
    };
    assert(magnitude(bits) == mag);
    bits
}

} // verus!
