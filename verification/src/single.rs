use vstd::arithmetic::power2::pow2;
use vstd::prelude::*;
use crate::gamedata::constants::{
    clip_i32,
    div_trunc,
    div_trunc_clip,
    law_division_rounds_towards_zero,
};

verus! {

/// Numbers of single precision have significands below this.
pub const SINGLE: i128 = 16_777_216;

/// Numbers of double precision have significands below this.
pub const DOUBLE: i128 = 9_007_199_254_740_992;

/// Largest magnitude that can be rounded: 2 to the power of 126, less one.
pub const ROUNDABLE: i128 = 0x3fff_ffff_ffff_ffff_ffff_ffff_ffff_ffff;

/// Largest number of binary places.
const MOST_PLACES: u32 = 90;

/// Largest denominator: 2 to the power of 90.
const LARGEST_SCALE: i128 = 0x400_0000_0000_0000_0000_0000;

/// A number of single precision: a significand with a number of binary places behind the point.
#[derive(Debug, Clone, Copy, PartialEq, Eq, Structural, Default)]
pub struct Single {
    /// The number, times 2 for every place.
    pub significand: i64,
    /// Binary places behind the point.
    pub places: u32,
}

/// Distance between neighbouring numbers at a magnitude, where significands stay below `limit`: the
/// smallest power of two with which the significand is in range.
pub open spec fn grain(x: int, limit: int) -> int
    decreases x,
{
    if x < limit || limit < 2 {
        1
    } else {
        2 * grain(x / 2, limit)
    }
}

/// How often `g` goes into `x`, rounded to the nearest integer, halves to the even one.
pub open spec fn nearest_even(x: int, g: int) -> int {
    let q = x / g;
    let r = x % g;
    if 2 * r < g || (2 * r == g && q % 2 == 0) {
        q
    } else {
        q + 1
    }
}

/// The nearest number whose significand stays below `limit`; of two that are equally near, the one
/// with the even significand.
///
/// The same holds of numbers with binary places, as both sides can be scaled by a power of two.
pub open spec fn rounded(x: int, limit: int) -> int {
    if x >= 0 {
        nearest_even(x, grain(x, limit)) * grain(x, limit)
    } else {
        -(nearest_even(-x, grain(-x, limit)) * grain(-x, limit))
    }
}

/// Rounds a magnitude.
fn round_up_from_zero(x: i128, limit: i128) -> (r: i128)
    requires
        0 <= x <= ROUNDABLE,
        limit >= 2,
    ensures
        r == rounded(x as int, limit as int),
        0 <= r <= 2 * x,
{
    let mut y: i128 = x;
    let mut g: i128 = 1;
    while y >= limit
        invariant
            limit >= 2,
            0 <= y,
            1 <= g,
            x > 0 ==> y >= 1,
            y * g <= x <= ROUNDABLE,
            g * grain(y as int, limit as int) == grain(x as int, limit as int),
        decreases y,
    {
        let ghost h = y / 2;
        let ghost rest = grain(h as int, limit as int);
        assert(g * (2 * rest) == (2 * g) * rest) by (nonlinear_arith);
        assert(h * (2 * g) <= y * g) by (nonlinear_arith)
            requires
                2 * h <= y,
                g >= 1,
        ;
        assert(2 * g <= h * (2 * g)) by (nonlinear_arith)
            requires
                h >= 1,
                g >= 1,
        ;
        y = y / 2;
        g = g * 2;
    }
    assert(grain(y as int, limit as int) == 1);
    assert(g == grain(x as int, limit as int)) by (nonlinear_arith)
        requires
            g * grain(y as int, limit as int) == grain(x as int, limit as int),
            grain(y as int, limit as int) == 1,
    ;
    let q: i128 = x / g;
    let rem: i128 = x % g;
    proof {
        vstd::arithmetic::div_mod::lemma_fundamental_div_mod(x as int, g as int);
        assert(g * q == q * g) by (nonlinear_arith);
        assert((q + 1) * g == q * g + g) by (nonlinear_arith);
        if x > 0 {
            assert(g <= x) by (nonlinear_arith)
                requires
                    y * g <= x,
                    y >= 1,
                    g >= 1,
            ;
        } else {
            assert(grain(0, limit as int) == 1);
        }
    }
    let up: bool = !(2 * rem < g || (2 * rem == g && q % 2 == 0));
    if up {
        assert((q + 1) * g <= 2 * x);
        (q + 1) * g
    } else {
        q * g
    }
}

/// Rounds a number so that its significand stays below `limit`.
pub fn round_to(x: i128, limit: i128) -> (r: i128)
    requires
        -ROUNDABLE <= x <= ROUNDABLE,
        limit >= 2,
    ensures
        r == rounded(x as int, limit as int),
        x >= 0 ==> 0 <= r <= 2 * x,
        x < 0 ==> 2 * x <= r <= 0,
{
    if x >= 0 {
        round_up_from_zero(x, limit)
    } else {
        -round_up_from_zero(-x, limit)
    }
}

proof fn lemma_scale_bound(places: nat)
    requires
        places <= MOST_PLACES,
    ensures
        1 <= pow2(places) <= LARGEST_SCALE,
{
    vstd::arithmetic::power2::lemma_pow2_pos(places);
    vstd::arithmetic::power2::lemma2_to64();
    vstd::arithmetic::power2::lemma_pow2_adds(64, 26);
    if places < 90 {
        vstd::arithmetic::power2::lemma_pow2_strictly_increases(places, 90);
    }
}

/// 2 to the power of a number of places.
fn scale(places: u32) -> (s: i128)
    requires
        places <= MOST_PLACES,
    ensures
        s == pow2(places as nat),
        1 <= s <= LARGEST_SCALE,
{
    let mut s: i128 = 1;
    let mut i: u32 = 0;
    proof {
        vstd::arithmetic::power2::lemma2_to64();
    }
    while i < places
        invariant
            i <= places <= MOST_PLACES,
            s == pow2(i as nat),
            1 <= s <= LARGEST_SCALE,
        decreases places - i,
    {
        proof {
            lemma_scale_bound((i + 1) as nat);
            vstd::arithmetic::power2::lemma_pow2_unfold((i + 1) as nat);
        }
        s = s * 2;
        i = i + 1;
    }
    s
}

proof fn lemma_floor_of_negative(a: int, d: int)
    requires
        a < 0,
        d > 0,
    ensures
        a / d == -((-a + (d - 1)) / d),
{
    let q = (-a + (d - 1)) / d;
    let r = (-a + (d - 1)) % d;
    vstd::arithmetic::div_mod::lemma_fundamental_div_mod(-a + (d - 1), d);
    assert(a == d * (-q) + (d - 1 - r)) by (nonlinear_arith)
        requires
            -a + (d - 1) == d * q + r,
    ;
    vstd::arithmetic::div_mod::lemma_fundamental_div_mod_converse(a, d, -q, d - 1 - r);
}

impl Single {
    /// The arithmetic below stays in range.
    pub open spec fn wf(self) -> bool {
        &&& -0x4000_0000_0000_0000 <= self.significand <= 0x4000_0000_0000_0000
        &&& self.places <= 90
    }

    /// By how much the significand exceeds the number.
    pub open spec fn denominator(self) -> int {
        pow2(self.places as nat) as int
    }

    /// The number with given bits: a sign, eight bits of exponent and 23 bits of fraction. Zero, and
    /// magnitudes from 2 to the power of -67 up to 2 to the power of 62, can be held.
    pub open spec fn of_bits(bits: u32) -> Option<Single> {
        let exponent = (bits / 0x80_0000) as int % 256;
        let fraction = (bits % 0x80_0000) as int;
        let whole = 0x80_0000 + fraction;
        let magnitude = if exponent < 150 {
            whole
        } else {
            whole * pow2((exponent - 150) as nat)
        };
        let signed = if bits >= 0x8000_0000 {
            -magnitude
        } else {
            magnitude
        };
        if exponent == 0 && fraction == 0 {
            Some(Single { significand: 0, places: 0 })
        } else if 60 <= exponent <= 188 {
            Some(
                Single {
                    significand: signed as i64,
                    places: if exponent < 150 {
                        (150 - exponent) as u32
                    } else {
                        0
                    },
                },
            )
        } else {
            None
        }
    }

    /// The number with given bits, if it can be held.
    pub fn from_bits(bits: u32) -> (r: Option<Single>)
        ensures
            r == Single::of_bits(bits),
            r matches Some(s) ==> s.wf(),
    {
        let exponent: u32 = (bits / 0x80_0000) % 256;
        let fraction: i64 = (bits % 0x80_0000) as i64;
        let negative: bool = bits >= 0x8000_0000;
        if exponent == 0 && fraction == 0 {
            return Some(Single { significand: 0, places: 0 });
        }
        if exponent < 60 || exponent > 188 {
            return None;
        }
        let whole: i64 = 0x80_0000 + fraction;
        if exponent < 150 {
            let significand: i64 = if negative {
                -whole
            } else {
                whole
            };
            return Some(Single { significand, places: 150 - exponent });
        }
        let shift: u32 = exponent - 150;
        let s: i128 = scale(shift);
        proof {
            vstd::arithmetic::power2::lemma2_to64();
            vstd::arithmetic::power2::lemma_pow2_adds(32, 6);
            if shift < 38 {
                vstd::arithmetic::power2::lemma_pow2_strictly_increases(shift as nat, 38);
            }
            assert(0 <= whole * s <= 0x100_0000 * 0x40_0000_0000) by (nonlinear_arith)
                requires
                    0 <= whole <= 0x100_0000,
                    1 <= s <= 0x40_0000_0000,
            ;
        }
        let up: i64 = (whole as i128 * s) as i64;
        let significand: i64 = if negative {
            -up
        } else {
            up
        };
        Some(Single { significand, places: 0 })
    }

    /// An integer, converted to single precision, times this number; the result has as many binary
    /// places as this number.
    pub open spec fn times(self, n: int) -> int {
        rounded(rounded(n, SINGLE as int) * self.significand, SINGLE as int)
    }

    /// The product, as an integer: rounded towards zero and clipped to the range of machine
    /// integers.
    pub open spec fn times_trunc(self, n: int) -> int {
        clip_i32(div_trunc(self.times(n), self.denominator()))
    }

    /// The product, added to another integer in single precision, as an integer: rounded down and
    /// clipped to the range of machine integers.
    pub open spec fn times_plus_floor(self, n: int, add: int) -> int {
        clip_i32(
            rounded(
                rounded(add, SINGLE as int) * self.denominator() + self.times(n),
                SINGLE as int,
            ) / self.denominator(),
        )
    }

    /// The product with an integer, before the binary places are dropped.
    fn product(self, n: i32) -> (p: i128)
        requires
            self.wf(),
        ensures
            p == self.times(n as int),
            -0x1_0000_0000_0000_0000_0000_0000 <= p <= 0x1_0000_0000_0000_0000_0000_0000,
    {
        let single: i128 = round_to(n as i128, SINGLE);
        let s: i128 = self.significand as i128;
        assert(-0x8000_0000_0000_0000_0000_0000 <= single * s <= 0x8000_0000_0000_0000_0000_0000)
            by (nonlinear_arith)
            requires
                -0x1_0000_0000 <= single <= 0x1_0000_0000,
                -0x4000_0000_0000_0000 <= s <= 0x4000_0000_0000_0000,
        ;
        round_to(single * s, SINGLE)
    }

    /// The product with an integer, rounded towards zero.
    pub fn mul_trunc(self, n: i32) -> (r: i32)
        requires
            self.wf(),
        ensures
            r == self.times_trunc(n as int),
    {
        div_trunc_clip(self.product(n), scale(self.places))
    }

    /// The product with an integer, added to another integer, rounded down.
    pub fn mul_add_floor(self, n: i32, add: i32) -> (r: i32)
        requires
            self.wf(),
        ensures
            r == self.times_plus_floor(n as int, add as int),
    {
        let d: i128 = scale(self.places);
        let p: i128 = self.product(n);
        let a: i128 = round_to(add as i128, SINGLE);
        assert(-0x1_0000_0000 * LARGEST_SCALE <= a * d <= 0x1_0000_0000 * LARGEST_SCALE)
            by (nonlinear_arith)
            requires
                -0x1_0000_0000 <= a <= 0x1_0000_0000,
                1 <= d <= LARGEST_SCALE,
        ;
        let sum: i128 = round_to(a * d + p, SINGLE);
        let q: i128 = if sum >= 0 {
            sum / d
        } else {
            -((-sum + (d - 1)) / d)
        };
        proof {
            if sum < 0 {
                lemma_floor_of_negative(sum as int, d as int);
            }
        }
        if q > i32::MAX as i128 {
            i32::MAX
        } else if q < i32::MIN as i128 {
            i32::MIN
        } else {
            q as i32
        }
    }
}

/// An integer times 0.37 in double precision, rounded towards zero.
pub open spec fn scaled_score(n: int) -> int {
    div_trunc(rounded(n * 3_332_663_724_254_167, DOUBLE as int), DOUBLE as int)
}

/// An integer times 0.37 in double precision, rounded towards zero.
///
/// The number of double precision nearest to 0.37 is 3332663724254167 over 2 to the power of 53.
pub fn scale_score(n: i32) -> (r: i32)
    ensures
        r == scaled_score(n as int),
{
    let p: i128 = round_to(n as i128 * 3_332_663_724_254_167, DOUBLE);
    assert(-0x8000_0000 <= div_trunc(p as int, DOUBLE as int) <= 0x7fff_ffff);
    div_trunc_clip(p, DOUBLE)
}

/// The grain of a number is one below the limit; beyond it, it is the step at which the number has
/// fewer than the limit's steps but at least half as many.
pub proof fn law_grain_fits_the_number(x: int, limit: int)
    requires
        0 <= x,
        limit >= 2,
    ensures
        grain(x, limit) >= 1,
        x < limit ==> grain(x, limit) == 1,
        x < grain(x, limit) * limit,
        grain(x, limit) > 1 ==> grain(x, limit) * limit <= 2 * x,
    decreases x,
{
    if x >= limit {
        law_grain_fits_the_number(x / 2, limit);
        let h = grain(x / 2, limit);
        assert((2 * h) * limit == 2 * (h * limit)) by (nonlinear_arith);
        assert(x < 2 * (h * limit)) by {
            assert(x / 2 + 1 <= h * limit);
        }
        if h == 1 {
            assert(h * limit == limit);
        }
    }
}

/// Rounding keeps every number whose size is below the limit, treats both signs alike, and moves no
/// number by more than half its grain.
pub proof fn law_rounding_is_to_the_nearest(x: int, limit: int)
    requires
        limit >= 2,
    ensures
        -limit < x < limit ==> rounded(x, limit) == x,
        x != 0 ==> rounded(-x, limit) == -rounded(x, limit),
        x >= 0 ==> -grain(x, limit) <= 2 * (rounded(x, limit) - x) <= grain(x, limit),
        x >= 0 ==> rounded(x, limit) % grain(x, limit) == 0,
{
    let m = if x >= 0 {
        x
    } else {
        -x
    };
    law_grain_fits_the_number(m, limit);
    let g = grain(m, limit);
    let q = m / g;
    let r = m % g;
    vstd::arithmetic::div_mod::lemma_fundamental_div_mod(m, g);
    vstd::arithmetic::div_mod::lemma_mod_bound(m, g);
    assert(g * q == q * g) by (nonlinear_arith);
    assert((q + 1) * g == q * g + g) by (nonlinear_arith);
    let k = nearest_even(m, g);
    assert(k * g == q * g || k * g == q * g + g);
    vstd::arithmetic::div_mod::lemma_mod_multiples_basic(k, g);
    if m < limit {
        assert(g == 1);
        assert(m % 1 == 0 && m / 1 == m);
        assert(k * 1 == k);
    }
}

/// A number half way between two multiples of its grain goes to the even one.
pub proof fn law_halves_go_to_the_even(x: int, limit: int, k: int)
    requires
        limit >= 2,
        x >= 0,
        2 * x == (2 * k + 1) * grain(x, limit),
    ensures
        k % 2 == 0 ==> rounded(x, limit) == k * grain(x, limit),
        k % 2 == 1 ==> rounded(x, limit) == (k + 1) * grain(x, limit),
{
    law_grain_fits_the_number(x, limit);
    let g = grain(x, limit);
    assert((2 * k + 1) * g == 2 * (k * g) + g) by (nonlinear_arith);
    let r = x - k * g;
    assert(2 * r == g);
    assert(g * k == k * g) by (nonlinear_arith);
    vstd::arithmetic::div_mod::lemma_fundamental_div_mod_converse(x, g, k, r);
}

/// With a whole rate and small numbers the product is exact.
pub proof fn law_whole_rates_multiply_exactly(rate: Single, n: int)
    requires
        rate.places == 0,
        -16_777_216 < n < 16_777_216,
        -16_777_216 < n * rate.significand < 16_777_216,
    ensures
        rate.times_trunc(n) == n * rate.significand,
{
    law_rounding_is_to_the_nearest(n, SINGLE as int);
    law_rounding_is_to_the_nearest(n * rate.significand, SINGLE as int);
    vstd::arithmetic::power2::lemma2_to64();
    assert(pow2(0) == 1);
    let p = n * rate.significand;
    assert(p / 1 == p && (-p) / 1 == -p);
}

/// With a rate that has binary places, small products are exact and come out rounded towards zero.
pub proof fn law_rates_divide_towards_zero(rate: Single, n: int)
    requires
        rate.wf(),
        -16_777_216 < n < 16_777_216,
        -16_777_216 < n * rate.significand < 16_777_216,
        n * rate.significand >= 0,
    ensures
        rate.times_trunc(n) * pow2(rate.places as nat) <= n * rate.significand,
        n * rate.significand < rate.times_trunc(n) * pow2(rate.places as nat) + pow2(
            rate.places as nat,
        ),
{
    law_rounding_is_to_the_nearest(n, SINGLE as int);
    law_rounding_is_to_the_nearest(n * rate.significand, SINGLE as int);
    let d = rate.denominator();
    vstd::arithmetic::power2::lemma_pow2_pos(rate.places as nat);
    let p = n * rate.significand;
    law_division_rounds_towards_zero(p, d);
    let q = div_trunc(p, d);
    assert(q <= p) by (nonlinear_arith)
        requires
            q * d <= p,
            d >= 1,
            p >= 0,
    ;
    assert(q >= 0) by (nonlinear_arith)
        requires
            0 <= q * d,
            d >= 1,
    ;
}

/// Skill points alone count as they are where no hint level is worth anything, as long as they are few
/// enough to be exact.
pub proof fn law_nothing_added_changes_nothing(rate: Single, add: int)
    requires
        rate.wf(),
        rate.places == 0,
        -16_777_216 < add < 16_777_216,
    ensures
        rate.times_plus_floor(0, add) == add,
{
    law_rounding_is_to_the_nearest(0, SINGLE as int);
    law_rounding_is_to_the_nearest(add, SINGLE as int);
    assert(0 * rate.significand == 0) by (nonlinear_arith);
    vstd::arithmetic::power2::lemma2_to64();
    assert(pow2(0) == 1);
    assert(rounded(add, SINGLE as int) * 1 == add);
    assert(add / 1 == add);
}

/// The scale of the score that favours skill points is thirty-seven hundredths, rounded towards zero.
pub proof fn law_score_scale(n: int)
    requires
        0 <= n <= 0x7fff_ffff,
    ensures
        100 * scaled_score(n) <= 37 * n,
        37 * n < 100 * scaled_score(n) + 101,
{
    let c: int = 3_332_663_724_254_167;
    let d: int = 9_007_199_254_740_992;
    let x = n * c;
    assert(0 <= x <= 0x7fff_ffff * c) by (nonlinear_arith)
        requires
            x == n * c,
            0 <= n <= 0x7fff_ffff,
            c == 3_332_663_724_254_167,
    ;
    law_grain_fits_the_number(x, d);
    law_rounding_is_to_the_nearest(x, d);
    let g = grain(x, d);
    assert(g <= 0x1_0000_0000) by (nonlinear_arith)
        requires
            g >= 1,
            g > 1 ==> g * d <= 2 * x,
            x <= 0x7fff_ffff * c,
            c == 3_332_663_724_254_167,
            d == 9_007_199_254_740_992,
    ;
    let r = rounded(x, d);
    assert(x - 0x8000_0000 <= r <= x + 0x8000_0000);
    assert(100 * x == 37 * n * d - 4 * n) by (nonlinear_arith)
        requires
            x == n * c,
            c == 3_332_663_724_254_167,
            d == 9_007_199_254_740_992,
    ;
    if r >= 0 {
        vstd::arithmetic::div_mod::lemma_fundamental_div_mod(r, d);
        vstd::arithmetic::div_mod::lemma_mod_bound(r, d);
        let q = r / d;
        assert(100 * q <= 37 * n && 37 * n < 100 * q + 101) by (nonlinear_arith)
            requires
                d * q <= r < d * q + d,
                x - 0x8000_0000 <= r <= x + 0x8000_0000,
                100 * x == 37 * n * d - 4 * n,
                0 <= n <= 0x7fff_ffff,
                d == 9_007_199_254_740_992,
        ;
    } else {
        assert(nearest_even(x, g) >= 0);
        assert(nearest_even(x, g) * g >= 0) by (nonlinear_arith)
            requires
                nearest_even(x, g) >= 0,
                g >= 1,
        ;
    }
}

/// With a whole rate and small numbers the product and the sum are exact.
pub proof fn law_whole_rates_add_exactly(rate: Single, n: int, add: int)
    requires
        rate.places == 0,
        -16_777_216 < n < 16_777_216,
        -16_777_216 < n * rate.significand < 16_777_216,
        -16_777_216 < add < 16_777_216,
        -16_777_216 < add + n * rate.significand < 16_777_216,
    ensures
        rate.times_plus_floor(n, add) == add + n * rate.significand,
{
    let p = n * rate.significand;
    law_rounding_is_to_the_nearest(n, SINGLE as int);
    law_rounding_is_to_the_nearest(p, SINGLE as int);
    law_rounding_is_to_the_nearest(add, SINGLE as int);
    law_rounding_is_to_the_nearest(add + p, SINGLE as int);
    vstd::arithmetic::power2::lemma2_to64();
    assert(pow2(0) == 1);
    assert(rounded(add, SINGLE as int) * 1 == add);
    assert((add + p) / 1 == add + p);
}

/// The bits of a number in single precision: a sign, eight bits of exponent and twenty-three of
/// fraction, behind a leading one; the exponent counts from a hundred and fifty for whole numbers.
pub proof fn law_bits_of_a_number(negative: bool, exponent: int, fraction: int, bits: u32)
    requires
        0 <= fraction < 0x80_0000,
        0 <= exponent < 256,
        bits == (if negative {
            0x8000_0000int
        } else {
            0
        }) + exponent * 0x80_0000 + fraction,
    ensures
        60 <= exponent < 150 ==> (Single::of_bits(bits) matches Some(s) && s.places == 150 - exponent
            && s.significand == if negative {
            -(0x80_0000 + fraction)
        } else {
            0x80_0000 + fraction
        }),
        exponent == 150 ==> (Single::of_bits(bits) matches Some(s) && s.places == 0 && s.significand
            == if negative {
            -(0x80_0000 + fraction)
        } else {
            0x80_0000 + fraction
        }),
        exponent == 151 ==> (Single::of_bits(bits) matches Some(s) && s.places == 0 && s.significand
            == if negative {
            -2 * (0x80_0000 + fraction)
        } else {
            2 * (0x80_0000 + fraction)
        }),
        exponent == 0 && fraction == 0 ==> Single::of_bits(bits) == Some(
            Single { significand: 0, places: 0 },
        ),
        (exponent < 60 && !(exponent == 0 && fraction == 0)) || exponent > 188 ==> Single::of_bits(
            bits,
        ) is None,
{
    let high = (if negative {
        256int
    } else {
        0
    }) + exponent;
    assert(bits == high * 0x80_0000 + fraction);
    vstd::arithmetic::div_mod::lemma_fundamental_div_mod_converse(
        bits as int,
        0x80_0000,
        high,
        fraction,
    );
    assert(high % 256 == exponent);
    vstd::arithmetic::power2::lemma2_to64();
    assert(pow2(0) == 1 && pow2(1) == 2);
    assert((0x80_0000 + fraction) * 1 == 0x80_0000 + fraction);
    assert((0x80_0000 + fraction) * pow2(1) == 2 * (0x80_0000 + fraction)) by (nonlinear_arith)
        requires
            pow2(1) == 2,
    ;
}

} // verus!
