//! Single precision values as their 32 bit patterns: the sign is bit 31, and
//! patterns of one sign are ordered like the magnitudes they stand for.
use vstd::arithmetic::power2::{lemma_pow2_pos, lemma_pow2_unfold, pow2};
use vstd::prelude::*;
use crate::quantities::HZ_50;

verus! {

/// Neither an infinity nor a NaN.
pub open spec fn finite(bits: u32) -> bool {
    bits % 0x8000_0000 < 0x7f80_0000
}

/// One of the two zeros.
pub open spec fn zero(bits: u32) -> bool {
    bits % 0x8000_0000 == 0
}

/// Greater than zero; a NaN is not.
pub open spec fn positive(bits: u32) -> bool {
    0 < bits <= 0x7f80_0000
}

/// Less than zero; a NaN is not.
pub open spec fn negative(bits: u32) -> bool {
    0x8000_0000 < bits <= 0xff80_0000
}

/// At least zero, either zero belonging; a NaN is not.
pub open spec fn at_least_zero(bits: u32) -> bool {
    bits <= 0x7f80_0000 || bits == 0x8000_0000
}

/// Within zero and the nonnegative value of pattern `high`; both ends belong.
pub open spec fn from_zero_to(bits: u32, high: u32) -> bool {
    bits <= high || bits == 0x8000_0000
}

/// The value with its sign flipped.
pub open spec fn negated(bits: u32) -> u32 {
    if bits < 0x8000_0000 {
        (bits + 0x8000_0000) as u32
    } else {
        (bits - 0x8000_0000) as u32
    }
}

/// The value with its sign flipped.
pub fn negate(bits: u32) -> (r: u32)
    ensures
        r == negated(bits),
{
    if bits < 0x8000_0000 {
        bits + 0x8000_0000
    } else {
        bits - 0x8000_0000
    }
}

pub fn is_finite(bits: u32) -> (r: bool)
    ensures
        r == finite(bits),
{
    bits % 0x8000_0000 < 0x7f80_0000
}

pub fn is_zero(bits: u32) -> (r: bool)
    ensures
        r == zero(bits),
{
    bits % 0x8000_0000 == 0
}

pub fn is_positive(bits: u32) -> (r: bool)
    ensures
        r == positive(bits),
{
    0 < bits && bits <= 0x7f80_0000
}

pub fn is_negative(bits: u32) -> (r: bool)
    ensures
        r == negative(bits),
{
    0x8000_0000 < bits && bits <= 0xff80_0000
}

pub fn is_at_least_zero(bits: u32) -> (r: bool)
    ensures
        r == at_least_zero(bits),
{
    bits <= 0x7f80_0000 || bits == 0x8000_0000
}

pub fn is_from_zero_to(bits: u32, high: u32) -> (r: bool)
    ensures
        r == from_zero_to(bits, high),
{
    bits <= high || bits == 0x8000_0000
}

// ---------------------------------------------------------------------------
// Differences
// ---------------------------------------------------------------------------

/// The exponent field, where subnormal values count like the smallest normal.
pub open spec fn exponent(bits: u32) -> nat {
    if bits / 0x80_0000 == 0 {
        1
    } else {
        (bits / 0x80_0000) as nat
    }
}

/// The significand as an integer.
pub open spec fn significand(bits: u32) -> nat {
    if bits / 0x80_0000 == 0 {
        (bits % 0x80_0000) as nat
    } else {
        (bits % 0x80_0000 + 0x80_0000) as nat
    }
}

/// The value of a finite pattern with sign zero, in units of the smallest
/// subnormal value, which is two to the power of minus 149.
pub open spec fn units(bits: u32) -> int {
    (significand(bits) * pow2((exponent(bits) - 1) as nat)) as int
}

/// The value of a finite pattern in the same units.
pub open spec fn signed_units(bits: u32) -> int {
    if bits < 0x8000_0000 {
        units(bits)
    } else {
        -units((bits - 0x8000_0000) as u32)
    }
}

/// Half a unit in the last place beyond a nonnegative finite value, doubled.
pub open spec fn reach(bits: u32) -> int {
    ((2 * significand(bits) + 1) * pow2((exponent(bits) - 1) as nat)) as int
}

/// Half of `twice` units, rounded to single precision, is at most the nonnegative
/// finite value. What lies half a unit in the last place beyond it is rounded to
/// the neighbour whose pattern is even.
pub open spec fn rounds_to_at_most(twice: int, bits: u32) -> bool {
    if bits % 2 == 0 {
        twice <= reach(bits)
    } else {
        twice < reach(bits)
    }
}

/// The difference `high - low` of two finite values, rounded to single precision,
/// is less than a positive finite value: at most the value before it.
pub open spec fn difference_below(low: u32, high: u32, bound: u32) -> bool {
    rounds_to_at_most(2 * (signed_units(high) - signed_units(low)), (bound - 1) as u32)
}

/// The difference of two finite frequencies is below 50 Hz.
pub open spec fn narrower_than_50(low: u32, high: u32) -> bool {
    difference_below(low, high, HZ_50)
}

pub open spec fn nan(bits: u32) -> bool {
    bits % 0x8000_0000 > 0x7f80_0000
}

/// The distance of two values, rounded to single precision, is at most a width.
/// No distance is at most a NaN or a negative width, and what has no distance is
/// within none.
pub open spec fn within(a: u32, b: u32, width: u32) -> bool {
    if nan(a) || nan(b) || nan(width) || 0x8000_0000 < width {
        false
    } else if !finite(a) && a == b {
        false
    } else if width == 0x7f80_0000 {
        true
    } else {
        let pattern = if width == 0x8000_0000 {
            0
        } else {
            width
        };
        &&& finite(a)
        &&& finite(b)
        &&& rounds_to_at_most(2 * (signed_units(a) - signed_units(b)), pattern)
        &&& rounds_to_at_most(2 * (signed_units(b) - signed_units(a)), pattern)
    }
}

/// The distance of two values, rounded to single precision, is less than a
/// positive finite width: at most the value before it.
pub open spec fn closer_than(a: u32, b: u32, width: u32) -> bool {
    within(a, b, (width - 1) as u32)
}

/// An integer times a power of two.
#[derive(Debug, Clone, Copy)]
struct Scaled {
    factor: i64,
    power: u32,
}

impl Scaled {
    spec fn fits(self) -> bool {
        -0x10_0000_0000_0000 < self.factor < 0x10_0000_0000_0000 && self.power < 300
    }

    /// Its value over two to the power of `k`, zero once that is a fraction.
    spec fn above(self, k: int) -> int {
        if self.power >= k {
            self.factor * pow2((self.power - k) as nat)
        } else {
            0
        }
    }

    /// What it adds at scale `k`.
    fn at(self, k: u32) -> (r: i64)
        ensures
            r == (if self.power == k {
                self.factor as int
            } else {
                0
            }),
    {
        if self.power == k {
            self.factor
        } else {
            0
        }
    }

    proof fn lemma_step(self, k: int)
        requires
            0 <= k,
        ensures
            self.above(k) == (if self.power == k {
                self.factor as int
            } else {
                0
            }) + 2 * self.above(k + 1),
    {
        vstd::arithmetic::power2::lemma2_to64();
        if self.power > k {
            let p = (self.power - k - 1) as nat;
            lemma_pow2_unfold(p + 1);
            let f = self.factor as int;
            let q = pow2(p) as int;
            assert(f * (2 * q) == 2 * (f * q)) by (nonlinear_arith);
            assert((self.power - k) as nat == p + 1);
            assert((self.power - (k + 1)) as nat == p);
        } else if self.power == k {
            assert((self.power - k) as nat == 0);
            assert(self.factor * 1 == self.factor);
        }
    }
}

/// Whether a sum is not above zero. Low terms are taken in scale by scale; of what
/// they leave, only the next whole number above matters to the higher ones.
fn sum_at_most_zero(a: Scaled, b: Scaled, c: Scaled, d: Scaled) -> (r: bool)
    requires
        a.fits(),
        b.fits(),
        c.fits(),
        d.fits(),
    ensures
        r == (a.above(0) + b.above(0) + c.above(0) + d.above(0) <= 0),
{
    let mut carry: i64 = 0;
    let mut k: u32 = 0;
    let ghost whole = a.above(0) + b.above(0) + c.above(0) + d.above(0) <= 0;
    while k < 300
        invariant
            k <= 300,
            a.fits(),
            b.fits(),
            c.fits(),
            d.fits(),
            -0x100_0000_0000_0000 < carry < 0x100_0000_0000_0000,
            whole == (carry + a.above(k as int) + b.above(k as int) + c.above(k as int) + d.above(
                k as int,
            ) <= 0),
        decreases 300 - k,
    {
        let low: i64 = carry + a.at(k) + b.at(k) + c.at(k) + d.at(k);
        proof {
            a.lemma_step(k as int);
            b.lemma_step(k as int);
            c.lemma_step(k as int);
            d.lemma_step(k as int);
        }
        carry = if low % 2 == 0 {
            low / 2
        } else if low > 0 {
            low / 2 + 1
        } else {
            low / 2
        };
        assert(low <= 2 * carry <= low + 1);
        k = k + 1;
    }
    carry <= 0
}

/// A finite value in units, twice, with a sign.
fn twice(bits: u32, negated: bool) -> (r: Scaled)
    requires
        finite(bits),
    ensures
        r.fits(),
        r.above(0) == 2 * (if negated {
            -signed_units(bits)
        } else {
            signed_units(bits)
        }),
{
    let magnitude: u32 = bits % 0x8000_0000;
    let field: u32 = magnitude / 0x80_0000;
    let m: i64 = if field == 0 {
        (magnitude % 0x80_0000) as i64
    } else {
        (magnitude % 0x80_0000 + 0x80_0000) as i64
    };
    let power: u32 = if field == 0 { 0 } else { field - 1 };
    assert(0 <= m < 0x100_0000 && power < 255) by {
        assert(magnitude < 0x7f80_0000);
    }
    let minus: bool = (bits >= 0x8000_0000) != negated;
    let r = Scaled { factor: if minus { 0 - 2 * m } else { 2 * m }, power };
    proof {
        let p = pow2(power as nat) as int;
        let n = m as int;
        assert(magnitude == (if bits < 0x8000_0000 {
            bits as int
        } else {
            bits - 0x8000_0000
        }));
        assert(units(magnitude) == n * p);
        assert((2 * n) * p == 2 * (n * p)) by (nonlinear_arith);
        assert((-2 * n) * p == -(2 * (n * p))) by (nonlinear_arith);
    }
    r
}

/// Whether the rounded difference `high - low` is at most a nonnegative value.
fn differs_by_at_most(low: u32, high: u32, bits: u32) -> (r: bool)
    requires
        finite(low),
        finite(high),
        bits < 0x7f80_0000,
    ensures
        r == rounds_to_at_most(2 * (signed_units(high) - signed_units(low)), bits),
{
    let field: u32 = bits / 0x80_0000;
    let m: i64 = if field == 0 {
        (bits % 0x80_0000) as i64
    } else {
        (bits % 0x80_0000 + 0x80_0000) as i64
    };
    let power: u32 = if field == 0 { 0 } else { field - 1 };
    let limit = Scaled { factor: -(2 * m + 1), power };
    let strict = Scaled { factor: if bits % 2 == 0 { 0 } else { 1 }, power: 0 };
    proof {
        vstd::arithmetic::power2::lemma2_to64();
        let p = pow2(power as nat) as int;
        let n = 2 * m + 1;
        assert((-n) * p == -(n * p)) by (nonlinear_arith);
        assert(limit.above(0) == -reach(bits));
        assert(strict.above(0) == strict.factor);
    }
    sum_at_most_zero(twice(high, false), twice(low, true), limit, strict)
}

/// Whether a rounded difference is less than a positive finite value.
pub fn is_difference_below(low: u32, high: u32, bound: u32) -> (r: bool)
    requires
        finite(low),
        finite(high),
        0 < bound < 0x7f80_0000,
    ensures
        r == difference_below(low, high, bound),
{
    differs_by_at_most(low, high, bound - 1)
}

/// Whether the rounded difference of two frequencies is below 50 Hz.
pub fn is_narrower_than_50(low: u32, high: u32) -> (r: bool)
    requires
        finite(low),
        finite(high),
    ensures
        r == narrower_than_50(low, high),
{
    is_difference_below(low, high, HZ_50)
}

/// The nonnegative finite value lies within the band of two finite values that is widened
/// by a finite margin at both ends, the ends being rounded to single precision: the rounded
/// lower end is at most the value, and the rounded upper end is not at most the value
/// before it. Upper end and margin are not negative.
pub open spec fn in_widened(low: u32, high: u32, margin: u32, value: u32) -> bool {
    let pattern = value % 0x8000_0000;
    &&& rounds_to_at_most(2 * (signed_units(low) - signed_units(margin)), pattern)
    &&& pattern == 0 || !rounds_to_at_most(
        2 * (signed_units(high) + signed_units(margin)),
        (pattern - 1) as u32,
    )
}

pub fn is_in_widened(low: u32, high: u32, margin: u32, value: u32) -> (r: bool)
    requires
        finite(low),
        finite(high),
        finite(margin),
        finite(value),
    ensures
        r == in_widened(low, high, margin, value),
{
    let pattern: u32 = value % 0x8000_0000;
    assert(finite(negated(margin)) && signed_units(negated(margin)) == -signed_units(margin));
    differs_by_at_most(margin, low, pattern) && (pattern == 0 || !differs_by_at_most(
        negate(margin),
        high,
        pattern - 1,
    ))
}

/// Significand of 1.3 in single precision, over two to the power of 23.
pub const FACTOR_1_3: i64 = 0xa6_6666;

/// The value is less than the rounded product of another one with 1.3. Both are
/// finite and not negative.
pub open spec fn below_1_3_times(a: u32, b: u32) -> bool {
    let product = 2 * FACTOR_1_3 * units(b);
    let limit = reach(a) * pow2(23);
    !(if a % 2 == 0 {
        product <= limit
    } else {
        product < limit
    })
}

pub fn is_below_1_3_times(a: u32, b: u32) -> (r: bool)
    requires
        a < 0x7f80_0000,
        b < 0x7f80_0000,
    ensures
        r == below_1_3_times(a, b),
{
    let field: u32 = a / 0x80_0000;
    let m: i64 = if field == 0 {
        (a % 0x80_0000) as i64
    } else {
        (a % 0x80_0000 + 0x80_0000) as i64
    };
    let power: u32 = if field == 0 { 0 } else { field - 1 };
    let other: u32 = b / 0x80_0000;
    let k: i64 = if other == 0 {
        (b % 0x80_0000) as i64
    } else {
        (b % 0x80_0000 + 0x80_0000) as i64
    };
    let height: u32 = if other == 0 { 0 } else { other - 1 };
    assert(0 <= m < 0x100_0000 && 0 <= k < 0x100_0000);
    assert(0 <= 2 * FACTOR_1_3 * k < 0x10_0000_0000_0000) by (nonlinear_arith)
        requires
            0 <= k < 0x100_0000,
            FACTOR_1_3 == 0xa6_6666,
    ;
    let product = Scaled { factor: 2 * FACTOR_1_3 * k, power: height };
    let limit = Scaled { factor: -(2 * m + 1), power: power + 23 };
    let strict = Scaled { factor: if a % 2 == 0 { 0 } else { 1 }, power: 0 };
    let nothing = Scaled { factor: 0, power: 0 };
    proof {
        vstd::arithmetic::power2::lemma2_to64();
        vstd::arithmetic::power2::lemma_pow2_adds(power as nat, 23);
        let p = pow2(power as nat) as int;
        let q = pow2(23) as int;
        let n = 2 * m + 1;
        assert((-n) * (p * q) == -((n * p) * q)) by (nonlinear_arith);
        assert(limit.above(0) == -(reach(a) * q));
        let h = pow2(height as nat) as int;
        let f = 2 * FACTOR_1_3;
        let kk = k as int;
        assert((f * kk) * h == f * (kk * h)) by (nonlinear_arith);
        assert(product.above(0) == f * units(b));
        assert(strict.above(0) == strict.factor);
        assert(nothing.above(0) == 0);
    }
    !sum_at_most_zero(product, limit, strict, nothing)
}

pub fn is_within(a: u32, b: u32, width: u32) -> (r: bool)
    ensures
        r == within(a, b, width),
{
    let no_number: bool = a % 0x8000_0000 > 0x7f80_0000 || b % 0x8000_0000 > 0x7f80_0000 || width
        > 0x8000_0000 || (width > 0x7f80_0000 && width < 0x8000_0000);
    if no_number {
        return false;
    }
    if !is_finite(a) && a == b {
        return false;
    }
    if width == 0x7f80_0000 {
        return true;
    }
    let pattern: u32 = if width == 0x8000_0000 { 0 } else { width };
    is_finite(a) && is_finite(b) && differs_by_at_most(b, a, pattern) && differs_by_at_most(
        a,
        b,
        pattern,
    )
}

pub fn is_closer_than(a: u32, b: u32, width: u32) -> (r: bool)
    requires
        width > 0,
    ensures
        r == closer_than(a, b, width),
{
    is_within(a, b, width - 1)
}

/// A distance does not depend on the order of its ends.
pub proof fn distances_are_symmetric(a: u32, b: u32, width: u32)
    ensures
        within(a, b, width) == within(b, a, width),
{
}

/// A finite value lies within any nonnegative width of itself.
pub proof fn values_are_near_themselves(a: u32, width: u32)
    requires
        finite(a),
        width <= 0x7f80_0000,
    ensures
        within(a, a, width),
{
    if width < 0x7f80_0000 {
        lemma_pow2_pos((exponent(width) - 1) as nat);
        let m = (2 * significand(width) + 1) as int;
        let p = pow2((exponent(width) - 1) as nat) as int;
        assert(m * p > 0) by (nonlinear_arith)
            requires
                m > 0,
                p > 0,
        ;
    }
}

// ---------------------------------------------------------------------------
// Order
// ---------------------------------------------------------------------------

/// Patterns that stand for a number order like these keys; both zeros share one.
pub open spec fn order_key(bits: u32) -> int {
    if bits < 0x8000_0000 {
        bits as int
    } else {
        0x8000_0000 - bits
    }
}

/// Neither operand is a NaN.
pub open spec fn comparable(a: u32, b: u32) -> bool {
    a % 0x8000_0000 <= 0x7f80_0000 && b % 0x8000_0000 <= 0x7f80_0000
}

pub open spec fn less(a: u32, b: u32) -> bool {
    comparable(a, b) && order_key(a) < order_key(b)
}

pub open spec fn at_most(a: u32, b: u32) -> bool {
    comparable(a, b) && order_key(a) <= order_key(b)
}

fn key(bits: u32) -> (r: i64)
    ensures
        r == order_key(bits),
{
    if bits < 0x8000_0000 {
        bits as i64
    } else {
        0x8000_0000 - bits as i64
    }
}

pub fn is_less(a: u32, b: u32) -> (r: bool)
    ensures
        r == less(a, b),
{
    a % 0x8000_0000 <= 0x7f80_0000 && b % 0x8000_0000 <= 0x7f80_0000 && key(a) < key(b)
}

pub fn is_at_most(a: u32, b: u32) -> (r: bool)
    ensures
        r == at_most(a, b),
{
    a % 0x8000_0000 <= 0x7f80_0000 && b % 0x8000_0000 <= 0x7f80_0000 && key(a) <= key(b)
}

} // verus!
