//! Sums and products of nonnegative single precision values, rounded to the nearest
//! value as the machine rounds them.
use vstd::arithmetic::power2::{
    lemma_pow2_adds, lemma_pow2_pos, lemma_pow2_strictly_increases, lemma_pow2_unfold, pow2,
};
use vstd::prelude::*;
use crate::single::{exponent, reach, rounds_to_at_most, significand, units};

verus! {

/// The pattern stands for the value that is nearest to `n` units; of two that are
/// equally near, for the one whose pattern is even.
pub open spec fn is_nearest(n: int, bits: u32) -> bool {
    &&& bits < 0x7f80_0000
    &&& rounds_to_at_most(2 * n, bits)
    &&& bits > 0 ==> !rounds_to_at_most(2 * n, (bits - 1) as u32)
}

/// The value nearest to `n` units.
pub open spec fn nearest(n: int) -> u32 {
    choose|bits: u32| is_nearest(n, bits)
}

/// The rounded sum of two nonnegative finite values.
pub open spec fn added(a: u32, b: u32) -> u32 {
    nearest(units(a) + units(b))
}

// ---------------------------------------------------------------------------
// Patterns in order
// ---------------------------------------------------------------------------

/// The next pattern is one unit in the last place further.
pub proof fn lemma_next_units(bits: u32)
    requires
        bits < 0x7f80_0000,
    ensures
        units((bits + 1) as u32) == units(bits) + pow2((exponent(bits) - 1) as nat),
        reach(bits) == units(bits) + units((bits + 1) as u32),
{
    let next = (bits + 1) as u32;
    let e = exponent(bits);
    let p = pow2((e - 1) as nat) as int;
    let m = significand(bits) as int;
    if bits % 0x80_0000 < 0x7f_ffff {
        assert(next / 0x80_0000 == bits / 0x80_0000);
        assert(next % 0x80_0000 == bits % 0x80_0000 + 1);
        assert(exponent(next) == e);
        assert(significand(next) == m + 1);
    } else {
        assert(next % 0x80_0000 == 0);
        assert(next / 0x80_0000 == bits / 0x80_0000 + 1);
        if bits / 0x80_0000 == 0 {
            assert(exponent(next) == e);
            assert(significand(next) == m + 1);
        } else {
            assert(exponent(next) == e + 1);
            assert(m == 0xff_ffff);
            lemma_pow2_unfold(e);
            assert(pow2(e) == 2 * p);
            assert(significand(next) == 0x80_0000);
            assert(0x80_0000 * (2 * p) == (m + 1) * p) by (nonlinear_arith)
                requires
                    m == 0xff_ffff,
            ;
        }
    }
    assert((m + 1) * p == m * p + p) by (nonlinear_arith);
    assert((2 * m + 1) * p == m * p + (m * p + p)) by (nonlinear_arith);
}

pub proof fn lemma_units_increase(a: u32, b: u32)
    requires
        a < b <= 0x7f80_0000,
    ensures
        units(a) < units(b),
    decreases b - a,
{
    let before = (b - 1) as u32;
    lemma_next_units(before);
    lemma_pow2_pos((exponent(before) - 1) as nat);
    if a < before {
        lemma_units_increase(a, before);
    }
}

/// What rounds to at most a value rounds to at most every greater one.
proof fn lemma_rounding_increases(twice: int, a: u32, b: u32)
    requires
        a < b < 0x7f80_0000,
        rounds_to_at_most(twice, a),
    ensures
        rounds_to_at_most(twice, b),
{
    lemma_next_units(a);
    lemma_next_units(b);
    lemma_units_increase(a, b);
    lemma_units_increase((a + 1) as u32, (b + 1) as u32);
}

/// There is one nearest value.
proof fn lemma_nearest_is_unique(n: int, a: u32, b: u32)
    requires
        is_nearest(n, a),
        is_nearest(n, b),
    ensures
        a == b,
{
    if a < b {
        if a < b - 1 {
            lemma_rounding_increases(2 * n, a, (b - 1) as u32);
        }
    } else if b < a {
        if b < a - 1 {
            lemma_rounding_increases(2 * n, b, (a - 1) as u32);
        }
    }
}

/// Whatever is nearest is the nearest value.
pub proof fn nearest_values_are_unique(n: int, bits: u32)
    requires
        is_nearest(n, bits),
    ensures
        nearest(n) == bits,
{
    lemma_nearest_is_unique(n, bits, nearest(n));
}

/// A value is nearest to itself.
pub proof fn values_need_no_rounding(bits: u32)
    requires
        bits < 0x7f80_0000,
    ensures
        nearest(units(bits)) == bits,
{
    lemma_next_units(bits);
    lemma_pow2_pos((exponent(bits) - 1) as nat);
    if bits > 0 {
        lemma_next_units((bits - 1) as u32);
        lemma_units_increase((bits - 1) as u32, bits);
    }
    nearest_values_are_unique(units(bits), bits);
}

// ---------------------------------------------------------------------------
// Rounding
// ---------------------------------------------------------------------------

/// The pattern of `q` times two to the power of `power`, where `q` has 24 bits, or
/// fewer with power zero. It may overflow into the next power.
pub open spec fn pattern(q: int, power: int) -> int {
    power * 0x80_0000 + q
}

proof fn lemma_pattern(q: int, power: int)
    requires
        0 <= power < 254,
        0 <= q <= 0x100_0000,
        power > 0 ==> q >= 0x80_0000,
    ensures
        0 <= pattern(q, power) <= 0x7f80_0000,
        units(pattern(q, power) as u32) == q * pow2(power as nat),
        q < 0x100_0000 ==> exponent(pattern(q, power) as u32) == power + 1,
        q < 0x100_0000 ==> significand(pattern(q, power) as u32) == q,
        pattern(q, power) % 2 == q % 2,
{
    let bits = pattern(q, power) as u32;
    let p = pow2(power as nat) as int;
    if q < 0x80_0000 {
        assert(bits / 0x80_0000 == 0);
    } else if q < 0x100_0000 {
        assert(bits / 0x80_0000 == power + 1);
        assert(bits % 0x80_0000 == q - 0x80_0000);
    } else {
        assert(bits / 0x80_0000 == power + 2);
        assert(bits % 0x80_0000 == 0);
        lemma_pow2_unfold((power + 1) as nat);
        assert(pow2((power + 1) as nat) == 2 * p);
        assert(0x80_0000 * (2 * p) == q * p) by (nonlinear_arith)
            requires
                q == 0x100_0000,
        ;
    }
}

/// Rounding a number of units between two neighbours: `q` of the size `unit`, and
/// `rest` of the part below it.
proof fn lemma_rounded(n: int, q: int, power: int, rest: int, up: bool)
    requires
        0 <= power < 254,
        0 <= q < 0x100_0000,
        power > 0 ==> q >= 0x80_0000,
        0 <= rest < pow2(power as nat),
        n == q * pow2(power as nat) + rest,
        n <= 0x80_0000 * pow2(253),
        up == (2 * rest > pow2(power as nat) || (2 * rest == pow2(power as nat) && q % 2 == 1)),
    ensures
        is_nearest(
            n,
            (if up {
                pattern(q + 1, power)
            } else {
                pattern(q, power)
            }) as u32,
        ),
{
    let unit = pow2(power as nat) as int;
    lemma_pow2_pos(power as nat);
    lemma_pattern(q, power);
    lemma_pattern(q + 1, power);
    let low = pattern(q, power) as u32;
    let high = pattern(q + 1, power) as u32;
    assert(high == low + 1);
    assert(reach(low) == (2 * q + 1) * unit);
    assert((2 * q + 1) * unit == 2 * (q * unit) + unit) by (nonlinear_arith);
    if up {
        if power == 253 {
            assert(q <= 0x80_0000) by (nonlinear_arith)
                requires
                    q * unit <= 0x80_0000 * unit,
                    unit > 0,
            ;
        }
        assert(high < 0x7f80_0000);
        lemma_next_units(high);
        lemma_units_increase(high, (high + 1) as u32);
        assert((q + 1) * unit == q * unit + unit) by (nonlinear_arith);
        assert(2 * n < 2 * units(high));
    } else {
        if low > 0 {
            lemma_next_units((low - 1) as u32);
            lemma_units_increase((low - 1) as u32, low);
            assert(reach((low - 1) as u32) < 2 * units(low));
        }
    }
}

proof fn lemma_power_bound(q: int, power: int, n: int)
    requires
        0 <= power,
        q >= 0x80_0000,
        q * pow2(power as nat) <= n,
        n <= 0x80_0000 * pow2(253),
    ensures
        power < 254,
{
    if power >= 254 {
        lemma_pow2_strictly_increases(253, power as nat);
        lemma_pow2_pos(253);
        let a = pow2(power as nat) as int;
        let b = pow2(253) as int;
        assert(q * a > 0x80_0000 * b) by (nonlinear_arith)
            requires
                q >= 0x80_0000,
                a > b,
                b > 0,
        ;
    }
}

/// `start` times two to the power of `start_power` units, rounded.
pub(crate) fn rounded(start: u64, start_power: u32) -> (r: u32)
    requires
        start < 0x100_0000_0000_0000,
        start_power < 254,
        start * pow2(start_power as nat) <= 0x80_0000 * pow2(253),
    ensures
        is_nearest(start * pow2(start_power as nat), r),
{
    let ghost n = start * pow2(start_power as nat);
    let mut m: u64 = start;
    let mut power: u32 = start_power;
    while m < 0x80_0000 && power > 0
        invariant
            m < 0x100_0000_0000_0000,
            power < 254,
            n == m * pow2(power as nat),
        decreases power,
    {
        proof {
            lemma_pow2_unfold(power as nat);
            let p = pow2((power - 1) as nat) as int;
            let k = m as int;
            assert(k * (2 * p) == (2 * k) * p) by (nonlinear_arith);
        }
        m = m * 2;
        power = power - 1;
    }
    let mut q: u64 = m;
    let mut scale: u64 = 1;
    let mut shift: u32 = 0;
    proof {
        vstd::arithmetic::power2::lemma2_to64();
        assert(m as int / 1 == m);
    }
    while q >= 0x100_0000
        invariant
            m < 0x100_0000_0000_0000,
            q == m as int / scale as int,
            scale == pow2(shift as nat),
            1 <= scale <= 0x1_0000_0000,
            shift <= 32,
            shift > 0 ==> q >= 0x80_0000,
            shift == 0 ==> q == m,
        decreases q,
    {
        proof {
            lemma_pow2_unfold((shift + 1) as nat);
            vstd::arithmetic::div_mod::lemma_div_denominator(m as int, scale as int, 2);
            vstd::arithmetic::div_mod::lemma_fundamental_div_mod(m as int, scale as int);
            let s = scale as int;
            let k = q as int;
            assert(s * k <= m as int);
            assert(s < 0x1_0000_0000) by (nonlinear_arith)
                requires
                    s * k < 0x100_0000_0000_0000,
                    k >= 0x100_0000,
                    s > 0,
            ;
            vstd::arithmetic::power2::lemma2_to64();
            assert(pow2(32) == 0x1_0000_0000);
            if shift + 1 < 32 {
                lemma_pow2_strictly_increases((shift + 1) as nat, 32);
            }
        }
        q = q / 2;
        scale = scale * 2;
        shift = shift + 1;
    }
    let rest: u64 = m % scale;
    let up: bool = 2 * rest > scale || (2 * rest == scale && q % 2 == 1);
    proof {
        let s = scale as int;
        let p = pow2(power as nat) as int;
        lemma_pow2_pos(power as nat);
        lemma_pow2_adds(shift as nat, power as nat);
        let whole = shift as int + power as int;
        let unit = pow2(whole as nat) as int;
        assert(unit == s * p);
        vstd::arithmetic::div_mod::lemma_fundamental_div_mod(m as int, s);
        let k = q as int;
        let t = rest as int;
        assert(m as int == s * k + t);
        assert(n == k * unit + t * p) by (nonlinear_arith)
            requires
                n == (s * k + t) * p,
                unit == s * p,
        ;
        assert(0 <= t * p < unit) by (nonlinear_arith)
            requires
                0 <= t < s,
                p > 0,
                unit == s * p,
        ;
        assert((2 * t > s) == (2 * (t * p) > unit)) by (nonlinear_arith)
            requires
                p > 0,
                unit == s * p,
        ;
        assert((2 * t == s) == (2 * (t * p) == unit)) by (nonlinear_arith)
            requires
                p > 0,
                unit == s * p,
        ;
        if whole > 0 {
            assert(k >= 0x80_0000);
            lemma_power_bound(k, whole, n);
        }
        lemma_rounded(n, k, whole, t * p, up);
        lemma_pattern(k, whole);
        lemma_pattern(k + 1, whole);
    }
    let low: u32 = (shift + power) * 0x80_0000 + q as u32;
    if up {
        low + 1
    } else {
        low
    }
}

// ---------------------------------------------------------------------------
// Sums
// ---------------------------------------------------------------------------

/// Bit pattern of two to the power of 127; sums up to it are finite.
pub const LARGEST_SUM: u32 = 0x7f00_0000;

/// The rounded sum of two nonnegative values.
pub fn plus(a: u32, b: u32) -> (r: u32)
    requires
        a < 0x7f80_0000,
        b < 0x7f80_0000,
        units(a) + units(b) <= units(LARGEST_SUM),
    ensures
        r == added(a, b),
        r <= LARGEST_SUM,
{
    let (x, y): (u32, u32) = if a < b { (b, a) } else { (a, b) };
    let e: u32 = if x / 0x80_0000 == 0 { 1 } else { x / 0x80_0000 };
    let f: u32 = if y / 0x80_0000 == 0 { 1 } else { y / 0x80_0000 };
    let m: u64 = if x / 0x80_0000 == 0 {
        (x % 0x80_0000) as u64
    } else {
        (x % 0x80_0000 + 0x80_0000) as u64
    };
    let k: u64 = if y / 0x80_0000 == 0 {
        (y % 0x80_0000) as u64
    } else {
        (y % 0x80_0000 + 0x80_0000) as u64
    };
    let ghost n = units(a) + units(b);
    proof {
        assert(n == units(x) + units(y));
        assert(units(x) == m * pow2((e - 1) as nat));
        assert(units(y) == k * pow2((f - 1) as nat));
        lemma_largest();
    }
    if e - f > 30 {
        // The smaller one is less than half a unit in the last place.
        proof {
            lemma_negligible(x, y);
            nearest_values_are_unique(n, x);
            if x > LARGEST_SUM {
                lemma_units_increase(LARGEST_SUM, x);
                lemma_units_nonnegative(y);
            }
        }
        return x;
    }
    let mut scaled: u64 = m;
    let mut i: u32 = 0;
    proof {
        vstd::arithmetic::power2::lemma2_to64();
        assert(pow2(0) == 1);
        assert(m * 1 == m);
    }
    while i < e - f
        invariant
            i <= e - f <= 30,
            f <= e,
            m < 0x100_0000,
            scaled == m * pow2(i as nat),
            scaled < 0x100_0000 * pow2(i as nat),
            pow2(i as nat) <= 0x4000_0000,
        decreases e - f - i,
    {
        proof {
            lemma_pow2_unfold((i + 1) as nat);
            let p = pow2(i as nat) as int;
            let v = m as int;
            assert(2 * (v * p) == v * (2 * p)) by (nonlinear_arith);
            vstd::arithmetic::power2::lemma2_to64();
            if i + 1 < 30 {
                lemma_pow2_strictly_increases((i + 1) as nat, 30);
            }
            assert(pow2(30) == 0x4000_0000);
        }
        scaled = scaled * 2;
        i = i + 1;
    }
    let total: u64 = scaled + k;
    proof {
        let d = (e - f) as nat;
        lemma_pow2_adds(d, (f - 1) as nat);
        let p = pow2((f - 1) as nat) as int;
        let q = pow2(d) as int;
        let v = m as int;
        let w = k as int;
        assert((v * q + w) * p == v * (q * p) + w * p) by (nonlinear_arith);
        assert(n == total * p);
    }
    let r: u32 = rounded(total, f - 1);
    proof {
        nearest_values_are_unique(n, r);
        if r > LARGEST_SUM {
            lemma_next_units(LARGEST_SUM);
            lemma_units_increase(LARGEST_SUM, (LARGEST_SUM + 1) as u32);
            assert(rounds_to_at_most(2 * n, LARGEST_SUM));
            if r - 1 > LARGEST_SUM {
                lemma_rounding_increases(2 * n, LARGEST_SUM, (r - 1) as u32);
            }
        }
    }
    r
}

proof fn lemma_largest()
    ensures
        units(LARGEST_SUM) == 0x80_0000 * pow2(253),
{
    assert(LARGEST_SUM / 0x80_0000 == 254);
    assert(LARGEST_SUM % 0x80_0000 == 0);
}

proof fn lemma_units_nonnegative(bits: u32)
    ensures
        units(bits) >= 0,
{
    lemma_pow2_pos((exponent(bits) - 1) as nat);
    let m = significand(bits) as int;
    let p = pow2((exponent(bits) - 1) as nat) as int;
    assert(m * p >= 0) by (nonlinear_arith)
        requires
            m >= 0,
            p > 0,
    ;
}

/// A value that is far smaller is lost in a sum.
proof fn lemma_negligible(x: u32, y: u32)
    requires
        x < 0x7f80_0000,
        y < 0x7f80_0000,
        exponent(x) > exponent(y) + 30,
    ensures
        is_nearest(units(x) + units(y), x),
{
    let p = pow2((exponent(y) - 1) as nat) as int;
    let d = (exponent(x) - exponent(y)) as nat;
    lemma_pow2_adds(d, (exponent(y) - 1) as nat);
    lemma_pow2_pos((exponent(y) - 1) as nat);
    vstd::arithmetic::power2::lemma2_to64();
    lemma_pow2_strictly_increases(30, d);
    let q = pow2(d) as int;
    let k = significand(y) as int;
    assert(k < 0x100_0000);
    assert(2 * (k * p) < q * p) by (nonlinear_arith)
        requires
            0 <= k < 0x100_0000,
            q > 0x4000_0000,
            p > 0,
    ;
    lemma_next_units(x);
    lemma_units_nonnegative(y);
    if x > 0 {
        lemma_next_units((x - 1) as u32);
        lemma_units_increase((x - 1) as u32, x);
    }
}

// ---------------------------------------------------------------------------
// Sums without a bound
// ---------------------------------------------------------------------------

/// Bit pattern of an infinity.
pub const INFINITE: u32 = 0x7f80_0000;

/// The rounded sum of two values without a sign. It is infinite where it exceeds what is
/// finite, or where either is not finite; a NaN counts like an infinity.
pub open spec fn wide_sum(a: u32, b: u32) -> u32 {
    if a >= INFINITE || b >= INFINITE || !rounds_to_at_most(
        2 * (units(a) + units(b)),
        0x7f7f_ffff,
    ) {
        INFINITE
    } else {
        added(a, b)
    }
}

/// Four times a normal value has the same significand.
proof fn lemma_four_times(bits: u32)
    requires
        0x80_0000 <= bits < 0x7e80_0000,
    ensures
        units((bits + 0x100_0000) as u32) == 4 * units(bits),
        reach((bits + 0x100_0000) as u32) == 4 * reach(bits),
        forall|twice: int| #[trigger]
            rounds_to_at_most(4 * twice, (bits + 0x100_0000) as u32) == rounds_to_at_most(
                twice,
                bits,
            ),
{
    let up = (bits + 0x100_0000) as u32;
    let e = exponent(bits);
    let m = significand(bits) as int;
    assert(up / 0x80_0000 == bits / 0x80_0000 + 2);
    assert(up % 0x80_0000 == bits % 0x80_0000);
    assert(exponent(up) == e + 2);
    assert(significand(up) == m);
    lemma_pow2_unfold(e);
    lemma_pow2_unfold(e + 1);
    let p = pow2((e - 1) as nat) as int;
    assert(pow2((exponent(up) - 1) as nat) == 4 * p);
    assert(m * (4 * p) == 4 * (m * p)) by (nonlinear_arith);
    assert((2 * m + 1) * (4 * p) == 4 * ((2 * m + 1) * p)) by (nonlinear_arith);
    assert(up % 2 == bits % 2);
}

/// Sums of values up to two to the power of 126 are bounded.
proof fn lemma_small_sum(a: u32, b: u32)
    requires
        a <= 0x7e80_0000,
        b <= 0x7e80_0000,
    ensures
        units(a) + units(b) <= units(LARGEST_SUM),
{
    let half = 0x7e80_0000u32;
    assert(half / 0x80_0000 == 253);
    assert(half % 0x80_0000 == 0);
    lemma_largest();
    lemma_pow2_unfold(253);
    let p = pow2(252) as int;
    assert(units(half) == 0x80_0000 * p);
    assert(2 * (0x80_0000 * p) == 0x80_0000 * (2 * p)) by (nonlinear_arith);
    if a < half {
        lemma_units_increase(a, half);
    }
    if b < half {
        lemma_units_increase(b, half);
    }
}

proof fn lemma_bounded_sum_is_nearest(a: u32, b: u32)
    requires
        a < INFINITE,
        b < INFINITE,
        units(a) + units(b) <= units(LARGEST_SUM),
    ensures
        is_nearest(units(a) + units(b), added(a, b)),
{
    lemma_units_nonnegative(a);
    lemma_units_nonnegative(b);
    let r = lemma_nearest_exists(units(a) + units(b));
    nearest_values_are_unique(units(a) + units(b), r);
}

/// A rounded sum is not below its terms.
proof fn lemma_sum_not_below(a: u32, b: u32, sum: u32)
    requires
        0 < a < INFINITE,
        b < INFINITE,
        is_nearest(units(a) + units(b), sum),
    ensures
        a <= sum,
{
    let n = units(a) + units(b);
    lemma_units_nonnegative(b);
    if sum < a {
        let before = (a - 1) as u32;
        if sum < before {
            lemma_rounding_increases(2 * n, sum, before);
        }
        lemma_next_units(before);
        lemma_units_increase(before, a);
    }
}

/// What is nearest to a finite sum is finite.
proof fn lemma_finite_sum(n: int, bits: u32)
    requires
        is_nearest(n, bits),
    ensures
        rounds_to_at_most(2 * n, 0x7f7f_ffff),
        nearest(n) == bits,
{
    nearest_values_are_unique(n, bits);
    if bits < 0x7f7f_ffff {
        lemma_rounding_increases(2 * n, bits, 0x7f7f_ffff);
    }
}

/// The rounded sum of two values without a sign.
pub fn wide_plus(a: u32, b: u32) -> (r: u32)
    ensures
        r == wide_sum(a, b),
{
    if a >= INFINITE || b >= INFINITE {
        return INFINITE;
    }
    let ghost n = units(a) + units(b);
    if a <= 0x7e80_0000 && b <= 0x7e80_0000 {
        proof {
            lemma_small_sum(a, b);
            lemma_bounded_sum_is_nearest(a, b);
            lemma_finite_sum(n, added(a, b));
        }
        return plus(a, b);
    }
    let (x, y): (u32, u32) = if a < b { (b, a) } else { (a, b) };
    assert(n == units(x) + units(y));
    if y < 0x6d80_0000 {
        // The smaller one is less than half a unit in the last place.
        proof {
            lemma_negligible(x, y);
            lemma_finite_sum(n, x);
        }
        return x;
    }
    let small_x: u32 = x - 0x100_0000;
    let small_y: u32 = y - 0x100_0000;
    let ghost quarter = units(small_x) + units(small_y);
    proof {
        lemma_four_times(small_x);
        lemma_four_times(small_y);
        lemma_small_sum(small_x, small_y);
        lemma_bounded_sum_is_nearest(small_x, small_y);
    }
    let sum: u32 = plus(small_x, small_y);
    proof {
        lemma_sum_not_below(small_x, small_y, sum);
        assert(2 * n == 4 * (2 * quarter));
        if sum < 0x7e80_0000 {
            lemma_four_times((sum - 1) as u32);
            lemma_four_times(sum);
            assert(rounds_to_at_most(4 * (2 * quarter), (sum + 0x100_0000) as u32));
            assert(!rounds_to_at_most(4 * (2 * quarter), (sum - 1 + 0x100_0000) as u32));
            assert(is_nearest(n, (sum + 0x100_0000) as u32));
            lemma_finite_sum(n, (sum + 0x100_0000) as u32);
        } else {
            let top = 0x7e7f_ffffu32;
            lemma_four_times(top);
            if rounds_to_at_most(2 * n, 0x7f7f_ffff) {
                assert(rounds_to_at_most(4 * (2 * quarter), (top + 0x100_0000) as u32));
                assert(rounds_to_at_most(2 * quarter, top));
                if top < sum - 1 {
                    lemma_rounding_increases(2 * quarter, top, (sum - 1) as u32);
                }
            }
        }
    }
    if sum >= 0x7e80_0000 {
        INFINITE
    } else {
        sum + 0x100_0000
    }
}

// ---------------------------------------------------------------------------
// Bounded sums
// ---------------------------------------------------------------------------

/// The value is at most `k` times two to the power of 265 units. Values up to the
/// greatest finite one over 4096 are at most one such part.
pub open spec fn is_within_parts(bits: u32, k: nat) -> bool {
    bits < 0x7f80_0000 && units(bits) <= k * pow2(265)
}

/// A sum does not exceed a value that bounds the exact sum.
proof fn lemma_sum_at_most(n: int, bits: u32, bound: u32)
    requires
        is_nearest(n, bits),
        bound < 0x7f80_0000,
        n <= units(bound),
    ensures
        bits <= bound,
{
    lemma_next_units(bound);
    lemma_units_increase(bound, (bound + 1) as u32);
    if bits > bound && bits - 1 > bound {
        lemma_rounding_increases(2 * n, bound, (bits - 1) as u32);
    }
}

/// Whole parts are values.
proof fn lemma_parts(j: int, t: nat) -> (bits: u32)
    requires
        t <= 7,
        pow2(t) <= j < 2 * pow2(t),
    ensures
        bits < 0x7f80_0000,
        units(bits) == j * pow2(265),
{
    vstd::arithmetic::power2::lemma2_to64();
    let s = (23 - t) as nat;
    let a = pow2(s) as int;
    lemma_pow2_adds(t, s);
    assert(pow2(23) == 0x80_0000);
    let q = j * a;
    let b = pow2(t) as int;
    lemma_pow2_pos(s);
    assert(0x80_0000 <= q < 0x100_0000) by (nonlinear_arith)
        requires
            q == j * a,
            b <= j < 2 * b,
            b * a == 0x80_0000,
            a > 0,
    ;
    lemma_pattern(q, 242 + t as int);
    lemma_pow2_adds(s, (242 + t) as nat);
    let c = pow2((242 + t) as nat) as int;
    assert((j * a) * c == j * (a * c)) by (nonlinear_arith);
    pattern(q, 242 + t as int) as u32
}

proof fn lemma_some_parts(j: int) -> (bits: u32)
    requires
        1 <= j < 256,
    ensures
        bits < 0x7f80_0000,
        units(bits) == j * pow2(265),
{
    vstd::arithmetic::power2::lemma2_to64();
    if j < 2 {
        lemma_parts(j, 0)
    } else if j < 4 {
        lemma_parts(j, 1)
    } else if j < 8 {
        lemma_parts(j, 2)
    } else if j < 16 {
        lemma_parts(j, 3)
    } else if j < 32 {
        lemma_parts(j, 4)
    } else if j < 64 {
        lemma_parts(j, 5)
    } else if j < 128 {
        lemma_parts(j, 6)
    } else {
        lemma_parts(j, 7)
    }
}

/// Sums of values of whole parts stay within the parts of both.
pub proof fn sums_stay_within_parts(a: u32, j: nat, b: u32, k: nat)
    requires
        is_within_parts(a, j),
        is_within_parts(b, k),
        1 <= j + k < 256,
    ensures
        units(a) + units(b) <= units(LARGEST_SUM),
        is_within_parts(added(a, b), j + k),
{
    let part = pow2(265) as int;
    let bound = lemma_some_parts((j + k) as int);
    assert(j * part + k * part == (j + k) * part) by (nonlinear_arith);
    let n = units(a) + units(b);
    lemma_largest();
    lemma_pow2_adds(12, 253);
    vstd::arithmetic::power2::lemma2_to64();
    lemma_pow2_pos(253);
    let c = pow2(253) as int;
    assert(part == 4096 * c);
    assert((j + k) * part <= 0x80_0000 * c) by (nonlinear_arith)
        requires
            j + k < 256,
            part == 4096 * c,
            c > 0,
    ;
    lemma_units_nonnegative(a);
    lemma_units_nonnegative(b);
    let r = lemma_nearest_exists(n);
    nearest_values_are_unique(n, r);
    lemma_sum_at_most(n, r, bound);
    if r < bound {
        lemma_units_increase(r, bound);
    }
}

/// Such sums need no bound.
pub proof fn sums_within_parts_are_finite(a: u32, j: nat, b: u32, k: nat)
    requires
        is_within_parts(a, j),
        is_within_parts(b, k),
        1 <= j + k < 256,
    ensures
        wide_sum(a, b) == added(a, b),
{
    sums_stay_within_parts(a, j, b, k);
    lemma_bounded_sum_is_nearest(a, b);
    lemma_finite_sum(units(a) + units(b), added(a, b));
}

/// Up to the largest sum there is a nearest value.
proof fn lemma_nearest_exists(n: int) -> (bits: u32)
    requires
        0 <= n <= units(LARGEST_SUM),
    ensures
        is_nearest(n, bits),
{
    lemma_next_units(LARGEST_SUM);
    lemma_units_increase(LARGEST_SUM, (LARGEST_SUM + 1) as u32);
    lemma_least_rounding(n, LARGEST_SUM)
}

proof fn lemma_least_rounding(n: int, high: u32) -> (bits: u32)
    requires
        high < 0x7f80_0000,
        rounds_to_at_most(2 * n, high),
    ensures
        is_nearest(n, bits),
    decreases high,
{
    if high > 0 && rounds_to_at_most(2 * n, (high - 1) as u32) {
        lemma_least_rounding(n, (high - 1) as u32)
    } else {
        high
    }
}

/// Values up to the greatest finite one over 4096 are within one part.
pub proof fn light_values_are_within_a_part(bits: u32)
    requires
        bits <= 0x797f_ffff,
    ensures
        is_within_parts(bits, 1),
{
    vstd::arithmetic::power2::lemma2_to64();
    lemma_units_increase(bits, 0x7980_0000);
    assert(0x7980_0000u32 / 0x80_0000 == 243);
    assert(0x7980_0000u32 % 0x80_0000 == 0);
    assert(units(0x7980_0000) == 0x80_0000 * pow2(242));
    lemma_pow2_adds(23, 242);
    assert(pow2(23) == 0x80_0000);
}

/// What is within some parts is within more of them.
pub proof fn parts_only_grow(bits: u32, j: nat, k: nat)
    requires
        is_within_parts(bits, j),
        j <= k,
    ensures
        is_within_parts(bits, k),
{
    let part = pow2(265) as int;
    assert(j * part <= k * part) by (nonlinear_arith)
        requires
            j <= k,
            part >= 0,
    ;
}

/// Zero is within no part.
pub proof fn zero_is_within_no_part()
    ensures
        is_within_parts(0, 0),
{
    assert(0 * pow2(0) == 0);
    assert(0 * pow2(265) == 0);
}

/// Zero adds nothing.
pub proof fn zero_adds_nothing(bits: u32)
    requires
        bits < 0x7f80_0000,
    ensures
        added(0, bits) == bits,
        added(bits, 0) == bits,
{
    assert(units(0) == 0) by {
        assert(0 * pow2(0) == 0);
    }
    values_need_no_rounding(bits);
}

/// A rounded sum is not below its terms, and does not depend on their order.
pub proof fn sums_are_not_below_their_terms(a: u32, b: u32)
    requires
        a < INFINITE,
        b < INFINITE,
        units(a) + units(b) <= units(LARGEST_SUM),
    ensures
        a <= added(a, b),
        b <= added(a, b),
        added(a, b) == added(b, a),
{
    lemma_bounded_sum_is_nearest(a, b);
    if a > 0 {
        lemma_sum_not_below(a, b, added(a, b));
    }
    if b > 0 {
        lemma_sum_not_below(b, a, added(a, b));
    }
}

/// What rounds to a value lies half way to the next one at most.
pub proof fn lemma_reach_between(bits: u32)
    requires
        bits < 0x7f80_0000,
    ensures
        reach(bits) == units(bits) + units((bits + 1) as u32),
        0 <= units(bits) < units((bits + 1) as u32),
{
    lemma_next_units(bits);
    lemma_units_increase(bits, (bits + 1) as u32);
    lemma_units_nonnegative(bits);
}

/// A sum without a bound is not below its finite terms, nor finite where one is not.
pub proof fn wide_sums_are_not_below_their_terms(a: u32, b: u32)
    ensures
        wide_sum(a, b) <= INFINITE,
        a < INFINITE ==> wide_sum(a, b) >= a,
        b < INFINITE ==> wide_sum(a, b) >= b,
        a >= INFINITE || b >= INFINITE ==> wide_sum(a, b) == INFINITE,
        a < INFINITE && b == 0 ==> wide_sum(a, b) == a,
{
    if a < INFINITE && b < INFINITE {
        let n = units(a) + units(b);
        lemma_units_nonnegative(a);
        lemma_units_nonnegative(b);
        if rounds_to_at_most(2 * n, 0x7f7f_ffff) {
            let r = lemma_least_rounding(n, 0x7f7f_ffff);
            nearest_values_are_unique(n, r);
            if a > 0 {
                lemma_sum_not_below(a, b, r);
            }
            if b > 0 {
                lemma_sum_not_below(b, a, r);
            }
        }
        if b == 0 {
            zero_adds_nothing(a);
            values_need_no_rounding(a);
            lemma_next_units(0x7f7f_ffff);
            if a < 0x7f7f_ffff {
                lemma_units_increase(a, 0x7f7f_ffff);
            }
            lemma_units_increase(0x7f7f_ffff, 0x7f80_0000);
            assert(units(b) == 0) by {
                assert(significand(0) == 0);
                assert(0 * pow2((exponent(0) - 1) as nat) == 0);
            }
        }
    }
}

} // verus!
