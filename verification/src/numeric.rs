//! Arithmetic on binary64 bit patterns: order, the nearest binary64 number
//! to an integer, and the tolerance within which two numbers count as
//! equal. Everything here is computed on integers.

use crate::value::{Float, Number};
use vstd::arithmetic::power2::{
    lemma2_to64, lemma2_to64_rest, lemma_pow2_adds, lemma_pow2_pos, lemma_pow2_strictly_increases,
    lemma_pow2_unfold, pow2,
};
use vstd::prelude::*;

verus! {

impl Float {
    /// The bit pattern without its sign bit. Among numbers of one sign,
    /// a greater pattern is a number of greater magnitude.
    pub open spec fn magnitude(&self) -> int {
        self.bits as int % 0x8000_0000_0000_0000
    }

    /// The place of the number in the order of all binary64 numbers that
    /// are no NaN: the magnitude, negative for numbers with the sign bit.
    /// Both zeros have the place 0.
    pub open spec fn ordinal(&self) -> int {
        if self.sign() {
            -self.magnitude()
        } else {
            self.magnitude()
        }
    }

    /// Whether `self` is less than `other`. A NaN is not less than
    /// anything, and nothing is less than a NaN.
    pub open spec fn spec_lt(&self, other: Float) -> bool {
        !self.nan() && !other.nan() && self.ordinal() < other.ordinal()
    }

    /// Whether `self` is less than or equal to `other`; false where one of
    /// them is a NaN.
    pub open spec fn spec_le(&self, other: Float) -> bool {
        !self.nan() && !other.nan() && self.ordinal() <= other.ordinal()
    }

    /// The place of the number in the order of binary64 numbers.
    pub fn order_key(&self) -> (r: i128)
        ensures
            r == self.ordinal(),
    {
        let magnitude: i128 = (self.bits % 0x8000_0000_0000_0000) as i128;
        if self.bits >= 0x8000_0000_0000_0000 {
            -magnitude
        } else {
            magnitude
        }
    }

    /// Whether `self` is less than `other`.
    pub fn lt(&self, other: &Float) -> (r: bool)
        ensures
            r == self.spec_lt(*other),
    {
        !self.is_nan() && !other.is_nan() && self.order_key() < other.order_key()
    }

    /// Whether `self` is less than or equal to `other`.
    pub fn le(&self, other: &Float) -> (r: bool)
        ensures
            r == self.spec_le(*other),
    {
        !self.is_nan() && !other.is_nan() && self.order_key() <= other.order_key()
    }

    /// Whether `self` is greater than `other`.
    pub fn gt(&self, other: &Float) -> (r: bool)
        ensures
            r == other.spec_lt(*self),
    {
        other.lt(self)
    }

    /// Whether `self` is greater than or equal to `other`.
    pub fn ge(&self, other: &Float) -> (r: bool)
        ensures
            r == other.spec_le(*self),
    {
        other.le(self)
    }
}

/// The number of binary digits of `n`; zero has none.
pub open spec fn bit_length(n: nat) -> nat
    decreases n,
{
    if n == 0 {
        0
    } else {
        1 + bit_length(n / 2)
    }
}

/// `n` divided by 2^`s`, rounded to the nearest integer, and to the even
/// one of two that are equally near.
pub open spec fn rounded_shift(n: nat, s: nat) -> nat {
    let d = pow2(s);
    let q = n / d;
    let r = n % d;
    if 2 * r > d || (2 * r == d && q % 2 == 1) {
        q + 1
    } else {
        q
    }
}

/// The first 53 binary digits of a positive `n`, as a number from 2^52 to
/// 2^53: `n` itself moved up where it is shorter, rounded where it is
/// longer.
pub open spec fn significand(n: nat) -> nat {
    let len = bit_length(n);
    if len <= 53 {
        n * pow2((53 - len) as nat)
    } else {
        rounded_shift(n, (len - 53) as nat)
    }
}

/// The bit pattern of the binary64 number nearest to `n`: the exponent
/// field for the length of `n`, and the significand without its leading
/// digit. A significand that rounding has carried to 2^53 raises the
/// exponent by one.
pub open spec fn float_of_nat(n: nat) -> Float {
    if n == 0 {
        Float { bits: 0 }
    } else {
        Float {
            bits: ((1022 + bit_length(n)) * 0x10_0000_0000_0000 + significand(n)
                - 0x10_0000_0000_0000) as u64,
        }
    }
}

/// The number with the sign bit of `f` set.
pub open spec fn with_sign(f: Float) -> Float {
    Float { bits: (f.bits as int % 0x8000_0000_0000_0000 + 0x8000_0000_0000_0000) as u64 }
}

/// A positive number lies between two powers of two that its length
/// names.
pub proof fn lemma_bit_length_bounds(n: nat)
    requires
        n > 0,
    ensures
        bit_length(n) >= 1,
        pow2((bit_length(n) - 1) as nat) <= n < pow2(bit_length(n)),
    decreases n,
{
    lemma2_to64();
    if n == 1 {
        assert(bit_length(1) == 1 + bit_length(0));
    } else {
        let h = n / 2;
        lemma_bit_length_bounds(h);
        let b = bit_length(h);
        lemma_pow2_unfold(b);
        lemma_pow2_unfold(b + 1);
        assert(bit_length(n) == b + 1);
        assert(pow2(b) == 2 * pow2((b - 1) as nat));
        assert(pow2(b + 1) == 2 * pow2(b));
    }
}

/// A number that fits 64 bits has at most 64 binary digits.
pub proof fn lemma_bit_length_u64(n: u64)
    ensures
        bit_length(n as nat) <= 64,
{
    if n > 0 {
        lemma_bit_length_bounds(n as nat);
        lemma2_to64();
        let b = bit_length(n as nat);
        if b > 64 {
            if b - 1 > 64 {
                lemma_pow2_strictly_increases(64, (b - 1) as nat);
            }
            assert(pow2((b - 1) as nat) >= pow2(64));
        }
    }
}

/// The number of binary digits of `n`.
pub fn length_of(n: u64) -> (len: u64)
    ensures
        len == bit_length(n as nat),
        len <= 64,
{
    proof {
        lemma_bit_length_u64(n);
    }
    let mut len: u64 = 0;
    let mut t: u64 = n;
    while t > 0
        invariant
            bit_length(n as nat) == len + bit_length(t as nat),
            bit_length(n as nat) <= 64,
        decreases t,
    {
        t = t / 2;
        len = len + 1;
    }
    len
}

/// The power of two with the exponent `s`.
pub fn power_of_two(s: u64) -> (d: u64)
    requires
        s <= 62,
    ensures
        d == pow2(s as nat),
        d >= 1,
{
    proof {
        lemma2_to64();
    }
    let mut d: u64 = 1;
    let mut j: u64 = 0;
    while j < s
        invariant
            j <= s <= 62,
            d == pow2(j as nat),
            d >= 1,
        decreases s - j,
    {
        proof {
            lemma_pow2_unfold((j + 1) as nat);
            lemma2_to64_rest();
            lemma_pow2_strictly_increases(j as nat, 63);
        }
        d = d * 2;
        j = j + 1;
    }
    d
}

/// The binary64 number nearest to `n`.
pub fn float_of_u64(n: u64) -> (r: Float)
    ensures
        r == float_of_nat(n as nat),
{
    if n == 0 {
        return Float { bits: 0 };
    }
    let len = length_of(n);
    proof {
        lemma_bit_length_bounds(n as nat);
        lemma2_to64();
        lemma2_to64_rest();
    }
    let sig: u64 = if len <= 53 {
        let d = power_of_two(53 - len);
        proof {
            lemma_pow2_adds(len as nat, (53 - len) as nat);
            assert(n * d < pow2(53)) by (nonlinear_arith)
                requires
                    n < pow2(len as nat),
                    d == pow2((53 - len) as nat),
                    pow2(len as nat) * pow2((53 - len) as nat) == pow2(53),
                    d >= 1,
            {
            }
        }
        n * d
    } else {
        let s = len - 53;
        let d = power_of_two(s);
        let q = n / d;
        let r = n % d;
        proof {
            lemma_pow2_adds(53, s as nat);
            assert(q < pow2(53)) by (nonlinear_arith)
                requires
                    n < pow2(len as nat),
                    pow2(53) * pow2(s as nat) == pow2(len as nat),
                    d == pow2(s as nat),
                    d >= 1,
                    q == n / d,
            {
            }
        }
        if r > d - r || (r == d - r && q % 2 == 1) {
            q + 1
        } else {
            q
        }
    };
    proof {
        assert(sig == significand(n as nat));
        assert(sig <= 0x20_0000_0000_0000);
    }
    Float { bits: (1022 + len) * 0x10_0000_0000_0000 + sig - 0x10_0000_0000_0000 }
}

impl Number {
    /// The binary64 number that stands for the number: itself, or the
    /// nearest one to an integer.
    pub open spec fn spec_as_float(&self) -> Float {
        match self {
            Number::Float(f) => *f,
            Number::PosInt(n) => float_of_nat(*n as nat),
            Number::NegInt(i) => if *i < 0 {
                with_sign(float_of_nat((-(*i as int)) as nat))
            } else {
                float_of_nat(*i as nat)
            },
        }
    }

    /// The binary64 number that stands for the number.
    pub fn as_float(&self) -> (r: Float)
        ensures
            r == self.spec_as_float(),
    {
        match self {
            Number::Float(f) => *f,
            Number::PosInt(n) => float_of_u64(*n),
            Number::NegInt(i) => {
                if *i < 0 {
                    let magnitude: u64 = (-(*i as i128)) as u64;
                    let f = float_of_u64(magnitude);
                    Float { bits: f.bits % 0x8000_0000_0000_0000 + 0x8000_0000_0000_0000 }
                } else {
                    float_of_u64(*i as u64)
                }
            },
        }
    }
}

impl Float {
    /// The significand as an integer: the fraction, with the leading digit
    /// that normal numbers leave out.
    pub open spec fn mantissa(&self) -> int {
        if self.exponent() == 0 {
            self.fraction()
        } else {
            0x10_0000_0000_0000 + self.fraction()
        }
    }

    /// The power of two by which the significand is multiplied, counted
    /// from 2^-1074, the smallest binary64 step.
    pub open spec fn scale(&self) -> int {
        if self.exponent() == 0 {
            0
        } else {
            self.exponent() - 1
        }
    }

    /// The significand.
    pub fn mantissa_bits(&self) -> (r: u64)
        ensures
            r == self.mantissa(),
            r < 0x20_0000_0000_0000,
            self.exponent() > 0 ==> r >= 0x10_0000_0000_0000,
    {
        let fraction: u64 = self.bits % 0x10_0000_0000_0000;
        if (self.bits / 0x10_0000_0000_0000) % 0x800 == 0 {
            fraction
        } else {
            0x10_0000_0000_0000 + fraction
        }
    }

    /// The scale of the significand.
    pub fn scale_bits(&self) -> (r: u64)
        ensures
            r == self.scale(),
            r <= 2046,
    {
        let exponent: u64 = (self.bits / 0x10_0000_0000_0000) % 0x800;
        if exponent == 0 {
            0
        } else {
            exponent - 1
        }
    }

    /// Whether the sign bit is set.
    pub fn is_sign_negative(&self) -> (r: bool)
        ensures
            r == self.sign(),
    {
        self.bits >= 0x8000_0000_0000_0000
    }
}

/// The distance between two finite numbers in units of 2^(-1074) and
/// divided by 2^`low.scale()`, where `high` has the greater scale and the
/// scales are at most 64 apart: the difference of the significands where
/// the signs agree, their sum where they do not.
pub open spec fn distance_units(high: Float, low: Float) -> int {
    let big = high.mantissa() * pow2((high.scale() - low.scale()) as nat);
    if high.sign() == low.sign() {
        if big >= low.mantissa() {
            big - low.mantissa()
        } else {
            low.mantissa() - big
        }
    } else {
        big + low.mantissa()
    }
}

/// Whether two numbers differ by less than 2^-52 - 2^-106, which is where
/// the binary64 difference of two binary64 numbers falls below 2^-52.
///
/// In units of 2^-1074 the two numbers are integers, `mantissa * 2^scale`,
/// and the bound is `(2^54 - 1) * 2^968`. Numbers that are both below 2^-55
/// are always that close. Numbers whose scales are more than 64 apart are
/// that close exactly if the greater one is below 2^-52. For all others
/// the distance is computed and compared. An infinity or a NaN is close to
/// nothing.
pub open spec fn spec_within_epsilon(a: Float, b: Float) -> bool {
    if !a.finite() || !b.finite() {
        false
    } else if a.scale() >= b.scale() {
        close_in_scale_order(a, b)
    } else {
        close_in_scale_order(b, a)
    }
}

/// `spec_within_epsilon` for two finite numbers of which the first has the
/// greater scale, or the same.
pub open spec fn close_in_scale_order(high: Float, low: Float) -> bool {
    if high.scale() <= 966 {
        true
    } else if high.scale() - low.scale() > 64 {
        high.scale() <= 969
    } else if low.scale() >= 968 {
        distance_units(high, low) * pow2((low.scale() - 968) as nat) < 0x3F_FFFF_FFFF_FFFF
    } else {
        distance_units(high, low) < 0x3F_FFFF_FFFF_FFFF * pow2((968 - low.scale()) as nat)
    }
}

/// The power of two with the exponent `s`, in 128 bits.
pub fn wide_power_of_two(s: u64) -> (d: u128)
    requires
        s <= 65,
    ensures
        d == pow2(s as nat),
        1 <= d <= 0x2_0000_0000_0000_0000,
{
    proof {
        lemma2_to64();
    }
    let mut d: u128 = 1;
    let mut j: u64 = 0;
    while j < s
        invariant
            j <= s <= 65,
            d == pow2(j as nat),
            1 <= d,
            d <= pow2(j as nat),
            j <= 64 ==> d <= 0x1_0000_0000_0000_0000,
            j == 65 ==> d == 0x2_0000_0000_0000_0000,
        decreases s - j,
    {
        proof {
            lemma_pow2_unfold((j + 1) as nat);
            lemma2_to64();
            if j + 1 < 64 {
                lemma_pow2_strictly_increases((j + 1) as nat, 64);
            }
        }
        d = d * 2;
        j = j + 1;
    }
    d
}

/// Whether two numbers differ by less than the tolerance.
pub fn within_epsilon(a: &Float, b: &Float) -> (r: bool)
    ensures
        r == spec_within_epsilon(*a, *b),
{
    if !a.is_finite() || !b.is_finite() {
        return false;
    }
    let (high, low) = if a.scale_bits() >= b.scale_bits() {
        (a, b)
    } else {
        (b, a)
    };
    let qh = high.scale_bits();
    let ql = low.scale_bits();
    if qh <= 966 {
        return true;
    }
    let gap = qh - ql;
    if gap > 64 {
        return qh <= 969;
    }
    let mh = high.mantissa_bits();
    let ml = low.mantissa_bits();
    let p = wide_power_of_two(gap);
    assert(mh * p <= 0x20_0000_0000_0000 * 0x2_0000_0000_0000_0000) by (nonlinear_arith)
        requires
            mh < 0x20_0000_0000_0000,
            p <= 0x2_0000_0000_0000_0000,
    {
    }
    let big: u128 = (mh as u128) * p;
    let d: u128 = if high.is_sign_negative() == low.is_sign_negative() {
        if big >= ml as u128 {
            big - ml as u128
        } else {
            ml as u128 - big
        }
    } else {
        big + ml as u128
    };
    assert(d == distance_units(*high, *low));
    if ql >= 968 {
        let k = ql - 968;
        if d == 0 {
            assert(d * pow2(k as nat) == 0) by (nonlinear_arith)
                requires
                    d == 0,
            {
            }
            return true;
        }
        if k >= 54 || d >= 0x40_0000_0000_0000 {
            proof {
                lemma2_to64();
                lemma2_to64_rest();
                lemma_pow2_pos(k as nat);
                if k > 54 {
                    lemma_pow2_strictly_increases(54, k as nat);
                }
                assert(d * pow2(k as nat) >= 0x40_0000_0000_0000) by (nonlinear_arith)
                    requires
                        d >= 1,
                        pow2(k as nat) >= 1,
                        d >= 0x40_0000_0000_0000 || pow2(k as nat) >= 0x40_0000_0000_0000,
                {
                }
            }
            return false;
        }
        let pk = wide_power_of_two(k);
        proof {
            lemma2_to64();
            lemma2_to64_rest();
            lemma_pow2_strictly_increases(k as nat, 54);
        }
        assert(d * pk < 0x40_0000_0000_0000 * 0x40_0000_0000_0000) by (nonlinear_arith)
            requires
                d < 0x40_0000_0000_0000,
                pk < 0x40_0000_0000_0000,
        {
        }
        d * pk < 0x3F_FFFF_FFFF_FFFF
    } else {
        let k = 968 - ql;
        let pk = wide_power_of_two(k);
        assert(0x3F_FFFF_FFFF_FFFF * pk <= 0x3F_FFFF_FFFF_FFFF * 0x2_0000_0000_0000_0000)
            by (nonlinear_arith)
            requires
                pk <= 0x2_0000_0000_0000_0000,
        {
        }
        d < 0x3F_FFFF_FFFF_FFFF * pk
    }
}

impl Float {
    /// The magnitude of a finite number in units of 2^-1074: the
    /// significand times two to the scale.
    pub open spec fn scaled_magnitude(&self) -> int {
        self.mantissa() * pow2(self.scale() as nat)
    }

    /// A finite number in units of 2^-1074, which is an integer.
    pub open spec fn scaled(&self) -> int {
        if self.sign() {
            -self.scaled_magnitude()
        } else {
            self.scaled_magnitude()
        }
    }
}

/// The tolerance in units of 2^-1074: 2^-52 - 2^-106.
pub open spec fn scaled_tolerance() -> int {
    pow2(1022) - pow2(968)
}

/// Powers of two grow with their exponents.
pub proof fn lemma_pow2_grows(e1: nat, e2: nat)
    requires
        e1 <= e2,
    ensures
        pow2(e1) <= pow2(e2),
{
    if e1 < e2 {
        lemma_pow2_strictly_increases(e1, e2);
    }
}

/// What the fields of a finite number are bounded by.
pub proof fn lemma_field_bounds(f: Float)
    requires
        f.finite(),
    ensures
        0 <= f.scale() <= 2045,
        0 <= f.mantissa() < 0x20_0000_0000_0000,
        f.scale() > 0 ==> f.mantissa() >= 0x10_0000_0000_0000,
        f.scaled_magnitude() >= 0,
{
    lemma_pow2_pos(f.scale() as nat);
    assert(f.mantissa() * pow2(f.scale() as nat) >= 0) by (nonlinear_arith)
        requires
            f.mantissa() >= 0,
            pow2(f.scale() as nat) > 0,
    {
    }
}

/// The tolerance is 2^54 - 1 times 2^968.
pub proof fn lemma_tolerance_factors()
    ensures
        scaled_tolerance() == 0x3F_FFFF_FFFF_FFFF * pow2(968),
        pow2(54) == 0x40_0000_0000_0000,
        pow2(53) == 0x20_0000_0000_0000,
        pow2(52) == 0x10_0000_0000_0000,
{
    lemma2_to64();
    lemma2_to64_rest();
    lemma_pow2_adds(54, 968);
    assert(0x3F_FFFF_FFFF_FFFF * pow2(968) == 0x40_0000_0000_0000 * pow2(968) - pow2(968))
        by (nonlinear_arith);
}

/// The magnitude of a finite number lies below 2^53 times two to its
/// scale, and for a number of positive scale at or above 2^52 times that.
pub proof fn lemma_magnitude_bounds(f: Float)
    requires
        f.finite(),
    ensures
        f.scaled_magnitude() < pow2((f.scale() + 53) as nat),
        f.scale() > 0 ==> f.scaled_magnitude() >= pow2((f.scale() + 52) as nat),
{
    lemma_field_bounds(f);
    lemma_tolerance_factors();
    let q = f.scale() as nat;
    lemma_pow2_pos(q);
    lemma_pow2_adds(53, q);
    lemma_pow2_adds(52, q);
    let m = f.mantissa();
    let p = pow2(q) as int;
    assert(m * p < 0x20_0000_0000_0000 * p) by (nonlinear_arith)
        requires
            m < 0x20_0000_0000_0000,
            p > 0,
    {
    }
    if f.scale() > 0 {
        assert(m * p >= 0x10_0000_0000_0000 * p) by (nonlinear_arith)
            requires
                m >= 0x10_0000_0000_0000,
                p > 0,
        {
        }
    }
}

/// The difference of two finite numbers whose scales are at most 64 apart,
/// in units of 2^-1074, is `distance_units` times two to the lesser scale.
pub proof fn lemma_distance_units(high: Float, low: Float)
    requires
        high.finite(),
        low.finite(),
        0 <= high.scale() - low.scale() <= 64,
    ensures
        distance_units(high, low) >= 0,
        high.scaled() - low.scaled() == distance_units(high, low) * pow2(low.scale() as nat)
            || low.scaled() - high.scaled() == distance_units(high, low) * pow2(
            low.scale() as nat,
        ),
{
    lemma_field_bounds(high);
    lemma_field_bounds(low);
    let gap = (high.scale() - low.scale()) as nat;
    let ql = low.scale() as nat;
    lemma_pow2_adds(gap, ql);
    lemma_pow2_pos(gap);
    lemma_pow2_pos(ql);
    let g = pow2(gap) as int;
    let p = pow2(ql) as int;
    let mh = high.mantissa();
    let ml = low.mantissa();
    let big = mh * g;
    assert(pow2(high.scale() as nat) == g * p);
    assert(mh * (g * p) == big * p) by (nonlinear_arith)
        requires
            big == mh * g,
    {
    }
    assert(high.scaled_magnitude() == big * p);
    assert(low.scaled_magnitude() == ml * p);
    assert(big >= 0) by (nonlinear_arith)
        requires
            big == mh * g,
            mh >= 0,
            g > 0,
    {
    }
    assert((big - ml) * p == big * p - ml * p) by (nonlinear_arith);
    assert((ml - big) * p == ml * p - big * p) by (nonlinear_arith);
    assert((big + ml) * p == big * p + ml * p) by (nonlinear_arith);
}

/// Two finite numbers are within the tolerance exactly if their distance,
/// in units of 2^-1074, is below 2^1022 - 2^968: the first in scale order.
pub proof fn lemma_close_in_scale_order(high: Float, low: Float)
    requires
        high.finite(),
        low.finite(),
        high.scale() >= low.scale(),
    ensures
        close_in_scale_order(high, low) <==> -scaled_tolerance() < high.scaled() - low.scaled()
            < scaled_tolerance(),
{
    lemma_field_bounds(high);
    lemma_field_bounds(low);
    lemma_tolerance_factors();
    lemma_magnitude_bounds(high);
    lemma_magnitude_bounds(low);
    let t = scaled_tolerance();
    let sh = high.scaled_magnitude();
    let sl = low.scaled_magnitude();
    let qh = high.scale();
    let ql = low.scale();
    let diff = high.scaled() - low.scaled();
    lemma_pow2_adds(1, 1021);
    lemma_pow2_unfold(1022);
    lemma_pow2_grows(968, 1021);
    assert(t >= pow2(1021));
    if qh <= 966 {
        lemma_pow2_grows((qh + 53) as nat, 1019);
        lemma_pow2_grows((ql + 53) as nat, 1019);
        lemma_pow2_unfold(1020);
        lemma_pow2_grows(1020, 1021);
        assert(sh + sl < pow2(1020));
        assert(-t < diff < t);
    } else if qh - ql > 64 {
        lemma_pow2_grows((ql + 53) as nat, (qh - 12) as nat);
        assert(sl < pow2((qh - 12) as nat));
        if qh <= 969 {
            lemma_pow2_grows(qh as nat, 969);
            lemma_pow2_grows((qh - 12) as nat, 957);
            lemma_pow2_adds(53, 969);
            lemma_pow2_unfold(969);
            lemma_pow2_strictly_increases(957, 968);
            let m = high.mantissa();
            let p = pow2(qh as nat) as int;
            assert(m * p <= 0x1F_FFFF_FFFF_FFFF * pow2(969)) by (nonlinear_arith)
                requires
                    0 <= m <= 0x1F_FFFF_FFFF_FFFF,
                    0 <= p <= pow2(969),
            {
            }
            assert(0x1F_FFFF_FFFF_FFFF * pow2(969) == 0x20_0000_0000_0000 * pow2(969) - pow2(969))
                by (nonlinear_arith);
            assert(sh + sl < t);
            assert(-t < diff < t);
        } else {
            let k = (qh - 970) as nat;
            lemma_pow2_adds(k, 1022);
            lemma_pow2_adds(k, 958);
            lemma_pow2_pos(k);
            lemma_pow2_strictly_increases(958, 968);
            let f = pow2(k) as int;
            assert(sh >= f * pow2(1022));
            assert(sl < f * pow2(958));
            assert(f * pow2(1022) - f * pow2(958) >= pow2(1022) - pow2(958)) by (nonlinear_arith)
                requires
                    f >= 1,
                    pow2(1022) >= pow2(958),
            {
            }
            lemma_pow2_grows(958, 1022);
            assert(sh - sl > t);
            assert(!(-t < diff < t));
        }
    } else {
        lemma_distance_units(high, low);
        let d = distance_units(high, low);
        let p = pow2(ql as nat) as int;
        lemma_pow2_pos(ql as nat);
        assert(diff == d * p || -diff == d * p);
        assert(d * p >= 0) by (nonlinear_arith)
            requires
                d >= 0,
                p > 0,
        {
        }
        assert((-t < diff < t) <==> d * p < t);
        if ql >= 968 {
            let k = (ql - 968) as nat;
            lemma_pow2_adds(k, 968);
            lemma_pow2_pos(968);
            let f = pow2(k) as int;
            let u = pow2(968) as int;
            assert(d * p == (d * f) * u) by (nonlinear_arith)
                requires
                    p == f * u,
            {
            }
            assert(((d * f) * u < 0x3F_FFFF_FFFF_FFFF * u) <==> (d * f < 0x3F_FFFF_FFFF_FFFF))
                by (nonlinear_arith)
                requires
                    u > 0,
            {
            }
        } else {
            let k = (968 - ql) as nat;
            lemma_pow2_adds(k, ql as nat);
            let f = pow2(k) as int;
            assert(0x3F_FFFF_FFFF_FFFF * pow2(968) == (0x3F_FFFF_FFFF_FFFF * f) * p)
                by (nonlinear_arith)
                requires
                    pow2(968) == f * p,
            {
            }
            assert((d * p < (0x3F_FFFF_FFFF_FFFF * f) * p) <==> (d < 0x3F_FFFF_FFFF_FFFF * f))
                by (nonlinear_arith)
                requires
                    p > 0,
            {
            }
        }
    }
}

/// Two finite numbers count as equal exactly if they differ by less than
/// 2^-52 - 2^-106: in units of 2^-1074, by less than 2^1022 - 2^968.
pub proof fn lemma_within_epsilon_is_distance(a: Float, b: Float)
    requires
        a.finite(),
        b.finite(),
    ensures
        spec_within_epsilon(a, b) <==> -scaled_tolerance() < a.scaled() - b.scaled()
            < scaled_tolerance(),
        spec_within_epsilon(a, b) == spec_within_epsilon(b, a),
{
    lemma_field_bounds(a);
    lemma_field_bounds(b);
    if a.scale() >= b.scale() {
        lemma_close_in_scale_order(a, b);
        if b.scale() >= a.scale() {
            lemma_close_in_scale_order(b, a);
        }
    } else {
        lemma_close_in_scale_order(b, a);
    }
}

/// The bit pattern of a finite number without its sign is its scale
/// times 2^52 plus its significand.
pub proof fn lemma_magnitude_fields(f: Float)
    requires
        f.finite(),
    ensures
        f.magnitude() == f.scale() * 0x10_0000_0000_0000 + f.mantissa(),
{
}

/// Among finite numbers the order of the bit patterns is the order of the
/// numbers: one is less than the other exactly if it is less in units of
/// 2^-1074, and the two zeros are equal.
pub proof fn lemma_order_is_value_order(a: Float, b: Float)
    requires
        a.finite(),
        b.finite(),
    ensures
        a.spec_lt(b) <==> a.scaled() < b.scaled(),
        a.spec_le(b) <==> a.scaled() <= b.scaled(),
{
    lemma_magnitude_order(a, b);
    lemma_magnitude_order(b, a);
    lemma_field_bounds(a);
    lemma_field_bounds(b);
}

/// Among finite numbers the order of the bit patterns without sign is the
/// order of the magnitudes.
pub proof fn lemma_magnitude_order(a: Float, b: Float)
    requires
        a.finite(),
        b.finite(),
    ensures
        a.magnitude() < b.magnitude() <==> a.scaled_magnitude() < b.scaled_magnitude(),
        a.magnitude() == 0 <==> a.scaled_magnitude() == 0,
{
    lemma_field_bounds(a);
    lemma_field_bounds(b);
    lemma_magnitude_fields(a);
    lemma_magnitude_fields(b);
    lemma_magnitude_bounds(a);
    lemma_magnitude_bounds(b);
    lemma_tolerance_factors();
    let qa = a.scale() as nat;
    let qb = b.scale() as nat;
    lemma_pow2_pos(qa);
    lemma_pow2_pos(qb);
    let ma = a.mantissa();
    let mb = b.mantissa();
    let pa = pow2(qa) as int;
    let pb = pow2(qb) as int;
    assert((ma * pa == 0) <==> (ma == 0)) by (nonlinear_arith)
        requires
            pa > 0,
            ma >= 0,
    {
    }
    if qa == qb {
        assert((ma * pa < mb * pa) <==> (ma < mb)) by (nonlinear_arith)
            requires
                pa > 0,
        {
        }
    } else if qa < qb {
        lemma_pow2_grows(qa + 53, qb + 52);
        assert(a.scaled_magnitude() < b.scaled_magnitude());
        assert(a.magnitude() < b.magnitude());
    } else {
        lemma_pow2_grows(qb + 53, qa + 52);
        assert(b.scaled_magnitude() < a.scaled_magnitude());
        assert(b.magnitude() < a.magnitude());
    }
}

/// An integer below 2^53 is kept exactly: the number that stands for it is
/// the integer itself, here in units of 2^-1074.
pub proof fn lemma_small_integers_are_exact(n: nat)
    requires
        n < 0x20_0000_0000_0000,
    ensures
        float_of_nat(n).finite(),
        !float_of_nat(n).sign(),
        float_of_nat(n).scaled() == n * pow2(1074),
{
    lemma_tolerance_factors();
    lemma2_to64();
    lemma2_to64_rest();
    if n == 0 {
        assert(Float { bits: 0 }.mantissa() == 0);
        assert(0 * pow2(0) == 0) by (nonlinear_arith);
        assert(0 * pow2(1074) == 0) by (nonlinear_arith);
    } else {
        lemma_bit_length_bounds(n);
        let len = bit_length(n);
        if len > 53 {
            lemma_pow2_grows(53, (len - 1) as nat);
        }
        assert(len <= 53);
        let up = (53 - len) as nat;
        lemma_pow2_adds((len - 1) as nat, up);
        lemma_pow2_adds(len, up);
        lemma_pow2_pos(up);
        let g = pow2(up) as int;
        let sig = n * g;
        assert(0x10_0000_0000_0000 <= sig < 0x20_0000_0000_0000) by (nonlinear_arith)
            requires
                sig == n * g,
                pow2((len - 1) as nat) <= n < pow2(len),
                pow2((len - 1) as nat) * g == 0x10_0000_0000_0000,
                pow2(len) * g == 0x20_0000_0000_0000,
                g > 0,
        {
        }
        let e = 1022 + len;
        let bits = e * 0x10_0000_0000_0000 + sig - 0x10_0000_0000_0000;
        let f = float_of_nat(n);
        assert(f.bits == bits);
        assert(f.exponent() == e);
        assert(f.fraction() == sig - 0x10_0000_0000_0000);
        assert(f.mantissa() == sig);
        assert(f.scale() == 1021 + len);
        lemma_pow2_adds(up, (1021 + len) as nat);
        assert((n * g) * pow2((1021 + len) as nat) == n * (g * pow2((1021 + len) as nat)))
            by (nonlinear_arith);
    }
}

/// An integer of more than 53 binary digits is rounded to the nearest
/// number: the number that stands for it differs from it by at most half
/// of the step between neighbouring numbers of its size, which is two to
/// the number of digits that are cut off.
pub proof fn lemma_large_integers_are_nearest(n: nat)
    requires
        0x20_0000_0000_0000 <= n < 0x1_0000_0000_0000_0000,
    ensures
        float_of_nat(n).finite(),
        !float_of_nat(n).sign(),
        bit_length(n) > 53,
        ({
            let cut = (bit_length(n) - 53) as nat;
            let exact = n * pow2(1074);
            let kept = float_of_nat(n).scaled();
            2 * (kept - exact) <= pow2(cut) * pow2(1074) && 2 * (exact - kept) <= pow2(cut)
                * pow2(1074)
        }),
{
    lemma_tolerance_factors();
    lemma2_to64();
    lemma2_to64_rest();
    lemma_bit_length_bounds(n);
    let len = bit_length(n);
    if len <= 53 {
        lemma_pow2_grows(len, 53);
    }
    if len > 64 {
        lemma_pow2_grows(64, (len - 1) as nat);
    }
    assert(53 < len <= 64);
    let cut = (len - 53) as nat;
    lemma_pow2_adds(52, cut);
    lemma_pow2_adds(53, cut);
    lemma_pow2_pos(cut);
    let d = pow2(cut) as int;
    let q = n as int / d;
    let r = n as int % d;
    assert(n == q * d + r && 0 <= r < d) by (nonlinear_arith)
        requires
            q == n as int / d,
            r == n as int % d,
            d > 0,
    {
    }
    assert(0x10_0000_0000_0000 <= q < 0x20_0000_0000_0000) by (nonlinear_arith)
        requires
            n == q * d + r,
            0 <= r < d,
            0x10_0000_0000_0000 * d <= n < 0x20_0000_0000_0000 * d,
            d > 0,
    {
    }
    let sig = rounded_shift(n, cut) as int;
    assert(sig == q || sig == q + 1);
    assert(2 * (sig * d - n) <= d && 2 * (n - sig * d) <= d) by (nonlinear_arith)
        requires
            n == q * d + r,
            0 <= r < d,
            sig == if 2 * r > d || (2 * r == d && q % 2 == 1) {
                q + 1
            } else {
                q
            },
    {
    }
    let f = float_of_nat(n);
    let bits = (1022 + len) * 0x10_0000_0000_0000 + sig - 0x10_0000_0000_0000;
    assert(f.bits == bits);
    let scale: nat = if sig == 0x20_0000_0000_0000 {
        (1022 + len) as nat
    } else {
        (1021 + len) as nat
    };
    assert(f.scale() == scale);
    assert(f.mantissa() == if sig == 0x20_0000_0000_0000 {
        0x10_0000_0000_0000
    } else {
        sig
    });
    lemma_pow2_unfold((1022 + len) as nat);
    lemma_pow2_adds(cut, 1074);
    lemma_pow2_pos(1074);
    let p = pow2(1074) as int;
    let whole = pow2((1021 + len) as nat) as int;
    assert(whole == d * p);
    assert(f.scaled() == sig * whole) by (nonlinear_arith)
        requires
            f.scaled() == f.mantissa() * pow2(scale),
            f.mantissa() == if sig == 0x20_0000_0000_0000 {
                0x10_0000_0000_0000
            } else {
                sig
            },
            pow2(scale) == if sig == 0x20_0000_0000_0000 {
                2 * whole
            } else {
                whole
            },
    {
    }
    assert(sig * (d * p) - n * p == (sig * d - n) * p) by (nonlinear_arith);
    assert(2 * ((sig * d - n) * p) <= d * p && 2 * ((n - sig * d) * p) <= d * p)
        by (nonlinear_arith)
        requires
            2 * (sig * d - n) <= d,
            2 * (n - sig * d) <= d,
            p > 0,
    {
    }
    assert((n - sig * d) * p == n * p - sig * (d * p)) by (nonlinear_arith);
}

} // verus!
