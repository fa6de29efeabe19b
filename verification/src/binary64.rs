//! IEEE 754 binary64 numbers as bit patterns, with correctly rounded arithmetic.
//!
//! Rates, ratios and averages are kept in this form. A caller that holds such a
//! number in a native register hands over its bit pattern and gets one back.
use vstd::prelude::*;
use vstd::arithmetic::power2::{pow2, lemma_pow2_pos, lemma_pow2_unfold, lemma_pow2_adds};
use crate::rounding::{
    gap, law_rounding_is_close, law_rounding_is_monotone, law_rounding_keeps_magnitudes,
    lemma_rounded_nearest, lemma_units_monotone, lemma_units_of_parts, round_scaled, rounded,
    scaled, units, FRACTIONS, INFINITE, POINT,
};

verus! {

/// The sign bit.
pub const SIGN: u64 = 0x8000_0000_0000_0000;

/// The bit pattern of a binary64 number.
///
/// `==` compares bit patterns. `Binary64::lt` orders the numbers themselves.
#[derive(Clone, Copy, Debug, PartialEq, Eq, Structural)]
pub struct Binary64 {
    pub bits: u64,
}

/// The bits of the NaN that arithmetic gives.
pub const QUIET_NAN: u64 = 0x7ff8_0000_0000_0000;

/// The number with the given sign and magnitude.
pub open spec fn signed(negative: bool, magnitude: nat) -> Binary64 {
    Binary64 {
        bits: if negative {
            (SIGN + magnitude) as u64
        } else {
            magnitude as u64
        },
    }
}

/// `n` as a number: the nearest one there is.
pub open spec fn of_integer(n: nat) -> Binary64 {
    signed(false, rounded(n * pow2(1074), 1))
}

/// The product `a * b`.
pub open spec fn product(a: Binary64, b: Binary64) -> Binary64 {
    let negative = a.negative() != b.negative();
    if a.nan() || b.nan() {
        Binary64 { bits: QUIET_NAN }
    } else if a.infinite() || b.infinite() {
        if a.magnitude() == 0 || b.magnitude() == 0 {
            Binary64 { bits: QUIET_NAN }
        } else {
            signed(negative, INFINITE as nat)
        }
    } else {
        signed(negative, rounded(units(a.magnitude()) * units(b.magnitude()), pow2(1074)))
    }
}

/// The quotient `a / b`.
pub open spec fn quotient(a: Binary64, b: Binary64) -> Binary64 {
    let negative = a.negative() != b.negative();
    if a.nan() || b.nan() {
        Binary64 { bits: QUIET_NAN }
    } else if a.infinite() {
        if b.infinite() {
            Binary64 { bits: QUIET_NAN }
        } else {
            signed(negative, INFINITE as nat)
        }
    } else if b.infinite() {
        signed(negative, 0)
    } else if b.magnitude() == 0 {
        if a.magnitude() == 0 {
            Binary64 { bits: QUIET_NAN }
        } else {
            signed(negative, INFINITE as nat)
        }
    } else {
        signed(negative, rounded(units(a.magnitude()) * pow2(1074), units(b.magnitude())))
    }
}

/// The number `a` with its sign changed.
pub open spec fn negated(a: Binary64) -> Binary64 {
    signed(!a.negative(), a.magnitude())
}

/// The sum `a + b`.
pub open spec fn total(a: Binary64, b: Binary64) -> Binary64 {
    if a.nan() || b.nan() {
        Binary64 { bits: QUIET_NAN }
    } else if a.infinite() {
        if b.infinite() && a.negative() != b.negative() {
            Binary64 { bits: QUIET_NAN }
        } else {
            a
        }
    } else if b.infinite() {
        b
    } else {
        let exact = a.exact() + b.exact();
        if exact == 0 {
            signed(a.negative() && b.negative(), 0)
        } else {
            signed(exact < 0, rounded(if exact < 0 { -exact } else { exact } as nat, 1))
        }
    }
}

/// The difference `a - b`.
pub open spec fn difference(a: Binary64, b: Binary64) -> Binary64 {
    total(a, negated(b))
}

/// Whether `a < b`. Nothing is less than a NaN or greater than one.
pub open spec fn less(a: Binary64, b: Binary64) -> bool {
    !a.nan() && !b.nan() && a.exact() < b.exact()
}

/// The greater of `a` and `b`, ignoring a NaN; `a` where neither is greater.
pub open spec fn greater_of(a: Binary64, b: Binary64) -> Binary64 {
    if a.nan() || less(a, b) {
        b
    } else {
        a
    }
}

/// The lesser of `a` and `b`, ignoring a NaN; `a` where neither is lesser.
pub open spec fn lesser_of(a: Binary64, b: Binary64) -> Binary64 {
    if a.nan() || less(b, a) {
        b
    } else {
        a
    }
}

impl Binary64 {
    /// Whether the sign bit is set.
    pub open spec fn negative(self) -> bool {
        self.bits >= SIGN
    }

    /// The bit pattern without its sign bit.
    pub open spec fn magnitude(self) -> nat {
        if self.bits >= SIGN {
            (self.bits - SIGN) as nat
        } else {
            self.bits as nat
        }
    }

    /// Whether this is not a number.
    pub open spec fn nan(self) -> bool {
        self.magnitude() > INFINITE
    }

    /// Whether this is one of the two infinities.
    pub open spec fn infinite(self) -> bool {
        self.magnitude() == INFINITE
    }

    /// The value in units of 2^-1074; an infinity lies beyond every finite value.
    pub open spec fn exact(self) -> int {
        if self.negative() {
            -(units(self.magnitude()) as int)
        } else {
            units(self.magnitude()) as int
        }
    }

    pub(crate) fn is_negative(self) -> (r: bool)
        ensures
            r == self.negative(),
    {
        self.bits >= SIGN
    }

    pub(crate) fn unsigned(self) -> (m: u64)
        ensures
            m == self.magnitude(),
            m < SIGN,
    {
        if self.bits >= SIGN {
            self.bits - SIGN
        } else {
            self.bits
        }
    }

    fn with_sign(negative: bool, magnitude: u64) -> (r: Binary64)
        requires
            magnitude < SIGN,
        ensures
            r == signed(negative, magnitude as nat),
            r.negative() == negative,
            r.magnitude() == magnitude,
    {
        Binary64 { bits: if negative { SIGN + magnitude } else { magnitude } }
    }

    /// Whether this is not a number.
    pub fn is_nan(self) -> (r: bool)
        ensures
            r == self.nan(),
    {
        self.unsigned() > INFINITE
    }

    /// Whether this is one of the two infinities.
    pub fn is_infinite(self) -> (r: bool)
        ensures
            r == self.infinite(),
    {
        self.unsigned() == INFINITE
    }

    /// The significand and the exponent of a finite magnitude.
    pub(crate) fn parts(magnitude: u64) -> (r: (u64, u32))
        requires
            magnitude < INFINITE,
        ensures
            units(magnitude as nat) == r.0 as nat * pow2(r.1 as nat),
            r.0 < 2 * FRACTIONS,
            r.1 <= 2045,
            r.1 > 0 ==> r.0 >= FRACTIONS,
            (r.0 == 0) == (magnitude == 0),
    {
        let exponent: u64 = magnitude / FRACTIONS;
        let fraction: u64 = magnitude % FRACTIONS;
        let (s, k): (u64, u32) = if exponent == 0 {
            (fraction, 0)
        } else {
            (FRACTIONS + fraction, (exponent - 1) as u32)
        };
        assert(magnitude as nat == k as nat * FRACTIONS as nat + s as nat) by {
            assert(magnitude == exponent * FRACTIONS + fraction) by (nonlinear_arith)
                requires
                    exponent == magnitude / FRACTIONS,
                    fraction == magnitude % FRACTIONS,
                    FRACTIONS > 0,
            ;
            assert(exponent != 0 ==> exponent * FRACTIONS == k * FRACTIONS + FRACTIONS)
                by (nonlinear_arith)
                requires
                    exponent != 0 ==> k == exponent - 1,
            ;
            if exponent == 0 {
                assert(exponent * FRACTIONS == 0 && k * FRACTIONS == 0);
            }
        }
        proof {
            lemma_units_of_parts(k as nat, s as nat);
        }
        (s, k)
    }

    /// The nearest number to the integer `n`.
    pub fn from_u64(n: u64) -> (r: Binary64)
        ensures
            r == of_integer(n as nat),
    {
        let ghost num = n as nat * pow2(1074);
        proof {
            lemma_scaled_whole(num, n as nat, 1074);
        }
        let m: u64 = round_scaled(n as u128, POINT + 1075, false, Ghost(num), Ghost(1nat));
        Self::with_sign(false, m)
    }

    /// The product of two numbers.
    pub fn times(self, other: Binary64) -> (r: Binary64)
        ensures
            r == product(self, other),
    {
        let negative: bool = self.is_negative() != other.is_negative();
        if self.is_nan() || other.is_nan() {
            return Binary64 { bits: QUIET_NAN };
        }
        if self.is_infinite() || other.is_infinite() {
            if self.unsigned() == 0 || other.unsigned() == 0 {
                return Binary64 { bits: QUIET_NAN };
            }
            return Self::with_sign(negative, INFINITE);
        }
        let (s1, k1): (u64, u32) = Self::parts(self.unsigned());
        let (s2, k2): (u64, u32) = Self::parts(other.unsigned());
        assert(s1 * s2 <= 0xff_ffff_ffff_ffff * 0xff_ffff_ffff_ffff) by (nonlinear_arith)
            requires
                s1 <= 0xff_ffff_ffff_ffff,
                s2 <= 0xff_ffff_ffff_ffff,
        ;
        let q: u128 = s1 as u128 * s2 as u128;
        let ghost num = units(self.magnitude()) * units(other.magnitude());
        let w: u32 = POINT + 1 + k1 + k2 - 1074;
        proof {
            lemma_scaled_product(s1 as nat, k1 as nat, s2 as nat, k2 as nat);
            lemma_pow2_pos(1074);
        }
        let m: u64 = round_scaled(q, w, false, Ghost(num), Ghost(pow2(1074)));
        Self::with_sign(negative, m)
    }

    /// Doubles a significand until its leading bit is in place.
    fn normalize(s: u64) -> (r: (u64, u32))
        requires
            0 < s < 2 * FRACTIONS,
        ensures
            r.0 as nat == s as nat * pow2(r.1 as nat),
            FRACTIONS <= r.0 < 2 * FRACTIONS,
            r.1 <= 52,
    {
        let mut n: u64 = s;
        let mut a: u32 = 0;
        proof {
            vstd::arithmetic::power2::lemma2_to64();
        }
        while n < FRACTIONS
            invariant
                0 < s,
                0 < n < 2 * FRACTIONS,
                n as nat == s as nat * pow2(a as nat),
                a <= 52,
            decreases 2 * FRACTIONS - n,
        {
            proof {
                lemma_pow2_unfold((a + 1) as nat);
                assert(2 * n as nat == s as nat * pow2((a + 1) as nat)) by (nonlinear_arith)
                    requires
                        n as nat == s as nat * pow2(a as nat),
                        pow2((a + 1) as nat) == 2 * pow2(a as nat),
                ;
                if a == 52 {
                    vstd::arithmetic::power2::lemma2_to64_rest();
                    assert(pow2(52) == FRACTIONS);
                    assert(n >= FRACTIONS) by (nonlinear_arith)
                        requires
                            n as nat == s as nat * FRACTIONS as nat,
                            s > 0,
                    ;
                }
            }
            n = 2 * n;
            a = a + 1;
        }
        (n, a)
    }

    /// The quotient of two numbers.
    pub fn over(self, other: Binary64) -> (r: Binary64)
        ensures
            r == quotient(self, other),
    {
        let negative: bool = self.is_negative() != other.is_negative();
        if self.is_nan() || other.is_nan() {
            return Binary64 { bits: QUIET_NAN };
        }
        if self.is_infinite() {
            if other.is_infinite() {
                return Binary64 { bits: QUIET_NAN };
            }
            return Self::with_sign(negative, INFINITE);
        }
        if other.is_infinite() {
            return Self::with_sign(negative, 0);
        }
        if other.unsigned() == 0 {
            if self.unsigned() == 0 {
                return Binary64 { bits: QUIET_NAN };
            }
            return Self::with_sign(negative, INFINITE);
        }
        let (s1, k1): (u64, u32) = Self::parts(self.unsigned());
        let (s2, k2): (u64, u32) = Self::parts(other.unsigned());
        let ghost num = units(self.magnitude()) * pow2(1074);
        let ghost den = units(other.magnitude());
        proof {
            lemma_pow2_pos(k2 as nat);
            assert(den > 0) by (nonlinear_arith)
                requires
                    den == s2 as nat * pow2(k2 as nat),
                    s2 > 0,
                    pow2(k2 as nat) > 0,
            ;
        }
        if s1 == 0 {
            proof {
                assert(num == 0) by (nonlinear_arith)
                    requires
                        num == (0 * pow2(k1 as nat)) * pow2(1074),
                ;
                let (step, c) = (pow2(POINT as nat) * den, pow2(POINT as nat));
                assert(0 * step == 2 * num * c) by (nonlinear_arith)
                    requires
                        num == 0,
                ;
            }
            let m: u64 = round_scaled(0, POINT, false, Ghost(num), Ghost(den));
            return Self::with_sign(negative, m);
        }
        let (n1, a): (u64, u32) = Self::normalize(s1);
        let (n2, b): (u64, u32) = Self::normalize(s2);
        let dividend: u128 = n1 as u128 * 0x1_0000_0000_0000_0000u128;
        let q: u128 = dividend / n2 as u128;
        let rest: u128 = dividend % n2 as u128;
        let w: u32 = POINT + 1011 + b + k1 - k2 - a;
        proof {
            let d = n2 as nat;
            assert(q * d + rest == dividend && rest < d) by (nonlinear_arith)
                requires
                    q == dividend as int / d as int,
                    rest == dividend as int % d as int,
                    d > 0,
            ;
            assert(q >= 4 * FRACTIONS) by (nonlinear_arith)
                requires
                    q * d + rest == n1 * 0x1_0000_0000_0000_0000,
                    rest < d,
                    d < 2 * FRACTIONS,
                    n1 >= FRACTIONS,
                    FRACTIONS == 0x10_0000_0000_0000,
            ;
            lemma_scaled_quotient(
                s1 as nat,
                k1 as nat,
                a as nat,
                s2 as nat,
                k2 as nat,
                b as nat,
                q as nat,
                rest as nat,
            );
        }
        let m: u64 = round_scaled(q, w, rest != 0, Ghost(num), Ghost(den));
        Self::with_sign(negative, m)
    }

    /// The number with its sign changed.
    pub fn negate(self) -> (r: Binary64)
        ensures
            r == negated(self),
    {
        Self::with_sign(!self.is_negative(), self.unsigned())
    }

    /// The sum of two numbers.
    pub fn plus(self, other: Binary64) -> (r: Binary64)
        ensures
            r == total(self, other),
    {
        if self.is_nan() || other.is_nan() {
            return Binary64 { bits: QUIET_NAN };
        }
        if self.is_infinite() {
            if other.is_infinite() && self.is_negative() != other.is_negative() {
                return Binary64 { bits: QUIET_NAN };
            }
            return self;
        }
        if other.is_infinite() {
            return other;
        }
        let (s1, k1): (u64, u32) = Self::parts(self.unsigned());
        let (s2, k2): (u64, u32) = Self::parts(other.unsigned());
        if k1 >= k2 {
            Self::aligned_sum(self.is_negative(), s1, k1, other.is_negative(), s2, k2)
        } else {
            Self::aligned_sum(other.is_negative(), s2, k2, self.is_negative(), s1, k1)
        }
    }

    /// The sum of two finite numbers, the first of which has the larger exponent.
    fn aligned_sum(n1: bool, s1: u64, k1: u32, n2: bool, s2: u64, k2: u32) -> (r: Binary64)
        requires
            s1 < 2 * FRACTIONS,
            s2 < 2 * FRACTIONS,
            k2 <= k1 <= 2045,
            k1 > 0 ==> s1 >= FRACTIONS,
        ensures
            ({
                let x = s1 as nat * pow2(k1 as nat);
                let y = s2 as nat * pow2(k2 as nat);
                let exact = (if n1 { -x } else { x as int }) + (if n2 { -y } else { y as int });
                &&& exact == 0 ==> r == signed(n1 && n2, 0)
                &&& exact != 0 ==> r == signed(
                    exact < 0,
                    rounded(if exact < 0 { -exact } else { exact } as nat, 1),
                )
            }),
    {
        let ghost x = s1 as nat * pow2(k1 as nat);
        let ghost y = s2 as nat * pow2(k2 as nat);
        let ghost exact = (if n1 { -x } else { x as int }) + (if n2 { -y } else { y as int });
        let ghost size = (if exact < 0 { -exact } else { exact }) as nat;
        let d: u32 = k1 - k2;
        if d > 70 {
            // The second number is less than one step of the first, taken 18 bits further.
            let wide: u128 = s1 as u128 * 0x4_0000u128;
            let apart: bool = s2 != 0;
            let q: u128 = if apart && n1 != n2 { wide - 1 } else { wide };
            proof {
                lemma_far_apart(s1 as nat, k1 as nat, s2 as nat, k2 as nat);
                let k = (k1 - 18) as nat;
                assert(x >= pow2(k)) by (nonlinear_arith)
                    requires
                        x == (s1 as nat * 0x4_0000) * pow2(k),
                        s1 >= 1,
                ;
                lemma_pow2_pos(k);
                if s2 == 0 {
                    assert(y == 0) by (nonlinear_arith)
                        requires
                            y == 0 * pow2(k2 as nat),
                    ;
                    lemma_scaled_whole(size, q as nat, k);
                } else {
                    let p = pow2(k);
                    assert((wide + 1) * p == wide * p + p && (wide - 1) * p == wide * p - p)
                        by (nonlinear_arith);
                    lemma_scaled_between(size, q as nat, k);
                }
            }
            let m: u64 = round_scaled(q, POINT + k1 - 17, apart, Ghost(size), Ghost(1nat));
            Self::with_sign(n1, m)
        } else {
            let ghost shift = pow2(d as nat);
            let mut q1: u128 = s1 as u128;
            let mut i: u32 = 0;
            proof {
                vstd::arithmetic::power2::lemma2_to64();
                assert(q1 as nat == s1 as nat * pow2(0) && 2 * FRACTIONS as nat * pow2(0) == 2
                    * FRACTIONS as nat) by (nonlinear_arith)
                    requires
                        pow2(0) == 1,
                        q1 == s1,
                ;
            }
            while i < d
                invariant
                    i <= d <= 70,
                    s1 < 2 * FRACTIONS,
                    q1 as nat == s1 as nat * pow2(i as nat),
                    q1 < 2 * FRACTIONS as nat * pow2(i as nat),
                decreases d - i,
            {
                proof {
                    lemma_pow2_unfold((i + 1) as nat);
                    let (p, p2) = (pow2(i as nat), pow2((i + 1) as nat));
                    assert(2 * q1 as nat == s1 as nat * p2 && 2 * q1 < (2 * FRACTIONS as nat) * p2)
                        by (nonlinear_arith)
                        requires
                            q1 as nat == s1 as nat * p,
                            q1 < (2 * FRACTIONS as nat) * p,
                            p2 == 2 * p,
                    ;
                    lemma_shift_fits(i as nat);
                }
                q1 = 2 * q1;
                i = i + 1;
            }
            proof {
                if d < 70 {
                    vstd::arithmetic::power2::lemma_pow2_strictly_increases(d as nat, 70);
                }
                lemma_shift_fits(69);
                lemma_pow2_unfold(70);
                assert(q1 < 0x8000_0000_0000_0000_0000_0000_0000_0000) by (nonlinear_arith)
                    requires
                        q1 < (2 * FRACTIONS as nat) * pow2(d as nat),
                        pow2(d as nat) <= pow2(70),
                        (2 * FRACTIONS as nat) * (2 * pow2(69))
                            <= 0x4000_0000_0000_0000_0000_0000_0000_0000,
                        pow2(70) == 2 * pow2(69),
                ;
                lemma_pow2_adds(d as nat, k2 as nat);
                let p = pow2(k2 as nat);
                assert(x == q1 * p) by (nonlinear_arith)
                    requires
                        x == s1 as nat * (shift * p),
                        q1 as nat == s1 as nat * shift,
                ;
            }
            let q2: u128 = s2 as u128;
            let negative: bool = if n1 == n2 { n1 } else if q1 >= q2 { n1 } else { n2 };
            let q: u128 = if n1 == n2 {
                q1 + q2
            } else if q1 >= q2 {
                q1 - q2
            } else {
                q2 - q1
            };
            proof {
                let p = pow2(k2 as nat);
                lemma_pow2_pos(k2 as nat);
                assert(q1 * p + q2 * p == (q1 + q2) * p && q1 * p - q2 * p == (q1 - q2) * p && q2
                    * p - q1 * p == (q2 - q1) * p) by (nonlinear_arith);
                assert((q1 >= q2 ==> q1 * p >= q2 * p) && (q1 < q2 ==> q1 * p < q2 * p) && (q1 > q2
                    ==> q1 * p > q2 * p)) by (nonlinear_arith)
                    requires
                        p > 0,
                ;
                assert(q1 >= 0 && q2 >= 0 && (q1 > 0 ==> q1 * p > 0) && (q2 > 0 ==> q2 * p > 0))
                    by (nonlinear_arith)
                    requires
                        p > 0,
                ;
                assert((q1 == 0 ==> q1 * p == 0) && (q2 == 0 ==> q2 * p == 0)) by (nonlinear_arith);
                assert(size == q * p);
            }
            if q == 0 {
                return Self::with_sign(n1 && n2, 0);
            }
            proof {
                lemma_scaled_whole(size, q as nat, k2 as nat);
                assert(exact != 0);
                assert(negative == (exact < 0));
            }
            let m: u64 = round_scaled(q, POINT + 1 + k2, false, Ghost(size), Ghost(1nat));
            Self::with_sign(negative, m)
        }
    }

    /// The difference of two numbers.
    pub fn minus(self, other: Binary64) -> (r: Binary64)
        ensures
            r == difference(self, other),
    {
        self.plus(other.negate())
    }

    /// Whether this number is less than another.
    pub fn lt(self, other: Binary64) -> (r: bool)
        ensures
            r == less(self, other),
    {
        let (a, b): (u64, u64) = (self.unsigned(), other.unsigned());
        proof {
            assert(units(0) == 0);
            if a < b {
                lemma_units_monotone(a as nat, b as nat);
            }
            if b < a {
                lemma_units_monotone(b as nat, a as nat);
            }
            if a > 0 {
                lemma_units_monotone(0, a as nat);
            }
            if b > 0 {
                lemma_units_monotone(0, b as nat);
            }
        }
        if self.is_nan() || other.is_nan() {
            false
        } else if self.is_negative() {
            if other.is_negative() {
                b < a
            } else {
                a != 0 || b != 0
            }
        } else {
            !other.is_negative() && a < b
        }
    }

    /// Whether this number is greater than another.
    pub fn gt(self, other: Binary64) -> (r: bool)
        ensures
            r == less(other, self),
    {
        other.lt(self)
    }

    /// The greater of two numbers, ignoring a NaN.
    pub fn max(self, other: Binary64) -> (r: Binary64)
        ensures
            r == greater_of(self, other),
    {
        if self.is_nan() || self.lt(other) {
            other
        } else {
            self
        }
    }

    /// The lesser of two numbers, ignoring a NaN.
    pub fn min(self, other: Binary64) -> (r: Binary64)
        ensures
            r == lesser_of(self, other),
    {
        if self.is_nan() || other.lt(self) {
            other
        } else {
            self
        }
    }
}

/// A significand shifted by at most 69 bits can still be doubled.
proof fn lemma_shift_fits(i: nat)
    requires
        i <= 69,
    ensures
        (2 * FRACTIONS as nat) * (2 * pow2(i)) <= 0x4000_0000_0000_0000_0000_0000_0000_0000,
{
    vstd::arithmetic::power2::lemma2_to64();
    vstd::arithmetic::power2::lemma2_to64_rest();
    lemma_pow2_adds(64, 5);
    if i < 69 {
        vstd::arithmetic::power2::lemma_pow2_strictly_increases(i, 69);
    }
    assert(pow2(69) == 0x20_0000_0000_0000_0000);
    assert((2 * FRACTIONS as nat) * (2 * pow2(i)) <= (2 * FRACTIONS as nat) * (2 * pow2(69)))
        by (nonlinear_arith)
        requires
            pow2(i) <= pow2(69),
    ;
    assert((2 * FRACTIONS as nat) * (2 * pow2(69)) <= 0x4000_0000_0000_0000_0000_0000_0000_0000)
        by (nonlinear_arith)
        requires
            2 * FRACTIONS as nat == 0x20_0000_0000_0000,
            pow2(69) == 0x20_0000_0000_0000_0000,
    ;
}

/// Of two numbers whose exponents are far apart, the smaller is less than one step of the
/// larger, taken 18 bits further.
proof fn lemma_far_apart(s1: nat, k1: nat, s2: nat, k2: nat)
    requires
        FRACTIONS <= s1 < 2 * FRACTIONS,
        s2 < 2 * FRACTIONS,
        k1 > k2 + 70,
    ensures
        s1 * pow2(k1) == (s1 * 0x4_0000) * pow2((k1 - 18) as nat),
        s2 * pow2(k2) < pow2((k1 - 18) as nat),
        s2 > 0 ==> s2 * pow2(k2) > 0,
{
    let k = (k1 - 18) as nat;
    vstd::arithmetic::power2::lemma2_to64();
    vstd::arithmetic::power2::lemma2_to64_rest();
    lemma_pow2_adds(18, k);
    assert(s1 * pow2(k1) == (s1 * 0x4_0000) * pow2(k)) by (nonlinear_arith)
        requires
            pow2(k1) == 0x4_0000 * pow2(k),
    ;
    lemma_pow2_adds(53, k2);
    lemma_pow2_pos(k2);
    if k2 + 53 < k {
        vstd::arithmetic::power2::lemma_pow2_strictly_increases(k2 + 53, k);
    }
    assert(pow2(53) == 2 * FRACTIONS);
    assert(s2 * pow2(k2) < pow2(k) && (s2 > 0 ==> s2 * pow2(k2) > 0)) by (nonlinear_arith)
        requires
            s2 < pow2(53),
            pow2(53) * pow2(k2) <= pow2(k),
            pow2(k2) > 0,
    ;
}

/// Integers of up to 53 bits are numbers, with nothing rounded away.
pub proof fn law_small_integers_are_exact(n: nat)
    requires
        n <= 2 * FRACTIONS,
    ensures
        !of_integer(n).nan(),
        !of_integer(n).infinite(),
        of_integer(n).exact() == n * pow2(1074),
{
    let m = lemma_integer_magnitude(n);
    assert(units(m) * 1 == units(m));
    law_rounding_keeps_magnitudes(m, 1);
    assert(of_integer(n) == signed(false, m));
}

/// The bit pattern of a positive integer of up to 53 bits: moved up by `a` places, it becomes a
/// significand.
pub proof fn law_integer_pattern(n: nat, a: nat)
    requires
        a <= 52,
        FRACTIONS <= n * pow2(a) < 2 * FRACTIONS,
    ensures
        of_integer(n).bits == (1074 - a) * FRACTIONS + n * pow2(a),
{
    let f = n * pow2(a);
    let k = (1074 - a) as nat;
    let m = k * FRACTIONS as nat + f;
    lemma_units_of_parts(k, f);
    lemma_pow2_adds(a, k);
    assert(f * pow2(k) == n * pow2(1074)) by (nonlinear_arith)
        requires
            f == n * pow2(a),
            pow2(1074) == pow2(a) * pow2(k),
    ;
    assert(m < INFINITE) by (nonlinear_arith)
        requires
            m == k * FRACTIONS as nat + f,
            k <= 1074,
            f < 2 * FRACTIONS,
            FRACTIONS == 0x10_0000_0000_0000,
    ;
    assert(units(m) * 1 == n * pow2(1074));
    law_rounding_keeps_magnitudes(m, 1);
}

/// Integers of up to 53 bits are ordered as numbers as they are as integers.
pub proof fn law_small_integers_are_ordered(a: nat, b: nat)
    requires
        a <= 2 * FRACTIONS,
        b <= 2 * FRACTIONS,
    ensures
        less(of_integer(a), of_integer(b)) <==> a < b,
{
    law_small_integers_are_exact(a);
    law_small_integers_are_exact(b);
    lemma_pow2_pos(1074);
    assert(a * pow2(1074) < b * pow2(1074) <==> a < b) by (nonlinear_arith)
        requires
            pow2(1074) > 0,
    ;
}

/// A product that is a number itself is not rounded.
pub proof fn law_exact_product(a: Binary64, b: Binary64, m: nat)
    requires
        !a.nan(),
        !a.infinite(),
        !b.nan(),
        !b.infinite(),
        m < INFINITE,
        units(a.magnitude()) * units(b.magnitude()) == units(m) * pow2(1074),
    ensures
        product(a, b) == signed(a.negative() != b.negative(), m),
{
    lemma_pow2_pos(1074);
    law_rounding_keeps_magnitudes(m, pow2(1074));
}

/// A quotient that is a number itself is not rounded.
pub proof fn law_exact_quotient(a: Binary64, b: Binary64, m: nat)
    requires
        !a.nan(),
        !a.infinite(),
        !b.nan(),
        !b.infinite(),
        b.magnitude() > 0,
        m < INFINITE,
        units(a.magnitude()) * pow2(1074) == units(m) * units(b.magnitude()),
    ensures
        quotient(a, b) == signed(a.negative() != b.negative(), m),
{
    assert(units(0) == 0);
    lemma_units_monotone(0, b.magnitude());
    law_rounding_keeps_magnitudes(m, units(b.magnitude()));
}

/// A sum that is a number itself, and not zero, is not rounded.
pub proof fn law_exact_sum(a: Binary64, b: Binary64, r: Binary64)
    requires
        !a.nan(),
        !a.infinite(),
        !b.nan(),
        !b.infinite(),
        !r.nan(),
        !r.infinite(),
        a.exact() + b.exact() == r.exact(),
        r.magnitude() > 0,
    ensures
        total(a, b) == r,
{
    assert(units(0) == 0);
    lemma_units_monotone(0, r.magnitude());
    assert(units(r.magnitude()) * 1 == units(r.magnitude()));
    law_rounding_keeps_magnitudes(r.magnitude(), 1);
}

/// The magnitude of an integer of up to 53 bits.
proof fn lemma_integer_magnitude(n: nat) -> (m: nat)
    requires
        n <= 2 * FRACTIONS,
    ensures
        m < INFINITE,
        units(m) == n * pow2(1074),
{
    if n == 0 {
        assert(0 * pow2(1074) == 0) by (nonlinear_arith);
        assert(units(0) == 0);
        0
    } else {
        let a = lemma_leading_place(n);
        let f = n * pow2(a);
        let k = (1074 - a) as nat;
        lemma_units_of_parts(k, f);
        lemma_pow2_adds(a, k);
        assert(f * pow2(k) == n * pow2(1074)) by (nonlinear_arith)
            requires
                f == n * pow2(a),
                pow2(1074) == pow2(a) * pow2(k),
        ;
        assert(k * FRACTIONS as nat + f < INFINITE) by (nonlinear_arith)
            requires
                k <= 1074,
                f <= 2 * FRACTIONS,
        ;
        k * FRACTIONS as nat + f
    }
}

/// The number of places that an integer has to be moved up to become a significand.
proof fn lemma_leading_place(n: nat) -> (a: nat)
    requires
        0 < n <= 2 * FRACTIONS,
    ensures
        a <= 52,
        FRACTIONS <= n * pow2(a) <= 2 * FRACTIONS,
{
    vstd::arithmetic::power2::lemma2_to64();
    vstd::arithmetic::power2::lemma2_to64_rest();
    lemma_leading_place_from(n, 0)
}

/// The same, where it is known that fewer than `a` places are not enough.
proof fn lemma_leading_place_from(n: nat, a: nat) -> (r: nat)
    requires
        0 < n,
        n * pow2(a) <= 2 * FRACTIONS,
        a <= 52,
    ensures
        a <= r <= 52,
        FRACTIONS <= n * pow2(r) <= 2 * FRACTIONS,
    decreases 52 - a,
{
    if n * pow2(a) >= FRACTIONS {
        a
    } else {
        if a == 52 {
            vstd::arithmetic::power2::lemma2_to64_rest();
            assert(n * pow2(a) >= FRACTIONS) by (nonlinear_arith)
                requires
                    n > 0,
                    pow2(a) == FRACTIONS,
            ;
        }
        lemma_pow2_unfold(a + 1);
        assert(n * pow2(a + 1) == 2 * (n * pow2(a))) by (nonlinear_arith)
            requires
                pow2(a + 1) == 2 * pow2(a),
        ;
        lemma_leading_place_from(n, a + 1)
    }
}

/// Larger integers are not smaller numbers.
pub proof fn law_integers_keep_their_order(a: nat, b: nat)
    requires
        a <= b,
    ensures
        !less(of_integer(b), of_integer(a)),
{
    let (n1, n2) = (a * pow2(1074), b * pow2(1074));
    assert(n1 * 1 <= n2 * 1) by (nonlinear_arith)
        requires
            a <= b,
            n1 == a * pow2(1074),
            n2 == b * pow2(1074),
    ;
    law_rounding_is_monotone(n1, 1, n2, 1);
    lemma_rounded_nearest(n1, 1);
    lemma_rounded_nearest(n2, 1);
    let (x, y) = (rounded(n1, 1), rounded(n2, 1));
    if x < y {
        lemma_units_monotone(x, y);
    }
}

/// A sum and a product do not depend on the order of their terms.
pub proof fn law_sum_and_product_commute(a: Binary64, b: Binary64)
    ensures
        total(a, b) == total(b, a),
        product(a, b) == product(b, a),
{
    assert(units(a.magnitude()) * units(b.magnitude()) == units(b.magnitude()) * units(
        a.magnitude(),
    )) by (nonlinear_arith);
}

/// Of two different finite numbers, the lesser taken from the greater leaves something.
pub proof fn law_difference_is_positive(a: Binary64, b: Binary64)
    requires
        less(a, b),
    ensures
        less(Binary64 { bits: 0 }, difference(b, a)),
{
    let zero = Binary64 { bits: 0 };
    assert(units(0) == 0);
    lemma_units_monotone(0, INFINITE as nat);
    let c = negated(a);
    assert(c.magnitude() == a.magnitude() && c.negative() != a.negative());
    if !a.infinite() && !b.infinite() {
        let exact = b.exact() + c.exact();
        assert(exact == b.exact() - a.exact());
        let m = rounded(exact as nat, 1);
        assert(1 * 1 <= exact as nat * 1);
        law_rounding_is_monotone(1, 1, exact as nat, 1);
        assert(units(1) == 1);
        law_rounding_keeps_magnitudes(1, 1);
        lemma_rounded_nearest(exact as nat, 1);
        assert(m >= 1);
        lemma_units_monotone(0, m);
    } else {
        if a.infinite() && a.magnitude() == b.magnitude() {
            assert(b.negative() != a.negative());
        }
        if !a.infinite() {
            lemma_below_infinite(a);
        }
        if !b.infinite() {
            lemma_below_infinite(b);
        }
    }
}

/// A finite number lies between the infinities.
proof fn lemma_below_infinite(a: Binary64)
    requires
        !a.nan(),
        !a.infinite(),
    ensures
        units(a.magnitude()) < units(INFINITE as nat),
{
    lemma_units_monotone(a.magnitude(), INFINITE as nat);
}

/// A part of a whole is a number from zero to one.
pub proof fn law_share_is_at_most_one(part: nat, whole: nat)
    requires
        part <= whole,
        0 < whole <= u64::MAX,
    ensures
        ({
            let share = quotient(of_integer(part), of_integer(whole));
            &&& !share.nan()
            &&& !share.infinite()
            &&& !share.negative()
            &&& !less(of_integer(1), share)
        }),
{
    let (x, y) = (of_integer(part), of_integer(whole));
    let (n1, n2) = (part * pow2(1074), whole * pow2(1074));
    lemma_integer_finite(part);
    lemma_integer_finite(whole);
    assert(n1 * 1 <= n2 * 1) by (nonlinear_arith)
        requires
            part <= whole,
            n1 == part * pow2(1074),
            n2 == whole * pow2(1074),
    ;
    law_rounding_is_monotone(n1, 1, n2, 1);
    let (a, b) = (x.magnitude(), y.magnitude());
    if a < b {
        lemma_units_monotone(a, b);
    }
    // One unit at least, so the divisor is not zero.
    lemma_pow2_pos(1074);
    assert(1 * 1 <= n2 * 1) by (nonlinear_arith)
        requires
            n2 == whole * pow2(1074),
            whole > 0,
            pow2(1074) > 0,
    ;
    law_rounding_is_monotone(1, 1, n2, 1);
    assert(units(1) == 1);
    law_rounding_keeps_magnitudes(1, 1);
    assert(b >= 1);
    assert(units(0) == 0);
    lemma_units_monotone(0, b);
    let one = lemma_integer_magnitude(1);
    law_rounding_keeps_magnitudes(one, 1);
    assert(units(one) * 1 == 1 * pow2(1074));
    assert(of_integer(1).magnitude() == one);
    // The quotient is not above one, which is a number.
    let den = units(b);
    assert((units(a) * pow2(1074)) * den <= (units(one) * den) * den) by (nonlinear_arith)
        requires
            units(a) <= den,
            units(one) == pow2(1074),
    ;
    law_rounding_is_monotone(units(a) * pow2(1074), den, units(one) * den, den);
    law_rounding_keeps_magnitudes(one, den);
    let q = rounded(units(a) * pow2(1074), den);
    if q < one {
        lemma_units_monotone(q, one);
    }
}

/// What is shared out among at most as many is at least one for each.
pub proof fn law_mean_is_at_least_one(sum: nat, n: nat)
    requires
        0 < n <= sum <= u64::MAX,
    ensures
        !less(quotient(of_integer(sum), of_integer(n)), of_integer(1)),
        !quotient(of_integer(sum), of_integer(n)).nan(),
{
    let (x, y) = (of_integer(sum), of_integer(n));
    let (n1, n2) = (sum * pow2(1074), n * pow2(1074));
    lemma_integer_finite(sum);
    lemma_integer_finite(n);
    assert(n2 * 1 <= n1 * 1) by (nonlinear_arith)
        requires
            n <= sum,
            n1 == sum * pow2(1074),
            n2 == n * pow2(1074),
    ;
    law_rounding_is_monotone(n2, 1, n1, 1);
    let (a, b) = (x.magnitude(), y.magnitude());
    if b < a {
        lemma_units_monotone(b, a);
    }
    // One unit at least, so the divisor is not zero.
    lemma_pow2_pos(1074);
    assert(1 * 1 <= n2 * 1) by (nonlinear_arith)
        requires
            n2 == n * pow2(1074),
            n > 0,
            pow2(1074) > 0,
    ;
    law_rounding_is_monotone(1, 1, n2, 1);
    assert(units(1) == 1);
    law_rounding_keeps_magnitudes(1, 1);
    assert(units(0) == 0);
    lemma_units_monotone(0, b);
    let one = lemma_integer_magnitude(1);
    law_rounding_keeps_magnitudes(one, 1);
    assert(units(one) * 1 == 1 * pow2(1074));
    assert(of_integer(1).magnitude() == one);
    // The quotient is not below one, which is a number.
    let den = units(b);
    assert((units(one) * den) * den <= (units(a) * pow2(1074)) * den) by (nonlinear_arith)
        requires
            den <= units(a),
            units(one) == pow2(1074),
    ;
    law_rounding_is_monotone(units(one) * den, den, units(a) * pow2(1074), den);
    law_rounding_keeps_magnitudes(one, den);
    let q = rounded(units(a) * pow2(1074), den);
    lemma_rounded_nearest(units(a) * pow2(1074), den);
    if one < q {
        lemma_units_monotone(one, q);
    }
}

/// A number that is not negative does not grow by taking a share of at most one of it.
pub proof fn law_share_of_a_number_is_not_above_it(x: Binary64, share: Binary64)
    requires
        !x.nan(),
        !x.infinite(),
        !x.negative(),
        !share.nan(),
        !share.infinite(),
        !share.negative(),
        !less(of_integer(1), share),
    ensures
        !less(x, product(x, share)),
{
    let one = lemma_integer_magnitude(1);
    assert(units(one) * 1 == 1 * pow2(1074));
    law_rounding_keeps_magnitudes(one, 1);
    assert(of_integer(1).magnitude() == one);
    let (a, s, den) = (units(x.magnitude()), units(share.magnitude()), pow2(1074));
    lemma_pow2_pos(1074);
    assert((a * s) * den <= (a * den) * den) by (nonlinear_arith)
        requires
            s <= den,
    ;
    law_rounding_is_monotone(a * s, den, a * den, den);
    law_rounding_keeps_magnitudes(x.magnitude(), den);
    let p = rounded(a * s, den);
    if p < x.magnitude() {
        lemma_units_monotone(p, x.magnitude());
    }
}

/// The number that stands for an integer is the one nearest to it, or the even one of the two.
pub proof fn law_integer_is_nearest(n: nat, other: nat)
    requires
        other <= INFINITE,
    ensures
        !of_integer(n).nan(),
        !of_integer(n).negative(),
        gap(n * pow2(1074), units(of_integer(n).magnitude())) <= gap(
            n * pow2(1074),
            units(other),
        ),
        gap(n * pow2(1074), units(of_integer(n).magnitude())) == gap(
            n * pow2(1074),
            units(other),
        ) && other != of_integer(n).magnitude() ==> of_integer(n).magnitude() % 2 == 0,
{
    let num = n * pow2(1074);
    lemma_rounded_nearest(num, 1);
    let m = rounded(num, 1);
    assert(1 * units(m) == units(m) && 1 * units(other) == units(other));
    assert(of_integer(n).magnitude() == m);
}

/// A product of finite numbers is the number nearest to the exact product, or the even one of the
/// two, and it is negative where just one of its factors is.
pub proof fn law_product_is_nearest(a: Binary64, b: Binary64, other: nat)
    requires
        !a.nan() && !a.infinite(),
        !b.nan() && !b.infinite(),
        other <= INFINITE,
    ensures
        ({
            let exact = units(a.magnitude()) * units(b.magnitude());
            let r = product(a, b);
            &&& !r.nan()
            &&& r.negative() <==> a.negative() != b.negative()
            &&& gap(exact, pow2(1074) * units(r.magnitude())) <= gap(
                exact,
                pow2(1074) * units(other),
            )
            &&& gap(exact, pow2(1074) * units(r.magnitude())) == gap(
                exact,
                pow2(1074) * units(other),
            ) && other != r.magnitude() ==> r.magnitude() % 2 == 0
        }),
{
    let num = units(a.magnitude()) * units(b.magnitude());
    lemma_pow2_pos(1074);
    lemma_rounded_nearest(num, pow2(1074));
    let m = rounded(num, pow2(1074));
    assert(product(a, b).magnitude() == m);
}

/// A quotient of finite numbers is the number nearest to the exact quotient, or the even one of the
/// two, and it is negative where just one of its terms is.
pub proof fn law_quotient_is_nearest(a: Binary64, b: Binary64, other: nat)
    requires
        !a.nan() && !a.infinite(),
        !b.nan() && !b.infinite(),
        b.magnitude() > 0,
        other <= INFINITE,
    ensures
        ({
            let scaled_up = units(a.magnitude()) * pow2(1074);
            let r = quotient(a, b);
            &&& !r.nan()
            &&& r.negative() <==> a.negative() != b.negative()
            &&& gap(scaled_up, units(b.magnitude()) * units(r.magnitude())) <= gap(
                scaled_up,
                units(b.magnitude()) * units(other),
            )
            &&& gap(scaled_up, units(b.magnitude()) * units(r.magnitude())) == gap(
                scaled_up,
                units(b.magnitude()) * units(other),
            ) && other != r.magnitude() ==> r.magnitude() % 2 == 0
        }),
{
    let num = units(a.magnitude()) * pow2(1074);
    assert(units(0) == 0);
    lemma_units_monotone(0, b.magnitude());
    lemma_rounded_nearest(num, units(b.magnitude()));
    let m = rounded(num, units(b.magnitude()));
    assert(quotient(a, b).magnitude() == m);
}

/// A sum of finite numbers is the number nearest to the exact sum, or the even one of the two, and
/// so is a difference.
pub proof fn law_sum_is_nearest(a: Binary64, b: Binary64, other: Binary64)
    requires
        !a.nan() && !a.infinite(),
        !b.nan() && !b.infinite(),
        !other.nan(),
    ensures
        ({
            let (s, d) = (total(a, b), difference(a, b));
            let (sum, left) = (a.exact() + b.exact(), a.exact() - b.exact());
            &&& !s.nan() && !d.nan()
            &&& apart(s.exact(), sum) <= apart(other.exact(), sum)
            &&& apart(d.exact(), left) <= apart(other.exact(), left)
            &&& apart(s.exact(), sum) == apart(other.exact(), sum) && other.exact() != s.exact()
                ==> s.magnitude() % 2 == 0
            &&& apart(d.exact(), left) == apart(other.exact(), left) && other.exact() != d.exact()
                ==> d.magnitude() % 2 == 0
        }),
{
    lemma_sum_is_nearest(a, b, other);
    let c = negated(b);
    assert(c.magnitude() == b.magnitude() && c.negative() != b.negative());
    lemma_sum_is_nearest(a, c, other);
}

/// How far two integers lie apart.
pub open spec fn apart(a: int, b: int) -> nat {
    if a < b {
        (b - a) as nat
    } else {
        (a - b) as nat
    }
}

proof fn lemma_sum_is_nearest(a: Binary64, b: Binary64, other: Binary64)
    requires
        !a.nan() && !a.infinite(),
        !b.nan() && !b.infinite(),
        !other.nan(),
    ensures
        !total(a, b).nan(),
        apart(total(a, b).exact(), a.exact() + b.exact()) <= apart(
            other.exact(),
            a.exact() + b.exact(),
        ),
        apart(total(a, b).exact(), a.exact() + b.exact()) == apart(
            other.exact(),
            a.exact() + b.exact(),
        ) && other.exact() != total(a, b).exact() ==> total(a, b).magnitude() % 2 == 0,
{
    let sum = a.exact() + b.exact();
    assert(units(0) == 0);
    if sum != 0 {
        let n = if sum < 0 {
            (-sum) as nat
        } else {
            sum as nat
        };
        lemma_rounded_nearest(n, 1);
        let m = rounded(n, 1);
        let o = other.magnitude();
        assert(1 * units(m) == units(m) && 1 * units(o) == units(o));
        assert(total(a, b) == signed(sum < 0, m));
        assert(total(a, b).magnitude() == m);
        assert(gap(n, 1 * units(m)) <= gap(n, 1 * units(o)));
        if other.negative() != (sum < 0) {
            assert(gap(n, 1 * units(m)) <= gap(n, 1 * units(0)));
        }
    }
}

/// What is not a number, and what is infinite, goes through arithmetic as such.
pub proof fn law_special_values(a: Binary64, b: Binary64)
    ensures
        a.nan() || b.nan() ==> product(a, b).nan() && quotient(a, b).nan() && total(a, b).nan()
            && difference(a, b).nan() && !less(a, b) && !less(b, a),
        !a.nan() && !b.nan() && b.magnitude() == 0 ==> quotient(a, b).nan() == (a.magnitude() == 0)
            && (a.magnitude() > 0 ==> quotient(a, b).infinite()),
        a.infinite() && b.infinite() ==> quotient(a, b).nan(),
        a.infinite() && !b.nan() && !b.infinite() ==> quotient(a, b).infinite() && total(a, b) == a
            && total(b, a) == a && difference(a, b) == a,
        b.infinite() && !a.nan() && !a.infinite() ==> quotient(a, b).magnitude() == 0,
        a.infinite() && !b.nan() ==> product(a, b).nan() == (b.magnitude() == 0) && (b.magnitude()
            > 0 ==> product(a, b).infinite()),
{
    let c = negated(b);
    assert(c.magnitude() == b.magnitude() && c.negative() != b.negative());
}

/// A product or quotient is negative where just one of its terms is, infinite ones and zeros too.
/// Nothing is added up to negative nothing only from two of that kind. Infinities of opposite signs
/// cannot be added. All arithmetic gives the same NaN.
pub proof fn law_signs(a: Binary64, b: Binary64)
    ensures
        !product(a, b).nan() ==> (product(a, b).negative() <==> a.negative() != b.negative()),
        !quotient(a, b).nan() ==> (quotient(a, b).negative() <==> a.negative() != b.negative()),
        !a.nan() && !a.infinite() && !b.nan() && !b.infinite() && a.exact() + b.exact() == 0
            ==> total(a, b).magnitude() == 0 && (total(a, b).negative() <==> a.negative()
            && b.negative()),
        a.infinite() && b.infinite() && a.negative() == b.negative() ==> total(a, b) == a,
        a.infinite() && b.infinite() && a.negative() != b.negative() ==> total(a, b).nan(),
        product(a, b).nan() ==> product(a, b).bits == 0x7ff8_0000_0000_0000,
        quotient(a, b).nan() ==> quotient(a, b).bits == 0x7ff8_0000_0000_0000,
        total(a, b).nan() ==> total(a, b).bits == 0x7ff8_0000_0000_0000,
{
    assert(units(0) == 0);
    lemma_pow2_pos(1074);
    lemma_rounded_nearest(units(a.magnitude()) * units(b.magnitude()), pow2(1074));
    if b.magnitude() > 0 {
        lemma_units_monotone(0, b.magnitude());
        lemma_rounded_nearest(units(a.magnitude()) * pow2(1074), units(b.magnitude()));
    }
    let sum = a.exact() + b.exact();
    let n = if sum < 0 {
        (-sum) as nat
    } else {
        sum as nat
    };
    lemma_rounded_nearest(n, 1);
}

/// The greater of two numbers is one of them, and neither is above it; the lesser is one of them,
/// and neither is below it. What is not a number gives way, and the first of two equal ones stays.
pub proof fn law_extremes_of_two(a: Binary64, b: Binary64)
    ensures
        greater_of(a, b) == a || greater_of(a, b) == b,
        lesser_of(a, b) == a || lesser_of(a, b) == b,
        !less(greater_of(a, b), a) && !less(greater_of(a, b), b),
        !less(a, lesser_of(a, b)) && !less(b, lesser_of(a, b)),
        !a.nan() || !b.nan() ==> !greater_of(a, b).nan() && !lesser_of(a, b).nan(),
        !a.nan() && !less(a, b) ==> greater_of(a, b) == a,
        !a.nan() && !less(b, a) ==> lesser_of(a, b) == a,
{
}

/// An integer and the number that stands for it are at most one part in 2^53 apart.
proof fn lemma_integer_is_close(n: nat)
    requires
        0 < n <= u64::MAX,
    ensures
        gap(n * pow2(1074), units(of_integer(n).magnitude())) * 0x20_0000_0000_0000 <= n * pow2(
            1074,
        ),
{
    let num = n * pow2(1074);
    lemma_integer_finite(n);
    lemma_integer_room(n);
    law_rounding_is_close(num, 1);
    assert(1 * units(rounded(num, 1)) == units(rounded(num, 1)));
}

/// An integer lies well within the range of numbers.
proof fn lemma_integer_room(n: nat)
    requires
        0 < n <= u64::MAX,
    ensures
        1 * FRACTIONS <= n * pow2(1074) < 1 * units(INFINITE as nat),
        pow2(1074) >= FRACTIONS * 0x1_0000_0000_0000_0000_0000,
        0x1_0000_0000_0000_0000_0000 * pow2(1074) < units(INFINITE as nat),
{
    vstd::arithmetic::power2::lemma2_to64();
    vstd::arithmetic::power2::lemma2_to64_rest();
    lemma_pow2_adds(52, 1022);
    lemma_pow2_adds(64, 16);
    lemma_pow2_adds(80, 942);
    lemma_pow2_pos(942);
    assert(pow2(80) == 0x1_0000_0000_0000_0000_0000) by (nonlinear_arith)
        requires
            pow2(80) == pow2(64) * pow2(16),
            pow2(64) == 0x1_0000_0000_0000_0000,
            pow2(16) == 0x1_0000,
    ;
    assert(pow2(1074) >= FRACTIONS * 0x1_0000_0000_0000_0000_0000) by (nonlinear_arith)
        requires
            pow2(1074) == pow2(52) * pow2(1022),
            pow2(52) == FRACTIONS,
            pow2(1022) == pow2(80) * pow2(942),
            pow2(80) == 0x1_0000_0000_0000_0000_0000,
            pow2(942) >= 1,
    ;
    // 2^1024 is worth as much as infinity.
    let k = 2046nat;
    assert(INFINITE as nat == (k - 1) * FRACTIONS + 2 * FRACTIONS);
    lemma_units_of_parts((k - 1) as nat, 2 * FRACTIONS as nat);
    lemma_pow2_adds(1074, 971);
    lemma_pow2_adds(80, 891);
    lemma_pow2_pos(891);
    lemma_pow2_pos(1074);
    assert(0x1_0000_0000_0000_0000_0000 * pow2(1074) < units(INFINITE as nat)) by (nonlinear_arith)
        requires
            units(INFINITE as nat) == (2 * FRACTIONS) * pow2(2045),
            pow2(2045) == pow2(1074) * pow2(971),
            pow2(971) == pow2(80) * pow2(891),
            pow2(80) == 0x1_0000_0000_0000_0000_0000,
            pow2(891) >= 1,
            pow2(1074) >= 1,
            FRACTIONS == 0x10_0000_0000_0000,
    ;
    assert(n * pow2(1074) <= 0x1_0000_0000_0000_0000_0000 * pow2(1074)) by (nonlinear_arith)
        requires
            n <= 0x1_0000_0000_0000_0000_0000,
    ;
    assert(n * pow2(1074) >= pow2(1074)) by (nonlinear_arith)
        requires
            n >= 1,
    ;
}

/// The quotient of two integers, as numbers, is at most one part in 2^51 away from their exact
/// quotient.
pub proof fn law_quotient_of_integers_is_close(a: nat, b: nat)
    requires
        0 < a <= u64::MAX,
        0 < b <= u64::MAX,
    ensures
        ({
            let q = quotient(of_integer(a), of_integer(b));
            let (found, wanted) = (units(q.magnitude()) * b, a * pow2(1074));
            &&& !q.nan() && !q.infinite() && !q.negative()
            &&& found * 0x8_0000_0000_0000 <= wanted * 0x8_0000_0000_0001
            &&& found * 0x8_0000_0000_0000 >= wanted * 0x7_ffff_ffff_ffff
        }),
{
    let (x, y) = (of_integer(a), of_integer(b));
    let u = pow2(1074);
    let (ux, uy) = (units(x.magnitude()), units(y.magnitude()));
    lemma_integer_finite(a);
    lemma_integer_finite(b);
    lemma_integer_is_close(a);
    lemma_integer_is_close(b);
    lemma_integer_room(a);
    lemma_integer_room(b);
    let (sa, sb) = (a * u, b * u);
    // Both are at least half of what they stand for, and less than twice of it.
    assert(2 * ux >= sa && ux <= 2 * sa);
    assert(2 * uy >= sb && uy <= 2 * sb);
    assert(sb >= u && sa >= u) by (nonlinear_arith)
        requires
            sa == a * u,
            sb == b * u,
            a >= 1,
            b >= 1,
    ;
    assert(uy > 0);
    let num = ux * u;
    assert(y.magnitude() > 0) by {
        assert(units(0) == 0);
    }
    // The quotient is in the normal range.
    assert(uy * FRACTIONS <= num) by (nonlinear_arith)
        requires
            uy <= 2 * sb,
            sb == b * u,
            b <= 0xffff_ffff_ffff_ffff,
            2 * ux >= u,
            num == ux * u,
            u >= FRACTIONS * 0x1_0000_0000_0000_0000_0000,
            FRACTIONS == 0x10_0000_0000_0000,
    ;
    let top = units(INFINITE as nat);
    assert(num < uy * top) by (nonlinear_arith)
        requires
            ux <= 2 * sa,
            sa == a * u,
            a <= 0xffff_ffff_ffff_ffff,
            num == ux * u,
            2 * uy >= u,
            top > 0x1_0000_0000_0000_0000_0000 * u,
            u > 0,
    ;
    law_rounding_is_close(num, uy);
    let m = rounded(num, uy);
    let q = quotient(x, y);
    lemma_rounded_nearest(num, uy);
    assert(q == signed(false, m));
    assert(q.magnitude() == m);
    let uq = units(m);
    let product_q = uy * uq;
    assert(product_q * 0x20_0000_0000_0000 <= num * 0x20_0000_0000_0001 && product_q
        * 0x20_0000_0000_0000 >= num * 0x1f_ffff_ffff_ffff) by {
        assert(gap(num, product_q) * 0x20_0000_0000_0000 <= num);
    }
    // Infinity is too far away.
    if m == INFINITE {
        assert(uy * top > 2 * num) by (nonlinear_arith)
            requires
                ux <= 2 * sa,
                sa == a * u,
                a <= 0xffff_ffff_ffff_ffff,
                num == ux * u,
                2 * uy >= u,
                top > 0x1_0000_0000_0000_0000_0000 * u,
                u > 0,
        ;
    }
    let found = uq * b;
    assert(sb * 0x1f_ffff_ffff_ffff <= uy * 0x20_0000_0000_0000 <= sb * 0x20_0000_0000_0001);
    assert(sa * 0x1f_ffff_ffff_ffff <= ux * 0x20_0000_0000_0000 <= sa * 0x20_0000_0000_0001);
    assert(found * 0x1f_ffff_ffff_ffff <= ux * 0x20_0000_0000_0001) by {
        assert(uq * sb == found * u) by (nonlinear_arith)
            requires
                sb == b * u,
                found == uq * b,
        ;
        assert(uq * (sb * 0x1f_ffff_ffff_ffff) <= uq * (uy * 0x20_0000_0000_0000))
            by (nonlinear_arith)
            requires
                sb * 0x1f_ffff_ffff_ffff <= uy * 0x20_0000_0000_0000,
                uq >= 0,
        ;
        assert(uq * (sb * 0x1f_ffff_ffff_ffff) == (uq * sb) * 0x1f_ffff_ffff_ffff)
            by (nonlinear_arith);
        assert(uq * (uy * 0x20_0000_0000_0000) == product_q * 0x20_0000_0000_0000)
            by (nonlinear_arith)
            requires
                product_q == uy * uq,
        ;
        assert((found * u) * 0x1f_ffff_ffff_ffff <= num * 0x20_0000_0000_0001);
        assert(found * 0x1f_ffff_ffff_ffff <= ux * 0x20_0000_0000_0001) by (nonlinear_arith)
            requires
                (found * u) * 0x1f_ffff_ffff_ffff <= num * 0x20_0000_0000_0001,
                num == ux * u,
                u > 0,
        ;
    }
    assert(ux * 0x1f_ffff_ffff_ffff <= found * 0x20_0000_0000_0001) by {
        assert(uq * sb == found * u) by (nonlinear_arith)
            requires
                sb == b * u,
                found == uq * b,
        ;
        assert(uq * (uy * 0x20_0000_0000_0000) <= uq * (sb * 0x20_0000_0000_0001))
            by (nonlinear_arith)
            requires
                uy * 0x20_0000_0000_0000 <= sb * 0x20_0000_0000_0001,
                uq >= 0,
        ;
        assert(uq * (sb * 0x20_0000_0000_0001) == (uq * sb) * 0x20_0000_0000_0001)
            by (nonlinear_arith);
        assert(uq * (uy * 0x20_0000_0000_0000) == product_q * 0x20_0000_0000_0000)
            by (nonlinear_arith)
            requires
                product_q == uy * uq,
        ;
        assert(num * 0x1f_ffff_ffff_ffff <= (found * u) * 0x20_0000_0000_0001);
        assert(ux * 0x1f_ffff_ffff_ffff <= found * 0x20_0000_0000_0001) by (nonlinear_arith)
            requires
                num * 0x1f_ffff_ffff_ffff <= (found * u) * 0x20_0000_0000_0001,
                num == ux * u,
                u > 0,
        ;
    }
}

/// What is left of one number after another is taken from it is at most one part in 2^53 away from
/// the exact difference.
pub proof fn law_difference_is_close(a: Binary64, b: Binary64)
    requires
        !a.nan() && !a.infinite(),
        !b.nan() && !b.infinite(),
        0 < a.exact() - b.exact() < units(INFINITE as nat),
    ensures
        ({
            let (d, left) = (difference(a, b), a.exact() - b.exact());
            &&& !d.nan()
            &&& d.exact() > 0
            &&& apart(d.exact(), left) * 0x20_0000_0000_0000 <= left
        }),
{
    let c = negated(b);
    assert(c.magnitude() == b.magnitude() && c.negative() != b.negative());
    let n = (a.exact() - b.exact()) as nat;
    assert(a.exact() + c.exact() == n);
    let m = rounded(n, 1);
    lemma_rounded_nearest(n, 1);
    assert(difference(a, b) == signed(false, m));
    assert(difference(a, b).magnitude() == m);
    assert(1 * units(m) == units(m));
    if n < FRACTIONS {
        assert(units(n) == n);
        assert(units(n) * 1 == n);
        law_rounding_keeps_magnitudes(n, 1);
    } else {
        law_rounding_is_close(n, 1);
    }
}

/// A number times a fraction is at most one part in 2^50 away from the exact product, as long as
/// that is neither too small nor too large.
pub proof fn law_scaled_number_is_close(x: Binary64, n: nat, d: nat)
    requires
        !x.nan() && !x.infinite() && !x.negative(),
        0 < n <= u64::MAX,
        0 < d <= u64::MAX,
        x.exact() * n >= 2 * d * FRACTIONS,
        x.exact() * n * 2 < d * units(INFINITE as nat),
    ensures
        ({
            let r = product(x, quotient(of_integer(n), of_integer(d)));
            let (found, wanted) = (r.exact() * d, x.exact() * n);
            &&& !r.nan() && !r.infinite() && !r.negative()
            &&& found * 0x4_0000_0000_0000 <= wanted * 0x4_0000_0000_0001
            &&& found * 0x4_0000_0000_0000 >= wanted * 0x3_ffff_ffff_ffff
        }),
{
    let q = quotient(of_integer(n), of_integer(d));
    law_quotient_of_integers_is_close(n, d);
    let u = pow2(1074);
    lemma_pow2_pos(1074);
    let (ux, uq) = (units(x.magnitude()), units(q.magnitude()));
    let top = units(INFINITE as nat);
    let (num, wanted, share) = (ux * uq, ux * n, uq * d);
    // What is rounded, seen from the exact product.
    let scaled_up = ux * share;
    assert(scaled_up * 0x8_0000_0000_0000 <= wanted * u * 0x8_0000_0000_0001) by (nonlinear_arith)
        requires
            share * 0x8_0000_0000_0000 <= (n * u) * 0x8_0000_0000_0001,
            scaled_up == ux * share,
            wanted == ux * n,
    ;
    assert(scaled_up * 0x8_0000_0000_0000 >= wanted * u * 0x7_ffff_ffff_ffff) by (nonlinear_arith)
        requires
            share * 0x8_0000_0000_0000 >= (n * u) * 0x7_ffff_ffff_ffff,
            scaled_up == ux * share,
            wanted == ux * n,
    ;
    assert(scaled_up == num * d) by (nonlinear_arith)
        requires
            scaled_up == ux * share,
            share == uq * d,
            num == ux * uq,
    ;
    let goal = wanted * u;
    let low = d * FRACTIONS;
    assert(goal >= 2 * (low * u)) by (nonlinear_arith)
        requires
            wanted >= 2 * low,
            goal == wanted * u,
    ;
    let high = d * top;
    assert(goal * 2 < high * u) by (nonlinear_arith)
        requires
            wanted * 2 < high,
            goal == wanted * u,
            u > 0,
    ;
    assert(num * d >= low * u);
    assert(num * d < high * u);
    assert(u * FRACTIONS <= num) by (nonlinear_arith)
        requires
            num * d >= low * u,
            low == d * FRACTIONS,
            d > 0,
    ;
    assert(num < u * top) by (nonlinear_arith)
        requires
            num * d < high * u,
            high == d * top,
            d > 0,
    ;
    law_rounding_is_close(num, u);
    lemma_rounded_nearest(num, u);
    let m = rounded(num, u);
    let ur = units(m);
    let back = u * ur;
    let r = product(x, q);
    assert(r == signed(false, m));
    assert(r.magnitude() == m);
    let (found, found_up) = (ur * d, back * d);
    assert(found_up == found * u) by (nonlinear_arith)
        requires
            found_up == back * d,
            back == u * ur,
            found == ur * d,
    ;
    assert(back * 0x20_0000_0000_0000 <= num * 0x20_0000_0000_0001);
    assert(back * 0x20_0000_0000_0000 >= num * 0x1f_ffff_ffff_ffff);
    assert(found_up * 0x20_0000_0000_0000 <= scaled_up * 0x20_0000_0000_0001) by (nonlinear_arith)
        requires
            back * 0x20_0000_0000_0000 <= num * 0x20_0000_0000_0001,
            found_up == back * d,
            scaled_up == num * d,
    ;
    assert(found_up * 0x20_0000_0000_0000 >= scaled_up * 0x1f_ffff_ffff_ffff) by (nonlinear_arith)
        requires
            back * 0x20_0000_0000_0000 >= num * 0x1f_ffff_ffff_ffff,
            found_up == back * d,
            scaled_up == num * d,
    ;
    assert(found_up * 0x4_0000_0000_0000 <= goal * 0x4_0000_0000_0001);
    assert(found_up * 0x4_0000_0000_0000 >= goal * 0x3_ffff_ffff_ffff);
    assert(found * 0x4_0000_0000_0000 <= wanted * 0x4_0000_0000_0001) by (nonlinear_arith)
        requires
            found_up * 0x4_0000_0000_0000 <= goal * 0x4_0000_0000_0001,
            found_up == found * u,
            goal == wanted * u,
            u > 0,
    ;
    assert(found * 0x4_0000_0000_0000 >= wanted * 0x3_ffff_ffff_ffff) by (nonlinear_arith)
        requires
            found_up * 0x4_0000_0000_0000 >= goal * 0x3_ffff_ffff_ffff,
            found_up == found * u,
            goal == wanted * u,
            u > 0,
    ;
    if m == INFINITE {
        assert(found < high);
        assert(found == high) by (nonlinear_arith)
            requires
                found == ur * d,
                high == d * top,
                ur == top,
        ;
    }
}

/// Halves are exact: `n / 2` is twice as little as `n`, for one and for three.
pub proof fn law_halves_are_exact()
    ensures
        ({
            let half = quotient(of_integer(1), of_integer(2));
            &&& !half.nan() && !half.infinite() && !half.negative()
            &&& half.exact() * 2 == pow2(1074)
        }),
        ({
            let half = quotient(of_integer(3), of_integer(2));
            &&& !half.nan() && !half.infinite() && !half.negative()
            &&& half.exact() * 2 == 3 * pow2(1074)
        }),
{
    vstd::arithmetic::power2::lemma2_to64();
    vstd::arithmetic::power2::lemma2_to64_rest();
    lemma_pow2_adds(52, 1021);
    lemma_pow2_adds(51, 1022);
    lemma_pow2_adds(1, 1073);
    lemma_units_of_parts(1021, FRACTIONS as nat);
    lemma_units_of_parts(1022, 0x18_0000_0000_0000);
    let (a, b) = (1021 * FRACTIONS as nat + FRACTIONS as nat, 1022 * FRACTIONS as nat
        + 0x18_0000_0000_0000);
    law_small_integers_are_exact(1);
    law_small_integers_are_exact(2);
    law_small_integers_are_exact(3);
    let u = pow2(1074);
    assert(0x18_0000_0000_0000 * pow2(1022) == 3 * pow2(1073)) by (nonlinear_arith)
        requires
            pow2(1073) == pow2(51) * pow2(1022),
            pow2(51) == 0x8_0000_0000_0000,
    ;
    assert(FRACTIONS as nat == pow2(52));
    lemma_pow2_pos(1074);
    assert(units(0) == 0);
    let two = of_integer(2);
    assert((1 * u) * u == units(a) * (2 * u)) by (nonlinear_arith)
        requires
            u == 2 * pow2(1073),
            units(a) == pow2(1073),
    ;
    assert((3 * u) * u == units(b) * (2 * u)) by (nonlinear_arith)
        requires
            u == 2 * pow2(1073),
            units(b) == 3 * pow2(1073),
    ;
    law_exact_quotient(of_integer(1), two, a);
    law_exact_quotient(of_integer(3), two, b);
}

/// A 64-bit integer is a finite number.
proof fn lemma_integer_finite(n: nat)
    requires
        n <= u64::MAX,
    ensures
        !of_integer(n).nan(),
        !of_integer(n).infinite(),
        !of_integer(n).negative(),
        of_integer(n).magnitude() == rounded(n * pow2(1074), 1),
{
    // 2^64 is a number itself.
    let m = 1086nat * FRACTIONS as nat + FRACTIONS as nat;
    lemma_units_of_parts(1086, FRACTIONS as nat);
    vstd::arithmetic::power2::lemma2_to64();
    vstd::arithmetic::power2::lemma2_to64_rest();
    lemma_pow2_adds(12, 1074);
    assert(pow2(12) * FRACTIONS as nat == 0x1_0000_0000_0000_0000) by (nonlinear_arith)
        requires
            pow2(12) == 4096,
            FRACTIONS as nat == 0x10_0000_0000_0000,
    ;
    assert(units(m) == 0x1_0000_0000_0000_0000 * pow2(1074)) by (nonlinear_arith)
        requires
            units(m) == FRACTIONS as nat * pow2(1086),
            pow2(1086) == pow2(12) * pow2(1074),
            pow2(12) * FRACTIONS as nat == 0x1_0000_0000_0000_0000,
    ;
    assert((n * pow2(1074)) * 1 <= (units(m) * 1) * 1) by (nonlinear_arith)
        requires
            n <= 0x1_0000_0000_0000_0000,
            units(m) == 0x1_0000_0000_0000_0000 * pow2(1074),
    ;
    law_rounding_is_monotone(n * pow2(1074), 1, units(m) * 1, 1);
    law_rounding_keeps_magnitudes(m, 1);
}

/// `q * 2^k` units, as a scaled number.
proof fn lemma_scaled_whole(num: nat, q: nat, k: nat)
    requires
        num == q * pow2(k),
    ensures
        scaled(num, 1, q, k + 1 + POINT as nat, false),
{
    lemma_pow2_unfold(k + 1);
    lemma_pow2_adds(k + 1, POINT as nat);
    let c = pow2(POINT as nat);
    assert(q * (pow2(k + 1 + POINT as nat) * 1) == 2 * num * c) by (nonlinear_arith)
        requires
            num == q * pow2(k),
            pow2(k + 1) == 2 * pow2(k),
            pow2(k + 1 + POINT as nat) == pow2(k + 1) * c,
    ;
}

/// A little more than `q * 2^k` units, as a scaled number.
proof fn lemma_scaled_between(num: nat, q: nat, k: nat)
    requires
        q * pow2(k) < num < (q + 1) * pow2(k),
    ensures
        scaled(num, 1, q, k + 1 + POINT as nat, true),
{
    lemma_scaled_whole(q * pow2(k), q, k);
    lemma_scaled_whole((q + 1) * pow2(k), q + 1, k);
    lemma_pow2_pos(POINT as nat);
    let c = pow2(POINT as nat);
    let (x, z) = (q * pow2(k), (q + 1) * pow2(k));
    assert(2 * x * c < 2 * num * c < 2 * z * c) by (nonlinear_arith)
        requires
            x < num < z,
            c > 0,
    ;
}

/// The exact product of two significands, as a scaled number.
proof fn lemma_scaled_product(s1: nat, k1: nat, s2: nat, k2: nat)
    ensures
        scaled(
            (s1 * pow2(k1)) * (s2 * pow2(k2)),
            pow2(1074),
            s1 * s2,
            (POINT + 1 + k1 + k2 - 1074) as nat,
            false,
        ),
{
    let w = (POINT + 1 + k1 + k2 - 1074) as nat;
    let c = pow2(POINT as nat);
    lemma_pow2_adds(w, 1074);
    lemma_pow2_adds(k1, k2);
    lemma_pow2_unfold(k1 + k2 + 1);
    lemma_pow2_adds(k1 + k2 + 1, POINT as nat);
    assert(w + 1074 == k1 + k2 + 1 + POINT as nat);
    assert((s1 * s2) * (pow2(w) * pow2(1074)) == 2 * ((s1 * pow2(k1)) * (s2 * pow2(k2))) * c)
        by (nonlinear_arith)
        requires
            pow2(w) * pow2(1074) == (2 * (pow2(k1) * pow2(k2))) * c,
    ;
}

/// The quotient of two normalized significands, as a scaled number.
proof fn lemma_scaled_quotient(
    s1: nat,
    k1: nat,
    a: nat,
    s2: nat,
    k2: nat,
    b: nat,
    q: nat,
    rest: nat,
)
    requires
        k1 <= 2045,
        k2 <= 2045,
        a <= 52,
        b <= 52,
        q * (s2 * pow2(b)) + rest == (s1 * pow2(a)) * 0x1_0000_0000_0000_0000,
        rest < s2 * pow2(b),
    ensures
        scaled(
            (s1 * pow2(k1)) * pow2(1074),
            s2 * pow2(k2),
            q,
            (POINT + 1011 + b + k1 - k2 - a) as nat,
            rest != 0,
        ),
{
    let w = (POINT + 1011 + b + k1 - k2 - a) as nat;
    let c = pow2(POINT as nat);
    let num = (s1 * pow2(k1)) * pow2(1074);
    let step = pow2(w) * (s2 * pow2(k2));
    let target = 2 * num * c;
    let lift = pow2(a + 64);
    let x = pow2(1075 + k1 + POINT as nat);
    let divisor = s2 * pow2(b);
    lemma_pow2_pos(a + 64);
    lemma_pow2_pos(1075 + k1 + POINT as nat);
    // `lift` times both sides are multiples of the same power of two.
    vstd::arithmetic::power2::lemma2_to64();
    lemma_pow2_adds(a, 64);
    lemma_pow2_adds(w, k2);
    lemma_pow2_adds(w + k2, a + 64);
    lemma_pow2_adds(b, 1075 + k1 + POINT as nat);
    assert(w + k2 + (a + 64) == b + (1075 + k1 + POINT as nat));
    assert(step * lift == divisor * x) by (nonlinear_arith)
        requires
            step == pow2(w) * (s2 * pow2(k2)),
            (pow2(w) * pow2(k2)) * lift == pow2(b) * x,
            divisor == s2 * pow2(b),
    ;
    lemma_pow2_unfold(1075);
    lemma_pow2_adds(1075, k1);
    lemma_pow2_adds(1075 + k1, POINT as nat);
    assert(target * lift == (s1 * lift) * x) by (nonlinear_arith)
        requires
            target == 2 * ((s1 * pow2(k1)) * pow2(1074)) * c,
            x == ((2 * pow2(1074)) * pow2(k1)) * c,
    ;
    assert(s1 * lift == q * divisor + rest) by (nonlinear_arith)
        requires
            lift == pow2(a) * 0x1_0000_0000_0000_0000,
            q * divisor + rest == (s1 * pow2(a)) * 0x1_0000_0000_0000_0000,
    ;
    assert((q * step) * lift == (q * divisor) * x && ((q + 1) * step) * lift == ((q + 1) * divisor)
        * x) by (nonlinear_arith)
        requires
            step * lift == divisor * x,
    ;
    let (lo, hi) = (q * step, (q + 1) * step);
    if rest == 0 {
        assert(lo == target) by (nonlinear_arith)
            requires
                lo * lift == (q * divisor) * x,
                target * lift == (q * divisor) * x,
                lift > 0,
        ;
    } else {
        let (e, f, g) = (q * divisor, q * divisor + rest, (q + 1) * divisor);
        assert(e < f < g) by (nonlinear_arith)
            requires
                e == q * divisor,
                f == q * divisor + rest,
                g == (q + 1) * divisor,
                0 < rest < divisor,
        ;
        assert(lo < target < hi) by (nonlinear_arith)
            requires
                lo * lift == e * x,
                target * lift == f * x,
                hi * lift == g * x,
                e < f < g,
                x > 0,
                lift > 0,
        ;
    }
}

} // verus!
