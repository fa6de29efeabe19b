//! Correct rounding of exact rational numbers to binary64 magnitudes.
//!
//! A magnitude is the bit pattern of a binary64 number without its sign. Every
//! finite magnitude is a whole number of units of 2^-1074, so all of the
//! arithmetic here is about natural numbers.
use vstd::prelude::*;
use vstd::arithmetic::power2::{pow2, lemma_pow2_pos, lemma_pow2_unfold, lemma_pow2_adds};

verus! {

/// The number of values that a fraction field takes: 2^52.
pub const FRACTIONS: u64 = 0x10_0000_0000_0000;

/// The magnitude that stands for infinity; every larger one is a NaN.
pub const INFINITE: u64 = 0x7ff0_0000_0000_0000;

/// The value of the magnitude `m`, in units of 2^-1074.
///
/// Infinity has the value that would follow the largest finite magnitude, 2^1024.
pub open spec fn units(m: nat) -> nat {
    let exponent = m / (FRACTIONS as nat);
    let fraction = m % (FRACTIONS as nat);
    if exponent == 0 {
        fraction
    } else {
        (FRACTIONS as nat + fraction) * pow2((exponent - 1) as nat)
    }
}

/// The distance between two natural numbers.
pub open spec fn gap(x: nat, y: nat) -> nat {
    if x <= y {
        (y - x) as nat
    } else {
        (x - y) as nat
    }
}

/// Whether `m` is the magnitude nearest to `num / den` units, the even one of two
/// that are equally near.
pub open spec fn nearest(num: nat, den: nat, m: nat) -> bool {
    &&& m <= INFINITE
    &&& forall|s: nat|
        s <= INFINITE && s != m ==> {
            ||| gap(num, den * units(m)) < gap(num, den * #[trigger] units(s))
            ||| gap(num, den * units(m)) == gap(num, den * units(s)) && m % 2 == 0
        }
}

/// `num / den` units, rounded to the nearest magnitude with ties to even.
pub open spec fn rounded(num: nat, den: nat) -> nat {
    choose|m: nat| nearest(num, den, m)
}

/// A number whose exponent field and significand are `k` and `f` is worth `f * 2^k`.
pub proof fn lemma_units_of_parts(k: nat, f: nat)
    requires
        f <= 2 * FRACTIONS,
        f >= FRACTIONS || k == 0,
    ensures
        units(k * FRACTIONS as nat + f) == f * pow2(k),
{
    let two52 = FRACTIONS as nat;
    let m = k * two52 + f;
    lemma_pow2_pos(k);
    if f < two52 {
        assert(m / two52 == 0 && m % two52 == f);
        vstd::arithmetic::power2::lemma2_to64();
        assert(f * pow2(k) == f) by (nonlinear_arith)
            requires
                pow2(k) == 1,
        ;
    } else if f < 2 * two52 {
        let fraction = (f - two52) as nat;
        assert(m == (k + 1) * two52 + fraction) by (nonlinear_arith)
            requires
                m == k * two52 + f,
                fraction == f - two52,
        ;
        vstd::arithmetic::div_mod::lemma_fundamental_div_mod_converse(
            m as int,
            two52 as int,
            (k + 1) as int,
            fraction as int,
        );
    } else {
        assert(m == (k + 2) * two52) by (nonlinear_arith)
            requires
                m == k * two52 + 2 * two52,
        ;
        vstd::arithmetic::div_mod::lemma_fundamental_div_mod_converse(
            m as int,
            two52 as int,
            (k + 2) as int,
            0,
        );
        lemma_pow2_unfold((k + 1) as nat);
        assert(two52 * pow2((k + 1) as nat) == f * pow2(k)) by (nonlinear_arith)
            requires
                pow2((k + 1) as nat) == 2 * pow2(k),
                f == 2 * two52,
        ;
    }
}

/// The next magnitude is worth more.
proof fn lemma_units_step(m: nat)
    ensures
        units(m) < units(m + 1),
{
    let two52 = FRACTIONS as nat;
    let e = m / two52;
    let fraction = m % two52;
    assert(m == e * two52 + fraction) by {
        vstd::arithmetic::div_mod::lemma_fundamental_div_mod(m as int, two52 as int);
    }
    let (k, f) = if e == 0 {
        (0nat, fraction)
    } else {
        ((e - 1) as nat, two52 + fraction)
    };
    assert(m == k * two52 + f) by (nonlinear_arith)
        requires
            m == e * two52 + fraction,
            e == 0 ==> k == 0 && f == fraction,
            e != 0 ==> k == e - 1 && f == two52 + fraction,
    ;
    lemma_units_of_parts(k, f);
    lemma_units_of_parts(k, f + 1);
    lemma_pow2_pos(k);
    assert(f * pow2(k) < (f + 1) * pow2(k)) by (nonlinear_arith)
        requires
            pow2(k) > 0,
    ;
}

/// Larger magnitudes are worth more.
pub proof fn lemma_units_monotone(a: nat, b: nat)
    requires
        a < b,
    ensures
        units(a) < units(b),
    decreases b - a,
{
    lemma_units_step((b - 1) as nat);
    if a < b - 1 {
        lemma_units_monotone(a, (b - 1) as nat);
    }
}

/// At most one magnitude is the nearest one.
pub proof fn lemma_nearest_unique(num: nat, den: nat, a: nat, b: nat)
    requires
        den > 0,
        nearest(num, den, a),
        nearest(num, den, b),
    ensures
        a == b,
{
    if a != b {
        let (lo, hi) = if a < b {
            (a, b)
        } else {
            (b, a)
        };
        assert(gap(num, den * units(lo)) == gap(num, den * units(hi)) && lo % 2 == 0 && hi % 2
            == 0);
        let mid = lo + 1;
        lemma_units_monotone(lo, mid);
        lemma_units_monotone(mid, hi);
        let (l, c, h) = (den * units(lo), den * units(mid), den * units(hi));
        assert(l < c < h) by (nonlinear_arith)
            requires
                den > 0,
                units(lo) < units(mid) < units(hi),
                l == den * units(lo),
                c == den * units(mid),
                h == den * units(hi),
        ;
        assert(gap(num, c) < gap(num, l));
    }
}

/// A magnitude that is nearest is the rounded one.
pub proof fn lemma_rounded_is(num: nat, den: nat, m: nat)
    requires
        den > 0,
        nearest(num, den, m),
    ensures
        rounded(num, den) == m,
{
    lemma_nearest_unique(num, den, m, rounded(num, den));
}

/// Among the neighbours `m` and `m + 1` of `num / den`, the nearer one is nearest of all.
proof fn lemma_nearest_neighbour(num: nat, den: nat, m: nat, up: bool)
    requires
        den > 0,
        m < INFINITE,
        den * units(m) <= num < den * units(m + 1),
        up ==> 2 * num >= den * units(m) + den * units(m + 1),
        !up ==> 2 * num <= den * units(m) + den * units(m + 1),
        2 * num == den * units(m) + den * units(m + 1) ==> (up <==> m % 2 == 1),
    ensures
        nearest(num, den, if up { m + 1 } else { m }),
{
    let r = if up { m + 1 } else { m };
    assert forall|s: nat| s <= INFINITE && s != r implies {
        ||| gap(num, den * units(r)) < gap(num, den * #[trigger] units(s))
        ||| gap(num, den * units(r)) == gap(num, den * units(s)) && r % 2 == 0
    } by {
        let (l, h, c) = (den * units(m), den * units(m + 1), den * units(s));
        if s < m {
            lemma_units_monotone(s, m);
            assert(c < l) by (nonlinear_arith)
                requires
                    den > 0,
                    units(s) < units(m),
                    c == den * units(s),
                    l == den * units(m),
            ;
        } else if s > m + 1 {
            lemma_units_monotone(m + 1, s);
            assert(c > h) by (nonlinear_arith)
                requires
                    den > 0,
                    units(s) > units(m + 1),
                    c == den * units(s),
                    h == den * units(m + 1),
            ;
        }
    }
}

/// Whatever is at least as large as infinity rounds to infinity.
proof fn lemma_nearest_infinite(num: nat, den: nat)
    requires
        den > 0,
        num >= den * units(INFINITE as nat),
    ensures
        nearest(num, den, INFINITE as nat),
{
    let r = INFINITE as nat;
    assert forall|s: nat| s <= INFINITE && s != r implies {
        ||| gap(num, den * units(r)) < gap(num, den * #[trigger] units(s))
        ||| gap(num, den * units(r)) == gap(num, den * units(s)) && r % 2 == 0
    } by {
        lemma_units_monotone(s, r);
        let (c, h) = (den * units(s), den * units(r));
        assert(c < h) by (nonlinear_arith)
            requires
                den > 0,
                units(s) < units(r),
                c == den * units(s),
                h == den * units(r),
        ;
    }
}

/// Every non-negative rational has a nearest magnitude, and it is `rounded`.
pub proof fn lemma_rounded_nearest(num: nat, den: nat)
    requires
        den > 0,
    ensures
        nearest(num, den, rounded(num, den)),
{
    if num >= den * units(INFINITE as nat) {
        lemma_nearest_infinite(num, den);
    } else {
        assert(units(0) == 0);
        assert(den * units(0) <= num) by (nonlinear_arith)
            requires
                units(0) == 0,
        ;
        let m = lemma_neighbour_exists(num, den, INFINITE as nat);
        let up = 2 * num > den * units(m) + den * units(m + 1) || (2 * num == den * units(m) + den
            * units(m + 1) && m % 2 == 1);
        lemma_nearest_neighbour(num, den, m, up);
    }
}

/// Some magnitude below `top` is the last that does not exceed `num / den`.
proof fn lemma_neighbour_exists(num: nat, den: nat, top: nat) -> (m: nat)
    requires
        den * units(0) <= num < den * units(top),
    ensures
        m < top,
        den * units(m) <= num < den * units(m + 1),
    decreases top,
{
    if den * units((top - 1) as nat) <= num {
        (top - 1) as nat
    } else {
        lemma_neighbour_exists(num, den, (top - 1) as nat)
    }
}

/// The next magnitude is worth at most 2^-52 more, from the smallest normal magnitude on.
proof fn lemma_units_step_is_small(m: nat)
    requires
        m >= FRACTIONS,
    ensures
        (units(m + 1) - units(m)) * FRACTIONS <= units(m),
{
    let two52 = FRACTIONS as nat;
    let e = m / two52;
    let fraction = m % two52;
    vstd::arithmetic::div_mod::lemma_fundamental_div_mod(m as int, two52 as int);
    vstd::arithmetic::div_mod::lemma_mod_bound(m as int, two52 as int);
    assert(e >= 1) by (nonlinear_arith)
        requires
            m == two52 * e + fraction,
            fraction < two52,
            m >= two52,
    ;
    let (k, f) = ((e - 1) as nat, two52 + fraction);
    assert(m == k * two52 + f) by (nonlinear_arith)
        requires
            m == two52 * e + fraction,
            k == e - 1,
            f == two52 + fraction,
    ;
    lemma_units_of_parts(k, f);
    lemma_units_of_parts(k, f + 1);
    let p = pow2(k);
    assert((f + 1) * p - f * p == p) by (nonlinear_arith);
    assert(p * two52 <= f * p) by (nonlinear_arith)
        requires
            two52 <= f,
            p >= 0,
    ;
}

/// Rounding is off by at most one part in 2^53, from the smallest normal magnitude to the largest
/// finite one.
pub proof fn law_rounding_is_close(num: nat, den: nat)
    requires
        den > 0,
        den * FRACTIONS <= num < den * units(INFINITE as nat),
    ensures
        gap(num, den * units(rounded(num, den))) * 0x20_0000_0000_0000 <= num,
{
    assert(units(0) == 0);
    assert(den * units(0) == 0) by (nonlinear_arith)
        requires
            units(0) == 0,
    ;
    let m = lemma_neighbour_exists(num, den, INFINITE as nat);
    let r = rounded(num, den);
    lemma_rounded_nearest(num, den);
    vstd::arithmetic::power2::lemma2_to64();
    lemma_units_of_parts(0, FRACTIONS as nat);
    assert(units(FRACTIONS as nat) == FRACTIONS);
    if m < FRACTIONS {
        if m + 1 < FRACTIONS {
            lemma_units_monotone(m + 1, FRACTIONS as nat);
        }
        assert(den * units(m + 1) <= den * FRACTIONS) by (nonlinear_arith)
            requires
                units(m + 1) <= FRACTIONS,
        ;
    }
    lemma_units_step_is_small(m);
    let (lo, hi) = (den * units(m), den * units(m + 1));
    let off = gap(num, den * units(r));
    assert(off <= gap(num, lo));
    assert(off <= gap(num, hi));
    let step = units(m + 1) - units(m);
    assert(hi - lo == den * step) by (nonlinear_arith)
        requires
            hi == den * units(m + 1),
            lo == den * units(m),
            step == units(m + 1) - units(m),
    ;
    assert(den * step * FRACTIONS <= lo) by (nonlinear_arith)
        requires
            step * FRACTIONS <= units(m),
            lo == den * units(m),
            den > 0,
    ;
    let c = den * step;
    assert(2 * off <= c);
    assert(c * FRACTIONS == c * 0x10_0000_0000_0000) by (nonlinear_arith)
        requires
            FRACTIONS == 0x10_0000_0000_0000,
    ;
}

/// A number that is a magnitude is not changed by rounding.
pub proof fn law_rounding_keeps_magnitudes(m: nat, den: nat)
    requires
        den > 0,
        m <= INFINITE,
    ensures
        rounded(units(m) * den, den) == m,
{
    let num = units(m) * den;
    assert(num == den * units(m)) by (nonlinear_arith)
        requires
            num == units(m) * den,
    ;
    assert forall|s: nat| s <= INFINITE && s != m implies {
        ||| gap(num, den * units(m)) < gap(num, den * #[trigger] units(s))
        ||| gap(num, den * units(m)) == gap(num, den * units(s)) && m % 2 == 0
    } by {
        if s < m {
            lemma_units_monotone(s, m);
        } else {
            lemma_units_monotone(m, s);
        }
        assert(den * units(s) != den * units(m)) by (nonlinear_arith)
            requires
                den > 0,
                units(s) != units(m),
        ;
    }
    lemma_rounded_is(num, den, m);
}

/// Rounding keeps the order of numbers.
pub proof fn law_rounding_is_monotone(n1: nat, d1: nat, n2: nat, d2: nat)
    requires
        d1 > 0,
        d2 > 0,
        n1 * d2 <= n2 * d1,
    ensures
        rounded(n1, d1) <= rounded(n2, d2),
{
    let (a, b) = (rounded(n1, d1), rounded(n2, d2));
    lemma_rounded_nearest(n1, d1);
    lemma_rounded_nearest(n2, d2);
    if a > b {
        lemma_units_monotone(b, a);
        let (x, y) = (units(a), units(b));
        // The first number is not below the middle of the two magnitudes, the second not above.
        assert(gap(n1, d1 * x) <= gap(n1, d1 * y));
        assert(gap(n2, d2 * y) <= gap(n2, d2 * x));
        assert(d1 * x > d1 * y && d2 * x > d2 * y) by (nonlinear_arith)
            requires
                d1 > 0,
                d2 > 0,
                x > y,
        ;
        assert(2 * n1 >= d1 * x + d1 * y && 2 * n2 <= d2 * x + d2 * y);
        assert(2 * n1 == d1 * (x + y) && 2 * n2 == d2 * (x + y)) by (nonlinear_arith)
            requires
                d1 > 0,
                d2 > 0,
                n1 * d2 <= n2 * d1,
                2 * n1 >= d1 * x + d1 * y,
                2 * n2 <= d2 * x + d2 * y,
        ;
        assert(d1 * (x + y) == d1 * x + d1 * y && d2 * (x + y) == d2 * x + d2 * y)
            by (nonlinear_arith);
        // So it is a tie of two even magnitudes, and the one after the lower is nearer.
        assert(a % 2 == 0 && b % 2 == 0);
        lemma_units_monotone(b, b + 1);
        lemma_units_monotone(b + 1, a);
        let c = units(b + 1);
        assert(d1 * y < d1 * c < d1 * x) by (nonlinear_arith)
            requires
                d1 > 0,
                y < c < x,
        ;
        assert(gap(n1, d1 * c) < gap(n1, d1 * x));
    }
}

/// The position of the point in the scaled numbers that `round_scaled` takes.
pub const POINT: u32 = 1400;

/// `q * 2^(w - POINT)` half units are `num / den` units, or less than one step below it
/// where `sticky` is set.
pub open spec fn scaled(num: nat, den: nat, q: nat, w: nat, sticky: bool) -> bool {
    let step = pow2(w) * den;
    let target = 2 * num * pow2(POINT as nat);
    if sticky {
        q * step < target < (q + 1) * step
    } else {
        q * step == target
    }
}

/// Dropping the lowest bit of a scaled number, and remembering it if it was set.
proof fn lemma_scaled_halve(num: nat, den: nat, q: nat, w: nat, sticky: bool)
    requires
        den > 0,
        scaled(num, den, q, w, sticky),
    ensures
        scaled(num, den, q / 2, w + 1, sticky || q % 2 == 1),
{
    lemma_pow2_unfold(w + 1);
    lemma_pow2_pos(w);
    let step = pow2(w) * den;
    let wide = pow2(w + 1) * den;
    assert(wide == 2 * step && step > 0) by (nonlinear_arith)
        requires
            pow2(w + 1) == 2 * pow2(w),
            pow2(w) > 0,
            den > 0,
            step == pow2(w) * den,
            wide == pow2(w + 1) * den,
    ;
    let half = q / 2;
    assert(half * wide == (2 * half) * step && (half + 1) * wide == (2 * half + 2) * step)
        by (nonlinear_arith)
        requires
            wide == 2 * step,
    ;
    if q % 2 == 0 {
        assert(q == 2 * half);
        assert((q + 1) * step <= (2 * half + 2) * step) by (nonlinear_arith)
            requires
                q == 2 * half,
        ;
    } else {
        assert(q == 2 * half + 1);
        assert((2 * half) * step < q * step && (q + 1) * step == (2 * half + 2) * step && q * step
            < (2 * half + 2) * step) by (nonlinear_arith)
            requires
                q == 2 * half + 1,
                step > 0,
        ;
    }
}

/// Moving an exact scaled number up by one bit.
proof fn lemma_scaled_double(num: nat, den: nat, q: nat, w: nat)
    requires
        w > 0,
        scaled(num, den, q, w, false),
    ensures
        scaled(num, den, 2 * q, (w - 1) as nat, false),
{
    lemma_pow2_unfold(w);
    assert((2 * q) * (pow2((w - 1) as nat) * den) == q * (pow2(w) * den)) by (nonlinear_arith)
        requires
            pow2(w) == 2 * pow2((w - 1) as nat),
    ;
}

/// What a scaled number at or above the point says of `num / den`.
proof fn lemma_scaled_at_point(num: nat, den: nat, q: nat, k: nat, sticky: bool)
    requires
        den > 0,
        scaled(num, den, q, k + POINT as nat, sticky),
    ensures
        sticky ==> q * (pow2(k) * den) < 2 * num < (q + 1) * (pow2(k) * den),
        !sticky ==> q * (pow2(k) * den) == 2 * num,
{
    let c = pow2(POINT as nat);
    let u = pow2(k) * den;
    lemma_pow2_adds(k, POINT as nat);
    lemma_pow2_pos(POINT as nat);
    assert(pow2(k + POINT as nat) * den == u * c) by (nonlinear_arith)
        requires
            pow2(k + POINT as nat) == pow2(k) * c,
            u == pow2(k) * den,
    ;
    assert(q * (u * c) == (q * u) * c) by (nonlinear_arith);
    assert((q + 1) * (u * c) == ((q + 1) * u) * c) by (nonlinear_arith);
    let (x, y, z) = (q * u, 2 * num, (q + 1) * u);
    if sticky {
        assert(x < y < z) by (nonlinear_arith)
            requires
                x * c < y * c < z * c,
                c > 0,
        ;
    } else {
        assert(x == y) by (nonlinear_arith)
            requires
                x * c == y * c,
                c > 0,
        ;
    }
}

/// The magnitude that the significand bits `q` round to, where `q * 2^k` half units are
/// `num / den` units.
proof fn lemma_round_step(num: nat, den: nat, q: nat, k: nat, sticky: bool, up: bool)
    requires
        den > 0,
        scaled(num, den, q, k + POINT as nat, sticky),
        q < 4 * FRACTIONS,
        q >= 2 * FRACTIONS || k == 0,
        up <==> q % 2 == 1 && (sticky || (q / 2) % 2 == 1),
    ensures
        k > 2045 ==> nearest(num, den, INFINITE as nat),
        k <= 2045 ==> nearest(
            num,
            den,
            k * FRACTIONS as nat + q / 2 + if up { 1nat } else { 0nat },
        ),
{
    lemma_scaled_at_point(num, den, q, k, sticky);
    lemma_pow2_pos(k);
    let f = q / 2;
    let u = pow2(k) * den;
    assert(u > 0) by (nonlinear_arith)
        requires
            pow2(k) > 0,
            den > 0,
            u == pow2(k) * den,
    ;
    assert(q == 2 * f || q == 2 * f + 1);
    assert(f * u <= num < (f + 1) * u && (q == 2 * f ==> 2 * num < (2 * f + 1) * u) && (q == 2 * f
        + 1 ==> 2 * num >= (2 * f + 1) * u) && (q == 2 * f + 1 && sticky ==> 2 * num > (2 * f + 1)
        * u) && (q == 2 * f + 1 && !sticky ==> 2 * num == (2 * f + 1) * u)) by (nonlinear_arith)
        requires
            u > 0,
            q == 2 * f || q == 2 * f + 1,
            sticky ==> q * u < 2 * num < (q + 1) * u,
            !sticky ==> q * u == 2 * num,
    ;
    if k > 2045 {
        let top = INFINITE as nat;
        assert(top == 2046 * FRACTIONS as nat + FRACTIONS as nat);
        lemma_units_of_parts(2046, FRACTIONS as nat);
        if k > 2046 {
            vstd::arithmetic::power2::lemma_pow2_strictly_increases(2046, k);
        }
        assert(den * units(top) <= f * u) by (nonlinear_arith)
            requires
                units(top) == FRACTIONS as nat * pow2(2046),
                pow2(2046) <= pow2(k),
                f >= FRACTIONS,
                u == pow2(k) * den,
        ;
        lemma_nearest_infinite(num, den);
    } else {
        let m = k * FRACTIONS as nat + f;
        lemma_units_of_parts(k, f);
        lemma_units_of_parts(k, f + 1);
        assert(den * (f * pow2(k)) == f * u && den * ((f + 1) * pow2(k)) == (f + 1) * u)
            by (nonlinear_arith)
            requires
                u == pow2(k) * den,
        ;
        assert(f * u + (f + 1) * u == (2 * f + 1) * u) by (nonlinear_arith);
        assert(m % 2 == f % 2) by (nonlinear_arith)
            requires
                m == k * FRACTIONS as nat + f,
        ;
        assert(m < INFINITE) by (nonlinear_arith)
            requires
                m == k * FRACTIONS as nat + f,
                k <= 2045,
                f < 2 * FRACTIONS,
        ;
        assert(m + 1 == k * FRACTIONS as nat + (f + 1));
        lemma_nearest_neighbour(num, den, m, up);
    }
}

/// A 128-bit number is less than 2^128.
proof fn lemma_u128_width(q: u128)
    ensures
        q < pow2(128),
{
    vstd::arithmetic::power2::lemma2_to64();
    lemma_pow2_adds(64, 64);
    assert(pow2(64) == 0x1_0000_0000_0000_0000);
    assert(pow2(128) == 0x1_0000_0000_0000_0000 * 0x1_0000_0000_0000_0000);
}

/// Rounds the number that `q`, `w` and `sticky` describe.
pub(crate) fn round_scaled(
    q: u128,
    w: u32,
    sticky: bool,
    Ghost(num): Ghost<nat>,
    Ghost(den): Ghost<nat>,
) -> (m: u64)
    requires
        den > 0,
        w <= 10_000,
        scaled(num, den, q as nat, w as nat, sticky),
        sticky ==> q >= 4 * FRACTIONS,
    ensures
        m <= INFINITE,
        m == rounded(num, den),
{
    let mut q: u128 = q;
    let mut w: u32 = w;
    let mut sticky: bool = sticky;
    let ghost mut width: nat = 128;
    proof {
        lemma_u128_width(q);
    }
    while q >= 4 * FRACTIONS as u128 || w < POINT
        invariant
            den > 0,
            scaled(num, den, q as nat, w as nat, sticky),
            sticky ==> q >= 2 * FRACTIONS || w <= POINT,
            q < pow2(width),
            w + width <= 10_128,
        decreases q, POINT - w,
    {
        proof {
            lemma_scaled_halve(num, den, q as nat, w as nat, sticky);
            vstd::arithmetic::power2::lemma2_to64();
            if width > 0 {
                lemma_pow2_unfold(width);
                width = (width - 1) as nat;
            }
        }
        sticky = sticky || q % 2 == 1;
        q = q / 2;
        w = w + 1;
    }
    while q < 2 * FRACTIONS as u128 && w > POINT
        invariant
            den > 0,
            w >= POINT,
            q < 4 * FRACTIONS,
            scaled(num, den, q as nat, w as nat, sticky),
            sticky ==> q >= 2 * FRACTIONS || w <= POINT,
        decreases w,
    {
        proof {
            lemma_scaled_double(num, den, q as nat, w as nat);
        }
        q = 2 * q;
        w = w - 1;
    }
    let k: u32 = w - POINT;
    let up: bool = q % 2 == 1 && (sticky || (q / 2) % 2 == 1);
    proof {
        lemma_round_step(num, den, q as nat, k as nat, sticky, up);
    }
    if k > 2045 {
        proof {
            lemma_rounded_is(num, den, INFINITE as nat);
        }
        INFINITE
    } else {
        assert(k * FRACTIONS + q / 2 + 1 <= INFINITE) by (nonlinear_arith)
            requires
                k <= 2045,
                q < 4 * FRACTIONS,
        ;
        let m: u64 = k as u64 * FRACTIONS + (q / 2) as u64;
        let m: u64 = if up { m + 1 } else { m };
        proof {
            lemma_rounded_is(num, den, m as nat);
        }
        m
    }
}

} // verus!
