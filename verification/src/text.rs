//! Text of numbers and columns.
use vstd::prelude::*;
use vstd::string::*;
use vstd::arithmetic::power2::{pow2, lemma_pow2_pos, lemma_pow2_unfold, lemma_pow2_adds};
use crate::binary64::{law_small_integers_are_exact, of_integer, Binary64};
use crate::rounding::{gap, lemma_rounded_nearest, units, FRACTIONS};

verus! {

/// The character of one decimal digit.
pub open spec fn digit(d: nat) -> char {
    ('0' as nat + d) as char
}

/// The decimal text of a natural number, without leading zeros.
pub open spec fn decimal(n: nat) -> Seq<char>
    decreases n,
{
    if n < 10 {
        seq![digit(n)]
    } else {
        decimal(n / 10).push(digit(n % 10))
    }
}

/// Appends one digit.
fn push_digit(s: &mut String, d: u8)
    requires
        d < 10,
    ensures
        final(s)@ == old(s)@.push(digit(d as nat)),
{
    proof {
        reveal_strlit("0");
        reveal_strlit("1");
        reveal_strlit("2");
        reveal_strlit("3");
        reveal_strlit("4");
        reveal_strlit("5");
        reveal_strlit("6");
        reveal_strlit("7");
        reveal_strlit("8");
        reveal_strlit("9");
    }
    let text: &str = match d {
        0 => "0",
        1 => "1",
        2 => "2",
        3 => "3",
        4 => "4",
        5 => "5",
        6 => "6",
        7 => "7",
        8 => "8",
        _ => "9",
    };
    assert(text@ =~= seq![digit(d as nat)]);
    s.append(text);
    assert(s@ =~= old(s)@.push(digit(d as nat)));
}

/// Appends the decimal text of a number.
pub fn push_decimal(s: &mut String, n: u128)
    ensures
        final(s)@ == old(s)@ + decimal(n as nat),
    decreases n,
{
    if n >= 10 {
        push_decimal(s, n / 10);
    }
    push_digit(s, (n % 10) as u8);
    assert(s@ =~= old(s)@ + decimal(n as nat));
}

/// The decimal text of a number.
pub fn decimal_text(n: u128) -> (r: String)
    ensures
        r@ == decimal(n as nat),
{
    let mut s: String = String::new();
    push_decimal(&mut s, n);
    assert(s@ =~= decimal(n as nat));
    s
}

/// The number that decimal digits stand for, the lowest digit first.
spec fn digits_value(d: Seq<u8>) -> nat
    decreases d.len(),
{
    if d.len() == 0 {
        0
    } else {
        d[0] as nat + 10 * digits_value(d.drop_first())
    }
}

/// Whether every entry is a decimal digit.
spec fn are_digits(d: Seq<u8>) -> bool {
    forall|i: int| 0 <= i < d.len() ==> #[trigger] d[i] < 10
}

/// 10^n.
spec fn pow10(n: nat) -> nat
    decreases n,
{
    if n == 0 {
        1
    } else {
        10 * pow10((n - 1) as nat)
    }
}

/// A further digit counts by its place.
proof fn lemma_digits_push(d: Seq<u8>, x: u8)
    ensures
        digits_value(d.push(x)) == digits_value(d) + x as nat * pow10(d.len()),
    decreases d.len(),
{
    reveal_with_fuel(digits_value, 2);
    if d.len() == 0 {
        assert(d.push(x).drop_first() =~= Seq::<u8>::empty());
        assert(pow10(0) == 1);
        assert(x as nat * pow10(0) == x as nat) by (nonlinear_arith)
            requires
                pow10(0) == 1,
        ;
    } else {
        assert(d.push(x).drop_first() =~= d.drop_first().push(x));
        lemma_digits_push(d.drop_first(), x);
        let p = pow10((d.len() - 1) as nat);
        assert(10 * (x as nat * p) == x as nat * (10 * p)) by (nonlinear_arith);
    }
}

/// Digits with a leading digit that is not zero are the text of their number, read from the
/// top.
proof fn lemma_digits_text(d: Seq<u8>)
    requires
        d.len() > 0,
        are_digits(d),
        d.len() > 1 ==> d.last() != 0,
    ensures
        decimal(digits_value(d)) == d.reverse().map_values(|x: u8| digit(x as nat)),
    decreases d.len(),
{
    reveal_with_fuel(digits_value, 2);
    let text = d.reverse().map_values(|x: u8| digit(x as nat));
    if d.len() == 1 {
        assert(d.drop_first() =~= Seq::<u8>::empty());
        assert(text =~= seq![digit(d[0] as nat)]);
    } else {
        let rest = d.drop_first();
        assert(are_digits(rest)) by {
            assert forall|i: int| 0 <= i < rest.len() implies #[trigger] rest[i] < 10 by {
                assert(rest[i] == d[i + 1]);
            }
        }
        assert(rest.last() == d.last());
        lemma_digits_text(rest);
        lemma_leading_positive(rest);
        assert(digits_value(d) / 10 == digits_value(rest) && digits_value(d) % 10 == d[0]);
        assert(text =~= rest.reverse().map_values(|x: u8| digit(x as nat)).push(
            digit(d[0] as nat),
        ));
    }
}

/// Digits whose last is not zero stand for a positive number.
proof fn lemma_leading_positive(d: Seq<u8>)
    requires
        d.len() > 0,
        d.last() != 0,
    ensures
        digits_value(d) > 0,
    decreases d.len(),
{
    if d.len() > 1 {
        assert(d.drop_first().last() == d.last());
        lemma_leading_positive(d.drop_first());
    }
}

/// The digits of a number, the lowest first.
fn to_digits(n: u64) -> (d: Vec<u8>)
    ensures
        d@.len() > 0,
        are_digits(d@),
        d@.len() > 1 ==> d@.last() != 0,
        digits_value(d@) == n,
{
    let mut d: Vec<u8> = Vec::new();
    let mut rest: u64 = n;
    proof {
        assert(digits_value(d@) == 0);
        assert(n as nat * pow10(0) == n as nat) by (nonlinear_arith)
            requires
                pow10(0) == 1,
        ;
    }
    while rest >= 10
        invariant
            are_digits(d@),
            rest > 0 || d@.len() == 0,
            digits_value(d@) + rest as nat * pow10(d@.len()) == n,
        decreases rest,
    {
        let x: u8 = (rest % 10) as u8;
        proof {
            lemma_digits_push(d@, x);
            let p = pow10(d@.len());
            assert(x as nat * p + (rest / 10) as nat * (10 * p) == rest as nat * p)
                by (nonlinear_arith)
                requires
                    rest == 10 * (rest / 10) + x,
            ;
        }
        d.push(x);
        rest = rest / 10;
    }
    proof {
        lemma_digits_push(d@, rest as u8);
    }
    d.push(rest as u8);
    d
}

/// Doubles a number that is given by its digits.
fn double_digits(d: &mut Vec<u8>)
    requires
        old(d)@.len() > 0,
        old(d)@.len() < usize::MAX,
        are_digits(old(d)@),
        old(d)@.len() > 1 ==> old(d)@.last() != 0,
    ensures
        final(d)@.len() > 0,
        final(d)@.len() <= old(d)@.len() + 1,
        are_digits(final(d)@),
        final(d)@.len() > 1 ==> final(d)@.last() != 0,
        digits_value(final(d)@) == 2 * digits_value(old(d)@),
{
    let mut out: Vec<u8> = Vec::new();
    let mut carry: u8 = 0;
    let mut i: usize = 0;
    proof {
        assert(d@.take(0) =~= Seq::<u8>::empty());
        assert(out@ =~= Seq::<u8>::empty());
    }
    while i < d.len()
        invariant
            d@ == old(d)@,
            i <= d@.len(),
            out@.len() == i,
            carry <= 1,
            are_digits(d@),
            are_digits(out@),
            digits_value(out@) + carry as nat * pow10(i as nat) == 2 * digits_value(
                d@.take(i as int),
            ),
            d@.len() > 1 ==> d@.last() != 0,
            i == d@.len() && i > 1 && carry == 0 ==> out@.last() != 0,
        decreases d@.len() - i,
    {
        let doubled: u8 = 2 * d[i] + carry;
        let x: u8 = doubled % 10;
        let up: u8 = doubled / 10;
        proof {
            assert(d@.take(i + 1) =~= d@.take(i as int).push(d@[i as int]));
            lemma_digits_push(d@.take(i as int), d@[i as int]);
            lemma_digits_push(out@, x);
            let p = pow10(i as nat);
            let y = d@[i as int];
            assert(x as nat * p + up as nat * (10 * p) == carry as nat * p + 2 * (y as nat * p))
                by (nonlinear_arith)
                requires
                    10 * up + x == 2 * y + carry,
            ;
        }
        out.push(x);
        carry = up;
        i = i + 1;
    }
    proof {
        assert(d@.take(d@.len() as int) =~= d@);
    }
    if carry > 0 {
        proof {
            lemma_digits_push(out@, carry);
        }
        out.push(carry);
    }
    *d = out;
}

/// Appends the text of a number that is given by its digits.
fn push_digits(s: &mut String, d: &Vec<u8>)
    requires
        d@.len() > 0,
        are_digits(d@),
        d@.len() > 1 ==> d@.last() != 0,
    ensures
        final(s)@ == old(s)@ + decimal(digits_value(d@)),
{
    let ghost text = d@.reverse().map_values(|x: u8| digit(x as nat));
    let mut i: usize = d.len();
    while i > 0
        invariant
            i <= d@.len(),
            are_digits(d@),
            text == d@.reverse().map_values(|x: u8| digit(x as nat)),
            s@ == old(s)@ + text.take(d@.len() - i),
        decreases i,
    {
        i = i - 1;
        push_digit(s, d[i]);
        proof {
            let done = (d@.len() - i) as int;
            assert(text.take(done) =~= text.take(done - 1).push(digit(d@[i as int] as nat)));
            assert(s@ =~= old(s)@ + text.take(done));
        }
    }
    proof {
        lemma_digits_text(d@);
        assert(text.take(d@.len() as int) =~= text);
    }
}

/// Appends the decimal text of `n * 2^j`.
fn push_shifted(s: &mut String, n: u64, j: u32)
    requires
        j <= 2000,
    ensures
        final(s)@ == old(s)@ + decimal(n as nat * pow2(j as nat)),
{
    let mut d: Vec<u8> = to_digits(n);
    let mut i: u32 = 0;
    proof {
        vstd::arithmetic::power2::lemma2_to64();
        assert(n as nat * pow2(0) == n) by (nonlinear_arith)
            requires
                pow2(0) == 1,
        ;
        lemma_digits_short(d@, n as nat);
    }
    while i < j
        invariant
            i <= j <= 2000,
            d@.len() > 0,
            d@.len() <= 20 + i,
            are_digits(d@),
            d@.len() > 1 ==> d@.last() != 0,
            digits_value(d@) == n as nat * pow2(i as nat),
        decreases j - i,
    {
        double_digits(&mut d);
        proof {
            lemma_pow2_unfold((i + 1) as nat);
            assert(2 * (n as nat * pow2(i as nat)) == n as nat * pow2((i + 1) as nat))
                by (nonlinear_arith)
                requires
                    pow2((i + 1) as nat) == 2 * pow2(i as nat),
            ;
        }
        i = i + 1;
    }
    push_digits(s, &d);
}

/// Digits with a leading digit that is not zero are at least as large as their place.
proof fn lemma_digits_large(d: Seq<u8>)
    requires
        d.len() > 0,
        d.last() != 0,
    ensures
        digits_value(d) >= pow10((d.len() - 1) as nat),
    decreases d.len(),
{
    if d.len() == 1 {
        assert(pow10(0) == 1);
    } else {
        assert(d.drop_first().last() == d.last());
        lemma_digits_large(d.drop_first());
    }
}

/// 10^n grows with n.
proof fn lemma_pow10_grows(a: nat, b: nat)
    requires
        a <= b,
    ensures
        pow10(a) <= pow10(b),
    decreases b,
{
    if a < b {
        lemma_pow10_grows(a, (b - 1) as nat);
    }
}

/// A 64-bit number has at most 20 digits.
proof fn lemma_digits_short(d: Seq<u8>, n: nat)
    requires
        d.len() > 0,
        d.len() > 1 ==> d.last() != 0,
        digits_value(d) == n,
        n <= u64::MAX,
    ensures
        d.len() <= 20,
{
    if d.len() > 20 {
        lemma_digits_large(d);
        lemma_pow10_grows(20, (d.len() - 1) as nat);
        reveal_with_fuel(pow10, 21);
        assert(pow10(20) == 100_000_000_000_000_000_000nat);
    }
}

/// `num / den` rounded to the nearest integer, the even one of two that are equally near.
pub open spec fn half_even(num: nat, den: nat) -> nat {
    let whole = num / den;
    let rest = num % den;
    if 2 * rest > den || (2 * rest == den && whole % 2 == 1) {
        whole + 1
    } else {
        whole
    }
}

/// The sign that is written before a number.
pub open spec fn sign_text(x: Binary64) -> Seq<char> {
    if x.negative() {
        "-"@
    } else {
        ""@
    }
}

/// A number written without decimal places.
pub open spec fn fixed0(x: Binary64) -> Seq<char> {
    if x.nan() {
        "NaN"@
    } else if x.infinite() {
        sign_text(x) + "inf"@
    } else {
        sign_text(x) + decimal(half_even(units(x.magnitude()), pow2(1074)))
    }
}

/// A number written with one decimal place.
pub open spec fn fixed1(x: Binary64) -> Seq<char> {
    if x.nan() {
        "NaN"@
    } else if x.infinite() {
        sign_text(x) + "inf"@
    } else {
        let tenths = half_even(10 * units(x.magnitude()), pow2(1074));
        sign_text(x) + decimal(tenths / 10) + "."@ + decimal(tenths % 10)
    }
}

/// Both sides of a fraction can be multiplied by the same number.
proof fn lemma_half_even_scale(num: nat, den: nat, c: nat)
    requires
        den > 0,
        c > 0,
    ensures
        half_even(num * c, den * c) == half_even(num, den),
{
    let (q, r) = (num / den, num % den);
    assert(num == q * den + r && r < den) by {
        vstd::arithmetic::div_mod::lemma_fundamental_div_mod(num as int, den as int);
        assert(den * q == q * den) by (nonlinear_arith);
    }
    assert(num * c == q * (den * c) + r * c && 0 <= r * c < den * c) by (nonlinear_arith)
        requires
            num == q * den + r,
            r < den,
            c > 0,
    ;
    vstd::arithmetic::div_mod::lemma_fundamental_div_mod_converse(
        (num * c) as int,
        (den * c) as int,
        q as int,
        (r * c) as int,
    );
    assert((2 * (r * c) > den * c <==> 2 * r > den) && (2 * (r * c) == den * c <==> 2 * r == den))
        by (nonlinear_arith)
        requires
            c > 0,
    ;
}

/// `n / 2^e` rounded to the nearest integer, ties to even.
fn shift_half_even(n: u64, e: u32) -> (r: u64)
    requires
        1 <= e,
        n < 0x8000_0000_0000_0000,
    ensures
        r == half_even(n as nat, pow2(e as nat)),
{
    let mut q: u64 = n;
    let mut sticky: bool = false;
    let mut i: u32 = 0;
    let ghost mut low: nat = 0;
    proof {
        vstd::arithmetic::power2::lemma2_to64();
        assert(n as nat == n as nat * pow2(0)) by (nonlinear_arith)
            requires
                pow2(0) == 1,
        ;
    }
    while i + 1 < e
        invariant
            1 <= e,
            i < e,
            q <= n,
            low < pow2(i as nat),
            sticky == (low != 0),
            n as nat == q as nat * pow2(i as nat) + low,
        decreases e - i,
    {
        proof {
            let p = pow2(i as nat);
            lemma_pow2_unfold((i + 1) as nat);
            let bit = (q % 2) as nat;
            let more = bit * p + low;
            assert(n as nat == (q / 2) as nat * (2 * p) + more && more < 2 * p && (more != 0 <==> (
            low != 0 || bit == 1))) by (nonlinear_arith)
                requires
                    n as nat == q as nat * p + low,
                    q == 2 * (q / 2) + bit,
                    bit == 0 || bit == 1,
                    low < p,
                    more == bit * p + low,
            ;
            low = more;
        }
        sticky = sticky || q % 2 == 1;
        q = q / 2;
        i = i + 1;
    }
    let whole: u64 = q / 2;
    let bit: u64 = q % 2;
    proof {
        let p = pow2(i as nat);
        lemma_pow2_unfold(e as nat);
        let rest = bit as nat * p + low;
        assert(n as nat == whole as nat * (2 * p) + rest && rest < 2 * p && (2 * rest > 2 * p <==> (
        bit == 1 && low != 0)) && (2 * rest == 2 * p <==> (bit == 1 && low == 0)))
            by (nonlinear_arith)
            requires
                n as nat == q as nat * p + low,
                q == 2 * whole + bit,
                bit == 0 || bit == 1,
                low < p,
                rest == bit as nat * p + low,
        ;
        vstd::arithmetic::div_mod::lemma_fundamental_div_mod_converse(
            n as int,
            (2 * p) as int,
            whole as int,
            rest as int,
        );
    }
    if bit == 1 && (sticky || whole % 2 == 1) {
        whole + 1
    } else {
        whole
    }
}

/// An integer is its own rounding.
proof fn lemma_half_even_whole(n: nat, den: nat)
    requires
        den > 0,
    ensures
        half_even(n * den, den) == n,
{
    assert(n * den == n * den + 0);
    vstd::arithmetic::div_mod::lemma_fundamental_div_mod_converse(
        (n * den) as int,
        den as int,
        n as int,
        0,
    );
}

/// Appends a number without decimal places.
pub fn push_fixed0(s: &mut String, x: Binary64)
    ensures
        final(s)@ == old(s)@ + fixed0(x),
{
    if x.is_nan() {
        s.append("NaN");
        return ;
    }
    let ghost start = s@;
    let negative: bool = x.is_negative();
    if negative {
        s.append("-");
    } else {
        s.append("");
    }
    let ghost signed_start = s@;
    if x.is_infinite() {
        s.append("inf");
        assert(s@ =~= start + fixed0(x));
        return ;
    }
    let (f, k): (u64, u32) = Binary64::parts(x.unsigned());
    if k >= 1074 {
        push_shifted(s, f, k - 1074);
        proof {
            lemma_pow2_adds((k - 1074) as nat, 1074);
            lemma_pow2_pos(1074);
            let n = f as nat * pow2((k - 1074) as nat);
            assert(f as nat * pow2(k as nat) == n * pow2(1074)) by (nonlinear_arith)
                requires
                    n == f as nat * pow2((k - 1074) as nat),
                    pow2(k as nat) == pow2((k - 1074) as nat) * pow2(1074),
            ;
            lemma_half_even_whole(n, pow2(1074));
        }
    } else {
        let whole: u64 = shift_half_even(f, 1074 - k);
        proof {
            lemma_pow2_adds((1074 - k) as nat, k as nat);
            lemma_pow2_pos(k as nat);
            lemma_pow2_pos((1074 - k) as nat);
            lemma_half_even_scale(f as nat, pow2((1074 - k) as nat), pow2(k as nat));
        }
        push_decimal(s, whole as u128);
    }
    assert(s@ =~= start + fixed0(x));
}

/// Appends a number with one decimal place.
pub fn push_fixed1(s: &mut String, x: Binary64)
    ensures
        final(s)@ == old(s)@ + fixed1(x),
{
    if x.is_nan() {
        s.append("NaN");
        return ;
    }
    let ghost start = s@;
    let negative: bool = x.is_negative();
    if negative {
        s.append("-");
    } else {
        s.append("");
    }
    if x.is_infinite() {
        s.append("inf");
        assert(s@ =~= start + fixed1(x));
        return ;
    }
    let (f, k): (u64, u32) = Binary64::parts(x.unsigned());
    let ghost value = f as nat * pow2(k as nat);
    if k >= 1074 {
        push_shifted(s, f, k - 1074);
        s.append(".");
        push_decimal(s, 0);
        proof {
            lemma_pow2_adds((k - 1074) as nat, 1074);
            lemma_pow2_pos(1074);
            let n = f as nat * pow2((k - 1074) as nat);
            assert(10 * value == (10 * n) * pow2(1074)) by (nonlinear_arith)
                requires
                    value == f as nat * pow2(k as nat),
                    n == f as nat * pow2((k - 1074) as nat),
                    pow2(k as nat) == pow2((k - 1074) as nat) * pow2(1074),
            ;
            lemma_half_even_whole(10 * n, pow2(1074));
        }
    } else {
        let tenths: u64 = shift_half_even(10 * f, 1074 - k);
        proof {
            lemma_pow2_adds((1074 - k) as nat, k as nat);
            lemma_pow2_pos(k as nat);
            lemma_pow2_pos((1074 - k) as nat);
            lemma_half_even_scale((10 * f) as nat, pow2((1074 - k) as nat), pow2(k as nat));
            assert(10 * value == (10 * f) as nat * pow2(k as nat)) by (nonlinear_arith)
                requires
                    value == f as nat * pow2(k as nat),
            ;
        }
        push_decimal(s, (tenths / 10) as u128);
        s.append(".");
        push_decimal(s, (tenths % 10) as u128);
    }
    assert(s@ =~= start + fixed1(x));
}

/// `n` spaces.
pub open spec fn spaces(n: nat) -> Seq<char> {
    Seq::new(n, |i: int| ' ')
}

/// Text moved to the right end of a column.
pub open spec fn right_aligned(text: Seq<char>, width: nat) -> Seq<char> {
    if text.len() < width {
        spaces((width - text.len()) as nat) + text
    } else {
        text
    }
}

/// Appends text at the right end of a column.
pub fn push_right(s: &mut String, text: &str, width: usize)
    ensures
        final(s)@ == old(s)@ + right_aligned(text@, width as nat),
{
    let used: usize = text.unicode_len();
    let ghost start = s@;
    let mut i: usize = used;
    proof {
        reveal_strlit(" ");
    }
    assert(s@ =~= start + spaces(0));
    while i < width
        invariant
            used == text@.len(),
            used <= i,
            i <= width || i == used,
            s@ == start + spaces((i - used) as nat),
            " "@ == seq![' '],
        decreases width - i,
    {
        s.append(" ");
        i = i + 1;
        assert(s@ =~= start + spaces((i - used) as nat));
    }
    s.append(text);
    assert(s@ =~= start + right_aligned(text@, width as nat));
}

/// The text of a list of numbers, in brackets.
pub open spec fn bracketed(list: Seq<u32>) -> Seq<char> {
    "["@ + joined(list) + "]"@
}

/// Numbers with a comma and a space between them.
pub open spec fn joined(list: Seq<u32>) -> Seq<char>
    decreases list.len(),
{
    if list.len() == 0 {
        ""@
    } else if list.len() == 1 {
        decimal(list[0] as nat)
    } else {
        joined(list.drop_last()) + ", "@ + decimal(list.last() as nat)
    }
}

/// Appends the text of a list of numbers, in brackets.
pub fn push_bracketed(s: &mut String, list: &Vec<u32>)
    ensures
        final(s)@ == old(s)@ + bracketed(list@),
{
    let ghost start = s@;
    s.append("[");
    let ghost opened = s@;
    let mut i: usize = 0;
    proof {
        reveal_strlit("");
        assert(list@.take(0).len() == 0);
    }
    assert(s@ =~= opened + joined(list@.take(0)));
    while i < list.len()
        invariant
            i <= list@.len(),
            s@ == opened + joined(list@.take(i as int)),
            ""@.len() == 0,
        decreases list@.len() - i,
    {
        let ghost before = s@;
        if i > 0 {
            s.append(", ");
        }
        push_decimal(s, list[i] as u128);
        proof {
            let now = list@.take(i + 1);
            assert(now.drop_last() =~= list@.take(i as int));
            assert(now.last() == list@[i as int]);
            assert(s@ =~= opened + joined(now));
        }
        i = i + 1;
    }
    s.append("]");
    proof {
        assert(list@.take(list@.len() as int) =~= list@);
        assert(s@ =~= start + bracketed(list@));
    }
}

/// The number that a text of decimal digits is read as.
pub open spec fn read_decimal(text: Seq<char>) -> int
    decreases text.len(),
{
    if text.len() == 0 {
        0
    } else {
        10 * read_decimal(text.drop_last()) + (text.last() as int - 48)
    }
}

/// A number is read back from its text, which holds digits only, and no zero in front of others.
pub proof fn law_decimal_is_read_back(n: nat)
    ensures
        read_decimal(decimal(n)) == n,
        decimal(n).len() >= 1,
        forall|i: int| 0 <= i < decimal(n).len() ==> '0' <= #[trigger] decimal(n)[i] <= '9',
        decimal(n).len() > 1 ==> decimal(n)[0] != '0',
        n > 0 ==> decimal(n)[0] != '0',
    decreases n,
{
    let text = decimal(n);
    if n < 10 {
        assert(text.drop_last() =~= Seq::<char>::empty());
        assert(read_decimal(text.drop_last()) == 0);
        assert(text.last() as int == 48 + n);
    } else {
        let rest = n / 10;
        law_decimal_is_read_back(rest);
        assert(text.drop_last() =~= decimal(rest));
        assert(text.last() as int == 48 + n % 10);
        assert(text[0] == decimal(rest)[0]);
    }
}

/// Different numbers have different texts.
pub proof fn law_decimal_tells_numbers_apart(a: nat, b: nat)
    requires
        decimal(a) == decimal(b),
    ensures
        a == b,
{
    law_decimal_is_read_back(a);
    law_decimal_is_read_back(b);
}

/// What a fraction is rounded to is at most one half away from it, and even where it is exactly
/// one half away.
pub proof fn law_whole_is_nearest(num: nat, den: nat)
    requires
        den > 0,
    ensures
        2 * gap(half_even(num, den) * den, num) <= den,
        2 * gap(half_even(num, den) * den, num) == den ==> half_even(num, den) % 2 == 0,
{
    let (q, r) = (num / den, num % den);
    vstd::arithmetic::div_mod::lemma_fundamental_div_mod(num as int, den as int);
    assert(den * q == q * den && (q + 1) * den == q * den + den) by (nonlinear_arith);
}

/// A number without decimal places is written as its sign and the nearest integer, the even one of
/// two that are equally near.
pub proof fn law_fixed0_is_nearest(x: Binary64) -> (n: nat)
    ensures
        x.nan() ==> fixed0(x) == "NaN"@,
        x.infinite() && !x.negative() ==> fixed0(x) == "inf"@,
        x.infinite() && x.negative() ==> fixed0(x) == "-inf"@,
        !x.nan() && !x.infinite() ==> {
            let size = if x.exact() < 0 {
                -x.exact()
            } else {
                x.exact()
            };
            &&& !x.negative() ==> fixed0(x) == decimal(n)
            &&& x.negative() ==> fixed0(x) == seq!['-'] + decimal(n)
            &&& 2 * gap(n * pow2(1074), size as nat) <= pow2(1074)
            &&& 2 * gap(n * pow2(1074), size as nat) == pow2(1074) ==> n % 2 == 0
        },
{
    reveal_strlit("");
    reveal_strlit("-");
    reveal_strlit("inf");
    reveal_strlit("-inf");
    lemma_pow2_pos(1074);
    let n = half_even(units(x.magnitude()), pow2(1074));
    law_whole_is_nearest(units(x.magnitude()), pow2(1074));
    if x.infinite() {
        if x.negative() {
            assert(fixed0(x) =~= "-inf"@);
        } else {
            assert(fixed0(x) =~= "inf"@);
        }
    } else if !x.nan() {
        if x.negative() {
            assert(fixed0(x) =~= seq!['-'] + decimal(n));
        } else {
            assert(fixed0(x) =~= decimal(n));
        }
    }
    n
}

/// A number with one decimal place is written as its sign and the nearest tenth, the even one of
/// two that are equally near.
pub proof fn law_fixed1_is_nearest(x: Binary64) -> (r: (nat, nat))
    ensures
        x.nan() ==> fixed1(x) == "NaN"@,
        x.infinite() && !x.negative() ==> fixed1(x) == "inf"@,
        x.infinite() && x.negative() ==> fixed1(x) == "-inf"@,
        !x.nan() && !x.infinite() ==> {
            let size = if x.exact() < 0 {
                -x.exact()
            } else {
                x.exact()
            };
            let tenths = 10 * r.0 + r.1;
            let text = decimal(r.0) + seq!['.'] + decimal(r.1);
            &&& r.1 < 10
            &&& !x.negative() ==> fixed1(x) == text
            &&& x.negative() ==> fixed1(x) == seq!['-'] + text
            &&& 2 * gap(tenths * pow2(1074), 10 * size as nat) <= pow2(1074)
            &&& 2 * gap(tenths * pow2(1074), 10 * size as nat) == pow2(1074) ==> tenths % 2 == 0
        },
{
    reveal_strlit("");
    reveal_strlit("-");
    reveal_strlit(".");
    reveal_strlit("inf");
    reveal_strlit("-inf");
    lemma_pow2_pos(1074);
    let tenths = half_even(10 * units(x.magnitude()), pow2(1074));
    law_whole_is_nearest(10 * units(x.magnitude()), pow2(1074));
    let text = decimal(tenths / 10) + seq!['.'] + decimal(tenths % 10);
    assert(10 * (tenths / 10) + tenths % 10 == tenths);
    if x.infinite() {
        if x.negative() {
            assert(fixed1(x) =~= "-inf"@);
        } else {
            assert(fixed1(x) =~= "inf"@);
        }
    } else if !x.nan() {
        if x.negative() {
            assert(fixed1(x) =~= seq!['-'] + text);
        } else {
            assert(fixed1(x) =~= text);
        }
    }
    (tenths / 10, tenths % 10)
}

/// An integer of up to 53 bits is written as it is, with a zero behind the point where there is
/// one.
pub proof fn law_integers_are_written_exactly(n: nat)
    requires
        n <= 2 * FRACTIONS,
    ensures
        fixed0(of_integer(n)) == decimal(n),
        fixed1(of_integer(n)) == decimal(n) + ".0"@,
{
    law_small_integers_are_exact(n);
    reveal_strlit("");
    reveal_strlit(".");
    reveal_strlit(".0");
    lemma_pow2_pos(1074);
    let x = of_integer(n);
    lemma_rounded_nearest(n * pow2(1074), 1);
    assert(!x.negative());
    lemma_half_even_whole(n, pow2(1074));
    assert(10 * (n * pow2(1074)) == (10 * n) * pow2(1074)) by (nonlinear_arith);
    lemma_half_even_whole(10 * n, pow2(1074));
    assert(fixed0(x) =~= decimal(n));
    assert(decimal(0) =~= seq!['0']);
    assert(fixed1(x) =~= decimal(n) + ".0"@);
}

/// Text in a column ends where the column ends, with spaces before it; text that is too long for
/// the column is not cut.
pub proof fn law_text_stands_at_the_right(text: Seq<char>, width: nat)
    ensures
        ({
            let column = right_aligned(text, width);
            let gap = column.len() - text.len();
            &&& column.len() == if text.len() < width {
                width
            } else {
                text.len()
            }
            &&& column.subrange(gap, column.len() as int) == text
            &&& forall|i: int| 0 <= i < gap ==> #[trigger] column[i] == ' '
        }),
{
    let column = right_aligned(text, width);
    assert(column.subrange(column.len() - text.len(), column.len() as int) =~= text);
}

/// A list in brackets is its numbers between the brackets, with a comma and a space between any
/// two of them.
pub proof fn law_lists_are_joined(a: Seq<u32>, b: Seq<u32>, x: u32)
    ensures
        a.len() > 0 && b.len() > 0 ==> joined(a + b) == joined(a) + seq![',', ' '] + joined(b),
        joined(seq![x]) == decimal(x as nat),
        joined(Seq::empty()) == Seq::<char>::empty(),
        bracketed(a) == seq!['['] + joined(a) + seq![']'],
    decreases b.len(),
{
    reveal_strlit("");
    reveal_strlit(", ");
    reveal_strlit("[");
    reveal_strlit("]");
    assert(joined(Seq::empty()) =~= Seq::<char>::empty());
    assert("["@ =~= seq!['[']);
    assert("]"@ =~= seq![']']);
    assert(", "@ =~= seq![',', ' ']);
    if a.len() > 0 && b.len() > 0 {
        let both = a + b;
        assert(both.last() == b.last());
        assert(both.drop_last() =~= a + b.drop_last());
        if b.len() == 1 {
            assert(both.drop_last() =~= a);
        } else {
            law_lists_are_joined(a, b.drop_last(), x);
            assert(joined(both) =~= joined(a) + seq![',', ' '] + joined(b));
        }
    }
}

} // verus!
