use minimal_bench::binary64::Binary64;
use minimal_bench::text::{push_fixed0, push_fixed1};

fn of(x: f64) -> Binary64 {
    Binary64 { bits: x.to_bits() }
}

fn native(x: Binary64) -> f64 {
    f64::from_bits(x.bits)
}

/// The same number, or both not a number.
fn same(a: Binary64, b: f64) -> bool {
    native(a).to_bits() == b.to_bits() || (native(a).is_nan() && b.is_nan())
}

/// A fixed series of bit patterns of all sizes.
fn patterns(n: usize) -> Vec<u64> {
    let mut v = vec![
        0,
        1,
        2,
        0x000f_ffff_ffff_ffff,
        0x0010_0000_0000_0000,
        0x0010_0000_0000_0001,
        0x3ff0_0000_0000_0000,
        0x3ff0_0000_0000_0001,
        0x3fe0_0000_0000_0000,
        0x3fef_ffff_ffff_ffff,
        0x4340_0000_0000_0000,
        0x7fef_ffff_ffff_ffff,
        0x7ff0_0000_0000_0000,
        0x7ff8_0000_0000_0000,
        0x8000_0000_0000_0000,
        0x8000_0000_0000_0001,
        0xbff0_0000_0000_0000,
        0xfff0_0000_0000_0000,
        0xffef_ffff_ffff_ffff,
    ];
    let mut x: u64 = 0x9e37_79b9_7f4a_7c15;
    while v.len() < n {
        x ^= x << 13;
        x ^= x >> 7;
        x ^= x << 17;
        v.push(x);
        // A number near one, so that sums and ties are interesting.
        v.push(0x3fd0_0000_0000_0000 + (x >> 10));
        v.push(0x4000_0000_0000_0000 + ((x >> 12) & 0xffff_ff00_0000_0000));
    }
    v
}

#[test]
fn arithmetic_agrees_with_the_processor() {
    let p = patterns(130);
    for &a in &p {
        for &b in &p {
            let (x, y) = (Binary64 { bits: a }, Binary64 { bits: b });
            let (m, n) = (f64::from_bits(a), f64::from_bits(b));
            assert!(same(x.times(y), m * n), "{} * {}", m, n);
            assert!(same(x.over(y), m / n), "{} / {}", m, n);
            assert!(same(x.plus(y), m + n), "{} + {}", m, n);
            assert!(same(x.minus(y), m - n), "{} - {}", m, n);
            assert_eq!(x.lt(y), m < n, "{} < {}", m, n);
            assert_eq!(x.gt(y), m > n, "{} > {}", m, n);
            if m != n {
                assert!(same(x.max(y), m.max(n)), "max {} {}", m, n);
                assert!(same(x.min(y), m.min(n)), "min {} {}", m, n);
            }
        }
    }
}

#[test]
fn integers_agree_with_the_processor() {
    let mut x: u64 = 0x2545_f491_4f6c_dd1d;
    for n in [0, 1, 2, 3, 1 << 53, (1 << 53) + 1, (1 << 53) + 3, u64::MAX, u64::MAX - 1024] {
        assert!(same(Binary64::from_u64(n), n as f64));
    }
    for i in 0..2000 {
        x ^= x << 13;
        x ^= x >> 7;
        x ^= x << 17;
        let n = x >> (i % 64);
        assert!(same(Binary64::from_u64(n), n as f64), "{}", n);
    }
}

#[test]
fn fixed_point_text_agrees_with_the_standard_library() {
    let mut all: Vec<f64> = patterns(300).iter().map(|&b| f64::from_bits(b)).collect();
    for i in 0..400 {
        all.push(i as f64 / 8.0);
        all.push(-(i as f64) / 20.0);
        all.push(i as f64 * 1234.5678);
        all.push(i as f64 + 0.5);
        all.push(i as f64 / 10.0 + 0.05);
    }
    all.push(1e300);
    all.push(123456789012345680000.0);
    all.push(0.25);
    all.push(0.35);
    all.push(0.95);
    all.push(9.95);
    all.push(99.5);
    for x in all {
        let mut s0 = String::new();
        push_fixed0(&mut s0, of(x));
        assert_eq!(s0, format!("{:.0}", x));
        let mut s1 = String::new();
        push_fixed1(&mut s1, of(x));
        assert_eq!(s1, format!("{:.1}", x));
    }
}

#[test]
fn integers_have_their_patterns() {
    assert_eq!(Binary64::from_u64(0).bits, 0);
    assert_eq!(Binary64::from_u64(1).bits, 0x3ff0_0000_0000_0000);
    assert_eq!(Binary64::from_u64(3).bits, 0x4008_0000_0000_0000);
    assert_eq!(Binary64::from_u64(100).bits, 0x4059_0000_0000_0000);
    assert_eq!(Binary64::from_u64((1 << 53) - 1).bits, 0x433f_ffff_ffff_ffff);
    assert_eq!(Binary64::from_u64(u64::MAX).bits, 0x43f0_0000_0000_0000);
}

#[test]
fn small_integers_keep_their_order() {
    let list = [0, 1, 2, 99, 100, 101, (1 << 53) - 1, 1 << 53];
    for a in list {
        for b in list {
            assert_eq!(Binary64::from_u64(a).lt(Binary64::from_u64(b)), a < b);
            assert_eq!(Binary64::from_u64(a).gt(Binary64::from_u64(b)), a > b);
        }
    }
    // Beyond that, neighbours may become one number, but their order never turns round.
    assert!(!Binary64::from_u64((1 << 53) + 1).lt(Binary64::from_u64(1 << 53)));
    assert_eq!(Binary64::from_u64((1 << 53) + 1), Binary64::from_u64(1 << 53));
}

#[test]
fn exact_results_are_not_rounded() {
    assert_eq!(of(0.5).times(of(-6.0)), of(-3.0));
    assert_eq!(of(7.0).over(of(-8.0)), of(-0.875));
    assert_eq!(of(1.25).plus(of(-2.0)), of(-0.75));
    assert_eq!(of(1.0).minus(of(1.0)), of(0.0));
    assert_eq!(of(-0.0).plus(of(-0.0)), of(-0.0));
    assert_eq!(of(3.5).negate(), of(-3.5));
}

#[test]
fn sums_and_products_do_not_depend_on_order() {
    for (a, b) in [(0.1, 0.7), (1e300, -1e-300), (5e-324, 0.5), (f64::MAX, f64::MAX)] {
        assert_eq!(of(a).plus(of(b)), of(b).plus(of(a)));
        assert_eq!(of(a).times(of(b)), of(b).times(of(a)));
    }
}

#[test]
fn differences_of_close_numbers_are_positive() {
    let one = of(1.0);
    let next = Binary64 { bits: one.bits + 1 };
    assert!(next.minus(one).gt(of(0.0)));
    let tiny = Binary64 { bits: 1 };
    let tinier = Binary64 { bits: 2 };
    assert_eq!(tinier.minus(tiny), tiny);
}

#[test]
fn shares_are_at_most_one() {
    for whole in [1u64, 3, 10, (1 << 53) + 1, u64::MAX] {
        for part in [0, 1, whole / 3, whole - 1, whole] {
            let share = Binary64::from_u64(part).over(Binary64::from_u64(whole));
            assert!(!share.gt(of(1.0)));
            assert!(!of(1234.5).times(share).gt(of(1234.5)));
        }
    }
}

#[test]
fn extremes_ignore_what_is_not_a_number() {
    let nan = of(f64::NAN);
    assert!(nan.is_nan() && !nan.is_infinite());
    assert!(of(f64::NEG_INFINITY).is_infinite());
    assert_eq!(nan.max(of(2.0)), of(2.0));
    assert_eq!(of(2.0).max(nan), of(2.0));
    assert_eq!(nan.min(of(2.0)), of(2.0));
    assert_eq!(of(2.0).min(nan), of(2.0));
    assert_eq!(of(2.0).max(of(3.0)), of(3.0));
    assert_eq!(of(2.0).min(of(3.0)), of(2.0));
    assert!(!nan.lt(of(1.0)) && !nan.gt(of(1.0)));
}
