use wisp::scalar::Scalar;

fn s(x: f32) -> Scalar {
    Scalar::from_bits(x.to_bits())
}

fn same(a: Scalar, b: f32) -> bool {
    if b.is_nan() {
        a.is_nan()
    } else {
        a.to_bits() == b.to_bits()
    }
}

/// Numbers of every kind: zeros, subnormals, powers of two and their
/// neighbours, ordinary values, the greatest ones, infinities, not a number.
fn samples() -> Vec<f32> {
    let mut all = Vec::new();
    let mut bits: Vec<u32> = vec![
        0, 1, 2, 3, 0x7f_ffff, 0x80_0000, 0x80_0001, 0x3f80_0000, 0x3f7f_ffff, 0x3f80_0001,
        0x7f7f_ffff, 0x7f00_0000, 0x7f80_0000, 0x7fc0_0000, 0x4b00_0000, 0x4b80_0001, 0x3400_0000,
        0x3380_0000, 0x3e19_999a, 0x42c8_0000, 0x0040_0000, 0x0040_0001,
    ];
    let mut x: u32 = 0x1234_5678;
    for _ in 0..120 {
        x ^= x << 13;
        x ^= x >> 17;
        x ^= x << 5;
        bits.push(x & 0x7fff_ffff);
        bits.push((x & 0x00ff_ffff) | 0x3f00_0000);
    }
    for b in bits {
        all.push(f32::from_bits(b));
        all.push(f32::from_bits(b | 0x8000_0000));
    }
    all
}

#[test]
fn sums_match_the_hardware() {
    for &a in &samples() {
        for &b in &samples() {
            assert!(same(s(a).plus(s(b)), a + b), "{a:e} + {b:e}");
            assert!(same(s(a).minus(s(b)), a - b), "{a:e} - {b:e}");
        }
    }
}

#[test]
fn products_and_quotients_match_the_hardware() {
    for &a in &samples() {
        for &b in &samples() {
            assert!(same(s(a).times(s(b)), a * b), "{a:e} * {b:e}");
            assert!(same(s(a).over(s(b)), a / b), "{a:e} / {b:e}");
        }
    }
}

#[test]
fn remainders_match_the_hardware() {
    for &a in &samples() {
        for &b in &samples() {
            assert!(same(s(a).rem(s(b)), a % b), "{a:e} % {b:e}");
        }
    }
}

#[test]
fn roots_and_whole_numbers_match_the_hardware() {
    for &a in &samples() {
        assert!(same(s(a).sqrt(), a.sqrt()), "sqrt {a:e}");
        assert!(same(s(a).abs(), a.abs()));
        assert!(same(s(a).neg(), -a));
        let n = a.to_bits();
        assert!(same(Scalar::from_u32(n), n as f32), "{n}");
    }
}

#[test]
fn comparisons_match_the_hardware() {
    for &a in &samples() {
        assert_eq!(s(a).is_nan(), a.is_nan());
        assert_eq!(s(a).is_finite(), a.is_finite());
        for &b in &samples() {
            assert_eq!(s(a).lt(s(b)), a < b);
            assert_eq!(s(a).le(s(b)), a <= b);
            assert_eq!(s(a).gt(s(b)), a > b);
            assert_eq!(s(a).ge(s(b)), a >= b);
            if a != b {
                assert!(same(s(a).min(s(b)), a.min(b)));
                assert!(same(s(a).max(s(b)), a.max(b)));
            }
            if a <= b {
                assert!(same(s(0.5).clamp(s(a), s(b)), 0.5f32.clamp(a, b)));
            }
        }
    }
}

#[test]
fn whole_parts_match_the_hardware() {
    for &a in &samples() {
        assert!(same(s(a).trunc(), a.trunc()), "trunc {a:e}");
        assert!(same(s(a).fract(), a.fract()), "fract {a:e}");
    }
}
