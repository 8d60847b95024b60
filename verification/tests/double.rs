use autoscaler::double::Double;

fn double(x: f64) -> Double {
    Double::from_bits(x.to_bits())
}

fn native(x: Double) -> f64 {
    f64::from_bits(x.to_bits())
}

fn same(x: Double, y: f64) -> bool {
    let x = native(x);
    (x.is_nan() && y.is_nan()) || x.to_bits() == y.to_bits()
}

struct Noise(u64);

impl Noise {
    fn next(&mut self) -> u64 {
        self.0 ^= self.0 << 13;
        self.0 ^= self.0 >> 7;
        self.0 ^= self.0 << 17;
        self.0
    }

    /// Any bit pattern, a number of ordinary size, or a short one.
    fn number(&mut self) -> f64 {
        let bits = self.next();
        match self.next() % 4 {
            0 => f64::from_bits(bits),
            1 => f64::from_bits((bits & 0x800f_ffff_ffff_ffff) | ((1000 + bits % 50) << 52)),
            2 => (bits % 4096) as f64 / 16.0 - 100.0,
            _ => f64::from_bits((bits & 0x800f_ffff_ffff_ffff) | ((bits >> 32) % 64) << 52),
        }
    }
}

fn specials() -> Vec<f64> {
    vec![
        0.0,
        -0.0,
        1.0,
        -1.0,
        0.5,
        1.5,
        2.5,
        0.1,
        0.3,
        1.0 / 3.0,
        f64::MAX,
        f64::MIN,
        f64::MIN_POSITIVE,
        f64::from_bits(1),
        f64::from_bits(0x000f_ffff_ffff_ffff),
        f64::INFINITY,
        f64::NEG_INFINITY,
        f64::NAN,
        4294967295.0,
        4294967296.0,
        9007199254740991.0,
        9007199254740993.0,
        18446744073709551615.0,
        1e300,
        1e-300,
        0.49999999999999994,
        4503599627370497.5,
    ]
}

fn pairs() -> Vec<(f64, f64)> {
    let mut pairs = Vec::new();
    for a in specials() {
        for b in specials() {
            pairs.push((a, b));
        }
    }
    let mut noise = Noise(0x1234_5678_9abc_def1);
    for _ in 0..100_000 {
        pairs.push((noise.number(), noise.number()));
    }
    pairs
}

#[test]
fn products_are_correctly_rounded() {
    for (a, b) in pairs() {
        assert!(same(double(a).mul(double(b)), a * b), "{} * {}", a, b);
    }
}

#[test]
fn quotients_are_correctly_rounded() {
    for (a, b) in pairs() {
        assert!(same(double(a).div(double(b)), a / b), "{} / {}", a, b);
    }
}

#[test]
fn sums_are_correctly_rounded() {
    for (a, b) in pairs() {
        assert!(same(double(a).add(double(b)), a + b), "{} + {}", a, b);
        assert!(same(double(a).sub(double(b)), a - b), "{} - {}", a, b);
    }
}

#[test]
fn signs_are_handled() {
    for (a, _) in pairs() {
        assert!(same(double(a).neg(), -a));
        assert!(same(double(a).abs(), a.abs()));
        assert_eq!(double(a).is_nan(), a.is_nan());
    }
}

#[test]
fn comparisons_agree() {
    for (a, b) in pairs() {
        assert_eq!(double(a).lt(double(b)), a < b);
        assert_eq!(double(a).gt(double(b)), a > b);
        assert_eq!(double(a).ge(double(b)), a >= b);
        let least = native(double(a).min(double(b)));
        assert!(least == a.min(b) || (least.is_nan() && a.min(b).is_nan()));
        let most = native(double(a).max(double(b)));
        assert!(most == a.max(b) || (most.is_nan() && a.max(b).is_nan()));
        if a <= b {
            for x in specials() {
                let clamped = native(double(x).clamp(double(a), double(b)));
                assert!(clamped == x.clamp(a, b) || (clamped.is_nan() && x.is_nan()));
            }
        }
    }
}

#[test]
fn conversions_to_integers_agree() {
    for (a, _) in pairs() {
        let x = double(a);
        assert_eq!(x.to_u64(), a as u64);
        assert_eq!(x.ceil_to_u64(), a.ceil() as u64);
        assert_eq!(x.round_to_u64(), a.round() as u64, "{}", a);
        assert_eq!(x.to_u32(), a as u32);
        assert_eq!(x.ceil_to_u32(), a.ceil() as u32);
        assert_eq!(x.round_to_u32(), a.round() as u32);
        assert_eq!(x.to_usize(), a as usize);
        assert_eq!(x.ceil_to_usize(), a.ceil() as usize);
        assert_eq!(x.round_to_usize(), a.round() as usize);
    }
}

#[test]
fn conversions_from_integers_agree() {
    let mut noise = Noise(99);
    for _ in 0..100_000 {
        let n = noise.next() >> (noise.next() % 64);
        assert!(same(Double::from_u64(n), n as f64));
        assert!(same(Double::from_u32(n as u32), n as u32 as f64));
    }
    assert!(same(Double::from_u64(u64::MAX), u64::MAX as f64));
    assert!(same(Double::from_u64(9007199254740993), 9007199254740993u64 as f64));
}

#[test]
fn ratios_are_the_numbers_of_decimal_literals() {
    assert!(same(Double::ratio(1, 100), 0.01));
    assert!(same(Double::ratio(3, 10), 0.3));
    assert!(same(Double::ratio(5, 10), 0.5));
    assert!(same(Double::ratio(8, 10), 0.8));
    assert!(same(Double::ratio(9, 10), 0.9));
    assert!(same(Double::ratio(12, 10), 1.2));
    assert!(same(Double::ratio(13, 10), 1.3));
    assert!(same(Double::ratio(15, 10), 1.5));
}

#[test]
fn tenths_of_counts_are_exact() {
    let mut noise = Noise(7);
    for _ in 0..100_000 {
        let n = (noise.next() >> (32 + noise.next() % 32)) as u32;
        for (tenths, factor) in [(12u64, 1.2f64), (13, 1.3), (15, 1.5)] {
            let exact = (n as u64 * tenths + 9) / 10;
            let exact = exact.min(u32::MAX as u64) as u32;
            assert_eq!((n as f64 * factor).ceil() as u32, exact);
            let product = Double::from_u32(n).mul(Double::ratio(tenths, 10));
            assert_eq!(product.ceil_to_u32(), exact);
        }
        let fewer = Double::from_u32(n).mul(Double::ratio(8, 10)).to_u32();
        assert_eq!(fewer as u64, n as u64 * 8 / 10);
    }
}

#[test]
fn factors_neither_shrink_nor_grow() {
    let mut noise = Noise(31);
    for _ in 0..10_000 {
        let x = noise.number().abs();
        if x.is_finite() {
            assert!(double(x).mul(Double::ratio(13, 10)).ge(double(x)));
            assert!(double(x).ge(double(x).mul(Double::ratio(9, 10))));
        }
    }
}
