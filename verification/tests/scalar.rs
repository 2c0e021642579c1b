use lievisual::scalar::Scalar;

fn s(x: f64) -> Scalar {
    Scalar::from_bits(x.to_bits())
}

fn f(x: Scalar) -> f64 {
    f64::from_bits(x.to_bits())
}

fn same(a: f64, b: f64) -> bool {
    a.to_bits() == b.to_bits() || (a.is_nan() && b.is_nan())
}

struct Bits {
    state: u64,
}

impl Bits {
    fn next(&mut self) -> u64 {
        self.state ^= self.state << 13;
        self.state ^= self.state >> 7;
        self.state ^= self.state << 17;
        self.state
    }

    fn number(&mut self) -> f64 {
        let b = self.next();
        match b % 4 {
            0 => f64::from_bits(self.next()),
            1 => (self.next() as i64 as f64) / 4294967296.0,
            2 => (self.next() % 4096) as f64 - 2048.0,
            _ => f64::from_bits((self.next() & 0x800f_ffff_ffff_ffff) | ((1003 + b % 40) << 52)),
        }
    }
}

fn special() -> Vec<f64> {
    vec![
        0.0,
        -0.0,
        1.0,
        -1.0,
        0.5,
        1.5,
        2.5,
        f64::MAX,
        f64::MIN,
        f64::MIN_POSITIVE,
        5e-324,
        -5e-324,
        f64::INFINITY,
        f64::NEG_INFINITY,
        f64::NAN,
        1e300,
        1e-300,
        4503599627370496.0,
        9007199254740992.0,
        -4503599627370495.5,
        3.4028234663852886e38,
        1.401298464324817e-45,
    ]
}

fn check_pair(a: f64, b: f64) {
    assert!(same(f(s(a).add(s(b))), a + b), "{a:e} + {b:e}");
    assert!(same(f(s(a).sub(s(b))), a - b), "{a:e} - {b:e}");
    assert!(same(f(s(a).mul(s(b))), a * b), "{a:e} * {b:e}");
    assert!(same(f(s(a).div(s(b))), a / b), "{a:e} / {b:e}");
    assert_eq!(s(a).lt(s(b)), a < b);
    assert_eq!(s(a).same_value(s(b)), a == b);
    let (min, max) = (f(s(a).min(s(b))), f(s(a).max(s(b))));
    assert!(same(min, a.min(b)) || min == a.min(b));
    assert!(same(max, a.max(b)) || max == a.max(b));
}

fn check_one(a: f64) {
    assert!(same(f(s(a).floor()), a.floor()), "floor {a:e}");
    assert!(same(f(s(a).ceil()), a.ceil()), "ceil {a:e}");
    assert!(same(f(s(a).round()), a.round()), "round {a:e}");
    assert!(same(f(s(a).to_single()), a as f32 as f64), "single {a:e}");
    assert!(same(f(s(a).neg()), -a) || a.is_nan());
    assert!(same(f(s(a).abs()), a.abs()) || a.is_nan());
    assert_eq!(s(a).is_finite(), a.is_finite());
    assert_eq!(s(a).is_nan(), a.is_nan());
    assert_eq!(s(a).to_u64(255), (a as u8) as u64);
    assert_eq!(s(a).to_u64(65535), (a as u16) as u64);
    if a.abs() < 1e15 || a.is_nan() {
        assert_eq!(s(a).to_i64(0xf_ffff_ffff_ffff), a as i64);
    }
    assert_eq!(s(a).to_fixed(0), format!("{a:.0}"));
    assert_eq!(s(a).to_fixed(2), format!("{a:.2}"));
    assert_eq!(s(a).to_fixed(3), format!("{a:.3}"));
    assert_eq!(s(a).to_fixed(6), format!("{a:.6}"));
}

#[test]
fn arithmetic_agrees_with_the_machine() {
    for a in special() {
        for b in special() {
            check_pair(a, b);
        }
    }
    let mut bits = Bits { state: 0x9e37_79b9_7f4a_7c15 };
    for _ in 0..20_000 {
        check_pair(bits.number(), bits.number());
    }
}

#[test]
fn close_numbers_cancel_as_on_the_machine() {
    let mut bits = Bits { state: 77 };
    for _ in 0..5_000 {
        let a = bits.number();
        let b = f64::from_bits(a.to_bits() ^ (bits.next() % 16));
        check_pair(a, b);
        check_pair(a, -b);
    }
}

#[test]
fn rounding_agrees_with_the_machine() {
    for a in special() {
        check_one(a);
    }
    let mut bits = Bits { state: 12345 };
    for _ in 0..5_000 {
        check_one(bits.number());
    }
    for i in -40..40 {
        check_one(i as f64 / 8.0);
    }
}

#[test]
fn integers_agree_with_the_machine() {
    let mut bits = Bits { state: 4242 };
    for _ in 0..5_000 {
        let n = bits.next() >> (bits.next() % 64);
        assert!(same(f(Scalar::from_u64(n)), n as f64));
    }
}

#[test]
fn clamping_agrees_with_the_machine() {
    let mut bits = Bits { state: 99 };
    for _ in 0..2_000 {
        let a = bits.number();
        assert!(same(f(s(a).clamp(s(0.0), s(1.0))), a.clamp(0.0, 1.0)));
    }
}
