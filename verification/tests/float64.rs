use streaming_engine::float64::Float64;

fn f(x: f64) -> Float64 {
    Float64 { bits: x.to_bits() }
}

fn same_as_std(x: f64) {
    assert_eq!(f(x).to_fixed(1), format!("{:.1}", x), "{:?}", x);
    assert_eq!(f(x).to_fixed(2), format!("{:.2}", x), "{:?}", x);
    assert_eq!(f(x).to_fixed(3), format!("{:.3}", x), "{:?}", x);
}

#[test]
fn fixed_text_of_plain_numbers() {
    assert_eq!(f(1.5).to_fixed(3), "1.500");
    assert_eq!(f(0.8).to_fixed(2), "0.80");
    assert_eq!(f(8000.0).to_fixed(1), "8000.0");
    assert_eq!(f(-16.0).to_fixed(1), "-16.0");
    assert_eq!(f(0.05).to_fixed(3), "0.050");
}

#[test]
fn fixed_text_rounds_ties_to_even() {
    for x in [0.125, 0.375, 0.25, 0.75, 0.0625, 2.5, 0.3125, 1.0625, 0.4375, 3.0078125] {
        same_as_std(x);
        same_as_std(-x);
    }
}

#[test]
fn fixed_text_of_edges() {
    for x in [
        0.0,
        -0.0,
        f64::MAX,
        f64::MIN,
        f64::MIN_POSITIVE,
        f64::EPSILON,
        f64::from_bits(1),
        f64::INFINITY,
        f64::NEG_INFINITY,
        f64::NAN,
        1e22,
        1e23,
        9007199254740993.0,
        4503599627370496.5,
        4503599627370497.5,
        0.9995,
        0.99949999,
        999.9996,
        1e-10,
        123456789.987654321,
    ] {
        same_as_std(x);
    }
}

#[test]
fn fixed_text_agrees_with_std_on_many_patterns() {
    let mut state: u64 = 0x9E37_79B9_7F4A_7C15;
    for _ in 0..4000 {
        state = state.wrapping_mul(6364136223846793005).wrapping_add(1442695040888963407);
        same_as_std(f64::from_bits(state));
        let small = (state >> 40) as f64 / 4096.0;
        same_as_std(small);
        same_as_std(-small / 1000.0);
    }
}

#[test]
fn numbers_compare_as_std_compares_them() {
    let values = [
        0.0,
        -0.0,
        1.0,
        -1.0,
        0.5,
        1e300,
        -1e300,
        f64::from_bits(1),
        f64::INFINITY,
        f64::NEG_INFINITY,
        f64::NAN,
    ];
    for a in values {
        for b in values {
            assert_eq!(f(a).equals(f(b)), a == b, "{:?} {:?}", a, b);
            assert_eq!(f(a).greater(f(b)), a > b, "{:?} {:?}", a, b);
            assert_eq!(f(a).greater_or_equal(f(b)), a >= b, "{:?} {:?}", a, b);
            let least = f64::from_bits(f(a).min(f(b)).bits);
            let expected = a.min(b);
            assert!(least == expected || (least.is_nan() && expected.is_nan()));
        }
        assert_eq!(f(a).nan(), a.is_nan());
    }
}

fn narrows_as_std(x: f64) {
    let narrow = f32::from_bits(f(x).narrow().bits);
    if x.is_nan() {
        assert!(narrow.is_nan());
    } else {
        assert_eq!(narrow.to_bits(), (x as f32).to_bits(), "{:?}", x);
    }
}

#[test]
fn narrowing_gives_the_nearest_single() {
    assert_eq!(f(0.5).narrow().bits, 0x3F00_0000);
    assert_eq!(f(0.1).narrow().bits, 0x3DCC_CCCD);
    assert_eq!(f(-2.0).narrow().bits, 0xC000_0000);
    for x in [
        0.0,
        -0.0,
        1.0,
        16777217.0,
        16777219.0,
        f32::MAX as f64,
        3.4028235677973366e38,
        3.4028235677973362e38,
        f64::MAX,
        f64::MIN_POSITIVE,
        f32::MIN_POSITIVE as f64,
        1.401298464324817e-45,
        7.006492321624085e-46,
        7.006492321624086e-46,
        2.1019476964872256e-45,
        1.1754942807573643e-38,
        f64::INFINITY,
        f64::NEG_INFINITY,
        f64::NAN,
    ] {
        narrows_as_std(x);
        narrows_as_std(-x);
    }
}

#[test]
fn narrowing_agrees_with_std_on_many_patterns() {
    let mut state: u64 = 0x2545_F491_4F6C_DD1D;
    for _ in 0..20000 {
        state = state.wrapping_mul(6364136223846793005).wrapping_add(1442695040888963407);
        narrows_as_std(f64::from_bits(state));
        let near = f32::from_bits((state >> 32) as u32) as f64;
        narrows_as_std(near);
        narrows_as_std(near * (1.0 + f64::from((state & 0xFF) as u32) / 4294967296.0));
    }
}
