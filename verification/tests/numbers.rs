use swarmagent::binary64::Binary64;
use swarmagent::decimal::parse_decimal;
use swarmagent::percent::pct;

fn number(x: f64) -> Binary64 {
    Binary64::from_bits(x.to_bits())
}

fn to_f64(x: Binary64) -> f64 {
    f64::from_bits(x.to_bits())
}

fn same(a: f64, b: f64) -> bool {
    a.to_bits() == b.to_bits() || (a.is_nan() && b.is_nan())
}

fn specimens() -> Vec<f64> {
    let mut out = vec![
        0.0,
        -0.0,
        1.0,
        -1.0,
        0.1,
        3.8,
        100.0,
        1e9,
        1e-3,
        1e300,
        -1e300,
        1e-300,
        5e-324,
        2.2250738585072014e-308,
        2.225073858507201e-308,
        f64::MAX,
        f64::MIN,
        f64::INFINITY,
        f64::NEG_INFINITY,
        f64::NAN,
        4503599627370496.5,
        9007199254740993.0,
        0.49999999999999994,
        0.5,
        1.5,
        2.5,
    ];
    // A fixed walk over bit patterns.
    let mut bits: u64 = 0x9e37_79b9_7f4a_7c15;
    for _ in 0..60 {
        bits = bits.wrapping_mul(6364136223846793005).wrapping_add(1442695040888963407);
        out.push(f64::from_bits(bits));
    }
    out
}

#[test]
fn products_and_quotients_agree_with_hardware_floats() {
    let all = specimens();
    for a in &all {
        for b in &all {
            let product = to_f64(number(*a).times(&number(*b)));
            assert!(same(product, a * b), "{a:e} * {b:e} gave {product:e}");
            let quotient = to_f64(number(*a).over(&number(*b)));
            assert!(same(quotient, a / b), "{a:e} / {b:e} gave {quotient:e}");
        }
    }
}

#[test]
fn whole_numbers_agree_with_hardware_floats() {
    let mut values: Vec<u64> = vec![0, 1, 2, 99, u64::MAX, u64::MAX - 1, u64::MAX - 1024, u64::MAX - 1023];
    for shift in 0..64 {
        let v = 1u64 << shift;
        values.push(v);
        values.push(v.wrapping_sub(1));
        values.push(v | 1);
    }
    for v in values {
        assert_eq!(to_f64(Binary64::from_u64(v)).to_bits(), (v as f64).to_bits(), "{v}");
    }
}

#[test]
fn rounding_to_whole_numbers_agrees_with_hardware_floats() {
    for x in specimens() {
        assert_eq!(number(x).to_u64(), x.round() as u64, "{x:e}");
    }
    assert_eq!(number(1.8446744073709552e19).to_u64(), u64::MAX);
    assert_eq!(number(1.8446744073709550e19).to_u64(), 18446744073709549568);
}

#[test]
fn predicates_agree_with_hardware_floats() {
    for x in specimens() {
        let n = number(x);
        assert_eq!(n.is_zero(), x == 0.0);
        assert_eq!(n.is_positive(), x > 0.0);
        assert_eq!(n.is_finite(), x.is_finite());
        assert_eq!(n.is_amount(), x.is_finite() && x >= 0.0);
        assert_eq!(n.to_bits(), x.to_bits());
    }
    assert!(same(to_f64(Binary64::zero()), 0.0));
    assert!(same(to_f64(Binary64::signed_zero(true)), -0.0));
    assert!(same(to_f64(Binary64::signed_infinity(true)), f64::NEG_INFINITY));
}

#[test]
fn decimals_agree_with_std() {
    let texts = [
        "0", "-0", "1", "+1", "1.", ".5", "-.5", "0.1", "0.001", "1e-3", "3800", "1e308", "1.8e308", "1e309",
        "-1e309", "1e-323", "2e-324", "3e-324", "4.9e-324", "2.4703282292062327e-324",
        "2.4703282292062328e-324", "2.2250738585072011e-308", "9007199254740993", "9007199254740992.5",
        "123456789012345678901234567890", "0.000000000000000000000000000001", "1e0", "1E+5", "1e-0",
        "179769313486231570000000000000000000000e270", "1e99999999999999999999", "1e-99999999999999999999",
        "0e99999999999999999999", "000000001", "1.7976931348623158e308", "1.7976931348623159e308",
        "8.988465674311580e307", "6.62607015e-34", "299792458", "7.038531e-26",
        "", "+", "-", ".", "e5", "1e", "1e+", "1.2.3", "--1", "1e5.5", "abc", " 1", "1 ", "1_000", "0x10",
    ];
    for t in texts {
        match (parse_decimal(t), t.parse::<f64>()) {
            (Some(x), Ok(y)) => assert!(same(to_f64(x), y), "{t}: {} against {}", to_f64(x), y),
            (None, Err(_)) => {}
            (got, _) => panic!("{t}: read: {}", got.is_some()),
        }
    }
}

#[test]
fn long_decimals_agree_with_std() {
    // Just above, on and just below the middle between two neighbours.
    let half = "9007199254740993";
    for tail in ["", ".0", ".00000000000000000000000000000000000000001", ".1"] {
        let t = format!("{half}{tail}");
        assert!(same(to_f64(parse_decimal(&t).unwrap()), t.parse::<f64>().unwrap()), "{t}");
    }
    let low = "9007199254740992.99999999999999999999999999999999999999";
    assert!(same(to_f64(parse_decimal(low).unwrap()), low.parse::<f64>().unwrap()));
    let many = "1".repeat(400);
    assert!(same(to_f64(parse_decimal(&many).unwrap()), many.parse::<f64>().unwrap()));
    let small = format!("0.{}{}", "0".repeat(330), "49406564584124654417656879286822137");
    assert!(same(to_f64(parse_decimal(&small).unwrap()), small.parse::<f64>().unwrap()));
}

#[test]
fn percentages() {
    assert_eq!(to_f64(pct(&number(1.0), &number(8.0))), 12.5);
    assert_eq!(to_f64(pct(&number(5.0), &number(0.0))), 0.0);
    assert_eq!(to_f64(pct(&number(5.0), &number(-1.0))), 0.0);
    assert_eq!(to_f64(pct(&number(0.0), &number(3.0))), 0.0);
    for (part, whole) in [(1u64, 3u64), (u64::MAX - 1, u64::MAX), (u64::MAX, u64::MAX), (2, 3)] {
        let p = to_f64(pct(&Binary64::from_u64(part), &Binary64::from_u64(whole)));
        assert!((0.0..=100.0).contains(&p));
        assert_eq!(p.to_bits(), (part as f64 / whole as f64 * 100.0).to_bits());
    }
}
