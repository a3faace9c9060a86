use ddlt::safety::{project_safety, Z95, Z97, Z98, Z99, Z999};
use ddlt::stats::{isqrt_u128, reduce_stats};
use ddlt::text::{fmt_q4, fmt_q4_signed, is_numeric, parse_q4, u64_to_string};
use statrs::distribution::ContinuousCDF;

#[test]
fn decimal_rendering() {
    assert_eq!(u64_to_string(0), "0");
    assert_eq!(u64_to_string(7), "7");
    assert_eq!(u64_to_string(120), "120");
    assert_eq!(u64_to_string(98765432109876), "98765432109876");
}

#[test]
fn q4_formatting() {
    assert_eq!(fmt_q4(0), "0.00");
    assert_eq!(fmt_q4(123450), "12.35");
    assert_eq!(fmt_q4(123449), "12.34");
    assert_eq!(fmt_q4(100000), "10.00");
    assert_eq!(fmt_q4(50), "0.01");
    assert_eq!(fmt_q4(49), "0.00");
    assert_eq!(fmt_q4_signed(-5000), "-0.50");
    assert_eq!(fmt_q4_signed(-123450), "-12.35");
    assert_eq!(fmt_q4_signed(600000), "60.00");
}

#[test]
fn q4_parsing() {
    assert_eq!(parse_q4("12.345"), 123450);
    assert_eq!(parse_q4("0"), 0);
    assert_eq!(parse_q4("10"), 100000);
    assert_eq!(parse_q4("-3.5"), -35000);
    assert_eq!(parse_q4("+2"), 20000);
    assert_eq!(parse_q4(".5"), 5000);
    assert_eq!(parse_q4("5."), 50000);
    assert_eq!(parse_q4("1.23456"), 12345);
    assert_eq!(parse_q4(""), 0);
    assert_eq!(parse_q4("abc"), 0);
    assert_eq!(parse_q4("1e5"), 0);
    assert_eq!(parse_q4("1.2.3"), 0);
    assert_eq!(parse_q4("999999999999999999999"), 0);
}

#[test]
fn numeric_recognition_matches_float_parsing() {
    let cases = [
        "12", "-3.5", "+7", "1e5", "1E-5", "-.5e+3", "inf", "INF", "Infinity", "-infinity", "NaN",
        "nan", "5.", ".5", "1.", "", "+", "-", ".", "abc", "1.2.3", "e5", "1e", "1e+", "in",
        "infinit", "infinityy", "1 ", " 1", "0x10", "1_000",
    ];
    for c in cases {
        assert_eq!(is_numeric(c), c.parse::<f64>().is_ok(), "case {:?}", c);
    }
}

#[test]
fn integer_square_root() {
    assert_eq!(isqrt_u128(0), 0);
    assert_eq!(isqrt_u128(1), 1);
    assert_eq!(isqrt_u128(3), 1);
    assert_eq!(isqrt_u128(4), 2);
    assert_eq!(isqrt_u128(99), 9);
    assert_eq!(isqrt_u128(1_000_000_000_000), 1_000_000);
}

#[test]
fn stats_of_small_series() {
    // 2.0 and 4.0: mean 3.0, sample stdev sqrt(2) = 1.4142
    let u: Vec<u64> = vec![20000, 40000];
    let st = reduce_stats(&u);
    assert_eq!(st.mean, 30000);
    assert_eq!(st.stdev, 14142);
    assert_eq!(st.max, 40000);
    assert_eq!(st.min, 20000);
}

#[test]
fn stats_single_point_has_zero_stdev() {
    let u: Vec<u64> = vec![50000];
    let st = reduce_stats(&u);
    assert_eq!(st.mean, 50000);
    assert_eq!(st.stdev, 0);
    assert_eq!(st.max, 50000);
    assert_eq!(st.min, 50000);
}

#[test]
fn safety_stock_for_unit_sigma() {
    // sigma = 1.0: each projection equals the quantile itself
    let ss = project_safety(10000);
    assert_eq!(ss.s95, Z95);
    assert_eq!(ss.s97, Z97);
    assert_eq!(ss.s98, Z98);
    assert_eq!(ss.s99, Z99);
    assert_eq!(ss.s999, Z999);
    assert!((ss.s95 as f64 / 10000.0 - 1.645).abs() < 1e-3);
    assert!((ss.s99 as f64 / 10000.0 - 2.326).abs() < 1e-3);
}

#[test]
fn safety_stock_for_zero_sigma() {
    let ss = project_safety(0);
    assert_eq!(ss.s95, 0);
    assert_eq!(ss.s97, 0);
    assert_eq!(ss.s98, 0);
    assert_eq!(ss.s99, 0);
    assert_eq!(ss.s999, 0);
}

#[test]
fn quantiles_match_reference_inverse_cdf() {
    let n = statrs::distribution::Normal::new(0.0, 1.0).unwrap();
    let pairs = [
        (Z95, 0.95),
        (Z97, 0.97),
        (Z98, 0.98),
        (Z99, 0.99),
        (Z999, 0.999),
    ];
    for (z, level) in pairs {
        assert!((z as f64 / 10000.0 - n.inverse_cdf(level)).abs() < 1e-3);
    }
}
