use bybit_ws::{format_dec, parse_decimal, parse_depth, parse_px_qty_tup, Dec, HandleError};

#[test]
fn parse_simple_decimal() {
    let d = parse_decimal("100.5").unwrap();
    assert_eq!(d, Dec { neg: false, mant: 1005, scale: 1 });
}

#[test]
fn parse_integer() {
    let d = parse_decimal("42").unwrap();
    assert_eq!(d, Dec { neg: false, mant: 42, scale: 0 });
}

#[test]
fn parse_negative() {
    let d = parse_decimal("-3.25").unwrap();
    assert_eq!(d, Dec { neg: true, mant: 325, scale: 2 });
}

#[test]
fn parse_leading_zero_fraction() {
    let d = parse_decimal("0.0005").unwrap();
    assert_eq!(d, Dec { neg: false, mant: 5, scale: 4 });
}

#[test]
fn parse_trailing_zeros_kept() {
    let d = parse_decimal("100.50").unwrap();
    assert_eq!(d, Dec { neg: false, mant: 10050, scale: 2 });
}

#[test]
fn parse_malformed_fails_without_panic() {
    assert!(parse_decimal("").is_none());
    assert!(parse_decimal("abc").is_none());
    assert!(parse_decimal(".5").is_none());
    assert!(parse_decimal("5.").is_none());
    assert!(parse_decimal("1.2.3").is_none());
    assert!(parse_decimal("-").is_none());
    assert!(parse_decimal("1e5").is_none());
    assert!(parse_decimal("12 ").is_none());
}

#[test]
fn parse_overflow_fails() {
    assert!(parse_decimal("18446744073709551616").is_none());
    assert!(parse_decimal("18446744073709551615").is_some());
}

#[test]
fn format_round_trips() {
    for s in ["100.5", "42", "-3.25", "0.0005", "100.50", "0", "-0.1"] {
        let d = parse_decimal(s).unwrap();
        let t = format_dec(&d);
        assert_eq!(t, s);
        assert_eq!(parse_decimal(&t).unwrap(), d);
    }
}

#[test]
fn value_within_float_tolerance() {
    let d = parse_decimal("100.5").unwrap();
    let v = d.mant as f32 / 10f32.powi(d.scale as i32);
    assert!((v - 100.5f32).abs() < 1e-6);
}

#[test]
fn px_qty_pair_parses() {
    let (px, qty) = parse_px_qty_tup("100.5", "2").unwrap();
    assert_eq!(px, Dec { neg: false, mant: 1005, scale: 1 });
    assert_eq!(qty, Dec { neg: false, mant: 2, scale: 0 });
}

#[test]
fn px_qty_pair_fails_on_either_field() {
    assert_eq!(parse_px_qty_tup("x", "2").unwrap_err(), HandleError::Numeric);
    assert_eq!(parse_px_qty_tup("1", "y").unwrap_err(), HandleError::Numeric);
}

#[test]
fn depth_parses_both_sides() {
    let bids = vec![("100.5".to_string(), "2".to_string())];
    let asks = vec![("100.6".to_string(), "1".to_string())];
    let (b, a) = parse_depth(&bids, &asks).unwrap();
    assert_eq!(b, vec![(Dec { neg: false, mant: 1005, scale: 1 }, Dec { neg: false, mant: 2, scale: 0 })]);
    assert_eq!(a, vec![(Dec { neg: false, mant: 1006, scale: 1 }, Dec { neg: false, mant: 1, scale: 0 })]);
}

#[test]
fn depth_one_malformed_level_aborts_message() {
    let bids = vec![
        ("100.5".to_string(), "2".to_string()),
        ("bad".to_string(), "2".to_string()),
    ];
    let asks: Vec<(String, String)> = Vec::new();
    assert_eq!(parse_depth(&bids, &asks).unwrap_err(), HandleError::Numeric);
}
