use primitive_types::U512;

use fox::dydx::amounts::{
    find_dot, order_usd_amount, parse_u64, quantum_amount, quantum_amount_usd, try_quantum_amount,
};
use fox::uint::Uint512;

fn value(x: &Uint512) -> U512 {
    U512(x.to_limbs())
}

fn dec(s: &str) -> U512 {
    U512::from_dec_str(s).unwrap()
}

#[test]
fn decimal_points() {
    assert_eq!(find_dot("1500.5"), Some(4));
    assert_eq!(find_dot(".5"), Some(0));
    assert_eq!(find_dot("1.2.3"), Some(1));
    assert_eq!(find_dot("1500"), None);
}

#[test]
fn quantum_amounts() {
    assert_eq!(value(&quantum_amount("0.01".to_string(), 9)), dec("10000000"));
    assert_eq!(value(&quantum_amount("1500".to_string(), 6)), dec("1500000000"));
    assert_eq!(value(&quantum_amount("0.001".to_string(), 10)), dec("10000000"));
    assert_eq!(value(&quantum_amount("2.5".to_string(), 1)), dec("25"));
    assert_eq!(value(&quantum_amount("".to_string(), 3)), dec("0"));
}

#[test]
fn quantum_amounts_that_cannot_be_had() {
    // more fractional digits than decimals
    assert!(try_quantum_amount("0.0000000001".to_string(), 9).is_none());
    // a character that is not a digit
    assert!(try_quantum_amount("12a".to_string(), 2).is_none());
    assert!(try_quantum_amount("1.2.3".to_string(), 5).is_none());
    // more than 512 bits
    assert!(try_quantum_amount("1".repeat(160), 0).is_none());
    assert_eq!(value(&try_quantum_amount("7.25".to_string(), 4).unwrap()), dec("72500"));
}

#[test]
fn quantum_usd_amounts() {
    assert_eq!(
        value(&quantum_amount_usd("1500.5".to_string(), "0.01".to_string(), 6).unwrap()),
        dec("15005000")
    );
    assert_eq!(
        value(&quantum_amount_usd("25.25".to_string(), "2".to_string(), 6).unwrap()),
        dec("50500000")
    );
    assert_eq!(
        value(&quantum_amount_usd("1500".to_string(), "1".to_string(), 6).unwrap()),
        dec("1500000000")
    );
}

#[test]
fn quantum_usd_amount_beyond_the_decimals_is_left_to_floating_point() {
    // 4 + 3 fractional digits for 6 decimals: the count of zeros wraps around
    assert!(quantum_amount_usd("1.1234".to_string(), "0.001".to_string(), 6).is_none());
}

#[test]
fn order_usd_amounts() {
    assert_eq!(
        value(&order_usd_amount("1500.5".to_string(), "0.01".to_string(), 6, 99).unwrap()),
        dec("15005000")
    );
    assert_eq!(
        value(&order_usd_amount("1.1234".to_string(), "0.001".to_string(), 6, 1123).unwrap()),
        dec("1123")
    );
    assert!(order_usd_amount("15x".to_string(), "1".to_string(), 6, 0).is_none());
    let huge = "9".repeat(80);
    assert!(order_usd_amount(huge.clone(), huge, 0, 0).is_none());
    assert_eq!(
        value(&order_usd_amount("123".to_string(), "0".to_string(), 0, 5).unwrap()),
        dec("0")
    );
}

#[test]
fn zero_counts() {
    assert_eq!(fox::dydx::amounts::usd_zero_count("1500.5", "0.01", 6), 3);
    assert_eq!(fox::dydx::amounts::usd_zero_count("1500", "1", 6), 6);
    assert_eq!(fox::dydx::amounts::usd_zero_count("1.1234", "0.001", 6), usize::MAX);
}

#[test]
fn unsigned_integers() {
    assert_eq!(parse_u64("184552"), Some(184552));
    assert_eq!(parse_u64("+12"), Some(12));
    assert_eq!(parse_u64("0"), Some(0));
    assert_eq!(parse_u64("18446744073709551615"), Some(u64::MAX));
    assert_eq!(parse_u64("18446744073709551616"), None);
    assert_eq!(parse_u64(""), None);
    assert_eq!(parse_u64("+"), None);
    assert_eq!(parse_u64("-1"), None);
    assert_eq!(parse_u64("12a"), None);
    assert_eq!(parse_u64(" 1"), None);
    for text in ["184552", "+12", "", "+", "-1", "99999999999999999999", "1_0"] {
        assert_eq!(parse_u64(text), text.parse::<u64>().ok());
    }
}

#[test]
fn one_more_decimal_is_ten_times_more() {
    let nine = value(&quantum_amount("0.01".to_string(), 9));
    let ten = value(&quantum_amount("0.01".to_string(), 10));
    assert_eq!(ten, nine * U512::from(10u64));
}
