//! Decimal rendering of whole numbers and fixed-point values.

use gbench::Fixed;
use gbench::push_dec_u64;
use gbench::push_fixed;
use gbench::str_lt;

fn dec(v: u64) -> String {
    let mut s = String::new();
    push_dec_u64(&mut s, v);
    s
}

fn fixed_str(f: Fixed, sep: &str) -> String {
    let mut s = String::new();
    push_fixed(&mut s, f, sep);
    s
}

#[test]
fn decimal_numerals() {
    assert_eq!(dec(0), "0");
    assert_eq!(dec(7), "7");
    assert_eq!(dec(10), "10");
    assert_eq!(dec(1203), "1203");
    assert_eq!(dec(18446744073709551615), "18446744073709551615");
}

#[test]
fn fixed_point_rendering() {
    assert_eq!(fixed_str(Fixed::from_int(0), "."), "0");
    assert_eq!(fixed_str(Fixed::from_int(12), "."), "12");
    assert_eq!(fixed_str(Fixed::from_int(-3), "."), "-3");
    assert_eq!(fixed_str(Fixed::new(false, 1500), "."), "1.5");
    assert_eq!(fixed_str(Fixed::new(false, 1050), "."), "1.05");
    assert_eq!(fixed_str(Fixed::new(false, 1005), "."), "1.005");
    assert_eq!(fixed_str(Fixed::new(true, 50), ","), "-0,05");
    assert_eq!(fixed_str(Fixed::new(true, 0), "."), "0");
}

#[test]
fn lexicographic_order_on_strings() {
    assert!(str_lt("a", "b"));
    assert!(str_lt("a", "ab"));
    assert!(!str_lt("ab", "a"));
    assert!(!str_lt("a", "a"));
    assert!(str_lt("A", "a"));
    assert!(str_lt("a : x", "a : y"));
}
