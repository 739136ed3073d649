use gerber_plotter::parser::number::parse_number;
use gerber_plotter::parser::text::{to_chars, to_text};
use gerber_plotter::parser::{Decimal, Unit};
use gerber_plotter::plotter::CircularDirection;

fn dec(mantissa: i64, scale: usize) -> Decimal {
    Decimal { mantissa, scale }
}

#[test]
fn numbers_are_read_exactly() {
    assert_eq!(parse_number(&to_chars("0.800000X"), 0), Some((8, dec(800000, 6))));
    assert_eq!(parse_number(&to_chars("-1.5"), 0), Some((4, dec(-15, 1))));
    assert_eq!(parse_number(&to_chars("+.25*"), 0), Some((4, dec(25, 2))));
    assert_eq!(parse_number(&to_chars("7."), 0), Some((2, dec(7, 0))));
    assert_eq!(parse_number(&to_chars("xx42"), 2), Some((4, dec(42, 0))));
    assert_eq!(parse_number(&to_chars("."), 0), None);
    assert_eq!(parse_number(&to_chars("-"), 0), None);
    assert_eq!(parse_number(&to_chars(""), 0), None);
    assert_eq!(
        parse_number(&to_chars("9223372036854775807"), 0),
        Some((19, dec(i64::MAX, 0)))
    );
    assert_eq!(parse_number(&to_chars("9223372036854775808"), 0), None);
    assert_eq!(parse_number(&to_chars("922337203685477580.8"), 0), None);
}

#[test]
fn half_is_exact_or_refused() {
    assert_eq!(dec(1524, 4).half(), Some(dec(7620, 5)));
    assert_eq!(dec(-3, 0).half(), Some(dec(-15, 1)));
    assert_eq!(dec(i64::MAX, 0).half(), None);
    assert_eq!(dec(1, usize::MAX).half(), None);
}

#[test]
fn truncate_rounds_towards_zero() {
    assert_eq!(dec(8, 0).truncate(), 8);
    assert_eq!(dec(89, 1).truncate(), 8);
    assert_eq!(dec(-89, 1).truncate(), -8);
    assert_eq!(dec(5, 3).truncate(), 0);
    assert_eq!(dec(i64::MAX, 0).truncate(), i32::MAX);
    assert_eq!(dec(i64::MIN, 0).truncate(), i32::MIN);
    assert_eq!(dec(i64::MIN, 18).truncate(), -9);
}

#[test]
fn equal_values_however_written() {
    assert!(dec(15, 1).equals(&dec(1500, 3)));
    assert!(dec(0, 0).equals(&dec(0, 9)));
    assert!(!dec(15, 1).equals(&dec(15, 2)));
    assert!(!dec(1, 0).equals(&dec(i64::MAX, 30)));
    assert!(dec(-7, 0).equals(&dec(-70, 1)));
}

#[test]
fn points_per_unit() {
    let (n, d) = Unit::Inches.points_per_unit();
    assert_eq!(n as f64 / d as f64, 72.0);
    let (n, d) = Unit::Millimeters.points_per_unit();
    assert!((n as f64 / d as f64 - 72.0 / 25.4).abs() < 1e-12);
    assert_eq!(n as f32 / d as f32, 72.0f32 / 25.4f32);
}

#[test]
fn text_and_characters() {
    let chars = to_chars("G04 héllo*");
    assert_eq!(chars.len(), 10);
    assert_eq!(to_text(&chars, 4, 9), "héllo");
    assert_eq!(to_text(&chars, 3, 3), "");
}

#[test]
fn reverse_swaps_the_directions() {
    assert_eq!(CircularDirection::CW.reverse(), CircularDirection::CCW);
    assert_eq!(CircularDirection::CCW.reverse(), CircularDirection::CW);
    assert_eq!(CircularDirection::CW.reverse().reverse(), CircularDirection::CW);
}

#[test]
fn numbers_with_a_power_of_ten() {
    assert_eq!(parse_number(&to_chars("1e3"), 0), Some((3, dec(1000, 0))));
    assert_eq!(parse_number(&to_chars("1.5e-2"), 0), Some((6, dec(15, 3))));
    assert_eq!(parse_number(&to_chars("-2.5E+1X"), 0), Some((7, dec(-25, 0))));
    assert_eq!(parse_number(&to_chars("12.5e1"), 0), Some((6, dec(125, 0))));
    assert_eq!(parse_number(&to_chars("0e99"), 0), Some((4, dec(0, 0))));
    assert_eq!(parse_number(&to_chars("1e"), 0), None);
    assert_eq!(parse_number(&to_chars("1e+"), 0), None);
    assert_eq!(parse_number(&to_chars("1e99"), 0), None);
    assert_eq!(parse_number(&to_chars("1e18"), 0), Some((4, dec(1_000_000_000_000_000_000, 0))));
    assert_eq!(parse_number(&to_chars("1e19"), 0), None);
    assert_eq!(parse_number(&to_chars("1e99999999999999999999"), 0), None);
}
