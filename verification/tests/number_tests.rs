//! Numbers: their text, their truthiness and their JSON form.

use forma::json::{JsonNumber, JsonValue};
use forma::number::CANONICAL_NAN;
use forma::parser::test_helpers::build_slot_table;
use forma::parser::SlotTable;
use forma::slot::{json_to_slot_value, number_or_zero, SlotData, SlotValue};
use forma::SlotNumber;

fn raw(x: f64) -> SlotNumber {
    SlotNumber {
        bits: x.to_bits(),
        text: x.to_string(),
    }
}

fn value(x: f64) -> SlotValue {
    SlotValue::Number(raw(x))
}

#[test]
fn integers_are_shown_plainly() {
    assert_eq!(value(0.0).to_text(), "0");
    assert_eq!(value(-0.0).to_text(), "0");
    assert_eq!(value(1.0).to_text(), "1");
    assert_eq!(value(-7.0).to_text(), "-7");
    assert_eq!(value(4503599627370497.0).to_text(), "4503599627370497");
    assert_eq!(value(9007199254740994.0).to_text(), "9007199254740994");
}

#[test]
fn large_integers_are_exact_up_to_the_limit() {
    // The shortest decimal text of 2^60 is 1152921504606847000.
    assert_eq!(value(1152921504606846976.0).to_text(), "1152921504606846976");
    assert_eq!(value(9223372036854774784.0).to_text(), "9223372036854774784");
    assert_eq!(value(9223372036854775808.0).to_text(), "9223372036854775807");
    assert_eq!(value(1e300).to_text(), "9223372036854775807");
    assert_eq!(value(-9223372036854775808.0).to_text(), "-9223372036854775808");
    assert_eq!(value(-1e300).to_text(), "-9223372036854775808");
}

#[test]
fn integers_match_the_cast_over_many_values() {
    let mut x: f64 = 1.0;
    for _ in 0..1100 {
        for y in [x, -x, x + 1.0, x * 1.5] {
            let expected = if y.fract() == 0.0 && y.is_finite() {
                format!("{}", y as i64)
            } else {
                format!("{}", y)
            };
            assert_eq!(value(y).to_text(), expected);
            assert_eq!(value(y).as_bool(), y != 0.0);
        }
        x *= 2.0;
    }
    let mut x: f64 = 1.0;
    for _ in 0..1100 {
        for y in [x, -x, x * 3.0] {
            let expected = if y.fract() == 0.0 && y.is_finite() {
                format!("{}", y as i64)
            } else {
                format!("{}", y)
            };
            assert_eq!(value(y).to_text(), expected);
            assert_eq!(value(y).as_bool(), y != 0.0);
        }
        x /= 2.0;
    }
}

#[test]
fn other_numbers_are_shown_by_their_decimal_text() {
    assert_eq!(value(0.5).to_text(), "0.5");
    assert_eq!(value(-2.25).to_text(), "-2.25");
    assert_eq!(value(f64::NAN).to_text(), "NaN");
    assert_eq!(value(f64::INFINITY).to_text(), "inf");
    assert_eq!(value(f64::NEG_INFINITY).to_text(), "-inf");
    assert_eq!(value(f64::MIN_POSITIVE).to_text(), f64::MIN_POSITIVE.to_string());
}

#[test]
fn only_zero_is_falsy() {
    assert!(!value(0.0).as_bool());
    assert!(!value(-0.0).as_bool());
    assert!(value(f64::NAN).as_bool());
    assert!(value(f64::MIN_POSITIVE / 4.0).as_bool());
    assert!(value(-1.5).as_bool());
}

#[test]
fn numbers_become_json_numbers_or_null() {
    assert_eq!(value(7.0).to_json(), JsonValue::Number(JsonNumber::Int(7)));
    assert_eq!(value(-0.0).to_json(), JsonValue::Number(JsonNumber::Int(0)));
    assert_eq!(value(0.25).to_json(), JsonValue::Number(JsonNumber::Double(raw(0.25))));
    assert_eq!(value(f64::NAN).to_json(), JsonValue::Null);
    assert_eq!(value(f64::INFINITY).to_json(), JsonValue::Null);
}

#[test]
fn json_numbers_become_numbers() {
    let int = json_to_slot_value(&JsonValue::Number(JsonNumber::Int(42)));
    assert!(matches!(int, SlotValue::Number(n) if n == raw(42.0)));
    let large = json_to_slot_value(&JsonValue::Number(JsonNumber::Int(9007199254740993)));
    assert!(matches!(large, SlotValue::Number(n) if n == raw(9007199254740992.0)));
    let double = json_to_slot_value(&JsonValue::Number(JsonNumber::Double(raw(2.5))));
    assert!(matches!(double, SlotValue::Number(n) if n == raw(2.5)));
    let none = json_to_slot_value(&JsonValue::Number(JsonNumber::NoDouble));
    assert!(matches!(none, SlotValue::Number(n) if n == raw(0.0)));
    assert_eq!(number_or_zero(None), raw(0.0));
    assert_eq!(number_or_zero(Some(raw(1.5))), raw(1.5));
}

#[test]
fn default_numbers_are_parsed() {
    let table = SlotTable::parse(&build_slot_table(&[
        (0, 0, 0x03, 0x00, b"1e3"),
        (1, 0, 0x03, 0x00, b"-0.5"),
        (2, 0, 0x03, 0x00, b"inf"),
        (3, 0, 0x03, 0x00, b"NaN"),
        (4, 0, 0x03, 0x00, b" 1"),
        (5, 0, 0x03, 0x00, b"\xff"),
        (6, 0, 0x03, 0x00, b"1e999"),
    ]))
    .unwrap();
    let data = SlotData::new_from_defaults(&table);
    assert_eq!(data.get(0).to_text(), "1000");
    assert_eq!(data.get(1).to_text(), "-0.5");
    assert_eq!(data.get(2).to_text(), "inf");
    assert!(matches!(data.get(3), SlotValue::Number(n) if n.bits == CANONICAL_NAN && n.text == "NaN"));
    assert!(matches!(data.get(4), SlotValue::Null));
    assert!(matches!(data.get(5), SlotValue::Null));
    assert_eq!(data.get(6).to_text(), "inf");
}
