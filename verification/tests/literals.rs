use yarrow_core::parser::literals::{decode_int_literal, decode_rune_literal, decode_string_literal};

#[test]
fn signed_decimal_literals() {
    assert_eq!(decode_int_literal("-900").unwrap(), -900i128);
    assert_eq!(decode_int_literal("+300").unwrap(), 300i128);
    assert_eq!(decode_int_literal("42").unwrap(), 42i128);
}

#[test]
fn signed_radix_literals() {
    assert_eq!(decode_int_literal("-0x10").unwrap(), -16i128);
    assert_eq!(decode_int_literal("+0x1F").unwrap(), 31i128);
    assert_eq!(decode_int_literal("-0b101").unwrap(), -5i128);
    assert_eq!(decode_int_literal("0b11").unwrap(), 3i128);
}

#[test]
fn underscores_are_ignored() {
    assert_eq!(decode_int_literal("1_000_000").unwrap(), 1_000_000i128);
    assert_eq!(decode_int_literal("-0xF_F").unwrap(), -255i128);
}

#[test]
fn wide_integer_round_trip() {
    let big = "170141183460469231731687303715884105727"; // i128::MAX
    assert_eq!(decode_int_literal(big).unwrap(), i128::MAX);
    assert!(decode_int_literal("340282366920938463463374607431768211456").is_err());
}

#[test]
fn rune_literals() {
    assert_eq!(decode_rune_literal("'a'").unwrap(), 'a' as u32);
    assert_eq!(decode_rune_literal("'\\n'").unwrap(), 0x0a);
    assert_eq!(decode_rune_literal("'\\''").unwrap(), 0x27);
    assert_eq!(decode_rune_literal("'€'").unwrap(), 0x20ac);
    assert!(decode_rune_literal("'ab'").is_err());
}

#[test]
fn octal_and_error_codes() {
    assert_eq!(decode_int_literal("0o17").is_err(), true);
    assert!(decode_int_literal("").is_err());
    assert!(decode_int_literal("0x").is_err());
    assert!(decode_int_literal("12a").is_err());
}

#[test]
fn string_literal_escapes() {
    assert_eq!(decode_string_literal("\"a\\tb\"").unwrap(), "a\tb");
    assert_eq!(decode_string_literal("\"\"").unwrap(), "");
}

#[test]
fn smallest_i128_literal_round_trips() {
    assert_eq!(decode_int_literal("-170141183460469231731687303715884105728").unwrap(), i128::MIN);
    assert_eq!(decode_int_literal("170141183460469231731687303715884105727").unwrap(), i128::MAX);
    assert!(decode_int_literal("170141183460469231731687303715884105728").is_err());
    assert_eq!(decode_int_literal(&i64::MIN.to_string()).unwrap(), i64::MIN as i128);
}

#[test]
fn every_integer_primitive_round_trips_through_its_text() {
    let values: Vec<i128> = vec![
        0, 1, -1, 42, -42,
        i8::MIN as i128, i8::MAX as i128, u8::MAX as i128,
        i16::MIN as i128, u16::MAX as i128,
        i32::MIN as i128, u32::MAX as i128,
        i64::MIN as i128, i64::MAX as i128, u64::MAX as i128,
        i128::MIN, i128::MAX,
    ];
    for v in values {
        assert_eq!(decode_int_literal(&v.to_string()).unwrap(), v);
    }
}
