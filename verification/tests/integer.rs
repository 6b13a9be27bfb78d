use hhbc::integer::to_decimal;

#[test]
fn decimal_zero() {
    assert_eq!(to_decimal("0"), Ok("0".to_string()));
}

#[test]
fn octal_zero() {
    assert_eq!(to_decimal("00"), Ok("0".to_string()));
}

#[test]
fn binary_zero_lowercase() {
    assert_eq!(to_decimal("0b0"), Ok("0".to_string()));
}

#[test]
fn binary_zero_uppercase() {
    assert_eq!(to_decimal("0B0"), Ok("0".to_string()));
}

#[test]
fn hex_zero_lowercase() {
    assert_eq!(to_decimal("0x0"), Ok("0".to_string()));
}

#[test]
fn hex_zero_uppercase() {
    assert_eq!(to_decimal("0X0"), Ok("0".to_string()));
}

#[test]
fn decimal_random_value() {
    assert_eq!(to_decimal("1245"), Ok("1245".to_string()));
}

#[test]
fn octal_random_value() {
    assert_eq!(to_decimal("02335"), Ok("1245".to_string()));
}

#[test]
fn binary_random_value_lowercase() {
    assert_eq!(to_decimal("0b10011011101"), Ok("1245".to_string()));
}

#[test]
fn binary_random_value_uppercase() {
    assert_eq!(to_decimal("0B10011011101"), Ok("1245".to_string()));
}

#[test]
fn hex_random_value_lowercase() {
    assert_eq!(to_decimal("0x4DD"), Ok("1245".to_string()));
}

#[test]
fn hex_random_value_uppercase() {
    assert_eq!(to_decimal("0X4DD"), Ok("1245".to_string()));
}

#[test]
fn decimal_max_value() {
    assert_eq!(
        to_decimal("9223372036854775807"),
        Ok("9223372036854775807".to_string())
    );
}

#[test]
fn octal_max_value() {
    assert_eq!(
        to_decimal("0777777777777777777777"),
        Ok("9223372036854775807".to_string())
    );
}

#[test]
fn binary_max_value_lowercase() {
    assert_eq!(
        to_decimal("0b111111111111111111111111111111111111111111111111111111111111111"),
        Ok("9223372036854775807".to_string())
    );
}

#[test]
fn binary_max_value_uppercase() {
    assert_eq!(
        to_decimal("0B111111111111111111111111111111111111111111111111111111111111111"),
        Ok("9223372036854775807".to_string())
    );
}

#[test]
fn hex_max_value_lowercase() {
    assert_eq!(
        to_decimal("0x7FFFFFFFFFFFFFFF"),
        Ok("9223372036854775807".to_string())
    );
}

#[test]
fn hex_max_value_uppercase() {
    assert_eq!(
        to_decimal("0X7FFFFFFFFFFFFFFF"),
        Ok("9223372036854775807".to_string())
    );
}

#[test]
fn unparsable_string() {
    assert!(to_decimal("bad_string").is_err());
}

#[test]
fn negative_values_keep_their_sign() {
    assert_eq!(to_decimal("-42"), Ok("-42".to_string()));
    assert_eq!(to_decimal("-9223372036854775808"), Ok("-9223372036854775808".to_string()));
}

#[test]
fn out_of_range_values_are_rejected() {
    assert!(to_decimal("9223372036854775808").is_err());
    assert!(to_decimal("-9223372036854775809").is_err());
    assert!(to_decimal("0x8000000000000000").is_err());
}
