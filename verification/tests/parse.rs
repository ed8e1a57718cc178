use hexdump::num::{as_u64, ParseError};

#[test]
fn decimal_values_parse() {
    assert_eq!(as_u64(&"0".to_string()), Ok(0));
    assert_eq!(as_u64(&"123".to_string()), Ok(123));
    assert_eq!(as_u64(&"18446744073709551615".to_string()), Ok(u64::MAX));
}

#[test]
fn hex_values_parse_with_prefix() {
    assert_eq!(as_u64(&"0x0".to_string()), Ok(0));
    assert_eq!(as_u64(&"0x10".to_string()), Ok(16));
    assert_eq!(as_u64(&"0x1f".to_string()), Ok(31));
    assert_eq!(as_u64(&"0xABC".to_string()), Ok(0xabc));
    assert_eq!(as_u64(&"0xdeadBEEF".to_string()), Ok(0xdead_beef));
    assert_eq!(as_u64(&"0xffffffffffffffff".to_string()), Ok(u64::MAX));
}

#[test]
fn empty_arguments_rejected() {
    assert_eq!(as_u64(&"".to_string()), Err(ParseError::Empty));
    assert_eq!(as_u64(&"0x".to_string()), Err(ParseError::Empty));
}

#[test]
fn non_digits_rejected() {
    assert_eq!(as_u64(&"12a".to_string()), Err(ParseError::InvalidDigit));
    assert_eq!(as_u64(&"-1".to_string()), Err(ParseError::InvalidDigit));
    assert_eq!(as_u64(&"0xg1".to_string()), Err(ParseError::InvalidDigit));
    assert_eq!(as_u64(&" 5".to_string()), Err(ParseError::InvalidDigit));
}

#[test]
fn values_over_64_bits_rejected() {
    assert_eq!(
        as_u64(&"18446744073709551616".to_string()),
        Err(ParseError::Overflow)
    );
    assert_eq!(
        as_u64(&"0x10000000000000000".to_string()),
        Err(ParseError::Overflow)
    );
}

#[test]
fn hex_digits_need_the_prefix() {
    assert_eq!(as_u64(&"1f".to_string()), Err(ParseError::InvalidDigit));
}
