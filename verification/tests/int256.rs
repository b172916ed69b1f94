use liquid_ledger::int256::{i256, Notation, ParseError};

fn check_i256(number: &i256) {
    let encoded = number.encode();
    let decoded: i256 = i256::decode(encoded.as_slice()).unwrap();
    assert_eq!(number, &decoded);
}

/// 2 to the 255: one more than the greatest number in range.
fn above_the_range() -> i256 {
    let mut bytes = vec![0u8; 33];
    bytes[1] = 0x80;
    i256::from_signed_be_bytes(&bytes)
}

/// Minus 2 to the 255, less 1: one less than the least number in range.
fn below_the_range() -> i256 {
    let mut bytes = vec![0xffu8; 33];
    bytes[1] = 0x7f;
    i256::from_signed_be_bytes(&bytes)
}

fn be(value: i128) -> [u8; 32] {
    let mut bytes = if value < 0 { [0xff; 32] } else { [0; 32] };
    bytes[16..].copy_from_slice(&value.to_be_bytes());
    bytes
}

#[test]
fn i256_codec() {
    let origin: i256 = (-1).into();
    let encoded = origin.encode();
    let decoded: i256 = i256::decode(encoded.as_slice()).unwrap();
    assert!(origin == decoded);
    let number: i256 = i256::from(-1);
    check_i256(&number);
    let number: i256 = i256::from(-127);
    check_i256(&number);
    let number: i256 = i256::from(-128);
    check_i256(&number);
    let number: i256 = i256::from(-129);
    check_i256(&number);
    let number: i256 = i256::from(-255);
    check_i256(&number);
    let number: i256 = i256::from(-256);
    check_i256(&number);
    let number: i256 = i256::from(-257);
    check_i256(&number);
    let number: i256 = i256::from(-65535);
    check_i256(&number);
    let number: i256 = i256::from(-65536);
    check_i256(&number);
    let number: i256 = i256::from(-65537);
    check_i256(&number);
    let number: i256 = i256::from(-2147483647);
    check_i256(&number);

    let number: i256 = i256::from(1);
    check_i256(&number);
    let number: i256 = i256::from(127);
    check_i256(&number);
    let number: i256 = i256::from(128);
    check_i256(&number);
    let number: i256 = i256::from(129);
    check_i256(&number);
    let number: i256 = i256::from(255);
    check_i256(&number);
    let number: i256 = i256::from(256);
    check_i256(&number);
    let number: i256 = i256::from(257);
    check_i256(&number);
    let number: i256 = i256::from(65535);
    check_i256(&number);
    let number: i256 = i256::from(65536);
    check_i256(&number);
    let number: i256 = i256::from(65537);
    check_i256(&number);
    let number: i256 = i256::from(2147483647);
    check_i256(&number);
}

#[test]
fn from_str() {
    let i1: i256 = "42258578699988885".parse().unwrap();
    let i2: i256 = "-0x9621F414202F95".parse().unwrap();
    assert_eq!(-i1, i2);
}

#[test]
fn the_encoding_is_32_bytes_of_two_s_complement_big_endian() {
    assert_eq!(i256::from(0).to_be_bytes(), [0u8; 32]);
    assert_eq!(i256::from(-1).to_be_bytes(), [0xffu8; 32]);
    assert_eq!(i256::from(1).to_be_bytes(), be(1));
    assert_eq!(i256::from(-129).to_be_bytes(), be(-129));
    assert_eq!(i256::from(0x1234_5678_i64).to_be_bytes(), be(0x1234_5678));
    assert_eq!(i256::from(i128::MIN).to_be_bytes(), be(i128::MIN));
    let mut expected = [0u8; 32];
    expected[30] = 0x01;
    assert_eq!(i256::from(256).to_be_bytes(), expected);
    assert_eq!(i256::from(256).encode(), expected.to_vec());
    assert_eq!(i256::from(5).size_hint(), 32);
}

#[test]
fn bytes_of_any_length_are_read_in_two_s_complement() {
    assert_eq!(i256::from_signed_be_bytes(&[]), i256::from(0));
    assert_eq!(i256::from_signed_be_bytes(&[0, 0, 5]), i256::from(5));
    assert_eq!(i256::from_signed_be_bytes(&[0xff, 0xff, 0x7f]), i256::from(-129));
    assert_eq!(i256::from_signed_be_bytes(&[0x80]), i256::from(-128));
    assert_eq!(i256::from_signed_be_bytes(&[0x00, 0x80]), i256::from(128));
    assert_eq!(i256::from_signed_be_bytes(&[0x12, 0x34]), i256::from(0x1234));
    assert_eq!(i256::from_signed_le_bytes(&[0x34, 0x12]), i256::from(0x1234));
    assert_eq!(i256::from_signed_le_bytes(&[0x7f, 0xff]), i256::from(-129));
    assert_eq!(i256::from_signed_le_bytes(&[]), i256::from(0));
    assert_eq!(i256::from_signed_be_bytes(&be(-77)), i256::from(-77));
}

#[test]
fn every_integer_type_converts() {
    assert_eq!(i256::from(-5i8), i256::from(-5i128));
    assert_eq!(i256::from(-5i16), i256::from(-5i128));
    assert_eq!(i256::from(-5i32), i256::from(-5i128));
    assert_eq!(i256::from(-5i64), i256::from(-5i128));
    assert_eq!(i256::from(-5isize), i256::from(-5i128));
    assert_eq!(i256::from(200u8), i256::from(200i128));
    assert_eq!(i256::from(200u16), i256::from(200i128));
    assert_eq!(i256::from(200u32), i256::from(200i128));
    assert_eq!(i256::from(200u64), i256::from(200i128));
    assert_eq!(i256::from(200usize), i256::from(200i128));
    assert_eq!(i256::from(200u128), i256::from(200i128));
    assert_eq!(i256::from_i128(-42), i256::from(-42));
    assert_eq!(i256::from_u128(u128::MAX).to_string(), "340282366920938463463374607431768211455");
    assert_eq!(i256::from(u64::MAX).to_be_bytes(), be(u64::MAX as i128));
}

#[test]
fn decode_needs_32_bytes_and_reads_the_first_32() {
    assert!(i256::decode(&[0u8; 31]).is_none());
    assert!(i256::decode(&[]).is_none());
    let mut input = be(-300).to_vec();
    input.extend_from_slice(&[1, 2, 3]);
    assert_eq!(i256::decode(&input), Some(i256::from(-300)));
}

#[test]
fn the_least_and_the_greatest_number() {
    let min = i256::min_value();
    let max = i256::max_value();
    let mut least = [0u8; 32];
    least[0] = 0x80;
    let mut greatest = [0xffu8; 32];
    greatest[0] = 0x7f;
    assert_eq!(min.to_be_bytes(), least);
    assert_eq!(max.to_be_bytes(), greatest);
    assert!(min.fits() && max.fits());
    assert!(min.is_negative() && max.is_positive());
    assert_eq!(
        max.to_string(),
        "57896044618658097711785492504343953926634992332820282019728792003956564819967"
    );
    assert_eq!(
        min.to_string(),
        "-57896044618658097711785492504343953926634992332820282019728792003956564819968"
    );
    assert!(min.less_than(&max));
    assert_eq!(max.checked_add(&i256::from(1)), None);
    assert_eq!(min.checked_sub(&i256::from(1)), None);
    assert_eq!(min.checked_neg(), None);
    assert!(!min.abs().fits());
    assert_eq!(min.abs(), above_the_range());
    assert_eq!(max.checked_neg().unwrap().checked_sub(&i256::from(1)), Some(i256::min_value()));
    assert_eq!(min.checked_add(&max), Some(i256::from(-1)));
}

#[test]
fn numbers_out_of_range_exist_and_do_not_fit() {
    let beyond = above_the_range();
    assert!(!beyond.fits());
    assert!(beyond.is_positive());
    let mut bytes = vec![0u8; 33];
    bytes[0] = 1;
    let wide = i256::from_signed_be_bytes(&bytes);
    assert!(!wide.fits());
    assert_eq!(wide.to_uint256(), None);
    assert_eq!(beyond.checked_sub(&i256::from(1)), Some(i256::max_value()));
}

#[test]
fn checked_arithmetic() {
    let n = |value: i64| i256::from(value);
    assert_eq!(n(7).checked_add(&n(-9)), Some(n(-2)));
    assert_eq!(n(7).checked_sub(&n(-9)), Some(n(16)));
    assert_eq!(n(7).checked_mul(&n(-9)), Some(n(-63)));
    assert_eq!(n(7).checked_div(&n(2)), Some(n(3)));
    assert_eq!(n(-7).checked_div(&n(2)), Some(n(-3)));
    assert_eq!(n(7).checked_div(&n(-2)), Some(n(-3)));
    assert_eq!(n(-7).checked_div(&n(-2)), Some(n(3)));
    assert_eq!(n(7).checked_div(&n(0)), None);
    assert_eq!(n(7).checked_rem(&n(2)), Some(n(1)));
    assert_eq!(n(-7).checked_rem(&n(2)), Some(n(-1)));
    assert_eq!(n(7).checked_rem(&n(-2)), Some(n(1)));
    assert_eq!(n(7).checked_rem(&n(0)), None);
    assert_eq!(n(7).checked_neg(), Some(n(-7)));
    assert_eq!(n(-7).abs(), n(7));
    assert_eq!(n(7).abs(), n(7));
    assert_eq!(n(0).abs(), n(0));
    assert_eq!(n(7).abs_sub(&n(3)), n(4));
    assert_eq!(n(3).abs_sub(&n(7)), n(0));
    assert_eq!(n(3).abs_sub(&n(3)), n(0));
    assert_eq!(n(-3).abs_sub(&n(-7)), n(4));
    assert_eq!(i256::from(&n(9)), n(9));
    assert_eq!(i256::max_value().checked_mul(&n(2)), None);
    assert_eq!(i256::min_value().checked_div(&n(-1)), None);
}

#[test]
fn operators() {
    let n = |value: i64| i256::from(value);
    assert_eq!(n(20) + n(22), n(42));
    assert_eq!(n(20) - n(22), n(-2));
    assert_eq!(n(-6) * n(7), n(-42));
    assert_eq!(n(-43) / n(7), n(-6));
    assert_eq!(n(-43) % n(7), n(-1));
    assert_eq!(-n(5), n(-5));
    assert_eq!(-n(0), n(0));
}

#[test]
fn signs_and_comparisons() {
    let n = |value: i64| i256::from(value);
    assert!(n(-3).is_negative() && !n(-3).is_positive() && !n(-3).is_zero());
    assert!(!n(0).is_negative() && !n(0).is_positive() && n(0).is_zero());
    assert!(!n(3).is_negative() && n(3).is_positive() && !n(3).is_zero());
    assert_eq!(n(-3).signum(), n(-1));
    assert_eq!(n(0).signum(), n(0));
    assert_eq!(n(3).signum(), n(1));
    assert!(n(-3).less_than(&n(2)));
    assert!(!n(2).less_than(&n(2)));
    assert!(!n(3).less_than(&n(2)));
    assert!(n(2).same_as(&n(2)));
    assert!(!n(2).same_as(&n(-2)));
    assert!(n(-128).same_as(&i256::from_signed_be_bytes(&[0xff, 0x80])));
}

#[test]
fn to_uint256_gives_the_32_unsigned_bytes() {
    assert_eq!(i256::from(-1).to_uint256(), None);
    assert_eq!(i256::from(0).to_uint256(), Some([0u8; 32]));
    assert_eq!(i256::from(0x1234).to_uint256(), Some(be(0x1234)));
    let mut bytes = vec![0u8; 33];
    bytes[1] = 0xff;
    bytes[32] = 0x01;
    let large = i256::from_signed_be_bytes(&bytes);
    let mut expected = [0u8; 32];
    expected[0] = 0xff;
    expected[31] = 0x01;
    assert!(!large.fits());
    assert_eq!(large.to_uint256(), Some(expected));
    bytes[0] = 1;
    assert_eq!(i256::from_signed_be_bytes(&bytes).to_uint256(), None);
}

#[test]
fn texts_are_read_in_decimal_and_in_hexadecimal() {
    assert_eq!(i256::parse("42"), Ok(i256::from(42)));
    assert_eq!(i256::parse("-42"), Ok(i256::from(-42)));
    assert_eq!(i256::parse("+42"), Ok(i256::from(42)));
    assert_eq!(i256::parse("0x2a"), Ok(i256::from(42)));
    assert_eq!(i256::parse("0X2A"), Ok(i256::from(42)));
    assert_eq!(i256::parse("-0x2A"), Ok(i256::from(-42)));
    assert_eq!(i256::parse("-0X2a"), Ok(i256::from(-42)));
    assert_eq!(i256::parse("0x0"), Ok(i256::from(0)));
    assert_eq!(i256::parse("0x-2a"), Ok(i256::from(-42)));
    assert_eq!("0xff".parse::<i256>(), Ok(i256::from(255)));
}

#[test]
fn texts_that_are_no_numbers_are_invalid() {
    assert_eq!(i256::parse(""), Err(ParseError::Invalid));
    assert_eq!(i256::parse("0x"), Err(ParseError::Invalid));
    assert_eq!(i256::parse("-0x"), Err(ParseError::Invalid));
    assert_eq!(i256::parse("12a"), Err(ParseError::Invalid));
    assert_eq!(i256::parse("0xg"), Err(ParseError::Invalid));
    assert_eq!(i256::parse("2a"), Err(ParseError::Invalid));
    assert_eq!(i256::parse(" 1"), Err(ParseError::Invalid));
    assert_eq!("x".parse::<i256>(), Err(ParseError::Invalid));
}

#[test]
fn a_negated_hexadecimal_number_has_to_be_in_range() {
    let least = format!("-0x8{}", "0".repeat(63));
    assert_eq!(i256::parse(&least), Ok(i256::min_value()));
    let beyond = format!("-0x8{}1", "0".repeat(62));
    assert_eq!(i256::parse(&beyond), Err(ParseError::OutOfRange));
    let wide = format!("0x1{}", "0".repeat(64));
    assert!(!i256::parse(&wide).unwrap().fits());
}

#[test]
fn the_notation_is_told_from_the_beginning_of_the_text() {
    assert_eq!(i256::notation("0x1"), Notation::Hex);
    assert_eq!(i256::notation("0x"), Notation::Hex);
    assert_eq!(i256::notation("-0x1"), Notation::NegativeHex);
    assert_eq!(i256::notation("-0"), Notation::Decimal);
    assert_eq!(i256::notation("0"), Notation::Decimal);
    assert_eq!(i256::notation(""), Notation::Decimal);
    assert_eq!(i256::notation("10x"), Notation::Decimal);
    assert_eq!(i256::notation("0X1"), Notation::Decimal);
}

#[test]
fn from_digits_negates_after_a_negative_prefix() {
    assert_eq!(i256::from_digits(Notation::Decimal, Some(i256::from(-7))), Ok(i256::from(-7)));
    assert_eq!(i256::from_digits(Notation::Hex, Some(i256::from(7))), Ok(i256::from(7)));
    assert_eq!(i256::from_digits(Notation::NegativeHex, Some(i256::from(7))), Ok(i256::from(-7)));
    assert_eq!(i256::from_digits(Notation::NegativeHex, Some(i256::from(-7))), Ok(i256::from(7)));
    assert_eq!(i256::from_digits(Notation::NegativeHex, None), Err(ParseError::Invalid));
    assert_eq!(i256::from_digits(Notation::Decimal, None), Err(ParseError::Invalid));
    assert_eq!(
        i256::from_digits(Notation::NegativeHex, Some(i256::min_value())),
        Err(ParseError::OutOfRange)
    );
    let beyond = above_the_range();
    assert_eq!(i256::from_digits(Notation::NegativeHex, Some(beyond)), Ok(i256::min_value()));
}

#[test]
fn numbers_are_written_in_any_radix_from_2_to_36() {
    assert_eq!(i256::from(-255).to_string(), "-255");
    assert_eq!(i256::from(0).to_string(), "0");
    assert_eq!(i256::from(255).to_str_radix(16), "ff");
    assert_eq!(i256::from(-5).to_str_radix(2), "-101");
    assert_eq!(i256::from(35).to_str_radix(36), "z");
}

#[test]
fn arithmetic_agrees_with_the_machine_on_small_numbers() {
    let values: [i128; 15] = [
        0, 1, -1, 2, -2, 127, 128, -128, -129, 255, 256, -256, 65535, -65537, 1_000_000_007,
    ];
    for &a in values.iter() {
        let x = i256::from(a);
        assert_eq!(x.is_negative(), a < 0);
        assert_eq!(x.is_zero(), a == 0);
        assert_eq!(x.is_positive(), a > 0);
        assert_eq!(x.to_be_bytes(), be(a));
        assert_eq!(i256::from_signed_be_bytes(&a.to_be_bytes()), x);
        assert_eq!(i256::from_signed_le_bytes(&a.to_le_bytes()), x);
        assert_eq!(x.to_string(), a.to_string());
        assert_eq!(i256::parse(&a.to_string()), Ok(i256::from(a)));
        for &b in values.iter() {
            let y = i256::from(b);
            assert_eq!(x.checked_add(&y), Some(i256::from(a + b)));
            assert_eq!(x.checked_sub(&y), Some(i256::from(a - b)));
            assert_eq!(x.checked_mul(&y), Some(i256::from(a * b)));
            assert_eq!(x.less_than(&y), a < b);
            assert_eq!(x.same_as(&y), a == b);
            if b != 0 {
                assert_eq!(x.checked_div(&y), Some(i256::from(a / b)));
                assert_eq!(x.checked_rem(&y), Some(i256::from(a % b)));
            }
        }
    }
}

#[test]
fn the_edges_of_the_range() {
    let one = i256::from(1);
    let above = above_the_range();
    let below = below_the_range();
    assert!(i256::max_value().fits());
    assert!(i256::min_value().fits());
    assert!(!above.fits());
    assert!(!below.fits());
    assert!(below.is_negative());
    assert_eq!(above.clone() - one.clone(), i256::max_value());
    assert_eq!(below + one, i256::min_value());
    assert_eq!(i256::max_value().checked_add(&i256::from(1)), None);
    assert_eq!(i256::min_value().checked_sub(&i256::from(1)), None);
    assert_eq!(above.to_uint256().map(|bytes| bytes[0]), Some(0x80));
    let mut all = vec![0u8; 33];
    for byte in all.iter_mut().skip(1) {
        *byte = 0xff;
    }
    let greatest_unsigned = i256::from_signed_be_bytes(&all);
    assert_eq!(greatest_unsigned.to_uint256(), Some([0xffu8; 32]));
    let mut next = vec![0u8; 33];
    next[0] = 0x01;
    assert_eq!(i256::from_signed_be_bytes(&next).to_uint256(), None);
}

#[test]
fn arithmetic_in_place() {
    let mut number = i256::from(10);
    number.add_assign(i256::from(5));
    assert_eq!(number, i256::from(15));
    number.sub_assign(i256::from(20));
    assert_eq!(number, i256::from(-5));
    number.mul_assign(i256::from(-9));
    assert_eq!(number, i256::from(45));
    number.div_assign(i256::from(-7));
    assert_eq!(number, i256::from(-6));
    number.rem_assign(i256::from(4));
    assert_eq!(number, i256::from(-2));
}
