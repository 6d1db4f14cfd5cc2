use basalt::numeral::{c_int_value, float_digits, parse_int_text, IntBase};
use basalt::bits::{i32_to_u32, i64_to_u32, u32_to_i32, u64_to_i64, u64_to_u32, usize_to_u32};

#[test]
fn the_suffix_of_a_float_is_dropped() {
    assert_eq!(float_digits("1.5f", true), "1.5");
    assert_eq!(float_digits("1.5", false), "1.5");
    assert_eq!(float_digits("2L", true), "2");
    assert_eq!(float_digits("f", true), "");
}

#[test]
fn integers_are_read_in_their_base() {
    assert_eq!(c_int_value("42", IntBase::Dec), 42);
    assert_eq!(c_int_value("0x1F", IntBase::Hex), 31);
    assert_eq!(c_int_value("0xFFull", IntBase::Hex), 255);
    assert_eq!(c_int_value("0755", IntBase::Oct), 493);
    assert_eq!(c_int_value("0b101", IntBase::Bin), 5);
    assert_eq!(c_int_value("18446744073709551615u", IntBase::Dec), -1);
    assert_eq!(c_int_value("99999999999999999999", IntBase::Dec), 0);
}

#[test]
fn integers_of_triton_may_hold_underscores() {
    assert_eq!(parse_int_text("1_000"), Some(1000));
    assert_eq!(parse_int_text("0x_ff"), Some(255));
    assert_eq!(parse_int_text("0o17"), Some(15));
    assert_eq!(parse_int_text("0B11"), Some(3));
    assert_eq!(parse_int_text("12z"), None);
    assert_eq!(parse_int_text("9223372036854775807"), Some(i64::MAX));
    assert_eq!(parse_int_text("9223372036854775808"), None);
}

#[test]
fn conversions_keep_the_low_bits() {
    assert_eq!(u64_to_i64(u64::MAX), -1);
    assert_eq!(u32_to_i32(0x8000_0000), i32::MIN);
    assert_eq!(i32_to_u32(-100), 0xffff_ff9c);
    assert_eq!(u64_to_u32(0x1_2345_6789), 0x2345_6789);
    assert_eq!(i64_to_u32(-1), u32::MAX);
    assert_eq!(usize_to_u32(7), 7);
}
