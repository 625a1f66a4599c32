use cue::calendar::{civil_from_days, days_from_civil, days_in_month, weekday_of};
use cue::color::{color32_to_hex, hex_to_color32, hex_to_rgb};
use cue::text::{
    contains_str, ends_with_str, find_char, find_sub, parse_i32, parse_u32, parse_u64, parse_u8, parse_usize,
    push_decimal, push_padded, push_signed_padded, split_all_char, split_once_char, starts_with_str, str_eq,
};

#[test]
fn day_numbers_of_known_dates() {
    assert_eq!(days_from_civil(1970, 1, 1), 0);
    assert_eq!(days_from_civil(2000, 3, 1), 11017);
    assert_eq!(days_from_civil(2024, 2, 29), 19782);
    assert_eq!(days_from_civil(1969, 12, 31), -1);
}

#[test]
fn dates_of_day_numbers() {
    assert_eq!(civil_from_days(0), (1970, 1, 1));
    assert_eq!(civil_from_days(19782), (2024, 2, 29));
    assert_eq!(civil_from_days(-1), (1969, 12, 31));
    assert_eq!(civil_from_days(11017), (2000, 3, 1));
}

#[test]
fn day_number_round_trip_law_on_values() {
    for z in [-800000i64, -1, 0, 59, 60, 11016, 19782, 2932896] {
        let (y, m, d) = civil_from_days(z);
        assert_eq!(days_from_civil(y, m, d), z);
    }
}

#[test]
fn month_lengths() {
    assert_eq!(days_in_month(2, 2024), 29);
    assert_eq!(days_in_month(2, 2023), 28);
    assert_eq!(days_in_month(2, 1900), 28);
    assert_eq!(days_in_month(2, 2000), 29);
    assert_eq!(days_in_month(4, 2023), 30);
    assert_eq!(days_in_month(12, 2023), 31);
}

#[test]
fn weekdays_from_monday() {
    assert_eq!(weekday_of(0), 3);
    assert_eq!(weekday_of(4), 0);
    assert_eq!(weekday_of(-1), 2);
}

#[test]
fn parsing_like_str_parse() {
    assert_eq!(parse_u32("42"), Some(42));
    assert_eq!(parse_u32("+7"), Some(7));
    assert_eq!(parse_u32(""), None);
    assert_eq!(parse_u32("+"), None);
    assert_eq!(parse_u32("4294967296"), None);
    assert_eq!(parse_u32("4294967295"), Some(4294967295));
    assert_eq!(parse_u32("-1"), None);
    assert_eq!(parse_i32("-12"), Some(-12));
    assert_eq!(parse_i32("-2147483648"), Some(-2147483648));
    assert_eq!(parse_i32("2147483648"), None);
    assert_eq!(parse_u8("255"), Some(255));
    assert_eq!(parse_u8("256"), None);
    assert_eq!(parse_usize("007"), Some(7));
    assert_eq!(parse_u64("18446744073709551615"), Some(u64::MAX));
    assert_eq!(parse_u64("1 "), None);
}

#[test]
fn splitting_and_searching() {
    assert_eq!(split_once_char("a b c", ' '), Some(("a", "b c")));
    assert_eq!(split_once_char("abc", ' '), None);
    assert_eq!(find_char("hello", 'l'), 2);
    assert_eq!(find_char("hello", 'z'), 5);
    assert_eq!(split_all_char("10.0.0.1", '.'), vec!["10", "0", "0", "1"]);
    assert_eq!(split_all_char("", '.'), vec![""]);
    assert_eq!(split_all_char("a..b.", '.'), vec!["a", "", "b", ""]);
    assert_eq!(find_sub("ab\r\n\r\ncd", "\r\n\r\n"), Some(2));
    assert_eq!(find_sub("abc", "d"), None);
    assert_eq!(find_sub("abc", ""), Some(0));
    assert!(contains_str("HTTP/1.0 200 OK", " 200 "));
    assert!(!contains_str("HTTP/1.0 2000", " 200 "));
    assert!(ends_with_str("HTTP/1.0 200", " 200"));
    assert!(starts_with_str("http://x", "http://"));
    assert!(str_eq("abc", "abc"));
    assert!(!str_eq("abc", "abd"));
}

#[test]
fn decimal_formatting() {
    let mut s = String::new();
    push_decimal(&mut s, 1234);
    assert_eq!(s, "1234");
    let mut s = String::new();
    push_padded(&mut s, 7, 2);
    assert_eq!(s, "07");
    let mut s = String::new();
    push_padded(&mut s, 12345, 2);
    assert_eq!(s, "12345");
    let mut s = String::new();
    push_signed_padded(&mut s, -5, 4);
    assert_eq!(s, "-005");
    let mut s = String::new();
    push_signed_padded(&mut s, 2025, 4);
    assert_eq!(s, "2025");
}

#[test]
fn colours_read_from_hex_text() {
    assert_eq!(hex_to_rgb("#4A90D9"), Some([74, 144, 217]));
    assert_eq!(hex_to_rgb("4a90d9"), Some([74, 144, 217]));
    assert_eq!(hex_to_rgb("##4A90D9"), Some([74, 144, 217]));
    assert_eq!(hex_to_rgb("#4A90D"), None);
    assert_eq!(hex_to_rgb("#GG0000"), None);
    assert_eq!(hex_to_rgb("#+A0000"), Some([10, 0, 0]));
    assert_eq!(hex_to_color32("#000000"), Some([0, 0, 0]));
}

#[test]
fn colour_text_round_trip() {
    assert_eq!(color32_to_hex([74, 144, 217]), "#4A90D9");
    assert_eq!(color32_to_hex([0, 15, 255]), "#000FFF");
    for c in [[1u8, 2, 3], [255, 254, 16], [0, 0, 0]] {
        assert_eq!(hex_to_rgb(&color32_to_hex(c)), Some(c));
    }
}
