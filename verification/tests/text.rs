use bautista_bot::text::{parse_i32, parse_u32, signed_decimal_string, split, starts_with, str_eq, trim};

#[test]
fn parse_unsigned_like_std() {
    assert_eq!(parse_u32("12"), Some(12));
    assert_eq!(parse_u32("+12"), Some(12));
    assert_eq!(parse_u32("4294967295"), Some(u32::MAX));
    assert_eq!(parse_u32("4294967296"), None);
    assert_eq!(parse_u32("-1"), None);
    assert_eq!(parse_u32("+"), None);
    assert_eq!(parse_u32(""), None);
    assert_eq!(parse_u32("1a"), None);
    for s in ["0", "007", "+5", " 5", "99999999999", "٣"] {
        assert_eq!(parse_u32(s), s.parse::<u32>().ok());
    }
}

#[test]
fn parse_signed_like_std() {
    assert_eq!(parse_i32("-2147483648"), Some(i32::MIN));
    assert_eq!(parse_i32("2147483648"), None);
    assert_eq!(parse_i32("-"), None);
    for s in ["2022", "-7", "+7", "2147483647", "-2147483649", "x"] {
        assert_eq!(parse_i32(s), s.parse::<i32>().ok());
    }
}

#[test]
fn trim_and_split() {
    assert_eq!(trim(" \t 5 \u{3000}"), "5");
    assert_eq!(trim("   "), "");
    for s in ["a b", "\u{85}x\u{a0}", "\n\n", ""] {
        assert_eq!(trim(s), s.trim());
    }
    assert_eq!(split("23-11-2022", '-'), vec!["23", "11", "2022"]);
    assert_eq!(split("-", '-'), vec!["", ""]);
    assert_eq!(split("", '-'), vec![""]);
}

#[test]
fn comparisons_and_numbers() {
    assert!(str_eq("ñu", "ñu"));
    assert!(!str_eq("ñu", "ñ"));
    assert!(starts_with("/horario 5", "/horario"));
    assert!(!starts_with("/hor", "/horario"));
    assert_eq!(signed_decimal_string(0), "0");
    assert_eq!(signed_decimal_string(-120), "-120");
    assert_eq!(signed_decimal_string(i64::MIN), "-9223372036854775808");
}
