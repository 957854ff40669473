use raster_engine::text::{
    is_blank, parse_i32, parse_integer, parse_u32, parse_u8, parse_usize, split_arguments,
    text_eq, trim,
};

#[test]
fn text_eq_compares_characters() {
    assert!(text_eq("", ""));
    assert!(text_eq("add", "add"));
    assert!(!text_eq("add", "adds"));
    assert!(!text_eq("add", "adD"));
    assert!(!text_eq("", "a"));
    assert!(text_eq("平移", "平移"));
    assert!(!text_eq("平移", "平"));
}

#[test]
fn is_blank_is_unicode_white_space() {
    for code in 0..=0x10FFFFu32 {
        if let Some(c) = char::from_u32(code) {
            assert_eq!(is_blank(c), c.is_whitespace(), "U+{:04X}", code);
        }
    }
}

#[test]
fn trim_removes_white_space_around() {
    assert_eq!(trim("  12 "), "12");
    assert_eq!(trim("12"), "12");
    assert_eq!(trim("\t1 2\n"), "1 2");
    assert_eq!(trim("   "), "");
    assert_eq!(trim(""), "");
    assert_eq!(trim("\u{3000}x\u{a0}"), "x");
    for sample in ["", " ", " a", "a ", " a b ", "\r\n", "é ", " 平移 "] {
        assert_eq!(trim(sample), sample.trim());
    }
}

#[test]
fn split_arguments_splits_at_commas() {
    assert_eq!(split_arguments("1,2"), vec!["1", "2"]);
    assert_eq!(split_arguments(" 1 , 2 "), vec!["1", "2"]);
    assert_eq!(split_arguments("1"), vec!["1"]);
    assert_eq!(split_arguments(""), vec![""]);
    assert_eq!(split_arguments(","), vec!["", ""]);
    assert_eq!(split_arguments("a,,b,"), vec!["a", "", "b", ""]);
    assert_eq!(split_arguments("0.3, 2.0, 2.0, 10"), vec!["0.3", "2.0", "2.0", "10"]);
}

#[test]
fn split_arguments_agrees_with_split_and_trim() {
    for sample in ["", ",", " , ", "1,2,3", " a ,b", "x", ",,", "1, 2 ,", "é,平 移 ,z"] {
        let expected: Vec<&str> = sample.split(',').map(|s| s.trim()).collect();
        assert_eq!(split_arguments(sample), expected);
    }
}

#[test]
fn parse_i32_reads_signed_decimals() {
    assert_eq!(parse_i32("0"), Some(0));
    assert_eq!(parse_i32("42"), Some(42));
    assert_eq!(parse_i32("-42"), Some(-42));
    assert_eq!(parse_i32("+42"), Some(42));
    assert_eq!(parse_i32("007"), Some(7));
    assert_eq!(parse_i32("-0"), Some(0));
    assert_eq!(parse_i32("2147483647"), Some(i32::MAX));
    assert_eq!(parse_i32("-2147483648"), Some(i32::MIN));
}

#[test]
fn parse_i32_refuses_everything_else() {
    for sample in [
        "", "+", "-", "--1", "+-1", "1.5", "1e3", " 1", "1 ", "0x10", "a", "1a", "2147483648",
        "-2147483649", "99999999999999999999999999999999999999999999", "１２",
    ] {
        assert_eq!(parse_i32(sample), None, "{:?}", sample);
    }
}

#[test]
fn parse_u32_refuses_a_minus_sign() {
    assert_eq!(parse_u32("0"), Some(0));
    assert_eq!(parse_u32("+5"), Some(5));
    assert_eq!(parse_u32("4294967295"), Some(u32::MAX));
    assert_eq!(parse_u32("4294967296"), None);
    assert_eq!(parse_u32("-5"), None);
    assert_eq!(parse_u32("-0"), None);
    assert_eq!(parse_u32(""), None);
}

#[test]
fn parse_u8_and_usize_have_their_ranges() {
    assert_eq!(parse_u8("255"), Some(255));
    assert_eq!(parse_u8("256"), None);
    assert_eq!(parse_u8("8"), Some(8));
    assert_eq!(parse_usize("64"), Some(64));
    assert_eq!(parse_usize(&usize::MAX.to_string()), Some(usize::MAX));
    assert_eq!(parse_usize("18446744073709551616"), None);
    assert_eq!(parse_usize("-1"), None);
}

#[test]
fn parsers_agree_with_the_standard_library() {
    for sample in [
        "", "0", "-0", "+0", "12", "-12", "+12", "000", "255", "256", "-128", "65536",
        "4294967295", "4294967296", "2147483647", "2147483648", "-2147483648", "-2147483649",
        "18446744073709551615", "18446744073709551616", "1 ", " 1", "1,2", "+", "-", "++1", "1-",
        "3.0", "٣",
    ] {
        assert_eq!(parse_i32(sample), sample.parse::<i32>().ok(), "{:?}", sample);
        assert_eq!(parse_u32(sample), sample.parse::<u32>().ok(), "{:?}", sample);
        assert_eq!(parse_u8(sample), sample.parse::<u8>().ok(), "{:?}", sample);
        assert_eq!(parse_usize(sample), sample.parse::<usize>().ok(), "{:?}", sample);
    }
}

#[test]
fn parse_integer_checks_the_range() {
    assert_eq!(parse_integer("10", false, 0, 10), Some(10));
    assert_eq!(parse_integer("11", false, 0, 10), None);
    assert_eq!(parse_integer("-3", true, -3, 3), Some(-3));
    assert_eq!(parse_integer("-4", true, -3, 3), None);
    assert_eq!(parse_integer("-3", false, -3, 3), None);
    assert_eq!(
        parse_integer("18446744073709551616", false, 0, 18446744073709551616),
        Some(18446744073709551616)
    );
    assert_eq!(parse_integer("18446744073709551617", false, 0, 18446744073709551616), None);
}
