use hypercalibrate::camera_controls::ControlValue;
use hypercalibrate::text::{decimal_string, parse_digits, parse_i64, replace_char, trim_span};
use hypercalibrate::video_settings::FrameRate;

#[test]
fn signed_numbers() {
    assert_eq!(parse_i64("0"), Some(0));
    assert_eq!(parse_i64("42"), Some(42));
    assert_eq!(parse_i64("+42"), Some(42));
    assert_eq!(parse_i64("-42"), Some(-42));
    assert_eq!(parse_i64("-0"), Some(0));
    assert_eq!(parse_i64("007"), Some(7));
    assert_eq!(parse_i64("9223372036854775807"), Some(i64::MAX));
    assert_eq!(parse_i64("-9223372036854775808"), Some(i64::MIN));
}

#[test]
fn texts_that_write_no_number() {
    for text in [
        "",
        "+",
        "-",
        "--1",
        "+-1",
        "1 ",
        " 1",
        "1.5",
        "0x10",
        "9223372036854775808",
        "-9223372036854775809",
        "99999999999999999999999999",
        "١٢",
        "1e3",
    ] {
        assert_eq!(parse_i64(text), None, "{:?}", text);
    }
}

#[test]
fn signed_numbers_agree_with_the_standard_library() {
    for text in [
        "0", "-1", "+1", "12345678901234567890", "-9223372036854775808", "9223372036854775807",
        "9223372036854775808", "", "-", "+", "a", "1a", "é1", "00000000000000000000000001", "-00",
    ] {
        assert_eq!(parse_i64(text), text.parse::<i64>().ok(), "{:?}", text);
    }
}

#[test]
fn digits_within_a_text() {
    assert_eq!(parse_digits("ab123cd", 2, 5, u64::MAX), Some(123));
    assert_eq!(parse_digits("ab123cd", 2, 6, u64::MAX), None);
    assert_eq!(parse_digits("ab123cd", 2, 2, u64::MAX), None);
    assert_eq!(parse_digits("é123", 1, 4, u64::MAX), Some(123));
    assert_eq!(parse_digits("100", 0, 3, 100), Some(100));
    assert_eq!(parse_digits("101", 0, 3, 100), None);
    assert_eq!(parse_digits("5", 0, 1, 4), None);
    assert_eq!(parse_digits("4", 0, 1, 4), Some(4));
    assert_eq!(parse_digits("04", 0, 2, 4), Some(4));
    assert_eq!(parse_digits("0", 0, 1, 0), Some(0));
    assert_eq!(parse_digits("1", 0, 1, 0), None);
    assert_eq!(parse_digits("18446744073709551615", 0, 20, u64::MAX), Some(u64::MAX));
    assert_eq!(parse_digits("18446744073709551616", 0, 20, u64::MAX), None);
}

#[test]
fn control_values_from_text() {
    assert_eq!(ControlValue::from_text("3"), ControlValue::Integer(3));
    assert_eq!(ControlValue::from_text("-3"), ControlValue::Integer(-3));
    assert_eq!(ControlValue::from_text("Auto"), ControlValue::String("Auto".to_string()));
    assert_eq!(ControlValue::from_text(""), ControlValue::String(String::new()));
    assert_eq!(ControlValue::from_text("3.5"), ControlValue::String("3.5".to_string()));
}

#[test]
fn the_rate_of_a_range_of_intervals() {
    assert_eq!(FrameRate::from_shortest_interval(1, 60), Some(FrameRate::from_fraction(1, 60)));
    assert_eq!(FrameRate::from_shortest_interval(0, 60), None);
}

#[test]
fn numbers_in_decimal() {
    for n in [0u32, 1, 9, 10, 11, 99, 100, 101, 4095, 65536, 1000000, u32::MAX - 1, u32::MAX] {
        assert_eq!(decimal_string(n), n.to_string());
    }
}

#[test]
fn replacing_characters() {
    assert_eq!(replace_char("a b  c", ' ', "_"), "a_b__c");
    assert_eq!(replace_char("", ' ', "_"), "");
    assert_eq!(replace_char("   ", ' ', ""), "");
    assert_eq!(replace_char("abc", 'x', "y"), "abc");
    assert_eq!(replace_char("aXbX", 'X', "--"), "a--b--");
    assert_eq!(replace_char("é é", ' ', "ü"), "éüé");
    for (text, from, to) in [("a_b_c", '_', " "), ("__", '_', "_"), ("x", 'x', "xx"), ("日本 語", ' ', "_")] {
        assert_eq!(replace_char(text, from, to), text.replace(from, to));
    }
}

#[test]
fn trimming() {
    for text in ["", " ", "a", " a", "a ", "  a b  ", "\t\na\u{3000}", "\u{a0}é\u{2009}", " \n "] {
        let (start, end) = trim_span(text);
        let trimmed: String = text.chars().skip(start).take(end - start).collect();
        assert_eq!(trimmed, text.trim(), "{:?}", text);
    }
}

#[test]
fn storing_by_key() {
    let mut entries: Vec<(String, i64)> = Vec::new();
    hypercalibrate::keyed::put_entry(&mut entries, "a".to_string(), 1);
    hypercalibrate::keyed::put_entry(&mut entries, "b".to_string(), 2);
    hypercalibrate::keyed::put_entry(&mut entries, "a".to_string(), 3);
    hypercalibrate::keyed::put_entry(&mut entries, "".to_string(), 4);
    assert_eq!(entries, vec![("a".to_string(), 3), ("b".to_string(), 2), (String::new(), 4)]);
}
