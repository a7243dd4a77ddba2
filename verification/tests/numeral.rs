use revision::numeral::{decimal_text, pad_text_left, parse_i64};

#[test]
fn decimal_text_matches_display() {
    for v in [0i64, 7, 10, 99, 100, -1, -10, 1234567890, i64::MAX, i64::MIN] {
        assert_eq!(decimal_text(v), v.to_string());
    }
}

#[test]
fn padding_fills_on_the_left() {
    assert_eq!(pad_text_left("7", 3, '0'), "007");
    assert_eq!(pad_text_left("1234", 3, '0'), "1234");
    assert_eq!(pad_text_left("", 2, '_'), "__");
}

#[test]
fn parsing_matches_from_str() {
    for text in [
        "0",
        "42",
        "+42",
        "-42",
        "-0",
        "007",
        "",
        "-",
        "+",
        "4 2",
        "12a",
        "9223372036854775807",
        "9223372036854775808",
        "-9223372036854775808",
        "-9223372036854775809",
        "99999999999999999999999",
        "٣",
    ] {
        assert_eq!(parse_i64(text), text.parse::<i64>().ok(), "{text:?}");
    }
}

#[test]
fn parsing_reads_back_what_was_written() {
    for v in [0i64, 5, -5, 120, -9000, i64::MAX, i64::MIN] {
        assert_eq!(parse_i64(&decimal_text(v)), Some(v));
    }
}

#[test]
fn zero_padding_reads_back_as_the_value() {
    for (v, width) in [(12i64, 3usize), (0, 4), (5039, 4), (7, 0), (123456, 2)] {
        let shown = pad_text_left(&decimal_text(v), width, '0');
        assert!(shown.chars().count() >= width);
        assert_eq!(parse_i64(&shown), Some(v));
    }
}
