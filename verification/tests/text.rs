use std::cmp::Ordering;

use completion_kit::number::{parse_number, push_decimal};
use completion_kit::text::{is_white_space, same_text, text_order, trim, trim_end, TextOrder};

#[test]
fn white_space_is_the_unicode_property() {
    for code in 0..=0x10ffff_u32 {
        if let Some(c) = char::from_u32(code) {
            assert_eq!(is_white_space(c), c.is_whitespace(), "{code:x}");
        }
    }
}

const SAMPLES: [&str; 12] = [
    "",
    " ",
    "a",
    "a ",
    " a",
    "\t a b \n\u{3000}",
    "é\u{2028}",
    "\u{feff}x\u{85}",
    "ab",
    "abc",
    "\u{ffff}",
    "\u{10000}",
];

#[test]
fn trimming_cuts_whitespace_off() {
    for text in SAMPLES {
        assert_eq!(trim_end(text), text.trim_end());
        assert_eq!(trim(text), text.trim());
    }
    assert_eq!(trim_end("tail \n"), "tail");
    assert_eq!(trim("  both\u{a0}"), "both");
}

#[test]
fn texts_are_compared_as_strings_are() {
    for a in SAMPLES {
        for b in SAMPLES {
            assert_eq!(same_text(a, b), a == b);
            let expected = match a.cmp(b) {
                Ordering::Less => TextOrder::Before,
                Ordering::Equal => TextOrder::Same,
                Ordering::Greater => TextOrder::After,
            };
            assert_eq!(text_order(a, b), expected, "{a:?} {b:?}");
        }
    }
}

#[test]
fn numbers_are_read_as_the_standard_library_reads_them() {
    for text in [
        "",
        "+",
        "0",
        "007",
        "+42",
        "-1",
        "++1",
        "1+",
        " 1",
        "1 ",
        "12a",
        "18446744073709551615",
        "18446744073709551616",
        "99999999999999999999999",
        "00000000000000000000000001",
        "٣",
    ] {
        assert_eq!(parse_number(text), text.parse::<u64>().ok(), "{text:?}");
    }
}

#[test]
fn decimal_notation_is_read_back() {
    for number in [0, 1, 9, 10, 11, 99, 100, 1234567890, u64::MAX] {
        let mut text = String::from("n=");
        push_decimal(&mut text, number);
        assert_eq!(text, format!("n={number}"));
        assert_eq!(parse_number(&text[2..]), Some(number));
    }
}
