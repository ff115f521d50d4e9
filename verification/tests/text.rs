use dynamo::text::{
    after, before, blank, decimal, head, holds, parse_signed, parse_unsigned, same,
    same_ignoring_case, signed_decimal, trim, white,
};

const SAMPLES: [&str; 12] = [
    "",
    " ",
    "a",
    "A b",
    "\u{2003}é \t",
    " both ends\n",
    "--flag",
    "kind=main",
    "0042",
    "+7",
    "-9",
    "ünïcode—\u{1F600}",
];

#[test]
fn white_space_is_what_unicode_says() {
    for n in 0..=0x10ffffu32 {
        if let Some(c) = char::from_u32(n) {
            assert_eq!(white(c), c.is_whitespace(), "{n:#x}");
        }
    }
}

#[test]
fn the_ends_of_a_text_are_trimmed() {
    for s in SAMPLES {
        assert_eq!(trim(s), s.trim());
        assert_eq!(blank(s), s.trim().is_empty());
    }
}

#[test]
fn texts_are_held_against_each_other() {
    for a in SAMPLES {
        for b in SAMPLES {
            assert_eq!(same(a, b), a == b);
            assert_eq!(before(a, b), a < b, "{a:?} {b:?}");
            assert_eq!(same_ignoring_case(a, b), a.eq_ignore_ascii_case(b));
            assert_eq!(after(a, b).as_deref(), a.strip_prefix(b));
        }
    }
    assert!(same_ignoring_case("GeoThermal", "geothermal"));
    assert!(!same_ignoring_case("É", "é"));
    assert!(!same_ignoring_case("@", "`"));
    assert!(!same_ignoring_case("[", "{"));
}

#[test]
fn the_order_of_texts_is_that_of_their_bytes() {
    let all = ["", "1", "10", "100", "1,2,3", "9", "z", "é", "\u{ffff}", "\u{10000}"];
    for a in all {
        for b in all {
            assert_eq!(before(a, b), a.as_bytes() < b.as_bytes(), "{a:?} {b:?}");
        }
    }
}

#[test]
fn the_head_of_a_text_is_counted_in_characters() {
    for s in SAMPLES {
        for n in [0, 1, 3, 100] {
            assert_eq!(head(s, n), s.chars().take(n).collect::<String>());
        }
        assert_eq!(holds(s, '='), s.contains('='));
    }
}

#[test]
fn numbers_are_written_and_read() {
    for n in [0, 7, 10, 99, 100, 5432, u64::MAX] {
        assert_eq!(decimal(n), n.to_string());
        assert_eq!(parse_unsigned(&n.to_string(), u64::MAX), Some(n));
    }
    for n in [0, -1, 1, -10, i64::MIN, i64::MAX] {
        assert_eq!(signed_decimal(n), n.to_string());
        assert_eq!(parse_signed(&n.to_string()), Some(n));
    }
    for s in SAMPLES.iter().chain(["--5", "+-5", "1_000", "٣", "1e3", "-", "+", "-0"].iter()) {
        assert_eq!(parse_signed(s), s.parse::<i64>().ok(), "{s:?}");
        assert_eq!(parse_unsigned(s, u64::MAX), s.parse::<u64>().ok(), "{s:?}");
    }
    assert_eq!(parse_unsigned("65536", 65535), None);
    assert_eq!(parse_unsigned("65535", 65535), Some(65535));
}
