use lrc_sync::text::{
    eq_ignore_ascii_case, number_text, parse_number, str_eq, to_ascii_lowercase, trimmed_text,
};

#[test]
fn numbers_take_a_plus_sign_and_digits_only() {
    assert_eq!(parse_number("42", 100), Some(42));
    assert_eq!(parse_number("+7", 100), Some(7));
    assert_eq!(parse_number("007", 100), Some(7));
    for bad in ["", "+", "-1", " 1", "1 ", "1_0", "1.0", "0x1"] {
        assert_eq!(parse_number(bad, 100), None, "{bad:?}");
        assert!(bad.parse::<u64>().is_err());
    }
}

#[test]
fn numbers_stop_at_the_limit() {
    assert_eq!(parse_number("100", 100), Some(100));
    assert_eq!(parse_number("101", 100), None);
    assert_eq!(parse_number("18446744073709551615", u64::MAX), Some(u64::MAX));
    assert_eq!(parse_number("18446744073709551616", u64::MAX), None);
}

#[test]
fn written_numbers_read_back() {
    for n in [0, 1, 9, 10, 99, 100, 12345, u64::MAX] {
        assert_eq!(number_text(n), n.to_string());
        assert_eq!(parse_number(&number_text(n), u64::MAX), Some(n));
    }
}

#[test]
fn lower_case_is_of_ascii_letters_only() {
    assert_eq!(to_ascii_lowercase("AbZ-09 \u{c4}"), "abz-09 \u{c4}");
    assert!(eq_ignore_ascii_case("ABBA", "abba"));
    assert!(!eq_ignore_ascii_case("\u{c4}", "\u{e4}"));
    assert!(!eq_ignore_ascii_case("a", "ab"));
}

#[test]
fn trimming_knows_unicode_white_space() {
    assert_eq!(trimmed_text("\u{3000}\t a b \u{a0}\n"), "a b");
    assert_eq!(trimmed_text("\u{200b}x"), "\u{200b}x");
    assert_eq!(trimmed_text(&trimmed_text("  x ")), trimmed_text("  x "));
}

#[test]
fn texts_compare_by_character() {
    assert!(str_eq("keep", "keep"));
    assert!(!str_eq("keep", "Keep"));
    assert!(!str_eq("keep", "kee"));
}
