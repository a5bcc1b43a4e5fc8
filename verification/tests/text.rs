use zoterable::number::{decimal, parse_u64};
use zoterable::text::{
    ends_with, is_ascii_digit, is_control, is_whitespace, join, same_text, split_whitespace,
    to_ascii_lowercase, trim, trim_end_matches, truncate_to,
};

#[test]
fn characters_are_classified_as_std_does() {
    for n in 0u32..0x110000 {
        if let Some(c) = char::from_u32(n) {
            assert_eq!(is_whitespace(c), c.is_whitespace(), "{:x}", n);
            assert_eq!(is_control(c), c.is_control(), "{:x}", n);
            assert_eq!(is_ascii_digit(c), c.is_ascii_digit(), "{:x}", n);
        }
    }
}

#[test]
fn texts_are_trimmed_as_std_does() {
    for s in ["", " ", " a ", "\u{3000}a b\u{2028}\n", "ab", "\t\u{85}"] {
        assert_eq!(trim(s), s.trim());
        let words: Vec<String> = s.split_whitespace().map(|w| w.to_string()).collect();
        assert_eq!(split_whitespace(s), words);
    }
}

#[test]
fn tails_are_taken_away_again_and_again() {
    assert_eq!(trim_end_matches("a.pdf.pdf", ".pdf"), "a");
    assert_eq!(trim_end_matches("a.PDF", ".pdf"), "a.PDF");
    assert_eq!(trim_end_matches("///", "/"), "");
    assert_eq!(trim_end_matches("abc", ""), "abc");
}

#[test]
fn ascii_letters_alone_are_lowered() {
    assert_eq!(to_ascii_lowercase("ÄbC.PDF"), "Äbc.pdf");
    assert!(ends_with("x.pdf", ".pdf"));
    assert!(!ends_with("pdf", ".pdf"));
    assert!(same_text("é", "é"));
    assert!(!same_text("e", "é"));
}

#[test]
fn parts_are_joined() {
    let parts = vec!["a".to_string(), "b".to_string(), "c".to_string()];
    assert_eq!(join(&parts, " - "), "a - b - c");
    assert_eq!(join(&Vec::new(), " - "), "");
}

#[test]
fn texts_are_cut_between_characters() {
    assert_eq!(truncate_to("äöü", 4), "äö");
    assert_eq!(truncate_to("äöü", 3), "ä");
    assert_eq!(truncate_to("a\u{1f600}", 4), "a");
    assert_eq!(truncate_to("abc", 3), "abc");
}

#[test]
fn numbers_are_written_in_decimal() {
    assert_eq!(decimal(0), "0");
    assert_eq!(decimal(907), "907");
    assert_eq!(decimal(u128::MAX), u128::MAX.to_string());
}

#[test]
fn numbers_are_read_as_std_does() {
    for s in [
        "0",
        "00017",
        "+5",
        "+",
        "",
        "-1",
        " 5",
        "5 ",
        "1_0",
        "++1",
        "18446744073709551615",
        "18446744073709551616",
        "99999999999999999999999",
        "12a",
        "١",
    ] {
        assert_eq!(parse_u64(s), s.parse::<u64>().ok(), "{:?}", s);
    }
}

#[test]
fn a_number_is_read_back_from_its_text() {
    for n in [0u64, 9, 10, 12345, u64::MAX] {
        assert_eq!(parse_u64(&decimal(n as u128)), Some(n));
    }
}
