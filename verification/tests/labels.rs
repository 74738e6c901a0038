use chain_notes::labels::{beginning_of, preview_of, short_addr};
use chain_notes::text::{chars_of, decimal_text, join, same_text, text_between};

#[test]
fn previews_are_one_line_of_forty_characters() {
    assert_eq!(preview_of("hello\nworld"), "hello world");
    let forty = "x".repeat(40);
    assert_eq!(preview_of(&forty), forty);
    let more = "é".repeat(41);
    assert_eq!(preview_of(&more), "é".repeat(40) + "…");
    assert_eq!(preview_of(""), "");
    assert_eq!(beginning_of("a\nb"), "a b");
    assert_eq!(beginning_of(&more), "é".repeat(40));
}

#[test]
fn addresses_are_shortened_past_seventeen_bytes() {
    assert_eq!(short_addr("12345678901234567"), "12345678901234567");
    assert_eq!(short_addr("123456789012345678"), "12345678…345678");
    assert_eq!(short_addr(""), "");
    assert_eq!(short_addr(&"é".repeat(8)), "é".repeat(8));
    assert_eq!(short_addr("äöüäöüäöü"), "äöüäöüäö…äöüäöü");
    assert_eq!(short_addr("€¥€¥€¥€"), "€¥€¥€¥€…¥€¥€¥€");
    assert_eq!(short_addr(&"😀".repeat(5)), "😀".repeat(5) + "…" + &"😀".repeat(5));
    assert_eq!(short_addr("äöüäöüäöüäöüäöüäöü"), "äöüäöüäö…äöüäöü");
}

#[test]
fn numbers_are_written_in_decimal() {
    assert_eq!(decimal_text(0), "0");
    assert_eq!(decimal_text(10), "10");
    assert_eq!(decimal_text(u64::MAX), "18446744073709551615");
}

#[test]
fn texts_are_compared_and_cut_by_characters() {
    assert!(same_text("añb", "añb"));
    assert!(!same_text("añb", "anb"));
    assert!(!same_text("a", "ab"));
    let chars = chars_of("añb");
    assert_eq!(chars, vec!['a', 'ñ', 'b']);
    assert_eq!(text_between(&chars, 1, 3), "ñb");
}

#[test]
fn texts_are_joined_with_a_separator() {
    assert_eq!(join(&vec![], ", "), "");
    assert_eq!(join(&vec!["a".into()], ", "), "a");
    assert_eq!(join(&vec!["a".into(), "".into(), "c".into()], ", "), "a, , c");
}
