//! The base-10 reader and writer, and the parser pieces built on them.

use seq_expand::decimal::{dec_string, parse_u64};
use seq_expand::parse::Template;
use seq_expand::token::{Delim, Token};

#[test]
fn reads_simple_numerals() {
    assert_eq!(parse_u64("0"), Some(0));
    assert_eq!(parse_u64("7"), Some(7));
    assert_eq!(parse_u64("1234"), Some(1234));
}

#[test]
fn reads_leading_zeros() {
    assert_eq!(parse_u64("007"), Some(7));
    assert_eq!(parse_u64("000"), Some(0));
}

#[test]
fn rejects_empty_and_non_digits() {
    assert_eq!(parse_u64(""), None);
    assert_eq!(parse_u64("12a"), None);
    assert_eq!(parse_u64("-3"), None);
    assert_eq!(parse_u64(" 3"), None);
}

#[test]
fn reads_the_largest_word_and_rejects_one_more() {
    assert_eq!(parse_u64("18446744073709551615"), Some(u64::MAX));
    assert_eq!(parse_u64("18446744073709551616"), None);
    assert_eq!(parse_u64("99999999999999999999999"), None);
}

#[test]
fn writes_decimal_digits() {
    assert_eq!(dec_string(0).as_str(), "0");
    assert_eq!(dec_string(9).as_str(), "9");
    assert_eq!(dec_string(10).as_str(), "10");
    assert_eq!(dec_string(1234).as_str(), "1234");
    assert_eq!(dec_string(u64::MAX).as_str(), "18446744073709551615");
}

#[test]
fn round_trips_through_both_directions() {
    for n in [0u64, 1, 9, 10, 99, 100, 4096, u64::MAX] {
        assert_eq!(parse_u64(dec_string(n).as_str()), Some(n));
    }
}

#[test]
fn template_parse_and_expand_emit_the_content() {
    // N in 1..3 { N }  parsed once, emitted twice: same output both times.
    let input = vec![
        Token::Ident { name: "N".to_string(), pos: 0 },
        Token::Ident { name: "in".to_string(), pos: 1 },
        Token::Lit { text: "1".to_string(), pos: 2 },
        Token::Punct { ch: '.', pos: 3 },
        Token::Punct { ch: '.', pos: 4 },
        Token::Lit { text: "3".to_string(), pos: 5 },
        Token::Group { delim: Delim::Brace, inner: vec![Token::Ident { name: "N".to_string(), pos: 7 }], pos: 6 },
    ];
    let template = Template::parse(&input).unwrap();
    let once = template.expand();
    let twice = template.expand();
    let expected = vec![
        Token::Lit { text: "1".to_string(), pos: 7 },
        Token::Lit { text: "2".to_string(), pos: 7 },
    ];
    assert_eq!(once, expected);
    assert_eq!(twice, expected);
}
