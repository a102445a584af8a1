use assembly::numbers::{parse_number, push_number};
use assembly::text::{chars_of, copy_text, is_whitespace, is_word, push_text, push_word, same_text};
use assembly::token_stream::{parse_token, split_lexemes};
use assembly::TokenStream;

fn text(source: &str) -> Vec<char> {
    source.chars().collect()
}

fn token(parts: &[&str]) -> Vec<Vec<char>> {
    parts.iter().map(|part| text(part)).collect()
}

#[test]
fn stream_starts_at_the_first_token() {
    let tokens = TokenStream::new("begin push.1 end");
    assert_eq!(tokens.pos(), 0);
    assert!(!tokens.eof());
    assert_eq!(tokens.read(), Some(&token(&["begin"])));
}

#[test]
fn stream_advances_token_by_token() {
    let mut tokens = TokenStream::new("begin push.1 end");
    tokens.advance();
    assert_eq!(tokens.pos(), 1);
    assert_eq!(tokens.read(), Some(&token(&["push", "1"])));
    tokens.advance();
    assert_eq!(tokens.pos(), 2);
    assert_eq!(tokens.read(), Some(&token(&["end"])));
    assert!(!tokens.eof());
    tokens.advance();
    assert_eq!(tokens.pos(), 3);
    assert!(tokens.eof());
    assert_eq!(tokens.read(), None);
}

#[test]
fn advance_at_the_end_does_nothing() {
    let mut tokens = TokenStream::new("add");
    tokens.advance();
    assert!(tokens.eof());
    tokens.advance();
    tokens.advance();
    assert_eq!(tokens.pos(), 1);
    assert!(tokens.eof());
    assert_eq!(tokens.read(), None);
}

#[test]
fn stream_of_an_empty_source_is_at_its_end() {
    let mut tokens = TokenStream::new("");
    assert_eq!(tokens.pos(), 0);
    assert!(tokens.eof());
    assert_eq!(tokens.read(), None);
    assert_eq!(tokens.read_at(0), None);
    let tokens = TokenStream::new(" \t\n ");
    assert!(tokens.eof());
}

#[test]
fn read_at_looks_back() {
    let mut tokens = TokenStream::new("proc.foo add end begin exec.foo end");
    tokens.advance();
    tokens.advance();
    tokens.advance();
    assert_eq!(tokens.read_at(0), Some(&token(&["proc", "foo"])));
    assert_eq!(tokens.read_at(1), Some(&token(&["add"])));
    assert_eq!(tokens.read_at(3), Some(&token(&["begin"])));
    assert_eq!(tokens.pos(), 3);
    assert_eq!(tokens.read(), Some(&token(&["begin"])));
    tokens.advance();
    assert_eq!(tokens.read(), Some(&token(&["exec", "foo"])));
    assert_eq!(tokens.read_at(2), Some(&token(&["end"])));
    assert_eq!(tokens.read(), Some(&token(&["exec", "foo"])));
}

#[test]
fn read_at_the_end_of_the_stream() {
    let mut tokens = TokenStream::new("add mul");
    tokens.advance();
    tokens.advance();
    assert_eq!(tokens.read_at(2), None);
    assert_eq!(tokens.read_at(1), Some(&token(&["mul"])));
}

#[test]
fn lexemes_are_runs_between_white_space() {
    assert_eq!(split_lexemes(&text("a  bc\td\n")), token(&["a", "bc", "d"]));
    assert_eq!(split_lexemes(&text("  lead")), token(&["lead"]));
    assert_eq!(split_lexemes(&text("one")), token(&["one"]));
    assert_eq!(split_lexemes(&text("")), token(&[]));
    assert_eq!(split_lexemes(&text(" \r\n")), token(&[]));
    assert_eq!(split_lexemes(&text("a\u{3000}b\u{85}c")), token(&["a", "b", "c"]));
    assert_eq!(split_lexemes(&text("a\u{200b}b")), token(&["a\u{200b}b"]));
}

#[test]
fn lexemes_agree_with_split_whitespace() {
    let source = " proc.foo\tpush.3\u{a0}mul\u{2028}end\n\nbegin \u{1680} exec.foo end\u{205f}";
    let expected: Vec<Vec<char>> = source.split_whitespace().map(text).collect();
    assert_eq!(split_lexemes(&text(source)), expected);
}

#[test]
fn white_space_characters() {
    for c in ['\t', '\n', '\u{b}', '\u{c}', '\r', ' ', '\u{85}', '\u{a0}', '\u{1680}', '\u{2000}',
        '\u{200a}', '\u{2028}', '\u{2029}', '\u{202f}', '\u{205f}', '\u{3000}']
    {
        assert!(is_whitespace(c));
    }
    for c in ['a', '.', '0', '\u{8}', '\u{e}', '\u{200b}', '\u{2060}', '\u{feff}', '\u{180e}'] {
        assert!(!is_whitespace(c));
    }
    for code in 0..0x3100u32 {
        if let Some(c) = char::from_u32(code) {
            assert_eq!(is_whitespace(c), c.is_whitespace());
        }
    }
}

#[test]
fn parts_are_what_dots_separate() {
    let mut parts = token(&["left", "over"]);
    parse_token(&text("push.1"), &mut parts);
    assert_eq!(parts, token(&["push", "1"]));
    parse_token(&text("add"), &mut parts);
    assert_eq!(parts, token(&["add"]));
    parse_token(&text("a.b.c"), &mut parts);
    assert_eq!(parts, token(&["a", "b", "c"]));
    parse_token(&text(".a..b."), &mut parts);
    assert_eq!(parts, token(&["", "a", "", "b", ""]));
    parse_token(&text("."), &mut parts);
    assert_eq!(parts, token(&["", ""]));
    parse_token(&text(""), &mut parts);
    assert_eq!(parts, token(&[""]));
}

#[test]
fn text_helpers() {
    assert_eq!(chars_of("if.true"), text("if.true"));
    assert_eq!(chars_of(""), text(""));
    assert_eq!(chars_of("né\u{1f600}"), vec!['n', 'é', '\u{1f600}']);
    assert_eq!(copy_text(&text("label")), text("label"));
    assert!(same_text(&text("foo"), &text("foo")));
    assert!(same_text(&text(""), &text("")));
    assert!(!same_text(&text("foo"), &text("fo")));
    assert!(!same_text(&text("foo"), &text("fob")));
    assert!(is_word(&text("while"), "while"));
    assert!(!is_word(&text("while"), "whil"));
    assert!(!is_word(&text("While"), "while"));
    let mut buffer = text("a");
    push_word(&mut buffer, "bc");
    push_text(&mut buffer, &text("de"));
    push_word(&mut buffer, "");
    assert_eq!(buffer, text("abcde"));
}

#[test]
fn numerals() {
    assert_eq!(parse_number(&text("0"), 10), Some(0));
    assert_eq!(parse_number(&text("7"), 10), Some(7));
    assert_eq!(parse_number(&text("10"), 10), Some(10));
    assert_eq!(parse_number(&text("11"), 10), None);
    assert_eq!(parse_number(&text("+5"), 10), Some(5));
    assert_eq!(parse_number(&text("007"), 10), Some(7));
    assert_eq!(parse_number(&text("4294967295"), 4294967295), Some(4294967295));
    assert_eq!(parse_number(&text("4294967296"), 4294967295), None);
    assert_eq!(parse_number(&text("99999999999999999999999999999999999999999"), u128::MAX), None);
    assert_eq!(
        parse_number(&text("340282366920938463463374607431768211455"), u128::MAX),
        Some(u128::MAX)
    );
    assert_eq!(parse_number(&text("340282366920938463463374607431768211456"), u128::MAX), None);
    assert_eq!(parse_number(&text("5"), 3), None);
    assert_eq!(parse_number(&text("0"), 0), Some(0));
}

#[test]
fn texts_that_are_no_numerals() {
    for bad in ["", "+", "-1", "1 ", " 1", "1a", "a1", "++1", "1+", "0x10", "1.5", "١"] {
        assert_eq!(parse_number(&text(bad), u128::MAX), None, "{:?}", bad);
    }
}

#[test]
fn numerals_agree_with_the_standard_parser() {
    for source in ["0", "+0", "12", "+12", "0012", "4294967295", "4294967296", "", "+", "-0", "1_0"] {
        let expected = source.parse::<u32>().ok().map(|value| value as u128);
        assert_eq!(parse_number(&text(source), u32::MAX as u128), expected, "{:?}", source);
    }
}

#[test]
fn numbers_are_written_in_decimal() {
    for (value, expected) in [
        (0u128, "0"),
        (7, "7"),
        (10, "10"),
        (1234567890, "1234567890"),
        (u128::MAX, "340282366920938463463374607431768211455"),
    ] {
        let mut buffer = text("n=");
        push_number(&mut buffer, value);
        assert_eq!(buffer, text(&format!("n={}", expected)));
        assert_eq!(parse_number(&text(expected), u128::MAX), Some(value));
    }
}
