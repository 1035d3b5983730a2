//! Wrapping string literals.

use odoo_lint::wrap::{wrap_string_literal, LiteralFlags, LiteralPrefix, QuoteStyle, Wrapping};

fn flags(quote: QuoteStyle, triple_quoted: bool, prefix: LiteralPrefix) -> LiteralFlags {
    LiteralFlags { quote, triple_quoted, prefix }
}

fn double() -> LiteralFlags {
    flags(QuoteStyle::Double, false, LiteralPrefix::Empty)
}

/// One column for each character.
fn columns(indent: &str, literal: &str) -> usize {
    indent.chars().count() + literal.chars().count()
}

#[test]
fn short_content_stays_in_one_piece() {
    assert_eq!(
        wrap_string_literal(columns, double(), "hello world", "    ", 40),
        vec!["\"hello world\""]
    );
}

#[test]
fn empty_content_is_one_empty_literal() {
    assert_eq!(wrap_string_literal(columns, double(), "", "", 0), vec!["\"\""]);
}

#[test]
fn pieces_break_right_after_spaces() {
    assert_eq!(
        wrap_string_literal(columns, double(), "one two three four", "  ", 12),
        vec!["\"one two \"", "\"three \"", "\"four\""]
    );
}

#[test]
fn a_line_of_exactly_the_limit_fits() {
    // `"one two "` at two columns takes twelve.
    assert_eq!(
        wrap_string_literal(columns, double(), "one two x", "  ", 11),
        vec!["\"one \"", "\"two x\""]
    );
    assert_eq!(
        wrap_string_literal(columns, double(), "one two", "", 9),
        vec!["\"one two\""]
    );
    assert_eq!(
        wrap_string_literal(columns, double(), "one two", "", 8),
        vec!["\"one \"", "\"two\""]
    );
}

#[test]
fn an_overlong_word_stays_on_its_own_line() {
    assert_eq!(
        wrap_string_literal(columns, double(), "a incomprehensibilities b", "", 8),
        vec!["\"a \"", "\"incomprehensibilities \"", "\"b\""]
    );
}

#[test]
fn every_space_ends_a_word() {
    assert_eq!(
        wrap_string_literal(columns, double(), "  a ", "", 0),
        vec!["\" \"", "\" \"", "\"a \""]
    );
}

#[test]
fn literals_are_rendered_by_their_flags() {
    let single = flags(QuoteStyle::Single, false, LiteralPrefix::Empty);
    assert_eq!(wrap_string_literal(columns, single, "a\nb", "", 80), vec!["'a\\nb'"]);
    let unicode = flags(QuoteStyle::Double, false, LiteralPrefix::Unicode);
    assert_eq!(wrap_string_literal(columns, unicode, "ab", "", 80), vec!["u\"ab\""]);
    let raw = flags(QuoteStyle::Double, false, LiteralPrefix::RawLower);
    assert_eq!(wrap_string_literal(columns, raw, "a\\b", "", 80), vec!["r\"a\\b\""]);
    let upper = flags(QuoteStyle::Single, false, LiteralPrefix::RawUpper);
    assert_eq!(wrap_string_literal(columns, upper, "a\\b", "", 80), vec!["R'a\\b'"]);
    let triple = flags(QuoteStyle::Double, true, LiteralPrefix::Empty);
    assert_eq!(wrap_string_literal(columns, triple, "ab", "", 80), vec!["\"\"\"ab\"\"\""]);
}

#[test]
fn the_escaped_literal_is_what_is_measured() {
    // `"\n\n b"` has eight characters, its value five.
    assert_eq!(
        wrap_string_literal(columns, double(), "\n\n b", "", 7),
        vec!["\"\\n\\n \"", "\"b\""]
    );
    assert_eq!(wrap_string_literal(columns, double(), "\n\n b", "", 8), vec!["\"\\n\\n b\""]);
}

#[test]
fn values_rejoin_and_long_pieces_fit() {
    let content = "The quick brown fox jumps over the lazy dog, twice a day ";
    let pieces = wrap_string_literal(columns, double(), content, "    ", 20);
    let values: Vec<&str> =
        pieces.iter().map(|piece| piece.trim_matches('"')).collect();
    assert_eq!(values.concat(), content);
    for (i, value) in values.iter().enumerate() {
        assert!(i + 1 == values.len() || value.ends_with(' '));
        assert!(value.trim_end().split(' ').count() == 1 || columns("    ", &pieces[i]) <= 20);
    }
    // No piece had room for the first word of the next.
    for pair in values.windows(2) {
        let word = pair[1].split_inclusive(' ').next().unwrap();
        assert!(columns("    ", &format!("\"{}{}\"", pair[0], word)) > 20);
    }
    assert!(pieces.len() > 3);
}

#[test]
fn words_join_or_start_anew() {
    let mut wrapping = Wrapping::new();
    assert!(wrapping.finished.is_empty() && wrapping.current.is_empty());
    // The first word joins whatever the width.
    wrapping.add_word("one ", 100, 10);
    assert_eq!(wrapping.current, "one ");
    assert!(wrapping.finished.is_empty());
    wrapping.add_word("two ", 10, 10);
    assert_eq!(wrapping.current, "one two ");
    wrapping.add_word("three", 11, 10);
    assert_eq!(wrapping.current, "three");
    assert_eq!(wrapping.finished, vec!["one two "]);
}
