//! Removing elements from displays.

use odoo_lint::ast::{DictItem, Expr, ExprDict, ExprList};
use odoo_lint::removal::{
    checked_remove_dict_item, checked_remove_list_element, is_removable, locate, removal_edit,
    remove_dict_item, remove_list_element, remove_sequence_element, Position, RemovalError,
};
use odoo_lint::text::{Edit, TextRange};
use odoo_lint::tokens::{Token, TokenKind};

fn range(start: u32, end: u32) -> TextRange {
    TextRange { start, end }
}

/// The range of `part` in `source`.
fn at(source: &str, part: &str) -> TextRange {
    let start = source.find(part).unwrap();
    range(start as u32, (start + part.len()) as u32)
}

fn apply(source: &str, edit: &Edit) -> String {
    let mut text = String::new();
    text.push_str(&source[..edit.range.start as usize]);
    if let Some(content) = &edit.content {
        text.push_str(content);
    }
    text.push_str(&source[edit.range.end as usize..]);
    text
}

fn whole(source: &str) -> TextRange {
    range(0, source.len() as u32)
}

fn element(source: &str, part: &str) -> Expr {
    Expr::Other { range: at(source, part) }
}

fn list(source: &str, parts: &[&str]) -> ExprList {
    ExprList {
        range: range(0, source.len() as u32),
        elts: parts.iter().map(|part| element(source, part)).collect(),
    }
}

fn item(source: &str, key: &str, value: &str) -> DictItem {
    DictItem { key: Some(element(source, key)), value: element(source, value) }
}

fn remove(source: &str, parts: &[&str], target: &str) -> String {
    let edit =
        remove_list_element(&list(source, parts), &element(source, target), source).unwrap();
    apply(source, &edit)
}

#[test]
fn first_element_goes_with_the_comma_behind_it() {
    assert_eq!(remove("[aa, bb, cc]", &["aa", "bb", "cc"], "aa"), "[bb, cc]");
}

#[test]
fn middle_element_goes_with_the_comma_behind_it() {
    assert_eq!(remove("[aa, bb, cc]", &["aa", "bb", "cc"], "bb"), "[aa, cc]");
}

#[test]
fn line_breaks_up_to_the_next_element_go_too() {
    assert_eq!(remove("[\n    aa,\n    bb,\n]", &["aa", "bb"], "aa"), "[\n    bb,\n]");
}

#[test]
fn a_comment_behind_the_comma_stays() {
    assert_eq!(remove("[aa,  # why\n bb]", &["aa", "bb"], "aa"), "[# why\n bb]");
}

#[test]
fn last_element_goes_with_the_comma_before_it() {
    assert_eq!(remove("[aa, bb, cc]", &["aa", "bb", "cc"], "cc"), "[aa, bb]");
    assert_eq!(remove("[aa, bb, cc,]", &["aa", "bb", "cc"], "cc"), "[aa, bb,]");
}

#[test]
fn only_element_goes_with_a_trailing_comma() {
    assert_eq!(remove("[aa]", &["aa"], "aa"), "[]");
    assert_eq!(remove("[aa,]", &["aa"], "aa"), "[]");
    assert_eq!(remove("[aa\n ,\n]", &["aa"], "aa"), "[\n]");
}

#[test]
fn offsets_count_bytes() {
    assert_eq!(remove("[ää, öö]", &["ää", "öö"], "ää"), "[öö]");
    assert_eq!(remove("[ää, öö]", &["ää", "öö"], "öö"), "[ää]");
}

#[test]
fn dict_item_spans_key_and_value() {
    let source = "{'a': 1, 'b': 2}";
    let dict = ExprDict {
        range: range(0, source.len() as u32),
        items: vec![item(source, "'a'", "1"), item(source, "'b'", "2")],
    };
    let first = remove_dict_item(&dict, &dict.items[0], source).unwrap();
    assert_eq!(first.range, range(1, 9));
    assert!(first.content.is_none());
    assert_eq!(apply(source, &first), "{'b': 2}");
    let second = remove_dict_item(&dict, &dict.items[1], source).unwrap();
    assert_eq!(apply(source, &second), "{'a': 1}");
}

#[test]
fn unpacked_entry_spans_its_value() {
    let source = "{'a': 1, **rest}";
    let unpacked = DictItem { key: None, value: element(source, "rest") };
    assert_eq!(unpacked.range(), at(source, "rest"));
    let dict = ExprDict {
        range: range(0, source.len() as u32),
        items: vec![item(source, "'a'", "1"), unpacked],
    };
    let edit = remove_dict_item(&dict, &dict.items[1], source).unwrap();
    assert_eq!(apply(source, &edit), "{'a': 1}");
}

#[test]
fn missing_comma_is_an_error() {
    let source = "[aa bb]";
    let ranges = [at(source, "aa"), at(source, "bb")];
    let error = remove_sequence_element(whole(source), &ranges, ranges[0], source).unwrap_err();
    assert_eq!(error, RemovalError::MissingComma);
    assert_eq!(error.message(), "Unable to find trailing comma");
    let error = remove_sequence_element(whole(source), &ranges, ranges[1], source).unwrap_err();
    assert_eq!(error, RemovalError::MissingComma);
}

#[test]
fn missing_next_token_is_an_error() {
    let source = "aa,  \n";
    let ranges = [range(0, 2), range(4, 5)];
    let error = remove_sequence_element(whole(source), &ranges, ranges[0], source).unwrap_err();
    assert_eq!(error, RemovalError::MissingNextToken);
    assert_eq!(error.message(), "Unable to find next token");
}

#[test]
fn positions() {
    let ranges = [range(1, 3), range(5, 9), range(4, 6)];
    assert_eq!(locate(&ranges, range(1, 3)), Position::NotLast { latest_end: None });
    assert_eq!(locate(&ranges, range(4, 6)), Position::NotLast { latest_end: Some(3) });
    assert_eq!(locate(&ranges, range(5, 9)), Position::Last { previous_end: 6 });
    assert_eq!(locate(&ranges[..1], range(1, 3)), Position::Only);
    assert_eq!(locate(&[], range(1, 3)), Position::Only);
    assert_eq!(locate(&[range(1, 9), range(2, 3)], range(5, 6)), Position::Last { previous_end: 9 });
}

#[test]
fn edit_from_given_tokens() {
    let token = |kind: TokenKind, start: u32, end: u32| Token { kind, range: range(start, end) };
    // `[(aa ),` and a line break before `bb`.
    let display = range(0, 20);
    let before = [
        token(TokenKind::Other, 0, 1),
        token(TokenKind::OpenParen, 1, 2),
        token(TokenKind::Other, 2, 4),
    ];
    let behind = [
        token(TokenKind::Whitespace, 4, 5),
        token(TokenKind::CloseParen, 5, 6),
        token(TokenKind::Comma, 6, 7),
        token(TokenKind::Newline, 7, 8),
        token(TokenKind::Other, 8, 10),
    ];
    let target = range(2, 4);
    let not_last = Position::NotLast { latest_end: None };
    let edit = removal_edit(not_last, display, target, &before, &behind).unwrap();
    assert_eq!(edit.range, range(1, 8));
    let last = Position::Last { previous_end: 4 };
    let edit = removal_edit(last, display, range(8, 10), &behind, &[]).unwrap();
    assert_eq!(edit.range, range(6, 10));
    let edit = removal_edit(Position::Only, display, target, &before, &behind).unwrap();
    assert_eq!(edit.range, range(1, 7));
    let closed = [behind[0], behind[1], token(TokenKind::Other, 6, 7)];
    let edit = removal_edit(Position::Only, range(0, 7), target, &before, &closed).unwrap();
    assert_eq!(edit.range, range(1, 6));
    // Not all of an element: parentheses around a part of one stay.
    let edit = removal_edit(Position::Only, display, target, &before, &closed).unwrap();
    assert_eq!(edit.range, range(2, 4));
    // The parenthesis that closes the display itself stays.
    let edit = removal_edit(Position::Only, range(1, 6), target, &before[1..], &behind).unwrap();
    assert_eq!(edit.range, range(2, 4));
    // Nothing is known of what stands before.
    let edit = removal_edit(Position::Only, display, target, &[], &behind[4..]).unwrap();
    assert_eq!(edit.range, range(2, 4));
    assert_eq!(
        removal_edit(not_last, display, target, &before, &behind[..4]).unwrap_err(),
        RemovalError::MissingNextToken
    );
}

#[test]
fn parentheses_go_with_the_element() {
    let three = ["aa", "bb", "cc"];
    assert_eq!(remove("[(aa), bb, cc]", &three, "aa"), "[bb, cc]");
    assert_eq!(remove("[aa, (bb), (cc)]", &three, "bb"), "[aa, (cc)]");
    assert_eq!(remove("[aa, ((bb)  ), cc]", &three, "bb"), "[aa, cc]");
    assert_eq!(remove("[(aa), (bb), (cc)]", &three, "cc"), "[(aa), (bb)]");
    assert_eq!(remove("[(aa), (bb), (cc),]", &three, "cc"), "[(aa), (bb),]");
    assert_eq!(remove("[ (aa) ]", &["aa"], "aa"), "[  ]");
    // The parentheses around the display stay.
    let source = "f([(aa)])";
    let argument = ExprList { range: range(2, 8), elts: vec![element(source, "aa")] };
    let edit = remove_list_element(&argument, &argument.elts[0], source).unwrap();
    assert_eq!(apply(source, &edit), "f([])");
    // With comments and line breaks inside the parentheses.
    assert_eq!(remove("[aa, (  # why\n  bb  # so\n), cc]", &three, "bb"), "[aa, cc]");
    assert_eq!(remove("[(\n  aa \\\n)]", &["aa"], "aa"), "[]");
}

#[test]
fn parentheses_go_with_the_dict_item() {
    let check = |source: &str, pairs: &[(&str, &str)], target: usize, left: &str| {
        let dict = ExprDict {
            range: whole(source),
            items: pairs.iter().map(|(key, value)| item(source, key, value)).collect(),
        };
        let edit = remove_dict_item(&dict, &dict.items[target], source).unwrap();
        assert_eq!(apply(source, &edit), left);
    };
    check("{a: 1, b: (2)}", &[("a", "1"), ("b", "2")], 1, "{a: 1}");
    check("{a: (1), b: 2}", &[("a", "1"), ("b", "2")], 0, "{b: 2}");
    check("{(a): 1, b: 2}", &[("a", "1"), ("b", "2")], 0, "{b: 2}");
    check("{a: 1, (b): (2)}", &[("a", "1"), ("b", "2")], 1, "{a: 1}");
    check("{((a)): ((1)),}", &[("a", "1")], 0, "{}");
}

#[test]
fn only_what_the_ranges_tell_of_goes() {
    let source = "[aa, xx, bb, cc]";
    let ranges = [at(source, "aa"), at(source, "bb"), at(source, "cc")];
    let edit = remove_sequence_element(whole(source), &ranges, ranges[1], source).unwrap();
    assert_eq!(edit.range, range(9, 13));
    let source = "[aa, bb]";
    let edit = remove_sequence_element(whole(source), &[], at(source, "bb"), source).unwrap();
    assert_eq!(edit.range, range(5, 7));
    let source = "['aa', bb]";
    let edit = remove_sequence_element(whole(source), &[], at(source, "bb"), source).unwrap();
    assert_eq!(edit.range, range(7, 9));
    // The parentheses of a call and the sign of a power are no part of the element.
    for source in ["[ff(bb)]", "[ff(bb), cc]", "[aa ** bb]", "[(bb) + 1]"] {
        let edit = remove_sequence_element(whole(source), &[], at(source, "bb"), source).unwrap();
        assert_eq!(edit.range, at(source, "bb"));
    }
}

#[test]
fn stars_go_with_the_unpacked_entry() {
    let source = "{**(rest), 'a': 1}";
    let dict = ExprDict {
        range: whole(source),
        items: vec![
            DictItem { key: None, value: element(source, "rest") },
            item(source, "'a'", "1"),
        ],
    };
    let edit = remove_dict_item(&dict, &dict.items[0], source).unwrap();
    assert_eq!(apply(source, &edit), "{'a': 1}");
}

#[test]
fn a_comment_before_the_trailing_comma_of_an_only_element_goes() {
    assert_eq!(remove("[aa # why\n ,]", &["aa"], "aa"), "[]");
    assert_eq!(remove("[aa # why\n ]", &["aa"], "aa"), "[ # why\n ]");
}

#[test]
fn the_order_of_the_ranges_has_no_part() {
    let source = "[aa, bb, cc]";
    let mut ranges = [at(source, "aa"), at(source, "bb"), at(source, "cc")];
    let edit = remove_sequence_element(whole(source), &ranges, range(5, 7), source).unwrap();
    ranges.reverse();
    let again = remove_sequence_element(whole(source), &ranges, range(5, 7), source).unwrap();
    assert_eq!(edit.range, again.range);
    // Nor has whether the element is among them.
    let others = [at(source, "cc"), at(source, "aa")];
    let again = remove_sequence_element(whole(source), &others, range(5, 7), source).unwrap();
    assert_eq!(edit.range, again.range);
}

#[test]
fn ranges_that_do_not_fit_the_source_are_refused() {
    let source = "[aa, bb]";
    assert!(is_removable(whole(source), &[at(source, "aa"), at(source, "bb")], at(source, "bb"), source));
    // Past the end, inside a character, and turned round.
    assert!(!is_removable(whole(source), &[], range(1, 40), source));
    assert!(!is_removable(whole(source), &[], range(0, 2), "[ä]"));
    assert!(!is_removable(whole(source), &[], range(3, 1), source));
    // The only comma stands well behind the element.
    assert!(!is_removable(whole(source), &[range(0, 2), range(3, 5)], range(3, 5), "aa bb ,"));
    let elements = list(source, &["aa", "bb"]);
    assert!(checked_remove_list_element(&elements, &Expr::Other { range: range(0, 99) }, source)
        .is_none());
    let edit = checked_remove_list_element(&elements, &elements.elts[0], source).unwrap().unwrap();
    assert_eq!(apply(source, &edit), "[bb]");
    let crooked = DictItem {
        key: Some(Expr::Other { range: range(5, 6) }),
        value: Expr::Other { range: range(1, 2) },
    };
    let dict = ExprDict { range: range(0, 8), items: vec![crooked] };
    assert!(checked_remove_dict_item(&dict, &dict.items[0], source).is_none());
    let source = "{'a': 1, 'b': 2}";
    let dict = ExprDict {
        range: range(0, 16),
        items: vec![item(source, "'a'", "1"), item(source, "'b'", "2")],
    };
    let edit = checked_remove_dict_item(&dict, &dict.items[0], source).unwrap().unwrap();
    assert_eq!(apply(source, &edit), "{'b': 2}");
}

#[test]
fn removal_takes_the_element_and_leaves_the_others() {
    let source = "[aa, bb,\n  cc, dd]";
    let parts = ["aa", "bb", "cc", "dd"];
    let ranges: Vec<TextRange> = parts.iter().map(|part| at(source, part)).collect();
    for target in &ranges {
        let edit = remove_sequence_element(whole(source), &ranges, *target, source).unwrap();
        assert!(edit.range.start <= target.start && target.end <= edit.range.end);
        assert!(source[edit.range.start as usize..edit.range.end as usize].contains(','));
        for other in &ranges {
            if other != target {
                assert!(other.end <= edit.range.start || edit.range.end <= other.start);
            }
        }
    }
}
