//! Removing one element from a comma-separated display.

use vstd::prelude::*;

use crate::ast::{DictItem, Expr, ExprDict, ExprList};
use crate::text::{Edit, TextRange};
use crate::tokens::{can_tokenize, read_tokens, Token, TokenKind};
#[allow(unused_imports)]
use crate::tokens::{simple_tokens, tokenizable, tokens_from, tokens_in_order};

verus! {

/// Why an element could not be removed.
#[derive(Clone, Copy, Debug, PartialEq, Eq, Structural)]
pub enum RemovalError {
    MissingComma,
    MissingNextToken,
}

impl RemovalError {
    /// What went wrong, in words.
    pub fn message(&self) -> (text: &'static str)
        ensures
            text@ == match self {
                RemovalError::MissingComma => "Unable to find trailing comma"@,
                RemovalError::MissingNextToken => "Unable to find next token"@,
            },
    {
        match self {
            RemovalError::MissingComma => "Unable to find trailing comma",
            RemovalError::MissingNextToken => "Unable to find next token",
        }
    }
}

/// Where an element stands among the others of its sequence.
#[derive(Clone, Copy, Debug, PartialEq, Eq)]
pub enum Position {
    /// Some other element comes after it; of those before it, if there are any, the one that ends
    /// last ends at `latest_end`.
    NotLast { latest_end: Option<u32> },
    /// All other elements come before it; the one that ends last ends at `previous_end`.
    Last { previous_end: u32 },
    /// There is no other element.
    Only,
}

/// `range` is an element other than `target` that starts before it.
pub open spec fn comes_before(range: TextRange, target: TextRange) -> bool {
    range != target && range.start < target.start
}

/// `range` is an element other than `target` that does not start before it.
pub open spec fn comes_after(range: TextRange, target: TextRange) -> bool {
    range != target && range.start >= target.start
}

/// The greatest end among the elements before `target`, if there are any.
pub open spec fn latest_end_before(ranges: Seq<TextRange>, target: TextRange) -> Option<u32>
    decreases ranges.len(),
{
    if ranges.len() == 0 {
        None
    } else {
        let rest = latest_end_before(ranges.drop_last(), target);
        if !comes_before(ranges.last(), target) {
            rest
        } else {
            match rest {
                Some(end) if end >= ranges.last().end => rest,
                _ => Some(ranges.last().end),
            }
        }
    }
}

/// Where `target` stands among `ranges`.
pub open spec fn position(ranges: Seq<TextRange>, target: TextRange) -> Position {
    if exists|i: int| 0 <= i < ranges.len() && comes_after(#[trigger] ranges[i], target) {
        Position::NotLast { latest_end: latest_end_before(ranges, target) }
    } else {
        match latest_end_before(ranges, target) {
            Some(previous_end) => Position::Last { previous_end },
            None => Position::Only,
        }
    }
}

/// The end of the element before, if there is one.
pub open spec fn end_before(place: Position) -> Option<u32> {
    match place {
        Position::NotLast { latest_end } => latest_end,
        Position::Last { previous_end } => Some(previous_end),
        Position::Only => None,
    }
}

/// The offset from which the tokens before the element are read: the end of the element before, or
/// the start of the display where there is none.
pub open spec fn lead_start(place: Position, display: TextRange) -> u32 {
    match end_before(place) {
        Some(previous_end) => previous_end,
        None => display.start,
    }
}

/// The offset from which the comma that goes with the element is looked for.
pub open spec fn scan_start(place: Position, target: TextRange) -> u32 {
    match place {
        Position::Last { previous_end } => previous_end,
        _ => target.end,
    }
}

/// The index of the first comma among the tokens from index `from` on.
pub open spec fn first_comma(tokens: Seq<Token>, from: int) -> Option<int>
    decreases tokens.len() - from,
{
    if from < 0 || from >= tokens.len() {
        None
    } else if tokens[from].kind == TokenKind::Comma {
        Some(from)
    } else {
        first_comma(tokens, from + 1)
    }
}

/// The token is neither whitespace nor a line break.
pub open spec fn is_solid(token: Token) -> bool {
    token.kind != TokenKind::Whitespace && token.kind != TokenKind::Newline
}

/// The index of the first token from index `from` on that is neither whitespace nor a line break.
pub open spec fn first_solid(tokens: Seq<Token>, from: int) -> Option<int>
    decreases tokens.len() - from,
{
    if from < 0 || from >= tokens.len() {
        None
    } else if is_solid(tokens[from]) {
        Some(from)
    } else {
        first_solid(tokens, from + 1)
    }
}

/// The token is whitespace, a line break, a comment or the continuation of a line.
pub open spec fn is_trivia(token: Token) -> bool {
    token.kind == TokenKind::Whitespace || token.kind == TokenKind::Newline || token.kind
        == TokenKind::Comment || token.kind == TokenKind::Continuation
}

/// The index of the first token from index `from` on that is no trivia.
pub open spec fn first_nontrivia(tokens: Seq<Token>, from: int) -> Option<int>
    decreases tokens.len() - from,
{
    if from < 0 || from >= tokens.len() {
        None
    } else if !is_trivia(tokens[from]) {
        Some(from)
    } else {
        first_nontrivia(tokens, from + 1)
    }
}

/// The token is an opening parenthesis, or the `**` of an unpacked entry, inside the display.
pub open spec fn opens(token: Token, display: TextRange) -> bool {
    (token.kind == TokenKind::OpenParen || token.kind == TokenKind::DoubleStar) && display.start
        < token.range.start
}

/// The token lies before `target` and is trivia or opens inside the display.
pub open spec fn leads_in(token: Token, display: TextRange, target: TextRange) -> bool {
    token.range.end <= target.start && (is_trivia(token) || opens(token, display))
}

/// The index of the last of the first `n` tokens that starts before `target` and does not lead in
/// to it.
pub open spec fn before_opening(
    tokens: Seq<Token>,
    n: int,
    display: TextRange,
    target: TextRange,
) -> Option<int>
    decreases n,
{
    if n <= 0 {
        None
    } else if tokens[n - 1].range.start >= target.start || leads_in(
        tokens[n - 1],
        display,
        target,
    ) {
        before_opening(tokens, n - 1, display, target)
    } else {
        Some(n - 1)
    }
}

/// Where the first token that opens starts behind the one that [`before_opening`] finds, or `start`
/// where there is none.
pub open spec fn opening_start(
    tokens: Seq<Token>,
    n: int,
    display: TextRange,
    target: TextRange,
    start: u32,
) -> u32
    decreases n,
{
    if n <= 0 {
        start
    } else if tokens[n - 1].range.start >= target.start {
        opening_start(tokens, n - 1, display, target, start)
    } else if !leads_in(tokens[n - 1], display, target) {
        start
    } else if is_trivia(tokens[n - 1]) {
        opening_start(tokens, n - 1, display, target, start)
    } else {
        opening_start(tokens, n - 1, display, target, tokens[n - 1].range.start)
    }
}

/// The token is a closing parenthesis inside the display.
pub open spec fn closes(token: Token, display: TextRange) -> bool {
    token.kind == TokenKind::CloseParen && token.range.end < display.end
}

/// The index of the first token from index `from` on that is neither trivia nor a closing
/// parenthesis inside the display.
pub open spec fn past_closing(tokens: Seq<Token>, from: int, display: TextRange) -> Option<int>
    decreases tokens.len() - from,
{
    if from < 0 || from >= tokens.len() {
        None
    } else if is_trivia(tokens[from]) || closes(tokens[from], display) {
        past_closing(tokens, from + 1, display)
    } else {
        Some(from)
    }
}

/// Where the last closing parenthesis ends before the token that [`past_closing`] finds, or `end`
/// where there is none.
pub open spec fn closing_end(
    tokens: Seq<Token>,
    from: int,
    display: TextRange,
    end: u32,
) -> u32
    decreases tokens.len() - from,
{
    if from < 0 || from >= tokens.len() {
        end
    } else if is_trivia(tokens[from]) {
        closing_end(tokens, from + 1, display, end)
    } else if closes(tokens[from], display) {
        closing_end(tokens, from + 1, display, tokens[from].range.end)
    } else {
        end
    }
}

/// `target` is an element of the display, as far as the tokens show: but for trivia, parentheses
/// and a `**`, it stands right behind a comma or the opening bracket of the display, and right
/// before a comma or the closing bracket.
pub open spec fn is_set_off(
    display: TextRange,
    target: TextRange,
    before: Seq<Token>,
    behind: Seq<Token>,
) -> bool {
    &&& before_opening(before, before.len() as int, display, target) matches Some(i)
    &&& before[i].range.end <= target.start
    &&& before[i].kind == TokenKind::Comma || before[i].range.start == display.start
    &&& past_closing(behind, 0, display) matches Some(j)
    &&& behind[j].kind == TokenKind::Comma || behind[j].range.end == display.end
}

/// Where the element starts, with the parentheses around it and the `**` of an unpacked entry.
pub open spec fn element_start(
    display: TextRange,
    target: TextRange,
    before: Seq<Token>,
    behind: Seq<Token>,
) -> u32 {
    if is_set_off(display, target, before, behind) {
        opening_start(before, before.len() as int, display, target, target.start)
    } else {
        target.start
    }
}

/// Where the element ends, with the parentheses around it.
pub open spec fn element_end(
    display: TextRange,
    target: TextRange,
    before: Seq<Token>,
    behind: Seq<Token>,
) -> u32 {
    if is_set_off(display, target, before, behind) {
        closing_end(behind, 0, display, target.end)
    } else {
        target.end
    }
}

/// The index of the first token behind the element and its parentheses that is no trivia.
pub open spec fn next_behind(
    display: TextRange,
    target: TextRange,
    before: Seq<Token>,
    behind: Seq<Token>,
) -> Option<int> {
    if is_set_off(display, target, before, behind) {
        past_closing(behind, 0, display)
    } else {
        first_nontrivia(behind, 0)
    }
}

/// The bytes to delete so that `target` goes with the parentheses around it and one comma beside
/// it, as a start and an end:
///
/// - where more elements follow, from the element up to the first token after its comma that is
///   neither whitespace nor a line break;
/// - for the last of several, from the comma before it up to its end;
/// - for the only one, the element, with the comma behind it if there is one.
///
/// `before` are the tokens from [`lead_start`] on, `behind` those from the end of `target` on.
pub open spec fn span_to_delete(
    place: Position,
    display: TextRange,
    target: TextRange,
    before: Seq<Token>,
    behind: Seq<Token>,
) -> Result<(int, int), RemovalError> {
    let start = element_start(display, target, before, behind) as int;
    let end = element_end(display, target, before, behind) as int;
    match place {
        Position::NotLast { .. } => match first_comma(behind, 0) {
            None => Err(RemovalError::MissingComma),
            Some(comma) => match first_solid(behind, comma + 1) {
                None => Err(RemovalError::MissingNextToken),
                Some(next) => Ok((start, behind[next].range.start as int)),
            },
        },
        Position::Last { .. } => match first_comma(before, 0) {
            None => Err(RemovalError::MissingComma),
            Some(comma) => Ok((before[comma].range.start as int, end)),
        },
        Position::Only => match next_behind(display, target, before, behind) {
            Some(next) if behind[next].kind == TokenKind::Comma => Ok(
                (start, behind[next].range.end as int),
            ),
            _ => Ok((start, end)),
        },
    }
}

/// The span to delete, where there is one, does not end before it starts.
pub open spec fn span_in_order(
    place: Position,
    display: TextRange,
    target: TextRange,
    before: Seq<Token>,
    behind: Seq<Token>,
) -> bool {
    span_to_delete(place, display, target, before, behind) matches Ok((start, end)) ==> start
        <= end
}

/// `outcome` is the deletion of `span`, or the error in its place.
pub open spec fn deletes_span(
    outcome: Result<Edit, RemovalError>,
    span: Result<(int, int), RemovalError>,
) -> bool {
    match (outcome, span) {
        (Ok(edit), Ok((start, end))) => edit.deletes(start, end),
        (Err(error), Err(expected)) => error == expected,
        _ => false,
    }
}

/// The tokens of `source` before `target`.
pub open spec fn tokens_before(
    display: TextRange,
    ranges: Seq<TextRange>,
    target: TextRange,
    source: Seq<char>,
) -> Seq<Token> {
    tokens_from(source, lead_start(position(ranges, target), display) as int)
}

/// The tokens of `source` behind `target`.
pub open spec fn tokens_behind(target: TextRange, source: Seq<char>) -> Seq<Token> {
    tokens_from(source, target.end as int)
}

/// `outcome` is the removal of `target` from `source`: the deletion of the span that the tokens of
/// `source` give, or the error in its place. The tokens come in the order of the text.
pub open spec fn removes(
    outcome: Result<Edit, RemovalError>,
    display: TextRange,
    ranges: Seq<TextRange>,
    target: TextRange,
    source: Seq<char>,
) -> bool {
    let place = position(ranges, target);
    let before = tokens_before(display, ranges, target, source);
    let behind = tokens_behind(target, source);
    let len = vstd::utf8::encode_utf8(source).len() as int;
    &&& deletes_span(outcome, span_to_delete(place, display, target, before, behind))
    &&& tokens_in_order(before, lead_start(place, display) as int, len)
    &&& tokens_in_order(behind, target.end as int, len)
}

/// `target` can be removed from `source`: it does not end before it starts, the place from which
/// its comma is looked for is one where a tokenizer can start, and the span to delete does not end
/// before it starts.
pub open spec fn removable(
    display: TextRange,
    ranges: Seq<TextRange>,
    target: TextRange,
    source: Seq<char>,
) -> bool {
    let place = position(ranges, target);
    &&& target.wf()
    &&& tokenizable(source, scan_start(place, target) as int)
    &&& span_in_order(
        place,
        display,
        target,
        tokens_before(display, ranges, target, source),
        tokens_behind(target, source),
    )
}

/// What [`first_comma`] finds is a comma, and there is none before it.
proof fn lemma_first_comma(tokens: Seq<Token>, from: int)
    requires
        0 <= from,
    ensures
        match first_comma(tokens, from) {
            Some(i) => from <= i < tokens.len() && tokens[i].kind == TokenKind::Comma && forall|
                j: int,
            |
                from <= j < i ==> (#[trigger] tokens[j]).kind != TokenKind::Comma,
            None => forall|j: int|
                from <= j < tokens.len() ==> (#[trigger] tokens[j]).kind != TokenKind::Comma,
        },
    decreases tokens.len() - from,
{
    if from < tokens.len() && tokens[from].kind != TokenKind::Comma {
        lemma_first_comma(tokens, from + 1);
    }
}

/// What [`first_solid`] finds is solid, and there is nothing solid before it.
proof fn lemma_first_solid(tokens: Seq<Token>, from: int)
    requires
        0 <= from,
    ensures
        match first_solid(tokens, from) {
            Some(i) => from <= i < tokens.len() && is_solid(tokens[i]) && forall|j: int|
                from <= j < i ==> !is_solid(#[trigger] tokens[j]),
            None => forall|j: int| from <= j < tokens.len() ==> !is_solid(#[trigger] tokens[j]),
        },
    decreases tokens.len() - from,
{
    if from < tokens.len() && !is_solid(tokens[from]) {
        lemma_first_solid(tokens, from + 1);
    }
}

/// What [`first_nontrivia`] finds is no trivia, and there is nothing but trivia before it.
proof fn lemma_first_nontrivia(tokens: Seq<Token>, from: int)
    requires
        0 <= from,
    ensures
        match first_nontrivia(tokens, from) {
            Some(i) => from <= i < tokens.len() && !is_trivia(tokens[i]) && forall|j: int|
                from <= j < i ==> is_trivia(#[trigger] tokens[j]),
            None => forall|j: int| from <= j < tokens.len() ==> is_trivia(#[trigger] tokens[j]),
        },
    decreases tokens.len() - from,
{
    if from < tokens.len() && is_trivia(tokens[from]) {
        lemma_first_nontrivia(tokens, from + 1);
    }
}

/// What [`past_closing`] finds is neither trivia nor a closing parenthesis inside the display, and
/// there is nothing else before it.
proof fn lemma_past_closing(tokens: Seq<Token>, from: int, display: TextRange)
    requires
        0 <= from,
    ensures
        match past_closing(tokens, from, display) {
            Some(i) => from <= i < tokens.len() && !is_trivia(tokens[i]) && !closes(
                tokens[i],
                display,
            ) && forall|j: int|
                from <= j < i ==> is_trivia(#[trigger] tokens[j]) || closes(tokens[j], display),
            None => forall|j: int|
                from <= j < tokens.len() ==> is_trivia(#[trigger] tokens[j]) || closes(
                    tokens[j],
                    display,
                ),
        },
    decreases tokens.len() - from,
{
    if from < tokens.len() && (is_trivia(tokens[from]) || closes(tokens[from], display)) {
        lemma_past_closing(tokens, from + 1, display);
    }
}

/// The closing parentheses that [`closing_end`] walks over end at or before it, and what
/// [`past_closing`] finds starts at or behind it.
proof fn lemma_closing_end(
    tokens: Seq<Token>,
    from: int,
    display: TextRange,
    end: u32,
    start: int,
    to: int,
)
    requires
        0 <= from,
        tokens_in_order(tokens, start, to),
        forall|j: int| from <= j < tokens.len() ==> end <= (#[trigger] tokens[j]).range.start,
    ensures
        end <= closing_end(tokens, from, display, end),
        match past_closing(tokens, from, display) {
            Some(past) => {
                &&& forall|j: int|
                    from <= j < past && closes(#[trigger] tokens[j], display)
                        ==> tokens[j].range.end <= closing_end(tokens, from, display, end)
                &&& forall|j: int|
                    past <= j < tokens.len() ==> closing_end(tokens, from, display, end) <= (
                    #[trigger] tokens[j]).range.start
            },
            None => forall|j: int|
                from <= j < tokens.len() && closes(#[trigger] tokens[j], display)
                    ==> tokens[j].range.end <= closing_end(tokens, from, display, end),
        },
    decreases tokens.len() - from,
{
    if from < tokens.len() {
        if is_trivia(tokens[from]) {
            lemma_closing_end(tokens, from + 1, display, end, start, to);
            lemma_past_closing(tokens, from + 1, display);
        } else if closes(tokens[from], display) {
            lemma_closing_end(tokens, from + 1, display, tokens[from].range.end, start, to);
            lemma_past_closing(tokens, from + 1, display);
        }
    }
}

/// The index that was found, or the one before the first.
spec fn index_or_none(found: Option<int>) -> int {
    match found {
        Some(i) => i,
        None => -1,
    }
}

/// The tokens behind the one that [`before_opening`] finds lead in to `target`, the ones that open
/// start at or behind [`opening_start`], and the ones up to it end at or before that.
proof fn lemma_opening(
    tokens: Seq<Token>,
    n: int,
    display: TextRange,
    target: TextRange,
    start: u32,
    from: int,
    to: int,
)
    requires
        0 <= n <= tokens.len(),
        start <= target.start,
        tokens_in_order(tokens, from, to),
        forall|j: int|
            0 <= j < n && (#[trigger] tokens[j]).range.end <= target.start ==> tokens[j].range.end
                <= start,
    ensures
        ({
            let first = opening_start(tokens, n, display, target, start);
            let last = index_or_none(before_opening(tokens, n, display, target));
            &&& first <= start
            &&& first == start || from <= first
            &&& first == start || exists|k: int|
                last < k < n && (#[trigger] tokens[k]).range.start == first && opens(
                    tokens[k],
                    display,
                ) && tokens[k].range.end <= target.start
            &&& -1 <= last < n
            &&& before_opening(tokens, n, display, target) is Some ==> 0 <= last
            &&& last >= 0 ==> tokens[last].range.start < target.start && !leads_in(
                tokens[last],
                display,
                target,
            )
            &&& forall|j: int|
                last < j < n && (#[trigger] tokens[j]).range.start < target.start ==> leads_in(
                    tokens[j],
                    display,
                    target,
                )
            &&& forall|j: int|
                last < j < n && (#[trigger] tokens[j]).range.start < target.start && !is_trivia(
                    tokens[j],
                ) ==> first <= tokens[j].range.start
            &&& forall|j: int|
                0 <= j <= last && (#[trigger] tokens[j]).range.end <= target.start
                    ==> tokens[j].range.end <= first
        }),
    decreases n,
{
    if n > 0 {
        let token = tokens[n - 1];
        if token.range.start >= target.start {
            lemma_opening(tokens, n - 1, display, target, start, from, to);
        } else if leads_in(token, display, target) {
            if is_trivia(token) {
                lemma_opening(tokens, n - 1, display, target, start, from, to);
            } else {
                lemma_opening(tokens, n - 1, display, target, token.range.start, from, to);
                assert(tokens[n - 1].range.start == token.range.start);
            }
        }
    }
}

/// The element with its parentheses holds `target`, starts where the tokens before it start or
/// further on, and ends before what stands behind it.
proof fn lemma_element(
    place: Position,
    display: TextRange,
    target: TextRange,
    before: Seq<Token>,
    behind: Seq<Token>,
    to: int,
)
    requires
        tokens_in_order(before, lead_start(place, display) as int, to),
        tokens_in_order(behind, target.end as int, to),
    ensures
        element_start(display, target, before, behind) <= target.start,
        element_start(display, target, before, behind) == target.start || lead_start(place, display)
            <= element_start(display, target, before, behind),
        target.end <= element_end(display, target, before, behind),
        next_behind(display, target, before, behind) matches Some(next) ==> 0 <= next
            < behind.len() && element_end(display, target, before, behind)
            <= behind[next].range.start,
{
    lemma_opening(
        before,
        before.len() as int,
        display,
        target,
        target.start,
        lead_start(place, display) as int,
        to,
    );
    lemma_first_nontrivia(behind, 0);
    lemma_past_closing(behind, 0, display);
    lemma_closing_end(behind, 0, display, target.end, target.end as int, to);
}

/// No element before `target` ends after [`latest_end_before`], which is the end of one of them.
proof fn lemma_latest_end(ranges: Seq<TextRange>, target: TextRange)
    ensures
        match latest_end_before(ranges, target) {
            Some(end) => {
                &&& exists|i: int|
                    0 <= i < ranges.len() && comes_before(#[trigger] ranges[i], target)
                        && ranges[i].end == end
                &&& forall|i: int|
                    0 <= i < ranges.len() && comes_before(#[trigger] ranges[i], target)
                        ==> ranges[i].end <= end
            },
            None => forall|i: int|
                0 <= i < ranges.len() ==> !comes_before(#[trigger] ranges[i], target),
        },
    decreases ranges.len(),
{
    if ranges.len() > 0 {
        let rest = ranges.drop_last();
        lemma_latest_end(rest, target);
        assert forall|i: int| 0 <= i < ranges.len() implies #[trigger] ranges[i] == if i
            < rest.len() {
            rest[i]
        } else {
            ranges.last()
        } by {}
        if let Some(end) = latest_end_before(rest, target) {
            let i = choose|i: int|
                0 <= i < rest.len() && comes_before(#[trigger] rest[i], target) && rest[i].end
                    == end;
            assert(comes_before(ranges[i], target) && ranges[i].end == end);
        }
        assert(ranges[ranges.len() - 1] == ranges.last());
    }
}

/// Where `target` stands among `ranges`.
pub fn locate(ranges: &[TextRange], target: TextRange) -> (place: Position)
    ensures
        place == position(ranges@, target),
{
    let mut followed: bool = false;
    let mut latest: Option<u32> = None;
    let mut i: usize = 0;
    while i < ranges.len()
        invariant
            0 <= i <= ranges@.len(),
            followed == exists|j: int|
                0 <= j < i && comes_after(#[trigger] ranges@[j], target),
            latest == latest_end_before(ranges@.take(i as int), target),
        decreases ranges@.len() - i,
    {
        let range = ranges[i];
        assert(ranges@.take(i + 1).drop_last() == ranges@.take(i as int));
        assert(ranges@.take(i + 1).last() == range);
        if range != target {
            if range.start < target.start {
                latest = match latest {
                    Some(end) if end >= range.end => Some(end),
                    _ => Some(range.end),
                };
            } else {
                followed = true;
                assert(comes_after(ranges@[i as int], target));
            }
        }
        i += 1;
    }
    assert(ranges@.take(i as int) == ranges@);
    if followed {
        Position::NotLast { latest_end: latest }
    } else {
        match latest {
            Some(previous_end) => Position::Last { previous_end },
            None => Position::Only,
        }
    }
}

/// The index of the first comma among the tokens.
fn find_comma(tokens: &[Token]) -> (found: Option<usize>)
    ensures
        found is Some <==> first_comma(tokens@, 0) is Some,
        found matches Some(i) ==> i < tokens@.len() && first_comma(tokens@, 0) == Some(i as int),
{
    let mut i: usize = 0;
    while i < tokens.len()
        invariant
            0 <= i <= tokens@.len(),
            first_comma(tokens@, 0) == first_comma(tokens@, i as int),
        decreases tokens@.len() - i,
    {
        if tokens[i].kind == TokenKind::Comma {
            return Some(i);
        }
        i += 1;
    }
    None
}

/// The index of the first token from index `from` on that is neither whitespace nor a line break.
fn find_solid(tokens: &[Token], from: usize) -> (found: Option<usize>)
    requires
        from <= tokens@.len(),
    ensures
        found is Some <==> first_solid(tokens@, from as int) is Some,
        found matches Some(i) ==> i < tokens@.len() && first_solid(tokens@, from as int) == Some(
            i as int,
        ),
{
    let mut i: usize = from;
    while i < tokens.len()
        invariant
            from <= i <= tokens@.len(),
            first_solid(tokens@, from as int) == first_solid(tokens@, i as int),
        decreases tokens@.len() - i,
    {
        if tokens[i].kind != TokenKind::Whitespace && tokens[i].kind != TokenKind::Newline {
            return Some(i);
        }
        i += 1;
    }
    None
}

/// The index of the first token from index `from` on that is no trivia.
fn find_nontrivia(tokens: &[Token], from: usize) -> (found: Option<usize>)
    requires
        from <= tokens@.len(),
    ensures
        found is Some <==> first_nontrivia(tokens@, from as int) is Some,
        found matches Some(i) ==> i < tokens@.len() && first_nontrivia(tokens@, from as int)
            == Some(i as int),
{
    let mut i: usize = from;
    while i < tokens.len()
        invariant
            from <= i <= tokens@.len(),
            first_nontrivia(tokens@, from as int) == first_nontrivia(tokens@, i as int),
        decreases tokens@.len() - i,
    {
        if !token_is_trivia(&tokens[i]) {
            return Some(i);
        }
        i += 1;
    }
    None
}

/// Whether the token is whitespace, a line break, a comment or the continuation of a line.
fn token_is_trivia(token: &Token) -> (yes: bool)
    ensures
        yes == is_trivia(*token),
{
    token.kind == TokenKind::Whitespace || token.kind == TokenKind::Newline || token.kind
        == TokenKind::Comment || token.kind == TokenKind::Continuation
}

/// Where the first token before `target` that opens starts, and the index of the token before
/// those.
fn find_opening(display: TextRange, target: TextRange, before: &[Token]) -> (found: (
    u32,
    Option<usize>,
))
    ensures
        found.0 == opening_start(
            before@,
            before@.len() as int,
            display,
            target,
            target.start,
        ),
        found.1 is Some <==> before_opening(before@, before@.len() as int, display, target) is Some,
        found.1 matches Some(i) ==> i < before@.len() && before_opening(
            before@,
            before@.len() as int,
            display,
            target,
        ) == Some(i as int),
{
    let mut start: u32 = target.start;
    let mut n: usize = before.len();
    while n > 0
        invariant
            0 <= n <= before@.len(),
            opening_start(before@, before@.len() as int, display, target, target.start)
                == opening_start(before@, n as int, display, target, start),
            before_opening(before@, before@.len() as int, display, target) == before_opening(
                before@,
                n as int,
                display,
                target,
            ),
        decreases n,
    {
        let token = before[n - 1];
        if token.range.start < target.start {
            if token.range.end > target.start {
                return (start, Some(n - 1));
            }
            if !token_is_trivia(&token) {
                let opening = token.kind == TokenKind::OpenParen || token.kind
                    == TokenKind::DoubleStar;
                if !opening || token.range.start <= display.start {
                    return (start, Some(n - 1));
                }
                start = token.range.start;
            }
        }
        n -= 1;
    }
    (start, None)
}

/// Where the last closing parenthesis behind `target` ends, and the index of the token behind
/// those that is no trivia.
fn find_closing(display: TextRange, target: TextRange, behind: &[Token]) -> (found: (
    u32,
    Option<usize>,
))
    ensures
        found.0 == closing_end(behind@, 0, display, target.end),
        found.1 is Some <==> past_closing(behind@, 0, display) is Some,
        found.1 matches Some(i) ==> i < behind@.len() && past_closing(behind@, 0, display) == Some(
            i as int,
        ),
{
    let mut end: u32 = target.end;
    let mut i: usize = 0;
    while i < behind.len()
        invariant
            0 <= i <= behind@.len(),
            closing_end(behind@, 0, display, target.end) == closing_end(
                behind@,
                i as int,
                display,
                end,
            ),
            past_closing(behind@, 0, display) == past_closing(behind@, i as int, display),
        decreases behind@.len() - i,
    {
        if !token_is_trivia(&behind[i]) {
            if behind[i].kind == TokenKind::CloseParen && behind[i].range.end < display.end {
                end = behind[i].range.end;
            } else {
                return (end, Some(i));
            }
        }
        i += 1;
    }
    (end, None)
}

/// An element with the parentheses around it, and the index of the first token behind them that is
/// no trivia.
struct Extent {
    start: u32,
    end: u32,
    next: Option<usize>,
}

/// Where the element starts and ends, with the parentheses around it, and what stands behind it.
fn find_extent(
    display: TextRange,
    target: TextRange,
    before: &[Token],
    behind: &[Token],
) -> (extent: Extent)
    ensures
        extent.start == element_start(display, target, before@, behind@),
        extent.end == element_end(display, target, before@, behind@),
        extent.next is Some <==> next_behind(display, target, before@, behind@) is Some,
        extent.next matches Some(i) ==> i < behind@.len() && next_behind(
            display,
            target,
            before@,
            behind@,
        ) == Some(i as int),
{
    let (start, parting) = find_opening(display, target, before);
    let (end, next) = find_closing(display, target, behind);
    if let (Some(i), Some(j)) = (parting, next) {
        if before[i].range.end <= target.start && (before[i].kind == TokenKind::Comma
            || before[i].range.start == display.start) && (behind[j].kind == TokenKind::Comma
            || behind[j].range.end == display.end) {
            return Extent { start, end, next };
        }
    }
    Extent { start: target.start, end: target.end, next: find_nontrivia(behind, 0) }
}

/// The edit that removes `target` from `display`, given where it stands, the tokens from
/// [`lead_start`] on and those from its end on.
pub fn removal_edit(
    place: Position,
    display: TextRange,
    target: TextRange,
    before: &[Token],
    behind: &[Token],
) -> (outcome: Result<Edit, RemovalError>)
    requires
        span_in_order(place, display, target, before@, behind@),
    ensures
        deletes_span(outcome, span_to_delete(place, display, target, before@, behind@)),
{
    assert(behind.len() <= usize::MAX);
    let extent = find_extent(display, target, before, behind);
    match place {
        Position::NotLast { .. } => {
            match find_comma(behind) {
                None => Err(RemovalError::MissingComma),
                Some(comma) => match find_solid(behind, comma + 1) {
                    None => Err(RemovalError::MissingNextToken),
                    Some(next) => Ok(Edit::deletion(extent.start, behind[next].range.start)),
                },
            }
        },
        Position::Last { .. } => {
            match find_comma(before) {
                None => Err(RemovalError::MissingComma),
                Some(comma) => Ok(Edit::deletion(before[comma].range.start, extent.end)),
            }
        },
        Position::Only => {
            let mut end: u32 = extent.end;
            if let Some(next) = extent.next {
                if behind[next].kind == TokenKind::Comma {
                    end = behind[next].range.end;
                }
            }
            Ok(Edit::deletion(extent.start, end))
        },
    }
}

/// The offset from which the tokens before the element are read.
fn lead_offset(place: Position, display: TextRange) -> (offset: u32)
    ensures
        offset == lead_start(place, display),
{
    match place {
        Position::NotLast { latest_end } => match latest_end {
            Some(end) => end,
            None => display.start,
        },
        Position::Last { previous_end } => previous_end,
        Position::Only => display.start,
    }
}

/// The offset from which the comma that goes with the element is looked for.
fn scan_offset(place: Position, target: TextRange) -> (offset: u32)
    ensures
        offset == scan_start(place, target),
{
    match place {
        Position::Last { previous_end } => previous_end,
        _ => target.end,
    }
}

/// Generates an [`Edit`] that removes the element spanning `target` from the comma-separated
/// sequence that `display` holds and whose element ranges are `ranges`, with the parentheses around
/// it and the comma beside it.
pub fn remove_sequence_element(
    display: TextRange,
    ranges: &[TextRange],
    target: TextRange,
    source: &str,
) -> (outcome: Result<Edit, RemovalError>)
    requires
        removable(display, ranges@, target, source@),
    ensures
        removes(outcome, display, ranges@, target, source@),
{
    let place = locate(ranges, target);
    let before = read_tokens(source, lead_offset(place, display));
    let behind = read_tokens(source, target.end);
    removal_edit(place, display, target, before.as_slice(), behind.as_slice())
}

/// Away from the last position the span to delete never ends before it starts.
proof fn lemma_span_in_order(
    place: Position,
    display: TextRange,
    target: TextRange,
    before: Seq<Token>,
    behind: Seq<Token>,
    to: int,
)
    requires
        target.wf(),
        tokens_in_order(before, lead_start(place, display) as int, to),
        tokens_in_order(behind, target.end as int, to),
        !(place is Last),
    ensures
        span_in_order(place, display, target, before, behind),
{
    lemma_element(place, display, target, before, behind, to);
    lemma_first_comma(behind, 0);
    if let Some(comma) = first_comma(behind, 0) {
        lemma_first_solid(behind, comma + 1);
    }
    lemma_past_closing(behind, 0, display);
}

/// Whether the span to delete does not end before it starts.
fn spans_in_order(
    place: Position,
    display: TextRange,
    target: TextRange,
    before: &[Token],
    behind: &[Token],
) -> (ordered: bool)
    requires
        target.wf(),
        tokens_in_order(before@, lead_start(place, display) as int, u32::MAX as int),
        tokens_in_order(behind@, target.end as int, u32::MAX as int),
    ensures
        ordered == span_in_order(place, display, target, before@, behind@),
{
    match place {
        Position::Last { .. } => match find_comma(before) {
            None => true,
            Some(comma) => before[comma].range.start <= find_extent(
                display,
                target,
                before,
                behind,
            ).end,
        },
        _ => {
            proof {
                lemma_span_in_order(place, display, target, before@, behind@, u32::MAX as int);
            }
            true
        },
    }
}

/// Whether `target` can be removed from `source`.
pub fn is_removable(
    display: TextRange,
    ranges: &[TextRange],
    target: TextRange,
    source: &str,
) -> (able: bool)
    ensures
        able == removable(display, ranges@, target, source@),
{
    let place = locate(ranges, target);
    if target.start > target.end {
        return false;
    }
    if !can_tokenize(source, scan_offset(place, target)) {
        return false;
    }
    let before = read_tokens(source, lead_offset(place, display));
    let behind = read_tokens(source, target.end);
    spans_in_order(place, display, target, before.as_slice(), behind.as_slice())
}

/// The ranges of the items of a dict display.
pub open spec fn item_ranges(dict: ExprDict) -> Seq<TextRange> {
    dict.items@.map_values(|item: DictItem| item.place())
}

/// No item of the dict display ends before it starts.
pub open spec fn items_wf(dict: ExprDict) -> bool {
    forall|i: int| 0 <= i < dict.items@.len() ==> (#[trigger] dict.items@[i]).wf()
}

/// The ranges of the elements of a list display.
pub open spec fn element_ranges(list: ExprList) -> Seq<TextRange> {
    list.elts@.map_values(|element: Expr| element.place())
}

/// Collects the ranges of the items of a dict display.
fn collect_item_ranges(dict: &ExprDict) -> (ranges: Vec<TextRange>)
    requires
        items_wf(*dict),
    ensures
        ranges@ == item_ranges(*dict),
{
    let mut ranges: Vec<TextRange> = Vec::new();
    let mut i: usize = 0;
    while i < dict.items.len()
        invariant
            0 <= i <= dict.items@.len(),
            items_wf(*dict),
            ranges@ == item_ranges(*dict).take(i as int),
        decreases dict.items@.len() - i,
    {
        assert(dict.items@[i as int].wf());
        ranges.push(dict.items[i].range());
        assert(item_ranges(*dict).take(i + 1) == item_ranges(*dict).take(i as int).push(
            dict.items@[i as int].place(),
        ));
        i += 1;
    }
    assert(item_ranges(*dict).take(i as int) == item_ranges(*dict));
    ranges
}

/// Collects the ranges of the elements of a list display.
fn collect_element_ranges(list: &ExprList) -> (ranges: Vec<TextRange>)
    ensures
        ranges@ == element_ranges(*list),
{
    let mut ranges: Vec<TextRange> = Vec::new();
    let mut i: usize = 0;
    while i < list.elts.len()
        invariant
            0 <= i <= list.elts@.len(),
            ranges@ == element_ranges(*list).take(i as int),
        decreases list.elts@.len() - i,
    {
        ranges.push(list.elts[i].range());
        assert(element_ranges(*list).take(i + 1) == element_ranges(*list).take(i as int).push(
            list.elts@[i as int].place(),
        ));
        i += 1;
    }
    assert(element_ranges(*list).take(i as int) == element_ranges(*list));
    ranges
}

/// Generates an [`Edit`] that removes `item` (a key-value pair) from `dict`, with the
/// parentheses around it and the comma beside it, and leaves the rest of the dict display as it is.
pub fn remove_dict_item(dict: &ExprDict, item: &DictItem, source: &str) -> (outcome: Result<
    Edit,
    RemovalError,
>)
    requires
        items_wf(*dict),
        removable(dict.range, item_ranges(*dict), item.place(), source@),
    ensures
        removes(outcome, dict.range, item_ranges(*dict), item.place(), source@),
{
    let ranges = collect_item_ranges(dict);
    remove_sequence_element(dict.range, ranges.as_slice(), item.range(), source)
}

/// Generates an [`Edit`] that removes `element` from a list display, with the parentheses
/// around it and the comma beside it, and leaves the rest of the list as it is.
pub fn remove_list_element(list: &ExprList, element: &Expr, source: &str) -> (outcome: Result<
    Edit,
    RemovalError,
>)
    requires
        removable(list.range, element_ranges(*list), element.place(), source@),
    ensures
        removes(outcome, list.range, element_ranges(*list), element.place(), source@),
{
    let ranges = collect_element_ranges(list);
    remove_sequence_element(list.range, ranges.as_slice(), element.range(), source)
}

/// Like [`remove_dict_item`], for any ranges: `None` where the ranges do not fit the source.
pub fn checked_remove_dict_item(dict: &ExprDict, item: &DictItem, source: &str) -> (outcome: Option<
    Result<Edit, RemovalError>,
>)
    ensures
        outcome is Some <==> items_wf(*dict) && removable(
            dict.range,
            item_ranges(*dict),
            item.place(),
            source@,
        ),
        outcome matches Some(result) ==> removes(
            result,
            dict.range,
            item_ranges(*dict),
            item.place(),
            source@,
        ),
{
    let mut i: usize = 0;
    while i < dict.items.len()
        invariant
            0 <= i <= dict.items@.len(),
            forall|j: int| 0 <= j < i ==> (#[trigger] dict.items@[j]).wf(),
        decreases dict.items@.len() - i,
    {
        if !dict.items[i].is_ordered() {
            assert(!dict.items@[i as int].wf());
            return None;
        }
        i += 1;
    }
    if !item.is_ordered() {
        return None;
    }
    let ranges = collect_item_ranges(dict);
    if is_removable(dict.range, ranges.as_slice(), item.range(), source) {
        Some(remove_dict_item(dict, item, source))
    } else {
        None
    }
}

/// Like [`remove_list_element`], for any ranges: `None` where the ranges do not fit the source.
pub fn checked_remove_list_element(list: &ExprList, element: &Expr, source: &str) -> (outcome:
    Option<Result<Edit, RemovalError>>)
    ensures
        outcome is Some <==> removable(list.range, element_ranges(*list), element.place(), source@),
        outcome matches Some(result) ==> removes(
            result,
            list.range,
            element_ranges(*list),
            element.place(),
            source@,
        ),
{
    let ranges = collect_element_ranges(list);
    if is_removable(list.range, ranges.as_slice(), element.range(), source) {
        Some(remove_list_element(list, element, source))
    } else {
        None
    }
}

/// A removal takes the whole element, whatever the tokens are, as long as the comma before a last
/// element does not start behind the start of the element.
pub proof fn law_removal_takes_the_element(
    display: TextRange,
    ranges: Seq<TextRange>,
    target: TextRange,
    before: Seq<Token>,
    behind: Seq<Token>,
    to: int,
)
    requires
        target.wf(),
        tokens_in_order(before, lead_start(position(ranges, target), display) as int, to),
        tokens_in_order(behind, target.end as int, to),
        position(ranges, target) is Last ==> (first_comma(before, 0) matches Some(comma)
            ==> before[comma].range.start <= target.start),
    ensures
        span_to_delete(position(ranges, target), display, target, before, behind) matches Ok(
            (start, end),
        ) ==> start <= target.start && target.end <= end,
{
    lemma_element(position(ranges, target), display, target, before, behind, to);
    lemma_first_comma(behind, 0);
    if let Some(comma) = first_comma(behind, 0) {
        lemma_first_solid(behind, comma + 1);
    }
    lemma_past_closing(behind, 0, display);
}

/// A removal takes one comma with the element whenever there is another element, as long as the
/// comma before a last element does not end behind the element; an only element goes with the comma
/// right behind it and its parentheses.
pub proof fn law_removal_takes_a_comma(
    display: TextRange,
    ranges: Seq<TextRange>,
    target: TextRange,
    before: Seq<Token>,
    behind: Seq<Token>,
    to: int,
)
    requires
        target.wf(),
        tokens_in_order(before, lead_start(position(ranges, target), display) as int, to),
        tokens_in_order(behind, target.end as int, to),
        position(ranges, target) is Last ==> (first_comma(before, 0) matches Some(comma)
            ==> before[comma].range.end <= element_end(display, target, before, behind)),
    ensures
        span_to_delete(position(ranges, target), display, target, before, behind) matches Ok(
            (start, end),
        ) ==> match position(ranges, target) {
            Position::NotLast { .. } => {
                &&& first_comma(behind, 0) matches Some(comma)
                &&& start <= behind[comma].range.start
                &&& behind[comma].range.end <= end
            },
            Position::Last { .. } => {
                &&& first_comma(before, 0) matches Some(comma)
                &&& start <= before[comma].range.start
                &&& before[comma].range.end <= end
            },
            Position::Only => next_behind(display, target, before, behind) matches Some(next) ==> (
            behind[next].kind == TokenKind::Comma ==> start <= behind[next].range.start
                && behind[next].range.end <= end),
        },
{
    lemma_element(position(ranges, target), display, target, before, behind, to);
    lemma_first_comma(behind, 0);
    if let Some(comma) = first_comma(behind, 0) {
        lemma_first_solid(behind, comma + 1);
    }
    lemma_past_closing(behind, 0, display);
}

/// A removal leaves every other element as it is: no byte of another element is deleted, in a
/// display whose elements do not overlap and in which, behind the first comma, a token that is
/// neither whitespace nor a line break starts at or before each element behind `target`.
pub proof fn law_removal_leaves_the_others(
    display: TextRange,
    ranges: Seq<TextRange>,
    target: TextRange,
    before: Seq<Token>,
    behind: Seq<Token>,
    to: int,
    other: int,
)
    requires
        target.wf(),
        0 <= other < ranges.len(),
        ranges[other] != target,
        ranges[other].apart_from(target),
        tokens_in_order(before, lead_start(position(ranges, target), display) as int, to),
        tokens_in_order(behind, target.end as int, to),
        comes_after(ranges[other], target) ==> (first_comma(behind, 0) matches Some(comma)
            ==> exists|j: int|
            comma < j < behind.len() && is_solid(#[trigger] behind[j]) && behind[j].range.start
                <= ranges[other].start),
    ensures
        span_to_delete(position(ranges, target), display, target, before, behind) matches Ok(
            (start, end),
        ) ==> ranges[other].end <= start || end <= ranges[other].start,
{
    lemma_element(position(ranges, target), display, target, before, behind, to);
    lemma_latest_end(ranges, target);
    lemma_first_comma(before, 0);
    lemma_first_comma(behind, 0);
    if let Some(comma) = first_comma(behind, 0) {
        lemma_first_solid(behind, comma + 1);
        if comes_after(ranges[other], target) {
            let j = choose|j: int|
                comma < j < behind.len() && is_solid(#[trigger] behind[j]) && behind[j].range.start
                    <= ranges[other].start;
            if let Some(next) = first_solid(behind, comma + 1) {
                assert(next <= j);
                assert(behind[next].range.start <= behind[j].range.start);
            }
        }
    }
}

/// Token `i` of those before the element is a parenthesis that opens around it: it is inside the
/// display, and nothing but trivia and what opens stands between it and the element.
pub open spec fn opens_around(
    display: TextRange,
    target: TextRange,
    before: Seq<Token>,
    i: int,
) -> bool {
    &&& 0 <= i < before.len()
    &&& before[i].kind == TokenKind::OpenParen
    &&& before[i].range.start < target.start
    &&& forall|k: int|
        i <= k < before.len() && (#[trigger] before[k]).range.start < target.start ==> leads_in(
            before[k],
            display,
            target,
        )
}

/// Token `j` of those behind the element is a parenthesis that closes around it: it is inside the
/// display, and nothing but trivia and such parentheses stands between it and the element.
pub open spec fn closes_around(display: TextRange, behind: Seq<Token>, j: int) -> bool {
    &&& 0 <= j < behind.len()
    &&& closes(behind[j], display)
    &&& forall|k: int|
        0 <= k < j ==> is_trivia(#[trigger] behind[k]) || closes(behind[k], display)
}

/// A removal leaves no lone parenthesis: every parenthesis around the element goes with it, and no
/// other parenthesis beside it does, neither one that closes around the element before nor one that
/// opens around the element behind. The element is set off from the others by the comma behind it
/// or, where it is the last of several, by the comma before it.
pub proof fn law_removal_leaves_no_lone_parenthesis(
    display: TextRange,
    ranges: Seq<TextRange>,
    target: TextRange,
    before: Seq<Token>,
    behind: Seq<Token>,
    to: int,
)
    requires
        target.wf(),
        tokens_in_order(before, lead_start(position(ranges, target), display) as int, to),
        tokens_in_order(behind, target.end as int, to),
        is_set_off(display, target, before, behind),
        position(ranges, target) is NotLast ==> past_closing(behind, 0, display) == first_comma(
            behind,
            0,
        ),
        position(ranges, target) is Last ==> before_opening(
            before,
            before.len() as int,
            display,
            target,
        ) == first_comma(before, 0),
    ensures
        span_to_delete(position(ranges, target), display, target, before, behind) matches Ok(
            (start, end),
        ) ==> {
            &&& forall|i: int| #[trigger]
                opens_around(display, target, before, i) ==> start <= before[i].range.start
                    && before[i].range.end <= end
            &&& forall|j: int| #[trigger]
                closes_around(display, behind, j) ==> start <= behind[j].range.start
                    && behind[j].range.end <= end
            &&& forall|i: int|
                0 <= i < before.len() && ((#[trigger] before[i]).kind == TokenKind::OpenParen
                    || before[i].kind == TokenKind::CloseParen) && before[i].range.start
                    < target.start && !opens_around(display, target, before, i)
                    ==> before[i].range.end <= start
            &&& forall|j: int|
                0 <= j < behind.len() && ((#[trigger] behind[j]).kind == TokenKind::OpenParen
                    || behind[j].kind == TokenKind::CloseParen) && !closes_around(
                    display,
                    behind,
                    j,
                ) ==> end <= behind[j].range.start
        },
{
    let place = position(ranges, target);
    lemma_element(place, display, target, before, behind, to);
    lemma_opening(
        before,
        before.len() as int,
        display,
        target,
        target.start,
        lead_start(place, display) as int,
        to,
    );
    lemma_first_comma(before, 0);
    lemma_first_comma(behind, 0);
    if let Some(comma) = first_comma(behind, 0) {
        lemma_first_solid(behind, comma + 1);
    }
    lemma_past_closing(behind, 0, display);
    lemma_closing_end(behind, 0, display, target.end, target.end as int, to);
    let parting = before_opening(before, before.len() as int, display, target)->0;
    let past = past_closing(behind, 0, display)->0;
    if let Ok((start, end)) = span_to_delete(place, display, target, before, behind) {
        assert forall|i: int| #[trigger] opens_around(display, target, before, i) implies start
            <= before[i].range.start && before[i].range.end <= end by {
            assert(leads_in(before[i], display, target));
            if i <= parting {
                assert(leads_in(before[parting], display, target));
            }
        }
        assert forall|j: int| #[trigger] closes_around(display, behind, j) implies start
            <= behind[j].range.start && behind[j].range.end <= end by {
            assert(j < past);
        }
        assert forall|i: int|
            0 <= i < before.len() && ((#[trigger] before[i]).kind == TokenKind::OpenParen
                || before[i].kind == TokenKind::CloseParen) && before[i].range.start < target.start
                && !opens_around(display, target, before, i) implies before[i].range.end
            <= start by {
            if i > parting {
                assert(leads_in(before[i], display, target));
            }
            assert(i <= parting);
            if i < parting {
                assert(before[i].range.end <= before[parting].range.start);
            }
        }
        assert forall|j: int|
            0 <= j < behind.len() && ((#[trigger] behind[j]).kind == TokenKind::OpenParen
                || behind[j].kind == TokenKind::CloseParen) && !closes_around(
                display,
                behind,
                j,
            ) implies end <= behind[j].range.start by {
            assert(past <= j);
        }
    }
}

/// The order of the ranges has no part in a removal, nor has how often one occurs or whether the
/// element to remove is among them.
pub proof fn law_order_of_the_ranges_has_no_part(
    a: Seq<TextRange>,
    b: Seq<TextRange>,
    target: TextRange,
)
    requires
        forall|range: TextRange| range != target ==> (a.contains(range) <==> b.contains(range)),
    ensures
        position(a, target) == position(b, target),
        forall|outcome: Result<Edit, RemovalError>, display: TextRange, source: Seq<char>|
            removes(outcome, display, a, target, source) == #[trigger] removes(
                outcome,
                display,
                b,
                target,
                source,
            ),
{
    lemma_latest_end(a, target);
    lemma_latest_end(b, target);
    assert forall|i: int| 0 <= i < a.len() && a[i] != target implies exists|j: int|
        0 <= j < b.len() && #[trigger] b[j] == #[trigger] a[i] by {
        assert(a.contains(a[i]));
        assert(b.contains(a[i]));
    }
    assert forall|j: int| 0 <= j < b.len() && b[j] != target implies exists|i: int|
        0 <= i < a.len() && #[trigger] a[i] == #[trigger] b[j] by {
        assert(b.contains(b[j]));
        assert(a.contains(b[j]));
    }
}

/// Which tokens are trivia, which stop the search for the next element, which are parentheses that
/// may stand around an element, and which may stand between an element and the comma before it.
pub proof fn law_kinds_of_tokens(token: Token, display: TextRange, target: TextRange)
    ensures
        leads_in(token, display, target) <==> token.range.end <= target.start && (
        token.kind is Whitespace || token.kind is Newline || token.kind is Comment
            || token.kind is Continuation || ((token.kind is OpenParen || token.kind is DoubleStar)
            && display.start < token.range.start)),
        is_trivia(token) <==> token.kind is Whitespace || token.kind is Newline
            || token.kind is Comment || token.kind is Continuation,
        !is_solid(token) <==> token.kind is Whitespace || token.kind is Newline,
        opens(token, display) <==> (token.kind is OpenParen || token.kind is DoubleStar)
            && display.start < token.range.start,
        closes(token, display) <==> token.kind is CloseParen && token.range.end < display.end,
{
}

/// The ranges of a display are those of its items or elements, in their order.
pub proof fn law_ranges_are_those_of_the_elements(dict: ExprDict, list: ExprList, i: int)
    ensures
        item_ranges(dict).len() == dict.items@.len(),
        element_ranges(list).len() == list.elts@.len(),
        0 <= i < dict.items@.len() ==> item_ranges(dict)[i] == dict.items@[i].place(),
        0 <= i < list.elts@.len() ==> element_ranges(list)[i] == list.elts@[i].place(),
{
}

/// Some element other than `target` does not start before it.
pub open spec fn is_followed(ranges: Seq<TextRange>, target: TextRange) -> bool {
    exists|i: int|
        0 <= i < ranges.len() && #[trigger] ranges[i] != target && ranges[i].start >= target.start
}

/// Some element other than `target` starts before it.
pub open spec fn is_preceded(ranges: Seq<TextRange>, target: TextRange) -> bool {
    exists|i: int|
        0 <= i < ranges.len() && #[trigger] ranges[i] != target && ranges[i].start < target.start
}

/// `lead` is the greatest end of the elements that start before `target` or, where there are none,
/// the start of the display.
pub open spec fn leads_from(
    display: TextRange,
    ranges: Seq<TextRange>,
    target: TextRange,
    lead: u32,
) -> bool {
    if is_preceded(ranges, target) {
        &&& forall|i: int|
            0 <= i < ranges.len() && #[trigger] ranges[i] != target && ranges[i].start
                < target.start ==> ranges[i].end <= lead
        &&& exists|i: int|
            0 <= i < ranges.len() && #[trigger] ranges[i] != target && ranges[i].start
                < target.start && ranges[i].end == lead
    } else {
        lead == display.start
    }
}

/// Where an element stands rests on the elements before and behind it alone, and the tokens before
/// it are read from the greatest end of those before it on.
pub proof fn law_positions(
    display: TextRange,
    ranges: Seq<TextRange>,
    target: TextRange,
    lead: u32,
)
    ensures
        position(ranges, target) is NotLast <==> is_followed(ranges, target),
        position(ranges, target) is Last <==> !is_followed(ranges, target) && is_preceded(
            ranges,
            target,
        ),
        position(ranges, target) is Only <==> !is_followed(ranges, target) && !is_preceded(
            ranges,
            target,
        ),
        leads_from(display, ranges, target, lead) <==> lead_start(
            position(ranges, target),
            display,
        ) == lead,
        position(ranges, target) is Last ==> scan_start(position(ranges, target), target)
            == lead_start(position(ranges, target), display),
        !(position(ranges, target) is Last) ==> scan_start(position(ranges, target), target)
            == target.end,
{
    lemma_latest_end(ranges, target);
    if is_followed(ranges, target) {
        let i = choose|i: int|
            0 <= i < ranges.len() && #[trigger] ranges[i] != target && ranges[i].start
                >= target.start;
        assert(comes_after(ranges[i], target));
    }
    if exists|i: int| 0 <= i < ranges.len() && comes_after(#[trigger] ranges[i], target) {
        let i = choose|i: int| 0 <= i < ranges.len() && comes_after(#[trigger] ranges[i], target);
        assert(ranges[i] != target && ranges[i].start >= target.start);
    }
    match latest_end_before(ranges, target) {
        Some(end) => {
            let i = choose|i: int|
                0 <= i < ranges.len() && comes_before(#[trigger] ranges[i], target)
                    && ranges[i].end == end;
            assert(ranges[i] != target && ranges[i].start < target.start);
            assert forall|j: int|
                0 <= j < ranges.len() && #[trigger] ranges[j] != target && ranges[j].start
                    < target.start implies ranges[j].end <= end by {
                assert(comes_before(ranges[j], target));
            }
            if leads_from(display, ranges, target, lead) {
                let j = choose|j: int|
                    0 <= j < ranges.len() && #[trigger] ranges[j] != target && ranges[j].start
                        < target.start && ranges[j].end == lead;
                assert(lead <= end && end <= lead);
            }
        },
        None => {
            assert forall|j: int| 0 <= j < ranges.len() implies !(#[trigger] ranges[j] != target
                && ranges[j].start < target.start) by {
                assert(!comes_before(ranges[j], target));
            }
        },
    }
}

/// Token `c` is the first comma.
pub open spec fn is_first_comma(tokens: Seq<Token>, c: int) -> bool {
    &&& 0 <= c < tokens.len()
    &&& tokens[c].kind is Comma
    &&& forall|k: int| 0 <= k < c ==> !((#[trigger] tokens[k]).kind is Comma)
}

/// There is no comma.
pub open spec fn has_no_comma(tokens: Seq<Token>) -> bool {
    forall|k: int| 0 <= k < tokens.len() ==> !((#[trigger] tokens[k]).kind is Comma)
}

/// The deletion starts at `target` or at a parenthesis or `**` that leads in to it: what it takes
/// of the tokens before `target` leads in to it, and every other token before `target`, each comma
/// in particular, ends at or before the start.
pub open spec fn starts_at_the_element(
    start: u32,
    display: TextRange,
    target: TextRange,
    before: Seq<Token>,
) -> bool {
    &&& start <= target.start
    &&& start == target.start || exists|k: int|
        0 <= k < before.len() && (#[trigger] before[k]).range.start == start && opens(
            before[k],
            display,
        )
    &&& forall|k: int|
        0 <= k < before.len() && (#[trigger] before[k]).range.end <= target.start
            ==> before[k].range.end <= start || (start <= before[k].range.start && leads_in(
            before[k],
            display,
            target,
        ))
    &&& forall|k: int|
        0 <= k < before.len() && (#[trigger] before[k]).range.end <= target.start
            && before[k].kind is Comma ==> before[k].range.end <= start
}

/// The deletion ends at `target` or at a parenthesis that closes around it: what it takes of the
/// tokens behind `target` is trivia and such parentheses, and no comma.
pub open spec fn ends_at_the_element(
    end: u32,
    display: TextRange,
    target: TextRange,
    behind: Seq<Token>,
) -> bool {
    &&& target.end <= end
    &&& end == target.end || exists|k: int|
        0 <= k < behind.len() && (#[trigger] behind[k]).range.end == end && closes(
            behind[k],
            display,
        )
    &&& forall|k: int|
        0 <= k < behind.len() ==> end <= (#[trigger] behind[k]).range.start || (
        behind[k].range.end <= end && (is_trivia(behind[k]) || closes(behind[k], display)))
}

/// The element starts and ends as it should.
proof fn lemma_element_bounds(
    display: TextRange,
    target: TextRange,
    before: Seq<Token>,
    behind: Seq<Token>,
    from: int,
    to: int,
)
    requires
        tokens_in_order(before, from, to),
        tokens_in_order(behind, target.end as int, to),
    ensures
        starts_at_the_element(
            element_start(display, target, before, behind),
            display,
            target,
            before,
        ),
        ends_at_the_element(element_end(display, target, before, behind), display, target, behind),
{
    let n = before.len() as int;
    lemma_opening(before, n, display, target, target.start, from, to);
    let start = element_start(display, target, before, behind);
    let last = index_or_none(before_opening(before, n, display, target));
    if start != target.start {
        let o = choose|o: int|
            last < o < n && (#[trigger] before[o]).range.start == start && opens(
                before[o],
                display,
            ) && before[o].range.end <= target.start;
        assert forall|k: int|
            0 <= k < n && (#[trigger] before[k]).range.end
                <= target.start implies before[k].range.end <= start || (start
            <= before[k].range.start && leads_in(before[k], display, target)) by {
            if k > last {
                assert(leads_in(before[k], display, target));
                if k < o {
                    assert(before[k].range.end <= before[o].range.start);
                } else if k > o {
                    assert(before[o].range.end <= before[k].range.start);
                }
            }
        }
    }
    lemma_closing_bounds(behind, 0, display, target.end, target.end as int, to);
    let end = element_end(display, target, before, behind);
    if !is_set_off(display, target, before, behind) {
        assert(end == target.end);
    }
}

/// Where [`closing_end`] stops.
proof fn lemma_closing_bounds(
    tokens: Seq<Token>,
    from: int,
    display: TextRange,
    end: u32,
    start: int,
    to: int,
)
    requires
        0 <= from,
        tokens_in_order(tokens, start, to),
        forall|j: int| from <= j < tokens.len() ==> end <= (#[trigger] tokens[j]).range.start,
    ensures
        ({
            let last = closing_end(tokens, from, display, end);
            &&& end <= last
            &&& last == end || exists|k: int|
                from <= k < tokens.len() && (#[trigger] tokens[k]).range.end == last && closes(
                    tokens[k],
                    display,
                )
            &&& forall|k: int|
                from <= k < tokens.len() ==> last <= (#[trigger] tokens[k]).range.start || (
                tokens[k].range.end <= last && (is_trivia(tokens[k]) || closes(
                    tokens[k],
                    display,
                )))
        }),
    decreases tokens.len() - from,
{
    if from < tokens.len() {
        let token = tokens[from];
        if is_trivia(token) {
            lemma_closing_bounds(tokens, from + 1, display, end, start, to);
            let last = closing_end(tokens, from, display, end);
            if last != end {
                let k = choose|k: int|
                    from + 1 <= k < tokens.len() && (#[trigger] tokens[k]).range.end == last
                        && closes(tokens[k], display);
                assert(tokens[from].range.end <= tokens[k].range.start);
            }
        } else if closes(token, display) {
            lemma_closing_bounds(tokens, from + 1, display, token.range.end, start, to);
            assert(tokens[from].range.end == token.range.end);
        }
    }
}

/// The deletion ends where token `next` starts, the first behind the first comma `c` that is neither
/// whitespace nor a line break: it takes that comma and no other.
pub open spec fn ends_behind_one_comma(end: u32, behind: Seq<Token>, c: int, next: int) -> bool {
    &&& is_first_comma(behind, c)
    &&& c < next < behind.len()
    &&& end == behind[next].range.start
    &&& !(behind[next].kind is Whitespace) && !(behind[next].kind is Newline)
    &&& forall|k: int|
        c < k < next ==> (#[trigger] behind[k]).kind is Whitespace || behind[k].kind is Newline
    &&& forall|k: int|
        0 <= k < behind.len() && (#[trigger] behind[k]).kind is Comma && behind[k].range.start < end
            ==> k == c
}

/// Nothing but whitespace and line breaks stands behind the first comma `c`.
pub open spec fn ends_with_comma(behind: Seq<Token>, c: int) -> bool {
    &&& is_first_comma(behind, c)
    &&& forall|k: int|
        c < k < behind.len() ==> (#[trigger] behind[k]).kind is Whitespace
            || behind[k].kind is Newline
}

/// What the searches for a comma and the token behind it find.
proof fn lemma_comma_and_next(behind: Seq<Token>, from: int, to: int)
    requires
        tokens_in_order(behind, from, to),
    ensures
        match first_comma(behind, 0) {
            None => has_no_comma(behind) && forall|c: int| !#[trigger] is_first_comma(behind, c),
            Some(c) => {
                &&& !has_no_comma(behind)
                &&& is_first_comma(behind, c)
                &&& match first_solid(behind, c + 1) {
                    None => ends_with_comma(behind, c),
                    Some(next) => {
                        &&& ends_behind_one_comma(behind[next].range.start, behind, c, next)
                        &&& forall|d: int| !#[trigger] ends_with_comma(behind, d)
                    },
                }
            },
        },
{
    lemma_first_comma(behind, 0);
    if let Some(c) = first_comma(behind, 0) {
        lemma_first_solid(behind, c + 1);
        assert(is_first_comma(behind, c));
        match first_solid(behind, c + 1) {
            Some(next) => {
                assert(is_solid(behind[next]));
                assert forall|k: int| c < k < next implies (#[trigger] behind[k]).kind is Whitespace
                    || behind[k].kind is Newline by {
                    assert(!is_solid(behind[k]));
                }
                assert forall|k: int|
                    0 <= k < behind.len() && (#[trigger] behind[k]).kind is Comma
                        && behind[k].range.start < behind[next].range.start implies k == c by {
                    if k > c {
                        assert(is_solid(behind[k]));
                        assert(next <= k);
                    }
                }
                assert forall|d: int| !#[trigger] ends_with_comma(behind, d) by {
                    if ends_with_comma(behind, d) {
                        if d < c {
                            assert(behind[d].kind == TokenKind::Comma);
                        }
                        if c < d {
                            assert(!(behind[c].kind is Comma));
                        }
                        assert(behind[next].kind is Whitespace || behind[next].kind is Newline);
                    }
                }
            },
            None => {
                assert forall|k: int| c < k < behind.len() implies (
                #[trigger] behind[k]).kind is Whitespace || behind[k].kind is Newline by {
                    assert(!is_solid(behind[k]));
                }
            },
        }
    }
}

/// A removal of an element that another follows deletes nothing before the element but its own
/// parentheses and `**`, and behind it exactly one comma, up to the next token that is neither
/// whitespace nor a line break: the elements that are left stay parted by a comma. It fails exactly
/// where no comma follows, or nothing behind the comma.
pub proof fn law_removing_an_element_that_is_followed(
    outcome: Result<Edit, RemovalError>,
    display: TextRange,
    ranges: Seq<TextRange>,
    target: TextRange,
    source: Seq<char>,
    lead: u32,
)
    requires
        removes(outcome, display, ranges, target, source),
        target.wf(),
        is_followed(ranges, target),
        leads_from(display, ranges, target, lead),
        tokenizable(source, target.end as int),
        tokenizable(source, lead as int),
    ensures
        ({
            let before = simple_tokens(source, lead as int);
            let behind = simple_tokens(source, target.end as int);
            match outcome {
                Err(RemovalError::MissingComma) => has_no_comma(behind),
                Err(RemovalError::MissingNextToken) => exists|c: int| #[trigger]
                    ends_with_comma(behind, c),
                Ok(edit) => {
                    &&& edit.content is None
                    &&& starts_at_the_element(edit.range.start, display, target, before)
                    &&& exists|c: int, next: int| #[trigger]
                        ends_behind_one_comma(edit.range.end, behind, c, next)
                    &&& !has_no_comma(behind)
                    &&& forall|c: int| !#[trigger] ends_with_comma(behind, c)
                },
            }
        }),
{
    law_positions(display, ranges, target, lead);
    let before = simple_tokens(source, lead as int);
    let behind = simple_tokens(source, target.end as int);
    let len = vstd::utf8::encode_utf8(source).len() as int;
    lemma_element_bounds(display, target, before, behind, lead as int, len);
    lemma_comma_and_next(behind, target.end as int, len);
    if let Ok(edit) = outcome {
        let c = first_comma(behind, 0)->0;
        let next = first_solid(behind, c + 1)->0;
        assert(ends_behind_one_comma(edit.range.end, behind, c, next));
    }
}

/// A removal of the last of several elements deletes from the first comma behind the one before it
/// up to the element's end with its own parentheses, and no comma behind it. It fails exactly where
/// there is no comma before it.
pub proof fn law_removing_the_last_element(
    outcome: Result<Edit, RemovalError>,
    display: TextRange,
    ranges: Seq<TextRange>,
    target: TextRange,
    source: Seq<char>,
    lead: u32,
)
    requires
        removes(outcome, display, ranges, target, source),
        target.wf(),
        !is_followed(ranges, target),
        is_preceded(ranges, target),
        leads_from(display, ranges, target, lead),
        tokenizable(source, target.end as int),
        tokenizable(source, lead as int),
    ensures
        ({
            let before = simple_tokens(source, lead as int);
            let behind = simple_tokens(source, target.end as int);
            &&& outcome is Err <==> has_no_comma(before)
            &&& outcome matches Err(error) ==> error is MissingComma
            &&& outcome matches Ok(edit) ==> {
                &&& edit.content is None
                &&& ends_at_the_element(edit.range.end, display, target, behind)
                &&& exists|c: int| #[trigger]
                    is_first_comma(before, c) && edit.range.start == before[c].range.start
                &&& forall|k: int|
                    0 <= k < behind.len() && (#[trigger] behind[k]).kind is Comma ==> edit.range.end
                        <= behind[k].range.start
            }
        }),
{
    law_positions(display, ranges, target, lead);
    let before = simple_tokens(source, lead as int);
    let behind = simple_tokens(source, target.end as int);
    let len = vstd::utf8::encode_utf8(source).len() as int;
    lemma_element_bounds(display, target, before, behind, lead as int, len);
    lemma_first_comma(before, 0);
    if let Some(c) = first_comma(before, 0) {
        assert(is_first_comma(before, c));
    } else {
        assert(has_no_comma(before));
    }
}

/// A removal of the only element never fails. It deletes the element with its own parentheses and
/// `**` and, of what stands behind them, the comma and the trivia up to it where a comma is next:
/// no other token goes.
pub proof fn law_removing_the_only_element(
    outcome: Result<Edit, RemovalError>,
    display: TextRange,
    ranges: Seq<TextRange>,
    target: TextRange,
    source: Seq<char>,
)
    requires
        removes(outcome, display, ranges, target, source),
        target.wf(),
        !is_followed(ranges, target),
        !is_preceded(ranges, target),
        tokenizable(source, target.end as int),
        tokenizable(source, display.start as int),
    ensures
        ({
            let before = simple_tokens(source, display.start as int);
            let behind = simple_tokens(source, target.end as int);
            &&& outcome matches Ok(edit) && {
                &&& edit.content is None
                &&& starts_at_the_element(edit.range.start, display, target, before)
                &&& ends_at_the_element(edit.range.end, display, target, behind) || exists|c: int|
                    {
                        &&& 0 <= c < behind.len()
                        &&& (#[trigger] behind[c]).kind is Comma
                        &&& edit.range.end == behind[c].range.end
                        &&& forall|k: int|
                            0 <= k < c ==> is_trivia(#[trigger] behind[k]) || closes(
                                behind[k],
                                display,
                            )
                    }
                &&& forall|c: int|
                    0 <= c < behind.len() && (#[trigger] behind[c]).kind is Comma && (forall|k: int|
                        0 <= k < c ==> is_trivia(#[trigger] behind[k])) ==> edit.range.end
                        == behind[c].range.end
            }
        }),
{
    law_positions(display, ranges, target, display.start);
    let before = simple_tokens(source, display.start as int);
    let behind = simple_tokens(source, target.end as int);
    let len = vstd::utf8::encode_utf8(source).len() as int;
    lemma_element_bounds(display, target, before, behind, display.start as int, len);
    lemma_past_closing(behind, 0, display);
    lemma_first_nontrivia(behind, 0);
    let edit = outcome->Ok_0;
    assert forall|c: int|
        0 <= c < behind.len() && (#[trigger] behind[c]).kind is Comma && (forall|k: int|
            0 <= k < c ==> is_trivia(#[trigger] behind[k])) implies edit.range.end
        == behind[c].range.end by {
        assert(first_nontrivia(behind, 0) == Some(c)) by {
            let found = first_nontrivia(behind, 0);
            assert(!is_trivia(behind[c]));
            assert(found is Some);
            if found->0 < c {
                assert(is_trivia(behind[found->0]));
            }
            if c < found->0 {
                assert(is_trivia(behind[c]));
            }
        }
        assert(past_closing(behind, 0, display) == Some(c)) by {
            let found = past_closing(behind, 0, display);
            assert(!closes(behind[c], display));
            assert(found is Some);
            if found->0 < c {
                assert(is_trivia(behind[found->0]));
            }
            if c < found->0 {
                assert(is_trivia(behind[c]) || closes(behind[c], display));
            }
        }
    }
}

/// Token `i` parts `target` from what stands before it: it is a comma or the opening bracket of the
/// display, and nothing but trivia, opening parentheses and `**` stands between the two.
pub open spec fn parts_before(
    display: TextRange,
    target: TextRange,
    before: Seq<Token>,
    i: int,
) -> bool {
    &&& 0 <= i < before.len()
    &&& before[i].range.start < target.start
    &&& before[i].range.end <= target.start
    &&& before[i].kind is Comma || before[i].range.start == display.start
    &&& !is_trivia(before[i])
    &&& forall|k: int|
        i < k < before.len() && (#[trigger] before[k]).range.start < target.start ==> leads_in(
            before[k],
            display,
            target,
        )
}

/// Token `j` parts `target` from what stands behind it: it is a comma or the closing bracket of the
/// display, and nothing but trivia and closing parentheses stands between the two.
pub open spec fn parts_behind(display: TextRange, behind: Seq<Token>, j: int) -> bool {
    &&& 0 <= j < behind.len()
    &&& behind[j].kind is Comma || behind[j].range.end == display.end
    &&& !is_trivia(behind[j])
    &&& forall|k: int|
        0 <= k < j ==> is_trivia(#[trigger] behind[k]) || closes(behind[k], display)
}

/// An element between two such tokens is removed with every parenthesis and `**` around it. One that
/// is not between two such tokens, as the argument of a call is not, is removed without any.
pub proof fn law_parentheses_go_with_whole_elements(
    display: TextRange,
    target: TextRange,
    before: Seq<Token>,
    behind: Seq<Token>,
    from: int,
    to: int,
    i: int,
    j: int,
)
    requires
        tokens_in_order(before, from, to),
        tokens_in_order(behind, target.end as int, to),
    ensures
        parts_before(display, target, before, i) && parts_behind(display, behind, j) ==> {
            &&& forall|k: int|
                i < k < before.len() && (#[trigger] before[k]).range.start < target.start
                    && !is_trivia(before[k]) ==> element_start(display, target, before, behind)
                    <= before[k].range.start
            &&& before[i].range.end <= element_start(display, target, before, behind)
            &&& forall|k: int|
                0 <= k < j && closes(#[trigger] behind[k], display) ==> behind[k].range.end
                    <= element_end(display, target, before, behind)
            &&& element_end(display, target, before, behind) <= behind[j].range.start
            &&& next_behind(display, target, before, behind) == Some(j)
        },
        element_start(display, target, before, behind) != target.start || element_end(
            display,
            target,
            before,
            behind,
        ) != target.end ==> exists|i: int, j: int| #[trigger]
            parts_before(display, target, before, i) && #[trigger] parts_behind(display, behind, j),
{
    let n = before.len() as int;
    lemma_opening(before, n, display, target, target.start, from, to);
    lemma_past_closing(behind, 0, display);
    lemma_closing_end(behind, 0, display, target.end, target.end as int, to);
    if parts_before(display, target, before, i) && parts_behind(display, behind, j) {
        let last = index_or_none(before_opening(before, n, display, target));
        assert(!leads_in(before[i], display, target));
        if last < i {
            assert(leads_in(before[i], display, target));
        }
        if i < last {
            assert(leads_in(before[last], display, target));
        }
        assert(last == i);
        assert(!closes(behind[j], display));
        let past = past_closing(behind, 0, display);
        assert(past is Some);
        if past->0 < j {
            assert(is_trivia(behind[past->0]) || closes(behind[past->0], display));
        }
        if j < past->0 {
            assert(is_trivia(behind[j]) || closes(behind[j], display));
        }
        assert(is_set_off(display, target, before, behind));
    }
    if is_set_off(display, target, before, behind) {
        let p = before_opening(before, n, display, target)->0;
        assert(index_or_none(before_opening(before, n, display, target)) == p);
        let q = past_closing(behind, 0, display)->0;
        assert(!leads_in(before[p], display, target));
        assert(parts_before(display, target, before, p));
        assert(parts_behind(display, behind, q));
    }
}

/// What can be removed: an element that does not end before it starts, where a tokenizer can start
/// at its end or, for the last of several, at the end of the one before it, and there the comma does
/// not start behind the element. Nothing else can.
pub proof fn law_what_can_be_removed(
    display: TextRange,
    ranges: Seq<TextRange>,
    target: TextRange,
    source: Seq<char>,
    lead: u32,
    to: int,
)
    requires
        leads_from(display, ranges, target, lead),
        tokens_in_order(tokens_from(source, lead as int), lead as int, to),
        tokens_in_order(tokens_from(source, target.end as int), target.end as int, to),
    ensures
        is_followed(ranges, target) || !is_preceded(ranges, target) ==> (removable(
            display,
            ranges,
            target,
            source,
        ) <==> target.start <= target.end && tokenizable(source, target.end as int)),
        !is_followed(ranges, target) && is_preceded(ranges, target) ==> {
            let before = tokens_from(source, lead as int);
            &&& removable(display, ranges, target, source) ==> target.start <= target.end
                && tokenizable(source, lead as int)
            &&& target.start <= target.end && tokenizable(source, lead as int) && (forall|c: int| #[trigger]
                is_first_comma(before, c) ==> before[c].range.start <= target.end) ==> removable(
                display,
                ranges,
                target,
                source,
            )
        },
{
    law_positions(display, ranges, target, lead);
    let place = position(ranges, target);
    let before = tokens_from(source, lead as int);
    let behind = tokens_from(source, target.end as int);
    lemma_element(place, display, target, before, behind, to);
    lemma_first_comma(before, 0);
    if target.start <= target.end && !(place is Last) {
        lemma_span_in_order(place, display, target, before, behind, to);
    }
    if let Some(c) = first_comma(before, 0) {
        assert(is_first_comma(before, c));
    }
}

/// Tokens are read wherever a tokenizer can start, and nowhere else.
pub proof fn law_tokens_are_read_where_they_can_be(source: Seq<char>, offset: int)
    ensures
        tokenizable(source, offset) ==> tokens_from(source, offset) == simple_tokens(
            source,
            offset,
        ),
        !tokenizable(source, offset) ==> tokens_from(source, offset).len() == 0,
        tokenizable(source, offset) <==> vstd::utf8::encode_utf8(source).len() <= u32::MAX
            && vstd::utf8::is_char_boundary(vstd::utf8::encode_utf8(source), offset),
{
}

/// What is removed goes with every parenthesis and `**` around it, wherever it stands, if it stands
/// between two tokens that part elements; an only element also goes with the comma behind it.
pub proof fn law_parentheses_go_with_what_is_removed(
    outcome: Result<Edit, RemovalError>,
    display: TextRange,
    ranges: Seq<TextRange>,
    target: TextRange,
    source: Seq<char>,
    lead: u32,
    i: int,
    j: int,
)
    requires
        removes(outcome, display, ranges, target, source),
        target.wf(),
        leads_from(display, ranges, target, lead),
        tokenizable(source, target.end as int),
        tokenizable(source, lead as int),
        parts_before(display, target, simple_tokens(source, lead as int), i),
        parts_behind(display, simple_tokens(source, target.end as int), j),
        is_preceded(ranges, target) ==> simple_tokens(source, lead as int)[i].kind is Comma,
    ensures
        outcome matches Ok(edit) ==> {
            let before = simple_tokens(source, lead as int);
            let behind = simple_tokens(source, target.end as int);
            &&& forall|k: int|
                i < k < before.len() && (#[trigger] before[k]).range.start < target.start
                    && !is_trivia(before[k]) ==> edit.range.start <= before[k].range.start
            &&& forall|k: int|
                0 <= k < j && closes(#[trigger] behind[k], display) ==> behind[k].range.end
                    <= edit.range.end
            &&& !is_followed(ranges, target) && !is_preceded(ranges, target)
                && behind[j].kind is Comma ==> edit.range.end == behind[j].range.end
        },
{
    law_positions(display, ranges, target, lead);
    let before = simple_tokens(source, lead as int);
    let behind = simple_tokens(source, target.end as int);
    let len = vstd::utf8::encode_utf8(source).len() as int;
    law_parentheses_go_with_whole_elements(
        display,
        target,
        before,
        behind,
        lead as int,
        len,
        i,
        j,
    );
    lemma_first_comma(before, 0);
    lemma_comma_and_next(behind, target.end as int, len);
    if let Ok(edit) = outcome {
        if is_preceded(ranges, target) && !is_followed(ranges, target) {
            let c = first_comma(before, 0)->0;
            if i < c {
                assert(before[i].kind != TokenKind::Comma);
            }
            assert(c <= i);
            assert forall|k: int|
                i < k < before.len() && (#[trigger] before[k]).range.start < target.start
                    && !is_trivia(before[k]) implies edit.range.start <= before[k].range.start by {
                assert(before[c].range.end <= before[k].range.start);
            }
        }
        if is_followed(ranges, target) {
            let c = first_comma(behind, 0)->0;
            let next = first_solid(behind, c + 1)->0;
            if c < j {
                assert(is_trivia(behind[c]) || closes(behind[c], display));
            }
            assert(j <= c);
            assert(c < next);
            assert forall|k: int|
                0 <= k < j && closes(#[trigger] behind[k], display) implies behind[k].range.end
                <= edit.range.end by {
                assert(behind[k].range.end <= behind[next].range.start);
            }
        }
    }
}

/// What stands between no two tokens that part elements is removed without any parenthesis.
pub proof fn law_parentheses_of_others_stay(
    outcome: Result<Edit, RemovalError>,
    display: TextRange,
    ranges: Seq<TextRange>,
    target: TextRange,
    source: Seq<char>,
    lead: u32,
)
    requires
        removes(outcome, display, ranges, target, source),
        target.wf(),
        leads_from(display, ranges, target, lead),
        tokenizable(source, target.end as int),
        tokenizable(source, lead as int),
        forall|i: int, j: int|
            !(#[trigger] parts_before(display, target, simple_tokens(source, lead as int), i)
                && #[trigger] parts_behind(
                display,
                simple_tokens(source, target.end as int),
                j,
            )),
    ensures
        outcome matches Ok(edit) ==> {
            &&& is_followed(ranges, target) || !is_preceded(ranges, target) ==> edit.range.start
                == target.start
            &&& !is_followed(ranges, target) && is_preceded(ranges, target) ==> edit.range.end
                == target.end
        },
{
    law_positions(display, ranges, target, lead);
    let before = simple_tokens(source, lead as int);
    let behind = simple_tokens(source, target.end as int);
    let len = vstd::utf8::encode_utf8(source).len() as int;
    law_parentheses_go_with_whole_elements(
        display,
        target,
        before,
        behind,
        lead as int,
        len,
        0,
        0,
    );
}

} // verus!
