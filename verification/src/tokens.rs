//! The tokens that separate the elements of a display.

use ruff_python_trivia::{SimpleTokenKind, SimpleTokenizer};
use ruff_text_size::{Ranged, TextSize};
use vstd::prelude::*;

use crate::text::TextRange;

verus! {

/// What a removal has to know of a token.
#[derive(Clone, Copy, Debug, PartialEq, Eq, Structural)]
pub enum TokenKind {
    Comma,
    /// `(`
    OpenParen,
    /// `)`
    CloseParen,
    /// `**`
    DoubleStar,
    Whitespace,
    Newline,
    Comment,
    /// The backslash that continues a line.
    Continuation,
    /// Any other token.
    Other,
}

/// A token and the bytes it takes up.
#[derive(Clone, Copy, Debug, PartialEq, Eq, Structural)]
pub struct Token {
    pub kind: TokenKind,
    pub range: TextRange,
}

/// The tokens lie between the offsets `from` and `to`, none is empty, and each ends before the
/// ones after it start.
pub open spec fn tokens_in_order(tokens: Seq<Token>, from: int, to: int) -> bool {
    &&& forall|i: int|
        0 <= i < tokens.len() ==> from <= (#[trigger] tokens[i]).range.start < tokens[i].range.end
            <= to
    &&& forall|i: int, j: int|
        0 <= i < j < tokens.len() ==> (#[trigger] tokens[i]).range.end <= (
        #[trigger] tokens[j]).range.start
}

/// A tokenizer can start at the byte `offset` of `source`: offsets into the text fit in 32 bits,
/// and `offset` is the first byte of a character or the end of the text.
pub open spec fn tokenizable(source: Seq<char>, offset: int) -> bool {
    &&& vstd::utf8::encode_utf8(source).len() <= u32::MAX
    &&& vstd::utf8::is_char_boundary(vstd::utf8::encode_utf8(source), offset)
}

/// The tokens of `source` from the byte `offset` on, as `SimpleTokenizer::starts_at` of
/// `ruff_python_trivia` finds them.
pub uninterp spec fn simple_tokens(source: Seq<char>, offset: int) -> Seq<Token>;

/// Runs `SimpleTokenizer::starts_at` of `ruff_python_trivia` to its end.
///
/// Trusted: the tokens are a function of the text and the offset; they are not empty, and they
/// come in the order of the text, none before `offset` and none past the end. Which tokens a
/// text holds is left to the tokenizer.
#[verifier::external_body]
pub(crate) fn tokenize(source: &str, offset: u32) -> (tokens: Vec<Token>)
    requires
        tokenizable(source@, offset as int),
    ensures
        tokens@ == simple_tokens(source@, offset as int),
        tokens_in_order(
            tokens@,
            offset as int,
            vstd::utf8::encode_utf8(source@).len() as int,
        ),
{
    let convert = |token: ruff_python_trivia::SimpleToken| Token {
        kind: match token.kind() {
            SimpleTokenKind::Comma => TokenKind::Comma,
            SimpleTokenKind::LParen => TokenKind::OpenParen,
            SimpleTokenKind::RParen => TokenKind::CloseParen,
            SimpleTokenKind::DoubleStar => TokenKind::DoubleStar,
            SimpleTokenKind::Whitespace => TokenKind::Whitespace,
            SimpleTokenKind::Newline => TokenKind::Newline,
            SimpleTokenKind::Comment => TokenKind::Comment,
            SimpleTokenKind::Continuation => TokenKind::Continuation,
            _ => TokenKind::Other,
        },
        range: TextRange { start: token.start().to_u32(), end: token.end().to_u32() },
    };
    SimpleTokenizer::starts_at(TextSize::new(offset), source).map(convert).collect()
}

/// Whether a tokenizer can start at the byte `offset` of `source`.
pub(crate) fn can_tokenize(source: &str, offset: u32) -> (able: bool)
    ensures
        able == tokenizable(source@, offset as int),
{
    source.as_bytes().len() <= u32::MAX as usize && source.is_char_boundary(offset as usize)
}

/// The tokens of `source` from the byte `offset` on, or none where no tokenizer can start there.
pub open spec fn tokens_from(source: Seq<char>, offset: int) -> Seq<Token> {
    if tokenizable(source, offset) {
        simple_tokens(source, offset)
    } else {
        Seq::empty()
    }
}

/// The tokens of `source` from the byte `offset` on, or none where no tokenizer can start there.
pub(crate) fn read_tokens(source: &str, offset: u32) -> (tokens: Vec<Token>)
    ensures
        tokens@ == tokens_from(source@, offset as int),
        tokens_in_order(
            tokens@,
            offset as int,
            vstd::utf8::encode_utf8(source@).len() as int,
        ),
        tokens_in_order(tokens@, offset as int, u32::MAX as int),
{
    if can_tokenize(source, offset) {
        tokenize(source, offset)
    } else {
        Vec::new()
    }
}

} // verus!
