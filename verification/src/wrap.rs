//! Breaking a long string literal into pieces.

use ruff_python_ast::str::{Quote, TripleQuotes};
use ruff_python_ast::str_prefix::StringLiteralPrefix;
use ruff_python_ast::{AtomicNodeIndex, StringLiteral, StringLiteralFlags};
use ruff_python_codegen::{Generator, Indentation};
use vstd::prelude::*;

#[allow(unused_imports)]
use crate::text::texts;

verus! {

/// The quote character of a string literal.
#[derive(Clone, Copy, Debug, PartialEq, Eq, Structural)]
pub enum QuoteStyle {
    Single,
    Double,
}

/// The prefix of a string literal.
#[derive(Clone, Copy, Debug, PartialEq, Eq, Structural)]
pub enum LiteralPrefix {
    Empty,
    /// `u`
    Unicode,
    /// `r`
    RawLower,
    /// `R`
    RawUpper,
}

/// How a string literal is written.
#[derive(Clone, Copy, Debug, PartialEq, Eq, Structural)]
pub struct LiteralFlags {
    pub quote: QuoteStyle,
    pub triple_quoted: bool,
    pub prefix: LiteralPrefix,
}

/// The source of the string literal with the value `text` and the given flags, as
/// `Generator::expr` of `ruff_python_codegen` writes it.
pub uninterp spec fn literal_source(text: Seq<char>, flags: LiteralFlags) -> Seq<char>;

/// Calls `Generator::expr` of `ruff_python_codegen` on a string literal.
///
/// Trusted: the source is a function of the value and the flags alone (indentation and line
/// ending do not enter into a single literal). How the value is quoted and escaped is left to the
/// generator.
#[verifier::external_body]
fn render_literal(text: &str, flags: LiteralFlags) -> (source: String)
    ensures
        source@ == literal_source(text@, flags),
{
    let quote = match flags.quote {
        QuoteStyle::Single => Quote::Single,
        QuoteStyle::Double => Quote::Double,
    };
    let prefix = match flags.prefix {
        LiteralPrefix::Empty => StringLiteralPrefix::Empty,
        LiteralPrefix::Unicode => StringLiteralPrefix::Unicode,
        LiteralPrefix::RawLower => StringLiteralPrefix::Raw { uppercase: false },
        LiteralPrefix::RawUpper => StringLiteralPrefix::Raw { uppercase: true },
    };
    let triple = if flags.triple_quoted { TripleQuotes::Yes } else { TripleQuotes::No };
    let flags = StringLiteralFlags::empty().with_quote_style(quote).with_prefix(prefix).with_triple_quotes(triple);
    let literal = StringLiteral { value: text.into(), flags, range: Default::default(), node_index: AtomicNodeIndex::NONE };
    Generator::new(&Indentation::default(), Default::default()).expr(&literal.into())
}

/// `width` is a width that `line_width` may give for a line made of `indent` and `text`.
pub open spec fn may_measure<F: Fn(&str, &str) -> usize>(
    line_width: F,
    indent: Seq<char>,
    text: Seq<char>,
    width: usize,
) -> bool {
    exists|i: &str, t: &str|
        i@ == indent && t@ == text && #[trigger] call_ensures(line_width, (i, t), width)
}

/// The texts that the strings hold.
pub open spec fn string_texts(strings: Seq<String>) -> Seq<Seq<char>> {
    strings.map_values(|string: String| string@)
}

/// The texts one after the other.
pub open spec fn joined(parts: Seq<Seq<char>>) -> Seq<char>
    decreases parts.len(),
{
    if parts.len() == 0 {
        Seq::empty()
    } else {
        joined(parts.drop_last()) + parts.last()
    }
}

/// How many characters `content` has up to and with its first space, or in all where it has none.
pub open spec fn first_word_len(content: Seq<char>) -> int
    decreases content.len(),
{
    if content.len() == 0 {
        0
    } else if content[0] == ' ' {
        1
    } else {
        1 + first_word_len(content.skip(1))
    }
}

/// `content` cut right after each of its spaces.
pub open spec fn words_of(content: Seq<char>) -> Seq<Seq<char>>
    decreases content.len(),
    via words_of_shrinks
{
    if content.len() == 0 {
        Seq::empty()
    } else {
        seq![content.take(first_word_len(content))] + words_of(
            content.skip(first_word_len(content)),
        )
    }
}

#[via_fn]
proof fn words_of_shrinks(content: Seq<char>) {
    lemma_first_word_len(content);
}

proof fn lemma_first_word_len(content: Seq<char>)
    ensures
        0 <= first_word_len(content) <= content.len(),
        content.len() > 0 ==> 1 <= first_word_len(content),
    decreases content.len(),
{
    if content.len() > 0 {
        lemma_first_word_len(content.skip(1));
    }
}

/// The first `space` characters of `content` hold no space: the first word ends with the space
/// at that place, or takes all of `content` where that is its end.
proof fn lemma_first_word_at(content: Seq<char>, space: int)
    requires
        0 <= space <= content.len(),
        forall|i: int| 0 <= i < space ==> content[i] != ' ',
        space < content.len() ==> content[space] == ' ',
    ensures
        first_word_len(content) == if space < content.len() {
            space + 1
        } else {
            space
        },
    decreases content.len(),
{
    if content.len() > 0 && space > 0 {
        lemma_first_word_at(content.skip(1), space - 1);
    }
}

/// Cuts `content` right after each of its spaces.
fn split_after_spaces(content: &str) -> (words: Vec<&str>)
    ensures
        texts(words@) == words_of(content@),
{
    let mut words: Vec<&str> = Vec::new();
    let mut chars = content.chars();
    let count: usize = content.unicode_len();
    let mut start: usize = 0;
    let mut k: usize = 0;
    assert(content@.skip(0) == content@);
    assert(texts(words@) + words_of(content@) == words_of(content@));
    while k < count
        invariant
            count == content@.len(),
            0 <= start <= k <= count,
            vstd::std_specs::iter::IteratorSpec::remaining(&chars) == content@.skip(k as int),
            vstd::std_specs::iter::IteratorSpec::obeys_prophetic_iter_laws(&chars),
            forall|i: int| start <= i < k ==> content@[i] != ' ',
            words_of(content@) == texts(words@) + words_of(content@.skip(start as int)),
        decreases count - k,
    {
        if let Some(c) = chars.next() {
            assert(content@[k as int] == c);
            if c == ' ' {
                let ghost rest = content@.skip(start as int);
                let ghost before = words@;
                let word = content.substring_char(start, k + 1);
                words.push(word);
                proof {
                    lemma_first_word_at(rest, k - start);
                    assert(rest.take(k + 1 - start) == word@);
                    assert(rest.skip(k + 1 - start) == content@.skip(k + 1));
                    assert(texts(words@) == texts(before).push(word@));
                    assert(texts(before) + (seq![word@] + words_of(content@.skip(k + 1)))
                        == texts(before).push(word@) + words_of(content@.skip(k + 1)));
                }
                start = k + 1;
            }
        }
        assert(content@.skip(k as int).drop_first() == content@.skip(k + 1));
        k += 1;
    }
    if start < count {
        let ghost rest = content@.skip(start as int);
        let ghost before = words@;
        let word = content.substring_char(start, count);
        words.push(word);
        proof {
            lemma_first_word_at(rest, count - start);
            assert(rest.take(count - start) == word@);
            assert(rest.skip(count - start) == Seq::<char>::empty());
            assert(texts(words@) == texts(before).push(word@));
            assert(seq![word@] + words_of(Seq::<char>::empty()) == seq![word@]);
            assert(texts(before) + seq![word@] == texts(before).push(word@));
        }
    } else {
        assert(content@.skip(start as int) == Seq::<char>::empty());
        assert(texts(words@) + Seq::<Seq<char>>::empty() == texts(words@));
    }
    words
}

/// The text in the making after the first `k` words, where `breaks[i]` says that word `i` starts
/// a new piece.
pub open spec fn running(words: Seq<Seq<char>>, breaks: Seq<bool>, k: int) -> Seq<char>
    decreases k,
{
    if k <= 0 {
        Seq::empty()
    } else if breaks[k - 1] {
        words[k - 1]
    } else {
        running(words, breaks, k - 1) + words[k - 1]
    }
}

/// The texts that are complete after the first `k` words.
pub open spec fn finished(words: Seq<Seq<char>>, breaks: Seq<bool>, k: int) -> Seq<Seq<char>>
    decreases k,
{
    if k <= 0 {
        Seq::empty()
    } else if breaks[k - 1] {
        finished(words, breaks, k - 1).push(running(words, breaks, k - 1))
    } else {
        finished(words, breaks, k - 1)
    }
}

/// The texts that the words make when a new one starts at each break.
pub open spec fn chunks(words: Seq<Seq<char>>, breaks: Seq<bool>) -> Seq<Seq<char>> {
    finished(words, breaks, words.len() as int).push(running(words, breaks, words.len() as int))
}

/// Word `k` starts a new text exactly where the line that holds the text in the making together
/// with the word, written as a literal at `indent`, measures more than `max_line_length`.
pub open spec fn decided<F: Fn(&str, &str) -> usize>(
    line_width: F,
    flags: LiteralFlags,
    words: Seq<Seq<char>>,
    indent: Seq<char>,
    max_line_length: usize,
    breaks: Seq<bool>,
    k: int,
) -> bool {
    exists|width: usize|
        breaks[k] == (width > max_line_length) && #[trigger] may_measure(
            line_width,
            indent,
            literal_source(running(words, breaks, k) + words[k], flags),
            width,
        )
}

/// Every word but the first starts a new text exactly where the line is too long with it on.
pub open spec fn greedy_breaks<F: Fn(&str, &str) -> usize>(
    line_width: F,
    flags: LiteralFlags,
    words: Seq<Seq<char>>,
    indent: Seq<char>,
    max_line_length: usize,
    breaks: Seq<bool>,
) -> bool {
    &&& breaks.len() == words.len()
    &&& words.len() > 0 ==> !breaks[0]
    &&& forall|k: int|
        1 <= k < words.len() ==> #[trigger] decided(
            line_width,
            flags,
            words,
            indent,
            max_line_length,
            breaks,
            k,
        )
}

/// `pieces` are the literals that the words of `content` make with the given breaks.
pub open spec fn is_wrapping<F: Fn(&str, &str) -> usize>(
    line_width: F,
    flags: LiteralFlags,
    content: Seq<char>,
    indent: Seq<char>,
    max_line_length: usize,
    breaks: Seq<bool>,
    pieces: Seq<String>,
) -> bool {
    let texts = chunks(words_of(content), breaks);
    &&& greedy_breaks(line_width, flags, words_of(content), indent, max_line_length, breaks)
    &&& pieces.len() == texts.len()
    &&& forall|i: int|
        0 <= i < texts.len() ==> (#[trigger] pieces[i])@ == literal_source(texts[i], flags)
}

/// A string on its way to being wrapped: the texts that are complete and the one in the making.
#[derive(Debug)]
pub struct Wrapping {
    pub finished: Vec<String>,
    pub current: String,
}

impl Wrapping {
    /// Nothing is wrapped yet.
    pub fn new() -> (wrapping: Wrapping)
        ensures
            string_texts(wrapping.finished@) == Seq::<Seq<char>>::empty(),
            wrapping.current@ == Seq::<char>::empty(),
    {
        let wrapping = Wrapping { finished: Vec::new(), current: String::new() };
        assert(string_texts(wrapping.finished@) == Seq::<Seq<char>>::empty());
        wrapping
    }

    /// Adds a word, where `width` is what the line measures with the word on it: the word joins
    /// the text in the making if that is still empty or if the line is not too long with it, and
    /// otherwise completes that text and starts the next.
    pub fn add_word(&mut self, word: &str, width: usize, max_line_length: usize)
        ensures
            if old(self).current@.len() > 0 && width > max_line_length {
                &&& string_texts(final(self).finished@) == string_texts(old(self).finished@).push(
                    old(self).current@,
                )
                &&& final(self).current@ == word@
            } else {
                &&& string_texts(final(self).finished@) == string_texts(old(self).finished@)
                &&& final(self).current@ == old(self).current@ + word@
            },
    {
        if !self.current.as_str().is_empty() && width > max_line_length {
            let done = self.current.clone();
            self.finished.push(done);
            self.current = word.to_owned();
            assert(string_texts(self.finished@) == string_texts(old(self).finished@).push(done@));
        } else {
            self.current.append(word);
        }
    }
}

/// Renders `content` as string-literal pieces for a parenthesized implicit concatenation.
///
/// Pieces split only right after spaces, so the values of the pieces one after the other are
/// `content` (a word's space stays at the end of each piece but the last). Each piece fits within
/// `max_line_length` when written at `indent`, whenever a space to break at exists; a single word
/// longer than the limit stays on its own overlong line. `line_width` tells the width of the line
/// made of an indentation and a literal.
pub fn wrap_string_literal<F: Fn(&str, &str) -> usize>(
    line_width: F,
    flags: LiteralFlags,
    content: &str,
    indent: &str,
    max_line_length: usize,
) -> (pieces: Vec<String>)
    requires
        forall|i: &str, t: &str| #[trigger] call_requires(line_width, (i, t)),
    ensures
        exists|breaks: Seq<bool>| #[trigger]
            is_wrapping(
                line_width,
                flags,
                content@,
                indent@,
                max_line_length,
                breaks,
                pieces@,
            ),
        exists|texts: Seq<Seq<char>>| #[trigger]
            wraps_into(
                line_width,
                flags,
                content@,
                indent@,
                max_line_length,
                texts,
                pieces@,
            ),
{
    let words = split_after_spaces(content);
    let ghost parts = words_of(content@);
    let ghost mut breaks: Seq<bool> = Seq::empty();
    let mut wrapping = Wrapping::new();
    let mut k: usize = 0;
    while k < words.len()
        invariant
            0 <= k <= words@.len(),
            parts == words_of(content@),
            texts(words@) == parts,
            forall|i: &str, t: &str| #[trigger] call_requires(line_width, (i, t)),
            breaks.len() == k,
            k > 0 ==> !breaks[0],
            (wrapping.current@.len() > 0) == (k > 0),
            wrapping.current@ == running(parts, breaks, k as int),
            string_texts(wrapping.finished@) == finished(parts, breaks, k as int),
            forall|j: int|
                1 <= j < k ==> #[trigger] decided(
                    line_width,
                    flags,
                    parts,
                    indent@,
                    max_line_length,
                    breaks,
                    j,
                ),
        decreases words@.len() - k,
    {
        let word = words[k];
        assert(parts[k as int] == word@);
        proof {
            lemma_words_not_empty(content@, k as int);
        }
        let mut width: usize = 0;
        if k > 0 {
            let candidate = wrapping.current.clone().concat(word);
            let rendered = render_literal(candidate.as_str(), flags);
            width = line_width(indent, rendered.as_str());
            assert(may_measure(
                line_width,
                indent@,
                literal_source(running(parts, breaks, k as int) + parts[k as int], flags),
                width,
            ));
        }
        let ghost longer = breaks.push(k > 0 && width > max_line_length);
        proof {
            lemma_running_prefix(parts, breaks, longer, k as int);
        }
        wrapping.add_word(word, width, max_line_length);
        proof {
            assert forall|j: int| 1 <= j < k + 1 implies #[trigger] decided(
                line_width,
                flags,
                parts,
                indent@,
                max_line_length,
                longer,
                j,
            ) by {
                lemma_running_prefix(parts, breaks, longer, j);
                if j < k {
                    assert(decided(
                        line_width,
                        flags,
                        parts,
                        indent@,
                        max_line_length,
                        breaks,
                        j,
                    ));
                }
            }
            breaks = longer;
        }
        k += 1;
    }
    let mut chunks_left: Vec<String> = wrapping.finished;
    chunks_left.push(wrapping.current);
    assert(string_texts(chunks_left@) == chunks(parts, breaks));
    let mut pieces: Vec<String> = Vec::new();
    let mut i: usize = 0;
    while i < chunks_left.len()
        invariant
            0 <= i <= chunks_left@.len(),
            string_texts(chunks_left@) == chunks(parts, breaks),
            pieces@.len() == i,
            forall|j: int|
                0 <= j < i ==> (#[trigger] pieces@[j])@ == literal_source(
                    chunks(parts, breaks)[j],
                    flags,
                ),
        decreases chunks_left@.len() - i,
    {
        assert(chunks(parts, breaks)[i as int] == chunks_left@[i as int]@);
        pieces.push(render_literal(chunks_left[i].as_str(), flags));
        i += 1;
    }
    assert(string_texts(chunks_left@).len() == chunks_left@.len());
    assert(is_wrapping(
        line_width,
        flags,
        content@,
        indent@,
        max_line_length,
        breaks,
        pieces@,
    ));
    proof {
        law_pieces_wrap_the_content(
            line_width,
            flags,
            content@,
            indent@,
            max_line_length,
            breaks,
            pieces@,
        );
    }
    pieces
}

/// Breaks past the first `k` have no part in what the first `k` words make.
proof fn lemma_running_prefix(
    words: Seq<Seq<char>>,
    breaks: Seq<bool>,
    longer: Seq<bool>,
    k: int,
)
    requires
        0 <= k <= breaks.len(),
        breaks.len() <= longer.len(),
        forall|i: int| 0 <= i < breaks.len() ==> #[trigger] longer[i] == breaks[i],
    ensures
        running(words, longer, k) == running(words, breaks, k),
        finished(words, longer, k) == finished(words, breaks, k),
    decreases k,
{
    if k > 0 {
        lemma_running_prefix(words, breaks, longer, k - 1);
        assert(longer[k - 1] == breaks[k - 1]);
    }
}

/// No word is empty, and each word but the last ends with its only space.
proof fn lemma_words_not_empty(content: Seq<char>, k: int)
    requires
        0 <= k < words_of(content).len(),
    ensures
        words_of(content)[k].len() > 0,
        k < words_of(content).len() - 1 ==> words_of(content)[k].last() == ' ',
    decreases content.len(),
{
    lemma_first_word_len(content);
    let n = first_word_len(content);
    let rest = words_of(content.skip(n));
    assert(words_of(content) == seq![content.take(n)] + rest);
    if k > 0 {
        lemma_words_not_empty(content.skip(n), k - 1);
        assert(words_of(content)[k] == rest[k - 1]);
    } else if rest.len() > 0 {
        assert(n < content.len());
        lemma_first_word_ends(content);
    }
}

/// A first word that is not all of `content` ends with a space.
proof fn lemma_first_word_ends(content: Seq<char>)
    requires
        first_word_len(content) < content.len(),
    ensures
        first_word_len(content) > 0,
        content[first_word_len(content) - 1] == ' ',
    decreases content.len(),
{
    lemma_first_word_len(content);
    if content[0] != ' ' {
        lemma_first_word_ends(content.skip(1));
    }
}

proof fn lemma_joined_concat(left: Seq<Seq<char>>, right: Seq<Seq<char>>)
    ensures
        joined(left + right) == joined(left) + joined(right),
    decreases right.len(),
{
    if right.len() == 0 {
        assert(left + right == left);
        assert(joined(left) + joined(right) == joined(left));
    } else {
        lemma_joined_concat(left, right.drop_last());
        assert((left + right).drop_last() == left + right.drop_last());
        assert(joined(left) + (joined(right.drop_last()) + right.last()) == (joined(left) + joined(
            right.drop_last(),
        )) + right.last());
    }
}

proof fn lemma_words_join(content: Seq<char>)
    ensures
        joined(words_of(content)) == content,
    decreases content.len(),
{
    if content.len() > 0 {
        lemma_first_word_len(content);
        let n = first_word_len(content);
        lemma_words_join(content.skip(n));
        let first = seq![content.take(n)];
        lemma_joined_concat(first, words_of(content.skip(n)));
        assert(first.drop_last() == Seq::<Seq<char>>::empty());
        assert(joined(first) == joined(first.drop_last()) + first.last());
        assert(Seq::<char>::empty() + content.take(n) == content.take(n));
        assert(content.take(n) + content.skip(n) == content);
    }
}

proof fn lemma_chunks_join(words: Seq<Seq<char>>, breaks: Seq<bool>, k: int)
    requires
        0 <= k <= words.len(),
    ensures
        joined(finished(words, breaks, k)) + running(words, breaks, k) == joined(words.take(k)),
    decreases k,
{
    if k == 0 {
        assert(joined(words.take(0)) == Seq::<char>::empty());
    } else {
        lemma_chunks_join(words, breaks, k - 1);
        assert(words.take(k).drop_last() == words.take(k - 1));
        let before = finished(words, breaks, k - 1);
        let current = running(words, breaks, k - 1);
        assert(before.push(current).drop_last() == before);
        assert(joined(before) + (current + words[k - 1]) == joined(before) + current + words[k
            - 1]);
    }
}

/// The values of the pieces one after the other are the content, wherever the breaks are.
pub proof fn law_pieces_rejoin(content: Seq<char>, breaks: Seq<bool>)
    ensures
        joined(chunks(words_of(content), breaks)) == content,
{
    let words = words_of(content);
    lemma_chunks_join(words, breaks, words.len() as int);
    lemma_words_join(content);
    assert(words.take(words.len() as int) == words);
    let before = finished(words, breaks, words.len() as int);
    let current = running(words, breaks, words.len() as int);
    assert(before.push(current).drop_last() == before);
}

/// Pieces split only right after spaces: the value of each piece but the last ends with a space.
pub proof fn law_pieces_break_after_spaces(content: Seq<char>, breaks: Seq<bool>, i: int)
    requires
        breaks.len() == words_of(content).len(),
        breaks.len() > 0 ==> !breaks[0],
        0 <= i < chunks(words_of(content), breaks).len() - 1,
    ensures
        chunks(words_of(content), breaks)[i].len() > 0,
        chunks(words_of(content), breaks)[i].last() == ' ',
{
    lemma_finished_end_with_space(content, breaks, words_of(content).len() as int, i);
}

proof fn lemma_finished_end_with_space(content: Seq<char>, breaks: Seq<bool>, k: int, i: int)
    requires
        breaks.len() == words_of(content).len(),
        breaks.len() > 0 ==> !breaks[0],
        0 <= k <= breaks.len(),
        0 <= i < finished(words_of(content), breaks, k).len(),
    ensures
        finished(words_of(content), breaks, k)[i].len() > 0,
        finished(words_of(content), breaks, k)[i].last() == ' ',
    decreases k,
{
    let words = words_of(content);
    let before = finished(words, breaks, k - 1);
    if i < before.len() {
        lemma_finished_end_with_space(content, breaks, k - 1, i);
    } else {
        assert(k >= 2);
        lemma_words_not_empty(content, k - 2);
        let current = running(words, breaks, k - 1);
        assert(current.last() == words[k - 2].last());
    }
}

/// A piece is too long only if its value is a single word: every piece whose value is more than
/// one word was measured, and fits.
pub proof fn law_pieces_fit<F: Fn(&str, &str) -> usize>(
    line_width: F,
    flags: LiteralFlags,
    content: Seq<char>,
    indent: Seq<char>,
    max_line_length: usize,
    breaks: Seq<bool>,
    i: int,
)
    requires
        greedy_breaks(line_width, flags, words_of(content), indent, max_line_length, breaks),
        0 <= i < chunks(words_of(content), breaks).len(),
        content.len() > 0,
    ensures
        words_of(content).contains(chunks(words_of(content), breaks)[i]) || exists|width: usize|
            width <= max_line_length && #[trigger] may_measure(
                line_width,
                indent,
                literal_source(chunks(words_of(content), breaks)[i], flags),
                width,
            ),
{
    let words = words_of(content);
    let n = words.len() as int;
    lemma_first_word_len(content);
    if i < finished(words, breaks, n).len() {
        lemma_finished_fit(line_width, flags, words, indent, max_line_length, breaks, n, i);
    } else {
        lemma_running_fits(line_width, flags, words, indent, max_line_length, breaks, n);
    }
}

/// Pieces are filled greedily: a piece ends only where the line would have been too long with the
/// first word of the next piece on it.
pub proof fn law_pieces_are_filled_greedily<F: Fn(&str, &str) -> usize>(
    line_width: F,
    flags: LiteralFlags,
    content: Seq<char>,
    indent: Seq<char>,
    max_line_length: usize,
    breaks: Seq<bool>,
    i: int,
)
    requires
        greedy_breaks(line_width, flags, words_of(content), indent, max_line_length, breaks),
        0 <= i < chunks(words_of(content), breaks).len() - 1,
    ensures
        exists|k: int, width: usize|
            0 <= k < words_of(content).len() && words_of(
                chunks(words_of(content), breaks)[i + 1],
            )[0] == #[trigger] words_of(content)[k] && width > max_line_length && #[trigger] may_measure(
                line_width,
                indent,
                literal_source(
                    chunks(words_of(content), breaks)[i] + words_of(content)[k],
                    flags,
                ),
                width,
            ),
{
    let words = words_of(content);
    let (k, rest) = lemma_break_behind(words, breaks, words.len() as int, i);
    lemma_first_word_of_text(content, k, rest);
    assert(decided(line_width, flags, words, indent, max_line_length, breaks, k));
    let width = choose|width: usize|
        breaks[k] == (width > max_line_length) && #[trigger] may_measure(
            line_width,
            indent,
            literal_source(running(words, breaks, k) + words[k], flags),
            width,
        );
    assert(words_of(chunks(words, breaks)[i + 1])[0] == words_of(content)[k]);
    assert(may_measure(
        line_width,
        indent,
        literal_source(chunks(words, breaks)[i] + words[k], flags),
        width,
    ));
}

/// A word holds no space but the one that it may end with.
proof fn lemma_word_shape(content: Seq<char>, k: int)
    requires
        0 <= k < words_of(content).len(),
    ensures
        forall|i: int|
            0 <= i < words_of(content)[k].len() - 1 ==> #[trigger] words_of(content)[k][i] != ' ',
    decreases content.len(),
{
    lemma_first_word_len(content);
    let n = first_word_len(content);
    let rest = words_of(content.skip(n));
    assert(words_of(content) == seq![content.take(n)] + rest);
    if k > 0 {
        lemma_word_shape(content.skip(n), k - 1);
        assert(words_of(content)[k] == rest[k - 1]);
    } else {
        lemma_first_word_shape(content);
    }
}

/// No space stands in the first word before its last character.
proof fn lemma_first_word_shape(content: Seq<char>)
    ensures
        forall|i: int| 0 <= i < first_word_len(content) - 1 ==> #[trigger] content[i] != ' ',
    decreases content.len(),
{
    lemma_first_word_len(content);
    if content.len() > 0 && content[0] != ' ' {
        lemma_first_word_shape(content.skip(1));
        assert forall|i: int| 0 <= i < first_word_len(content) - 1 implies #[trigger] content[i]
            != ' ' by {
            if i > 0 {
                assert(content.skip(1)[i - 1] == content[i]);
            }
        }
    }
}

/// The first word of a text that begins with a word of `content` is that word, if nothing comes
/// behind the last word.
proof fn lemma_first_word_of_text(content: Seq<char>, k: int, rest: Seq<char>)
    requires
        0 <= k < words_of(content).len(),
        rest.len() > 0 ==> k + 1 < words_of(content).len(),
    ensures
        words_of(words_of(content)[k] + rest)[0] == words_of(content)[k],
{
    let word = words_of(content)[k];
    let text = word + rest;
    lemma_words_not_empty(content, k);
    lemma_word_shape(content, k);
    assert forall|i: int| 0 <= i < word.len() - 1 implies text[i] != ' ' by {
        assert(text[i] == words_of(content)[k][i]);
    }
    if word.last() == ' ' {
        assert(text[word.len() - 1] == ' ');
        lemma_first_word_at(text, word.len() - 1);
    } else {
        assert(rest.len() == 0);
        assert(text[word.len() - 1] == word.last());
        lemma_first_word_at(text, word.len() as int);
    }
    assert(text.take(word.len() as int) == word);
}

/// A complete text was completed by a break, and the word there begins the next text.
proof fn lemma_break_behind(words: Seq<Seq<char>>, breaks: Seq<bool>, n: int, i: int) -> (found: (
    int,
    Seq<char>,
))
    requires
        0 <= n <= words.len(),
        breaks.len() == words.len(),
        words.len() > 0 ==> !breaks[0],
        0 <= i < finished(words, breaks, n).len(),
    ensures
        1 <= found.0 < n,
        breaks[found.0],
        running(words, breaks, found.0) == finished(words, breaks, n)[i],
        words[found.0] + found.1 == finished(words, breaks, n).push(running(words, breaks, n))[i
            + 1],
        found.1.len() > 0 ==> found.0 + 1 < n,
    decreases n,
{
    let done = finished(words, breaks, n - 1);
    let current = running(words, breaks, n - 1);
    if i < done.len() {
        let (k, rest) = lemma_break_behind(words, breaks, n - 1, i);
        if i + 1 == done.len() && !breaks[n - 1] {
            assert(words[k] + (rest + words[n - 1]) == current + words[n - 1]);
            (k, rest + words[n - 1])
        } else {
            (k, rest)
        }
    } else {
        assert(words[n - 1] + Seq::<char>::empty() == words[n - 1]);
        (n - 1, Seq::empty())
    }
}

proof fn lemma_running_fits<F: Fn(&str, &str) -> usize>(
    line_width: F,
    flags: LiteralFlags,
    words: Seq<Seq<char>>,
    indent: Seq<char>,
    max_line_length: usize,
    breaks: Seq<bool>,
    k: int,
)
    requires
        greedy_breaks(line_width, flags, words, indent, max_line_length, breaks),
        1 <= k <= words.len(),
    ensures
        words.contains(running(words, breaks, k)) || exists|width: usize|
            width <= max_line_length && #[trigger] may_measure(
                line_width,
                indent,
                literal_source(running(words, breaks, k), flags),
                width,
            ),
{
    assert(words.contains(words[k - 1]));
    if k == 1 {
        assert(running(words, breaks, 0) + words[0] == words[0]);
    } else if !breaks[k - 1] {
        assert(decided(line_width, flags, words, indent, max_line_length, breaks, k - 1));
    }
}

proof fn lemma_finished_fit<F: Fn(&str, &str) -> usize>(
    line_width: F,
    flags: LiteralFlags,
    words: Seq<Seq<char>>,
    indent: Seq<char>,
    max_line_length: usize,
    breaks: Seq<bool>,
    k: int,
    i: int,
)
    requires
        greedy_breaks(line_width, flags, words, indent, max_line_length, breaks),
        0 <= k <= words.len(),
        0 <= i < finished(words, breaks, k).len(),
    ensures
        words.contains(finished(words, breaks, k)[i]) || exists|width: usize|
            width <= max_line_length && #[trigger] may_measure(
                line_width,
                indent,
                literal_source(finished(words, breaks, k)[i], flags),
                width,
            ),
    decreases k,
{
    if i < finished(words, breaks, k - 1).len() {
        lemma_finished_fit(line_width, flags, words, indent, max_line_length, breaks, k - 1, i);
    } else {
        assert(k >= 2);
        lemma_running_fits(line_width, flags, words, indent, max_line_length, breaks, k - 1);
    }
}

/// Some line made of `indent` and `literal` measures `width`.
pub open spec fn measures<F: Fn(&str, &str) -> usize>(
    line_width: F,
    indent: Seq<char>,
    literal: Seq<char>,
    width: usize,
) -> bool {
    exists|at: &str, text: &str|
        at@ == indent && text@ == literal && #[trigger] call_ensures(line_width, (at, text), width)
}

/// The text holds no space but one that it may end with.
pub open spec fn is_one_word(text: Seq<char>) -> bool {
    forall|i: int| 0 <= i < text.len() - 1 ==> #[trigger] text[i] != ' '
}

/// `text` begins with `word` and goes on, if it does, behind the only space of `word`.
pub open spec fn begins_with_word(text: Seq<char>, word: Seq<char>) -> bool {
    &&& word.len() > 0
    &&& is_one_word(word)
    &&& word.is_prefix_of(text)
    &&& word == text || word.last() == ' '
}

/// `pieces` are the literals of `texts`, which one after the other are `content`. Each text but the
/// last ends with a space. Each piece measures at most `max_line_length` at `indent` unless its text
/// is one word. No text could have taken the first word of the next: with it the line measures more.
pub open spec fn wraps_into<F: Fn(&str, &str) -> usize>(
    line_width: F,
    flags: LiteralFlags,
    content: Seq<char>,
    indent: Seq<char>,
    max_line_length: usize,
    texts: Seq<Seq<char>>,
    pieces: Seq<String>,
) -> bool {
    &&& texts.len() > 0
    &&& pieces.len() == texts.len()
    &&& texts.flatten() == content
    &&& forall|i: int|
        0 <= i < texts.len() ==> (#[trigger] pieces[i])@ == literal_source(texts[i], flags)
    &&& forall|i: int|
        0 <= i < texts.len() - 1 ==> (#[trigger] texts[i]).len() > 0 && texts[i].last() == ' '
    &&& forall|i: int|
        0 <= i < texts.len() ==> is_one_word(#[trigger] texts[i]) || exists|width: usize|
            width <= max_line_length && #[trigger] measures(
                line_width,
                indent,
                pieces[i]@,
                width,
            )
    &&& forall|i: int|
        0 <= i < texts.len() - 1 ==> overflows(
            line_width,
            flags,
            indent,
            max_line_length,
            #[trigger] texts[i],
            texts[i + 1],
        )
}

/// A line with the first word of `next` behind `text` measures more than `max_line_length`.
pub open spec fn overflows<F: Fn(&str, &str) -> usize>(
    line_width: F,
    flags: LiteralFlags,
    indent: Seq<char>,
    max_line_length: usize,
    text: Seq<char>,
    next: Seq<char>,
) -> bool {
    exists|word: Seq<char>, width: usize| #[trigger]
        begins_with_word(next, word) && width > max_line_length && #[trigger] measures(
            line_width,
            indent,
            literal_source(text + word, flags),
            width,
        )
}

/// The pieces of a wrapping are the literals of texts that rejoin to the content, break only after
/// spaces, fit unless they are a single word, and are filled as far as they can be.
pub proof fn law_pieces_wrap_the_content<F: Fn(&str, &str) -> usize>(
    line_width: F,
    flags: LiteralFlags,
    content: Seq<char>,
    indent: Seq<char>,
    max_line_length: usize,
    breaks: Seq<bool>,
    pieces: Seq<String>,
)
    requires
        is_wrapping(line_width, flags, content, indent, max_line_length, breaks, pieces),
    ensures
        exists|texts: Seq<Seq<char>>| #[trigger]
            wraps_into(line_width, flags, content, indent, max_line_length, texts, pieces),
{
    let words = words_of(content);
    let texts = chunks(words, breaks);
    law_pieces_rejoin(content, breaks);
    lemma_joined_flattens(texts);
    assert forall|i: int| 0 <= i < texts.len() - 1 implies (#[trigger] texts[i]).len() > 0
        && texts[i].last() == ' ' by {
        law_pieces_break_after_spaces(content, breaks, i);
    }
    assert forall|i: int| 0 <= i < texts.len() implies is_one_word(#[trigger] texts[i]) || exists|
        width: usize,
    |
        width <= max_line_length && #[trigger] measures(
            line_width,
            indent,
            pieces[i]@,
            width,
        ) by {
        if content.len() == 0 {
            assert(words.len() == 0);
            assert(texts[i].len() == 0);
        } else {
            law_pieces_fit(line_width, flags, content, indent, max_line_length, breaks, i);
            if words.contains(texts[i]) {
                let k = choose|k: int| 0 <= k < words.len() && words[k] == texts[i];
                lemma_word_shape(content, k);
                assert forall|j: int| 0 <= j < texts[i].len() - 1 implies #[trigger] texts[i][j]
                    != ' ' by {
                    assert(words_of(content)[k][j] != ' ');
                }
            } else {
                let width = choose|width: usize|
                    width <= max_line_length && #[trigger] may_measure(
                        line_width,
                        indent,
                        literal_source(texts[i], flags),
                        width,
                    );
                assert(measures(line_width, indent, pieces[i]@, width));
            }
        }
    }
    assert forall|i: int| 0 <= i < texts.len() - 1 implies overflows(
        line_width,
        flags,
        indent,
        max_line_length,
        #[trigger] texts[i],
        texts[i + 1],
    ) by {
        law_pieces_are_filled_greedily(
            line_width,
            flags,
            content,
            indent,
            max_line_length,
            breaks,
            i,
        );
        let (k, width) = choose|k: int, width: usize|
            0 <= k < words_of(content).len() && words_of(texts[i + 1])[0]
                == #[trigger] words_of(content)[k] && width > max_line_length
                && #[trigger] may_measure(
                line_width,
                indent,
                literal_source(texts[i] + words_of(content)[k], flags),
                width,
            );
        let next = texts[i + 1];
        let word = words_of(content)[k];
        lemma_text_not_empty(content, breaks, words.len() as int, i + 1);
        lemma_first_word_of(next);
        assert(begins_with_word(next, word));
        assert(measures(line_width, indent, literal_source(texts[i] + word, flags), width));
    }
    assert(wraps_into(line_width, flags, content, indent, max_line_length, texts, pieces));
}

/// A text is empty only where the content is.
proof fn lemma_text_not_empty(content: Seq<char>, breaks: Seq<bool>, n: int, i: int)
    requires
        breaks.len() == words_of(content).len(),
        n == words_of(content).len(),
        n > 0 ==> !breaks[0],
        0 < i < chunks(words_of(content), breaks).len(),
    ensures
        chunks(words_of(content), breaks)[i].len() > 0,
{
    let words = words_of(content);
    if i < finished(words, breaks, n).len() {
        lemma_finished_end_with_space(content, breaks, n, i);
    } else {
        if n == 0 {
            assert(finished(words, breaks, n).len() == 0);
        }
        lemma_words_not_empty(content, n - 1);
        assert(running(words, breaks, n).len() >= words[n - 1].len());
    }
}

/// The first word of a text begins it.
proof fn lemma_first_word_of(text: Seq<char>)
    requires
        text.len() > 0,
    ensures
        words_of(text).len() > 0,
        begins_with_word(text, words_of(text)[0]),
{
    lemma_first_word_len(text);
    lemma_first_word_shape(text);
    let n = first_word_len(text);
    let word = words_of(text)[0];
    assert(word == text.take(n));
    assert(text.take(n) == text.subrange(0, n));
    if n < text.len() {
        lemma_first_word_ends(text);
    } else {
        assert(word == text);
    }
}

proof fn lemma_joined_flattens(parts: Seq<Seq<char>>)
    ensures
        joined(parts) == parts.flatten(),
{
    lemma_joined_flattens_alt(parts);
    parts.lemma_flatten_and_flatten_alt_are_equivalent();
}

proof fn lemma_joined_flattens_alt(parts: Seq<Seq<char>>)
    ensures
        joined(parts) == parts.flatten_alt(),
    decreases parts.len(),
{
    if parts.len() > 0 {
        lemma_joined_flattens_alt(parts.drop_last());
    }
}

/// The words of a content are the content cut right after each of its spaces: one after the other
/// they are the content, none is empty, none holds a space but the one that it ends with, and each
/// but the last ends with one.
pub proof fn law_words_are_cut_after_each_space(content: Seq<char>, k: int)
    requires
        0 <= k < words_of(content).len(),
    ensures
        words_of(content).flatten() == content,
        words_of(content)[k].len() > 0,
        is_one_word(words_of(content)[k]),
        k < words_of(content).len() - 1 ==> words_of(content)[k].last() == ' ',
{
    lemma_words_join(content);
    lemma_joined_flattens(words_of(content));
    lemma_words_not_empty(content, k);
    lemma_word_shape(content, k);
    let word = words_of(content)[k];
    assert forall|i: int| 0 <= i < word.len() - 1 implies #[trigger] word[i] != ' ' by {
        assert(words_of(content)[k][i] != ' ');
    }
}

/// Content without a space but a last one is a single piece, whatever the limit is.
pub proof fn law_one_word_is_one_piece<F: Fn(&str, &str) -> usize>(
    line_width: F,
    flags: LiteralFlags,
    content: Seq<char>,
    indent: Seq<char>,
    max_line_length: usize,
    breaks: Seq<bool>,
    pieces: Seq<String>,
)
    requires
        is_wrapping(line_width, flags, content, indent, max_line_length, breaks, pieces),
        is_one_word(content),
    ensures
        pieces.len() == 1,
        pieces[0]@ == literal_source(content, flags),
{
    let words = words_of(content);
    let texts = chunks(words, breaks);
    if content.len() == 0 {
        assert(texts[0] == content);
    } else {
        let n = content.len() as int;
        if content[n - 1] == ' ' {
            lemma_first_word_at(content, n - 1);
        } else {
            lemma_first_word_at(content, n);
        }
        assert(content.take(n) == content);
        assert(content.skip(n).len() == 0);
        assert(words_of(content.skip(n)) == Seq::<Seq<char>>::empty());
        assert(words == seq![content]);
        assert(running(words, breaks, 0) + words[0] == words[0]);
        assert(finished(words, breaks, 0).len() == 0);
        assert(finished(words, breaks, 1).len() == 0);
        assert(running(words, breaks, 1) == content);
        assert(texts[0] == content);
    }
}

} // verus!
