//! Strings, source ranges and edits.

use vstd::prelude::*;

verus! {

/// The texts that the slices hold.
pub open spec fn texts(slices: Seq<&str>) -> Seq<Seq<char>> {
    slices.map_values(|slice: &str| slice@)
}

/// `name` is one of `names`.
pub open spec fn lists(names: Seq<&str>, name: Seq<char>) -> bool {
    exists|i: int| 0 <= i < names.len() && (#[trigger] names[i])@ == name
}

/// Whether `a` and `b` hold the same characters.
pub(crate) fn same_text(a: &str, b: &str) -> (same: bool)
    ensures
        same == (a@ == b@),
{
    let mut left = a.chars();
    let mut right = b.chars();
    let ghost mut k: int = 0;
    assert(a@.skip(0) == a@);
    assert(b@.skip(0) == b@);
    loop
        invariant
            0 <= k <= a@.len(),
            k <= b@.len(),
            vstd::std_specs::iter::IteratorSpec::remaining(&left) == a@.skip(k),
            vstd::std_specs::iter::IteratorSpec::remaining(&right) == b@.skip(k),
            vstd::std_specs::iter::IteratorSpec::obeys_prophetic_iter_laws(&left),
            vstd::std_specs::iter::IteratorSpec::obeys_prophetic_iter_laws(&right),
            a@.take(k) == b@.take(k),
        decreases a@.len() - k,
    {
        match (left.next(), right.next()) {
            (Some(c), Some(d)) => {
                if c != d {
                    assert(a@[k] != b@[k]);
                    return false;
                }
                assert(a@.take(k + 1) == a@.take(k).push(c));
                assert(b@.take(k + 1) == b@.take(k).push(d));
                assert(a@.skip(k).drop_first() == a@.skip(k + 1));
                assert(b@.skip(k).drop_first() == b@.skip(k + 1));
                proof {
                    k = k + 1;
                }
            },
            (None, None) => {
                assert(a@.take(k) == a@);
                assert(b@.take(k) == b@);
                return true;
            },
            _ => {
                assert(a@.len() != b@.len());
                return false;
            },
        }
    }
}

/// Whether `text` begins with `prefix`.
pub(crate) fn text_starts_with(text: &str, prefix: &str) -> (begins: bool)
    ensures
        begins == prefix@.is_prefix_of(text@),
{
    let mut left = text.chars();
    let mut right = prefix.chars();
    let ghost mut k: int = 0;
    assert(text@.skip(0) == text@);
    assert(prefix@.skip(0) == prefix@);
    loop
        invariant
            0 <= k <= prefix@.len(),
            k <= text@.len(),
            vstd::std_specs::iter::IteratorSpec::remaining(&left) == text@.skip(k),
            vstd::std_specs::iter::IteratorSpec::remaining(&right) == prefix@.skip(k),
            vstd::std_specs::iter::IteratorSpec::obeys_prophetic_iter_laws(&left),
            vstd::std_specs::iter::IteratorSpec::obeys_prophetic_iter_laws(&right),
            forall|i: int| 0 <= i < k ==> text@[i] == prefix@[i],
        decreases prefix@.len() - k,
    {
        match right.next() {
            None => {
                assert(prefix@ =~= text@.subrange(0, prefix@.len() as int));
                return true;
            },
            Some(wanted) => {
                assert(prefix@[k] == wanted);
                match left.next() {
                    Some(found) => {
                        assert(text@[k] == found);
                        if found != wanted {
                            assert(prefix@.len() <= text@.len() ==> text@.subrange(
                                0,
                                prefix@.len() as int,
                            )[k] == text@[k]);
                            return false;
                        }
                    },
                    None => {
                        return false;
                    },
                }
                assert(text@.skip(k).drop_first() == text@.skip(k + 1));
                assert(prefix@.skip(k).drop_first() == prefix@.skip(k + 1));
                proof {
                    k = k + 1;
                }
            },
        }
    }
}

/// Whether `name` is one of `names`.
pub(crate) fn is_listed(names: &[&str], name: &str) -> (listed: bool)
    ensures
        listed == lists(names@, name@),
{
    let mut i: usize = 0;
    while i < names.len()
        invariant
            0 <= i <= names@.len(),
            forall|j: int| 0 <= j < i ==> (#[trigger] names@[j])@ != name@,
        decreases names@.len() - i,
    {
        if same_text(names[i], name) {
            return true;
        }
        i += 1;
    }
    false
}

/// A half-open range of byte offsets into a source text.
#[derive(Clone, Copy, Debug, PartialEq, Eq, Structural)]
pub struct TextRange {
    pub start: u32,
    pub end: u32,
}

impl TextRange {
    /// The range does not end before it starts.
    pub open spec fn wf(self) -> bool {
        self.start <= self.end
    }

    /// `self` and `other` have no byte in common.
    pub open spec fn apart_from(self, other: TextRange) -> bool {
        self.end <= other.start || other.end <= self.start
    }

    /// The range from `start` up to `end`.
    pub fn new(start: u32, end: u32) -> (range: TextRange)
        requires
            start <= end,
        ensures
            range.start == start,
            range.end == end,
            range.wf(),
    {
        TextRange { start, end }
    }

    /// The range of `len` bytes that starts at `offset`.
    pub fn at(offset: u32, len: u32) -> (range: TextRange)
        requires
            offset + len <= u32::MAX,
        ensures
            range.start == offset,
            range.end == offset + len,
            range.wf(),
    {
        TextRange::new(offset, offset + len)
    }
}

/// A change to the source text: the bytes of `range` give way to `content`, or to nothing.
#[derive(Debug)]
pub struct Edit {
    pub range: TextRange,
    pub content: Option<String>,
}

impl Edit {
    /// The edit removes the bytes from `start` up to `end` and inserts nothing.
    pub open spec fn deletes(self, start: int, end: int) -> bool {
        &&& self.range.start == start
        &&& self.range.end == end
        &&& self.content is None
    }

    /// The edit puts `content` in the place of `range`.
    pub open spec fn replaces(self, range: TextRange, content: Seq<char>) -> bool {
        &&& self.range == range
        &&& self.content is Some
        &&& self.content->0@ == content
    }

    /// Removes the bytes from `start` up to `end`.
    pub fn deletion(start: u32, end: u32) -> (edit: Edit)
        requires
            start <= end,
        ensures
            edit.deletes(start as int, end as int),
            edit.range.wf(),
    {
        Edit { range: TextRange::new(start, end), content: None }
    }

    /// Puts `content` in the place of `range`.
    pub fn range_replacement(content: String, range: TextRange) -> (edit: Edit)
        ensures
            edit.replaces(range, content@),
    {
        Edit { range, content: Some(content) }
    }
}

/// The texts are those of the slices, in their order, and a list of names holds exactly the names
/// that were put in.
pub proof fn law_lists_hold_what_is_in_them(slices: Seq<&str>, slice: &str, name: Seq<char>)
    ensures
        texts(slices).len() == slices.len(),
        texts(slices.push(slice)) == texts(slices).push(slice@),
        lists(slices.push(slice), name) <==> lists(slices, name) || slice@ == name,
        !lists(Seq::empty(), name),
{
    let longer = slices.push(slice);
    assert(longer[slices.len() as int] == slice);
    if lists(slices, name) {
        let i = choose|i: int| 0 <= i < slices.len() && (#[trigger] slices[i])@ == name;
        assert(longer[i]@ == name);
    }
    if lists(longer, name) {
        let i = choose|i: int| 0 <= i < longer.len() && (#[trigger] longer[i])@ == name;
        if i < slices.len() {
            assert(slices[i]@ == name);
        }
    }
}

/// A deletion puts nothing in the place of its range, a replacement its content.
pub proof fn law_edits_are_told_apart(edit: Edit, start: int, end: int, content: Seq<char>)
    ensures
        edit.deletes(start, end) ==> edit.content is None && edit.range.start == start
            && edit.range.end == end,
        edit.replaces(edit.range, content) ==> (edit.content matches Some(found) && found@
            == content),
        !(edit.deletes(start, end) && edit.replaces(edit.range, content)),
{
}

} // verus!
