//! Lines of text and the containers they are handed around in.

use vstd::prelude::*;

use compact_str::CompactString;
use smallvec::SmallVec;

use crate::bytes::{byte_len, char_pos, on_boundary};
use crate::color::Color;
use crate::text::{chars_of, string_of};

verus! {

/// A string whose contents are stored inline while they are short.
#[verifier::external_body]
pub struct CompactText {
    inner: CompactString,
}

/// The characters that a [`CompactText`] holds.
pub uninterp spec fn compact_chars(s: CompactText) -> Seq<char>;

impl View for CompactText {
    type V = Seq<char>;

    open spec fn view(&self) -> Seq<char> {
        compact_chars(*self)
    }
}

impl CompactText {
    /// `CompactString::new` of compact_str: holds the characters of `text`.
    #[verifier::external_body]
    pub(crate) fn new(text: &str) -> (r: CompactText)
        ensures
            compact_chars(r) == text@,
    {
        CompactText { inner: CompactString::new(text) }
    }

    /// `CompactString::as_str` of compact_str: the characters held.
    #[verifier::external_body]
    pub(crate) fn as_str(&self) -> (r: &str)
        ensures
            r@ == compact_chars(*self),
    {
        self.inner.as_str()
    }

    /// `CompactString::push_str` of compact_str: appends the characters of
    /// `text`.
    #[verifier::external_body]
    pub(crate) fn push_str(&mut self, text: &str)
        ensures
            compact_chars(*final(self)) == compact_chars(*old(self)) + text@,
    {
        self.inner.push_str(text)
    }

    /// `CompactString::clear` of compact_str: removes all contents.
    #[verifier::external_body]
    pub(crate) fn clear(&mut self)
        ensures
            compact_chars(*final(self)) == Seq::<char>::empty(),
    {
        self.inner.clear()
    }

    /// `CompactString::insert` of compact_str: puts a character at a byte
    /// offset, which must be a character boundary.
    #[verifier::external_body]
    pub(crate) fn insert(&mut self, idx: usize, ch: char)
        requires
            on_boundary(compact_chars(*old(self)), idx as nat),
        ensures
            compact_chars(*final(self)) == compact_chars(*old(self)).insert(
                char_pos(compact_chars(*old(self)), idx as nat),
                ch,
            ),
    {
        self.inner.insert(idx, ch)
    }

    /// `CompactString::remove` of compact_str: takes out the character at a byte
    /// offset, which must be a character boundary before the end.
    #[verifier::external_body]
    pub(crate) fn remove(&mut self, idx: usize) -> (r: char)
        requires
            on_boundary(compact_chars(*old(self)), idx as nat),
            idx < byte_len(compact_chars(*old(self))),
        ensures
            r == compact_chars(*old(self))[char_pos(compact_chars(*old(self)), idx as nat)],
            compact_chars(*final(self)) == compact_chars(*old(self)).remove(
                char_pos(compact_chars(*old(self)), idx as nat),
            ),
    {
        self.inner.remove(idx)
    }
}

impl CompactText {
    /// Holds the characters of `text`.
    pub fn of(text: &str) -> (r: CompactText)
        ensures
            r@ == text@,
    {
        CompactText::new(text)
    }

    /// The characters held.
    pub fn text(&self) -> (r: &str)
        ensures
            r@ == self@,
    {
        self.as_str()
    }
}

/// The lines a text was broken into, the first few stored inline.
#[verifier::external_body]
pub struct WrappedLines {
    lines: SmallVec<[CompactText; 4]>,
}

/// The lines that a [`WrappedLines`] holds.
pub uninterp spec fn wrapped(w: WrappedLines) -> Seq<Seq<char>>;

impl WrappedLines {
    /// `SmallVec::new` of smallvec: holds nothing.
    #[verifier::external_body]
    pub(crate) fn new() -> (r: WrappedLines)
        ensures
            wrapped(r) == Seq::<Seq<char>>::empty(),
    {
        WrappedLines { lines: SmallVec::new() }
    }

    /// `SmallVec::push` of smallvec: appends one item.
    #[verifier::external_body]
    pub(crate) fn push(&mut self, line: CompactText)
        ensures
            wrapped(*final(self)) == wrapped(*old(self)).push(line@),
    {
        self.lines.push(line)
    }

    /// `SmallVec::len` of smallvec: the number of items.
    #[verifier::external_body]
    pub(crate) fn count(&self) -> (r: usize)
        ensures
            r == wrapped(*self).len(),
    {
        self.lines.len()
    }

    /// Indexing of smallvec: the item at position `i`.
    #[verifier::external_body]
    pub(crate) fn get(&self, i: usize) -> (r: &CompactText)
        requires
            i < wrapped(*self).len(),
        ensures
            r@ == wrapped(*self)[i as int],
    {
        &self.lines[i]
    }
}

impl WrappedLines {
    /// Number of lines.
    pub fn len(&self) -> (r: usize)
        ensures
            r == wrapped(*self).len(),
    {
        self.count()
    }

    /// The text of line `i`.
    pub fn line(&self, i: usize) -> (r: &str)
        requires
            i < wrapped(*self).len(),
        ensures
            r@ == wrapped(*self)[i as int],
    {
        self.get(i).as_str()
    }
}

/// One row of laid-out text in one color.
pub struct LineEntry {
    pub text: CompactText,
    pub color: Color,
}

/// What a [`LineEntry`] holds.
pub struct LineView {
    pub text: Seq<char>,
    pub color: Color,
}

impl View for LineEntry {
    type V = LineView;

    open spec fn view(&self) -> LineView {
        LineView { text: self.text@, color: self.color }
    }
}

/// The views of a list of lines.
pub open spec fn line_views(v: Seq<LineEntry>) -> Seq<LineView> {
    v.map_values(|l: LineEntry| l@)
}

/// The line with the given text and color.
pub open spec fn line(text: Seq<char>, color: Color) -> LineView {
    LineView { text, color }
}

/// The given texts, each as a line in `color`.
pub open spec fn colored(texts: Seq<Seq<char>>, color: Color) -> Seq<LineView> {
    texts.map_values(|t: Seq<char>| line(t, color))
}

impl LineEntry {
    /// The line with the given text and color.
    pub fn new(text: &str, color: Color) -> (r: LineEntry)
        ensures
            r@ == line(text@, color),
    {
        LineEntry { text: CompactText::new(text), color }
    }

    /// The line with the given characters and color.
    pub fn of_chars(text: &Vec<char>, color: Color) -> (r: LineEntry)
        ensures
            r@ == line(text@, color),
    {
        let s = string_of(text);
        LineEntry::new(s.as_str(), color)
    }

    /// The text of the line.
    pub fn as_str(&self) -> (r: &str)
        ensures
            r@ == self@.text,
    {
        self.text.as_str()
    }

    /// The characters of the line.
    pub fn chars(&self) -> (r: Vec<char>)
        ensures
            r@ == self@.text,
    {
        chars_of(self.text.as_str())
    }

    /// A copy of the line.
    pub fn copy(&self) -> (r: LineEntry)
        ensures
            r@ == self@,
    {
        LineEntry::new(self.text.as_str(), self.color)
    }
}

/// Appends one line.
pub fn push_line(out: &mut Vec<LineEntry>, entry: LineEntry)
    ensures
        line_views(final(out)@) == line_views(old(out)@).push(entry@),
{
    out.push(entry);
    assert(line_views(out@) =~= line_views(old(out)@).push(entry@));
}

/// Appends the wrapped lines in `color`.
pub fn push_wrapped(out: &mut Vec<LineEntry>, lines: &WrappedLines, color: Color)
    ensures
        line_views(final(out)@) == line_views(old(out)@) + colored(wrapped(*lines), color),
{
    let n: usize = lines.count();
    let ghost ls = wrapped(*lines);
    assert(line_views(old(out)@) + colored(ls.take(0), color) =~= line_views(old(out)@));
    for i in 0..n
        invariant
            n == ls.len(),
            ls == wrapped(*lines),
            line_views(out@) == line_views(old(out)@) + colored(ls.take(i as int), color),
    {
        push_line(out, LineEntry::new(lines.line(i), color));
        assert((line_views(old(out)@) + colored(ls.take(i as int), color)).push(
            line(ls[i as int], color),
        ) =~= line_views(old(out)@) + colored(ls.take(i + 1), color));
    }
    assert(ls.take(n as int) =~= ls);
}

/// Appends all lines of `src`.
pub fn extend_lines(out: &mut Vec<LineEntry>, src: &Vec<LineEntry>)
    ensures
        line_views(final(out)@) == line_views(old(out)@) + line_views(src@),
{
    let n: usize = src.len();
    let ghost ls = line_views(src@);
    assert(line_views(old(out)@) + ls.take(0) =~= line_views(old(out)@));
    for i in 0..n
        invariant
            n == src@.len(),
            ls == line_views(src@),
            line_views(out@) == line_views(old(out)@) + ls.take(i as int),
    {
        push_line(out, src[i].copy());
        assert((line_views(old(out)@) + ls.take(i as int)).push(ls[i as int]) =~= line_views(
            old(out)@,
        ) + ls.take(i + 1));
    }
    assert(ls.take(n as int) =~= ls);
}

/// A copy of a list of lines.
pub fn copy_lines(src: &Vec<LineEntry>) -> (r: Vec<LineEntry>)
    ensures
        line_views(r@) == line_views(src@),
{
    let mut r: Vec<LineEntry> = Vec::new();
    extend_lines(&mut r, src);
    assert(line_views(r@) =~= line_views(src@));
    r
}

} // verus!
