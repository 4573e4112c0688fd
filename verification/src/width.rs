//! Display width of characters in terminal columns.

use vstd::prelude::*;

use crate::text::chars_of;

verus! {

/// Code points `first..=last`.
#[derive(Clone, Copy, Debug)]
pub struct CharRange {
    pub first: u32,
    pub last: u32,
}

/// How many columns each character takes: a printable ASCII character takes
/// one, a character of `zero` none, a character of `wide` two, and every other
/// character one.
pub struct CharWidths {
    pub zero: Vec<CharRange>,
    pub wide: Vec<CharRange>,
}

/// The contents of a [`CharWidths`].
pub struct WidthTable {
    pub zero: Seq<CharRange>,
    pub wide: Seq<CharRange>,
}

impl View for CharWidths {
    type V = WidthTable;

    open spec fn view(&self) -> WidthTable {
        WidthTable { zero: self.zero@, wide: self.wide@ }
    }
}

/// Whether one of the ranges holds `c`.
pub open spec fn in_ranges(ranges: Seq<CharRange>, c: char) -> bool {
    exists|i: int|
        0 <= i < ranges.len() && (#[trigger] ranges[i]).first <= c as u32 <= ranges[i].last
}

/// Columns that `c` takes.
pub open spec fn char_width(t: WidthTable, c: char) -> nat {
    if ' ' <= c <= '~' {
        1
    } else if in_ranges(t.zero, c) {
        0
    } else if in_ranges(t.wide, c) {
        2
    } else {
        1
    }
}

/// Columns that the characters of `s` take together.
pub open spec fn text_width(t: WidthTable, s: Seq<char>) -> nat
    decreases s.len(),
{
    if s.len() == 0 {
        0
    } else {
        text_width(t, s.drop_last()) + char_width(t, s.last())
    }
}

/// The width of a concatenation is the sum of the widths.
pub proof fn lemma_width_concat(t: WidthTable, a: Seq<char>, b: Seq<char>)
    ensures
        text_width(t, a + b) == text_width(t, a) + text_width(t, b),
    decreases b.len(),
{
    if b.len() == 0 {
        assert(a + b =~= a);
    } else {
        assert((a + b).drop_last() =~= a + b.drop_last());
        lemma_width_concat(t, a, b.drop_last());
    }
}

/// The width of a text with one more character.
pub proof fn lemma_width_push(t: WidthTable, a: Seq<char>, c: char)
    ensures
        text_width(t, a.push(c)) == text_width(t, a) + char_width(t, c),
{
    assert(a.push(c).drop_last() =~= a);
}

/// No text is wider than two columns a character.
pub proof fn lemma_width_bound(t: WidthTable, s: Seq<char>)
    ensures
        text_width(t, s) <= 2 * s.len(),
    decreases s.len(),
{
    if s.len() > 0 {
        lemma_width_bound(t, s.drop_last());
    }
}

/// Dropping characters at the end of a text does not widen it.
pub proof fn lemma_width_prefix(t: WidthTable, s: Seq<char>, n: int)
    requires
        0 <= n <= s.len(),
    ensures
        text_width(t, s.take(n)) <= text_width(t, s),
{
    assert(s.take(n) + s.skip(n) =~= s);
    lemma_width_concat(t, s.take(n), s.skip(n));
}

/// Whether every character of `s` is a printable ASCII character.
pub open spec fn printable(s: Seq<char>) -> bool {
    forall|i: int| 0 <= i < s.len() ==> ' ' <= #[trigger] s[i] <= '~'
}

/// A printable ASCII text takes one column a character.
pub proof fn lemma_printable_width(t: WidthTable, s: Seq<char>)
    requires
        printable(s),
    ensures
        text_width(t, s) == s.len(),
    decreases s.len(),
{
    if s.len() > 0 {
        assert(' ' <= s[s.len() - 1] <= '~');
        assert forall|i: int| 0 <= i < s.len() - 1 implies ' ' <= #[trigger] s.drop_last()[i]
            <= '~' by {
            assert(s.drop_last()[i] == s[i]);
        }
        lemma_printable_width(t, s.drop_last());
    }
}

/// Whether one of the ranges holds `c`.
fn range_holds(ranges: &Vec<CharRange>, c: char) -> (r: bool)
    ensures
        r == in_ranges(ranges@, c),
{
    let n: usize = ranges.len();
    let code: u32 = c as u32;
    for i in 0..n
        invariant
            n == ranges@.len(),
            code == c as u32,
            forall|j: int|
                0 <= j < i ==> !((#[trigger] ranges@[j]).first <= c as u32 <= ranges@[j].last),
    {
        if ranges[i].first <= code && code <= ranges[i].last {
            return true;
        }
    }
    false
}

impl CharWidths {
    /// The table in which every character takes one column.
    pub fn narrow() -> (r: CharWidths)
        ensures
            r@.zero == Seq::<CharRange>::empty(),
            r@.wide == Seq::<CharRange>::empty(),
    {
        CharWidths { zero: Vec::new(), wide: Vec::new() }
    }

    /// Columns that `c` takes.
    pub fn char_display_width(&self, c: char) -> (r: usize)
        ensures
            r == char_width(self@, c),
    {
        if ' ' <= c && c <= '~' {
            1
        } else if range_holds(&self.zero, c) {
            0
        } else if range_holds(&self.wide, c) {
            2
        } else {
            1
        }
    }

    /// Columns that the characters of `v` take. The sum is wide enough for a
    /// text of any length.
    pub fn columns(&self, v: &Vec<char>) -> (r: u128)
        ensures
            r == text_width(self@, v@),
            r <= 2 * usize::MAX,
    {
        let mut sum: u128 = 0;
        let n: usize = v.len();
        assert(v@.take(0) =~= Seq::<char>::empty());
        for i in 0..n
            invariant
                n == v@.len(),
                sum == text_width(self@, v@.take(i as int)),
                sum <= 2 * i,
        {
            assert(v@.take(i + 1).drop_last() =~= v@.take(i as int));
            sum = sum + self.char_display_width(v[i]) as u128;
        }
        assert(v@.take(n as int) =~= v@);
        sum
    }

    /// Columns that `text` takes, or `usize::MAX` where that does not hold the
    /// number.
    pub fn display_width(&self, text: &str) -> (r: usize)
        ensures
            r == if text_width(self@, text@) <= usize::MAX {
                text_width(self@, text@)
            } else {
                usize::MAX as nat
            },
    {
        let w = self.columns(&chars_of(text));
        if w <= usize::MAX as u128 {
            w as usize
        } else {
            usize::MAX
        }
    }
}

} // verus!
