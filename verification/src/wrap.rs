//! Word wrapping.

use vstd::prelude::*;

use crate::line::{wrapped, CompactText, WrappedLines};
use crate::text::{
    append_chars, char_seqs, chars_of, copy_of, is_whitespace, join, lemma_trim_end, string_of,
    trim_end, trim_end_of, whitespace,
};
use crate::width::{
    char_width, lemma_width_concat, lemma_width_prefix, lemma_width_push, printable, text_width,
    CharWidths, WidthTable,
};

verus! {

// ---------------------------------------------------------------------------
// Specification
// ---------------------------------------------------------------------------

/// The words of `s`: maximal pieces that hold whitespace at most as their last
/// character.
pub open spec fn words(s: Seq<char>) -> Seq<Seq<char>>
    decreases s.len(),
{
    if s.len() == 0 {
        Seq::empty()
    } else {
        let before = words(s.drop_last());
        if before.len() == 0 || is_whitespace(before.last().last()) {
            before.push(seq![s.last()])
        } else {
            before.update(before.len() - 1, before.last().push(s.last()))
        }
    }
}

/// Lines already broken off, the line being filled, and its width.
pub struct WrapState {
    pub lines: Seq<Seq<char>>,
    pub line: Seq<char>,
    pub width: nat,
}

/// Nothing laid out yet.
pub open spec fn wrap_start() -> WrapState {
    WrapState { lines: Seq::empty(), line: Seq::empty(), width: 0 }
}

/// Adds one character, on a new line when the current one is not empty and has
/// no room for it.
pub open spec fn break_char(t: WidthTable, max: nat, st: WrapState, c: char) -> WrapState {
    if st.width + char_width(t, c) > max && st.line.len() > 0 {
        WrapState {
            lines: st.lines.push(st.line),
            line: seq![c],
            width: char_width(t, c),
        }
    } else {
        WrapState {
            lines: st.lines,
            line: st.line.push(c),
            width: st.width + char_width(t, c),
        }
    }
}

/// Adds the characters of `s` one by one.
pub open spec fn break_chars(t: WidthTable, max: nat, st: WrapState, s: Seq<char>) -> WrapState
    decreases s.len(),
{
    if s.len() == 0 {
        st
    } else {
        break_char(t, max, break_chars(t, max, st, s.drop_last()), s.last())
    }
}

/// A space after a word that was followed by whitespace.
pub open spec fn after_word(st: WrapState, word: Seq<char>) -> WrapState {
    if is_whitespace(word.last()) {
        WrapState { lines: st.lines, line: st.line.push(' '), width: st.width + 1 }
    } else {
        st
    }
}

/// The current line broken off, without its trailing whitespace.
pub open spec fn flush_line(st: WrapState) -> WrapState {
    WrapState {
        lines: if st.line.len() > 0 {
            st.lines.push(trim_end(st.line))
        } else {
            st.lines
        },
        line: Seq::empty(),
        width: 0,
    }
}

/// Adds one word: on the current line when it fits there, else on a new one,
/// broken between characters when no line can hold it.
pub open spec fn wrap_word(t: WidthTable, max: nat, st: WrapState, word: Seq<char>) -> WrapState {
    let bare = trim_end(word);
    if bare.len() == 0 {
        if 0 < st.width < max {
            WrapState { lines: st.lines, line: st.line.push(' '), width: st.width + 1 }
        } else {
            st
        }
    } else if st.width + text_width(t, word) <= max {
        WrapState {
            lines: st.lines,
            line: st.line + word,
            width: st.width + text_width(t, word),
        }
    } else if st.line.len() > 0 && st.width + 1 + text_width(t, bare) <= max {
        after_word(
            WrapState {
                lines: st.lines,
                line: st.line.push(' ') + bare,
                width: st.width + 1 + text_width(t, bare),
            },
            word,
        )
    } else if text_width(t, bare) > max {
        after_word(break_chars(t, max, flush_line(st), bare), word)
    } else {
        after_word(
            WrapState {
                lines: flush_line(st).lines,
                line: bare,
                width: text_width(t, bare),
            },
            word,
        )
    }
}

/// All words added in order.
pub open spec fn wrap_words(t: WidthTable, max: nat, ws: Seq<Seq<char>>) -> WrapState
    decreases ws.len(),
{
    if ws.len() == 0 {
        wrap_start()
    } else {
        wrap_word(t, max, wrap_words(t, max, ws.drop_last()), ws.last())
    }
}

/// `s` broken into lines of at most `max` columns.
pub open spec fn wrap_text(t: WidthTable, s: Seq<char>, max: nat) -> Seq<Seq<char>> {
    if s.len() == 0 || max == 0 || text_width(t, s) <= max {
        seq![s]
    } else {
        let st = wrap_words(t, max, words(s));
        let rest = trim_end(st.line);
        let lines = if rest.len() > 0 {
            st.lines.push(rest)
        } else {
            st.lines
        };
        if lines.len() == 0 {
            seq![s]
        } else {
            lines
        }
    }
}

// ---------------------------------------------------------------------------
// Laws
// ---------------------------------------------------------------------------

/// The characters of `s` that are not whitespace.
pub open spec fn ink(s: Seq<char>) -> Seq<char>
    decreases s.len(),
{
    if s.len() == 0 {
        Seq::empty()
    } else if is_whitespace(s.last()) {
        ink(s.drop_last())
    } else {
        ink(s.drop_last()).push(s.last())
    }
}

/// The characters of all lines that are not whitespace.
pub open spec fn ink_of_lines(ls: Seq<Seq<char>>) -> Seq<char>
    decreases ls.len(),
{
    if ls.len() == 0 {
        Seq::empty()
    } else {
        ink_of_lines(ls.drop_last()) + ink(ls.last())
    }
}

/// The ink of a text with one more character.
pub proof fn lemma_ink_push(s: Seq<char>, c: char)
    ensures
        ink(s.push(c)) == if is_whitespace(c) {
            ink(s)
        } else {
            ink(s).push(c)
        },
{
    assert(s.push(c).drop_last() =~= s);
}

/// The ink of a concatenation.
pub proof fn lemma_ink_concat(a: Seq<char>, b: Seq<char>)
    ensures
        ink(a + b) == ink(a) + ink(b),
    decreases b.len(),
{
    if b.len() == 0 {
        assert(a + b =~= a);
        assert(ink(a) + ink(b) =~= ink(a));
    } else {
        assert((a + b).drop_last() =~= a + b.drop_last());
        lemma_ink_concat(a, b.drop_last());
        assert((ink(a) + ink(b.drop_last())).push(b.last()) =~= ink(a) + ink(b.drop_last()).push(
            b.last(),
        ));
    }
}

/// Whitespace at the end is no ink.
pub proof fn lemma_ink_trim(s: Seq<char>)
    ensures
        ink(trim_end(s)) == ink(s),
    decreases s.len(),
{
    if s.len() > 0 && is_whitespace(s.last()) {
        lemma_ink_trim(s.drop_last());
    }
}

/// The ink of lines with one more line.
pub proof fn lemma_ink_lines_push(ls: Seq<Seq<char>>, l: Seq<char>)
    ensures
        ink_of_lines(ls.push(l)) == ink_of_lines(ls) + ink(l),
{
    assert(ls.push(l).drop_last() =~= ls);
}

/// The ink of a concatenation of lines.
pub proof fn lemma_ink_of_lines_concat(a: Seq<Seq<char>>, b: Seq<Seq<char>>)
    ensures
        ink_of_lines(a + b) == ink_of_lines(a) + ink_of_lines(b),
    decreases b.len(),
{
    if b.len() == 0 {
        assert(a + b =~= a);
        assert(ink_of_lines(a) + ink_of_lines(b) =~= ink_of_lines(a));
    } else {
        assert((a + b).drop_last() =~= a + b.drop_last());
        lemma_ink_of_lines_concat(a, b.drop_last());
        assert(ink_of_lines(a) + ink_of_lines(b.drop_last()) + ink(b.last()) =~= ink_of_lines(a)
            + ink_of_lines(b));
    }
}

/// The ink laid out so far.
spec fn state_ink(st: WrapState) -> Seq<char> {
    ink_of_lines(st.lines) + ink(st.line)
}

/// Not empty, and without whitespace but for its last character.
spec fn is_word(w: Seq<char>) -> bool {
    &&& w.len() > 0
    &&& forall|i: int| 0 <= i < w.len() - 1 ==> !is_whitespace(#[trigger] w[i])
}

proof fn lemma_words(s: Seq<char>)
    ensures
        ink_of_lines(words(s)) == ink(s),
        forall|i: int| 0 <= i < words(s).len() ==> is_word(#[trigger] words(s)[i]),
    decreases s.len(),
{
    if s.len() > 0 {
        let before = words(s.drop_last());
        lemma_words(s.drop_last());
        if before.len() == 0 || is_whitespace(before.last().last()) {
            lemma_ink_lines_push(before, seq![s.last()]);
            assert(seq![s.last()] =~= Seq::<char>::empty().push(s.last()));
            lemma_ink_push(Seq::empty(), s.last());
            assert(ink(seq![s.last()]) =~= if is_whitespace(s.last()) {
                Seq::empty()
            } else {
                seq![s.last()]
            });
            assert(ink_of_lines(words(s)) =~= ink(s));
        } else {
            let last = before.last().push(s.last());
            assert(words(s) =~= before.drop_last().push(last));
            lemma_ink_lines_push(before.drop_last(), last);
            lemma_ink_push(before.last(), s.last());
            assert(before =~= before.drop_last().push(before.last()));
            assert(ink_of_lines(words(s)) =~= ink(s));
            assert(is_word(before[before.len() - 1]));
            assert forall|i: int| 0 <= i < last.len() - 1 implies !is_whitespace(
                #[trigger] last[i],
            ) by {
                if i < before.last().len() - 1 {
                    assert(last[i] == before.last()[i]);
                }
            }
            assert forall|i: int| 0 <= i < words(s).len() implies is_word(#[trigger] words(s)[i]) by {
                if i < before.len() - 1 {
                    assert(words(s)[i] == before[i]);
                }
            }
        }
    }
}

proof fn lemma_break_char_ink(t: WidthTable, max: nat, st: WrapState, c: char)
    requires
        !is_whitespace(c),
    ensures
        state_ink(break_char(t, max, st, c)) == state_ink(st).push(c),
{
    if st.width + char_width(t, c) > max && st.line.len() > 0 {
        lemma_ink_lines_push(st.lines, st.line);
        lemma_ink_push(Seq::empty(), c);
        assert(seq![c] =~= Seq::<char>::empty().push(c));
    } else {
        lemma_ink_push(st.line, c);
    }
    assert(state_ink(break_char(t, max, st, c)) =~= state_ink(st).push(c));
}

proof fn lemma_break_chars_ink(t: WidthTable, max: nat, st: WrapState, s: Seq<char>)
    requires
        forall|i: int| 0 <= i < s.len() ==> !is_whitespace(#[trigger] s[i]),
    ensures
        state_ink(break_chars(t, max, st, s)) == state_ink(st) + ink(s),
    decreases s.len(),
{
    if s.len() == 0 {
        assert(state_ink(st) + ink(s) =~= state_ink(st));
    } else {
        assert(!is_whitespace(s[s.len() - 1]));
        assert forall|i: int| 0 <= i < s.len() - 1 implies !is_whitespace(
            #[trigger] s.drop_last()[i],
        ) by {
            assert(s.drop_last()[i] == s[i]);
        }
        lemma_break_chars_ink(t, max, st, s.drop_last());
        lemma_break_char_ink(t, max, break_chars(t, max, st, s.drop_last()), s.last());
        assert((state_ink(st) + ink(s.drop_last())).push(s.last()) =~= state_ink(st) + ink(s));
    }
}

proof fn lemma_after_word_ink(st: WrapState, word: Seq<char>)
    ensures
        state_ink(after_word(st, word)) == state_ink(st),
{
    lemma_ink_push(st.line, ' ');
}

proof fn lemma_flush_ink(st: WrapState)
    ensures
        state_ink(flush_line(st)) == state_ink(st),
{
    lemma_ink_trim(st.line);
    lemma_ink_lines_push(st.lines, trim_end(st.line));
    assert(state_ink(flush_line(st)) =~= state_ink(st));
}

/// The whitespace that ends a word is all that trimming it takes away.
proof fn lemma_bare(word: Seq<char>)
    requires
        is_word(word),
    ensures
        ink(trim_end(word)) == ink(word),
        forall|i: int| 0 <= i < trim_end(word).len() ==> !is_whitespace(#[trigger] trim_end(word)[i]),
{
    lemma_ink_trim(word);
    lemma_trim_end(word);
    let bare = trim_end(word);
    assert forall|i: int| 0 <= i < bare.len() implies !is_whitespace(#[trigger] bare[i]) by {
        assert(bare[i] == word[i]);
        if i == word.len() - 1 {
            assert(bare[i] == bare.last());
        }
    }
}

proof fn lemma_wrap_word_ink(t: WidthTable, max: nat, st: WrapState, word: Seq<char>)
    requires
        is_word(word),
    ensures
        state_ink(wrap_word(t, max, st, word)) == state_ink(st) + ink(word),
{
    let bare = trim_end(word);
    lemma_bare(word);
    if bare.len() == 0 {
        lemma_ink_push(st.line, ' ');
        assert(state_ink(st) + ink(word) =~= state_ink(st));
    } else if st.width + text_width(t, word) <= max {
        lemma_ink_concat(st.line, word);
        assert(state_ink(wrap_word(t, max, st, word)) =~= state_ink(st) + ink(word));
    } else if st.line.len() > 0 && st.width + 1 + text_width(t, bare) <= max {
        let next = WrapState {
            lines: st.lines,
            line: st.line.push(' ') + bare,
            width: st.width + 1 + text_width(t, bare),
        };
        lemma_ink_push(st.line, ' ');
        lemma_ink_concat(st.line.push(' '), bare);
        lemma_after_word_ink(next, word);
        assert(state_ink(next) =~= state_ink(st) + ink(word));
    } else if text_width(t, bare) > max {
        lemma_flush_ink(st);
        lemma_break_chars_ink(t, max, flush_line(st), bare);
        lemma_after_word_ink(break_chars(t, max, flush_line(st), bare), word);
    } else {
        let next = WrapState {
            lines: flush_line(st).lines,
            line: bare,
            width: text_width(t, bare),
        };
        lemma_flush_ink(st);
        lemma_after_word_ink(next, word);
        assert(state_ink(next) =~= state_ink(st) + ink(word));
    }
}

proof fn lemma_wrap_words_ink(t: WidthTable, max: nat, ws: Seq<Seq<char>>)
    requires
        forall|i: int| 0 <= i < ws.len() ==> is_word(#[trigger] ws[i]),
    ensures
        state_ink(wrap_words(t, max, ws)) == ink_of_lines(ws),
    decreases ws.len(),
{
    if ws.len() == 0 {
        assert(state_ink(wrap_start()) =~= Seq::<char>::empty());
    } else {
        assert forall|i: int| 0 <= i < ws.len() - 1 implies is_word(#[trigger] ws.drop_last()[i]) by {
            assert(ws.drop_last()[i] == ws[i]);
        }
        assert(is_word(ws[ws.len() - 1]));
        lemma_wrap_words_ink(t, max, ws.drop_last());
        lemma_wrap_word_ink(t, max, wrap_words(t, max, ws.drop_last()), ws.last());
    }
}

/// Wrapping neither loses, adds nor reorders anything but whitespace.
pub proof fn lemma_wrap_keeps_ink(t: WidthTable, s: Seq<char>, max: nat)
    ensures
        ink_of_lines(wrap_text(t, s, max)) == ink(s),
{
    assert(seq![s] =~= Seq::<Seq<char>>::empty().push(s));
    lemma_ink_lines_push(Seq::empty(), s);
    assert(ink_of_lines(Seq::<Seq<char>>::empty()) + ink(s) =~= ink(s));
    if !(s.len() == 0 || max == 0 || text_width(t, s) <= max) {
        let st = wrap_words(t, max, words(s));
        let rest = trim_end(st.line);
        lemma_words(s);
        lemma_wrap_words_ink(t, max, words(s));
        lemma_ink_trim(st.line);
        lemma_ink_lines_push(st.lines, rest);
        if rest.len() == 0 {
            assert(state_ink(st) =~= ink_of_lines(st.lines));
        }
    }
}

/// Wrapping always leaves at least one line.
pub proof fn lemma_wrap_not_empty(t: WidthTable, s: Seq<char>, max: nat)
    ensures
        wrap_text(t, s, max).len() > 0,
{
}

/// Whether a line keeps within `max` columns, or is a single character that
/// no line could hold.
pub open spec fn fits(t: WidthTable, max: nat, l: Seq<char>) -> bool {
    text_width(t, l) <= max || l.len() == 1
}

/// Whether every line fits.
pub open spec fn all_fit(t: WidthTable, max: nat, ls: Seq<Seq<char>>) -> bool {
    forall|i: int| 0 <= i < ls.len() ==> fits(t, max, #[trigger] ls[i])
}

/// All lines so far fit, so does the current one once trimmed, and its width
/// is the one on record.
spec fn state_fits(t: WidthTable, max: nat, st: WrapState) -> bool {
    &&& all_fit(t, max, st.lines)
    &&& st.width == text_width(t, st.line)
    &&& fits(t, max, trim_end(st.line))
}

proof fn lemma_trim_fits(t: WidthTable, max: nat, l: Seq<char>)
    requires
        fits(t, max, l),
    ensures
        fits(t, max, trim_end(l)),
{
    lemma_trim_end(l);
    lemma_width_prefix(t, l, trim_end(l).len() as int);
    if l.len() == 1 && trim_end(l).len() == 1 {
        assert(trim_end(l) =~= l);
    }
}

proof fn lemma_after_word_fits(t: WidthTable, max: nat, st: WrapState, word: Seq<char>)
    requires
        state_fits(t, max, st),
    ensures
        state_fits(t, max, after_word(st, word)),
{
    lemma_width_push(t, st.line, ' ');
    assert(st.line.push(' ').drop_last() =~= st.line);
}

proof fn lemma_break_chars_fit(t: WidthTable, max: nat, st: WrapState, s: Seq<char>)
    requires
        all_fit(t, max, st.lines),
        st.width == text_width(t, st.line),
        fits(t, max, st.line),
    ensures
        all_fit(t, max, break_chars(t, max, st, s).lines),
        break_chars(t, max, st, s).width == text_width(t, break_chars(t, max, st, s).line),
        fits(t, max, break_chars(t, max, st, s).line),
    decreases s.len(),
{
    if s.len() > 0 {
        let before = break_chars(t, max, st, s.drop_last());
        let c = s.last();
        lemma_break_chars_fit(t, max, st, s.drop_last());
        lemma_width_push(t, before.line, c);
        lemma_width_push(t, Seq::empty(), c);
        assert(seq![c] =~= Seq::<char>::empty().push(c));
        if before.line.len() == 0 {
            assert(before.line.push(c).len() == 1);
        }
    }
}

proof fn lemma_wrap_word_fits(t: WidthTable, max: nat, st: WrapState, word: Seq<char>)
    requires
        state_fits(t, max, st),
    ensures
        state_fits(t, max, wrap_word(t, max, st, word)),
{
    let bare = trim_end(word);
    let flushed = flush_line(st);
    assert(text_width(t, Seq::<char>::empty()) == 0);
    if bare.len() == 0 {
        lemma_width_push(t, st.line, ' ');
        assert(st.line.push(' ').drop_last() =~= st.line);
    } else if st.width + text_width(t, word) <= max {
        lemma_width_concat(t, st.line, word);
        lemma_trim_fits(t, max, st.line + word);
    } else if st.line.len() > 0 && st.width + 1 + text_width(t, bare) <= max {
        let next = WrapState {
            lines: st.lines,
            line: st.line.push(' ') + bare,
            width: st.width + 1 + text_width(t, bare),
        };
        lemma_width_push(t, st.line, ' ');
        lemma_width_concat(t, st.line.push(' '), bare);
        lemma_trim_fits(t, max, next.line);
        lemma_after_word_fits(t, max, next, word);
    } else if text_width(t, bare) > max {
        let next = break_chars(t, max, flushed, bare);
        lemma_break_chars_fit(t, max, flushed, bare);
        lemma_trim_fits(t, max, next.line);
        lemma_after_word_fits(t, max, next, word);
    } else {
        let next = WrapState { lines: flushed.lines, line: bare, width: text_width(t, bare) };
        lemma_trim_fits(t, max, next.line);
        lemma_after_word_fits(t, max, next, word);
    }
}

proof fn lemma_wrap_words_fit(t: WidthTable, max: nat, ws: Seq<Seq<char>>)
    ensures
        state_fits(t, max, wrap_words(t, max, ws)),
    decreases ws.len(),
{
    if ws.len() > 0 {
        lemma_wrap_words_fit(t, max, ws.drop_last());
        lemma_wrap_word_fits(t, max, wrap_words(t, max, ws.drop_last()), ws.last());
    }
}

/// No line is wider than `max`, unless it is one character that is wider by
/// itself. Text without anything but whitespace is left as it is.
pub proof fn lemma_wrap_fits(t: WidthTable, s: Seq<char>, max: nat)
    requires
        max > 0,
        ink(s).len() > 0,
    ensures
        all_fit(t, max, wrap_text(t, s, max)),
{
    if !(s.len() == 0 || text_width(t, s) <= max) {
        let st = wrap_words(t, max, words(s));
        lemma_wrap_words_fit(t, max, words(s));
        lemma_words(s);
        lemma_wrap_words_ink(t, max, words(s));
        lemma_ink_trim(st.line);
        if trim_end(st.line).len() == 0 && st.lines.len() == 0 {
            assert(state_ink(st).len() == 0);
        }
    }
}

/// The longest pieces of `s` that hold no whitespace.
pub open spec fn split_whitespace(s: Seq<char>) -> Seq<Seq<char>>
    decreases s.len(),
{
    if s.len() == 0 {
        Seq::empty()
    } else {
        let before = split_whitespace(s.drop_last());
        if is_whitespace(s.last()) {
            before
        } else if s.len() == 1 || is_whitespace(s[s.len() - 2]) {
            before.push(seq![s.last()])
        } else {
            before.update(before.len() - 1, before.last().push(s.last()))
        }
    }
}

/// The pieces without whitespace of all lines, in order.
pub open spec fn split_lines(ls: Seq<Seq<char>>) -> Seq<Seq<char>>
    decreases ls.len(),
{
    if ls.len() == 0 {
        Seq::empty()
    } else {
        split_lines(ls.drop_last()) + split_whitespace(ls.last())
    }
}

/// Whether `s` is a word: not empty, and without whitespace.
pub open spec fn solid(s: Seq<char>) -> bool {
    &&& s.len() > 0
    &&& forall|i: int| 0 <= i < s.len() ==> !is_whitespace(#[trigger] s[i])
}

/// Whether what follows `s` begins a word.
spec fn open_end(s: Seq<char>) -> bool {
    s.len() == 0 || is_whitespace(s.last())
}

proof fn lemma_split_push(s: Seq<char>, c: char)
    ensures
        split_whitespace(s.push(c)) == if is_whitespace(c) {
            split_whitespace(s)
        } else if open_end(s) {
            split_whitespace(s).push(seq![c])
        } else {
            split_whitespace(s).update(
                split_whitespace(s).len() - 1,
                split_whitespace(s).last().push(c),
            )
        },
{
    assert(s.push(c).drop_last() =~= s);
    if s.len() > 0 {
        assert(s.push(c)[s.push(c).len() - 2] == s.last());
    }
}

proof fn lemma_split_some(s: Seq<char>)
    requires
        !open_end(s),
    ensures
        split_whitespace(s).len() > 0,
    decreases s.len(),
{
    let before = s.drop_last();
    assert(s =~= before.push(s.last()));
    lemma_split_push(before, s.last());
    if !open_end(before) {
        lemma_split_some(before);
    }
}

proof fn lemma_split_concat(a: Seq<char>, b: Seq<char>)
    requires
        open_end(a),
    ensures
        split_whitespace(a + b) == split_whitespace(a) + split_whitespace(b),
    decreases b.len(),
{
    if b.len() == 0 {
        assert(a + b =~= a);
        assert(split_whitespace(a) + split_whitespace(b) =~= split_whitespace(a));
    } else {
        let before = b.drop_last();
        let c = b.last();
        lemma_split_concat(a, before);
        assert(b =~= before.push(c));
        assert(a + b =~= (a + before).push(c));
        lemma_split_push(before, c);
        lemma_split_push(a + before, c);
        if before.len() == 0 {
            assert(a + before =~= a);
        } else {
            assert((a + before).last() == before.last());
            if !open_end(before) {
                lemma_split_some(before);
            }
        }
        assert(split_whitespace(a + b) =~= split_whitespace(a) + split_whitespace(b));
    }
}

proof fn lemma_split_trim(s: Seq<char>)
    ensures
        split_whitespace(trim_end(s)) == split_whitespace(s),
    decreases s.len(),
{
    if s.len() > 0 && is_whitespace(s.last()) {
        lemma_split_trim(s.drop_last());
    }
}

proof fn lemma_split_solid(w: Seq<char>)
    requires
        solid(w),
    ensures
        split_whitespace(w) == seq![w],
    decreases w.len(),
{
    let before = w.drop_last();
    let c = w[w.len() - 1];
    assert(w =~= before.push(c));
    lemma_split_push(before, c);
    if before.len() > 0 {
        assert forall|i: int| 0 <= i < before.len() implies !is_whitespace(#[trigger] before[i]) by {
            assert(before[i] == w[i]);
        }
        assert(!is_whitespace(before[before.len() - 1]));
        lemma_split_solid(before);
    } else {
        assert(seq![c] =~= w);
    }
    assert(split_whitespace(w) =~= seq![w]);
}

proof fn lemma_split_lines_push(ls: Seq<Seq<char>>, l: Seq<char>)
    ensures
        split_lines(ls.push(l)) == split_lines(ls) + split_whitespace(l),
{
    assert(ls.push(l).drop_last() =~= ls);
}

proof fn lemma_split_lines_holds(ls: Seq<Seq<char>>, i: int, j: int)
    requires
        0 <= i < ls.len(),
        0 <= j < split_whitespace(ls[i]).len(),
    ensures
        split_lines(ls).contains(split_whitespace(ls[i])[j]),
    decreases ls.len(),
{
    let w = split_whitespace(ls[i])[j];
    let before = split_lines(ls.drop_last());
    if i == ls.len() - 1 {
        assert(split_lines(ls)[before.len() + j] == w);
    } else {
        assert(ls.drop_last()[i] == ls[i]);
        lemma_split_lines_holds(ls.drop_last(), i, j);
        let k = choose|k: int| 0 <= k < before.len() && before[k] == w;
        assert(split_lines(ls)[k] == w);
    }
}

/// The last word ends with the text, and every word before it with whitespace.
proof fn lemma_word_ends(s: Seq<char>)
    ensures
        s.len() > 0 ==> words(s).len() > 0 && words(s).last().len() > 0 && words(s).last().last()
            == s.last(),
        s.len() == 0 ==> words(s).len() == 0,
        forall|i: int| 0 <= i < words(s).len() - 1 ==> is_whitespace((#[trigger] words(s)[i]).last()),
    decreases s.len(),
{
    if s.len() > 0 {
        let before = words(s.drop_last());
        lemma_word_ends(s.drop_last());
        assert forall|i: int| 0 <= i < words(s).len() - 1 implies is_whitespace(
            (#[trigger] words(s)[i]).last(),
        ) by {
            assert(words(s)[i] == before[i]);
        }
    }
}

proof fn lemma_words_split(s: Seq<char>)
    ensures
        split_lines(words(s)) == split_whitespace(s),
    decreases s.len(),
{
    if s.len() > 0 {
        let init = s.drop_last();
        let c = s.last();
        let before = words(init);
        lemma_words_split(init);
        lemma_word_ends(init);
        assert(s =~= init.push(c));
        lemma_split_push(init, c);
        if before.len() == 0 || is_whitespace(before.last().last()) {
            lemma_split_lines_push(before, seq![c]);
            assert(seq![c] =~= Seq::<char>::empty().push(c));
            lemma_split_push(Seq::empty(), c);
        } else {
            let last = before.last().push(c);
            assert(words(s) =~= before.drop_last().push(last));
            lemma_split_lines_push(before.drop_last(), last);
            lemma_split_push(before.last(), c);
            lemma_split_some(before.last());
            assert(before =~= before.drop_last().push(before.last()));
        }
        assert(split_lines(words(s)) =~= split_whitespace(s));
    }
}

/// The pieces without whitespace laid out so far.
spec fn state_split(st: WrapState) -> Seq<Seq<char>> {
    split_lines(st.lines) + split_whitespace(st.line)
}

proof fn lemma_flush_split(st: WrapState)
    ensures
        state_split(flush_line(st)) == state_split(st),
{
    lemma_split_trim(st.line);
    lemma_split_lines_push(st.lines, trim_end(st.line));
    assert(state_split(flush_line(st)) =~= state_split(st));
}

proof fn lemma_after_word_split(st: WrapState, word: Seq<char>)
    ensures
        state_split(after_word(st, word)) == state_split(st),
{
    lemma_split_push(st.line, ' ');
}

/// A word that a line can hold is not broken, nor joined to the one before it.
proof fn lemma_wrap_word_split(t: WidthTable, max: nat, st: WrapState, word: Seq<char>)
    requires
        is_word(word),
        open_end(st.line),
        text_width(t, trim_end(word)) <= max,
    ensures
        state_split(wrap_word(t, max, st, word)) == state_split(st) + split_whitespace(word),
        is_whitespace(word.last()) ==> open_end(wrap_word(t, max, st, word).line),
{
    let bare = trim_end(word);
    let r = wrap_word(t, max, st, word);
    lemma_bare(word);
    lemma_split_trim(word);
    if bare.len() == 0 {
        lemma_split_push(st.line, ' ');
        assert(state_split(st) + split_whitespace(word) =~= state_split(st));
    } else {
        lemma_split_solid(bare);
        if st.width + text_width(t, word) <= max {
            lemma_split_concat(st.line, word);
            assert((st.line + word).last() == word.last());
        } else if st.line.len() > 0 && st.width + 1 + text_width(t, bare) <= max {
            let next = WrapState {
                lines: st.lines,
                line: st.line.push(' ') + bare,
                width: st.width + 1 + text_width(t, bare),
            };
            lemma_split_push(st.line, ' ');
            lemma_split_concat(st.line.push(' '), bare);
            lemma_after_word_split(next, word);
        } else {
            let next = WrapState {
                lines: flush_line(st).lines,
                line: bare,
                width: text_width(t, bare),
            };
            lemma_flush_split(st);
            assert(state_split(flush_line(st)) =~= split_lines(flush_line(st).lines));
            lemma_after_word_split(next, word);
        }
        assert(state_split(r) =~= state_split(st) + split_whitespace(word));
    }
}

proof fn lemma_wrap_words_split(t: WidthTable, max: nat, ws: Seq<Seq<char>>)
    requires
        forall|i: int| 0 <= i < ws.len() ==> is_word(#[trigger] ws[i]),
        forall|i: int| 0 <= i < ws.len() - 1 ==> is_whitespace((#[trigger] ws[i]).last()),
        forall|i: int| 0 <= i < ws.len() ==> text_width(t, trim_end(#[trigger] ws[i])) <= max,
    ensures
        state_split(wrap_words(t, max, ws)) == split_lines(ws),
        ws.len() == 0 || is_whitespace(ws.last().last()) ==> open_end(
            wrap_words(t, max, ws).line,
        ),
    decreases ws.len(),
{
    if ws.len() == 0 {
        assert(state_split(wrap_start()) =~= Seq::<Seq<char>>::empty());
    } else {
        let before = ws.drop_last();
        assert forall|i: int| 0 <= i < before.len() implies is_word(#[trigger] before[i])
            && is_whitespace(before[i].last()) && text_width(t, trim_end(before[i])) <= max by {
            assert(before[i] == ws[i]);
        }
        assert(is_word(ws[ws.len() - 1]));
        lemma_wrap_words_split(t, max, before);
        lemma_wrap_word_split(t, max, wrap_words(t, max, before), ws.last());
    }
}

/// Where every word fits on a line, the words of the lines are the words of the
/// text: none is broken over two lines, and no two are joined to one.
pub proof fn lemma_wrap_keeps_words(t: WidthTable, s: Seq<char>, max: nat)
    requires
        forall|i: int|
            0 <= i < split_whitespace(s).len() ==> text_width(
                t,
                #[trigger] split_whitespace(s)[i],
            ) <= max,
    ensures
        split_lines(wrap_text(t, s, max)) == split_whitespace(s),
{
    assert(seq![s] =~= Seq::<Seq<char>>::empty().push(s));
    lemma_split_lines_push(Seq::empty(), s);
    assert(split_lines(Seq::<Seq<char>>::empty()) + split_whitespace(s) =~= split_whitespace(s));
    if !(s.len() == 0 || max == 0 || text_width(t, s) <= max) {
        let ws = words(s);
        let st = wrap_words(t, max, ws);
        let rest = trim_end(st.line);
        lemma_words(s);
        lemma_word_ends(s);
        lemma_words_split(s);
        assert forall|i: int| 0 <= i < ws.len() implies text_width(t, trim_end(#[trigger] ws[i]))
            <= max by {
            let bare = trim_end(ws[i]);
            lemma_bare(ws[i]);
            if bare.len() > 0 {
                lemma_split_trim(ws[i]);
                lemma_split_solid(bare);
                lemma_split_lines_holds(ws, i, 0);
            }
        }
        lemma_wrap_words_split(t, max, ws);
        lemma_split_trim(st.line);
        lemma_split_lines_push(st.lines, rest);
        if rest.len() == 0 {
            assert(state_split(st) =~= split_lines(st.lines));
        }
    }
}

proof fn lemma_words_concat(a: Seq<char>, b: Seq<char>)
    requires
        open_end(a),
    ensures
        words(a + b) == words(a) + words(b),
    decreases b.len(),
{
    if b.len() == 0 {
        assert(a + b =~= a);
        assert(words(a) + words(b) =~= words(a));
    } else {
        let before = b.drop_last();
        lemma_words_concat(a, before);
        lemma_word_ends(a);
        lemma_word_ends(before);
        assert((a + b).drop_last() =~= a + before);
        if before.len() == 0 {
            assert(a + before =~= a);
        } else {
            assert((words(a) + words(before)).last() == words(before).last());
        }
        assert(words(a + b) =~= words(a) + words(b));
    }
}

proof fn lemma_words_solid(w: Seq<char>)
    requires
        solid(w),
    ensures
        words(w) == seq![w],
    decreases w.len(),
{
    let before = w.drop_last();
    let c = w[w.len() - 1];
    if before.len() > 0 {
        assert forall|i: int| 0 <= i < before.len() implies !is_whitespace(#[trigger] before[i]) by {
            assert(before[i] == w[i]);
        }
        assert(!is_whitespace(before[before.len() - 1]));
        lemma_words_solid(before);
        assert(words(before).last() == before);
        assert(before.push(c) =~= w);
    } else {
        assert(words(before) =~= Seq::<Seq<char>>::empty());
        assert(seq![c] =~= w);
    }
    assert(words(w) =~= seq![w]);
}

/// The words of a joined text: each with the blank behind it.
spec fn blanked(ws: Seq<Seq<char>>) -> Seq<Seq<char>> {
    Seq::new(
        ws.len(),
        |i: int|
            if i < ws.len() - 1 {
                ws[i].push(' ')
            } else {
                ws[i]
            },
    )
}

proof fn lemma_joined(ws: Seq<Seq<char>>)
    requires
        ws.len() > 0,
        forall|i: int| 0 <= i < ws.len() ==> solid(#[trigger] ws[i]),
    ensures
        words(join(ws, ' ')) == blanked(ws),
        neat(join(ws, ' ')),
    decreases ws.len(),
{
    let s = join(ws, ' ');
    let last = ws[ws.len() - 1];
    lemma_words_solid(last);
    assert(!is_whitespace(last[last.len() - 1]));
    if ws.len() == 1 {
        assert(!is_whitespace(last[0]));
        assert(blanked(ws) =~= seq![last]);
    } else {
        let init = ws.drop_last();
        assert forall|i: int| 0 <= i < init.len() implies solid(#[trigger] init[i]) by {
            assert(init[i] == ws[i]);
        }
        lemma_joined(init);
        let j = join(init, ' ');
        assert(j.push(' ').drop_last() =~= j);
        lemma_word_ends(j);
        assert(s =~= j.push(' ') + last);
        lemma_words_concat(j.push(' '), last);
        let all = words(j).update(words(j).len() - 1, words(j).last().push(' '));
        assert(words(j.push(' ')) == all);
        assert(words(s) =~= blanked(ws));
        assert(s[0] == j[0]);
        assert(s.last() == last[last.len() - 1]);
    }
}

/// Whether a line is not empty and has no whitespace at either end.
pub open spec fn neat(l: Seq<char>) -> bool {
    &&& l.len() > 0
    &&& !is_whitespace(l[0])
    &&& !is_whitespace(l.last())
}

/// Whether line `i` had no room to spare for a blank, the first word of the line
/// behind it, and another blank.
pub open spec fn full_at(t: WidthTable, max: nat, ls: Seq<Seq<char>>, i: int) -> bool {
    text_width(t, ls[i]) + 1 + text_width(t, split_whitespace(ls[i + 1])[0]) >= max
}

/// Every line is neat, and no line ends before it has to.
spec fn well_broken(t: WidthTable, max: nat, ls: Seq<Seq<char>>) -> bool {
    &&& forall|i: int| 0 <= i < ls.len() ==> neat(#[trigger] ls[i])
    &&& forall|i: int| 0 <= i < ls.len() - 1 ==> #[trigger] full_at(t, max, ls, i)
}

/// The lines with the one being filled are well broken; `blank` says whether it
/// has a blank at its end.
spec fn state_broken(t: WidthTable, max: nat, st: WrapState, blank: bool) -> bool {
    let rest = trim_end(st.line);
    &&& well_broken(t, max, st.lines.push(rest))
    &&& split_whitespace(rest).len() > 0
    &&& st.width == text_width(t, st.line)
    &&& st.line == if blank {
        rest.push(' ')
    } else {
        rest
    }
}

proof fn lemma_well_broken_last(
    t: WidthTable,
    max: nat,
    ls: Seq<Seq<char>>,
    a: Seq<char>,
    b: Seq<char>,
)
    requires
        well_broken(t, max, ls.push(a)),
        neat(b),
        split_whitespace(a).len() > 0,
        split_whitespace(b).len() > 0,
        split_whitespace(b)[0] == split_whitespace(a)[0],
    ensures
        well_broken(t, max, ls.push(b)),
{
    assert forall|i: int| 0 <= i < ls.len() + 1 implies neat(#[trigger] ls.push(b)[i]) by {
        if i < ls.len() {
            assert(ls.push(a)[i] == ls.push(b)[i]);
        }
    }
    assert forall|i: int| 0 <= i < ls.len() implies #[trigger] full_at(t, max, ls.push(b), i) by {
        assert(full_at(t, max, ls.push(a), i));
    }
}

proof fn lemma_well_broken_next(
    t: WidthTable,
    max: nat,
    ls: Seq<Seq<char>>,
    a: Seq<char>,
    b: Seq<char>,
)
    requires
        well_broken(t, max, ls.push(a)),
        neat(b),
        text_width(t, a) + 1 + text_width(t, split_whitespace(b)[0]) >= max,
    ensures
        well_broken(t, max, ls.push(a).push(b)),
{
    let next = ls.push(a).push(b);
    assert forall|i: int| 0 <= i < next.len() implies neat(#[trigger] next[i]) by {
        if i < next.len() - 1 {
            assert(ls.push(a)[i] == next[i]);
        }
    }
    assert forall|i: int| 0 <= i < next.len() - 1 implies #[trigger] full_at(t, max, next, i) by {
        if i < next.len() - 2 {
            assert(full_at(t, max, ls.push(a), i));
        }
    }
}

/// A word with a blank behind it or not, without that blank.
proof fn lemma_blanked_word(t: WidthTable, w: Seq<char>, blank: bool)
    requires
        solid(w),
    ensures
        ({
            let word = if blank {
                w.push(' ')
            } else {
                w
            };
            &&& trim_end(word) == w
            &&& text_width(t, word) == text_width(t, w) + if blank {
                1nat
            } else {
                0
            }
            &&& is_whitespace(word.last()) == blank
            &&& neat(w)
        }),
{
    assert(!is_whitespace(w[w.len() - 1]));
    assert(!is_whitespace(w[0]));
    assert(w.push(' ').drop_last() =~= w);
    assert(trim_end(w) == w);
    lemma_width_push(t, w, ' ');
}

proof fn lemma_wrap_word_broken(
    t: WidthTable,
    max: nat,
    st: WrapState,
    w: Seq<char>,
    blank: bool,
)
    requires
        st == wrap_start() || state_broken(t, max, st, true),
        solid(w),
        text_width(t, w) <= max,
    ensures
        state_broken(
            t,
            max,
            wrap_word(
                t,
                max,
                st,
                if blank {
                    w.push(' ')
                } else {
                    w
                },
            ),
            blank,
        ),
{
    let word = if blank {
        w.push(' ')
    } else {
        w
    };
    let r = wrap_word(t, max, st, word);
    let rest = trim_end(st.line);
    lemma_blanked_word(t, w, blank);
    lemma_split_solid(w);
    assert(text_width(t, Seq::<char>::empty()) == 0);
    if st == wrap_start() {
        assert(st.line + word =~= word);
        assert(r.line == word && r.lines == st.lines);
        let ls = st.lines.push(w);
        assert forall|i: int| 0 <= i < ls.len() implies neat(#[trigger] ls[i]) by {}
    } else {
        lemma_width_push(t, rest, ' ');
        if st.width + text_width(t, word) <= max {
            let grown = st.line + w;
            lemma_width_concat(t, st.line, word);
            lemma_split_concat(st.line, w);
            lemma_split_push(rest, ' ');
            assert(neat(st.lines.push(rest)[st.lines.len() as int]));
            assert(grown.last() == w.last());
            assert(grown[0] == rest[0]);
            assert(split_whitespace(grown)[0] == split_whitespace(rest)[0]);
            if blank {
                assert(st.line + word =~= grown.push(' '));
                assert(grown.push(' ').drop_last() =~= grown);
            }
            assert(trim_end(grown) == grown);
            assert(trim_end(r.line) == grown);
            lemma_well_broken_last(t, max, st.lines, rest, grown);
        } else {
            assert(r.line == word);
            assert(r.lines == st.lines.push(rest));
            lemma_well_broken_next(t, max, st.lines, rest, w);
        }
    }
}

proof fn lemma_wrap_words_broken(t: WidthTable, max: nat, ws: Seq<Seq<char>>, n: nat)
    requires
        0 < n <= ws.len(),
        forall|i: int| 0 <= i < ws.len() ==> solid(#[trigger] ws[i]) && text_width(t, ws[i]) <= max,
    ensures
        state_broken(t, max, wrap_words(t, max, blanked(ws).take(n as int)), n < ws.len()),
    decreases n,
{
    let all = blanked(ws);
    assert(all.take(n as int).drop_last() =~= all.take(n - 1));
    assert(solid(ws[n - 1]));
    if n == 1 {
        assert(all.take(0) =~= Seq::<Seq<char>>::empty());
    } else {
        lemma_wrap_words_broken(t, max, ws, (n - 1) as nat);
    }
    lemma_wrap_word_broken(
        t,
        max,
        wrap_words(t, max, all.take(n - 1)),
        ws[n - 1],
        n < ws.len(),
    );
}

/// Where words that all fit are joined by single blanks, no line ends before it
/// has to, none is empty, and none has a blank at either end.
pub proof fn lemma_wrap_fills_lines(t: WidthTable, ws: Seq<Seq<char>>, max: nat)
    requires
        ws.len() > 0,
        forall|i: int| 0 <= i < ws.len() ==> solid(#[trigger] ws[i]) && text_width(t, ws[i]) <= max,
    ensures
        ({
            let ls = wrap_text(t, join(ws, ' '), max);
            &&& forall|i: int| 0 <= i < ls.len() ==> neat(#[trigger] ls[i])
            &&& forall|i: int| 0 <= i < ls.len() - 1 ==> #[trigger] full_at(t, max, ls, i)
        }),
{
    let s = join(ws, ' ');
    lemma_joined(ws);
    if !(max == 0 || text_width(t, s) <= max) {
        lemma_wrap_words_broken(t, max, ws, ws.len());
        assert(blanked(ws).take(ws.len() as int) =~= blanked(ws));
        let st = wrap_words(t, max, words(s));
        let rest = trim_end(st.line);
        assert(neat(st.lines.push(rest)[st.lines.len() as int]));
    }
}

/// Whether every line is printable ASCII text.
pub open spec fn all_printable(ls: Seq<Seq<char>>) -> bool {
    forall|i: int| 0 <= i < ls.len() ==> printable(#[trigger] ls[i])
}

spec fn state_printable(st: WrapState) -> bool {
    all_printable(st.lines) && printable(st.line)
}

proof fn lemma_trim_printable(s: Seq<char>)
    requires
        printable(s),
    ensures
        printable(trim_end(s)),
{
    lemma_trim_end(s);
    assert forall|i: int| 0 <= i < trim_end(s).len() implies ' ' <= #[trigger] trim_end(s)[i]
        <= '~' by {
        assert(trim_end(s)[i] == s[i]);
    }
}

proof fn lemma_words_printable(s: Seq<char>)
    requires
        printable(s),
    ensures
        all_printable(words(s)),
    decreases s.len(),
{
    if s.len() > 0 {
        let init = s.drop_last();
        let before = words(init);
        assert(' ' <= s[s.len() - 1] <= '~');
        assert forall|i: int| 0 <= i < init.len() implies ' ' <= #[trigger] init[i] <= '~' by {
            assert(init[i] == s[i]);
        }
        lemma_words_printable(init);
        assert forall|i: int| 0 <= i < words(s).len() implies printable(#[trigger] words(s)[i]) by {
            if i < before.len() {
                assert(printable(before[i]));
            }
        }
    }
}

proof fn lemma_break_chars_printable(t: WidthTable, max: nat, st: WrapState, s: Seq<char>)
    requires
        state_printable(st),
        printable(s),
    ensures
        state_printable(break_chars(t, max, st, s)),
    decreases s.len(),
{
    if s.len() > 0 {
        let init = s.drop_last();
        assert(' ' <= s[s.len() - 1] <= '~');
        assert forall|i: int| 0 <= i < init.len() implies ' ' <= #[trigger] init[i] <= '~' by {
            assert(init[i] == s[i]);
        }
        lemma_break_chars_printable(t, max, st, init);
    }
}

proof fn lemma_wrap_words_printable(t: WidthTable, max: nat, ws: Seq<Seq<char>>)
    requires
        all_printable(ws),
    ensures
        state_printable(wrap_words(t, max, ws)),
    decreases ws.len(),
{
    if ws.len() > 0 {
        let init = ws.drop_last();
        assert forall|i: int| 0 <= i < init.len() implies printable(#[trigger] init[i]) by {
            assert(init[i] == ws[i]);
        }
        lemma_wrap_words_printable(t, max, init);
        let st = wrap_words(t, max, init);
        let word = ws[ws.len() - 1];
        lemma_trim_printable(word);
        lemma_trim_printable(st.line);
        assert(state_printable(flush_line(st)));
        lemma_break_chars_printable(t, max, flush_line(st), trim_end(word));
    }
}

/// Wrapping adds no character but blanks: printable ASCII text stays so.
pub proof fn lemma_wrap_printable(t: WidthTable, s: Seq<char>, max: nat)
    requires
        printable(s),
    ensures
        all_printable(wrap_text(t, s, max)),
{
    lemma_words_printable(s);
    lemma_wrap_words_printable(t, max, words(s));
    lemma_trim_printable(wrap_words(t, max, words(s)).line);
}

// ---------------------------------------------------------------------------
// Implementation
// ---------------------------------------------------------------------------

/// The words of `v`.
fn words_of(v: &Vec<char>) -> (r: Vec<Vec<char>>)
    ensures
        char_seqs(r@) == words(v@),
{
    let mut done: Vec<Vec<char>> = Vec::new();
    let mut cur: Vec<char> = Vec::new();
    let n: usize = v.len();
    assert(v@.take(0) =~= Seq::<char>::empty());
    assert(char_seqs(done@) =~= Seq::<Seq<char>>::empty());
    for i in 0..n
        invariant
            n == v@.len(),
            words(v@.take(i as int)) == if cur@.len() == 0 {
                char_seqs(done@)
            } else {
                char_seqs(done@).push(cur@)
            },
            cur@.len() > 0 ==> !is_whitespace(cur@.last()),
            cur@.len() == 0 && done@.len() > 0 ==> is_whitespace(done@.last()@.last()),
    {
        let ghost before = words(v@.take(i as int));
        let c = v[i];
        assert(v@.take(i + 1).drop_last() =~= v@.take(i as int));
        assert(v@.take(i + 1).last() == c);
        let ghost old_cur = cur@;
        proof {
            if cur@.len() == 0 && done@.len() > 0 {
                assert(before.last() == done@.last()@);
            }
        }
        cur.push(c);
        assert(words(v@.take(i + 1)) =~= char_seqs(done@).push(cur@)) by {
            if old_cur.len() == 0 {
                assert(cur@ =~= seq![c]);
            } else {
                assert(before.update(before.len() - 1, cur@) =~= char_seqs(done@).push(cur@));
            }
        }
        if whitespace(c) {
            let ghost whole = char_seqs(done@).push(cur@);
            done.push(cur);
            cur = Vec::new();
            assert(char_seqs(done@) =~= whole);
        }
    }
    assert(v@.take(n as int) =~= v@);
    if cur.len() > 0 {
        let ghost whole = char_seqs(done@).push(cur@);
        done.push(cur);
        assert(char_seqs(done@) =~= whole);
    }
    done
}

/// A wrap in progress.
struct Wrapper {
    lines: WrappedLines,
    line: Vec<char>,
    width: u128,
}

impl Wrapper {
    spec fn state(&self) -> WrapState {
        WrapState { lines: wrapped(self.lines), line: self.line@, width: self.width as nat }
    }

    /// Appends a finished line.
    fn emit(&mut self, line: &Vec<char>)
        ensures
            wrapped(final(self).lines) == wrapped(old(self).lines).push(line@),
            final(self).line == old(self).line,
            final(self).width == old(self).width,
    {
        let s = string_of(line);
        self.lines.push(CompactText::new(s.as_str()));
    }

    /// Breaks off the current line.
    fn flush(&mut self)
        ensures
            final(self).state() == flush_line(old(self).state()),
    {
        if self.line.len() > 0 {
            let trimmed = trim_end_of(&self.line);
            self.emit(&trimmed);
        }
        self.line = Vec::new();
        self.width = 0;
        assert(self.line@ =~= Seq::<char>::empty());
    }

    /// Adds one character of a word that no line can hold.
    fn add_char(&mut self, c: char, max: usize, widths: &CharWidths)
        requires
            old(self).line@.len() == 0 ==> old(self).width == 0,
            old(self).width <= max + 2,
        ensures
            final(self).state() == break_char(widths@, max as nat, old(self).state(), c),
            final(self).line@.len() > 0,
            final(self).width <= max + 2,
    {
        let w: u128 = widths.char_display_width(c) as u128;
        if self.width + w > max as u128 && self.line.len() > 0 {
            let full = copy_of(&self.line);
            self.emit(&full);
            self.line = Vec::new();
            self.width = 0;
            self.line.push(c);
            self.width = self.width + w;
            assert(self.line@ =~= seq![c]);
        } else {
            self.line.push(c);
            self.width = self.width + w;
        }
    }

    /// The space that stands for the whitespace after `word`.
    fn end_word(&mut self, word: &Vec<char>)
        requires
            word@.len() > 0,
            old(self).width < u128::MAX,
        ensures
            final(self).state() == after_word(old(self).state(), word@),
    {
        if whitespace(word[word.len() - 1]) {
            self.line.push(' ');
            self.width = self.width + 1;
        }
    }

    /// Adds one word.
    fn add_word(&mut self, word: &Vec<char>, max: usize, widths: &CharWidths)
        requires
            word@.len() > 0,
            old(self).line@.len() == 0 ==> old(self).width == 0,
            old(self).width <= max + 3,
        ensures
            final(self).state() == wrap_word(widths@, max as nat, old(self).state(), word@),
            final(self).line@.len() == 0 ==> final(self).width == 0,
            final(self).width <= max + 3,
    {
        let bare = trim_end_of(word);
        proof {
            lemma_trim_end(word@);
        }
        let word_w = widths.columns(word);
        let bare_w = widths.columns(&bare);
        if bare.len() == 0 {
            if self.width > 0 && self.width < max as u128 {
                self.line.push(' ');
                self.width = self.width + 1;
            }
            return;
        }
        if self.width + word_w <= max as u128 {
            append_chars(&mut self.line, word);
            self.width = self.width + word_w;
        } else if self.line.len() > 0 && self.width + 1 + bare_w <= max as u128 {
            self.line.push(' ');
            append_chars(&mut self.line, &bare);
            self.width = self.width + 1 + bare_w;
            self.end_word(word);
        } else {
            self.flush();
            let ghost flushed = self.state();
            if bare_w > max as u128 {
                let n: usize = bare.len();
                assert(bare@.take(0) =~= Seq::<char>::empty());
                for i in 0..n
                    invariant
                        n == bare@.len(),
                        self.line@.len() == 0 ==> self.width == 0,
                        i > 0 ==> self.line@.len() > 0,
                        self.width <= max + 2,
                        self.state() == break_chars(
                            widths@,
                            max as nat,
                            flushed,
                            bare@.take(i as int),
                        ),
                {
                    assert(bare@.take(i + 1).drop_last() =~= bare@.take(i as int));
                    self.add_char(bare[i], max, widths);
                }
                assert(bare@.take(n as int) =~= bare@);
            } else {
                append_chars(&mut self.line, &bare);
                self.width = self.width + bare_w;
                assert(self.line@ =~= bare@);
            }
            self.end_word(word);
        }
    }
}

/// Breaks `text` into lines of at most `max_width` columns, at whitespace where
/// that is possible and between characters where it is not.
pub fn word_wrap(text: &str, max_width: usize, widths: &CharWidths) -> (r: WrappedLines)
    ensures
        wrapped(r) == wrap_text(widths@, text@, max_width as nat),
{
    let v = chars_of(text);
    if v.len() == 0 || max_width == 0 || widths.columns(&v) <= max_width as u128 {
        let mut lines = WrappedLines::new();
        lines.push(CompactText::new(text));
        assert(wrapped(lines) =~= seq![text@]);
        return lines;
    }
    let ws = words_of(&v);
    let ghost spec_words = words(v@);
    proof {
        lemma_words(v@);
        assert(spec_words.take(0) =~= Seq::<Seq<char>>::empty());
    }
    let mut st = Wrapper { lines: WrappedLines::new(), line: Vec::new(), width: 0 };
    assert(st.line@ =~= Seq::<char>::empty());
    let n: usize = ws.len();
    for i in 0..n
        invariant
            n == ws@.len(),
            spec_words == char_seqs(ws@),
            forall|j: int| 0 <= j < spec_words.len() ==> is_word(#[trigger] spec_words[j]),
            st.line@.len() == 0 ==> st.width == 0,
            st.width <= max_width + 3,
            st.state() == wrap_words(widths@, max_width as nat, spec_words.take(i as int)),
    {
        assert(spec_words.take(i + 1).drop_last() =~= spec_words.take(i as int));
        assert(is_word(spec_words[i as int]));
        assert(spec_words[i as int] == ws@[i as int]@);
        st.add_word(&ws[i], max_width, widths);
    }
    assert(spec_words.take(n as int) =~= spec_words);
    let rest = trim_end_of(&st.line);
    if rest.len() > 0 {
        st.emit(&rest);
    }
    if st.lines.len() == 0 {
        st.emit(&v);
        assert(wrapped(st.lines) =~= seq![text@]);
    }
    st.lines
}

} // verus!
