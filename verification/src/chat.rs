//! What is written into the chat is what it holds, what it shows, and what is
//! marked and copied from it.

use vstd::prelude::*;

use crate::color::Color;
use crate::draw::TermSize;
use crate::feed::{
    block_lines, color_style, completed_len, joined, lemma_completed_block, marked, md_lines,
    row_line, selection_text, style_color, tail_lines, view_end, view_start, BlockStyle, BlockView,
};
use crate::line::{colored, LineView};
use crate::markdown::{lemma_split_ink, lemma_trim_cr_ink, lemma_wrapped_ink, lines_ink, texts};
use crate::renderer::RendererView;
use crate::session::{last_exchange, MessageView};
use crate::text::{join, lemma_split_nonempty, split, trim_end_char};
use crate::width::WidthTable;
use crate::wrap::{
    ink, ink_of_lines, lemma_ink_concat, lemma_ink_lines_push, lemma_ink_push, wrap_text,
};

verus! {

// ---------------------------------------------------------------------------
// Writing
// ---------------------------------------------------------------------------

/// The texts of blocks.
pub open spec fn block_texts(bs: Seq<BlockView>) -> Seq<Seq<char>> {
    bs.map_values(|b: BlockView| b.text)
}

/// All that there is to see in the chat.
pub open spec fn chat_ink(v: RendererView) -> Seq<char> {
    ink_of_lines(block_texts(v.feed.blocks)) + ink(v.partial)
}

proof fn lemma_with_block_ink(v: RendererView, style: BlockStyle, text: Seq<char>)
    requires
        v.partial.len() == 0,
    ensures
        chat_ink(v.with_block(style, text)) == chat_ink(v) + ink(text),
        v.with_block(style, text).partial.len() == 0,
{
    let b = BlockView { style, text, running: false };
    assert(block_texts(v.feed.blocks.push(b)) =~= block_texts(v.feed.blocks).push(text));
    lemma_ink_lines_push(block_texts(v.feed.blocks), text);
    assert(chat_ink(v.with_block(style, text)) =~= chat_ink(v) + ink(text));
}

proof fn lemma_committed_ink(v: RendererView)
    ensures
        chat_ink(v.committed()) == chat_ink(v),
        v.committed().partial.len() == 0,
        v.feed.blocks.len() <= v.committed().feed.blocks.len(),
        v.committed().feed.blocks.take(v.feed.blocks.len() as int) == v.feed.blocks,
{
    if v.partial.len() > 0 {
        let b = BlockView { style: v.partial_style, text: v.partial, running: false };
        assert(block_texts(v.feed.blocks.push(b)) =~= block_texts(v.feed.blocks).push(v.partial));
        lemma_ink_lines_push(block_texts(v.feed.blocks), v.partial);
        assert(chat_ink(v.committed()) =~= chat_ink(v));
    }
    assert(v.committed().feed.blocks.take(v.feed.blocks.len() as int) =~= v.feed.blocks);
}

/// A line that is written follows all that the chat holds: what was begun before is
/// completed, the line is a block of its own, and nothing before it changes.
pub proof fn lemma_line_written(v: RendererView, style: BlockStyle, text: Seq<char>)
    ensures
        ({
            let after = v.committed().with_block(style, text);
            &&& chat_ink(after) == chat_ink(v) + ink(text)
            &&& after.partial.len() == 0
            &&& after.feed.blocks.last() == (BlockView { style, text, running: false })
            &&& v.feed.blocks.len() < after.feed.blocks.len()
            &&& after.feed.blocks.take(v.feed.blocks.len() as int) == v.feed.blocks
        }),
{
    lemma_committed_ink(v);
    lemma_with_block_ink(v.committed(), style, text);
    let after = v.committed().with_block(style, text);
    assert(after.feed.blocks.take(v.feed.blocks.len() as int) =~= v.feed.blocks);
}

proof fn lemma_written_lines_ink(
    v: RendererView,
    style: BlockStyle,
    parts: Seq<Seq<char>>,
    n: nat,
)
    requires
        n <= parts.len(),
    ensures
        ({
            let w = v.written_lines(style, parts, n);
            &&& chat_ink(w) == chat_ink(v) + ink_of_lines(parts.take(n as int))
            &&& n > 0 ==> w.partial.len() == 0
            &&& n == 0 ==> w == v
            &&& v.feed.blocks.len() <= w.feed.blocks.len()
            &&& w.feed.blocks.take(v.feed.blocks.len() as int) == v.feed.blocks
        }),
    decreases n,
{
    if n == 0 {
        assert(parts.take(0) =~= Seq::<Seq<char>>::empty());
        assert(chat_ink(v) + Seq::<char>::empty() =~= chat_ink(v));
        assert(v.feed.blocks.take(v.feed.blocks.len() as int) =~= v.feed.blocks);
    } else {
        let m = (n - 1) as nat;
        let w = v.written_lines(style, parts, m);
        lemma_written_lines_ink(v, style, parts, m);
        lemma_line_written(w, style, parts[n - 1]);
        let after = v.written_lines(style, parts, n);
        assert(parts.take(n as int) =~= parts.take(m as int).push(parts[n - 1]));
        lemma_ink_lines_push(parts.take(m as int), parts[n - 1]);
        assert(chat_ink(after) =~= chat_ink(v) + ink_of_lines(parts.take(n as int)));
        assert(after.feed.blocks.take(v.feed.blocks.len() as int) =~= w.feed.blocks.take(
            v.feed.blocks.len() as int,
        ));
    }
}

/// A text that is written, in pieces or at once, is held by the chat once and in
/// order behind all that it held before.
pub proof fn lemma_text_written(v: RendererView, text: Seq<char>, color: Color)
    ensures
        chat_ink(v.written(text, color)) == chat_ink(v) + ink(text),
        v.feed.blocks.len() <= v.written(text, color).feed.blocks.len(),
        v.written(text, color).feed.blocks.take(v.feed.blocks.len() as int) == v.feed.blocks,
{
    let after = v.written(text, color);
    if text.len() == 0 {
        assert(chat_ink(v) + ink(text) =~= chat_ink(v));
        assert(v.feed.blocks.take(v.feed.blocks.len() as int) =~= v.feed.blocks);
    } else {
        let style = color_style(color);
        let parts = split(text, '\n');
        lemma_split_nonempty(text, '\n');
        lemma_split_ink(text);
        let n = (parts.len() - 1) as nat;
        let w = v.written_lines(style, parts, n);
        lemma_written_lines_ink(v, style, parts, n);
        lemma_ink_concat(w.partial, parts.last());
        assert(parts =~= parts.take(n as int).push(parts.last()));
        lemma_ink_lines_push(parts.take(n as int), parts.last());
        assert(chat_ink(after) =~= chat_ink(v) + ink(text));
    }
}

/// The line that is still being written is shown behind all complete ones, in its
/// own color.
pub proof fn lemma_partial_shown(v: RendererView, width: nat)
    ensures
        ({
            let ls = v.chat_lines(width);
            let n = v.feed.lines(width).len() as int;
            &&& n <= ls.len()
            &&& ls.take(n) == v.feed.lines(width)
            &&& lines_ink(ls.skip(n)) == ink(v.partial)
            &&& forall|i: int|
                n <= i < ls.len() ==> (#[trigger] ls[i]).color == style_color(v.partial_style)
        }),
{
    let ls = v.chat_lines(width);
    let n = v.feed.lines(width).len() as int;
    assert(ls.take(n) =~= v.feed.lines(width));
    if v.partial.len() == 0 {
        assert(ls.skip(n) =~= Seq::<LineView>::empty());
        assert(texts(ls.skip(n)) =~= Seq::<Seq<char>>::empty());
        assert(v.partial =~= Seq::<char>::empty());
    } else {
        let more = colored(
            wrap_text(v.feed.widths, v.partial, width),
            style_color(v.partial_style),
        );
        assert(ls.skip(n) =~= more);
        lemma_wrapped_ink(v.feed.widths, v.partial, width, style_color(v.partial_style));
    }
}

// ---------------------------------------------------------------------------
// Answers
// ---------------------------------------------------------------------------

/// A growing text is divided behind its last line feed: what is laid out as
/// Markdown are complete lines, and what is shown plain holds no line feed.
pub proof fn lemma_completed(s: Seq<char>)
    ensures
        completed_len(s) <= s.len(),
        completed_len(s) > 0 ==> s[completed_len(s) - 1] == '\n',
        forall|i: int| completed_len(s) <= i < s.len() ==> #[trigger] s[i] != '\n',
    decreases s.len(),
{
    if s.len() > 0 && s.last() != '\n' {
        let init = s.drop_last();
        lemma_completed(init);
        assert forall|i: int| completed_len(s) <= i < s.len() implies #[trigger] s[i] != '\n' by {
            if i < init.len() {
                assert(init[i] == s[i]);
            }
        }
        if completed_len(s) > 0 {
            assert(init[completed_len(s) - 1] == s[completed_len(s) - 1]);
        }
    }
}

/// The answer of the agent is shown as its Markdown is laid out, line by line and
/// in its colors, with a mark in front of the first line and nothing else changed.
pub proof fn lemma_answer_marked(t: WidthTable, width: nat, text: Seq<char>)
    requires
        text.len() > 0,
    ensures
        ({
            let b = BlockView { style: BlockStyle::Agent, text, running: false };
            let ls = block_lines(t, width, b);
            let md = md_lines(t, width, text);
            &&& ls.len() == md.len()
            &&& forall|i: int| 0 < i < ls.len() ==> ls[i] == md[i]
            &&& ls.len() > 0 ==> ls[0].text == "< "@ + md[0].text && ls[0].color == md[0].color
        }),
{
    let b = BlockView { style: BlockStyle::Agent, text, running: false };
    lemma_completed_block(t, width, b);
}

/// While an answer grows, its complete lines are laid out as Markdown, and the line
/// that is still growing follows them plain and in white, with all that there is to
/// see in it.
pub proof fn lemma_growing_shown(t: WidthTable, width: nat, text: Seq<char>)
    ensures
        ({
            let b = BlockView { style: BlockStyle::Agent, text, running: true };
            let n = completed_len(text) as int;
            let md = md_lines(t, width, text.take(n));
            let tail = tail_lines(t, width, b);
            &&& block_lines(t, width, b) == marked(md + tail)
            &&& lines_ink(tail) == ink(text.skip(n))
            &&& forall|i: int| 0 <= i < tail.len() ==> (#[trigger] tail[i]).color == Color::White
        }),
{
    let b = BlockView { style: BlockStyle::Agent, text, running: true };
    let n = completed_len(text) as int;
    let plain = trim_end_char(text.skip(n), '\r');
    lemma_trim_cr_ink(text.skip(n));
    let tail = tail_lines(t, width, b);
    if plain.len() == 0 {
        assert(plain =~= Seq::<char>::empty());
        assert(texts(tail) =~= Seq::<Seq<char>>::empty());
    } else {
        lemma_wrapped_ink(t, plain, width, Color::White);
    }
}

// ---------------------------------------------------------------------------
// Marking
// ---------------------------------------------------------------------------

/// The row of the screen that a line is shown in is the row that it is found in:
/// read from the last row upwards, the rows hold the lines from the last one
/// upwards, as many above the end as the chat is scrolled by.
pub proof fn lemma_row_found(v: RendererView, size: TermSize, j: nat)
    requires
        v.scroll_offset == 0 || v.scroll_offset <= v.max_offset(size),
        j < v.visible(size),
    ensures
        ({
            let row = v.visible(size) - 1 - j;
            let i = v.screen_lines(size).len() - 1 - v.scroll_offset - j;
            &&& i >= 0 ==> row >= v.top_padding(size) && v.first_line(size) + row - v.top_padding(
                size,
            ) == i
            &&& i < 0 ==> row < v.top_padding(size)
        }),
{
}

/// The same for a viewport of the feed alone.
pub proof fn lemma_visual_row(total: nat, offset: nat, height: nat, j: nat)
    requires
        offset == 0 || offset + height <= total,
        j < height,
    ensures
        row_line(total, offset, height, (height - 1 - j) as nat) == if offset + j < total {
            Some((total - 1 - offset - j) as nat)
        } else {
            None
        },
        offset + height <= total ==> view_start(total, offset, height) == total - offset - height,
        offset + height <= total ==> view_end(total, offset, height) == total - offset,
{
}

proof fn lemma_joined_ink(ls: Seq<LineView>, lo: int, hi: int)
    requires
        0 <= lo <= hi <= ls.len(),
    ensures
        ink(joined(ls, lo, hi)) == lines_ink(ls.subrange(lo, hi)),
        lo < hi && (forall|i: int| lo <= i < hi ==> (#[trigger] ls[i]).text.len() > 0) ==> joined(
            ls,
            lo,
            hi,
        ) == join(texts(ls.subrange(lo, hi)), '\n') && joined(ls, lo, hi).len() > 0,
    decreases hi - lo,
{
    if lo == hi {
        assert(texts(ls.subrange(lo, hi)) =~= Seq::<Seq<char>>::empty());
    } else {
        let before = joined(ls, lo, hi - 1);
        lemma_joined_ink(ls, lo, hi - 1);
        let ts = texts(ls.subrange(lo, hi));
        let init = texts(ls.subrange(lo, hi - 1));
        assert(ts =~= init.push(ls[hi - 1].text));
        lemma_ink_lines_push(init, ls[hi - 1].text);
        lemma_ink_push(before, '\n');
        let lead = if before.len() == 0 {
            before
        } else {
            before.push('\n')
        };
        lemma_ink_concat(lead, ls[hi - 1].text);
        if forall|i: int| lo <= i < hi ==> (#[trigger] ls[i]).text.len() > 0 {
            assert(ls[hi - 1].text.len() > 0);
            assert(ts.drop_last() =~= init);
            if lo == hi - 1 {
                assert(joined(ls, lo, hi) =~= ls[lo].text);
            }
        }
    }
}

/// What is copied is the text of the marked lines, all of it and in order, from
/// the upper end of the mark to the lower, whichever of them was set first. Lines
/// that are not empty are copied one below the other.
pub proof fn lemma_selection_copied(ls: Seq<LineView>, a: nat, b: nat)
    requires
        a <= b < ls.len(),
    ensures
        selection_text(ls, a, b) == selection_text(ls, b, a),
        ink(selection_text(ls, a, b)) == lines_ink(ls.subrange(a as int, (b + 1) as int)),
        (forall|i: int| a <= i <= b ==> (#[trigger] ls[i]).text.len() > 0) ==> selection_text(
            ls,
            a,
            b,
        ) == join(texts(ls.subrange(a as int, (b + 1) as int)), '\n'),
{
    lemma_joined_ink(ls, a as int, (b + 1) as int);
}

// ---------------------------------------------------------------------------
// Taking back
// ---------------------------------------------------------------------------

/// Taking back right after an exchange restores the conversation from before it,
/// whether it was answered or not. Nothing is taken back behind a tool's call or
/// result, or in an empty conversation.
pub proof fn lemma_exchange_taken_back(
    ms: Seq<MessageView>,
    question: MessageView,
    answer: MessageView,
)
    requires
        question.role is User,
        answer.role is Assistant,
    ensures
        ({
            let asked = ms.push(question);
            let answered = asked.push(answer);
            &&& asked.take(asked.len() - last_exchange(asked)) == ms
            &&& answered.take(answered.len() - last_exchange(answered)) == ms
            &&& ms.len() > 0 && !(ms.last().role is User) && !(ms.last().role is Assistant)
                ==> last_exchange(ms) == 0
            &&& ms.len() == 0 ==> last_exchange(ms) == 0
            &&& last_exchange(ms) <= ms.len()
        }),
{
    let asked = ms.push(question);
    let answered = asked.push(answer);
    assert(asked.take(asked.len() - last_exchange(asked)) =~= ms);
    assert(answered.take(answered.len() - last_exchange(answered)) =~= ms);
}

} // verus!
