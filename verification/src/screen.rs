//! Painting the screen, and the changes that are painted at once.

use vstd::prelude::*;

use crate::bottom::{
    bottom_redraw_plan, clear_shrunk_rows, draw_separator, input_cursor_for_click, input_rows,
    redraw_plan, separator, shrunk_rows, click_target, BottomRedrawPlan, BottomSnapshot,
    BottomView, InputArea, InputFrame, InputView, PromptSnapshot,
};
use crate::color::Color;
use crate::draw::{
    background, empty_rows, end_of_row, op_views, push_background, push_empty_rows,
    push_end_of_row, push_op, push_print, push_run, DrawOp, OpView, TermSize,
};
use crate::feed::{color_style, style_from_color, BlockView};
use crate::line::{line_views, LineEntry, LineView};
use crate::num::{least, less, minus, most, smaller};
use crate::renderer::{Renderer, RendererView};
use crate::statusline::{
    draw_statusline, span_views, status_rows, status_views, SpanView, StatusSpan,
};
use crate::text::{
    chars_of, decimal, decimal_of, lemma_split_nonempty, repeat, split, split_of, string_of,
};
use crate::urls::with_links;
use crate::width::{lemma_width_bound, text_width};

verus! {

// ---------------------------------------------------------------------------
// Scrolling
// ---------------------------------------------------------------------------

impl RendererView {
    /// Rows that a page scrolls by: all but two of those in view.
    pub open spec fn page(self, size: TermSize) -> nat {
        most(less(self.visible(size), 2), 1)
    }

    /// Where a page up leads.
    pub open spec fn page_up(self, size: TermSize) -> nat {
        least(self.scroll_offset as nat + self.page(size), self.max_offset(size))
    }

    /// Where a page down leads.
    pub open spec fn page_down(self, size: TermSize) -> nat {
        less(self.scroll_offset as nat, self.page(size))
    }
}

impl Renderer {
    /// Scrolls the input up one line. `false` where it is at its top.
    pub fn input_scroll_up(&mut self) -> (r: bool)
        requires
            old(self).wf(),
        ensures
            final(self).wf(),
            r == (old(self)@.input.vscroll > 0),
            final(self)@ == (RendererView {
                input: (InputView {
                    vscroll: less(old(self)@.input.vscroll as nat, 1) as usize,
                    ..old(self)@.input
                }),
                ..old(self)@
            }),
    {
        if self.input.vscroll > 0 {
            self.input.vscroll = self.input.vscroll - 1;
            true
        } else {
            false
        }
    }

    /// Scrolls the input down one line. `false` where it is at its end.
    pub fn input_scroll_down(&mut self) -> (r: bool)
        requires
            old(self).wf(),
        ensures
            final(self).wf(),
            r == (old(self)@.input.vscroll < old(self)@.input.max_vscroll),
            final(self)@ == (RendererView {
                input: (InputView {
                    vscroll: if r {
                        (old(self)@.input.vscroll + 1) as usize
                    } else {
                        old(self)@.input.vscroll
                    },
                    ..old(self)@.input
                }),
                ..old(self)@
            }),
    {
        if self.input.vscroll < self.input.max_vscroll {
            self.input.vscroll = self.input.vscroll + 1;
            true
        } else {
            false
        }
    }

    /// The line of the input, and the character position in it, that a click
    /// falls on.
    pub fn input_cursor_for_click(&self, row: u16, col: u16, input_line: &str) -> (r: Option<
        (usize, usize),
    >)
        requires
            self.wf(),
        ensures
            match click_target(
                self@.feed.widths,
                self@.input,
                row as nat,
                col as nat,
                split(input_line@, '\n'),
            ) {
                Some((line, at)) => r matches Some((l, a)) && l == line && a == at,
                None => r is None,
            },
    {
        input_cursor_for_click(&self.input, row, col, input_line, self.feed.char_widths())
    }

    /// Scrolls the chat to `offset`.
    fn scroll_to(&mut self, offset: usize)
        requires
            old(self).wf(),
        ensures
            final(self).wf(),
            final(self)@ == old(self)@.scrolled(offset as nat),
    {
        if offset != self.scroll_offset {
            self.scroll_offset = offset;
            self.chat_dirty = true;
        }
    }

    /// The furthest the chat can be scrolled up.
    fn max_scroll(&mut self, size: TermSize) -> (r: usize)
        requires
            old(self).wf(),
        ensures
            final(self).wf(),
            final(self)@ == old(self)@,
            r == old(self)@.max_offset(size),
    {
        let total = self.buffer_len(size);
        minus(total, self.visible_lines(size))
    }

    /// Scrolls the chat up one line.
    pub fn scroll_line_up(&mut self, size: TermSize)
        requires
            old(self).wf(),
        ensures
            final(self).wf(),
            final(self)@ == if old(self)@.scroll_offset < old(self)@.max_offset(size) {
                old(self)@.scrolled((old(self)@.scroll_offset + 1) as nat)
            } else {
                old(self)@
            },
    {
        let max = self.max_scroll(size);
        if self.scroll_offset < max {
            let offset: usize = self.scroll_offset + 1;
            self.scroll_to(offset);
        }
    }

    /// Scrolls the chat down one line.
    pub fn scroll_line_down(&mut self)
        requires
            old(self).wf(),
        ensures
            final(self).wf(),
            final(self)@ == old(self)@.scrolled(less(old(self)@.scroll_offset as nat, 1)),
    {
        let offset = minus(self.scroll_offset, 1);
        self.scroll_to(offset);
    }

    /// Rows that a page scrolls by.
    fn page_rows(&self, size: TermSize) -> (r: usize)
        requires
            self.wf(),
        ensures
            r == self@.page(size),
            r <= u16::MAX,
    {
        let rows = minus(self.visible_lines(size), 2);
        if rows >= 1 {
            rows
        } else {
            1
        }
    }

    /// Scrolls the chat up a page.
    pub fn scroll_page_up(&mut self, size: TermSize)
        requires
            old(self).wf(),
        ensures
            final(self).wf(),
            final(self)@ == old(self)@.scrolled(old(self)@.page_up(size)),
    {
        let page = self.page_rows(size);
        let max = self.max_scroll(size);
        let offset: usize = if page <= max && self.scroll_offset <= max - page {
            self.scroll_offset + page
        } else {
            max
        };
        self.scroll_to(offset);
    }

    /// Scrolls the chat down a page.
    pub fn scroll_page_down(&mut self, size: TermSize)
        requires
            old(self).wf(),
        ensures
            final(self).wf(),
            final(self)@ == old(self)@.scrolled(old(self)@.page_down(size)),
    {
        let page = self.page_rows(size);
        let offset = minus(self.scroll_offset, page);
        self.scroll_to(offset);
    }

    /// Scrolls the chat to its start.
    pub fn scroll_to_top(&mut self, size: TermSize)
        requires
            old(self).wf(),
        ensures
            final(self).wf(),
            final(self)@ == old(self)@.scrolled(old(self)@.max_offset(size)),
    {
        let max = self.max_scroll(size);
        self.scroll_to(max);
    }

    /// Takes a new size of the terminal into account.
    pub fn resize(&mut self, size: TermSize)
        requires
            old(self).wf(),
        ensures
            final(self).wf(),
            final(self)@ == (RendererView {
                chat_dirty: true,
                scroll_offset: least(
                    old(self)@.scroll_offset as nat,
                    old(self)@.max_offset(size),
                ) as usize,
                ..old(self)@
            }),
    {
        self.chat_dirty = true;
        let max = self.max_scroll(size);
        if self.scroll_offset > max {
            self.scroll_offset = max;
        }
    }
}

/// Scrolling up and then down by lines or pages never leaves the chat: every
/// offset reached is at most the furthest one.
pub proof fn lemma_scroll_stays(v: RendererView, size: TermSize)
    requires
        v.scroll_offset <= v.max_offset(size),
    ensures
        v.page_up(size) <= v.max_offset(size),
        v.page_down(size) <= v.max_offset(size),
        v.page_up(size) >= v.scroll_offset,
        v.page_down(size) <= v.scroll_offset,
{
}

/// A page down undoes a page up that was not cut short.
pub proof fn lemma_page_down_undoes(v: RendererView, size: TermSize)
    requires
        v.scroll_offset + v.page(size) <= v.max_offset(size),
        v.max_offset(size) <= usize::MAX,
    ensures
        v.scrolled(v.page_up(size)).page_down(size) == v.scroll_offset,
{
    let up = v.scrolled(v.page_up(size));
    assert(up.visible(size) == v.visible(size));
}

// ---------------------------------------------------------------------------
// The chat
// ---------------------------------------------------------------------------

impl RendererView {
    /// Whether line `i` of the chat is selected.
    pub open spec fn selected(self, i: int) -> bool {
        match (self.selection_start, self.selection_end) {
            (Some(a), Some(b)) => self.selection_active && least(a as nat, b as nat) <= i <= most(
                a as nat,
                b as nat,
            ),
            _ => false,
        }
    }

    /// Line `i` of the chat in row `y`.
    pub open spec fn chat_row(self, l: LineView, i: int, y: u16) -> Seq<OpView> {
        let margin = if self.chat_margin > 0 {
            seq![OpView::Print(repeat(' ', self.chat_margin as nat))]
        } else {
            Seq::empty()
        };
        let mark = if self.selected(i) {
            seq![OpView::Reverse]
        } else {
            Seq::empty()
        };
        let unmark = if self.selected(i) {
            seq![OpView::NoReverse]
        } else {
            Seq::empty()
        };
        seq![OpView::MoveTo(0, y)] + background(self.chat_bg) + margin + mark + seq![
            OpView::SetForeground(l.color),
            OpView::Print(with_links(l.text)),
        ] + unmark + end_of_row()
    }

    /// `n` lines of the chat from line `start` on, in the rows from `top` on.
    pub open spec fn chat_rows(self, ls: Seq<LineView>, start: nat, top: nat, n: nat) -> Seq<OpView>
        decreases n,
    {
        if n == 0 {
            Seq::empty()
        } else {
            let k = n - 1;
            self.chat_rows(ls, start, top, (n - 1) as nat) + self.chat_row(
                ls[start + k],
                start + k,
                (top + k) as u16,
            )
        }
    }

    /// How far up the chat is scrolled, in percent.
    pub open spec fn scroll_percent(self, size: TermSize) -> nat {
        let total = self.screen_lines(size).len();
        let visible = self.visible(size);
        if total > visible {
            least(
                less(total, self.scroll_offset as nat + visible) * 100 / (total - visible) as nat,
                100,
            )
        } else {
            0
        }
    }

    /// The mark in the corner of a chat that is scrolled up.
    pub open spec fn scroll_badge(self, size: TermSize) -> Seq<OpView> {
        if self.scroll_offset == 0 {
            Seq::empty()
        } else {
            let text = " SCROLL "@ + decimal(self.scroll_percent(size)) + "% "@;
            seq![OpView::MoveTo(less(size.cols as nat, text.len()) as u16, 0)] + background(
                self.chat_bg,
            ) + seq![
                OpView::SetForeground(Color::DarkYellow),
                OpView::Print(text),
                OpView::ResetColor,
            ]
        }
    }

    /// The chat on the screen: padding above a short one, the lines in view,
    /// and empty rows below.
    pub open spec fn viewport(self, size: TermSize) -> Seq<OpView> {
        let ls = self.screen_lines(size);
        let visible = self.visible(size);
        let pad = self.top_padding(size);
        let start = self.first_line(size);
        let n = least(less(visible, pad), less(ls.len(), start));
        (seq![OpView::HideCursor] + empty_rows(0, pad, self.chat_bg) + self.chat_rows(
            ls,
            start,
            pad,
            n,
        ) + empty_rows(pad + n, visible, self.chat_bg) + self.scroll_badge(size)).push(
            OpView::Flush,
        )
    }

    /// Whether the scroll position is one that the chat has. One that it does
    /// not have is left by shortening the feed while it is scrolled.
    pub open spec fn scroll_in_range(self, size: TermSize) -> bool {
        self.scroll_offset == 0 || self.scroll_offset <= self.max_offset(size)
            || self.max_offset(size) == 0
    }
}

impl Renderer {
    /// Whether line `i` of the chat is selected.
    fn line_selected(&self, i: usize) -> (r: bool)
        ensures
            r == self@.selected(i as int),
    {
        match (self.selection_start, self.selection_end) {
            (Some(a), Some(b)) => {
                let (lo, hi): (usize, usize) = if a <= b {
                    (a, b)
                } else {
                    (b, a)
                };
                self.selection_active && lo <= i && i <= hi
            },
            _ => false,
        }
    }

    /// Appends one line of the chat.
    fn push_chat_row(&self, out: &mut Vec<DrawOp>, entry: &LineEntry, i: usize, y: u16)
        ensures
            op_views(final(out)@) == op_views(old(out)@) + self@.chat_row(entry@, i as int, y),
    {
        let selected = self.line_selected(i);
        push_op(out, DrawOp::MoveTo(0, y));
        push_background(out, self.chat_bg);
        if self.chat_margin > 0 {
            push_run(out, ' ', self.chat_margin as usize);
        }
        if selected {
            push_op(out, DrawOp::Reverse);
        }
        push_op(out, DrawOp::SetForeground(entry.color));
        let text = self.urls.wrap_urls_osc8(entry.as_str());
        push_print(out, text.as_str());
        if selected {
            push_op(out, DrawOp::NoReverse);
        }
        push_end_of_row(out);
        assert(op_views(out@) =~= op_views(old(out)@) + self@.chat_row(entry@, i as int, y));
    }

    /// Appends `n` lines of the chat.
    fn push_chat_rows(
        &self,
        out: &mut Vec<DrawOp>,
        lines: &Vec<LineEntry>,
        start: usize,
        top: usize,
        n: usize,
    )
        requires
            start + n <= lines@.len(),
            top + n <= u16::MAX,
        ensures
            op_views(final(out)@) == op_views(old(out)@) + self@.chat_rows(
                line_views(lines@),
                start as nat,
                top as nat,
                n as nat,
            ),
    {
        let ghost before = op_views(out@);
        let ghost ls = line_views(lines@);
        assert(before + Seq::<OpView>::empty() =~= before);
        let total: usize = lines.len();
        for k in 0..n
            invariant
                total == lines@.len(),
                start + n <= total,
                top + n <= u16::MAX,
                ls == line_views(lines@),
                op_views(out@) == before + self@.chat_rows(ls, start as nat, top as nat, k as nat),
        {
            assert(ls[start + k] == lines@[start + k]@);
            self.push_chat_row(out, &lines[start + k], start + k, (top + k) as u16);
            assert(op_views(out@) =~= before + self@.chat_rows(
                ls,
                start as nat,
                top as nat,
                (k + 1) as nat,
            ));
        }
    }

    /// How far up the chat is scrolled, in percent.
    fn percent(&self, total: usize, visible: usize) -> (r: u64)
        requires
            total > visible ==> self.scroll_offset + visible <= total,
        ensures
            r == if total > visible {
                least(
                    less(total as nat, self@.scroll_offset as nat + visible as nat) * 100 / (total
                        - visible) as nat,
                    100,
                )
            } else {
                0
            },
    {
        if total > visible {
            let above: u128 = (total - self.scroll_offset - visible) as u128;
            let percent: u128 = above * 100 / (total - visible) as u128;
            if percent <= 100 {
                percent as u64
            } else {
                100
            }
        } else {
            0
        }
    }

    /// Appends the mark in the corner of a chat that is scrolled up.
    fn push_scroll_badge(&self, out: &mut Vec<DrawOp>, total: usize, size: TermSize)
        requires
            self.wf(),
            total == self@.screen_lines(size).len(),
            self@.scroll_in_range(size),
        ensures
            op_views(final(out)@) == op_views(old(out)@) + self@.scroll_badge(size),
    {
        if self.scroll_offset == 0 {
            assert(op_views(out@) =~= op_views(old(out)@) + self@.scroll_badge(size));
            return;
        }
        let percent = self.percent(total, self.visible_lines(size));
        let mut text = String::new();
        text.push_str(" SCROLL ");
        text.push_str(decimal_of(percent).as_str());
        text.push_str("% ");
        assert(text@ =~= " SCROLL "@ + decimal(self@.scroll_percent(size)) + "% "@);
        let len = chars_of(text.as_str()).len();
        let x = minus(size.cols as usize, len) as u16;
        push_op(out, DrawOp::MoveTo(x, 0));
        push_background(out, self.chat_bg);
        push_op(out, DrawOp::SetForeground(Color::DarkYellow));
        push_print(out, text.as_str());
        push_op(out, DrawOp::ResetColor);
        assert(op_views(out@) =~= op_views(old(out)@) + self@.scroll_badge(size));
    }

    /// The chat on the screen, where it has to be painted again. Call
    /// [`Renderer::record_chat_drawn`] once it has been.
    pub fn render_viewport(&mut self, size: TermSize) -> (r: Option<Vec<DrawOp>>)
        requires
            old(self).wf(),
            old(self)@.chat_stale(size) ==> old(self)@.scroll_in_range(size),
        ensures
            final(self).wf(),
            final(self)@ == old(self)@,
            match r {
                Some(ops) => old(self)@.chat_stale(size) && op_views(ops@) == old(self)@.viewport(
                    size,
                ),
                None => !old(self)@.chat_stale(size),
            },
    {
        if !self.chat_needs_redraw(size) {
            return None;
        }
        let ghost v = self@;
        let width = self.max_line_width(size);
        let visible = self.visible_lines(size);
        let lines = self.chat_lines(width);
        let ghost ls = line_views(lines@);
        let total: usize = lines.len();
        assert(ls.len() == total);
        let pad: usize = if self.scroll_offset == 0 {
            minus(visible, total)
        } else {
            0
        };
        let start = minus(minus(total, visible), self.scroll_offset);
        assert(start == v.first_line(size));
        let n = smaller(minus(visible, pad), minus(total, start));
        let mut out: Vec<DrawOp> = Vec::new();
        push_op(&mut out, DrawOp::HideCursor);
        assert(op_views(out@) =~= seq![OpView::HideCursor]);
        push_empty_rows(&mut out, 0, pad as u16, self.chat_bg);
        self.push_chat_rows(&mut out, &lines, start, pad, n);
        push_empty_rows(&mut out, (pad + n) as u16, visible as u16, self.chat_bg);
        self.push_scroll_badge(&mut out, total, size);
        push_op(&mut out, DrawOp::Flush);
        assert(op_views(out@) =~= v.viewport(size));
        Some(out)
    }

    /// Scrolls the chat to its end. What is returned is to be painted.
    pub fn scroll_to_bottom(&mut self, size: TermSize) -> (r: Option<Vec<DrawOp>>)
        requires
            old(self).wf(),
        ensures
            final(self).wf(),
            final(self)@ == old(self)@.scrolled(0).committed(),
            match r {
                Some(ops) => final(self)@.chat_stale(size)
                    && op_views(ops@) == final(self)@.viewport(size),
                None => !final(self)@.chat_stale(size),
            },
    {
        self.scroll_to(0);
        self.commit_partial();
        self.render_viewport(size)
    }

    /// Appends a block in the role that `color` stands for. It is painted at
    /// once unless the chat is scrolled up.
    pub fn write_line(&mut self, text: &str, color: Color, size: TermSize) -> (r: Option<Vec<DrawOp>>)
        requires
            old(self).wf(),
        ensures
            final(self).wf(),
            final(self)@ == (RendererView {
                chat_dirty: true,
                ..old(self)@.committed().with_block(color_style(color), text@)
            }),
            r is Some <==> old(self)@.scroll_offset == 0,
            r matches Some(ops) ==> op_views(ops@) == final(self)@.viewport(size),
    {
        self.commit_partial();
        self.feed.push_block(style_from_color(color), text);
        self.chat_dirty = true;
        if self.scroll_offset == 0 {
            self.render_viewport(size)
        } else {
            None
        }
    }

    /// Writes text that may end in the middle of a line. It is painted at once
    /// unless the chat is scrolled up.
    pub fn write(&mut self, text: &str, color: Color, size: TermSize) -> (r: Option<Vec<DrawOp>>)
        requires
            old(self).wf(),
        ensures
            final(self).wf(),
            final(self)@ == old(self)@.written(text@, color),
            r is Some <==> old(self)@.scroll_offset == 0 && text@.len() > 0,
            r matches Some(ops) ==> op_views(ops@) == final(self)@.viewport(size),
    {
        let v = chars_of(text);
        if v.len() == 0 {
            return None;
        }
        let style = style_from_color(color);
        let parts = split_of(&v, '\n');
        let ghost ps = split(text@, '\n');
        let ghost start = self@;
        let last: usize = parts.len() - 1;
        assert(ps.len() == parts@.len());
        for i in 0..last
            invariant
                last == parts@.len() - 1,
                ps == crate::text::char_seqs(parts@),
                self.wf(),
                style == color_style(color),
                self@ == start.written_lines(style, ps, i as nat),
                i > 0 ==> self@.partial.len() == 0,
                self@.scroll_offset == start.scroll_offset,
        {
            assert(ps[i as int] == parts@[i as int]@);
            self.commit_partial();
            let s = string_of(&parts[i]);
            self.feed.push_block(style, s.as_str());
        }
        assert(ps.last() == parts@[last as int]@);
        self.partial_style = style;
        let s = string_of(&parts[last]);
        self.partial.push_str(s.as_str());
        self.chat_dirty = true;
        if self.scroll_offset == 0 {
            self.render_viewport(size)
        } else {
            None
        }
    }

    /// Removes all contents and clears the screen.
    pub fn clear_content(&mut self) -> (r: Vec<DrawOp>)
        requires
            old(self).wf(),
        ensures
            final(self).wf(),
            final(self)@ == (RendererView {
                feed: old(self)@.feed.changed(Seq::empty()),
                partial: Seq::empty(),
                scroll_offset: 0,
                chat_dirty: true,
                selection_active: false,
                selection_start: None,
                selection_end: None,
                ..old(self)@
            }),
            op_views(r@) == background(old(self)@.chat_bg) + seq![
                OpView::ClearAll,
                OpView::ResetColor,
                OpView::MoveTo(0, 0),
                OpView::Flush,
            ],
    {
        self.feed.clear();
        self.partial.clear();
        self.scroll_offset = 0;
        self.clear_selection();
        let mut out: Vec<DrawOp> = Vec::new();
        assert(op_views(out@) =~= Seq::<OpView>::empty());
        push_background(&mut out, self.chat_bg);
        push_op(&mut out, DrawOp::ClearAll);
        push_op(&mut out, DrawOp::ResetColor);
        push_op(&mut out, DrawOp::MoveTo(0, 0));
        push_op(&mut out, DrawOp::Flush);
        assert(op_views(out@) =~= background(self.chat_bg) + seq![
            OpView::ClearAll,
            OpView::ResetColor,
            OpView::MoveTo(0, 0),
            OpView::Flush,
        ]);
        out
    }
}

// ---------------------------------------------------------------------------
// The bottom
// ---------------------------------------------------------------------------

/// Frame `frame` of the spinner.
pub open spec fn spinner(frame: u8) -> Seq<char> {
    if frame == 0 {
        "\u{280b} "@
    } else if frame == 1 {
        "\u{2819} "@
    } else if frame == 2 {
        "\u{2839} "@
    } else if frame == 3 {
        "\u{2838} "@
    } else if frame == 4 {
        "\u{283c} "@
    } else if frame == 5 {
        "\u{2834} "@
    } else if frame == 6 {
        "\u{2826} "@
    } else if frame == 7 {
        "\u{2827} "@
    } else if frame == 8 {
        "\u{2807} "@
    } else {
        "\u{280f} "@
    }
}

/// Frame `frame` of the spinner.
fn spinner_text(frame: u8) -> (r: &'static str)
    ensures
        r@ == spinner(frame),
        r@.len() == 2,
{
    proof {
        reveal_strlit("\u{280b} ");
        reveal_strlit("\u{2819} ");
        reveal_strlit("\u{2839} ");
        reveal_strlit("\u{2838} ");
        reveal_strlit("\u{283c} ");
        reveal_strlit("\u{2834} ");
        reveal_strlit("\u{2826} ");
        reveal_strlit("\u{2827} ");
        reveal_strlit("\u{2807} ");
        reveal_strlit("\u{280f} ");
    }
    match frame {
        0 => "\u{280b} ",
        1 => "\u{2819} ",
        2 => "\u{2839} ",
        3 => "\u{2838} ",
        4 => "\u{283c} ",
        5 => "\u{2834} ",
        6 => "\u{2826} ",
        7 => "\u{2827} ",
        8 => "\u{2807} ",
        _ => "\u{280f} ",
    }
}

/// What the bottom of the screen is painted from.
pub struct BottomInput {
    pub input: Seq<char>,
    pub cursor_pos: usize,
    pub cursor_line: usize,
    pub cursor_col: usize,
    pub status: Seq<Seq<SpanView>>,
    pub is_running: bool,
}

/// The keys that answer a chain's question.
pub open spec fn chain_options(but_mode: bool) -> Seq<char> {
    if but_mode {
        "[Enter] send  [Esc] cancel"@
    } else {
        "[Y] Yes  [N] No  [B] yes, But (add instruction)"@
    }
}

impl RendererView {
    /// The plan for the next frame.
    pub open spec fn bottom_plan(self, b: BottomInput, size: TermSize) -> BottomRedrawPlan {
        redraw_plan(
            self.last_bottom_snapshot,
            self.bottom_snapshot(b.input, b.cursor_pos, b.status, b.is_running, size),
            self.bottom_dirty,
        )
    }

    /// Whether the next frame paints the input rather than a question.
    pub open spec fn paints_input(self, b: BottomInput, size: TermSize) -> bool {
        self.bottom_plan(b, size) is Full && self.permission_prompt is None
            && self.chain_prompt is None
    }

    /// What stands before the input.
    pub open spec fn prompt_text(self, is_running: bool) -> Seq<char> {
        if is_running {
            spinner(self.spinner_frame)
        } else {
            "> "@
        }
    }

    /// The frame of the input area.
    pub open spec fn input_frame(self, b: BottomInput, size: TermSize) -> InputFrame {
        InputFrame {
            lines: split(b.input, '\n'),
            cursor_pos: b.cursor_pos,
            cursor_line: b.cursor_line,
            cursor_col: b.cursor_col,
            prompt_width: text_width(self.feed.widths, self.prompt_text(b.is_running)),
            cols: size.cols as nat,
            available: self.available(size),
        }
    }

    /// The status line.
    pub open spec fn status_ops(self, status: Seq<Seq<SpanView>>, scrolling: bool, size: TermSize) -> Seq<
        OpView,
    > {
        status_rows(
            self.feed.widths,
            status,
            self.statusline_height as nat,
            size,
            scrolling,
            self.status_bg,
            self.statusline_height as nat,
        )
    }

    /// The separator below the input, where it does not fall on the last row.
    pub open spec fn separator_below(self, size: TermSize) -> Seq<OpView> {
        let y = less(size.rows as nat, (self.reserve() - 1) as nat);
        if y < less(size.rows as nat, 1) {
            separator(y as u16, size.cols as nat, self.input_bg)
        } else {
            Seq::empty()
        }
    }

    /// One line of a question.
    pub open spec fn question_row(self, text: Seq<char>, y: nat) -> Seq<OpView> {
        seq![OpView::MoveTo(0, y as u16)] + background(self.input_bg) + seq![
            OpView::SetForeground(Color::DarkYellow),
            OpView::Print(text),
        ] + end_of_row()
    }

    /// A question of two lines in place of the input.
    pub open spec fn question_ops(
        self,
        first: Seq<char>,
        second: Seq<char>,
        status: Seq<Seq<SpanView>>,
        size: TermSize,
    ) -> Seq<OpView> {
        let top = less(self.available(size), 2) + 1;
        shrunk_rows(self.available(size), self.prev_input_height as nat, 2, self.input_bg)
            + separator((top - 1) as u16, size.cols as nat, self.input_bg) + self.question_row(
            first,
            top,
        ) + self.question_row(second, top + 1) + self.separator_below(size) + self.status_ops(
            status,
            false,
            size,
        ) + seq![OpView::HideCursor, OpView::Flush]
    }

    /// The input.
    pub open spec fn input_ops(self, b: BottomInput, size: TermSize) -> Seq<OpView> {
        let f = self.input_frame(b, size);
        let t = self.feed.widths;
        let (x, y) = f.caret(t, self.input);
        shrunk_rows(
            self.available(size),
            self.prev_input_height as nat,
            f.visible(),
            self.input_bg,
        ) + separator((f.top() - 1) as u16, size.cols as nat, self.input_bg) + input_rows(
            f,
            t,
            self.input,
            self.prompt_text(b.is_running),
            self.input_bg,
            f.visible(),
        ) + self.separator_below(size) + self.status_ops(b.status, self.scroll_offset > 0, size)
            + seq![OpView::MoveTo(x as u16, y as u16), OpView::ShowCursor, OpView::Flush]
    }

    /// The status line alone, with the cursor put back where it was.
    pub open spec fn status_only_ops(self, b: BottomInput, size: TermSize) -> Seq<OpView> {
        let snapshot = self.bottom_snapshot(b.input, b.cursor_pos, b.status, b.is_running, size);
        self.status_ops(b.status, snapshot.scroll_indicator, size) + match self.bottom_cursor {
            Some((x, y)) => seq![OpView::MoveTo(x, y), OpView::ShowCursor, OpView::Flush],
            None => seq![OpView::HideCursor, OpView::Flush],
        }
    }

    /// All that is painted.
    pub open spec fn bottom_ops(self, b: BottomInput, size: TermSize) -> Seq<OpView> {
        match self.bottom_plan(b, size) {
            BottomRedrawPlan::Skip => Seq::empty(),
            BottomRedrawPlan::StatuslineOnly => self.status_only_ops(b, size),
            BottomRedrawPlan::Full => match (self.permission_prompt, self.chain_prompt) {
                (Some((tool, options)), _) => self.question_ops(tool, options, b.status, size),
                (None, Some(question)) => self.question_ops(
                    question,
                    chain_options(self.chain_but_mode),
                    b.status,
                    size,
                ),
                _ => self.input_ops(b, size),
            },
        }
    }

    /// The state after painting.
    pub open spec fn bottom_painted(self, b: BottomInput, size: TermSize) -> RendererView {
        if !(self.bottom_plan(b, size) is Full) {
            self
        } else if !self.paints_input(b, size) {
            RendererView { prev_input_height: 2, ..self }
        } else {
            let f = self.input_frame(b, size);
            RendererView {
                spinner_frame: if b.is_running {
                    ((self.spinner_frame + 1) % 10) as u8
                } else {
                    self.spinner_frame
                },
                input: f.layout(self.feed.widths, self.input),
                prev_input_height: f.visible() as usize,
                ..self
            }
        }
    }

    /// What is recorded once it is painted. A settled scroll position of the
    /// input counts as painted; the spinner keeps the frame it had, so that a
    /// running one differs from the next.
    pub open spec fn bottom_record(self, b: BottomInput, size: TermSize) -> BottomView {
        let snapshot = self.bottom_snapshot(b.input, b.cursor_pos, b.status, b.is_running, size);
        if self.paints_input(b, size) {
            BottomView {
                input_vscroll_offset: self.input_frame(b, size).vscroll(self.input) as usize,
                ..snapshot
            }
        } else {
            snapshot
        }
    }

    /// Where the cursor is left.
    pub open spec fn bottom_caret(self, b: BottomInput, size: TermSize) -> Option<(u16, u16)> {
        if self.paints_input(b, size) {
            let (x, y) = self.input_frame(b, size).caret(self.feed.widths, self.input);
            Some((x as u16, y as u16))
        } else if self.bottom_plan(b, size) is Full {
            None
        } else {
            self.bottom_cursor
        }
    }
}

/// The bottom of the screen, to be painted and then recorded as painted.
pub struct BottomFrame {
    pub ops: Vec<DrawOp>,
    pub record: BottomSnapshot,
    pub cursor: Option<(u16, u16)>,
}

/// A copy of a status line.
fn copy_status(v: &Vec<Vec<StatusSpan>>) -> (r: Vec<Vec<StatusSpan>>)
    ensures
        status_views(r@) == status_views(v@),
{
    let mut r: Vec<Vec<StatusSpan>> = Vec::new();
    let ghost whole = status_views(v@);
    let n: usize = v.len();
    assert(status_views(r@) =~= whole.take(0));
    for i in 0..n
        invariant
            n == v@.len(),
            whole == status_views(v@),
            status_views(r@) == whole.take(i as int),
    {
        let row = copy_spans(&v[i]);
        assert(whole[i as int] == span_views(v@[i as int]@));
        let ghost before = status_views(r@);
        r.push(row);
        assert(status_views(r@) =~= before.push(span_views(row@)));
        assert(whole.take(i as int).push(whole[i as int]) =~= whole.take(i + 1));
    }
    assert(whole.take(n as int) =~= whole);
    r
}

/// A copy of a row of spans.
fn copy_spans(v: &Vec<StatusSpan>) -> (r: Vec<StatusSpan>)
    ensures
        span_views(r@) == span_views(v@),
{
    let mut r: Vec<StatusSpan> = Vec::new();
    let ghost whole = span_views(v@);
    let n: usize = v.len();
    assert(span_views(r@) =~= whole.take(0));
    for i in 0..n
        invariant
            n == v@.len(),
            whole == span_views(v@),
            span_views(r@) == whole.take(i as int),
    {
        let span = match &v[i] {
            StatusSpan::Text { text, fg, bg } => StatusSpan::Text {
                text: text.clone(),
                fg: *fg,
                bg: *bg,
            },
            StatusSpan::Flex => StatusSpan::Flex,
        };
        assert(whole[i as int] == span@);
        let ghost before = span_views(r@);
        r.push(span);
        assert(span_views(r@) =~= before.push(span@));
        assert(whole.take(i as int).push(whole[i as int]) =~= whole.take(i + 1));
    }
    assert(whole.take(n as int) =~= whole);
    r
}

impl Renderer {
    /// What the bottom of the screen is to show.
    fn bottom_snapshot(
        &self,
        input_line: &str,
        cursor_pos: usize,
        statusline: &Vec<Vec<StatusSpan>>,
        is_running: bool,
        size: TermSize,
    ) -> (r: BottomSnapshot)
        ensures
            r@ == self@.bottom_snapshot(
                input_line@,
                cursor_pos,
                status_views(statusline@),
                is_running,
                size,
            ),
    {
        let prompt = match (&self.permission_prompt, &self.chain_prompt) {
            (Some(p), _) => PromptSnapshot::Permission {
                tool: string_of(&chars_of(p.tool.as_str())),
                options: string_of(&chars_of(p.options.as_str())),
            },
            (None, Some(p)) => PromptSnapshot::Chain {
                question: string_of(&chars_of(p.question.as_str())),
                but_mode: self.chain_but_mode,
            },
            (None, None) => PromptSnapshot::Input,
        };
        let plain = self.permission_prompt.is_none() && self.chain_prompt.is_none();
        BottomSnapshot {
            cols: size.cols,
            rows: size.rows,
            statusline_height: self.statusline_height,
            input: string_of(&chars_of(input_line)),
            cursor_pos,
            is_running,
            spinner_frame: self.spinner_frame,
            input_vscroll_offset: self.input.vscroll,
            prompt,
            statusline: copy_status(statusline),
            scroll_indicator: plain && self.scroll_offset > 0,
            monochrome: self.monochrome,
            input_bg: self.input_bg,
            status_bg: self.status_bg,
        }
    }

    /// Appends the separator below the input.
    fn push_separator_below(&self, out: &mut Vec<DrawOp>, size: TermSize)
        requires
            self.wf(),
        ensures
            op_views(final(out)@) == op_views(old(out)@) + self@.separator_below(size),
    {
        let below: u16 = self.statusline_reserve() - 1;
        let y: u16 = if size.rows >= below {
            size.rows - below
        } else {
            0
        };
        let last: u16 = if size.rows >= 1 {
            size.rows - 1
        } else {
            0
        };
        if y < last {
            draw_separator(out, y, size.cols, self.input_bg);
        } else {
            assert(op_views(out@) =~= op_views(old(out)@) + Seq::<OpView>::empty());
        }
    }

    /// Appends the status line.
    fn push_status(
        &self,
        out: &mut Vec<DrawOp>,
        statusline: &Vec<Vec<StatusSpan>>,
        scrolling: bool,
        size: TermSize,
    )
        requires
            self.wf(),
        ensures
            op_views(final(out)@) == op_views(old(out)@) + self@.status_ops(
                status_views(statusline@),
                scrolling,
                size,
            ),
    {
        draw_statusline(
            out,
            statusline,
            self.statusline_height as u16,
            size,
            scrolling,
            self.status_bg,
            self.feed.char_widths(),
        );
    }

    /// Appends one line of a question.
    fn push_question_row(&self, out: &mut Vec<DrawOp>, text: &str, y: u16)
        ensures
            op_views(final(out)@) == op_views(old(out)@) + self@.question_row(text@, y as nat),
    {
        push_op(out, DrawOp::MoveTo(0, y));
        push_background(out, self.input_bg);
        push_op(out, DrawOp::SetForeground(Color::DarkYellow));
        push_print(out, text);
        push_end_of_row(out);
        assert(op_views(out@) =~= op_views(old(out)@) + self@.question_row(text@, y as nat));
    }

    /// A question of two lines in place of the input.
    fn question(
        &self,
        first: &str,
        second: &str,
        statusline: &Vec<Vec<StatusSpan>>,
        size: TermSize,
    ) -> (r: Vec<DrawOp>)
        requires
            self.wf(),
        ensures
            op_views(r@) == self@.question_ops(
                first@,
                second@,
                status_views(statusline@),
                size,
            ),
    {
        let available = self.available_rows(size);
        let top: u16 = if available >= 2 {
            available - 2 + 1
        } else {
            1
        };
        let mut out: Vec<DrawOp> = Vec::new();
        assert(op_views(out@) =~= Seq::<OpView>::empty());
        clear_shrunk_rows(&mut out, available, self.prev_input_height, 2, self.input_bg);
        draw_separator(&mut out, top - 1, size.cols, self.input_bg);
        self.push_question_row(&mut out, first, top);
        self.push_question_row(&mut out, second, top + 1);
        self.push_separator_below(&mut out, size);
        self.push_status(&mut out, statusline, false, size);
        push_op(&mut out, DrawOp::HideCursor);
        push_op(&mut out, DrawOp::Flush);
        assert(op_views(out@) =~= self@.question_ops(
            first@,
            second@,
            status_views(statusline@),
            size,
        ));
        out
    }

    /// The status line alone.
    fn status_only(
        &self,
        statusline: &Vec<Vec<StatusSpan>>,
        scrolling: bool,
        size: TermSize,
    ) -> (r: Vec<DrawOp>)
        requires
            self.wf(),
        ensures
            op_views(r@) == self@.status_ops(status_views(statusline@), scrolling, size)
                + match self@.bottom_cursor {
                Some((x, y)) => seq![OpView::MoveTo(x, y), OpView::ShowCursor, OpView::Flush],
                None => seq![OpView::HideCursor, OpView::Flush],
            },
    {
        let mut out: Vec<DrawOp> = Vec::new();
        assert(op_views(out@) =~= Seq::<OpView>::empty());
        self.push_status(&mut out, statusline, scrolling, size);
        let ghost rows = op_views(out@);
        assert(rows =~= self@.status_ops(status_views(statusline@), scrolling, size));
        match self.bottom_cursor {
            Some((x, y)) => {
                push_op(&mut out, DrawOp::MoveTo(x, y));
                push_op(&mut out, DrawOp::ShowCursor);
                push_op(&mut out, DrawOp::Flush);
                assert(op_views(out@) =~= rows + seq![
                    OpView::MoveTo(x, y),
                    OpView::ShowCursor,
                    OpView::Flush,
                ]);
            },
            None => {
                push_op(&mut out, DrawOp::HideCursor);
                push_op(&mut out, DrawOp::Flush);
                assert(op_views(out@) =~= rows + seq![OpView::HideCursor, OpView::Flush]);
            },
        }
        out
    }

    /// What stands before the input.
    fn prompt(&self, is_running: bool) -> (r: &'static str)
        ensures
            r@ == self@.prompt_text(is_running),
            r@.len() == 2,
    {
        proof {
            reveal_strlit("> ");
        }
        if is_running {
            spinner_text(self.spinner_frame)
        } else {
            "> "
        }
    }

    /// The frame of the input area.
    fn input_area(
        &self,
        prompt: &str,
        input_line: &str,
        cursor_pos: usize,
        cursor_at: (usize, usize),
        size: TermSize,
    ) -> (r: InputArea)
        requires
            self.wf(),
            prompt@.len() == 2,
        ensures
            r@ == (InputFrame {
                lines: split(input_line@, '\n'),
                cursor_pos,
                cursor_line: cursor_at.0,
                cursor_col: cursor_at.1,
                prompt_width: text_width(self@.feed.widths, prompt@),
                cols: size.cols as nat,
                available: self@.available(size),
            }),
            r.prompt_width <= 4,
            r.lines@.len() > 0,
            r.available == self@.available(size),
            r.available < u16::MAX,
    {
        proof {
            lemma_width_bound(self@.feed.widths, prompt@);
        }
        InputArea {
            lines: split_of(&chars_of(input_line), '\n'),
            cursor_pos,
            cursor_line: cursor_at.0,
            cursor_col: cursor_at.1,
            prompt_width: self.feed.char_widths().display_width(prompt),
            cols: size.cols,
            available: self.available_rows(size),
        }
    }

    /// Paints the input in its layout.
    fn input_drawing(
        &self,
        area: &InputArea,
        layout: &InputView,
        caret: (u16, u16),
        prompt: &str,
        statusline: &Vec<Vec<StatusSpan>>,
        size: TermSize,
    ) -> (r: Vec<DrawOp>)
        requires
            self.wf(),
            area.lines@.len() > 0,
            0 < area.available < u16::MAX,
            area.available == self@.available(size),
            *layout == area@.layout(self@.feed.widths, self@.input),
            layout.wf(),
            layout.vscroll == area@.vscroll(self@.input),
            layout.visible_count == area@.visible(),
            layout.h_scroll == area@.h_scroll(self@.feed.widths, self@.input),
            layout.base_row == area@.top(),
        ensures
            op_views(r@) == shrunk_rows(
                self@.available(size),
                self@.prev_input_height as nat,
                area@.visible(),
                self@.input_bg,
            ) + separator((area@.top() - 1) as u16, size.cols as nat, self@.input_bg) + input_rows(
                area@,
                self@.feed.widths,
                self@.input,
                prompt@,
                self@.input_bg,
                area@.visible(),
            ) + self@.separator_below(size) + self@.status_ops(
                status_views(statusline@),
                self@.scroll_offset > 0,
                size,
            ) + seq![OpView::MoveTo(caret.0, caret.1), OpView::ShowCursor, OpView::Flush],
    {
        let mut out: Vec<DrawOp> = Vec::new();
        assert(op_views(out@) =~= Seq::<OpView>::empty());
        clear_shrunk_rows(
            &mut out,
            area.available,
            self.prev_input_height,
            layout.visible_count,
            self.input_bg,
        );
        let ghost cleared = shrunk_rows(
            self@.available(size),
            self@.prev_input_height as nat,
            area@.visible(),
            self@.input_bg,
        );
        assert(op_views(out@) =~= cleared);
        draw_separator(&mut out, layout.base_row - 1, size.cols, self.input_bg);
        area.push_rows(
            &mut out,
            &self.input,
            layout,
            prompt,
            self.input_bg,
            self.feed.char_widths(),
        );
        self.push_separator_below(&mut out, size);
        self.push_status(&mut out, statusline, self.scroll_offset > 0, size);
        let ghost painted = op_views(out@);
        push_op(&mut out, DrawOp::MoveTo(caret.0, caret.1));
        push_op(&mut out, DrawOp::ShowCursor);
        push_op(&mut out, DrawOp::Flush);
        assert(op_views(out@) =~= painted + seq![
            OpView::MoveTo(caret.0, caret.1),
            OpView::ShowCursor,
            OpView::Flush,
        ]);
        out
    }

    /// The input. Settles its layout.
    fn paint_input(
        &mut self,
        input_line: &str,
        cursor_pos: usize,
        cursor_at: (usize, usize),
        statusline: &Vec<Vec<StatusSpan>>,
        is_running: bool,
        size: TermSize,
    ) -> (r: (Vec<DrawOp>, (u16, u16)))
        requires
            old(self).wf(),
            size.rows > old(self)@.reserve(),
        ensures
            final(self).wf(),
            ({
                let v = old(self)@;
                let b = BottomInput {
                    input: input_line@,
                    cursor_pos,
                    cursor_line: cursor_at.0,
                    cursor_col: cursor_at.1,
                    status: status_views(statusline@),
                    is_running,
                };
                let f = v.input_frame(b, size);
                &&& final(self)@ == (RendererView {
                    spinner_frame: if is_running {
                        ((v.spinner_frame + 1) % 10) as u8
                    } else {
                        v.spinner_frame
                    },
                    input: f.layout(v.feed.widths, v.input),
                    prev_input_height: f.visible() as usize,
                    ..v
                })
                &&& op_views(r.0@) == v.input_ops(b, size)
                &&& (r.1.0 as nat, r.1.1 as nat) == f.caret(v.feed.widths, v.input)
                &&& final(self)@.input.vscroll == f.vscroll(v.input)
            }),
    {
        let ghost v = self@;
        let ghost b = BottomInput {
            input: input_line@,
            cursor_pos,
            cursor_line: cursor_at.0,
            cursor_col: cursor_at.1,
            status: status_views(statusline@),
            is_running,
        };
        let prompt = self.prompt(is_running);
        let area = self.input_area(prompt, input_line, cursor_pos, cursor_at, size);
        assert(area@ == v.input_frame(b, size));
        let last = self.input;
        let layout = area.layout(&last, self.feed.char_widths());
        let caret = area.caret(&last, &layout, self.feed.char_widths());
        let out = self.input_drawing(&area, &layout, caret, prompt, statusline, size);
        if is_running {
            self.spinner_frame = (self.spinner_frame + 1) % 10;
        }
        self.input = layout;
        self.prev_input_height = layout.visible_count;
        (out, caret)
    }

    /// The bottom of the screen, where any of it has to be painted again. The
    /// cursor of the input is given as a byte offset and as line and column.
    /// Call [`Renderer::record_bottom_drawn`] once it has been painted.
    pub fn draw_bottom(
        &mut self,
        input_line: &str,
        cursor_pos: usize,
        cursor_at: (usize, usize),
        statusline: &Vec<Vec<StatusSpan>>,
        is_running: bool,
        size: TermSize,
    ) -> (r: Option<BottomFrame>)
        requires
            old(self).wf(),
            old(self)@.paints_input(
                (BottomInput {
                    input: input_line@,
                    cursor_pos,
                    cursor_line: cursor_at.0,
                    cursor_col: cursor_at.1,
                    status: status_views(statusline@),
                    is_running,
                }),
                size,
            ) ==> size.rows > old(self)@.reserve(),
        ensures
            final(self).wf(),
            ({
                let v = old(self)@;
                let b = BottomInput {
                    input: input_line@,
                    cursor_pos,
                    cursor_line: cursor_at.0,
                    cursor_col: cursor_at.1,
                    status: status_views(statusline@),
                    is_running,
                };
                &&& final(self)@ == v.bottom_painted(b, size)
                &&& r is None <==> v.bottom_plan(b, size) is Skip
                &&& r matches Some(frame) ==> {
                    &&& op_views(frame.ops@) == v.bottom_ops(b, size)
                    &&& frame.record@ == v.bottom_record(b, size)
                    &&& frame.cursor == v.bottom_caret(b, size)
                }
            }),
    {
        let ghost v = self@;
        let snapshot = self.bottom_snapshot(input_line, cursor_pos, statusline, is_running, size);
        let plan = bottom_redraw_plan(
            self.last_bottom_snapshot.as_ref(),
            &snapshot,
            self.bottom_dirty,
        );
        match plan {
            BottomRedrawPlan::Skip => {
                return None;
            },
            BottomRedrawPlan::StatuslineOnly => {
                let ops = self.status_only(statusline, snapshot.scroll_indicator, size);
                return Some(BottomFrame { ops, record: snapshot, cursor: self.bottom_cursor });
            },
            BottomRedrawPlan::Full => {},
        }
        if let Some(p) = &self.permission_prompt {
            let ops = self.question(p.tool.as_str(), p.options.as_str(), statusline, size);
            self.prev_input_height = 2;
            return Some(BottomFrame { ops, record: snapshot, cursor: None });
        }
        if let Some(p) = &self.chain_prompt {
            let options: &str = if self.chain_but_mode {
                "[Enter] send  [Esc] cancel"
            } else {
                "[Y] Yes  [N] No  [B] yes, But (add instruction)"
            };
            let ops = self.question(p.question.as_str(), options, statusline, size);
            self.prev_input_height = 2;
            return Some(BottomFrame { ops, record: snapshot, cursor: None });
        }
        let (ops, caret) = self.paint_input(
            input_line,
            cursor_pos,
            cursor_at,
            statusline,
            is_running,
            size,
        );
        let mut record = snapshot;
        record.input_vscroll_offset = self.input.vscroll;
        Some(BottomFrame { ops, record, cursor: Some(caret) })
    }

    /// Records that the bottom of the screen was painted.
    pub fn record_bottom_drawn(&mut self, record: BottomSnapshot, cursor: Option<(u16, u16)>)
        requires
            old(self).wf(),
        ensures
            final(self).wf(),
            final(self)@ == (RendererView {
                last_bottom_snapshot: Some(record@),
                bottom_dirty: false,
                bottom_cursor: cursor,
                ..old(self)@
            }),
    {
        self.last_bottom_snapshot = Some(record);
        self.bottom_dirty = false;
        self.bottom_cursor = cursor;
    }
}

/// A frame painted and recorded is not painted again as long as nothing
/// changes, unless the spinner runs.
pub proof fn lemma_settled_frame(v: RendererView, b: BottomInput, size: TermSize)
    requires
        !b.is_running,
    ensures
        ({
            let painted = v.bottom_painted(b, size);
            let recorded = RendererView {
                last_bottom_snapshot: Some(v.bottom_record(b, size)),
                bottom_dirty: false,
                bottom_cursor: v.bottom_caret(b, size),
                ..painted
            };
            !(v.bottom_plan(b, size) is Skip) ==> recorded.bottom_plan(b, size) is Skip
        }),
{
}

/// While the spinner runs, an input area that was painted is painted again.
pub proof fn lemma_spinner_runs(v: RendererView, b: BottomInput, size: TermSize)
    requires
        b.is_running,
        v.spinner_frame < 10,
        v.paints_input(b, size),
    ensures
        ({
            let recorded = RendererView {
                last_bottom_snapshot: Some(v.bottom_record(b, size)),
                bottom_dirty: false,
                bottom_cursor: v.bottom_caret(b, size),
                ..v.bottom_painted(b, size)
            };
            recorded.bottom_plan(b, size) is Full
        }),
{
    let next = v.bottom_painted(b, size);
    assert(next.spinner_frame != v.spinner_frame);
}

/// The height of the input that the chat is painted against is the one that
/// the input is painted with.
pub proof fn lemma_input_height_agrees(v: RendererView, b: BottomInput, size: TermSize)
    requires
        size.rows > v.reserve(),
        v.bottom_plan(b, size) is Full,
    ensures
        v.bottom_painted(b, size).prev_input_height == v.input_height(b.input, size),
{
    lemma_split_nonempty(b.input, '\n');
}

/// The cursor is left within the rows of the input, even where its line is
/// scrolled out of view.
pub proof fn lemma_caret_in_input(v: RendererView, b: BottomInput, size: TermSize)
    requires
        size.rows > v.reserve(),
        v.paints_input(b, size),
    ensures
        ({
            let f = v.input_frame(b, size);
            f.top() <= f.caret(v.feed.widths, v.input).1 < f.top() + f.visible()
        }),
{
    lemma_split_nonempty(b.input, '\n');
}

/// Equal snapshots of the chat mean equal frames: what is not painted again is
/// on the screen already.
pub proof fn lemma_same_chat(v: RendererView, w: RendererView, size: TermSize, other: TermSize)
    requires
        v.chat_snapshot(size) == w.chat_snapshot(other),
        v.feed.blocks == w.feed.blocks,
        v.feed.widths == w.feed.widths,
    ensures
        v.viewport(size) == w.viewport(other),
{
    let ls = v.screen_lines(size);
    assert(w.screen_lines(other) == ls);
    let visible = v.visible(size);
    let pad = v.top_padding(size);
    let start = v.first_line(size);
    lemma_same_rows(v, w, ls, start, pad, least(less(visible, pad), less(ls.len(), start)));
}

proof fn lemma_same_rows(
    v: RendererView,
    w: RendererView,
    ls: Seq<LineView>,
    start: nat,
    top: nat,
    n: nat,
)
    requires
        v.chat_margin == w.chat_margin,
        v.chat_bg == w.chat_bg,
        v.selection_active == w.selection_active,
        v.selection_start == w.selection_start,
        v.selection_end == w.selection_end,
    ensures
        v.chat_rows(ls, start, top, n) == w.chat_rows(ls, start, top, n),
    decreases n,
{
    if n > 0 {
        lemma_same_rows(v, w, ls, start, top, (n - 1) as nat);
    }
}

/// A change to the feed is noticed, by whichever way it was made.
pub proof fn lemma_feed_change_noticed(v: RendererView, blocks: Seq<BlockView>, size: TermSize)
    requires
        !v.chat_stale(size),
    ensures
        (RendererView { feed: v.feed.changed(blocks), ..v }).chat_stale(size),
{
}

/// What is compared between frames tells them apart: frames that compare equal have
/// the same input with the cursor at the same place, the same status line, and the
/// same questions to the user.
pub proof fn lemma_frames_told_apart(
    v: RendererView,
    w: RendererView,
    a: BottomInput,
    b: BottomInput,
    size: TermSize,
    other: TermSize,
)
    requires
        v.bottom_snapshot(a.input, a.cursor_pos, a.status, a.is_running, size)
            == w.bottom_snapshot(b.input, b.cursor_pos, b.status, b.is_running, other),
    ensures
        a.input == b.input,
        a.cursor_pos == b.cursor_pos,
        a.status == b.status,
        a.is_running == b.is_running,
        size == other,
        v.permission_prompt == w.permission_prompt,
        v.permission_prompt is None ==> v.chain_prompt == w.chain_prompt,
        v.permission_prompt is None && v.chain_prompt is Some ==> v.chain_but_mode
            == w.chain_but_mode,
        v.input.vscroll == w.input.vscroll,
        v.spinner_frame == w.spinner_frame,
        v.input_bg == w.input_bg && v.status_bg == w.status_bg && v.monochrome == w.monochrome,
        v.statusline_height == w.statusline_height,
        v.permission_prompt is None && v.chain_prompt is None ==> (v.scroll_offset > 0) == (
        w.scroll_offset > 0),
{
}

} // verus!
