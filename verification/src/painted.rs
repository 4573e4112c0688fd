//! What a terminal shows after a list of drawing operations, and that it is what
//! was to be shown.

use vstd::prelude::*;

use crate::bottom::{
    area_top, click_target, first_of, fit_count, input_row, input_rows, lemma_cursor_in_view,
    lemma_fit_count, lemma_layout_in_range, line_at, separator, shown_text, shrunk_rows,
    InputFrame, InputView,
};
use crate::color::Color;
use crate::draw::{background, empty_row, empty_rows, end_of_row, OpView, TermSize};
use crate::line::LineView;
use crate::num::{least, less};
use crate::renderer::RendererView;
use crate::screen::{chain_options, BottomInput};
use crate::statusline::{
    first_chars, fixed_to, flex_room_of, flex_share, lemma_single_width, lemma_texts_have_room,
    single_width, row_opening, row_spans, spans_to, status_row, status_rows, FlexRoom, RowState,
    SpanView,
};
use crate::text::{decimal, lemma_split_nonempty, repeat};
use crate::urls::{
    gap_start, in_order, lemma_urls_in_order, linked, linked_to, urls, with_links,
};
use crate::width::{char_width, lemma_width_concat, text_width, WidthTable};

verus! {

// ---------------------------------------------------------------------------
// Links
// ---------------------------------------------------------------------------

/// One past the end of the control string that `s` is in at position `i`, or
/// behind the text where it does not end.
pub open spec fn control_end(s: Seq<char>, i: int) -> int
    decreases s.len() - i,
{
    if i < 0 || i + 1 >= s.len() {
        s.len() as int
    } else if s[i] == '\x1b' && s[i + 1] == '\\' {
        i + 2
    } else {
        control_end(s, i + 1)
    }
}

/// What a terminal shows of a text: all but the control strings in it.
pub open spec fn visible_text(s: Seq<char>) -> Seq<char>
    decreases s.len(),
{
    if s.len() == 0 {
        Seq::empty()
    } else if s.len() > 1 && s[0] == '\x1b' && s[1] == ']' {
        let e = control_end(s, 2);
        if 2 <= e <= s.len() {
            visible_text(s.skip(e))
        } else {
            Seq::empty()
        }
    } else {
        seq![s[0]] + visible_text(s.skip(1))
    }
}

/// Whether a text holds no escape character.
pub open spec fn unescaped(s: Seq<char>) -> bool {
    forall|i: int| 0 <= i < s.len() ==> #[trigger] s[i] != '\x1b'
}

proof fn lemma_visible_plain(a: Seq<char>, x: Seq<char>)
    requires
        unescaped(a),
    ensures
        visible_text(a + x) == a + visible_text(x),
    decreases a.len(),
{
    if a.len() == 0 {
        assert(a + x =~= x);
        assert(a + visible_text(x) =~= visible_text(x));
    } else {
        let b = a.skip(1);
        assert(a[0] != '\x1b');
        assert forall|i: int| 0 <= i < b.len() implies #[trigger] b[i] != '\x1b' by {
            assert(b[i] == a[i + 1]);
        }
        lemma_visible_plain(b, x);
        assert((a + x).skip(1) =~= b + x);
        assert(seq![a[0]] + (b + visible_text(x)) =~= a + visible_text(x));
    }
}

proof fn lemma_control_end(s: Seq<char>, i: int, j: int)
    requires
        0 <= i <= j,
        j + 1 < s.len(),
        s[j] == '\x1b',
        s[j + 1] == '\\',
        forall|k: int| i <= k < j ==> #[trigger] s[k] != '\x1b',
    ensures
        control_end(s, i) == j + 2,
    decreases j - i,
{
    if i < j {
        assert(s[i] != '\x1b');
        lemma_control_end(s, i + 1, j);
    }
}

/// A control string that opens or closes a link is not shown.
proof fn lemma_visible_control(url: Seq<char>, x: Seq<char>)
    requires
        unescaped(url),
    ensures
        visible_text("\x1b]8;;"@ + url + "\x1b\\"@ + x) == visible_text(x),
{
    reveal_strlit("\x1b]8;;");
    reveal_strlit("\x1b\\");
    let s = "\x1b]8;;"@ + url + "\x1b\\"@ + x;
    let j = 5 + url.len() as int;
    assert forall|k: int| 2 <= k < j implies #[trigger] s[k] != '\x1b' by {
        if k >= 5 {
            assert(s[k] == url[k - 5]);
        }
    }
    assert(s[j] == '\x1b');
    assert(s[j + 1] == '\\');
    lemma_control_end(s, 2, j);
    assert(s[0] == '\x1b' && s[1] == ']');
    assert(s.skip(j + 2) =~= x);
}

proof fn lemma_visible_link(url: Seq<char>, x: Seq<char>)
    requires
        unescaped(url),
    ensures
        visible_text(linked(url) + x) == url + visible_text(x),
{
    reveal_strlit("\x1b]8;;");
    reveal_strlit("\x1b\\");
    reveal_strlit("\x1b]8;;\x1b\\");
    let none = Seq::<char>::empty();
    let close = "\x1b]8;;"@ + none + "\x1b\\"@ + x;
    assert("\x1b]8;;\x1b\\"@ + x =~= close);
    assert(linked(url) + x =~= "\x1b]8;;"@ + url + "\x1b\\"@ + (url + close));
    lemma_visible_control(url, url + close);
    lemma_visible_plain(url, close);
    lemma_visible_control(none, x);
}

proof fn lemma_visible_linked_to(s: Seq<char>, us: Seq<(int, int)>, k: nat, x: Seq<char>)
    requires
        unescaped(s),
        in_order(s, us, 0),
        k <= us.len(),
    ensures
        visible_text(linked_to(s, us, k) + x) == s.take(gap_start(us, k)) + visible_text(x),
        0 <= gap_start(us, k) <= s.len(),
    decreases k,
{
    if k == 0 {
        assert(linked_to(s, us, k) + x =~= x);
        assert(s.take(0) + visible_text(x) =~= visible_text(x));
    } else {
        let m = (k - 1) as nat;
        let (i, j) = us[k - 1];
        let from = gap_start(us, m);
        let gap = s.subrange(from, i);
        let url = s.subrange(i, j);
        assert(us[k - 1].0 < us[k - 1].1);
        if m > 0 {
            assert(us[m - 1].0 < us[m - 1].1);
            assert(us[m - 1].1 <= us[m as int].0);
        }
        assert forall|q: int| 0 <= q < gap.len() implies #[trigger] gap[q] != '\x1b' by {
            assert(gap[q] == s[from + q]);
        }
        assert forall|q: int| 0 <= q < url.len() implies #[trigger] url[q] != '\x1b' by {
            assert(url[q] == s[i + q]);
        }
        let tail = gap + (linked(url) + x);
        assert(linked_to(s, us, k) + x =~= linked_to(s, us, m) + tail);
        lemma_visible_linked_to(s, us, m, tail);
        lemma_visible_plain(gap, linked(url) + x);
        lemma_visible_link(url, x);
        assert(s.take(from) + (gap + (url + visible_text(x))) =~= s.take(j) + visible_text(x));
    }
}

/// Marking addresses as links changes nothing of what a terminal shows.
pub proof fn lemma_links_not_shown(s: Seq<char>)
    requires
        unescaped(s),
    ensures
        visible_text(with_links(s)) == s,
{
    let us = urls(s);
    let end = gap_start(us, us.len());
    lemma_urls_in_order(s);
    lemma_visible_linked_to(s, us, us.len(), s.skip(end));
    let rest = s.skip(end);
    assert forall|q: int| 0 <= q < rest.len() implies #[trigger] rest[q] != '\x1b' by {
        assert(rest[q] == s[end + q]);
    }
    lemma_visible_plain(rest, Seq::empty());
    assert(rest + Seq::<char>::empty() =~= rest);
    assert(s.take(end) + rest =~= s);
}

// ---------------------------------------------------------------------------
// A terminal
// ---------------------------------------------------------------------------

/// Where a terminal writes next, and how.
pub struct Pen {
    pub row: Option<u16>,
    pub fg: Option<Color>,
    pub bg: Option<Color>,
    pub reverse: bool,
}

/// What was done in a row.
pub enum Mark {
    /// Writing began at a column.
    At(u16),
    Text { text: Seq<char>, fg: Option<Color>, bg: Option<Color>, reverse: bool },
    /// The rest of the row was cleared.
    Clear { bg: Option<Color> },
}

/// The pen after a list of operations.
pub open spec fn pen(ops: Seq<OpView>) -> Pen
    decreases ops.len(),
{
    if ops.len() == 0 {
        Pen { row: None, fg: None, bg: None, reverse: false }
    } else {
        let p = pen(ops.drop_last());
        match ops.last() {
            OpView::MoveTo(_, y) => Pen { row: Some(y), ..p },
            OpView::SetForeground(c) => Pen { fg: Some(c), ..p },
            OpView::DefaultForeground => Pen { fg: None, ..p },
            OpView::SetBackground(c) => Pen { bg: Some(c), ..p },
            OpView::ResetColor => Pen { fg: None, bg: None, reverse: false, ..p },
            OpView::Reverse => Pen { reverse: true, ..p },
            OpView::NoReverse => Pen { reverse: false, ..p },
            _ => p,
        }
    }
}

/// What a list of operations does in row `y`, in order.
pub open spec fn marks(ops: Seq<OpView>, y: u16) -> Seq<Mark>
    decreases ops.len(),
{
    if ops.len() == 0 {
        Seq::empty()
    } else {
        let before = marks(ops.drop_last(), y);
        let p = pen(ops.drop_last());
        match ops.last() {
            OpView::MoveTo(x, row) if row == y => before.push(Mark::At(x)),
            OpView::Print(text) if p.row == Some(y) => before.push(
                Mark::Text { text, fg: p.fg, bg: p.bg, reverse: p.reverse },
            ),
            OpView::ClearUntilNewLine if p.row == Some(y) => before.push(Mark::Clear { bg: p.bg }),
            _ => before,
        }
    }
}

/// Whether the pen writes in the terminal's own colors.
pub open spec fn plain_pen(ops: Seq<OpView>) -> bool {
    pen(ops).fg is None && pen(ops).bg is None && !pen(ops).reverse
}

proof fn lemma_op(ops: Seq<OpView>, op: OpView, y: u16)
    ensures
        pen(ops.push(op)) == ({
            let p = pen(ops);
            match op {
                OpView::MoveTo(_, y) => Pen { row: Some(y), ..p },
                OpView::SetForeground(c) => Pen { fg: Some(c), ..p },
                OpView::DefaultForeground => Pen { fg: None, ..p },
                OpView::SetBackground(c) => Pen { bg: Some(c), ..p },
                OpView::ResetColor => Pen { fg: None, bg: None, reverse: false, ..p },
                OpView::Reverse => Pen { reverse: true, ..p },
                OpView::NoReverse => Pen { reverse: false, ..p },
                _ => p,
            }
        }),
        marks(ops.push(op), y) == ({
            let p = pen(ops);
            match op {
                OpView::MoveTo(x, row) if row == y => marks(ops, y).push(Mark::At(x)),
                OpView::Print(text) if p.row == Some(y) => marks(ops, y).push(
                    Mark::Text { text, fg: p.fg, bg: p.bg, reverse: p.reverse },
                ),
                OpView::ClearUntilNewLine if p.row == Some(y) => marks(ops, y).push(
                    Mark::Clear { bg: p.bg },
                ),
                _ => marks(ops, y),
            }
        }),
{
    assert(ops.push(op).drop_last() =~= ops);
}

/// Begins a row.
proof fn lemma_begin_row(ops: Seq<OpView>, at: u16, bg: Option<Color>, y: u16)
    requires
        plain_pen(ops),
    ensures
        ({
            let r = ops.push(OpView::MoveTo(0, at)) + background(bg);
            &&& pen(r) == (Pen { row: Some(at), fg: None, bg, reverse: false })
            &&& marks(r, y) == if y == at {
                marks(ops, y).push(Mark::At(0))
            } else {
                marks(ops, y)
            }
        }),
{
    let a = ops.push(OpView::MoveTo(0, at));
    lemma_op(ops, OpView::MoveTo(0, at), y);
    match bg {
        Some(c) => {
            lemma_op(a, OpView::SetBackground(c), y);
            assert(a + background(bg) =~= a.push(OpView::SetBackground(c)));
        },
        None => {
            assert(a + background(bg) =~= a);
        },
    }
}

/// Ends a row.
proof fn lemma_end_row(ops: Seq<OpView>, y: u16)
    ensures
        ({
            let r = ops + end_of_row();
            &&& plain_pen(r)
            &&& pen(r).row == pen(ops).row
            &&& marks(r, y) == if pen(ops).row == Some(y) {
                marks(ops, y).push(Mark::Clear { bg: pen(ops).bg })
            } else {
                marks(ops, y)
            }
        }),
{
    lemma_op(ops, OpView::ClearUntilNewLine, y);
    lemma_op(ops.push(OpView::ClearUntilNewLine), OpView::ResetColor, y);
    assert(ops + end_of_row() =~= ops.push(OpView::ClearUntilNewLine).push(OpView::ResetColor));
}

/// An empty row shows nothing, from its start to its end.
proof fn lemma_empty_row(ops: Seq<OpView>, at: u16, bg: Option<Color>, y: u16)
    requires
        plain_pen(ops),
    ensures
        plain_pen(ops + empty_row(at, bg)),
        marks(ops + empty_row(at, bg), y) == if y == at {
            marks(ops, y) + seq![Mark::At(0), Mark::Clear { bg }]
        } else {
            marks(ops, y)
        },
{
    lemma_begin_row(ops, at, bg, y);
    let a = ops.push(OpView::MoveTo(0, at)) + background(bg);
    lemma_end_row(a, y);
    assert(ops + empty_row(at, bg) =~= a + end_of_row());
    assert(y == at ==> marks(ops + empty_row(at, bg), y) =~= marks(ops, y) + seq![
        Mark::At(0),
        Mark::Clear { bg },
    ]);
}

proof fn lemma_empty_rows(ops: Seq<OpView>, from: nat, to: nat, bg: Option<Color>, y: u16)
    requires
        plain_pen(ops),
        to <= u16::MAX,
    ensures
        plain_pen(ops + empty_rows(from, to, bg)),
        marks(ops + empty_rows(from, to, bg), y) == if from <= y < to {
            marks(ops, y) + seq![Mark::At(0), Mark::Clear { bg }]
        } else {
            marks(ops, y)
        },
    decreases to,
{
    if to <= from {
        assert(ops + empty_rows(from, to, bg) =~= ops);
    } else {
        let m = (to - 1) as nat;
        lemma_empty_rows(ops, from, m, bg, y);
        let a = ops + empty_rows(from, m, bg);
        lemma_empty_row(a, m as u16, bg, y);
        assert(ops + empty_rows(from, to, bg) =~= a + empty_row(m as u16, bg));
    }
}

// ---------------------------------------------------------------------------
// The chat
// ---------------------------------------------------------------------------

/// Whether line `i` is between the ends of the selection.
pub open spec fn in_selection(v: RendererView, i: int) -> bool {
    v.selection_active && v.selection_start is Some && v.selection_end is Some && ((
    v.selection_start->0 <= i && i <= v.selection_end->0) || (v.selection_end->0 <= i && i
        <= v.selection_start->0))
}

/// Whether what was done in a row shows line `i` of the chat: from its start the
/// margin and then the text, in the line's color, reversed where it is selected,
/// and nothing behind it.
pub open spec fn row_shows_line(row: Seq<Mark>, v: RendererView, l: LineView, i: int) -> bool {
    let m = if v.chat_margin > 0 {
        1int
    } else {
        0
    };
    &&& row.len() == 3 + m
    &&& row[0] == Mark::At(0)
    &&& m == 1 ==> row[1] == (Mark::Text {
        text: repeat(' ', v.chat_margin as nat),
        fg: None,
        bg: v.chat_bg,
        reverse: false,
    })
    &&& row[1 + m] matches Mark::Text { text, fg, bg, reverse } && {
        &&& unescaped(l.text) ==> visible_text(text) == l.text
        &&& fg == Some(l.color)
        &&& bg == v.chat_bg
        &&& reverse == in_selection(v, i)
    }
    &&& row[2 + m] == (Mark::Clear { bg: v.chat_bg })
}

/// Whether what was done in a row leaves it empty.
pub open spec fn row_shows_nothing(row: Seq<Mark>, v: RendererView) -> bool {
    row == seq![Mark::At(0), Mark::Clear { bg: v.chat_bg }]
}

#[verifier::spinoff_prover]
proof fn lemma_chat_row(ops: Seq<OpView>, v: RendererView, l: LineView, i: int, at: u16, y: u16)
    requires
        plain_pen(ops),
    ensures
        ({
            let r = ops + v.chat_row(l, i, at);
            &&& plain_pen(r)
            &&& y != at ==> marks(r, y) == marks(ops, y)
            &&& y == at ==> {
                let n = marks(ops, y).len() as int;
                &&& n <= marks(r, y).len()
                &&& marks(r, y).take(n) == marks(ops, y)
                &&& row_shows_line(marks(r, y).skip(n), v, l, i)
            }
        }),
{
    let selected = v.selected(i);
    lemma_begin_row(ops, at, v.chat_bg, y);
    let a = ops.push(OpView::MoveTo(0, at)) + background(v.chat_bg);
    let margin = OpView::Print(repeat(' ', v.chat_margin as nat));
    let b = if v.chat_margin > 0 {
        a.push(margin)
    } else {
        a
    };
    lemma_op(a, margin, y);
    let c = if selected {
        b.push(OpView::Reverse)
    } else {
        b
    };
    lemma_op(b, OpView::Reverse, y);
    let d = c.push(OpView::SetForeground(l.color));
    lemma_op(c, OpView::SetForeground(l.color), y);
    let e = d.push(OpView::Print(with_links(l.text)));
    lemma_op(d, OpView::Print(with_links(l.text)), y);
    let f = if selected {
        e.push(OpView::NoReverse)
    } else {
        e
    };
    lemma_op(e, OpView::NoReverse, y);
    lemma_end_row(f, y);
    let r = ops + v.chat_row(l, i, at);
    assert(r =~= f + end_of_row());
    assert(selected == in_selection(v, i));
    if y == at {
        let text = Mark::Text {
            text: with_links(l.text),
            fg: Some(l.color),
            bg: v.chat_bg,
            reverse: selected,
        };
        let lead = Mark::Text {
            text: repeat(' ', v.chat_margin as nat),
            fg: None,
            bg: v.chat_bg,
            reverse: false,
        };
        let row = if v.chat_margin > 0 {
            seq![Mark::At(0), lead, text, Mark::Clear { bg: v.chat_bg }]
        } else {
            seq![Mark::At(0), text, Mark::Clear { bg: v.chat_bg }]
        };
        assert(marks(r, y) =~= marks(ops, y) + row);
        if unescaped(l.text) {
            lemma_links_not_shown(l.text);
        }
        assert(marks(r, y).skip(marks(ops, y).len() as int) =~= row);
        assert(marks(r, y).take(marks(ops, y).len() as int) =~= marks(ops, y));
    }
}

proof fn lemma_chat_rows(
    ops: Seq<OpView>,
    v: RendererView,
    ls: Seq<LineView>,
    start: nat,
    top: nat,
    n: nat,
    y: u16,
)
    requires
        plain_pen(ops),
        top + n <= u16::MAX,
    ensures
        ({
            let r = ops + v.chat_rows(ls, start, top, n);
            &&& plain_pen(r)
            &&& !(top <= y < top + n) ==> marks(r, y) == marks(ops, y)
            &&& top <= y < top + n ==> {
                let k = marks(ops, y).len() as int;
                &&& k <= marks(r, y).len()
                &&& marks(r, y).take(k) == marks(ops, y)
                &&& row_shows_line(
                    marks(r, y).skip(k),
                    v,
                    ls[start + y - top],
                    start + y - top,
                )
            }
        }),
    decreases n,
{
    let r = ops + v.chat_rows(ls, start, top, n);
    if n == 0 {
        assert(r =~= ops);
    } else {
        let m = (n - 1) as nat;
        lemma_chat_rows(ops, v, ls, start, top, m, y);
        let a = ops + v.chat_rows(ls, start, top, m);
        let i = start + n - 1;
        lemma_chat_row(a, v, ls[i], i, (top + n - 1) as u16, y);
        assert(r =~= a + v.chat_row(ls[i], i, (top + n - 1) as u16));
    }
}

/// The mark in the corner of a chat that is scrolled up: it begins in the first
/// row, and changes no other.
proof fn lemma_badge(ops: Seq<OpView>, v: RendererView, size: TermSize, y: u16)
    requires
        plain_pen(ops),
    ensures
        ({
            let r = ops + v.scroll_badge(size);
            &&& plain_pen(r)
            &&& y > 0 || v.scroll_offset == 0 ==> marks(r, y) == marks(ops, y)
            &&& y == 0 && v.scroll_offset > 0 ==> exists|badge: Seq<Mark>|
                marks(r, y) == marks(ops, y) + badge && #[trigger] is_badge(badge, v.scroll_percent(size))
        }),
{
    let r = ops + v.scroll_badge(size);
    if v.scroll_offset == 0 {
        assert(r =~= ops);
    } else {
        let text = " SCROLL "@ + decimal(v.scroll_percent(size)) + "% "@;
        let x = less(size.cols as nat, text.len()) as u16;
        let a = ops.push(OpView::MoveTo(x, 0));
        lemma_op(ops, OpView::MoveTo(x, 0), y);
        let b = a + background(v.chat_bg);
        match v.chat_bg {
            Some(c) => {
                lemma_op(a, OpView::SetBackground(c), y);
                assert(b =~= a.push(OpView::SetBackground(c)));
            },
            None => {
                assert(b =~= a);
            },
        }
        let c = b.push(OpView::SetForeground(Color::DarkYellow));
        lemma_op(b, OpView::SetForeground(Color::DarkYellow), y);
        let d = c.push(OpView::Print(text));
        lemma_op(c, OpView::Print(text), y);
        lemma_op(d, OpView::ResetColor, y);
        assert(r =~= d.push(OpView::ResetColor));
        if y == 0 {
            let mark = Mark::Text {
                text,
                fg: Some(Color::DarkYellow),
                bg: v.chat_bg,
                reverse: false,
            };
            assert(marks(r, y) =~= marks(ops, y) + seq![Mark::At(x), mark]);
            assert(is_badge(seq![Mark::At(x), mark], v.scroll_percent(size)));
        }
    }
}

/// Whether something is the scroll mark: it tells a number of percent.
pub open spec fn is_badge(badge: Seq<Mark>, percent: nat) -> bool {
    &&& badge.len() == 2
    &&& badge[0] is At
    &&& badge[1] matches Mark::Text { text, fg, bg: _, reverse } && fg == Some(Color::DarkYellow)
        && !reverse && text == " SCROLL "@ + decimal(percent) + "% "@
}

/// The scroll mark tells how much of the lines that are not in view is above the
/// view: nothing at the start of the chat, and the more the further down it is.
pub proof fn lemma_scroll_told(v: RendererView, size: TermSize)
    requires
        0 < v.scroll_offset <= v.max_offset(size),
    ensures
        ({
            let hidden = v.max_offset(size);
            let above = hidden - v.scroll_offset;
            let p = v.scroll_percent(size);
            p * hidden <= above * 100 < (p + 1) * hidden && p < 100
        }),
{
    let hidden = v.max_offset(size) as int;
    let above = hidden - v.scroll_offset;
    assert(v.screen_lines(size).len() - v.visible(size) == hidden);
    let q = above * 100 / hidden;
    assert(q * hidden <= above * 100 < (q + 1) * hidden && 0 <= q < 100) by (nonlinear_arith)
        requires
            q == above * 100 / hidden,
            0 <= above < hidden,
    ;
}

/// The rows of the viewport, read from the last one upwards, show the lines of
/// the chat from the last one upwards, as many lines above its end as the chat is
/// scrolled by. Rows above the first line are empty. In the first row of a chat
/// that is scrolled, the scroll mark follows.
#[verifier::spinoff_prover]
pub proof fn lemma_viewport_shows_chat(v: RendererView, size: TermSize, j: nat)
    requires
        v.scroll_offset == 0 || v.scroll_offset <= v.max_offset(size),
        j < v.visible(size),
    ensures
        ({
            let ls = v.screen_lines(size);
            let y = (v.visible(size) - 1 - j) as u16;
            let i = ls.len() - 1 - v.scroll_offset - j;
            let all = marks(v.viewport(size), y);
            let badged = y == 0 && v.scroll_offset > 0;
            let row = if badged {
                all.take(all.len() - 2)
            } else {
                all
            };
            &&& badged ==> all.len() >= 2 && is_badge(
                all.skip(all.len() - 2),
                v.scroll_percent(size),
            )
            &&& if i >= 0 {
                row_shows_line(row, v, ls[i], i)
            } else {
                row_shows_nothing(row, v)
            }
        }),
{
    let ls = v.screen_lines(size);
    let visible = v.visible(size);
    let y = (visible - 1 - j) as u16;
    let pad = v.top_padding(size);
    let start = v.first_line(size);
    let n = least(
        less(visible, pad),
        less(ls.len(), start),
    );
    let o0 = seq![OpView::HideCursor];
    assert(o0 =~= Seq::<OpView>::empty().push(OpView::HideCursor));
    lemma_op(Seq::empty(), OpView::HideCursor, y);
    let o1 = o0 + empty_rows(0, pad, v.chat_bg);
    lemma_empty_rows(o0, 0, pad, v.chat_bg, y);
    let o2 = o1 + v.chat_rows(ls, start, pad, n);
    lemma_chat_rows(o1, v, ls, start, pad, n, y);
    let o3 = o2 + empty_rows(pad + n, visible, v.chat_bg);
    lemma_empty_rows(o2, pad + n, visible, v.chat_bg, y);
    let o4 = o3 + v.scroll_badge(size);
    lemma_badge(o3, v, size, y);
    lemma_op(o4, OpView::Flush, y);
    assert(v.viewport(size) =~= o4.push(OpView::Flush));
    let i = ls.len() - 1 - v.scroll_offset - j;
    let row = marks(o3, y);
    if i >= 0 {
        assert(pad <= y < pad + n);
        assert(start + y - pad == i);
        assert(marks(o1, y).len() == 0);
        assert(row.skip(0) =~= row);
    } else {
        assert(y < pad);
        assert(row =~= seq![Mark::At(0), Mark::Clear { bg: v.chat_bg }]);
    }
    if y == 0 && v.scroll_offset > 0 {
        let badge = choose|badge: Seq<Mark>|
            marks(o4, y) == row + badge && #[trigger] is_badge(badge, v.scroll_percent(size));
        assert(marks(o4, y).take(marks(o4, y).len() - 2) =~= row);
        assert(marks(o4, y).skip(marks(o4, y).len() - 2) =~= badge);
    }
}

// ---------------------------------------------------------------------------
// The input
// ---------------------------------------------------------------------------

/// Whether operations begin by moving the pen, and never move it to row `y`.
spec fn elsewhere(ops: Seq<OpView>, y: u16) -> bool {
    &&& ops.len() > 0 ==> ops[0] is MoveTo
    &&& forall|i: int|
        0 <= i < ops.len() ==> !((#[trigger] ops[i]) matches OpView::MoveTo(_, row) && row == y)
}

proof fn lemma_elsewhere(a: Seq<OpView>, b: Seq<OpView>, y: u16)
    requires
        elsewhere(b, y),
    ensures
        marks(a + b, y) == marks(a, y),
        b.len() > 0 ==> pen(a + b).row is Some && pen(a + b).row != Some(y),
    decreases b.len(),
{
    if b.len() == 0 {
        assert(a + b =~= a);
    } else {
        let init = b.drop_last();
        assert(a + b =~= (a + init).push(b.last()));
        lemma_op(a + init, b.last(), y);
        if init.len() > 0 {
            assert(init[0] == b[0]);
            assert forall|i: int| 0 <= i < init.len() implies !((
            #[trigger] init[i]) matches OpView::MoveTo(_, row) && row == y) by {
                assert(init[i] == b[i]);
            }
        }
        assert(!(b[b.len() - 1] matches OpView::MoveTo(_, row) && row == y));
        lemma_elsewhere(a, init, y);
    }
}

proof fn lemma_elsewhere_concat(a: Seq<OpView>, b: Seq<OpView>, y: u16)
    requires
        elsewhere(a, y),
        elsewhere(b, y),
    ensures
        elsewhere(a + b, y),
{
    assert forall|i: int| 0 <= i < (a + b).len() implies !((
    #[trigger] (a + b)[i]) matches OpView::MoveTo(_, row) && row == y) by {
        if i < a.len() {
            assert((a + b)[i] == a[i]);
        } else {
            assert((a + b)[i] == b[i - a.len()]);
        }
    }
    if a.len() > 0 {
        assert((a + b)[0] == a[0]);
    } else {
        assert(a + b =~= b);
    }
}

/// The marks of a row of the input: what stands before the text, and the text.
pub open spec fn row_shows_input(
    row: Seq<Mark>,
    lead: Seq<char>,
    fg: Option<Color>,
    text: Seq<char>,
    bg: Option<Color>,
) -> bool {
    row == seq![
        Mark::At(0),
        Mark::Text { text: lead, fg, bg, reverse: false },
        Mark::Text { text, fg: None, bg, reverse: false },
        Mark::Clear { bg },
    ]
}

#[verifier::spinoff_prover]
proof fn lemma_input_row(
    ops: Seq<OpView>,
    f: InputFrame,
    t: WidthTable,
    last: InputView,
    prompt: Seq<char>,
    bg: Option<Color>,
    i: int,
    y: u16,
)
    requires
        plain_pen(ops),
    ensures
        ({
            let r = ops + input_row(f, t, last, prompt, bg, i);
            let first = f.vscroll(last) as int;
            let at = ((f.available - f.visible() + 1) + (i - first)) as u16;
            &&& plain_pen(r)
            &&& y != at ==> marks(r, y) == marks(ops, y)
            &&& y == at && marks(ops, y).len() == 0 ==> row_shows_input(
                marks(r, y),
                if i == first {
                    prompt
                } else {
                    repeat(' ', f.prompt_width)
                },
                if i == first {
                    Some(Color::DarkYellow)
                } else {
                    None
                },
                shown_text(f, t, last, i),
                bg,
            )
        }),
{
    let first = f.vscroll(last) as int;
    let at = ((f.available - f.visible() + 1) + (i - first)) as u16;
    let text = OpView::Print(shown_text(f, t, last, i));
    let r = ops + input_row(f, t, last, prompt, bg, i);
    lemma_begin_row(ops, at, bg, y);
    let a = ops.push(OpView::MoveTo(0, at)) + background(bg);
    let b = if i == first {
        a.push(OpView::SetForeground(Color::DarkYellow)).push(OpView::Print(prompt)).push(
            OpView::DefaultForeground,
        )
    } else {
        a.push(OpView::Print(repeat(' ', f.prompt_width)))
    };
    if i == first {
        let a1 = a.push(OpView::SetForeground(Color::DarkYellow));
        lemma_op(a, OpView::SetForeground(Color::DarkYellow), y);
        lemma_op(a1, OpView::Print(prompt), y);
        lemma_op(a1.push(OpView::Print(prompt)), OpView::DefaultForeground, y);
    } else {
        lemma_op(a, OpView::Print(repeat(' ', f.prompt_width)), y);
    }
    lemma_op(b, text, y);
    lemma_end_row(b.push(text), y);
    assert(r =~= b.push(text) + end_of_row());
    if y == at && marks(ops, y).len() == 0 {
        let lead = Mark::Text {
            text: if i == first {
                prompt
            } else {
                repeat(' ', f.prompt_width)
            },
            fg: if i == first {
                Some(Color::DarkYellow)
            } else {
                None
            },
            bg,
            reverse: false,
        };
        assert(marks(r, y) =~= seq![
            Mark::At(0),
            lead,
            Mark::Text { text: shown_text(f, t, last, i), fg: None, bg, reverse: false },
            Mark::Clear { bg },
        ]);
    }
}

proof fn lemma_input_rows(
    ops: Seq<OpView>,
    f: InputFrame,
    t: WidthTable,
    last: InputView,
    prompt: Seq<char>,
    bg: Option<Color>,
    n: nat,
    k: nat,
)
    requires
        plain_pen(ops),
        n <= f.visible() <= f.available < u16::MAX,
        k < f.visible(),
        marks(ops, ((f.available - f.visible() + 1) + k) as u16).len() == 0,
    ensures
        ({
            let r = ops + input_rows(f, t, last, prompt, bg, n);
            let y = ((f.available - f.visible() + 1) + k) as u16;
            &&& plain_pen(r)
            &&& k >= n ==> marks(r, y).len() == 0
            &&& k < n ==> row_shows_input(
                marks(r, y),
                if k == 0 {
                    prompt
                } else {
                    repeat(' ', f.prompt_width)
                },
                if k == 0 {
                    Some(Color::DarkYellow)
                } else {
                    None
                },
                shown_text(f, t, last, (f.vscroll(last) + k) as int),
                bg,
            )
        }),
    decreases n,
{
    let y = ((f.available - f.visible() + 1) + k) as u16;
    let r = ops + input_rows(f, t, last, prompt, bg, n);
    if n == 0 {
        assert(r =~= ops);
    } else {
        let m = (n - 1) as nat;
        lemma_input_rows(ops, f, t, last, prompt, bg, m, k);
        let a = ops + input_rows(f, t, last, prompt, bg, m);
        let i = f.vscroll(last) + n - 1;
        lemma_input_row(a, f, t, last, prompt, bg, i, y);
        assert(r =~= a + input_row(f, t, last, prompt, bg, i));
    }
}

/// Whether every character of a text takes one column.
pub open spec fn narrow(t: WidthTable, s: Seq<char>) -> bool {
    forall|i: int| 0 <= i < s.len() ==> char_width(t, #[trigger] s[i]) == 1
}

proof fn lemma_narrow_width(t: WidthTable, s: Seq<char>, n: int)
    requires
        narrow(t, s),
        0 <= n <= s.len(),
    ensures
        text_width(t, s.take(n)) == n,
    decreases n,
{
    if n == 0 {
        assert(s.take(0).len() == 0);
    } else {
        lemma_narrow_width(t, s, n - 1);
        assert(s.take(n).drop_last() =~= s.take(n - 1));
        assert(char_width(t, s[n - 1]) == 1);
    }
}

/// As many characters fit as there are columns.
proof fn lemma_narrow_fit(t: WidthTable, s: Seq<char>, width: nat)
    requires
        narrow(t, s),
    ensures
        fit_count(t, s, width) == if width <= s.len() {
            width as int
        } else {
            s.len() as int
        },
{
    let c = fit_count(t, s, width);
    lemma_fit_count(t, s, width);
    lemma_narrow_width(t, s, c);
    if c < s.len() {
        lemma_narrow_width(t, s, c + 1);
    }
}

/// What is painted of a line of the input agrees with where the cursor is painted
/// and where a click leads. A part of the line is shown, as long as there is room
/// for. In the line of the cursor it is the part that the caret stands in: the
/// caret is as far behind the start of the text as the cursor is behind the start
/// of that part, so that the character in front of the caret is the one in front
/// of the cursor. A click on a character that is shown leads to that character.
/// This is said of characters that take one column each.
#[verifier::spinoff_prover]
pub proof fn lemma_input_agrees(
    f: InputFrame,
    t: WidthTable,
    last: InputView,
    prompt: Seq<char>,
    bg: Option<Color>,
    k: nat,
) -> (h: int)
    requires
        k < f.visible() <= f.available < u16::MAX,
        f.text_cols() > 0,
        f.lines.len() <= usize::MAX,
        f.prompt_width <= usize::MAX,
        f.cursor_col <= f.cursor_text().len() <= usize::MAX,
        narrow(t, line_at(f.lines, (f.vscroll(last) + k) as int)),
    ensures
        ({
            let y = ((f.available - f.visible() + 1) + k) as u16;
            let i = (f.vscroll(last) + k) as int;
            let s = f.lines[i];
            let row = marks(input_rows(f, t, last, prompt, bg, f.visible()), y);
            let n = if s.len() - h <= f.text_cols() {
                s.len() - h
            } else {
                f.text_cols() as int
            };
            &&& 0 <= i < f.lines.len()
            &&& 0 <= h <= s.len()
            &&& row_shows_input(
                row,
                if k == 0 {
                    prompt
                } else {
                    repeat(' ', f.prompt_width)
                },
                if k == 0 {
                    Some(Color::DarkYellow)
                } else {
                    None
                },
                s.subrange(h, h + n),
                bg,
            )
            &&& i != f.cursor_line ==> h == 0
            &&& i == f.cursor_line ==> {
                &&& h <= f.cursor_col <= h + f.text_cols()
                &&& f.caret(t, last).0 == f.prompt_width + f.cursor_col - h
                &&& f.caret(t, last).1 == y
                &&& s.len() <= f.text_cols() ==> h == 0
            }
            &&& forall|j: int|
                0 <= j < n ==> #[trigger] click_target(
                    t,
                    f.layout(t, last),
                    y as nat,
                    (f.prompt_width + j) as nat,
                    f.lines,
                ) == Some((i as nat, (h + j) as nat))
        }),
{
    let y = ((f.available - f.visible() + 1) + k) as u16;
    let i = (f.vscroll(last) + k) as int;
    lemma_layout_in_range(f, last);
    let s = f.lines[i];
    let none = Seq::<OpView>::empty();
    let ops = input_rows(f, t, last, prompt, bg, f.visible());
    lemma_input_rows(none, f, t, last, prompt, bg, f.visible(), k);
    assert(none + ops =~= ops);
    assert(s.take(s.len() as int) =~= s);
    lemma_narrow_width(t, s, s.len() as int);
    let h = if i == f.cursor_line {
        f.h_scroll(t, last) as int
    } else {
        0
    };
    if i == f.cursor_line {
        lemma_narrow_width(t, s, f.cursor_col as int);
        assert(first_of(s, f.cursor_col as nat) =~= s.take(f.cursor_col as int));
        lemma_cursor_in_view(f, t, last);
        lemma_narrow_fit(t, s, h as nat);
    }
    let n = if s.len() - h <= f.text_cols() {
        s.len() - h
    } else {
        f.text_cols() as int
    };
    assert(shown_text(f, t, last, i) =~= s.subrange(h, h + n));
    assert forall|j: int| 0 <= j < n implies #[trigger] click_target(
        t,
        f.layout(t, last),
        y as nat,
        (f.prompt_width + j) as nat,
        f.lines,
    ) == Some((i as nat, (h + j) as nat)) by {
        lemma_narrow_fit(t, s, (h + j) as nat);
    }
    h
}

/// The same of the line with the cursor where characters take any number of columns,
/// as long as the line is scrolled by whole characters: the caret stands as many
/// columns behind the start of the text as the characters take that are shown in
/// front of the cursor.
#[verifier::spinoff_prover]
pub proof fn lemma_wide_input_agrees(
    f: InputFrame,
    t: WidthTable,
    last: InputView,
    prompt: Seq<char>,
    bg: Option<Color>,
    k: nat,
) -> (h: int)
    requires
        k < f.visible() <= f.available < u16::MAX,
        f.vscroll(last) + k == f.cursor_line,
        f.cursor_col <= f.cursor_text().len(),
        text_width(
            t,
            f.cursor_text().take(fit_count(t, f.cursor_text(), f.h_scroll(t, last))),
        ) == f.h_scroll(t, last),
        fit_count(t, f.cursor_text(), f.h_scroll(t, last)) <= f.cursor_col,
    ensures
        ({
            let y = ((f.available - f.visible() + 1) + k) as u16;
            let s = f.cursor_text();
            let row = marks(input_rows(f, t, last, prompt, bg, f.visible()), y);
            let n = if s.len() - h <= f.text_cols() {
                s.len() - h
            } else {
                f.text_cols() as int
            };
            &&& 0 <= h <= f.cursor_col
            &&& row_shows_input(
                row,
                if k == 0 {
                    prompt
                } else {
                    repeat(' ', f.prompt_width)
                },
                if k == 0 {
                    Some(Color::DarkYellow)
                } else {
                    None
                },
                s.subrange(h, h + n),
                bg,
            )
            &&& f.caret(t, last).0 == f.prompt_width + text_width(
                t,
                s.subrange(h, f.cursor_col as int),
            )
        }),
{
    let s = f.cursor_text();
    let h = fit_count(t, s, f.h_scroll(t, last));
    lemma_fit_count(t, s, f.h_scroll(t, last));
    lemma_layout_in_range(f, last);
    let none = Seq::<OpView>::empty();
    let ops = input_rows(f, t, last, prompt, bg, f.visible());
    lemma_input_rows(none, f, t, last, prompt, bg, f.visible(), k);
    assert(none + ops =~= ops);
    let n = if s.len() - h <= f.text_cols() {
        s.len() - h
    } else {
        f.text_cols() as int
    };
    assert(shown_text(f, t, last, f.cursor_line as int) =~= s.subrange(h, h + n));
    let cursor = f.cursor_col as int;
    assert(first_of(s, f.cursor_col as nat) =~= s.take(cursor));
    assert(s.take(cursor) =~= s.take(h) + s.subrange(h, cursor));
    lemma_width_concat(t, s.take(h), s.subrange(h, cursor));
    h
}

// ---------------------------------------------------------------------------
// The bottom of the screen
// ---------------------------------------------------------------------------

proof fn lemma_separator(ops: Seq<OpView>, at: u16, cols: nat, bg: Option<Color>, y: u16)
    requires
        plain_pen(ops),
    ensures
        plain_pen(ops + separator(at, cols, bg)),
        y != at ==> marks(ops + separator(at, cols, bg), y) == marks(ops, y),
{
    let line = OpView::Print(repeat('\u{2500}', cols));
    lemma_begin_row(ops, at, bg, y);
    let a = ops.push(OpView::MoveTo(0, at)) + background(bg);
    let b = a.push(OpView::SetForeground(Color::DarkGrey));
    lemma_op(a, OpView::SetForeground(Color::DarkGrey), y);
    lemma_op(b, line, y);
    lemma_op(b.push(line), OpView::ResetColor, y);
    assert(ops + separator(at, cols, bg) =~= b.push(line).push(OpView::ResetColor));
}

/// Whether the only row that operations move to is `at`, which they begin with.
spec fn only_row(ops: Seq<OpView>, at: u16) -> bool {
    &&& ops.len() > 0 && ops[0] is MoveTo
    &&& forall|i: int|
        0 <= i < ops.len() && (#[trigger] ops[i]) is MoveTo ==> ops[i] == OpView::MoveTo(0, at)
}

proof fn lemma_only_row_more(a: Seq<OpView>, b: Seq<OpView>, at: u16)
    requires
        only_row(a, at),
        forall|i: int| 0 <= i < b.len() ==> !((#[trigger] b[i]) is MoveTo),
    ensures
        only_row(a + b, at),
{
    assert((a + b)[0] == a[0]);
    assert forall|i: int| 0 <= i < (a + b).len() && (#[trigger] (a + b)[i]) is MoveTo implies (a
        + b)[i] == OpView::MoveTo(0, at) by {
        if i < a.len() {
            assert((a + b)[i] == a[i]);
        } else {
            assert((a + b)[i] == b[i - a.len()]);
        }
    }
}

proof fn lemma_spans_row(
    t: WidthTable,
    start: RowState,
    spans: Seq<SpanView>,
    room: FlexRoom,
    bg: Option<Color>,
    n: nat,
    at: u16,
)
    requires
        n <= spans.len(),
        only_row(start.ops, at),
    ensures
        only_row(spans_to(t, start, spans, room, bg, n).ops, at),
    decreases n,
{
    if n > 0 {
        let before = spans_to(t, start, spans, room, bg, (n - 1) as nat);
        let after = spans_to(t, start, spans, room, bg, n);
        lemma_spans_row(t, start, spans, room, bg, (n - 1) as nat, at);
        let added = after.ops.skip(before.ops.len() as int);
        assert(after.ops =~= before.ops + added);
        assert forall|i: int| 0 <= i < added.len() implies !((#[trigger] added[i]) is MoveTo) by {}
        lemma_only_row_more(before.ops, added, at);
    }
}

proof fn lemma_status_row_only(
    t: WidthTable,
    at: u16,
    spans: Seq<SpanView>,
    scrolling: bool,
    cols: nat,
    bg: Option<Color>,
)
    ensures
        only_row(status_row(t, at, spans, scrolling, cols, bg), at),
{
    let start = row_opening(t, at, scrolling, cols, bg);
    let room = flex_room_of(t, spans, start.budget);
    assert(only_row(start.ops, at));
    lemma_spans_row(t, start, spans, room, bg, spans.len(), at);
    lemma_only_row_more(
        spans_to(t, start, spans, room, bg, spans.len()).ops,
        end_of_row(),
        at,
    );
}

/// The status line stays in its rows.
proof fn lemma_status_elsewhere(
    t: WidthTable,
    status: Seq<Seq<SpanView>>,
    height: nat,
    size: TermSize,
    scrolling: bool,
    bg: Option<Color>,
    n: nat,
    y: u16,
)
    requires
        n <= height <= size.rows,
        y < size.rows - height,
    ensures
        elsewhere(status_rows(t, status, height, size, scrolling, bg, n), y),
    decreases n,
{
    if n > 0 {
        let i = n - 1;
        let at = less(size.rows as nat, (height - i) as nat) as u16;
        let row = status_row(
            t,
            at,
            row_spans(status, height, i as nat),
            scrolling && i == 0,
            size.cols as nat,
            bg,
        );
        lemma_status_elsewhere(t, status, height, size, scrolling, bg, (n - 1) as nat, y);
        lemma_status_row_only(
            t,
            at,
            row_spans(status, height, i as nat),
            scrolling && i == 0,
            size.cols as nat,
            bg,
        );
        assert(at != y);
        assert(elsewhere(row, y));
        lemma_elsewhere_concat(
            status_rows(t, status, height, size, scrolling, bg, (n - 1) as nat),
            row,
            y,
        );
    }
}

/// The input area with what is cleared and drawn above it.
spec fn input_head(
    f: InputFrame,
    t: WidthTable,
    last: InputView,
    prompt: Seq<char>,
    bg: Option<Color>,
    prev: nat,
) -> Seq<OpView> {
    shrunk_rows(f.available, prev, f.visible(), bg) + separator(
        (f.top() - 1) as u16,
        f.cols,
        bg,
    ) + input_rows(f, t, last, prompt, bg, f.visible())
}

#[verifier::spinoff_prover]
proof fn lemma_input_head(
    f: InputFrame,
    t: WidthTable,
    last: InputView,
    prompt: Seq<char>,
    bg: Option<Color>,
    prev: nat,
    k: nat,
)
    requires
        k < f.visible() <= f.available < u16::MAX,
    ensures
        ({
            let y = ((f.available - f.visible() + 1) + k) as u16;
            let head = input_head(f, t, last, prompt, bg, prev);
            &&& plain_pen(head)
            &&& marks(head, y) == marks(input_rows(f, t, last, prompt, bg, f.visible()), y)
        }),
{
    let y = ((f.available - f.visible() + 1) + k) as u16;
    let none = Seq::<OpView>::empty();
    let rows = input_rows(f, t, last, prompt, bg, f.visible());
    let o1 = none + shrunk_rows(f.available, prev, f.visible(), bg);
    if f.visible() < prev {
        lemma_empty_rows(
            none,
            area_top(f.available, prev),
            area_top(f.available, f.visible()),
            bg,
            y,
        );
    } else {
        assert(o1 =~= none);
    }
    assert(marks(o1, y).len() == 0);
    lemma_separator(o1, (f.top() - 1) as u16, f.cols, bg, y);
    let o2 = o1 + separator((f.top() - 1) as u16, f.cols, bg);
    lemma_input_rows(o2, f, t, last, prompt, bg, f.visible(), k);
    lemma_input_rows(none, f, t, last, prompt, bg, f.visible(), k);
    assert(none + rows =~= rows);
    assert(input_head(f, t, last, prompt, bg, prev) =~= o2 + rows);
}

proof fn lemma_caret_placed(ops: Seq<OpView>, x: u16, at: u16, y: u16)
    ensures
        ({
            let r = ops + seq![OpView::MoveTo(x, at), OpView::ShowCursor, OpView::Flush];
            &&& pen(r).row == Some(at)
            &&& marks(r, y) == marks(ops, y) + if at == y {
                seq![Mark::At(x)]
            } else {
                Seq::empty()
            }
        }),
{
    let place = OpView::MoveTo(x, at);
    lemma_op(ops, place, y);
    lemma_op(ops.push(place), OpView::ShowCursor, y);
    lemma_op(ops.push(place).push(OpView::ShowCursor), OpView::Flush, y);
    let r = ops + seq![OpView::MoveTo(x, at), OpView::ShowCursor, OpView::Flush];
    assert(r =~= ops.push(place).push(OpView::ShowCursor).push(OpView::Flush));
    assert(marks(r, y) =~= marks(ops, y) + if at == y {
        seq![Mark::At(x)]
    } else {
        Seq::empty()
    });
}

/// What is drawn below the input area changes none of its rows.
proof fn lemma_below_input(
    ops: Seq<OpView>,
    v: RendererView,
    status: Seq<Seq<SpanView>>,
    scrolling: bool,
    size: TermSize,
    y: u16,
)
    requires
        plain_pen(ops),
        1 <= v.statusline_height <= 3,
        size.rows > v.reserve(),
        y <= v.available(size),
    ensures
        marks(ops + v.separator_below(size) + v.status_ops(status, scrolling, size), y) == marks(
            ops,
            y,
        ),
{
    let below = v.separator_below(size);
    let o1 = ops + below;
    let at = less(size.rows as nat, (v.reserve() - 1) as nat);
    if at < less(size.rows as nat, 1) {
        lemma_separator(ops, at as u16, size.cols as nat, v.input_bg, y);
    } else {
        assert(o1 =~= ops);
    }
    let h = v.statusline_height as nat;
    lemma_status_elsewhere(v.feed.widths, status, h, size, scrolling, v.status_bg, h, y);
    lemma_elsewhere(o1, v.status_ops(status, scrolling, size), y);
}

/// A frame of the whole bottom of the screen shows the visible lines of the input
/// as the input area lays them out; the caret is the last that is placed.
#[verifier::spinoff_prover]
pub proof fn lemma_bottom_shows_input(v: RendererView, b: BottomInput, size: TermSize, k: nat)
    requires
        v.paints_input(b, size),
        1 <= v.statusline_height <= 3,
        size.rows > v.reserve(),
        k < v.input_frame(b, size).visible(),
    ensures
        ({
            let f = v.input_frame(b, size);
            let t = v.feed.widths;
            let y = ((f.available - f.visible() + 1) + k) as u16;
            let prompt = v.prompt_text(b.is_running);
            let rows = input_rows(f, t, v.input, prompt, v.input_bg, f.visible());
            let caret = f.caret(t, v.input);
            &&& marks(v.bottom_ops(b, size), y) == marks(rows, y) + if caret.1 as u16 == y {
                seq![Mark::At(caret.0 as u16)]
            } else {
                Seq::empty()
            }
            &&& pen(v.bottom_ops(b, size)).row == Some(caret.1 as u16)
        }),
{
    let f = v.input_frame(b, size);
    let t = v.feed.widths;
    let y = ((f.available - f.visible() + 1) + k) as u16;
    let prompt = v.prompt_text(b.is_running);
    let (x, at) = f.caret(t, v.input);
    lemma_split_nonempty(b.input, '\n');
    let head = input_head(f, t, v.input, prompt, v.input_bg, v.prev_input_height as nat);
    lemma_input_head(f, t, v.input, prompt, v.input_bg, v.prev_input_height as nat, k);
    lemma_below_input(head, v, b.status, v.scroll_offset > 0, size, y);
    let body = head + v.separator_below(size) + v.status_ops(b.status, v.scroll_offset > 0, size);
    lemma_caret_placed(body, x as u16, at as u16, y);
    assert(v.bottom_ops(b, size) =~= body + seq![
        OpView::MoveTo(x as u16, at as u16),
        OpView::ShowCursor,
        OpView::Flush,
    ]);
}

/// A question in place of the input shows both of its lines, one below the other.
#[verifier::spinoff_prover]
pub proof fn lemma_bottom_shows_question(v: RendererView, b: BottomInput, size: TermSize)
    requires
        v.bottom_plan(b, size) is Full,
        v.permission_prompt is Some || v.chain_prompt is Some,
        1 <= v.statusline_height <= 3,
        size.rows > v.reserve() + 1,
    ensures
        ({
            let first = match v.permission_prompt {
                Some((tool, _)) => tool,
                None => v.chain_prompt->0,
            };
            let top = (v.available(size) - 1) as u16;
            let ops = v.bottom_ops(b, size);
            let bg = v.input_bg;
            &&& marks(ops, top) == seq![
                Mark::At(0),
                Mark::Text { text: first, fg: Some(Color::DarkYellow), bg, reverse: false },
                Mark::Clear { bg },
            ]
            &&& v.permission_prompt matches Some((_, options)) ==> marks(ops, (top + 1) as u16)
                == seq![
                Mark::At(0),
                Mark::Text { text: options, fg: Some(Color::DarkYellow), bg, reverse: false },
                Mark::Clear { bg },
            ]
        }),
{
    let (first, second) = match v.permission_prompt {
        Some((tool, options)) => (tool, options),
        None => (v.chain_prompt->0, chain_options(v.chain_but_mode)),
    };
    let top = (v.available(size) - 1) as u16;
    lemma_question(v, first, second, b.status, size, top);
    lemma_question(v, first, second, b.status, size, (top + 1) as u16);
    assert(v.bottom_ops(b, size) == v.question_ops(first, second, b.status, size));
}

proof fn lemma_question_row(
    ops: Seq<OpView>,
    v: RendererView,
    text: Seq<char>,
    at: u16,
    y: u16,
)
    requires
        plain_pen(ops),
    ensures
        plain_pen(ops + v.question_row(text, at as nat)),
        marks(ops + v.question_row(text, at as nat), y) == marks(ops, y) + if y == at {
            seq![
                Mark::At(0),
                Mark::Text {
                    text,
                    fg: Some(Color::DarkYellow),
                    bg: v.input_bg,
                    reverse: false,
                },
                Mark::Clear { bg: v.input_bg },
            ]
        } else {
            Seq::empty()
        },
{
    lemma_begin_row(ops, at, v.input_bg, y);
    let a = ops.push(OpView::MoveTo(0, at)) + background(v.input_bg);
    let b = a.push(OpView::SetForeground(Color::DarkYellow));
    lemma_op(a, OpView::SetForeground(Color::DarkYellow), y);
    lemma_op(b, OpView::Print(text), y);
    lemma_end_row(b.push(OpView::Print(text)), y);
    let r = ops + v.question_row(text, at as nat);
    assert(r =~= b.push(OpView::Print(text)) + end_of_row());
    assert(marks(r, y) =~= marks(ops, y) + if y == at {
        seq![
            Mark::At(0),
            Mark::Text { text, fg: Some(Color::DarkYellow), bg: v.input_bg, reverse: false },
            Mark::Clear { bg: v.input_bg },
        ]
    } else {
        Seq::empty()
    });
}

#[verifier::spinoff_prover]
proof fn lemma_question(
    v: RendererView,
    first: Seq<char>,
    second: Seq<char>,
    status: Seq<Seq<SpanView>>,
    size: TermSize,
    y: u16,
)
    requires
        1 <= v.statusline_height <= 3,
        size.rows > v.reserve() + 1,
        v.available(size) - 1 <= y <= v.available(size),
    ensures
        marks(v.question_ops(first, second, status, size), y) == seq![
            Mark::At(0),
            Mark::Text {
                text: if y == v.available(size) {
                    second
                } else {
                    first
                },
                fg: Some(Color::DarkYellow),
                bg: v.input_bg,
                reverse: false,
            },
            Mark::Clear { bg: v.input_bg },
        ],
{
    let none = Seq::<OpView>::empty();
    let available = v.available(size);
    let top = (less(available, 2) + 1) as nat;
    let o1 = none + shrunk_rows(available, v.prev_input_height as nat, 2, v.input_bg);
    if 2 < v.prev_input_height {
        lemma_empty_rows(
            none,
            area_top(available, v.prev_input_height as nat),
            area_top(available, 2),
            v.input_bg,
            y,
        );
    } else {
        assert(o1 =~= none);
    }
    assert(marks(o1, y).len() == 0);
    lemma_separator(o1, (top - 1) as u16, size.cols as nat, v.input_bg, y);
    let o2 = o1 + separator((top - 1) as u16, size.cols as nat, v.input_bg);
    lemma_question_row(o2, v, first, top as u16, y);
    let o3 = o2 + v.question_row(first, top);
    lemma_question_row(o3, v, second, (top + 1) as u16, y);
    let o4 = o3 + v.question_row(second, top + 1);
    lemma_below_input(o4, v, status, false, size, y);
    let o5 = o4 + v.separator_below(size) + v.status_ops(status, false, size);
    lemma_op(o5, OpView::HideCursor, y);
    lemma_op(o5.push(OpView::HideCursor), OpView::Flush, y);
    let r = v.question_ops(first, second, status, size);
    assert(r =~= o5.push(OpView::HideCursor).push(OpView::Flush));
    assert(marks(r, y) =~= marks(o4, y));
}

// ---------------------------------------------------------------------------
// The status line
// ---------------------------------------------------------------------------

/// A character on the screen with its colors. A blank has no color of its own.
pub type Cell = (char, Option<Color>, Option<Color>);

/// The cells of a text.
pub open spec fn cells_of(text: Seq<char>, fg: Option<Color>, bg: Option<Color>) -> Seq<Cell> {
    text.map_values(
        |c: char|
            (
                c,
                if c == ' ' {
                    None
                } else {
                    fg
                },
                bg,
            ),
    )
}

/// The cells that were written in a row, in order.
pub open spec fn cells(row: Seq<Mark>) -> Seq<Cell>
    decreases row.len(),
{
    if row.len() == 0 {
        Seq::empty()
    } else {
        cells(row.drop_last()) + match row.last() {
            Mark::Text { text, fg, bg, reverse: _ } => cells_of(text, fg, bg),
            _ => Seq::empty(),
        }
    }
}

/// The cells of the first `n` spans of a status line, flexible space number `i`
/// being `widths[i]` columns wide.
pub open spec fn span_cells(
    spans: Seq<SpanView>,
    widths: Seq<nat>,
    bg: Option<Color>,
    n: nat,
) -> Seq<Cell>
    decreases n,
{
    if n == 0 {
        Seq::empty()
    } else {
        span_cells(spans, widths, bg, (n - 1) as nat) + match spans[n - 1] {
            SpanView::Text { text, fg, bg: own } => cells_of(
                text,
                Some(
                    match fg {
                        Some(c) => c,
                        None => Color::DarkGrey,
                    },
                ),
                if own is Some {
                    own
                } else {
                    bg
                },
            ),
            SpanView::Flex => cells_of(repeat(' ', widths[n - 1]), None, bg),
        }
    }
}

proof fn lemma_cells_push(row: Seq<Mark>, mark: Mark)
    ensures
        cells(row.push(mark)) == cells(row) + match mark {
            Mark::Text { text, fg, bg, reverse: _ } => cells_of(text, fg, bg),
            _ => Seq::empty(),
        },
{
    assert(row.push(mark).drop_last() =~= row);
}

proof fn lemma_blank_cells(n: nat, fg: Option<Color>, bg: Option<Color>)
    ensures
        cells_of(repeat(' ', n), fg, bg) == cells_of(repeat(' ', n), None, bg),
{
    assert(cells_of(repeat(' ', n), fg, bg) =~= cells_of(repeat(' ', n), None, bg));
}

/// Sets a background in the middle of a row.
proof fn lemma_set_background(ops: Seq<OpView>, bg: Option<Color>, y: u16)
    ensures
        marks(ops + background(bg), y) == marks(ops, y),
        pen(ops + background(bg)) == (Pen {
            bg: if bg is Some {
                bg
            } else {
                pen(ops).bg
            },
            ..pen(ops)
        }),
{
    match bg {
        Some(c) => {
            lemma_op(ops, OpView::SetBackground(c), y);
            assert(ops + background(bg) =~= ops.push(OpView::SetBackground(c)));
        },
        None => {
            assert(ops + background(bg) =~= ops);
        },
    }
}

#[verifier::spinoff_prover]
proof fn lemma_text_span(
    ops: Seq<OpView>,
    piece: Seq<char>,
    color: Color,
    own: Option<Color>,
    bg: Option<Color>,
    y: u16,
)
    requires
        pen(ops).row == Some(y),
        pen(ops).bg == bg,
        !pen(ops).reverse,
    ensures
        ({
            let back = if own is Some {
                own
            } else {
                bg
            };
            let r = ops + background(back) + seq![
                OpView::SetForeground(color),
                OpView::Print(piece),
                OpView::ResetColor,
            ] + background(bg);
            &&& pen(r) == (Pen { row: Some(y), fg: None, bg, reverse: false })
            &&& cells(marks(r, y)) == cells(marks(ops, y)) + cells_of(piece, Some(color), back)
        }),
{
    let back = if own is Some {
        own
    } else {
        bg
    };
    let a = ops + background(back);
    lemma_set_background(ops, back, y);
    let b = a.push(OpView::SetForeground(color));
    lemma_op(a, OpView::SetForeground(color), y);
    let c = b.push(OpView::Print(piece));
    lemma_op(b, OpView::Print(piece), y);
    let d = c.push(OpView::ResetColor);
    lemma_op(c, OpView::ResetColor, y);
    lemma_set_background(d, bg, y);
    let r = ops + background(back) + seq![
        OpView::SetForeground(color),
        OpView::Print(piece),
        OpView::ResetColor,
    ] + background(bg);
    assert(r =~= d + background(bg));
    lemma_cells_push(
        marks(ops, y),
        Mark::Text { text: piece, fg: Some(color), bg: back, reverse: false },
    );
}

/// The spans of a row are written in order.
#[verifier::spinoff_prover]
proof fn lemma_spans_shown(
    t: WidthTable,
    start: RowState,
    spans: Seq<SpanView>,
    bg: Option<Color>,
    n: nat,
    y: u16,
) -> (widths: Seq<nat>)
    requires
        single_width(t),
        start.flex_seen == 0,
        n <= spans.len(),
        fixed_to(t, spans, spans.len()) <= start.budget,
        pen(start.ops).row == Some(y),
        pen(start.ops).bg == bg,
        !pen(start.ops).reverse,
    ensures
        widths.len() == n,
        ({
            let st = spans_to(t, start, spans, flex_room_of(t, spans, start.budget), bg, n);
            &&& pen(st.ops).row == Some(y)
            &&& pen(st.ops).bg == bg
            &&& !pen(st.ops).reverse
            &&& cells(marks(st.ops, y)) == cells(marks(start.ops, y)) + span_cells(
                spans,
                widths,
                bg,
                n,
            )
        }),
    decreases n,
{
    let room = flex_room_of(t, spans, start.budget);
    if n == 0 {
        assert(cells(marks(start.ops, y)) + Seq::<Cell>::empty() =~= cells(marks(start.ops, y)));
        Seq::empty()
    } else {
        let m = (n - 1) as nat;
        let ws = lemma_spans_shown(t, start, spans, bg, m, y);
        let before = spans_to(t, start, spans, room, bg, m);
        let after = spans_to(t, start, spans, room, bg, n);
        let base = cells(marks(start.ops, y));
        lemma_texts_have_room(t, start, spans, bg, m);
        lemma_fixed_more(t, spans, n);
        let w: nat = match spans[n - 1] {
            SpanView::Flex => if before.budget == 0 {
                0
            } else {
                least(flex_share(room, before.flex_seen), before.budget)
            },
            _ => 0,
        };
        let widths = ws.push(w);
        lemma_span_cells_same(spans, ws, widths, bg, m);
        match spans[n - 1] {
            SpanView::Text { text, fg, bg: own } => {
                lemma_single_width(t, text);
                let color = match fg {
                    Some(c) => c,
                    None => Color::DarkGrey,
                };
                let back = if own is Some {
                    own
                } else {
                    bg
                };
                if before.budget == 0 {
                    assert(text.len() == 0);
                    assert(cells_of(text, Some(color), back) =~= Seq::<Cell>::empty());
                } else {
                    assert(first_chars(text, before.budget) == text);
                    lemma_text_span(before.ops, text, color, own, bg, y);
                }
                assert(cells(marks(after.ops, y)) =~= base + span_cells(spans, widths, bg, n));
            },
            SpanView::Flex => {
                if before.budget == 0 {
                    assert(cells_of(repeat(' ', 0), None, bg) =~= Seq::<Cell>::empty());
                } else {
                    let op = OpView::Print(repeat(' ', w));
                    lemma_op(before.ops, op, y);
                    lemma_cells_push(
                        marks(before.ops, y),
                        Mark::Text {
                            text: repeat(' ', w),
                            fg: pen(before.ops).fg,
                            bg,
                            reverse: false,
                        },
                    );
                    lemma_blank_cells(w, pen(before.ops).fg, bg);
                }
                assert(cells(marks(after.ops, y)) =~= base + span_cells(spans, widths, bg, n));
            },
        }
        widths
    }
}

proof fn lemma_fixed_more(t: WidthTable, spans: Seq<SpanView>, n: nat)
    requires
        n <= spans.len(),
    ensures
        fixed_to(t, spans, n) <= fixed_to(t, spans, spans.len()),
    decreases spans.len() - n,
{
    if n < spans.len() {
        lemma_fixed_more(t, spans, n + 1);
    }
}

proof fn lemma_span_cells_same(
    spans: Seq<SpanView>,
    a: Seq<nat>,
    b: Seq<nat>,
    bg: Option<Color>,
    n: nat,
)
    requires
        n <= a.len() <= b.len(),
        forall|i: int| 0 <= i < n ==> a[i] == b[i],
    ensures
        span_cells(spans, a, bg, n) == span_cells(spans, b, bg, n),
    decreases n,
{
    if n > 0 {
        lemma_span_cells_same(spans, a, b, bg, (n - 1) as nat);
    }
}

proof fn lemma_opening(t: WidthTable, scrolling: bool, cols: nat, bg: Option<Color>, y: u16)
    ensures
        ({
            let start = row_opening(t, y, scrolling, cols, bg);
            &&& start.flex_seen == 0
            &&& pen(start.ops).row == Some(y)
            &&& pen(start.ops).bg == bg
            &&& !pen(start.ops).reverse
            &&& cells(marks(start.ops, y)) == if scrolling {
                cells_of(first_chars("-- SCROLL -- "@, cols), Some(Color::DarkYellow), bg)
            } else {
                Seq::empty()
            }
        }),
{
    let start = row_opening(t, y, scrolling, cols, bg);
    let none = Seq::<OpView>::empty();
    lemma_begin_row(none, y, bg, y);
    let a = none.push(OpView::MoveTo(0, y)) + background(bg);
    lemma_op(a, OpView::ClearCurrentLine, y);
    let b = a.push(OpView::ClearCurrentLine);
    lemma_op(b, OpView::MoveTo(0, y), y);
    let c = b.push(OpView::MoveTo(0, y));
    lemma_set_background(c, bg, y);
    let d = c + background(bg);
    lemma_cells_push(Seq::empty(), Mark::At(0));
    lemma_cells_push(Seq::empty().push(Mark::At(0)), Mark::At(0));
    assert(marks(d, y) =~= Seq::empty().push(Mark::At(0)).push(Mark::At(0)));
    assert(cells(marks(d, y)) =~= Seq::<Cell>::empty());
    if scrolling {
        let mark = first_chars("-- SCROLL -- "@, cols);
        lemma_op(d, OpView::SetForeground(Color::DarkYellow), y);
        let e = d.push(OpView::SetForeground(Color::DarkYellow));
        lemma_op(e, OpView::Print(mark), y);
        lemma_cells_push(
            marks(d, y),
            Mark::Text { text: mark, fg: Some(Color::DarkYellow), bg, reverse: false },
        );
        assert(start.ops =~= e.push(OpView::Print(mark)));
        assert(cells(marks(start.ops, y)) =~= cells_of(mark, Some(Color::DarkYellow), bg));
    } else {
        assert(start.ops =~= d);
    }
}

/// A row of the status line whose texts fit shows all of them, in order and in
/// their colors, with nothing but blanks of the row's background for the flexible
/// space between them, and the mark of a scrolled chat in front. This is said of
/// characters that take one column each.
pub proof fn lemma_status_row_shown(
    t: WidthTable,
    y: u16,
    spans: Seq<SpanView>,
    scrolling: bool,
    cols: nat,
    bg: Option<Color>,
) -> (widths: Seq<nat>)
    requires
        single_width(t),
        fixed_to(t, spans, spans.len()) + (if scrolling {
            13nat
        } else {
            0
        }) <= cols,
    ensures
        widths.len() == spans.len(),
        cells(marks(status_row(t, y, spans, scrolling, cols, bg), y)) == (if scrolling {
            cells_of("-- SCROLL -- "@, Some(Color::DarkYellow), bg)
        } else {
            Seq::empty()
        }) + span_cells(spans, widths, bg, spans.len()),
{
    let start = row_opening(t, y, scrolling, cols, bg);
    reveal_strlit("-- SCROLL -- ");
    lemma_single_width(t, "-- SCROLL -- "@);
    lemma_opening(t, scrolling, cols, bg, y);
    assert(scrolling ==> first_chars("-- SCROLL -- "@, cols) == "-- SCROLL -- "@);
    let widths = lemma_spans_shown(t, start, spans, bg, spans.len(), y);
    let st = spans_to(t, start, spans, flex_room_of(t, spans, start.budget), bg, spans.len());
    lemma_end_row(st.ops, y);
    lemma_cells_push(marks(st.ops, y), Mark::Clear { bg });
    let row = status_row(t, y, spans, scrolling, cols, bg);
    assert(row =~= st.ops + end_of_row());
    assert(cells(marks(row, y)) =~= cells(marks(st.ops, y)));
    widths
}

// ---------------------------------------------------------------------------
// The whole screen
// ---------------------------------------------------------------------------

/// The rows of the screen are divided without a gap and without an overlap: the
/// chat, a separator, the input, a separator, and the status line. The lines of the
/// chat have the columns beside its margin, but for the last.
pub proof fn lemma_screen_divided(v: RendererView, b: BottomInput, size: TermSize)
    requires
        1 <= v.statusline_height <= 3,
        v.prev_input_height == v.input_frame(b, size).visible(),
        size.rows > v.reserve(),
        size.cols > v.chat_margin,
    ensures
        ({
            let f = v.input_frame(b, size);
            let height = f.visible();
            &&& 1 <= height
            &&& v.visible(size) == f.top() - 1
            &&& f.top() + height == less(size.rows as nat, (v.reserve() - 1) as nat)
            &&& f.top() + height + 1 + v.statusline_height == size.rows
            &&& v.visible(size) + 1 + height + 1 + v.statusline_height == size.rows
            &&& v.line_width(size) + v.chat_margin + 1 == size.cols
        }),
{
    lemma_split_nonempty(b.input, '\n');
}

} // verus!
