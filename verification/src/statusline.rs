//! The status line: rows of text with flexible space between.

use vstd::prelude::*;

use crate::color::Color;
use crate::draw::{
    background, end_of_row, op_views, push_background, push_chars, push_end_of_row, push_op,
    push_run, DrawOp, OpView, TermSize,
};
use crate::num::{least, less, minus};
use crate::text::{chars_of, repeat, slice_of};
use crate::width::{text_width, CharWidths, WidthTable};

verus! {

/// A part of a status line: text in its colors, or space that takes its share
/// of the room that is left.
pub enum StatusSpan {
    Text { text: String, fg: Option<Color>, bg: Option<Color> },
    Flex,
}

/// What a [`StatusSpan`] holds.
pub enum SpanView {
    Text { text: Seq<char>, fg: Option<Color>, bg: Option<Color> },
    Flex,
}

impl View for StatusSpan {
    type V = SpanView;

    open spec fn view(&self) -> SpanView {
        match *self {
            StatusSpan::Text { text, fg, bg } => SpanView::Text { text: text@, fg, bg },
            StatusSpan::Flex => SpanView::Flex,
        }
    }
}

/// The views of a row of spans.
pub open spec fn span_views(v: Seq<StatusSpan>) -> Seq<SpanView> {
    v.map_values(|s: StatusSpan| s@)
}

/// The views of the rows of a status line.
pub open spec fn status_views(v: Seq<Vec<StatusSpan>>) -> Seq<Seq<SpanView>> {
    v.map_values(|r: Vec<StatusSpan>| span_views(r@))
}

// ---------------------------------------------------------------------------
// Specification
// ---------------------------------------------------------------------------

/// Columns of the texts of the first `n` spans.
pub open spec fn fixed_to(t: WidthTable, spans: Seq<SpanView>, n: nat) -> nat
    decreases n,
{
    if n == 0 {
        0
    } else {
        fixed_to(t, spans, (n - 1) as nat) + match spans[n - 1] {
            SpanView::Text { text, .. } => text_width(t, text),
            SpanView::Flex => 0,
        }
    }
}

/// The number of flexible spaces among the first `n` spans.
pub open spec fn flexes_to(spans: Seq<SpanView>, n: nat) -> nat
    decreases n,
{
    if n == 0 {
        0
    } else {
        flexes_to(spans, (n - 1) as nat) + if spans[n - 1] is Flex {
            1nat
        } else {
            0
        }
    }
}

/// `s` up to its first `n` characters.
pub open spec fn first_chars(s: Seq<char>, n: nat) -> Seq<char> {
    if n < s.len() {
        s.take(n as int)
    } else {
        s
    }
}

/// A row being filled: columns left, how many flexible spaces came, and what is
/// written.
pub struct RowState {
    pub budget: nat,
    pub flex_seen: nat,
    pub ops: Seq<OpView>,
}

/// Room for flexible space: columns in all, and how many spaces share them.
pub struct FlexRoom {
    pub columns: nat,
    pub count: nat,
}

/// Columns of the flexible space after `seen` others: an equal share, and one
/// column of the remainder for each of the first.
pub open spec fn flex_share(room: FlexRoom, seen: nat) -> nat {
    room.columns / room.count + if seen < room.columns % room.count {
        1nat
    } else {
        0
    }
}

/// Adds one span.
pub open spec fn add_span(
    t: WidthTable,
    st: RowState,
    span: SpanView,
    room: FlexRoom,
    status_bg: Option<Color>,
) -> RowState {
    if st.budget == 0 {
        st
    } else {
        match span {
            SpanView::Text { text, fg, bg } => {
                let piece = first_chars(text, st.budget);
                let color = match fg {
                    Some(c) => c,
                    None => Color::DarkGrey,
                };
                RowState {
                    budget: less(st.budget, text_width(t, piece)),
                    ops: st.ops + background(
                        if bg is Some {
                            bg
                        } else {
                            status_bg
                        },
                    ) + seq![
                        OpView::SetForeground(color),
                        OpView::Print(piece),
                        OpView::ResetColor,
                    ] + background(status_bg),
                    ..st
                }
            },
            SpanView::Flex => {
                let width = least(flex_share(room, st.flex_seen), st.budget);
                RowState {
                    budget: (st.budget - width) as nat,
                    flex_seen: st.flex_seen + 1,
                    ops: st.ops.push(OpView::Print(repeat(' ', width))),
                }
            },
        }
    }
}

/// Adds the first `n` spans.
pub open spec fn spans_to(
    t: WidthTable,
    start: RowState,
    spans: Seq<SpanView>,
    room: FlexRoom,
    status_bg: Option<Color>,
    n: nat,
) -> RowState
    decreases n,
{
    if n == 0 {
        start
    } else {
        add_span(
            t,
            spans_to(t, start, spans, room, status_bg, (n - 1) as nat),
            spans[n - 1],
            room,
            status_bg,
        )
    }
}

/// The mark of a scrolled chat.
pub open spec fn scroll_mark() -> Seq<char> {
    "-- SCROLL -- "@
}

/// What is written before the spans of a row: the row is cleared, and a
/// scrolled chat marked.
pub open spec fn row_opening(
    t: WidthTable,
    y: u16,
    scrolling: bool,
    cols: nat,
    status_bg: Option<Color>,
) -> RowState {
    let cleared = seq![OpView::MoveTo(0, y)] + background(status_bg) + seq![
        OpView::ClearCurrentLine,
        OpView::MoveTo(0, y),
    ] + background(status_bg);
    let mark = first_chars(scroll_mark(), cols);
    if scrolling {
        RowState {
            budget: less(cols, text_width(t, mark)),
            flex_seen: 0,
            ops: cleared + seq![OpView::SetForeground(Color::DarkYellow), OpView::Print(mark)],
        }
    } else {
        RowState { budget: cols, flex_seen: 0, ops: cleared }
    }
}

/// The room that a row has for flexible space: what its texts leave.
pub open spec fn flex_room_of(t: WidthTable, spans: Seq<SpanView>, budget: nat) -> FlexRoom {
    FlexRoom {
        columns: less(budget, fixed_to(t, spans, spans.len())),
        count: flexes_to(spans, spans.len()),
    }
}

/// One row of the status line.
pub open spec fn status_row(
    t: WidthTable,
    y: u16,
    spans: Seq<SpanView>,
    scrolling: bool,
    cols: nat,
    status_bg: Option<Color>,
) -> Seq<OpView> {
    let start = row_opening(t, y, scrolling, cols, status_bg);
    spans_to(
        t,
        start,
        spans,
        flex_room_of(t, spans, start.budget),
        status_bg,
        spans.len(),
    ).ops + end_of_row()
}

/// The contents of row `i` of `height`: the lines stand at the bottom, and rows
/// above them are blank.
pub open spec fn row_spans(status: Seq<Seq<SpanView>>, height: nat, i: nat) -> Seq<SpanView> {
    let line = i - less(height, status.len());
    if 0 <= line < status.len() {
        status[line]
    } else {
        Seq::empty()
    }
}

/// The first `n` of `height` rows at the bottom of the screen. The topmost shows
/// that the chat is scrolled.
pub open spec fn status_rows(
    t: WidthTable,
    status: Seq<Seq<SpanView>>,
    height: nat,
    size: TermSize,
    scrolling: bool,
    status_bg: Option<Color>,
    n: nat,
) -> Seq<OpView>
    decreases n,
{
    if n == 0 {
        Seq::empty()
    } else {
        let i = n - 1;
        status_rows(t, status, height, size, scrolling, status_bg, (n - 1) as nat) + status_row(
            t,
            less(size.rows as nat, (height - i) as nat) as u16,
            row_spans(status, height, i as nat),
            scrolling && i == 0,
            size.cols as nat,
            status_bg,
        )
    }
}

// ---------------------------------------------------------------------------
// Implementation
// ---------------------------------------------------------------------------

/// `v` up to its first `n` characters.
fn take_chars(v: &Vec<char>, n: usize) -> (r: Vec<char>)
    ensures
        r@ == first_chars(v@, n as nat),
{
    let m: usize = if n < v.len() {
        n
    } else {
        v.len()
    };
    let r = slice_of(v, 0, m);
    assert(v@.subrange(0, m as int) =~= first_chars(v@, n as nat));
    r
}

/// `budget` less `width` columns, or zero.
fn spend(budget: usize, width: u128) -> (r: usize)
    ensures
        r == less(budget as nat, width as nat),
{
    if width <= budget as u128 {
        budget - width as usize
    } else {
        0
    }
}

/// Columns that the texts among the spans leave of a budget.
fn flex_room(spans: &Vec<StatusSpan>, budget: usize, widths: &CharWidths) -> (r: usize)
    ensures
        r == less(budget as nat, fixed_to(widths@, span_views(spans@), spans@.len())),
{
    let ghost views = span_views(spans@);
    let mut room: usize = budget;
    let n: usize = spans.len();
    for i in 0..n
        invariant
            n == spans@.len(),
            views == span_views(spans@),
            room == less(budget as nat, fixed_to(widths@, views, i as nat)),
    {
        assert(views[i as int] == spans@[i as int]@);
        match &spans[i] {
            StatusSpan::Text { text, .. } => {
                room = spend(room, widths.columns(&chars_of(text.as_str())));
            },
            StatusSpan::Flex => {},
        }
    }
    room
}

/// The number of flexible spaces among the spans.
fn count_flexes(spans: &Vec<StatusSpan>) -> (r: usize)
    ensures
        r == flexes_to(span_views(spans@), spans@.len()),
{
    let ghost views = span_views(spans@);
    let mut count: usize = 0;
    let n: usize = spans.len();
    for i in 0..n
        invariant
            n == spans@.len(),
            views == span_views(spans@),
            count == flexes_to(views, i as nat),
            count <= i,
    {
        assert(views[i as int] == spans@[i as int]@);
        match &spans[i] {
            StatusSpan::Text { .. } => {},
            StatusSpan::Flex => {
                count = count + 1;
            },
        }
    }
    count
}

proof fn lemma_flexes_monotonic(spans: Seq<SpanView>, i: nat, n: nat)
    requires
        i <= n,
    ensures
        flexes_to(spans, i) <= flexes_to(spans, n),
    decreases n - i,
{
    if i < n {
        lemma_flexes_monotonic(spans, i, (n - 1) as nat);
    }
}

/// A row being filled.
struct Row {
    budget: usize,
    flex_seen: usize,
    ops: Vec<DrawOp>,
}

impl Row {
    spec fn state(&self) -> RowState {
        RowState {
            budget: self.budget as nat,
            flex_seen: self.flex_seen as nat,
            ops: op_views(self.ops@),
        }
    }

    /// Adds one span.
    fn add(
        &mut self,
        span: &StatusSpan,
        columns: usize,
        count: usize,
        status_bg: Option<Color>,
        widths: &CharWidths,
    )
        requires
            span@ is Flex ==> count > 0,
            old(self).flex_seen < usize::MAX,
        ensures
            final(self).state() == add_span(
                widths@,
                old(self).state(),
                span@,
                (FlexRoom { columns: columns as nat, count: count as nat }),
                status_bg,
            ),
            final(self).flex_seen <= old(self).flex_seen + 1,
    {
        if self.budget == 0 {
            return;
        }
        let ghost before = op_views(self.ops@);
        match span {
            StatusSpan::Text { text, fg, bg } => {
                let back = match bg {
                    Some(c) => Some(*c),
                    None => status_bg,
                };
                push_background(&mut self.ops, back);
                let color = match fg {
                    Some(c) => *c,
                    None => Color::DarkGrey,
                };
                push_op(&mut self.ops, DrawOp::SetForeground(color));
                let piece = take_chars(&chars_of(text.as_str()), self.budget);
                self.budget = spend(self.budget, widths.columns(&piece));
                push_chars(&mut self.ops, &piece);
                push_op(&mut self.ops, DrawOp::ResetColor);
                push_background(&mut self.ops, status_bg);
                assert(op_views(self.ops@) =~= before + background(back) + seq![
                    OpView::SetForeground(color),
                    OpView::Print(piece@),
                    OpView::ResetColor,
                ] + background(status_bg));
            },
            StatusSpan::Flex => {
                let base: usize = columns / count;
                let rest: usize = columns % count;
                let share: u128 = base as u128 + if self.flex_seen < rest {
                    1
                } else {
                    0
                };
                let width: usize = if share <= self.budget as u128 {
                    share as usize
                } else {
                    self.budget
                };
                self.flex_seen = self.flex_seen + 1;
                self.budget = self.budget - width;
                push_run(&mut self.ops, ' ', width);
            },
        }
    }
}

/// Appends one row of the status line.
fn draw_statusline_row(
    out: &mut Vec<DrawOp>,
    screen_row: u16,
    spans: &Vec<StatusSpan>,
    scrolling: bool,
    cols: u16,
    status_bg: Option<Color>,
    widths: &CharWidths,
)
    ensures
        op_views(final(out)@) == op_views(old(out)@) + status_row(
            widths@,
            screen_row,
            span_views(spans@),
            scrolling,
            cols as nat,
            status_bg,
        ),
{
    let ghost t = widths@;
    let ghost views = span_views(spans@);
    let mut ops: Vec<DrawOp> = Vec::new();
    assert(op_views(ops@) =~= Seq::<OpView>::empty());
    push_op(&mut ops, DrawOp::MoveTo(0, screen_row));
    push_background(&mut ops, status_bg);
    push_op(&mut ops, DrawOp::ClearCurrentLine);
    push_op(&mut ops, DrawOp::MoveTo(0, screen_row));
    push_background(&mut ops, status_bg);
    assert(op_views(ops@) =~= seq![OpView::MoveTo(0, screen_row)] + background(status_bg) + seq![
        OpView::ClearCurrentLine,
        OpView::MoveTo(0, screen_row),
    ] + background(status_bg));
    let mut budget: usize = cols as usize;
    if scrolling {
        let ghost cleared = op_views(ops@);
        push_op(&mut ops, DrawOp::SetForeground(Color::DarkYellow));
        let mark = take_chars(&chars_of("-- SCROLL -- "), budget);
        budget = spend(budget, widths.columns(&mark));
        push_chars(&mut ops, &mark);
        assert(op_views(ops@) =~= cleared + seq![
            OpView::SetForeground(Color::DarkYellow),
            OpView::Print(mark@),
        ]);
    }
    let columns = flex_room(spans, budget, widths);
    let count = count_flexes(spans);
    let mut row = Row { budget, flex_seen: 0, ops };
    let ghost start = row.state();
    let ghost room = FlexRoom { columns: columns as nat, count: count as nat };
    assert(start == row_opening(t, screen_row, scrolling, cols as nat, status_bg));
    let n: usize = spans.len();
    for i in 0..n
        invariant
            n == spans@.len(),
            t == widths@,
            views == span_views(spans@),
            count == flexes_to(views, n as nat),
            row.flex_seen <= i,
            room == (FlexRoom { columns: columns as nat, count: count as nat }),
            row.state() == spans_to(t, start, views, room, status_bg, i as nat),
    {
        assert(views[i as int] == spans@[i as int]@);
        proof {
            lemma_flexes_monotonic(views, (i + 1) as nat, n as nat);
        }
        row.add(&spans[i], columns, count, status_bg, widths);
    }
    let mut ops = row.ops;
    push_end_of_row(&mut ops);
    let ghost added = op_views(ops@);
    let ghost before = op_views(out@);
    crate::draw::push_ops(out, ops);
    assert(op_views(out@) =~= before + added);
}

/// Appends the rows of the status line at the bottom of the screen.
pub fn draw_statusline(
    out: &mut Vec<DrawOp>,
    status: &Vec<Vec<StatusSpan>>,
    height: u16,
    size: TermSize,
    scrolling: bool,
    status_bg: Option<Color>,
    widths: &CharWidths,
)
    ensures
        op_views(final(out)@) == op_views(old(out)@) + status_rows(
            widths@,
            status_views(status@),
            height as nat,
            size,
            scrolling,
            status_bg,
            height as nat,
        ),
{
    let ghost views = status_views(status@);
    let ghost before = op_views(out@);
    assert(before + Seq::<OpView>::empty() =~= before);
    let none: Vec<StatusSpan> = Vec::new();
    assert(span_views(none@) =~= Seq::<SpanView>::empty());
    let blank: usize = minus(height as usize, status.len());
    assert(views.len() == status@.len());
    for i in 0..height
        invariant
            views == status_views(status@),
            views.len() == status@.len(),
            blank == less(height as nat, views.len()),
            span_views(none@) == Seq::<SpanView>::empty(),
            op_views(out@) == before + status_rows(
                widths@,
                views,
                height as nat,
                size,
                scrolling,
                status_bg,
                i as nat,
            ),
    {
        let below: u16 = height - i;
        let y: u16 = if below <= size.rows {
            size.rows - below
        } else {
            0
        };
        let at: usize = i as usize;
        let spans = if at >= blank && at - blank < status.len() {
            assert(views[at - blank] == span_views(status@[at - blank]@));
            &status[at - blank]
        } else {
            &none
        };
        draw_statusline_row(out, y, spans, scrolling && i == 0, size.cols, status_bg, widths);
        assert(op_views(out@) =~= before + status_rows(
            widths@,
            views,
            height as nat,
            size,
            scrolling,
            status_bg,
            (i + 1) as nat,
        ));
    }
}

// ---------------------------------------------------------------------------
// Laws
// ---------------------------------------------------------------------------

/// Whether every character takes one column.
pub open spec fn single_width(t: WidthTable) -> bool {
    t.zero.len() == 0 && t.wide.len() == 0
}

/// Columns that the texts in a drawing take together.
pub open spec fn printed(t: WidthTable, ops: Seq<OpView>) -> nat
    decreases ops.len(),
{
    if ops.len() == 0 {
        0
    } else {
        printed(t, ops.drop_last()) + match ops.last() {
            OpView::Print(text) => text_width(t, text),
            _ => 0,
        }
    }
}

proof fn lemma_printed_concat(t: WidthTable, a: Seq<OpView>, b: Seq<OpView>)
    ensures
        printed(t, a + b) == printed(t, a) + printed(t, b),
    decreases b.len(),
{
    if b.len() == 0 {
        assert(a + b =~= a);
    } else {
        assert((a + b).drop_last() =~= a + b.drop_last());
        lemma_printed_concat(t, a, b.drop_last());
    }
}

/// The width of a text where every character takes one column.
pub proof fn lemma_single_width(t: WidthTable, s: Seq<char>)
    requires
        single_width(t),
    ensures
        text_width(t, s) == s.len(),
    decreases s.len(),
{
    if s.len() > 0 {
        lemma_single_width(t, s.drop_last());
    }
}

proof fn lemma_printed_none(t: WidthTable, bg: Option<Color>)
    ensures
        printed(t, background(bg)) == 0,
        printed(t, end_of_row()) == 0,
{
    reveal_with_fuel(printed, 4);
    assert(background(bg).len() <= 1);
    if background(bg).len() == 1 {
        assert(background(bg).drop_last() =~= Seq::<OpView>::empty());
    }
    let e = end_of_row();
    assert(e.len() == 2);
    assert(e.drop_last().drop_last() =~= Seq::<OpView>::empty());
}

/// Columns of the first `k` flexible spaces together.
pub open spec fn flex_sum(room: FlexRoom, k: nat) -> nat
    decreases k,
{
    if k == 0 {
        0
    } else {
        flex_sum(room, (k - 1) as nat) + flex_share(room, (k - 1) as nat)
    }
}

proof fn lemma_flex_sum(room: FlexRoom, k: nat)
    requires
        room.count > 0,
    ensures
        flex_sum(room, k) == k * (room.columns / room.count) + least(
            k,
            room.columns % room.count,
        ),
    decreases k,
{
    let q = room.columns / room.count;
    if k > 0 {
        lemma_flex_sum(room, (k - 1) as nat);
        assert(k * q == (k - 1) * q + q) by (nonlinear_arith)
            requires
                k > 0,
        ;
    } else {
        assert(0 * q == 0) by (nonlinear_arith);
    }
}

/// The flexible spaces of a row share its room completely, and no two differ by
/// more than one column.
pub proof fn lemma_flex_shares(room: FlexRoom, i: nat, j: nat)
    requires
        i < j < room.count,
    ensures
        flex_sum(room, room.count) == room.columns,
        flex_share(room, j) <= flex_share(room, i) <= flex_share(room, j) + 1,
{
    lemma_flex_total(room);
}

proof fn lemma_flex_total(room: FlexRoom)
    requires
        room.count > 0,
    ensures
        flex_sum(room, room.count) == room.columns,
{
    lemma_flex_sum(room, room.count);
    vstd::arithmetic::div_mod::lemma_fundamental_div_mod(room.columns as int, room.count as int);
    let q = room.columns / room.count;
    assert(room.count * q == q * room.count) by (nonlinear_arith);
}

proof fn lemma_flex_bound(room: FlexRoom, k: nat)
    requires
        k <= room.count,
        room.count > 0,
    ensures
        flex_sum(room, k) <= room.columns,
    decreases room.count - k,
{
    if k < room.count {
        lemma_flex_bound(room, k + 1);
    } else {
        lemma_flex_total(room);
    }
}

proof fn lemma_fixed_monotonic(t: WidthTable, spans: Seq<SpanView>, i: nat, n: nat)
    requires
        i <= n,
    ensures
        fixed_to(t, spans, i) <= fixed_to(t, spans, n),
    decreases n - i,
{
    if i < n {
        lemma_fixed_monotonic(t, spans, i, (n - 1) as nat);
    }
}

/// What one span prints, it takes from the columns left.
proof fn lemma_span_spends(
    t: WidthTable,
    st: RowState,
    span: SpanView,
    room: FlexRoom,
    bg: Option<Color>,
)
    requires
        single_width(t),
    ensures
        ({
            let next = add_span(t, st, span, room, bg);
            printed(t, next.ops) + next.budget == printed(t, st.ops) + st.budget
        }),
{
    if st.budget > 0 {
        match span {
            SpanView::Text { text, fg, bg: own } => {
                let piece = first_chars(text, st.budget);
                lemma_single_width(t, piece);
                let color = match fg {
                    Some(c) => c,
                    None => Color::DarkGrey,
                };
                let back = background(
                    if own is Some {
                        own
                    } else {
                        bg
                    },
                );
                let middle = seq![
                    OpView::SetForeground(color),
                    OpView::Print(piece),
                    OpView::ResetColor,
                ];
                lemma_printed_concat(t, st.ops, back);
                lemma_printed_concat(t, st.ops + back, middle);
                lemma_printed_concat(t, st.ops + back + middle, background(bg));
                lemma_printed_none(t, bg);
                lemma_printed_none(
                    t,
                    if own is Some {
                        own
                    } else {
                        bg
                    },
                );
                let m1 = middle.drop_last();
                let m2 = m1.drop_last();
                assert(m2.drop_last() =~= Seq::<OpView>::empty());
                assert(printed(t, Seq::<OpView>::empty()) == 0);
                assert(printed(t, m2) == 0);
                assert(printed(t, m1) == text_width(t, piece));
            },
            SpanView::Flex => {
                let width = least(flex_share(room, st.flex_seen), st.budget);
                lemma_single_width(t, repeat(' ', width));
                let ops = st.ops.push(OpView::Print(repeat(' ', width)));
                assert(ops.drop_last() =~= st.ops);
            },
        }
    }
}

proof fn lemma_spans_spend(
    t: WidthTable,
    start: RowState,
    spans: Seq<SpanView>,
    room: FlexRoom,
    bg: Option<Color>,
    n: nat,
)
    requires
        single_width(t),
    ensures
        ({
            let st = spans_to(t, start, spans, room, bg, n);
            printed(t, st.ops) + st.budget == printed(t, start.ops) + start.budget
        }),
    decreases n,
{
    if n > 0 {
        lemma_spans_spend(t, start, spans, room, bg, (n - 1) as nat);
        lemma_span_spends(
            t,
            spans_to(t, start, spans, room, bg, (n - 1) as nat),
            spans[n - 1],
            room,
            bg,
        );
    }
}

/// How far a row with flexible space has been filled.
proof fn lemma_filling(
    t: WidthTable,
    start: RowState,
    spans: Seq<SpanView>,
    bg: Option<Color>,
    n: nat,
)
    requires
        single_width(t),
        start.flex_seen == 0,
        n <= spans.len(),
        flexes_to(spans, spans.len()) > 0,
        fixed_to(t, spans, spans.len()) <= start.budget,
    ensures
        ({
            let room = flex_room_of(t, spans, start.budget);
            let st = spans_to(t, start, spans, room, bg, n);
            ||| st.budget == 0
            ||| st.flex_seen == flexes_to(spans, n) && st.budget == start.budget - fixed_to(
                t,
                spans,
                n,
            ) - flex_sum(room, flexes_to(spans, n))
        }),
    decreases n,
{
    let room = flex_room_of(t, spans, start.budget);
    if n > 0 {
        let before = spans_to(t, start, spans, room, bg, (n - 1) as nat);
        lemma_filling(t, start, spans, bg, (n - 1) as nat);
        lemma_fixed_monotonic(t, spans, n, spans.len());
        lemma_flexes_monotonic(spans, n, spans.len());
        if before.budget > 0 {
            lemma_flex_bound(room, flexes_to(spans, n));
            match spans[n - 1] {
                SpanView::Text { text, .. } => {
                    lemma_single_width(t, text);
                },
                SpanView::Flex => {},
            }
        }
    }
}

/// Flexible space never takes the room of the texts behind it.
pub proof fn lemma_texts_have_room(
    t: WidthTable,
    start: RowState,
    spans: Seq<SpanView>,
    bg: Option<Color>,
    n: nat,
)
    requires
        single_width(t),
        start.flex_seen == 0,
        n <= spans.len(),
        fixed_to(t, spans, spans.len()) <= start.budget,
    ensures
        ({
            let room = flex_room_of(t, spans, start.budget);
            let st = spans_to(t, start, spans, room, bg, n);
            let used = if room.count > 0 {
                flex_sum(room, flexes_to(spans, n))
            } else {
                0
            };
            &&& st.budget >= fixed_to(t, spans, spans.len()) - fixed_to(t, spans, n)
            &&& ({
                ||| st.flex_seen == flexes_to(spans, n) && st.budget == start.budget - fixed_to(
                    t,
                    spans,
                    n,
                ) - used
                ||| st.budget == 0 && fixed_to(t, spans, spans.len()) == fixed_to(t, spans, n)
            })
        }),
    decreases n,
{
    let room = flex_room_of(t, spans, start.budget);
    let all = fixed_to(t, spans, spans.len());
    lemma_fixed_monotonic(t, spans, n, spans.len());
    lemma_flexes_monotonic(spans, n, spans.len());
    if room.count > 0 {
        lemma_flex_bound(room, flexes_to(spans, n));
    }
    if n > 0 {
        let m = (n - 1) as nat;
        let before = spans_to(t, start, spans, room, bg, m);
        lemma_texts_have_room(t, start, spans, bg, m);
        lemma_fixed_monotonic(t, spans, m, n);
        if before.budget > 0 {
            match spans[n - 1] {
                SpanView::Text { text, .. } => {
                    lemma_single_width(t, text);
                    assert(first_chars(text, before.budget) == text);
                },
                SpanView::Flex => {},
            }
        }
    }
}

/// A row of the status line prints no more columns than the screen has; and
/// where it has flexible space and its texts leave room, it fills the screen
/// from edge to edge. This is said of characters that take one column each.
pub proof fn lemma_status_row_fills(
    t: WidthTable,
    y: u16,
    spans: Seq<SpanView>,
    scrolling: bool,
    cols: nat,
    bg: Option<Color>,
)
    requires
        single_width(t),
    ensures
        ({
            let columns = printed(t, status_row(t, y, spans, scrolling, cols, bg));
            let start = row_opening(t, y, scrolling, cols, bg);
            &&& columns <= cols
            &&& flexes_to(spans, spans.len()) > 0 && fixed_to(t, spans, spans.len())
                <= start.budget ==> columns == cols
        }),
{
    let start = row_opening(t, y, scrolling, cols, bg);
    let room = flex_room_of(t, spans, start.budget);
    let st = spans_to(t, start, spans, room, bg, spans.len());
    let mark = first_chars(scroll_mark(), cols);
    lemma_single_width(t, mark);
    lemma_printed_none(t, bg);
    let s1 = seq![OpView::MoveTo(0, y)];
    let s2 = seq![OpView::ClearCurrentLine, OpView::MoveTo(0, y)];
    let s3 = seq![OpView::SetForeground(Color::DarkYellow), OpView::Print(mark)];
    assert(s1.drop_last() =~= Seq::<OpView>::empty());
    assert(s2.drop_last().drop_last() =~= Seq::<OpView>::empty());
    assert(printed(t, Seq::<OpView>::empty()) == 0);
    assert(printed(t, s1) == 0);
    assert(printed(t, s2.drop_last()) == 0);
    assert(printed(t, s2) == 0);
    assert(s3.drop_last().drop_last() =~= Seq::<OpView>::empty());
    assert(printed(t, s3.drop_last()) == 0);
    assert(printed(t, s3) == text_width(t, mark));
    lemma_printed_concat(t, s1, background(bg));
    lemma_printed_concat(t, s1 + background(bg), s2);
    lemma_printed_concat(t, s1 + background(bg) + s2, background(bg));
    lemma_printed_concat(t, s1 + background(bg) + s2 + background(bg), s3);
    assert(printed(t, start.ops) + start.budget == cols);
    lemma_spans_spend(t, start, spans, room, bg, spans.len());
    lemma_printed_concat(t, st.ops, end_of_row());
    if flexes_to(spans, spans.len()) > 0 && fixed_to(t, spans, spans.len()) <= start.budget {
        lemma_filling(t, start, spans, bg, spans.len());
        lemma_flex_total(room);
    }
}

/// The lines of a status line with fewer lines than rows stand in the last
/// rows, and those above are blank.
pub proof fn lemma_status_at_bottom(status: Seq<Seq<SpanView>>, height: nat, i: nat)
    requires
        status.len() <= height,
        i < height,
    ensures
        i < height - status.len() ==> row_spans(status, height, i) == Seq::<SpanView>::empty(),
        i >= height - status.len() ==> row_spans(status, height, i) == status[i - (height
            - status.len())],
{
}

} // verus!
