//! The bottom of the screen: what is compared between frames to decide how
//! much of it is painted again, and the geometry of the input area.

use vstd::prelude::*;

use crate::color::Color;
use crate::draw::{
    background, empty_rows, end_of_row, op_views, push_background, push_chars, push_empty_rows,
    push_end_of_row, push_op, push_print, push_run, DrawOp, OpView,
};
use crate::line::CompactText;
use crate::num::{least, less, minus, smaller};
use crate::statusline::{span_views, status_views, SpanView, StatusSpan};
use crate::text::{
    char_seqs, chars_of, copy_of, repeat, same_text, slice_of, split, split_of,
};
use crate::width::{lemma_width_prefix, text_width, CharWidths, WidthTable};

verus! {

// ---------------------------------------------------------------------------
// Snapshots
// ---------------------------------------------------------------------------

/// A tool's request for permission.
pub struct PermissionPrompt {
    pub tool: CompactText,
    pub options: CompactText,
}

/// A question about the next step of a chain.
pub struct ChainPrompt {
    pub question: CompactText,
}

/// What the input area shows.
pub enum PromptSnapshot {
    Input,
    Permission { tool: String, options: String },
    Chain { question: String, but_mode: bool },
}

/// What a [`PromptSnapshot`] holds.
pub enum PromptView {
    Input,
    Permission { tool: Seq<char>, options: Seq<char> },
    Chain { question: Seq<char>, but_mode: bool },
}

impl View for PromptSnapshot {
    type V = PromptView;

    open spec fn view(&self) -> PromptView {
        match *self {
            PromptSnapshot::Input => PromptView::Input,
            PromptSnapshot::Permission { tool, options } => PromptView::Permission {
                tool: tool@,
                options: options@,
            },
            PromptSnapshot::Chain { question, but_mode } => PromptView::Chain {
                question: question@,
                but_mode,
            },
        }
    }
}

/// Everything that the bottom of the screen shows.
pub struct BottomSnapshot {
    pub cols: u16,
    pub rows: u16,
    pub statusline_height: usize,
    pub input: String,
    pub cursor_pos: usize,
    pub is_running: bool,
    pub spinner_frame: u8,
    pub input_vscroll_offset: usize,
    pub prompt: PromptSnapshot,
    pub statusline: Vec<Vec<StatusSpan>>,
    pub scroll_indicator: bool,
    pub monochrome: bool,
    pub input_bg: Option<Color>,
    pub status_bg: Option<Color>,
}

/// What a [`BottomSnapshot`] holds.
#[verifier::ext_equal]
pub struct BottomView {
    pub cols: u16,
    pub rows: u16,
    pub statusline_height: usize,
    pub input: Seq<char>,
    pub cursor_pos: usize,
    pub is_running: bool,
    pub spinner_frame: u8,
    pub input_vscroll_offset: usize,
    pub prompt: PromptView,
    pub statusline: Seq<Seq<SpanView>>,
    pub scroll_indicator: bool,
    pub monochrome: bool,
    pub input_bg: Option<Color>,
    pub status_bg: Option<Color>,
}

impl View for BottomSnapshot {
    type V = BottomView;

    open spec fn view(&self) -> BottomView {
        BottomView {
            cols: self.cols,
            rows: self.rows,
            statusline_height: self.statusline_height,
            input: self.input@,
            cursor_pos: self.cursor_pos,
            is_running: self.is_running,
            spinner_frame: self.spinner_frame,
            input_vscroll_offset: self.input_vscroll_offset,
            prompt: self.prompt@,
            statusline: status_views(self.statusline@),
            scroll_indicator: self.scroll_indicator,
            monochrome: self.monochrome,
            input_bg: self.input_bg,
            status_bg: self.status_bg,
        }
    }
}

/// How much of the bottom of the screen has to be painted again.
#[derive(Clone, Copy, Debug, PartialEq, Eq, Structural)]
pub enum BottomRedrawPlan {
    /// Nothing changed since the last frame.
    Skip,
    /// Only the status line changed.
    StatuslineOnly,
    /// The input area changed, or what it sits in.
    Full,
}

/// The plan from what was painted last to what is to be painted: nothing where
/// they are equal, the status line where they differ in it alone.
pub open spec fn redraw_plan(prev: Option<BottomView>, next: BottomView, force_full: bool) -> BottomRedrawPlan {
    match prev {
        Some(p) if !force_full => if p == next {
            BottomRedrawPlan::Skip
        } else if p == (BottomView {
            statusline: p.statusline,
            scroll_indicator: p.scroll_indicator,
            ..next
        }) {
            BottomRedrawPlan::StatuslineOnly
        } else {
            BottomRedrawPlan::Full
        },
        _ => BottomRedrawPlan::Full,
    }
}

/// Whether two optional colors are the same.
pub fn same_color(a: Option<Color>, b: Option<Color>) -> (r: bool)
    ensures
        r == (a == b),
{
    match (a, b) {
        (Some(x), Some(y)) => x == y,
        (None, None) => true,
        _ => false,
    }
}

fn same_span(a: &StatusSpan, b: &StatusSpan) -> (r: bool)
    ensures
        r == (a@ == b@),
{
    match (a, b) {
        (
            StatusSpan::Text { text: t1, fg: f1, bg: b1 },
            StatusSpan::Text { text: t2, fg: f2, bg: b2 },
        ) => same_text(t1.as_str(), t2.as_str()) && same_color(*f1, *f2) && same_color(*b1, *b2),
        (StatusSpan::Flex, StatusSpan::Flex) => true,
        _ => false,
    }
}

fn same_spans(a: &Vec<StatusSpan>, b: &Vec<StatusSpan>) -> (r: bool)
    ensures
        r == (span_views(a@) == span_views(b@)),
{
    let ghost va = span_views(a@);
    let ghost vb = span_views(b@);
    if a.len() != b.len() {
        assert(va.len() != vb.len());
        return false;
    }
    let n: usize = a.len();
    for i in 0..n
        invariant
            n == a@.len() == b@.len(),
            va == span_views(a@),
            vb == span_views(b@),
            forall|j: int| 0 <= j < i ==> va[j] == vb[j],
    {
        assert(va[i as int] == a@[i as int]@);
        assert(vb[i as int] == b@[i as int]@);
        if !same_span(&a[i], &b[i]) {
            return false;
        }
    }
    assert(va =~= vb);
    true
}

fn same_status(a: &Vec<Vec<StatusSpan>>, b: &Vec<Vec<StatusSpan>>) -> (r: bool)
    ensures
        r == (status_views(a@) == status_views(b@)),
{
    let ghost va = status_views(a@);
    let ghost vb = status_views(b@);
    if a.len() != b.len() {
        assert(va.len() != vb.len());
        return false;
    }
    let n: usize = a.len();
    for i in 0..n
        invariant
            n == a@.len() == b@.len(),
            va == status_views(a@),
            vb == status_views(b@),
            forall|j: int| 0 <= j < i ==> va[j] == vb[j],
    {
        assert(va[i as int] == span_views(a@[i as int]@));
        assert(vb[i as int] == span_views(b@[i as int]@));
        if !same_spans(&a[i], &b[i]) {
            return false;
        }
    }
    assert(va =~= vb);
    true
}

fn same_prompt(a: &PromptSnapshot, b: &PromptSnapshot) -> (r: bool)
    ensures
        r == (a@ == b@),
{
    match (a, b) {
        (PromptSnapshot::Input, PromptSnapshot::Input) => true,
        (
            PromptSnapshot::Permission { tool: t1, options: o1 },
            PromptSnapshot::Permission { tool: t2, options: o2 },
        ) => same_text(t1.as_str(), t2.as_str()) && same_text(o1.as_str(), o2.as_str()),
        (
            PromptSnapshot::Chain { question: q1, but_mode: m1 },
            PromptSnapshot::Chain { question: q2, but_mode: m2 },
        ) => same_text(q1.as_str(), q2.as_str()) && *m1 == *m2,
        _ => false,
    }
}

/// Whether two snapshots differ in the status line and its scroll mark alone.
fn same_input_area(a: &BottomSnapshot, b: &BottomSnapshot) -> (r: bool)
    ensures
        r == (a@ == (BottomView {
            statusline: a@.statusline,
            scroll_indicator: a@.scroll_indicator,
            ..b@
        })),
{
    a.cols == b.cols && a.rows == b.rows && a.statusline_height == b.statusline_height && same_text(
        a.input.as_str(),
        b.input.as_str(),
    ) && a.cursor_pos == b.cursor_pos && a.is_running == b.is_running && a.spinner_frame
        == b.spinner_frame && a.input_vscroll_offset == b.input_vscroll_offset && same_prompt(
        &a.prompt,
        &b.prompt,
    ) && a.monochrome == b.monochrome && same_color(a.input_bg, b.input_bg) && same_color(
        a.status_bg,
        b.status_bg,
    )
}

/// How much has to be painted again.
pub fn bottom_redraw_plan(
    prev: Option<&BottomSnapshot>,
    next: &BottomSnapshot,
    force_full: bool,
) -> (r: BottomRedrawPlan)
    ensures
        r == redraw_plan(
            match prev {
                Some(p) => Some(p@),
                None => None,
            },
            next@,
            force_full,
        ),
{
    if force_full {
        return BottomRedrawPlan::Full;
    }
    match prev {
        None => BottomRedrawPlan::Full,
        Some(p) => {
            if !same_input_area(p, next) {
                BottomRedrawPlan::Full
            } else if same_status(&p.statusline, &next.statusline) && p.scroll_indicator
                == next.scroll_indicator {
                BottomRedrawPlan::Skip
            } else {
                BottomRedrawPlan::StatuslineOnly
            }
        },
    }
}

/// An identical frame is not painted again, and one is painted in full where
/// none was painted before or a repaint is forced.
pub proof fn lemma_redraw_plan(prev: Option<BottomView>, next: BottomView)
    ensures
        redraw_plan(Some(next), next, false) is Skip,
        redraw_plan(None, next, false) is Full,
        redraw_plan(prev, next, true) is Full,
{
}

/// What is not painted again is on the screen already: where less than all is
/// painted, the input area was painted last for the same input, cursor, prompt,
/// scroll position, spinner, colors and size; and where nothing is painted, the
/// status line was the same, too.
pub proof fn lemma_unpainted_is_unchanged(
    prev: Option<BottomView>,
    next: BottomView,
    force_full: bool,
)
    ensures
        !(redraw_plan(prev, next, force_full) is Full) ==> {
            &&& !force_full
            &&& prev matches Some(p) && {
                &&& p.input == next.input
                &&& p.cursor_pos == next.cursor_pos
                &&& p.prompt == next.prompt
                &&& p.cols == next.cols && p.rows == next.rows
                &&& p.statusline_height == next.statusline_height
                &&& p.is_running == next.is_running
                &&& p.spinner_frame == next.spinner_frame
                &&& p.input_vscroll_offset == next.input_vscroll_offset
                &&& p.monochrome == next.monochrome
                &&& p.input_bg == next.input_bg && p.status_bg == next.status_bg
            }
        },
        redraw_plan(prev, next, force_full) is Skip ==> (prev matches Some(p) && p.statusline
            == next.statusline && p.scroll_indicator == next.scroll_indicator),
{
}

// ---------------------------------------------------------------------------
// Geometry of the input area
// ---------------------------------------------------------------------------

/// The most rows the input may take of `available` ones: about a third of
/// them, and at least five where there are so many.
pub open spec fn max_input_rows(available: nat) -> nat {
    let share = available * 3 / 10;
    least(
        available,
        if share >= 5 {
            share
        } else {
            5
        },
    )
}

/// How many characters of `s`, from position `i` on, keep the width of the text
/// before them and their own within `width` columns.
pub open spec fn fit_from(t: WidthTable, s: Seq<char>, width: nat, i: int) -> int
    decreases s.len() - i,
{
    if 0 <= i < s.len() && text_width(t, s.take(i + 1)) <= width {
        fit_from(t, s, width, i + 1)
    } else {
        i
    }
}

/// How many leading characters of `s` fit in `width` columns.
pub open spec fn fit_count(t: WidthTable, s: Seq<char>, width: nat) -> int {
    fit_from(t, s, width, 0)
}

/// The characters that fit do fit, and one more would not.
pub proof fn lemma_fit_count(t: WidthTable, s: Seq<char>, width: nat)
    ensures
        0 <= fit_count(t, s, width) <= s.len(),
        text_width(t, s.take(fit_count(t, s, width))) <= width,
        fit_count(t, s, width) < s.len() ==> text_width(t, s.take(fit_count(t, s, width) + 1))
            > width,
{
    assert(s.take(0) =~= Seq::<char>::empty());
    lemma_fit_from(t, s, width, 0);
}

proof fn lemma_fit_from(t: WidthTable, s: Seq<char>, width: nat, i: int)
    requires
        0 <= i <= s.len(),
        text_width(t, s.take(i)) <= width,
    ensures
        i <= fit_from(t, s, width, i) <= s.len(),
        text_width(t, s.take(fit_from(t, s, width, i))) <= width,
        fit_from(t, s, width, i) < s.len() ==> text_width(
            t,
            s.take(fit_from(t, s, width, i) + 1),
        ) > width,
    decreases s.len() - i,
{
    if i < s.len() && text_width(t, s.take(i + 1)) <= width {
        lemma_fit_from(t, s, width, i + 1);
    }
}

/// How many leading characters of `v` fit in `width` columns.
pub fn count_fitting(v: &Vec<char>, width: u128, widths: &CharWidths) -> (r: usize)
    requires
        width <= u128::MAX - 2,
    ensures
        r == fit_count(widths@, v@, width as nat),
        r <= v@.len(),
{
    let ghost t = widths@;
    let mut i: usize = 0;
    let mut w: u128 = 0;
    assert(v@.take(0) =~= Seq::<char>::empty());
    while i < v.len()
        invariant
            width <= u128::MAX - 2,
            t == widths@,
            i <= v@.len(),
            w == text_width(t, v@.take(i as int)),
            w <= width,
            fit_count(t, v@, width as nat) == fit_from(t, v@, width as nat, i as int),
        ensures
            i <= v@.len(),
            i == fit_count(t, v@, width as nat),
        decreases v@.len() - i,
    {
        let cw: usize = widths.char_display_width(v[i]);
        proof {
            assert(v@.take(i + 1).drop_last() =~= v@.take(i as int));
        }
        if w + cw as u128 > width {
            break;
        }
        w = w + cw as u128;
        i = i + 1;
    }
    i
}

/// Where the input area was painted last, and how far it is scrolled.
#[derive(Clone, Copy, Debug)]
pub struct InputView {
    /// Columns the line with the cursor is scrolled by.
    pub scroll: u128,
    /// Lines the input is scrolled by, and the most it can be.
    pub vscroll: usize,
    pub max_vscroll: usize,
    /// The cursor as of the last frame.
    pub last_cursor: usize,
    /// Row of the first visible line.
    pub base_row: u16,
    pub prompt_width: usize,
    pub first_visible: usize,
    pub visible_count: usize,
    /// Columns the line with the cursor was painted scrolled by.
    pub h_scroll: u128,
    pub cursor_line: usize,
}

/// Line `i`, or nothing below the last.
pub open spec fn line_at(lines: Seq<Seq<char>>, i: int) -> Seq<char> {
    if 0 <= i < lines.len() {
        lines[i]
    } else {
        Seq::empty()
    }
}

/// `s` up to its first `n` characters.
pub open spec fn first_of(s: Seq<char>, n: nat) -> Seq<char> {
    if n < s.len() {
        s.take(n as int)
    } else {
        s
    }
}

/// Lines scrolled by, so that a cursor that moved is in view.
pub open spec fn followed(offset: nat, cursor: nat, room: nat, moved: bool) -> nat {
    if !moved {
        offset
    } else if cursor < offset {
        cursor
    } else if cursor >= offset + room {
        (cursor - room + 1) as nat
    } else {
        offset
    }
}

/// Everything about a frame that the layout of the input depends on.
pub struct InputFrame {
    pub lines: Seq<Seq<char>>,
    pub cursor_pos: usize,
    pub cursor_line: usize,
    pub cursor_col: usize,
    pub prompt_width: nat,
    pub cols: nat,
    /// Rows above the status line and the separator.
    pub available: nat,
}

impl InputFrame {
    /// Rows the input may take.
    pub open spec fn max_rows(self) -> nat {
        max_input_rows(
            if self.available > 0 {
                self.available
            } else {
                1
            },
        )
    }

    /// Whether not all lines can be shown.
    pub open spec fn overflows(self) -> bool {
        self.lines.len() > self.max_rows()
    }

    /// Rows that are shown.
    pub open spec fn visible(self) -> nat {
        least(self.lines.len(), self.max_rows())
    }

    /// Columns for the text.
    pub open spec fn text_cols(self) -> nat {
        less(self.cols, self.prompt_width)
    }

    /// The line with the cursor.
    pub open spec fn cursor_text(self) -> Seq<char> {
        line_at(self.lines, self.cursor_line as int)
    }

    /// Column of the cursor within its line.
    pub open spec fn cursor_x(self, t: WidthTable) -> nat {
        text_width(t, first_of(self.cursor_text(), self.cursor_col as nat))
    }

    /// Lines scrolled by.
    pub open spec fn vscroll(self, last: InputView) -> nat {
        if self.overflows() {
            least(
                followed(
                    last.vscroll as nat,
                    self.cursor_line as nat,
                    self.max_rows(),
                    last.last_cursor != self.cursor_pos,
                ),
                (self.lines.len() - self.max_rows()) as nat,
            )
        } else {
            0
        }
    }

    /// Columns scrolled by, kept for the next frame.
    pub open spec fn scroll(self, t: WidthTable, last: InputView) -> nat {
        if text_width(t, self.cursor_text()) > self.text_cols() {
            followed(last.scroll as nat, self.cursor_x(t), self.text_cols(), true)
        } else {
            0
        }
    }

    /// Columns the line with the cursor is painted scrolled by.
    pub open spec fn h_scroll(self, t: WidthTable, last: InputView) -> nat {
        least(
            self.scroll(t, last),
            less(text_width(t, self.cursor_text()), self.text_cols()),
        )
    }

    /// Row of the first visible line.
    pub open spec fn top(self) -> nat {
        less(self.available, self.visible()) + 1
    }

    /// The layout of this frame after that of the last.
    pub open spec fn layout(self, t: WidthTable, last: InputView) -> InputView {
        InputView {
            scroll: self.scroll(t, last) as u128,
            vscroll: self.vscroll(last) as usize,
            max_vscroll: less(self.lines.len(), self.max_rows()) as usize,
            last_cursor: self.cursor_pos,
            base_row: self.top() as u16,
            prompt_width: self.prompt_width as usize,
            first_visible: self.vscroll(last) as usize,
            visible_count: self.visible() as usize,
            h_scroll: self.h_scroll(t, last) as u128,
            cursor_line: self.cursor_line,
        }
    }

    /// Where the cursor is painted: inside the input area even where its line
    /// is scrolled out of view.
    pub open spec fn caret(self, t: WidthTable, last: InputView) -> (nat, nat) {
        let x = self.prompt_width + less(self.cursor_x(t), self.h_scroll(t, last));
        let y = (self.available - self.visible() + 1) + least(
            less(self.cursor_line as nat, self.vscroll(last)),
            less(self.visible(), 1),
        );
        (x, y as nat)
    }
}

/// The horizontal scroll keeps the cursor within the columns for the text.
pub proof fn lemma_cursor_in_view(f: InputFrame, t: WidthTable, last: InputView)
    ensures
        less(f.cursor_x(t), f.h_scroll(t, last)) <= f.text_cols(),
{
    let s = f.cursor_text();
    lemma_width_prefix(
        t,
        s,
        if f.cursor_col < s.len() {
            f.cursor_col as int
        } else {
            s.len() as int
        },
    );
    assert(s.take(s.len() as int) =~= s);
}

/// Whenever the cursor moved, its line is one of the visible ones.
pub proof fn lemma_cursor_line_in_view(f: InputFrame, last: InputView)
    requires
        f.cursor_line < f.lines.len(),
        last.last_cursor != f.cursor_pos,
    ensures
        f.vscroll(last) <= f.cursor_line < f.vscroll(last) + f.visible(),
{
}

/// The layout shows as many lines as it says, all of them lines of the input.
pub proof fn lemma_layout_in_range(f: InputFrame, last: InputView)
    ensures
        f.vscroll(last) + f.visible() <= f.lines.len(),
        f.visible() <= f.max_rows(),
{
}

impl InputView {
    /// Nothing painted yet.
    pub open spec fn blank() -> InputView {
        InputView {
            scroll: 0,
            vscroll: 0,
            max_vscroll: 0,
            last_cursor: 0,
            base_row: 0,
            prompt_width: 0,
            first_visible: 0,
            visible_count: 0,
            h_scroll: 0,
            cursor_line: 0,
        }
    }

    /// The scroll positions are within what was painted.
    pub open spec fn wf(self) -> bool {
        &&& self.scroll <= 2 * usize::MAX + 1
        &&& self.h_scroll <= 2 * usize::MAX + 1
        &&& self.vscroll <= self.max_vscroll
        &&& self.first_visible + self.visible_count <= usize::MAX
        &&& self.visible_count <= u16::MAX
    }

    /// Nothing painted yet.
    pub fn new() -> (r: InputView)
        ensures
            r == InputView::blank(),
            r.wf(),
    {
        InputView {
            scroll: 0,
            vscroll: 0,
            max_vscroll: 0,
            last_cursor: 0,
            base_row: 0,
            prompt_width: 0,
            first_visible: 0,
            visible_count: 0,
            h_scroll: 0,
            cursor_line: 0,
        }
    }
}

/// The most rows the input may take of `available` ones.
pub fn input_row_limit(available: u16) -> (r: u16)
    ensures
        r == max_input_rows(available as nat),
{
    let share: u16 = (available as u32 * 3 / 10) as u16;
    let wanted: u16 = if share >= 5 {
        share
    } else {
        5
    };
    if available <= wanted {
        available
    } else {
        wanted
    }
}

/// The scroll position that keeps a cursor that moved in view.
fn follow(offset: u128, cursor: u128, room: u128, moved: bool) -> (r: u128)
    requires
        offset + room <= u128::MAX,
        cursor < u128::MAX,
    ensures
        r == followed(offset as nat, cursor as nat, room as nat, moved),
{
    if !moved {
        offset
    } else if cursor < offset {
        cursor
    } else if cursor >= offset + room {
        cursor - room + 1
    } else {
        offset
    }
}

/// What a frame of the input area holds.
pub struct InputArea {
    pub lines: Vec<Vec<char>>,
    pub cursor_pos: usize,
    pub cursor_line: usize,
    pub cursor_col: usize,
    pub prompt_width: usize,
    pub cols: u16,
    pub available: u16,
}

impl View for InputArea {
    type V = InputFrame;

    open spec fn view(&self) -> InputFrame {
        InputFrame {
            lines: char_seqs(self.lines@),
            cursor_pos: self.cursor_pos,
            cursor_line: self.cursor_line,
            cursor_col: self.cursor_col,
            prompt_width: self.prompt_width as nat,
            cols: self.cols as nat,
            available: self.available as nat,
        }
    }
}

impl InputArea {
    /// The line with the cursor.
    fn cursor_chars(&self) -> (r: Vec<char>)
        ensures
            r@ == self@.cursor_text(),
    {
        if self.cursor_line < self.lines.len() {
            assert(self@.lines[self.cursor_line as int] == self.lines@[self.cursor_line as int]@);
            copy_of(&self.lines[self.cursor_line])
        } else {
            let r: Vec<char> = Vec::new();
            assert(r@ =~= Seq::<char>::empty());
            r
        }
    }

    /// Column of the cursor within its line.
    fn cursor_column(&self, widths: &CharWidths) -> (r: u128)
        ensures
            r == self@.cursor_x(widths@),
            r <= 2 * usize::MAX,
    {
        let text = self.cursor_chars();
        let n: usize = if self.cursor_col < text.len() {
            self.cursor_col
        } else {
            text.len()
        };
        let before = slice_of(&text, 0, n);
        assert(before@ =~= first_of(text@, self.cursor_col as nat));
        widths.columns(&before)
    }

    /// Rows the input may take.
    fn row_limit(&self) -> (r: u16)
        ensures
            r == self@.max_rows(),
            0 < r,
    {
        input_row_limit(
            if self.available > 0 {
                self.available
            } else {
                1
            },
        )
    }

    /// The layout of this frame after that of the last.
    pub fn layout(&self, last: &InputView, widths: &CharWidths) -> (r: InputView)
        requires
            last.wf(),
            self.prompt_width <= 4,
            self.lines@.len() > 0,
        ensures
            r == self@.layout(widths@, *last),
            r.wf(),
            r.vscroll == self@.vscroll(*last),
            r.visible_count == self@.visible(),
            r.h_scroll == self@.h_scroll(widths@, *last),
            r.base_row == self@.top(),
    {
        let ghost f = self@;
        let ghost t = widths@;
        let limit = self.row_limit() as usize;
        let count: usize = self.lines.len();
        assert(f.lines.len() == count);
        let (vscroll, max_vscroll, visible): (usize, usize, usize) = if count > limit {
            let max: usize = count - limit;
            let wanted = follow(
                last.vscroll as u128,
                self.cursor_line as u128,
                limit as u128,
                last.last_cursor != self.cursor_pos,
            );
            let v: usize = if wanted <= max as u128 {
                wanted as usize
            } else {
                max
            };
            (v, max, limit)
        } else {
            (0, 0, count)
        };
        assert(vscroll == f.vscroll(*last));
        let text_cols: u128 = if self.cols as usize >= self.prompt_width {
            (self.cols as usize - self.prompt_width) as u128
        } else {
            0
        };
        let line_width = widths.columns(&self.cursor_chars());
        let x = self.cursor_column(widths);
        let (scroll, h_scroll): (u128, u128) = if line_width > text_cols {
            let s = follow(last.scroll, x, text_cols, true);
            let most: u128 = line_width - text_cols;
            (
                s,
                if s <= most {
                    s
                } else {
                    most
                },
            )
        } else {
            (0, 0)
        };
        assert(scroll == f.scroll(t, *last));
        assert(h_scroll == f.h_scroll(t, *last));
        let above: u16 = if self.available as usize >= visible {
            self.available - visible as u16
        } else {
            0
        };
        let base_row: u16 = if above < u16::MAX {
            above + 1
        } else {
            above
        };
        InputView {
            scroll,
            vscroll,
            max_vscroll,
            last_cursor: self.cursor_pos,
            base_row,
            prompt_width: self.prompt_width,
            first_visible: vscroll,
            visible_count: visible,
            h_scroll,
            cursor_line: self.cursor_line,
        }
    }

    /// Where the cursor is painted.
    pub fn caret(&self, last: &InputView, layout: &InputView, widths: &CharWidths) -> (r: (u16, u16))
        requires
            last.wf(),
            self.prompt_width <= 4,
            self.lines@.len() > 0,
            0 < self.available < u16::MAX,
            layout.vscroll == self@.vscroll(*last),
            layout.visible_count == self@.visible(),
            layout.h_scroll == self@.h_scroll(widths@, *last),
        ensures
            (r.0 as nat, r.1 as nat) == self@.caret(widths@, *last),
    {
        let ghost f = self@;
        assert(f.lines.len() == self.lines@.len());
        proof {
            lemma_cursor_in_view(f, widths@, *last);
        }
        let x = self.cursor_column(widths);
        let ahead: u128 = if x >= layout.h_scroll {
            x - layout.h_scroll
        } else {
            0
        };
        let cursor_x: u16 = self.prompt_width as u16 + ahead as u16;
        let below: usize = smaller(
            minus(self.cursor_line, layout.vscroll),
            minus(layout.visible_count, 1),
        );
        let cursor_y: u16 = self.available - layout.visible_count as u16 + 1 + below as u16;
        (cursor_x, cursor_y)
    }
}

// ---------------------------------------------------------------------------
// Clicks
// ---------------------------------------------------------------------------

/// The line and the character position in it that a click falls on, `None`
/// outside of the input area. A click on the prompt means the start of the
/// line; one past the end of the line, its end.
pub open spec fn click_target(
    t: WidthTable,
    view: InputView,
    row: nat,
    col: nat,
    lines: Seq<Seq<char>>,
) -> Option<(nat, nat)> {
    let line = view.first_visible + row - view.base_row;
    if view.visible_count == 0 || row < view.base_row || row >= view.base_row + view.visible_count
        || line >= lines.len() {
        None
    } else {
        let in_text = less(col, view.prompt_width as nat);
        let width = if line == view.cursor_line {
            in_text + view.h_scroll as nat
        } else {
            in_text
        };
        Some((line as nat, fit_count(t, lines[line], width) as nat))
    }
}

/// The line and the character position in it that a click falls on.
pub fn input_cursor_for_click(
    view: &InputView,
    row: u16,
    col: u16,
    input_line: &str,
    widths: &CharWidths,
) -> (r: Option<(usize, usize)>)
    requires
        view.wf(),
    ensures
        match click_target(
            widths@,
            *view,
            row as nat,
            col as nat,
            split(input_line@, '\n'),
        ) {
            Some((line, at)) => r matches Some((l, a)) && l == line && a == at,
            None => r is None,
        },
{
    if view.visible_count == 0 {
        return None;
    }
    if row < view.base_row || (row - view.base_row) as usize >= view.visible_count {
        return None;
    }
    let line_idx: usize = view.first_visible + (row - view.base_row) as usize;
    let lines = split_of(&chars_of(input_line), '\n');
    let ghost ls = split(input_line@, '\n');
    assert(ls.len() == lines@.len());
    if line_idx >= lines.len() {
        return None;
    }
    assert(ls[line_idx as int] == lines@[line_idx as int]@);
    let mut target: u128 = minus(col as usize, view.prompt_width) as u128;
    if line_idx == view.cursor_line {
        target = target + view.h_scroll;
    }
    let at = count_fitting(&lines[line_idx], target, widths);
    Some((line_idx, at))
}

// ---------------------------------------------------------------------------
// Painting the input area
// ---------------------------------------------------------------------------

/// Line `i` as it is painted: the line with the cursor is scrolled, and no line
/// has more characters than there are columns for the text.
pub open spec fn shown_text(f: InputFrame, t: WidthTable, last: InputView, i: int) -> Seq<char> {
    let s = f.lines[i];
    let skipped = if i == f.cursor_line {
        fit_count(t, s, f.h_scroll(t, last))
    } else {
        0
    };
    first_of(s.skip(skipped), f.text_cols())
}

/// Line `i` of the input, in its row.
pub open spec fn input_row(
    f: InputFrame,
    t: WidthTable,
    last: InputView,
    prompt: Seq<char>,
    bg: Option<Color>,
    i: int,
) -> Seq<OpView> {
    let first = f.vscroll(last) as int;
    let y = (f.available - f.visible() + 1) + (i - first);
    let lead = if i == first {
        seq![
            OpView::SetForeground(Color::DarkYellow),
            OpView::Print(prompt),
            OpView::DefaultForeground,
        ]
    } else {
        seq![OpView::Print(repeat(' ', f.prompt_width))]
    };
    seq![OpView::MoveTo(0, y as u16)] + background(bg) + lead + seq![
        OpView::Print(shown_text(f, t, last, i)),
    ] + end_of_row()
}

/// The first `n` visible lines of the input.
pub open spec fn input_rows(
    f: InputFrame,
    t: WidthTable,
    last: InputView,
    prompt: Seq<char>,
    bg: Option<Color>,
    n: nat,
) -> Seq<OpView>
    decreases n,
{
    if n == 0 {
        Seq::empty()
    } else {
        input_rows(f, t, last, prompt, bg, (n - 1) as nat) + input_row(
            f,
            t,
            last,
            prompt,
            bg,
            f.vscroll(last) + n - 1,
        )
    }
}

impl InputArea {
    /// Appends visible line number `k` of the input.
    fn push_row(
        &self,
        out: &mut Vec<DrawOp>,
        last: &InputView,
        layout: &InputView,
        prompt: &str,
        bg: Option<Color>,
        widths: &CharWidths,
        k: usize,
    )
        requires
            layout.wf(),
            k < layout.visible_count <= self.available < u16::MAX,
            layout.vscroll + layout.visible_count <= self.lines@.len(),
            layout.vscroll == self@.vscroll(*last),
            layout.visible_count == self@.visible(),
            layout.h_scroll == self@.h_scroll(widths@, *last),
        ensures
            op_views(final(out)@) == op_views(old(out)@) + input_row(
                self@,
                widths@,
                *last,
                prompt@,
                bg,
                self@.vscroll(*last) + k,
            ),
    {
        let ghost f = self@;
        let ghost t = widths@;
        let total: usize = self.lines.len();
        let i: usize = layout.vscroll + k;
        let top: u16 = self.available - layout.visible_count as u16 + 1;
        let text_cols: usize = minus(self.cols as usize, self.prompt_width);
        let ghost start = op_views(out@);
        assert(f.lines[i as int] == self.lines@[i as int]@);
        push_op(out, DrawOp::MoveTo(0, top + k as u16));
        push_background(out, bg);
        let ghost opened = op_views(out@);
        if k == 0 {
            push_op(out, DrawOp::SetForeground(Color::DarkYellow));
            push_print(out, prompt);
            push_op(out, DrawOp::DefaultForeground);
            assert(op_views(out@) =~= opened + seq![
                OpView::SetForeground(Color::DarkYellow),
                OpView::Print(prompt@),
                OpView::DefaultForeground,
            ]);
        } else {
            push_run(out, ' ', self.prompt_width);
            assert(op_views(out@) =~= opened + seq![OpView::Print(repeat(' ', f.prompt_width))]);
        }
        let line = &self.lines[i];
        let skip: usize = if i == self.cursor_line {
            count_fitting(line, layout.h_scroll, widths)
        } else {
            0
        };
        let rest: usize = line.len() - skip;
        let shown: usize = smaller(rest, text_cols);
        let text = slice_of(line, skip, skip + shown);
        assert(text@ =~= shown_text(f, t, *last, i as int));
        push_chars(out, &text);
        push_end_of_row(out);
        assert(op_views(out@) =~= start + input_row(f, t, *last, prompt@, bg, i as int));
    }

    /// Appends the visible lines of the input.
    pub fn push_rows(
        &self,
        out: &mut Vec<DrawOp>,
        last: &InputView,
        layout: &InputView,
        prompt: &str,
        bg: Option<Color>,
        widths: &CharWidths,
    )
        requires
            last.wf(),
            layout.wf(),
            self.lines@.len() > 0,
            0 < self.available < u16::MAX,
            layout.vscroll == self@.vscroll(*last),
            layout.visible_count == self@.visible(),
            layout.h_scroll == self@.h_scroll(widths@, *last),
        ensures
            op_views(final(out)@) == op_views(old(out)@) + input_rows(
                self@,
                widths@,
                *last,
                prompt@,
                bg,
                self@.visible(),
            ),
    {
        let ghost f = self@;
        let ghost t = widths@;
        let ghost before = op_views(out@);
        let first: usize = layout.vscroll;
        let count: usize = layout.visible_count;
        assert(f.lines.len() == self.lines@.len());
        proof {
            lemma_layout_in_range(f, *last);
        }
        assert(before + Seq::<OpView>::empty() =~= before);
        let total: usize = self.lines.len();
        for k in 0..count
            invariant
                f == self@,
                t == widths@,
                last.wf(),
                layout.wf(),
                first == f.vscroll(*last) == layout.vscroll,
                count == f.visible() == layout.visible_count,
                count <= self.available < u16::MAX,
                total == self.lines@.len(),
                first + count <= total,
                layout.h_scroll == f.h_scroll(t, *last),
                op_views(out@) == before + input_rows(f, t, *last, prompt@, bg, k as nat),
        {
            let ghost start = op_views(out@);
            self.push_row(out, last, layout, prompt, bg, widths, k);
            assert(op_views(out@) =~= before + input_rows(
                f,
                t,
                *last,
                prompt@,
                bg,
                (k + 1) as nat,
            ));
        }
    }
}

/// A thin line across the screen.
pub open spec fn separator(y: u16, cols: nat, bg: Option<Color>) -> Seq<OpView> {
    seq![OpView::MoveTo(0, y)] + background(bg) + seq![
        OpView::SetForeground(Color::DarkGrey),
        OpView::Print(repeat('\u{2500}', cols)),
        OpView::ResetColor,
    ]
}

/// Appends a thin line across the screen.
pub fn draw_separator(out: &mut Vec<DrawOp>, row: u16, cols: u16, bg: Option<Color>)
    ensures
        op_views(final(out)@) == op_views(old(out)@) + separator(row, cols as nat, bg),
{
    push_op(out, DrawOp::MoveTo(0, row));
    push_background(out, bg);
    push_op(out, DrawOp::SetForeground(Color::DarkGrey));
    push_run(out, '\u{2500}', cols as usize);
    push_op(out, DrawOp::ResetColor);
    assert(op_views(out@) =~= op_views(old(out)@) + separator(row, cols as nat, bg));
}

/// The row above which an input area of `height` rows ends, as it is cleared
/// when the area shrinks.
pub open spec fn area_top(available: nat, height: nat) -> nat {
    less(available, height) + 1
}

/// Clears the rows that an input area no longer takes.
pub open spec fn shrunk_rows(available: nat, old_height: nat, new_height: nat, bg: Option<Color>) -> Seq<
    OpView,
> {
    if new_height >= old_height {
        Seq::empty()
    } else {
        empty_rows(area_top(available, old_height), area_top(available, new_height), bg)
    }
}

/// Row of the top of an input area.
fn area_top_of(available: u16, height: usize) -> (r: u16)
    requires
        available < u16::MAX,
    ensures
        r == area_top(available as nat, height as nat),
{
    if height <= available as usize {
        available - height as u16 + 1
    } else {
        1
    }
}

/// Appends the clearing of the rows that an input area no longer takes.
pub fn clear_shrunk_rows(
    out: &mut Vec<DrawOp>,
    available: u16,
    old_height: usize,
    new_height: usize,
    bg: Option<Color>,
)
    requires
        available < u16::MAX,
    ensures
        op_views(final(out)@) == op_views(old(out)@) + shrunk_rows(
            available as nat,
            old_height as nat,
            new_height as nat,
            bg,
        ),
{
    if new_height >= old_height {
        assert(op_views(out@) =~= op_views(old(out)@) + Seq::<OpView>::empty());
        return;
    }
    push_empty_rows(out, area_top_of(available, old_height), area_top_of(available, new_height), bg);
}

} // verus!
