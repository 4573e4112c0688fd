//! Markdown as colored lines.

use vstd::prelude::*;

use crate::color::Color;
use crate::line::{
    colored, line, line_views, push_line, push_wrapped, LineEntry, LineView,
};
use crate::markup::{
    event_views, md_events, parse_markdown, EventView, MdEvent, MdTag, MdTagEnd, TagView,
};
use crate::table::{
    flush_table, lemma_repeat_width, narrow_boxes, row_views, table_lines, Align,
};
use crate::text::{
    char_seqs, chars_of, decimal, decimal_of, push_repeat, repeat, split, split_of, string_of,
    string_seqs, trim, trim_end_char, trim_end_char_of, trim_of,
};
use crate::width::{CharWidths, WidthTable};
use crate::wrap::{
    fits, ink, ink_of_lines, lemma_ink_concat, lemma_ink_lines_push, lemma_ink_of_lines_concat,
    lemma_ink_push, lemma_wrap_fits, lemma_wrap_keeps_ink, word_wrap, wrap_text,
};

verus! {

// ---------------------------------------------------------------------------
// Specification
// ---------------------------------------------------------------------------

/// An empty line.
pub open spec fn blank(color: Color) -> LineView {
    line(Seq::empty(), color)
}

/// One line of source wrapped to `max` columns: a blank line stays one.
pub open spec fn piece_lines(t: WidthTable, max: nat, color: Color, piece: Seq<char>) -> Seq<
    LineView,
> {
    let text = trim_end_char(piece, '\r');
    if text.len() == 0 {
        seq![blank(color)]
    } else {
        colored(wrap_text(t, text, max), color)
    }
}

/// The first `n` source lines, each wrapped.
pub open spec fn pieces_to(
    t: WidthTable,
    max: nat,
    color: Color,
    pieces: Seq<Seq<char>>,
    n: nat,
) -> Seq<LineView>
    decreases n,
{
    if n == 0 {
        Seq::empty()
    } else {
        pieces_to(t, max, color, pieces, (n - 1) as nat) + piece_lines(t, max, color, pieces[n - 1])
    }
}

/// Collected text wrapped to `max` columns: nothing for no text.
pub open spec fn acc_lines(t: WidthTable, max: nat, color: Color, acc: Seq<char>) -> Seq<LineView> {
    if acc.len() == 0 {
        Seq::empty()
    } else {
        let pieces = split(acc, '\n');
        pieces_to(t, max, color, pieces, pieces.len())
    }
}

/// The first `n` lines of a code block, unwrapped.
pub open spec fn code_to(pieces: Seq<Seq<char>>, n: nat) -> Seq<LineView>
    decreases n,
{
    if n == 0 {
        Seq::empty()
    } else {
        code_to(pieces, (n - 1) as nat).push(
            line(trim_end_char(pieces[n - 1], '\r'), Color::DarkYellow),
        )
    }
}

/// One line of a quotation.
pub open spec fn quote_line(t: WidthTable, max: nat, piece: Seq<char>) -> Seq<LineView> {
    let text = trim_end_char(piece, '\r');
    if text.len() == 0 {
        seq![blank(Color::DarkGrey)]
    } else {
        colored(wrap_text(t, "\u{2502} "@ + text, max), Color::DarkGrey)
    }
}

/// The first `n` lines of a quotation.
pub open spec fn quote_to(t: WidthTable, max: nat, pieces: Seq<Seq<char>>, n: nat) -> Seq<LineView>
    decreases n,
{
    if n == 0 {
        Seq::empty()
    } else {
        quote_to(t, max, pieces, (n - 1) as nat) + quote_line(t, max, pieces[n - 1])
    }
}

/// Whether the first `n` source lines are all blank.
pub open spec fn blank_to(pieces: Seq<Seq<char>>, n: nat) -> bool {
    forall|i: int| 0 <= i < n ==> trim_end_char(#[trigger] pieces[i], '\r').len() == 0
}

/// The first `n` lines of a list item: its first line that is not blank
/// carries the bullet.
pub open spec fn item_to(
    t: WidthTable,
    max: nat,
    color: Color,
    bullet: Seq<char>,
    pieces: Seq<Seq<char>>,
    n: nat,
) -> Seq<LineView>
    decreases n,
{
    if n == 0 {
        Seq::empty()
    } else {
        let before = item_to(t, max, color, bullet, pieces, (n - 1) as nat);
        let text = trim_end_char(pieces[n - 1], '\r');
        if text.len() > 0 && blank_to(pieces, (n - 1) as nat) {
            before + colored(wrap_text(t, bullet + text, max), color)
        } else {
            before + piece_lines(t, max, color, pieces[n - 1])
        }
    }
}

/// The bullet of an unordered list.
pub open spec fn bullet_text(color: Color) -> Seq<char> {
    if color == Color::DarkGrey {
        "  \u{250a} "@
    } else {
        "  \u{2022} "@
    }
}

/// What has been read of a text: the lines it gave, and what is open.
pub struct MdState {
    pub out: Seq<LineView>,
    pub acc: Seq<char>,
    pub in_heading: bool,
    pub in_code_block: bool,
    pub in_blockquote: bool,
    pub ordered: bool,
    pub count: nat,
    pub rows: Seq<Seq<Seq<char>>>,
    pub row: Seq<Seq<char>>,
    pub cell: Seq<char>,
    pub aligns: Seq<Align>,
    pub link: Seq<char>,
    pub in_cell: bool,
}

/// Nothing read yet.
pub open spec fn md_start() -> MdState {
    MdState {
        out: Seq::empty(),
        acc: Seq::empty(),
        in_heading: false,
        in_code_block: false,
        in_blockquote: false,
        ordered: false,
        count: 0,
        rows: Seq::empty(),
        row: Seq::empty(),
        cell: Seq::empty(),
        aligns: Seq::empty(),
        link: Seq::empty(),
        in_cell: false,
    }
}

/// The color of running text.
pub open spec fn prose_color(st: MdState) -> Color {
    if st.in_blockquote {
        Color::DarkGrey
    } else {
        Color::White
    }
}

/// Ends the collected text as lines in `color`.
pub open spec fn flushed(t: WidthTable, max: nat, color: Color, st: MdState) -> MdState {
    MdState { out: st.out + acc_lines(t, max, color, st.acc), acc: Seq::empty(), ..st }
}

/// Appends lines.
pub open spec fn emit(st: MdState, lines: Seq<LineView>) -> MdState {
    MdState { out: st.out + lines, ..st }
}

/// Adds text where text is being collected: to the open table cell, or to the
/// running text.
pub open spec fn collect(st: MdState, text: Seq<char>) -> MdState {
    if st.in_cell {
        MdState { cell: st.cell + text, ..st }
    } else {
        MdState { acc: st.acc + text, ..st }
    }
}

/// The effect of an element that opens.
pub open spec fn on_start(t: WidthTable, max: nat, st: MdState, tag: TagView) -> MdState {
    match tag {
        TagView::Heading => MdState { in_heading: true, ..flushed(t, max, Color::White, st) },
        TagView::CodeBlock => MdState { in_code_block: true, ..flushed(t, max, Color::White, st) },
        TagView::BlockQuote => MdState { in_blockquote: true, ..flushed(t, max, Color::White, st) },
        TagView::List(first) => MdState { ordered: first is Some, count: 0, ..st },
        TagView::Item => MdState { count: st.count + 1, ..flushed(t, max, Color::White, st) },
        TagView::Table(aligns) => MdState {
            rows: Seq::empty(),
            row: Seq::empty(),
            cell: Seq::empty(),
            aligns,
            ..flushed(t, max, Color::White, st)
        },
        TagView::TableHead => MdState { rows: Seq::empty(), ..st },
        TagView::TableRow => MdState { row: Seq::empty(), ..st },
        TagView::TableCell => MdState { cell: Seq::empty(), in_cell: true, ..st },
        TagView::Link(url) => MdState { link: url, ..st },
        TagView::Other => st,
    }
}

/// The cells of a row without the whitespace around their texts.
pub open spec fn trimmed_cells(row: Seq<Seq<char>>) -> Seq<Seq<char>> {
    row.map_values(|c: Seq<char>| trim(c))
}

/// Whether every cell is empty.
pub open spec fn all_empty(row: Seq<Seq<char>>) -> bool {
    forall|i: int| 0 <= i < row.len() ==> (#[trigger] row[i]).len() == 0
}

/// Ends a table row: one without any text is left out.
pub open spec fn end_row(st: MdState) -> MdState {
    let cells = trimmed_cells(st.row);
    MdState {
        row: Seq::empty(),
        rows: if all_empty(cells) {
            st.rows
        } else {
            st.rows.push(cells)
        },
        ..st
    }
}

/// The bullet or number of the current list item.
pub open spec fn item_mark(st: MdState) -> Seq<char> {
    if st.ordered {
        " "@ + decimal(st.count) + ". "@
    } else {
        bullet_text(prose_color(st))
    }
}

/// Ends a link: its address follows its text.
pub open spec fn end_link(t: WidthTable, max: nat, st: MdState) -> MdState {
    if st.link.len() == 0 {
        st
    } else if st.in_cell {
        MdState { cell: st.cell + (" ("@ + st.link + ")"@), link: Seq::empty(), ..st }
    } else if st.acc.len() > 0 {
        let noted = emit(
            flushed(t, max, Color::DarkCyan, st),
            colored(wrap_text(t, "  \u{21aa} "@ + st.link, max), Color::DarkGrey),
        );
        MdState { link: Seq::empty(), ..noted }
    } else {
        MdState { link: Seq::empty(), ..st }
    }
}

/// The effect of an element that closes.
pub open spec fn on_end(t: WidthTable, max: nat, st: MdState, end: MdTagEnd) -> MdState {
    let pieces = split(st.acc, '\n');
    let white = seq![blank(Color::White)];
    match end {
        MdTagEnd::Paragraph => flushed(t, max, prose_color(st), st),
        MdTagEnd::Heading => emit(
            MdState { in_heading: false, ..flushed(t, max, Color::Cyan, st) },
            white,
        ),
        MdTagEnd::CodeBlock => MdState {
            out: st.out + code_to(pieces, pieces.len()) + white,
            acc: Seq::empty(),
            in_code_block: false,
            ..st
        },
        MdTagEnd::BlockQuote => MdState {
            out: st.out + quote_to(t, max, pieces, pieces.len()) + white,
            acc: Seq::empty(),
            in_blockquote: false,
            ..st
        },
        MdTagEnd::Item => MdState {
            out: st.out + item_to(t, max, prose_color(st), item_mark(st), pieces, pieces.len()),
            acc: Seq::empty(),
            ..st
        },
        MdTagEnd::List => emit(MdState { ordered: false, count: 0, ..st }, white),
        MdTagEnd::Link => end_link(t, max, st),
        MdTagEnd::Table => emit(
            MdState {
                rows: Seq::empty(),
                aligns: Seq::empty(),
                ..emit(st, table_lines(t, st.rows, st.aligns, max))
            },
            white,
        ),
        MdTagEnd::TableHead => end_row(st),
        MdTagEnd::TableRow => end_row(st),
        MdTagEnd::TableCell => MdState {
            in_cell: false,
            row: st.row.push(st.cell),
            cell: Seq::empty(),
            ..st
        },
        MdTagEnd::Other => st,
    }
}

/// Inline code in its backticks.
pub open spec fn ticked(text: Seq<char>) -> Seq<char> {
    "`"@ + text + "`"@
}

/// A horizontal rule.
pub open spec fn rule_text(max: nat) -> Seq<char> {
    repeat(
        '\u{2500}',
        if max <= 40 {
            max
        } else {
            40
        },
    )
}

/// The effect of one event.
pub open spec fn md_step(t: WidthTable, max: nat, st: MdState, e: EventView) -> MdState {
    match e {
        EventView::Start(tag) => on_start(t, max, st, tag),
        EventView::End(end) => on_end(t, max, st, end),
        EventView::Text(s) => collect(st, s),
        EventView::Code(s) => if st.in_cell {
            MdState { cell: st.cell + ticked(s), ..st }
        } else {
            emit(
                flushed(t, max, prose_color(st), st),
                colored(wrap_text(t, ticked(s), max), Color::Yellow),
            )
        },
        EventView::SoftBreak => collect(st, seq!['\n']),
        EventView::HardBreak => collect(st, seq!['\n']),
        EventView::Rule => emit(
            flushed(t, max, Color::White, st),
            seq![line(rule_text(max), Color::DarkGrey), blank(Color::White)],
        ),
        EventView::Html(s) => collect(st, s),
        EventView::InlineHtml(s) => collect(st, s),
        EventView::FootnoteReference(s) => MdState { acc: st.acc + s, ..st },
        EventView::TaskListMarker(checked) => MdState {
            acc: st.acc + if checked {
                "[x]"@
            } else {
                "[ ]"@
            },
            ..st
        },
        EventView::Other => st,
    }
}

/// The effect of all events.
pub open spec fn md_run(t: WidthTable, max: nat, events: Seq<EventView>) -> MdState
    decreases events.len(),
{
    if events.len() == 0 {
        md_start()
    } else {
        md_step(t, max, md_run(t, max, events.drop_last()), events.last())
    }
}

/// The color of text that no element ended.
pub open spec fn open_color(st: MdState) -> Color {
    if st.in_blockquote {
        Color::DarkGrey
    } else if st.in_code_block {
        Color::DarkYellow
    } else if st.in_heading {
        Color::Cyan
    } else {
        Color::White
    }
}

/// The lines that a list of events gives.
pub open spec fn styled(t: WidthTable, max: nat, events: Seq<EventView>) -> Seq<LineView> {
    let st = md_run(t, max, events);
    flushed(t, max, open_color(st), st).out
}

// ---------------------------------------------------------------------------
// Laws
// ---------------------------------------------------------------------------

/// The texts of lines.
pub open spec fn texts(lines: Seq<LineView>) -> Seq<Seq<char>> {
    lines.map_values(|l: LineView| l.text)
}

/// The characters of all lines that are not whitespace.
pub open spec fn lines_ink(lines: Seq<LineView>) -> Seq<char> {
    ink_of_lines(texts(lines))
}

/// Whether an event belongs to running text outside of headings, quotations,
/// lists, code blocks, tables and links.
pub open spec fn prose(e: EventView) -> bool {
    match e {
        EventView::Start(tag) => tag is Other,
        EventView::End(end) => end is Paragraph || end is Other,
        EventView::Rule => false,
        _ => true,
    }
}

/// The text that an event of running text stands for.
pub open spec fn prose_text(e: EventView) -> Seq<char> {
    match e {
        EventView::Text(s) => s,
        EventView::Code(s) => ticked(s),
        EventView::Html(s) => s,
        EventView::InlineHtml(s) => s,
        EventView::FootnoteReference(s) => s,
        EventView::TaskListMarker(checked) => if checked {
            "[x]"@
        } else {
            "[ ]"@
        },
        EventView::SoftBreak => seq!['\n'],
        EventView::HardBreak => seq!['\n'],
        _ => Seq::empty(),
    }
}

/// The characters of all events that are not whitespace.
pub open spec fn prose_ink(events: Seq<EventView>) -> Seq<char>
    decreases events.len(),
{
    if events.len() == 0 {
        Seq::empty()
    } else {
        prose_ink(events.drop_last()) + ink(prose_text(events.last()))
    }
}

/// The ink of lines behind others.
pub proof fn lemma_lines_ink_concat(a: Seq<LineView>, b: Seq<LineView>)
    ensures
        lines_ink(a + b) == lines_ink(a) + lines_ink(b),
{
    assert(texts(a + b) =~= texts(a) + texts(b));
    lemma_ink_of_lines_concat(texts(a), texts(b));
}

/// The ink of a wrapped text.
pub proof fn lemma_wrapped_ink(t: WidthTable, s: Seq<char>, max: nat, color: Color)
    ensures
        lines_ink(colored(wrap_text(t, s, max), color)) == ink(s),
{
    assert(texts(colored(wrap_text(t, s, max), color)) =~= wrap_text(t, s, max));
    lemma_wrap_keeps_ink(t, s, max);
}

/// Carriage returns are no ink.
pub proof fn lemma_trim_cr_ink(s: Seq<char>)
    ensures
        ink(trim_end_char(s, '\r')) == ink(s),
    decreases s.len(),
{
    if s.len() > 0 && s.last() == '\r' {
        lemma_trim_cr_ink(s.drop_last());
    }
}

/// Line feeds are no ink.
pub proof fn lemma_split_ink(s: Seq<char>)
    ensures
        ink_of_lines(split(s, '\n')) == ink(s),
        split(s, '\n').len() > 0,
    decreases s.len(),
{
    let pieces = split(s, '\n');
    if s.len() == 0 {
        assert(pieces =~= Seq::<Seq<char>>::empty().push(s));
        lemma_ink_lines_push(Seq::empty(), s);
        assert(ink_of_lines(pieces) =~= ink(s));
    } else {
        let before = split(s.drop_last(), '\n');
        lemma_split_ink(s.drop_last());
        if s.last() == '\n' {
            lemma_ink_lines_push(before, Seq::empty());
            assert(ink_of_lines(pieces) =~= ink(s));
        } else {
            let last = before.last().push(s.last());
            assert(pieces =~= before.drop_last().push(last));
            assert(before =~= before.drop_last().push(before.last()));
            lemma_ink_lines_push(before.drop_last(), last);
            lemma_ink_lines_push(before.drop_last(), before.last());
            lemma_ink_push(before.last(), s.last());
            assert(ink_of_lines(pieces) =~= ink(s));
        }
    }
}

proof fn lemma_pieces_ink(t: WidthTable, max: nat, color: Color, pieces: Seq<Seq<char>>, n: nat)
    requires
        n <= pieces.len(),
    ensures
        lines_ink(pieces_to(t, max, color, pieces, n)) == ink_of_lines(pieces.take(n as int)),
    decreases n,
{
    if n == 0 {
        assert(texts(pieces_to(t, max, color, pieces, n)) =~= pieces.take(0));
    } else {
        let m = (n - 1) as nat;
        let piece = pieces[n - 1];
        let text = trim_end_char(piece, '\r');
        lemma_pieces_ink(t, max, color, pieces, m);
        lemma_trim_cr_ink(piece);
        if text.len() == 0 {
            assert(text =~= Seq::<char>::empty());
            assert(texts(seq![blank(color)]) =~= Seq::<Seq<char>>::empty().push(text));
            lemma_ink_lines_push(Seq::empty(), text);
            assert(lines_ink(piece_lines(t, max, color, piece)) =~= ink(piece));
        } else {
            lemma_wrapped_ink(t, text, max, color);
        }
        lemma_lines_ink_concat(
            pieces_to(t, max, color, pieces, m),
            piece_lines(t, max, color, piece),
        );
        assert(pieces.take(n as int) =~= pieces.take(m as int).push(piece));
        lemma_ink_lines_push(pieces.take(m as int), piece);
    }
}

/// The ink of collected text.
pub proof fn lemma_acc_ink(t: WidthTable, max: nat, color: Color, acc: Seq<char>)
    ensures
        lines_ink(acc_lines(t, max, color, acc)) == ink(acc),
{
    if acc.len() == 0 {
        assert(texts(acc_lines(t, max, color, acc)) =~= Seq::<Seq<char>>::empty());
    } else {
        let pieces = split(acc, '\n');
        lemma_split_ink(acc);
        lemma_pieces_ink(t, max, color, pieces, pieces.len());
        assert(pieces.take(pieces.len() as int) =~= pieces);
    }
}

/// The ink of the lines so far and of the text collected since.
spec fn run_ink(st: MdState) -> Seq<char> {
    lines_ink(st.out) + ink(st.acc)
}

proof fn lemma_flushed_ink(t: WidthTable, max: nat, color: Color, st: MdState)
    ensures
        lines_ink(flushed(t, max, color, st).out) == run_ink(st),
        run_ink(flushed(t, max, color, st)) == run_ink(st),
{
    lemma_acc_ink(t, max, color, st.acc);
    lemma_lines_ink_concat(st.out, acc_lines(t, max, color, st.acc));
    assert(run_ink(flushed(t, max, color, st)) =~= run_ink(st));
}

proof fn lemma_collect_ink(st: MdState, text: Seq<char>)
    requires
        !st.in_cell,
    ensures
        run_ink(collect(st, text)) == run_ink(st) + ink(text),
{
    lemma_ink_concat(st.acc, text);
    assert(run_ink(collect(st, text)) =~= run_ink(st) + ink(text));
}

proof fn lemma_code_ink(t: WidthTable, max: nat, st: MdState, s: Seq<char>)
    requires
        !st.in_cell,
    ensures
        run_ink(md_step(t, max, st, EventView::Code(s))) == run_ink(st) + ink(ticked(s)),
{
    let before = flushed(t, max, prose_color(st), st);
    let code = colored(wrap_text(t, ticked(s), max), Color::Yellow);
    lemma_flushed_ink(t, max, prose_color(st), st);
    lemma_wrapped_ink(t, ticked(s), max, Color::Yellow);
    lemma_lines_ink_concat(before.out, code);
    assert(run_ink(emit(before, code)) =~= run_ink(st) + ink(ticked(s)));
}

proof fn lemma_prose_step(t: WidthTable, max: nat, st: MdState, e: EventView)
    requires
        !st.in_cell,
        prose(e),
    ensures
        !md_step(t, max, st, e).in_cell,
        run_ink(md_step(t, max, st, e)) == run_ink(st) + ink(prose_text(e)),
{
    match e {
        EventView::Code(s) => {
            lemma_code_ink(t, max, st, s);
        },
        EventView::End(end) => {
            lemma_flushed_ink(t, max, prose_color(st), st);
            assert(run_ink(st) + ink(prose_text(e)) =~= run_ink(st));
        },
        EventView::Start(_) | EventView::Other | EventView::Rule => {
            assert(run_ink(st) + ink(prose_text(e)) =~= run_ink(st));
        },
        _ => {
            lemma_collect_ink(st, prose_text(e));
            assert(md_step(t, max, st, e) == collect(st, prose_text(e)));
        },
    }
}

proof fn lemma_prose_run(t: WidthTable, max: nat, events: Seq<EventView>)
    requires
        forall|i: int| 0 <= i < events.len() ==> prose(#[trigger] events[i]),
    ensures
        !md_run(t, max, events).in_cell,
        run_ink(md_run(t, max, events)) == prose_ink(events),
    decreases events.len(),
{
    if events.len() == 0 {
        assert(texts(md_start().out) =~= Seq::<Seq<char>>::empty());
        assert(run_ink(md_start()) =~= Seq::<char>::empty());
    } else {
        assert forall|i: int| 0 <= i < events.len() - 1 implies prose(
            #[trigger] events.drop_last()[i],
        ) by {
            assert(events.drop_last()[i] == events[i]);
        }
        assert(prose(events[events.len() - 1]));
        lemma_prose_run(t, max, events.drop_last());
        lemma_prose_step(t, max, md_run(t, max, events.drop_last()), events.last());
    }
}

/// Running text comes out once and in order: what the lines show is what the
/// events hold, with inline code in backticks.
pub proof fn lemma_prose_kept(t: WidthTable, max: nat, events: Seq<EventView>)
    requires
        forall|i: int| 0 <= i < events.len() ==> prose(#[trigger] events[i]),
    ensures
        lines_ink(styled(t, max, events)) == prose_ink(events),
{
    let st = md_run(t, max, events);
    lemma_prose_run(t, max, events);
    lemma_flushed_ink(t, max, open_color(st), st);
}

/// Whether a line keeps within `max` columns, holds a single character, or
/// shows nothing.
pub open spec fn line_fits(t: WidthTable, max: nat, l: LineView) -> bool {
    fits(t, max, l.text) || ink(l.text).len() == 0
}

/// Whether all lines do.
pub open spec fn lines_fit(t: WidthTable, max: nat, ls: Seq<LineView>) -> bool {
    forall|i: int| 0 <= i < ls.len() ==> line_fits(t, max, #[trigger] ls[i])
}

proof fn lemma_lines_fit_concat(t: WidthTable, max: nat, a: Seq<LineView>, b: Seq<LineView>)
    requires
        lines_fit(t, max, a),
        lines_fit(t, max, b),
    ensures
        lines_fit(t, max, a + b),
{
    assert forall|i: int| 0 <= i < (a + b).len() implies line_fits(t, max, #[trigger] (a + b)[i]) by {
        if i < a.len() {
            assert((a + b)[i] == a[i]);
        } else {
            assert((a + b)[i] == b[i - a.len()]);
        }
    }
}

proof fn lemma_no_ink(ls: Seq<Seq<char>>, i: int)
    requires
        ink_of_lines(ls).len() == 0,
        0 <= i < ls.len(),
    ensures
        ink(ls[i]).len() == 0,
    decreases ls.len(),
{
    if i < ls.len() - 1 {
        lemma_no_ink(ls.drop_last(), i);
        assert(ls.drop_last()[i] == ls[i]);
    }
}

proof fn lemma_wrapped_fit(t: WidthTable, s: Seq<char>, max: nat, color: Color)
    requires
        max > 0,
    ensures
        lines_fit(t, max, colored(wrap_text(t, s, max), color)),
{
    let ws = wrap_text(t, s, max);
    let ls = colored(ws, color);
    if ink(s).len() > 0 {
        lemma_wrap_fits(t, s, max);
    } else {
        lemma_wrap_keeps_ink(t, s, max);
    }
    assert forall|i: int| 0 <= i < ls.len() implies line_fits(t, max, #[trigger] ls[i]) by {
        assert(ls[i].text == ws[i]);
        if ink(s).len() == 0 {
            lemma_no_ink(ws, i);
        }
    }
}

proof fn lemma_blank_fits(t: WidthTable, max: nat, color: Color)
    ensures
        lines_fit(t, max, seq![blank(color)]),
{
    assert(ink(blank(color).text).len() == 0);
}

proof fn lemma_piece_fits(t: WidthTable, max: nat, color: Color, piece: Seq<char>)
    requires
        max > 0,
    ensures
        lines_fit(t, max, piece_lines(t, max, color, piece)),
{
    lemma_blank_fits(t, max, color);
    lemma_wrapped_fit(t, trim_end_char(piece, '\r'), max, color);
}

proof fn lemma_pieces_fit(t: WidthTable, max: nat, color: Color, pieces: Seq<Seq<char>>, n: nat)
    requires
        max > 0,
    ensures
        lines_fit(t, max, pieces_to(t, max, color, pieces, n)),
    decreases n,
{
    if n > 0 {
        let m = (n - 1) as nat;
        lemma_pieces_fit(t, max, color, pieces, m);
        lemma_piece_fits(t, max, color, pieces[n - 1]);
        lemma_lines_fit_concat(
            t,
            max,
            pieces_to(t, max, color, pieces, m),
            piece_lines(t, max, color, pieces[n - 1]),
        );
    }
}

proof fn lemma_quote_fits(t: WidthTable, max: nat, pieces: Seq<Seq<char>>, n: nat)
    requires
        max > 0,
    ensures
        lines_fit(t, max, quote_to(t, max, pieces, n)),
    decreases n,
{
    if n > 0 {
        let m = (n - 1) as nat;
        let text = trim_end_char(pieces[n - 1], '\r');
        lemma_quote_fits(t, max, pieces, m);
        lemma_blank_fits(t, max, Color::DarkGrey);
        lemma_wrapped_fit(t, "\u{2502} "@ + text, max, Color::DarkGrey);
        lemma_lines_fit_concat(
            t,
            max,
            quote_to(t, max, pieces, m),
            quote_line(t, max, pieces[n - 1]),
        );
    }
}

proof fn lemma_item_fits(
    t: WidthTable,
    max: nat,
    color: Color,
    bullet: Seq<char>,
    pieces: Seq<Seq<char>>,
    n: nat,
)
    requires
        max > 0,
    ensures
        lines_fit(t, max, item_to(t, max, color, bullet, pieces, n)),
    decreases n,
{
    if n > 0 {
        let m = (n - 1) as nat;
        let before = item_to(t, max, color, bullet, pieces, m);
        let text = trim_end_char(pieces[n - 1], '\r');
        lemma_item_fits(t, max, color, bullet, pieces, m);
        lemma_piece_fits(t, max, color, pieces[n - 1]);
        lemma_wrapped_fit(t, bullet + text, max, color);
        lemma_lines_fit_concat(t, max, before, piece_lines(t, max, color, pieces[n - 1]));
        lemma_lines_fit_concat(t, max, before, colored(wrap_text(t, bullet + text, max), color));
    }
}

proof fn lemma_flushed_fits(t: WidthTable, max: nat, color: Color, st: MdState)
    requires
        max > 0,
        lines_fit(t, max, st.out),
    ensures
        lines_fit(t, max, flushed(t, max, color, st).out),
{
    let pieces = split(st.acc, '\n');
    lemma_pieces_fit(t, max, color, pieces, pieces.len());
    lemma_lines_fit_concat(t, max, st.out, acc_lines(t, max, color, st.acc));
}

/// Whether an event ends neither a code block nor a table, whose lines are not
/// wrapped to the width of the screen.
pub open spec fn wraps(e: EventView) -> bool {
    match e {
        EventView::End(end) => !(end is CodeBlock || end is Table),
        _ => true,
    }
}

proof fn lemma_step_fits(t: WidthTable, max: nat, st: MdState, e: EventView)
    requires
        max > 0,
        narrow_boxes(t),
        lines_fit(t, max, st.out),
        wraps(e),
    ensures
        lines_fit(t, max, md_step(t, max, st, e).out),
{
    let pieces = split(st.acc, '\n');
    let white = seq![blank(Color::White)];
    lemma_flushed_fits(t, max, Color::White, st);
    lemma_flushed_fits(t, max, prose_color(st), st);
    lemma_blank_fits(t, max, Color::White);
    match e {
        EventView::End(end) => match end {
            MdTagEnd::Heading => {
                lemma_flushed_fits(t, max, Color::Cyan, st);
                lemma_lines_fit_concat(t, max, flushed(t, max, Color::Cyan, st).out, white);
            },
            MdTagEnd::BlockQuote => {
                let quote = quote_to(t, max, pieces, pieces.len());
                lemma_quote_fits(t, max, pieces, pieces.len());
                lemma_lines_fit_concat(t, max, st.out, quote);
                lemma_lines_fit_concat(t, max, st.out + quote, white);
            },
            MdTagEnd::Item => {
                let mark = item_mark(st);
                lemma_item_fits(t, max, prose_color(st), mark, pieces, pieces.len());
                lemma_lines_fit_concat(
                    t,
                    max,
                    st.out,
                    item_to(t, max, prose_color(st), mark, pieces, pieces.len()),
                );
            },
            MdTagEnd::List => {
                lemma_lines_fit_concat(t, max, st.out, white);
            },
            MdTagEnd::Link => {
                let note = "  \u{21aa} "@ + st.link;
                lemma_flushed_fits(t, max, Color::DarkCyan, st);
                lemma_wrapped_fit(t, note, max, Color::DarkGrey);
                lemma_lines_fit_concat(
                    t,
                    max,
                    flushed(t, max, Color::DarkCyan, st).out,
                    colored(wrap_text(t, note, max), Color::DarkGrey),
                );
            },
            _ => {},
        },
        EventView::Code(s) => {
            lemma_wrapped_fit(t, ticked(s), max, Color::Yellow);
            lemma_lines_fit_concat(
                t,
                max,
                flushed(t, max, prose_color(st), st).out,
                colored(wrap_text(t, ticked(s), max), Color::Yellow),
            );
        },
        EventView::Rule => {
            let n = if max <= 40 {
                max
            } else {
                40
            };
            let rule = seq![line(rule_text(max), Color::DarkGrey), blank(Color::White)];
            lemma_repeat_width(t, '\u{2500}', n);
            assert(line_fits(t, max, rule[0]));
            assert(line_fits(t, max, rule[1]));
            lemma_lines_fit_concat(t, max, flushed(t, max, Color::White, st).out, rule);
        },
        _ => {},
    }
}

proof fn lemma_run_fits(t: WidthTable, max: nat, events: Seq<EventView>)
    requires
        max > 0,
        narrow_boxes(t),
        forall|i: int| 0 <= i < events.len() ==> wraps(#[trigger] events[i]),
    ensures
        lines_fit(t, max, md_run(t, max, events).out),
    decreases events.len(),
{
    if events.len() > 0 {
        assert forall|i: int| 0 <= i < events.len() - 1 implies wraps(
            #[trigger] events.drop_last()[i],
        ) by {
            assert(events.drop_last()[i] == events[i]);
        }
        assert(wraps(events[events.len() - 1]));
        lemma_run_fits(t, max, events.drop_last());
        lemma_step_fits(t, max, md_run(t, max, events.drop_last()), events.last());
    }
}

/// Apart from code blocks and tables no line is wider than `max`, unless it is
/// a single character or shows nothing.
pub proof fn lemma_styled_fits(t: WidthTable, max: nat, events: Seq<EventView>)
    requires
        max > 0,
        narrow_boxes(t),
        forall|i: int| 0 <= i < events.len() ==> wraps(#[trigger] events[i]),
    ensures
        lines_fit(t, max, styled(t, max, events)),
{
    let st = md_run(t, max, events);
    lemma_run_fits(t, max, events);
    lemma_flushed_fits(t, max, open_color(st), st);
}

// ---------------------------------------------------------------------------
// Implementation
// ---------------------------------------------------------------------------

/// Appends an empty line.
fn push_blank(out: &mut Vec<LineEntry>, color: Color)
    ensures
        line_views(final(out)@) == line_views(old(out)@).push(blank(color)),
{
    let empty: Vec<char> = Vec::new();
    assert(empty@ =~= Seq::<char>::empty());
    push_line(out, LineEntry::of_chars(&empty, color));
}

/// Appends `text` wrapped to `max_width` columns.
fn push_text(out: &mut Vec<LineEntry>, text: &str, color: Color, max_width: usize, widths: &CharWidths)
    ensures
        line_views(final(out)@) == line_views(old(out)@) + colored(
            wrap_text(widths@, text@, max_width as nat),
            color,
        ),
{
    let lines = word_wrap(text, max_width, widths);
    push_wrapped(out, &lines, color);
}

/// Appends one line of source.
fn push_piece(
    out: &mut Vec<LineEntry>,
    piece: &Vec<char>,
    color: Color,
    max_width: usize,
    widths: &CharWidths,
)
    ensures
        line_views(final(out)@) == line_views(old(out)@) + piece_lines(
            widths@,
            max_width as nat,
            color,
            piece@,
        ),
{
    let text = trim_end_char_of(piece, '\r');
    if text.len() == 0 {
        push_blank(out, color);
        assert(line_views(out@) =~= line_views(old(out)@) + seq![blank(color)]);
    } else {
        push_text(out, string_of(&text).as_str(), color, max_width, widths);
    }
}

/// Appends every line of `text` wrapped to `max_width` columns.
pub fn push_pieces(
    text: &str,
    color: Color,
    max_width: usize,
    widths: &CharWidths,
    out: &mut Vec<LineEntry>,
)
    ensures
        line_views(final(out)@) == line_views(old(out)@) + pieces_to(
            widths@,
            max_width as nat,
            color,
            split(text@, '\n'),
            split(text@, '\n').len(),
        ),
{
    let pieces = split_of(&chars_of(text), '\n');
    let ghost ps = split(text@, '\n');
    let ghost start = line_views(out@);
    let n: usize = pieces.len();
    assert(ps.len() == n);
    assert(start + Seq::<LineView>::empty() =~= start);
    for i in 0..n
        invariant
            n == pieces@.len(),
            ps == char_seqs(pieces@),
            line_views(out@) == start + pieces_to(widths@, max_width as nat, color, ps, i as nat),
    {
        assert(ps[i as int] == pieces@[i as int]@);
        push_piece(out, &pieces[i], color, max_width, widths);
        assert(line_views(out@) =~= start + pieces_to(
            widths@,
            max_width as nat,
            color,
            ps,
            (i + 1) as nat,
        ));
    }
}

/// Appends collected text wrapped to `max_width` columns: nothing for no text.
pub fn flush_acc(
    acc: &str,
    color: Color,
    max_width: usize,
    widths: &CharWidths,
    out: &mut Vec<LineEntry>,
)
    ensures
        line_views(final(out)@) == line_views(old(out)@) + acc_lines(
            widths@,
            max_width as nat,
            color,
            acc@,
        ),
{
    if chars_of(acc).len() == 0 {
        assert(line_views(out@) + Seq::<LineView>::empty() =~= line_views(out@));
        return;
    }
    push_pieces(acc, color, max_width, widths, out);
}

/// The bullet of an unordered list.
pub fn bullet_prefix(col: Color) -> (r: &'static str)
    ensures
        r@ == bullet_text(col),
{
    match col {
        Color::DarkGrey => "  \u{250a} ",
        _ => "  \u{2022} ",
    }
}

/// Appends the lines of a code block.
fn push_code(out: &mut Vec<LineEntry>, acc: &str)
    ensures
        line_views(final(out)@) == line_views(old(out)@) + code_to(
            split(acc@, '\n'),
            split(acc@, '\n').len(),
        ),
{
    let pieces = split_of(&chars_of(acc), '\n');
    let ghost ps = split(acc@, '\n');
    let ghost start = line_views(out@);
    let n: usize = pieces.len();
    assert(ps.len() == n);
    assert(start + Seq::<LineView>::empty() =~= start);
    for i in 0..n
        invariant
            n == pieces@.len(),
            ps == char_seqs(pieces@),
            line_views(out@) == start + code_to(ps, i as nat),
    {
        assert(ps[i as int] == pieces@[i as int]@);
        let text = trim_end_char_of(&pieces[i], '\r');
        push_line(out, LineEntry::of_chars(&text, Color::DarkYellow));
        assert(line_views(out@) =~= start + code_to(ps, (i + 1) as nat));
    }
}

/// Appends the lines of a quotation.
fn push_quote(out: &mut Vec<LineEntry>, acc: &str, max_width: usize, widths: &CharWidths)
    ensures
        line_views(final(out)@) == line_views(old(out)@) + quote_to(
            widths@,
            max_width as nat,
            split(acc@, '\n'),
            split(acc@, '\n').len(),
        ),
{
    let pieces = split_of(&chars_of(acc), '\n');
    let ghost ps = split(acc@, '\n');
    let ghost start = line_views(out@);
    let n: usize = pieces.len();
    assert(ps.len() == n);
    assert(start + Seq::<LineView>::empty() =~= start);
    for i in 0..n
        invariant
            n == pieces@.len(),
            ps == char_seqs(pieces@),
            line_views(out@) == start + quote_to(widths@, max_width as nat, ps, i as nat),
    {
        assert(ps[i as int] == pieces@[i as int]@);
        let ghost before = line_views(out@);
        let text = trim_end_char_of(&pieces[i], '\r');
        if text.len() == 0 {
            push_blank(out, Color::DarkGrey);
            assert(line_views(out@) =~= before + quote_line(widths@, max_width as nat, ps[i as int]));
        } else {
            let mut prefixed = String::new();
            prefixed.push_str("\u{2502} ");
            prefixed.push_str(string_of(&text).as_str());
            assert(prefixed@ =~= "\u{2502} "@ + text@);
            push_text(out, prefixed.as_str(), Color::DarkGrey, max_width, widths);
        }
        assert(line_views(out@) =~= start + quote_to(
            widths@,
            max_width as nat,
            ps,
            (i + 1) as nat,
        ));
    }
}

/// Appends the lines of a list item.
fn push_item(
    out: &mut Vec<LineEntry>,
    acc: &str,
    color: Color,
    bullet: &str,
    max_width: usize,
    widths: &CharWidths,
)
    ensures
        line_views(final(out)@) == line_views(old(out)@) + item_to(
            widths@,
            max_width as nat,
            color,
            bullet@,
            split(acc@, '\n'),
            split(acc@, '\n').len(),
        ),
{
    let pieces = split_of(&chars_of(acc), '\n');
    let ghost ps = split(acc@, '\n');
    let ghost start = line_views(out@);
    let n: usize = pieces.len();
    assert(ps.len() == n);
    assert(start + Seq::<LineView>::empty() =~= start);
    let mut first = true;
    for i in 0..n
        invariant
            n == pieces@.len(),
            ps == char_seqs(pieces@),
            first == blank_to(ps, i as nat),
            line_views(out@) == start + item_to(
                widths@,
                max_width as nat,
                color,
                bullet@,
                ps,
                i as nat,
            ),
    {
        assert(ps[i as int] == pieces@[i as int]@);
        let text = trim_end_char_of(&pieces[i], '\r');
        if text.len() > 0 && first {
            let mut prefixed = String::new();
            prefixed.push_str(bullet);
            prefixed.push_str(string_of(&text).as_str());
            assert(prefixed@ =~= bullet@ + text@);
            push_text(out, prefixed.as_str(), color, max_width, widths);
            first = false;
        } else {
            push_piece(out, &pieces[i], color, max_width, widths);
        }
        assert(line_views(out@) =~= start + item_to(
            widths@,
            max_width as nat,
            color,
            bullet@,
            ps,
            (i + 1) as nat,
        ));
    }
}

/// The cells of a row without the whitespace around their texts.
fn trim_cells(row: &Vec<String>) -> (r: Vec<String>)
    ensures
        string_seqs(r@) == trimmed_cells(string_seqs(row@)),
{
    let ghost whole = trimmed_cells(string_seqs(row@));
    let mut r: Vec<String> = Vec::new();
    let n: usize = row.len();
    assert(string_seqs(r@) =~= whole.take(0));
    for i in 0..n
        invariant
            n == row@.len(),
            whole == trimmed_cells(string_seqs(row@)),
            string_seqs(r@) == whole.take(i as int),
    {
        assert(string_seqs(row@)[i as int] == row@[i as int]@);
        let cell = string_of(&trim_of(&chars_of(row[i].as_str())));
        let ghost before = string_seqs(r@);
        r.push(cell);
        assert(string_seqs(r@) =~= before.push(cell@));
        assert(whole.take(i as int).push(whole[i as int]) =~= whole.take(i + 1));
    }
    assert(whole.take(n as int) =~= whole);
    r
}

/// Whether every cell is empty.
fn cells_empty(row: &Vec<String>) -> (r: bool)
    ensures
        r == all_empty(string_seqs(row@)),
{
    let n: usize = row.len();
    for i in 0..n
        invariant
            n == row@.len(),
            forall|j: int| 0 <= j < i ==> (#[trigger] string_seqs(row@)[j]).len() == 0,
    {
        assert(string_seqs(row@)[i as int] == row@[i as int]@);
        if chars_of(row[i].as_str()).len() > 0 {
            return false;
        }
    }
    true
}

/// A text being turned into lines.
struct Styler {
    out: Vec<LineEntry>,
    acc: String,
    in_heading: bool,
    in_code_block: bool,
    in_blockquote: bool,
    ordered: bool,
    count: u64,
    rows: Vec<Vec<String>>,
    row: Vec<String>,
    cell: String,
    aligns: Vec<Align>,
    link: String,
    in_cell: bool,
}

impl Styler {
    spec fn state(&self) -> MdState {
        MdState {
            out: line_views(self.out@),
            acc: self.acc@,
            in_heading: self.in_heading,
            in_code_block: self.in_code_block,
            in_blockquote: self.in_blockquote,
            ordered: self.ordered,
            count: self.count as nat,
            rows: row_views(self.rows@),
            row: string_seqs(self.row@),
            cell: self.cell@,
            aligns: self.aligns@,
            link: self.link@,
            in_cell: self.in_cell,
        }
    }

    /// Nothing read yet.
    fn new() -> (r: Styler)
        ensures
            r.state() == md_start(),
    {
        let r = Styler {
            out: Vec::new(),
            acc: String::new(),
            in_heading: false,
            in_code_block: false,
            in_blockquote: false,
            ordered: false,
            count: 0,
            rows: Vec::new(),
            row: Vec::new(),
            cell: String::new(),
            aligns: Vec::new(),
            link: String::new(),
            in_cell: false,
        };
        assert(line_views(r.out@) =~= Seq::<LineView>::empty());
        assert(row_views(r.rows@) =~= Seq::<Seq<Seq<char>>>::empty());
        assert(string_seqs(r.row@) =~= Seq::<Seq<char>>::empty());
        assert(r.aligns@ =~= Seq::<Align>::empty());
        r
    }

    /// Ends the collected text as lines in `color`.
    fn flush(&mut self, color: Color, max_width: usize, widths: &CharWidths)
        ensures
            final(self).state() == flushed(widths@, max_width as nat, color, old(self).state()),
            final(self).count == old(self).count,
    {
        flush_acc(self.acc.as_str(), color, max_width, widths, &mut self.out);
        self.acc = String::new();
        assert(self.acc@ =~= Seq::<char>::empty());
    }

    /// Appends an empty white line.
    fn gap(&mut self)
        ensures
            final(self).state() == emit(old(self).state(), seq![blank(Color::White)]),
            final(self).count == old(self).count,
    {
        push_blank(&mut self.out, Color::White);
        assert(line_views(self.out@) =~= line_views(old(self).out@) + seq![blank(Color::White)]);
    }

    /// The color of running text.
    fn prose(&self) -> (r: Color)
        ensures
            r == prose_color(self.state()),
    {
        if self.in_blockquote {
            Color::DarkGrey
        } else {
            Color::White
        }
    }

    /// Adds text where text is being collected.
    fn add_text(&mut self, text: &str)
        ensures
            final(self).state() == collect(old(self).state(), text@),
            final(self).count == old(self).count,
    {
        if self.in_cell {
            self.cell.push_str(text);
        } else {
            self.acc.push_str(text);
        }
    }

    /// Adds a line break where text is being collected.
    fn add_break(&mut self)
        ensures
            final(self).state() == collect(old(self).state(), seq!['\n']),
            final(self).count == old(self).count,
    {
        if self.in_cell {
            self.cell.push('\n');
            assert(self.cell@ =~= old(self).cell@ + seq!['\n']);
        } else {
            self.acc.push('\n');
            assert(self.acc@ =~= old(self).acc@ + seq!['\n']);
        }
    }

    /// Reads an element that opens.
    fn start(&mut self, tag: &MdTag, max_width: usize, widths: &CharWidths)
        requires
            old(self).count < u64::MAX,
        ensures
            final(self).state() == on_start(widths@, max_width as nat, old(self).state(), tag@),
            final(self).count <= old(self).count + 1,
    {
        match tag {
            MdTag::Heading => {
                self.flush(Color::White, max_width, widths);
                self.in_heading = true;
            },
            MdTag::CodeBlock => {
                self.flush(Color::White, max_width, widths);
                self.in_code_block = true;
            },
            MdTag::BlockQuote => {
                self.flush(Color::White, max_width, widths);
                self.in_blockquote = true;
            },
            MdTag::List(first) => {
                self.ordered = first.is_some();
                self.count = 0;
            },
            MdTag::Item => {
                self.flush(Color::White, max_width, widths);
                self.count = self.count + 1;
            },
            MdTag::Table(aligns) => {
                self.flush(Color::White, max_width, widths);
                self.rows = Vec::new();
                self.row = Vec::new();
                self.cell = String::new();
                self.aligns = copy_aligns(aligns);
                assert(row_views(self.rows@) =~= Seq::<Seq<Seq<char>>>::empty());
                assert(string_seqs(self.row@) =~= Seq::<Seq<char>>::empty());
                assert(self.cell@ =~= Seq::<char>::empty());
            },
            MdTag::TableHead => {
                self.rows = Vec::new();
                assert(row_views(self.rows@) =~= Seq::<Seq<Seq<char>>>::empty());
            },
            MdTag::TableRow => {
                self.row = Vec::new();
                assert(string_seqs(self.row@) =~= Seq::<Seq<char>>::empty());
            },
            MdTag::TableCell => {
                self.cell = String::new();
                self.in_cell = true;
                assert(self.cell@ =~= Seq::<char>::empty());
            },
            MdTag::Link(url) => {
                self.link = url.clone();
            },
            MdTag::Other => {},
        }
    }
}

/// A copy of a list of alignments.
fn copy_aligns(v: &Vec<Align>) -> (r: Vec<Align>)
    ensures
        r@ == v@,
{
    let mut r: Vec<Align> = Vec::new();
    let n: usize = v.len();
    for i in 0..n
        invariant
            n == v@.len(),
            r@ == v@.take(i as int),
    {
        r.push(v[i]);
        assert(v@.take(i as int).push(v@[i as int]) =~= v@.take(i + 1));
    }
    assert(v@.take(n as int) =~= v@);
    r
}

impl Styler {
    /// Ends a table row.
    fn close_row(&mut self)
        ensures
            final(self).state() == end_row(old(self).state()),
            final(self).count == old(self).count,
    {
        let cells = trim_cells(&self.row);
        self.row = Vec::new();
        assert(string_seqs(self.row@) =~= Seq::<Seq<char>>::empty());
        if !cells_empty(&cells) {
            let ghost before = row_views(self.rows@);
            self.rows.push(cells);
            assert(row_views(self.rows@) =~= before.push(string_seqs(cells@)));
        }
    }

    /// Ends a link.
    fn close_link(&mut self, max_width: usize, widths: &CharWidths)
        ensures
            final(self).state() == end_link(widths@, max_width as nat, old(self).state()),
            final(self).count == old(self).count,
    {
        let url = chars_of(self.link.as_str());
        if url.len() == 0 {
            return;
        }
        if self.in_cell {
            let mut note = String::new();
            note.push_str(" (");
            note.push_str(self.link.as_str());
            note.push_str(")");
            assert(note@ =~= " ("@ + self.link@ + ")"@);
            self.cell.push_str(note.as_str());
        } else if chars_of(self.acc.as_str()).len() > 0 {
            self.flush(Color::DarkCyan, max_width, widths);
            let mut note = String::new();
            note.push_str("  \u{21aa} ");
            note.push_str(self.link.as_str());
            assert(note@ =~= "  \u{21aa} "@ + self.link@);
            push_text(&mut self.out, note.as_str(), Color::DarkGrey, max_width, widths);
        }
        self.link = String::new();
        assert(self.link@ =~= Seq::<char>::empty());
    }

    /// The bullet or number of the current list item.
    fn mark(&self) -> (r: String)
        ensures
            r@ == item_mark(self.state()),
    {
        let mut r = String::new();
        if self.ordered {
            r.push_str(" ");
            r.push_str(decimal_of(self.count).as_str());
            r.push_str(". ");
            assert(r@ =~= " "@ + decimal(self.count as nat) + ". "@);
        } else {
            r.push_str(bullet_prefix(self.prose()));
            assert(r@ =~= bullet_text(prose_color(self.state())));
        }
        r
    }

    /// Reads an element that closes.
    fn end(&mut self, end: MdTagEnd, max_width: usize, widths: &CharWidths)
        ensures
            final(self).state() == on_end(widths@, max_width as nat, old(self).state(), end),
            final(self).count <= old(self).count,
    {
        match end {
            MdTagEnd::Paragraph => {
                let color = self.prose();
                self.flush(color, max_width, widths);
            },
            MdTagEnd::Heading => {
                self.flush(Color::Cyan, max_width, widths);
                self.in_heading = false;
                self.gap();
            },
            MdTagEnd::CodeBlock => {
                push_code(&mut self.out, self.acc.as_str());
                self.acc = String::new();
                self.in_code_block = false;
                assert(self.acc@ =~= Seq::<char>::empty());
                self.gap();
            },
            MdTagEnd::BlockQuote => {
                push_quote(&mut self.out, self.acc.as_str(), max_width, widths);
                self.acc = String::new();
                self.in_blockquote = false;
                assert(self.acc@ =~= Seq::<char>::empty());
                self.gap();
            },
            MdTagEnd::Item => {
                let color = self.prose();
                let mark = self.mark();
                push_item(
                    &mut self.out,
                    self.acc.as_str(),
                    color,
                    mark.as_str(),
                    max_width,
                    widths,
                );
                self.acc = String::new();
                assert(self.acc@ =~= Seq::<char>::empty());
            },
            MdTagEnd::List => {
                self.ordered = false;
                self.count = 0;
                self.gap();
            },
            MdTagEnd::Link => {
                self.close_link(max_width, widths);
            },
            MdTagEnd::Table => {
                flush_table(
                    self.rows.as_slice(),
                    self.aligns.as_slice(),
                    max_width,
                    widths,
                    &mut self.out,
                );
                self.rows = Vec::new();
                self.aligns = Vec::new();
                assert(row_views(self.rows@) =~= Seq::<Seq<Seq<char>>>::empty());
                assert(self.aligns@ =~= Seq::<Align>::empty());
                self.gap();
            },
            MdTagEnd::TableHead => {
                self.close_row();
            },
            MdTagEnd::TableRow => {
                self.close_row();
            },
            MdTagEnd::TableCell => {
                self.in_cell = false;
                let cell = self.cell.clone();
                let ghost before = string_seqs(self.row@);
                self.row.push(cell);
                self.cell = String::new();
                assert(string_seqs(self.row@) =~= before.push(cell@));
                assert(self.cell@ =~= Seq::<char>::empty());
            },
            MdTagEnd::Other => {},
        }
    }

    /// Reads inline code.
    fn code(&mut self, text: &str, max_width: usize, widths: &CharWidths)
        ensures
            final(self).state() == md_step(
                widths@,
                max_width as nat,
                old(self).state(),
                EventView::Code(text@),
            ),
            final(self).count == old(self).count,
    {
        let mut code = String::new();
        code.push_str("`");
        code.push_str(text);
        code.push_str("`");
        assert(code@ =~= ticked(text@));
        if self.in_cell {
            self.cell.push_str(code.as_str());
        } else {
            let color = self.prose();
            self.flush(color, max_width, widths);
            push_text(&mut self.out, code.as_str(), Color::Yellow, max_width, widths);
        }
    }

    /// Reads a horizontal rule.
    fn rule(&mut self, max_width: usize, widths: &CharWidths)
        ensures
            final(self).state() == md_step(
                widths@,
                max_width as nat,
                old(self).state(),
                EventView::Rule,
            ),
            final(self).count == old(self).count,
    {
        self.flush(Color::White, max_width, widths);
        let ghost before = line_views(self.out@);
        let n: usize = if max_width <= 40 {
            max_width
        } else {
            40
        };
        let mut text = String::new();
        push_repeat(&mut text, '\u{2500}', n);
        assert(text@ =~= rule_text(max_width as nat));
        push_line(&mut self.out, LineEntry::new(text.as_str(), Color::DarkGrey));
        push_blank(&mut self.out, Color::White);
        assert(line_views(self.out@) =~= before + seq![
            line(rule_text(max_width as nat), Color::DarkGrey),
            blank(Color::White),
        ]);
    }

    /// Reads one event.
    fn step(&mut self, e: &MdEvent, max_width: usize, widths: &CharWidths)
        requires
            old(self).count < u64::MAX,
        ensures
            final(self).state() == md_step(widths@, max_width as nat, old(self).state(), e@),
            final(self).count <= old(self).count + 1,
    {
        match e {
            MdEvent::Start(tag) => self.start(tag, max_width, widths),
            MdEvent::End(end) => self.end(*end, max_width, widths),
            MdEvent::Text(s) => self.add_text(s.as_str()),
            MdEvent::Code(s) => self.code(s.as_str(), max_width, widths),
            MdEvent::SoftBreak | MdEvent::HardBreak => self.add_break(),
            MdEvent::Rule => self.rule(max_width, widths),
            MdEvent::Html(s) => self.add_text(s.as_str()),
            MdEvent::InlineHtml(s) => self.add_text(s.as_str()),
            MdEvent::FootnoteReference(s) => self.acc.push_str(s.as_str()),
            MdEvent::TaskListMarker(checked) => {
                if *checked {
                    self.acc.push_str("[x]");
                } else {
                    self.acc.push_str("[ ]");
                }
            },
            MdEvent::Other => {},
        }
    }
}

/// The lines that a list of events gives.
pub fn style_events(events: &Vec<MdEvent>, max_width: usize, widths: &CharWidths) -> (r: Vec<
    LineEntry,
>)
    ensures
        line_views(r@) == styled(widths@, max_width as nat, event_views(events@)),
{
    let ghost es = event_views(events@);
    let mut st = Styler::new();
    let n: usize = events.len();
    assert(es.take(0) =~= Seq::<EventView>::empty());
    for i in 0..n
        invariant
            n == events@.len(),
            es == event_views(events@),
            st.count <= i,
            st.state() == md_run(widths@, max_width as nat, es.take(i as int)),
    {
        assert(es.take(i + 1).drop_last() =~= es.take(i as int));
        assert(es[i as int] == events@[i as int]@);
        st.step(&events[i], max_width, widths);
    }
    assert(es.take(n as int) =~= es);
    let color = if st.in_blockquote {
        Color::DarkGrey
    } else if st.in_code_block {
        Color::DarkYellow
    } else if st.in_heading {
        Color::Cyan
    } else {
        Color::White
    };
    st.flush(color, max_width, widths);
    st.out
}

/// `text` as colored lines of at most `max_width` columns: nothing for no text.
pub fn markdown_to_styled(text: &str, max_width: usize, widths: &CharWidths) -> (r: Vec<LineEntry>)
    ensures
        line_views(r@) == if text@.len() == 0 {
            Seq::<LineView>::empty()
        } else {
            styled(widths@, max_width as nat, md_events(text@))
        },
{
    if chars_of(text).len() == 0 {
        let r: Vec<LineEntry> = Vec::new();
        assert(line_views(r@) =~= Seq::<LineView>::empty());
        return r;
    }
    let events = parse_markdown(text);
    style_events(&events, max_width, widths)
}

} // verus!
