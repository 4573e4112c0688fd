//! What a layout of Markdown leaves as it was written: code to the character,
//! and every text of a table.

use vstd::prelude::*;

use crate::color::Color;
use crate::line::{colored, line, LineView};
use crate::markdown::{
    all_empty, code_to, md_run, md_step, styled, texts, trimmed_cells, MdState,
};
use crate::markup::{EventView, MdTagEnd, TagView};
use crate::table::{
    column, column_count, drawable, framed, lemma_table_shows_row, table_lines, Align,
};
use crate::text::{
    is_whitespace, join, lemma_join_split, lemma_split_nonempty, lemma_split_pieces,
    lemma_trim_end, lemma_trim_end_char, repeat, split, trim, trim_end_char, trim_start,
};
use crate::width::WidthTable;
use crate::wrap::{ink, ink_of_lines, lemma_ink_concat, lemma_ink_push, lemma_ink_trim};

verus! {

// ---------------------------------------------------------------------------
// Runs of events
// ---------------------------------------------------------------------------

/// All texts, one behind the other.
pub open spec fn flat(pieces: Seq<Seq<char>>) -> Seq<char>
    decreases pieces.len(),
{
    if pieces.len() == 0 {
        Seq::empty()
    } else {
        flat(pieces.drop_last()) + pieces.last()
    }
}

/// An event for each text.
pub open spec fn text_events(pieces: Seq<Seq<char>>) -> Seq<EventView> {
    pieces.map_values(|s: Seq<char>| EventView::Text(s))
}

/// One more event.
pub proof fn lemma_run_push(t: WidthTable, max: nat, events: Seq<EventView>, e: EventView)
    ensures
        md_run(t, max, events.push(e)) == md_step(t, max, md_run(t, max, events), e),
{
    assert(events.push(e).drop_last() =~= events);
}

/// Whether `b` begins with all of `a`.
pub open spec fn extends(a: Seq<LineView>, b: Seq<LineView>) -> bool {
    a.len() <= b.len() && b.take(a.len() as int) == a
}

proof fn lemma_extends(a: Seq<LineView>, b: Seq<LineView>, c: Seq<LineView>)
    requires
        extends(a, b),
        extends(b, c),
    ensures
        extends(a, c),
{
    assert(c.take(a.len() as int) =~= b.take(a.len() as int));
}

proof fn lemma_step_extends(t: WidthTable, max: nat, st: MdState, e: EventView)
    ensures
        extends(st.out, md_step(t, max, st, e).out),
{
    let out = md_step(t, max, st, e).out;
    assert(out.take(st.out.len() as int) =~= st.out);
}

/// Lines that were laid out stay, whatever comes behind them.
proof fn lemma_run_extends(
    t: WidthTable,
    max: nat,
    events: Seq<EventView>,
    more: Seq<EventView>,
)
    ensures
        extends(md_run(t, max, events).out, md_run(t, max, events + more).out),
    decreases more.len(),
{
    let a = md_run(t, max, events).out;
    if more.len() == 0 {
        assert(events + more =~= events);
        assert(a.take(a.len() as int) =~= a);
    } else {
        let init = more.drop_last();
        lemma_run_extends(t, max, events, init);
        assert(events + more =~= (events + init).push(more.last()));
        lemma_run_push(t, max, events + init, more.last());
        lemma_step_extends(t, max, md_run(t, max, events + init), more.last());
        lemma_extends(
            a,
            md_run(t, max, events + init).out,
            md_run(t, max, events + more).out,
        );
    }
}

/// Lines that were laid out stay in the layout of any longer text.
pub proof fn lemma_styled_extends(t: WidthTable, max: nat, events: Seq<EventView>, more: Seq<EventView>)
    ensures
        extends(md_run(t, max, events).out, styled(t, max, events + more)),
{
    let st = md_run(t, max, events + more);
    lemma_run_extends(t, max, events, more);
    let all = styled(t, max, events + more);
    assert(all.take(st.out.len() as int) =~= st.out);
    lemma_extends(md_run(t, max, events).out, st.out, all);
}

/// Texts outside of a table are collected as they come.
pub proof fn lemma_texts_collected(
    t: WidthTable,
    max: nat,
    events: Seq<EventView>,
    pieces: Seq<Seq<char>>,
)
    requires
        !md_run(t, max, events).in_cell,
    ensures
        ({
            let st = md_run(t, max, events);
            md_run(t, max, events + text_events(pieces)) == (MdState {
                acc: st.acc + flat(pieces),
                ..st
            })
        }),
    decreases pieces.len(),
{
    let st = md_run(t, max, events);
    if pieces.len() == 0 {
        assert(events + text_events(pieces) =~= events);
        assert(st.acc + flat(pieces) =~= st.acc);
    } else {
        let init = pieces.drop_last();
        lemma_texts_collected(t, max, events, init);
        let e = EventView::Text(pieces.last());
        assert(events + text_events(pieces) =~= (events + text_events(init)).push(e));
        lemma_run_push(t, max, events + text_events(init), e);
        assert(st.acc + flat(init) + pieces.last() =~= st.acc + flat(pieces));
    }
}

// ---------------------------------------------------------------------------
// Code
// ---------------------------------------------------------------------------

/// The events of a code block.
pub open spec fn code_events(pieces: Seq<Seq<char>>) -> Seq<EventView> {
    (seq![EventView::Start(TagView::CodeBlock)] + text_events(pieces)).push(
        EventView::End(MdTagEnd::CodeBlock),
    )
}

proof fn lemma_code_to(pieces: Seq<Seq<char>>, n: nat)
    requires
        n <= pieces.len(),
    ensures
        code_to(pieces, n).len() == n,
        forall|i: int|
            0 <= i < n ==> (#[trigger] code_to(pieces, n)[i]) == line(
                trim_end_char(pieces[i], '\r'),
                Color::DarkYellow,
            ),
    decreases n,
{
    if n > 0 {
        lemma_code_to(pieces, (n - 1) as nat);
    }
}

/// Whether `code` is the text `s`, line by line: each line is one of `s`, with
/// every blank at its start and its end, and without the carriage returns at its
/// end alone.
pub open spec fn is_code(code: Seq<LineView>, s: Seq<char>) -> bool {
    &&& forall|i: int| 0 <= i < code.len() ==> (#[trigger] code[i]).color == Color::DarkYellow
    &&& code.len() == split(s, '\n').len()
    &&& forall|i: int|
        0 <= i < code.len() && (#[trigger] code[i]).text.len() > 0 ==> code[i].text.last() != '\r'
    &&& forall|i: int|
        0 <= i < code.len() ==> exists|k: nat|
            split(s, '\n')[i] == (#[trigger] code[i]).text + #[trigger] repeat('\r', k)
    &&& !s.contains('\r') ==> join(texts(code), '\n') == s
}

/// Code comes out as it was written. Its lines are dark yellow and stand between
/// what was laid out before it and one empty line; joined by line feeds they are
/// the code itself, but for carriage returns at the ends of lines.
#[verifier::spinoff_prover]
pub proof fn lemma_code_verbatim(
    t: WidthTable,
    max: nat,
    before: Seq<EventView>,
    pieces: Seq<Seq<char>>,
    after: Seq<EventView>,
)
    requires
        !md_run(t, max, before).in_cell,
    ensures
        ({
            let ahead = styled(t, max, before);
            let plain = md_run(t, max, before).acc.len() == 0;
            let all = styled(t, max, before + code_events(pieces) + after);
            exists|from: int, to: int|
                {
                    &&& 0 <= from <= to < all.len()
                    &&& is_code(#[trigger] all.subrange(from, to), flat(pieces))
                    &&& all[to] == line(Seq::empty(), Color::White)
                    &&& plain ==> all.take(from) == ahead
                }
        }),
{
    let start = before.push(EventView::Start(TagView::CodeBlock));
    let end = EventView::End(MdTagEnd::CodeBlock);
    let block = before + code_events(pieces);
    let all = styled(t, max, block + after);
    let s = flat(pieces);
    let ps = split(s, '\n');
    lemma_run_push(t, max, before, EventView::Start(TagView::CodeBlock));
    let st = md_run(t, max, start);
    lemma_texts_collected(t, max, start, pieces);
    assert(block =~= (start + text_events(pieces)).push(end));
    lemma_run_push(t, max, start + text_events(pieces), end);
    assert(st.acc + s =~= s);
    let code = code_to(ps, ps.len());
    lemma_code_to(ps, ps.len());
    lemma_split_nonempty(s, '\n');
    let done = md_run(t, max, block).out;
    assert(done =~= st.out + code + seq![line(Seq::empty(), Color::White)]);
    lemma_styled_extends(t, max, block, after);
    let from = st.out.len() as int;
    let to = from + code.len();
    assert(all.take(done.len() as int) == done);
    assert(all[to] == all.take(done.len() as int)[to]);
    assert(all.subrange(from, to) =~= done.subrange(from, to));
    assert(done.subrange(from, to) =~= code);
    assert forall|i: int| 0 <= i < code.len() implies exists|k: nat|
        ps[i] == (#[trigger] code[i]).text + #[trigger] repeat('\r', k) by {
        lemma_trim_end_char(ps[i], '\r');
        let k = (ps[i].len() - trim_end_char(ps[i], '\r').len()) as nat;
        assert(ps[i] == code[i].text + repeat('\r', k));
    }
    assert forall|i: int| 0 <= i < code.len() && (#[trigger] code[i]).text.len() > 0 implies code[
        i
    ].text.last() != '\r' by {
        lemma_trim_end_char(ps[i], '\r');
    }
    if !s.contains('\r') {
        lemma_split_pieces(s, '\n');
        lemma_join_split(s, '\n');
        assert forall|i: int| 0 <= i < ps.len() implies texts(code)[i] == ps[i] by {
            if ps[i].len() > 0 {
                assert(s.contains(ps[i][ps[i].len() - 1]));
            }
        }
        assert(texts(code) =~= ps);
    }
    assert(is_code(all.subrange(from, to), s));
    let b = md_run(t, max, before);
    if b.acc.len() == 0 {
        assert(all.take(from) =~= st.out);
        assert(styled(t, max, before) =~= b.out);
        assert(st.out =~= b.out);
    }
}

// ---------------------------------------------------------------------------
// Tables
// ---------------------------------------------------------------------------

/// The events of the first `n` cells of a row.
pub open spec fn cell_events(cells: Seq<Seq<char>>, n: nat) -> Seq<EventView>
    decreases n,
{
    if n == 0 {
        Seq::empty()
    } else {
        cell_events(cells, (n - 1) as nat).push(EventView::Start(TagView::TableCell)).push(
            EventView::Text(cells[n - 1]),
        ).push(EventView::End(MdTagEnd::TableCell))
    }
}

/// The events of the first `n` rows of a table, the first of which is its head.
pub open spec fn row_events(rows: Seq<Seq<Seq<char>>>, n: nat) -> Seq<EventView>
    decreases n,
{
    if n == 0 {
        Seq::empty()
    } else {
        let cells = cell_events(rows[n - 1], rows[n - 1].len());
        let before = row_events(rows, (n - 1) as nat);
        if n == 1 {
            (before.push(EventView::Start(TagView::TableHead)) + cells).push(
                EventView::End(MdTagEnd::TableHead),
            )
        } else {
            (before.push(EventView::Start(TagView::TableRow)) + cells).push(
                EventView::End(MdTagEnd::TableRow),
            )
        }
    }
}

/// The events of a table.
pub open spec fn table_events(rows: Seq<Seq<Seq<char>>>, aligns: Seq<Align>) -> Seq<EventView> {
    (seq![EventView::Start(TagView::Table(aligns))] + row_events(rows, rows.len())).push(
        EventView::End(MdTagEnd::Table),
    )
}

/// Whether a row holds anything to see.
pub open spec fn row_has_ink(row: Seq<Seq<char>>) -> bool {
    exists|c: int| 0 <= c < row.len() && ink(#[trigger] row[c]).len() > 0
}

/// Those of the first `n` rows that hold anything to see.
pub open spec fn inked_to(rows: Seq<Seq<Seq<char>>>, n: nat) -> Seq<Seq<Seq<char>>>
    decreases n,
{
    if n == 0 {
        Seq::empty()
    } else if row_has_ink(rows[n - 1]) {
        inked_to(rows, (n - 1) as nat).push(rows[n - 1])
    } else {
        inked_to(rows, (n - 1) as nat)
    }
}

/// Whether `kept` are the same rows as `rows`, each cell without the whitespace
/// around its text.
pub open spec fn same_cells(kept: Seq<Seq<Seq<char>>>, rows: Seq<Seq<Seq<char>>>) -> bool {
    &&& kept.len() == rows.len()
    &&& forall|r: int| 0 <= r < rows.len() ==> (#[trigger] kept[r]).len() == rows[r].len()
    &&& forall|r: int, c: int|
        0 <= r < rows.len() && 0 <= c < rows[r].len() ==> ink(#[trigger] kept[r][c]) == ink(
            rows[r][c],
        ) && kept[r][c] == trim(rows[r][c])
}

proof fn lemma_ink_trim_start(s: Seq<char>)
    ensures
        ink(trim_start(s)) == ink(s),
    decreases s.len(),
{
    if s.len() > 0 && is_whitespace(s[0]) {
        lemma_ink_trim_start(s.skip(1));
        let head = Seq::<char>::empty().push(s[0]);
        assert(s =~= head + s.skip(1));
        lemma_ink_concat(head, s.skip(1));
        lemma_ink_push(Seq::empty(), s[0]);
        assert(ink(s) =~= ink(s.skip(1)));
    }
}

/// Trimming a text loses nothing to see, and leaves nothing where there is
/// nothing to see.
pub proof fn lemma_trim_ink(s: Seq<char>)
    ensures
        ink(trim(s)) == ink(s),
        trim(s).len() == 0 <==> ink(s).len() == 0,
{
    lemma_ink_trim_start(s);
    lemma_ink_trim(trim_start(s));
    lemma_trim_end(trim_start(s));
}

proof fn lemma_row_kept(row: Seq<Seq<char>>)
    ensures
        all_empty(trimmed_cells(row)) <==> !row_has_ink(row),
        forall|c: int|
            0 <= c < row.len() ==> ink(#[trigger] trimmed_cells(row)[c]) == ink(row[c]),
{
    let cells = trimmed_cells(row);
    assert forall|c: int| 0 <= c < row.len() implies ink(#[trigger] cells[c]) == ink(row[c]) by {
        lemma_trim_ink(row[c]);
    }
    if row_has_ink(row) {
        let c = choose|c: int| 0 <= c < row.len() && ink(#[trigger] row[c]).len() > 0;
        lemma_trim_ink(row[c]);
        assert(cells[c].len() > 0);
    } else {
        assert forall|c: int| 0 <= c < cells.len() implies (#[trigger] cells[c]).len() == 0 by {
            lemma_trim_ink(row[c]);
            assert(ink(row[c]).len() == 0);
        }
    }
}

proof fn lemma_run_cells(
    t: WidthTable,
    max: nat,
    events: Seq<EventView>,
    cells: Seq<Seq<char>>,
    n: nat,
)
    requires
        n <= cells.len(),
        !md_run(t, max, events).in_cell,
        md_run(t, max, events).cell.len() == 0,
    ensures
        ({
            let st = md_run(t, max, events);
            md_run(t, max, events + cell_events(cells, n)) == (MdState {
                row: st.row + cells.take(n as int),
                ..st
            })
        }),
    decreases n,
{
    let st = md_run(t, max, events);
    let all = events + cell_events(cells, n);
    if n == 0 {
        assert(all =~= events);
        assert(st.row + cells.take(0) =~= st.row);
    } else {
        let m = (n - 1) as nat;
        lemma_run_cells(t, max, events, cells, m);
        let e0 = events + cell_events(cells, m);
        let e1 = e0.push(EventView::Start(TagView::TableCell));
        let e2 = e1.push(EventView::Text(cells[n - 1]));
        lemma_run_push(t, max, e0, EventView::Start(TagView::TableCell));
        lemma_run_push(t, max, e1, EventView::Text(cells[n - 1]));
        lemma_run_push(t, max, e2, EventView::End(MdTagEnd::TableCell));
        assert(all =~= e2.push(EventView::End(MdTagEnd::TableCell)));
        assert(Seq::<char>::empty() + cells[n - 1] =~= cells[n - 1]);
        assert((st.row + cells.take(m as int)).push(cells[n - 1]) =~= st.row + cells.take(
            n as int,
        ));
        assert(st.cell =~= Seq::<char>::empty());
    }
}

proof fn lemma_same_cells_push(
    kept: Seq<Seq<Seq<char>>>,
    rows: Seq<Seq<Seq<char>>>,
    row: Seq<Seq<char>>,
)
    requires
        same_cells(kept, rows),
    ensures
        same_cells(kept.push(trimmed_cells(row)), rows.push(row)),
{
    let k2 = kept.push(trimmed_cells(row));
    let r2 = rows.push(row);
    lemma_row_kept(row);
    assert forall|r: int, c: int| 0 <= r < r2.len() && 0 <= c < r2[r].len() implies ink(
        #[trigger] k2[r][c],
    ) == ink(r2[r][c]) && k2[r][c] == trim(r2[r][c]) by {
        if r < rows.len() {
            assert(k2[r] == kept[r] && r2[r] == rows[r]);
            assert(ink(kept[r][c]) == ink(rows[r][c]));
        } else {
            assert(ink(trimmed_cells(row)[c]) == ink(row[c]));
        }
    }
    assert forall|r: int| 0 <= r < r2.len() implies (#[trigger] k2[r]).len() == r2[r].len() by {
        if r < rows.len() {
            assert(kept[r].len() == rows[r].len());
        }
    }
}

#[verifier::spinoff_prover]
proof fn lemma_run_rows(
    t: WidthTable,
    max: nat,
    events: Seq<EventView>,
    rows: Seq<Seq<Seq<char>>>,
    n: nat,
)
    requires
        n <= rows.len(),
        !md_run(t, max, events).in_cell,
        md_run(t, max, events).cell.len() == 0,
        md_run(t, max, events).row.len() == 0,
        md_run(t, max, events).rows.len() == 0,
    ensures
        ({
            let st = md_run(t, max, events);
            let end = md_run(t, max, events + row_events(rows, n));
            &&& same_cells(end.rows, inked_to(rows, n))
            &&& end == (MdState { rows: end.rows, ..st })
        }),
    decreases n,
{
    let st = md_run(t, max, events);
    let all = events + row_events(rows, n);
    if n == 0 {
        assert(all =~= events);
    } else {
        let m = (n - 1) as nat;
        let row = rows[n - 1];
        lemma_run_rows(t, max, events, rows, m);
        let e0 = events + row_events(rows, m);
        let (open, close) = if n == 1 {
            (EventView::Start(TagView::TableHead), EventView::End(MdTagEnd::TableHead))
        } else {
            (EventView::Start(TagView::TableRow), EventView::End(MdTagEnd::TableRow))
        };
        let before = md_run(t, max, e0);
        lemma_run_push(t, max, e0, open);
        assert(st.row =~= Seq::<Seq<char>>::empty());
        assert(n == 1 ==> before.rows =~= Seq::<Seq<Seq<char>>>::empty());
        assert(md_run(t, max, e0.push(open)) == before);
        lemma_run_cells(t, max, e0.push(open), row, row.len());
        let e1 = e0.push(open) + cell_events(row, row.len());
        assert(row.take(row.len() as int) =~= row);
        assert(before.row + row =~= row);
        lemma_run_push(t, max, e1, close);
        assert(all =~= e1.push(close));
        lemma_row_kept(row);
        lemma_same_cells_push(before.rows, inked_to(rows, m), row);
    }
}

/// A table is drawn with every row that holds anything to see, in their order and
/// with all their cells; each cell is drawn without the whitespace around its
/// text. An empty line follows it.
#[verifier::spinoff_prover]
pub proof fn lemma_table_rows_kept(
    t: WidthTable,
    max: nat,
    before: Seq<EventView>,
    rows: Seq<Seq<Seq<char>>>,
    aligns: Seq<Align>,
    after: Seq<EventView>,
)
    requires
        !md_run(t, max, before).in_cell,
    ensures
        ({
            let all = styled(t, max, before + table_events(rows, aligns) + after);
            exists|from: int, to: int, kept: Seq<Seq<Seq<char>>>|
                {
                    &&& 0 <= from <= to < all.len()
                    &&& #[trigger] same_cells(kept, inked_to(rows, rows.len()))
                    &&& #[trigger] all.subrange(from, to) == table_lines(t, kept, aligns, max)
                    &&& all[to] == line(Seq::empty(), Color::White)
                }
        }),
{
    let open = EventView::Start(TagView::Table(aligns));
    let close = EventView::End(MdTagEnd::Table);
    let start = before.push(open);
    let block = before + table_events(rows, aligns);
    let all = styled(t, max, block + after);
    lemma_run_push(t, max, before, open);
    let st = md_run(t, max, start);
    lemma_run_rows(t, max, start, rows, rows.len());
    let e1 = start + row_events(rows, rows.len());
    lemma_run_push(t, max, e1, close);
    assert(block =~= e1.push(close));
    let kept = md_run(t, max, e1).rows;
    let drawn = table_lines(t, kept, aligns, max);
    let done = md_run(t, max, block).out;
    assert(done =~= st.out + drawn + seq![line(Seq::empty(), Color::White)]);
    lemma_styled_extends(t, max, block, after);
    let from = st.out.len() as int;
    let to = from + drawn.len();
    assert(all.take(done.len() as int) == done);
    assert(all[to] == all.take(done.len() as int)[to]);
    assert(all.subrange(from, to) =~= done.subrange(from, to));
    assert(done.subrange(from, to) =~= drawn);
    assert(same_cells(kept, inked_to(rows, rows.len())));
}

proof fn lemma_same_columns(kept: Seq<Seq<Seq<char>>>, rows: Seq<Seq<Seq<char>>>)
    requires
        kept.len() == rows.len(),
        forall|r: int| 0 <= r < rows.len() ==> (#[trigger] kept[r]).len() == rows[r].len(),
    ensures
        column_count(kept) == column_count(rows),
    decreases rows.len(),
{
    if rows.len() > 0 {
        let k = kept.drop_last();
        let r = rows.drop_last();
        assert forall|i: int| 0 <= i < r.len() implies (#[trigger] k[i]).len() == r[i].len() by {
            assert(kept[i].len() == rows[i].len());
        }
        lemma_same_columns(k, r);
        assert(kept[kept.len() - 1].len() == rows[rows.len() - 1].len());
    }
}

/// No text of a table is lost. Where the table can be drawn, every row with
/// anything to see is drawn as lines one below the other, divided into its cells,
/// and the part of a cell, read downwards, holds all of the cell's text in order.
#[verifier::spinoff_prover]
pub proof fn lemma_table_text_kept(
    t: WidthTable,
    max: nat,
    before: Seq<EventView>,
    rows: Seq<Seq<Seq<char>>>,
    aligns: Seq<Align>,
    after: Seq<EventView>,
    r: int,
)
    requires
        !md_run(t, max, before).in_cell,
        drawable(inked_to(rows, rows.len()), max),
        0 <= r < rows.len(),
        row_has_ink(rows[r]),
    ensures
        ({
            let all = styled(t, max, before + table_events(rows, aligns) + after);
            exists|from: int, parts: Seq<Seq<Seq<char>>>|
                {
                    &&& 0 <= from && from + parts.len() <= all.len()
                    &&& #[trigger] row_drawn(all, from, parts, rows[r])
                }
        }),
{
    let all = styled(t, max, before + table_events(rows, aligns) + after);
    let inked = inked_to(rows, rows.len());
    lemma_table_rows_kept(t, max, before, rows, aligns, after);
    let (from, to, kept) = choose|from: int, to: int, kept: Seq<Seq<Seq<char>>>|
        {
            &&& 0 <= from <= to < all.len()
            &&& #[trigger] same_cells(kept, inked)
            &&& #[trigger] all.subrange(from, to) == table_lines(t, kept, aligns, max)
            &&& all[to] == line(Seq::empty(), Color::White)
        };
    lemma_same_columns(kept, inked);
    let i = lemma_inked_position(rows, rows.len(), r);
    assert(kept[i].len() == inked[i].len());
    let (at_row, drawn, parts) = lemma_table_shows_row(t, kept, aligns, max, i);
    let ls = table_lines(t, kept, aligns, max);
    let place = from + at_row;
    assert forall|k: int| 0 <= k < parts.len() implies (#[trigger] parts[k]).len() == rows[r].len()
        && all[place + k] == line(framed(parts[k]), Color::White) by {
        assert(all[place + k] == all.subrange(from, to)[at_row + k]);
        assert(ls[at_row + k] == ls.subrange(at_row, at_row + drawn.len())[k]);
        assert(colored(drawn, Color::White)[k] == line(drawn[k], Color::White));
    }
    assert forall|c: int| 0 <= c < rows[r].len() implies ink_of_lines(#[trigger] column(parts, c))
        == ink(rows[r][c]) by {
        assert(ink(kept[i][c]) == ink(inked[i][c]));
    }
    assert(row_drawn(all, place, parts, rows[r]));
}

/// Whether the lines from `from` on are those of a row: white, divided into
/// `parts`, which hold the texts of the cells.
pub open spec fn row_drawn(
    all: Seq<LineView>,
    from: int,
    parts: Seq<Seq<Seq<char>>>,
    cells: Seq<Seq<char>>,
) -> bool {
    &&& forall|k: int|
        0 <= k < parts.len() ==> (#[trigger] parts[k]).len() == cells.len() && all[from + k]
            == line(framed(parts[k]), Color::White)
    &&& forall|c: int|
        0 <= c < cells.len() ==> ink_of_lines(#[trigger] column(parts, c)) == ink(cells[c])
}

proof fn lemma_inked_position(rows: Seq<Seq<Seq<char>>>, n: nat, r: int) -> (i: int)
    requires
        0 <= r < n <= rows.len(),
        row_has_ink(rows[r]),
    ensures
        0 <= i < inked_to(rows, n).len(),
        inked_to(rows, n)[i] == rows[r],
    decreases n,
{
    if r == n - 1 {
        inked_to(rows, n).len() - 1
    } else {
        lemma_inked_position(rows, (n - 1) as nat, r)
    }
}

/// Whether an event can stand in a cell as text.
pub open spec fn inline(e: EventView) -> bool {
    e is Text || e is Code || e is SoftBreak || e is HardBreak || e is Html || e is InlineHtml
}

/// The texts of inline events, one behind the other.
pub open spec fn inline_text(events: Seq<EventView>) -> Seq<char>
    decreases events.len(),
{
    if events.len() == 0 {
        Seq::empty()
    } else {
        inline_text(events.drop_last()) + match events.last() {
            EventView::Text(s) => s,
            EventView::Code(s) => seq!['`'] + s + seq!['`'],
            EventView::Html(s) => s,
            EventView::InlineHtml(s) => s,
            _ => seq!['\n'],
        }
    }
}

/// A cell holds all text in it, in order, with code in backticks; outside of the
/// cell nothing changes. A link in a cell is followed by its address in brackets.
#[verifier::spinoff_prover]
pub proof fn lemma_cell_holds(
    t: WidthTable,
    max: nat,
    before: Seq<EventView>,
    events: Seq<EventView>,
    url: Seq<char>,
)
    requires
        md_run(t, max, before).in_cell,
        forall|i: int| 0 <= i < events.len() ==> inline(#[trigger] events[i]),
    ensures
        ({
            let st = md_run(t, max, before);
            md_run(t, max, before + events) == (MdState {
                cell: st.cell + inline_text(events),
                ..st
            })
        }),
        url.len() > 0 ==> ({
            let st = md_run(t, max, before);
            let link = before.push(EventView::Start(TagView::Link(url))) + events;
            md_run(t, max, link.push(EventView::End(MdTagEnd::Link))).cell == st.cell
                + inline_text(events) + " ("@ + url + ")"@
        }),
    decreases events.len(),
{
    lemma_cell_run(t, max, before, events);
    if url.len() > 0 {
        let st = md_run(t, max, before);
        let open = before.push(EventView::Start(TagView::Link(url)));
        lemma_run_push(t, max, before, EventView::Start(TagView::Link(url)));
        lemma_cell_run(t, max, open, events);
        lemma_run_push(t, max, open + events, EventView::End(MdTagEnd::Link));
        let end = (open + events).push(EventView::End(MdTagEnd::Link));
        assert(md_run(t, max, end).cell =~= st.cell + inline_text(events) + " ("@ + url + ")"@);
    }
}

proof fn lemma_cell_run(t: WidthTable, max: nat, before: Seq<EventView>, events: Seq<EventView>)
    requires
        md_run(t, max, before).in_cell,
        forall|i: int| 0 <= i < events.len() ==> inline(#[trigger] events[i]),
    ensures
        ({
            let st = md_run(t, max, before);
            md_run(t, max, before + events) == (MdState {
                cell: st.cell + inline_text(events),
                ..st
            })
        }),
    decreases events.len(),
{
    let st = md_run(t, max, before);
    if events.len() == 0 {
        assert(before + events =~= before);
        assert(st.cell + inline_text(events) =~= st.cell);
    } else {
        let init = events.drop_last();
        assert forall|i: int| 0 <= i < init.len() implies inline(#[trigger] init[i]) by {
            assert(init[i] == events[i]);
        }
        lemma_cell_run(t, max, before, init);
        assert(inline(events[events.len() - 1]));
        assert(before + events =~= (before + init).push(events.last()));
        lemma_run_push(t, max, before + init, events.last());
        reveal_strlit("`");
        assert("`"@ =~= seq!['`']);
        let next = md_run(t, max, before + events);
        assert(next.cell =~= st.cell + inline_text(events));
    }
}

} // verus!
