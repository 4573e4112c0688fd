//! Tables drawn with box characters.

use vstd::prelude::*;

use crate::color::Color;
use crate::line::{colored, line, line_views, push_line, wrapped, LineEntry, LineView};
use crate::num::{less, most};
use crate::text::{chars_of, is_whitespace, push_repeat, repeat, string_seqs};
use crate::width::{
    char_width, lemma_printable_width, lemma_width_bound, lemma_width_concat, lemma_width_push,
    printable, text_width, CharWidths, WidthTable,
};
use crate::wrap::{
    all_printable, fits, ink, ink_of_lines, lemma_ink_concat, lemma_ink_lines_push,
    lemma_wrap_fits, lemma_wrap_keeps_ink, lemma_wrap_not_empty, lemma_wrap_printable, word_wrap,
    wrap_text,
};

verus! {

/// How the cells of a column are placed.
#[derive(Clone, Copy, Debug, PartialEq, Eq, Structural)]
pub enum Align {
    Unset,
    Left,
    Center,
    Right,
}

/// The views of the rows of a table.
pub open spec fn row_views(rows: Seq<Vec<String>>) -> Seq<Seq<Seq<char>>> {
    rows.map_values(|r: Vec<String>| string_seqs(r@))
}

// ---------------------------------------------------------------------------
// Column widths
// ---------------------------------------------------------------------------

/// The number of cells of the longest row.
pub open spec fn column_count(rows: Seq<Seq<Seq<char>>>) -> nat
    decreases rows.len(),
{
    if rows.len() == 0 {
        0
    } else {
        most(column_count(rows.drop_last()), rows.last().len())
    }
}

/// Columns of the screen that a cell takes, as far as a `usize` holds it.
pub open spec fn cell_width(t: WidthTable, cell: Seq<char>) -> nat {
    if text_width(t, cell) <= usize::MAX {
        text_width(t, cell)
    } else {
        usize::MAX as nat
    }
}

/// The width of the widest cell of column `c`.
pub open spec fn natural_width(t: WidthTable, rows: Seq<Seq<Seq<char>>>, c: int) -> nat
    decreases rows.len(),
{
    if rows.len() == 0 {
        0
    } else {
        let before = natural_width(t, rows.drop_last(), c);
        if c < rows.last().len() {
            most(before, cell_width(t, rows.last()[c]))
        } else {
            before
        }
    }
}

/// The sum of the first `n` widths.
pub open spec fn sum_to(ws: Seq<usize>, n: nat) -> nat
    decreases n,
{
    if n == 0 {
        0
    } else {
        sum_to(ws, (n - 1) as nat) + ws[n - 1] as nat
    }
}

/// The natural widths of all columns.
pub open spec fn natural_widths(t: WidthTable, rows: Seq<Seq<Seq<char>>>) -> Seq<usize> {
    Seq::new(column_count(rows), |c: int| natural_width(t, rows, c) as usize)
}

/// `a / b`, rounded up.
pub open spec fn div_up(a: nat, b: nat) -> nat {
    ((a + b - 1) / b as int) as nat
}

/// `w` reduced by `cut`, but not below four columns.
pub open spec fn narrowed(w: nat, cut: nat) -> nat {
    let room = less(w, 4);
    (w - if cut <= room {
        cut
    } else {
        room
    }) as nat
}

/// What is left of `max` columns for the cells of `cols` columns.
pub open spec fn cell_room(max: nat, cols: nat) -> nat {
    less(max, (cols + 1) * 2)
}

/// Whether a table can be drawn within `max` columns at all.
pub open spec fn drawable(rows: Seq<Seq<Seq<char>>>, max: nat) -> bool {
    &&& column_count(rows) > 0
    &&& cell_room(max, column_count(rows)) > column_count(rows)
}

/// The widths in which the columns are drawn: the natural ones where they fit,
/// else each cut by an equal share of the excess.
pub open spec fn column_widths(t: WidthTable, rows: Seq<Seq<Seq<char>>>, max: nat) -> Seq<usize> {
    let cols = column_count(rows);
    let ws = natural_widths(t, rows);
    let room = cell_room(max, cols);
    let total = sum_to(ws, cols);
    if total > room {
        let cut = div_up((total - room) as nat, cols);
        Seq::new(cols, |c: int| narrowed(ws[c] as nat, cut) as usize)
    } else {
        ws
    }
}

// ---------------------------------------------------------------------------
// Rules and rows
// ---------------------------------------------------------------------------

/// The first `n` columns of a horizontal rule.
pub open spec fn rule_to(ws: Seq<usize>, left: char, mid: char, n: nat) -> Seq<char>
    decreases n,
{
    if n == 0 {
        seq![left]
    } else {
        let bar = rule_to(ws, left, mid, (n - 1) as nat) + repeat('\u{2500}', (ws[n - 1] + 2) as nat);
        if n < ws.len() {
            bar.push(mid)
        } else {
            bar
        }
    }
}

/// A horizontal rule over columns of the given widths.
pub open spec fn table_rule(ws: Seq<usize>, left: char, mid: char, right: char) -> Seq<char> {
    rule_to(ws, left, mid, ws.len()).push(right)
}

/// The width of column `i`: ten where none is given.
pub open spec fn width_at(ws: Seq<usize>, i: int) -> nat {
    if i < ws.len() {
        ws[i] as nat
    } else {
        10
    }
}

/// The placement in column `i`.
pub open spec fn align_at(aligns: Seq<Align>, i: int) -> Align {
    if i < aligns.len() {
        aligns[i]
    } else {
        Align::Unset
    }
}

/// A cell broken into lines of the given width.
pub open spec fn cell_lines(t: WidthTable, cell: Seq<char>, width: nat) -> Seq<Seq<char>> {
    if text_width(t, cell) <= width {
        seq![cell]
    } else {
        wrap_text(t, cell, width)
    }
}

/// The lines of every cell of a row.
pub open spec fn row_chunks(t: WidthTable, cells: Seq<Seq<char>>, ws: Seq<usize>) -> Seq<
    Seq<Seq<char>>,
> {
    Seq::new(cells.len(), |i: int| cell_lines(t, cells[i], width_at(ws, i)))
}

/// The number of lines of the tallest cell.
pub open spec fn tallest(chunks: Seq<Seq<Seq<char>>>) -> nat
    decreases chunks.len(),
{
    if chunks.len() == 0 {
        0
    } else {
        most(tallest(chunks.drop_last()), chunks.last().len())
    }
}

/// `text` filled up with spaces to `width` columns.
pub open spec fn padded(t: WidthTable, text: Seq<char>, width: nat, align: Align) -> Seq<char> {
    let pad = less(width, text_width(t, text));
    match align {
        Align::Center => repeat(' ', pad / 2) + text + repeat(' ', (pad - pad / 2) as nat),
        Align::Right => repeat(' ', pad) + text,
        _ => text + repeat(' ', pad),
    }
}

/// Line `k` of a cell: empty below its last line.
pub open spec fn chunk_at(chunks: Seq<Seq<char>>, k: int) -> Seq<char> {
    if k < chunks.len() {
        chunks[k]
    } else {
        Seq::empty()
    }
}

/// The first `n` cells of line `k` of a row.
pub open spec fn row_to(
    t: WidthTable,
    chunks: Seq<Seq<Seq<char>>>,
    ws: Seq<usize>,
    aligns: Seq<Align>,
    k: int,
    n: nat,
) -> Seq<char>
    decreases n,
{
    if n == 0 {
        seq!['\u{2502}']
    } else {
        let i = n - 1;
        let before = row_to(t, chunks, ws, aligns, k, (n - 1) as nat).push(' ');
        let cell = padded(t, chunk_at(chunks[i], k), width_at(ws, i), align_at(aligns, i));
        let filled = (before + cell).push(' ');
        if n < chunks.len() {
            filled.push('\u{2502}')
        } else {
            filled
        }
    }
}

/// The lines of one row.
pub open spec fn table_row(
    t: WidthTable,
    cells: Seq<Seq<char>>,
    ws: Seq<usize>,
    aligns: Seq<Align>,
) -> Seq<Seq<char>> {
    let chunks = row_chunks(t, cells, ws);
    Seq::new(
        tallest(chunks),
        |k: int| row_to(t, chunks, ws, aligns, k, chunks.len()).push('\u{2502}'),
    )
}

/// The first `n` rows, with a rule under the first where others follow.
pub open spec fn table_body(
    t: WidthTable,
    rows: Seq<Seq<Seq<char>>>,
    ws: Seq<usize>,
    aligns: Seq<Align>,
    n: nat,
) -> Seq<LineView>
    decreases n,
{
    if n == 0 {
        Seq::empty()
    } else {
        let with_row = table_body(t, rows, ws, aligns, (n - 1) as nat) + colored(
            table_row(t, rows[n - 1], ws, aligns),
            Color::White,
        );
        if n == 1 && rows.len() > 1 {
            with_row.push(
                line(table_rule(ws, '\u{251c}', '\u{253c}', '\u{2524}'), Color::DarkGrey),
            )
        } else {
            with_row
        }
    }
}

/// A whole table: nothing where it cannot be drawn.
pub open spec fn table_lines(
    t: WidthTable,
    rows: Seq<Seq<Seq<char>>>,
    aligns: Seq<Align>,
    max: nat,
) -> Seq<LineView> {
    if !drawable(rows, max) {
        Seq::empty()
    } else {
        let ws = column_widths(t, rows, max);
        let top = line(table_rule(ws, '\u{250c}', '\u{252c}', '\u{2510}'), Color::DarkGrey);
        let bottom = line(table_rule(ws, '\u{2514}', '\u{2534}', '\u{2518}'), Color::DarkGrey);
        (seq![top] + table_body(t, rows, ws, aligns, rows.len())).push(bottom)
    }
}

// ---------------------------------------------------------------------------
// Laws
// ---------------------------------------------------------------------------

/// Whether the box characters of a table take one column each.
pub open spec fn narrow_boxes(t: WidthTable) -> bool {
    forall|c: char| '\u{2500}' <= c <= '\u{257f}' ==> #[trigger] char_width(t, c) == 1
}

/// Whether a cell holds something to see or takes no columns at all.
pub open spec fn plain_cell(t: WidthTable, cell: Seq<char>) -> bool {
    text_width(t, cell) == 0 || ink(cell).len() > 0
}

/// The width of a whole table line over the given columns.
pub open spec fn frame_width(ws: Seq<usize>) -> nat {
    1 + sum_to(ws, ws.len()) + 3 * ws.len()
}

/// The width of a run of one character that takes one column.
pub proof fn lemma_repeat_width(t: WidthTable, c: char, n: nat)
    requires
        char_width(t, c) == 1,
    ensures
        text_width(t, repeat(c, n)) == n,
    decreases n,
{
    if n == 0 {
        assert(repeat(c, 0) =~= Seq::<char>::empty());
    } else {
        let m = (n - 1) as nat;
        lemma_repeat_width(t, c, m);
        assert(repeat(c, n).drop_last() =~= repeat(c, m));
    }
}

proof fn lemma_rule_to_width(t: WidthTable, ws: Seq<usize>, left: char, mid: char, n: nat)
    requires
        n <= ws.len(),
        char_width(t, '\u{2500}') == 1,
        char_width(t, left) == 1,
        char_width(t, mid) == 1,
    ensures
        text_width(t, rule_to(ws, left, mid, n)) == 1 + sum_to(ws, n) + 3 * n - if n > 0 && n
            == ws.len() {
            1int
        } else {
            0
        },
    decreases n,
{
    if n == 0 {
        lemma_width_push(t, Seq::empty(), left);
        assert(seq![left] =~= Seq::<char>::empty().push(left));
    } else {
        let m = (n - 1) as nat;
        let bar = repeat('\u{2500}', (ws[n - 1] + 2) as nat);
        lemma_rule_to_width(t, ws, left, mid, m);
        lemma_repeat_width(t, '\u{2500}', (ws[n - 1] + 2) as nat);
        lemma_width_concat(t, rule_to(ws, left, mid, m), bar);
        lemma_width_push(t, rule_to(ws, left, mid, m) + bar, mid);
    }
}

proof fn lemma_rule_width(t: WidthTable, ws: Seq<usize>, left: char, mid: char, right: char)
    requires
        ws.len() > 0,
        char_width(t, '\u{2500}') == 1,
        char_width(t, left) == 1,
        char_width(t, mid) == 1,
        char_width(t, right) == 1,
    ensures
        text_width(t, table_rule(ws, left, mid, right)) == frame_width(ws),
{
    lemma_rule_to_width(t, ws, left, mid, ws.len());
    lemma_width_push(t, rule_to(ws, left, mid, ws.len()), right);
}

proof fn lemma_padded_width(t: WidthTable, text: Seq<char>, width: nat, align: Align)
    requires
        text_width(t, text) <= width,
    ensures
        text_width(t, padded(t, text, width, align)) == width,
{
    let pad = less(width, text_width(t, text));
    lemma_repeat_width(t, ' ', pad);
    lemma_repeat_width(t, ' ', pad / 2);
    lemma_repeat_width(t, ' ', (pad - pad / 2) as nat);
    lemma_width_concat(t, repeat(' ', pad / 2), text);
    lemma_width_concat(t, repeat(' ', pad / 2) + text, repeat(' ', (pad - pad / 2) as nat));
    lemma_width_concat(t, repeat(' ', pad), text);
    lemma_width_concat(t, text, repeat(' ', pad));
}

/// Whether every line of every cell keeps within its column.
spec fn chunks_fit(t: WidthTable, chunks: Seq<Seq<Seq<char>>>, ws: Seq<usize>) -> bool {
    &&& chunks.len() == ws.len()
    &&& forall|i: int, k: int|
        0 <= i < chunks.len() && 0 <= k < chunks[i].len() ==> text_width(
            t,
            #[trigger] chunks[i][k],
        ) <= ws[i]
}

proof fn lemma_row_to_width(
    t: WidthTable,
    chunks: Seq<Seq<Seq<char>>>,
    ws: Seq<usize>,
    aligns: Seq<Align>,
    k: int,
    n: nat,
)
    requires
        chunks_fit(t, chunks, ws),
        char_width(t, '\u{2502}') == 1,
        n <= chunks.len(),
        k >= 0,
    ensures
        text_width(t, row_to(t, chunks, ws, aligns, k, n)) == 1 + sum_to(ws, n) + 3 * n - if n > 0
            && n == ws.len() {
            1int
        } else {
            0
        },
    decreases n,
{
    if n == 0 {
        lemma_width_push(t, Seq::empty(), '\u{2502}');
        assert(seq!['\u{2502}'] =~= Seq::<char>::empty().push('\u{2502}'));
    } else {
        let i = n - 1;
        let m = (n - 1) as nat;
        let before = row_to(t, chunks, ws, aligns, k, m);
        let text = chunk_at(chunks[i], k);
        let cell = padded(t, text, width_at(ws, i), align_at(aligns, i));
        lemma_row_to_width(t, chunks, ws, aligns, k, m);
        if k < chunks[i].len() {
            assert(text_width(t, chunks[i][k]) <= ws[i]);
        }
        lemma_padded_width(t, text, width_at(ws, i), align_at(aligns, i));
        lemma_width_push(t, before, ' ');
        lemma_width_concat(t, before.push(' '), cell);
        lemma_width_push(t, before.push(' ') + cell, ' ');
        lemma_width_push(t, (before.push(' ') + cell).push(' '), '\u{2502}');
    }
}

/// A cell that is broken into lines gives lines within its column, where the
/// column has room for any one character.
proof fn lemma_cell_lines_fit(t: WidthTable, cell: Seq<char>, width: nat)
    requires
        text_width(t, cell) <= width || (ink(cell).len() > 0 && width >= 2),
    ensures
        forall|k: int|
            0 <= k < cell_lines(t, cell, width).len() ==> text_width(
                t,
                #[trigger] cell_lines(t, cell, width)[k],
            ) <= width,
{
    if text_width(t, cell) > width {
        lemma_wrap_fits(t, cell, width);
        let ls = wrap_text(t, cell, width);
        assert forall|k: int| 0 <= k < ls.len() implies text_width(t, #[trigger] ls[k]) <= width by {
            assert(fits(t, width, ls[k]));
            lemma_width_bound(t, ls[k]);
        }
    }
}

proof fn lemma_natural_width_covers(t: WidthTable, rows: Seq<Seq<Seq<char>>>, r: int, c: int)
    requires
        0 <= r < rows.len(),
        0 <= c < rows[r].len(),
    ensures
        cell_width(t, rows[r][c]) <= natural_width(t, rows, c),
    decreases rows.len(),
{
    if r < rows.len() - 1 {
        assert(rows.drop_last()[r] == rows[r]);
        lemma_natural_width_covers(t, rows.drop_last(), r, c);
    }
}

/// The lines of every cell keep within the columns as they are drawn.
proof fn lemma_row_chunks_fit(t: WidthTable, rows: Seq<Seq<Seq<char>>>, max: nat, r: int)
    requires
        drawable(rows, max),
        0 <= r < rows.len(),
        rows[r].len() == column_count(rows),
        forall|c: int|
            0 <= c < rows[r].len() ==> plain_cell(t, #[trigger] rows[r][c]) && text_width(
                t,
                rows[r][c],
            ) <= usize::MAX,
    ensures
        chunks_fit(
            t,
            row_chunks(t, rows[r], column_widths(t, rows, max)),
            column_widths(t, rows, max),
        ),
{
    let ws = column_widths(t, rows, max);
    let cells = rows[r];
    let chunks = row_chunks(t, cells, ws);
    assert forall|i: int, k: int|
        0 <= i < chunks.len() && 0 <= k < chunks[i].len() implies text_width(
        t,
        #[trigger] chunks[i][k],
    ) <= ws[i] by {
        lemma_natural_width_fits(t, rows, i);
        lemma_natural_width_covers(t, rows, r, i);
        assert(plain_cell(t, rows[r][i]));
        lemma_cell_lines_fit(t, cells[i], ws[i] as nat);
        assert(chunks[i] == cell_lines(t, cells[i], ws[i] as nat));
    }
}

proof fn lemma_row_aligned(
    t: WidthTable,
    rows: Seq<Seq<Seq<char>>>,
    aligns: Seq<Align>,
    max: nat,
    r: int,
)
    requires
        drawable(rows, max),
        narrow_boxes(t),
        0 <= r < rows.len(),
        rows[r].len() == column_count(rows),
        forall|c: int|
            0 <= c < rows[r].len() ==> plain_cell(t, #[trigger] rows[r][c]) && text_width(
                t,
                rows[r][c],
            ) <= usize::MAX,
    ensures
        ({
            let ws = column_widths(t, rows, max);
            let ls = table_row(t, rows[r], ws, aligns);
            forall|k: int|
                0 <= k < ls.len() ==> text_width(t, #[trigger] ls[k]) == frame_width(ws)
        }),
{
    let ws = column_widths(t, rows, max);
    let chunks = row_chunks(t, rows[r], ws);
    let ls = table_row(t, rows[r], ws, aligns);
    assert(char_width(t, '\u{2502}') == 1);
    lemma_row_chunks_fit(t, rows, max, r);
    assert forall|k: int| 0 <= k < ls.len() implies text_width(t, #[trigger] ls[k]) == frame_width(
        ws,
    ) by {
        lemma_row_to_width(t, chunks, ws, aligns, k, chunks.len());
        lemma_width_push(t, row_to(t, chunks, ws, aligns, k, chunks.len()), '\u{2502}');
    }
}

proof fn lemma_body_aligned(
    t: WidthTable,
    rows: Seq<Seq<Seq<char>>>,
    aligns: Seq<Align>,
    max: nat,
    n: nat,
)
    requires
        drawable(rows, max),
        narrow_boxes(t),
        n <= rows.len(),
        forall|r: int| 0 <= r < rows.len() ==> (#[trigger] rows[r]).len() == column_count(rows),
        forall|r: int, c: int|
            0 <= r < rows.len() && 0 <= c < rows[r].len() ==> plain_cell(t, #[trigger] rows[r][c])
                && text_width(t, rows[r][c]) <= usize::MAX,
    ensures
        ({
            let ws = column_widths(t, rows, max);
            let ls = table_body(t, rows, ws, aligns, n);
            forall|k: int|
                0 <= k < ls.len() ==> text_width(t, (#[trigger] ls[k]).text) == frame_width(ws)
        }),
    decreases n,
{
    let ws = column_widths(t, rows, max);
    if n > 0 {
        let m = (n - 1) as nat;
        lemma_body_aligned(t, rows, aligns, max, m);
        assert(rows[n - 1].len() == column_count(rows));
        lemma_row_aligned(t, rows, aligns, max, n - 1);
        lemma_rule_width(t, ws, '\u{251c}', '\u{253c}', '\u{2524}');
        let row = table_row(t, rows[n - 1], ws, aligns);
        let before = table_body(t, rows, ws, aligns, m);
        let ls = table_body(t, rows, ws, aligns, n);
        assert forall|k: int| 0 <= k < ls.len() implies text_width(t, (#[trigger] ls[k]).text)
            == frame_width(ws) by {
            if k < before.len() {
                assert(ls[k] == before[k]);
            } else if k < before.len() + row.len() {
                assert(ls[k].text == row[k - before.len()]);
            }
        }
    }
}

/// All lines of a table are equally wide, where every row has a cell for every
/// column and no cell is blank but wide.
pub proof fn lemma_table_aligned(
    t: WidthTable,
    rows: Seq<Seq<Seq<char>>>,
    aligns: Seq<Align>,
    max: nat,
)
    requires
        drawable(rows, max),
        narrow_boxes(t),
        forall|r: int| 0 <= r < rows.len() ==> (#[trigger] rows[r]).len() == column_count(rows),
        forall|r: int, c: int|
            0 <= r < rows.len() && 0 <= c < rows[r].len() ==> plain_cell(t, #[trigger] rows[r][c])
                && text_width(t, rows[r][c]) <= usize::MAX,
    ensures
        forall|k: int|
            0 <= k < table_lines(t, rows, aligns, max).len() ==> text_width(
                t,
                (#[trigger] table_lines(t, rows, aligns, max)[k]).text,
            ) == frame_width(column_widths(t, rows, max)),
{
    let ws = column_widths(t, rows, max);
    let body = table_body(t, rows, ws, aligns, rows.len());
    let ls = table_lines(t, rows, aligns, max);
    lemma_body_aligned(t, rows, aligns, max, rows.len());
    lemma_rule_width(t, ws, '\u{250c}', '\u{252c}', '\u{2510}');
    lemma_rule_width(t, ws, '\u{2514}', '\u{2534}', '\u{2518}');
    assert forall|k: int| 0 <= k < ls.len() implies text_width(t, (#[trigger] ls[k]).text)
        == frame_width(ws) by {
        if 0 < k && k <= body.len() {
            assert(ls[k] == body[k - 1]);
        }
    }
}

/// Whether a cell is printable ASCII text with no blank at either end, and no
/// longer than a text can be.
pub open spec fn ascii_cell(cell: Seq<char>) -> bool {
    &&& printable(cell)
    &&& cell.len() <= usize::MAX
    &&& cell.len() > 0 ==> !is_whitespace(cell[0]) && !is_whitespace(cell.last())
}

proof fn lemma_rule_to_len(ws: Seq<usize>, left: char, mid: char, n: nat)
    requires
        n <= ws.len(),
    ensures
        rule_to(ws, left, mid, n).len() == 1 + sum_to(ws, n) + 3 * n - if n > 0 && n == ws.len() {
            1int
        } else {
            0
        },
    decreases n,
{
    if n > 0 {
        lemma_rule_to_len(ws, left, mid, (n - 1) as nat);
    }
}

proof fn lemma_row_to_len(
    t: WidthTable,
    chunks: Seq<Seq<Seq<char>>>,
    ws: Seq<usize>,
    aligns: Seq<Align>,
    k: int,
    n: nat,
)
    requires
        chunks_fit(t, chunks, ws),
        forall|i: int| 0 <= i < chunks.len() ==> all_printable(#[trigger] chunks[i]),
        n <= chunks.len(),
        k >= 0,
    ensures
        row_to(t, chunks, ws, aligns, k, n).len() == 1 + sum_to(ws, n) + 3 * n - if n > 0 && n
            == ws.len() {
            1int
        } else {
            0
        },
    decreases n,
{
    if n > 0 {
        let i = n - 1;
        let text = chunk_at(chunks[i], k);
        lemma_row_to_len(t, chunks, ws, aligns, k, (n - 1) as nat);
        assert(all_printable(chunks[i]));
        if k < chunks[i].len() {
            assert(text_width(t, chunks[i][k]) <= ws[i]);
            assert(printable(chunks[i][k]));
        }
        lemma_printable_width(t, text);
        assert(padded(t, text, width_at(ws, i), align_at(aligns, i)).len() == ws[i]);
    }
}

proof fn lemma_row_straight(
    t: WidthTable,
    rows: Seq<Seq<Seq<char>>>,
    aligns: Seq<Align>,
    max: nat,
    r: int,
)
    requires
        drawable(rows, max),
        0 <= r < rows.len(),
        rows[r].len() == column_count(rows),
        forall|c: int| 0 <= c < rows[r].len() ==> ascii_cell(#[trigger] rows[r][c]),
    ensures
        ({
            let ws = column_widths(t, rows, max);
            let ls = table_row(t, rows[r], ws, aligns);
            forall|k: int| 0 <= k < ls.len() ==> (#[trigger] ls[k]).len() == frame_width(ws)
        }),
{
    let ws = column_widths(t, rows, max);
    let chunks = row_chunks(t, rows[r], ws);
    let ls = table_row(t, rows[r], ws, aligns);
    assert forall|c: int| 0 <= c < rows[r].len() implies plain_cell(t, #[trigger] rows[r][c])
        && text_width(t, rows[r][c]) <= usize::MAX by {
        assert(ascii_cell(rows[r][c]));
        lemma_printable_width(t, rows[r][c]);
    }
    lemma_row_chunks_fit(t, rows, max, r);
    assert forall|i: int| 0 <= i < chunks.len() implies all_printable(#[trigger] chunks[i]) by {
        assert(ascii_cell(rows[r][i]));
        lemma_wrap_printable(t, rows[r][i], width_at(ws, i));
    }
    assert forall|k: int| 0 <= k < ls.len() implies (#[trigger] ls[k]).len() == frame_width(
        ws,
    ) by {
        lemma_row_to_len(t, chunks, ws, aligns, k, chunks.len());
    }
}

proof fn lemma_body_straight(
    t: WidthTable,
    rows: Seq<Seq<Seq<char>>>,
    aligns: Seq<Align>,
    max: nat,
    n: nat,
)
    requires
        drawable(rows, max),
        n <= rows.len(),
        forall|r: int| 0 <= r < rows.len() ==> (#[trigger] rows[r]).len() == column_count(rows),
        forall|r: int, c: int|
            0 <= r < rows.len() && 0 <= c < rows[r].len() ==> ascii_cell(#[trigger] rows[r][c]),
    ensures
        ({
            let ws = column_widths(t, rows, max);
            let ls = table_body(t, rows, ws, aligns, n);
            forall|k: int| 0 <= k < ls.len() ==> (#[trigger] ls[k]).text.len() == frame_width(ws)
        }),
    decreases n,
{
    let ws = column_widths(t, rows, max);
    if n > 0 {
        let m = (n - 1) as nat;
        lemma_body_straight(t, rows, aligns, max, m);
        assert(rows[n - 1].len() == column_count(rows));
        lemma_row_straight(t, rows, aligns, max, n - 1);
        lemma_rule_to_len(ws, '\u{251c}', '\u{253c}', ws.len());
        let row = table_row(t, rows[n - 1], ws, aligns);
        let before = table_body(t, rows, ws, aligns, m);
        let ls = table_body(t, rows, ws, aligns, n);
        assert forall|k: int| 0 <= k < ls.len() implies (#[trigger] ls[k]).text.len()
            == frame_width(ws) by {
            if k < before.len() {
                assert(ls[k] == before[k]);
            } else if k < before.len() + row.len() {
                assert(ls[k].text == row[k - before.len()]);
            }
        }
    }
}

/// The right border of a table is straight: where every row has a cell for every
/// column and the cells are ASCII text, all lines have the same number of
/// characters, also where columns are cut and cells broken into several lines.
pub proof fn lemma_table_straight(
    t: WidthTable,
    rows: Seq<Seq<Seq<char>>>,
    aligns: Seq<Align>,
    max: nat,
)
    requires
        forall|r: int| 0 <= r < rows.len() ==> (#[trigger] rows[r]).len() == column_count(rows),
        forall|r: int, c: int|
            0 <= r < rows.len() && 0 <= c < rows[r].len() ==> ascii_cell(#[trigger] rows[r][c]),
    ensures
        forall|k: int|
            0 <= k < table_lines(t, rows, aligns, max).len() ==> (#[trigger] table_lines(
                t,
                rows,
                aligns,
                max,
            )[k]).text.len() == frame_width(column_widths(t, rows, max)),
        column_count(rows) > 0 && max > 3 * column_count(rows) + 2 ==> table_lines(
            t,
            rows,
            aligns,
            max,
        ).len() > 2,
{
    if drawable(rows, max) {
        let ws = column_widths(t, rows, max);
        let body = table_body(t, rows, ws, aligns, rows.len());
        let ls = table_lines(t, rows, aligns, max);
        lemma_body_straight(t, rows, aligns, max, rows.len());
        lemma_rule_to_len(ws, '\u{250c}', '\u{252c}', ws.len());
        lemma_rule_to_len(ws, '\u{2514}', '\u{2534}', ws.len());
        assert forall|k: int| 0 <= k < ls.len() implies (#[trigger] ls[k]).text.len()
            == frame_width(ws) by {
            if 0 < k && k <= body.len() {
                assert(ls[k] == body[k - 1]);
            }
        }
    }
}

/// A line of a table: its parts between bars.
pub open spec fn framed(parts: Seq<Seq<char>>) -> Seq<char>
    decreases parts.len(),
{
    if parts.len() == 0 {
        seq!['\u{2502}']
    } else {
        framed(parts.drop_last()).push(' ') + parts.last() + seq![' ', '\u{2502}']
    }
}

/// Part `c` of every line.
pub open spec fn column(parts: Seq<Seq<Seq<char>>>, c: int) -> Seq<Seq<char>> {
    parts.map_values(|p: Seq<Seq<char>>| p[c])
}

/// Whether `part` is `text` with blanks around it, `width` columns wide: in front
/// of it on the right, shared in the middle, and behind it elsewhere.
pub open spec fn placed(
    t: WidthTable,
    part: Seq<char>,
    text: Seq<char>,
    width: nat,
    align: Align,
) -> bool {
    exists|a: nat, b: nat|
        {
            &&& part == #[trigger] repeat(' ', a) + text + #[trigger] repeat(' ', b)
            &&& a + text_width(t, text) + b == width
            &&& match align {
                Align::Right => b == 0,
                Align::Center => a <= b <= a + 1,
                _ => a == 0,
            }
        }
}

/// Whether the lines of a row show its cells, each in a column of its own: read
/// downwards, the column holds all of the cell's text in order. A cell that fits
/// stands in the first line as it is.
pub open spec fn row_shows(
    t: WidthTable,
    ls: Seq<Seq<char>>,
    parts: Seq<Seq<Seq<char>>>,
    cells: Seq<Seq<char>>,
    ws: Seq<usize>,
    aligns: Seq<Align>,
) -> bool {
    &&& ls.len() == parts.len()
    &&& forall|k: int|
        0 <= k < ls.len() ==> (#[trigger] parts[k]).len() == cells.len() && ls[k] == framed(
            parts[k],
        )
    &&& forall|c: int|
        0 <= c < cells.len() ==> ink_of_lines(#[trigger] column(parts, c)) == ink(cells[c])
    &&& forall|c: int|
        0 <= c < cells.len() && text_width(t, #[trigger] cells[c]) <= width_at(ws, c) ==> ls.len()
            > 0 && placed(t, parts[0][c], cells[c], width_at(ws, c), align_at(aligns, c))
}

/// The parts of line `k` of a row.
spec fn line_parts(
    t: WidthTable,
    chunks: Seq<Seq<Seq<char>>>,
    ws: Seq<usize>,
    aligns: Seq<Align>,
    k: int,
) -> Seq<Seq<char>> {
    Seq::new(
        chunks.len(),
        |c: int| padded(t, chunk_at(chunks[c], k), width_at(ws, c), align_at(aligns, c)),
    )
}

proof fn lemma_row_framed(
    t: WidthTable,
    chunks: Seq<Seq<Seq<char>>>,
    ws: Seq<usize>,
    aligns: Seq<Align>,
    k: int,
    n: nat,
)
    requires
        n <= chunks.len(),
    ensures
        n < chunks.len() || n == 0 ==> row_to(t, chunks, ws, aligns, k, n) == framed(
            line_parts(t, chunks, ws, aligns, k).take(n as int),
        ),
        n == chunks.len() && n > 0 ==> row_to(t, chunks, ws, aligns, k, n).push('\u{2502}')
            == framed(line_parts(t, chunks, ws, aligns, k).take(n as int)),
    decreases n,
{
    let parts = line_parts(t, chunks, ws, aligns, k);
    if n == 0 {
        assert(parts.take(0) =~= Seq::<Seq<char>>::empty());
    } else {
        let m = (n - 1) as nat;
        lemma_row_framed(t, chunks, ws, aligns, k, m);
        assert(parts.take(n as int).drop_last() =~= parts.take(m as int));
        assert(parts.take(n as int).last() == parts[n - 1]);
        let before = row_to(t, chunks, ws, aligns, k, m).push(' ');
        assert((before + parts[n - 1]).push(' ').push('\u{2502}') =~= before + parts[n - 1]
            + seq![' ', '\u{2502}']);
    }
}

proof fn lemma_blanks_no_ink(n: nat)
    ensures
        ink(repeat(' ', n)) == Seq::<char>::empty(),
    decreases n,
{
    if n > 0 {
        assert(repeat(' ', n).drop_last() =~= repeat(' ', (n - 1) as nat));
        lemma_blanks_no_ink((n - 1) as nat);
    } else {
        assert(repeat(' ', 0).len() == 0);
    }
}

proof fn lemma_padded_ink(t: WidthTable, text: Seq<char>, width: nat, align: Align)
    ensures
        ink(padded(t, text, width, align)) == ink(text),
{
    let pad = less(width, text_width(t, text));
    lemma_blanks_no_ink(pad);
    lemma_blanks_no_ink(pad / 2);
    lemma_blanks_no_ink((pad - pad / 2) as nat);
    lemma_ink_concat(repeat(' ', pad / 2), text);
    lemma_ink_concat(repeat(' ', pad / 2) + text, repeat(' ', (pad - pad / 2) as nat));
    lemma_ink_concat(repeat(' ', pad), text);
    lemma_ink_concat(text, repeat(' ', pad));
    assert(ink(padded(t, text, width, align)) =~= ink(text));
}

proof fn lemma_placed(t: WidthTable, text: Seq<char>, width: nat, align: Align)
    requires
        text_width(t, text) <= width,
    ensures
        placed(t, padded(t, text, width, align), text, width, align),
{
    let pad = less(width, text_width(t, text));
    let part = padded(t, text, width, align);
    let (a, b): (nat, nat) = match align {
        Align::Center => (pad / 2, (pad - pad / 2) as nat),
        Align::Right => (pad, 0),
        _ => (0, pad),
    };
    assert(part =~= repeat(' ', a) + text + repeat(' ', b));
}

proof fn lemma_tallest(chunks: Seq<Seq<Seq<char>>>, c: int)
    requires
        0 <= c < chunks.len(),
    ensures
        chunks[c].len() <= tallest(chunks),
    decreases chunks.len(),
{
    if c < chunks.len() - 1 {
        assert(chunks.drop_last()[c] == chunks[c]);
        lemma_tallest(chunks.drop_last(), c);
    }
}

/// The ink of the first `n` lines of a cell, filled up.
proof fn lemma_column_ink(
    t: WidthTable,
    chunk: Seq<Seq<char>>,
    width: nat,
    align: Align,
    n: nat,
)
    ensures
        ink_of_lines(Seq::new(n, |k: int| padded(t, chunk_at(chunk, k), width, align)))
            == ink_of_lines(
            chunk.take(
                if n <= chunk.len() {
                    n as int
                } else {
                    chunk.len() as int
                },
            ),
        ),
    decreases n,
{
    let col = Seq::new(n, |k: int| padded(t, chunk_at(chunk, k), width, align));
    if n == 0 {
        assert(chunk.take(0) =~= Seq::<Seq<char>>::empty());
        assert(col =~= Seq::<Seq<char>>::empty());
    } else {
        let m = (n - 1) as nat;
        lemma_column_ink(t, chunk, width, align, m);
        assert(col.drop_last() =~= Seq::new(
            m,
            |k: int| padded(t, chunk_at(chunk, k), width, align),
        ));
        lemma_padded_ink(t, chunk_at(chunk, m as int), width, align);
        if n <= chunk.len() {
            assert(chunk.take(n as int).drop_last() =~= chunk.take(m as int));
        } else {
            assert(chunk.take(chunk.len() as int) =~= chunk);
            assert(ink_of_lines(col) =~= ink_of_lines(col.drop_last()));
        }
    }
}

/// A row of a table shows every cell of it, in the cell's own column: nothing of
/// a text is lost, doubled or moved to another column, however often the cell is
/// broken.
#[verifier::spinoff_prover]
pub proof fn lemma_row_shows_cells(
    t: WidthTable,
    cells: Seq<Seq<char>>,
    ws: Seq<usize>,
    aligns: Seq<Align>,
)
    requires
        cells.len() > 0,
    ensures
        exists|parts: Seq<Seq<Seq<char>>>|
            #[trigger] row_shows(t, table_row(t, cells, ws, aligns), parts, cells, ws, aligns),
        table_row(t, cells, ws, aligns).len() > 0,
{
    let chunks = row_chunks(t, cells, ws);
    let ls = table_row(t, cells, ws, aligns);
    let parts = Seq::new(ls.len(), |k: int| line_parts(t, chunks, ws, aligns, k));
    assert forall|k: int| 0 <= k < ls.len() implies (#[trigger] parts[k]).len() == cells.len()
        && ls[k] == framed(parts[k]) by {
        lemma_row_framed(t, chunks, ws, aligns, k, chunks.len());
        assert(parts[k].take(chunks.len() as int) =~= parts[k]);
    }
    lemma_tallest(chunks, 0);
    lemma_wrap_not_empty(t, cells[0], width_at(ws, 0));
    assert(ls.len() >= 1);
    assert forall|c: int| 0 <= c < cells.len() implies ink_of_lines(#[trigger] column(parts, c))
        == ink(cells[c]) by {
        let w = width_at(ws, c);
        let a = align_at(aligns, c);
        lemma_tallest(chunks, c);
        lemma_column_ink(t, chunks[c], w, a, ls.len());
        assert(column(parts, c) =~= Seq::new(
            ls.len(),
            |k: int| padded(t, chunk_at(chunks[c], k), w, a),
        ));
        assert(chunks[c].take(chunks[c].len() as int) =~= chunks[c]);
        lemma_wrap_keeps_ink(t, cells[c], w);
        assert(seq![cells[c]] =~= Seq::<Seq<char>>::empty().push(cells[c]));
        lemma_ink_lines_push(Seq::empty(), cells[c]);
        assert(ink_of_lines(seq![cells[c]]) =~= ink(cells[c]));
    }
    assert forall|c: int|
        0 <= c < cells.len() && text_width(t, #[trigger] cells[c]) <= width_at(
            ws,
            c,
        ) implies placed(t, parts[0][c], cells[c], width_at(ws, c), align_at(aligns, c)) by {
        assert(chunks[c] == seq![cells[c]]);
        lemma_placed(t, cells[c], width_at(ws, c), align_at(aligns, c));
    }
    assert(row_shows(t, ls, parts, cells, ws, aligns));
}

/// The texts of the lines in `color`, in order.
pub open spec fn in_color(ls: Seq<LineView>, color: Color) -> Seq<Seq<char>>
    decreases ls.len(),
{
    if ls.len() == 0 {
        Seq::empty()
    } else if ls.last().color == color {
        in_color(ls.drop_last(), color).push(ls.last().text)
    } else {
        in_color(ls.drop_last(), color)
    }
}

/// The lines of the first `n` rows, one row behind the other.
pub open spec fn rows_to(
    t: WidthTable,
    rows: Seq<Seq<Seq<char>>>,
    ws: Seq<usize>,
    aligns: Seq<Align>,
    n: nat,
) -> Seq<Seq<char>>
    decreases n,
{
    if n == 0 {
        Seq::empty()
    } else {
        rows_to(t, rows, ws, aligns, (n - 1) as nat) + table_row(t, rows[n - 1], ws, aligns)
    }
}

proof fn lemma_in_color_push(ls: Seq<LineView>, l: LineView, color: Color)
    ensures
        in_color(ls.push(l), color) == if l.color == color {
            in_color(ls, color).push(l.text)
        } else {
            in_color(ls, color)
        },
{
    assert(ls.push(l).drop_last() =~= ls);
}

proof fn lemma_in_color_concat(ls: Seq<LineView>, more: Seq<Seq<char>>, color: Color)
    ensures
        in_color(ls + colored(more, color), color) == in_color(ls, color) + more,
    decreases more.len(),
{
    if more.len() == 0 {
        assert(ls + colored(more, color) =~= ls);
        assert(in_color(ls, color) + more =~= in_color(ls, color));
    } else {
        let init = more.drop_last();
        lemma_in_color_concat(ls, init, color);
        assert(ls + colored(more, color) =~= (ls + colored(init, color)).push(
            line(more.last(), color),
        ));
        lemma_in_color_push(ls + colored(init, color), line(more.last(), color), color);
        assert(in_color(ls, color) + more =~= (in_color(ls, color) + init).push(more.last()));
    }
}

proof fn lemma_body_rows(
    t: WidthTable,
    top: LineView,
    rows: Seq<Seq<Seq<char>>>,
    ws: Seq<usize>,
    aligns: Seq<Align>,
    n: nat,
)
    requires
        n <= rows.len(),
        top.color != Color::White,
    ensures
        in_color(seq![top] + table_body(t, rows, ws, aligns, n), Color::White) == rows_to(
            t,
            rows,
            ws,
            aligns,
            n,
        ),
    decreases n,
{
    let body = table_body(t, rows, ws, aligns, n);
    if n == 0 {
        assert(seq![top] + body =~= Seq::<LineView>::empty().push(top));
        lemma_in_color_push(Seq::empty(), top, Color::White);
    } else {
        let before = table_body(t, rows, ws, aligns, (n - 1) as nat);
        let row = table_row(t, rows[n - 1], ws, aligns);
        lemma_body_rows(t, top, rows, ws, aligns, (n - 1) as nat);
        lemma_in_color_concat(seq![top] + before, row, Color::White);
        let with_row = seq![top] + (before + colored(row, Color::White));
        assert(with_row =~= seq![top] + before + colored(row, Color::White));
        if n == 1 && rows.len() > 1 {
            let rule = line(table_rule(ws, '\u{251c}', '\u{253c}', '\u{2524}'), Color::DarkGrey);
            assert(seq![top] + body =~= with_row.push(rule));
            lemma_in_color_push(with_row, rule, Color::White);
        } else {
            assert(seq![top] + body =~= with_row);
        }
    }
}

/// A table that can be drawn shows every row, in the order of the rows: its white
/// lines are those of the rows and nothing else, and the grey ones are rules.
pub proof fn lemma_table_shows_rows(
    t: WidthTable,
    rows: Seq<Seq<Seq<char>>>,
    aligns: Seq<Align>,
    max: nat,
)
    requires
        drawable(rows, max),
    ensures
        in_color(table_lines(t, rows, aligns, max), Color::White) == rows_to(
            t,
            rows,
            column_widths(t, rows, max),
            aligns,
            rows.len(),
        ),
        table_lines(t, rows, aligns, max)[0].color == Color::DarkGrey,
        table_lines(t, rows, aligns, max).last().color == Color::DarkGrey,
{
    let ws = column_widths(t, rows, max);
    let top = line(table_rule(ws, '\u{250c}', '\u{252c}', '\u{2510}'), Color::DarkGrey);
    let bottom = line(table_rule(ws, '\u{2514}', '\u{2534}', '\u{2518}'), Color::DarkGrey);
    lemma_body_rows(t, top, rows, ws, aligns, rows.len());
    lemma_in_color_push(
        seq![top] + table_body(t, rows, ws, aligns, rows.len()),
        bottom,
        Color::White,
    );
}

proof fn lemma_row_in_body(
    t: WidthTable,
    rows: Seq<Seq<Seq<char>>>,
    ws: Seq<usize>,
    aligns: Seq<Align>,
    r: int,
    n: nat,
)
    requires
        0 <= r < n <= rows.len(),
    ensures
        ({
            let body = table_body(t, rows, ws, aligns, n);
            let from = table_body(t, rows, ws, aligns, r as nat).len() as int;
            let row = table_row(t, rows[r], ws, aligns);
            &&& from + row.len() <= body.len()
            &&& body.subrange(from, from + row.len()) == colored(row, Color::White)
        }),
    decreases n,
{
    let body = table_body(t, rows, ws, aligns, n);
    let from = table_body(t, rows, ws, aligns, r as nat).len() as int;
    let row = table_row(t, rows[r], ws, aligns);
    if r < n - 1 {
        let before = table_body(t, rows, ws, aligns, (n - 1) as nat);
        lemma_row_in_body(t, rows, ws, aligns, r, (n - 1) as nat);
        assert(body.subrange(from, from + row.len()) =~= before.subrange(from, from + row.len()));
    } else {
        assert(body.subrange(from, from + row.len()) =~= colored(row, Color::White));
    }
}

/// Every row of a table that can be drawn stands in it, as white lines one below
/// the other that show its cells.
pub proof fn lemma_table_shows_row(
    t: WidthTable,
    rows: Seq<Seq<Seq<char>>>,
    aligns: Seq<Align>,
    max: nat,
    r: int,
) -> (shown: (int, Seq<Seq<char>>, Seq<Seq<Seq<char>>>))
    requires
        drawable(rows, max),
        0 <= r < rows.len(),
        rows[r].len() > 0,
    ensures
        ({
            let ls = table_lines(t, rows, aligns, max);
            let (from, drawn, parts) = shown;
            &&& 0 < from && from + drawn.len() < ls.len()
            &&& ls.subrange(from, from + drawn.len()) == colored(drawn, Color::White)
            &&& row_shows(t, drawn, parts, rows[r], column_widths(t, rows, max), aligns)
        }),
{
    let ws = column_widths(t, rows, max);
    let ls = table_lines(t, rows, aligns, max);
    let body = table_body(t, rows, ws, aligns, rows.len());
    let drawn = table_row(t, rows[r], ws, aligns);
    lemma_row_in_body(t, rows, ws, aligns, r, rows.len());
    lemma_row_shows_cells(t, rows[r], ws, aligns);
    let parts = choose|parts: Seq<Seq<Seq<char>>>|
        #[trigger] row_shows(t, drawn, parts, rows[r], ws, aligns);
    let from = 1 + table_body(t, rows, ws, aligns, r as nat).len() as int;
    assert(ls.subrange(from, from + drawn.len()) =~= body.subrange(
        from - 1,
        from - 1 + drawn.len(),
    ));
    (from, drawn, parts)
}

proof fn lemma_rule_chars(ws: Seq<usize>, left: char, mid: char, n: nat)
    requires
        n <= ws.len(),
    ensures
        rule_to(ws, left, mid, n).len() > 0,
        rule_to(ws, left, mid, n)[0] == left,
        forall|i: int|
            0 < i < rule_to(ws, left, mid, n).len() ==> (#[trigger] rule_to(ws, left, mid, n)[i])
                == '\u{2500}' || rule_to(ws, left, mid, n)[i] == mid,
    decreases n,
{
    if n > 0 {
        lemma_rule_chars(ws, left, mid, (n - 1) as nat);
    }
}

/// A table is framed: a rule with two upper corners above it, one with two lower
/// corners below it, and one between the first row and the others, where there are
/// others. A rule is a line of its own from border to border.
pub proof fn lemma_table_framed(
    t: WidthTable,
    rows: Seq<Seq<Seq<char>>>,
    aligns: Seq<Align>,
    max: nat,
)
    requires
        drawable(rows, max),
    ensures
        ({
            let ls = table_lines(t, rows, aligns, max);
            let head = table_row(t, rows[0], column_widths(t, rows, max), aligns).len() as int;
            &&& is_rule(ls[0], '\u{250c}', '\u{252c}', '\u{2510}')
            &&& is_rule(ls.last(), '\u{2514}', '\u{2534}', '\u{2518}')
            &&& rows.len() > 1 ==> head + 1 < ls.len() && is_rule(
                ls[head + 1],
                '\u{251c}',
                '\u{253c}',
                '\u{2524}',
            )
        }),
{
    let ws = column_widths(t, rows, max);
    let ls = table_lines(t, rows, aligns, max);
    lemma_rule_chars(ws, '\u{250c}', '\u{252c}', ws.len());
    lemma_rule_chars(ws, '\u{2514}', '\u{2534}', ws.len());
    lemma_rule_chars(ws, '\u{251c}', '\u{253c}', ws.len());
    if rows.len() > 1 {
        let head = table_row(t, rows[0], ws, aligns).len() as int;
        let body = table_body(t, rows, ws, aligns, rows.len());
        lemma_body_starts(t, rows, ws, aligns, rows.len());
        assert(table_body(t, rows, ws, aligns, 0) =~= Seq::<LineView>::empty());
        assert(table_body(t, rows, ws, aligns, 1).len() == head + 1);
        assert(body.take(head + 1)[head] == body[head]);
        assert(ls[head + 1] == body[head]);
    }
}

/// Whether a line is a rule of box characters between two ends.
pub open spec fn is_rule(l: LineView, left: char, mid: char, right: char) -> bool {
    &&& l.color == Color::DarkGrey
    &&& l.text.len() >= 2
    &&& l.text[0] == left
    &&& l.text.last() == right
    &&& forall|i: int|
        0 < i < l.text.len() - 1 ==> (#[trigger] l.text[i]) == '\u{2500}' || l.text[i] == mid
}

proof fn lemma_body_starts(
    t: WidthTable,
    rows: Seq<Seq<Seq<char>>>,
    ws: Seq<usize>,
    aligns: Seq<Align>,
    n: nat,
)
    requires
        1 <= n <= rows.len(),
    ensures
        ({
            let first = table_body(t, rows, ws, aligns, 1);
            let body = table_body(t, rows, ws, aligns, n);
            first.len() <= body.len() && body.take(first.len() as int) == first
        }),
    decreases n,
{
    let first = table_body(t, rows, ws, aligns, 1);
    let body = table_body(t, rows, ws, aligns, n);
    if n == 1 {
        assert(body.take(first.len() as int) =~= first);
    } else {
        lemma_body_starts(t, rows, ws, aligns, (n - 1) as nat);
        let before = table_body(t, rows, ws, aligns, (n - 1) as nat);
        assert(body.take(first.len() as int) =~= before.take(first.len() as int));
    }
}

/// Where a table is given room for its widest cells, every column is exactly as
/// wide as the widest cell in it: no cell is broken, and no column is wider than
/// it has to be.
pub proof fn lemma_columns_fit_cells(
    t: WidthTable,
    rows: Seq<Seq<Seq<char>>>,
    max: nat,
    c: int,
)
    requires
        0 <= c < column_count(rows),
        sum_to(natural_widths(t, rows), column_count(rows)) <= cell_room(max, column_count(rows)),
        forall|r: int, i: int|
            0 <= r < rows.len() && 0 <= i < rows[r].len() ==> text_width(
                t,
                #[trigger] rows[r][i],
            ) <= usize::MAX,
    ensures
        forall|r: int|
            0 <= r < rows.len() && c < (#[trigger] rows[r]).len() ==> text_width(t, rows[r][c])
                <= column_widths(t, rows, max)[c],
        column_widths(t, rows, max)[c] > 0 ==> exists|r: int|
            0 <= r < rows.len() && c < (#[trigger] rows[r]).len() && text_width(t, rows[r][c])
                == column_widths(t, rows, max)[c],
{
    lemma_natural_width_fits(t, rows, c);
    assert forall|r: int| 0 <= r < rows.len() && c < (#[trigger] rows[r]).len() implies text_width(
        t,
        rows[r][c],
    ) <= column_widths(t, rows, max)[c] by {
        lemma_natural_width_covers(t, rows, r, c);
    }
    lemma_natural_width_reached(t, rows, c);
    if column_widths(t, rows, max)[c] > 0 {
        let r = choose|r: int|
            0 <= r < rows.len() && c < (#[trigger] rows[r]).len() && cell_width(t, rows[r][c])
                == natural_width(t, rows, c);
        assert(text_width(t, rows[r][c]) <= usize::MAX);
    }
}

proof fn lemma_sum_cut(ws: Seq<usize>, nat_ws: Seq<usize>, cut: nat, n: nat)
    requires
        n <= ws.len() == nat_ws.len(),
        forall|c: int| 0 <= c < ws.len() ==> #[trigger] ws[c] == nat_ws[c] - cut,
    ensures
        sum_to(ws, n) + cut * n == sum_to(nat_ws, n),
    decreases n,
{
    if n > 0 {
        lemma_sum_cut(ws, nat_ws, cut, (n - 1) as nat);
        assert(ws[n - 1] == nat_ws[n - 1] - cut);
        assert(cut * n == cut * (n - 1) + cut) by (nonlinear_arith)
            requires
                n > 0,
        ;
    } else {
        assert(cut * 0 == 0) by (nonlinear_arith);
    }
}

proof fn lemma_div_up(a: nat, b: nat)
    requires
        b > 0,
    ensures
        a <= div_up(a, b) * b < a + b,
{
    let q = (a + b - 1) / b as int;
    assert(q >= 0) by (nonlinear_arith)
        requires
            q == (a + b - 1) / b as int,
            b > 0,
            a >= 0,
    ;
    assert(a <= q * b < a + b) by (nonlinear_arith)
        requires
            q == (a + b - 1) / b as int,
            b > 0,
    ;
}

/// A table that is too wide is cut: no column grows, none is cut below four columns,
/// and all are cut alike. Where every column has so much to give, the cells then fit
/// into the room that there is, and not a column more is taken than an equal share
/// of the excess.
pub proof fn lemma_columns_cut(t: WidthTable, rows: Seq<Seq<Seq<char>>>, max: nat)
    requires
        column_count(rows) > 0,
        sum_to(natural_widths(t, rows), column_count(rows)) > cell_room(max, column_count(rows)),
    ensures
        ({
            let cols = column_count(rows);
            let room = cell_room(max, cols);
            let natural = natural_widths(t, rows);
            let ws = column_widths(t, rows, max);
            let cut = div_up((sum_to(natural, cols) - room) as nat, cols);
            &&& ws.len() == cols
            &&& forall|c: int|
                0 <= c < cols ==> (#[trigger] ws[c]) <= natural[c] && (ws[c] >= 4 || ws[c]
                    == natural[c])
            &&& (forall|c: int| 0 <= c < cols ==> (#[trigger] natural[c]) >= cut + 4) ==> sum_to(
                ws,
                cols,
            ) <= room && room < sum_to(ws, cols) + cols && (forall|c: int|
                0 <= c < cols ==> #[trigger] ws[c] == natural[c] - cut)
        }),
{
    let cols = column_count(rows);
    let room = cell_room(max, cols);
    let natural = natural_widths(t, rows);
    let ws = column_widths(t, rows, max);
    let excess = (sum_to(natural, cols) - room) as nat;
    let cut = div_up(excess, cols);
    lemma_div_up(excess, cols);
    if forall|c: int| 0 <= c < cols ==> (#[trigger] natural[c]) >= cut + 4 {
        assert forall|c: int| 0 <= c < cols implies #[trigger] ws[c] == natural[c] - cut by {
            assert(natural[c] >= cut + 4);
        }
        lemma_sum_cut(ws, natural, cut, cols);
    }
}

proof fn lemma_natural_width_reached(t: WidthTable, rows: Seq<Seq<Seq<char>>>, c: int)
    requires
        0 <= c,
    ensures
        natural_width(t, rows, c) > 0 ==> exists|r: int|
            0 <= r < rows.len() && c < (#[trigger] rows[r]).len() && cell_width(t, rows[r][c])
                == natural_width(t, rows, c),
    decreases rows.len(),
{
    if rows.len() > 0 && natural_width(t, rows, c) > 0 {
        let init = rows.drop_last();
        lemma_natural_width_reached(t, init, c);
        let last = rows.len() - 1;
        if c < rows[last].len() && cell_width(t, rows[last][c]) == natural_width(t, rows, c) {
        } else {
            let r = choose|r: int|
                0 <= r < init.len() && c < (#[trigger] init[r]).len() && cell_width(
                    t,
                    init[r][c],
                ) == natural_width(t, init, c);
            assert(rows[r] == init[r]);
        }
    }
}

// ---------------------------------------------------------------------------
// Implementation
// ---------------------------------------------------------------------------

/// A horizontal rule over columns of the given widths.
pub fn format_table_rule(widths: &[usize], left: char, mid: char, right: char) -> (r: String)
    ensures
        r@ == table_rule(widths@, left, mid, right),
{
    let mut s = String::new();
    s.push(left);
    assert(s@ =~= seq![left]);
    let n: usize = widths.len();
    for i in 0..n
        invariant
            n == widths@.len(),
            s@ == rule_to(widths@, left, mid, i as nat),
    {
        let ghost before = s@;
        push_repeat(&mut s, '\u{2500}', widths[i]);
        s.push('\u{2500}');
        s.push('\u{2500}');
        assert(s@ =~= before + repeat('\u{2500}', (widths@[i as int] + 2) as nat));
        if i + 1 < n {
            s.push(mid);
        }
    }
    s.push(right);
    s
}

/// Appends one line of a table.
pub fn push_table_line(text: &str, color: Color, out: &mut Vec<LineEntry>)
    ensures
        line_views(final(out)@) == line_views(old(out)@).push(line(text@, color)),
{
    push_line(out, LineEntry::new(text, color));
}

/// Appends `text`, filled up with spaces to `width` columns.
fn push_padded(s: &mut String, text: &str, width: usize, align: Align, widths: &CharWidths)
    ensures
        final(s)@ == old(s)@ + padded(widths@, text@, width as nat, align),
{
    let w = widths.columns(&chars_of(text));
    let pad: usize = if w <= width as u128 {
        width - w as usize
    } else {
        0
    };
    match align {
        Align::Center => {
            let left: usize = pad / 2;
            push_repeat(s, ' ', left);
            s.push_str(text);
            push_repeat(s, ' ', pad - left);
        },
        Align::Right => {
            push_repeat(s, ' ', pad);
            s.push_str(text);
        },
        Align::Unset | Align::Left => {
            s.push_str(text);
            push_repeat(s, ' ', pad);
        },
    }
    assert(s@ =~= old(s)@ + padded(widths@, text@, width as nat, align));
}

/// A cell broken into lines of the given width.
fn wrap_cell(cell: &str, width: usize, widths: &CharWidths) -> (r: Vec<String>)
    ensures
        string_seqs(r@) == cell_lines(widths@, cell@, width as nat),
{
    let mut r: Vec<String> = Vec::new();
    if widths.columns(&chars_of(cell)) <= width as u128 {
        let mut s = String::new();
        s.push_str(cell);
        assert(s@ =~= cell@);
        r.push(s);
        assert(string_seqs(r@) =~= seq![cell@]);
        return r;
    }
    let lines = word_wrap(cell, width, widths);
    let ghost ls = wrapped(lines);
    let n: usize = lines.len();
    assert(string_seqs(r@) =~= ls.take(0));
    for i in 0..n
        invariant
            ls == wrapped(lines),
            n == ls.len(),
            string_seqs(r@) == ls.take(i as int),
    {
        let mut s = String::new();
        s.push_str(lines.line(i));
        assert(s@ =~= ls[i as int]);
        let ghost before = string_seqs(r@);
        r.push(s);
        assert(string_seqs(r@) =~= before.push(s@));
        assert(ls.take(i as int).push(ls[i as int]) =~= ls.take(i + 1));
    }
    assert(ls.take(n as int) =~= ls);
    r
}

/// The width of column `i`: ten where none is given.
fn width_of(widths: &[usize], i: usize) -> (r: usize)
    ensures
        r == width_at(widths@, i as int),
{
    if i < widths.len() {
        widths[i]
    } else {
        10
    }
}

/// The lines of one row of a table.
pub fn format_table_row(
    cells: &[String],
    widths: &[usize],
    alignments: &[Align],
    char_widths: &CharWidths,
) -> (r: Vec<String>)
    ensures
        string_seqs(r@) == table_row(char_widths@, string_seqs(cells@), widths@, alignments@),
{
    let ghost t = char_widths@;
    let ghost chunks = row_chunks(t, string_seqs(cells@), widths@);
    let mut cell_wrapped: Vec<Vec<String>> = Vec::new();
    let mut max_subrows: usize = 0;
    let n: usize = cells.len();
    assert(row_views(cell_wrapped@) =~= chunks.take(0));
    for i in 0..n
        invariant
            n == cells@.len(),
            t == char_widths@,
            chunks == row_chunks(t, string_seqs(cells@), widths@),
            row_views(cell_wrapped@) == chunks.take(i as int),
            max_subrows == tallest(chunks.take(i as int)),
    {
        let piece = wrap_cell(cells[i].as_str(), width_of(widths, i), char_widths);
        assert(string_seqs(cells@)[i as int] == cells@[i as int]@);
        assert(string_seqs(piece@) == chunks[i as int]);
        assert(piece@.len() == chunks[i as int].len());
        assert(chunks.take(i + 1).drop_last() =~= chunks.take(i as int));
        if piece.len() > max_subrows {
            max_subrows = piece.len();
        }
        let ghost before = row_views(cell_wrapped@);
        cell_wrapped.push(piece);
        assert(row_views(cell_wrapped@) =~= before.push(string_seqs(piece@)));
        assert(chunks.take(i as int).push(chunks[i as int]) =~= chunks.take(i + 1));
    }
    assert(chunks.take(n as int) =~= chunks);
    let ghost whole = table_row(t, string_seqs(cells@), widths@, alignments@);
    let mut lines: Vec<String> = Vec::new();
    assert(string_seqs(lines@) =~= whole.take(0));
    assert(cell_wrapped@.len() == n);
    for k in 0..max_subrows
        invariant
            t == char_widths@,
            cell_wrapped@.len() == n == cells@.len(),
            chunks == row_chunks(t, string_seqs(cells@), widths@),
            row_views(cell_wrapped@) == chunks,
            max_subrows == tallest(chunks),
            whole == table_row(t, string_seqs(cells@), widths@, alignments@),
            string_seqs(lines@) == whole.take(k as int),
    {
        let mut text = String::new();
        text.push('\u{2502}');
        assert(text@ =~= seq!['\u{2502}']);
        for i in 0..n
            invariant
                t == char_widths@,
                cell_wrapped@.len() == n == chunks.len(),
                row_views(cell_wrapped@) == chunks,
                text@ == row_to(t, chunks, widths@, alignments@, k as int, i as nat),
        {
            assert(chunks[i as int] == string_seqs(cell_wrapped@[i as int]@));
            let cw = &cell_wrapped[i];
            let piece: &str = if k < cw.len() {
                assert(string_seqs(cw@)[k as int] == cw@[k as int]@);
                cw[k].as_str()
            } else {
                proof {
                    reveal_strlit("");
                }
                ""
            };
            assert(piece@ =~= chunk_at(chunks[i as int], k as int));
            let align: Align = if i < alignments.len() {
                alignments[i]
            } else {
                Align::Unset
            };
            text.push(' ');
            push_padded(&mut text, piece, width_of(widths, i), align, char_widths);
            text.push(' ');
            if i + 1 < n {
                text.push('\u{2502}');
            }
        }
        text.push('\u{2502}');
        let ghost before = string_seqs(lines@);
        lines.push(text);
        assert(string_seqs(lines@) =~= before.push(text@));
        assert(whole.take(k as int).push(whole[k as int]) =~= whole.take(k + 1));
    }
    assert(whole.take(max_subrows as int) =~= whole);
    lines
}

proof fn lemma_natural_width_fits(t: WidthTable, rows: Seq<Seq<Seq<char>>>, c: int)
    ensures
        natural_width(t, rows, c) <= usize::MAX,
    decreases rows.len(),
{
    if rows.len() > 0 {
        lemma_natural_width_fits(t, rows.drop_last(), c);
    }
}

proof fn lemma_column_count(rows: Seq<Seq<Seq<char>>>, i: int)
    requires
        0 <= i < rows.len(),
    ensures
        rows[i].len() <= column_count(rows),
    decreases rows.len(),
{
    if i < rows.len() - 1 {
        lemma_column_count(rows.drop_last(), i);
        assert(rows.drop_last()[i] == rows[i]);
    }
}

/// The number of cells of the longest row.
fn count_columns(rows: &[Vec<String>]) -> (r: usize)
    ensures
        r == column_count(row_views(rows@)),
{
    let ghost views = row_views(rows@);
    let mut most: usize = 0;
    let n: usize = rows.len();
    assert(views.take(0) =~= Seq::<Seq<Seq<char>>>::empty());
    for i in 0..n
        invariant
            n == rows@.len(),
            views == row_views(rows@),
            most == column_count(views.take(i as int)),
    {
        assert(views.take(i + 1).drop_last() =~= views.take(i as int));
        assert(views[i as int] == string_seqs(rows@[i as int]@));
        if rows[i].len() > most {
            most = rows[i].len();
        }
    }
    assert(views.take(n as int) =~= views);
    most
}

/// The widths of the widest cells of every column.
fn measure_columns(rows: &[Vec<String>], cols: usize, widths: &CharWidths) -> (r: Vec<usize>)
    requires
        cols == column_count(row_views(rows@)),
    ensures
        r@ == natural_widths(widths@, row_views(rows@)),
{
    let ghost t = widths@;
    let ghost views = row_views(rows@);
    let mut r: Vec<usize> = Vec::new();
    for c in 0..cols
        invariant
            r@.len() == c,
            forall|j: int| 0 <= j < c ==> r@[j] == 0,
    {
        r.push(0);
    }
    let n: usize = rows.len();
    assert(views.take(0) =~= Seq::<Seq<Seq<char>>>::empty());
    for i in 0..n
        invariant
            n == rows@.len(),
            t == widths@,
            views == row_views(rows@),
            cols == column_count(views),
            r@.len() == cols,
            forall|c: int| 0 <= c < cols ==> (#[trigger] r@[c]) == natural_width(
                t,
                views.take(i as int),
                c,
            ),
    {
        let row = &rows[i];
        assert(views.take(i + 1).drop_last() =~= views.take(i as int));
        assert(views[i as int] == string_seqs(row@));
        proof {
            lemma_column_count(views, i as int);
        }
        let m: usize = row.len();
        for j in 0..m
            invariant
                m == row@.len() <= cols,
                i < n == rows@.len(),
                *row == rows@[i as int],
                t == widths@,
                views == row_views(rows@),
                views[i as int] == string_seqs(row@),
                views.take(i + 1).drop_last() == views.take(i as int),
                r@.len() == cols,
                forall|c: int| 0 <= c < j ==> (#[trigger] r@[c]) == natural_width(
                    t,
                    views.take(i + 1),
                    c,
                ),
                forall|c: int| j <= c < cols ==> (#[trigger] r@[c]) == natural_width(
                    t,
                    views.take(i as int),
                    c,
                ),
        {
            let w: usize = widths.display_width(row[j].as_str());
            assert(string_seqs(row@)[j as int] == row@[j as int]@);
            assert(w == cell_width(t, views.take(i + 1).last()[j as int]));
            assert(r@[j as int] == natural_width(t, views.take(i as int), j as int));
            if w > r[j] {
                r.set(j, w);
            }
            assert(r@[j as int] == natural_width(t, views.take(i + 1), j as int));
        }
        assert forall|c: int| 0 <= c < cols implies (#[trigger] r@[c]) == natural_width(
            t,
            views.take(i + 1),
            c,
        ) by {
            if c >= m {
                assert(r@[c] == natural_width(t, views.take(i as int), c));
            }
        }
    }
    assert(views.take(n as int) =~= views);
    assert forall|c: int| 0 <= c < cols implies r@[c] == natural_widths(t, views)[c] by {
        lemma_natural_width_fits(t, views, c);
        assert(r@[c] == natural_width(t, views, c));
    }
    assert(r@ =~= natural_widths(t, views));
    r
}

/// The sum of all widths.
fn sum_widths(ws: &Vec<usize>) -> (r: u128)
    ensures
        r == sum_to(ws@, ws@.len()),
        r <= ws@.len() * usize::MAX,
{
    let mut sum: u128 = 0;
    let n: usize = ws.len();
    for i in 0..n
        invariant
            n == ws@.len(),
            sum == sum_to(ws@, i as nat),
            sum <= i * usize::MAX,
    {
        assert(i * usize::MAX + usize::MAX == (i + 1) * usize::MAX) by (nonlinear_arith);
        assert((i + 1) * usize::MAX <= usize::MAX * usize::MAX) by (nonlinear_arith)
            requires
                i + 1 <= usize::MAX,
        ;
        assert(usize::MAX * usize::MAX <= u128::MAX) by (nonlinear_arith)
            requires
                usize::MAX <= 0xffff_ffff_ffff_ffff,
        ;
        sum = sum + ws[i] as u128;
    }
    sum
}

/// Appends a table drawn within `max_width` columns.
pub fn flush_table(
    rows: &[Vec<String>],
    alignments: &[Align],
    max_width: usize,
    char_widths: &CharWidths,
    out: &mut Vec<LineEntry>,
)
    ensures
        line_views(final(out)@) == line_views(old(out)@) + table_lines(
            char_widths@,
            row_views(rows@),
            alignments@,
            max_width as nat,
        ),
{
    let ghost t = char_widths@;
    let ghost views = row_views(rows@);
    let cols = count_columns(rows);
    let frame: u128 = (cols as u128 + 1) * 2;
    let room: u128 = if frame <= max_width as u128 {
        max_width as u128 - frame
    } else {
        0
    };
    if cols == 0 || room <= cols as u128 {
        assert(line_views(out@) + Seq::<LineView>::empty() =~= line_views(out@));
        return;
    }
    let mut ws = measure_columns(rows, cols, char_widths);
    let ghost natural = ws@;
    let total = sum_widths(&ws);
    if total > room {
        let over: u128 = total - room;
        proof {
            assert(cols * usize::MAX + cols <= u128::MAX) by (nonlinear_arith)
                requires
                    cols <= usize::MAX <= 0xffff_ffff_ffff_ffff,
            ;
        }
        let cut: u128 = (over + (cols as u128 - 1)) / cols as u128;
        assert(cut == div_up(over as nat, cols as nat));
        for c in 0..cols
            invariant
                ws@.len() == cols == natural.len(),
                forall|j: int|
                    0 <= j < c ==> (#[trigger] ws@[j]) == narrowed(natural[j] as nat, cut as nat),
                forall|j: int| c <= j < cols ==> (#[trigger] ws@[j]) == natural[j],
        {
            let w: usize = ws[c];
            let spare: usize = if w >= 4 {
                w - 4
            } else {
                0
            };
            let reduce: usize = if cut <= spare as u128 {
                cut as usize
            } else {
                spare
            };
            ws.set(c, w - reduce);
        }
        assert(ws@ =~= column_widths(t, views, max_width as nat));
    }
    assert(ws@ == column_widths(t, views, max_width as nat));
    let top = format_table_rule(ws.as_slice(), '\u{250c}', '\u{252c}', '\u{2510}');
    let sep = format_table_rule(ws.as_slice(), '\u{251c}', '\u{253c}', '\u{2524}');
    let bottom = format_table_rule(ws.as_slice(), '\u{2514}', '\u{2534}', '\u{2518}');
    let ghost start = line_views(out@);
    push_table_line(top.as_str(), Color::DarkGrey, out);
    let ghost opened = line_views(out@);
    let n: usize = rows.len();
    assert(opened + table_body(t, views, ws@, alignments@, 0) =~= opened);
    for i in 0..n
        invariant
            n == rows@.len(),
            t == char_widths@,
            views == row_views(rows@),
            sep@ == table_rule(ws@, '\u{251c}', '\u{253c}', '\u{2524}'),
            line_views(out@) == opened + table_body(t, views, ws@, alignments@, i as nat),
    {
        let ghost body = table_body(t, views, ws@, alignments@, i as nat);
        assert(views[i as int] == string_seqs(rows@[i as int]@));
        let texts = format_table_row(rows[i].as_slice(), ws.as_slice(), alignments, char_widths);
        let ghost ts = string_seqs(texts@);
        let m: usize = texts.len();
        assert(opened + body + colored(ts.take(0), Color::White) =~= opened + body);
        for k in 0..m
            invariant
                m == texts@.len(),
                ts == string_seqs(texts@),
                line_views(out@) == opened + body + colored(ts.take(k as int), Color::White),
        {
            assert(ts[k as int] == texts@[k as int]@);
            push_table_line(texts[k].as_str(), Color::White, out);
            assert((opened + body + colored(ts.take(k as int), Color::White)).push(
                line(ts[k as int], Color::White),
            ) =~= opened + body + colored(ts.take(k + 1), Color::White));
        }
        assert(ts.take(m as int) =~= ts);
        assert(opened + body + colored(ts, Color::White) =~= opened + (body + colored(
            ts,
            Color::White,
        )));
        if i == 0 && n > 1 {
            push_table_line(sep.as_str(), Color::DarkGrey, out);
            assert(line_views(out@) =~= opened + table_body(
                t,
                views,
                ws@,
                alignments@,
                (i + 1) as nat,
            ));
        }
    }
    push_table_line(bottom.as_str(), Color::DarkGrey, out);
    assert(line_views(out@) =~= start + table_lines(t, views, alignments@, max_width as nat));
}

} // verus!
