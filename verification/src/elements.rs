//! What the elements of a Markdown text look like once they are laid out.

use vstd::prelude::*;

use crate::color::Color;
use crate::line::{colored, line, LineView};
use crate::markdown::{
    acc_lines, blank_to, item_mark, item_to, lemma_acc_ink, lemma_lines_ink_concat,
    lemma_split_ink, lemma_trim_cr_ink, lemma_wrapped_ink, lines_ink, md_run, md_step,
    piece_lines, pieces_to, prose_color, quote_line, quote_to, styled, texts, MdState,
};
use crate::markup::{EventView, MdTagEnd, TagView};
use crate::text::{
    decimal, lemma_join_split, lemma_trim_end_char, split, trim_end_char,
};
use crate::verbatim::{
    flat, lemma_run_push, lemma_styled_extends, lemma_texts_collected, text_events,
};
use crate::width::{text_width, WidthTable};
use crate::wrap::{
    ink, ink_of_lines, lemma_ink_concat, lemma_ink_lines_push, lemma_ink_push, wrap_text,
};

verus! {

// ---------------------------------------------------------------------------
// Running text
// ---------------------------------------------------------------------------

/// Whether all lines are in one color.
pub open spec fn all_in(ls: Seq<LineView>, color: Color) -> bool {
    forall|i: int| 0 <= i < ls.len() ==> (#[trigger] ls[i]).color == color
}

/// Whether lines show a text in one color: all that there is to see of it, once
/// and in order. A text whose lines all fit is shown line by line as it is, but
/// for carriage returns at the ends of its lines.
pub open spec fn shows_text(
    t: WidthTable,
    max: nat,
    ls: Seq<LineView>,
    s: Seq<char>,
    color: Color,
) -> bool {
    &&& all_in(ls, color)
    &&& lines_ink(ls) == ink(s)
    &&& s.len() > 0 && (forall|i: int|
        0 <= i < split(s, '\n').len() ==> text_width(
            t,
            trim_end_char(#[trigger] split(s, '\n')[i], '\r'),
        ) <= max) ==> texts(ls) == split(s, '\n').map_values(
        |p: Seq<char>| trim_end_char(p, '\r'),
    )
}

proof fn lemma_pieces_shown(
    t: WidthTable,
    max: nat,
    color: Color,
    pieces: Seq<Seq<char>>,
    n: nat,
)
    requires
        n <= pieces.len(),
    ensures
        all_in(pieces_to(t, max, color, pieces, n), color),
        (forall|i: int|
            0 <= i < pieces.len() ==> text_width(
                t,
                trim_end_char(#[trigger] pieces[i], '\r'),
            ) <= max) ==> texts(pieces_to(t, max, color, pieces, n)) == pieces.take(
            n as int,
        ).map_values(|p: Seq<char>| trim_end_char(p, '\r')),
    decreases n,
{
    let f = |p: Seq<char>| trim_end_char(p, '\r');
    if n == 0 {
        assert(texts(pieces_to(t, max, color, pieces, n)) =~= pieces.take(0).map_values(f));
    } else {
        let m = (n - 1) as nat;
        lemma_pieces_shown(t, max, color, pieces, m);
        let before = pieces_to(t, max, color, pieces, m);
        let all = pieces_to(t, max, color, pieces, n);
        let more = piece_lines(t, max, color, pieces[n - 1]);
        assert forall|i: int| 0 <= i < all.len() implies (#[trigger] all[i]).color == color by {
            if i < before.len() {
                assert(all[i] == before[i]);
            } else {
                assert(all[i] == more[i - before.len()]);
            }
        }
        if forall|i: int|
            0 <= i < pieces.len() ==> text_width(t, trim_end_char(#[trigger] pieces[i], '\r'))
                <= max {
            let text = trim_end_char(pieces[n - 1], '\r');
            assert(text_width(t, text) <= max);
            if text.len() == 0 {
                assert(text =~= Seq::<char>::empty());
            }
            assert(texts(more) =~= seq![text]);
            assert(texts(all) =~= texts(before) + texts(more));
            assert(texts(all) =~= pieces.take(n as int).map_values(f));
        }
    }
}

/// Collected text is shown in its color.
proof fn lemma_acc_shown(t: WidthTable, max: nat, color: Color, s: Seq<char>)
    ensures
        shows_text(t, max, acc_lines(t, max, color, s), s, color),
{
    lemma_acc_ink(t, max, color, s);
    if s.len() > 0 {
        let pieces = split(s, '\n');
        lemma_pieces_shown(t, max, color, pieces, pieces.len());
        assert(pieces.take(pieces.len() as int) =~= pieces);
    }
}

/// What is laid out in `styled` between `a` and `b` lines from its start.
proof fn lemma_between(
    t: WidthTable,
    max: nat,
    block: Seq<EventView>,
    after: Seq<EventView>,
    from: int,
)
    requires
        0 <= from <= md_run(t, max, block).out.len(),
    ensures
        ({
            let done = md_run(t, max, block).out;
            let all = styled(t, max, block + after);
            &&& done.len() <= all.len()
            &&& all.subrange(from, done.len() as int) == done.subrange(from, done.len() as int)
            &&& forall|i: int| 0 <= i < done.len() ==> all[i] == done[i]
        }),
{
    let done = md_run(t, max, block).out;
    let all = styled(t, max, block + after);
    lemma_styled_extends(t, max, block, after);
    assert forall|i: int| 0 <= i < done.len() implies all[i] == done[i] by {
        assert(all.take(done.len() as int)[i] == done[i]);
    }
    assert(all.subrange(from, done.len() as int) =~= done.subrange(from, done.len() as int));
}

/// The events of an element that holds nothing but text.
pub open spec fn element(tag: TagView, pieces: Seq<Seq<char>>, end: MdTagEnd) -> Seq<EventView> {
    (seq![EventView::Start(tag)] + text_events(pieces)).push(EventView::End(end))
}

/// The state where such an element is about to end.
proof fn lemma_element(
    t: WidthTable,
    max: nat,
    before: Seq<EventView>,
    tag: TagView,
    pieces: Seq<Seq<char>>,
    end: MdTagEnd,
) -> (st: MdState)
    requires
        !md_run(t, max, before).in_cell,
        tag is Heading || tag is BlockQuote || tag is Item || tag is Other,
    ensures
        ({
            let open = md_step(t, max, md_run(t, max, before), EventView::Start(tag));
            &&& st == (MdState { acc: open.acc + flat(pieces), ..open })
            &&& md_run(t, max, before + element(tag, pieces, end)) == md_step(
                t,
                max,
                st,
                EventView::End(end),
            )
        }),
{
    let start = before.push(EventView::Start(tag));
    lemma_run_push(t, max, before, EventView::Start(tag));
    lemma_texts_collected(t, max, start, pieces);
    let e = start + text_events(pieces);
    lemma_run_push(t, max, e, EventView::End(end));
    assert(before + element(tag, pieces, end) =~= e.push(EventView::End(end)));
    md_run(t, max, e)
}

/// A heading is shown in cyan, with one empty line below it.
pub proof fn lemma_heading_shown(
    t: WidthTable,
    max: nat,
    before: Seq<EventView>,
    pieces: Seq<Seq<char>>,
    after: Seq<EventView>,
) -> (r: (int, int))
    requires
        !md_run(t, max, before).in_cell,
    ensures
        ({
            let all = styled(
                t,
                max,
                before + element(TagView::Heading, pieces, MdTagEnd::Heading) + after,
            );
            &&& 0 <= r.0 <= r.1 < all.len()
            &&& shows_text(t, max, all.subrange(r.0, r.1), flat(pieces), Color::Cyan)
            &&& all[r.1] == line(Seq::empty(), Color::White)
        }),
{
    let s = flat(pieces);
    let st = lemma_element(t, max, before, TagView::Heading, pieces, MdTagEnd::Heading);
    let block = before + element(TagView::Heading, pieces, MdTagEnd::Heading);
    assert(st.acc =~= s);
    let shown = acc_lines(t, max, Color::Cyan, s);
    lemma_acc_shown(t, max, Color::Cyan, s);
    let done = md_run(t, max, block).out;
    assert(done =~= st.out + shown + seq![line(Seq::empty(), Color::White)]);
    let from = st.out.len() as int;
    lemma_between(t, max, block, after, from);
    let all = styled(t, max, block + after);
    let to = from + shown.len();
    assert(all.subrange(from, to) =~= shown);
    (from, to)
}

/// A paragraph is shown in white, and in a quotation in grey, behind any text that
/// was open before it.
pub proof fn lemma_paragraph_shown(
    t: WidthTable,
    max: nat,
    before: Seq<EventView>,
    pieces: Seq<Seq<char>>,
    after: Seq<EventView>,
) -> (r: (int, int))
    requires
        !md_run(t, max, before).in_cell,
    ensures
        ({
            let st = md_run(t, max, before);
            let all = styled(
                t,
                max,
                before + element(TagView::Other, pieces, MdTagEnd::Paragraph) + after,
            );
            &&& 0 <= r.0 <= r.1 <= all.len()
            &&& shows_text(
                t,
                max,
                all.subrange(r.0, r.1),
                st.acc + flat(pieces),
                if st.in_blockquote {
                    Color::DarkGrey
                } else {
                    Color::White
                },
            )
        }),
{
    let st = lemma_element(t, max, before, TagView::Other, pieces, MdTagEnd::Paragraph);
    let block = before + element(TagView::Other, pieces, MdTagEnd::Paragraph);
    let color = prose_color(st);
    let shown = acc_lines(t, max, color, st.acc);
    lemma_acc_shown(t, max, color, st.acc);
    let done = md_run(t, max, block).out;
    assert(done =~= st.out + shown);
    let from = st.out.len() as int;
    lemma_between(t, max, block, after, from);
    let all = styled(t, max, block + after);
    let to = from + shown.len();
    assert(all.subrange(from, to) =~= shown);
    (from, to)
}

// ---------------------------------------------------------------------------
// Quotations
// ---------------------------------------------------------------------------

/// The ink of a quotation: a bar in front of every line that is not blank.
pub open spec fn quote_ink(pieces: Seq<Seq<char>>, n: nat) -> Seq<char>
    decreases n,
{
    if n == 0 {
        Seq::empty()
    } else if trim_end_char(pieces[n - 1], '\r').len() == 0 {
        quote_ink(pieces, (n - 1) as nat)
    } else {
        quote_ink(pieces, (n - 1) as nat).push('\u{2502}') + ink(pieces[n - 1])
    }
}

proof fn lemma_quote_shown(t: WidthTable, max: nat, pieces: Seq<Seq<char>>, n: nat)
    requires
        n <= pieces.len(),
    ensures
        all_in(quote_to(t, max, pieces, n), Color::DarkGrey),
        lines_ink(quote_to(t, max, pieces, n)) == quote_ink(pieces, n),
    decreases n,
{
    let all = quote_to(t, max, pieces, n);
    if n == 0 {
        assert(texts(all) =~= Seq::<Seq<char>>::empty());
    } else {
        let before = quote_to(t, max, pieces, (n - 1) as nat);
        let more = quote_line(t, max, pieces[n - 1]);
        let text = trim_end_char(pieces[n - 1], '\r');
        lemma_quote_shown(t, max, pieces, (n - 1) as nat);
        lemma_lines_ink_concat(before, more);
        lemma_trim_cr_ink(pieces[n - 1]);
        if text.len() == 0 {
            assert(texts(more) =~= Seq::<Seq<char>>::empty().push(Seq::empty()));
            lemma_ink_lines_push(Seq::empty(), Seq::<char>::empty());
            assert(lines_ink(more) =~= Seq::<char>::empty());
            assert(lines_ink(all) =~= quote_ink(pieces, n));
        } else {
            let bar = "\u{2502} "@;
            reveal_strlit("\u{2502} ");
            lemma_wrapped_ink(t, bar + text, max, Color::DarkGrey);
            lemma_ink_concat(bar, text);
            let none = Seq::<char>::empty();
            assert(bar =~= none.push('\u{2502}').push(' '));
            lemma_ink_push(none, '\u{2502}');
            lemma_ink_push(none.push('\u{2502}'), ' ');
            assert(ink(bar) =~= seq!['\u{2502}']);
            assert(lines_ink(all) =~= quote_ink(pieces, n));
        }
        assert forall|i: int| 0 <= i < all.len() implies (#[trigger] all[i]).color
            == Color::DarkGrey by {
            if i < before.len() {
                assert(all[i] == before[i]);
            } else {
                assert(all[i] == more[i - before.len()]);
            }
        }
    }
}

/// A quotation is shown in grey, all of it and in order, with a bar in front of
/// every line of it that is not blank, and one empty line below it.
pub proof fn lemma_quotation_shown(
    t: WidthTable,
    max: nat,
    before: Seq<EventView>,
    pieces: Seq<Seq<char>>,
    after: Seq<EventView>,
) -> (r: (int, int))
    requires
        !md_run(t, max, before).in_cell,
    ensures
        ({
            let all = styled(
                t,
                max,
                before + element(TagView::BlockQuote, pieces, MdTagEnd::BlockQuote) + after,
            );
            let ps = split(flat(pieces), '\n');
            &&& 0 <= r.0 <= r.1 < all.len()
            &&& all_in(all.subrange(r.0, r.1), Color::DarkGrey)
            &&& lines_ink(all.subrange(r.0, r.1)) == quote_ink(ps, ps.len())
            &&& all[r.1] == line(Seq::empty(), Color::White)
        }),
{
    let s = flat(pieces);
    let ps = split(s, '\n');
    let st = lemma_element(t, max, before, TagView::BlockQuote, pieces, MdTagEnd::BlockQuote);
    let block = before + element(TagView::BlockQuote, pieces, MdTagEnd::BlockQuote);
    assert(st.acc =~= s);
    let shown = quote_to(t, max, ps, ps.len());
    lemma_quote_shown(t, max, ps, ps.len());
    let done = md_run(t, max, block).out;
    assert(done =~= st.out + shown + seq![line(Seq::empty(), Color::White)]);
    let from = st.out.len() as int;
    lemma_between(t, max, block, after, from);
    let all = styled(t, max, block + after);
    let to = from + shown.len();
    assert(all.subrange(from, to) =~= shown);
    (from, to)
}

// ---------------------------------------------------------------------------
// Lists
// ---------------------------------------------------------------------------

/// What stands before item `j` of a list: its number where the list is ordered,
/// else a bullet.
pub open spec fn mark_of(ordered: bool, j: nat, quoted: bool) -> Seq<char> {
    if ordered {
        " "@ + decimal(j + 1) + ". "@
    } else if quoted {
        "  \u{250a} "@
    } else {
        "  \u{2022} "@
    }
}

/// The events of the first `n` items of a list.
pub open spec fn items_to(items: Seq<Seq<char>>, n: nat) -> Seq<EventView>
    decreases n,
{
    if n == 0 {
        Seq::empty()
    } else {
        items_to(items, (n - 1) as nat).push(EventView::Start(TagView::Item)).push(
            EventView::Text(items[n - 1]),
        ).push(EventView::End(MdTagEnd::Item))
    }
}

proof fn lemma_item_shown(
    t: WidthTable,
    max: nat,
    color: Color,
    bullet: Seq<char>,
    pieces: Seq<Seq<char>>,
    n: nat,
)
    requires
        n <= pieces.len(),
    ensures
        all_in(item_to(t, max, color, bullet, pieces, n), color),
        blank_to(pieces, n) ==> lines_ink(item_to(t, max, color, bullet, pieces, n)).len() == 0,
        blank_to(pieces, n) ==> ink_of_lines(pieces.take(n as int)).len() == 0,
        !blank_to(pieces, n) ==> lines_ink(item_to(t, max, color, bullet, pieces, n)) == ink(bullet)
            + ink_of_lines(pieces.take(n as int)),
    decreases n,
{
    let all = item_to(t, max, color, bullet, pieces, n);
    if n == 0 {
        assert(texts(all) =~= Seq::<Seq<char>>::empty());
        assert(pieces.take(0) =~= Seq::<Seq<char>>::empty());
    } else {
        let m = (n - 1) as nat;
        let before = item_to(t, max, color, bullet, pieces, m);
        let text = trim_end_char(pieces[n - 1], '\r');
        let more = if text.len() > 0 && blank_to(pieces, m) {
            colored(wrap_text(t, bullet + text, max), color)
        } else {
            piece_lines(t, max, color, pieces[n - 1])
        };
        lemma_item_shown(t, max, color, bullet, pieces, m);
        lemma_lines_ink_concat(before, more);
        lemma_trim_cr_ink(pieces[n - 1]);
        assert(pieces.take(n as int) =~= pieces.take(m as int).push(pieces[n - 1]));
        lemma_ink_lines_push(pieces.take(m as int), pieces[n - 1]);
        assert(blank_to(pieces, n) <==> blank_to(pieces, m) && text.len() == 0) by {
            if blank_to(pieces, m) && text.len() == 0 {
                assert forall|i: int| 0 <= i < n implies trim_end_char(
                    #[trigger] pieces[i],
                    '\r',
                ).len() == 0 by {}
            }
            if blank_to(pieces, n) {
                assert(trim_end_char(pieces[n - 1], '\r').len() == 0);
            }
        }
        if text.len() == 0 {
            assert(text =~= Seq::<char>::empty());
            assert(ink(text).len() == 0);
            assert(texts(more) =~= Seq::<Seq<char>>::empty().push(Seq::empty()));
            lemma_ink_lines_push(Seq::empty(), Seq::<char>::empty());
            assert(lines_ink(more).len() == 0);
        } else if blank_to(pieces, m) {
            lemma_wrapped_ink(t, bullet + text, max, color);
            lemma_ink_concat(bullet, text);
        } else {
            lemma_wrapped_ink(t, text, max, color);
        }
        if !blank_to(pieces, n) {
            assert(lines_ink(all) =~= ink(bullet) + ink_of_lines(pieces.take(n as int)));
        }
        assert forall|i: int| 0 <= i < all.len() implies (#[trigger] all[i]).color == color by {
            if i < before.len() {
                assert(all[i] == before[i]);
            } else {
                assert(all[i] == more[i - before.len()]);
            }
        }
    }
}

/// The state behind the first `n` items of a list.
proof fn lemma_items(
    t: WidthTable,
    max: nat,
    start: Seq<EventView>,
    items: Seq<Seq<char>>,
    n: nat,
)
    requires
        n <= items.len(),
        !md_run(t, max, start).in_cell,
        md_run(t, max, start).count == 0,
    ensures
        ({
            let st = md_run(t, max, start);
            let end = md_run(t, max, start + items_to(items, n));
            &&& !end.in_cell
            &&& end.ordered == st.ordered
            &&& end.count == n
            &&& end.in_blockquote == st.in_blockquote
        }),
    decreases n,
{
    let e = start + items_to(items, n);
    if n == 0 {
        assert(e =~= start);
    } else {
        let m = (n - 1) as nat;
        lemma_items(t, max, start, items, m);
        let e0 = start + items_to(items, m);
        let e1 = e0.push(EventView::Start(TagView::Item));
        let e2 = e1.push(EventView::Text(items[n - 1]));
        lemma_run_push(t, max, e0, EventView::Start(TagView::Item));
        lemma_run_push(t, max, e1, EventView::Text(items[n - 1]));
        lemma_run_push(t, max, e2, EventView::End(MdTagEnd::Item));
        assert(e =~= e2.push(EventView::End(MdTagEnd::Item)));
    }
}

/// Every item of a list is shown behind its mark, all of it and in order, below the
/// items before it: behind its number in an ordered list, which counts from one,
/// and behind a bullet in any other. An item of one line that fits is one line.
#[verifier::spinoff_prover]
pub proof fn lemma_list_item_shown(
    t: WidthTable,
    max: nat,
    before: Seq<EventView>,
    first: Option<u64>,
    items: Seq<Seq<char>>,
    j: nat,
    after: Seq<EventView>,
) -> (r: (int, int))
    requires
        !md_run(t, max, before).in_cell,
        j < items.len(),
        ink(items[j as int]).len() > 0,
    ensures
        ({
            let start = before.push(EventView::Start(TagView::List(first)));
            let all = styled(t, max, start + items_to(items, j + 1) + after);
            let quoted = md_run(t, max, before).in_blockquote;
            let mark = mark_of(first is Some, j, quoted);
            let color = if quoted {
                Color::DarkGrey
            } else {
                Color::White
            };
            let s = items[j as int];
            &&& md_run(t, max, start + items_to(items, j)).out.len() <= r.0 < r.1 <= all.len()
            &&& r.1 == md_run(t, max, start + items_to(items, j + 1)).out.len()
            &&& all_in(all.subrange(r.0, r.1), color)
            &&& lines_ink(all.subrange(r.0, r.1)) == ink(mark) + ink(s)
            &&& split(s, '\n').len() == 1 && !s.contains('\r') && text_width(t, mark + s) <= max
                ==> all.subrange(r.0, r.1) == seq![line(mark + s, color)]
        }),
{
    let start = before.push(EventView::Start(TagView::List(first)));
    lemma_run_push(t, max, before, EventView::Start(TagView::List(first)));
    lemma_items(t, max, start, items, j);
    let s = items[j as int];
    let e0 = start + items_to(items, j);
    let e1 = e0.push(EventView::Start(TagView::Item));
    let e2 = e1.push(EventView::Text(s));
    let block = start + items_to(items, j + 1);
    lemma_run_push(t, max, e0, EventView::Start(TagView::Item));
    lemma_run_push(t, max, e1, EventView::Text(s));
    lemma_run_push(t, max, e2, EventView::End(MdTagEnd::Item));
    assert(block =~= e2.push(EventView::End(MdTagEnd::Item)));
    let st = md_run(t, max, e2);
    assert(st.acc =~= s);
    let ps = split(s, '\n');
    let color = prose_color(st);
    let mark = mark_of(first is Some, j, st.in_blockquote);
    assert(item_mark(st) == mark);
    let shown = item_to(t, max, color, mark, ps, ps.len());
    lemma_item_shown(t, max, color, mark, ps, ps.len());
    lemma_split_ink(s);
    assert(ps.take(ps.len() as int) =~= ps);
    let done = md_run(t, max, block).out;
    assert(done =~= st.out + shown);
    let from = st.out.len() as int;
    lemma_between(t, max, block, after, from);
    let all = styled(t, max, block + after);
    let to = from + shown.len();
    assert(all.subrange(from, to) =~= shown);
    if shown.len() == 0 {
        assert(texts(shown) =~= Seq::<Seq<char>>::empty());
    }
    if ps.len() == 1 && !s.contains('\r') && text_width(t, mark + s) <= max {
        lemma_join_split(s, '\n');
        assert(ps[0] == s);
        lemma_trim_end_char(s, '\r');
        if s.len() > 0 {
            assert(s[s.len() - 1] != '\r');
        }
        assert(trim_end_char(s, '\r') == s);
        assert(item_to(t, max, color, mark, ps, 0) =~= Seq::<LineView>::empty());
        assert(blank_to(ps, 0));
        assert(shown =~= seq![line(mark + s, color)]);
    }
    (from, to)
}

// ---------------------------------------------------------------------------
// Links
// ---------------------------------------------------------------------------

/// The text of a link is shown with what was open before it, and its address in
/// grey below it.
#[verifier::spinoff_prover]
pub proof fn lemma_link_shown(
    t: WidthTable,
    max: nat,
    before: Seq<EventView>,
    url: Seq<char>,
    text: Seq<char>,
    after: Seq<EventView>,
) -> (r: (int, int, int))
    requires
        !md_run(t, max, before).in_cell,
        url.len() > 0,
        text.len() > 0,
    ensures
        ({
            let link = seq![
                EventView::Start(TagView::Link(url)),
                EventView::Text(text),
                EventView::End(MdTagEnd::Link),
            ];
            let all = styled(t, max, before + link + after);
            let open = md_run(t, max, before).acc;
            let note = "  \u{21aa} "@ + url;
            &&& 0 <= r.0 <= r.1 <= r.2 <= all.len()
            &&& shows_text(t, max, all.subrange(r.0, r.1), open + text, Color::DarkCyan)
            &&& all_in(all.subrange(r.1, r.2), Color::DarkGrey)
            &&& lines_ink(all.subrange(r.1, r.2)) == ink(note)
            &&& text_width(t, note) <= max ==> all.subrange(r.1, r.2) == seq![
                line(note, Color::DarkGrey),
            ]
        }),
{
    let b = md_run(t, max, before);
    let e1 = before.push(EventView::Start(TagView::Link(url)));
    let e2 = e1.push(EventView::Text(text));
    let block = e2.push(EventView::End(MdTagEnd::Link));
    let link = seq![
        EventView::Start(TagView::Link(url)),
        EventView::Text(text),
        EventView::End(MdTagEnd::Link),
    ];
    assert(before + link =~= block);
    lemma_run_push(t, max, before, EventView::Start(TagView::Link(url)));
    lemma_run_push(t, max, e1, EventView::Text(text));
    lemma_run_push(t, max, e2, EventView::End(MdTagEnd::Link));
    let note = "  \u{21aa} "@ + url;
    let shown = acc_lines(t, max, Color::DarkCyan, b.acc + text);
    let noted = colored(wrap_text(t, note, max), Color::DarkGrey);
    lemma_acc_shown(t, max, Color::DarkCyan, b.acc + text);
    lemma_wrapped_ink(t, note, max, Color::DarkGrey);
    let done = md_run(t, max, block).out;
    assert(done =~= b.out + shown + noted);
    let from = b.out.len() as int;
    lemma_between(t, max, block, after, from);
    let all = styled(t, max, block + after);
    let mid = from + shown.len();
    let to = mid + noted.len();
    assert(all.subrange(from, mid) =~= shown);
    assert(all.subrange(mid, to) =~= noted);
    if text_width(t, note) <= max {
        assert(noted =~= seq![line(note, Color::DarkGrey)]);
    }
    (from, mid, to)
}

} // verus!
