//! What is written to the terminal, as a list of operations.

use vstd::prelude::*;

use crate::color::Color;
use crate::text::{push_repeat, repeat, string_of};

verus! {

/// The size of the terminal.
#[derive(Clone, Copy, Debug, PartialEq, Eq, Structural)]
pub struct TermSize {
    pub cols: u16,
    pub rows: u16,
}

/// One operation on the terminal. Colors are those of the palette: a
/// monochrome terminal maps them when the operation is carried out.
#[derive(Debug, PartialEq)]
pub enum DrawOp {
    /// Moves the cursor, and sends everything written so far.
    MoveTo(u16, u16),
    SetBackground(Color),
    SetForeground(Color),
    /// The terminal's own foreground, whatever the palette.
    DefaultForeground,
    Print(String),
    ClearUntilNewLine,
    ClearCurrentLine,
    /// Clears the screen, and sends everything written so far.
    ClearAll,
    ResetColor,
    Reverse,
    NoReverse,
    HideCursor,
    ShowCursor,
    Flush,
}

/// What a [`DrawOp`] holds.
pub enum OpView {
    MoveTo(u16, u16),
    SetBackground(Color),
    SetForeground(Color),
    DefaultForeground,
    Print(Seq<char>),
    ClearUntilNewLine,
    ClearCurrentLine,
    ClearAll,
    ResetColor,
    Reverse,
    NoReverse,
    HideCursor,
    ShowCursor,
    Flush,
}

impl View for DrawOp {
    type V = OpView;

    open spec fn view(&self) -> OpView {
        match *self {
            DrawOp::MoveTo(x, y) => OpView::MoveTo(x, y),
            DrawOp::SetBackground(c) => OpView::SetBackground(c),
            DrawOp::SetForeground(c) => OpView::SetForeground(c),
            DrawOp::DefaultForeground => OpView::DefaultForeground,
            DrawOp::Print(s) => OpView::Print(s@),
            DrawOp::ClearUntilNewLine => OpView::ClearUntilNewLine,
            DrawOp::ClearCurrentLine => OpView::ClearCurrentLine,
            DrawOp::ClearAll => OpView::ClearAll,
            DrawOp::ResetColor => OpView::ResetColor,
            DrawOp::Reverse => OpView::Reverse,
            DrawOp::NoReverse => OpView::NoReverse,
            DrawOp::HideCursor => OpView::HideCursor,
            DrawOp::ShowCursor => OpView::ShowCursor,
            DrawOp::Flush => OpView::Flush,
        }
    }
}

/// The views of a list of operations.
pub open spec fn op_views(v: Seq<DrawOp>) -> Seq<OpView> {
    v.map_values(|o: DrawOp| o@)
}

/// Sets a background, where there is one.
pub open spec fn background(bg: Option<Color>) -> Seq<OpView> {
    match bg {
        Some(c) => seq![OpView::SetBackground(c)],
        None => Seq::empty(),
    }
}

/// Clears the rest of a row and resets the colors.
pub open spec fn end_of_row() -> Seq<OpView> {
    seq![OpView::ClearUntilNewLine, OpView::ResetColor]
}

/// An empty row.
pub open spec fn empty_row(y: u16, bg: Option<Color>) -> Seq<OpView> {
    seq![OpView::MoveTo(0, y)] + background(bg) + end_of_row()
}

/// Empty rows `from..to`.
pub open spec fn empty_rows(from: nat, to: nat, bg: Option<Color>) -> Seq<OpView>
    decreases to,
{
    if to <= from {
        Seq::empty()
    } else {
        empty_rows(from, (to - 1) as nat, bg) + empty_row((to - 1) as u16, bg)
    }
}

/// Appends one operation.
pub fn push_op(out: &mut Vec<DrawOp>, op: DrawOp)
    ensures
        op_views(final(out)@) == op_views(old(out)@).push(op@),
{
    out.push(op);
    assert(op_views(out@) =~= op_views(old(out)@).push(op@));
}

/// Appends all operations of `more`.
pub fn push_ops(out: &mut Vec<DrawOp>, more: Vec<DrawOp>)
    ensures
        op_views(final(out)@) == op_views(old(out)@) + op_views(more@),
{
    let mut more = more;
    let ghost added = more@;
    out.append(&mut more);
    assert(op_views(out@) =~= op_views(old(out)@) + op_views(added));
}

/// Appends the printing of `text`.
pub fn push_print(out: &mut Vec<DrawOp>, text: &str)
    ensures
        op_views(final(out)@) == op_views(old(out)@).push(OpView::Print(text@)),
{
    let mut s = String::new();
    s.push_str(text);
    assert(s@ =~= text@);
    push_op(out, DrawOp::Print(s));
}

/// Appends the printing of characters.
pub fn push_chars(out: &mut Vec<DrawOp>, text: &Vec<char>)
    ensures
        op_views(final(out)@) == op_views(old(out)@).push(OpView::Print(text@)),
{
    push_op(out, DrawOp::Print(string_of(text)));
}

/// Appends the printing of `n` copies of `c`.
pub fn push_run(out: &mut Vec<DrawOp>, c: char, n: usize)
    ensures
        op_views(final(out)@) == op_views(old(out)@).push(OpView::Print(repeat(c, n as nat))),
{
    let mut s = String::new();
    push_repeat(&mut s, c, n);
    assert(s@ =~= repeat(c, n as nat));
    push_op(out, DrawOp::Print(s));
}

/// Appends the setting of a background, where there is one.
pub fn push_background(out: &mut Vec<DrawOp>, bg: Option<Color>)
    ensures
        op_views(final(out)@) == op_views(old(out)@) + background(bg),
{
    match bg {
        Some(c) => {
            push_op(out, DrawOp::SetBackground(c));
            assert(op_views(out@) =~= op_views(old(out)@) + background(bg));
        },
        None => {
            assert(op_views(out@) =~= op_views(old(out)@) + background(bg));
        },
    }
}

/// Appends the end of a row.
pub fn push_end_of_row(out: &mut Vec<DrawOp>)
    ensures
        op_views(final(out)@) == op_views(old(out)@) + end_of_row(),
{
    push_op(out, DrawOp::ClearUntilNewLine);
    push_op(out, DrawOp::ResetColor);
    assert(op_views(out@) =~= op_views(old(out)@) + end_of_row());
}

/// Appends an empty row.
pub fn push_empty_row(out: &mut Vec<DrawOp>, y: u16, bg: Option<Color>)
    ensures
        op_views(final(out)@) == op_views(old(out)@) + empty_row(y, bg),
{
    push_op(out, DrawOp::MoveTo(0, y));
    push_background(out, bg);
    push_end_of_row(out);
    assert(op_views(out@) =~= op_views(old(out)@) + empty_row(y, bg));
}

/// Appends empty rows `from..to`.
pub fn push_empty_rows(out: &mut Vec<DrawOp>, from: u16, to: u16, bg: Option<Color>)
    ensures
        op_views(final(out)@) == op_views(old(out)@) + empty_rows(from as nat, to as nat, bg),
{
    if to <= from {
        assert(op_views(out@) =~= op_views(old(out)@) + empty_rows(from as nat, to as nat, bg));
        return;
    }
    assert(op_views(out@) =~= op_views(old(out)@) + empty_rows(from as nat, from as nat, bg));
    for y in from..to
        invariant
            from <= y <= to,
            op_views(out@) == op_views(old(out)@) + empty_rows(from as nat, y as nat, bg),
    {
        push_empty_row(out, y, bg);
        assert(op_views(out@) =~= op_views(old(out)@) + empty_rows(from as nat, (y + 1) as nat, bg));
    }
}

} // verus!
