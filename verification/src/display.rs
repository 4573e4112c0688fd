//! One frame of the whole screen.

use vstd::prelude::*;

use crate::draw::{op_views, DrawOp, TermSize};
use crate::num::minus;
use crate::renderer::{Renderer, RendererView};
use crate::screen::{BottomFrame, BottomInput};
use crate::statusline::{status_views, StatusSpan};

verus! {

/// What is to be painted, in this order.
pub struct Frame {
    /// Rows that the input no longer takes.
    pub freed: Vec<DrawOp>,
    /// The chat, where it changed.
    pub chat: Option<Vec<DrawOp>>,
    /// The bottom, where it changed.
    pub bottom: Option<Vec<DrawOp>>,
    /// Whether the picker is painted over it.
    pub picker: bool,
}

impl RendererView {
    /// With the height that the input is about to take.
    pub open spec fn synced(self, input: Seq<char>, size: TermSize) -> RendererView {
        RendererView { prev_input_height: self.input_height(input, size) as usize, ..self }
    }

    /// With the chat painted.
    pub open spec fn chat_painted(self, size: TermSize) -> RendererView {
        if self.chat_stale(size) {
            RendererView {
                last_chat_snapshot: Some(self.chat_snapshot(size)),
                chat_dirty: false,
                ..self
            }
        } else {
            self
        }
    }

    /// With the bottom painted and recorded.
    pub open spec fn bottom_settled(self, b: BottomInput, size: TermSize) -> RendererView {
        if self.bottom_plan(b, size) is Skip {
            self.bottom_painted(b, size)
        } else {
            RendererView {
                last_bottom_snapshot: Some(self.bottom_record(b, size)),
                bottom_dirty: false,
                bottom_cursor: self.bottom_caret(b, size),
                ..self.bottom_painted(b, size)
            }
        }
    }

    /// After a frame. A picker hides part of the screen, so all of it is
    /// painted again in the next frame.
    pub open spec fn refreshed(self, b: BottomInput, picker_open: bool, size: TermSize) -> RendererView {
        let v = self.synced(b.input, size).chat_painted(size).bottom_settled(b, size);
        if picker_open {
            RendererView { chat_dirty: true, bottom_dirty: true, ..v }
        } else {
            v
        }
    }
}

impl Renderer {
    /// Whether the chat can be painted at its scroll position.
    pub fn scroll_fits(&mut self, size: TermSize) -> (r: bool)
        requires
            old(self).wf(),
        ensures
            final(self).wf(),
            final(self)@ == old(self)@,
            r == old(self)@.scroll_in_range(size),
    {
        let total = self.buffer_len(size);
        let max = minus(total, self.visible_lines(size));
        self.scroll_offset == 0 || self.scroll_offset <= max || max == 0
    }
}

/// The chat, where it changed; it counts as painted.
fn paint_chat(renderer: &mut Renderer, size: TermSize) -> (r: Option<Vec<DrawOp>>)
    requires
        old(renderer).wf(),
        old(renderer)@.chat_stale(size) ==> old(renderer)@.scroll_in_range(size),
    ensures
        final(renderer).wf(),
        final(renderer)@ == old(renderer)@.chat_painted(size),
        r is Some <==> old(renderer)@.chat_stale(size),
        r matches Some(ops) ==> op_views(ops@) == old(renderer)@.viewport(size),
{
    let chat = renderer.render_viewport(size);
    if chat.is_some() {
        renderer.record_chat_drawn(size);
    }
    chat
}

/// The bottom, where it changed; it counts as painted.
fn paint_bottom(
    renderer: &mut Renderer,
    input: &str,
    cursor_pos: usize,
    cursor_at: (usize, usize),
    statusline: &Vec<Vec<StatusSpan>>,
    is_running: bool,
    size: TermSize,
) -> (r: Option<Vec<DrawOp>>)
    requires
        old(renderer).wf(),
        old(renderer)@.paints_input(
            bottom_input(input@, cursor_pos, cursor_at, statusline@, is_running),
            size,
        ) ==> size.rows > old(renderer)@.reserve(),
    ensures
        final(renderer).wf(),
        ({
            let b = bottom_input(input@, cursor_pos, cursor_at, statusline@, is_running);
            let v = old(renderer)@;
            &&& final(renderer)@ == v.bottom_settled(b, size)
            &&& r is Some <==> !(v.bottom_plan(b, size) is Skip)
            &&& r matches Some(ops) ==> op_views(ops@) == v.bottom_ops(b, size)
        }),
{
    match renderer.draw_bottom(input, cursor_pos, cursor_at, statusline, is_running, size) {
        Some(BottomFrame { ops, record, cursor }) => {
            renderer.record_bottom_drawn(record, cursor);
            Some(ops)
        },
        None => None,
    }
}

/// What the bottom is painted from.
pub open spec fn bottom_input(
    input: Seq<char>,
    cursor_pos: usize,
    cursor_at: (usize, usize),
    statusline: Seq<Vec<StatusSpan>>,
    is_running: bool,
) -> BottomInput {
    BottomInput {
        input,
        cursor_pos,
        cursor_line: cursor_at.0,
        cursor_col: cursor_at.1,
        status: status_views(statusline),
        is_running,
    }
}

/// A frame of the whole screen: first the height of the input is settled, so
/// that the chat is painted above it, then the chat, the bottom and the picker,
/// where there is one. The frame counts as painted.
pub fn refresh_display(
    renderer: &mut Renderer,
    input: &str,
    cursor_pos: usize,
    cursor_at: (usize, usize),
    statusline: &Vec<Vec<StatusSpan>>,
    is_running: bool,
    picker: Option<bool>,
    size: TermSize,
) -> (r: Frame)
    requires
        old(renderer).wf(),
        ({
            let v1 = old(renderer)@.synced(input@, size);
            v1.chat_stale(size) ==> v1.scroll_in_range(size)
        }),
        old(renderer)@.synced(input@, size).chat_painted(size).paints_input(
            bottom_input(input@, cursor_pos, cursor_at, statusline@, is_running),
            size,
        ) ==> size.rows > old(renderer)@.reserve(),
    ensures
        final(renderer).wf(),
        ({
            let b = bottom_input(input@, cursor_pos, cursor_at, statusline@, is_running);
            let v = old(renderer)@;
            let v1 = v.synced(input@, size);
            let v2 = v1.chat_painted(size);
            &&& final(renderer)@ == v.refreshed(b, picker == Some(true), size)
            &&& op_views(r.freed@) == crate::bottom::shrunk_rows(
                v.available(size),
                v.prev_input_height as nat,
                v.input_height(input@, size),
                v.input_bg,
            )
            &&& r.chat is Some <==> v1.chat_stale(size)
            &&& r.chat matches Some(ops) ==> op_views(ops@) == v1.viewport(size)
            &&& r.bottom is Some <==> !(v2.bottom_plan(b, size) is Skip)
            &&& r.bottom matches Some(ops) ==> op_views(ops@) == v2.bottom_ops(b, size)
            &&& r.picker == (picker is Some)
        }),
{
    let freed = renderer.sync_input_height(input, size);
    let chat = paint_chat(renderer, size);
    let bottom = paint_bottom(
        renderer,
        input,
        cursor_pos,
        cursor_at,
        statusline,
        is_running,
        size,
    );
    if let Some(true) = picker {
        renderer.invalidate();
    }
    Frame { freed, chat, bottom, picker: picker.is_some() }
}

/// A picker that closes leaves nothing behind: after a frame with an open
/// picker, the next one paints the chat and the bottom anew.
pub proof fn lemma_picker_leaves_nothing(
    v: RendererView,
    b: BottomInput,
    next: BottomInput,
    size: TermSize,
)
    ensures
        ({
            let w = v.refreshed(b, true, size).synced(next.input, size);
            &&& w.chat_stale(size)
            &&& !(w.chat_painted(size).bottom_plan(next, size) is Skip)
        }),
{
}

} // verus!
