//! The state of the screen: the chat with its scroll position and selection,
//! and what was painted last.

use vstd::prelude::*;

use crate::bottom::{
    clear_shrunk_rows, input_row_limit, max_input_rows, same_color, shrunk_rows, BottomSnapshot,
    BottomView, ChainPrompt, InputView, PermissionPrompt, PromptView,
};
use crate::color::Color;
use crate::draw::{op_views, DrawOp, OpView, TermSize};
use crate::feed::{
    color_style, counted, selection_text, style_color, BlockStyle, BlockView, Feed, FeedView,
};
use crate::line::{colored, line_views, push_wrapped, CompactText, LineEntry, LineView};
use crate::num::{least, less, minus, most};
use crate::statusline::SpanView;
use crate::text::{chars_of, same_text, split, split_of, string_of};
use crate::urls::{url_under, urls, UrlScanner};
use crate::width::CharWidths;
use crate::wrap::{word_wrap, wrap_text};

verus! {

/// Everything that decides what the chat shows.
pub struct ChatSnapshot {
    pub feed_generation: u64,
    pub cols: u16,
    pub chat_margin: u16,
    pub width: usize,
    pub visible_rows: usize,
    pub scroll_offset: usize,
    pub selection_active: bool,
    pub selection_start: Option<usize>,
    pub selection_end: Option<usize>,
    pub partial: String,
    pub partial_style: BlockStyle,
    pub chat_bg: Option<Color>,
    pub monochrome: bool,
}

/// What a [`ChatSnapshot`] holds.
pub struct ChatView {
    pub feed_generation: u64,
    pub cols: u16,
    pub chat_margin: u16,
    pub width: nat,
    pub visible_rows: nat,
    pub scroll_offset: usize,
    pub selection_active: bool,
    pub selection_start: Option<usize>,
    pub selection_end: Option<usize>,
    pub partial: Seq<char>,
    pub partial_style: BlockStyle,
    pub chat_bg: Option<Color>,
    pub monochrome: bool,
}

impl View for ChatSnapshot {
    type V = ChatView;

    open spec fn view(&self) -> ChatView {
        ChatView {
            feed_generation: self.feed_generation,
            cols: self.cols,
            chat_margin: self.chat_margin,
            width: self.width as nat,
            visible_rows: self.visible_rows as nat,
            scroll_offset: self.scroll_offset,
            selection_active: self.selection_active,
            selection_start: self.selection_start,
            selection_end: self.selection_end,
            partial: self.partial@,
            partial_style: self.partial_style,
            chat_bg: self.chat_bg,
            monochrome: self.monochrome,
        }
    }
}

/// The state of the screen.
pub struct Renderer {
    pub spinner_frame: u8,
    pub feed: Feed,
    pub partial: CompactText,
    pub partial_style: BlockStyle,
    pub scroll_offset: usize,
    pub input: InputView,
    pub monochrome: bool,
    pub chat_bg: Option<Color>,
    pub input_bg: Option<Color>,
    pub status_bg: Option<Color>,
    pub selection_active: bool,
    pub selection_start: Option<usize>,
    pub selection_end: Option<usize>,
    pub prev_input_height: usize,
    /// Rows of the status line, one to three.
    pub statusline_height: usize,
    /// Columns left empty to the left of the chat.
    pub chat_margin: u16,
    pub permission_prompt: Option<PermissionPrompt>,
    pub chain_prompt: Option<ChainPrompt>,
    pub chain_but_mode: bool,
    pub chat_dirty: bool,
    pub last_chat_snapshot: Option<ChatSnapshot>,
    pub bottom_dirty: bool,
    pub last_bottom_snapshot: Option<BottomSnapshot>,
    /// Where the last full painting of the bottom left the cursor; `None` where
    /// it is hidden.
    pub bottom_cursor: Option<(u16, u16)>,
    pub urls: UrlScanner,
}

/// What a [`Renderer`] holds.
pub struct RendererView {
    pub spinner_frame: u8,
    pub feed: FeedView,
    pub partial: Seq<char>,
    pub partial_style: BlockStyle,
    pub scroll_offset: usize,
    pub input: InputView,
    pub monochrome: bool,
    pub chat_bg: Option<Color>,
    pub input_bg: Option<Color>,
    pub status_bg: Option<Color>,
    pub selection_active: bool,
    pub selection_start: Option<usize>,
    pub selection_end: Option<usize>,
    pub prev_input_height: usize,
    pub statusline_height: usize,
    pub chat_margin: u16,
    pub permission_prompt: Option<(Seq<char>, Seq<char>)>,
    pub chain_prompt: Option<Seq<char>>,
    pub chain_but_mode: bool,
    pub chat_dirty: bool,
    pub last_chat_snapshot: Option<ChatView>,
    pub bottom_dirty: bool,
    pub last_bottom_snapshot: Option<BottomView>,
    pub bottom_cursor: Option<(u16, u16)>,
}

impl View for Renderer {
    type V = RendererView;

    open spec fn view(&self) -> RendererView {
        RendererView {
            spinner_frame: self.spinner_frame,
            feed: self.feed@,
            partial: self.partial@,
            partial_style: self.partial_style,
            scroll_offset: self.scroll_offset,
            input: self.input,
            monochrome: self.monochrome,
            chat_bg: self.chat_bg,
            input_bg: self.input_bg,
            status_bg: self.status_bg,
            selection_active: self.selection_active,
            selection_start: self.selection_start,
            selection_end: self.selection_end,
            prev_input_height: self.prev_input_height,
            statusline_height: self.statusline_height,
            chat_margin: self.chat_margin,
            permission_prompt: match self.permission_prompt {
                Some(p) => Some((p.tool@, p.options@)),
                None => None,
            },
            chain_prompt: match self.chain_prompt {
                Some(p) => Some(p.question@),
                None => None,
            },
            chain_but_mode: self.chain_but_mode,
            chat_dirty: self.chat_dirty,
            last_chat_snapshot: match self.last_chat_snapshot {
                Some(s) => Some(s@),
                None => None,
            },
            bottom_dirty: self.bottom_dirty,
            last_bottom_snapshot: match self.last_bottom_snapshot {
                Some(s) => Some(s@),
                None => None,
            },
            bottom_cursor: self.bottom_cursor,
        }
    }
}

impl RendererView {
    /// Rows at the bottom of the screen: the status line, the separator above
    /// it and the last row of the input.
    pub open spec fn reserve(self) -> nat {
        self.statusline_height as nat + 2
    }

    /// Rows above those.
    pub open spec fn available(self, size: TermSize) -> nat {
        less(size.rows as nat, self.reserve())
    }

    /// Columns for a line of the chat.
    pub open spec fn line_width(self, size: TermSize) -> nat {
        less(size.cols as nat, 1 + self.chat_margin as nat)
    }

    /// Rows for the chat.
    pub open spec fn visible(self, size: TermSize) -> nat {
        less(size.rows as nat, most(self.prev_input_height as nat, 1) + self.reserve())
    }

    /// The lines of the chat, with the line that is still being written.
    pub open spec fn chat_lines(self, width: nat) -> Seq<LineView> {
        self.feed.lines(width) + if self.partial.len() == 0 {
            Seq::empty()
        } else {
            colored(wrap_text(self.feed.widths, self.partial, width), style_color(self.partial_style))
        }
    }

    /// The lines of the chat at the width of the screen.
    pub open spec fn screen_lines(self, size: TermSize) -> Seq<LineView> {
        self.chat_lines(self.line_width(size))
    }

    /// The furthest the chat can be scrolled up.
    pub open spec fn max_offset(self, size: TermSize) -> nat {
        less(self.screen_lines(size).len(), self.visible(size))
    }

    /// The first line in view.
    pub open spec fn first_line(self, size: TermSize) -> nat {
        less(self.screen_lines(size).len(), self.scroll_offset as nat + self.visible(size))
    }

    /// Empty rows above a chat that does not fill the screen.
    pub open spec fn top_padding(self, size: TermSize) -> nat {
        if self.scroll_offset == 0 {
            less(self.visible(size), self.screen_lines(size).len())
        } else {
            0
        }
    }

    /// What the chat shows at present.
    pub open spec fn chat_snapshot(self, size: TermSize) -> ChatView {
        ChatView {
            feed_generation: self.feed.generation,
            cols: size.cols,
            chat_margin: self.chat_margin,
            width: self.line_width(size),
            visible_rows: self.visible(size),
            scroll_offset: self.scroll_offset,
            selection_active: self.selection_active,
            selection_start: self.selection_start,
            selection_end: self.selection_end,
            partial: self.partial,
            partial_style: self.partial_style,
            chat_bg: self.chat_bg,
            monochrome: self.monochrome,
        }
    }

    /// Whether the chat has to be painted again.
    pub open spec fn chat_stale(self, size: TermSize) -> bool {
        self.chat_dirty || self.last_chat_snapshot != Some(self.chat_snapshot(size))
    }

    /// Scrolled to `offset`: a change is painted.
    pub open spec fn scrolled(self, offset: nat) -> RendererView {
        if offset == self.scroll_offset {
            self
        } else {
            RendererView { scroll_offset: offset as usize, chat_dirty: true, ..self }
        }
    }

    /// With the line being written appended to the feed.
    pub open spec fn committed(self) -> RendererView {
        if self.partial.len() == 0 {
            self
        } else {
            RendererView {
                feed: self.feed.changed(
                    self.feed.blocks.push(
                        (BlockView {
                            style: self.partial_style,
                            text: self.partial,
                            running: false,
                        }),
                    ),
                ),
                partial: Seq::empty(),
                chat_dirty: true,
                ..self
            }
        }
    }

    /// With a block appended to the feed.
    pub open spec fn with_block(self, style: BlockStyle, text: Seq<char>) -> RendererView {
        RendererView {
            feed: self.feed.changed(
                self.feed.blocks.push((BlockView { style, text, running: false })),
            ),
            ..self
        }
    }

    /// With the first `n` complete lines of a text written.
    pub open spec fn written_lines(self, style: BlockStyle, parts: Seq<Seq<char>>, n: nat) -> RendererView
        decreases n,
    {
        if n == 0 {
            self
        } else {
            self.written_lines(style, parts, (n - 1) as nat).committed().with_block(
                style,
                parts[n - 1],
            )
        }
    }

    /// With a text written: every line that it completes becomes a block, and
    /// the rest is kept until more comes.
    pub open spec fn written(self, text: Seq<char>, color: Color) -> RendererView {
        if text.len() == 0 {
            self
        } else {
            let style = color_style(color);
            let parts = split(text, '\n');
            let done = self.written_lines(style, parts, (parts.len() - 1) as nat);
            RendererView {
                partial: done.partial + parts.last(),
                partial_style: style,
                chat_dirty: true,
                ..done
            }
        }
    }

    /// Rows that the input takes for a text.
    pub open spec fn input_height(self, input: Seq<char>, size: TermSize) -> nat {
        if self.permission_prompt is Some || self.chain_prompt is Some {
            2
        } else {
            most(
                least(split(input, '\n').len(), max_input_rows(self.available(size))),
                1,
            )
        }
    }

    /// What the bottom of the screen is to show.
    pub open spec fn bottom_snapshot(
        self,
        input: Seq<char>,
        cursor_pos: usize,
        status: Seq<Seq<SpanView>>,
        is_running: bool,
        size: TermSize,
    ) -> BottomView {
        let prompt = match (self.permission_prompt, self.chain_prompt) {
            (Some((tool, options)), _) => PromptView::Permission { tool, options },
            (None, Some(question)) => PromptView::Chain {
                question,
                but_mode: self.chain_but_mode,
            },
            _ => PromptView::Input,
        };
        BottomView {
            cols: size.cols,
            rows: size.rows,
            statusline_height: self.statusline_height,
            input,
            cursor_pos,
            is_running,
            spinner_frame: self.spinner_frame,
            input_vscroll_offset: self.input.vscroll,
            prompt,
            statusline: status,
            scroll_indicator: prompt is Input && self.scroll_offset > 0,
            monochrome: self.monochrome,
            input_bg: self.input_bg,
            status_bg: self.status_bg,
        }
    }
}

/// Whether two optional positions are the same.
fn same_position(a: Option<usize>, b: Option<usize>) -> (r: bool)
    ensures
        r == (a == b),
{
    match (a, b) {
        (Some(x), Some(y)) => x == y,
        (None, None) => true,
        _ => false,
    }
}

fn same_chat(a: &ChatSnapshot, b: &ChatSnapshot) -> (r: bool)
    ensures
        r == (a@ == b@),
{
    a.feed_generation == b.feed_generation && a.cols == b.cols && a.chat_margin == b.chat_margin
        && a.width == b.width && a.visible_rows == b.visible_rows && a.scroll_offset == b.scroll_offset && a.selection_active
        == b.selection_active && same_position(a.selection_start, b.selection_start)
        && same_position(a.selection_end, b.selection_end) && same_text(
        a.partial.as_str(),
        b.partial.as_str(),
    ) && a.partial_style == b.partial_style && same_color(a.chat_bg, b.chat_bg) && a.monochrome
        == b.monochrome
}

impl Renderer {
    /// What every operation keeps: the feed's memoized layouts, the spinner on
    /// one of its frames, and sizes that fit the screen.
    pub open spec fn wf(&self) -> bool {
        &&& self.feed.wf()
        &&& self.input.wf()
        &&& self.spinner_frame < 10
        &&& 1 <= self.statusline_height <= 3
        &&& self.prev_input_height <= u16::MAX
        &&& self.chat_margin <= u16::MAX - 8
    }

    /// An empty screen.
    pub fn new(widths: CharWidths) -> (r: Renderer)
        ensures
            r.wf(),
            r@ == (RendererView {
                spinner_frame: 0,
                feed: FeedView { blocks: Seq::empty(), generation: 0, widths: widths@ },
                partial: Seq::empty(),
                partial_style: BlockStyle::Plain,
                scroll_offset: 0,
                input: InputView::blank(),
                monochrome: false,
                chat_bg: None,
                input_bg: None,
                status_bg: None,
                selection_active: false,
                selection_start: None,
                selection_end: None,
                prev_input_height: 0,
                statusline_height: 1,
                chat_margin: 0,
                permission_prompt: None,
                chain_prompt: None,
                chain_but_mode: false,
                chat_dirty: true,
                last_chat_snapshot: None,
                bottom_dirty: true,
                last_bottom_snapshot: None,
                bottom_cursor: None,
            }),
    {
        proof {
            reveal_strlit("");
        }
        let partial = CompactText::new("");
        assert(partial@ =~= Seq::<char>::empty());
        Renderer {
            spinner_frame: 0,
            feed: Feed::new(widths),
            partial,
            partial_style: BlockStyle::Plain,
            scroll_offset: 0,
            input: InputView::new(),
            monochrome: false,
            chat_bg: None,
            input_bg: None,
            status_bg: None,
            selection_active: false,
            selection_start: None,
            selection_end: None,
            prev_input_height: 0,
            statusline_height: 1,
            chat_margin: 0,
            permission_prompt: None,
            chain_prompt: None,
            chain_but_mode: false,
            chat_dirty: true,
            last_chat_snapshot: None,
            bottom_dirty: true,
            last_bottom_snapshot: None,
            bottom_cursor: None,
            urls: UrlScanner::new(),
        }
    }

    /// Sets the number of rows of the status line, one to three.
    pub fn set_statusline_height(&mut self, h: usize)
        requires
            old(self).wf(),
        ensures
            final(self).wf(),
            final(self)@ == (RendererView {
                statusline_height: if h < 1 {
                    1
                } else if h > 3 {
                    3
                } else {
                    h
                },
                ..old(self)@
            }),
    {
        self.statusline_height = if h < 1 {
            1
        } else if h > 3 {
            3
        } else {
            h
        };
    }

    /// Rows at the bottom of the screen below the first row of the input.
    pub fn statusline_reserve(&self) -> (r: u16)
        requires
            self.wf(),
        ensures
            r == self@.reserve(),
    {
        self.statusline_height as u16 + 2
    }

    /// Rows above those.
    pub fn available_rows(&self, size: TermSize) -> (r: u16)
        requires
            self.wf(),
        ensures
            r == self@.available(size),
            r < u16::MAX,
    {
        let reserve = self.statusline_reserve();
        if size.rows >= reserve {
            size.rows - reserve
        } else {
            0
        }
    }

    /// Sets whether the terminal shows colors.
    pub fn set_monochrome(&mut self, monochrome: bool)
        requires
            old(self).wf(),
        ensures
            final(self).wf(),
            final(self)@ == (RendererView { monochrome, ..old(self)@ }),
    {
        self.monochrome = monochrome;
    }

    /// Sets the columns left empty to the left of the chat, so that some are
    /// left for the text.
    pub fn set_chat_margin(&mut self, margin: u16, size: TermSize)
        requires
            old(self).wf(),
        ensures
            final(self).wf(),
            final(self)@ == (RendererView {
                chat_margin: least(margin as nat, less(size.cols as nat, 8)) as u16,
                ..old(self)@
            }),
    {
        let most: u16 = if size.cols >= 8 {
            size.cols - 8
        } else {
            0
        };
        self.chat_margin = if margin <= most {
            margin
        } else {
            most
        };
    }

    /// Sets the backgrounds.
    pub fn set_background_colors(
        &mut self,
        chat_bg: Option<Color>,
        input_bg: Option<Color>,
        status_bg: Option<Color>,
    )
        requires
            old(self).wf(),
        ensures
            final(self).wf(),
            final(self)@ == (RendererView { chat_bg, input_bg, status_bg, ..old(self)@ }),
    {
        self.chat_bg = chat_bg;
        self.input_bg = input_bg;
        self.status_bg = status_bg;
    }

    /// Columns for a line of the chat.
    pub fn max_line_width(&self, size: TermSize) -> (r: usize)
        requires
            self.wf(),
        ensures
            r == self@.line_width(size),
    {
        minus(size.cols as usize, 1 + self.chat_margin as usize)
    }

    /// The lines of the chat, with the line that is still being written.
    pub fn chat_lines(&mut self, width: usize) -> (r: Vec<LineEntry>)
        requires
            old(self).wf(),
        ensures
            final(self).wf(),
            final(self)@ == old(self)@,
            line_views(r@) == old(self)@.chat_lines(width as nat),
    {
        let mut lines = self.feed.lines(width);
        let partial = self.partial.as_str();
        if chars_of(partial).len() > 0 {
            let chunks = word_wrap(partial, width, self.feed.char_widths());
            push_wrapped(&mut lines, &chunks, self.partial_style.color());
        } else {
            assert(line_views(lines@) =~= line_views(lines@) + Seq::<LineView>::empty());
        }
        lines
    }

    /// The number of lines of the chat.
    pub fn buffer_len(&mut self, size: TermSize) -> (r: usize)
        requires
            old(self).wf(),
        ensures
            final(self).wf(),
            final(self)@ == old(self)@,
            r == old(self)@.screen_lines(size).len(),
    {
        let width = self.max_line_width(size);
        let lines = self.chat_lines(width);
        assert(line_views(lines@).len() == lines@.len());
        lines.len()
    }

    /// The feed.
    pub fn feed(&self) -> (r: &Feed)
        ensures
            *r == self.feed,
            r@ == self@.feed,
    {
        &self.feed
    }

    /// The feed, to be changed.
    pub fn feed_mut(&mut self) -> (r: &mut Feed)
        ensures
            *r == old(self).feed,
            final(self).feed == *final(r),
            final(self)@ == (RendererView { feed: final(r)@, ..old(self)@ }),
    {
        &mut self.feed
    }

    /// Rows for the chat.
    pub fn visible_lines(&self, size: TermSize) -> (r: usize)
        requires
            self.wf(),
        ensures
            r == self@.visible(size),
            r <= size.rows,
    {
        let input: usize = if self.prev_input_height >= 1 {
            self.prev_input_height
        } else {
            1
        };
        minus(size.rows as usize, input + self.statusline_reserve() as usize)
    }

    /// What the chat shows at present.
    fn chat_snapshot(&self, size: TermSize) -> (r: ChatSnapshot)
        requires
            self.wf(),
        ensures
            r@ == self@.chat_snapshot(size),
    {
        ChatSnapshot {
            feed_generation: self.feed.generation(),
            cols: size.cols,
            chat_margin: self.chat_margin,
            width: self.max_line_width(size),
            visible_rows: self.visible_lines(size),
            scroll_offset: self.scroll_offset,
            selection_active: self.selection_active,
            selection_start: self.selection_start,
            selection_end: self.selection_end,
            partial: string_of(&chars_of(self.partial.as_str())),
            partial_style: self.partial_style,
            chat_bg: self.chat_bg,
            monochrome: self.monochrome,
        }
    }

    /// Whether the chat has to be painted again: it was marked so, or what it
    /// shows changed since it was painted last.
    pub fn chat_needs_redraw(&self, size: TermSize) -> (r: bool)
        requires
            self.wf(),
        ensures
            r == self@.chat_stale(size),
    {
        if self.chat_dirty {
            return true;
        }
        match &self.last_chat_snapshot {
            Some(prev) => !same_chat(prev, &self.chat_snapshot(size)),
            None => true,
        }
    }

    /// Records that the chat was painted as it is.
    pub fn record_chat_drawn(&mut self, size: TermSize)
        requires
            old(self).wf(),
        ensures
            final(self).wf(),
            final(self)@ == painted(old(self)@, size),
            !final(self)@.chat_stale(size),
    {
        let snapshot = self.chat_snapshot(size);
        self.last_chat_snapshot = Some(snapshot);
        self.chat_dirty = false;
    }

    /// Marks the whole screen to be painted again.
    pub fn invalidate(&mut self)
        requires
            old(self).wf(),
        ensures
            final(self).wf(),
            final(self)@ == (RendererView { chat_dirty: true, bottom_dirty: true, ..old(self)@ }),
    {
        self.chat_dirty = true;
        self.bottom_dirty = true;
    }

    /// Rows that the input takes for a text.
    fn input_visible_height(&self, input_line: &str, size: TermSize) -> (r: usize)
        requires
            self.wf(),
        ensures
            r == self@.input_height(input_line@, size),
            r <= u16::MAX,
    {
        if self.permission_prompt.is_some() || self.chain_prompt.is_some() {
            return 2;
        }
        let limit = input_row_limit(self.available_rows(size)) as usize;
        let pieces = split_of(&chars_of(input_line), '\n');
        assert(split(input_line@, '\n').len() == pieces@.len());
        let rows: usize = if pieces.len() <= limit {
            pieces.len()
        } else {
            limit
        };
        if rows >= 1 {
            rows
        } else {
            1
        }
    }

    /// Takes over the height that the input is about to have, so that the chat
    /// is painted in what is left. Rows that the input no longer takes are
    /// cleared.
    pub fn sync_input_height(&mut self, input_line: &str, size: TermSize) -> (r: Vec<DrawOp>)
        requires
            old(self).wf(),
        ensures
            final(self).wf(),
            ({
                let height = old(self)@.input_height(input_line@, size);
                &&& height <= usize::MAX
                &&& final(self)@ == (RendererView {
                    prev_input_height: height as usize,
                    ..old(self)@
                })
                &&& op_views(r@) == shrunk_rows(
                    old(self)@.available(size),
                    old(self)@.prev_input_height as nat,
                    height,
                    old(self)@.input_bg,
                )
            }),
    {
        let height = self.input_visible_height(input_line, size);
        let mut out: Vec<DrawOp> = Vec::new();
        assert(op_views(out@) =~= Seq::<OpView>::empty());
        clear_shrunk_rows(
            &mut out,
            self.available_rows(size),
            self.prev_input_height,
            height,
            self.input_bg,
        );
        self.prev_input_height = height;
        assert(op_views(out@) =~= shrunk_rows(
            old(self)@.available(size),
            old(self)@.prev_input_height as nat,
            height as nat,
            old(self)@.input_bg,
        ));
        out
    }

    /// The line of the chat in a row of the screen. `None` for an empty chat
    /// and for the padding above it; a row below the last line gives a
    /// position past the end.
    pub fn buffer_line_at_row(&mut self, row: u16, size: TermSize) -> (r: Option<usize>)
        requires
            old(self).wf(),
        ensures
            final(self).wf(),
            final(self)@ == old(self)@,
            ({
                let v = old(self)@;
                let pad = v.top_padding(size);
                if v.screen_lines(size).len() == 0 || row < pad {
                    r is None
                } else {
                    r matches Some(i) && i == least(
                        (v.first_line(size) + row - pad) as nat,
                        usize::MAX as nat,
                    )
                }
            }),
    {
        let total = self.buffer_len(size);
        if total == 0 {
            return None;
        }
        let visible = self.visible_lines(size);
        let pad: usize = if self.scroll_offset == 0 {
            minus(visible, total)
        } else {
            0
        };
        if (row as usize) < pad {
            return None;
        }
        let start = self.first_shown(total, visible);
        let below: usize = row as usize - pad;
        if below <= usize::MAX - start {
            Some(start + below)
        } else {
            Some(usize::MAX)
        }
    }

    /// The first line in view.
    fn first_shown(&self, total: usize, visible: usize) -> (r: usize)
        ensures
            r == less(total as nat, self.scroll_offset as nat + visible as nat),
    {
        minus(minus(total, visible), self.scroll_offset)
    }

    /// Drops the selection.
    pub fn clear_selection(&mut self)
        requires
            old(self).wf(),
        ensures
            final(self).wf(),
            final(self)@ == (RendererView {
                chat_dirty: true,
                selection_active: false,
                selection_start: None,
                selection_end: None,
                ..old(self)@
            }),
    {
        self.chat_dirty = true;
        self.selection_active = false;
        self.selection_start = None;
        self.selection_end = None;
    }

    /// The address in a line of the chat that a column of the screen falls on.
    pub fn link_url_at(&mut self, buf_idx: usize, col: u16, size: TermSize) -> (r: Option<String>)
        requires
            old(self).wf(),
        ensures
            final(self).wf(),
            final(self)@ == old(self)@,
            ({
                let v = old(self)@;
                let ls = v.screen_lines(size);
                let at = less(col as nat, v.chat_margin as nat);
                let found = if buf_idx < ls.len() {
                    let text = ls[buf_idx as int].text;
                    url_under(v.feed.widths, text, urls(text), at, 0)
                } else {
                    None
                };
                match found {
                    Some(u) => r matches Some(s) && s@ == u,
                    None => r is None,
                }
            }),
    {
        let width = self.max_line_width(size);
        let lines = self.chat_lines(width);
        assert(line_views(lines@).len() == lines@.len());
        if buf_idx >= lines.len() {
            return None;
        }
        assert(line_views(lines@)[buf_idx as int] == lines@[buf_idx as int]@);
        let at = minus(col as usize, self.chat_margin as usize);
        self.urls.url_at_column(lines[buf_idx].as_str(), at, self.feed.char_widths())
    }

    /// The text of the selected lines. `None` where nothing is selected or
    /// there is no text.
    pub fn selected_text(&mut self, size: TermSize) -> (r: Option<String>)
        requires
            old(self).wf(),
        ensures
            final(self).wf(),
            final(self)@ == old(self)@,
            ({
                let v = old(self)@;
                match (v.selection_start, v.selection_end) {
                    (Some(a), Some(b)) => {
                        let text = selection_text(v.screen_lines(size), a as nat, b as nat);
                        match r {
                            Some(s) => s@ == text && text.len() > 0,
                            None => text.len() == 0,
                        }
                    },
                    _ => r is None,
                }
            }),
    {
        let (start, end): (usize, usize) = match (self.selection_start, self.selection_end) {
            (Some(a), Some(b)) => (a, b),
            _ => {
                return None;
            },
        };
        let width = self.max_line_width(size);
        let lines = self.chat_lines(width);
        crate::feed::join_lines(&lines, start, end)
    }

    /// Appends the line that is being written to the feed.
    pub(crate) fn commit_partial(&mut self)
        requires
            old(self).wf(),
        ensures
            final(self).wf(),
            final(self)@ == old(self)@.committed(),
    {
        let text = chars_of(self.partial.as_str());
        if text.len() > 0 {
            let s = string_of(&text);
            self.feed.push_block(self.partial_style, s.as_str());
            self.partial.clear();
            self.chat_dirty = true;
        }
    }

    /// Whether the chat is scrolled up.
    pub fn is_scrolling(&self) -> (r: bool)
        ensures
            r == (self@.scroll_offset > 0),
    {
        self.scroll_offset > 0
    }
}

/// The screen once its chat has been painted.
pub open spec fn painted(r: RendererView, size: TermSize) -> RendererView {
    RendererView { last_chat_snapshot: Some(r.chat_snapshot(size)), chat_dirty: false, ..r }
}

/// A chat that was just painted is not painted again, however often that is
/// asked, as long as the terminal keeps its size.
pub proof fn lemma_painted_stays(r: RendererView, size: TermSize)
    ensures
        !painted(r, size).chat_stale(size),
        painted(painted(r, size), size) == painted(r, size),
{
}

/// A chat that was painted is painted again after every change of the feed,
/// whichever blocks it leaves, and after any `n` of them that the counter can
/// tell apart; after a change of the selection; and where the selection is
/// dropped or the screen is marked to be painted again. A chat that was never
/// painted is painted in any case.
pub proof fn lemma_changes_are_painted(
    r: RendererView,
    size: TermSize,
    feed: FeedView,
    n: nat,
    blocks: Seq<BlockView>,
    active: bool,
    start: Option<usize>,
    end: Option<usize>,
)
    ensures
        ({
            let p = painted(r, size);
            &&& (RendererView {
                feed: r.feed.changed(blocks),
                ..p
            }).chat_stale(size)
            &&& 0 < n <= u64::MAX && feed.generation == counted(r.feed.generation, n) ==> (
            RendererView { feed, ..p }).chat_stale(size)
            &&& active != r.selection_active ==> (RendererView {
                selection_active: active,
                ..p
            }).chat_stale(size)
            &&& start != r.selection_start ==> (RendererView {
                selection_start: start,
                ..p
            }).chat_stale(size)
            &&& end != r.selection_end ==> (RendererView { selection_end: end, ..p }).chat_stale(
                size,
            )
            &&& (RendererView {
                chat_dirty: true,
                selection_active: false,
                selection_start: None,
                selection_end: None,
                ..p
            }).chat_stale(size)
            &&& (RendererView { chat_dirty: true, bottom_dirty: true, ..p }).chat_stale(size)
            &&& (RendererView { last_chat_snapshot: None, ..r }).chat_stale(size)
        }),
{
}

} // verus!
