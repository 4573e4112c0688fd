//! The conversation feed: blocks of text that can be laid out at any width.

use vstd::prelude::*;

use crate::color::{Color, C_AGENT, C_ERROR, C_PERM, C_TOOL};
use crate::line::{
    colored, copy_lines, extend_lines, line, line_views, push_wrapped, LineEntry, LineView,
};
use crate::markdown::{markdown_to_styled, pieces_to, push_pieces, styled};
use crate::markup::md_events;
use crate::text::{chars_of, slice_of, split, string_of, trim_end_char, trim_end_char_of};
use crate::width::{CharWidths, WidthTable};
use crate::wrap::{word_wrap, wrap_text};

verus! {

/// What a block of the conversation is. Roles are independent of terminal
/// colors; [`BlockStyle::color`] maps each to the color it is drawn in.
#[derive(Clone, Copy, Debug, PartialEq, Eq, Structural)]
pub enum BlockStyle {
    User,
    Agent,
    Reasoning,
    Tool,
    ToolResult,
    Error,
    System,
    Welcome,
    Permission,
    Plain,
}

/// The color of a role.
pub open spec fn style_color(style: BlockStyle) -> Color {
    match style {
        BlockStyle::User => Color::Green,
        BlockStyle::Agent => Color::White,
        BlockStyle::Reasoning => Color::DarkMagenta,
        BlockStyle::Tool => Color::Yellow,
        BlockStyle::ToolResult => Color::DarkGrey,
        BlockStyle::Error => Color::Red,
        BlockStyle::System => Color::DarkGrey,
        BlockStyle::Welcome => Color::Cyan,
        BlockStyle::Permission => Color::Magenta,
        BlockStyle::Plain => Color::White,
    }
}

/// The role that a color stands for.
pub open spec fn color_style(color: Color) -> BlockStyle {
    match color {
        Color::Green => BlockStyle::User,
        Color::DarkMagenta => BlockStyle::Reasoning,
        Color::Yellow => BlockStyle::Tool,
        Color::DarkGrey => BlockStyle::System,
        Color::Cyan => BlockStyle::Welcome,
        Color::Red => BlockStyle::Error,
        Color::Magenta => BlockStyle::Permission,
        _ => BlockStyle::Plain,
    }
}

impl BlockStyle {
    /// The color in which blocks of this role are drawn.
    pub fn color(self) -> (r: Color)
        ensures
            r == style_color(self),
    {
        match self {
            BlockStyle::User => Color::Green,
            BlockStyle::Agent => C_AGENT,
            BlockStyle::Reasoning => Color::DarkMagenta,
            BlockStyle::Tool => C_TOOL,
            BlockStyle::ToolResult => Color::DarkGrey,
            BlockStyle::Error => C_ERROR,
            BlockStyle::System => Color::DarkGrey,
            BlockStyle::Welcome => Color::Cyan,
            BlockStyle::Permission => C_PERM,
            BlockStyle::Plain => Color::White,
        }
    }
}

/// The role that a color stands for.
pub fn style_from_color(color: Color) -> (r: BlockStyle)
    ensures
        r == color_style(color),
{
    match color {
        Color::Green => BlockStyle::User,
        Color::DarkMagenta => BlockStyle::Reasoning,
        Color::Yellow => BlockStyle::Tool,
        Color::DarkGrey => BlockStyle::System,
        Color::Cyan => BlockStyle::Welcome,
        Color::Red => BlockStyle::Error,
        Color::Magenta => BlockStyle::Permission,
        _ => BlockStyle::Plain,
    }
}

/// A role is found again from its color, but for the two roles that share the
/// color of another.
pub proof fn lemma_style_of_color(style: BlockStyle)
    requires
        !(style is Agent || style is ToolResult),
    ensures
        color_style(style_color(style)) == style,
{
}

// ---------------------------------------------------------------------------
// Layout
// ---------------------------------------------------------------------------

/// What a [`Block`] holds, apart from what it has memoized.
pub struct BlockView {
    pub style: BlockStyle,
    pub text: Seq<char>,
    pub running: bool,
}

/// The length of `s` up to and with its last line feed.
pub open spec fn completed_len(s: Seq<char>) -> nat
    decreases s.len(),
{
    if s.len() == 0 || s.last() == '\n' {
        s.len()
    } else {
        completed_len(s.drop_last())
    }
}

/// The text of a block that is laid out as Markdown: the completed lines while
/// it is still growing, all of it afterwards.
pub open spec fn parsed_len(b: BlockView) -> nat {
    if b.running {
        completed_len(b.text)
    } else {
        b.text.len()
    }
}

/// Markdown laid out at a width.
pub open spec fn md_lines(t: WidthTable, width: nat, text: Seq<char>) -> Seq<LineView> {
    if text.len() == 0 {
        Seq::empty()
    } else {
        styled(t, width, md_events(text))
    }
}

/// The unfinished last line of a growing block, as plain text.
pub open spec fn tail_lines(t: WidthTable, width: nat, b: BlockView) -> Seq<LineView> {
    let tail = trim_end_char(b.text.skip(parsed_len(b) as int), '\r');
    if tail.len() == 0 {
        Seq::empty()
    } else {
        colored(wrap_text(t, tail, width), Color::White)
    }
}

/// The lines of an agent block, without the mark on the first.
pub open spec fn agent_lines(t: WidthTable, width: nat, b: BlockView) -> Seq<LineView> {
    md_lines(t, width, b.text.take(parsed_len(b) as int)) + tail_lines(t, width, b)
}

/// The lines with the agent's mark on the first.
pub open spec fn marked(ls: Seq<LineView>) -> Seq<LineView> {
    if ls.len() == 0 {
        ls
    } else {
        ls.update(0, line("< "@ + ls[0].text, ls[0].color))
    }
}

/// The lines of one block.
pub open spec fn block_lines(t: WidthTable, width: nat, b: BlockView) -> Seq<LineView> {
    if b.style is Agent {
        marked(agent_lines(t, width, b))
    } else {
        let pieces = split(b.text, '\n');
        pieces_to(t, width, style_color(b.style), pieces, pieces.len())
    }
}

/// The lines of all blocks.
pub open spec fn feed_lines(t: WidthTable, width: nat, bs: Seq<BlockView>) -> Seq<LineView>
    decreases bs.len(),
{
    if bs.len() == 0 {
        Seq::empty()
    } else {
        feed_lines(t, width, bs.drop_last()) + block_lines(t, width, bs.last())
    }
}

// ---------------------------------------------------------------------------
// The viewport
// ---------------------------------------------------------------------------

/// How many of `total` rows a viewport shows.
pub open spec fn shown(total: nat, height: nat) -> nat {
    if height <= total {
        height
    } else {
        total
    }
}

/// The first row that a viewport shows, scrolled up by `offset` rows from the
/// bottom.
pub open spec fn view_start(total: nat, offset: nat, height: nat) -> nat {
    let above = total - shown(total, height) - offset;
    if above <= 0 {
        0
    } else {
        above as nat
    }
}

/// One past the last row that a viewport shows.
pub open spec fn view_end(total: nat, offset: nat, height: nat) -> nat {
    view_start(total, offset, height) + shown(total, height)
}

/// Empty rows above content that does not fill a viewport at the bottom.
pub open spec fn padding(total: nat, offset: nat, height: nat) -> nat {
    if offset == 0 && total < height {
        (height - total) as nat
    } else {
        0
    }
}

/// The line shown in a row of the viewport.
pub open spec fn row_line(total: nat, offset: nat, height: nat, row: nat) -> Option<nat> {
    let pad = padding(total, offset, height);
    let index = view_start(total, offset, height) + row - pad;
    if row >= pad && index < view_end(total, offset, height) {
        Some(index as nat)
    } else {
        None
    }
}

/// The texts of `lines[lo..hi]`, one below the other. Empty lines before the
/// first text are left out.
pub open spec fn joined(ls: Seq<LineView>, lo: int, hi: int) -> Seq<char>
    decreases hi - lo,
{
    if hi <= lo {
        Seq::empty()
    } else {
        let before = joined(ls, lo, hi - 1);
        (if before.len() == 0 {
            before
        } else {
            before.push('\n')
        }) + ls[hi - 1].text
    }
}

/// The text of the lines between two positions, in either order.
pub open spec fn selection_text(ls: Seq<LineView>, start: nat, end: nat) -> Seq<char> {
    let (lo, hi) = if start <= end {
        (start, end)
    } else {
        (end, start)
    };
    joined(
        ls,
        lo as int,
        if hi + 1 <= ls.len() {
            (hi + 1) as int
        } else {
            ls.len() as int
        },
    )
}

// ---------------------------------------------------------------------------
// Blocks
// ---------------------------------------------------------------------------

/// The Markdown layout of the first `parsed_len` characters of a block.
struct MdCache {
    width: usize,
    parsed_len: usize,
    lines: Vec<LineEntry>,
}

/// A block of the conversation. It stores raw text; the layout happens when
/// [`Feed::lines`] is called.
pub struct Block {
    pub style: BlockStyle,
    pub text: String,
    running: bool,
    md_cache: Option<MdCache>,
}

impl View for Block {
    type V = BlockView;

    closed spec fn view(&self) -> BlockView {
        BlockView { style: self.style, text: self.text@, running: self.running }
    }
}

impl Block {
    /// Whether what is memoized is the layout of the text.
    pub closed spec fn wf(&self, t: WidthTable) -> bool {
        match self.md_cache {
            Some(c) => {
                &&& c.parsed_len <= self.text@.len()
                &&& line_views(c.lines@) == md_lines(
                    t,
                    c.width as nat,
                    self.text@.take(c.parsed_len as int),
                )
            },
            None => true,
        }
    }

    /// A complete block.
    pub fn new(style: BlockStyle, text: &str) -> (r: Block)
        ensures
            r@ == (BlockView { style, text: text@, running: false }),
            forall|t: WidthTable| r.wf(t),
    {
        let mut s = String::new();
        s.push_str(text);
        assert(s@ =~= text@);
        Block { style, text: s, running: false, md_cache: None }
    }
}

/// The views of a list of blocks.
pub open spec fn block_views(v: Seq<Block>) -> Seq<BlockView> {
    v.map_values(|b: Block| b@)
}

/// Length of `v` up to and with its last line feed.
fn completed_len_of(v: &Vec<char>) -> (r: usize)
    ensures
        r == completed_len(v@),
        r <= v@.len(),
{
    let mut n: usize = v.len();
    assert(v@.take(n as int) =~= v@);
    while n > 0 && v[n - 1] != '\n'
        invariant
            n <= v@.len(),
            completed_len(v@) == completed_len(v@.take(n as int)),
        decreases n,
    {
        assert(v@.take(n as int).drop_last() =~= v@.take(n - 1));
        n = n - 1;
    }
    n
}

/// The memoized layout, where it is that of `parsed_len` characters at `width`.
fn cached_agent_lines(block: &Block, width: usize, parsed_len: usize) -> (r: Option<Vec<LineEntry>>)
    ensures
        match block.md_cache {
            Some(c) if c.width == width && c.parsed_len == parsed_len => r matches Some(ls)
                && line_views(ls@) == line_views(c.lines@),
            _ => r is None,
        },
{
    match &block.md_cache {
        Some(c) => {
            if c.width == width && c.parsed_len == parsed_len {
                Some(copy_lines(&c.lines))
            } else {
                None
            }
        },
        None => None,
    }
}

/// Lays out an agent block: Markdown for completed lines, plain text for the
/// unfinished last line of one that is still growing.
fn agent_block_lines(block: &mut Block, width: usize, widths: &CharWidths) -> (r: Vec<LineEntry>)
    requires
        old(block).wf(widths@),
    ensures
        line_views(r@) == agent_lines(widths@, width as nat, old(block)@),
        final(block)@ == old(block)@,
        final(block).wf(widths@),
{
    let ghost t = widths@;
    let v = chars_of(block.text.as_str());
    let parsed: usize = if block.running {
        completed_len_of(&v)
    } else {
        v.len()
    };
    assert(parsed == parsed_len(block@));
    let prefix = slice_of(&v, 0, parsed);
    assert(prefix@ =~= block@.text.take(parsed as int));
    let mut lines = match cached_agent_lines(block, width, parsed) {
        Some(ls) => ls,
        None => {
            let s = string_of(&prefix);
            let ls = markdown_to_styled(s.as_str(), width, widths);
            block.md_cache = Some(MdCache { width, parsed_len: parsed, lines: copy_lines(&ls) });
            ls
        },
    };
    assert(line_views(lines@) == md_lines(t, width as nat, block@.text.take(parsed as int)));
    let tail = trim_end_char_of(&slice_of(&v, parsed, v.len()), '\r');
    assert(v@.subrange(parsed as int, v@.len() as int) =~= block@.text.skip(parsed as int));
    if tail.len() > 0 {
        let s = string_of(&tail);
        let chunks = word_wrap(s.as_str(), width, widths);
        push_wrapped(&mut lines, &chunks, BlockStyle::Agent.color());
    } else {
        assert(line_views(lines@) =~= line_views(lines@) + Seq::<LineView>::empty());
    }
    lines
}

// ---------------------------------------------------------------------------
// The feed
// ---------------------------------------------------------------------------

/// The layout of the whole feed at a width.
struct LayoutCache {
    width: usize,
    lines: Vec<LineEntry>,
}

/// A sequence of blocks that can be laid out at any width.
///
/// Layouts are memoized: that of the whole feed until the feed changes, and
/// the Markdown layout of each block until its completed text changes.
pub struct Feed {
    blocks: Vec<Block>,
    generation: u64,
    layout_cache: Option<LayoutCache>,
    widths: CharWidths,
}

/// What a [`Feed`] holds, apart from what it has memoized.
pub struct FeedView {
    pub blocks: Seq<BlockView>,
    /// The number of changes made so far; it starts over where it is too large
    /// to be counted.
    pub generation: u64,
    pub widths: WidthTable,
}

impl View for Feed {
    type V = FeedView;

    closed spec fn view(&self) -> FeedView {
        FeedView {
            blocks: block_views(self.blocks@),
            generation: self.generation,
            widths: self.widths@,
        }
    }
}

/// A counter after `n` more changes. It starts over behind the largest number.
pub open spec fn counted(generation: u64, n: nat) -> u64 {
    ((generation + n) % 0x1_0000_0000_0000_0000) as u64
}

impl FeedView {
    /// The laid-out lines.
    pub open spec fn lines(self, width: nat) -> Seq<LineView> {
        feed_lines(self.widths, width, self.blocks)
    }

    /// The feed after a change of its blocks.
    pub open spec fn changed(self, blocks: Seq<BlockView>) -> FeedView {
        FeedView { blocks, generation: counted(self.generation, 1), widths: self.widths }
    }
}

impl Feed {
    /// Whether everything memoized is the layout of what the feed holds.
    pub closed spec fn wf(&self) -> bool {
        &&& forall|i: int| 0 <= i < self.blocks@.len() ==> (#[trigger] self.blocks@[i]).wf(self.widths@)
        &&& match self.layout_cache {
            Some(c) => {
                line_views(c.lines@) == feed_lines(
                    self.widths@,
                    c.width as nat,
                    block_views(self.blocks@),
                )
            },
            None => true,
        }
    }

    /// An empty feed for a terminal with the given character widths.
    pub fn new(widths: CharWidths) -> (r: Feed)
        ensures
            r.wf(),
            r@ == (FeedView { blocks: Seq::empty(), generation: 0, widths: widths@ }),
    {
        let r = Feed { blocks: Vec::new(), generation: 0, layout_cache: None, widths };
        assert(block_views(r.blocks@) =~= Seq::<BlockView>::empty());
        r
    }

    /// The character widths the feed is laid out with.
    pub fn char_widths(&self) -> (r: &CharWidths)
        ensures
            r@ == self@.widths,
    {
        &self.widths
    }

    /// Counter of the changes to the contents: every one of them gives it another
    /// value.
    pub fn generation(&self) -> (r: u64)
        ensures
            r == self@.generation,
    {
        self.generation
    }

    /// Counts a change. The layout of the feed is no longer what it was.
    fn count_change(&mut self)
        ensures
            final(self).generation == counted(old(self).generation, 1),
            final(self).layout_cache is None,
            final(self).blocks == old(self).blocks,
            final(self).widths == old(self).widths,
    {
        self.generation = self.generation.wrapping_add(1);
        self.layout_cache = None;
    }

    /// Removes all blocks.
    pub fn clear(&mut self)
        requires
            old(self).wf(),
        ensures
            final(self).wf(),
            final(self)@ == old(self)@.changed(Seq::empty()),
    {
        self.count_change();
        self.blocks = Vec::new();
        assert(block_views(self.blocks@) =~= Seq::<BlockView>::empty());
    }

    /// Whether there are no blocks.
    pub fn is_empty(&self) -> (r: bool)
        ensures
            r == (self@.blocks.len() == 0),
    {
        self.blocks.len() == 0
    }

    /// The number of blocks.
    pub fn block_count(&self) -> (r: usize)
        ensures
            r == self@.blocks.len(),
    {
        self.blocks.len()
    }

    /// Appends a block.
    fn add(&mut self, block: Block)
        requires
            old(self).wf(),
            block.wf(old(self)@.widths),
        ensures
            final(self).wf(),
            final(self)@ == old(self)@.changed(old(self)@.blocks.push(block@)),
    {
        self.count_change();
        self.blocks.push(block);
        assert(block_views(self.blocks@) =~= block_views(old(self).blocks@).push(block@));
        assert forall|i: int| 0 <= i < self.blocks@.len() implies (#[trigger] self.blocks@[i]).wf(
            self.widths@,
        ) by {
            if i < old(self).blocks@.len() {
                assert(self.blocks@[i] == old(self).blocks@[i]);
            }
        }
    }

    /// Appends a complete block.
    pub fn push_block(&mut self, style: BlockStyle, text: &str)
        requires
            old(self).wf(),
        ensures
            final(self).wf(),
            final(self)@ == old(self)@.changed(
                old(self)@.blocks.push((BlockView { style, text: text@, running: false })),
            ),
    {
        let block = Block::new(style, text);
        self.add(block);
    }

    /// Appends an empty block that will grow (for example by the tokens of an
    /// answer). Call [`Feed::finalize_last`] when it is complete.
    pub fn push_streaming_block(&mut self, style: BlockStyle)
        requires
            old(self).wf(),
        ensures
            final(self).wf(),
            final(self)@ == old(self)@.changed(
                old(self)@.blocks.push((BlockView { style, text: Seq::empty(), running: true })),
            ),
    {
        let block = Block { style, text: String::new(), running: true, md_cache: None };
        assert(block.text@ =~= Seq::<char>::empty());
        self.add(block);
    }

    /// Puts `block` in the place of the last one.
    fn set_last(&mut self, block: Block)
        requires
            old(self).wf(),
            old(self)@.blocks.len() > 0,
            block.wf(old(self)@.widths),
        ensures
            final(self).wf(),
            final(self)@ == old(self)@.changed(
                old(self)@.blocks.update(old(self)@.blocks.len() - 1, block@),
            ),
    {
        self.count_change();
        let last: usize = self.blocks.len() - 1;
        self.blocks.set(last, block);
        assert(block_views(self.blocks@) =~= block_views(old(self).blocks@).update(
            last as int,
            block@,
        ));
        assert forall|i: int| 0 <= i < self.blocks@.len() implies (#[trigger] self.blocks@[i]).wf(
            self.widths@,
        ) by {
            if i < last {
                assert(self.blocks@[i] == old(self).blocks@[i]);
            }
        }
    }

    /// Marks the last block as complete: from now on all of its text is laid
    /// out as Markdown. Does nothing where the last block is complete.
    pub fn finalize_last(&mut self)
        requires
            old(self).wf(),
        ensures
            final(self).wf(),
            ({
                let bs = old(self)@.blocks;
                final(self)@ == if bs.len() > 0 && bs.last().running {
                    old(self)@.changed(
                        bs.update(bs.len() - 1, (BlockView { running: false, ..bs.last() })),
                    )
                } else {
                    old(self)@
                }
            }),
    {
        let n: usize = self.blocks.len();
        if n > 0 && self.blocks[n - 1].running {
            let last = &self.blocks[n - 1];
            let block = Block {
                style: last.style,
                text: last.text.clone(),
                running: false,
                md_cache: None,
            };
            self.set_last(block);
        }
    }

    /// Appends a complete block.
    pub fn push_line(&mut self, style: BlockStyle, text: &str)
        requires
            old(self).wf(),
        ensures
            final(self).wf(),
            final(self)@ == old(self)@.changed(
                old(self)@.blocks.push((BlockView { style, text: text@, running: false })),
            ),
    {
        self.push_block(style, text);
    }

    /// Appends `text` to the last block. Returns `false` where there is none.
    pub fn append_to_last(&mut self, text: &str) -> (r: bool)
        requires
            old(self).wf(),
        ensures
            final(self).wf(),
            r == (old(self)@.blocks.len() > 0),
            ({
                let bs = old(self)@.blocks;
                final(self)@ == if r {
                    old(self)@.changed(
                        bs.update(
                            bs.len() - 1,
                            (BlockView { text: bs.last().text + text@, ..bs.last() }),
                        ),
                    )
                } else {
                    old(self)@
                }
            }),
    {
        match self.blocks.pop() {
            Some(mut last) => {
                let ghost before = last;
                assert(before == old(self).blocks@.last());
                assert(old(self).blocks@[old(self).blocks@.len() - 1].wf(self.widths@));
                last.text.push_str(text);
                proof {
                    let c = last.md_cache->0;
                    if last.md_cache is Some {
                        assert(last.text@.take(c.parsed_len as int) =~= before.text@.take(
                            c.parsed_len as int,
                        ));
                    }
                    assert(last.wf(self.widths@));
                }
                self.count_change();
                self.blocks.push(last);
                assert(block_views(self.blocks@) =~= block_views(old(self).blocks@).update(
                    self.blocks@.len() - 1,
                    last@,
                ));
                assert forall|i: int|
                    0 <= i < self.blocks@.len() implies (#[trigger] self.blocks@[i]).wf(
                    self.widths@,
                ) by {
                    if i < self.blocks@.len() - 1 {
                        assert(self.blocks@[i] == old(self).blocks@[i]);
                    }
                }
                true
            },
            None => false,
        }
    }

    /// Puts a complete block in the place of the last one, or appends it to an
    /// empty feed.
    pub fn replace_last(&mut self, style: BlockStyle, text: &str)
        requires
            old(self).wf(),
        ensures
            final(self).wf(),
            ({
                let bs = old(self)@.blocks;
                let block = BlockView { style, text: text@, running: false };
                final(self)@ == old(self)@.changed(
                    if bs.len() > 0 {
                        bs.update(bs.len() - 1, block)
                    } else {
                        bs.push(block)
                    },
                )
            }),
    {
        let block = Block::new(style, text);
        if self.blocks.len() > 0 {
            self.set_last(block);
        } else {
            self.add(block);
        }
    }

    /// Keeps the first `len` blocks.
    pub fn truncate_blocks(&mut self, len: usize)
        requires
            old(self).wf(),
        ensures
            final(self).wf(),
            final(self)@ == old(self)@.changed(
                if len < old(self)@.blocks.len() {
                    old(self)@.blocks.take(len as int)
                } else {
                    old(self)@.blocks
                },
            ),
    {
        self.count_change();
        self.blocks.truncate(len);
        proof {
            if len < old(self).blocks@.len() {
                assert(block_views(self.blocks@) =~= block_views(old(self).blocks@).take(
                    len as int,
                ));
            } else {
                assert(self.blocks@ =~= old(self).blocks@);
            }
            assert forall|i: int|
                0 <= i < self.blocks@.len() implies (#[trigger] self.blocks@[i]).wf(
                self.widths@,
            ) by {
                assert(self.blocks@[i] == old(self).blocks@[i]);
            }
        }
    }

    /// Lays out every block.
    fn compute_lines(&mut self, width: usize) -> (r: Vec<LineEntry>)
        requires
            old(self).wf(),
        ensures
            final(self).wf(),
            final(self)@ == old(self)@,
            line_views(r@) == old(self)@.lines(width as nat),
    {
        let ghost start = self@;
        let mut result: Vec<LineEntry> = Vec::new();
        let n: usize = self.blocks.len();
        assert(start.blocks.take(0) =~= Seq::<BlockView>::empty());
        assert(line_views(result@) =~= Seq::<LineView>::empty());
        for i in 0..n
            invariant
                self.wf(),
                self@ == start,
                n == self.blocks@.len(),
                line_views(result@) == feed_lines(
                    start.widths,
                    width as nat,
                    start.blocks.take(i as int),
                ),
        {
            let ghost before = *self;
            assert(start.blocks.take(i + 1).drop_last() =~= start.blocks.take(i as int));
            assert(start.blocks[i as int] == self.blocks@[i as int]@);
            assert(self.blocks@[i as int].wf(self.widths@));
            if self.blocks[i].style == BlockStyle::Agent {
                let mut ls = agent_block_lines(&mut self.blocks[i], width, &self.widths);
                proof {
                    assert(block_views(self.blocks@) =~= block_views(before.blocks@));
                    assert forall|j: int|
                        0 <= j < self.blocks@.len() implies (#[trigger] self.blocks@[j]).wf(
                        self.widths@,
                    ) by {
                        if j != i {
                            assert(self.blocks@[j] == before.blocks@[j]);
                        }
                    }
                }
                if ls.len() > 0 {
                    let ghost plain = line_views(ls@);
                    let mut s = String::new();
                    s.push_str("< ");
                    s.push_str(ls[0].as_str());
                    assert(s@ =~= "< "@ + plain[0].text);
                    let first = LineEntry::new(s.as_str(), ls[0].color);
                    ls.set(0, first);
                    assert(line_views(ls@) =~= marked(plain));
                }
                extend_lines(&mut result, &ls);
            } else {
                let color = self.blocks[i].style.color();
                push_pieces(self.blocks[i].text.as_str(), color, width, &self.widths, &mut result);
            }
        }
        assert(start.blocks.take(n as int) =~= start.blocks);
        result
    }

    /// The laid-out lines, one for each row. Agent blocks are laid out as
    /// Markdown, all others as plain text in the color of their role.
    pub fn lines(&mut self, width: usize) -> (r: Vec<LineEntry>)
        requires
            old(self).wf(),
        ensures
            final(self).wf(),
            final(self)@ == old(self)@,
            line_views(r@) == old(self)@.lines(width as nat),
    {
        if let Some(c) = &self.layout_cache {
            if c.width == width {
                return copy_lines(&c.lines);
            }
        }
        let lines = self.compute_lines(width);
        self.layout_cache = Some(
            LayoutCache { width, lines: copy_lines(&lines) },
        );
        lines
    }

    /// The number of rows.
    pub fn line_count(&mut self, width: usize) -> (r: usize)
        requires
            old(self).wf(),
        ensures
            final(self).wf(),
            final(self)@ == old(self)@,
            r == old(self)@.lines(width as nat).len(),
    {
        let ls = self.lines(width);
        assert(line_views(ls@).len() == ls@.len());
        ls.len()
    }

    /// The first row shown and one past the last, in a viewport scrolled up by
    /// `scroll_offset` rows. Without an offset it sticks to the bottom.
    pub fn visible_range(&mut self, width: usize, scroll_offset: usize, viewport_height: usize) -> (r: (
        usize,
        usize,
    ))
        requires
            old(self).wf(),
        ensures
            final(self).wf(),
            final(self)@ == old(self)@,
            ({
                let total = old(self)@.lines(width as nat).len();
                &&& r.0 == view_start(total, scroll_offset as nat, viewport_height as nat)
                &&& r.1 == view_end(total, scroll_offset as nat, viewport_height as nat)
            }),
    {
        let total = self.line_count(width);
        let start = first_visible(total, scroll_offset, viewport_height);
        let visible: usize = if viewport_height <= total {
            viewport_height
        } else {
            total
        };
        (start, start + visible)
    }

    /// The line shown in a row of the viewport. `None` for padding above
    /// content at the bottom and for rows below the last visible line.
    pub fn line_at_visual_row(
        &mut self,
        width: usize,
        scroll_offset: usize,
        viewport_height: usize,
        row: u16,
    ) -> (r: Option<usize>)
        requires
            old(self).wf(),
        ensures
            final(self).wf(),
            final(self)@ == old(self)@,
            ({
                let total = old(self)@.lines(width as nat).len();
                match row_line(total, scroll_offset as nat, viewport_height as nat, row as nat) {
                    Some(i) => r == Some(i as usize) && i < total && i <= usize::MAX,
                    None => r is None,
                }
            }),
    {
        let total = self.line_count(width);
        let pad: usize = if scroll_offset == 0 && total < viewport_height {
            viewport_height - total
        } else {
            0
        };
        if (row as usize) < pad {
            return None;
        }
        let start = first_visible(total, scroll_offset, viewport_height);
        let below: usize = row as usize - pad;
        let visible: usize = if viewport_height <= total {
            viewport_height
        } else {
            total
        };
        if below < visible {
            Some(start + below)
        } else {
            None
        }
    }

    /// The texts of the lines between two positions. `None` where there is no
    /// text.
    pub fn selected_text(&mut self, width: usize, start: usize, end: usize) -> (r: Option<String>)
        requires
            old(self).wf(),
        ensures
            final(self).wf(),
            final(self)@ == old(self)@,
            ({
                let text = selection_text(
                    old(self)@.lines(width as nat),
                    start as nat,
                    end as nat,
                );
                match r {
                    Some(s) => s@ == text && text.len() > 0,
                    None => text.len() == 0,
                }
            }),
    {
        let lines = self.lines(width);
        join_lines(&lines, start, end)
    }
}

/// The texts of the lines between two positions. `None` where there is no text.
pub fn join_lines(lines: &Vec<LineEntry>, start: usize, end: usize) -> (r: Option<String>)
    ensures
        ({
            let text = selection_text(line_views(lines@), start as nat, end as nat);
            match r {
                Some(s) => s@ == text && text.len() > 0,
                None => text.len() == 0,
            }
        }),
{
    let ghost ls = line_views(lines@);
    let (lo, hi): (usize, usize) = if start <= end {
        (start, end)
    } else {
        (end, start)
    };
    let stop: usize = if hi < lines.len() {
        hi + 1
    } else {
        lines.len()
    };
    let mut result = String::new();
    assert(result@ =~= Seq::<char>::empty());
    let mut i: usize = lo;
    while i < stop
        invariant
            lo <= i,
            stop <= lines@.len(),
            i <= stop || i == lo,
            ls == line_views(lines@),
            result@ == joined(ls, lo as int, i as int),
        decreases stop - i,
    {
        if !is_blank(result.as_str()) {
            result.push('\n');
        }
        assert(ls[i as int] == lines@[i as int]@);
        result.push_str(lines[i].as_str());
        i = i + 1;
    }
    if is_blank(result.as_str()) {
        None
    } else {
        Some(result)
    }
}

/// Whether a string holds nothing.
fn is_blank(s: &str) -> (r: bool)
    ensures
        r == (s@.len() == 0),
{
    chars_of(s).len() == 0
}

/// The first row that a viewport shows.
fn first_visible(total: usize, scroll_offset: usize, viewport_height: usize) -> (r: usize)
    ensures
        r == view_start(total as nat, scroll_offset as nat, viewport_height as nat),
        r + shown(total as nat, viewport_height as nat) <= total,
{
    let visible: usize = if viewport_height <= total {
        viewport_height
    } else {
        total
    };
    if scroll_offset < total - visible {
        total - visible - scroll_offset
    } else {
        0
    }
}

// ---------------------------------------------------------------------------
// Laws
// ---------------------------------------------------------------------------

/// A viewport shows rows that exist, no more of them than it has, and with no
/// offset those at the bottom.
pub proof fn lemma_view_bounds(total: nat, offset: nat, height: nat)
    ensures
        view_start(total, offset, height) <= view_end(total, offset, height) <= total,
        view_end(total, offset, height) - view_start(total, offset, height) <= height,
        offset == 0 ==> view_end(total, offset, height) == total,
        height >= total ==> view_start(total, offset, height) == 0,
{
}

/// Scrolling further up never shows a later row first.
pub proof fn lemma_scroll_monotonic(total: nat, offset: nat, further: nat, height: nat)
    requires
        offset <= further,
    ensures
        view_start(total, further, height) <= view_start(total, offset, height),
{
}

/// The rows of a viewport show the visible lines, in order: a row that holds a
/// line holds one of the visible range, and the line below it is the next one
/// of that range.
pub proof fn lemma_rows_in_view(total: nat, offset: nat, height: nat, row: nat)
    ensures
        row_line(total, offset, height, row) matches Some(i) ==> view_start(total, offset, height) <= i
            < view_end(total, offset, height),
        row_line(total, offset, height, row) matches Some(i) ==> row_line(
            total,
            offset,
            height,
            row + 1,
        ) == if i + 1 < view_end(total, offset, height) {
            Some((i + 1) as nat)
        } else {
            None
        },
{
}

/// A block that grew piece by piece and was then completed is laid out as one
/// that was complete from the start.
pub proof fn lemma_completed_block(t: WidthTable, width: nat, b: BlockView)
    requires
        b.style is Agent,
        !b.running,
    ensures
        block_lines(t, width, b) == marked(md_lines(t, width, b.text)),
{
    assert(b.text.take(b.text.len() as int) =~= b.text);
    assert(b.text.skip(b.text.len() as int) =~= Seq::<char>::empty());
    assert(trim_end_char(Seq::<char>::empty(), '\r') =~= Seq::<char>::empty());
    assert(agent_lines(t, width, b) =~= md_lines(t, width, b.text));
}

/// While it grows, a block whose last line is complete is laid out as if it
/// were complete.
pub proof fn lemma_running_block_at_line_end(t: WidthTable, width: nat, b: BlockView)
    requires
        b.style is Agent,
        b.running,
        b.text.len() > 0,
        b.text.last() == '\n',
    ensures
        block_lines(t, width, b) == block_lines(t, width, (BlockView { running: false, ..b })),
{
}

/// Appending to the last block, or replacing it, leaves the lines of all
/// blocks before it as they were.
pub proof fn lemma_last_block_alone(
    t: WidthTable,
    width: nat,
    bs: Seq<BlockView>,
    block: BlockView,
)
    requires
        bs.len() > 0,
    ensures
        feed_lines(t, width, bs.update(bs.len() - 1, block)) == feed_lines(
            t,
            width,
            bs.drop_last(),
        ) + block_lines(t, width, block),
{
    assert(bs.update(bs.len() - 1, block).drop_last() =~= bs.drop_last());
}

proof fn lemma_pieces_color(
    t: WidthTable,
    width: nat,
    color: Color,
    pieces: Seq<Seq<char>>,
    n: nat,
)
    ensures
        forall|i: int|
            0 <= i < pieces_to(t, width, color, pieces, n).len() ==> (#[trigger] pieces_to(
                t,
                width,
                color,
                pieces,
                n,
            )[i]).color == color,
    decreases n,
{
    if n > 0 {
        lemma_pieces_color(t, width, color, pieces, (n - 1) as nat);
    }
}

/// A new block of any role but the agent's leaves all rows before it as they
/// are. Its own rows follow, in the color of its role: those of each line of its
/// text, wrapped, and one empty row for a line without text.
pub proof fn lemma_push_block_appends(
    f: FeedView,
    style: BlockStyle,
    text: Seq<char>,
    width: nat,
)
    requires
        !(style is Agent),
    ensures
        ({
            let after = f.changed(f.blocks.push((BlockView { style, text, running: false })));
            let pieces = split(text, '\n');
            let rows = pieces_to(f.widths, width, style_color(style), pieces, pieces.len());
            &&& after.lines(width) == f.lines(width) + rows
            &&& after.lines(width).take(f.lines(width).len() as int) == f.lines(width)
            &&& forall|i: int|
                f.lines(width).len() <= i < after.lines(width).len() ==> (#[trigger] after.lines(
                    width,
                )[i]).color == style_color(style)
        }),
{
    let block = BlockView { style, text, running: false };
    let pieces = split(text, '\n');
    let rows = pieces_to(f.widths, width, style_color(style), pieces, pieces.len());
    assert(f.blocks.push(block).drop_last() =~= f.blocks);
    lemma_pieces_color(f.widths, width, style_color(style), pieces, pieces.len());
    assert((f.lines(width) + rows).take(f.lines(width).len() as int) =~= f.lines(width));
}

/// The rows of more blocks follow those of the blocks before them.
pub proof fn lemma_feed_lines_concat(
    t: WidthTable,
    width: nat,
    a: Seq<BlockView>,
    b: Seq<BlockView>,
)
    ensures
        feed_lines(t, width, a + b) == feed_lines(t, width, a) + feed_lines(t, width, b),
    decreases b.len(),
{
    if b.len() == 0 {
        assert(a + b =~= a);
    } else {
        assert((a + b).drop_last() =~= a + b.drop_last());
        lemma_feed_lines_concat(t, width, a, b.drop_last());
    }
    assert(feed_lines(t, width, a + b) =~= feed_lines(t, width, a) + feed_lines(t, width, b));
}

} // verus!
