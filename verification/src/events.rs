//! Conversations and tool output in the feed.

use vstd::prelude::*;

use crate::draw::{background, op_views, DrawOp, OpView};
use crate::feed::{counted, BlockStyle, BlockView, Feed, FeedView};
use crate::line::CompactText;
use crate::renderer::{Renderer, RendererView};
use crate::session::{
    message_views, CompactionView, Message, MessageRole, MessageView, Session, SessionView,
};
use crate::text::{
    char_seqs, chars_of, decimal, decimal_of, join, join_of, lines, lines_of, push_repeat, repeat,
    slice_of, string_of,
};

verus! {

// ---------------------------------------------------------------------------
// Terminal output as plain text
// ---------------------------------------------------------------------------

/// Whether `c` ends an escape sequence.
pub open spec fn ends_sequence(c: char) -> bool {
    'a' <= c <= 'z' || 'A' <= c <= 'Z' || c == '~'
}

/// One past the character that ends an escape sequence, from `i` on.
pub open spec fn sequence_end(s: Seq<char>, i: int) -> int
    decreases s.len() - i,
{
    if i < 0 || i >= s.len() {
        s.len() as int
    } else if ends_sequence(s[i]) {
        i + 1
    } else {
        sequence_end(s, i + 1)
    }
}

/// Whether `c` is a control character that is left out: all of ASCII but line
/// feed, tab and carriage return.
pub open spec fn dropped_control(c: char) -> bool {
    (c <= '\u{1f}' || c == '\u{7f}') && c != '\n' && c != '\t' && c != '\r'
}

/// One past what is left out at `i` as a whole: an escape sequence, or a single
/// character.
pub open spec fn unit_end(s: Seq<char>, i: int) -> int {
    if s[i] != '\u{1b}' {
        i + 1
    } else if i + 1 >= s.len() {
        s.len() as int
    } else if s[i + 1] == '[' || s[i + 1] == ']' {
        sequence_end(s, i + 2)
    } else {
        i + 2
    }
}

/// What is left of a text from the unit at `from` on.
pub open spec fn sanitized_from(s: Seq<char>, from: int) -> Seq<char>
    decreases s.len() - from,
{
    let next = unit_end(s, from);
    if 0 <= from < next && next <= s.len() {
        let rest = sanitized_from(s, next);
        if s[from] == '\u{1b}' || dropped_control(s[from]) {
            rest
        } else {
            seq![s[from]] + rest
        }
    } else {
        Seq::empty()
    }
}

/// A text without escape sequences and control characters.
pub open spec fn sanitized(s: Seq<char>) -> Seq<char> {
    sanitized_from(s, 0)
}

/// Whether a text holds no control character but line feed, tab and carriage
/// return.
pub open spec fn clean(s: Seq<char>) -> bool {
    forall|i: int| 0 <= i < s.len() ==> !dropped_control(#[trigger] s[i])
}

proof fn lemma_sequence_end(s: Seq<char>, i: int)
    requires
        0 <= i,
    ensures
        sequence_end(s, i) <= s.len() || i > s.len(),
        i <= s.len() ==> sequence_end(s, i) >= i,
    decreases s.len() - i,
{
    if i < s.len() && !ends_sequence(s[i]) {
        lemma_sequence_end(s, i + 1);
    }
}

proof fn lemma_sanitized_from(s: Seq<char>, from: int)
    requires
        0 <= from,
    ensures
        clean(sanitized_from(s, from)),
    decreases s.len() - from,
{
    let next = unit_end(s, from);
    if from < next && next <= s.len() {
        lemma_sanitized_from(s, next);
    }
}

/// No control character is left but line feed, tab and carriage return.
pub proof fn lemma_sanitized_clean(s: Seq<char>)
    ensures
        clean(sanitized(s)),
{
    lemma_sanitized_from(s, 0);
}

proof fn lemma_clean_from(s: Seq<char>, from: int)
    requires
        clean(s),
        0 <= from <= s.len(),
    ensures
        sanitized_from(s, from) == s.skip(from),
    decreases s.len() - from,
{
    if from < s.len() {
        assert(!dropped_control(s[from]));
        lemma_clean_from(s, from + 1);
        assert(seq![s[from]] + s.skip(from + 1) =~= s.skip(from));
    } else {
        assert(s.skip(from) =~= Seq::<char>::empty());
    }
}

/// A text without control characters is left as it is.
pub proof fn lemma_clean_unchanged(s: Seq<char>)
    requires
        clean(s),
    ensures
        sanitized(s) == s,
{
    lemma_clean_from(s, 0);
    assert(s.skip(0) =~= s);
}

/// Sanitizing twice is sanitizing once.
pub proof fn lemma_sanitized_idempotent(s: Seq<char>)
    ensures
        sanitized(sanitized(s)) == sanitized(s),
{
    lemma_sanitized_clean(s);
    lemma_clean_unchanged(sanitized(s));
}

proof fn lemma_clean_head(s: Seq<char>, from: int, to: int)
    requires
        0 <= from <= to <= s.len(),
        forall|i: int| from <= i < to ==> !dropped_control(#[trigger] s[i]),
    ensures
        sanitized_from(s, from) == s.subrange(from, to) + sanitized_from(s, to),
    decreases to - from,
{
    if from == to {
        assert(s.subrange(from, to) + sanitized_from(s, to) =~= sanitized_from(s, to));
    } else {
        assert(!dropped_control(s[from]));
        lemma_clean_head(s, from + 1, to);
        assert(seq![s[from]] + (s.subrange(from + 1, to) + sanitized_from(s, to)) =~= s.subrange(
            from,
            to,
        ) + sanitized_from(s, to));
    }
}

proof fn lemma_sequence_ends(s: Seq<char>, i: int, j: int)
    requires
        0 <= i <= j < s.len(),
        ends_sequence(s[j]),
        forall|k: int| i <= k < j ==> !ends_sequence(#[trigger] s[k]),
    ensures
        sequence_end(s, i) == j + 1,
    decreases j - i,
{
    if i < j {
        assert(!ends_sequence(s[i]));
        lemma_sequence_ends(s, i + 1, j);
    }
}

/// An escape sequence is left out as a whole, and a control character by itself;
/// all around them stays.
pub proof fn lemma_escape_left_out(
    a: Seq<char>,
    params: Seq<char>,
    last: char,
    control: char,
    b: Seq<char>,
)
    requires
        clean(a),
        clean(b),
        ends_sequence(last),
        forall|i: int| 0 <= i < params.len() ==> !ends_sequence(#[trigger] params[i]),
        dropped_control(control),
        control != '\u{1b}',
    ensures
        sanitized(a + (seq!['\u{1b}', '['] + params).push(last) + b) == a + b,
        sanitized(a.push(control) + b) == a + b,
{
    let n = a.len() as int;
    let s = a + (seq!['\u{1b}', '['] + params).push(last) + b;
    let end = n + 2 + params.len();
    assert forall|i: int| 0 <= i < n implies !dropped_control(#[trigger] s[i]) by {
        assert(s[i] == a[i]);
    }
    lemma_clean_head(s, 0, n);
    assert(s[n] == '\u{1b}' && s[n + 1] == '[');
    assert(s[end] == last);
    assert forall|k: int| n + 2 <= k < end implies !ends_sequence(#[trigger] s[k]) by {
        assert(s[k] == params[k - n - 2]);
    }
    lemma_sequence_ends(s, n + 2, end);
    let m = s.len() as int;
    assert forall|i: int| end + 1 <= i < m implies !dropped_control(#[trigger] s[i]) by {
        assert(s[i] == b[i - end - 1]);
    }
    lemma_clean_head(s, end + 1, m);
    assert(sanitized_from(s, m) =~= Seq::<char>::empty());
    assert(s.subrange(0, n) =~= a);
    assert(s.subrange(end + 1, m) =~= b);
    assert(sanitized(s) =~= a + b);
    let t = a.push(control) + b;
    let k = t.len() as int;
    assert forall|i: int| 0 <= i < n implies !dropped_control(#[trigger] t[i]) by {
        assert(t[i] == a[i]);
    }
    lemma_clean_head(t, 0, n);
    assert(t[n] == control);
    assert forall|i: int| n + 1 <= i < k implies !dropped_control(#[trigger] t[i]) by {
        assert(t[i] == b[i - n - 1]);
    }
    lemma_clean_head(t, n + 1, k);
    assert(sanitized_from(t, k) =~= Seq::<char>::empty());
    assert(t.subrange(0, n) =~= a);
    assert(t.subrange(n + 1, k) =~= b);
    assert(sanitized(t) =~= a + b);
}

/// A text without escape sequences and control characters.
pub fn sanitize_output(text: &str) -> (r: CompactText)
    ensures
        r@ == sanitized(text@),
{
    let v = chars_of(text);
    let n: usize = v.len();
    let mut out: Vec<char> = Vec::new();
    let mut i: usize = 0;
    assert(out@ + sanitized_from(v@, 0) =~= sanitized(v@));
    while i < n
        invariant
            n == v@.len(),
            i <= n,
            out@ + sanitized_from(v@, i as int) == sanitized(v@),
        decreases n - i,
    {
        let c = v[i];
        let ghost before = out@;
        let ghost start = i as int;
        if c == '\u{1b}' {
            if i + 1 >= n {
                i = n;
            } else if v[i + 1] == '[' || v[i + 1] == ']' {
                proof {
                    lemma_sequence_end(v@, start + 2);
                }
                i = i + 2;
                while i < n && !(('a' <= v[i] && v[i] <= 'z') || ('A' <= v[i] && v[i] <= 'Z')
                    || v[i] == '~')
                    invariant
                        n == v@.len(),
                        i <= n,
                        sequence_end(v@, start + 2) == sequence_end(v@, i as int),
                        start < i,
                    decreases n - i,
                {
                    i = i + 1;
                }
                if i < n {
                    i = i + 1;
                }
            } else {
                i = i + 2;
            }
            assert(i == unit_end(v@, start));
        } else if (c <= '\u{1f}' || c == '\u{7f}') && c != '\n' && c != '\t' && c != '\r' {
            i = i + 1;
        } else {
            out.push(c);
            i = i + 1;
            assert(before + (seq![c] + sanitized_from(v@, i as int)) =~= out@ + sanitized_from(
                v@,
                i as int,
            ));
        }
    }
    assert(out@ + Seq::<char>::empty() =~= out@);
    CompactText::new(string_of(&out).as_str())
}

// ---------------------------------------------------------------------------
// Blocks
// ---------------------------------------------------------------------------

/// A complete block to be appended to the feed.
pub struct Entry {
    pub style: BlockStyle,
    pub text: String,
}

impl View for Entry {
    type V = BlockView;

    open spec fn view(&self) -> BlockView {
        BlockView { style: self.style, text: self.text@, running: false }
    }
}

/// The views of a list of entries.
pub open spec fn entry_views(v: Seq<Entry>) -> Seq<BlockView> {
    v.map_values(|e: Entry| e@)
}

/// A complete block.
pub open spec fn block(style: BlockStyle, text: Seq<char>) -> BlockView {
    BlockView { style, text, running: false }
}

/// Appends one entry.
pub fn add_entry(out: &mut Vec<Entry>, style: BlockStyle, text: &str)
    ensures
        entry_views(final(out)@) == entry_views(old(out)@).push(block(style, text@)),
{
    let mut s = String::new();
    s.push_str(text);
    assert(s@ =~= text@);
    let e = Entry { style, text: s };
    out.push(e);
    assert(entry_views(out@) =~= entry_views(old(out)@).push(e@));
}

/// Appends all entries to the feed.
pub fn push_entries(feed: &mut Feed, entries: &Vec<Entry>)
    requires
        old(feed).wf(),
    ensures
        final(feed).wf(),
        final(feed)@ == (FeedView {
            blocks: old(feed)@.blocks + entry_views(entries@),
            generation: counted(old(feed)@.generation, entries@.len()),
            ..old(feed)@
        }),
{
    let ghost start = feed@;
    let ghost es = entry_views(entries@);
    let n: usize = entries.len();
    assert(start.blocks + es.take(0) =~= start.blocks);
    for i in 0..n
        invariant
            n == entries@.len(),
            es == entry_views(entries@),
            feed.wf(),
            feed@ == (FeedView {
                blocks: start.blocks + es.take(i as int),
                generation: counted(start.generation, i as nat),
                ..start
            }),
    {
        assert(es[i as int] == entries@[i as int]@);
        feed.push_block(entries[i].style, entries[i].text.as_str());
        assert((start.blocks + es.take(i as int)).push(es[i as int]) =~= start.blocks + es.take(
            i + 1,
        ));
    }
    assert(es.take(n as int) =~= es);
}

// ---------------------------------------------------------------------------
// Tool results
// ---------------------------------------------------------------------------

/// How much of a tool's result is shown.
#[derive(Clone, Copy, Debug, PartialEq, Eq, Structural)]
pub enum ToolDetails {
    Off,
    /// At most so many lines.
    Limited(usize),
    Unlimited,
}

/// The first position from `i` on where a colon and a line feed stand.
pub open spec fn heading_end(s: Seq<char>, i: int) -> int
    decreases s.len() - i,
{
    if i < 0 || i + 1 >= s.len() {
        s.len() as int
    } else if s[i] == ':' && s[i + 1] == '\n' {
        i
    } else {
        heading_end(s, i + 1)
    }
}

/// What follows the heading line of a tool's result; all of it where there is
/// none.
pub open spec fn tool_output(s: Seq<char>) -> Seq<char> {
    let i = heading_end(s, 0);
    if i < s.len() {
        s.skip(i + 2)
    } else {
        s
    }
}

/// A tool's output under a heading, at most `limit` lines of it.
pub open spec fn shown_result(text: Seq<char>, limit: Option<usize>) -> Seq<char> {
    let ls = lines(text);
    if limit is Some && ls.len() > limit->0 {
        "\u{25c8} result ("@ + decimal(text.len()) + " chars, "@ + decimal(ls.len())
            + " lines, showing "@ + decimal(limit->0 as nat) + "):\n"@ + join(
            ls.take(limit->0 as int),
            '\n',
        )
    } else {
        "\u{25c8} result ("@ + decimal(text.len()) + " chars):\n"@ + text
    }
}

/// How a tool's result is shown.
pub open spec fn result_text(content: Seq<char>, details: ToolDetails) -> Seq<char> {
    let text = sanitized(tool_output(content));
    match details {
        ToolDetails::Off => "\u{25c8} result hidden by show_tool_details=false"@,
        ToolDetails::Limited(max) => shown_result(text, Some(max)),
        ToolDetails::Unlimited => shown_result(text, None),
    }
}

/// The details that are shown where nothing is configured.
pub open spec fn details_or_default(details: Option<ToolDetails>) -> ToolDetails {
    match details {
        Some(d) => d,
        None => ToolDetails::Limited(3),
    }
}

/// What follows the heading line of a tool's result.
fn output_of(v: &Vec<char>) -> (r: Vec<char>)
    ensures
        r@ == tool_output(v@),
{
    let n: usize = v.len();
    let mut i: usize = 0;
    while n >= 2 && i < n - 1 && !(v[i] == ':' && v[i + 1] == '\n')
        invariant
            n == v@.len(),
            i <= n,
            heading_end(v@, 0) == heading_end(v@, i as int),
        decreases n - i,
    {
        i = i + 1;
    }
    if n >= 2 && i < n - 1 {
        let r = slice_of(v, i + 2, n);
        assert(r@ =~= v@.skip(i + 2));
        r
    } else {
        crate::text::copy_of(v)
    }
}

/// The first `n` of a list of lines.
fn first_lines(ls: &Vec<Vec<char>>, n: usize) -> (r: Vec<Vec<char>>)
    requires
        n <= ls@.len(),
    ensures
        char_seqs(r@) == char_seqs(ls@).take(n as int),
{
    let ghost all = char_seqs(ls@);
    let mut r: Vec<Vec<char>> = Vec::new();
    assert(char_seqs(r@) =~= all.take(0));
    for i in 0..n
        invariant
            n <= ls@.len(),
            all == char_seqs(ls@),
            char_seqs(r@) == all.take(i as int),
    {
        let l = crate::text::copy_of(&ls[i]);
        assert(all[i as int] == l@);
        let ghost before = char_seqs(r@);
        r.push(l);
        assert(char_seqs(r@) =~= before.push(l@));
        assert(all.take(i as int).push(all[i as int]) =~= all.take(i + 1));
    }
    r
}

/// The whole of a tool's result.
fn whole_result(text: &Vec<char>) -> (r: String)
    ensures
        r@ == "\u{25c8} result ("@ + decimal(text@.len()) + " chars):\n"@ + text@,
{
    let mut s = String::new();
    s.push_str("\u{25c8} result (");
    s.push_str(decimal_of(text.len() as u64).as_str());
    s.push_str(" chars):\n");
    s.push_str(string_of(text).as_str());
    assert(s@ =~= "\u{25c8} result ("@ + decimal(text@.len()) + " chars):\n"@ + text@);
    s
}

/// The first `max` lines of a tool's result.
fn cut_result(text: &Vec<char>, ls: &Vec<Vec<char>>, max: usize) -> (r: String)
    requires
        max <= ls@.len(),
    ensures
        r@ == "\u{25c8} result ("@ + decimal(text@.len()) + " chars, "@ + decimal(ls@.len())
            + " lines, showing "@ + decimal(max as nat) + "):\n"@ + join(
            char_seqs(ls@).take(max as int),
            '\n',
        ),
{
    let shown = join_of(&first_lines(ls, max), '\n');
    let mut s = String::new();
    s.push_str("\u{25c8} result (");
    s.push_str(decimal_of(text.len() as u64).as_str());
    s.push_str(" chars, ");
    s.push_str(decimal_of(ls.len() as u64).as_str());
    s.push_str(" lines, showing ");
    s.push_str(decimal_of(max as u64).as_str());
    s.push_str("):\n");
    s.push_str(string_of(&shown).as_str());
    assert(s@ =~= "\u{25c8} result ("@ + decimal(text@.len()) + " chars, "@ + decimal(ls@.len())
        + " lines, showing "@ + decimal(max as nat) + "):\n"@ + join(
        char_seqs(ls@).take(max as int),
        '\n',
    ));
    s
}

/// A tool's output under a heading, at most `limit` lines of it.
pub fn show_result(text: &Vec<char>, limit: Option<usize>) -> (r: String)
    ensures
        r@ == shown_result(text@, limit),
{
    match limit {
        Some(max) => {
            let ls = lines_of(text);
            assert(char_seqs(ls@).len() == ls@.len());
            if ls.len() > max {
                cut_result(text, &ls, max)
            } else {
                whole_result(text)
            }
        },
        None => whole_result(text),
    }
}

/// How a tool's result is shown.
pub fn tool_result_text(content: &str, details: ToolDetails) -> (r: String)
    ensures
        r@ == result_text(content@, details),
{
    if details == ToolDetails::Off {
        let mut s = String::new();
        s.push_str("\u{25c8} result hidden by show_tool_details=false");
        assert(s@ =~= "\u{25c8} result hidden by show_tool_details=false"@);
        return s;
    }
    let output = string_of(&output_of(&chars_of(content)));
    let text = chars_of(sanitize_output(output.as_str()).as_str());
    let limit: Option<usize> = match details {
        ToolDetails::Limited(max) => Some(max),
        _ => None,
    };
    show_result(&text, limit)
}

/// Appends a tool's result to the feed.
pub fn render_tool_result_to_feed(feed: &mut Feed, content: &str, details: Option<ToolDetails>)
    requires
        old(feed).wf(),
    ensures
        final(feed).wf(),
        final(feed)@ == old(feed)@.changed(
            old(feed)@.blocks.push(
                block(
                    BlockStyle::ToolResult,
                    result_text(content@, details_or_default(details)),
                ),
            ),
        ),
{
    let details = match details {
        Some(d) => d,
        None => ToolDetails::Limited(3),
    };
    let text = tool_result_text(content, details);
    feed.push_line(BlockStyle::ToolResult, text.as_str());
}

// ---------------------------------------------------------------------------
// Sessions
// ---------------------------------------------------------------------------

/// What is shown of a session besides its messages.
pub struct SessionInfo {
    pub agents_loaded: bool,
    pub architecture_loaded: bool,
    pub details: Option<ToolDetails>,
    pub version: String,
    pub model: String,
    /// The name of the working directory.
    pub cwd: String,
}

/// What a [`SessionInfo`] holds.
pub struct InfoView {
    pub agents_loaded: bool,
    pub architecture_loaded: bool,
    pub details: Option<ToolDetails>,
    pub version: Seq<char>,
    pub model: Seq<char>,
    pub cwd: Seq<char>,
}

impl View for SessionInfo {
    type V = InfoView;

    open spec fn view(&self) -> InfoView {
        InfoView {
            agents_loaded: self.agents_loaded,
            architecture_loaded: self.architecture_loaded,
            details: self.details,
            version: self.version@,
            model: self.model@,
            cwd: self.cwd@,
        }
    }
}

/// An empty block.
pub open spec fn gap() -> BlockView {
    block(BlockStyle::Plain, ""@)
}

/// One block for each line of a text, with a mark before it.
pub open spec fn marked_lines(style: BlockStyle, mark: Seq<char>, text: Seq<char>) -> Seq<BlockView> {
    lines(text).map_values(|l: Seq<char>| block(style, mark + l))
}

/// The blocks of one message.
pub open spec fn message_blocks(m: MessageView, details: Option<ToolDetails>) -> Seq<BlockView> {
    match m.role {
        MessageRole::User => marked_lines(BlockStyle::User, "> "@, m.content),
        MessageRole::Assistant => seq![block(BlockStyle::Agent, m.content)],
        MessageRole::System => marked_lines(BlockStyle::System, "# "@, m.content),
        MessageRole::ToolCall => marked_lines(BlockStyle::Tool, "\u{25c8} "@, m.content),
        MessageRole::ToolResult => seq![
            block(BlockStyle::ToolResult, result_text(m.content, details_or_default(details))),
        ],
        MessageRole::SubagentToolCall => marked_lines(BlockStyle::Tool, "\u{2325} "@, m.content),
    }
}

/// The blocks of the first `n` messages, each followed by an empty one.
pub open spec fn messages_to(ms: Seq<MessageView>, details: Option<ToolDetails>, n: nat) -> Seq<
    BlockView,
>
    decreases n,
{
    if n == 0 {
        Seq::empty()
    } else {
        (messages_to(ms, details, (n - 1) as nat) + message_blocks(ms[n - 1], details)).push(gap())
    }
}

/// The notices above the messages.
pub open spec fn notices(compactions: Seq<CompactionView>, info: InfoView) -> Seq<BlockView> {
    (if info.agents_loaded {
        seq![block(BlockStyle::System, "[system] loaded AGENTS.md"@), gap()]
    } else {
        Seq::empty()
    }) + (if info.architecture_loaded {
        seq![block(BlockStyle::System, "[system] loaded ARCHITECTURE.md"@), gap()]
    } else {
        Seq::empty()
    }) + (if compactions.len() > 0 {
        seq![
            block(
                BlockStyle::System,
                "compacted "@ + decimal(compactions.len()) + " times (saved ~"@ + decimal(
                    compactions.last().token_savings as nat,
                ) + " tokens)"@,
            ),
            gap(),
        ]
    } else {
        Seq::empty()
    })
}

/// What an empty session shows.
pub open spec fn greeting(info: InfoView) -> Seq<BlockView> {
    seq![
        block(
            BlockStyle::Welcome,
            "[>] zerostack "@ + info.version + " | "@ + info.model + " | "@ + info.cwd,
        ),
        block(BlockStyle::Welcome, repeat('\u{2500}', 50)),
        block(BlockStyle::Welcome, "Ready to code; type a request or '/' for commands"@),
        block(BlockStyle::Welcome, "Run /welcome or /tutor to get started"@),
        gap(),
        gap(),
    ]
}

/// All blocks of a session.
pub open spec fn session_blocks(s: SessionView, info: InfoView) -> Seq<BlockView> {
    notices(s.compactions, info) + messages_to(s.messages, info.details, s.messages.len()) + if s.messages.len()
        == 0 {
        greeting(info)
    } else {
        Seq::empty()
    }
}

/// Appends one entry for each line of a text.
fn add_marked(out: &mut Vec<Entry>, style: BlockStyle, mark: &str, text: &str)
    ensures
        entry_views(final(out)@) == entry_views(old(out)@) + marked_lines(style, mark@, text@),
{
    let ghost before = entry_views(out@);
    let ghost all = marked_lines(style, mark@, text@);
    let ls = lines_of(&chars_of(text));
    let n: usize = ls.len();
    assert(char_seqs(ls@).len() == n);
    assert(before + all.take(0) =~= before);
    for i in 0..n
        invariant
            n == ls@.len(),
            char_seqs(ls@) == lines(text@),
            all == marked_lines(style, mark@, text@),
            entry_views(out@) == before + all.take(i as int),
    {
        assert(char_seqs(ls@)[i as int] == ls@[i as int]@);
        let mut s = String::new();
        s.push_str(mark);
        s.push_str(string_of(&ls[i]).as_str());
        assert(s@ =~= mark@ + ls@[i as int]@);
        add_entry(out, style, s.as_str());
        assert((before + all.take(i as int)).push(all[i as int]) =~= before + all.take(i + 1));
    }
    assert(all.take(n as int) =~= all);
}

/// Appends the entries of one message.
fn add_message(out: &mut Vec<Entry>, m: &Message, details: Option<ToolDetails>)
    ensures
        entry_views(final(out)@) == entry_views(old(out)@) + message_blocks(m@, details),
{
    let text = m.content.as_str();
    match m.role {
        MessageRole::User => add_marked(out, BlockStyle::User, "> ", text),
        MessageRole::Assistant => {
            add_entry(out, BlockStyle::Agent, text);
            assert(entry_views(out@) =~= entry_views(old(out)@) + message_blocks(m@, details));
        },
        MessageRole::System => add_marked(out, BlockStyle::System, "# ", text),
        MessageRole::ToolCall => add_marked(out, BlockStyle::Tool, "\u{25c8} ", text),
        MessageRole::ToolResult => {
            let d = match details {
                Some(d) => d,
                None => ToolDetails::Limited(3),
            };
            let s = tool_result_text(text, d);
            add_entry(out, BlockStyle::ToolResult, s.as_str());
            assert(entry_views(out@) =~= entry_views(old(out)@) + message_blocks(m@, details));
        },
        MessageRole::SubagentToolCall => add_marked(out, BlockStyle::Tool, "\u{2325} ", text),
    }
}

/// Appends the entries of all messages.
fn add_messages(out: &mut Vec<Entry>, ms: &Vec<Message>, details: Option<ToolDetails>)
    ensures
        entry_views(final(out)@) == entry_views(old(out)@) + messages_to(
            message_views(ms@),
            details,
            ms@.len(),
        ),
{
    let ghost before = entry_views(out@);
    let ghost views = message_views(ms@);
    let n: usize = ms.len();
    assert(before + messages_to(views, details, 0) =~= before);
    for i in 0..n
        invariant
            n == ms@.len(),
            views == message_views(ms@),
            entry_views(out@) == before + messages_to(views, details, i as nat),
    {
        assert(views[i as int] == ms@[i as int]@);
        add_message(out, &ms[i], details);
        add_entry(out, BlockStyle::Plain, "");
        assert(entry_views(out@) =~= before + messages_to(views, details, (i + 1) as nat));
    }
}

/// Appends the notices above the messages.
fn add_notices(out: &mut Vec<Entry>, session: &Session, info: &SessionInfo)
    ensures
        entry_views(final(out)@) == entry_views(old(out)@) + notices(session@.compactions, info@),
{
    let ghost before = entry_views(out@);
    if info.agents_loaded {
        add_entry(out, BlockStyle::System, "[system] loaded AGENTS.md");
        add_entry(out, BlockStyle::Plain, "");
    }
    if info.architecture_loaded {
        add_entry(out, BlockStyle::System, "[system] loaded ARCHITECTURE.md");
        add_entry(out, BlockStyle::Plain, "");
    }
    let n: usize = session.compactions.len();
    if n > 0 {
        let last: u64 = session.compactions[n - 1].token_savings;
        assert(session@.compactions.last().token_savings == last);
        let mut s = String::new();
        s.push_str("compacted ");
        s.push_str(decimal_of(n as u64).as_str());
        s.push_str(" times (saved ~");
        s.push_str(decimal_of(last).as_str());
        s.push_str(" tokens)");
        assert(s@ =~= "compacted "@ + decimal(session@.compactions.len()) + " times (saved ~"@
            + decimal(last as nat) + " tokens)"@);
        add_entry(out, BlockStyle::System, s.as_str());
        add_entry(out, BlockStyle::Plain, "");
    }
    assert(entry_views(out@) =~= before + notices(session@.compactions, info@));
}

/// Appends what an empty session shows.
fn add_greeting(out: &mut Vec<Entry>, info: &SessionInfo)
    ensures
        entry_views(final(out)@) == entry_views(old(out)@) + greeting(info@),
{
    let mut s = String::new();
    s.push_str("[>] zerostack ");
    s.push_str(info.version.as_str());
    s.push_str(" | ");
    s.push_str(info.model.as_str());
    s.push_str(" | ");
    s.push_str(info.cwd.as_str());
    assert(s@ =~= "[>] zerostack "@ + info@.version + " | "@ + info@.model + " | "@ + info@.cwd);
    add_entry(out, BlockStyle::Welcome, s.as_str());
    let mut rule = String::new();
    push_repeat(&mut rule, '\u{2500}', 50);
    assert(rule@ =~= repeat('\u{2500}', 50));
    add_entry(out, BlockStyle::Welcome, rule.as_str());
    add_entry(out, BlockStyle::Welcome, "Ready to code; type a request or '/' for commands");
    add_entry(out, BlockStyle::Welcome, "Run /welcome or /tutor to get started");
    add_entry(out, BlockStyle::Plain, "");
    add_entry(out, BlockStyle::Plain, "");
    assert(entry_views(out@) =~= entry_views(old(out)@) + greeting(info@));
}

/// Puts a whole session in the place of what the feed held. What is returned
/// clears the screen.
pub fn render_session(renderer: &mut Renderer, session: &Session, info: &SessionInfo) -> (r: Vec<
    DrawOp,
>)
    requires
        old(renderer).wf(),
    ensures
        final(renderer).wf(),
        final(renderer)@ == (RendererView {
            feed: FeedView {
                blocks: session_blocks(session@, info@),
                generation: counted(
                    old(renderer)@.feed.generation,
                    1 + session_blocks(session@, info@).len(),
                ),
                widths: old(renderer)@.feed.widths,
            },
            partial: Seq::empty(),
            scroll_offset: 0,
            chat_dirty: true,
            selection_active: false,
            selection_start: None,
            selection_end: None,
            ..old(renderer)@
        }),
        op_views(r@) == background(old(renderer)@.chat_bg) + seq![
            OpView::ClearAll,
            OpView::ResetColor,
            OpView::MoveTo(0, 0),
            OpView::Flush,
        ],
{
    let mut entries: Vec<Entry> = Vec::new();
    assert(entry_views(entries@) =~= Seq::<BlockView>::empty());
    add_notices(&mut entries, session, info);
    add_messages(&mut entries, &session.messages, info.details);
    if session.messages.len() == 0 {
        add_greeting(&mut entries, info);
    }
    assert(session@.messages.len() == session.messages@.len());
    assert(entry_views(entries@) =~= session_blocks(session@, info@));
    assert(entries@.len() == session_blocks(session@, info@).len());
    let ops = renderer.clear_content();
    push_entries(renderer.feed_mut(), &entries);
    assert(renderer@.feed.blocks =~= session_blocks(session@, info@));
    ops
}

} // verus!
