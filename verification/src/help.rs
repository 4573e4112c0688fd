//! Help texts and the commands that show them.

use vstd::prelude::*;

use crate::color::{Color, C_AGENT, C_ERROR, C_RESULT};
use crate::draw::{op_views, DrawOp, TermSize};
use crate::events::{add_entry, block, entry_views, gap, push_entries, Entry};
use crate::feed::{
    counted, feed_lines, lemma_feed_lines_concat, BlockStyle, BlockView, FeedView,
};
use crate::line::{colored, line, line_views, push_line, LineEntry, LineView};
use crate::renderer::{Renderer, RendererView};
use crate::text::{push_repeat, repeat};

verus! {

/// The parts of the program that are built in.
#[derive(Clone, Copy, Debug)]
pub struct Features {
    pub export: bool,
    pub mcp: bool,
    pub advisor: bool,
    pub looping: bool,
    pub git_worktree: bool,
    pub hooks: bool,
    pub subagents: bool,
}

/// The views of a list of string slices.
pub open spec fn text_seqs(v: Seq<&str>) -> Seq<Seq<char>> {
    v.map_values(|s: &str| s@)
}

/// Commands on files, models and sessions.
pub open spec fn context_help() -> Seq<Seq<char>> {
    seq![
        "  /add [path]            add file(s) to context"@,
        "  /drop <path>           remove file from context"@,
        "  /drop-all              remove all added files from context"@,
        "  /init [force]          create AGENTS.md for this project"@,
        "  /memory [status|search|read|write|editor|clear]  manage memory"@,
        "  /clear [/new]          clear screen"@,
        "  /provider [name]       show or switch provider"@,
        "  /models                list quick models"@,
        "  /models <name>         switch to a quick model"@,
        "  /models-add <n> <p> <m> save a quick model"@,
        "  /sessions              list recent sessions"@,
        "  /sessions <id>         load a session (by ID prefix)"@,
        "  /sessions delete <id>  delete a session"@,
    ]
}

/// Commands that export a session.
pub open spec fn export_help() -> Seq<Seq<char>> {
    seq![
        "  /export [file]         export session to HTML (or .jsonl)"@,
        "  /import <file>         import a session from JSONL or JSON"@,
        "  /share                 share session as a secret GitHub gist"@,
    ]
}

/// Commands that switch features.
pub open spec fn mode_help() -> Seq<Seq<char>> {
    seq![
        "  /reasoning             toggle LLM reasoning ability"@,
        "  /thinking              alias for /reasoning"@,
        "  /mode                  show/change security mode"@,
        "  /mode <mode>           set mode (standard|restrictive|readonly|guarded|yolo)"@,
        "  /toggle                show toggleable features"@,
        "  /toggle todo [on|off]  toggle todo-list tools"@,
    ]
}

/// Commands on MCP servers.
pub open spec fn mcp_help() -> Seq<Seq<char>> {
    seq![
        "  /mcp                   list MCP servers and tools"@,
        "  /mcp <server>          list tools of an MCP server"@,
        "  /mcp login <server>    OAuth login to an MCP server"@,
        "  /mcp logout <server>   remove a server's stored OAuth token"@,
    ]
}

/// Commands on the conversation.
pub open spec fn history_help() -> Seq<Seq<char>> {
    seq![
        "  /clear [/new]          clear screen"@,
        "  /undo                  undo last exchange"@,
        "  /redo                  restore the last /undo or rewind"@,
        "  /rewind                rewind to an earlier turn (picker)"@,
        "  /retry                 retry last prompt"@,
        "  /queue                 list input queued while agent is busy"@,
        "  /queue clear           clear the queue"@,
        "  /queue pop             remove the last queued input"@,
        "  /btw <message>         ask a side question in parallel (no session trace)"@,
        "  /review [msg]          review code (auto message if omitted)"@,
        "  /compress [/compact]   compress conversation history"@,
        "  /compress [instr]      compress with custom instructions"@,
        "  /editsys [mode]        edit system (similarity | hashedit)"@,
    ]
}

/// Commands of the advisor.
pub open spec fn advisor_help() -> Seq<Seq<char>> {
    seq![
        "  /advisor               show advisor status"@,
        "  /advisor on|off        enable or disable advisor"@,
        "  /advisor handoff [on|off]  toggle human handoff mode"@,
        "  /advisor model <name>  set advisor model"@,
        "  /advisor max-uses <n>  set max advisor calls per request"@,
        "  /advisor context-limit <n>  set max KB sent to advisor"@,
    ]
}

/// Commands of the coding loop.
pub open spec fn loop_help() -> Seq<Seq<char>> {
    seq![
        "  /loop [prompt]         start iterative coding loop"@,
        "  /loop stop             stop the loop"@,
    ]
}

/// What stands for the coding loop where it is not built in.
pub open spec fn no_loop_help() -> Seq<Seq<char>> {
    seq![
        "  /loop [prompt]         start iterative coding loop (req. 'loop' feature)"@,
    ]
}

/// Commands on prompts and themes.
pub open spec fn prompt_help() -> Seq<Seq<char>> {
    seq![
        "  /prompt                list available prompts"@,
        "  /prompt <name>         activate a prompt"@,
        "  /prompt default        clear active prompt"@,
        "  /rename <name>         rename current session"@,
        "  /theme                 list available themes"@,
        "  /theme <name>          activate a theme"@,
        "  /theme default         clear active theme"@,
        "  /regen-prompts        restore built-in prompts to global dir"@,
        "  /regen-themes         restore built-in themes to config dir"@,
    ]
}

/// Commands on git worktrees.
pub open spec fn worktree_help() -> Seq<Seq<char>> {
    seq![
        "  /worktree <name>       create a git worktree on <name> branch and cd into it"@,
        "  /wt-merge [branch]     merge worktree branch into [branch] (default: main/master)"@,
        "  /wt-exit               exit worktree and return to main repo"@,
    ]
}

/// Commands on hooks.
pub open spec fn hooks_help() -> Seq<Seq<char>> {
    seq![
        "  /hooks                 show configured hook events and handlers"@,
    ]
}

/// Commands that show something or leave.
pub open spec fn quit_help() -> Seq<Seq<char>> {
    seq![
        "  /history               show global chat history"@,
        "  /quit [/exit]          exit zerostack"@,
        "  /welcome               show the quickstart guide"@,
        "  /tutor                 open GET_STARTED.md in less"@,
        "  /tutorial              alias for /welcome"@,
        "  /help                  show this message"@,
        ""@,
    ]
}

/// Commands on the subagent's model.
pub open spec fn subagent_help() -> Seq<Seq<char>> {
    seq![
        "  /model-subagent [name] show or switch subagent model"@,
        "  /models-subagent       list quick models for subagent"@,
        "  /models-subagent <n>   switch subagent to a quick model"@,
    ]
}

/// Keys.
pub open spec fn key_help() -> Seq<Seq<char>> {
    seq![
        "  PgUp/PgDn             scroll chat history"@,
        "  Home/End               jump to top/bottom"@,
        "  @<query>               file picker (Tab/Enter select, Esc cancel)"@,
        "  mouse drag             select text (copies to clipboard on release)"@,
        "  Esc (while selected)   clear selection (no copy)"@,
        "  Ctrl+R                 toggle reasoning"@,
        "  Ctrl+C / Ctrl+D        interrupt/quit"@,
        "  mouse scroll           scroll chat"@,
        "  config: alternate_screen=false  native scroll/selection (experimental)"@,
    ]
}

/// Lines that are there where a feature is.
pub open spec fn only_with(feature: bool, texts: Seq<Seq<char>>) -> Seq<Seq<char>> {
    if feature {
        texts
    } else {
        Seq::empty()
    }
}

/// All lines about commands.
pub open spec fn command_help(f: Features) -> Seq<Seq<char>> {
    context_help()
        + only_with(f.export, export_help())
        + mode_help()
        + only_with(f.mcp, mcp_help())
        + history_help()
        + only_with(f.advisor, advisor_help())
        + only_with(f.looping, loop_help())
        + only_with(!f.looping, no_loop_help())
        + prompt_help()
        + only_with(f.git_worktree, worktree_help())
        + only_with(f.hooks, hooks_help())
        + quit_help()
        + only_with(f.subagents, subagent_help())
}

/// The help text.
pub open spec fn help_lines(f: Features) -> Seq<LineView> {
    seq![line("commands:"@, Color::White)] + colored(command_help(f), Color::DarkGrey) + seq![
        line("keys:"@, Color::White),
    ] + colored(key_help(), Color::DarkGrey)
}

/// Commands on files, models and sessions.
fn context_help_texts() -> (r: Vec<&'static str>)
    ensures
        text_seqs(r@) == context_help(),
{
    let r: Vec<&'static str> = vec![
        "  /add [path]            add file(s) to context",
        "  /drop <path>           remove file from context",
        "  /drop-all              remove all added files from context",
        "  /init [force]          create AGENTS.md for this project",
        "  /memory [status|search|read|write|editor|clear]  manage memory",
        "  /clear [/new]          clear screen",
        "  /provider [name]       show or switch provider",
        "  /models                list quick models",
        "  /models <name>         switch to a quick model",
        "  /models-add <n> <p> <m> save a quick model",
        "  /sessions              list recent sessions",
        "  /sessions <id>         load a session (by ID prefix)",
        "  /sessions delete <id>  delete a session",
    ];
    assert(text_seqs(r@) =~= context_help());
    r
}

/// Commands that export a session.
fn export_help_texts() -> (r: Vec<&'static str>)
    ensures
        text_seqs(r@) == export_help(),
{
    let r: Vec<&'static str> = vec![
        "  /export [file]         export session to HTML (or .jsonl)",
        "  /import <file>         import a session from JSONL or JSON",
        "  /share                 share session as a secret GitHub gist",
    ];
    assert(text_seqs(r@) =~= export_help());
    r
}

/// Commands that switch features.
fn mode_help_texts() -> (r: Vec<&'static str>)
    ensures
        text_seqs(r@) == mode_help(),
{
    let r: Vec<&'static str> = vec![
        "  /reasoning             toggle LLM reasoning ability",
        "  /thinking              alias for /reasoning",
        "  /mode                  show/change security mode",
        "  /mode <mode>           set mode (standard|restrictive|readonly|guarded|yolo)",
        "  /toggle                show toggleable features",
        "  /toggle todo [on|off]  toggle todo-list tools",
    ];
    assert(text_seqs(r@) =~= mode_help());
    r
}

/// Commands on MCP servers.
fn mcp_help_texts() -> (r: Vec<&'static str>)
    ensures
        text_seqs(r@) == mcp_help(),
{
    let r: Vec<&'static str> = vec![
        "  /mcp                   list MCP servers and tools",
        "  /mcp <server>          list tools of an MCP server",
        "  /mcp login <server>    OAuth login to an MCP server",
        "  /mcp logout <server>   remove a server's stored OAuth token",
    ];
    assert(text_seqs(r@) =~= mcp_help());
    r
}

/// Commands on the conversation.
fn history_help_texts() -> (r: Vec<&'static str>)
    ensures
        text_seqs(r@) == history_help(),
{
    let r: Vec<&'static str> = vec![
        "  /clear [/new]          clear screen",
        "  /undo                  undo last exchange",
        "  /redo                  restore the last /undo or rewind",
        "  /rewind                rewind to an earlier turn (picker)",
        "  /retry                 retry last prompt",
        "  /queue                 list input queued while agent is busy",
        "  /queue clear           clear the queue",
        "  /queue pop             remove the last queued input",
        "  /btw <message>         ask a side question in parallel (no session trace)",
        "  /review [msg]          review code (auto message if omitted)",
        "  /compress [/compact]   compress conversation history",
        "  /compress [instr]      compress with custom instructions",
        "  /editsys [mode]        edit system (similarity | hashedit)",
    ];
    assert(text_seqs(r@) =~= history_help());
    r
}

/// Commands of the advisor.
fn advisor_help_texts() -> (r: Vec<&'static str>)
    ensures
        text_seqs(r@) == advisor_help(),
{
    let r: Vec<&'static str> = vec![
        "  /advisor               show advisor status",
        "  /advisor on|off        enable or disable advisor",
        "  /advisor handoff [on|off]  toggle human handoff mode",
        "  /advisor model <name>  set advisor model",
        "  /advisor max-uses <n>  set max advisor calls per request",
        "  /advisor context-limit <n>  set max KB sent to advisor",
    ];
    assert(text_seqs(r@) =~= advisor_help());
    r
}

/// Commands of the coding loop.
fn loop_help_texts() -> (r: Vec<&'static str>)
    ensures
        text_seqs(r@) == loop_help(),
{
    let r: Vec<&'static str> = vec![
        "  /loop [prompt]         start iterative coding loop",
        "  /loop stop             stop the loop",
    ];
    assert(text_seqs(r@) =~= loop_help());
    r
}

/// What stands for the coding loop where it is not built in.
fn no_loop_help_texts() -> (r: Vec<&'static str>)
    ensures
        text_seqs(r@) == no_loop_help(),
{
    let r: Vec<&'static str> = vec![
        "  /loop [prompt]         start iterative coding loop (req. 'loop' feature)",
    ];
    assert(text_seqs(r@) =~= no_loop_help());
    r
}

/// Commands on prompts and themes.
fn prompt_help_texts() -> (r: Vec<&'static str>)
    ensures
        text_seqs(r@) == prompt_help(),
{
    let r: Vec<&'static str> = vec![
        "  /prompt                list available prompts",
        "  /prompt <name>         activate a prompt",
        "  /prompt default        clear active prompt",
        "  /rename <name>         rename current session",
        "  /theme                 list available themes",
        "  /theme <name>          activate a theme",
        "  /theme default         clear active theme",
        "  /regen-prompts        restore built-in prompts to global dir",
        "  /regen-themes         restore built-in themes to config dir",
    ];
    assert(text_seqs(r@) =~= prompt_help());
    r
}

/// Commands on git worktrees.
fn worktree_help_texts() -> (r: Vec<&'static str>)
    ensures
        text_seqs(r@) == worktree_help(),
{
    let r: Vec<&'static str> = vec![
        "  /worktree <name>       create a git worktree on <name> branch and cd into it",
        "  /wt-merge [branch]     merge worktree branch into [branch] (default: main/master)",
        "  /wt-exit               exit worktree and return to main repo",
    ];
    assert(text_seqs(r@) =~= worktree_help());
    r
}

/// Commands on hooks.
fn hooks_help_texts() -> (r: Vec<&'static str>)
    ensures
        text_seqs(r@) == hooks_help(),
{
    let r: Vec<&'static str> = vec![
        "  /hooks                 show configured hook events and handlers",
    ];
    assert(text_seqs(r@) =~= hooks_help());
    r
}

/// Commands that show something or leave.
fn quit_help_texts() -> (r: Vec<&'static str>)
    ensures
        text_seqs(r@) == quit_help(),
{
    let r: Vec<&'static str> = vec![
        "  /history               show global chat history",
        "  /quit [/exit]          exit zerostack",
        "  /welcome               show the quickstart guide",
        "  /tutor                 open GET_STARTED.md in less",
        "  /tutorial              alias for /welcome",
        "  /help                  show this message",
        "",
    ];
    assert(text_seqs(r@) =~= quit_help());
    r
}

/// Commands on the subagent's model.
fn subagent_help_texts() -> (r: Vec<&'static str>)
    ensures
        text_seqs(r@) == subagent_help(),
{
    let r: Vec<&'static str> = vec![
        "  /model-subagent [name] show or switch subagent model",
        "  /models-subagent       list quick models for subagent",
        "  /models-subagent <n>   switch subagent to a quick model",
    ];
    assert(text_seqs(r@) =~= subagent_help());
    r
}

/// Keys.
fn key_help_texts() -> (r: Vec<&'static str>)
    ensures
        text_seqs(r@) == key_help(),
{
    let r: Vec<&'static str> = vec![
        "  PgUp/PgDn             scroll chat history",
        "  Home/End               jump to top/bottom",
        "  @<query>               file picker (Tab/Enter select, Esc cancel)",
        "  mouse drag             select text (copies to clipboard on release)",
        "  Esc (while selected)   clear selection (no copy)",
        "  Ctrl+R                 toggle reasoning",
        "  Ctrl+C / Ctrl+D        interrupt/quit",
        "  mouse scroll           scroll chat",
        "  config: alternate_screen=false  native scroll/selection (experimental)",
    ];
    assert(text_seqs(r@) =~= key_help());
    r
}

/// Appends texts as lines in one color.
fn push_texts(out: &mut Vec<LineEntry>, texts: &Vec<&'static str>, color: Color)
    ensures
        line_views(final(out)@) == line_views(old(out)@) + colored(text_seqs(texts@), color),
{
    let ghost before = line_views(out@);
    let ghost all = colored(text_seqs(texts@), color);
    let n: usize = texts.len();
    assert(before + all.take(0) =~= before);
    for i in 0..n
        invariant
            n == texts@.len(),
            all == colored(text_seqs(texts@), color),
            line_views(out@) == before + all.take(i as int),
    {
        push_line(out, LineEntry::new(texts[i], color));
        assert((before + all.take(i as int)).push(all[i as int]) =~= before + all.take(i + 1));
    }
    assert(all.take(n as int) =~= all);
}

/// The help text, line by line as it is written.
pub fn handle(f: Features) -> (r: Vec<LineEntry>)
    ensures
        line_views(r@) == help_lines(f),
{
    let mut texts: Vec<&'static str> = Vec::new();
    assert(text_seqs(texts@) =~= Seq::<Seq<char>>::empty());
    append_texts(&mut texts, context_help_texts());
    if f.export {
        append_texts(&mut texts, export_help_texts());
    }
    append_texts(&mut texts, mode_help_texts());
    if f.mcp {
        append_texts(&mut texts, mcp_help_texts());
    }
    append_texts(&mut texts, history_help_texts());
    if f.advisor {
        append_texts(&mut texts, advisor_help_texts());
    }
    if f.looping {
        append_texts(&mut texts, loop_help_texts());
    }
    if !f.looping {
        append_texts(&mut texts, no_loop_help_texts());
    }
    append_texts(&mut texts, prompt_help_texts());
    if f.git_worktree {
        append_texts(&mut texts, worktree_help_texts());
    }
    if f.hooks {
        append_texts(&mut texts, hooks_help_texts());
    }
    append_texts(&mut texts, quit_help_texts());
    if f.subagents {
        append_texts(&mut texts, subagent_help_texts());
    }
    assert(text_seqs(texts@) =~= command_help(f));
    let mut out: Vec<LineEntry> = Vec::new();
    assert(line_views(out@) =~= Seq::<LineView>::empty());
    push_line(&mut out, LineEntry::new("commands:", C_AGENT));
    assert(line_views(out@) =~= seq![line("commands:"@, Color::White)]);
    push_texts(&mut out, &texts, C_RESULT);
    let ghost commands = line_views(out@);
    push_line(&mut out, LineEntry::new("keys:", C_AGENT));
    assert(line_views(out@) =~= commands + seq![line("keys:"@, Color::White)]);
    push_texts(&mut out, &key_help_texts(), C_RESULT);
    out
}

/// Appends texts.
fn append_texts(out: &mut Vec<&'static str>, more: Vec<&'static str>)
    ensures
        text_seqs(final(out)@) == text_seqs(old(out)@) + text_seqs(more@),
{
    let mut more = more;
    let ghost added = more@;
    out.append(&mut more);
    assert(text_seqs(out@) =~= text_seqs(old(out)@) + text_seqs(added));
}

/// A rule across the guide.
pub open spec fn rule() -> BlockView {
    block(BlockStyle::Welcome, repeat('\u{2500}', 42))
}

/// The first half of the quickstart guide: pickers and commands.
pub open spec fn guide_start() -> Seq<BlockView> {
    seq![
        rule(),
        block(BlockStyle::Welcome, "  zerostack Quickstart"@),
        rule(),
        gap(),
        block(BlockStyle::Tool, "  Pickers:"@),
        block(BlockStyle::Plain, "    @<path>     File picker / auto-complete paths"@),
        block(BlockStyle::Plain, "    !<command>  Run a shell command (output stored as assistant)"@),
        block(BlockStyle::Plain, "    .<prompt>   Switch prompt or one-shot .<prompt> <message>"@),
        gap(),
        block(BlockStyle::Tool, "  Slash Commands:"@),
        block(BlockStyle::Plain, "    /model        Switch model"@),
        block(BlockStyle::Plain, "    /prompt       List / activate prompts"@),
        block(BlockStyle::Plain, "    .autoconfig        Switches to auto-configurator"@),
        block(BlockStyle::Plain, "    /mode         Change security mode"@),
    ]
}

/// The second half of the quickstart guide: commands and keys.
pub open spec fn guide_end() -> Seq<BlockView> {
    seq![
        block(BlockStyle::Plain, "    /clear        Clear session"@),
        block(BlockStyle::Plain, "    /undo         Undo last exchange"@),
        block(BlockStyle::Plain, "    /compress     Free context window space"@),
        block(BlockStyle::Plain, "    /help         Show all commands"@),
        gap(),
        block(BlockStyle::Tool, "  Keybindings:"@),
        block(BlockStyle::Plain, "    Ctrl+G     Open input in $EDITOR"@),
        block(BlockStyle::Plain, "    Ctrl+H     Launch lazygit"@),
        block(BlockStyle::Plain, "    Ctrl+S     Save session"@),
        block(BlockStyle::Plain, "    Tab        File picker / auto-complete"@),
        block(BlockStyle::Plain, "  Website: https://gi-dellav.github.io/zerostack/"@),
        gap(),
        rule(),
        gap(),
    ]
}

/// The quickstart guide.
pub open spec fn welcome_guide() -> Seq<BlockView> {
    guide_start() + guide_end()
}

/// The screen with the quickstart guide in its chat.
pub open spec fn welcomed(r: RendererView) -> RendererView {
    RendererView {
        feed: FeedView {
            blocks: r.feed.blocks + welcome_guide(),
            generation: counted(r.feed.generation, welcome_guide().len()),
            ..r.feed
        },
        ..r
    }
}

/// The guide is 28 blocks, the same every time. They follow what the chat shows,
/// at any width, and nothing else changes.
pub proof fn lemma_welcome_appends(r: RendererView, width: nat)
    ensures
        ({
            let after = welcomed(r);
            let n = r.feed.blocks.len();
            &&& after.feed.blocks.len() == n + 28
            &&& after.feed.blocks.take(n as int) == r.feed.blocks
            &&& after.feed.blocks.skip(n as int) == welcome_guide()
            &&& after.feed.lines(width) == r.feed.lines(width) + feed_lines(
                r.feed.widths,
                width,
                welcome_guide(),
            )
            &&& after.feed.lines(width).take(r.feed.lines(width).len() as int) == r.feed.lines(
                width,
            )
            &&& after == (RendererView { feed: after.feed, ..r })
        }),
{
    let guide = welcome_guide();
    let before = r.feed.lines(width);
    assert((r.feed.blocks + guide).take(r.feed.blocks.len() as int) =~= r.feed.blocks);
    assert((r.feed.blocks + guide).skip(r.feed.blocks.len() as int) =~= guide);
    lemma_feed_lines_concat(r.feed.widths, width, r.feed.blocks, guide);
    assert((before + feed_lines(r.feed.widths, width, guide)).take(before.len() as int) =~= before);
}

/// Appends a rule.
fn add_rule(out: &mut Vec<Entry>)
    ensures
        entry_views(final(out)@) == entry_views(old(out)@).push(rule()),
{
    let mut s = String::new();
    push_repeat(&mut s, '\u{2500}', 42);
    assert(s@ =~= repeat('\u{2500}', 42));
    add_entry(out, BlockStyle::Welcome, s.as_str());
}

/// Appends an empty entry.
fn add_gap(out: &mut Vec<Entry>)
    ensures
        entry_views(final(out)@) == entry_views(old(out)@).push(gap()),
{
    add_entry(out, BlockStyle::Plain, "");
}

/// The first half of the guide.
fn add_guide_start(out: &mut Vec<Entry>)
    ensures
        entry_views(final(out)@) == entry_views(old(out)@) + guide_start(),
{
    add_rule(out);
    add_entry(out, BlockStyle::Welcome, "  zerostack Quickstart");
    add_rule(out);
    add_gap(out);
    add_entry(out, BlockStyle::Tool, "  Pickers:");
    add_entry(out, BlockStyle::Plain, "    @<path>     File picker / auto-complete paths");
    add_entry(out, BlockStyle::Plain, "    !<command>  Run a shell command (output stored as assistant)");
    add_entry(out, BlockStyle::Plain, "    .<prompt>   Switch prompt or one-shot .<prompt> <message>");
    add_gap(out);
    add_entry(out, BlockStyle::Tool, "  Slash Commands:");
    add_entry(out, BlockStyle::Plain, "    /model        Switch model");
    add_entry(out, BlockStyle::Plain, "    /prompt       List / activate prompts");
    add_entry(out, BlockStyle::Plain, "    .autoconfig        Switches to auto-configurator");
    add_entry(out, BlockStyle::Plain, "    /mode         Change security mode");
    assert(entry_views(out@) =~= entry_views(old(out)@) + guide_start());
}

/// The second half of the guide.
fn add_guide_end(out: &mut Vec<Entry>)
    ensures
        entry_views(final(out)@) == entry_views(old(out)@) + guide_end(),
{
    add_entry(out, BlockStyle::Plain, "    /clear        Clear session");
    add_entry(out, BlockStyle::Plain, "    /undo         Undo last exchange");
    add_entry(out, BlockStyle::Plain, "    /compress     Free context window space");
    add_entry(out, BlockStyle::Plain, "    /help         Show all commands");
    add_gap(out);
    add_entry(out, BlockStyle::Tool, "  Keybindings:");
    add_entry(out, BlockStyle::Plain, "    Ctrl+G     Open input in $EDITOR");
    add_entry(out, BlockStyle::Plain, "    Ctrl+H     Launch lazygit");
    add_entry(out, BlockStyle::Plain, "    Ctrl+S     Save session");
    add_entry(out, BlockStyle::Plain, "    Tab        File picker / auto-complete");
    add_entry(out, BlockStyle::Plain, "  Website: https://gi-dellav.github.io/zerostack/");
    add_gap(out);
    add_rule(out);
    add_gap(out);
    assert(entry_views(out@) =~= entry_views(old(out)@) + guide_end());
}

/// Appends the quickstart guide to the feed.
pub fn show_welcome(renderer: &mut Renderer)
    requires
        old(renderer).wf(),
    ensures
        final(renderer).wf(),
        final(renderer)@ == welcomed(old(renderer)@),
{
    let mut entries: Vec<Entry> = Vec::new();
    assert(entry_views(entries@) =~= Seq::<BlockView>::empty());
    add_guide_start(&mut entries);
    add_guide_end(&mut entries);
    assert(entry_views(entries@) =~= welcome_guide());
    assert(entries@.len() == welcome_guide().len());
    push_entries(renderer.feed_mut(), &entries);
}

/// Shows the quickstart guide.
pub fn handle_welcome(renderer: &mut Renderer)
    requires
        old(renderer).wf(),
    ensures
        final(renderer).wf(),
        final(renderer)@ == welcomed(old(renderer)@),
{
    show_welcome(renderer);
}

/// Ends the tutorial that was shown in another program: an error of that
/// program is written to the chat.
pub fn handle_tutor(renderer: &mut Renderer, error: Option<&str>, size: TermSize) -> (r: Option<
    Vec<DrawOp>,
>)
    requires
        old(renderer).wf(),
    ensures
        final(renderer).wf(),
        match error {
            None => r is None && final(renderer)@ == old(renderer)@,
            Some(e) => {
                &&& final(renderer)@ == (RendererView {
                    chat_dirty: true,
                    ..old(renderer)@.committed().with_block(BlockStyle::Error, e@)
                })
                &&& r is Some <==> old(renderer)@.scroll_offset == 0
                &&& r matches Some(ops) ==> op_views(ops@) == final(renderer)@.viewport(size)
            },
        },
{
    match error {
        None => None,
        Some(e) => renderer.write_line(e, C_ERROR, size),
    }
}

} // verus!
