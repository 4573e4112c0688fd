//! What the rules of the interface decide on: steps to be taken in order.

use vstd::prelude::*;

use crate::bottom::ChainPrompt;
use crate::color::Color;
use crate::draw::{op_views, DrawOp, TermSize};
use crate::events::{sanitize_output, sanitized};
use crate::feed::{color_style, BlockStyle, BlockView, FeedView};
use crate::line::CompactText;
use crate::renderer::{Renderer, RendererView};
use crate::session::MessageRole;
use crate::text::{char_seqs, chars_of, lines, lines_of, string_of};

verus! {

// ---------------------------------------------------------------------------
// Steps
// ---------------------------------------------------------------------------

/// Steps that need no further word.
#[derive(Clone, Copy, Debug, PartialEq, Eq, Structural)]
pub enum Action {
    /// Append an empty block that will grow to the feed.
    StartBlock,
    /// The last block of the feed is complete.
    FinishBlock,
    /// Paint the chat if it changed.
    Render,
    /// Paint the whole session anew.
    RenderSession,
    /// Take the chain question off the screen.
    HideChainPrompt,
    /// Additional instructions for the chain are being entered.
    ButModeOn,
    /// They no longer are.
    ButModeOff,
    /// Empty the input line.
    ClearInput,
    /// Offer the prompts behind a dot.
    StartDotPicker,
    /// Write the session to disk; a failure is reported in the chat.
    SaveSession,
    /// Write the session to disk; a failure is ignored.
    SaveSessionQuietly,
    /// Hand the messages to the advisor.
    PublishMessages,
    /// Tell other programs that a run started, stopped, or met a conflict.
    SignalStart,
    SignalStop,
    SignalConflict,
    /// Stop the run.
    AbortRun,
    /// The run can no longer be stopped, having ended.
    ForgetAbort,
    /// Stop listening to the run.
    DropReceiver,
    /// Kill what the run has started.
    KillSandbox,
    /// Wait for the agent that is being built in the background.
    ResolvePrebuild,
    /// Build the agent where there is none.
    EnsureAgent,
    /// The agent is no longer fit.
    DropAgent,
    /// Build the agent anew.
    RebuildAgent,
    /// Build the agent anew, with reasoning.
    RebuildReasoningAgent,
    /// Connect to the tool servers where that has not been done.
    EnsureMcp,
    /// Read the context files anew, and apply the mode that the current prompt
    /// names.
    ReloadContext,
    /// Hand the terminal to another program, and take it back.
    SuspendTerminal,
    ResumeTerminal,
    /// Run lazygit until it ends.
    RunLazygit,
    /// Stop listening to the keyboard.
    StopInput,
    /// Start listening to the keyboard anew.
    RebindInput,
    /// Stop all side questions.
    AbortSideQuestions,
    /// Give the merge up and restore the state before it.
    CancelMerge,
}

/// Steps that need one text.
#[derive(Clone, Copy, Debug, PartialEq, Eq, Structural)]
pub enum Telling {
    /// Append a text to the last block of the feed.
    Append,
    /// Ask a chain question.
    ShowChainPrompt,
    /// Put a text into the input line, the cursor behind it.
    LoadInput,
    /// Note a text in the history of inputs on disk.
    AppendHistory,
    /// Switch to the model that a prompt asks for.
    ApplyPromptModel,
    /// Switch to the model that a prompt asks for, or build the agent anew where
    /// it asks for none.
    SwitchPromptModel,
    /// Tell which prompt is in use now.
    ReportPrompt,
    /// Take a text into the clipboard.
    Copy,
    /// Edit a file in the editor.
    EditFile,
    /// Work in another directory.
    WorkIn,
    /// Start a login to a tool server.
    BeginLogin,
}

/// What is noted of a tool.
#[derive(Clone, Copy, Debug, PartialEq, Eq, Structural)]
pub enum ToolNote {
    Call,
    SubagentCall,
    Result,
}

/// Tokens that a provider reports.
#[derive(Clone, Copy, Debug, PartialEq, Eq, Structural)]
pub struct TurnUsage {
    pub input_tokens: u64,
    pub output_tokens: u64,
    pub cached_input_tokens: u64,
    pub cache_creation_input_tokens: u64,
}

/// How a run is started.
#[derive(Clone, Copy, Debug, PartialEq, Eq, Structural)]
pub struct RunKind {
    /// Without the messages so far.
    pub fresh: bool,
    /// It can be stopped.
    pub abortable: bool,
    /// The iteration of a loop that it is.
    pub iteration: Option<usize>,
}

/// A worktree to be left.
#[derive(Debug, PartialEq)]
pub struct Worktree {
    pub main_path: String,
    pub wt_path: String,
    pub branch: String,
    pub force: bool,
}

/// What an iteration of a loop was.
#[derive(Debug, PartialEq)]
pub struct Iteration {
    pub number: usize,
    pub prompt: String,
    pub response: String,
    /// What the command that checks it printed, where there is one.
    pub output: Option<String>,
    pub summary: String,
}

/// One step.
#[derive(Debug, PartialEq)]
pub enum Step {
    /// Write a line of its own into the chat.
    WriteLine(String, Color),
    /// Write into the chat without ending the line.
    Write(String, Color),
    /// Append a block to the feed.
    Block(BlockStyle, String),
    /// Keep only the first blocks of the feed.
    TruncateBlocks(usize),
    /// Keep only the first messages of the session.
    TruncateMessages(usize),
    Act(Action),
    Tell(Telling, String),
    /// Add a message to the session.
    AddMessage(MessageRole, String),
    /// Note a tool with its arguments or its output in the session.
    NoteTool(ToolNote, String, String),
    /// Add to the session's tokens and cost.
    AddUsage(TurnUsage),
    /// The session is at least as large as a provider's report says.
    RaiseEstimate(TurnUsage),
    /// Take the session's size from a provider's report.
    Calibrate(TurnUsage),
    /// Start a run.
    Spawn(String, RunKind),
    /// Ask a side question.
    AskAside(u32, String),
    /// Shorten the session, on the given instructions; `auto` where nobody
    /// asked for it. A failure is reported in the chat behind the last text.
    Compress { instructions: Option<String>, auto: bool, on_error: String },
    /// Remove a worktree and its branch.
    CleanUp(Worktree),
    /// Keep what an iteration of a loop was on disk; a failure is ignored.
    KeepIteration(Iteration),
}

/// What a [`Step`] holds.
pub enum StepView {
    WriteLine(Seq<char>, Color),
    Write(Seq<char>, Color),
    Block(BlockStyle, Seq<char>),
    TruncateBlocks(usize),
    TruncateMessages(usize),
    Act(Action),
    Tell(Telling, Seq<char>),
    AddMessage(MessageRole, Seq<char>),
    NoteTool(ToolNote, Seq<char>, Seq<char>),
    AddUsage(TurnUsage),
    RaiseEstimate(TurnUsage),
    Calibrate(TurnUsage),
    Spawn(Seq<char>, RunKind),
    AskAside(u32, Seq<char>),
    Compress { instructions: Option<Seq<char>>, auto: bool, on_error: Seq<char> },
    CleanUp(WorktreeView),
    KeepIteration(IterationView),
}

/// What a [`Worktree`] holds.
pub struct WorktreeView {
    pub main_path: Seq<char>,
    pub wt_path: Seq<char>,
    pub branch: Seq<char>,
    pub force: bool,
}

impl View for Worktree {
    type V = WorktreeView;

    open spec fn view(&self) -> WorktreeView {
        WorktreeView {
            main_path: self.main_path@,
            wt_path: self.wt_path@,
            branch: self.branch@,
            force: self.force,
        }
    }
}

/// What an [`Iteration`] holds.
pub struct IterationView {
    pub number: usize,
    pub prompt: Seq<char>,
    pub response: Seq<char>,
    pub output: Option<Seq<char>>,
    pub summary: Seq<char>,
}

impl View for Iteration {
    type V = IterationView;

    open spec fn view(&self) -> IterationView {
        IterationView {
            number: self.number,
            prompt: self.prompt@,
            response: self.response@,
            output: opt_text(self.output),
            summary: self.summary@,
        }
    }
}

/// The text of an optional string.
pub open spec fn opt_text(s: Option<String>) -> Option<Seq<char>> {
    match s {
        Some(t) => Some(t@),
        None => None,
    }
}

impl View for Step {
    type V = StepView;

    open spec fn view(&self) -> StepView {
        match *self {
            Step::WriteLine(t, c) => StepView::WriteLine(t@, c),
            Step::Write(t, c) => StepView::Write(t@, c),
            Step::Block(b, t) => StepView::Block(b, t@),
            Step::TruncateBlocks(n) => StepView::TruncateBlocks(n),
            Step::TruncateMessages(n) => StepView::TruncateMessages(n),
            Step::Act(a) => StepView::Act(a),
            Step::Tell(k, t) => StepView::Tell(k, t@),
            Step::AddMessage(role, t) => StepView::AddMessage(role, t@),
            Step::NoteTool(k, name, t) => StepView::NoteTool(k, name@, t@),
            Step::AddUsage(u) => StepView::AddUsage(u),
            Step::RaiseEstimate(u) => StepView::RaiseEstimate(u),
            Step::Calibrate(u) => StepView::Calibrate(u),
            Step::Spawn(t, k) => StepView::Spawn(t@, k),
            Step::AskAside(id, t) => StepView::AskAside(id, t@),
            Step::Compress { instructions, auto, on_error } => StepView::Compress {
                instructions: opt_text(instructions),
                auto,
                on_error: on_error@,
            },
            Step::CleanUp(w) => StepView::CleanUp(w@),
            Step::KeepIteration(i) => StepView::KeepIteration(i@),
        }
    }
}

/// The views of a list of steps.
pub open spec fn step_views(v: Seq<Step>) -> Seq<StepView> {
    v.map_values(|s: Step| s@)
}

// ---------------------------------------------------------------------------
// Lists of steps
// ---------------------------------------------------------------------------

/// The line of its own.
pub open spec fn says(text: Seq<char>, color: Color) -> StepView {
    StepView::WriteLine(text, color)
}

/// The step without a further word.
pub open spec fn act(a: Action) -> StepView {
    StepView::Act(a)
}

/// The empty line.
pub open spec fn blank() -> StepView {
    StepView::WriteLine(Seq::empty(), Color::White)
}

/// The given lines, each as the user's.
pub open spec fn echoed_lines(ls: Seq<Seq<char>>) -> Seq<StepView> {
    ls.map_values(|l: Seq<char>| says("> "@ + sanitized(l), Color::Green))
}

/// A text that the user entered, and an empty line.
pub open spec fn echo(text: Seq<char>) -> Seq<StepView> {
    echoed_lines(lines(text)).push(blank())
}

/// Appends one step.
pub fn push_step(out: &mut Vec<Step>, step: Step)
    ensures
        step_views(final(out)@) == step_views(old(out)@).push(step@),
{
    out.push(step);
    assert(step_views(out@) =~= step_views(old(out)@).push(step@));
}

/// Appends a line of its own.
pub fn push_says(out: &mut Vec<Step>, text: &str, color: Color)
    ensures
        step_views(final(out)@) == step_views(old(out)@).push(says(text@, color)),
{
    push_step(out, Step::WriteLine(string_of(&chars_of(text)), color));
}

/// Appends a step that needs no further word.
pub fn push_act(out: &mut Vec<Step>, a: Action)
    ensures
        step_views(final(out)@) == step_views(old(out)@).push(act(a)),
{
    push_step(out, Step::Act(a));
}

/// Appends a step that needs one text.
pub fn push_tell(out: &mut Vec<Step>, k: Telling, text: &str)
    ensures
        step_views(final(out)@) == step_views(old(out)@).push(StepView::Tell(k, text@)),
{
    push_step(out, Step::Tell(k, string_of(&chars_of(text))));
}

/// Appends an empty line.
pub fn push_blank(out: &mut Vec<Step>)
    ensures
        step_views(final(out)@) == step_views(old(out)@).push(blank()),
{
    let s = String::new();
    assert(s@ =~= Seq::<char>::empty());
    push_step(out, Step::WriteLine(s, Color::White));
}

/// Appends a text that the user entered, and an empty line.
pub fn push_echo(out: &mut Vec<Step>, text: &str)
    ensures
        step_views(final(out)@) == step_views(old(out)@) + echo(text@),
{
    let ls = lines_of(&chars_of(text));
    let ghost ss = char_seqs(ls@);
    let ghost before = step_views(out@);
    let n: usize = ls.len();
    assert(ss.len() == n);
    assert(before + echoed_lines(ss.take(0)) =~= before);
    for i in 0..n
        invariant
            n == ls@.len(),
            ss == char_seqs(ls@),
            step_views(out@) == before + echoed_lines(ss.take(i as int)),
    {
        let safe = sanitize_output(string_of(&ls[i]).as_str());
        let t = cat("> ", safe.text());
        push_says(out, t.as_str(), Color::Green);
        assert((before + echoed_lines(ss.take(i as int))).push(
            says("> "@ + sanitized(ss[i as int]), Color::Green),
        ) =~= before + echoed_lines(ss.take(i + 1)));
    }
    assert(ss.take(n as int) =~= ss);
    push_blank(out);
    assert((before + echoed_lines(ss)).push(blank()) =~= before + echo(text@));
}

/// Appends all steps of `src`.
pub fn push_all(out: &mut Vec<Step>, src: Vec<Step>)
    ensures
        step_views(final(out)@) == step_views(old(out)@) + step_views(src@),
{
    let ghost added = src@;
    let mut src = src;
    out.append(&mut src);
    assert(step_views(out@) =~= step_views(old(out)@) + step_views(added));
}

/// Two texts, one behind the other.
pub fn cat(a: &str, b: &str) -> (r: String)
    ensures
        r@ == a@ + b@,
{
    let mut s = string_of(&chars_of(a));
    s.push_str(b);
    s
}

/// Three texts, one behind the other.
pub fn cat3(a: &str, b: &str, c: &str) -> (r: String)
    ensures
        r@ == a@ + b@ + c@,
{
    let mut s = cat(a, b);
    s.push_str(c);
    s
}

/// Five texts, one behind the other.
pub fn cat5(a: &str, b: &str, c: &str, d: &str, e: &str) -> (r: String)
    ensures
        r@ == a@ + b@ + c@ + d@ + e@,
{
    let mut s = cat3(a, b, c);
    s.push_str(d);
    s.push_str(e);
    s
}

/// A copy of a string.
pub fn copy_text(s: &str) -> (r: String)
    ensures
        r@ == s@,
{
    string_of(&chars_of(s))
}

// ---------------------------------------------------------------------------
// Steps that concern the screen
// ---------------------------------------------------------------------------

/// The feed with a text appended to its last block.
pub open spec fn grown(f: FeedView, text: Seq<char>) -> FeedView {
    let bs = f.blocks;
    if bs.len() > 0 {
        f.changed(bs.update(bs.len() - 1, (BlockView { text: bs.last().text + text, ..bs.last() })))
    } else {
        f
    }
}

/// The feed with its last block complete.
pub open spec fn finished(f: FeedView) -> FeedView {
    let bs = f.blocks;
    if bs.len() > 0 && bs.last().running {
        f.changed(bs.update(bs.len() - 1, (BlockView { running: false, ..bs.last() })))
    } else {
        f
    }
}

/// The feed with only its first blocks.
pub open spec fn shortened(f: FeedView, n: nat) -> FeedView {
    f.changed(
        if n < f.blocks.len() {
            f.blocks.take(n as int)
        } else {
            f.blocks
        },
    )
}

/// What a step makes of the screen. Steps that do not concern it leave it as it
/// is.
pub open spec fn after_step(r: RendererView, step: StepView) -> RendererView {
    match step {
        StepView::WriteLine(t, c) => RendererView {
            chat_dirty: true,
            ..r.committed().with_block(color_style(c), t)
        },
        StepView::Write(t, c) => r.written(t, c),
        StepView::Block(b, t) => r.with_block(b, t),
        StepView::TruncateBlocks(n) => RendererView { feed: shortened(r.feed, n as nat), ..r },
        StepView::Tell(Telling::Append, t) => RendererView { feed: grown(r.feed, t), ..r },
        StepView::Tell(Telling::ShowChainPrompt, t) => RendererView { chain_prompt: Some(t), ..r },
        StepView::Act(a) => match a {
            Action::StartBlock => RendererView {
                feed: r.feed.changed(
                    r.feed.blocks.push(
                        (BlockView { style: BlockStyle::Agent, text: Seq::empty(), running: true }),
                    ),
                ),
                ..r
            },
            Action::FinishBlock => RendererView { feed: finished(r.feed), ..r },
            Action::HideChainPrompt => RendererView { chain_prompt: None, ..r },
            Action::ButModeOn => RendererView { chain_but_mode: true, ..r },
            Action::ButModeOff => RendererView { chain_but_mode: false, ..r },
            _ => r,
        },
        _ => r,
    }
}

/// What a list of steps makes of the screen.
pub open spec fn after_steps(r: RendererView, steps: Seq<StepView>) -> RendererView
    decreases steps.len(),
{
    if steps.len() == 0 {
        r
    } else {
        after_step(after_steps(r, steps.drop_last()), steps.last())
    }
}

/// Takes the part of a step that concerns the screen. Returns what is to be
/// painted at once.
pub fn take_step(renderer: &mut Renderer, step: &Step, size: TermSize) -> (r: Option<Vec<DrawOp>>)
    requires
        old(renderer).wf(),
        step@ == act(Action::Render) && old(renderer)@.chat_stale(size) ==> old(
            renderer,
        )@.scroll_in_range(size),
    ensures
        final(renderer).wf(),
        final(renderer)@ == after_step(old(renderer)@, step@),
        r matches Some(ops) ==> op_views(ops@) == final(renderer)@.viewport(size),
        r is Some <==> match step@ {
            StepView::WriteLine(_, _) => old(renderer)@.scroll_offset == 0,
            StepView::Write(t, _) => old(renderer)@.scroll_offset == 0 && t.len() > 0,
            StepView::Act(Action::Render) => old(renderer)@.chat_stale(size),
            _ => false,
        },
{
    match step {
        Step::WriteLine(t, c) => renderer.write_line(t.as_str(), *c, size),
        Step::Write(t, c) => renderer.write(t.as_str(), *c, size),
        Step::Block(b, t) => {
            renderer.feed.push_block(*b, t.as_str());
            None
        },
        Step::TruncateBlocks(n) => {
            renderer.feed.truncate_blocks(*n);
            None
        },
        Step::Tell(Telling::Append, t) => {
            renderer.feed.append_to_last(t.as_str());
            None
        },
        Step::Tell(Telling::ShowChainPrompt, t) => {
            renderer.chain_prompt = Some(ChainPrompt { question: CompactText::of(t.as_str()) });
            None
        },
        Step::Act(a) => match a {
            Action::StartBlock => {
                renderer.feed.push_streaming_block(BlockStyle::Agent);
                None
            },
            Action::FinishBlock => {
                renderer.feed.finalize_last();
                None
            },
            Action::HideChainPrompt => {
                renderer.chain_prompt = None;
                None
            },
            Action::ButModeOn => {
                renderer.chain_but_mode = true;
                None
            },
            Action::ButModeOff => {
                renderer.chain_but_mode = false;
                None
            },
            Action::Render => renderer.render_viewport(size),
            _ => None,
        },
        _ => None,
    }
}

} // verus!
