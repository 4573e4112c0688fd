//! From one turn to the next: starting and ending runs, relief for a full
//! context, chains of prompts, loops and worktrees.

use vstd::prelude::*;

use crate::color::{Color, C_AGENT, C_ERROR};
use crate::prompts::{
    among, apply_prompt_mode, find_phase, opt_phase, phase_after, prompt_applied,
    restore_user_mode, rule_views, user_mode, ChainPhase, ChainRule, ContextFiles, ContextView,
    PermState, PhaseView, RuleView,
};
use crate::session::MessageRole;
use crate::steps::{
    act, blank, cat, cat3, copy_text, echo, opt_text, push_act, push_all, push_blank, push_echo,
    push_says, push_step, push_tell, says, step_views, Action, Iteration, IterationView,
    RunKind, Step, StepView, Telling, Worktree, WorktreeView,
};
use crate::text::{
    chars_of, decimal, decimal_of, slice_of, string_of, string_seqs, trim, trim_of,
};
use crate::turn::{AgentEvent, AgentView, RunState, RunView};

verus! {

// ---------------------------------------------------------------------------
// State
// ---------------------------------------------------------------------------

/// A prompt that is run again and again.
pub struct LoopState {
    pub active: bool,
    pub iteration: usize,
    pub last_summary: Option<String>,
    pub last_run_output: Option<String>,
}

/// What a [`LoopState`] holds.
pub struct LoopView {
    pub active: bool,
    pub iteration: usize,
    pub last_summary: Option<Seq<char>>,
    pub last_run_output: Option<Seq<char>>,
}

impl View for LoopState {
    type V = LoopView;

    open spec fn view(&self) -> LoopView {
        LoopView {
            active: self.active,
            iteration: self.iteration,
            last_summary: opt_text(self.last_summary),
            last_run_output: opt_text(self.last_run_output),
        }
    }
}

/// What is to follow the current run.
pub struct ChainState {
    /// The step that has been offered.
    pub pending: Option<ChainPhase>,
    /// What the status line says of it.
    pub label_msg: Option<String>,
    /// The prompt to return to.
    pub dot_prompt_restore: Option<String>,
    pub loop_state: Option<LoopState>,
    /// What the status line says of the loop.
    pub loop_label: Option<String>,
    /// The worktree to be left.
    pub wt_return: Option<Worktree>,
}

/// What a [`ChainState`] holds.
pub struct ChainView {
    pub pending: Option<PhaseView>,
    pub label_msg: Option<Seq<char>>,
    pub dot_prompt_restore: Option<Seq<char>>,
    pub loop_state: Option<LoopView>,
    pub loop_label: Option<Seq<char>>,
    pub wt_return: Option<WorktreeView>,
}

impl View for ChainState {
    type V = ChainView;

    open spec fn view(&self) -> ChainView {
        ChainView {
            pending: opt_phase(self.pending),
            label_msg: opt_text(self.label_msg),
            dot_prompt_restore: opt_text(self.dot_prompt_restore),
            loop_state: match self.loop_state {
                Some(l) => Some(l@),
                None => None,
            },
            loop_label: opt_text(self.loop_label),
            wt_return: match self.wt_return {
                Some(w) => Some(w@),
                None => None,
            },
        }
    }
}

impl ChainView {
    /// Whether a loop is going on.
    pub open spec fn looping(self) -> bool {
        self.loop_state matches Some(l) && l.active
    }
}

impl ChainState {
    /// Nothing is to follow.
    pub fn empty() -> (r: ChainState)
        ensures
            r@ == (ChainView {
                pending: None,
                label_msg: None,
                dot_prompt_restore: None,
                loop_state: None,
                loop_label: None,
                wt_return: None,
            }),
    {
        ChainState {
            pending: None,
            label_msg: None,
            dot_prompt_restore: None,
            loop_state: None,
            loop_label: None,
            wt_return: None,
        }
    }

    /// Whether a loop is going on.
    pub fn loop_running(&self) -> (r: bool)
        ensures
            r == self@.looping(),
    {
        match &self.loop_state {
            Some(l) => l.active,
            None => false,
        }
    }
}

// ---------------------------------------------------------------------------
// Starting a run
// ---------------------------------------------------------------------------

/// A run on the messages so far that can be stopped.
pub open spec fn main_run() -> RunKind {
    RunKind { fresh: false, abortable: true, iteration: None }
}

/// A run on the messages so far that can be stopped.
pub fn a_main_run() -> (r: RunKind)
    ensures
        r == main_run(),
{
    RunKind { fresh: false, abortable: true, iteration: None }
}

/// The state once a run on an input has started.
pub open spec fn started(run: RunView, text: Seq<char>) -> RunView {
    RunView { is_running: true, pending_send: Some(text), ..run }
}

/// How a run on an input is started.
pub open spec fn start_steps(text: Seq<char>, no_session: bool) -> Seq<StepView> {
    seq![
        act(Action::ResolvePrebuild),
        act(Action::EnsureAgent),
        StepView::Spawn(text, main_run()),
        act(Action::SignalStart),
        StepView::AddMessage(MessageRole::User, text),
        act(Action::PublishMessages),
    ] + (if no_session {
        Seq::empty()
    } else {
        seq![StepView::Tell(Telling::AppendHistory, text)]
    })
}

/// Starts the main run on an input. There must be none: it would go on unseen.
pub fn start_main_run(text: &str, run: &mut RunState, no_session: bool) -> (r: Vec<Step>)
    requires
        !old(run).is_running,
    ensures
        final(run)@ == started(old(run)@, text@),
        step_views(r@) == start_steps(text@, no_session),
{
    let mut out: Vec<Step> = Vec::new();
    push_act(&mut out, Action::ResolvePrebuild);
    push_act(&mut out, Action::EnsureAgent);
    push_step(&mut out, Step::Spawn(copy_text(text), a_main_run()));
    run.is_running = true;
    push_act(&mut out, Action::SignalStart);
    push_step(&mut out, Step::AddMessage(MessageRole::User, copy_text(text)));
    run.pending_send = Some(copy_text(text));
    push_act(&mut out, Action::PublishMessages);
    if !no_session {
        push_tell(&mut out, Telling::AppendHistory, text);
    }
    assert(step_views(out@) =~= start_steps(text@, no_session));
    out
}

// ---------------------------------------------------------------------------
// The trace of a turn, and pressure on the context
// ---------------------------------------------------------------------------

/// Entries that the trace of a turn has at most.
pub const TURN_TRACE_MAX: usize = 64;

/// The run with an entry in its trace, where there is room.
pub open spec fn noted(run: RunView, entry: Seq<char>) -> RunView {
    if run.turn_trace.len() < TURN_TRACE_MAX {
        RunView { turn_trace: run.turn_trace.push(entry), ..run }
    } else {
        run
    }
}

/// The run with an event in its trace.
pub open spec fn traced(run: RunView, ev: AgentView) -> RunView {
    match ev {
        AgentView::ToolCall { summary, .. } => noted(run, "\u{2192} "@ + summary),
        AgentView::ToolResult { digest, .. } => noted(run, "\u{2190} "@ + digest),
        AgentView::Done { .. } | AgentView::Error(_) => RunView {
            turn_trace: Seq::empty(),
            awaiting_compaction_relief: false,
            ..run
        },
        _ => run,
    }
}

/// Adds an entry to the trace, where there is room.
fn note(run: &mut RunState, entry: String)
    ensures
        final(run)@ == noted(old(run)@, entry@),
{
    if run.turn_trace.len() < TURN_TRACE_MAX {
        run.turn_trace.push(entry);
        assert(run@.turn_trace =~= old(run)@.turn_trace.push(entry@));
    }
}

/// Takes an event into the trace of the turn.
pub fn trace_event(run: &mut RunState, event: &AgentEvent)
    ensures
        final(run)@ == traced(old(run)@, event@),
{
    match event {
        AgentEvent::ToolCall { name: _, args: _, summary } => {
            note(run, cat("\u{2192} ", summary.as_str()));
        },
        AgentEvent::ToolResult { name: _, output: _, digest, tasks: _ } => {
            note(run, cat("\u{2190} ", digest.as_str()));
        },
        AgentEvent::Done { response: _, usage: _ } => {
            run.turn_trace.clear();
            run.awaiting_compaction_relief = false;
            assert(run@.turn_trace =~= Seq::empty());
        },
        AgentEvent::Error(_) => {
            run.turn_trace.clear();
            run.awaiting_compaction_relief = false;
            assert(run@.turn_trace =~= Seq::empty());
        },
        _ => {},
    }
}

/// The trace of a turn never outgrows its limit.
pub proof fn lemma_trace_bounded(run: RunView, ev: AgentView)
    requires
        run.turn_trace.len() <= TURN_TRACE_MAX,
    ensures
        traced(run, ev).turn_trace.len() <= TURN_TRACE_MAX,
{
}

/// As long as there is room, the trace gains one entry for each call of a tool and
/// each result, with what it was, behind those before it; the turn's end empties it,
/// and nothing else touches it.
pub proof fn lemma_trace_tells(run: RunView, ev: AgentView)
    requires
        run.turn_trace.len() < TURN_TRACE_MAX,
    ensures
        ({
            let after = traced(run, ev).turn_trace;
            match ev {
                AgentView::ToolCall { summary, .. } => {
                    &&& after.len() == run.turn_trace.len() + 1
                    &&& after.drop_last() == run.turn_trace
                    &&& after.last() == "\u{2192} "@ + summary
                },
                AgentView::ToolResult { digest, .. } => {
                    &&& after.len() == run.turn_trace.len() + 1
                    &&& after.drop_last() == run.turn_trace
                    &&& after.last() == "\u{2190} "@ + digest
                },
                AgentView::Done { .. } => after.len() == 0,
                AgentView::Error(_) => after.len() == 0,
                _ => after == run.turn_trace,
            }
        }),
{
    match ev {
        AgentView::ToolCall { summary, .. } => {
            assert(run.turn_trace.push("\u{2192} "@ + summary).drop_last() =~= run.turn_trace);
        },
        AgentView::ToolResult { digest, .. } => {
            assert(run.turn_trace.push("\u{2190} "@ + digest).drop_last() =~= run.turn_trace);
        },
        _ => {},
    }
}

/// What to do about a full context.
#[derive(Clone, Copy, Debug, PartialEq, Eq, Structural)]
pub enum Relief {
    /// Nothing: go on.
    Proceed,
    /// Shorten it and start again.
    Compact,
    /// Shortening did not help: stop.
    Stop,
}

/// What the relief depends on besides the run.
#[derive(Clone, Copy, Debug)]
pub struct PressureSettings {
    pub loop_running: bool,
    pub no_session: bool,
    pub compact_enabled: bool,
    pub context_window: u64,
    /// Whether the prompt takes more of the window than allowed; `None` where
    /// there is no limit.
    pub over_threshold: Option<bool>,
}

/// Whether the context is looked at.
pub open spec fn watched(run: RunView, ev: AgentView, s: PressureSettings) -> bool {
    ev is CompletionCall && run.is_running && !s.loop_running && !s.no_session && s.compact_enabled
        && s.context_window > 0 && s.over_threshold is Some
}

/// What to do about the context, and the run after it.
pub open spec fn relief(run: RunView, ev: AgentView, s: PressureSettings) -> (RunView, Relief) {
    if watched(run, ev, s) {
        if s.over_threshold->0 {
            (
                RunView { awaiting_compaction_relief: !run.awaiting_compaction_relief, ..run },
                if run.awaiting_compaction_relief {
                    Relief::Stop
                } else {
                    Relief::Compact
                },
            )
        } else {
            (RunView { awaiting_compaction_relief: false, ..run }, Relief::Proceed)
        }
    } else {
        (run, Relief::Proceed)
    }
}

/// Decides what to do about the context.
pub fn decide_relief(run: &mut RunState, event: &AgentEvent, s: PressureSettings) -> (r: Relief)
    ensures
        (final(run)@, r) == relief(old(run)@, event@, s),
{
    let completion = match event {
        AgentEvent::CompletionCall(_) => true,
        _ => false,
    };
    if completion && run.is_running && !s.loop_running && !s.no_session && s.compact_enabled
        && s.context_window > 0 {
        match s.over_threshold {
            Some(true) => {
                if run.awaiting_compaction_relief {
                    run.awaiting_compaction_relief = false;
                    return Relief::Stop;
                } else {
                    run.awaiting_compaction_relief = true;
                    return Relief::Compact;
                }
            },
            Some(false) => {
                run.awaiting_compaction_relief = false;
            },
            None => {},
        }
    }
    Relief::Proceed
}

/// A turn is not shortened twice in a row: where the context is still too full
/// at the next call, the turn stops.
pub proof fn lemma_no_endless_relief(
    run: RunView,
    first: AgentView,
    second: AgentView,
    s: PressureSettings,
)
    requires
        relief(run, first, s).1 is Compact,
        watched(relief(run, first, s).0, second, s),
        s.over_threshold == Some(true),
    ensures
        relief(relief(run, first, s).0, second, s).1 is Stop,
{
}

/// A turn is only shortened or stopped while it runs, where its context is too
/// full, shortening is enabled, the session is kept, and no loop runs; it is
/// shortened first. One whose context is not too full goes on.
pub proof fn lemma_relief_has_reason(run: RunView, ev: AgentView, s: PressureSettings)
    ensures
        !(relief(run, ev, s).1 is Proceed) ==> ev is CompletionCall && run.is_running
            && s.over_threshold == Some(true) && s.compact_enabled && !s.no_session
            && !s.loop_running && s.context_window > 0,
        relief(run, ev, s).1 is Stop ==> run.awaiting_compaction_relief,
        relief(run, ev, s).1 is Compact ==> !run.awaiting_compaction_relief,
        s.over_threshold != Some(true) ==> relief(run, ev, s).1 is Proceed,
        ev is CompletionCall && run.is_running && s.over_threshold == Some(true)
            && s.compact_enabled && !s.no_session && !s.loop_running && s.context_window > 0
            ==> !(relief(run, ev, s).1 is Proceed),
{
}

/// The lines of a trace, each ended.
pub open spec fn trace_text(trace: Seq<Seq<char>>, n: nat) -> Seq<char>
    decreases n,
{
    if n == 0 {
        Seq::empty()
    } else {
        trace_text(trace, (n - 1) as nat) + trace[n - 1].push('\n')
    }
}

/// What a turn has come to so far.
pub open spec fn recap(run: RunView) -> Seq<char> {
    let answer = trim(run.response_buf);
    trim(
        (if answer.len() > 0 {
            answer + "\n\n"@
        } else {
            Seq::empty()
        }) + (if run.turn_trace.len() > 0 {
            "[Progress this turn before context compaction]\n"@ + trace_text(
                run.turn_trace,
                run.turn_trace.len(),
            )
        } else {
            Seq::empty()
        }),
    )
}

/// What a turn has come to so far.
fn recap_of(run: &RunState) -> (r: String)
    ensures
        r@ == recap(run@),
{
    let mut s = String::new();
    let answer = trim_of(&chars_of(run.response_buf.as_str()));
    assert(s@ =~= Seq::<char>::empty());
    if answer.len() > 0 {
        s.push_str(string_of(&answer).as_str());
        s.push_str("\n\n");
        assert(s@ =~= answer@ + "\n\n"@);
    }
    let ghost head = s@;
    let n: usize = run.turn_trace.len();
    let ghost trace = run@.turn_trace;
    assert(trace.len() == n);
    if n > 0 {
        s.push_str("[Progress this turn before context compaction]\n");
        let ghost start = s@;
        assert(start =~= head + "[Progress this turn before context compaction]\n"@);
        assert(start + trace_text(trace, 0) =~= start);
        for i in 0..n
            invariant
                n == run.turn_trace@.len(),
                trace == run@.turn_trace,
                s@ == start + trace_text(trace, i as nat),
        {
            assert(trace[i as int] == run.turn_trace@[i as int]@);
            s.push_str(run.turn_trace[i].as_str());
            s.push('\n');
            assert(s@ =~= start + trace_text(trace, (i + 1) as nat));
        }
        assert(s@ =~= head + ("[Progress this turn before context compaction]\n"@ + trace_text(
            trace,
            n as nat,
        )));
    } else {
        assert(s@ =~= head + Seq::<char>::empty());
    }
    string_of(&trim_of(&chars_of(s.as_str())))
}

/// What the agent is told when it starts again on a shortened context.
pub open spec fn continue_prompt() -> Seq<char> {
    "[Context was compacted to save space; the full prior history is in the system summary above.]\n\nContinue with the user's original task. Do not redo work already completed per the summary; focus on what remains. Context was tight, so prefer narrower follow-up tool calls over wide ones until pressure subsides."@
}

/// How a turn starts again on a shortened context, which it had filled to
/// `percent`.
pub open spec fn relief_steps(run: RunView, percent: u64) -> Seq<StepView> {
    seq![act(Action::AbortRun), act(Action::DropReceiver)] + (if recap(run).len() > 0 {
        seq![StepView::AddMessage(MessageRole::Assistant, recap(run))]
    } else {
        Seq::empty()
    }) + seq![
        says(
            "mid-turn context relief, restarting (at "@ + decimal(percent as nat) + "%)..."@,
            Color::DarkGrey,
        ),
        StepView::Compress {
            instructions: None,
            auto: true,
            on_error: "mid-turn compact error: "@,
        },
        act(Action::EnsureAgent),
        StepView::Spawn(continue_prompt(), main_run()),
        act(Action::SignalStart),
    ]
}

/// Shortens the context in the middle of a turn and starts again. What the turn
/// has come to so far is kept as a message.
pub fn mid_turn_compact_and_respawn(run: &mut RunState, percent: u64) -> (r: Vec<Step>)
    ensures
        final(run)@ == (RunView {
            is_running: true,
            turn_trace: Seq::empty(),
            ..old(run)@.unanswered()
        }),
        step_views(r@) == relief_steps(old(run)@, percent),
{
    let ghost start = run@;
    let mut out: Vec<Step> = Vec::new();
    push_act(&mut out, Action::AbortRun);
    push_act(&mut out, Action::DropReceiver);
    let text = recap_of(run);
    if chars_of(text.as_str()).len() > 0 {
        push_step(&mut out, Step::AddMessage(MessageRole::Assistant, text));
    }
    run.turn_trace.clear();
    run.forget_answer();
    assert(run@.turn_trace =~= Seq::empty());
    let line = cat3(
        "mid-turn context relief, restarting (at ",
        decimal_of(percent).as_str(),
        "%)...",
    );
    push_says(&mut out, line.as_str(), Color::DarkGrey);
    push_step(
        &mut out,
        Step::Compress {
            instructions: None,
            auto: true,
            on_error: copy_text("mid-turn compact error: "),
        },
    );
    push_act(&mut out, Action::EnsureAgent);
    let prompt = copy_text(
        "[Context was compacted to save space; the full prior history is in the system summary above.]\n\nContinue with the user's original task. Do not redo work already completed per the summary; focus on what remains. Context was tight, so prefer narrower follow-up tool calls over wide ones until pressure subsides.",
    );
    push_step(&mut out, Step::Spawn(prompt, a_main_run()));
    run.is_running = true;
    push_act(&mut out, Action::SignalStart);
    assert(step_views(out@) =~= relief_steps(start, percent));
    out
}

/// The numbers of a context that is too full. `ceiling` is the limit in tokens;
/// `threshold` and `pressure` are the limit and the prompt in whole percent of
/// the window.
pub struct Exhaustion {
    pub prompt_tokens: u64,
    pub ceiling: u64,
    pub threshold: u64,
    pub pressure: u64,
    pub window: u64,
    pub reserve: u64,
    pub keep_recent: u64,
}

/// The account of a context that is too full, and what can be done.
pub open spec fn exhausted_report(x: Exhaustion) -> Seq<Seq<char>> {
    let overflow = if x.prompt_tokens > x.ceiling {
        (x.prompt_tokens - x.ceiling) as nat
    } else {
        0
    };
    seq![
        "  context window .............. "@ + decimal(x.window as nat) + " tokens"@,
        "  mid-turn ceiling ............ "@ + decimal(x.ceiling as nat) + " tokens  ("@ + decimal(
            x.threshold as nat,
        ) + "% of window)"@,
        "  prompt after compaction ..... "@ + decimal(x.prompt_tokens as nat) + " tokens  ("@
            + decimal(x.pressure as nat) + "% of window)"@,
        "  overflow above ceiling ...... "@ + decimal(overflow) + " tokens"@,
        "  reserved for response ....... "@ + decimal(x.reserve as nat) + " tokens"@,
        "  kept-recent budget .......... "@ + decimal(x.keep_recent as nat) + " tokens"@,
        Seq::empty(),
        "This model and context-window combination is too small to run zerostack's agentic loop on this"@
            + " task. To proceed you can:"@,
        "  - increase context_window (and the model server's real KV cache) so the window clears the floor above;"@,
        "  - raise mid_turn_compact_threshold above "@ + decimal(x.pressure as nat)
            + "% so this prompt fits under the ceiling (trades safety for room: the real KV cache must still hold "@
            + decimal(x.prompt_tokens as nat) + "+ tokens);"@,
        "  - lower keep_recent_tokens or reserve_tokens to shrink the floor;"@,
        "  - switch to a model/server with a larger context window, or split the task into smaller pieces."@,
    ]
}

/// One line of the account: a name, a number and its unit.
fn report_line(name: &str, n: u64) -> (r: String)
    ensures
        r@ == name@ + decimal(n as nat) + " tokens"@,
{
    cat3(name, decimal_of(n).as_str(), " tokens")
}

/// One line of the account: a name, a number and its share of the window.
fn share_line(name: &str, n: u64, percent: u64) -> (r: String)
    ensures
        r@ == name@ + decimal(n as nat) + " tokens  ("@ + decimal(percent as nat)
            + "% of window)"@,
{
    crate::steps::cat5(
        name,
        decimal_of(n).as_str(),
        " tokens  (",
        decimal_of(percent).as_str(),
        "% of window)",
    )
}

/// The account of a context that is too full, and what can be done.
pub fn context_exhausted_report(x: &Exhaustion) -> (r: Vec<String>)
    ensures
        string_seqs(r@) == exhausted_report(*x),
{
    let overflow: u64 = if x.prompt_tokens > x.ceiling {
        x.prompt_tokens - x.ceiling
    } else {
        0
    };
    let mut r: Vec<String> = Vec::new();
    r.push(report_line("  context window .............. ", x.window));
    r.push(share_line("  mid-turn ceiling ............ ", x.ceiling, x.threshold));
    r.push(share_line("  prompt after compaction ..... ", x.prompt_tokens, x.pressure));
    r.push(report_line("  overflow above ceiling ...... ", overflow));
    r.push(report_line("  reserved for response ....... ", x.reserve));
    r.push(report_line("  kept-recent budget .......... ", x.keep_recent));
    let empty = String::new();
    assert(empty@ =~= Seq::<char>::empty());
    r.push(empty);
    r.push(
        cat(
            "This model and context-window combination is too small to run zerostack's agentic loop on this",
            " task. To proceed you can:",
        ),
    );
    r.push(
        copy_text(
            "  - increase context_window (and the model server's real KV cache) so the window clears the floor above;",
        ),
    );
    r.push(
        crate::steps::cat5(
            "  - raise mid_turn_compact_threshold above ",
            decimal_of(x.pressure).as_str(),
            "% so this prompt fits under the ceiling (trades safety for room: the real KV cache must still hold ",
            decimal_of(x.prompt_tokens).as_str(),
            "+ tokens);",
        ),
    );
    r.push(copy_text("  - lower keep_recent_tokens or reserve_tokens to shrink the floor;"));
    r.push(
        copy_text(
            "  - switch to a model/server with a larger context window, or split the task into smaller pieces.",
        ),
    );
    assert(string_seqs(r@) =~= exhausted_report(*x));
    r
}

/// The given lines in white.
pub open spec fn white_lines(ls: Seq<Seq<char>>) -> Seq<StepView> {
    ls.map_values(|l: Seq<char>| says(l, Color::White))
}

/// How a turn is stopped whose context is too full.
pub open spec fn exhausted_steps(x: Exhaustion) -> Seq<StepView> {
    seq![
        act(Action::AbortRun),
        act(Action::DropReceiver),
        act(Action::SignalStop),
        says("error: not enough context to continue this turn."@, C_ERROR),
        says(
            "Compaction ran, but the next prompt was still over the mid-turn ceiling. Compacting again cannot help: what remains is the irreducible floor (system prompt, tool schemas, the kept-recent transcript, and reserved response space). Stopping the turn so the conversation is not corrupted."@,
            Color::White,
        ),
        blank(),
    ] + white_lines(exhausted_report(x))
}

/// Stops a turn whose context is too full even after it was shortened.
pub fn stop_turn_context_exhausted(run: &mut RunState, x: &Exhaustion) -> (r: Vec<Step>)
    ensures
        final(run)@ == (RunView {
            is_running: false,
            turn_trace: Seq::empty(),
            ..old(run)@.unanswered()
        }),
        step_views(r@) == exhausted_steps(*x),
{
    let mut out: Vec<Step> = Vec::new();
    push_act(&mut out, Action::AbortRun);
    run.is_running = false;
    push_act(&mut out, Action::DropReceiver);
    run.forget_answer();
    run.turn_trace.clear();
    assert(run@.turn_trace =~= Seq::empty());
    push_act(&mut out, Action::SignalStop);
    push_says(&mut out, "error: not enough context to continue this turn.", C_ERROR);
    push_says(
        &mut out,
        "Compaction ran, but the next prompt was still over the mid-turn ceiling. Compacting again cannot help: what remains is the irreducible floor (system prompt, tool schemas, the kept-recent transcript, and reserved response space). Stopping the turn so the conversation is not corrupted.",
        Color::White,
    );
    push_blank(&mut out);
    let lines = context_exhausted_report(x);
    let ghost ls = string_seqs(lines@);
    let ghost start = step_views(out@);
    let n: usize = lines.len();
    assert(ls.len() == n);
    assert(start + white_lines(ls.take(0)) =~= start);
    for i in 0..n
        invariant
            n == lines@.len(),
            ls == string_seqs(lines@),
            step_views(out@) == start + white_lines(ls.take(i as int)),
    {
        push_says(&mut out, lines[i].as_str(), Color::White);
        assert((start + white_lines(ls.take(i as int))).push(says(ls[i as int], Color::White))
            =~= start + white_lines(ls.take(i + 1)));
    }
    assert(ls.take(n as int) =~= ls);
    assert(step_views(out@) =~= exhausted_steps(*x));
    out
}

// ---------------------------------------------------------------------------
// Chains of prompts
// ---------------------------------------------------------------------------

/// The message that starts a run on the next prompt.
pub open spec fn transition_text(phase: PhaseView, extra: Option<Seq<char>>) -> Seq<char> {
    match extra {
        Some(e) => phase.message + "\n\nAdditional instructions: "@ + e,
        None => phase.message,
    }
}

/// How the next prompt is gone on to.
pub open spec fn transition_steps(phase: PhaseView, extra: Option<Seq<char>>, no_session: bool) -> Seq<
    StepView,
> {
    let msg = transition_text(phase, extra);
    seq![StepView::Tell(Telling::ApplyPromptModel, phase.next_prompt)] + echo(msg) + seq![
        StepView::AddMessage(MessageRole::User, msg),
        act(Action::DropAgent),
    ] + start_steps(msg, no_session)
}

/// Goes on to the next prompt.
pub fn run_chain_transition(
    phase: &ChainPhase,
    extra: Option<&str>,
    run: &mut RunState,
    context: &mut ContextFiles,
    perm: &mut Option<PermState>,
    no_session: bool,
) -> (r: Vec<Step>)
    requires
        old(context).wf(),
        !old(run).is_running,
    ensures
        final(context).wf(),
        final(context)@ == old(context)@.using(phase@.next_prompt),
        *final(perm) == prompt_applied(old(context)@, *old(perm), phase@.next_prompt).0,
        final(run)@ == started(
            old(run)@,
            transition_text(
                phase@,
                match extra {
                    Some(e) => Some(e@),
                    None => None,
                },
            ),
        ),
        step_views(r@) == transition_steps(
            phase@,
            match extra {
                Some(e) => Some(e@),
                None => None,
            },
            no_session,
        ),
{
    let ghost ex = match extra {
        Some(e) => Some(e@),
        None => None,
    };
    apply_prompt_mode(phase.next_prompt.as_str(), context, perm);
    let mut out: Vec<Step> = Vec::new();
    push_tell(&mut out, Telling::ApplyPromptModel, phase.next_prompt.as_str());
    let msg = match extra {
        Some(e) => cat3(phase.message.as_str(), "\n\nAdditional instructions: ", e),
        None => copy_text(phase.message.as_str()),
    };
    push_echo(&mut out, msg.as_str());
    push_step(&mut out, Step::AddMessage(MessageRole::User, copy_text(msg.as_str())));
    push_act(&mut out, Action::DropAgent);
    let rest = start_main_run(msg.as_str(), run, no_session);
    push_all(&mut out, rest);
    assert(step_views(out@) =~= transition_steps(phase@, ex, no_session));
    out
}

/// The chain with a step offered.
pub open spec fn offering(chain: ChainView, phase: PhaseView) -> ChainView {
    ChainView { pending: Some(phase), label_msg: Some(phase.label), ..chain }
}

/// The chain without a step offered.
pub open spec fn unoffered(chain: ChainView) -> ChainView {
    ChainView { pending: None, label_msg: None, ..chain }
}

/// What the user may answer when a step is offered.
#[derive(Clone, Copy, Debug, PartialEq, Eq, Structural)]
pub enum ChainAnswer {
    Yes,
    No,
    /// Yes, but with additional instructions.
    But,
}

/// The names that the chain is not offered after, with the current prompt.
pub open spec fn declined(ctx: ContextView) -> Seq<Seq<char>> {
    match ctx.current_prompt_name {
        Some(name) if !ctx.chain_declined.contains(name) => ctx.chain_declined.push(name),
        _ => ctx.chain_declined,
    }
}

/// What an answer to an offered step does.
pub open spec fn answer_steps(
    chain: ChainView,
    answer: ChainAnswer,
    no_session: bool,
) -> Seq<StepView> {
    match answer {
        ChainAnswer::Yes => seq![act(Action::HideChainPrompt)] + match chain.pending {
            Some(phase) => transition_steps(phase, None, no_session),
            None => Seq::empty(),
        },
        ChainAnswer::No => seq![
            act(Action::HideChainPrompt),
            says("chain declined \u{2014} won't ask again this session"@, C_AGENT),
        ],
        ChainAnswer::But => seq![
            act(Action::ButModeOn),
            act(Action::HideChainPrompt),
            act(Action::ClearInput),
        ],
    }
}

/// Takes an answer to an offered step. Only a yes starts a run, and there may be
/// none already.
pub fn answer_chain(
    answer: ChainAnswer,
    chain: &mut ChainState,
    run: &mut RunState,
    context: &mut ContextFiles,
    perm: &mut Option<PermState>,
    no_session: bool,
) -> (r: Vec<Step>)
    requires
        old(context).wf(),
        answer is Yes && old(chain).pending is Some ==> !old(run).is_running,
    ensures
        final(context).wf(),
        step_views(r@) == answer_steps(old(chain)@, answer, no_session),
        match answer {
            ChainAnswer::Yes => {
                &&& final(chain)@ == match old(chain)@.pending {
                    Some(_) => unoffered(old(chain)@),
                    None => old(chain)@,
                }
                &&& match old(chain)@.pending {
                    Some(phase) => {
                        &&& final(context)@ == old(context)@.using(phase.next_prompt)
                        &&& *final(perm) == prompt_applied(
                            old(context)@,
                            *old(perm),
                            phase.next_prompt,
                        ).0
                        &&& final(run)@ == started(old(run)@, phase.message)
                    },
                    None => {
                        &&& final(context)@ == old(context)@
                        &&& *final(perm) == *old(perm)
                        &&& final(run)@ == old(run)@
                    },
                }
            },
            ChainAnswer::No => {
                &&& final(chain)@ == unoffered(old(chain)@)
                &&& final(context)@ == (ContextView {
                    chain_declined: declined(old(context)@),
                    ..old(context)@
                })
                &&& *final(perm) == *old(perm)
                &&& final(run)@ == old(run)@
            },
            ChainAnswer::But => {
                &&& final(chain)@ == (ChainView {
                    label_msg: match old(chain)@.pending {
                        Some(phase) => Some(phase.label),
                        None => None,
                    },
                    ..old(chain)@
                })
                &&& final(context)@ == old(context)@
                &&& *final(perm) == *old(perm)
                &&& final(run)@ == old(run)@
            },
        },
{
    let ghost start = chain@;
    let mut out: Vec<Step> = Vec::new();
    match answer {
        ChainAnswer::Yes => {
            push_act(&mut out, Action::HideChainPrompt);
            if let Some(phase) = chain.pending.take() {
                chain.label_msg = None;
                let rest = run_chain_transition(&phase, None, run, context, perm, no_session);
                push_all(&mut out, rest);
            }
        },
        ChainAnswer::No => {
            push_act(&mut out, Action::HideChainPrompt);
            chain.pending = None;
            chain.label_msg = None;
            push_says(
                &mut out,
                "chain declined \u{2014} won't ask again this session",
                C_AGENT,
            );
            if let Some(name) = &context.current_prompt_name {
                if !among(&context.chain_declined, name.as_str()) {
                    let copy = copy_text(name.as_str());
                    context.chain_declined.push(copy);
                    assert(context@.chain_declined =~= declined(old(context)@));
                }
            }
        },
        ChainAnswer::But => {
            push_act(&mut out, Action::ButModeOn);
            push_act(&mut out, Action::HideChainPrompt);
            push_act(&mut out, Action::ClearInput);
            chain.label_msg = match &chain.pending {
                Some(p) => Some(copy_text(p.label.as_str())),
                None => None,
            };
        },
    }
    assert(step_views(out@) =~= answer_steps(start, answer, no_session));
    out
}

/// A declined chain is not offered again after the same prompt, whatever has
/// been declined since.
pub proof fn lemma_declined_stays(
    ctx: ContextView,
    later: ContextView,
    chain: ChainView,
    rules: Seq<RuleView>,
)
    requires
        ctx.current_prompt_name is Some,
        later.current_prompt_name == ctx.current_prompt_name,
        forall|n: Seq<char>|
            declined(ctx).contains(n) ==> #[trigger] later.chain_declined.contains(n),
    ensures
        offered(chain, later, rules) is None,
        forall|n: Seq<char>|
            ctx.chain_declined.contains(n) ==> #[trigger] declined(ctx).contains(n),
{
    let name = ctx.current_prompt_name->0;
    assert(declined(ctx).contains(name)) by {
        if !ctx.chain_declined.contains(name) {
            let d = ctx.chain_declined.push(name);
            assert(d[ctx.chain_declined.len() as int] == name);
        }
    }
    assert(later.chain_declined.contains(name));
    if !ctx.chain_declined.contains(name) {
        let d = ctx.chain_declined.push(name);
        assert(d[ctx.chain_declined.len() as int] == name);
        assert forall|n: Seq<char>| ctx.chain_declined.contains(n) implies #[trigger] declined(
            ctx,
        ).contains(n) by {
            let i = choose|i: int|
                0 <= i < ctx.chain_declined.len() && ctx.chain_declined[i] == n;
            assert(d[i] == n);
        }
    }
}

/// What leaving additional instructions does: the question is asked again.
pub fn cancel_but(chain: &mut ChainState) -> (r: Vec<Step>)
    ensures
        final(chain)@ == match old(chain)@.pending {
            Some(phase) => offering(old(chain)@, phase),
            None => old(chain)@,
        },
        step_views(r@) == seq![act(Action::ButModeOff)] + (match old(chain)@.pending {
            Some(phase) => seq![StepView::Tell(Telling::ShowChainPrompt, phase.label)],
            None => Seq::empty(),
        }) + seq![act(Action::ClearInput)],
{
    let mut out: Vec<Step> = Vec::new();
    push_act(&mut out, Action::ButModeOff);
    if let Some(phase) = &chain.pending {
        push_tell(&mut out, Telling::ShowChainPrompt, phase.label.as_str());
        chain.label_msg = Some(copy_text(phase.label.as_str()));
    }
    push_act(&mut out, Action::ClearInput);
    assert(step_views(out@) =~= seq![act(Action::ButModeOff)] + (match old(chain)@.pending {
        Some(phase) => seq![StepView::Tell(Telling::ShowChainPrompt, phase.label)],
        None => Seq::empty(),
    }) + seq![act(Action::ClearInput)]);
    out
}

/// What additional instructions do: they start the run on the next prompt, or,
/// where there are none, the question is asked again.
pub open spec fn reply_steps(phase: PhaseView, text: Seq<char>, no_session: bool) -> Seq<StepView> {
    let t = trim(text);
    seq![act(Action::ButModeOff)] + (if t.len() == 0 {
        seq![StepView::Tell(Telling::ShowChainPrompt, phase.label)]
    } else {
        transition_steps(phase, Some(t), no_session)
    })
}

/// Takes additional instructions for an offered step.
pub fn reply_to_chain(
    text: &str,
    chain: &mut ChainState,
    run: &mut RunState,
    context: &mut ContextFiles,
    perm: &mut Option<PermState>,
    no_session: bool,
) -> (r: Vec<Step>)
    requires
        old(context).wf(),
        !old(run).is_running,
        old(chain).pending is Some,
    ensures
        final(context).wf(),
        step_views(r@) == reply_steps(old(chain)@.pending->0, text@, no_session),
        ({
            let phase = old(chain)@.pending->0;
            if trim(text@).len() == 0 {
                &&& final(chain)@ == offering(old(chain)@, phase)
                &&& final(context)@ == old(context)@
                &&& *final(perm) == *old(perm)
                &&& final(run)@ == old(run)@
            } else {
                &&& final(chain)@ == unoffered(old(chain)@)
                &&& final(context)@ == old(context)@.using(phase.next_prompt)
                &&& *final(perm) == prompt_applied(old(context)@, *old(perm), phase.next_prompt).0
                &&& final(run)@ == started(old(run)@, transition_text(phase, Some(trim(text@))))
            }
        }),
{
    let ghost phase_view = chain@.pending->0;
    let mut out: Vec<Step> = Vec::new();
    push_act(&mut out, Action::ButModeOff);
    if let Some(phase) = chain.pending.take() {
        chain.label_msg = None;
        let t = trim_of(&chars_of(text));
        if t.len() == 0 {
            push_tell(&mut out, Telling::ShowChainPrompt, phase.label.as_str());
            chain.label_msg = Some(copy_text(phase.label.as_str()));
            chain.pending = Some(phase);
        } else {
            let extra = string_of(&t);
            let rest = run_chain_transition(
                &phase,
                Some(extra.as_str()),
                run,
                context,
                perm,
                no_session,
            );
            push_all(&mut out, rest);
        }
    }
    assert(step_views(out@) =~= reply_steps(phase_view, text@, no_session));
    out
}

// ---------------------------------------------------------------------------
// The end of a turn
// ---------------------------------------------------------------------------

/// The last message of the session.
#[derive(Clone, Copy, Debug)]
pub struct Tail {
    /// How many messages there are.
    pub len: usize,
    /// Whether the last is the user's.
    pub from_user: bool,
}

/// The run once it is known whether its turn failed.
pub open spec fn sent(run: RunView, errored: bool) -> RunView {
    if errored || !run.is_running {
        RunView { pending_send: None, ..run }
    } else {
        run
    }
}

/// A failed turn gives its input back.
pub open spec fn give_back(run: RunView, errored: bool, tail: Tail) -> Seq<StepView> {
    match run.pending_send {
        Some(text) if errored => (if tail.len > 0 && tail.from_user {
            seq![StepView::TruncateMessages((tail.len - 1) as usize)]
        } else {
            Seq::empty()
        }).push(StepView::Tell(Telling::LoadInput, text)),
        _ => Seq::empty(),
    }
}

/// Gives the input of a failed turn back.
fn push_give_back(out: &mut Vec<Step>, run: &mut RunState, errored: bool, tail: Tail)
    ensures
        final(run)@ == sent(old(run)@, errored),
        step_views(final(out)@) == step_views(old(out)@) + give_back(old(run)@, errored, tail),
{
    if errored {
        if let Some(text) = run.pending_send.take() {
            if tail.len > 0 && tail.from_user {
                push_step(out, Step::TruncateMessages(tail.len - 1));
            }
            push_tell(out, Telling::LoadInput, text.as_str());
        }
    } else if !run.is_running {
        run.pending_send = None;
    }
    assert(step_views(out@) =~= step_views(old(out)@) + give_back(old(run)@, errored, tail));
}

/// The context back on the prompt that it was on before.
pub open spec fn returned(ctx: ContextView, chain: ChainView) -> ContextView {
    match chain.dot_prompt_restore {
        Some(name) => ctx.restored(name),
        None => ctx,
    }
}

/// The mode back to the user's, where the context returns to a prompt.
pub open spec fn returned_mode(perm: Option<PermState>, chain: ChainView) -> Option<PermState> {
    match chain.dot_prompt_restore {
        Some(_) => user_mode(perm),
        None => perm,
    }
}

/// Returns to the prompt that was in use before.
pub fn return_prompt(
    chain: &mut ChainState,
    context: &mut ContextFiles,
    perm: &mut Option<PermState>,
)
    requires
        old(context).wf(),
    ensures
        final(context).wf(),
        final(chain)@ == (ChainView { dot_prompt_restore: None, ..old(chain)@ }),
        final(context)@ == returned(old(context)@, old(chain)@),
        *final(perm) == returned_mode(*old(perm), old(chain)@),
{
    if let Some(name) = chain.dot_prompt_restore.take() {
        context.restore(name.as_str());
        restore_user_mode(perm);
    }
}

/// The step to be offered.
pub open spec fn offered(chain: ChainView, ctx: ContextView, rules: Seq<RuleView>) -> Option<PhaseView> {
    match ctx.current_prompt_name {
        Some(name) if chain.pending is None && !ctx.chain_declined.contains(name) => phase_after(
            rules,
            name,
        ),
        _ => None,
    }
}

/// Offers the next step, where there is one.
fn push_offer(
    out: &mut Vec<Step>,
    chain: &mut ChainState,
    context: &ContextFiles,
    rules: &Vec<ChainRule>,
)
    ensures
        final(chain)@ == match offered(old(chain)@, context@, rule_views(rules@)) {
            Some(phase) => offering(old(chain)@, phase),
            None => old(chain)@,
        },
        step_views(final(out)@) == step_views(old(out)@) + offer_steps(
            offered(old(chain)@, context@, rule_views(rules@)),
        ),
{
    if chain.pending.is_none() {
        if let Some(name) = &context.current_prompt_name {
            if !among(&context.chain_declined, name.as_str()) {
                if let Some(phase) = find_phase(rules, name.as_str()) {
                    push_act(out, Action::ButModeOff);
                    push_tell(out, Telling::ShowChainPrompt, phase.label.as_str());
                    chain.label_msg = Some(copy_text(phase.label.as_str()));
                    chain.pending = Some(phase);
                }
            }
        }
    }
    assert(step_views(out@) =~= step_views(old(out)@) + offer_steps(
        offered(old(chain)@, context@, rule_views(rules@)),
    ));
}

/// How a step is offered.
pub open spec fn offer_steps(phase: Option<PhaseView>) -> Seq<StepView> {
    match phase {
        Some(p) => seq![
            act(Action::ButModeOff),
            StepView::Tell(Telling::ShowChainPrompt, p.label),
        ],
        None => Seq::empty(),
    }
}

/// The run with the oldest waiting input sent.
pub open spec fn next_run(run: RunView) -> RunView {
    if run.pending_inputs.len() == 0 {
        run
    } else {
        started(
            RunView { pending_inputs: run.pending_inputs.skip(1), ..run },
            run.pending_inputs[0],
        )
    }
}

/// How the oldest waiting input is sent.
pub open spec fn next_steps(run: RunView, no_session: bool) -> Seq<StepView> {
    seq![act(Action::ForgetAbort)] + (if run.pending_inputs.len() == 0 {
        Seq::empty()
    } else {
        seq![act(Action::HideChainPrompt), act(Action::ButModeOff)] + echo(run.pending_inputs[0])
            + start_steps(run.pending_inputs[0], no_session)
    })
}

/// Sends the oldest waiting input.
fn push_next(out: &mut Vec<Step>, run: &mut RunState, chain: &mut ChainState, no_session: bool)
    requires
        !old(run).is_running,
    ensures
        final(run)@ == next_run(old(run)@),
        final(chain)@ == if old(run)@.pending_inputs.len() == 0 {
            old(chain)@
        } else {
            unoffered(old(chain)@)
        },
        step_views(final(out)@) == step_views(old(out)@) + next_steps(old(run)@, no_session),
{
    let ghost start = run@;
    let ghost before = step_views(out@);
    push_act(out, Action::ForgetAbort);
    if run.pending_inputs.len() > 0 {
        let next = run.pending_inputs.remove(0);
        assert(run@.pending_inputs =~= start.pending_inputs.skip(1));
        assert(next@ == start.pending_inputs[0]);
        push_act(out, Action::HideChainPrompt);
        push_act(out, Action::ButModeOff);
        chain.pending = None;
        chain.label_msg = None;
        push_echo(out, next.as_str());
        let rest = start_main_run(next.as_str(), run, no_session);
        push_all(out, rest);
    }
    assert(step_views(out@) =~= before + next_steps(start, no_session));
}

/// The chain at the end of a turn, when no run is active.
pub open spec fn chain_after(
    run: RunView,
    chain: ChainView,
    ctx: ContextView,
    rules: Seq<RuleView>,
) -> ChainView {
    let back = ChainView { dot_prompt_restore: None, ..chain };
    let next = match offered(back, returned(ctx, chain), rules) {
        Some(phase) => offering(back, phase),
        None => back,
    };
    if run.pending_inputs.len() == 0 {
        next
    } else {
        unoffered(next)
    }
}

/// What the end of a turn does.
pub open spec fn final_steps(
    run: RunView,
    chain: ChainView,
    ctx: ContextView,
    rules: Seq<RuleView>,
    errored: bool,
    tail: Tail,
    no_session: bool,
) -> Seq<StepView> {
    give_back(run, errored, tail) + (if run.is_running {
        Seq::empty()
    } else {
        offer_steps(
            offered(
                (ChainView { dot_prompt_restore: None, ..chain }),
                returned(ctx, chain),
                rules,
            ),
        ) + next_steps(run, no_session)
    })
}

/// Ends a turn: gives a failed input back, returns to the prompt in use before,
/// offers the next step of the chain, and sends the next waiting input.
pub fn finalize_turn(
    errored: bool,
    tail: Tail,
    run: &mut RunState,
    chain: &mut ChainState,
    context: &mut ContextFiles,
    perm: &mut Option<PermState>,
    rules: &Vec<ChainRule>,
    no_session: bool,
) -> (r: Vec<Step>)
    requires
        old(context).wf(),
    ensures
        final(context).wf(),
        step_views(r@) == final_steps(
            old(run)@,
            old(chain)@,
            old(context)@,
            rule_views(rules@),
            errored,
            tail,
            no_session,
        ),
        if old(run)@.is_running {
            &&& final(run)@ == sent(old(run)@, errored)
            &&& final(chain)@ == old(chain)@
            &&& final(context)@ == old(context)@
            &&& *final(perm) == *old(perm)
        } else {
            &&& final(run)@ == next_run(sent(old(run)@, errored))
            &&& final(chain)@ == chain_after(
                old(run)@,
                old(chain)@,
                old(context)@,
                rule_views(rules@),
            )
            &&& final(context)@ == returned(old(context)@, old(chain)@)
            &&& *final(perm) == returned_mode(*old(perm), old(chain)@)
        },
{
    let mut out: Vec<Step> = Vec::new();
    push_give_back(&mut out, run, errored, tail);
    if !run.is_running {
        return_prompt(chain, context, perm);
        push_offer(&mut out, chain, context, rules);
        push_next(&mut out, run, chain, no_session);
    }
    assert(step_views(out@) =~= final_steps(
        old(run)@,
        old(chain)@,
        old(context)@,
        rule_views(rules@),
        errored,
        tail,
        no_session,
    ));
    out
}

/// How many runs the steps start.
pub open spec fn runs_started(steps: Seq<StepView>) -> nat
    decreases steps.len(),
{
    if steps.len() == 0 {
        0
    } else {
        runs_started(steps.drop_last()) + if steps.last() is Spawn {
            1nat
        } else {
            0
        }
    }
}

/// Steps one after the other start the runs that each of them starts.
pub proof fn lemma_runs_concat(a: Seq<StepView>, b: Seq<StepView>)
    ensures
        runs_started(a + b) == runs_started(a) + runs_started(b),
    decreases b.len(),
{
    if b.len() == 0 {
        assert(a + b =~= a);
    } else {
        assert((a + b).drop_last() =~= a + b.drop_last());
        lemma_runs_concat(a, b.drop_last());
    }
}

/// Steps of which none starts a run start none.
pub proof fn lemma_no_run(steps: Seq<StepView>)
    requires
        forall|i: int| 0 <= i < steps.len() ==> !((#[trigger] steps[i]) is Spawn),
    ensures
        runs_started(steps) == 0,
    decreases steps.len(),
{
    if steps.len() > 0 {
        lemma_no_run(steps.drop_last());
    }
}

proof fn lemma_start_is_one_run(text: Seq<char>, no_session: bool)
    ensures
        runs_started(start_steps(text, no_session)) == 1,
{
    let s = start_steps(text, no_session);
    let (a, b) = (s.take(2), s.skip(3));
    lemma_no_run(a);
    lemma_no_run(b);
    assert(a.push(s[2]).drop_last() =~= a);
    lemma_runs_concat(a.push(s[2]), b);
    assert(s =~= a.push(s[2]) + b);
}

/// The end of an event starts no run beside one that goes on; where none does,
/// it starts one if an input waits, and none otherwise.
pub proof fn lemma_one_run_after_turn(
    run: RunView,
    chain: ChainView,
    ctx: ContextView,
    rules: Seq<RuleView>,
    errored: bool,
    tail: Tail,
    no_session: bool,
)
    ensures
        runs_started(final_steps(run, chain, ctx, rules, errored, tail, no_session)) == if run.is_running
            || run.pending_inputs.len() == 0 {
            0nat
        } else {
            1
        },
{
    let back = give_back(run, errored, tail);
    lemma_no_run(back);
    if run.is_running {
        lemma_runs_concat(back, Seq::empty());
    } else {
        let offer = offer_steps(
            offered(
                (ChainView { dot_prompt_restore: None, ..chain }),
                returned(ctx, chain),
                rules,
            ),
        );
        let next = next_steps(run, no_session);
        lemma_no_run(offer);
        lemma_runs_concat(offer, next);
        lemma_runs_concat(back, offer + next);
        let first = seq![act(Action::ForgetAbort)];
        lemma_no_run(first);
        if run.pending_inputs.len() == 0 {
            lemma_runs_concat(first, Seq::empty());
        } else {
            let text = run.pending_inputs[0];
            let hide = seq![act(Action::HideChainPrompt), act(Action::ButModeOff)] + echo(text);
            lemma_no_run(hide);
            lemma_start_is_one_run(text, no_session);
            lemma_runs_concat(hide, start_steps(text, no_session));
            lemma_runs_concat(first, hide + start_steps(text, no_session));
        }
    }
}

/// Waiting inputs are sent oldest first, one at the end of each turn, and none
/// is lost.
pub proof fn lemma_inputs_in_order(run: RunView)
    requires
        run.pending_inputs.len() > 0,
    ensures
        next_run(run).pending_send == Some(run.pending_inputs[0]),
        seq![run.pending_inputs[0]] + next_run(run).pending_inputs == run.pending_inputs,
        next_run(run).is_running,
{
    assert(seq![run.pending_inputs[0]] + run.pending_inputs.skip(1) =~= run.pending_inputs);
}

// ---------------------------------------------------------------------------
// Interrupting a run
// ---------------------------------------------------------------------------

/// The chain without its loop and without a prompt to return to.
pub open spec fn interrupted_chain(chain: ChainView) -> ChainView {
    ChainView {
        dot_prompt_restore: None,
        loop_state: match chain.loop_state {
            Some(l) => Some(LoopView { active: false, ..l }),
            None => None,
        },
        loop_label: if chain.loop_state is Some {
            None
        } else {
            chain.loop_label
        },
        ..chain
    }
}

/// The run once it was interrupted: nothing runs, and nothing waits.
pub open spec fn interrupted_run(run: RunView) -> RunView {
    RunView {
        is_running: false,
        turn_trace: Seq::empty(),
        awaiting_compaction_relief: false,
        pending_inputs: Seq::empty(),
        ..run
    }
}

/// An interruption ends everything: the run, what it has started, a loop, and what
/// was waiting for the run's end. Nothing starts by itself afterwards.
pub proof fn lemma_interruption_ends_all(
    run: RunView,
    chain: ChainView,
    input_empty: bool,
)
    ensures
        ({
            let r = interrupted_run(run);
            let c = interrupted_chain(chain);
            let steps = abort_steps(input_empty);
            &&& !r.is_running && r.pending_inputs.len() == 0
            &&& next_run(r) == r
            &&& !c.looping() && !loop_due(c, r)
            &&& steps.contains(act(Action::AbortRun))
            &&& steps.contains(act(Action::KillSandbox))
            &&& steps.contains(act(Action::DropReceiver))
            &&& runs_started(steps) == 0
        }),
{
    let steps = abort_steps(input_empty);
    assert(steps[0] == act(Action::AbortRun));
    assert(steps[1] == act(Action::KillSandbox));
    assert(steps[3] == act(Action::DropReceiver));
    lemma_no_run(steps);
}

/// How a run is interrupted.
pub open spec fn abort_steps(input_empty: bool) -> Seq<StepView> {
    seq![
        act(Action::AbortRun),
        act(Action::KillSandbox),
        act(Action::SignalStop),
        act(Action::DropReceiver),
    ] + (if input_empty {
        Seq::empty()
    } else {
        seq![act(Action::ClearInput)]
    }) + seq![says("interrupted (changes may be partial; review with git diff)"@, C_ERROR)]
}

/// Interrupts the main run and drops what was waiting for its end.
pub fn abort_main_run(
    run: &mut RunState,
    chain: &mut ChainState,
    context: &mut ContextFiles,
    perm: &mut Option<PermState>,
    input_empty: bool,
) -> (r: Vec<Step>)
    requires
        old(context).wf(),
    ensures
        final(context).wf(),
        final(run)@ == interrupted_run(old(run)@),
        final(chain)@ == interrupted_chain(old(chain)@),
        final(context)@ == returned(old(context)@, old(chain)@),
        *final(perm) == returned_mode(*old(perm), old(chain)@),
        step_views(r@) == abort_steps(input_empty),
{
    let mut out: Vec<Step> = Vec::new();
    push_act(&mut out, Action::AbortRun);
    push_act(&mut out, Action::KillSandbox);
    run.is_running = false;
    push_act(&mut out, Action::SignalStop);
    push_act(&mut out, Action::DropReceiver);
    run.turn_trace.clear();
    run.awaiting_compaction_relief = false;
    run.pending_inputs.clear();
    assert(run@.turn_trace =~= Seq::empty());
    assert(run@.pending_inputs =~= Seq::empty());
    if let Some(l) = chain.loop_state.take() {
        chain.loop_state = Some(LoopState { active: false, ..l });
        chain.loop_label = None;
    }
    if !input_empty {
        push_act(&mut out, Action::ClearInput);
    }
    return_prompt(chain, context, perm);
    push_says(&mut out, "interrupted (changes may be partial; review with git diff)", C_ERROR);
    assert(step_views(out@) =~= abort_steps(input_empty));
    out
}

// ---------------------------------------------------------------------------
// Loops
// ---------------------------------------------------------------------------

/// What a command printed: its output, and its errors behind it.
pub open spec fn validation(stdout: Seq<char>, stderr: Seq<char>) -> Seq<char> {
    if stderr.len() == 0 {
        stdout
    } else {
        stdout + "\n"@ + stderr
    }
}

/// What a command printed: its output, and its errors behind it.
pub fn validation_text(stdout: &str, stderr: &str) -> (r: String)
    ensures
        r@ == validation(stdout@, stderr@),
{
    if chars_of(stderr).len() == 0 {
        copy_text(stdout)
    } else {
        cat3(stdout, "\n", stderr)
    }
}

/// The first `limit` characters.
pub open spec fn summary(response: Seq<char>, limit: usize) -> Seq<char> {
    if response.len() <= limit {
        response
    } else {
        response.take(limit as int)
    }
}

/// The first `limit` characters.
fn summary_of(response: &str, limit: usize) -> (r: String)
    ensures
        r@ == summary(response@, limit),
{
    let v = chars_of(response);
    if v.len() <= limit {
        string_of(&v)
    } else {
        let t = string_of(&slice_of(&v, 0, limit));
        assert(t@ =~= response@.take(limit as int));
        t
    }
}

/// A loop with the end of an iteration noted.
pub open spec fn iteration_noted(
    ls: LoopView,
    response: Seq<char>,
    limit: usize,
    output: Option<Seq<char>>,
) -> LoopView {
    LoopView { last_summary: Some(summary(response, limit)), last_run_output: output, ..ls }
}

/// Notes the end of an iteration: the start of the answer, and what the
/// command that checks it printed.
pub fn note_iteration(ls: &mut LoopState, response: &str, limit: usize, output: Option<String>)
    ensures
        final(ls)@ == iteration_noted(old(ls)@, response@, limit, opt_text(output)),
{
    ls.last_summary = Some(summary_of(response, limit));
    ls.last_run_output = output;
}

/// Counts an iteration that has been noted.
pub fn count_iteration(ls: &mut LoopState)
    requires
        old(ls).iteration < usize::MAX,
    ensures
        final(ls)@ == (LoopView { iteration: (old(ls)@.iteration + 1) as usize, ..old(ls)@ }),
{
    ls.iteration = ls.iteration + 1;
}

/// How a loop goes on after an iteration: with the next one, or not.
pub open spec fn loop_steps(iteration: usize, stop: bool, prompt: Seq<char>, label: Seq<char>) -> Seq<
    StepView,
> {
    if stop {
        seq![
            says(
                "[loop] max iterations ("@ + decimal((iteration - 1) as nat)
                    + ") reached, stopping"@,
                C_AGENT,
            ),
        ]
    } else {
        seq![
            act(Action::RebuildReasoningAgent),
            StepView::Spawn(
                prompt,
                (RunKind { fresh: true, abortable: false, iteration: Some(iteration) }),
            ),
            act(Action::SignalStart),
            says("[loop] launching "@ + label, C_AGENT),
        ]
    }
}

/// Goes on with a loop whose iteration has just been counted: stops it, or runs
/// `prompt`.
pub fn continue_loop(
    chain: &mut ChainState,
    run: &mut RunState,
    stop: bool,
    prompt: &str,
    label: &str,
) -> (r: Vec<Step>)
    requires
        old(chain)@.looping(),
        old(chain)@.loop_state->0.iteration > 0,
    ensures
        final(chain)@ == (if stop {
            ChainView {
                loop_state: Some(LoopView { active: false, ..old(chain)@.loop_state->0 }),
                loop_label: None,
                ..old(chain)@
            }
        } else {
            ChainView { loop_label: Some(label@), ..old(chain)@ }
        }),
        final(run)@ == (RunView { is_running: !stop || old(run)@.is_running, ..old(run)@ }),
        step_views(r@) == loop_steps(
            old(chain)@.loop_state->0.iteration,
            stop,
            prompt@,
            label@,
        ),
{
    let ghost start = chain@;
    let mut out: Vec<Step> = Vec::new();
    if let Some(l) = chain.loop_state.take() {
        let iteration: usize = l.iteration;
        if stop {
            let line = cat3(
                "[loop] max iterations (",
                decimal_of((iteration - 1) as u64).as_str(),
                ") reached, stopping",
            );
            push_says(&mut out, line.as_str(), C_AGENT);
            chain.loop_state = Some(LoopState { active: false, ..l });
            chain.loop_label = None;
        } else {
            chain.loop_state = Some(l);
            push_act(&mut out, Action::RebuildReasoningAgent);
            push_step(
                &mut out,
                Step::Spawn(
                    copy_text(prompt),
                    RunKind { fresh: true, abortable: false, iteration: Some(iteration) },
                ),
            );
            run.is_running = true;
            push_act(&mut out, Action::SignalStart);
            chain.loop_label = Some(copy_text(label));
            push_says(&mut out, cat("[loop] launching ", label).as_str(), C_AGENT);
        }
    }
    assert(step_views(out@) =~= loop_steps(start.loop_state->0.iteration, stop, prompt@, label@));
    out
}

/// What is kept of an iteration that has been noted and not counted yet; the
/// loop's prompt is `prompt` then.
pub open spec fn transcript(
    ls: LoopView,
    prompt: Seq<char>,
    response: Seq<char>,
    limit: usize,
) -> IterationView {
    IterationView {
        number: ls.iteration,
        prompt,
        response,
        output: ls.last_run_output,
        summary: summary(response, limit),
    }
}

/// How an iteration ends: what it was is kept, then the loop goes on or not.
pub open spec fn iteration_steps(
    ls: LoopView,
    prompt: Seq<char>,
    response: Seq<char>,
    limit: usize,
    stop: bool,
    next: Seq<char>,
    label: Seq<char>,
) -> Seq<StepView> {
    seq![StepView::KeepIteration(transcript(ls, prompt, response, limit))] + loop_steps(
        (ls.iteration + 1) as usize,
        stop,
        next,
        label,
    )
}

/// What is kept of an iteration.
fn transcript_of(ls: &LoopState, prompt: &str, response: &str, limit: usize) -> (r: Iteration)
    ensures
        r@ == transcript(ls@, prompt@, response@, limit),
{
    Iteration {
        number: ls.iteration,
        prompt: copy_text(prompt),
        response: copy_text(response),
        output: match &ls.last_run_output {
            Some(t) => Some(copy_text(t.as_str())),
            None => None,
        },
        summary: summary_of(response, limit),
    }
}

/// Ends an iteration that has been noted: what it was is kept, it is counted,
/// and the loop stops or runs `next`. `prompt` is the loop's prompt as the
/// iteration leaves it; `stop`, `next` and `label` are those of the loop with
/// the iteration counted.
pub fn end_iteration(
    chain: &mut ChainState,
    run: &mut RunState,
    prompt: &str,
    response: &str,
    limit: usize,
    stop: bool,
    next: &str,
    label: &str,
) -> (r: Vec<Step>)
    requires
        old(chain)@.looping(),
        old(chain)@.loop_state->0.iteration < usize::MAX,
    ensures
        ({
            let ls = old(chain)@.loop_state->0;
            let counted = LoopView { iteration: (ls.iteration + 1) as usize, ..ls };
            &&& final(chain)@ == (if stop {
                ChainView {
                    loop_state: Some(LoopView { active: false, ..counted }),
                    loop_label: None,
                    ..old(chain)@
                }
            } else {
                ChainView { loop_state: Some(counted), loop_label: Some(label@), ..old(chain)@ }
            })
            &&& final(run)@ == (RunView { is_running: !stop || old(run)@.is_running, ..old(run)@ })
            &&& step_views(r@) == iteration_steps(
                ls,
                prompt@,
                response@,
                limit,
                stop,
                next@,
                label@,
            )
        }),
{
    let ghost ls = chain@.loop_state->0;
    let mut out: Vec<Step> = Vec::new();
    if let Some(mut l) = chain.loop_state.take() {
        let kept = transcript_of(&l, prompt, response, limit);
        push_step(&mut out, Step::KeepIteration(kept));
        count_iteration(&mut l);
        chain.loop_state = Some(l);
    }
    let rest = continue_loop(chain, run, stop, next, label);
    push_all(&mut out, rest);
    assert(step_views(out@) =~= iteration_steps(
        ls,
        prompt@,
        response@,
        limit,
        stop,
        next@,
        label@,
    ));
    out
}

/// What is kept of an iteration is the answer with its summary and what its
/// check printed, under the number that the iteration had, and it is kept before
/// the next one starts.
pub proof fn lemma_iteration_kept(
    ls: LoopView,
    prompt: Seq<char>,
    response: Seq<char>,
    limit: usize,
    output: Option<Seq<char>>,
    stop: bool,
    next: Seq<char>,
    label: Seq<char>,
)
    ensures
        ({
            let after = iteration_noted(ls, response, limit, output);
            let steps = iteration_steps(after, prompt, response, limit, stop, next, label);
            &&& steps[0] == StepView::KeepIteration(
                IterationView {
                    number: ls.iteration,
                    prompt,
                    response,
                    output,
                    summary: after.last_summary->0,
                },
            )
            &&& forall|i: int|
                1 <= i < steps.len() ==> !((#[trigger] steps[i]) is KeepIteration)
        }),
{
}

/// Whether a loop has been set up and not begun.
pub open spec fn loop_due(chain: ChainView, run: RunView) -> bool {
    chain.looping() && chain.loop_state->0.iteration == 0 && !run.is_running
}

/// Whether a loop has been set up and not begun.
pub fn is_loop_due(chain: &ChainState, run: &RunState) -> (r: bool)
    ensures
        r == loop_due(chain@, run@),
{
    match &chain.loop_state {
        Some(l) => l.active && l.iteration == 0 && !run.is_running,
        None => false,
    }
}

/// Begins a loop that has been set up: its first iteration runs `prompt`.
pub fn begin_loop(chain: &mut ChainState, run: &mut RunState, prompt: &str, label: &str) -> (r: Vec<
    Step,
>)
    requires
        loop_due(old(chain)@, old(run)@),
    ensures
        final(chain)@ == (ChainView {
            loop_state: Some(LoopView { iteration: 1, ..old(chain)@.loop_state->0 }),
            loop_label: Some(label@),
            ..old(chain)@
        }),
        final(run)@ == (RunView { is_running: true, ..old(run)@ }),
        step_views(r@) == seq![
            act(Action::EnsureAgent),
            StepView::Spawn(
                prompt@,
                (RunKind { fresh: true, abortable: true, iteration: Some(1usize) }),
            ),
        ],
{
    let mut out: Vec<Step> = Vec::new();
    if let Some(l) = chain.loop_state.take() {
        chain.loop_state = Some(LoopState { iteration: 1, ..l });
    }
    push_act(&mut out, Action::EnsureAgent);
    push_step(
        &mut out,
        Step::Spawn(
            copy_text(prompt),
            RunKind { fresh: true, abortable: true, iteration: Some(1usize) },
        ),
    );
    run.is_running = true;
    chain.loop_label = Some(copy_text(label));
    assert(step_views(out@) =~= seq![
        act(Action::EnsureAgent),
        StepView::Spawn(
            prompt@,
            (RunKind { fresh: true, abortable: true, iteration: Some(1usize) }),
        ),
    ]);
    out
}

// ---------------------------------------------------------------------------
// Worktrees
// ---------------------------------------------------------------------------

/// Takes the worktree to be left, and what removes it.
pub fn leave_worktree(chain: &mut ChainState) -> (r: Option<(String, Vec<Step>)>)
    ensures
        final(chain)@ == (ChainView { wt_return: None, ..old(chain)@ }),
        match old(chain)@.wt_return {
            Some(w) => r matches Some((path, steps)) && path@ == w.main_path && step_views(steps@)
                == seq![StepView::CleanUp(w)],
            None => r is None,
        },
{
    match chain.wt_return.take() {
        Some(w) => {
            let path = copy_text(w.main_path.as_str());
            let ghost v = w@;
            let mut out: Vec<Step> = Vec::new();
            push_step(&mut out, Step::CleanUp(w));
            assert(step_views(out@) =~= seq![StepView::CleanUp(v)]);
            Some((path, out))
        },
        None => None,
    }
}

/// How the main repository is worked in again: `said` tells of it.
pub open spec fn moved_steps(path: Seq<char>, rebuild: Action, said: Seq<char>) -> Seq<StepView> {
    seq![
        StepView::Tell(Telling::WorkIn, path),
        act(Action::ReloadContext),
        act(rebuild),
        act(Action::RenderSession),
        says(said + path, C_AGENT),
    ]
}

/// Works in the main repository again after a merge; `failure` is why the
/// directory could not be changed.
pub fn worktree_left(main_path: &str, failure: Option<&str>) -> (r: Vec<Step>)
    ensures
        step_views(r@) == match failure {
            None => moved_steps(
                main_path@,
                Action::RebuildReasoningAgent,
                "merged and returned to main repo at "@,
            ),
            Some(e) => seq![says("warning: failed to change back to main repo: "@ + e@, C_ERROR)],
        },
{
    let mut out: Vec<Step> = Vec::new();
    match failure {
        None => {
            push_tell(&mut out, Telling::WorkIn, main_path);
            push_act(&mut out, Action::ReloadContext);
            push_act(&mut out, Action::RebuildReasoningAgent);
            push_act(&mut out, Action::RenderSession);
            push_says(
                &mut out,
                cat("merged and returned to main repo at ", main_path).as_str(),
                C_AGENT,
            );
            assert(step_views(out@) =~= moved_steps(
                main_path@,
                Action::RebuildReasoningAgent,
                "merged and returned to main repo at "@,
            ));
        },
        Some(e) => {
            push_says(
                &mut out,
                cat("warning: failed to change back to main repo: ", e).as_str(),
                C_ERROR,
            );
            assert(step_views(out@) =~= seq![
                says("warning: failed to change back to main repo: "@ + e@, C_ERROR),
            ]);
        },
    }
    out
}

} // verus!
