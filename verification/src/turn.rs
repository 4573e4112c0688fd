//! A turn of the agent: what its events make of the run and of the screen.

use vstd::prelude::*;

use crate::bytes::{byte_len, bytes_of};
use crate::color::{Color, C_ERROR, C_TOOL};
use crate::events::{
    clean, lemma_clean_unchanged, sanitize_output, sanitized, show_result, shown_result,
    ToolDetails,
};
use crate::feed::{BlockStyle, BlockView};
use crate::renderer::RendererView;
use crate::session::MessageRole;
use crate::steps::{
    act, after_step, after_steps, blank, cat, cat5, copy_text, opt_text, push_act, push_blank,
    push_says, push_step, push_tell, says, step_views, Action, Step, StepView, Telling, ToolNote,
    TurnUsage,
};
use crate::text::{chars_of, decimal, decimal_of, same_text, string_seqs};

verus! {

// ---------------------------------------------------------------------------
// The state of a run
// ---------------------------------------------------------------------------

/// The state of the main run.
pub struct RunState {
    pub is_running: bool,
    /// The last thing shown was reasoning.
    pub was_reasoning: bool,
    /// A line of the agent has been started.
    pub agent_line_started: bool,
    /// The answer so far.
    pub response_buf: String,
    /// The block of the feed that the answer grows in.
    pub response_start_block: Option<usize>,
    /// What the agent did in this turn.
    pub turn_trace: Vec<String>,
    /// Inputs to be sent once the run is over, oldest first.
    pub pending_inputs: Vec<String>,
    /// The input that started the run.
    pub pending_send: Option<String>,
    /// The context has been shortened in this turn and may still be too large.
    pub awaiting_compaction_relief: bool,
}

/// What a [`RunState`] holds.
pub struct RunView {
    pub is_running: bool,
    pub was_reasoning: bool,
    pub agent_line_started: bool,
    pub response_buf: Seq<char>,
    pub response_start_block: Option<usize>,
    pub turn_trace: Seq<Seq<char>>,
    pub pending_inputs: Seq<Seq<char>>,
    pub pending_send: Option<Seq<char>>,
    pub awaiting_compaction_relief: bool,
}

impl View for RunState {
    type V = RunView;

    open spec fn view(&self) -> RunView {
        RunView {
            is_running: self.is_running,
            was_reasoning: self.was_reasoning,
            agent_line_started: self.agent_line_started,
            response_buf: self.response_buf@,
            response_start_block: self.response_start_block,
            turn_trace: string_seqs(self.turn_trace@),
            pending_inputs: string_seqs(self.pending_inputs@),
            pending_send: opt_text(self.pending_send),
            awaiting_compaction_relief: self.awaiting_compaction_relief,
        }
    }
}

impl RunView {
    /// With no answer begun.
    pub open spec fn unanswered(self) -> RunView {
        RunView {
            was_reasoning: false,
            agent_line_started: false,
            response_buf: Seq::empty(),
            response_start_block: None,
            ..self
        }
    }
}

impl RunState {
    /// No run.
    pub fn idle() -> (r: RunState)
        ensures
            r@ == (RunView {
                is_running: false,
                was_reasoning: false,
                agent_line_started: false,
                response_buf: Seq::empty(),
                response_start_block: None,
                turn_trace: Seq::empty(),
                pending_inputs: Seq::empty(),
                pending_send: None,
                awaiting_compaction_relief: false,
            }),
    {
        let r = RunState {
            is_running: false,
            was_reasoning: false,
            agent_line_started: false,
            response_buf: String::new(),
            response_start_block: None,
            turn_trace: Vec::new(),
            pending_inputs: Vec::new(),
            pending_send: None,
            awaiting_compaction_relief: false,
        };
        assert(r@.response_buf =~= Seq::empty());
        assert(r@.turn_trace =~= Seq::empty());
        assert(r@.pending_inputs =~= Seq::empty());
        r
    }

    /// Forgets the answer begun.
    pub fn forget_answer(&mut self)
        ensures
            final(self)@ == old(self)@.unanswered(),
    {
        self.was_reasoning = false;
        self.agent_line_started = false;
        self.response_buf.clear();
        self.response_start_block = None;
        assert(self@.response_buf =~= Seq::empty());
    }
}

// ---------------------------------------------------------------------------
// Events
// ---------------------------------------------------------------------------

/// A task on the agent's list.
pub struct Task {
    pub status: String,
    pub priority: String,
    pub content: String,
}

/// What a [`Task`] holds.
pub struct TaskView {
    pub status: Seq<char>,
    pub priority: Seq<char>,
    pub content: Seq<char>,
}

impl View for Task {
    type V = TaskView;

    open spec fn view(&self) -> TaskView {
        TaskView { status: self.status@, priority: self.priority@, content: self.content@ }
    }
}

/// The views of a list of tasks.
pub open spec fn task_views(v: Seq<Task>) -> Seq<TaskView> {
    v.map_values(|t: Task| t@)
}

/// What an agent reports. A tool call comes with a summary of its arguments, a
/// tool's result with its start and the list of tasks as it is then.
pub enum AgentEvent {
    Reasoning(String),
    Token(String),
    ToolCall { name: String, args: String, summary: String },
    SubagentToolCall { name: String, args: String, summary: String },
    ToolResult { name: String, output: String, digest: String, tasks: Vec<Task> },
    Done { response: String, usage: TurnUsage },
    CompletionCall(TurnUsage),
    Retrying { attempt: u64, max: u64 },
    Error(String),
}

/// What an [`AgentEvent`] holds.
pub enum AgentView {
    Reasoning(Seq<char>),
    Token(Seq<char>),
    ToolCall { name: Seq<char>, args: Seq<char>, summary: Seq<char> },
    SubagentToolCall { name: Seq<char>, args: Seq<char>, summary: Seq<char> },
    ToolResult { name: Seq<char>, output: Seq<char>, digest: Seq<char>, tasks: Seq<TaskView> },
    Done { response: Seq<char>, usage: TurnUsage },
    CompletionCall(TurnUsage),
    Retrying { attempt: u64, max: u64 },
    Error(Seq<char>),
}

impl View for AgentEvent {
    type V = AgentView;

    open spec fn view(&self) -> AgentView {
        match *self {
            AgentEvent::Reasoning(t) => AgentView::Reasoning(t@),
            AgentEvent::Token(t) => AgentView::Token(t@),
            AgentEvent::ToolCall { name, args, summary } => AgentView::ToolCall {
                name: name@,
                args: args@,
                summary: summary@,
            },
            AgentEvent::SubagentToolCall { name, args, summary } => AgentView::SubagentToolCall {
                name: name@,
                args: args@,
                summary: summary@,
            },
            AgentEvent::ToolResult { name, output, digest, tasks } => AgentView::ToolResult {
                name: name@,
                output: output@,
                digest: digest@,
                tasks: task_views(tasks@),
            },
            AgentEvent::Done { response, usage } => AgentView::Done { response: response@, usage },
            AgentEvent::CompletionCall(usage) => AgentView::CompletionCall(usage),
            AgentEvent::Retrying { attempt, max } => AgentView::Retrying { attempt, max },
            AgentEvent::Error(t) => AgentView::Error(t@),
        }
    }
}

/// What the handling of events depends on besides the run.
#[derive(Clone, Copy, Debug)]
pub struct EventSettings {
    pub show_reasoning: bool,
    pub details: Option<ToolDetails>,
    /// The session is not kept on disk.
    pub no_session: bool,
}

/// The end of the feed.
#[derive(Clone, Copy, Debug)]
pub struct FeedEnd {
    /// Number of blocks.
    pub blocks: usize,
    /// Whether a line has been begun behind them.
    pub partial: bool,
}

/// Keeping the session, where it is kept.
pub open spec fn keeping(no_session: bool) -> Seq<StepView> {
    if no_session {
        Seq::empty()
    } else {
        seq![act(Action::SaveSession)]
    }
}

/// The end of a line that the agent has started.
pub open spec fn line_end(run: RunView) -> Seq<StepView> {
    if run.agent_line_started {
        seq![blank()]
    } else {
        Seq::empty()
    }
}

/// What reasoning shows.
pub open spec fn reasoning_steps(run: RunView, text: Seq<char>) -> Seq<StepView> {
    (if run.agent_line_started {
        Seq::empty()
    } else {
        seq![StepView::Write("< "@, Color::DarkMagenta)]
    }).push(StepView::Write(sanitized(text), Color::DarkMagenta))
}

/// The run as an answer goes on: reasoning ends where the answer begins.
pub open spec fn answering(run: RunView) -> RunView {
    if run.was_reasoning {
        run.unanswered()
    } else {
        run
    }
}

/// The block that an answer grows in, where it has to begin one.
pub open spec fn answer_block(run: RunView, feed: FeedEnd) -> int {
    feed.blocks + if run.was_reasoning {
        1 + if feed.partial {
            1int
        } else {
            0
        }
    } else {
        0
    }
}

/// Whether an answer is painted as it grows: while it is short, and at line
/// ends.
pub open spec fn paints(buf: Seq<char>) -> bool {
    byte_len(buf) < 200 || buf.last() == '\n'
}

/// The run after a piece of the answer.
pub open spec fn token_run(run: RunView, text: Seq<char>, feed: FeedEnd) -> RunView {
    let begun = answering(run);
    let buf = begun.response_buf + sanitized(text);
    if buf.len() == 0 {
        RunView { response_buf: buf, ..begun }
    } else {
        RunView {
            response_buf: buf,
            response_start_block: match begun.response_start_block {
                Some(b) => Some(b),
                None => Some(answer_block(run, feed) as usize),
            },
            agent_line_started: begun.agent_line_started || paints(buf),
            ..begun
        }
    }
}

/// What a piece of the answer shows.
pub open spec fn token_steps(run: RunView, text: Seq<char>) -> Seq<StepView> {
    let begun = answering(run);
    let buf = begun.response_buf + sanitized(text);
    let ended = if run.was_reasoning {
        seq![blank()]
    } else {
        Seq::empty()
    };
    if buf.len() == 0 {
        ended
    } else {
        ended + (if begun.response_start_block is None {
            seq![act(Action::StartBlock)]
        } else {
            Seq::empty()
        }) + seq![StepView::Tell(Telling::Append, sanitized(text))] + (if paints(buf) {
            seq![act(Action::Render)]
        } else {
            Seq::empty()
        })
    }
}

/// How a task is shown.
pub open spec fn task_line(t: TaskView) -> StepView {
    let icon = if t.status == "completed"@ {
        "[x]"@
    } else if t.status == "in_progress"@ {
        "[>]"@
    } else if t.status == "cancelled"@ {
        "[-]"@
    } else {
        "[ ]"@
    };
    let color = if t.status == "completed"@ {
        Color::Green
    } else if t.status == "in_progress"@ {
        C_TOOL
    } else {
        Color::DarkGrey
    };
    let mark = if t.priority == "high"@ {
        "!!"@
    } else if t.priority == "medium"@ {
        "! "@
    } else {
        "  "@
    };
    says("  "@ + icon + " "@ + mark + " "@ + t.content, color)
}

/// How many of the first `n` tasks are done.
pub open spec fn done_to(ts: Seq<TaskView>, n: nat) -> nat
    decreases n,
{
    if n == 0 {
        0
    } else {
        done_to(ts, (n - 1) as nat) + if ts[n - 1].status == "completed"@ {
            1nat
        } else {
            0
        }
    }
}

/// The list of tasks.
pub open spec fn task_steps(ts: Seq<TaskView>) -> Seq<StepView> {
    if ts.len() == 0 {
        seq![says("tasks cleared"@, Color::DarkGrey)]
    } else {
        seq![
            says(
                "tasks  "@ + decimal(done_to(ts, ts.len())) + " done / "@ + decimal(ts.len())
                    + " total"@,
                C_TOOL,
            ),
        ] + ts.map_values(|t: TaskView| task_line(t))
    }
}

/// What a tool's result shows.
pub open spec fn tool_steps(
    name: Seq<char>,
    output: Seq<char>,
    tasks: Seq<TaskView>,
    details: Option<ToolDetails>,
) -> Seq<StepView> {
    if name == "todo_write"@ {
        task_steps(tasks)
    } else {
        match crate::events::details_or_default(details) {
            ToolDetails::Off => Seq::empty(),
            ToolDetails::Limited(max) => seq![
                says(shown_result(sanitized(output), Some(max)), Color::DarkGrey),
            ],
            ToolDetails::Unlimited => seq![
                says(shown_result(sanitized(output), None), Color::DarkGrey),
            ],
        }
    }
}

/// What the end of an answer shows and adds to the session.
pub open spec fn done_steps(run: RunView, response: Seq<char>, usage: TurnUsage) -> Seq<StepView> {
    (if run.response_buf.len() > 0 {
        (match run.response_start_block {
            Some(b) => seq![
                StepView::TruncateBlocks((b + 1) as usize),
                act(Action::FinishBlock),
            ],
            None => seq![StepView::Block(BlockStyle::Agent, run.response_buf)],
        }).push(act(Action::Render))
    } else if !run.agent_line_started {
        seq![StepView::Block(BlockStyle::Agent, "< "@)]
    } else {
        Seq::empty()
    }) + seq![
        blank(),
        blank(),
        StepView::AddMessage(MessageRole::Assistant, response),
        StepView::AddUsage(usage),
        StepView::Calibrate(usage),
    ]
}

/// The run after an event.
pub open spec fn run_after(run: RunView, ev: AgentView, set: EventSettings, feed: FeedEnd) -> RunView {
    match ev {
        AgentView::Reasoning(_) => if set.show_reasoning {
            RunView { agent_line_started: true, was_reasoning: true, ..run }
        } else {
            run
        },
        AgentView::Token(text) => token_run(run, text, feed),
        AgentView::ToolCall { .. } => run.unanswered(),
        AgentView::SubagentToolCall { .. } => run,
        AgentView::ToolResult { .. } => run,
        AgentView::Done { .. } => run.unanswered(),
        AgentView::CompletionCall(_) => run,
        AgentView::Retrying { .. } => run.unanswered(),
        AgentView::Error(_) => RunView { is_running: false, ..run.unanswered() },
    }
}

/// What an event has done.
pub open spec fn steps_after(run: RunView, ev: AgentView, set: EventSettings) -> Seq<StepView> {
    match ev {
        AgentView::Reasoning(text) => if set.show_reasoning {
            reasoning_steps(run, text)
        } else {
            Seq::empty()
        },
        AgentView::Token(text) => token_steps(run, text),
        AgentView::ToolCall { name, args, summary } => line_end(run) + seq![
            StepView::NoteTool(ToolNote::Call, name, args),
        ] + keeping(set.no_session) + seq![says(sanitized("\u{25c8} "@ + summary), C_TOOL)],
        AgentView::SubagentToolCall { name, args, summary } => seq![
            StepView::NoteTool(ToolNote::SubagentCall, name, args),
        ] + keeping(set.no_session) + seq![says(sanitized("\u{2325} "@ + summary), C_TOOL)],
        AgentView::ToolResult { name, output, digest: _, tasks } => seq![
            StepView::NoteTool(ToolNote::Result, name, output),
        ] + keeping(set.no_session) + tool_steps(name, output, tasks, set.details),
        AgentView::Done { response, usage } => done_steps(run, response, usage),
        AgentView::CompletionCall(usage) => seq![
            StepView::RaiseEstimate(usage),
            StepView::AddUsage(usage),
        ],
        AgentView::Retrying { attempt, max } => line_end(run) + seq![
            says(
                "retrying... ("@ + decimal(attempt as nat) + "/"@ + decimal(max as nat) + ")"@,
                Color::Yellow,
            ),
        ],
        AgentView::Error(text) => seq![
            says("error: "@ + sanitized(text), C_ERROR),
            act(Action::SignalStop),
            act(Action::DropReceiver),
        ] + keeping(set.no_session),
    }
}

// ---------------------------------------------------------------------------
// Handling of events
// ---------------------------------------------------------------------------

/// Keeps the session, where it is kept.
pub fn push_keeping(out: &mut Vec<Step>, no_session: bool)
    ensures
        step_views(final(out)@) == step_views(old(out)@) + keeping(no_session),
{
    if !no_session {
        push_act(out, Action::SaveSession);
    }
    assert(step_views(out@) =~= step_views(old(out)@) + keeping(no_session));
}

/// Shows one task.
fn push_task(out: &mut Vec<Step>, t: &Task)
    ensures
        step_views(final(out)@) == step_views(old(out)@).push(task_line(t@)),
{
    let status = t.status.as_str();
    let done = same_text(status, "completed");
    let going = same_text(status, "in_progress");
    let icon: &str = if done {
        "[x]"
    } else if going {
        "[>]"
    } else if same_text(status, "cancelled") {
        "[-]"
    } else {
        "[ ]"
    };
    let color: Color = if done {
        Color::Green
    } else if going {
        C_TOOL
    } else {
        Color::DarkGrey
    };
    let priority = t.priority.as_str();
    let mark: &str = if same_text(priority, "high") {
        "!!"
    } else if same_text(priority, "medium") {
        "! "
    } else {
        "  "
    };
    let mut line = cat5("  ", icon, " ", mark, " ");
    line.push_str(t.content.as_str());
    push_says(out, line.as_str(), color);
}

/// Shows the list of tasks.
fn push_tasks(out: &mut Vec<Step>, tasks: &Vec<Task>)
    ensures
        step_views(final(out)@) == step_views(old(out)@) + task_steps(task_views(tasks@)),
{
    let ghost ts = task_views(tasks@);
    let ghost before = step_views(out@);
    let n: usize = tasks.len();
    assert(ts.len() == n);
    if n == 0 {
        push_says(out, "tasks cleared", Color::DarkGrey);
        assert(step_views(out@) =~= before + task_steps(ts));
        return;
    }
    let mut done: u64 = 0;
    for i in 0..n
        invariant
            n == tasks@.len(),
            ts == task_views(tasks@),
            done == done_to(ts, i as nat),
            done <= i,
    {
        assert(ts[i as int] == tasks@[i as int]@);
        if same_text(tasks[i].status.as_str(), "completed") {
            done = done + 1;
        }
    }
    let head = cat5(
        "tasks  ",
        decimal_of(done).as_str(),
        " done / ",
        decimal_of(n as u64).as_str(),
        " total",
    );
    push_says(out, head.as_str(), C_TOOL);
    let ghost shown = ts.map_values(|t: TaskView| task_line(t));
    let ghost start = step_views(out@);
    assert(start + shown.take(0) =~= start);
    for i in 0..n
        invariant
            n == tasks@.len(),
            ts == task_views(tasks@),
            shown == ts.map_values(|t: TaskView| task_line(t)),
            step_views(out@) == start + shown.take(i as int),
    {
        push_task(out, &tasks[i]);
        assert(shown[i as int] == task_line(tasks@[i as int]@));
        assert((start + shown.take(i as int)).push(shown[i as int]) =~= start + shown.take(i + 1));
    }
    assert(shown.take(n as int) =~= shown);
    assert(start + shown =~= before + task_steps(ts));
}

/// Shows a tool's result.
fn push_tool(
    out: &mut Vec<Step>,
    name: &str,
    output: &str,
    tasks: &Vec<Task>,
    details: Option<ToolDetails>,
)
    ensures
        step_views(final(out)@) == step_views(old(out)@) + tool_steps(
            name@,
            output@,
            task_views(tasks@),
            details,
        ),
{
    if same_text(name, "todo_write") {
        push_tasks(out, tasks);
        return;
    }
    let details = match details {
        Some(d) => d,
        None => ToolDetails::Limited(3),
    };
    match details {
        ToolDetails::Off => {},
        ToolDetails::Limited(max) => {
            let text = chars_of(sanitize_output(output).text());
            push_says(out, show_result(&text, Some(max)).as_str(), Color::DarkGrey);
        },
        ToolDetails::Unlimited => {
            let text = chars_of(sanitize_output(output).text());
            push_says(out, show_result(&text, None).as_str(), Color::DarkGrey);
        },
    }
    assert(step_views(out@) =~= step_views(old(out)@) + tool_steps(
        name@,
        output@,
        task_views(tasks@),
        Some(details),
    ));
}

/// Ends a line that the agent has started.
fn push_line_end(out: &mut Vec<Step>, run: &RunState)
    ensures
        step_views(final(out)@) == step_views(old(out)@) + line_end(run@),
{
    if run.agent_line_started {
        push_blank(out);
    }
    assert(step_views(out@) =~= step_views(old(out)@) + line_end(run@));
}

/// Handles a piece of the answer.
fn handle_token(text: &str, run: &mut RunState, feed: FeedEnd) -> (r: Vec<Step>)
    requires
        feed.blocks + 2 <= usize::MAX,
    ensures
        final(run)@ == token_run(old(run)@, text@, feed),
        step_views(r@) == token_steps(old(run)@, text@),
{
    let ghost start = run@;
    let mut out: Vec<Step> = Vec::new();
    let mut block: usize = feed.blocks;
    if run.was_reasoning {
        push_blank(&mut out);
        run.forget_answer();
        block = if feed.partial {
            feed.blocks + 2
        } else {
            feed.blocks + 1
        };
    }
    let ghost begun = run@;
    assert(begun == answering(start));
    let safe = sanitize_output(text);
    run.response_buf.push_str(safe.text());
    let buf = chars_of(run.response_buf.as_str());
    if buf.len() == 0 {
        assert(step_views(out@) =~= token_steps(start, text@));
        return out;
    }
    if run.response_start_block.is_none() {
        push_act(&mut out, Action::StartBlock);
        run.response_start_block = Some(block);
    }
    push_tell(&mut out, Telling::Append, safe.text());
    if bytes_of(&buf) < 200 || buf[buf.len() - 1] == '\n' {
        push_act(&mut out, Action::Render);
        run.agent_line_started = true;
    }
    assert(step_views(out@) =~= token_steps(start, text@));
    out
}

/// Handles the end of an answer, up to the settling of the session.
fn handle_done(response: &str, usage: TurnUsage, run: &mut RunState) -> (r: Vec<Step>)
    requires
        old(run).response_start_block matches Some(b) ==> b < usize::MAX,
    ensures
        final(run)@ == old(run)@.unanswered(),
        step_views(r@) == done_steps(old(run)@, response@, usage),
{
    let ghost start = run@;
    let mut out: Vec<Step> = Vec::new();
    if chars_of(run.response_buf.as_str()).len() > 0 {
        match run.response_start_block {
            Some(b) => {
                push_step(&mut out, Step::TruncateBlocks(b + 1));
                push_act(&mut out, Action::FinishBlock);
            },
            None => {
                push_step(
                    &mut out,
                    Step::Block(BlockStyle::Agent, copy_text(run.response_buf.as_str())),
                );
            },
        }
        push_act(&mut out, Action::Render);
    } else if !run.agent_line_started {
        push_step(&mut out, Step::Block(BlockStyle::Agent, copy_text("< ")));
    }
    push_blank(&mut out);
    push_blank(&mut out);
    push_step(&mut out, Step::AddMessage(MessageRole::Assistant, copy_text(response)));
    push_step(&mut out, Step::AddUsage(usage));
    push_step(&mut out, Step::Calibrate(usage));
    run.forget_answer();
    assert(step_views(out@) =~= done_steps(start, response@, usage));
    out
}

/// Handles an event of the agent. The end of an answer is to be settled
/// afterwards with [`settle`].
pub fn handle_agent_event(
    event: &AgentEvent,
    run: &mut RunState,
    settings: EventSettings,
    feed: FeedEnd,
) -> (r: Vec<Step>)
    requires
        feed.blocks + 2 <= usize::MAX,
        old(run).response_start_block matches Some(b) ==> b < usize::MAX,
    ensures
        final(run)@ == run_after(old(run)@, event@, settings, feed),
        step_views(r@) == steps_after(old(run)@, event@, settings),
{
    let ghost start = run@;
    let mut out: Vec<Step> = Vec::new();
    assert(step_views(out@) =~= Seq::<StepView>::empty());
    match event {
        AgentEvent::Reasoning(text) => {
            if !settings.show_reasoning {
                return out;
            }
            if !run.agent_line_started {
                push_step(&mut out, Step::Write(copy_text("< "), Color::DarkMagenta));
                run.agent_line_started = true;
            }
            let safe = sanitize_output(text.as_str());
            push_step(&mut out, Step::Write(copy_text(safe.text()), Color::DarkMagenta));
            run.was_reasoning = true;
        },
        AgentEvent::Token(text) => {
            return handle_token(text.as_str(), run, feed);
        },
        AgentEvent::ToolCall { name, args, summary } => {
            push_line_end(&mut out, run);
            run.forget_answer();
            push_step(
                &mut out,
                Step::NoteTool(ToolNote::Call, copy_text(name.as_str()), copy_text(args.as_str())),
            );
            push_keeping(&mut out, settings.no_session);
            let line = cat("\u{25c8} ", summary.as_str());
            push_says(&mut out, sanitize_output(line.as_str()).text(), C_TOOL);
        },
        AgentEvent::SubagentToolCall { name, args, summary } => {
            push_step(
                &mut out,
                Step::NoteTool(
                    ToolNote::SubagentCall,
                    copy_text(name.as_str()),
                    copy_text(args.as_str()),
                ),
            );
            push_keeping(&mut out, settings.no_session);
            let line = cat("\u{2325} ", summary.as_str());
            push_says(&mut out, sanitize_output(line.as_str()).text(), C_TOOL);
        },
        AgentEvent::ToolResult { name, output, digest: _, tasks } => {
            push_step(
                &mut out,
                Step::NoteTool(
                    ToolNote::Result,
                    copy_text(name.as_str()),
                    copy_text(output.as_str()),
                ),
            );
            push_keeping(&mut out, settings.no_session);
            push_tool(&mut out, name.as_str(), output.as_str(), tasks, settings.details);
        },
        AgentEvent::Done { response, usage } => {
            return handle_done(response.as_str(), *usage, run);
        },
        AgentEvent::CompletionCall(usage) => {
            push_step(&mut out, Step::RaiseEstimate(*usage));
            push_step(&mut out, Step::AddUsage(*usage));
        },
        AgentEvent::Retrying { attempt, max } => {
            push_line_end(&mut out, run);
            run.forget_answer();
            let line = cat5(
                "retrying... (",
                decimal_of(*attempt).as_str(),
                "/",
                decimal_of(*max).as_str(),
                ")",
            );
            push_says(&mut out, line.as_str(), Color::Yellow);
        },
        AgentEvent::Error(text) => {
            let line = cat("error: ", sanitize_output(text.as_str()).text());
            push_says(&mut out, line.as_str(), C_ERROR);
            run.is_running = false;
            push_act(&mut out, Action::SignalStop);
            push_act(&mut out, Action::DropReceiver);
            run.forget_answer();
            push_keeping(&mut out, settings.no_session);
        },
    }
    assert(step_views(out@) =~= steps_after(start, event@, settings));
    out
}

/// What settles an answer that has ended: the session is shortened where it has
/// grown too large, and kept.
pub open spec fn settling(no_session: bool, compact: bool) -> Seq<StepView> {
    (if compact && !no_session {
        seq![
            StepView::Compress {
                instructions: None,
                auto: true,
                on_error: "auto-compact error: "@,
            },
        ]
    } else {
        Seq::empty()
    }) + keeping(no_session) + seq![act(Action::SignalStop), act(Action::DropReceiver)]
}

/// Settles an answer that has ended. The session is to be shortened where that
/// is switched on, it is needed, and no loop is going on.
pub fn settle(
    run: &mut RunState,
    loop_running: bool,
    compact_enabled: bool,
    needs_compaction: bool,
    no_session: bool,
) -> (r: Vec<Step>)
    ensures
        final(run)@ == (RunView { is_running: false, ..old(run)@ }),
        step_views(r@) == settling(
            no_session,
            !loop_running && compact_enabled && needs_compaction,
        ),
{
    let mut out: Vec<Step> = Vec::new();
    if !loop_running && compact_enabled && needs_compaction && !no_session {
        push_step(
            &mut out,
            Step::Compress {
                instructions: None,
                auto: true,
                on_error: copy_text("auto-compact error: "),
            },
        );
    }
    push_keeping(&mut out, no_session);
    run.is_running = false;
    push_act(&mut out, Action::SignalStop);
    push_act(&mut out, Action::DropReceiver);
    assert(step_views(out@) =~= settling(
        no_session,
        !loop_running && compact_enabled && needs_compaction,
    ));
    out
}

// ---------------------------------------------------------------------------
// Tokens
// ---------------------------------------------------------------------------

/// Tokens of a session, and what they cost.
#[derive(Clone, Copy, Debug, PartialEq, Eq, Structural)]
pub struct TokenTotals {
    /// How large the session is.
    pub estimated: u64,
    /// Tokens sent so far.
    pub input: u64,
    /// Tokens received so far.
    pub output: u64,
    /// What the session has cost so far, as the bits of the amount.
    pub cost: u64,
}

/// The sum, or the largest number where it does not fit.
pub open spec fn capped_sum(a: u64, b: u64) -> u64 {
    if a + b <= u64::MAX {
        (a + b) as u64
    } else {
        u64::MAX
    }
}

/// Counts the tokens of a call.
pub fn add_usage(totals: &mut TokenTotals, usage: TurnUsage)
    ensures
        *final(totals) == (TokenTotals {
            input: capped_sum(old(totals).input, usage.input_tokens),
            output: capped_sum(old(totals).output, usage.output_tokens),
            ..*old(totals)
        }),
{
    totals.input = totals.input.saturating_add(usage.input_tokens);
    totals.output = totals.output.saturating_add(usage.output_tokens);
}

/// The session is at least as large as a call that sent `real_input` tokens and
/// received `output`.
pub fn raise_estimate(totals: &mut TokenTotals, real_input: u64, output: u64)
    ensures
        *final(totals) == (TokenTotals {
            estimated: if capped_sum(real_input, output) > old(totals).estimated {
                capped_sum(real_input, output)
            } else {
                old(totals).estimated
            },
            ..*old(totals)
        }),
{
    let sum: u64 = real_input.saturating_add(output);
    if sum > totals.estimated {
        totals.estimated = sum;
    }
}

// ---------------------------------------------------------------------------
// Laws
// ---------------------------------------------------------------------------

/// Whether the answer so far stands on the screen: in a growing block at the
/// end of the feed, or nothing of it has come yet.
pub open spec fn on_screen(run: RunView, r: RendererView) -> bool {
    match run.response_start_block {
        Some(b) => {
            &&& b + 1 == r.feed.blocks.len()
            &&& r.feed.blocks.last() == (BlockView {
                style: BlockStyle::Agent,
                text: run.response_buf,
                running: true,
            })
        },
        None => run.response_buf.len() == 0,
    }
}

/// What one more step makes of the screen.
proof fn lemma_after_push(r: RendererView, steps: Seq<StepView>, step: StepView)
    ensures
        after_steps(r, steps.push(step)) == after_step(after_steps(r, steps), step),
{
    assert(steps.push(step).drop_last() =~= steps);
}

/// An empty line adds one block, or two where a line has been begun.
proof fn lemma_blank(r: RendererView)
    ensures
        ({
            let r1 = after_step(r, blank());
            let n = r.feed.blocks.len();
            &&& r1.partial.len() == 0
            &&& r1.feed.blocks.len() == n + 1 + if r.partial.len() > 0 {
                1int
            } else {
                0
            }
            &&& forall|i: int| 0 <= i < n ==> r1.feed.blocks[i] == r.feed.blocks[i]
        }),
{
}

/// A piece of the answer, once reasoning has ended.
proof fn lemma_piece(begun: RunView, r: RendererView, safe: Seq<char>)
    requires
        on_screen(begun, r),
        (begun.response_buf + safe).len() > 0,
    ensures
        ({
            let r1 = if begun.response_start_block is None {
                after_step(r, act(Action::StartBlock))
            } else {
                r
            };
            let r2 = after_step(r1, StepView::Tell(Telling::Append, safe));
            let n = r.feed.blocks.len();
            let b = if begun.response_start_block is None {
                n as int
            } else {
                n - 1
            };
            &&& r2.feed.blocks.len() == b + 1
            &&& r2.feed.blocks.last() == (BlockView {
                style: BlockStyle::Agent,
                text: begun.response_buf + safe,
                running: true,
            })
            &&& forall|i: int| 0 <= i < b ==> r2.feed.blocks[i] == r.feed.blocks[i]
        }),
{
    if begun.response_start_block is None {
        assert(Seq::<char>::empty() + safe =~= begun.response_buf + safe);
    }
}

/// The screen once reasoning has ended, where there was any.
spec fn reasoned(run: RunView, r: RendererView) -> RendererView {
    if run.was_reasoning {
        after_step(r, blank())
    } else {
        r
    }
}

/// What the steps of a piece of the answer make of the screen, one by one.
#[verifier::spinoff_prover]
proof fn lemma_token_taken(run: RunView, r: RendererView, text: Seq<char>)
    ensures
        ({
            let begun = answering(run);
            let r0 = reasoned(run, r);
            let r1 = if begun.response_start_block is None {
                after_step(r0, act(Action::StartBlock))
            } else {
                r0
            };
            after_steps(r, token_steps(run, text)) == if (begun.response_buf + sanitized(
                text,
            )).len() == 0 {
                r0
            } else {
                after_step(r1, StepView::Tell(Telling::Append, sanitized(text)))
            }
        }),
{
    let steps = token_steps(run, text);
    let begun = answering(run);
    let buf = begun.response_buf + sanitized(text);
    let none = Seq::<StepView>::empty();
    let ended = if run.was_reasoning {
        none.push(blank())
    } else {
        none
    };
    lemma_after_push(r, none, blank());
    assert(after_steps(r, ended) == reasoned(run, r));
    if buf.len() == 0 {
        assert(steps =~= ended);
    } else {
        let begin = if begun.response_start_block is None {
            ended.push(act(Action::StartBlock))
        } else {
            ended
        };
        let append = StepView::Tell(Telling::Append, sanitized(text));
        let grow = begin.push(append);
        lemma_after_push(r, ended, act(Action::StartBlock));
        lemma_after_push(r, begin, append);
        lemma_after_push(r, grow, act(Action::Render));
        assert(steps =~= if paints(buf) {
            grow.push(act(Action::Render))
        } else {
            grow
        });
    }
}

/// Every piece of the answer reaches the screen: where the answer so far stands
/// there, it still does after the next piece, and nothing before it changes.
#[verifier::spinoff_prover]
pub proof fn lemma_token_shown(run: RunView, r: RendererView, text: Seq<char>, feed: FeedEnd)
    requires
        feed.blocks == r.feed.blocks.len(),
        feed.partial == (r.partial.len() > 0),
        feed.blocks + 2 <= usize::MAX,
        run.was_reasoning || on_screen(run, r),
    ensures
        ({
            let end = after_steps(r, token_steps(run, text));
            let kept = r.feed.blocks.len() - if !run.was_reasoning
                && run.response_start_block is Some {
                1int
            } else {
                0
            };
            &&& on_screen(token_run(run, text, feed), end)
            &&& kept <= end.feed.blocks.len()
            &&& forall|i: int| 0 <= i < kept ==> end.feed.blocks[i] == r.feed.blocks[i]
        }),
{
    let begun = answering(run);
    let safe = sanitized(text);
    lemma_token_taken(run, r, text);
    lemma_blank(r);
    assert(on_screen(begun, reasoned(run, r)));
    if (begun.response_buf + safe).len() > 0 {
        lemma_piece(begun, reasoned(run, r), safe);
    } else {
        assert(begun.response_buf + safe =~= begun.response_buf);
    }
}

/// The screen once the block of the answer is complete.
spec fn answer_closed(run: RunView, r: RendererView) -> RendererView {
    after_step(
        after_step(r, StepView::TruncateBlocks((run.response_start_block->0 + 1) as usize)),
        act(Action::FinishBlock),
    )
}

/// Completing the block of the answer changes nothing else in the feed.
proof fn lemma_closed(run: RunView, r: RendererView)
    requires
        on_screen(run, r),
        run.response_start_block is Some,
        r.feed.blocks.len() <= usize::MAX,
    ensures
        answer_closed(run, r).partial == r.partial,
        answer_closed(run, r).feed.blocks == r.feed.blocks.update(
            r.feed.blocks.len() - 1,
            (BlockView { style: BlockStyle::Agent, text: run.response_buf, running: false }),
        ),
{
    assert(answer_closed(run, r).feed.blocks =~= r.feed.blocks.update(
        r.feed.blocks.len() - 1,
        (BlockView { style: BlockStyle::Agent, text: run.response_buf, running: false }),
    ));
}

/// What two lists of steps make of the screen, one after the other.
proof fn lemma_after_concat(r: RendererView, a: Seq<StepView>, b: Seq<StepView>)
    ensures
        after_steps(r, a + b) == after_steps(after_steps(r, a), b),
    decreases b.len(),
{
    if b.len() == 0 {
        assert(a + b =~= a);
    } else {
        assert((a + b).drop_last() =~= a + b.drop_last());
        assert((a + b).last() == b.last());
        lemma_after_concat(r, a, b.drop_last());
    }
}

/// The steps that complete the block of the answer.
spec fn closing_steps(run: RunView) -> Seq<StepView> {
    seq![
        StepView::TruncateBlocks((run.response_start_block->0 + 1) as usize),
        act(Action::FinishBlock),
        act(Action::Render),
    ]
}

/// The steps behind those.
spec fn ending_steps(response: Seq<char>, usage: TurnUsage) -> Seq<StepView> {
    seq![
        blank(),
        blank(),
        StepView::AddMessage(MessageRole::Assistant, response),
        StepView::AddUsage(usage),
        StepView::Calibrate(usage),
    ]
}

#[verifier::spinoff_prover]
proof fn lemma_closing_taken(run: RunView, r: RendererView)
    ensures
        after_steps(r, closing_steps(run)) == answer_closed(run, r),
{
    let none = Seq::<StepView>::empty();
    let cut = StepView::TruncateBlocks((run.response_start_block->0 + 1) as usize);
    let s1 = none.push(cut);
    let s2 = s1.push(act(Action::FinishBlock));
    lemma_after_push(r, none, cut);
    lemma_after_push(r, s1, act(Action::FinishBlock));
    lemma_after_push(r, s2, act(Action::Render));
    assert(closing_steps(run) =~= s2.push(act(Action::Render)));
}

#[verifier::spinoff_prover]
proof fn lemma_ending_taken(r: RendererView, response: Seq<char>, usage: TurnUsage)
    ensures
        after_steps(r, ending_steps(response, usage)) == after_step(
            after_step(r, blank()),
            blank(),
        ),
{
    let none = Seq::<StepView>::empty();
    let s1 = none.push(blank());
    let s2 = s1.push(blank());
    let message = StepView::AddMessage(MessageRole::Assistant, response);
    let s3 = s2.push(message);
    let s4 = s3.push(StepView::AddUsage(usage));
    lemma_after_push(r, none, blank());
    lemma_after_push(r, s1, blank());
    lemma_after_push(r, s2, message);
    lemma_after_push(r, s3, StepView::AddUsage(usage));
    lemma_after_push(r, s4, StepView::Calibrate(usage));
    assert(ending_steps(response, usage) =~= s4.push(StepView::Calibrate(usage)));
}

/// What the steps at the end of an answer make of the screen.
#[verifier::spinoff_prover]
proof fn lemma_done_taken(run: RunView, r: RendererView, response: Seq<char>, usage: TurnUsage)
    requires
        run.response_start_block is Some,
        run.response_buf.len() > 0,
    ensures
        after_steps(r, done_steps(run, response, usage)) == after_step(
            after_step(answer_closed(run, r), blank()),
            blank(),
        ),
{
    assert(done_steps(run, response, usage) =~= closing_steps(run) + ending_steps(response, usage));
    lemma_after_concat(r, closing_steps(run), ending_steps(response, usage));
    lemma_closing_taken(run, r);
    lemma_ending_taken(answer_closed(run, r), response, usage);
}

/// When the answer ends, the block that it grew in is complete and holds all of
/// it, followed by two empty lines.
#[verifier::spinoff_prover]
pub proof fn lemma_answer_complete(
    run: RunView,
    r: RendererView,
    response: Seq<char>,
    usage: TurnUsage,
)
    requires
        on_screen(run, r),
        run.response_buf.len() > 0,
        r.partial.len() == 0,
        r.feed.blocks.len() <= usize::MAX,
    ensures
        ({
            let end = after_steps(r, done_steps(run, response, usage)).feed.blocks;
            let n = r.feed.blocks.len();
            &&& end.len() == n + 2
            &&& end[n - 1] == (BlockView {
                style: BlockStyle::Agent,
                text: run.response_buf,
                running: false,
            })
            &&& forall|i: int| 0 <= i < n - 1 ==> end[i] == r.feed.blocks[i]
        }),
{
    lemma_done_taken(run, r, response, usage);
    lemma_closed(run, r);
    lemma_blank(answer_closed(run, r));
    lemma_blank(after_step(answer_closed(run, r), blank()));
}

/// The answer grows at its end: the next piece stands on the screen behind all that
/// stood there of the answer, as it came. This is said of pieces without control
/// characters.
pub proof fn lemma_answer_grows(run: RunView, r: RendererView, text: Seq<char>, feed: FeedEnd)
    requires
        feed.blocks == r.feed.blocks.len(),
        feed.partial == (r.partial.len() > 0),
        feed.blocks + 2 <= usize::MAX,
        !run.was_reasoning,
        on_screen(run, r),
        clean(text),
        text.len() > 0,
    ensures
        ({
            let end = after_steps(r, token_steps(run, text)).feed.blocks;
            let shown = if run.response_start_block is Some {
                r.feed.blocks.last().text
            } else {
                Seq::empty()
            };
            &&& end.len() > 0
            &&& end.last().text == shown + text
            &&& end.last().style is Agent && end.last().running
            &&& token_run(run, text, feed).response_buf == run.response_buf + text
        }),
{
    lemma_clean_unchanged(text);
    lemma_token_shown(run, r, text, feed);
    assert(run.response_start_block is None ==> run.response_buf =~= Seq::<char>::empty());
}

/// Whether a line ends in a text.
pub open spec fn ends_in(line: Seq<char>, text: Seq<char>) -> bool {
    line.len() >= text.len() && line.skip(line.len() - text.len()) == text
}

/// The list of tasks names every task, in the order of the list.
pub proof fn lemma_tasks_listed(ts: Seq<TaskView>, i: int)
    requires
        0 <= i < ts.len(),
    ensures
        task_steps(ts).len() == ts.len() + 1,
        task_steps(ts)[i + 1] matches StepView::WriteLine(line, color) && {
            &&& ends_in(line, ts[i].content)
            &&& ts[i].status == "completed"@ <==> color == Color::Green
        },
{
    let step = task_line(ts[i]);
    assert(task_steps(ts)[i + 1] == step);
    match step {
        StepView::WriteLine(line, _) => {
            assert(line.skip(line.len() - ts[i].content.len()) =~= ts[i].content);
        },
        _ => {},
    }
}

} // verus!
