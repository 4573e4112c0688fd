//! What submitted lines do: routing, the queue, side questions, shell commands,
//! prompts behind a dot, and what slash commands leave to be done.

use vstd::prelude::*;

use crate::color::{Color, C_AGENT, C_BTW, C_ERROR, C_TOOL};
use crate::events::{sanitize_output, sanitized};
use crate::flow::{
    a_main_run, begin_loop, is_loop_due, lemma_no_run, loop_due, main_run, next_run,
    runs_started, start_main_run, start_steps, started, ChainState, ChainView, LoopView,
};
use crate::prompts::{
    apply_prompt_mode, known, prompt_applied, ContextFiles, ContextView, PermState,
};
use crate::session::{MessageRole, Session, SessionView};
use crate::steps::{
    act, blank, cat, cat3, copy_text, echo, opt_text, push_act, push_all, push_blank, push_echo,
    push_says, push_step, push_tell, says, step_views, Action, RunKind, Step, StepView, Telling,
    TurnUsage, Worktree, WorktreeView,
};
use crate::submit::{
    classify_submission, command_matches, is_command, merge_prompt, merge_prompt_text, submission,
    MergeRequest, MergeView, SubmitAction,
};
use crate::text::{
    char_seqs, chars_of, decimal, decimal_of, has_prefix, is_whitespace, lines, lines_of, same_text,
    slice_of, starts_with, string_of, trim, trim_of, trim_start, trim_start_of, whitespace,
};
use crate::turn::{capped_sum, keeping, push_keeping, RunState, RunView};

verus! {

// ---------------------------------------------------------------------------
// Routing
// ---------------------------------------------------------------------------

/// What a submitted line is.
#[derive(Clone, Copy, Debug, PartialEq, Eq, Structural)]
pub enum Route {
    /// Refused while a loop goes on.
    LoopActive,
    /// An answer to an offered step of the chain.
    ChainReply,
    /// Nothing.
    Ignore,
    /// A command that is refused during a run.
    Refused,
    /// An input that waits for the end of a run.
    Waiting,
    /// `/queue`.
    QueueCommand,
    /// `/btw`.
    SideQuestion,
    /// A prompt behind a dot.
    Dot,
    /// Any other slash command.
    Slash,
    /// A shell command behind an exclamation mark.
    Bang,
    /// An input for the agent.
    Input,
}

/// What a line is that can be acted on now.
pub open spec fn direct_route(text: Seq<char>) -> Route {
    let t = trim_start(text);
    if is_command(t, "/queue"@) {
        Route::QueueCommand
    } else if is_command(t, "/btw"@) {
        Route::SideQuestion
    } else if text.len() > 0 && text[0] == '.' {
        Route::Dot
    } else {
        plain_route(text)
    }
}

/// What a line is that names no prompt.
pub open spec fn plain_route(text: Seq<char>) -> Route {
    if text.len() > 0 && text[0] == '/' {
        Route::Slash
    } else if text.len() > 0 && text[0] == '!' {
        Route::Bang
    } else {
        Route::Input
    }
}

/// What a submitted line is.
pub open spec fn route(text: Seq<char>, is_running: bool, looping: bool, chain_pending: bool) -> Route {
    if looping && !(text.len() > 0 && text[0] == '/') {
        Route::LoopActive
    } else if !is_running && chain_pending {
        Route::ChainReply
    } else {
        match submission(is_running, text) {
            SubmitAction::Run => direct_route(text),
            SubmitAction::Ignore => Route::Ignore,
            SubmitAction::RejectWhileRunning => Route::Refused,
            SubmitAction::Queue => Route::Waiting,
        }
    }
}

/// What a line is that names no prompt.
pub fn route_plain(text: &str) -> (r: Route)
    ensures
        r == plain_route(text@),
{
    let v = chars_of(text);
    if v.len() > 0 && v[0] == '/' {
        Route::Slash
    } else if v.len() > 0 && v[0] == '!' {
        Route::Bang
    } else {
        Route::Input
    }
}

/// What a line is that can be acted on now.
fn route_direct(text: &str) -> (r: Route)
    ensures
        r == direct_route(text@),
{
    let v = chars_of(text);
    let t = trim_start_of(&v);
    if command_matches(&t, "/queue") {
        Route::QueueCommand
    } else if command_matches(&t, "/btw") {
        Route::SideQuestion
    } else if v.len() > 0 && v[0] == '.' {
        Route::Dot
    } else {
        route_plain(text)
    }
}

/// What a submitted line is.
pub fn route_submission(text: &str, is_running: bool, looping: bool, chain_pending: bool) -> (r:
    Route)
    ensures
        r == route(text@, is_running, looping, chain_pending),
{
    let v = chars_of(text);
    if looping && !(v.len() > 0 && v[0] == '/') {
        Route::LoopActive
    } else if !is_running && chain_pending {
        Route::ChainReply
    } else {
        match classify_submission(is_running, text) {
            SubmitAction::Run => route_direct(text),
            SubmitAction::Ignore => Route::Ignore,
            SubmitAction::RejectWhileRunning => Route::Refused,
            SubmitAction::Queue => Route::Waiting,
        }
    }
}

/// During a run a line is refused, kept waiting, ignored, about the queue, or a
/// side question: it does not start another run.
pub proof fn lemma_route_while_running(text: Seq<char>, looping: bool, chain_pending: bool)
    ensures
        ({
            let r = route(text, true, looping, chain_pending);
            ||| r is LoopActive
            ||| r is Ignore
            ||| r is Refused
            ||| r is Waiting
            ||| r is QueueCommand
            ||| r is SideQuestion
        }),
{
}

/// What a line does during a run starts no other run.
pub proof fn lemma_no_second_run(
    text: Seq<char>,
    looping: bool,
    chain_pending: bool,
    run: RunView,
    id: u32,
)
    ensures
        runs_started(held_steps(route(text, true, looping, chain_pending), text)) == 0,
        runs_started(queue_steps(argument(text, "/queue"@), run.pending_inputs)) == 0,
        runs_started(btw_steps(text, id)) == 0,
{
    lemma_no_run(held_steps(route(text, true, looping, chain_pending), text));
    lemma_no_run(queue_steps(argument(text, "/queue"@), run.pending_inputs));
    lemma_no_run(btw_steps(text, id));
}

/// What refusing a line, or keeping it waiting, does.
pub open spec fn held_steps(r: Route, text: Seq<char>) -> Seq<StepView> {
    match r {
        Route::LoopActive => seq![says("loop active: /loop stop to cancel"@, C_ERROR)],
        Route::Refused => seq![
            says(
                "agent is running \u{2014} wait for it to finish or press Ctrl-C before running a command"@,
                C_ERROR,
            ),
        ],
        Route::Waiting => seq![says("queued: "@ + sanitized(text), C_TOOL)],
        _ => Seq::empty(),
    }
}

/// The run with one more input waiting for its end.
pub open spec fn waiting(run: RunView, text: Seq<char>) -> RunView {
    RunView { pending_inputs: run.pending_inputs.push(text), ..run }
}

/// Waiting inputs are sent in the order in which they were entered: one that is
/// entered later does not change what is sent next, unless nothing waits. Nothing
/// that waits is lost.
pub proof fn lemma_first_in_first_out(run: RunView, text: Seq<char>)
    ensures
        ({
            let next = next_run(waiting(run, text));
            &&& next.pending_send == Some(
                if run.pending_inputs.len() > 0 {
                    run.pending_inputs[0]
                } else {
                    text
                },
            )
            &&& next.pending_inputs.len() == run.pending_inputs.len()
            &&& run.pending_inputs.len() > 0 ==> next.pending_inputs.last() == text
                && next.pending_inputs.drop_last() == run.pending_inputs.skip(1)
            &&& waiting(run, text).is_running == run.is_running
            &&& waiting(run, text).response_buf == run.response_buf
        }),
{
    let next = next_run(waiting(run, text));
    if run.pending_inputs.len() > 0 {
        assert(next.pending_inputs.drop_last() =~= run.pending_inputs.skip(1));
    }
}

/// Refuses a line, or keeps it waiting.
pub fn hold_back(r: Route, text: &str, run: &mut RunState) -> (out: Vec<Step>)
    ensures
        final(run)@ == if r is Waiting {
            waiting(old(run)@, text@)
        } else {
            old(run)@
        },
        step_views(out@) == held_steps(r, text@),
{
    let mut out: Vec<Step> = Vec::new();
    match r {
        Route::LoopActive => {
            push_says(&mut out, "loop active: /loop stop to cancel", C_ERROR);
        },
        Route::Refused => {
            push_says(
                &mut out,
                "agent is running \u{2014} wait for it to finish or press Ctrl-C before running a command",
                C_ERROR,
            );
        },
        Route::Waiting => {
            run.pending_inputs.push(copy_text(text));
            assert(run@.pending_inputs =~= old(run)@.pending_inputs.push(text@));
            let line = cat("queued: ", sanitize_output(text).text());
            push_says(&mut out, line.as_str(), C_TOOL);
        },
        _ => {},
    }
    assert(step_views(out@) =~= held_steps(r, text@));
    out
}

/// Sends an input to the agent.
pub fn send_input(text: &str, run: &mut RunState, no_session: bool) -> (r: Vec<Step>)
    requires
        !old(run).is_running,
    ensures
        final(run)@ == started(old(run)@, text@),
        step_views(r@) == echo(text@) + start_steps(text@, no_session),
{
    let mut out: Vec<Step> = Vec::new();
    push_echo(&mut out, text);
    let rest = start_main_run(text, run, no_session);
    push_all(&mut out, rest);
    assert(step_views(out@) =~= echo(text@) + start_steps(text@, no_session));
    out
}

/// What follows `name` in a command line, without white space at the ends.
pub open spec fn argument(text: Seq<char>, name: Seq<char>) -> Seq<char> {
    let t = trim_start(text);
    if starts_with(t, name) {
        trim(t.skip(name.len() as int))
    } else {
        Seq::empty()
    }
}

/// What follows `name` in a command line.
pub fn argument_of(text: &str, name: &str) -> (r: String)
    ensures
        r@ == argument(text@, name@),
{
    let t = trim_start_of(&chars_of(text));
    let s = string_of(&t);
    if has_prefix(s.as_str(), name) {
        let n: usize = chars_of(name).len();
        let rest = slice_of(&t, n, t.len());
        assert(rest@ =~= t@.skip(n as int));
        string_of(&trim_of(&rest))
    } else {
        let r = String::new();
        assert(r@ =~= Seq::<char>::empty());
        r
    }
}

// ---------------------------------------------------------------------------
// The queue
// ---------------------------------------------------------------------------

/// A waiting input in the list.
pub open spec fn queue_line(i: int, text: Seq<char>) -> StepView {
    says("  "@ + decimal((i + 1) as nat) + ". "@ + sanitized(text), C_TOOL)
}

/// The list of waiting inputs.
pub open spec fn queue_list(q: Seq<Seq<char>>) -> Seq<StepView> {
    if q.len() == 0 {
        seq![says("queue is empty"@, C_TOOL)]
    } else {
        seq![says("queued ("@ + decimal(q.len()) + "):"@, C_TOOL)] + Seq::new(
            q.len(),
            |i: int| queue_line(i, q[i]),
        )
    }
}

/// What `/queue` shows.
pub open spec fn queue_steps(arg: Seq<char>, q: Seq<Seq<char>>) -> Seq<StepView> {
    if arg == "clear"@ {
        seq![says("queue cleared ("@ + decimal(q.len()) + " removed)"@, C_TOOL)]
    } else if arg == "pop"@ {
        if q.len() == 0 {
            seq![says("queue is empty"@, C_TOOL)]
        } else {
            seq![says("unqueued: "@ + sanitized(q.last()), C_TOOL)]
        }
    } else if arg == ""@ || arg == "ls"@ || arg == "list"@ {
        queue_list(q)
    } else {
        seq![says("usage: /queue [ls|clear|pop]"@, C_ERROR)]
    }
}

/// What `/queue` leaves waiting.
pub open spec fn queue_left(arg: Seq<char>, q: Seq<Seq<char>>) -> Seq<Seq<char>> {
    if arg == "clear"@ {
        Seq::empty()
    } else if arg == "pop"@ && q.len() > 0 {
        q.drop_last()
    } else {
        q
    }
}

/// Lists the waiting inputs.
fn push_queue(out: &mut Vec<Step>, run: &RunState)
    ensures
        step_views(final(out)@) == step_views(old(out)@) + queue_list(run@.pending_inputs),
{
    let ghost q = run@.pending_inputs;
    let ghost before = step_views(out@);
    let n: usize = run.pending_inputs.len();
    assert(q.len() == n);
    if n == 0 {
        push_says(out, "queue is empty", C_TOOL);
        assert(step_views(out@) =~= before + queue_list(q));
        return;
    }
    let head = cat3("queued (", decimal_of(n as u64).as_str(), "):");
    push_says(out, head.as_str(), C_TOOL);
    let ghost start = step_views(out@);
    let ghost shown = Seq::new(q.len(), |i: int| queue_line(i, q[i]));
    assert(start + shown.take(0) =~= start);
    for i in 0..n
        invariant
            n == run.pending_inputs@.len(),
            q == run@.pending_inputs,
            shown == Seq::new(q.len(), |i: int| queue_line(i, q[i])),
            step_views(out@) == start + shown.take(i as int),
    {
        assert(q[i as int] == run.pending_inputs@[i as int]@);
        let safe = sanitize_output(run.pending_inputs[i].as_str());
        let mut line = cat3("  ", decimal_of(i as u64 + 1).as_str(), ". ");
        line.push_str(safe.text());
        push_says(out, line.as_str(), C_TOOL);
        assert((start + shown.take(i as int)).push(shown[i as int]) =~= start + shown.take(i + 1));
    }
    assert(shown.take(n as int) =~= shown);
    assert(start + shown =~= before + queue_list(q));
}

/// Runs `/queue`.
pub fn run_queue_command(arg: &str, run: &mut RunState) -> (r: Vec<Step>)
    ensures
        final(run)@ == (RunView {
            pending_inputs: queue_left(arg@, old(run)@.pending_inputs),
            ..old(run)@
        }),
        step_views(r@) == queue_steps(arg@, old(run)@.pending_inputs),
{
    let ghost q = run@.pending_inputs;
    let mut out: Vec<Step> = Vec::new();
    assert(q.len() == run.pending_inputs@.len());
    if same_text(arg, "clear") {
        let n: usize = run.pending_inputs.len();
        run.pending_inputs.clear();
        assert(run@.pending_inputs =~= Seq::empty());
        let line = cat3("queue cleared (", decimal_of(n as u64).as_str(), " removed)");
        push_says(&mut out, line.as_str(), C_TOOL);
    } else if same_text(arg, "pop") {
        match run.pending_inputs.pop() {
            Some(x) => {
                assert(x@ == q.last());
                assert(run@.pending_inputs =~= q.drop_last());
                let line = cat("unqueued: ", sanitize_output(x.as_str()).text());
                push_says(&mut out, line.as_str(), C_TOOL);
            },
            None => {
                assert(run@.pending_inputs =~= q);
                push_says(&mut out, "queue is empty", C_TOOL);
            },
        }
    } else if same_text(arg, "") || same_text(arg, "ls") || same_text(arg, "list") {
        push_queue(&mut out, run);
    } else {
        push_says(&mut out, "usage: /queue [ls|clear|pop]", C_ERROR);
    }
    assert(step_views(out@) =~= queue_steps(arg@, q));
    out
}

/// Taking back the input that was queued last leaves the queue as it was.
pub proof fn lemma_pop_undoes(q: Seq<Seq<char>>, text: Seq<char>)
    ensures
        queue_left("pop"@, q.push(text)) == q,
{
    reveal_strlit("pop");
    reveal_strlit("clear");
    assert("pop"@.len() != "clear"@.len());
    assert(q.push(text).drop_last() =~= q);
}

// ---------------------------------------------------------------------------
// Side questions
// ---------------------------------------------------------------------------

/// Side questions, asked beside the main run.
pub struct BtwState {
    pub next_id: u32,
    /// How many are open.
    pub inflight: usize,
    /// Those that can be stopped.
    pub ids: Vec<u32>,
    pub total_in: u64,
    pub total_out: u64,
}

/// What a [`BtwState`] holds.
pub struct BtwView {
    pub next_id: u32,
    pub inflight: usize,
    pub ids: Seq<u32>,
    pub total_in: u64,
    pub total_out: u64,
}

impl View for BtwState {
    type V = BtwView;

    open spec fn view(&self) -> BtwView {
        BtwView {
            next_id: self.next_id,
            inflight: self.inflight,
            ids: self.ids@,
            total_in: self.total_in,
            total_out: self.total_out,
        }
    }
}

impl BtwState {
    /// None asked yet.
    pub fn new() -> (r: BtwState)
        ensures
            r@ == (BtwView {
                next_id: 0,
                inflight: 0,
                ids: Seq::empty(),
                total_in: 0,
                total_out: 0,
            }),
    {
        let r = BtwState { next_id: 0, inflight: 0, ids: Vec::new(), total_in: 0, total_out: 0 };
        assert(r@.ids =~= Seq::empty());
        r
    }
}

/// The number after `id`; 0 after the largest.
pub open spec fn id_after(id: u32) -> u32 {
    if id == u32::MAX {
        0
    } else {
        (id + 1) as u32
    }
}

/// The side questions with one more.
pub open spec fn asked(btw: BtwView) -> BtwView {
    BtwView {
        next_id: id_after(btw.next_id),
        ids: btw.ids.push(btw.next_id),
        inflight: (btw.inflight + 1) as usize,
        ..btw
    }
}

/// What `/btw` does.
pub open spec fn btw_steps(text: Seq<char>, id: u32) -> Seq<StepView> {
    let question = argument(text, "/btw"@);
    echo(text) + (if question.len() == 0 {
        seq![says("usage: /btw <message>"@, C_AGENT)]
    } else {
        seq![
            StepView::AskAside(id, question),
            says("[btw #"@ + decimal(id as nat) + "] thinking..."@, C_BTW),
        ]
    })
}

/// Asks a side question.
pub fn run_btw(text: &str, btw: &mut BtwState) -> (r: Vec<Step>)
    requires
        old(btw).inflight < usize::MAX,
    ensures
        final(btw)@ == if argument(text@, "/btw"@).len() == 0 {
            old(btw)@
        } else {
            asked(old(btw)@)
        },
        step_views(r@) == btw_steps(text@, old(btw)@.next_id),
{
    let ghost first = btw@.next_id;
    let mut out: Vec<Step> = Vec::new();
    push_echo(&mut out, text);
    let question = argument_of(text, "/btw");
    if chars_of(question.as_str()).len() == 0 {
        push_says(&mut out, "usage: /btw <message>", C_AGENT);
    } else {
        let id: u32 = btw.next_id;
        btw.next_id = if id == u32::MAX {
            0
        } else {
            id + 1
        };
        push_step(&mut out, Step::AskAside(id, question));
        btw.ids.push(id);
        btw.inflight = btw.inflight + 1;
        let line = cat3("[btw #", decimal_of(id as u64).as_str(), "] thinking...");
        push_says(&mut out, line.as_str(), C_BTW);
    }
    assert(step_views(out@) =~= btw_steps(text@, first));
    out
}

/// What came of a side question.
pub enum BtwEvent {
    Done { id: u32, response: String, usage: TurnUsage },
    Error { id: u32, message: String },
}

/// Without the numbers equal to `id`.
pub open spec fn without(ids: Seq<u32>, id: u32) -> Seq<u32> {
    ids.filter(|i: u32| i != id)
}

/// The side questions with one closed.
pub open spec fn closed(btw: BtwView, id: u32) -> BtwView {
    BtwView {
        ids: without(btw.ids, id),
        inflight: if btw.inflight > 0 {
            (btw.inflight - 1) as usize
        } else {
            0
        },
        ..btw
    }
}

/// The lines of an answer.
pub open spec fn answer_lines(ls: Seq<Seq<char>>, color: Color) -> Seq<StepView> {
    ls.map_values(|l: Seq<char>| says(sanitized(l), color))
}

/// Shows the lines of an answer.
fn push_answer(out: &mut Vec<Step>, text: &str, color: Color)
    ensures
        step_views(final(out)@) == step_views(old(out)@) + answer_lines(lines(text@), color),
{
    let ls = lines_of(&chars_of(text));
    let ghost ss = char_seqs(ls@);
    let ghost before = step_views(out@);
    let n: usize = ls.len();
    assert(ss.len() == n);
    assert(before + answer_lines(ss.take(0), color) =~= before);
    for i in 0..n
        invariant
            n == ls@.len(),
            ss == char_seqs(ls@),
            step_views(out@) == before + answer_lines(ss.take(i as int), color),
    {
        let safe = sanitize_output(string_of(&ls[i]).as_str());
        push_says(out, safe.text(), color);
        assert((before + answer_lines(ss.take(i as int), color)).push(
            says(sanitized(ss[i as int]), color),
        ) =~= before + answer_lines(ss.take(i + 1), color));
    }
    assert(ss.take(n as int) =~= ss);
}

/// Closes a side question.
fn close(btw: &mut BtwState, id: u32)
    ensures
        final(btw)@ == closed(old(btw)@, id),
{
    let mut kept: Vec<u32> = Vec::new();
    let n: usize = btw.ids.len();
    proof {
        reveal(Seq::filter);
        assert(without(btw.ids@.take(0), id) =~= Seq::<u32>::empty());
    }
    for i in 0..n
        invariant
            n == btw.ids@.len(),
            kept@ == without(btw.ids@.take(i as int), id),
            btw@ == old(btw)@,
    {
        let ghost head = btw.ids@.take(i as int);
        let ghost next = btw.ids@.take(i + 1);
        proof {
            reveal(Seq::filter);
            assert(next.drop_last() =~= head);
            assert(next.last() == btw.ids@[i as int]);
        }
        if btw.ids[i] != id {
            kept.push(btw.ids[i]);
        }
    }
    assert(btw.ids@.take(n as int) =~= btw.ids@);
    btw.ids = kept;
    btw.inflight = if btw.inflight > 0 {
        btw.inflight - 1
    } else {
        0
    };
}

/// What came of a side question is shown.
pub open spec fn btw_event_steps(ev: BtwEvent) -> Seq<StepView> {
    match ev {
        BtwEvent::Done { id, response, usage: _ } => seq![
            says("[btw #"@ + decimal(id as nat) + "] answer:"@, C_BTW),
        ] + answer_lines(lines(response@), C_AGENT) + seq![blank()],
        BtwEvent::Error { id, message } => seq![
            says("[btw #"@ + decimal(id as nat) + "] error: "@ + sanitized(message@), C_ERROR),
        ],
    }
}

/// The side questions after what came of one.
pub open spec fn btw_after(btw: BtwView, ev: BtwEvent) -> BtwView {
    match ev {
        BtwEvent::Done { id, response: _, usage } => BtwView {
            total_in: capped_sum(btw.total_in, usage.input_tokens),
            total_out: capped_sum(btw.total_out, usage.output_tokens),
            ..closed(btw, id)
        },
        BtwEvent::Error { id, message: _ } => closed(btw, id),
    }
}

/// Takes what came of a side question.
pub fn handle_btw_event(ev: &BtwEvent, btw: &mut BtwState) -> (r: Vec<Step>)
    ensures
        final(btw)@ == btw_after(old(btw)@, *ev),
        step_views(r@) == btw_event_steps(*ev),
{
    let mut out: Vec<Step> = Vec::new();
    match ev {
        BtwEvent::Done { id, response, usage } => {
            btw.total_in = btw.total_in.saturating_add(usage.input_tokens);
            btw.total_out = btw.total_out.saturating_add(usage.output_tokens);
            close(btw, *id);
            let head = cat3("[btw #", decimal_of(*id as u64).as_str(), "] answer:");
            push_says(&mut out, head.as_str(), C_BTW);
            push_answer(&mut out, response.as_str(), C_AGENT);
            push_blank(&mut out);
        },
        BtwEvent::Error { id, message } => {
            close(btw, *id);
            let mut line = cat3("[btw #", decimal_of(*id as u64).as_str(), "] error: ");
            line.push_str(sanitize_output(message.as_str()).text());
            push_says(&mut out, line.as_str(), C_ERROR);
        },
    }
    assert(step_views(out@) =~= btw_event_steps(*ev));
    out
}

/// Stops all side questions.
pub fn cancel_btw(btw: &mut BtwState) -> (r: Vec<Step>)
    ensures
        final(btw)@ == (BtwView { inflight: 0, ids: Seq::empty(), ..old(btw)@ }),
        step_views(r@) == seq![
            act(Action::AbortSideQuestions),
            says("btw cancelled"@, C_ERROR),
        ],
{
    let mut out: Vec<Step> = Vec::new();
    btw.ids.clear();
    btw.inflight = 0;
    assert(btw@.ids =~= Seq::empty());
    push_act(&mut out, Action::AbortSideQuestions);
    push_says(&mut out, "btw cancelled", C_ERROR);
    assert(step_views(out@) =~= seq![
        act(Action::AbortSideQuestions),
        says("btw cancelled"@, C_ERROR),
    ]);
    out
}

/// A side question that is answered at once leaves none open.
pub proof fn lemma_asked_and_closed(btw: BtwView)
    requires
        !btw.ids.contains(btw.next_id),
        btw.inflight < usize::MAX,
    ensures
        closed(asked(btw), btw.next_id).ids == btw.ids,
        closed(asked(btw), btw.next_id).inflight == btw.inflight,
{
    let ids = btw.ids.push(btw.next_id);
    reveal(Seq::filter);
    assert(ids.drop_last() =~= btw.ids);
    lemma_filter_all(btw.ids, btw.next_id);
}

proof fn lemma_filter_all(ids: Seq<u32>, id: u32)
    requires
        !ids.contains(id),
    ensures
        without(ids, id) == ids,
    decreases ids.len(),
{
    reveal(Seq::filter);
    if ids.len() > 0 {
        assert(ids[ids.len() - 1] == ids.last());
        assert forall|i: int| 0 <= i < ids.len() - 1 implies ids.drop_last()[i] != id by {
            assert(ids[i] == ids.drop_last()[i]);
        }
        lemma_filter_all(ids.drop_last(), id);
        assert(ids.drop_last().push(ids.last()) =~= ids);
    }
}

// ---------------------------------------------------------------------------
// Shell commands
// ---------------------------------------------------------------------------

/// The command behind an exclamation mark.
pub open spec fn shell_command(text: Seq<char>) -> Seq<char> {
    if text.len() > 0 && text[0] == '!' {
        trim(text.skip(1))
    } else {
        Seq::empty()
    }
}

/// Takes a shell command: what is to be run, or nothing where it is empty.
pub fn take_shell_command(text: &str) -> (r: (Option<String>, Vec<Step>))
    ensures
        match r.0 {
            Some(c) => shell_command(text@).len() > 0 && c@ == shell_command(text@),
            None => shell_command(text@).len() == 0,
        },
        step_views(r.1@) == if shell_command(text@).len() == 0 {
            seq![says("error: empty command after '!'"@, C_ERROR)]
        } else {
            echo(text@)
        },
{
    let v = chars_of(text);
    let mut out: Vec<Step> = Vec::new();
    let mut command: Vec<char> = Vec::new();
    if v.len() > 0 && v[0] == '!' {
        let rest = slice_of(&v, 1, v.len());
        assert(rest@ =~= v@.skip(1));
        command = trim_of(&rest);
    }
    if command.len() == 0 {
        push_says(&mut out, "error: empty command after '!'", C_ERROR);
        assert(step_views(out@) =~= seq![says("error: empty command after '!'"@, C_ERROR)]);
        (None, out)
    } else {
        push_echo(&mut out, text);
        assert(step_views(out@) =~= echo(text@));
        (Some(string_of(&command)), out)
    }
}

/// What a shell command printed: its output, and its errors behind it.
pub open spec fn shell_output(stdout: Seq<char>, stderr: Seq<char>) -> Seq<char> {
    trim(
        if stderr.len() == 0 {
            stdout
        } else if stdout.len() == 0 {
            stderr
        } else {
            stdout + "\n"@ + stderr
        },
    )
}

/// What a shell command does once it has run.
pub open spec fn shell_steps(
    text: Seq<char>,
    result: Seq<char>,
    success: bool,
    no_session: bool,
) -> Seq<StepView> {
    answer_lines(
        lines(result),
        if success {
            C_AGENT
        } else {
            C_ERROR
        },
    ) + seq![
        blank(),
        StepView::AddMessage(MessageRole::User, text),
        StepView::AddMessage(MessageRole::Assistant, result),
    ] + (if no_session {
        Seq::empty()
    } else {
        seq![StepView::Tell(Telling::AppendHistory, text)]
    })
}

/// Takes what a shell command printed.
pub fn shell_command_ran(
    text: &str,
    stdout: &str,
    stderr: &str,
    success: bool,
    no_session: bool,
) -> (r: Vec<Step>)
    ensures
        step_views(r@) == shell_steps(
            text@,
            shell_output(stdout@, stderr@),
            success,
            no_session,
        ),
{
    let all = if chars_of(stderr).len() == 0 {
        copy_text(stdout)
    } else if chars_of(stdout).len() == 0 {
        copy_text(stderr)
    } else {
        cat3(stdout, "\n", stderr)
    };
    let result = string_of(&trim_of(&chars_of(all.as_str())));
    let mut out: Vec<Step> = Vec::new();
    push_answer(
        &mut out,
        result.as_str(),
        if success {
            C_AGENT
        } else {
            C_ERROR
        },
    );
    push_blank(&mut out);
    push_step(&mut out, Step::AddMessage(MessageRole::User, copy_text(text)));
    push_step(&mut out, Step::AddMessage(MessageRole::Assistant, copy_text(result.as_str())));
    if !no_session {
        push_tell(&mut out, Telling::AppendHistory, text);
    }
    assert(step_views(out@) =~= shell_steps(text@, result@, success, no_session));
    out
}

// ---------------------------------------------------------------------------
// Prompts behind a dot
// ---------------------------------------------------------------------------

/// Position of the first white space at or after `from`; the length where there
/// is none.
pub open spec fn word_end(s: Seq<char>, from: int) -> int
    decreases s.len() - from,
{
    if from < 0 || from >= s.len() {
        s.len() as int
    } else if is_whitespace(s[from]) {
        from
    } else {
        word_end(s, from + 1)
    }
}

/// What a line with a prompt behind a dot asks for.
pub enum DotRequest {
    /// The list of prompts.
    List,
    /// A prompt for one message.
    Once { name: Seq<char>, message: Seq<char> },
    /// A prompt from now on.
    Switch { name: Seq<char> },
}

/// What a line with a prompt behind a dot asks for.
pub open spec fn dot_request(text: Seq<char>) -> DotRequest {
    let t = trim_start(text.skip(1));
    let end = word_end(t, 0);
    if t.len() == 0 {
        DotRequest::List
    } else if end < t.len() {
        DotRequest::Once { name: t.take(end), message: trim(t.skip(end + 1)) }
    } else {
        DotRequest::Switch { name: t }
    }
}

/// How an unknown prompt is answered.
pub open spec fn unknown_prompt(name: Seq<char>) -> StepView {
    says("error: unknown prompt '"@ + name + "'"@, C_ERROR)
}

/// What a line with a prompt behind a dot does.
pub open spec fn dot_steps(text: Seq<char>, ctx: ContextView, no_session: bool) -> Seq<StepView> {
    echo(text) + match dot_request(text) {
        DotRequest::List => seq![
            StepView::Tell(Telling::LoadInput, "."@),
            act(Action::StartDotPicker),
        ],
        DotRequest::Once { name, message: _ } => if known(ctx.prompts, name) {
            seq![StepView::Tell(Telling::ApplyPromptModel, name), act(Action::DropAgent)]
        } else {
            seq![unknown_prompt(name)]
        },
        DotRequest::Switch { name } => if known(ctx.prompts, name) {
            seq![
                StepView::Tell(Telling::ApplyPromptModel, name),
                act(Action::DropAgent),
                says("switched to prompt '"@ + name + "'"@, C_AGENT),
            ] + keeping(no_session)
        } else {
            seq![unknown_prompt(name)]
        },
    }
}

/// The prompt that a line puts in use.
pub open spec fn dot_name(text: Seq<char>) -> Option<Seq<char>> {
    match dot_request(text) {
        DotRequest::List => None,
        DotRequest::Once { name, message: _ } => Some(name),
        DotRequest::Switch { name } => Some(name),
    }
}

/// The message that is left to be acted on.
pub open spec fn dot_message(text: Seq<char>, ctx: ContextView) -> Option<Seq<char>> {
    match dot_request(text) {
        DotRequest::Once { name, message } => if known(ctx.prompts, name) {
            Some(message)
        } else {
            None
        },
        _ => None,
    }
}

/// The end of the first word.
fn end_of_word(v: &Vec<char>) -> (r: usize)
    ensures
        r == word_end(v@, 0),
        r <= v@.len(),
{
    let n: usize = v.len();
    for i in 0..n
        invariant
            n == v@.len(),
            word_end(v@, 0) == word_end(v@, i as int),
    {
        if whitespace(v[i]) {
            return i;
        }
    }
    n
}

/// What a line with a prompt behind a dot asks for.
#[derive(Debug, PartialEq)]
pub enum DotRead {
    List,
    Once { name: String, message: String },
    Switch { name: String },
}

/// Reads what a line with a prompt behind a dot asks for.
pub fn read_dot(text: &str) -> (r: DotRead)
    requires
        text@.len() > 0,
    ensures
        match r {
            DotRead::List => dot_request(text@) == DotRequest::List,
            DotRead::Once { name, message } => dot_request(text@) == (DotRequest::Once {
                name: name@,
                message: message@,
            }),
            DotRead::Switch { name } => dot_request(text@) == (DotRequest::Switch { name: name@ }),
        },
{
    let v = chars_of(text);
    let rest = slice_of(&v, 1, v.len());
    assert(rest@ =~= v@.skip(1));
    let t = trim_start_of(&rest);
    if t.len() == 0 {
        return DotRead::List;
    }
    let end = end_of_word(&t);
    if end < t.len() {
        let head = slice_of(&t, 0, end);
        assert(head@ =~= t@.take(end as int));
        let tail = slice_of(&t, end + 1, t.len());
        assert(tail@ =~= t@.skip(end + 1));
        DotRead::Once { name: string_of(&head), message: string_of(&trim_of(&tail)) }
    } else {
        DotRead::Switch { name: string_of(&t) }
    }
}

/// Appends that a prompt is unknown.
fn push_unknown(out: &mut Vec<Step>, name: &str)
    ensures
        step_views(final(out)@) == step_views(old(out)@).push(unknown_prompt(name@)),
{
    push_says(out, cat3("error: unknown prompt '", name, "'").as_str(), C_ERROR);
}

/// Takes a line with a prompt behind a dot. Returns the message that is left to
/// be acted on, where there is one: it is for the named prompt, and the one in
/// use before is to be restored afterwards.
pub fn handle_dot_command(
    text: &str,
    context: &mut ContextFiles,
    perm: &mut Option<PermState>,
    chain: &mut ChainState,
    no_session: bool,
) -> (r: (Option<String>, Vec<Step>))
    requires
        text@.len() > 0,
        text@[0] == '.',
        old(context).wf(),
    ensures
        final(context).wf(),
        opt_text(r.0) == dot_message(text@, old(context)@),
        step_views(r.1@) == dot_steps(text@, old(context)@, no_session),
        final(context)@ == match dot_name(text@) {
            Some(name) => old(context)@.using(name),
            None => old(context)@,
        },
        *final(perm) == match dot_name(text@) {
            Some(name) => prompt_applied(old(context)@, *old(perm), name).0,
            None => *old(perm),
        },
        final(chain)@ == (if dot_message(text@, old(context)@) is Some {
            ChainView {
                dot_prompt_restore: old(context)@.current_prompt_name,
                ..old(chain)@
            }
        } else {
            old(chain)@
        }),
{
    let ghost ctx = context@;
    let mut out: Vec<Step> = Vec::new();
    push_echo(&mut out, text);
    match read_dot(text) {
        DotRead::List => {
            push_tell(&mut out, Telling::LoadInput, ".");
            push_act(&mut out, Action::StartDotPicker);
        },
        DotRead::Once { name, message } => {
            if context.contains(name.as_str()) {
                chain.dot_prompt_restore = match &context.current_prompt_name {
                    Some(n) => Some(copy_text(n.as_str())),
                    None => None,
                };
                apply_prompt_mode(name.as_str(), context, perm);
                push_tell(&mut out, Telling::ApplyPromptModel, name.as_str());
                push_act(&mut out, Action::DropAgent);
                assert(step_views(out@) =~= dot_steps(text@, ctx, no_session));
                return (Some(message), out);
            }
            push_unknown(&mut out, name.as_str());
        },
        DotRead::Switch { name } => {
            if context.contains(name.as_str()) {
                apply_prompt_mode(name.as_str(), context, perm);
                push_tell(&mut out, Telling::ApplyPromptModel, name.as_str());
                push_act(&mut out, Action::DropAgent);
                push_says(
                    &mut out,
                    cat3("switched to prompt '", name.as_str(), "'").as_str(),
                    C_AGENT,
                );
                push_keeping(&mut out, no_session);
            } else {
                push_unknown(&mut out, name.as_str());
            }
        },
    }
    assert(step_views(out@) =~= dot_steps(text@, ctx, no_session));
    (None, out)
}

// ---------------------------------------------------------------------------
// What slash commands leave to be done
// ---------------------------------------------------------------------------

/// What a slash command leaves to be done.
#[derive(Debug, PartialEq)]
pub enum SlashRequest {
    /// Shorten the session.
    Compress(Option<String>),
    /// Log in to a tool server.
    McpLogin(String),
    /// Run the agent on a text.
    Init(String),
    /// Run the agent on a request for a review.
    Review(String),
    /// Edit a file.
    Editor(String),
    /// Report an error.
    Failed(String),
}

/// What a [`SlashRequest`] holds.
pub enum RequestView {
    Compress(Option<Seq<char>>),
    McpLogin(Seq<char>),
    Init(Seq<char>),
    Review(Seq<char>),
    Editor(Seq<char>),
    Failed(Seq<char>),
}

impl View for SlashRequest {
    type V = RequestView;

    open spec fn view(&self) -> RequestView {
        match *self {
            SlashRequest::Compress(i) => RequestView::Compress(opt_text(i)),
            SlashRequest::McpLogin(s) => RequestView::McpLogin(s@),
            SlashRequest::Init(s) => RequestView::Init(s@),
            SlashRequest::Review(s) => RequestView::Review(s@),
            SlashRequest::Editor(s) => RequestView::Editor(s@),
            SlashRequest::Failed(s) => RequestView::Failed(s@),
        }
    }
}

/// What is behind a prefix.
pub open spec fn behind(s: Seq<char>, prefix: Seq<char>) -> Seq<char> {
    s.skip(prefix.len() as int)
}

/// What the message that ends a slash command asks for. A command that leaves
/// something to be done ends in a message with the name of that as a prefix; a
/// login to a tool server is left by `/mcp` under `DEFER_MCP_LOGIN`.
pub open spec fn request_in(message: Seq<char>) -> RequestView {
    if starts_with(message, "DEFER_COMPRESS:"@) {
        let i = trim(behind(message, "DEFER_COMPRESS:"@));
        RequestView::Compress(
            if i.len() == 0 || i == "(none)"@ {
                None
            } else {
                Some(i)
            },
        )
    } else if starts_with(message, "DEFER_MCP_LOGIN:"@) {
        RequestView::McpLogin(trim(behind(message, "DEFER_MCP_LOGIN:"@)))
    } else if starts_with(message, "DEFER_INIT:"@) {
        RequestView::Init(behind(message, "DEFER_INIT:"@))
    } else if starts_with(message, "DEFER_REVIEW:"@) {
        RequestView::Review(behind(message, "DEFER_REVIEW:"@))
    } else if starts_with(message, "DEFER_EDITOR:"@) {
        RequestView::Editor(behind(message, "DEFER_EDITOR:"@))
    } else {
        RequestView::Failed(message)
    }
}

/// What is behind a prefix, where it is there.
pub fn strip(s: &str, prefix: &str) -> (r: Option<String>)
    ensures
        match r {
            Some(t) => starts_with(s@, prefix@) && t@ == behind(s@, prefix@),
            None => !starts_with(s@, prefix@),
        },
{
    if has_prefix(s, prefix) {
        let v = chars_of(s);
        let n: usize = chars_of(prefix).len();
        let t = slice_of(&v, n, v.len());
        assert(t@ =~= v@.skip(n as int));
        Some(string_of(&t))
    } else {
        None
    }
}

/// Reads what the message that ends a slash command asks for.
pub fn read_request(message: &str) -> (r: SlashRequest)
    ensures
        r@ == request_in(message@),
{
    if let Some(s) = strip(message, "DEFER_COMPRESS:") {
        let i = trim_of(&chars_of(s.as_str()));
        let text = string_of(&i);
        return SlashRequest::Compress(
            if i.len() == 0 || same_text(text.as_str(), "(none)") {
                None
            } else {
                Some(text)
            },
        );
    }
    if let Some(s) = strip(message, "DEFER_MCP_LOGIN:") {
        return SlashRequest::McpLogin(string_of(&trim_of(&chars_of(s.as_str()))));
    }
    if let Some(s) = strip(message, "DEFER_INIT:") {
        return SlashRequest::Init(s);
    }
    if let Some(s) = strip(message, "DEFER_REVIEW:") {
        return SlashRequest::Review(s);
    }
    if let Some(s) = strip(message, "DEFER_EDITOR:") {
        return SlashRequest::Editor(s);
    }
    SlashRequest::Failed(copy_text(message))
}

/// How a run is started that no input asked for.
pub open spec fn spawn_steps(prompt: Seq<char>) -> Seq<StepView> {
    seq![
        act(Action::EnsureAgent),
        StepView::Spawn(prompt, main_run()),
        act(Action::SignalStart),
    ]
}

/// Starts a run that no input asked for.
fn push_spawn(out: &mut Vec<Step>, prompt: &str, run: &mut RunState)
    ensures
        final(run)@ == (RunView { is_running: true, ..old(run)@ }),
        step_views(final(out)@) == step_views(old(out)@) + spawn_steps(prompt@),
{
    push_act(out, Action::EnsureAgent);
    push_step(out, Step::Spawn(copy_text(prompt), a_main_run()));
    run.is_running = true;
    push_act(out, Action::SignalStart);
    assert(step_views(out@) =~= step_views(old(out)@) + spawn_steps(prompt@));
}

/// Whether a request starts a run.
pub open spec fn spawns(req: RequestView) -> bool {
    req is Init || req is Review
}

/// What a request does. Whether a login can be started is `can_login`.
pub open spec fn request_steps(req: RequestView, can_login: bool) -> Seq<StepView> {
    match req {
        RequestView::Compress(instructions) => seq![
            StepView::Compress { instructions, auto: false, on_error: "compress error: "@ },
            act(Action::SaveSessionQuietly),
        ],
        RequestView::McpLogin(server) => if can_login {
            seq![
                says("starting OAuth login for '"@ + server + "'..."@, C_AGENT),
                StepView::Tell(Telling::BeginLogin, server),
            ]
        } else {
            seq![
                says(
                    "cannot start login for '"@ + server + "' (not an OAuth URL server)"@,
                    C_ERROR,
                ),
            ]
        },
        RequestView::Init(prompt) => spawn_steps(prompt),
        RequestView::Review(msg) => seq![StepView::AddMessage(MessageRole::User, msg)]
            + spawn_steps(msg),
        RequestView::Editor(path) => seq![
            act(Action::SuspendTerminal),
            StepView::Tell(Telling::EditFile, path),
            act(Action::ResumeTerminal),
            act(Action::RenderSession),
            says("returned from editing "@ + path, C_AGENT),
        ],
        RequestView::Failed(e) => seq![says("error: "@ + e, C_ERROR)],
    }
}

/// Does what a slash command left to be done. A review returns to the prompt
/// in use before it.
pub fn handle_slash_result(
    req: &SlashRequest,
    can_login: bool,
    run: &mut RunState,
    chain: &mut ChainState,
    context: &mut ContextFiles,
) -> (r: Vec<Step>)
    ensures
        final(run)@ == (RunView {
            is_running: old(run)@.is_running || spawns(req@),
            ..old(run)@
        }),
        final(chain)@ == (if req@ is Review {
            ChainView { dot_prompt_restore: old(context)@.one_shot_restore, ..old(chain)@ }
        } else {
            old(chain)@
        }),
        final(context)@ == (if req@ is Review {
            ContextView { one_shot_restore: None, ..old(context)@ }
        } else {
            old(context)@
        }),
        step_views(r@) == request_steps(req@, can_login),
{
    let mut out: Vec<Step> = Vec::new();
    match req {
        SlashRequest::Compress(i) => {
            let instructions = match i {
                Some(t) => Some(copy_text(t.as_str())),
                None => None,
            };
            push_step(
                &mut out,
                Step::Compress {
                    instructions,
                    auto: false,
                    on_error: copy_text("compress error: "),
                },
            );
            push_act(&mut out, Action::SaveSessionQuietly);
        },
        SlashRequest::McpLogin(server) => {
            if can_login {
                push_says(
                    &mut out,
                    cat3("starting OAuth login for '", server.as_str(), "'...").as_str(),
                    C_AGENT,
                );
                push_tell(&mut out, Telling::BeginLogin, server.as_str());
            } else {
                push_says(
                    &mut out,
                    cat3(
                        "cannot start login for '",
                        server.as_str(),
                        "' (not an OAuth URL server)",
                    ).as_str(),
                    C_ERROR,
                );
            }
        },
        SlashRequest::Init(prompt) => {
            push_spawn(&mut out, prompt.as_str(), run);
        },
        SlashRequest::Review(msg) => {
            chain.dot_prompt_restore = context.one_shot_restore.take();
            push_step(&mut out, Step::AddMessage(MessageRole::User, copy_text(msg.as_str())));
            push_spawn(&mut out, msg.as_str(), run);
        },
        SlashRequest::Editor(path) => {
            push_act(&mut out, Action::SuspendTerminal);
            push_tell(&mut out, Telling::EditFile, path.as_str());
            push_act(&mut out, Action::ResumeTerminal);
            push_act(&mut out, Action::RenderSession);
            push_says(&mut out, cat("returned from editing ", path.as_str()).as_str(), C_AGENT);
        },
        SlashRequest::Failed(e) => {
            push_says(&mut out, cat("error: ", e.as_str()).as_str(), C_ERROR);
        },
    }
    assert(step_views(out@) =~= request_steps(req@, can_login));
    out
}

/// Ends a slash command that has done all there was to do. The session is kept;
/// a loop that it set up begins with `prompt`.
pub fn slash_completed(
    run: &mut RunState,
    chain: &mut ChainState,
    no_session: bool,
    prompt: &str,
    label: &str,
) -> (r: Vec<Step>)
    ensures
        ({
            let due = loop_due(old(chain)@, old(run)@);
            &&& final(run)@ == (RunView { is_running: old(run)@.is_running || due, ..old(run)@ })
            &&& final(chain)@ == (if due {
                ChainView {
                    loop_state: Some(LoopView { iteration: 1, ..old(chain)@.loop_state->0 }),
                    loop_label: Some(label@),
                    ..old(chain)@
                }
            } else {
                old(chain)@
            })
            &&& step_views(r@) == keeping(no_session) + (if due {
                seq![
                    act(Action::EnsureAgent),
                    StepView::Spawn(
                        prompt@,
                        (RunKind { fresh: true, abortable: true, iteration: Some(1usize) }),
                    ),
                ]
            } else {
                Seq::empty()
            })
        }),
{
    let ghost due = loop_due(chain@, run@);
    let mut out: Vec<Step> = Vec::new();
    push_keeping(&mut out, no_session);
    if is_loop_due(chain, run) {
        let rest = begin_loop(chain, run, prompt, label);
        push_all(&mut out, rest);
    }
    assert(step_views(out@) =~= keeping(no_session) + (if due {
        seq![
            act(Action::EnsureAgent),
            StepView::Spawn(
                prompt@,
                (RunKind { fresh: true, abortable: true, iteration: Some(1usize) }),
            ),
        ]
    } else {
        Seq::empty()
    }));
    out
}

/// Ends every slash command, once all that it left to be done is under way: the
/// session is kept.
pub fn slash_ended(no_session: bool) -> (r: Vec<Step>)
    ensures
        step_views(r@) == keeping(no_session),
{
    let mut out: Vec<Step> = Vec::new();
    push_keeping(&mut out, no_session);
    assert(step_views(out@) =~= keeping(no_session));
    out
}

/// The worktree that a merge leaves.
pub open spec fn worktree_of(m: MergeView) -> WorktreeView {
    WorktreeView { main_path: m.main_path, wt_path: m.wt_path, branch: m.branch, force: m.force }
}

/// Lets the agent merge a worktree, which is left afterwards.
pub fn spawn_merge_agent(m: &MergeRequest, run: &mut RunState, chain: &mut ChainState) -> (r: Vec<
    Step,
>)
    ensures
        final(run)@ == (RunView { is_running: true, ..old(run)@ }),
        final(chain)@ == (ChainView { wt_return: Some(worktree_of(m@)), ..old(chain)@ }),
        step_views(r@) == seq![
            StepView::AddMessage(MessageRole::User, merge_prompt_text(m@)),
        ] + spawn_steps(merge_prompt_text(m@)),
{
    let prompt = merge_prompt(m);
    let mut out: Vec<Step> = Vec::new();
    push_step(&mut out, Step::AddMessage(MessageRole::User, copy_text(prompt.as_str())));
    push_spawn(&mut out, prompt.as_str(), run);
    chain.wt_return = Some(
        Worktree {
            main_path: copy_text(m.main_path.as_str()),
            wt_path: copy_text(m.wt_path.as_str()),
            branch: copy_text(m.branch.as_str()),
            force: m.force,
        },
    );
    assert(step_views(out@) =~= seq![
        StepView::AddMessage(MessageRole::User, merge_prompt_text(m@)),
    ] + spawn_steps(merge_prompt_text(m@)));
    out
}

/// Works in the main repository again, the directory having been changed.
pub fn exit_worktree(main_path: &str) -> (r: Vec<Step>)
    ensures
        step_views(r@) == seq![
            StepView::Tell(Telling::WorkIn, main_path@),
            act(Action::ReloadContext),
            act(Action::EnsureMcp),
            act(Action::RebuildAgent),
            act(Action::RenderSession),
            says("returned to main repo at "@ + main_path@, C_AGENT),
        ],
{
    let mut out: Vec<Step> = Vec::new();
    push_tell(&mut out, Telling::WorkIn, main_path);
    push_act(&mut out, Action::ReloadContext);
    push_act(&mut out, Action::EnsureMcp);
    push_act(&mut out, Action::RebuildAgent);
    push_act(&mut out, Action::RenderSession);
    push_says(&mut out, cat("returned to main repo at ", main_path).as_str(), C_AGENT);
    assert(step_views(out@) =~= seq![
        StepView::Tell(Telling::WorkIn, main_path@),
        act(Action::ReloadContext),
        act(Action::EnsureMcp),
        act(Action::RebuildAgent),
        act(Action::RenderSession),
        says("returned to main repo at "@ + main_path@, C_AGENT),
    ]);
    out
}

// ---------------------------------------------------------------------------
// Logins
// ---------------------------------------------------------------------------

/// A login that has begun: the user is to open `url`.
pub fn login_begun(url: &str, port: u16) -> (r: Vec<Step>)
    ensures
        step_views(r@) == seq![
            StepView::Tell(Telling::Copy, url@),
            says("open this URL to authorize (copied to clipboard):"@, C_AGENT),
            says(url@, Color::Cyan),
            says(
                "waiting for authorization on 127.0.0.1:"@ + decimal(port as nat)
                    + " in the background..."@,
                Color::DarkGrey,
            ),
        ],
{
    let mut out: Vec<Step> = Vec::new();
    push_tell(&mut out, Telling::Copy, url);
    push_says(&mut out, "open this URL to authorize (copied to clipboard):", C_AGENT);
    push_says(&mut out, url, Color::Cyan);
    let line = cat3(
        "waiting for authorization on 127.0.0.1:",
        decimal_of(port as u64).as_str(),
        " in the background...",
    );
    push_says(&mut out, line.as_str(), Color::DarkGrey);
    assert(step_views(out@) =~= seq![
        StepView::Tell(Telling::Copy, url@),
        says("open this URL to authorize (copied to clipboard):"@, C_AGENT),
        says(url@, Color::Cyan),
        says(
            "waiting for authorization on 127.0.0.1:"@ + decimal(port as nat)
                + " in the background..."@,
            Color::DarkGrey,
        ),
    ]);
    out
}

/// A login that could not begin.
pub fn login_not_begun(server: &str, error: &str) -> (r: Step)
    ensures
        r@ == says("login setup failed for '"@ + server@ + "': "@ + error@, C_ERROR),
{
    let mut line = cat3("login setup failed for '", server, "': ");
    line.push_str(error);
    Step::WriteLine(line, C_ERROR)
}

/// What came of a login.
pub enum LoginEnd {
    /// It failed.
    Failed(String),
    /// It succeeded, and the server is connected.
    Connected,
    /// It succeeded, and the server is not connected.
    NotConnected(String),
    /// It succeeded, and the server is connected on the next start.
    Later,
}

/// What the end of a login does.
pub open spec fn login_steps(server: Seq<char>, end: LoginEnd) -> Seq<StepView> {
    match end {
        LoginEnd::Failed(e) => seq![says("login failed for '"@ + server + "': "@ + e@, C_ERROR)],
        LoginEnd::Connected => seq![
            act(Action::RebuildAgent),
            says("authorized and connected '"@ + server + "'"@, C_AGENT),
        ],
        LoginEnd::NotConnected(e) => seq![
            says("authorized '"@ + server + "' but reconnect failed: "@ + e@, C_ERROR),
        ],
        LoginEnd::Later => seq![
            says("authorized '"@ + server + "' (will connect on next start)"@, C_AGENT),
        ],
    }
}

/// Takes what came of a login.
pub fn handle_mcp_login_done(server: &str, end: &LoginEnd) -> (r: Vec<Step>)
    ensures
        step_views(r@) == login_steps(server@, *end),
{
    let mut out: Vec<Step> = Vec::new();
    match end {
        LoginEnd::Failed(e) => {
            let mut line = cat3("login failed for '", server, "': ");
            line.push_str(e.as_str());
            push_says(&mut out, line.as_str(), C_ERROR);
        },
        LoginEnd::Connected => {
            push_act(&mut out, Action::RebuildAgent);
            push_says(
                &mut out,
                cat3("authorized and connected '", server, "'").as_str(),
                C_AGENT,
            );
        },
        LoginEnd::NotConnected(e) => {
            let mut line = cat3("authorized '", server, "' but reconnect failed: ");
            line.push_str(e.as_str());
            push_says(&mut out, line.as_str(), C_ERROR);
        },
        LoginEnd::Later => {
            push_says(
                &mut out,
                cat3("authorized '", server, "' (will connect on next start)").as_str(),
                C_AGENT,
            );
        },
    }
    assert(step_views(out@) =~= login_steps(server@, *end));
    out
}

// ---------------------------------------------------------------------------
// Smaller matters
// ---------------------------------------------------------------------------

/// The warning that the session could not be kept.
pub fn save_failed(error: &str) -> (r: Step)
    ensures
        r@ == says("warning: failed to save session: "@ + error@, C_ERROR),
{
    Step::WriteLine(cat("warning: failed to save session: ", error), C_ERROR)
}

/// Runs lazygit, where it is installed.
pub fn run_lazygit(installed: bool) -> (r: Vec<Step>)
    ensures
        step_views(r@) == if installed {
            seq![
                act(Action::StopInput),
                act(Action::SuspendTerminal),
                act(Action::RunLazygit),
                act(Action::ResumeTerminal),
                act(Action::RebindInput),
            ]
        } else {
            seq![
                says(
                    "warning: lazygit not found \u{2014} install it (https://github.com/jesseduffield/lazygit)"@,
                    C_ERROR,
                ),
            ]
        },
{
    let mut out: Vec<Step> = Vec::new();
    if installed {
        push_act(&mut out, Action::StopInput);
        push_act(&mut out, Action::SuspendTerminal);
        push_act(&mut out, Action::RunLazygit);
        push_act(&mut out, Action::ResumeTerminal);
        push_act(&mut out, Action::RebindInput);
        assert(step_views(out@) =~= seq![
            act(Action::StopInput),
            act(Action::SuspendTerminal),
            act(Action::RunLazygit),
            act(Action::ResumeTerminal),
            act(Action::RebindInput),
        ]);
    } else {
        push_says(
            &mut out,
            "warning: lazygit not found \u{2014} install it (https://github.com/jesseduffield/lazygit)",
            C_ERROR,
        );
        assert(step_views(out@) =~= seq![
            says(
                "warning: lazygit not found \u{2014} install it (https://github.com/jesseduffield/lazygit)"@,
                C_ERROR,
            ),
        ]);
    }
    out
}

/// What taking the conversation back before message `idx` does.
pub open spec fn rewind_steps(s: SessionView, idx: usize, no_session: bool) -> Seq<StepView> {
    if idx < s.messages.len() {
        seq![StepView::Tell(Telling::LoadInput, s.messages[idx as int].content)] + (
        if no_session {
            Seq::empty()
        } else {
            seq![act(Action::SaveSessionQuietly)]
        }) + seq![
            act(Action::RenderSession),
            says("rewound; /redo to restore"@, Color::Green),
        ]
    } else {
        Seq::empty()
    }
}

/// Takes the conversation back before a message, which can be edited and sent
/// again.
pub fn confirm_rewind(session: &mut Session, idx: usize, no_session: bool) -> (r: Vec<Step>)
    ensures
        final(session)@ == if idx < old(session)@.messages.len() {
            old(session)@.rewound(idx as int)
        } else {
            old(session)@
        },
        step_views(r@) == rewind_steps(old(session)@, idx, no_session),
{
    let ghost s = session@;
    let mut out: Vec<Step> = Vec::new();
    assert(s.messages.len() == session.messages@.len());
    if idx < session.messages.len() {
        assert(s.messages[idx as int] == session.messages@[idx as int]@);
        push_tell(&mut out, Telling::LoadInput, session.messages[idx].content.as_str());
        session.rewind_to(idx);
        if !no_session {
            push_act(&mut out, Action::SaveSessionQuietly);
        }
        push_act(&mut out, Action::RenderSession);
        push_says(&mut out, "rewound; /redo to restore", Color::Green);
    }
    assert(step_views(out@) =~= rewind_steps(s, idx, no_session));
    out
}

/// Rewinding puts the message that the conversation is cut off before back into the
/// input line, so that nothing the user wrote has to be written again.
pub proof fn lemma_rewind_gives_back(s: SessionView, idx: usize, no_session: bool)
    requires
        idx < s.messages.len(),
    ensures
        ({
            let steps = rewind_steps(s, idx, no_session);
            let after = s.rewound(idx as int);
            &&& steps.len() > 0
            &&& after.undone.len() > 0
            &&& steps[0] == StepView::Tell(Telling::LoadInput, after.undone[0].content)
            &&& !no_session ==> steps.contains(act(Action::SaveSessionQuietly))
            &&& steps.contains(act(Action::RenderSession))
        }),
{
    let steps = rewind_steps(s, idx, no_session);
    if no_session {
        assert(steps[1] == act(Action::RenderSession));
    } else {
        assert(steps[1] == act(Action::SaveSessionQuietly));
        assert(steps[2] == act(Action::RenderSession));
    }
}

} // verus!
