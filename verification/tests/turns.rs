//! Events of a running agent and the end of a turn.

use zerostack_ui::color::{Color, C_AGENT, C_ERROR, C_TOOL};
use zerostack_ui::draw::TermSize;
use zerostack_ui::events::ToolDetails;
use zerostack_ui::feed::BlockStyle;
use zerostack_ui::flow::{
    abort_main_run, answer_chain, begin_loop, cancel_but, context_exhausted_report, continue_loop,
    decide_relief, end_iteration, finalize_turn, is_loop_due, leave_worktree,
    mid_turn_compact_and_respawn, note_iteration, reply_to_chain, start_main_run, stop_turn_context_exhausted, trace_event,
    validation_text, worktree_left, ChainAnswer, ChainState, Exhaustion, LoopState,
    PressureSettings, Relief, Tail, TURN_TRACE_MAX,
};
use zerostack_ui::prompts::{
    ChainPhase, ChainRule, ContextFiles, NamedPrompt, PermState, PromptText, SecurityMode,
};
use zerostack_ui::renderer::Renderer;
use zerostack_ui::session::MessageRole;
use zerostack_ui::steps::{
    take_step, Action, Iteration, RunKind, Step, Telling, ToolNote, TurnUsage, Worktree,
};
use zerostack_ui::turn::{
    add_usage, handle_agent_event, raise_estimate, settle, AgentEvent, EventSettings, FeedEnd,
    RunState, Task, TokenTotals,
};
use zerostack_ui::width::CharWidths;

fn says(text: &str, color: Color) -> Step {
    Step::WriteLine(text.to_string(), color)
}

fn blank() -> Step {
    says("", Color::White)
}

fn tell(k: Telling, text: &str) -> Step {
    Step::Tell(k, text.to_string())
}

fn settings() -> EventSettings {
    EventSettings { show_reasoning: true, details: None, no_session: false }
}

fn usage(input: u64, output: u64) -> TurnUsage {
    TurnUsage {
        input_tokens: input,
        output_tokens: output,
        cached_input_tokens: 0,
        cache_creation_input_tokens: 0,
    }
}

const EMPTY_FEED: FeedEnd = FeedEnd { blocks: 0, partial: false };

fn main_run() -> RunKind {
    RunKind { fresh: false, abortable: true, iteration: None }
}

fn prompt(name: &str, raw: &str, directive: Option<&str>, mode: Option<SecurityMode>) -> NamedPrompt {
    NamedPrompt {
        name: name.to_string(),
        text: PromptText {
            raw: raw.to_string(),
            directive: directive.map(|d| d.to_string()),
            mode,
            clean: "clean".to_string(),
        },
    }
}

fn context() -> ContextFiles {
    ContextFiles {
        prompts: vec![
            prompt("plan", "plan it", None, None),
            prompt("code", "%%mode=yolo\nclean", Some("yolo"), Some(SecurityMode::Yolo)),
        ],
        current_prompt: Some("plan it".to_string()),
        current_prompt_name: Some("plan".to_string()),
        chain_declined: vec![],
        one_shot_restore: None,
    }
}

fn phase() -> ChainPhase {
    ChainPhase {
        label: "code it?".to_string(),
        next_prompt: "code".to_string(),
        message: "go\non".to_string(),
    }
}

fn rules() -> Vec<ChainRule> {
    vec![ChainRule { prompt: "plan".to_string(), phase: phase() }]
}

fn standard() -> Option<PermState> {
    Some(PermState { user_mode: SecurityMode::Standard, mode: SecurityMode::Standard })
}

#[test]
fn tokens_are_appended_to_one_block() {
    let mut run = RunState::idle();
    let feed = FeedEnd { blocks: 3, partial: false };
    let first =
        handle_agent_event(&AgentEvent::Token("he".to_string()), &mut run, settings(), feed);
    assert_eq!(
        first,
        vec![
            Step::Act(Action::StartBlock),
            tell(Telling::Append, "he"),
            Step::Act(Action::Render)
        ]
    );
    assert_eq!(run.response_start_block, Some(3));
    let feed = FeedEnd { blocks: 4, partial: false };
    let more =
        handle_agent_event(&AgentEvent::Token("y\u{7}".to_string()), &mut run, settings(), feed);
    assert_eq!(more, vec![tell(Telling::Append, "y"), Step::Act(Action::Render)]);
    assert_eq!(run.response_buf, "hey");
    assert!(run.agent_line_started);
}

#[test]
fn long_answers_are_painted_by_line() {
    let mut run = RunState::idle();
    let long = "x".repeat(200);
    let steps = handle_agent_event(&AgentEvent::Token(long), &mut run, settings(), EMPTY_FEED);
    assert!(!steps.contains(&Step::Act(Action::Render)));
    assert!(!run.agent_line_started);
    let steps = handle_agent_event(
        &AgentEvent::Token("\n".to_string()),
        &mut run,
        settings(),
        FeedEnd { blocks: 1, partial: false },
    );
    assert!(steps.contains(&Step::Act(Action::Render)));
}

#[test]
fn reasoning_is_shown_and_ended() {
    let mut run = RunState::idle();
    let ev = AgentEvent::Reasoning("hm".to_string());
    let hidden = EventSettings { show_reasoning: false, ..settings() };
    assert_eq!(handle_agent_event(&ev, &mut run, hidden, EMPTY_FEED), vec![]);
    assert!(!run.was_reasoning);
    assert_eq!(
        handle_agent_event(&ev, &mut run, settings(), EMPTY_FEED),
        vec![
            Step::Write("< ".to_string(), Color::DarkMagenta),
            Step::Write("hm".to_string(), Color::DarkMagenta)
        ]
    );
    // The line being written becomes a block of its own, the blank one another.
    let steps = handle_agent_event(
        &AgentEvent::Token("a".to_string()),
        &mut run,
        settings(),
        FeedEnd { blocks: 0, partial: true },
    );
    assert_eq!(steps[0], blank());
    assert_eq!(run.response_start_block, Some(2));
    assert!(!run.was_reasoning);
}

#[test]
fn an_answer_stands_in_the_feed_as_it_came() {
    let size = TermSize { cols: 40, rows: 12 };
    let mut r = Renderer::new(CharWidths::narrow());
    let mut run = RunState::idle();
    for t in ["**b", "old**", "\nend"] {
        let feed = FeedEnd {
            blocks: r.feed().block_count(),
            partial: !r.partial.text().is_empty(),
        };
        let steps =
            handle_agent_event(&AgentEvent::Token(t.to_string()), &mut run, settings(), feed);
        for s in &steps {
            take_step(&mut r, s, size);
        }
    }
    let feed = FeedEnd { blocks: r.feed().block_count(), partial: false };
    let done = AgentEvent::Done { response: "ignored".to_string(), usage: usage(1, 2) };
    for s in &handle_agent_event(&done, &mut run, settings(), feed) {
        take_step(&mut r, s, size);
    }
    let lines = r.feed_mut().lines(40);
    assert_eq!(lines[0].as_str(), "< bold");
    assert!(lines.iter().any(|l| l.as_str().contains("end")));
    assert_eq!(run.response_buf, "");
}

#[test]
fn tool_calls_end_the_answer() {
    let mut run = RunState::idle();
    run.agent_line_started = true;
    run.response_buf = "half".to_string();
    run.response_start_block = Some(0);
    let ev = AgentEvent::ToolCall {
        name: "bash".to_string(),
        args: "{}".to_string(),
        summary: "bash ls".to_string(),
    };
    assert_eq!(
        handle_agent_event(&ev, &mut run, settings(), EMPTY_FEED),
        vec![
            blank(),
            Step::NoteTool(ToolNote::Call, "bash".to_string(), "{}".to_string()),
            Step::Act(Action::SaveSession),
            says("\u{25c8} bash ls", C_TOOL)
        ]
    );
    assert_eq!(run.response_buf, "");
    let sub = AgentEvent::SubagentToolCall {
        name: "grep".to_string(),
        args: "{}".to_string(),
        summary: "grep x".to_string(),
    };
    let quiet = EventSettings { no_session: true, ..settings() };
    assert_eq!(
        handle_agent_event(&sub, &mut run, quiet, EMPTY_FEED),
        vec![
            Step::NoteTool(ToolNote::SubagentCall, "grep".to_string(), "{}".to_string()),
            says("\u{2325} grep x", C_TOOL)
        ]
    );
}

fn result(name: &str, output: &str, tasks: Vec<Task>) -> AgentEvent {
    AgentEvent::ToolResult {
        name: name.to_string(),
        output: output.to_string(),
        digest: String::new(),
        tasks,
    }
}

fn last_of(ev: &AgentEvent, details: Option<ToolDetails>) -> Step {
    let mut run = RunState::idle();
    let s = EventSettings { details, ..settings() };
    handle_agent_event(ev, &mut run, s, EMPTY_FEED).pop().unwrap()
}

#[test]
fn tool_results_are_shortened() {
    let ev = result("bash", "1\n2\n3\n4", vec![]);
    assert_eq!(
        last_of(&ev, None),
        says("\u{25c8} result (7 chars, 4 lines, showing 3):\n1\n2\n3", Color::DarkGrey)
    );
    assert_eq!(
        last_of(&ev, Some(ToolDetails::Limited(4))),
        says("\u{25c8} result (7 chars):\n1\n2\n3\n4", Color::DarkGrey)
    );
    assert_eq!(
        last_of(&ev, Some(ToolDetails::Unlimited)),
        says("\u{25c8} result (7 chars):\n1\n2\n3\n4", Color::DarkGrey)
    );
    assert_eq!(last_of(&ev, Some(ToolDetails::Off)), Step::Act(Action::SaveSession));
}

fn task(status: &str, priority: &str, content: &str) -> Task {
    Task {
        status: status.to_string(),
        priority: priority.to_string(),
        content: content.to_string(),
    }
}

#[test]
fn tasks_are_listed() {
    let ev = result(
        "todo_write",
        "",
        vec![
            task("completed", "high", "a"),
            task("in_progress", "medium", "b"),
            task("cancelled", "low", "c"),
            task("pending", "", "d"),
        ],
    );
    let mut run = RunState::idle();
    let steps = handle_agent_event(&ev, &mut run, settings(), EMPTY_FEED);
    assert_eq!(
        steps[2..],
        [
            says("tasks  1 done / 4 total", C_TOOL),
            says("  [x] !! a", Color::Green),
            says("  [>] !  b", C_TOOL),
            says("  [-]    c", Color::DarkGrey),
            says("  [ ]    d", Color::DarkGrey)
        ]
    );
    assert_eq!(
        last_of(&result("todo_write", "x", vec![]), None),
        says("tasks cleared", Color::DarkGrey)
    );
}

#[test]
fn retries_and_errors_are_told() {
    let mut run = RunState::idle();
    run.is_running = true;
    let ev = AgentEvent::Retrying { attempt: 2, max: 5 };
    assert_eq!(
        handle_agent_event(&ev, &mut run, settings(), EMPTY_FEED),
        vec![says("retrying... (2/5)", Color::Yellow)]
    );
    let ev = AgentEvent::Error("bad\u{1b}[31m".to_string());
    assert_eq!(
        handle_agent_event(&ev, &mut run, settings(), EMPTY_FEED),
        vec![
            says("error: bad", C_ERROR),
            Step::Act(Action::SignalStop),
            Step::Act(Action::DropReceiver),
            Step::Act(Action::SaveSession)
        ]
    );
    assert!(!run.is_running);
}

#[test]
fn a_finished_turn_is_recorded() {
    let mut run = RunState::idle();
    let ev = AgentEvent::Done { response: "ok".to_string(), usage: usage(3, 4) };
    assert_eq!(
        handle_agent_event(&ev, &mut run, settings(), EMPTY_FEED),
        vec![
            Step::Block(BlockStyle::Agent, "< ".to_string()),
            blank(),
            blank(),
            Step::AddMessage(MessageRole::Assistant, "ok".to_string()),
            Step::AddUsage(usage(3, 4)),
            Step::Calibrate(usage(3, 4))
        ]
    );
    run.is_running = true;
    let steps = settle(&mut run, false, true, true, false);
    assert_eq!(
        steps,
        vec![
            Step::Compress {
                instructions: None,
                auto: true,
                on_error: "auto-compact error: ".to_string()
            },
            Step::Act(Action::SaveSession),
            Step::Act(Action::SignalStop),
            Step::Act(Action::DropReceiver)
        ]
    );
    assert!(!run.is_running);
    assert_eq!(settle(&mut run, true, true, true, true).len(), 2);
}

#[test]
fn usage_saturates() {
    let mut t = TokenTotals { estimated: 10, input: u64::MAX - 1, output: 0, cost: 4 };
    add_usage(&mut t, usage(5, 6));
    assert_eq!(t, TokenTotals { estimated: 10, input: u64::MAX, output: 6, cost: 4 });
    raise_estimate(&mut t, 4, 5);
    assert_eq!(t.estimated, 10);
    raise_estimate(&mut t, 8, 5);
    assert_eq!(t.estimated, 13);
    raise_estimate(&mut t, u64::MAX, 5);
    assert_eq!(t.estimated, u64::MAX);
}

#[test]
fn a_run_is_started_once() {
    let mut run = RunState::idle();
    let steps = start_main_run("hi", &mut run, false);
    assert_eq!(
        steps,
        vec![
            Step::Act(Action::ResolvePrebuild),
            Step::Act(Action::EnsureAgent),
            Step::Spawn("hi".to_string(), main_run()),
            Step::Act(Action::SignalStart),
            Step::AddMessage(MessageRole::User, "hi".to_string()),
            Step::Act(Action::PublishMessages),
            tell(Telling::AppendHistory, "hi")
        ]
    );
    assert!(run.is_running);
    assert_eq!(run.pending_send, Some("hi".to_string()));
}

#[test]
fn the_trace_of_a_turn_is_bounded() {
    let mut run = RunState::idle();
    let call = AgentEvent::ToolCall {
        name: String::new(),
        args: String::new(),
        summary: "ls".to_string(),
    };
    for _ in 0..TURN_TRACE_MAX + 3 {
        trace_event(&mut run, &call);
    }
    assert_eq!(run.turn_trace.len(), TURN_TRACE_MAX);
    assert_eq!(run.turn_trace[0], "\u{2192} ls");
    trace_event(&mut run, &AgentEvent::Error(String::new()));
    assert_eq!(run.turn_trace.len(), 0);
}

fn pressure(over: bool) -> PressureSettings {
    PressureSettings {
        loop_running: false,
        no_session: false,
        compact_enabled: true,
        context_window: 100,
        over_threshold: Some(over),
    }
}

#[test]
fn a_full_context_is_relieved_once() {
    let mut run = RunState::idle();
    run.is_running = true;
    let ev = AgentEvent::CompletionCall(usage(1, 1));
    assert_eq!(decide_relief(&mut run, &ev, pressure(true)), Relief::Compact);
    assert!(run.awaiting_compaction_relief);
    assert_eq!(decide_relief(&mut run, &ev, pressure(true)), Relief::Stop);
    assert!(!run.awaiting_compaction_relief);
    assert_eq!(decide_relief(&mut run, &ev, pressure(true)), Relief::Compact);
    assert_eq!(decide_relief(&mut run, &ev, pressure(false)), Relief::Proceed);
    assert!(!run.awaiting_compaction_relief);
    let unwatched = PressureSettings { context_window: 0, ..pressure(true) };
    assert_eq!(decide_relief(&mut run, &ev, unwatched), Relief::Proceed);
}

#[test]
fn relief_keeps_what_was_done() {
    let mut run = RunState::idle();
    run.is_running = true;
    run.response_buf = " half \n".to_string();
    run.turn_trace = vec!["\u{2192} ls".to_string(), "\u{2190} ok".to_string()];
    let steps = mid_turn_compact_and_respawn(&mut run, 83);
    assert_eq!(steps[0], Step::Act(Action::AbortRun));
    assert_eq!(
        steps[2],
        Step::AddMessage(
            MessageRole::Assistant,
            "half\n\n[Progress this turn before context compaction]\n\u{2192} ls\n\u{2190} ok"
                .to_string()
        )
    );
    assert_eq!(
        steps[3],
        says("mid-turn context relief, restarting (at 83%)...", Color::DarkGrey)
    );
    assert!(run.is_running);
    assert_eq!(run.turn_trace.len(), 0);
    let mut bare = RunState::idle();
    let steps = mid_turn_compact_and_respawn(&mut bare, 1);
    assert!(!steps.iter().any(|s| matches!(s, Step::AddMessage(..))));
}

#[test]
fn an_exhausted_context_is_explained() {
    let x = Exhaustion {
        prompt_tokens: 900,
        ceiling: 800,
        threshold: 80,
        pressure: 90,
        window: 1000,
        reserve: 50,
        keep_recent: 60,
    };
    let r = context_exhausted_report(&x);
    assert_eq!(r.len(), 12);
    assert_eq!(r[0], "  context window .............. 1000 tokens");
    assert_eq!(r[1], "  mid-turn ceiling ............ 800 tokens  (80% of window)");
    assert_eq!(r[2], "  prompt after compaction ..... 900 tokens  (90% of window)");
    assert_eq!(r[3], "  overflow above ceiling ...... 100 tokens");
    assert!(r[7].starts_with("This model and context-window combination is too small"));
    assert!(r[9].ends_with("must still hold 900+ tokens);"));
    let under = Exhaustion { prompt_tokens: 700, ..x };
    assert_eq!(
        context_exhausted_report(&under)[3],
        "  overflow above ceiling ...... 0 tokens"
    );
    let mut run = RunState::idle();
    run.is_running = true;
    let steps = stop_turn_context_exhausted(&mut run, &under);
    assert!(!run.is_running);
    assert_eq!(steps.len(), 18);
    assert_eq!(steps[3], says("error: not enough context to continue this turn.", C_ERROR));
}

#[test]
fn an_accepted_offer_runs_the_next_prompt() {
    let mut chain = ChainState::empty();
    chain.pending = Some(phase());
    chain.label_msg = Some("code it?".to_string());
    let mut run = RunState::idle();
    let mut ctx = context();
    let mut perm = standard();
    let steps =
        answer_chain(ChainAnswer::Yes, &mut chain, &mut run, &mut ctx, &mut perm, true);
    assert_eq!(
        steps[..7],
        [
            Step::Act(Action::HideChainPrompt),
            tell(Telling::ApplyPromptModel, "code"),
            says("> go", Color::Green),
            says("> on", Color::Green),
            blank(),
            Step::AddMessage(MessageRole::User, "go\non".to_string()),
            Step::Act(Action::DropAgent)
        ]
    );
    assert!(run.is_running);
    assert!(chain.pending.is_none());
    assert_eq!(ctx.current_prompt_name, Some("code".to_string()));
    assert_eq!(ctx.current_prompt, Some("clean".to_string()));
    assert_eq!(perm.unwrap().mode, SecurityMode::Yolo);
}

#[test]
fn a_declined_offer_is_not_made_again() {
    let mut chain = ChainState::empty();
    chain.pending = Some(phase());
    let mut run = RunState::idle();
    let mut ctx = context();
    let mut perm = standard();
    let steps = answer_chain(ChainAnswer::No, &mut chain, &mut run, &mut ctx, &mut perm, true);
    assert_eq!(
        steps[1],
        says("chain declined \u{2014} won't ask again this session", C_AGENT)
    );
    assert_eq!(ctx.chain_declined, vec!["plan"]);
    let tail = Tail { len: 0, from_user: false };
    finalize_turn(false, tail, &mut run, &mut chain, &mut ctx, &mut perm, &rules(), true);
    assert!(chain.pending.is_none());
    answer_chain(ChainAnswer::No, &mut chain, &mut run, &mut ctx, &mut perm, true);
    assert_eq!(ctx.chain_declined, vec!["plan"]);
}

#[test]
fn an_offer_can_be_declined_during_a_run() {
    let mut chain = ChainState::empty();
    chain.pending = Some(phase());
    let mut run = RunState::idle();
    run.is_running = true;
    let mut ctx = context();
    let mut perm = standard();
    answer_chain(ChainAnswer::No, &mut chain, &mut run, &mut ctx, &mut perm, true);
    assert!(run.is_running && chain.pending.is_none());
    // With nothing offered, a yes starts nothing.
    assert_eq!(
        answer_chain(ChainAnswer::Yes, &mut chain, &mut run, &mut ctx, &mut perm, true),
        vec![Step::Act(Action::HideChainPrompt)]
    );
}

#[test]
fn an_offer_with_a_proviso() {
    let mut chain = ChainState::empty();
    chain.pending = Some(phase());
    let mut run = RunState::idle();
    let mut ctx = context();
    let mut perm = standard();
    assert_eq!(
        answer_chain(ChainAnswer::But, &mut chain, &mut run, &mut ctx, &mut perm, true),
        vec![
            Step::Act(Action::ButModeOn),
            Step::Act(Action::HideChainPrompt),
            Step::Act(Action::ClearInput)
        ]
    );
    assert_eq!(chain.label_msg, Some("code it?".to_string()));
    // Taken back, the question stands again.
    let steps = cancel_but(&mut chain);
    assert!(steps.contains(&tell(Telling::ShowChainPrompt, "code it?")));
    // An empty reply asks again.
    let steps = reply_to_chain("  ", &mut chain, &mut run, &mut ctx, &mut perm, true);
    assert_eq!(
        steps,
        vec![Step::Act(Action::ButModeOff), tell(Telling::ShowChainPrompt, "code it?")]
    );
    assert!(chain.pending.is_some());
    let steps = reply_to_chain(" but fast ", &mut chain, &mut run, &mut ctx, &mut perm, true);
    assert!(steps.contains(&Step::AddMessage(
        MessageRole::User,
        "go\non\n\nAdditional instructions: but fast".to_string()
    )));
    assert!(chain.pending.is_none());
}

#[test]
fn a_finished_turn_offers_the_next_phase() {
    let mut chain = ChainState::empty();
    let mut run = RunState::idle();
    run.pending_send = Some("x".to_string());
    let mut ctx = context();
    let mut perm = standard();
    let tail = Tail { len: 2, from_user: false };
    let steps =
        finalize_turn(false, tail, &mut run, &mut chain, &mut ctx, &mut perm, &rules(), true);
    assert_eq!(
        steps,
        vec![
            Step::Act(Action::ButModeOff),
            tell(Telling::ShowChainPrompt, "code it?"),
            Step::Act(Action::ForgetAbort)
        ]
    );
    assert!(chain.pending.is_some());
    assert_eq!(run.pending_send, None);
}

#[test]
fn a_failed_send_is_given_back() {
    let mut chain = ChainState::empty();
    let mut run = RunState::idle();
    run.pending_send = Some("again".to_string());
    let mut ctx = context();
    ctx.current_prompt_name = None;
    let mut perm = None;
    let tail = Tail { len: 4, from_user: true };
    let steps =
        finalize_turn(true, tail, &mut run, &mut chain, &mut ctx, &mut perm, &rules(), true);
    assert_eq!(
        steps,
        vec![
            Step::TruncateMessages(3),
            tell(Telling::LoadInput, "again"),
            Step::Act(Action::ForgetAbort)
        ]
    );
}

#[test]
fn waiting_inputs_run_in_order() {
    let mut chain = ChainState::empty();
    let mut run = RunState::idle();
    run.pending_inputs = vec!["one".to_string(), "two".to_string()];
    let mut ctx = context();
    let mut perm = standard();
    let tail = Tail { len: 0, from_user: false };
    let steps =
        finalize_turn(false, tail, &mut run, &mut chain, &mut ctx, &mut perm, &rules(), true);
    assert!(steps.contains(&Step::Spawn("one".to_string(), main_run())));
    assert!(chain.pending.is_none());
    assert_eq!(run.pending_inputs, vec!["two"]);
    assert!(run.is_running);
    // Nothing more starts while the first runs.
    let steps =
        finalize_turn(false, tail, &mut run, &mut chain, &mut ctx, &mut perm, &rules(), true);
    assert_eq!(steps, vec![]);
}

#[test]
fn a_one_shot_prompt_is_left_again() {
    let mut chain = ChainState::empty();
    chain.dot_prompt_restore = Some("code".to_string());
    let mut run = RunState::idle();
    let mut ctx = context();
    let mut perm =
        Some(PermState { user_mode: SecurityMode::Guarded, mode: SecurityMode::Yolo });
    let tail = Tail { len: 0, from_user: false };
    finalize_turn(false, tail, &mut run, &mut chain, &mut ctx, &mut perm, &vec![], true);
    assert_eq!(ctx.current_prompt_name, Some("code".to_string()));
    assert_eq!(ctx.current_prompt, Some("%%mode=yolo\nclean".to_string()));
    assert_eq!(perm.unwrap().mode, SecurityMode::Guarded);
    chain.dot_prompt_restore = Some("gone".to_string());
    finalize_turn(false, tail, &mut run, &mut chain, &mut ctx, &mut perm, &vec![], true);
    assert_eq!(ctx.current_prompt_name, None);
}

#[test]
fn an_interrupted_run_is_over() {
    let mut chain = ChainState::empty();
    chain.loop_state = Some(LoopState {
        active: true,
        iteration: 2,
        last_summary: None,
        last_run_output: None,
    });
    chain.loop_label = Some("loop 2".to_string());
    let mut run = RunState::idle();
    run.is_running = true;
    run.pending_inputs = vec!["x".to_string()];
    let mut ctx = context();
    let mut perm = standard();
    let steps = abort_main_run(&mut run, &mut chain, &mut ctx, &mut perm, false);
    assert_eq!(
        steps,
        vec![
            Step::Act(Action::AbortRun),
            Step::Act(Action::KillSandbox),
            Step::Act(Action::SignalStop),
            Step::Act(Action::DropReceiver),
            Step::Act(Action::ClearInput),
            says("interrupted (changes may be partial; review with git diff)", C_ERROR)
        ]
    );
    assert!(!run.is_running);
    assert!(!chain.loop_running());
    assert_eq!(chain.loop_label, None);
    assert_eq!(run.pending_inputs.len(), 0);
}

#[test]
fn a_loop_goes_on_until_it_stops() {
    let mut chain = ChainState::empty();
    chain.loop_state = Some(LoopState {
        active: true,
        iteration: 0,
        last_summary: None,
        last_run_output: None,
    });
    let mut run = RunState::idle();
    assert!(is_loop_due(&chain, &run));
    begin_loop(&mut chain, &mut run, "p", "loop 1");
    assert!(run.is_running);
    assert_eq!(chain.loop_state.as_ref().unwrap().iteration, 1);
    assert!(!is_loop_due(&chain, &run));
    note_iteration(
        chain.loop_state.as_mut().unwrap(),
        "abcdef",
        3,
        Some(validation_text("out", "err")),
    );
    run.is_running = false;
    let steps = end_iteration(&mut chain, &mut run, "p", "abcdef", 3, false, "p2", "loop 2");
    let ls = chain.loop_state.as_ref().unwrap();
    assert_eq!(ls.iteration, 2);
    assert_eq!(ls.last_summary, Some("abc".to_string()));
    assert_eq!(ls.last_run_output, Some("out\nerr".to_string()));
    assert!(run.is_running);
    assert_eq!(
        steps,
        vec![
            Step::KeepIteration(Iteration {
                number: 1,
                prompt: "p".to_string(),
                response: "abcdef".to_string(),
                output: Some("out\nerr".to_string()),
                summary: "abc".to_string(),
            }),
            Step::Act(Action::RebuildReasoningAgent),
            Step::Spawn(
                "p2".to_string(),
                RunKind { fresh: true, abortable: false, iteration: Some(2) }
            ),
            Step::Act(Action::SignalStart),
            says("[loop] launching loop 2", C_AGENT)
        ]
    );
    run.is_running = false;
    let steps = continue_loop(&mut chain, &mut run, true, "", "");
    assert_eq!(steps, vec![says("[loop] max iterations (1) reached, stopping", C_AGENT)]);
    assert!(!chain.loop_running());
    // An iteration is kept where the loop stops behind it, too.
    chain.loop_state.as_mut().unwrap().active = true;
    let steps = end_iteration(&mut chain, &mut run, "p2", "xy", 3, true, "", "");
    assert!(matches!(&steps[0], Step::KeepIteration(i) if i.number == 2 && i.summary == "xy"));
    assert_eq!(steps[1], says("[loop] max iterations (2) reached, stopping", C_AGENT));
    assert!(!chain.loop_running() && !run.is_running && chain.loop_label.is_none());
    assert_eq!(validation_text("out", ""), "out");
}

#[test]
fn a_merged_worktree_is_left() {
    let mut chain = ChainState::empty();
    assert!(leave_worktree(&mut chain).is_none());
    chain.wt_return = Some(Worktree {
        main_path: "/repo".to_string(),
        wt_path: "/wt".to_string(),
        branch: "b".to_string(),
        force: false,
    });
    let (path, steps) = leave_worktree(&mut chain).unwrap();
    assert_eq!(path, "/repo");
    assert!(matches!(&steps[0], Step::CleanUp(w) if w.wt_path == "/wt" && w.branch == "b"));
    assert!(chain.wt_return.is_none());
    let steps = worktree_left("/repo", None);
    assert_eq!(
        steps.last(),
        Some(&says("merged and returned to main repo at /repo", C_AGENT))
    );
    assert_eq!(
        worktree_left("/repo", Some("gone")),
        vec![says("warning: failed to change back to main repo: gone", C_ERROR)]
    );
}
