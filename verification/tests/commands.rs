//! Submitted lines: where they go and what they do.

use zerostack_ui::color::{Color, C_AGENT, C_BTW, C_ERROR, C_TOOL};
use zerostack_ui::commands::{
    argument_of, cancel_btw, confirm_rewind, exit_worktree, handle_btw_event, handle_dot_command,
    handle_mcp_login_done, handle_slash_result, hold_back, login_begun, login_not_begun, read_dot,
    read_request, route_plain, route_submission, run_btw, run_lazygit, run_queue_command,
    save_failed, send_input, shell_command_ran, slash_completed, slash_ended,
    spawn_merge_agent, strip, take_shell_command, BtwEvent, BtwState, DotRead, LoginEnd, Route, SlashRequest,
};
use zerostack_ui::flow::{ChainState, LoopState};
use zerostack_ui::prompts::{
    ContextFiles, NamedPrompt, PermState, PromptText, SecurityMode,
};
use zerostack_ui::session::{Compaction, Message, MessageRole, Session};
use zerostack_ui::steps::{Action, RunKind, Step, Telling, TurnUsage};
use zerostack_ui::submit::MergeRequest;
use zerostack_ui::turn::RunState;

fn says(text: &str, color: Color) -> Step {
    Step::WriteLine(text.to_string(), color)
}

fn blank() -> Step {
    says("", Color::White)
}

fn tell(k: Telling, text: &str) -> Step {
    Step::Tell(k, text.to_string())
}

fn context() -> ContextFiles {
    ContextFiles {
        prompts: vec![NamedPrompt {
            name: "ask".to_string(),
            text: PromptText {
                raw: "%%mode=readonly\nask".to_string(),
                directive: Some("readonly".to_string()),
                mode: Some(SecurityMode::ReadOnly),
                clean: "ask".to_string(),
            },
        }],
        current_prompt: None,
        current_prompt_name: Some("code".to_string()),
        chain_declined: vec![],
        one_shot_restore: Some("before".to_string()),
    }
}

#[test]
fn lines_are_routed() {
    assert_eq!(route_submission("x", false, true, false), Route::LoopActive);
    assert_eq!(route_submission("/loop stop", false, true, false), Route::Slash);
    assert_eq!(route_submission("x", false, false, true), Route::ChainReply);
    assert_eq!(route_submission("x", true, false, true), Route::Waiting);
    assert_eq!(route_submission(" ", true, false, false), Route::Ignore);
    assert_eq!(route_submission("!ls", true, false, false), Route::Refused);
    assert_eq!(route_submission("/queue pop", true, false, false), Route::QueueCommand);
    assert_eq!(route_submission(" /btw x", true, false, false), Route::SideQuestion);
    assert_eq!(route_submission(".ask x", false, false, false), Route::Dot);
    assert_eq!(route_submission("!ls", false, false, false), Route::Bang);
    assert_eq!(route_submission("hello", false, false, false), Route::Input);
    assert_eq!(route_plain("/help"), Route::Slash);
    assert_eq!(route_plain(""), Route::Input);
}

#[test]
fn lines_that_cannot_run_are_held_back() {
    let mut run = RunState::idle();
    assert_eq!(
        hold_back(Route::Waiting, "a\u{1b}[1mb", &mut run),
        vec![says("queued: ab", C_TOOL)]
    );
    assert_eq!(run.pending_inputs, vec!["a\u{1b}[1mb"]);
    assert_eq!(
        hold_back(Route::LoopActive, "x", &mut run),
        vec![says("loop active: /loop stop to cancel", C_ERROR)]
    );
    assert_eq!(
        hold_back(Route::Refused, "/x", &mut run),
        vec![says(
            "agent is running \u{2014} wait for it to finish or press Ctrl-C before running a command",
            C_ERROR
        )]
    );
    assert_eq!(hold_back(Route::Ignore, "", &mut run), vec![]);
    assert_eq!(run.pending_inputs.len(), 1);
}

#[test]
fn input_is_echoed_and_sent() {
    let mut run = RunState::idle();
    let steps = send_input("a\r\nb", &mut run, true);
    assert_eq!(steps[..3], [says("> a", Color::Green), says("> b", Color::Green), blank()]);
    assert_eq!(steps.last(), Some(&Step::Act(Action::PublishMessages)));
    assert!(run.is_running);
}

#[test]
fn the_queue_is_listed_and_changed() {
    let mut run = RunState::idle();
    assert_eq!(argument_of(" /queue  pop ", "/queue"), "pop");
    assert_eq!(run_queue_command("", &mut run), vec![says("queue is empty", C_TOOL)]);
    assert_eq!(run_queue_command("pop", &mut run), vec![says("queue is empty", C_TOOL)]);
    run.pending_inputs = vec!["a".to_string(), "b".to_string()];
    assert_eq!(
        run_queue_command("ls", &mut run),
        vec![says("queued (2):", C_TOOL), says("  1. a", C_TOOL), says("  2. b", C_TOOL)]
    );
    assert_eq!(run_queue_command("pop", &mut run), vec![says("unqueued: b", C_TOOL)]);
    assert_eq!(run.pending_inputs, vec!["a"]);
    assert_eq!(
        run_queue_command("x", &mut run),
        vec![says("usage: /queue [ls|clear|pop]", C_ERROR)]
    );
    assert_eq!(run_queue_command("clear", &mut run), vec![says("queue cleared (1 removed)", C_TOOL)]);
    assert_eq!(run.pending_inputs.len(), 0);
}

#[test]
fn a_popped_line_leaves_the_queue_as_it_was() {
    let mut run = RunState::idle();
    run.pending_inputs = vec!["a".to_string()];
    hold_back(Route::Waiting, "b", &mut run);
    run_queue_command("pop", &mut run);
    assert_eq!(run.pending_inputs, vec!["a"]);
}

#[test]
fn side_questions_are_asked_and_closed() {
    let mut btw = BtwState::new();
    assert_eq!(
        run_btw("/btw ", &mut btw),
        vec![says("> /btw ", Color::Green), blank(), says("usage: /btw <message>", C_AGENT)]
    );
    assert_eq!(btw.inflight, 0);
    let steps = run_btw("/btw why?", &mut btw);
    assert_eq!(
        steps[2..],
        [Step::AskAside(0, "why?".to_string()), says("[btw #0] thinking...", C_BTW)]
    );
    run_btw("/btw how?", &mut btw);
    assert_eq!((btw.next_id, btw.inflight), (2, 2));
    let usage = TurnUsage {
        input_tokens: 7,
        output_tokens: u64::MAX,
        cached_input_tokens: 0,
        cache_creation_input_tokens: 0,
    };
    let done = BtwEvent::Done { id: 0, response: "because\nso".to_string(), usage };
    assert_eq!(
        handle_btw_event(&done, &mut btw),
        vec![
            says("[btw #0] answer:", C_BTW),
            says("because", C_AGENT),
            says("so", C_AGENT),
            blank()
        ]
    );
    assert_eq!(btw.ids, vec![1]);
    assert_eq!((btw.total_in, btw.total_out), (7, u64::MAX));
    let failed = BtwEvent::Error { id: 1, message: "no".to_string() };
    assert_eq!(
        handle_btw_event(&failed, &mut btw),
        vec![says("[btw #1] error: no", C_ERROR)]
    );
    assert_eq!(btw.inflight, 0);
    handle_btw_event(&failed, &mut btw);
    assert_eq!(btw.inflight, 0);
}

#[test]
fn side_questions_are_cancelled() {
    let mut btw = BtwState::new();
    btw.next_id = u32::MAX;
    run_btw("/btw x", &mut btw);
    assert_eq!(btw.next_id, 0);
    assert_eq!(
        cancel_btw(&mut btw),
        vec![Step::Act(Action::AbortSideQuestions), says("btw cancelled", C_ERROR)]
    );
    assert_eq!((btw.inflight, btw.ids.len()), (0, 0));
}

#[test]
fn shell_commands_are_taken_and_told() {
    assert_eq!(
        take_shell_command("! "),
        (None, vec![says("error: empty command after '!'", C_ERROR)])
    );
    let (cmd, steps) = take_shell_command("! ls -l ");
    assert_eq!(cmd, Some("ls -l".to_string()));
    assert_eq!(steps, vec![says("> ! ls -l ", Color::Green), blank()]);
    assert_eq!(
        shell_command_ran("!x", "out\n", "err\n", false, false),
        vec![
            says("out", C_ERROR),
            says("", C_ERROR),
            says("err", C_ERROR),
            blank(),
            Step::AddMessage(MessageRole::User, "!x".to_string()),
            Step::AddMessage(MessageRole::Assistant, "out\n\nerr".to_string()),
            tell(Telling::AppendHistory, "!x")
        ]
    );
    assert_eq!(shell_command_ran("!x", "", "", true, true).len(), 3);
}

#[test]
fn dot_commands_are_read() {
    assert_eq!(read_dot(". "), DotRead::List);
    assert_eq!(
        read_dot(". ask  what now "),
        DotRead::Once { name: "ask".to_string(), message: "what now".to_string() }
    );
    assert_eq!(read_dot(".ask"), DotRead::Switch { name: "ask".to_string() });
}

#[test]
fn a_prompt_is_used_once() {
    let mut ctx = context();
    let mut perm =
        Some(PermState { user_mode: SecurityMode::Standard, mode: SecurityMode::Standard });
    let mut chain = ChainState::empty();
    let (message, steps) =
        handle_dot_command(".ask why", &mut ctx, &mut perm, &mut chain, false);
    assert_eq!(message, Some("why".to_string()));
    assert_eq!(
        steps,
        vec![
            says("> .ask why", Color::Green),
            blank(),
            tell(Telling::ApplyPromptModel, "ask"),
            Step::Act(Action::DropAgent)
        ]
    );
    assert_eq!(chain.dot_prompt_restore, Some("code".to_string()));
    assert_eq!(ctx.current_prompt, Some("ask".to_string()));
    assert_eq!(perm.unwrap().mode, SecurityMode::ReadOnly);
}

#[test]
fn a_prompt_is_switched_to() {
    let mut ctx = context();
    let mut perm = None;
    let mut chain = ChainState::empty();
    let (message, steps) = handle_dot_command(".ask", &mut ctx, &mut perm, &mut chain, false);
    assert_eq!(message, None);
    assert_eq!(
        steps[3..],
        [
            Step::Act(Action::DropAgent),
            says("switched to prompt 'ask'", C_AGENT),
            Step::Act(Action::SaveSession)
        ]
    );
    assert_eq!(chain.dot_prompt_restore, None);
    let (_, steps) = handle_dot_command(".nope x", &mut ctx, &mut perm, &mut chain, false);
    assert_eq!(steps.last(), Some(&says("error: unknown prompt 'nope'", C_ERROR)));
    let (_, steps) = handle_dot_command(".", &mut ctx, &mut perm, &mut chain, false);
    assert_eq!(
        steps[2..],
        [tell(Telling::LoadInput, "."), Step::Act(Action::StartDotPicker)]
    );
}

#[test]
fn deferred_requests_are_read() {
    assert_eq!(strip("abc", "ab"), Some("c".to_string()));
    assert_eq!(strip("abc", "b"), None);
    assert_eq!(read_request("DEFER_COMPRESS: (none)"), SlashRequest::Compress(None));
    assert_eq!(
        read_request("DEFER_COMPRESS: keep x "),
        SlashRequest::Compress(Some("keep x".to_string()))
    );
    assert_eq!(
        read_request("DEFER_MCP_LOGIN: srv"),
        SlashRequest::McpLogin("srv".to_string())
    );
    assert_eq!(read_request("DEFER_INIT:p"), SlashRequest::Init("p".to_string()));
    assert_eq!(read_request("DEFER_REVIEW: m"), SlashRequest::Review(" m".to_string()));
    assert_eq!(read_request("DEFER_EDITOR:/f"), SlashRequest::Editor("/f".to_string()));
    assert_eq!(read_request("oops"), SlashRequest::Failed("oops".to_string()));
}

#[test]
fn deferred_requests_are_carried_out() {
    let mut run = RunState::idle();
    let mut chain = ChainState::empty();
    let mut ctx = context();
    let kind = RunKind { fresh: false, abortable: true, iteration: None };
    let mut act = |req: SlashRequest, can_login: bool| {
        handle_slash_result(&req, can_login, &mut run, &mut chain, &mut ctx)
    };
    assert_eq!(
        act(SlashRequest::Compress(None), false),
        vec![
            Step::Compress {
                instructions: None,
                auto: false,
                on_error: "compress error: ".to_string()
            },
            Step::Act(Action::SaveSessionQuietly)
        ]
    );
    assert_eq!(
        act(SlashRequest::McpLogin("s".to_string()), true),
        vec![says("starting OAuth login for 's'...", C_AGENT), tell(Telling::BeginLogin, "s")]
    );
    assert_eq!(
        act(SlashRequest::McpLogin("s".to_string()), false),
        vec![says("cannot start login for 's' (not an OAuth URL server)", C_ERROR)]
    );
    assert_eq!(
        act(SlashRequest::Editor("/f".to_string()), false).last(),
        Some(&says("returned from editing /f", C_AGENT))
    );
    assert_eq!(
        act(SlashRequest::Failed("e".to_string()), false),
        vec![says("error: e", C_ERROR)]
    );
    assert_eq!(
        act(SlashRequest::Review("m".to_string()), false),
        vec![
            Step::AddMessage(MessageRole::User, "m".to_string()),
            Step::Act(Action::EnsureAgent),
            Step::Spawn("m".to_string(), kind),
            Step::Act(Action::SignalStart)
        ]
    );
    assert!(run.is_running);
    assert_eq!(chain.dot_prompt_restore, Some("before".to_string()));
    assert_eq!(ctx.one_shot_restore, None);
}

#[test]
fn a_command_done_starts_a_loop_that_is_due() {
    let mut run = RunState::idle();
    let mut chain = ChainState::empty();
    assert_eq!(
        slash_completed(&mut run, &mut chain, false, "p", "l"),
        vec![Step::Act(Action::SaveSession)]
    );
    chain.loop_state = Some(LoopState {
        active: true,
        iteration: 0,
        last_summary: None,
        last_run_output: None,
    });
    assert_eq!(slash_ended(false), vec![Step::Act(Action::SaveSession)]);
    assert!(slash_ended(true).is_empty());
    let steps = slash_completed(&mut run, &mut chain, true, "p", "l");
    assert_eq!(
        steps,
        vec![
            Step::Act(Action::EnsureAgent),
            Step::Spawn(
                "p".to_string(),
                RunKind { fresh: true, abortable: true, iteration: Some(1) }
            )
        ]
    );
    assert!(run.is_running);
    assert_eq!(chain.loop_label, Some("l".to_string()));
}

#[test]
fn a_merge_is_handed_to_the_agent() {
    let m = MergeRequest {
        branch: "b".to_string(),
        target: "main".to_string(),
        main_path: "/repo".to_string(),
        wt_path: "/wt".to_string(),
        force: true,
    };
    let mut run = RunState::idle();
    let mut chain = ChainState::empty();
    let steps = spawn_merge_agent(&m, &mut run, &mut chain);
    assert!(matches!(&steps[0], Step::AddMessage(MessageRole::User, t) if t.contains("'b' at '/wt'")));
    assert!(run.is_running);
    let back = chain.wt_return.unwrap();
    assert_eq!((back.main_path.as_str(), back.force), ("/repo", true));
}

#[test]
fn logins_are_told() {
    assert_eq!(
        login_begun("https://u", 8080),
        vec![
            tell(Telling::Copy, "https://u"),
            says("open this URL to authorize (copied to clipboard):", C_AGENT),
            says("https://u", Color::Cyan),
            says("waiting for authorization on 127.0.0.1:8080 in the background...", Color::DarkGrey)
        ]
    );
    assert_eq!(login_not_begun("s", "e"), says("login setup failed for 's': e", C_ERROR));
    assert_eq!(
        handle_mcp_login_done("s", &LoginEnd::Failed("e".to_string())),
        vec![says("login failed for 's': e", C_ERROR)]
    );
    assert_eq!(
        handle_mcp_login_done("s", &LoginEnd::Connected),
        vec![Step::Act(Action::RebuildAgent), says("authorized and connected 's'", C_AGENT)]
    );
    assert_eq!(
        handle_mcp_login_done("s", &LoginEnd::NotConnected("e".to_string())),
        vec![says("authorized 's' but reconnect failed: e", C_ERROR)]
    );
    assert_eq!(
        handle_mcp_login_done("s", &LoginEnd::Later),
        vec![says("authorized 's' (will connect on next start)", C_AGENT)]
    );
}

#[test]
fn other_programs_get_the_terminal() {
    assert_eq!(
        run_lazygit(true),
        vec![
            Step::Act(Action::StopInput),
            Step::Act(Action::SuspendTerminal),
            Step::Act(Action::RunLazygit),
            Step::Act(Action::ResumeTerminal),
            Step::Act(Action::RebindInput)
        ]
    );
    assert!(matches!(&run_lazygit(false)[0], Step::WriteLine(t, Color::Red) if t.contains("not found")));
    assert_eq!(save_failed("x"), says("warning: failed to save session: x", C_ERROR));
    assert_eq!(
        exit_worktree("/repo").last(),
        Some(&says("returned to main repo at /repo", C_AGENT))
    );
}

#[test]
fn a_rewind_loads_the_message() {
    let message = |role: MessageRole, content: &str| Message {
        role,
        content: content.to_string(),
        estimated_tokens: 0,
    };
    let mut s = Session {
        messages: vec![
            message(MessageRole::User, "one"),
            message(MessageRole::Assistant, "two"),
            message(MessageRole::User, "three"),
        ],
        compactions: vec![Compaction { summary: "so far".to_string(), token_savings: 7 }],
        undone: vec![],
    };
    assert_eq!(
        confirm_rewind(&mut s, 2, false),
        vec![
            tell(Telling::LoadInput, "three"),
            Step::Act(Action::SaveSessionQuietly),
            Step::Act(Action::RenderSession),
            says("rewound; /redo to restore", Color::Green)
        ]
    );
    assert_eq!(s.messages.len(), 2);
    assert_eq!(s.compactions[0].summary, "so far");
    assert_eq!(confirm_rewind(&mut s, 9, false), vec![]);
    assert_eq!(s.messages.len(), 2);
}

#[test]
fn no_line_starts_a_second_run() {
    for text in ["hi", "/help", ".ask x", "!ls", "/queue", "/btw why", " "] {
        let mut run = RunState::idle();
        run.is_running = true;
        let mut btw = BtwState::new();
        let steps = match route_submission(text, true, false, false) {
            Route::QueueCommand => run_queue_command("", &mut run),
            Route::SideQuestion => run_btw(text, &mut btw),
            held => hold_back(held, text, &mut run),
        };
        assert!(!steps.iter().any(|s| matches!(s, Step::Spawn(..))));
        assert!(run.is_running);
    }
}
