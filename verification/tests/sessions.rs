//! The plain session and the start of the program.

use zerostack_ui::color::{Color, C_AGENT, C_ERROR, C_TOOL};
use zerostack_ui::commands::Route;
use zerostack_ui::flow::{ChainState, LoopState};
use zerostack_ui::interactive::{
    after_agent_event, begin_side_question, end_side_question, handle_input_text,
    handle_normal_text, handle_plain_request, held_by_loop, initialize_display, interrupt,
    is_side_question, read_plain_request, PlainRequest, SideMark,
};
use zerostack_ui::prompts::{ContextFiles, NamedPrompt, PermState, PromptText, SecurityMode};
use zerostack_ui::session::{Message, MessageRole, Session};
use zerostack_ui::startup::{
    auto_trigger, branch_check_due, choose_backdrop, parallel_name, prebuild_notices, prebuilds,
    provider_names, welcome_plan, worktree_created, Backdrop, ColorScheme, ConfiguredColor,
};
use zerostack_ui::steps::{Action, RunKind, Step, Telling};
use zerostack_ui::turn::{RunState, TokenTotals};

fn says(text: &str, color: Color) -> Step {
    Step::WriteLine(text.to_string(), color)
}

fn blank() -> Step {
    says("", Color::White)
}

fn context() -> ContextFiles {
    ContextFiles {
        prompts: vec![NamedPrompt {
            name: "ask".to_string(),
            text: PromptText {
                raw: "ask".to_string(),
                directive: None,
                mode: None,
                clean: String::new(),
            },
        }],
        current_prompt: None,
        current_prompt_name: None,
        chain_declined: vec![],
        one_shot_restore: None,
    }
}

const PLAIN: RunKind = RunKind { fresh: false, abortable: false, iteration: None };

#[test]
fn the_guide_is_shown_once() {
    assert_eq!(initialize_display(true), vec![Step::Act(Action::RenderSession)]);
    let steps = initialize_display(false);
    assert_eq!(steps.len(), 30);
    assert_eq!(steps[1], says(&"\u{2500}".repeat(42), Color::Cyan));
    assert_eq!(steps[2], says("  zerostack Quickstart", Color::Cyan));
    assert!(steps.contains(&says("  Keybindings:", C_TOOL)));
    assert!(steps.contains(&says("  Docs: https://gi-dellav.github.io/zerostack/", Color::White)));
}

#[test]
fn an_interrupt_stops_the_run() {
    let mut run = RunState::idle();
    let mut chain = ChainState::empty();
    assert_eq!(interrupt(&mut run, &mut chain), (false, vec![]));
    run.is_running = true;
    chain.loop_state = Some(LoopState {
        active: true,
        iteration: 1,
        last_summary: None,
        last_run_output: None,
    });
    assert_eq!(
        interrupt(&mut run, &mut chain),
        (true, vec![Step::Act(Action::DropReceiver), says("interrupted", C_ERROR)])
    );
    assert!(!run.is_running);
    assert!(!chain.loop_running());
}

#[test]
fn plain_lines_are_taken() {
    let mut ctx = context();
    let mut perm = None;
    let mut chain = ChainState::empty();
    let (left, steps) = handle_input_text("!ls", &mut ctx, &mut perm, &mut chain);
    assert_eq!(left, Some((Route::Bang, "!ls".to_string())));
    assert_eq!(steps, vec![]);
    let (left, steps) = handle_input_text(".ask /help", &mut ctx, &mut perm, &mut chain);
    assert_eq!(left, Some((Route::Slash, "/help".to_string())));
    assert_eq!(steps, vec![says("> .ask /help", Color::Green), blank()]);
    let (left, steps) = handle_input_text(".ask", &mut ctx, &mut perm, &mut chain);
    assert_eq!(left, None);
    assert_eq!(steps[2], Step::Tell(Telling::ReportPrompt, "ask".to_string()));
    let (left, steps) = handle_input_text(".no", &mut ctx, &mut perm, &mut chain);
    assert_eq!(left, None);
    assert_eq!(steps[2], says("error: unknown prompt 'no'", C_ERROR));
}

#[test]
fn plain_text_runs() {
    let mut run = RunState::idle();
    assert_eq!(
        handle_normal_text("hi", &mut run, false),
        vec![
            says("> hi", Color::Green),
            blank(),
            Step::Act(Action::EnsureMcp),
            Step::Act(Action::EnsureAgent),
            Step::Spawn("hi".to_string(), PLAIN),
            Step::AddMessage(MessageRole::User, "hi".to_string()),
            Step::Tell(Telling::AppendHistory, "hi".to_string())
        ]
    );
    assert!(run.is_running);
}

fn session(n: usize) -> Session {
    Session {
        messages: (0..n)
            .map(|i| Message {
                role: MessageRole::User,
                content: format!("{}", i),
                estimated_tokens: 1,
            })
            .collect(),
        compactions: vec![],
        undone: vec![],
    }
}

#[test]
fn plain_lines_are_told_apart() {
    assert!(is_side_question("/btw why") && is_side_question("/btw"));
    assert!(!is_side_question("/help") && !is_side_question(" /btw"));
    assert!(held_by_loop("go on", true) && held_by_loop("", true));
    assert!(!held_by_loop("/loop stop", true) && !held_by_loop("go on", false));
}

#[test]
fn a_side_question_leaves_nothing_behind() {
    let mut run = RunState::idle();
    let mut mark =
        SideMark { active: false, msg_count: 0, input_tokens: 0, output_tokens: 0, cost: 0 };
    let mut totals = TokenTotals { estimated: 1, input: 2, output: 3, cost: 0.5f64.to_bits() };
    let mut s = session(2);
    let steps = begin_side_question("/btw ", &s, &totals, &mut mark, &mut run);
    assert_eq!(steps.last(), Some(&says("usage: /btw <message>", C_AGENT)));
    assert!(!mark.active);
    let steps = begin_side_question("/btw why", &s, &totals, &mut mark, &mut run);
    assert_eq!(steps.last(), Some(&Step::Spawn("why".to_string(), PLAIN)));
    assert!(mark.active && run.is_running);
    s.messages.push(Message {
        role: MessageRole::Assistant,
        content: "because".to_string(),
        estimated_tokens: 9,
    });
    totals.input = 50;
    totals.output = 60;
    totals.cost = 0.75f64.to_bits();
    // Nothing is taken back while it runs.
    assert_eq!(end_side_question(&mut mark, true, &mut s, &mut totals, false), vec![]);
    assert_eq!(s.messages.len(), 3);
    assert_eq!(
        end_side_question(&mut mark, false, &mut s, &mut totals, false),
        vec![Step::Act(Action::SaveSessionQuietly)]
    );
    assert_eq!(s.messages.len(), 2);
    assert_eq!((totals.input, totals.output), (2, 3));
    assert_eq!(f64::from_bits(totals.cost), 0.5);
    assert!(!mark.active);
}

#[test]
fn plain_requests_are_read() {
    assert_eq!(
        read_plain_request("DEFER_WT_MERGE:b:main:/repo:/wt:name:x"),
        PlainRequest::Merge {
            branch: "b".to_string(),
            target: "main".to_string(),
            main_path: "/repo".to_string(),
            wt_path: "/wt".to_string()
        }
    );
    assert_eq!(read_plain_request("DEFER_WT_MERGE:b:main"), PlainRequest::Incomplete);
    assert_eq!(
        read_plain_request("DEFER_WT_EXIT:/repo:x"),
        PlainRequest::Exit { main_path: "/repo".to_string() }
    );
    assert_eq!(read_plain_request("DEFER_WT_EXIT:/repo"), PlainRequest::Incomplete);
    assert_eq!(read_plain_request("DEFER_COMPRESS:"), PlainRequest::Compress(None));
    assert_eq!(read_plain_request("e"), PlainRequest::Failed("e".to_string()));
}

#[test]
fn plain_requests_are_carried_out() {
    let mut run = RunState::idle();
    let merge = PlainRequest::Merge {
        branch: "b".to_string(),
        target: "main".to_string(),
        main_path: "/repo".to_string(),
        wt_path: "/wt".to_string(),
    };
    let (back, steps) = handle_plain_request(&merge, &mut run);
    assert_eq!(back, Some("/repo".to_string()));
    assert!(run.is_running);
    assert!(matches!(&steps[0], Step::AddMessage(MessageRole::User, t)
        if t.contains("5. git merge --no-edit b\n\n") && t.contains("\n- git push\n- git worktree remove /wt\n- git branch -D b\n\n7. cd /repo")));
    let (back, steps) = handle_plain_request(&PlainRequest::Incomplete, &mut run);
    assert_eq!((back, steps), (None, vec![]));
    let (_, steps) = handle_plain_request(&PlainRequest::Failed("e".to_string()), &mut run);
    assert_eq!(steps, vec![says("error: e", C_ERROR)]);
}

#[test]
fn the_prompt_before_returns_with_the_end_of_the_run() {
    let mut chain = ChainState::empty();
    chain.dot_prompt_restore = Some("ask".to_string());
    let mut ctx = context();
    let mut perm =
        Some(PermState { user_mode: SecurityMode::Standard, mode: SecurityMode::Yolo });
    after_agent_event(true, &mut chain, &mut ctx, &mut perm);
    assert_eq!(ctx.current_prompt_name, None);
    after_agent_event(false, &mut chain, &mut ctx, &mut perm);
    assert_eq!(ctx.current_prompt_name, Some("ask".to_string()));
    assert_eq!(perm.unwrap().mode, SecurityMode::Standard);
    assert_eq!(chain.dot_prompt_restore, None);
}

#[test]
fn backdrops_are_chosen() {
    let color = ConfiguredColor { exact: Color::Rgb { r: 1, g: 2, b: 3 }, nearest: Color::AnsiValue(16) };
    let scheme = ColorScheme { ansi: false, chat: Some(color), input: None, status: Some(color) };
    assert_eq!(choose_backdrop(true, true, Some(scheme)), Backdrop::Theme);
    assert_eq!(choose_backdrop(true, false, Some(scheme)), Backdrop::Unset);
    assert_eq!(
        choose_backdrop(false, false, Some(scheme)),
        Backdrop::Colors(Some(color.exact), None, Some(color.exact))
    );
    assert_eq!(
        choose_backdrop(false, false, Some(ColorScheme { ansi: true, ..scheme })),
        Backdrop::Colors(Some(color.nearest), None, Some(color.nearest))
    );
    assert_eq!(choose_backdrop(false, false, None), Backdrop::Unset);
}

#[test]
fn the_program_starts_up() {
    assert_eq!(
        provider_names(&vec!["mine".to_string()]),
        vec!["anthropic", "openai", "gemini", "openrouter", "ollama", "mine"]
    );
    assert_eq!(welcome_plan(true, true), (true, false));
    assert_eq!(welcome_plan(false, false), (true, true));
    assert_eq!(welcome_plan(false, true), (false, false));
    assert_eq!(parallel_name(1700000000), "1700000000");
    assert_eq!(
        worktree_created(Err("e")),
        vec![says("worktree failed: e", C_ERROR)]
    );
    assert_eq!(
        worktree_created(Ok("/wt"))[0],
        Step::Tell(Telling::WorkIn, "/wt".to_string())
    );
    assert!(prebuilds(false, false));
    assert!(!prebuilds(true, false));
    assert!(!prebuilds(false, true));
    assert!(branch_check_due(1000));
    assert!(!branch_check_due(999));
    assert_eq!(
        prebuild_notices(&vec!["n".to_string()], true),
        vec![says("n", C_ERROR)]
    );
    assert_eq!(prebuild_notices(&vec!["n".to_string()], false), vec![]);
    let mut run = RunState::idle();
    let steps = auto_trigger("go", &mut run);
    assert!(run.is_running);
    assert_eq!(steps[0], says("> go", Color::Green));
    assert_eq!(steps.last(), Some(&Step::Act(Action::PublishMessages)));
}
