//! Sanitized output, the session on screen, help texts and the terminal.

use zerostack_ui::draw::{DrawOp, TermSize};
use zerostack_ui::events::{
    render_session, render_tool_result_to_feed, sanitize_output, SessionInfo, ToolDetails,
};
use zerostack_ui::feed::Feed;
use zerostack_ui::help::{handle, handle_tutor, handle_welcome, show_welcome, Features};
use zerostack_ui::renderer::Renderer;
use zerostack_ui::session::{Compaction, Message, MessageRole, Session};
use zerostack_ui::terminal::{resume, suspend, TermOp, TerminalGuard};
use zerostack_ui::width::CharWidths;

const SIZE: TermSize = TermSize { cols: 60, rows: 20 };

#[test]
fn control_sequences_are_removed() {
    assert_eq!(sanitize_output("a\u{1b}[31mred\u{1b}[0m").text(), "ared");
    assert_eq!(sanitize_output("a\u{1b}]0;titleb").text(), "aitleb");
    assert_eq!(sanitize_output("x\u{1b}Cy\u{1b}").text(), "xy");
    assert_eq!(sanitize_output("a\tb\r\n\u{7}\u{0}\u{7f}c").text(), "a\tb\r\nc");
    assert_eq!(sanitize_output("\u{1b}[3~k").text(), "k");
    let once = sanitize_output("q\u{1b}[1;2Hw\u{8}");
    assert_eq!(sanitize_output(once.text()).text(), once.text());
}

fn feed_texts(f: &mut Feed) -> Vec<String> {
    f.lines(60).iter().map(|l| l.as_str().to_string()).collect()
}

#[test]
fn stored_results_are_shown() {
    let mut f = Feed::new(CharWidths::narrow());
    render_tool_result_to_feed(&mut f, "bash:\n1\n2\n3\n4", None);
    assert_eq!(
        feed_texts(&mut f),
        vec!["\u{25c8} result (7 chars, 4 lines, showing 3):", "1", "2", "3"]
    );
    f.clear();
    render_tool_result_to_feed(&mut f, "plain", Some(ToolDetails::Off));
    assert_eq!(feed_texts(&mut f), vec!["\u{25c8} result hidden by show_tool_details=false"]);
    f.clear();
    render_tool_result_to_feed(&mut f, "plain", Some(ToolDetails::Unlimited));
    assert_eq!(feed_texts(&mut f), vec!["\u{25c8} result (5 chars):", "plain"]);
}

fn info() -> SessionInfo {
    SessionInfo {
        agents_loaded: true,
        architecture_loaded: false,
        details: None,
        version: "1.0".to_string(),
        model: "m".to_string(),
        cwd: "dir".to_string(),
    }
}

#[test]
fn an_empty_session_greets() {
    let mut r = Renderer::new(CharWidths::narrow());
    let s = Session { messages: vec![], compactions: vec![], undone: vec![] };
    let ops = render_session(&mut r, &s, &info());
    assert!(ops.contains(&DrawOp::ClearAll));
    let texts = feed_texts(r.feed_mut());
    assert_eq!(texts[0], "[system] loaded AGENTS.md");
    assert_eq!(texts[2], "[>] zerostack 1.0 | m | dir");
    assert_eq!(texts[3], "\u{2500}".repeat(50));
    assert_eq!(texts.len(), 8);
}

#[test]
fn a_session_is_shown_in_full() {
    let message = |role: MessageRole, content: &str| Message {
        role,
        content: content.to_string(),
        estimated_tokens: 0,
    };
    let s = Session {
        messages: vec![
            message(MessageRole::User, "a\nb"),
            message(MessageRole::System, "s"),
            message(MessageRole::ToolCall, "t"),
            message(MessageRole::SubagentToolCall, "u"),
            message(MessageRole::Assistant, "done"),
        ],
        compactions: vec![
            Compaction { summary: String::new(), token_savings: 1 },
            Compaction { summary: String::new(), token_savings: 5 },
        ],
        undone: vec![],
    };
    let mut r = Renderer::new(CharWidths::narrow());
    let mut i = info();
    i.agents_loaded = false;
    i.architecture_loaded = true;
    render_session(&mut r, &s, &i);
    let texts = feed_texts(r.feed_mut());
    assert_eq!(
        texts[..12],
        [
            "[system] loaded ARCHITECTURE.md",
            "",
            "compacted 2 times (saved ~5 tokens)",
            "",
            "> a",
            "> b",
            "",
            "# s",
            "",
            "\u{25c8} t",
            "",
            "\u{2325} u"
        ]
    );
    assert!(texts.contains(&"< done".to_string()));
}

const NONE: Features = Features {
    export: false,
    mcp: false,
    advisor: false,
    looping: false,
    git_worktree: false,
    hooks: false,
    subagents: false,
};

#[test]
fn help_lists_what_is_built_in() {
    let few = handle(NONE);
    let all = handle(Features {
        export: true,
        mcp: true,
        advisor: true,
        looping: true,
        git_worktree: true,
        hooks: true,
        subagents: true,
    });
    assert!(all.len() > few.len());
    assert!(few.iter().any(|l| l.as_str().contains("/help")));
    assert!(!few.iter().any(|l| l.as_str().contains("/export")));
    assert!(all.iter().any(|l| l.as_str().contains("/export")));
}

#[test]
fn the_welcome_is_shown() {
    let mut r = Renderer::new(CharWidths::narrow());
    show_welcome(&mut r);
    let n = r.feed().block_count();
    assert_eq!(feed_texts(r.feed_mut())[1], "  zerostack Quickstart");
    assert_eq!(n, 28);
    let before = feed_texts(r.feed_mut());
    handle_welcome(&mut r);
    assert_eq!(r.feed().block_count(), 2 * n);
    let after = feed_texts(r.feed_mut());
    assert_eq!(after[..before.len()], before[..]);
    assert_eq!(after[before.len()..], before[..]);
    handle_tutor(&mut r, None, SIZE);
    assert_eq!(r.feed().block_count(), 2 * n);
    handle_tutor(&mut r, Some("no pager"), SIZE);
    assert!(feed_texts(r.feed_mut()).iter().any(|t| t.contains("no pager")));
}

#[test]
fn the_terminal_is_left_as_it_was_found() {
    let guard = TerminalGuard::new(true);
    let enter: Vec<TermOp> = guard.enter().iter().map(|s| s.op).collect();
    assert_eq!(
        enter,
        vec![
            TermOp::EnterAlternateScreen,
            TermOp::ClearAll,
            TermOp::EnableMouseCapture,
            TermOp::EnableBracketedPaste,
            TermOp::PushKeyboardFlags,
            TermOp::EnableRawMode
        ]
    );
    let leave: Vec<TermOp> = guard.leave().iter().map(|s| s.op).collect();
    assert_eq!(
        leave,
        vec![
            TermOp::DisableRawMode,
            TermOp::PopKeyboardFlags,
            TermOp::DisableBracketedPaste,
            TermOp::DisableMouseCapture,
            TermOp::LeaveAlternateScreen,
            TermOp::Flush
        ]
    );
    let plain = TerminalGuard::new(false);
    let enter: Vec<TermOp> = plain.enter().iter().map(|s| s.op).collect();
    assert_eq!(enter[..2], [TermOp::ClearAll, TermOp::MoveHome]);
    assert!(!enter.contains(&TermOp::EnableMouseCapture));
    let leave: Vec<TermOp> = plain.leave().iter().map(|s| s.op).collect();
    assert_eq!(leave[leave.len() - 2..], [TermOp::NewLine, TermOp::Flush]);
    // Only the keyboard flags may be missing from a terminal.
    assert!(plain.enter().iter().all(|s| s.required != (s.op == TermOp::PushKeyboardFlags)));
    assert!(suspend(true).iter().any(|s| s.op == TermOp::LeaveAlternateScreen));
    assert!(resume(true).iter().any(|s| s.op == TermOp::EnterAlternateScreen));
}
