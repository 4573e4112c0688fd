//! Keys, pastes and submitted lines.

use zerostack_ui::keys::{
    ends_on_failure, is_paste_newline_key, needs_peek, translate, EnterVerdict, Key, KeyCode,
    KeyModifiers, PasteBurst, RawInput, UserEvent, IDLE_POLL, PASTE_BURST_WINDOW,
};
use zerostack_ui::session::{Message, MessageRole, Session};
use zerostack_ui::submit::{
    allowed_while_running, classify_submission, merge_prompt, rewind_targets, MergeRequest,
    SubmitAction,
};

const NONE: KeyModifiers =
    KeyModifiers { shift: false, control: false, alt: false, other: false };
const CONTROL: KeyModifiers =
    KeyModifiers { shift: false, control: true, alt: false, other: false };
const SHIFT: KeyModifiers =
    KeyModifiers { shift: true, control: false, alt: false, other: false };

fn press(code: KeyCode, modifiers: KeyModifiers) -> RawInput {
    RawInput::Key { key: Key { code, modifiers }, pressed: true }
}

#[test]
fn pasted_line_breaks() {
    assert!(is_paste_newline_key(KeyCode::Enter, NONE));
    assert!(is_paste_newline_key(KeyCode::Char('j'), CONTROL));
    assert!(!is_paste_newline_key(KeyCode::Enter, SHIFT));
    assert!(!is_paste_newline_key(KeyCode::Char('j'), NONE));
    assert!(!is_paste_newline_key(
        KeyCode::Char('j'),
        KeyModifiers { shift: true, control: true, alt: false, other: false }
    ));
}

#[test]
fn a_paste_of_several_lines_lands_whole() {
    let mut b = PasteBurst::new();
    assert_eq!(b.wait_timeout(), IDLE_POLL);
    assert_eq!(b.on_enter(true), EnterVerdict::Newline);
    assert_eq!(b.wait_timeout(), PASTE_BURST_WINDOW);
    assert_eq!(b.on_enter(false), EnterVerdict::Newline);
    b.on_timeout();
    assert_eq!(b.on_enter(false), EnterVerdict::Submit);
}

#[test]
fn inputs_become_events() {
    let mut b = PasteBurst::new();
    let enter = press(KeyCode::Enter, NONE);
    assert!(needs_peek(&enter, &b));
    assert_eq!(
        translate(press(KeyCode::Enter, NONE), &mut b, true),
        Some(UserEvent::Paste("\n".to_string()))
    );
    assert!(b.active);
    assert!(!needs_peek(&enter, &b));
    b.on_timeout();
    let key = Key { code: KeyCode::Enter, modifiers: NONE };
    assert_eq!(translate(enter, &mut b, false), Some(UserEvent::Key(key)));
    let released = RawInput::Key { key, pressed: false };
    assert_eq!(translate(released, &mut b, true), None);
    assert_eq!(translate(RawInput::WheelUp, &mut b, false), Some(UserEvent::ScrollUp));
    assert_eq!(
        translate(RawInput::LeftDrag { row: 2, col: 3 }, &mut b, false),
        Some(UserEvent::MouseDrag { row: 2, col: 3 })
    );
    assert_eq!(translate(RawInput::Other, &mut b, false), None);
}

#[test]
fn undelivered_events() {
    let key = Key { code: KeyCode::Esc, modifiers: NONE };
    assert!(ends_on_failure(&UserEvent::Key(key), false));
    assert!(ends_on_failure(&UserEvent::ScrollDown, false));
    assert!(!ends_on_failure(&UserEvent::Resize, false));
    assert!(!ends_on_failure(&UserEvent::Paste(String::new()), false));
    assert!(ends_on_failure(&UserEvent::Paste("\n".to_string()), true));
}

#[test]
fn submissions_while_idle_run() {
    assert_eq!(classify_submission(false, "hello"), SubmitAction::Run);
    assert_eq!(classify_submission(false, "/help"), SubmitAction::Run);
    assert_eq!(classify_submission(false, ""), SubmitAction::Run);
}

#[test]
fn submissions_while_running() {
    assert_eq!(classify_submission(true, "hello"), SubmitAction::Queue);
    assert_eq!(classify_submission(true, "  \t"), SubmitAction::Ignore);
    assert_eq!(classify_submission(true, " /help"), SubmitAction::RejectWhileRunning);
    assert_eq!(classify_submission(true, ".ask x"), SubmitAction::RejectWhileRunning);
    assert_eq!(classify_submission(true, "!ls"), SubmitAction::RejectWhileRunning);
    assert_eq!(classify_submission(true, "/queue ls"), SubmitAction::Run);
    assert_eq!(classify_submission(true, "/btw why?"), SubmitAction::Run);
    assert_eq!(classify_submission(true, "/queuex"), SubmitAction::RejectWhileRunning);
}

#[test]
fn parallel_commands() {
    assert!(allowed_while_running("/queue"));
    assert!(allowed_while_running("  /btw x"));
    assert!(!allowed_while_running("/btwx"));
    assert!(!allowed_while_running("x /btw"));
}

fn message(role: MessageRole, content: &str) -> Message {
    Message { role, content: content.to_string(), estimated_tokens: 1 }
}

#[test]
fn rewind_offers_the_users_messages() {
    let long = "x".repeat(100);
    let session = Session {
        messages: vec![
            message(MessageRole::User, "one\ntwo"),
            message(MessageRole::Assistant, "answer"),
            message(MessageRole::User, &long),
        ],
        compactions: vec![],
        undone: vec![],
    };
    let targets = rewind_targets(&session);
    assert_eq!(targets[0], (0, "one two".to_string()));
    assert_eq!(targets[1], (2, "x".repeat(80)));
    assert_eq!(targets.len(), 2);
}

#[test]
fn merge_prompt_names_its_parts() {
    let m = MergeRequest {
        branch: "feat".to_string(),
        target: "main".to_string(),
        main_path: "/repo".to_string(),
        wt_path: "/wt".to_string(),
        force: true,
    };
    let p = merge_prompt(&m);
    assert!(p.starts_with("I'm in a git worktree on branch 'feat' at '/wt'. Merge it into 'main' in the main repo at '/repo'.\n\n"));
    assert!(p.contains("\n5. git merge --squash feat\n6. git commit --no-edit\n\nAfter step 5, CHECK"));
    assert!(p.contains("\n- git worktree remove --force /wt\n- git branch -D feat\n\n8. cd /repo"));
    let plain = merge_prompt(&MergeRequest { force: false, ..m });
    assert!(plain.contains("\n- git worktree remove  /wt\n- git branch -d feat\n"));
}
