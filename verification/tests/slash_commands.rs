//! Slash commands, compression, models and reviews.

use zerostack_ui::color::{Color, C_AGENT, C_ERROR};
use zerostack_ui::help::Features;
use zerostack_ui::prompts::{ContextFiles, NamedPrompt, PromptText};
use zerostack_ui::session::{undo_last, Compaction, Message, MessageRole, Session};
use zerostack_ui::slash::{
    begin_compress, build_default_review_message, command_group, compress_wanted, end_compress,
    handle_review, handle_slash, is_in_worktree, is_session_empty, parts_of, plan_prompt_model,
    switch_to_prompt_model, tokens_before, CommandGroup, ModelInUse, ModelPlan, QuickModel,
};
use zerostack_ui::steps::{Action, Step, Telling};

fn says(text: &str, color: Color) -> Step {
    Step::WriteLine(text.to_string(), color)
}

const ALL: Features = Features {
    export: true,
    mcp: true,
    advisor: true,
    looping: true,
    git_worktree: true,
    hooks: true,
    subagents: true,
};

const NONE: Features = Features {
    export: false,
    mcp: false,
    advisor: false,
    looping: false,
    git_worktree: false,
    hooks: false,
    subagents: false,
};

fn message(role: MessageRole, tokens: u64) -> Message {
    Message { role, content: "m".to_string(), estimated_tokens: tokens }
}

fn session(messages: Vec<Message>) -> Session {
    Session { messages, compactions: vec![], undone: vec![] }
}

#[test]
fn commands_are_split_in_three() {
    assert_eq!(parts_of("  /a b  c d "), vec!["/a", "b", " c d"]);
    assert_eq!(parts_of("/a"), vec!["/a"]);
    assert_eq!(parts_of(""), vec![""]);
}

#[test]
fn commands_are_grouped() {
    for (name, group) in [
        ("/models-subagent", CommandGroup::Providers),
        ("/theme", CommandGroup::Content),
        ("/mcp", CommandGroup::Settings),
        ("/history", CommandGroup::Session),
        ("/share", CommandGroup::Session),
        ("/help", CommandGroup::Help),
        ("/tutorial", CommandGroup::Welcome),
        ("/tutor", CommandGroup::Tutor),
        ("/drop-all", CommandGroup::Files),
        ("/init", CommandGroup::Init),
        ("/review", CommandGroup::Review),
        ("/memory", CommandGroup::Memory),
        ("/wt-exit", CommandGroup::Features),
        ("/hooks", CommandGroup::Hooks),
        ("/nope", CommandGroup::Unknown),
    ] {
        assert_eq!(command_group(name, &ALL), group, "{}", name);
    }
    assert_eq!(command_group("/share", &NONE), CommandGroup::Unknown);
    assert_eq!(command_group("/hooks", &NONE), CommandGroup::Unknown);
}

#[test]
fn unknown_commands_are_told() {
    let (group, parts, steps) = handle_slash(" /nope x", &ALL);
    assert_eq!(group, CommandGroup::Unknown);
    assert_eq!(parts, vec!["/nope", "x"]);
    assert_eq!(steps, vec![says("unknown command: /nope (try /help)", C_ERROR)]);
    assert_eq!(handle_slash("/help", &ALL).2, vec![]);
}

#[test]
fn compression_is_announced_when_it_runs() {
    assert!(compress_wanted(false, 0, 100, 10));
    assert!(!compress_wanted(true, 90, 100, 10));
    assert!(compress_wanted(true, 91, 100, 10));
    assert!(compress_wanted(true, 1, 10, 100));
    assert_eq!(
        begin_compress(false, 0),
        (false, vec![says("not enough conversation history to compact yet", C_AGENT)])
    );
    assert_eq!(begin_compress(true, 0), (false, vec![]));
    assert_eq!(
        begin_compress(true, 3),
        (true, vec![says("auto-compacting...", Color::DarkGrey), says("", Color::White)])
    );
    assert_eq!(begin_compress(false, 3).1[0], says("compressing...", C_AGENT));
    let s = session(vec![
        message(MessageRole::User, 3),
        message(MessageRole::Assistant, 4),
        message(MessageRole::User, 5),
    ]);
    assert_eq!(tokens_before(&s, 2), 7);
    let mut t = session(vec![message(MessageRole::User, 3), message(MessageRole::User, 5)]);
    t.compress("before".to_string(), 1, 3);
    assert_eq!(t.messages.len(), 1);
    assert_eq!(t.messages[0].estimated_tokens, 5);
    assert_eq!((t.compactions[0].summary.as_str(), t.compactions[0].token_savings), ("before", 3));
    assert_eq!(
        end_compress(2, 7).last(),
        Some(&says("compressed 2 messages (saved ~7 tokens)", C_AGENT))
    );
}

fn quick(provider: &str) -> QuickModel {
    QuickModel {
        name: "fast".to_string(),
        model: "m2".to_string(),
        provider: provider.to_string(),
        input_cost: 0.25f64.to_bits(),
        output_cost: 1.5f64.to_bits(),
        window: 200_000,
    }
}

fn in_use() -> ModelInUse {
    ModelInUse {
        provider: "p".to_string(),
        model: "m1".to_string(),
        input_cost: 3.0f64.to_bits(),
        output_cost: 15.0f64.to_bits(),
        window: 128_000,
    }
}

#[test]
fn prompts_choose_models() {
    assert_eq!(plan_prompt_model(None, "p"), ModelPlan::Keep);
    assert_eq!(plan_prompt_model(Some(&quick("p")), "p"), ModelPlan::SwitchModel);
    assert_eq!(plan_prompt_model(Some(&quick("q")), "p"), ModelPlan::SwitchProvider);
    let mut u = in_use();
    assert_eq!(switch_to_prompt_model("ask", None, None, &mut u), (false, None));
    assert_eq!(u.model, "m1");
    assert_eq!(
        switch_to_prompt_model("ask", Some(&quick("q")), None, &mut u),
        (true, Some(says("switched to model: fast (from prompt 'ask')", C_AGENT)))
    );
    assert_eq!((u.provider.as_str(), u.model.as_str()), ("q", "m2"));
    assert_eq!(f64::from_bits(u.input_cost), 0.25);
    assert_eq!(f64::from_bits(u.output_cost), 1.5);
    assert_eq!(u.window, 200_000);
    let mut u = in_use();
    assert_eq!(
        switch_to_prompt_model("ask", Some(&quick("q")), Some("no key"), &mut u),
        (
            false,
            Some(says("failed to switch provider for prompt 'ask': no key", C_ERROR))
        )
    );
    assert_eq!((u.provider.as_str(), u.model.as_str()), ("p", "m1"));
    assert_eq!(f64::from_bits(u.input_cost), 3.0);
    assert_eq!(f64::from_bits(u.output_cost), 15.0);
    assert_eq!(u.window, 128_000);
    // A failure counts only where the provider changes.
    let mut u = in_use();
    assert!(switch_to_prompt_model("ask", Some(&quick("p")), Some("no key"), &mut u).0);
    assert_eq!((u.provider.as_str(), u.model.as_str()), ("p", "m2"));
    assert_eq!(u.window, 200_000);
}

#[test]
fn reviews_have_a_default_message() {
    assert!(build_default_review_message(true, true).starts_with("Review the current worktree"));
    assert_eq!(
        build_default_review_message(true, false),
        "Review the current codebase for correctness, design, testing, and security."
    );
    assert!(build_default_review_message(false, true).contains("this worktree session"));
    assert!(build_default_review_message(false, false).contains("discussed in this session"));
    assert!(is_session_empty(&session(vec![message(MessageRole::Assistant, 0)])));
    assert!(!is_session_empty(&session(vec![message(MessageRole::User, 0)])));
    assert!(is_in_worktree(true, Some("x")));
    assert!(!is_in_worktree(false, Some("x")));
    assert!(!is_in_worktree(true, None));
}

#[test]
fn a_review_runs_once() {
    let mut ctx = ContextFiles {
        prompts: vec![],
        current_prompt: None,
        current_prompt_name: Some("code".to_string()),
        chain_declined: vec![],
        one_shot_restore: None,
    };
    let mut perm = None;
    let parts = vec!["/review".to_string(), "the".to_string(), "tests".to_string()];
    let s = session(vec![]);
    let (deferred, steps) = handle_review(&parts, &s, false, &mut ctx, &mut perm);
    assert_eq!(deferred, None);
    assert_eq!(
        steps,
        vec![says("no 'review' prompt found. Run /regen-prompts first.", C_ERROR)]
    );
    ctx.prompts.push(NamedPrompt {
        name: "review".to_string(),
        text: PromptText {
            raw: "r".to_string(),
            directive: None,
            mode: None,
            clean: String::new(),
        },
    });
    let (deferred, steps) = handle_review(&parts, &s, false, &mut ctx, &mut perm);
    assert_eq!(deferred, Some("DEFER_REVIEW:the tests".to_string()));
    assert_eq!(
        steps,
        vec![
            Step::Tell(Telling::SwitchPromptModel, "review".to_string()),
            says("review: the tests", C_AGENT)
        ]
    );
    assert_eq!(ctx.one_shot_restore, Some("code".to_string()));
    assert_eq!(ctx.current_prompt_name, Some("review".to_string()));
}

#[test]
fn the_last_exchange_is_undone() {
    let mut s = session(vec![
        message(MessageRole::User, 0),
        message(MessageRole::Assistant, 0),
        message(MessageRole::Assistant, 0),
    ]);
    s.compactions.push(Compaction { summary: "so far".to_string(), token_savings: 7 });
    assert_eq!(undo_last(&mut s), 1);
    assert_eq!(undo_last(&mut s), 2);
    assert_eq!(undo_last(&mut s), 0);
    assert_eq!(s.undone.len(), 2);
    assert_eq!((s.compactions[0].summary.as_str(), s.compactions[0].token_savings), ("so far", 7));
    let mut t = session(vec![message(MessageRole::User, 0), message(MessageRole::System, 0)]);
    assert_eq!(undo_last(&mut t), 0);
    assert_eq!(t.messages.len(), 2);
    assert_eq!(end_compress(1, 1).contains(&Step::Act(Action::RenderSession)), true);
}
