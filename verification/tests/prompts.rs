//! Prompts and permission modes.

use zerostack_ui::prompts::{
    among, apply_current_prompt_mode, apply_mode_directive, apply_prompt_mode, find_phase,
    restore_user_mode, ChainPhase, ChainRule, ContextFiles, NamedPrompt, PermState,
    PromptModeOutcome, PromptText, SecurityMode,
};

fn perm(mode: SecurityMode) -> Option<PermState> {
    Some(PermState { user_mode: SecurityMode::Standard, mode })
}

fn text(raw: &str, directive: Option<&str>, mode: Option<SecurityMode>, clean: &str) -> PromptText {
    PromptText {
        raw: raw.to_string(),
        directive: directive.map(|s| s.to_string()),
        mode,
        clean: clean.to_string(),
    }
}

fn context(prompts: Vec<NamedPrompt>) -> ContextFiles {
    ContextFiles {
        prompts,
        current_prompt: None,
        current_prompt_name: None,
        chain_declined: vec![],
        one_shot_restore: None,
    }
}

#[test]
fn directives_set_the_mode() {
    let mut p = perm(SecurityMode::Standard);
    assert_eq!(
        apply_mode_directive(Some("yolo"), Some(SecurityMode::Yolo), &mut p),
        PromptModeOutcome::Applied(SecurityMode::Yolo)
    );
    assert_eq!(p, perm(SecurityMode::Yolo));
    assert_eq!(
        apply_mode_directive(Some("last_user_mode"), None, &mut p),
        PromptModeOutcome::RestoredUserMode
    );
    assert_eq!(p, perm(SecurityMode::Standard));
    assert_eq!(apply_mode_directive(Some("odd"), None, &mut p), PromptModeOutcome::Unchanged);
    assert_eq!(apply_mode_directive(None, None, &mut p), PromptModeOutcome::Unchanged);
    let mut none = None;
    assert_eq!(
        apply_mode_directive(Some("yolo"), Some(SecurityMode::Yolo), &mut none),
        PromptModeOutcome::Unchanged
    );
    assert_eq!(none, None);
}

#[test]
fn prompts_are_selected() {
    let mut c = context(vec![
        NamedPrompt { name: "a".to_string(), text: text("raw a", None, None, "") },
        NamedPrompt {
            name: "b".to_string(),
            text: text("%%mode=x\nrest", Some("x"), None, "rest"),
        },
    ]);
    let mut p = perm(SecurityMode::Standard);
    assert_eq!(apply_prompt_mode("b", &mut c, &mut p), PromptModeOutcome::Unchanged);
    assert_eq!(c.current_prompt, Some("rest".to_string()));
    assert_eq!(c.current_prompt_name, Some("b".to_string()));
    apply_prompt_mode("a", &mut c, &mut p);
    assert_eq!(c.current_prompt, Some("raw a".to_string()));
    apply_prompt_mode("none", &mut c, &mut p);
    assert_eq!(c.current_prompt_name, Some("a".to_string()));
    assert!(c.contains("b"));
    assert!(!c.contains("c"));
}

#[test]
fn a_reloaded_prompt_is_stripped() {
    let mut c = context(vec![]);
    let mut p = perm(SecurityMode::Standard);
    apply_current_prompt_mode(&mut c, None, &mut p);
    assert_eq!(c.current_prompt, None);
    c.current_prompt = Some("%%mode=guarded\nx".to_string());
    let read = text("%%mode=guarded\nx", Some("guarded"), Some(SecurityMode::Guarded), "x");
    apply_current_prompt_mode(&mut c, Some(&read), &mut p);
    assert_eq!(c.current_prompt, Some("x".to_string()));
    assert_eq!(p, perm(SecurityMode::Guarded));
    restore_user_mode(&mut p);
    assert_eq!(p, perm(SecurityMode::Standard));
}

#[test]
fn phases_follow_prompts() {
    let rules = vec![ChainRule {
        prompt: "plan".to_string(),
        phase: ChainPhase {
            label: "l".to_string(),
            next_prompt: "code".to_string(),
            message: "m".to_string(),
        },
    }];
    assert_eq!(find_phase(&rules, "plan").unwrap().next_prompt, "code");
    assert!(find_phase(&rules, "code").is_none());
    assert!(among(&vec!["x".to_string()], "x"));
    assert!(!among(&vec!["x".to_string()], "y"));
}
