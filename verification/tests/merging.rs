//! Merging a worktree on the way out.

use zerostack_ui::color::{Color, C_AGENT, C_ERROR, C_PERM};
use zerostack_ui::flow::ChainState;
use zerostack_ui::keys::KeyCode;
use zerostack_ui::merging::{
    handle_worktree_auto_merge, interrupt_resolving, MergeInput, MergeStage,
};
use zerostack_ui::steps::{Action, Step};
use zerostack_ui::submit::MergeRequest;
use zerostack_ui::turn::RunState;

fn says(text: &str, color: Color) -> Step {
    Step::WriteLine(text.to_string(), color)
}

fn request() -> MergeRequest {
    MergeRequest {
        branch: "b".to_string(),
        target: "main".to_string(),
        main_path: "/repo".to_string(),
        wt_path: "/wt".to_string(),
        force: false,
    }
}

fn go(stage: MergeStage, input: MergeInput) -> (MergeStage, Vec<Step>) {
    let mut run = RunState::idle();
    let mut chain = ChainState::empty();
    handle_worktree_auto_merge(stage, &input, &request(), &mut run, &mut chain)
}

#[test]
fn a_clean_worktree_is_merged_and_cleaned_up() {
    let (stage, steps) = go(MergeStage::Idle, MergeInput::Begin { uncommitted: false });
    assert_eq!(stage, MergeStage::Merging);
    assert_eq!(steps, vec![says("auto-merging worktree 'b' into 'main'...", C_AGENT)]);
    let (stage, steps) = go(stage, MergeInput::Merged);
    assert_eq!((stage, steps.len()), (MergeStage::CleaningUp, 0));
    let (done, steps) = go(stage, MergeInput::CleanedUp(None));
    assert_eq!(done, MergeStage::Over);
    assert_eq!(steps, vec![says("merged 'b' into 'main' and cleaned up", C_AGENT)]);
    assert_eq!(
        go(stage, MergeInput::CleanedUp(Some("e".to_string()))).1,
        vec![says("merge succeeded but cleanup failed: e", C_ERROR)]
    );
}

#[test]
fn uncommitted_changes_are_asked_about() {
    let (stage, steps) = go(MergeStage::Idle, MergeInput::Begin { uncommitted: true });
    assert_eq!(stage, MergeStage::Asking);
    assert_eq!(
        steps[1..],
        [
            says(
                "worktree has uncommitted changes. [c]ommit all and continue  [a]bort merge",
                C_PERM
            ),
            Step::Act(Action::SignalConflict)
        ]
    );
    assert_eq!(go(stage, MergeInput::Press(KeyCode::Char('x'))), (MergeStage::Asking, vec![]));
    let (committing, _) = go(stage, MergeInput::Press(KeyCode::Char('C')));
    assert_eq!(committing, MergeStage::Committing);
    let (merging, steps) = go(committing, MergeInput::Committed(None));
    assert_eq!(merging, MergeStage::Merging);
    assert_eq!(
        steps,
        vec![says("committed all worktree changes, proceeding with merge", C_AGENT)]
    );
    let (over, steps) = go(committing, MergeInput::Committed(Some("e".to_string())));
    assert_eq!(over, MergeStage::Over);
    assert_eq!(
        steps,
        vec![
            says("auto-commit failed: e", C_ERROR),
            says("merge failed: aborted by user", C_ERROR)
        ]
    );
    for key in [KeyCode::Char('a'), KeyCode::Enter, KeyCode::Esc] {
        let (over, steps) = go(stage, MergeInput::Press(key));
        assert_eq!(over, MergeStage::Over);
        assert_eq!(steps[0], says("merge aborted, worktree left untouched", C_AGENT));
    }
}

#[test]
fn conflicts_are_listed_and_answered() {
    let files = vec!["x.rs".to_string(), "y.rs".to_string()];
    let (stage, steps) = go(MergeStage::Merging, MergeInput::Conflicts(files));
    assert_eq!(stage, MergeStage::Conflict);
    assert_eq!(
        steps,
        vec![
            says("merge conflict in 2 file(s):", C_ERROR),
            says("  x.rs", C_ERROR),
            says("  y.rs", C_ERROR),
            Step::Act(Action::SignalConflict),
            says("[a]bort  [l]eave for manual resolution  [h]elp (agent resolves)", C_PERM)
        ]
    );
    let (over, steps) = go(stage, MergeInput::Press(KeyCode::Char('l')));
    assert_eq!(over, MergeStage::Over);
    assert_eq!(steps, vec![says("conflict state left in /repo for manual resolution", C_AGENT)]);
    let (_, steps) = go(stage, MergeInput::Press(KeyCode::Esc));
    assert_eq!(steps[0], Step::Act(Action::CancelMerge));
    assert!(matches!(&steps[1], Step::CleanUp(w) if w.wt_path == "/wt"));
    assert_eq!(steps[2], says("merge aborted, restored original state", C_AGENT));
}

#[test]
fn the_agent_resolves_conflicts() {
    let mut run = RunState::idle();
    run.response_buf = "stale".to_string();
    let mut chain = ChainState::empty();
    let (stage, steps) = handle_worktree_auto_merge(
        MergeStage::Conflict,
        &MergeInput::Press(KeyCode::Char('h')),
        &request(),
        &mut run,
        &mut chain,
    );
    assert_eq!(stage, MergeStage::Resolving);
    assert_eq!(steps[1], says("agent resolving merge...", C_AGENT));
    assert!(run.is_running);
    assert_eq!(run.response_buf, "");
    assert!(chain.wt_return.is_some());
    let steps = interrupt_resolving(&mut run);
    assert!(!run.is_running);
    assert_eq!(
        steps,
        vec![
            Step::Act(Action::AbortRun),
            Step::Act(Action::KillSandbox),
            Step::Act(Action::SignalStop),
            Step::Act(Action::DropReceiver)
        ]
    );
}

#[test]
fn a_merge_that_is_over_stays_over() {
    assert_eq!(go(MergeStage::Over, MergeInput::Merged), (MergeStage::Over, vec![]));
    assert_eq!(
        go(MergeStage::Merging, MergeInput::Failed("e".to_string())),
        (MergeStage::Over, vec![says("merge failed: e", C_ERROR)])
    );
}
