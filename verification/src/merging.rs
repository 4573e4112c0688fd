//! Merging a worktree when the program ends.

use vstd::prelude::*;

use crate::color::{C_AGENT, C_ERROR, C_PERM};
use crate::commands::{spawn_merge_agent, spawn_steps, worktree_of};
use crate::flow::{ChainState, ChainView};
use crate::keys::KeyCode;
use crate::session::MessageRole;
use crate::steps::{
    act, cat, cat3, cat5, copy_text, push_act, push_all, push_says, push_step, says, step_views,
    Action, Step, StepView, Worktree,
};
use crate::submit::{merge_prompt_text, MergeRequest, MergeView};
use crate::text::{decimal, decimal_of, string_seqs};
use crate::turn::{RunState, RunView};

verus! {

/// How far a merge has come.
#[derive(Clone, Copy, Debug, PartialEq, Eq, Structural)]
pub enum MergeStage {
    /// Not begun.
    Idle,
    /// The user is asked about changes that are not committed.
    Asking,
    /// They are being committed.
    Committing,
    /// The merge is being tried.
    Merging,
    /// The worktree is being removed.
    CleaningUp,
    /// The user is asked about conflicts.
    Conflict,
    /// An agent resolves them.
    Resolving,
    /// It has ended.
    Over,
}

/// What a merge comes to know.
pub enum MergeInput {
    /// It is to begin.
    Begin { uncommitted: bool },
    /// The user pressed a key.
    Press(KeyCode),
    /// The changes are committed, or why not.
    Committed(Option<String>),
    /// The merge succeeded.
    Merged,
    /// The merge met conflicts in files.
    Conflicts(Vec<String>),
    /// The merge failed.
    Failed(String),
    /// The worktree is removed, or why not.
    CleanedUp(Option<String>),
}

/// What the user may decide about conflicts.
#[derive(Clone, Copy, Debug, PartialEq, Eq, Structural)]
pub enum ConflictAnswer {
    Abort,
    Leave,
    Help,
}

/// Whether a key commits, or gives the merge up.
pub open spec fn commit_answer(code: KeyCode) -> Option<bool> {
    match code {
        KeyCode::Char(c) => if c == 'c' || c == 'C' {
            Some(true)
        } else if c == 'a' || c == 'A' {
            Some(false)
        } else {
            None
        },
        KeyCode::Enter | KeyCode::Esc => Some(false),
        _ => None,
    }
}

/// What a key decides about conflicts.
pub open spec fn conflict_answer(code: KeyCode) -> Option<ConflictAnswer> {
    match code {
        KeyCode::Char(c) => if c == 'a' || c == 'A' {
            Some(ConflictAnswer::Abort)
        } else if c == 'l' || c == 'L' {
            Some(ConflictAnswer::Leave)
        } else if c == 'h' || c == 'H' {
            Some(ConflictAnswer::Help)
        } else {
            None
        },
        KeyCode::Enter | KeyCode::Esc => Some(ConflictAnswer::Abort),
        _ => None,
    }
}

/// The next stage of a merge.
pub open spec fn stage_after(stage: MergeStage, input: MergeInput) -> MergeStage {
    match (stage, input) {
        (MergeStage::Idle, MergeInput::Begin { uncommitted }) => if uncommitted {
            MergeStage::Asking
        } else {
            MergeStage::Merging
        },
        (MergeStage::Asking, MergeInput::Press(code)) => match commit_answer(code) {
            Some(true) => MergeStage::Committing,
            Some(false) => MergeStage::Over,
            None => MergeStage::Asking,
        },
        (MergeStage::Committing, MergeInput::Committed(failure)) => if failure is None {
            MergeStage::Merging
        } else {
            MergeStage::Over
        },
        (MergeStage::Merging, MergeInput::Merged) => MergeStage::CleaningUp,
        (MergeStage::Merging, MergeInput::Conflicts(_)) => MergeStage::Conflict,
        (MergeStage::Merging, MergeInput::Failed(_)) => MergeStage::Over,
        (MergeStage::CleaningUp, MergeInput::CleanedUp(_)) => MergeStage::Over,
        (MergeStage::Conflict, MergeInput::Press(code)) => match conflict_answer(code) {
            Some(ConflictAnswer::Help) => MergeStage::Resolving,
            Some(_) => MergeStage::Over,
            None => MergeStage::Conflict,
        },
        _ => stage,
    }
}

/// The files of a conflict.
pub open spec fn file_lines(files: Seq<Seq<char>>) -> Seq<StepView> {
    files.map_values(|f: Seq<char>| says("  "@ + f, C_ERROR))
}

/// That a merge did not come about.
pub open spec fn merge_failed(why: Seq<char>) -> StepView {
    says("merge failed: "@ + why, C_ERROR)
}

/// What the decision about conflicts does.
pub open spec fn conflict_steps(m: MergeView, a: ConflictAnswer) -> Seq<StepView> {
    match a {
        ConflictAnswer::Abort => seq![
            act(Action::CancelMerge),
            StepView::CleanUp(worktree_of(m)),
            says("merge aborted, restored original state"@, C_AGENT),
        ],
        ConflictAnswer::Leave => seq![
            says(
                "conflict state left in "@ + m.main_path + " for manual resolution"@,
                C_AGENT,
            ),
        ],
        ConflictAnswer::Help => seq![
            act(Action::CancelMerge),
            says("agent resolving merge..."@, C_AGENT),
            StepView::AddMessage(MessageRole::User, merge_prompt_text(m)),
        ] + spawn_steps(merge_prompt_text(m)),
    }
}

/// What a merge does next.
pub open spec fn merge_stage_steps(stage: MergeStage, input: MergeInput, m: MergeView) -> Seq<
    StepView,
> {
    match (stage, input) {
        (MergeStage::Idle, MergeInput::Begin { uncommitted }) => seq![
            says(
                "auto-merging worktree '"@ + m.branch + "' into '"@ + m.target + "'..."@,
                C_AGENT,
            ),
        ] + (if uncommitted {
            seq![
                says(
                    "worktree has uncommitted changes. [c]ommit all and continue  [a]bort merge"@,
                    C_PERM,
                ),
                act(Action::SignalConflict),
            ]
        } else {
            Seq::empty()
        }),
        (MergeStage::Asking, MergeInput::Press(code)) => if commit_answer(code) == Some(false) {
            seq![
                says("merge aborted, worktree left untouched"@, C_AGENT),
                merge_failed("aborted by user"@),
            ]
        } else {
            Seq::empty()
        },
        (MergeStage::Committing, MergeInput::Committed(failure)) => match failure {
            None => seq![
                says("committed all worktree changes, proceeding with merge"@, C_AGENT),
            ],
            Some(e) => seq![
                says("auto-commit failed: "@ + e@, C_ERROR),
                merge_failed("aborted by user"@),
            ],
        },
        (MergeStage::Merging, MergeInput::Conflicts(files)) => seq![
            says("merge conflict in "@ + decimal(files@.len()) + " file(s):"@, C_ERROR),
        ] + file_lines(string_seqs(files@)) + seq![
            act(Action::SignalConflict),
            says("[a]bort  [l]eave for manual resolution  [h]elp (agent resolves)"@, C_PERM),
        ],
        (MergeStage::Merging, MergeInput::Failed(e)) => seq![merge_failed(e@)],
        (MergeStage::CleaningUp, MergeInput::CleanedUp(failure)) => seq![
            match failure {
                None => says(
                    "merged '"@ + m.branch + "' into '"@ + m.target + "' and cleaned up"@,
                    C_AGENT,
                ),
                Some(e) => says("merge succeeded but cleanup failed: "@ + e@, C_ERROR),
            },
        ],
        (MergeStage::Conflict, MergeInput::Press(code)) => match conflict_answer(code) {
            Some(a) => conflict_steps(m, a),
            None => Seq::empty(),
        },
        _ => Seq::empty(),
    }
}

/// Whether a key commits, or gives the merge up.
fn commits(code: KeyCode) -> (r: Option<bool>)
    ensures
        r == commit_answer(code),
{
    match code {
        KeyCode::Char(c) => {
            if c == 'c' || c == 'C' {
                Some(true)
            } else if c == 'a' || c == 'A' {
                Some(false)
            } else {
                None
            }
        },
        KeyCode::Enter => Some(false),
        KeyCode::Esc => Some(false),
        _ => None,
    }
}

/// What a key decides about conflicts.
fn decides(code: KeyCode) -> (r: Option<ConflictAnswer>)
    ensures
        r == conflict_answer(code),
{
    match code {
        KeyCode::Char(c) => {
            if c == 'a' || c == 'A' {
                Some(ConflictAnswer::Abort)
            } else if c == 'l' || c == 'L' {
                Some(ConflictAnswer::Leave)
            } else if c == 'h' || c == 'H' {
                Some(ConflictAnswer::Help)
            } else {
                None
            }
        },
        KeyCode::Enter => Some(ConflictAnswer::Abort),
        KeyCode::Esc => Some(ConflictAnswer::Abort),
        _ => None,
    }
}

/// Reports conflicts.
fn push_conflicts(out: &mut Vec<Step>, files: &Vec<String>)
    ensures
        step_views(final(out)@) == step_views(old(out)@) + (seq![
            says("merge conflict in "@ + decimal(files@.len()) + " file(s):"@, C_ERROR),
        ] + file_lines(string_seqs(files@)) + seq![
            act(Action::SignalConflict),
            says("[a]bort  [l]eave for manual resolution  [h]elp (agent resolves)"@, C_PERM),
        ]),
{
    let ghost fs = string_seqs(files@);
    let ghost before = step_views(out@);
    let n: usize = files.len();
    assert(fs.len() == n);
    let head = cat3("merge conflict in ", decimal_of(n as u64).as_str(), " file(s):");
    push_says(out, head.as_str(), C_ERROR);
    let ghost start = step_views(out@);
    assert(start + file_lines(fs.take(0)) =~= start);
    for i in 0..n
        invariant
            n == files@.len(),
            fs == string_seqs(files@),
            step_views(out@) == start + file_lines(fs.take(i as int)),
    {
        push_says(out, cat("  ", files[i].as_str()).as_str(), C_ERROR);
        assert((start + file_lines(fs.take(i as int))).push(
            says("  "@ + fs[i as int], C_ERROR),
        ) =~= start + file_lines(fs.take(i + 1)));
    }
    assert(fs.take(n as int) =~= fs);
    push_act(out, Action::SignalConflict);
    push_says(
        out,
        "[a]bort  [l]eave for manual resolution  [h]elp (agent resolves)",
        C_PERM,
    );
    assert(step_views(out@) =~= before + (seq![
        says("merge conflict in "@ + decimal(files@.len()) + " file(s):"@, C_ERROR),
    ] + file_lines(fs) + seq![
        act(Action::SignalConflict),
        says("[a]bort  [l]eave for manual resolution  [h]elp (agent resolves)"@, C_PERM),
    ]));
}

/// Does what was decided about conflicts.
fn push_decision(
    out: &mut Vec<Step>,
    a: ConflictAnswer,
    m: &MergeRequest,
    run: &mut RunState,
    chain: &mut ChainState,
)
    ensures
        step_views(final(out)@) == step_views(old(out)@) + conflict_steps(m@, a),
        final(run)@ == (if a is Help {
            RunView { is_running: true, ..old(run)@.unanswered() }
        } else {
            old(run)@
        }),
        final(chain)@ == (if a is Help {
            ChainView { wt_return: Some(worktree_of(m@)), ..old(chain)@ }
        } else {
            old(chain)@
        }),
{
    match a {
        ConflictAnswer::Abort => {
            push_act(out, Action::CancelMerge);
            push_step(
                out,
                Step::CleanUp(
                    Worktree {
                        main_path: copy_text(m.main_path.as_str()),
                        wt_path: copy_text(m.wt_path.as_str()),
                        branch: copy_text(m.branch.as_str()),
                        force: m.force,
                    },
                ),
            );
            push_says(out, "merge aborted, restored original state", C_AGENT);
        },
        ConflictAnswer::Leave => {
            let line = cat3(
                "conflict state left in ",
                m.main_path.as_str(),
                " for manual resolution",
            );
            push_says(out, line.as_str(), C_AGENT);
        },
        ConflictAnswer::Help => {
            push_act(out, Action::CancelMerge);
            push_says(out, "agent resolving merge...", C_AGENT);
            let rest = spawn_merge_agent(m, run, chain);
            push_all(out, rest);
            run.forget_answer();
        },
    }
    assert(step_views(out@) =~= step_views(old(out)@) + conflict_steps(m@, a));
}

/// Takes a merge further. At the stages `Committing`, `Merging` and
/// `CleaningUp` the work of that name is to be done, and what came of it handed
/// in; at `Asking` and `Conflict` the user is to press a key.
pub fn handle_worktree_auto_merge(
    stage: MergeStage,
    input: &MergeInput,
    m: &MergeRequest,
    run: &mut RunState,
    chain: &mut ChainState,
) -> (r: (MergeStage, Vec<Step>))
    ensures
        r.0 == stage_after(stage, *input),
        step_views(r.1@) == merge_stage_steps(stage, *input, m@),
        final(run)@ == (if r.0 is Resolving && stage is Conflict {
            RunView { is_running: true, ..old(run)@.unanswered() }
        } else {
            old(run)@
        }),
        final(chain)@ == (if r.0 is Resolving && stage is Conflict {
            ChainView { wt_return: Some(worktree_of(m@)), ..old(chain)@ }
        } else {
            old(chain)@
        }),
{
    let mut out: Vec<Step> = Vec::new();
    let mut next: MergeStage = stage;
    match (stage, input) {
        (MergeStage::Idle, MergeInput::Begin { uncommitted }) => {
            let line = cat5(
                "auto-merging worktree '",
                m.branch.as_str(),
                "' into '",
                m.target.as_str(),
                "'...",
            );
            push_says(&mut out, line.as_str(), C_AGENT);
            if *uncommitted {
                push_says(
                    &mut out,
                    "worktree has uncommitted changes. [c]ommit all and continue  [a]bort merge",
                    C_PERM,
                );
                push_act(&mut out, Action::SignalConflict);
                next = MergeStage::Asking;
            } else {
                next = MergeStage::Merging;
            }
        },
        (MergeStage::Asking, MergeInput::Press(code)) => match commits(*code) {
            Some(true) => {
                next = MergeStage::Committing;
            },
            Some(false) => {
                push_says(&mut out, "merge aborted, worktree left untouched", C_AGENT);
                push_says(&mut out, cat("merge failed: ", "aborted by user").as_str(), C_ERROR);
                next = MergeStage::Over;
            },
            None => {},
        },
        (MergeStage::Committing, MergeInput::Committed(failure)) => match failure {
            None => {
                push_says(
                    &mut out,
                    "committed all worktree changes, proceeding with merge",
                    C_AGENT,
                );
                next = MergeStage::Merging;
            },
            Some(e) => {
                push_says(&mut out, cat("auto-commit failed: ", e.as_str()).as_str(), C_ERROR);
                push_says(&mut out, cat("merge failed: ", "aborted by user").as_str(), C_ERROR);
                next = MergeStage::Over;
            },
        },
        (MergeStage::Merging, MergeInput::Merged) => {
            next = MergeStage::CleaningUp;
        },
        (MergeStage::Merging, MergeInput::Conflicts(files)) => {
            push_conflicts(&mut out, files);
            next = MergeStage::Conflict;
        },
        (MergeStage::Merging, MergeInput::Failed(e)) => {
            push_says(&mut out, cat("merge failed: ", e.as_str()).as_str(), C_ERROR);
            next = MergeStage::Over;
        },
        (MergeStage::CleaningUp, MergeInput::CleanedUp(failure)) => {
            match failure {
                None => {
                    let line = cat5(
                        "merged '",
                        m.branch.as_str(),
                        "' into '",
                        m.target.as_str(),
                        "' and cleaned up",
                    );
                    push_says(&mut out, line.as_str(), C_AGENT);
                },
                Some(e) => {
                    push_says(
                        &mut out,
                        cat("merge succeeded but cleanup failed: ", e.as_str()).as_str(),
                        C_ERROR,
                    );
                },
            }
            next = MergeStage::Over;
        },
        (MergeStage::Conflict, MergeInput::Press(code)) => {
            if let Some(a) = decides(*code) {
                push_decision(&mut out, a, m, run, chain);
                next = if a == ConflictAnswer::Help {
                    MergeStage::Resolving
                } else {
                    MergeStage::Over
                };
            }
        },
        _ => {},
    }
    assert(step_views(out@) =~= merge_stage_steps(stage, *input, m@));
    (next, out)
}

/// Interrupts the agent that resolves conflicts.
pub fn interrupt_resolving(run: &mut RunState) -> (r: Vec<Step>)
    ensures
        final(run)@ == (RunView { is_running: false, ..old(run)@ }),
        step_views(r@) == seq![
            act(Action::AbortRun),
            act(Action::KillSandbox),
            act(Action::SignalStop),
            act(Action::DropReceiver),
        ],
{
    let mut out: Vec<Step> = Vec::new();
    push_act(&mut out, Action::AbortRun);
    push_act(&mut out, Action::KillSandbox);
    run.is_running = false;
    push_act(&mut out, Action::SignalStop);
    push_act(&mut out, Action::DropReceiver);
    assert(step_views(out@) =~= seq![
        act(Action::AbortRun),
        act(Action::KillSandbox),
        act(Action::SignalStop),
        act(Action::DropReceiver),
    ]);
    out
}

/// A merge is only tried where nothing is left uncommitted, or it has all been
/// committed.
pub proof fn lemma_merge_needs_commit(stage: MergeStage, input: MergeInput)
    requires
        !(stage is Merging),
        stage_after(stage, input) is Merging,
    ensures
        input == (MergeInput::Begin { uncommitted: false }) || input
            == MergeInput::Committed(None),
{
}

/// A merge that has ended stays so, and does nothing more.
pub proof fn lemma_merge_over(input: MergeInput, m: MergeView)
    ensures
        stage_after(MergeStage::Over, input) is Over,
        merge_stage_steps(MergeStage::Over, input, m) == Seq::<StepView>::empty(),
{
}

/// A worktree is only removed where the user gives up a merge with conflicts, and an
/// agent is only let loose on one where the user asks for help. Leaving a conflict
/// changes nothing.
pub proof fn lemma_merge_asks_first(stage: MergeStage, input: MergeInput, m: MergeView, i: int)
    requires
        0 <= i < merge_stage_steps(stage, input, m).len(),
    ensures
        ({
            let step = merge_stage_steps(stage, input, m)[i];
            &&& step is CleanUp || step == act(Action::CancelMerge) ==> stage is Conflict && (input
                matches MergeInput::Press(code) && (code is Enter || code is Esc || code
                == KeyCode::Char('a') || code == KeyCode::Char('A') || code == KeyCode::Char('h')
                || code == KeyCode::Char('H')))
            &&& step is CleanUp ==> stage_after(stage, input) is Over && step
                == StepView::CleanUp(worktree_of(m))
            &&& step is Spawn || step is AddMessage ==> stage is Conflict && (input
                == MergeInput::Press(KeyCode::Char('h')) || input == MergeInput::Press(
                KeyCode::Char('H'),
            )) && stage_after(stage, input) is Resolving
        }),
{
}

/// Every file of a conflict is named, and every failure is told with its reason.
pub proof fn lemma_merge_tells(m: MergeView, input: MergeInput)
    ensures
        match input {
            MergeInput::Conflicts(files) => {
                &&& stage_after(MergeStage::Merging, input) is Conflict
                &&& forall|i: int|
                    0 <= i < files@.len() ==> merge_stage_steps(
                        MergeStage::Merging,
                        input,
                        m,
                    ).contains(StepView::WriteLine("  "@ + (#[trigger] files@[i])@, C_ERROR))
            },
            MergeInput::Failed(e) => {
                &&& stage_after(MergeStage::Merging, input) is Over
                &&& merge_stage_steps(MergeStage::Merging, input, m).contains(
                    StepView::WriteLine("merge failed: "@ + e@, C_ERROR),
                )
            },
            MergeInput::CleanedUp(Some(e)) => merge_stage_steps(
                MergeStage::CleaningUp,
                input,
                m,
            ).contains(
                StepView::WriteLine("merge succeeded but cleanup failed: "@ + e@, C_ERROR),
            ),
            MergeInput::Committed(Some(e)) => {
                &&& stage_after(MergeStage::Committing, input) is Over
                &&& merge_stage_steps(MergeStage::Committing, input, m).contains(
                    StepView::WriteLine("auto-commit failed: "@ + e@, C_ERROR),
                )
            },
            _ => true,
        },
{
    match input {
        MergeInput::Conflicts(files) => {
            let steps = merge_stage_steps(MergeStage::Merging, input, m);
            let fs = string_seqs(files@);
            assert forall|i: int| 0 <= i < files@.len() implies steps.contains(
                StepView::WriteLine("  "@ + (#[trigger] files@[i])@, C_ERROR),
            ) by {
                assert(fs[i] == files@[i]@);
                assert(file_lines(fs)[i] == says("  "@ + fs[i], C_ERROR));
                assert(steps[i + 1] == file_lines(fs)[i]);
            }
        },
        MergeInput::Failed(e) => {
            let steps = merge_stage_steps(MergeStage::Merging, input, m);
            assert(steps[0] == StepView::WriteLine("merge failed: "@ + e@, C_ERROR));
        },
        MergeInput::CleanedUp(Some(e)) => {
            let steps = merge_stage_steps(MergeStage::CleaningUp, input, m);
            assert(steps[0] == StepView::WriteLine(
                "merge succeeded but cleanup failed: "@ + e@,
                C_ERROR,
            ));
        },
        MergeInput::Committed(Some(e)) => {
            let steps = merge_stage_steps(MergeStage::Committing, input, m);
            assert(steps[0] == StepView::WriteLine("auto-commit failed: "@ + e@, C_ERROR));
        },
        _ => {},
    }
}

} // verus!
