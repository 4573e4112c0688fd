//! What becomes of a submitted line, and small texts about the conversation.

use vstd::prelude::*;

use crate::session::{MessageRole, MessageView, Session};
use crate::text::{chars_of, starts_with, trim_start, trim_start_of};

verus! {

/// What to do with a submitted line.
#[derive(Clone, Copy, Debug, PartialEq, Eq, Structural)]
pub enum SubmitAction {
    /// Act on it now.
    Run,
    /// Keep it until the current run is over.
    Queue,
    /// A command that cannot wait: refuse it.
    RejectWhileRunning,
    /// Nothing was entered.
    Ignore,
}

/// Whether `t` is the command `name`, alone or with arguments.
pub open spec fn is_command(t: Seq<char>, name: Seq<char>) -> bool {
    t == name || starts_with(t, name.push(' '))
}

/// Whether a line is a command that may run beside a main run.
pub open spec fn parallel_safe(text: Seq<char>) -> bool {
    let t = trim_start(text);
    is_command(t, "/queue"@) || is_command(t, "/btw"@)
}

/// What to do with a line.
pub open spec fn submission(is_running: bool, text: Seq<char>) -> SubmitAction {
    let t = trim_start(text);
    if !is_running || parallel_safe(text) {
        SubmitAction::Run
    } else if t.len() == 0 {
        SubmitAction::Ignore
    } else if t[0] == '/' || t[0] == '.' || t[0] == '!' {
        SubmitAction::RejectWhileRunning
    } else {
        SubmitAction::Queue
    }
}

/// Whether `v` is the command `name`, alone or with arguments.
pub fn command_matches(v: &Vec<char>, name: &str) -> (r: bool)
    ensures
        r == is_command(v@, name@),
{
    let n = chars_of(name);
    if v.len() < n.len() {
        return false;
    }
    let len: usize = n.len();
    for i in 0..len
        invariant
            len == n@.len() <= v@.len(),
            n@ == name@,
            forall|j: int| 0 <= j < i ==> v@[j] == n@[j],
    {
        if v[i] != n[i] {
            proof {
                let p = name@.push(' ');
                if starts_with(v@, p) {
                    assert(v@.take(p.len() as int)[i as int] == p[i as int]);
                }
            }
            return false;
        }
    }
    if v.len() == len {
        assert(v@ =~= name@);
        return true;
    }
    proof {
        let p = name@.push(' ');
        if v@[len as int] == ' ' {
            assert(v@.take(p.len() as int) =~= p);
        } else if starts_with(v@, p) {
            assert(v@.take(p.len() as int)[len as int] == p[len as int]);
        }
    }
    v[len] == ' '
}

/// Whether a line is a command that may run beside a main run.
pub fn allowed_while_running(text: &str) -> (r: bool)
    ensures
        r == parallel_safe(text@),
{
    let t = trim_start_of(&chars_of(text));
    command_matches(&t, "/queue") || command_matches(&t, "/btw")
}

/// What to do with a submitted line.
pub fn classify_submission(is_running: bool, text: &str) -> (r: SubmitAction)
    ensures
        r == submission(is_running, text@),
{
    if !is_running || allowed_while_running(text) {
        return SubmitAction::Run;
    }
    let t = trim_start_of(&chars_of(text));
    if t.len() == 0 {
        SubmitAction::Ignore
    } else if t[0] == '/' || t[0] == '.' || t[0] == '!' {
        SubmitAction::RejectWhileRunning
    } else {
        SubmitAction::Queue
    }
}

/// While a run is active, at most the parallel commands are acted on: no line
/// starts a second main run.
pub proof fn lemma_one_main_run(text: Seq<char>)
    ensures
        submission(true, text) is Run <==> parallel_safe(text),
        submission(false, text) is Run,
{
}

// ---------------------------------------------------------------------------
// Rewinding
// ---------------------------------------------------------------------------

/// The start of a message on one line.
pub open spec fn preview(content: Seq<char>) -> Seq<char> {
    let n = if content.len() <= 80 {
        content.len()
    } else {
        80
    };
    Seq::new(
        n,
        |i: int|
            if content[i] == '\n' {
                ' '
            } else {
                content[i]
            },
    )
}

/// Position and start of the user's messages among the first `n`.
pub open spec fn targets_to(ms: Seq<MessageView>, n: nat) -> Seq<(nat, Seq<char>)>
    decreases n,
{
    if n == 0 {
        Seq::empty()
    } else {
        let before = targets_to(ms, (n - 1) as nat);
        if ms[n - 1].role is User {
            before.push(((n - 1) as nat, preview(ms[n - 1].content)))
        } else {
            before
        }
    }
}

/// The conversation can be cut off before each message of the user, and before
/// no other; the places come in the order of the conversation.
pub proof fn lemma_rewind_targets(ms: Seq<MessageView>, n: nat)
    requires
        n <= ms.len(),
    ensures
        forall|k: int|
            0 <= k < targets_to(ms, n).len() ==> {
                let t = #[trigger] targets_to(ms, n)[k];
                t.0 < n && ms[t.0 as int].role is User && t.1 == preview(ms[t.0 as int].content)
            },
        forall|j: int, k: int|
            0 <= j < k < targets_to(ms, n).len() ==> (#[trigger] targets_to(ms, n)[j]).0 < (
            #[trigger] targets_to(ms, n)[k]).0,
        forall|i: int|
            0 <= i < n && (#[trigger] ms[i]).role is User ==> targets_to(ms, n).contains(
                (i as nat, preview(ms[i].content)),
            ),
    decreases n,
{
    if n > 0 {
        lemma_rewind_targets(ms, (n - 1) as nat);
        let before = targets_to(ms, (n - 1) as nat);
        let all = targets_to(ms, n);
        assert forall|i: int| 0 <= i < n && (#[trigger] ms[i]).role is User implies all.contains(
            (i as nat, preview(ms[i].content)),
        ) by {
            let t = (i as nat, preview(ms[i].content));
            if i < n - 1 {
                assert(before.contains(t));
                let k = choose|k: int| 0 <= k < before.len() && before[k] == t;
                assert(all[k] == t);
            } else {
                assert(all[before.len() as int] == t);
            }
        }
    }
}

/// The views of a list of positions with texts.
pub open spec fn target_views(v: Seq<(usize, String)>) -> Seq<(nat, Seq<char>)> {
    v.map_values(|p: (usize, String)| (p.0 as nat, p.1@))
}

/// The start of a message on one line.
fn preview_of(content: &str) -> (r: String)
    ensures
        r@ == preview(content@),
{
    let v = chars_of(content);
    let n: usize = if v.len() <= 80 {
        v.len()
    } else {
        80
    };
    let mut r = String::new();
    assert(r@ =~= preview(v@).take(0));
    for i in 0..n
        invariant
            v@ == content@,
            n == preview(v@).len(),
            n <= v@.len(),
            r@ == preview(v@).take(i as int),
    {
        r.push(
            if v[i] == '\n' {
                ' '
            } else {
                v[i]
            },
        );
        assert(preview(v@).take(i as int).push(preview(v@)[i as int]) =~= preview(v@).take(i + 1));
    }
    assert(preview(v@).take(n as int) =~= preview(v@));
    r
}

/// The user's messages that the conversation can be cut off before, with the
/// start of each, oldest first.
pub fn rewind_targets(session: &Session) -> (r: Vec<(usize, String)>)
    ensures
        target_views(r@) == targets_to(session@.messages, session@.messages.len()),
{
    let ghost ms = session@.messages;
    let mut r: Vec<(usize, String)> = Vec::new();
    let n: usize = session.messages.len();
    assert(ms.len() == n);
    assert(target_views(r@) =~= targets_to(ms, 0));
    for i in 0..n
        invariant
            n == session.messages@.len(),
            ms == session@.messages,
            target_views(r@) == targets_to(ms, i as nat),
    {
        assert(ms[i as int] == session.messages@[i as int]@);
        if session.messages[i].role == MessageRole::User {
            let ghost before = target_views(r@);
            let text = preview_of(session.messages[i].content.as_str());
            r.push((i, text));
            assert(target_views(r@) =~= before.push((i as nat, text@)));
        }
    }
    r
}

// ---------------------------------------------------------------------------
// Texts
// ---------------------------------------------------------------------------

/// The request to merge a worktree.
pub struct MergeRequest {
    pub branch: String,
    pub target: String,
    pub main_path: String,
    pub wt_path: String,
    pub force: bool,
}

/// What a [`MergeRequest`] holds.
pub struct MergeView {
    pub branch: Seq<char>,
    pub target: Seq<char>,
    pub main_path: Seq<char>,
    pub wt_path: Seq<char>,
    pub force: bool,
}

impl View for MergeRequest {
    type V = MergeView;

    open spec fn view(&self) -> MergeView {
        MergeView {
            branch: self.branch@,
            target: self.target@,
            main_path: self.main_path@,
            wt_path: self.wt_path@,
            force: self.force,
        }
    }
}

/// What an agent is told to do to merge a worktree: the steps up to the merge.
pub open spec fn merge_steps(m: MergeView) -> Seq<char> {
    "I'm in a git worktree on branch '"@ + m.branch + "' at '"@ + m.wt_path + "'. Merge it into '"@
        + m.target + "' in the main repo at '"@ + m.main_path
        + "'.\n\nFollow these steps:\n1. cd "@ + m.main_path
        + "\n2. git fetch --all\n3. git checkout "@ + m.target
        + "\n4. git pull --no-edit\n5. git merge --squash "@ + m.branch
        + "\n6. git commit --no-edit\n\n"@
}

/// What it is told about conflicts.
pub open spec fn merge_conflicts() -> Seq<char> {
    "After step 5, CHECK THE EXIT CODE and output.\n- If the merge Succeeded (no conflicts), continue to step 6.\n- If there is a MERGE CONFLICT:\na. Run: git diff --name-only --diff-filter=U\nb. Tell the user WHICH FILES have conflicts. Show them the list.\nc. Ask the user what to do. Give them these options:\n- 'abort': run `git merge --abort`, do NOT push, do NOT delete anything, stop here.\n- 'resolve <file>': you help them fix the conflict in that file.\n- 'leave': leave the conflict state as-is for manual resolution.\nd. WAIT for the user's response before continuing.\ne. Follow their instruction.\n\n"@
}

/// What it is told to do in the end.
pub open spec fn merge_cleanup(m: MergeView) -> Seq<char> {
    "7. If the merge succeeded (or conflicts were resolved):\n- git worktree remove "@ + (
    if m.force {
        "--force"@
    } else {
        ""@
    }) + " "@ + m.wt_path + "\n- git branch "@ + (if m.force {
        "-D"@
    } else {
        "-d"@
    }) + " "@ + m.branch + "\n\n8. cd "@ + m.main_path
        + " and report completion.\n\nImportant: Do NOT skip any step. Always check for conflicts after merge."@
}

/// All that an agent is told to merge a worktree.
pub open spec fn merge_prompt_text(m: MergeView) -> Seq<char> {
    merge_steps(m) + merge_conflicts() + merge_cleanup(m)
}

/// The steps up to the merge.
fn merge_steps_of(m: &MergeRequest) -> (r: String)
    ensures
        r@ == merge_steps(m@),
{
    let mut s = String::new();
    s.push_str("I'm in a git worktree on branch '");
    s.push_str(m.branch.as_str());
    s.push_str("' at '");
    s.push_str(m.wt_path.as_str());
    s.push_str("'. Merge it into '");
    s.push_str(m.target.as_str());
    s.push_str("' in the main repo at '");
    s.push_str(m.main_path.as_str());
    s.push_str("'.\n\nFollow these steps:\n1. cd ");
    s.push_str(m.main_path.as_str());
    s.push_str("\n2. git fetch --all\n3. git checkout ");
    s.push_str(m.target.as_str());
    s.push_str("\n4. git pull --no-edit\n5. git merge --squash ");
    s.push_str(m.branch.as_str());
    s.push_str("\n6. git commit --no-edit\n\n");
    assert(s@ =~= merge_steps(m@));
    s
}

/// What is to be done in the end.
fn merge_cleanup_of(m: &MergeRequest) -> (r: String)
    ensures
        r@ == merge_cleanup(m@),
{
    let remove: &str = if m.force {
        "--force"
    } else {
        ""
    };
    let delete: &str = if m.force {
        "-D"
    } else {
        "-d"
    };
    let mut s = String::new();
    s.push_str("7. If the merge succeeded (or conflicts were resolved):\n- git worktree remove ");
    s.push_str(remove);
    s.push_str(" ");
    s.push_str(m.wt_path.as_str());
    s.push_str("\n- git branch ");
    s.push_str(delete);
    s.push_str(" ");
    s.push_str(m.branch.as_str());
    s.push_str("\n\n8. cd ");
    s.push_str(m.main_path.as_str());
    s.push_str(
        " and report completion.\n\nImportant: Do NOT skip any step. Always check for conflicts after merge.",
    );
    assert(s@ =~= merge_cleanup(m@));
    s
}

/// What an agent is told about conflicts.
pub fn conflict_advice() -> (r: &'static str)
    ensures
        r@ == merge_conflicts(),
{
    "After step 5, CHECK THE EXIT CODE and output.\n- If the merge Succeeded (no conflicts), continue to step 6.\n- If there is a MERGE CONFLICT:\na. Run: git diff --name-only --diff-filter=U\nb. Tell the user WHICH FILES have conflicts. Show them the list.\nc. Ask the user what to do. Give them these options:\n- 'abort': run `git merge --abort`, do NOT push, do NOT delete anything, stop here.\n- 'resolve <file>': you help them fix the conflict in that file.\n- 'leave': leave the conflict state as-is for manual resolution.\nd. WAIT for the user's response before continuing.\ne. Follow their instruction.\n\n"
}

/// All that an agent is told to merge a worktree.
pub fn merge_prompt(m: &MergeRequest) -> (r: String)
    ensures
        r@ == merge_prompt_text(m@),
{
    let mut s = merge_steps_of(m);
    s.push_str(conflict_advice());
    s.push_str(merge_cleanup_of(m).as_str());
    s
}

/// An agent that is to merge a worktree is told, before anything else, which branch
/// is merged into which, and where both stand.
pub proof fn lemma_merge_named(m: MergeView)
    ensures
        starts_with(
            merge_prompt_text(m),
            "I'm in a git worktree on branch '"@ + m.branch + "' at '"@ + m.wt_path
                + "'. Merge it into '"@ + m.target + "' in the main repo at '"@ + m.main_path,
        ),
{
    let head = "I'm in a git worktree on branch '"@ + m.branch + "' at '"@ + m.wt_path
        + "'. Merge it into '"@ + m.target + "' in the main repo at '"@ + m.main_path;
    assert(merge_steps(m).take(head.len() as int) =~= head);
    assert(merge_prompt_text(m).take(head.len() as int) =~= merge_steps(m).take(head.len() as int));
}

} // verus!
