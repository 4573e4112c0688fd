//! Prompts, the security modes that they ask for, and chains of prompts.

use vstd::prelude::*;

use crate::steps::{copy_text, opt_text};
use crate::text::{same_text, string_seqs};

verus! {

// ---------------------------------------------------------------------------
// Security modes
// ---------------------------------------------------------------------------

/// How much an agent may do without asking.
#[derive(Clone, Copy, Debug, PartialEq, Eq, Structural)]
pub enum SecurityMode {
    Standard,
    Restrictive,
    ReadOnly,
    Guarded,
    Yolo,
}

/// The mode in force, and the one that the user chose.
#[derive(Clone, Copy, Debug, PartialEq, Eq, Structural)]
pub struct PermState {
    pub user_mode: SecurityMode,
    pub mode: SecurityMode,
}

/// What became of a prompt's mode directive.
#[derive(Clone, Copy, Debug, PartialEq, Eq, Structural)]
pub enum PromptModeOutcome {
    /// No directive, an unknown mode, or no permissions at all.
    Unchanged,
    /// The mode that the user chose is in force again.
    RestoredUserMode,
    /// The prompt's mode is in force.
    Applied(SecurityMode),
}

/// The user's own mode back in force.
pub open spec fn user_mode(perm: Option<PermState>) -> Option<PermState> {
    match perm {
        Some(p) => Some(PermState { mode: p.user_mode, ..p }),
        None => None,
    }
}

/// What a directive makes of the mode, and what became of it.
pub open spec fn directed(
    directive: Option<Seq<char>>,
    named: Option<SecurityMode>,
    perm: Option<PermState>,
) -> (Option<PermState>, PromptModeOutcome) {
    match (directive, perm) {
        (Some(d), Some(p)) => if d == "last_user_mode"@ {
            (user_mode(perm), PromptModeOutcome::RestoredUserMode)
        } else {
            match named {
                Some(mode) => (
                    Some(PermState { mode, ..p }),
                    PromptModeOutcome::Applied(mode),
                ),
                None => (perm, PromptModeOutcome::Unchanged),
            }
        },
        _ => (perm, PromptModeOutcome::Unchanged),
    }
}

/// Puts the mode of a directive in force. `named` is the mode of that name, if
/// it is the name of one.
pub fn apply_mode_directive(
    directive: Option<&str>,
    named: Option<SecurityMode>,
    perm: &mut Option<PermState>,
) -> (r: PromptModeOutcome)
    ensures
        (*final(perm), r) == directed(
            match directive {
                Some(d) => Some(d@),
                None => None,
            },
            named,
            *old(perm),
        ),
{
    match (directive, *perm) {
        (Some(d), Some(p)) => {
            if same_text(d, "last_user_mode") {
                *perm = Some(PermState { mode: p.user_mode, ..p });
                PromptModeOutcome::RestoredUserMode
            } else {
                match named {
                    Some(mode) => {
                        *perm = Some(PermState { mode, ..p });
                        PromptModeOutcome::Applied(mode)
                    },
                    None => PromptModeOutcome::Unchanged,
                }
            }
        },
        _ => PromptModeOutcome::Unchanged,
    }
}

/// Puts the user's own mode back in force.
pub fn restore_user_mode(perm: &mut Option<PermState>)
    ensures
        *final(perm) == user_mode(*old(perm)),
{
    if let Some(p) = *perm {
        *perm = Some(PermState { mode: p.user_mode, ..p });
    }
}

/// No prompt changes the mode that the user chose, so it can always be
/// restored.
pub proof fn lemma_user_mode_kept(
    directive: Option<Seq<char>>,
    named: Option<SecurityMode>,
    perm: Option<PermState>,
)
    ensures
        directed(directive, named, perm).0 is Some <==> perm is Some,
        user_mode(directed(directive, named, perm).0) == user_mode(perm),
{
}

// ---------------------------------------------------------------------------
// Prompts
// ---------------------------------------------------------------------------

/// The text of a prompt. Where a line of it asks for a mode, `clean` is the text
/// without that line, and `mode` the mode of that name.
pub struct PromptText {
    pub raw: String,
    pub directive: Option<String>,
    pub mode: Option<SecurityMode>,
    pub clean: String,
}

/// What a [`PromptText`] holds.
pub struct PromptView {
    pub raw: Seq<char>,
    pub directive: Option<Seq<char>>,
    pub mode: Option<SecurityMode>,
    pub clean: Seq<char>,
}

impl View for PromptText {
    type V = PromptView;

    open spec fn view(&self) -> PromptView {
        PromptView {
            raw: self.raw@,
            directive: opt_text(self.directive),
            mode: self.mode,
            clean: self.clean@,
        }
    }
}

impl PromptView {
    /// The text that an agent gets.
    pub open spec fn text(self) -> Seq<char> {
        if self.directive is Some {
            self.clean
        } else {
            self.raw
        }
    }
}

/// A prompt under its name.
pub struct NamedPrompt {
    pub name: String,
    pub text: PromptText,
}

/// What a [`NamedPrompt`] holds.
pub struct NamedView {
    pub name: Seq<char>,
    pub text: PromptView,
}

impl View for NamedPrompt {
    type V = NamedView;

    open spec fn view(&self) -> NamedView {
        NamedView { name: self.name@, text: self.text@ }
    }
}

/// The prompts on disk and the one in use.
pub struct ContextFiles {
    /// No name occurs twice.
    pub prompts: Vec<NamedPrompt>,
    pub current_prompt: Option<String>,
    pub current_prompt_name: Option<String>,
    /// Prompts after which the chain is not to be offered again.
    pub chain_declined: Vec<String>,
    /// The prompt to return to after a run on another one.
    pub one_shot_restore: Option<String>,
}

/// What a [`ContextFiles`] holds.
pub struct ContextView {
    pub prompts: Seq<NamedView>,
    pub current_prompt: Option<Seq<char>>,
    pub current_prompt_name: Option<Seq<char>>,
    pub chain_declined: Seq<Seq<char>>,
    pub one_shot_restore: Option<Seq<char>>,
}

impl View for ContextFiles {
    type V = ContextView;

    open spec fn view(&self) -> ContextView {
        ContextView {
            prompts: self.prompts@.map_values(|p: NamedPrompt| p@),
            current_prompt: opt_text(self.current_prompt),
            current_prompt_name: opt_text(self.current_prompt_name),
            chain_declined: string_seqs(self.chain_declined@),
            one_shot_restore: opt_text(self.one_shot_restore),
        }
    }
}

/// Whether no name occurs twice.
pub open spec fn names_distinct(ps: Seq<NamedView>) -> bool {
    forall|i: int, j: int|
        0 <= i < j < ps.len() ==> (#[trigger] ps[i]).name != (#[trigger] ps[j]).name
}

/// Whether a prompt has the given name.
pub open spec fn known(ps: Seq<NamedView>, name: Seq<char>) -> bool {
    exists|i: int| 0 <= i < ps.len() && (#[trigger] ps[i]).name == name
}

/// The prompt of the given name.
pub open spec fn prompt_of(ps: Seq<NamedView>, name: Seq<char>) -> PromptView {
    ps[choose|i: int| 0 <= i < ps.len() && (#[trigger] ps[i]).name == name].text
}

impl ContextView {
    /// Whether no two prompts share a name.
    pub open spec fn wf(self) -> bool {
        names_distinct(self.prompts)
    }

    /// With the named prompt in use.
    pub open spec fn using(self, name: Seq<char>) -> ContextView {
        if known(self.prompts, name) {
            ContextView {
                current_prompt: Some(prompt_of(self.prompts, name).text()),
                current_prompt_name: Some(name),
                ..self
            }
        } else {
            self
        }
    }

    /// Back on the named prompt, its text as it is on disk, or on none where it
    /// is unknown.
    pub open spec fn restored(self, name: Seq<char>) -> ContextView {
        if known(self.prompts, name) {
            ContextView {
                current_prompt: Some(prompt_of(self.prompts, name).raw),
                current_prompt_name: Some(name),
                ..self
            }
        } else {
            ContextView { current_prompt: None, current_prompt_name: None, ..self }
        }
    }
}

impl ContextFiles {
    /// Whether no two prompts share a name.
    pub open spec fn wf(&self) -> bool {
        self@.wf()
    }

    /// Position of the named prompt.
    fn find(&self, name: &str) -> (r: Option<usize>)
        requires
            self.wf(),
        ensures
            match r {
                Some(i) => i < self.prompts@.len() && self@.prompts[i as int].name == name@
                    && known(self@.prompts, name@) && prompt_of(self@.prompts, name@)
                    == self.prompts@[i as int].text@,
                None => !known(self@.prompts, name@),
            },
    {
        let n: usize = self.prompts.len();
        let ghost ps = self@.prompts;
        assert(ps.len() == n);
        for i in 0..n
            invariant
                n == self.prompts@.len(),
                ps == self@.prompts,
                ps.len() == n,
                self.wf(),
                forall|j: int| 0 <= j < i ==> (#[trigger] ps[j]).name != name@,
        {
            assert(ps[i as int] == self.prompts@[i as int]@);
            if same_text(self.prompts[i].name.as_str(), name) {
                assert(known(ps, name@));
                return Some(i);
            }
        }
        None
    }

    /// Whether a prompt has the given name.
    pub fn contains(&self, name: &str) -> (r: bool)
        requires
            self.wf(),
        ensures
            r == known(self@.prompts, name@),
    {
        self.find(name).is_some()
    }

    /// Puts the named prompt in use again after another one.
    pub fn restore(&mut self, name: &str)
        requires
            old(self).wf(),
        ensures
            final(self).wf(),
            final(self)@ == old(self)@.restored(name@),
    {
        match self.find(name) {
            Some(i) => {
                self.current_prompt = Some(copy_text(self.prompts[i].text.raw.as_str()));
                self.current_prompt_name = Some(copy_text(name));
            },
            None => {
                self.current_prompt = None;
                self.current_prompt_name = None;
            },
        }
    }
}

/// What using a prompt makes of the context and of the mode, and what became of
/// its directive.
pub open spec fn prompt_applied(ctx: ContextView, perm: Option<PermState>, name: Seq<char>) -> (
    Option<PermState>,
    PromptModeOutcome,
) {
    if known(ctx.prompts, name) {
        let p = prompt_of(ctx.prompts, name);
        directed(p.directive, p.mode, perm)
    } else {
        (perm, PromptModeOutcome::Unchanged)
    }
}

/// Puts the named prompt in use, without the line that asks for a mode, and
/// that mode in force. Does nothing for an unknown name.
pub fn apply_prompt_mode(
    name: &str,
    context: &mut ContextFiles,
    perm: &mut Option<PermState>,
) -> (r: PromptModeOutcome)
    requires
        old(context).wf(),
    ensures
        final(context).wf(),
        final(context)@ == old(context)@.using(name@),
        (*final(perm), r) == prompt_applied(old(context)@, *old(perm), name@),
{
    match context.find(name) {
        Some(i) => {
            let p = &context.prompts[i].text;
            let directive: Option<&str> = match &p.directive {
                Some(d) => Some(d.as_str()),
                None => None,
            };
            let text = if directive.is_some() {
                copy_text(p.clean.as_str())
            } else {
                copy_text(p.raw.as_str())
            };
            let r = apply_mode_directive(directive, p.mode, perm);
            context.current_prompt = Some(text);
            context.current_prompt_name = Some(copy_text(name));
            r
        },
        None => PromptModeOutcome::Unchanged,
    }
}

/// Puts the mode in force that the text of the current prompt asks for, after
/// it has been read from disk. `read` is that text.
pub fn apply_current_prompt_mode(
    context: &mut ContextFiles,
    read: Option<&PromptText>,
    perm: &mut Option<PermState>,
)
    requires
        match read {
            Some(p) => opt_text(old(context).current_prompt) == Some(p@.raw),
            None => old(context).current_prompt is None,
        },
    ensures
        match read {
            Some(p) => final(context)@ == (ContextView {
                current_prompt: Some(p@.text()),
                ..old(context)@
            }) && *final(perm) == directed(p@.directive, p@.mode, *old(perm)).0,
            None => final(context)@ == old(context)@ && *final(perm) == *old(perm),
        },
{
    if let Some(p) = read {
        let directive: Option<&str> = match &p.directive {
            Some(d) => Some(d.as_str()),
            None => None,
        };
        if directive.is_some() {
            context.current_prompt = Some(copy_text(p.clean.as_str()));
        }
        apply_mode_directive(directive, p.mode, perm);
    }
}

/// Using a prompt and then restoring the one before it leaves the same prompt in
/// use, and the user's own mode can be restored.
pub proof fn lemma_prompt_restored(ctx: ContextView, perm: Option<PermState>, name: Seq<char>)
    requires
        ctx.current_prompt_name is Some,
        known(ctx.prompts, ctx.current_prompt_name->0),
    ensures
        ctx.using(name).restored(ctx.current_prompt_name->0).current_prompt_name
            == ctx.current_prompt_name,
        user_mode(prompt_applied(ctx, perm, name).0) == user_mode(perm),
{
}

// ---------------------------------------------------------------------------
// Chains of prompts
// ---------------------------------------------------------------------------

/// A step from one prompt to the next.
pub struct ChainPhase {
    /// The question that offers it.
    pub label: String,
    /// The prompt that it leads to.
    pub next_prompt: String,
    /// The message that starts the run on it.
    pub message: String,
}

/// What a [`ChainPhase`] holds.
pub struct PhaseView {
    pub label: Seq<char>,
    pub next_prompt: Seq<char>,
    pub message: Seq<char>,
}

impl View for ChainPhase {
    type V = PhaseView;

    open spec fn view(&self) -> PhaseView {
        PhaseView {
            label: self.label@,
            next_prompt: self.next_prompt@,
            message: self.message@,
        }
    }
}

impl ChainPhase {
    /// A copy of the step.
    pub fn copy(&self) -> (r: ChainPhase)
        ensures
            r@ == self@,
    {
        ChainPhase {
            label: copy_text(self.label.as_str()),
            next_prompt: copy_text(self.next_prompt.as_str()),
            message: copy_text(self.message.as_str()),
        }
    }
}

/// The step that is offered after a run on a prompt.
pub struct ChainRule {
    pub prompt: String,
    pub phase: ChainPhase,
}

/// What a [`ChainRule`] holds.
pub struct RuleView {
    pub prompt: Seq<char>,
    pub phase: PhaseView,
}

impl View for ChainRule {
    type V = RuleView;

    open spec fn view(&self) -> RuleView {
        RuleView { prompt: self.prompt@, phase: self.phase@ }
    }
}

/// The views of a list of rules.
pub open spec fn rule_views(v: Seq<ChainRule>) -> Seq<RuleView> {
    v.map_values(|r: ChainRule| r@)
}

/// The step after a prompt: the first that a rule gives.
pub open spec fn phase_after(rules: Seq<RuleView>, prompt: Seq<char>) -> Option<PhaseView>
    decreases rules.len(),
{
    if rules.len() == 0 {
        None
    } else if rules[0].prompt == prompt {
        Some(rules[0].phase)
    } else {
        phase_after(rules.skip(1), prompt)
    }
}

/// The views of an optional step.
pub open spec fn opt_phase(p: Option<ChainPhase>) -> Option<PhaseView> {
    match p {
        Some(c) => Some(c@),
        None => None,
    }
}

/// The step after a prompt.
pub fn find_phase(rules: &Vec<ChainRule>, prompt: &str) -> (r: Option<ChainPhase>)
    ensures
        opt_phase(r) == phase_after(rule_views(rules@), prompt@),
{
    let n: usize = rules.len();
    let ghost rs = rule_views(rules@);
    assert(rs.skip(0) =~= rs);
    for i in 0..n
        invariant
            n == rules@.len(),
            rs == rule_views(rules@),
            phase_after(rs, prompt@) == phase_after(rs.skip(i as int), prompt@),
    {
        assert(rs.skip(i as int)[0] == rules@[i as int]@);
        assert(rs.skip(i as int).skip(1) =~= rs.skip(i + 1));
        if same_text(rules[i].prompt.as_str(), prompt) {
            return Some(rules[i].phase.copy());
        }
    }
    None
}

/// Whether `name` is among `names`.
pub fn among(names: &Vec<String>, name: &str) -> (r: bool)
    ensures
        r == string_seqs(names@).contains(name@),
{
    let n: usize = names.len();
    let ghost ns = string_seqs(names@);
    assert(ns.len() == n);
    for i in 0..n
        invariant
            n == names@.len(),
            ns == string_seqs(names@),
            ns.len() == n,
            forall|j: int| 0 <= j < i ==> (#[trigger] ns[j]) != name@,
    {
        assert(ns[i as int] == names@[i as int]@);
        if same_text(names[i].as_str(), name) {
            assert(ns.contains(name@));
            return true;
        }
    }
    false
}

} // verus!
