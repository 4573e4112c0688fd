//! How the interface starts.

use vstd::prelude::*;

use crate::color::{Color, C_ERROR};
use crate::commands::spawn_steps;
use crate::flow::a_main_run;
use crate::session::MessageRole;
use crate::steps::{
    act, cat, copy_text, echo, push_act, push_echo, push_says, push_step, push_tell, says,
    step_views, Action, Step, StepView, Telling,
};
use crate::text::{decimal, decimal_of, string_seqs};
use crate::turn::{RunState, RunView};

verus! {

/// A color as configured, and the nearest of the 256-color palette.
#[derive(Clone, Copy, Debug, PartialEq, Eq, Structural)]
pub struct ConfiguredColor {
    pub exact: Color,
    pub nearest: Color,
}

/// The configured colors.
#[derive(Clone, Copy, Debug, PartialEq, Eq, Structural)]
pub struct ColorScheme {
    /// Only colors of the 256-color palette are to be used.
    pub ansi: bool,
    pub chat: Option<ConfiguredColor>,
    pub input: Option<ConfiguredColor>,
    pub status: Option<ConfiguredColor>,
}

/// Where the background colors come from.
#[derive(Clone, Copy, Debug, PartialEq, Eq, Structural)]
pub enum Backdrop {
    /// From the theme in use.
    Theme,
    /// From the configuration: of the chat, the input and the status line.
    Colors(Option<Color>, Option<Color>, Option<Color>),
    /// They stay as they are.
    Unset,
}

/// The color to be used.
pub open spec fn shade(c: Option<ConfiguredColor>, ansi: bool) -> Option<Color> {
    match c {
        Some(x) => Some(
            if ansi {
                x.nearest
            } else {
                x.exact
            },
        ),
        None => None,
    }
}

/// The color to be used.
fn shade_of(c: Option<ConfiguredColor>, ansi: bool) -> (r: Option<Color>)
    ensures
        r == shade(c, ansi),
{
    match c {
        Some(x) => Some(
            if ansi {
                x.nearest
            } else {
                x.exact
            },
        ),
        None => None,
    }
}

/// Where the background colors come from: from the theme in use, if its file is
/// there; from the configuration only where no theme is in use.
pub fn choose_backdrop(theme_in_use: bool, theme_found: bool, colors: Option<ColorScheme>) -> (r:
    Backdrop)
    ensures
        r == if theme_in_use {
            if theme_found {
                Backdrop::Theme
            } else {
                Backdrop::Unset
            }
        } else {
            match colors {
                Some(c) => Backdrop::Colors(
                    shade(c.chat, c.ansi),
                    shade(c.input, c.ansi),
                    shade(c.status, c.ansi),
                ),
                None => Backdrop::Unset,
            }
        },
{
    if theme_in_use {
        if theme_found {
            Backdrop::Theme
        } else {
            Backdrop::Unset
        }
    } else {
        match colors {
            Some(c) => Backdrop::Colors(
                shade_of(c.chat, c.ansi),
                shade_of(c.input, c.ansi),
                shade_of(c.status, c.ansi),
            ),
            None => Backdrop::Unset,
        }
    }
}

/// The providers that are built in.
pub open spec fn builtin_providers() -> Seq<Seq<char>> {
    seq!["anthropic"@, "openai"@, "gemini"@, "openrouter"@, "ollama"@]
}

/// All providers: those built in, and the custom ones.
pub fn provider_names(custom: &Vec<String>) -> (r: Vec<String>)
    ensures
        string_seqs(r@) == builtin_providers() + string_seqs(custom@),
{
    let mut r: Vec<String> = Vec::new();
    r.push(copy_text("anthropic"));
    r.push(copy_text("openai"));
    r.push(copy_text("gemini"));
    r.push(copy_text("openrouter"));
    r.push(copy_text("ollama"));
    let ghost all = string_seqs(custom@);
    let n: usize = custom.len();
    assert(string_seqs(r@) =~= builtin_providers() + all.take(0));
    for i in 0..n
        invariant
            n == custom@.len(),
            all == string_seqs(custom@),
            string_seqs(r@) == builtin_providers() + all.take(i as int),
    {
        let ghost before = string_seqs(r@);
        assert(all[i as int] == custom@[i as int]@);
        let name = copy_text(custom[i].as_str());
        r.push(name);
        assert(string_seqs(r@) =~= before.push(name@));
        assert(before.push(name@) =~= builtin_providers() + all.take(i + 1));
    }
    assert(all.take(n as int) =~= all);
    r
}

/// Whether the introduction is shown, and whether that is remembered: it is
/// shown once, or always where so configured.
pub fn welcome_plan(always: bool, shown_before: bool) -> (r: (bool, bool))
    ensures
        r.0 == (always || !shown_before),
        r.1 == (!always && !shown_before),
{
    (always || !shown_before, !always && !shown_before)
}

/// The name of the worktree for a parallel session that starts at a time given
/// in seconds.
pub fn parallel_name(seconds: u64) -> (r: String)
    ensures
        r@ == decimal(seconds as nat),
{
    decimal_of(seconds)
}

/// How the work in a new worktree begins, or why there is none.
pub fn worktree_created(outcome: Result<&str, &str>) -> (r: Vec<Step>)
    ensures
        step_views(r@) == match outcome {
            Ok(path) => seq![
                StepView::Tell(Telling::WorkIn, path@),
                act(Action::ReloadContext),
                act(Action::EnsureMcp),
                act(Action::RebuildAgent),
                act(Action::RenderSession),
            ],
            Err(e) => seq![says("worktree failed: "@ + e@, C_ERROR)],
        },
{
    let mut out: Vec<Step> = Vec::new();
    match outcome {
        Ok(path) => {
            push_tell(&mut out, Telling::WorkIn, path);
            push_act(&mut out, Action::ReloadContext);
            push_act(&mut out, Action::EnsureMcp);
            push_act(&mut out, Action::RebuildAgent);
            push_act(&mut out, Action::RenderSession);
            assert(step_views(out@) =~= seq![
                StepView::Tell(Telling::WorkIn, path@),
                act(Action::ReloadContext),
                act(Action::EnsureMcp),
                act(Action::RebuildAgent),
                act(Action::RenderSession),
            ]);
        },
        Err(e) => {
            push_says(&mut out, cat("worktree failed: ", e).as_str(), C_ERROR);
            assert(step_views(out@) =~= seq![says("worktree failed: "@ + e@, C_ERROR)]);
        },
    }
    out
}

/// How a session starts that was given its first message.
pub open spec fn trigger_steps(text: Seq<char>) -> Seq<StepView> {
    echo(text) + spawn_steps(text) + seq![
        StepView::AddMessage(MessageRole::User, text),
        act(Action::PublishMessages),
    ]
}

/// Starts a session that was given its first message.
pub fn auto_trigger(text: &str, run: &mut RunState) -> (r: Vec<Step>)
    ensures
        final(run)@ == (RunView { is_running: true, ..old(run)@ }),
        step_views(r@) == trigger_steps(text@),
{
    let mut out: Vec<Step> = Vec::new();
    push_echo(&mut out, text);
    push_act(&mut out, Action::EnsureAgent);
    push_step(&mut out, Step::Spawn(copy_text(text), a_main_run()));
    run.is_running = true;
    push_act(&mut out, Action::SignalStart);
    push_step(&mut out, Step::AddMessage(MessageRole::User, copy_text(text)));
    push_act(&mut out, Action::PublishMessages);
    assert(step_views(out@) =~= trigger_steps(text@));
    out
}

/// Whether the agent is built in the background: where nothing has asked for it
/// yet.
pub fn prebuilds(triggered: bool, has_agent: bool) -> (r: bool)
    ensures
        r == (!triggered && !has_agent),
{
    !triggered && !has_agent
}

/// Whether the state of the repository is looked at again, so many milliseconds
/// after the last look.
pub fn branch_check_due(elapsed: u64) -> (r: bool)
    ensures
        r == (elapsed >= 1000),
{
    elapsed >= 1000
}

/// The given lines as errors.
pub open spec fn notice_lines(ls: Seq<Seq<char>>) -> Seq<StepView> {
    ls.map_values(|l: Seq<char>| says(l, C_ERROR))
}

/// What an agent that was built in the background has to say, where it is to be
/// shown.
pub fn prebuild_notices(notices: &Vec<String>, notify: bool) -> (r: Vec<Step>)
    ensures
        step_views(r@) == if notify {
            notice_lines(string_seqs(notices@))
        } else {
            Seq::empty()
        },
{
    let mut out: Vec<Step> = Vec::new();
    assert(step_views(out@) =~= Seq::<StepView>::empty());
    if !notify {
        return out;
    }
    let ghost ns = string_seqs(notices@);
    let n: usize = notices.len();
    assert(ns.len() == n);
    assert(notice_lines(ns.take(0)) =~= Seq::<StepView>::empty());
    for i in 0..n
        invariant
            n == notices@.len(),
            ns == string_seqs(notices@),
            step_views(out@) == notice_lines(ns.take(i as int)),
    {
        push_says(&mut out, notices[i].as_str(), C_ERROR);
        assert(notice_lines(ns.take(i as int)).push(says(ns[i as int], C_ERROR))
            =~= notice_lines(ns.take(i + 1)));
    }
    assert(ns.take(n as int) =~= ns);
    out
}

} // verus!
