//! The plain session: one run at a time, without a queue and without chains.

use vstd::prelude::*;

use crate::color::{Color, C_AGENT, C_ERROR, C_TOOL};
use crate::commands::{
    behind, dot_name, dot_request, plain_route, route_plain, strip, unknown_prompt, DotRequest,
    Route,
};
use crate::control::{ReplyView, UserReply};
use crate::draw::TermSize;
use crate::flow::{returned, returned_mode, ChainState, ChainView, LoopState, LoopView};
use crate::keys::UserEvent;
use crate::num::less;
use crate::prompts::{
    apply_prompt_mode, known, prompt_applied, ContextFiles, ContextView, PermState,
};
use crate::renderer::{Renderer, RendererView};
use crate::session::{MessageRole, Session, SessionView};
use crate::slash::{splitn, splitn_of};
use crate::steps::{
    act, blank, cat, cat3, copy_text, echo, opt_text, push_act, push_all, push_blank, push_echo,
    push_says, push_step, push_tell, says, step_views, Action, RunKind, Step, StepView, Telling,
};
use crate::submit::merge_conflicts;
use crate::text::{
    chars_of, same_text, slice_of, starts_with, string_of, string_seqs, trim, trim_of,
};
use crate::turn::{RunState, RunView, TokenTotals};

verus! {

// ---------------------------------------------------------------------------
// The first screen
// ---------------------------------------------------------------------------

/// The line above and below the guide.
pub open spec fn guide_rule() -> StepView {
    says(crate::text::repeat('\u{2500}', 42), Color::Cyan)
}

/// A line of the guide.
pub open spec fn guide_line(text: Seq<char>) -> StepView {
    says(text, Color::White)
}

/// A heading of the guide.
pub open spec fn guide_heading(text: Seq<char>) -> StepView {
    says(text, C_TOOL)
}

/// The first part of the guide: what can be typed.
pub open spec fn guide_inputs() -> Seq<StepView> {
    seq![
        guide_rule(),
        says("  zerostack Quickstart"@, Color::Cyan),
        guide_rule(),
        blank(),
        guide_heading("  Pickers:"@),
        guide_line("    @<path>     File picker / auto-complete paths"@),
        guide_line("    !<command>  Run a shell command (output stored as assistant)"@),
        guide_line("    .<prompt>   Switch prompt or one-shot .<prompt> <message>"@),
        blank(),
    ]
}

/// The second part: commands.
pub open spec fn guide_commands() -> Seq<StepView> {
    seq![
        guide_heading("  Slash Commands:"@),
        guide_line("    /model        Switch model"@),
        guide_line("    /prompt       List / activate prompts"@),
        guide_line("    /prompt autoconfig  Guided setup via docs"@),
        guide_line("    /mode         Change security mode"@),
        guide_line("    /clear        Clear session"@),
        guide_line("    /undo         Undo last exchange"@),
        guide_line("    /compress     Free context window space"@),
        guide_line("    /help         Show all commands"@),
        blank(),
        guide_line("  Docs: https://gi-dellav.github.io/zerostack/"@),
        blank(),
    ]
}

/// The third part: keys.
pub open spec fn guide_keys() -> Seq<StepView> {
    seq![
        guide_heading("  Keybindings:"@),
        guide_line("    Ctrl+G     Open input in $EDITOR"@),
        guide_line("    Ctrl+H     Launch lazygit"@),
        guide_line("    Ctrl+S     Save session"@),
        guide_line("    Tab        File picker / auto-complete"@),
        blank(),
        guide_rule(),
        blank(),
    ]
}

/// Draws the line above and below the guide.
fn push_rule(out: &mut Vec<Step>)
    ensures
        step_views(final(out)@) == step_views(old(out)@).push(guide_rule()),
{
    let mut s = String::new();
    assert(s@ =~= Seq::<char>::empty());
    crate::text::push_repeat(&mut s, '\u{2500}', 42);
    assert(s@ =~= crate::text::repeat('\u{2500}', 42));
    push_says(out, s.as_str(), Color::Cyan);
}

/// The first part of the guide.
fn push_inputs(out: &mut Vec<Step>)
    ensures
        step_views(final(out)@) == step_views(old(out)@) + guide_inputs(),
{
    push_rule(out);
    push_says(out, "  zerostack Quickstart", Color::Cyan);
    push_rule(out);
    push_blank(out);
    push_says(out, "  Pickers:", C_TOOL);
    push_says(out, "    @<path>     File picker / auto-complete paths", Color::White);
    push_says(
        out,
        "    !<command>  Run a shell command (output stored as assistant)",
        Color::White,
    );
    push_says(
        out,
        "    .<prompt>   Switch prompt or one-shot .<prompt> <message>",
        Color::White,
    );
    push_blank(out);
    assert(step_views(out@) =~= step_views(old(out)@) + guide_inputs());
}

/// The second part of the guide.
fn push_commands(out: &mut Vec<Step>)
    ensures
        step_views(final(out)@) == step_views(old(out)@) + guide_commands(),
{
    push_says(out, "  Slash Commands:", C_TOOL);
    push_says(out, "    /model        Switch model", Color::White);
    push_says(out, "    /prompt       List / activate prompts", Color::White);
    push_says(out, "    /prompt autoconfig  Guided setup via docs", Color::White);
    push_says(out, "    /mode         Change security mode", Color::White);
    push_says(out, "    /clear        Clear session", Color::White);
    push_says(out, "    /undo         Undo last exchange", Color::White);
    push_says(out, "    /compress     Free context window space", Color::White);
    push_says(out, "    /help         Show all commands", Color::White);
    push_blank(out);
    push_says(out, "  Docs: https://gi-dellav.github.io/zerostack/", Color::White);
    push_blank(out);
    assert(step_views(out@) =~= step_views(old(out)@) + guide_commands());
}

/// The third part of the guide.
fn push_keys(out: &mut Vec<Step>)
    ensures
        step_views(final(out)@) == step_views(old(out)@) + guide_keys(),
{
    push_says(out, "  Keybindings:", C_TOOL);
    push_says(out, "    Ctrl+G     Open input in $EDITOR", Color::White);
    push_says(out, "    Ctrl+H     Launch lazygit", Color::White);
    push_says(out, "    Ctrl+S     Save session", Color::White);
    push_says(out, "    Tab        File picker / auto-complete", Color::White);
    push_blank(out);
    push_rule(out);
    push_blank(out);
    assert(step_views(out@) =~= step_views(old(out)@) + guide_keys());
}

/// The first screen: the session, and, where it has never been shown, the
/// guide.
pub fn initialize_display(guide_shown: bool) -> (r: Vec<Step>)
    ensures
        step_views(r@) == seq![act(Action::RenderSession)] + (if guide_shown {
            Seq::empty()
        } else {
            guide_inputs() + guide_commands() + guide_keys()
        }),
{
    let mut out: Vec<Step> = Vec::new();
    push_act(&mut out, Action::RenderSession);
    if !guide_shown {
        push_inputs(&mut out);
        push_commands(&mut out);
        push_keys(&mut out);
    }
    assert(step_views(out@) =~= seq![act(Action::RenderSession)] + (if guide_shown {
        Seq::empty()
    } else {
        guide_inputs() + guide_commands() + guide_keys()
    }));
    out
}

// ---------------------------------------------------------------------------
// Events
// ---------------------------------------------------------------------------

/// What an event does to the screen, and what is left to be done. The input is
/// not scrolled, and links are not opened.
pub open spec fn plain_event(r: RendererView, ev: UserEvent, size: TermSize) -> (
    RendererView,
    ReplyView,
) {
    match ev {
        UserEvent::ScrollUp => (
            if r.scroll_offset < r.max_offset(size) {
                r.scrolled((r.scroll_offset + 1) as nat)
            } else {
                r
            },
            ReplyView::Nothing,
        ),
        UserEvent::ScrollDown => (
            r.scrolled(less(r.scroll_offset as nat, 1)),
            ReplyView::Nothing,
        ),
        UserEvent::MouseDown { row, col: _ } => (
            if row < r.visible(size) && r.line_at(row, size) is Some {
                RendererView {
                    selection_active: true,
                    selection_start: r.line_at(row, size),
                    selection_end: r.line_at(row, size),
                    ..r
                }
            } else {
                r
            },
            ReplyView::Nothing,
        ),
        _ => crate::control::user_event(r, ev, Seq::empty(), size),
    }
}

/// Handles an event of the user, as far as the screen is concerned.
pub fn handle_plain_event(ev: UserEvent, renderer: &mut Renderer, size: TermSize) -> (r: UserReply)
    requires
        old(renderer).wf(),
    ensures
        final(renderer).wf(),
        (final(renderer)@, r@) == plain_event(old(renderer)@, ev, size),
{
    match ev {
        UserEvent::ScrollUp => {
            renderer.scroll_line_up(size);
            UserReply::Nothing
        },
        UserEvent::ScrollDown => {
            renderer.scroll_line_down();
            UserReply::Nothing
        },
        UserEvent::MouseDown { row, col: _ } => {
            if (row as usize) < renderer.visible_lines(size) {
                if let Some(i) = renderer.buffer_line_at_row(row, size) {
                    renderer.selection_active = true;
                    renderer.selection_start = Some(i);
                    renderer.selection_end = Some(i);
                }
            }
            UserReply::Nothing
        },
        _ => {
            let empty = String::new();
            assert(empty@ =~= Seq::<char>::empty());
            crate::control::handle_user_event(ev, renderer, empty.as_str(), size)
        },
    }
}

/// The chain without its loop.
pub open spec fn unlooped(chain: ChainView) -> ChainView {
    ChainView {
        loop_state: match chain.loop_state {
            Some(l) => Some(LoopView { active: false, ..l }),
            None => None,
        },
        loop_label: if chain.loop_state is Some {
            None
        } else {
            chain.loop_label
        },
        ..chain
    }
}

/// Interrupts the run. Returns whether there was one: else the program ends.
pub fn interrupt(run: &mut RunState, chain: &mut ChainState) -> (r: (bool, Vec<Step>))
    ensures
        r.0 == old(run)@.is_running,
        final(run)@ == (RunView { is_running: false, ..old(run)@ }),
        final(chain)@ == if r.0 {
            unlooped(old(chain)@)
        } else {
            old(chain)@
        },
        step_views(r.1@) == if r.0 {
            seq![act(Action::DropReceiver), says("interrupted"@, C_ERROR)]
        } else {
            Seq::empty()
        },
{
    let mut out: Vec<Step> = Vec::new();
    assert(step_views(out@) =~= Seq::<StepView>::empty());
    if !run.is_running {
        return (false, out);
    }
    run.is_running = false;
    push_act(&mut out, Action::DropReceiver);
    if let Some(l) = chain.loop_state.take() {
        chain.loop_state = Some(LoopState { active: false, ..l });
        chain.loop_label = None;
    }
    push_says(&mut out, "interrupted", C_ERROR);
    assert(step_views(out@) =~= seq![
        act(Action::DropReceiver),
        says("interrupted"@, C_ERROR),
    ]);
    (true, out)
}

// ---------------------------------------------------------------------------
// Inputs
// ---------------------------------------------------------------------------

/// What a line with a prompt behind a dot shows.
pub open spec fn plain_dot_steps(text: Seq<char>, ctx: ContextView) -> Seq<StepView> {
    echo(text) + match dot_request(text) {
        DotRequest::List => seq![
            StepView::Tell(Telling::LoadInput, "."@),
            act(Action::StartDotPicker),
        ],
        DotRequest::Once { name, message: _ } => if known(ctx.prompts, name) {
            Seq::empty()
        } else {
            seq![unknown_prompt(name)]
        },
        DotRequest::Switch { name } => if known(ctx.prompts, name) {
            seq![StepView::Tell(Telling::ReportPrompt, name)]
        } else {
            seq![unknown_prompt(name)]
        },
    }
}

/// What an input is, and what is left of it to be acted on.
pub open spec fn input_left(text: Seq<char>, ctx: ContextView) -> Option<(Route, Seq<char>)> {
    if text.len() > 0 && text[0] == '.' {
        match crate::commands::dot_message(text, ctx) {
            Some(message) => Some((plain_route(message), message)),
            None => None,
        }
    } else {
        Some((plain_route(text), text))
    }
}

/// Takes a line with a prompt behind a dot.
fn take_dot(
    text: &str,
    context: &mut ContextFiles,
    perm: &mut Option<PermState>,
    chain: &mut ChainState,
) -> (r: (Option<String>, Vec<Step>))
    requires
        text@.len() > 0,
        text@[0] == '.',
        old(context).wf(),
    ensures
        final(context).wf(),
        opt_text(r.0) == crate::commands::dot_message(text@, old(context)@),
        step_views(r.1@) == plain_dot_steps(text@, old(context)@),
        final(context)@ == match dot_name(text@) {
            Some(name) => old(context)@.using(name),
            None => old(context)@,
        },
        *final(perm) == match dot_name(text@) {
            Some(name) => prompt_applied(old(context)@, *old(perm), name).0,
            None => *old(perm),
        },
        final(chain)@ == (if crate::commands::dot_message(text@, old(context)@) is Some {
            ChainView {
                dot_prompt_restore: old(context)@.current_prompt_name,
                ..old(chain)@
            }
        } else {
            old(chain)@
        }),
{
    let ghost ctx = context@;
    let mut out: Vec<Step> = Vec::new();
    push_echo(&mut out, text);
    match crate::commands::read_dot(text) {
        crate::commands::DotRead::List => {
            push_tell(&mut out, Telling::LoadInput, ".");
            push_act(&mut out, Action::StartDotPicker);
        },
        crate::commands::DotRead::Once { name, message } => {
            if context.contains(name.as_str()) {
                chain.dot_prompt_restore = match &context.current_prompt_name {
                    Some(n) => Some(copy_text(n.as_str())),
                    None => None,
                };
                apply_prompt_mode(name.as_str(), context, perm);
                assert(step_views(out@) =~= plain_dot_steps(text@, ctx));
                return (Some(message), out);
            }
            let line = cat3("error: unknown prompt '", name.as_str(), "'");
            push_says(&mut out, line.as_str(), C_ERROR);
        },
        crate::commands::DotRead::Switch { name } => {
            if context.contains(name.as_str()) {
                apply_prompt_mode(name.as_str(), context, perm);
                push_tell(&mut out, Telling::ReportPrompt, name.as_str());
            } else {
                let line = cat3("error: unknown prompt '", name.as_str(), "'");
                push_says(&mut out, line.as_str(), C_ERROR);
            }
        },
    }
    assert(step_views(out@) =~= plain_dot_steps(text@, ctx));
    (None, out)
}

/// Whether a line is held back because a loop is on: all but commands are.
pub fn held_by_loop(text: &str, looping: bool) -> (r: bool)
    ensures
        r == (looping && !(text@.len() > 0 && text@[0] == '/')),
{
    looping && route_plain(text) != Route::Slash
}

/// Takes an input: a prompt behind a dot is put in use, and what is left is a
/// command, a shell command or an input for the agent.
pub fn handle_input_text(
    text: &str,
    context: &mut ContextFiles,
    perm: &mut Option<PermState>,
    chain: &mut ChainState,
) -> (r: (Option<(Route, String)>, Vec<Step>))
    requires
        old(context).wf(),
    ensures
        final(context).wf(),
        match input_left(text@, old(context)@) {
            Some((route, left)) => r.0 matches Some((a, s)) && a == route && s@ == left,
            None => r.0 is None,
        },
        ({
            let dotted = text@.len() > 0 && text@[0] == '.';
            &&& step_views(r.1@) == if dotted {
                plain_dot_steps(text@, old(context)@)
            } else {
                Seq::empty()
            }
            &&& final(context)@ == if dotted && dot_name(text@) is Some {
                old(context)@.using(dot_name(text@)->0)
            } else {
                old(context)@
            }
            &&& *final(perm) == if dotted && dot_name(text@) is Some {
                prompt_applied(old(context)@, *old(perm), dot_name(text@)->0).0
            } else {
                *old(perm)
            }
            &&& final(chain)@ == (if dotted && crate::commands::dot_message(
                text@,
                old(context)@,
            ) is Some {
                ChainView {
                    dot_prompt_restore: old(context)@.current_prompt_name,
                    ..old(chain)@
                }
            } else {
                old(chain)@
            })
        }),
{
    let v = chars_of(text);
    if v.len() > 0 && v[0] == '.' {
        let (message, out) = take_dot(text, context, perm, chain);
        match message {
            Some(m) => (Some((route_plain(m.as_str()), m)), out),
            None => (None, out),
        }
    } else {
        let out: Vec<Step> = Vec::new();
        assert(step_views(out@) =~= Seq::<StepView>::empty());
        (Some((route_plain(text), copy_text(text))), out)
    }
}

/// A run on the messages so far that cannot be stopped from outside.
pub open spec fn plain_run() -> RunKind {
    RunKind { fresh: false, abortable: false, iteration: None }
}

/// What an input for the agent does.
pub open spec fn normal_steps(text: Seq<char>, no_session: bool) -> Seq<StepView> {
    echo(text) + seq![
        act(Action::EnsureMcp),
        act(Action::EnsureAgent),
        StepView::Spawn(text, plain_run()),
        StepView::AddMessage(MessageRole::User, text),
    ] + (if no_session {
        Seq::empty()
    } else {
        seq![StepView::Tell(Telling::AppendHistory, text)]
    })
}

/// Sends an input to the agent.
pub fn handle_normal_text(text: &str, run: &mut RunState, no_session: bool) -> (r: Vec<Step>)
    ensures
        final(run)@ == (RunView { is_running: true, ..old(run)@ }),
        step_views(r@) == normal_steps(text@, no_session),
{
    let mut out: Vec<Step> = Vec::new();
    push_echo(&mut out, text);
    push_act(&mut out, Action::EnsureMcp);
    push_act(&mut out, Action::EnsureAgent);
    push_step(
        &mut out,
        Step::Spawn(
            copy_text(text),
            RunKind { fresh: false, abortable: false, iteration: None },
        ),
    );
    run.is_running = true;
    push_step(&mut out, Step::AddMessage(MessageRole::User, copy_text(text)));
    if !no_session {
        push_tell(&mut out, Telling::AppendHistory, text);
    }
    assert(step_views(out@) =~= normal_steps(text@, no_session));
    out
}

// ---------------------------------------------------------------------------
// Side questions
// ---------------------------------------------------------------------------

/// What the session was before a side question.
#[derive(Clone, Copy, Debug, PartialEq, Eq, Structural)]
pub struct SideMark {
    pub active: bool,
    pub msg_count: usize,
    pub input_tokens: u64,
    pub output_tokens: u64,
    /// What the session had cost, as the bits of the amount.
    pub cost: u64,
}

/// What is asked aside.
pub open spec fn side_question(text: Seq<char>) -> Seq<char> {
    trim(behind(text, "/btw"@))
}

/// How a side question is asked.
pub open spec fn side_steps(text: Seq<char>) -> Seq<StepView> {
    echo(text).push(act(Action::EnsureMcp)) + (if side_question(text).len() == 0 {
        seq![says("usage: /btw <message>"@, C_AGENT)]
    } else {
        seq![act(Action::EnsureAgent), StepView::Spawn(side_question(text), plain_run())]
    })
}

/// Asks a side question: what the session is now is remembered.
pub fn begin_side_question(
    text: &str,
    session: &Session,
    totals: &TokenTotals,
    mark: &mut SideMark,
    run: &mut RunState,
) -> (r: Vec<Step>)
    requires
        starts_with(text@, "/btw"@),
    ensures
        step_views(r@) == side_steps(text@),
        if side_question(text@).len() == 0 {
            &&& *final(mark) == *old(mark)
            &&& final(run)@ == old(run)@
        } else {
            &&& *final(mark) == (SideMark {
                active: true,
                msg_count: session.messages.len(),
                input_tokens: totals.input,
                output_tokens: totals.output,
                cost: totals.cost,
            })
            &&& final(run)@ == (RunView { is_running: true, ..old(run)@ })
        },
{
    let v = chars_of(text);
    let n: usize = chars_of("/btw").len();
    let rest = slice_of(&v, n, v.len());
    assert(rest@ =~= behind(text@, "/btw"@));
    let question = trim_of(&rest);
    let mut out: Vec<Step> = Vec::new();
    push_echo(&mut out, text);
    push_act(&mut out, Action::EnsureMcp);
    if question.len() == 0 {
        push_says(&mut out, "usage: /btw <message>", C_AGENT);
    } else {
        *mark =
        SideMark {
            active: true,
            msg_count: session.messages.len(),
            input_tokens: totals.input,
            output_tokens: totals.output,
            cost: totals.cost,
        };
        push_act(&mut out, Action::EnsureAgent);
        push_step(
            &mut out,
            Step::Spawn(
                string_of(&question),
                RunKind { fresh: false, abortable: false, iteration: None },
            ),
        );
        run.is_running = true;
    }
    assert(session@.messages.len() == session.messages@.len());
    assert(step_views(out@) =~= side_steps(text@));
    out
}

/// Whether a slash command is a side question.
pub fn is_side_question(text: &str) -> (r: bool)
    ensures
        r == starts_with(text@, "/btw"@),
{
    crate::text::has_prefix(text, "/btw")
}

/// The session without what came after the mark.
pub open spec fn taken_back(s: SessionView, mark: SideMark) -> SessionView {
    if mark.msg_count < s.messages.len() {
        SessionView { messages: s.messages.take(mark.msg_count as int), ..s }
    } else {
        s
    }
}

/// The tokens and the cost from before the mark.
pub open spec fn spent_before(t: TokenTotals, mark: SideMark) -> TokenTotals {
    TokenTotals {
        input: mark.input_tokens,
        output: mark.output_tokens,
        cost: mark.cost,
        ..t
    }
}

/// Ends a side question once its run is over: the session is again what it was
/// before, as far as its messages, its tokens and its cost go.
pub fn end_side_question(
    mark: &mut SideMark,
    is_running: bool,
    session: &mut Session,
    totals: &mut TokenTotals,
    no_session: bool,
) -> (r: Vec<Step>)
    ensures
        ({
            let over = old(mark).active && !is_running;
            &&& *final(mark) == (SideMark {
                active: old(mark).active && is_running,
                ..*old(mark)
            })
            &&& final(session)@ == if over {
                taken_back(old(session)@, *old(mark))
            } else {
                old(session)@
            }
            &&& *final(totals) == if over {
                spent_before(*old(totals), *old(mark))
            } else {
                *old(totals)
            }
            &&& step_views(r@) == if over && !no_session {
                seq![act(Action::SaveSessionQuietly)]
            } else {
                Seq::empty()
            }
        }),
{
    let mut out: Vec<Step> = Vec::new();
    assert(step_views(out@) =~= Seq::<StepView>::empty());
    if mark.active && !is_running {
        let ghost before = session@.messages;
        assert(before.len() == session.messages@.len());
        session.messages.truncate(mark.msg_count);
        proof {
            if mark.msg_count < before.len() {
                assert(session@.messages =~= before.take(mark.msg_count as int));
            } else {
                assert(session@.messages =~= before);
            }
        }
        totals.input = mark.input_tokens;
        totals.output = mark.output_tokens;
        totals.cost = mark.cost;
        if !no_session {
            push_act(&mut out, Action::SaveSessionQuietly);
            assert(step_views(out@) =~= seq![act(Action::SaveSessionQuietly)]);
        }
        mark.active = false;
    }
    out
}

/// A side question leaves no trace: where the session has only grown since it
/// was asked, its messages are again those from before, and so are its tokens and
/// its cost, whatever was spent on the question.
pub proof fn lemma_side_question_leaves_no_trace(
    before: SessionView,
    after: SessionView,
    totals: TokenTotals,
    spent: TokenTotals,
    mark: SideMark,
)
    requires
        mark.msg_count == before.messages.len(),
        mark.input_tokens == totals.input,
        mark.output_tokens == totals.output,
        mark.cost == totals.cost,
        before.messages.len() <= after.messages.len(),
        after.messages.take(before.messages.len() as int) == before.messages,
    ensures
        taken_back(after, mark).messages == before.messages,
        spent_before(spent, mark) == (TokenTotals { estimated: spent.estimated, ..totals }),
{
    assert(after.messages.take(after.messages.len() as int) =~= after.messages);
}

// ---------------------------------------------------------------------------
// What slash commands leave to be done
// ---------------------------------------------------------------------------

/// What a slash command leaves to be done.
#[derive(Debug, PartialEq)]
pub enum PlainRequest {
    /// Shorten the session.
    Compress(Option<String>),
    /// Merge a worktree.
    Merge { branch: String, target: String, main_path: String, wt_path: String },
    /// Leave a worktree.
    Exit { main_path: String },
    /// Nothing: the request is not complete.
    Incomplete,
    /// Report an error.
    Failed(String),
}

/// What a [`PlainRequest`] holds.
pub enum PlainView {
    Compress(Option<Seq<char>>),
    Merge { branch: Seq<char>, target: Seq<char>, main_path: Seq<char>, wt_path: Seq<char> },
    Exit { main_path: Seq<char> },
    Incomplete,
    Failed(Seq<char>),
}

impl View for PlainRequest {
    type V = PlainView;

    open spec fn view(&self) -> PlainView {
        match *self {
            PlainRequest::Compress(i) => PlainView::Compress(opt_text(i)),
            PlainRequest::Merge { branch, target, main_path, wt_path } => PlainView::Merge {
                branch: branch@,
                target: target@,
                main_path: main_path@,
                wt_path: wt_path@,
            },
            PlainRequest::Exit { main_path } => PlainView::Exit { main_path: main_path@ },
            PlainRequest::Incomplete => PlainView::Incomplete,
            PlainRequest::Failed(e) => PlainView::Failed(e@),
        }
    }
}

/// What the message that ends a slash command asks for.
pub open spec fn plain_request_in(message: Seq<char>) -> PlainView {
    if starts_with(message, "DEFER_COMPRESS:"@) {
        let i = trim(behind(message, "DEFER_COMPRESS:"@));
        PlainView::Compress(
            if i.len() == 0 || i == "(none)"@ {
                None
            } else {
                Some(i)
            },
        )
    } else if starts_with(message, "DEFER_WT_MERGE:"@) {
        let p = splitn(behind(message, "DEFER_WT_MERGE:"@), ':', 5);
        if p.len() == 5 {
            PlainView::Merge { branch: p[0], target: p[1], main_path: p[2], wt_path: p[3] }
        } else {
            PlainView::Incomplete
        }
    } else if starts_with(message, "DEFER_WT_EXIT:"@) {
        let p = splitn(behind(message, "DEFER_WT_EXIT:"@), ':', 2);
        if p.len() == 2 {
            PlainView::Exit { main_path: p[0] }
        } else {
            PlainView::Incomplete
        }
    } else {
        PlainView::Failed(message)
    }
}

/// Reads what the message that ends a slash command asks for.
pub fn read_plain_request(message: &str) -> (r: PlainRequest)
    ensures
        r@ == plain_request_in(message@),
{
    if let Some(s) = strip(message, "DEFER_COMPRESS:") {
        let i = trim_of(&chars_of(s.as_str()));
        let text = string_of(&i);
        return PlainRequest::Compress(
            if i.len() == 0 || same_text(text.as_str(), "(none)") {
                None
            } else {
                Some(text)
            },
        );
    }
    if let Some(s) = strip(message, "DEFER_WT_MERGE:") {
        let p = splitn_of(&chars_of(s.as_str()), ':', 5);
        let ghost ps = string_seqs(p@);
        assert(ps.len() == p@.len());
        if p.len() == 5 {
            assert(ps[0] == p@[0]@ && ps[1] == p@[1]@ && ps[2] == p@[2]@ && ps[3] == p@[3]@);
            return PlainRequest::Merge {
                branch: copy_text(p[0].as_str()),
                target: copy_text(p[1].as_str()),
                main_path: copy_text(p[2].as_str()),
                wt_path: copy_text(p[3].as_str()),
            };
        }
        return PlainRequest::Incomplete;
    }
    if let Some(s) = strip(message, "DEFER_WT_EXIT:") {
        let p = splitn_of(&chars_of(s.as_str()), ':', 2);
        let ghost ps = string_seqs(p@);
        assert(ps.len() == p@.len());
        if p.len() == 2 {
            assert(ps[0] == p@[0]@);
            return PlainRequest::Exit { main_path: copy_text(p[0].as_str()) };
        }
        return PlainRequest::Incomplete;
    }
    PlainRequest::Failed(copy_text(message))
}

/// What an agent is told to merge a worktree and push the result.
pub open spec fn push_merge_text(
    branch: Seq<char>,
    target: Seq<char>,
    main_path: Seq<char>,
    wt_path: Seq<char>,
) -> Seq<char> {
    "I'm in a git worktree on branch '"@ + branch + "' at '"@ + wt_path + "'. Merge it into '"@
        + target + "' in the main repo at '"@ + main_path
        + "'.\n\nFollow these steps:\n1. cd "@ + main_path
        + "\n2. git fetch --all\n3. git checkout "@ + target
        + "\n4. git pull --no-edit\n5. git merge --no-edit "@ + branch + "\n\n"@
        + merge_conflicts()
        + "6. If the merge succeeded (or conflicts were resolved):\n- git push\n- git worktree remove "@
        + wt_path + "\n- git branch -D "@ + branch + "\n\n7. cd "@ + main_path
        + " and report completion.\n\nImportant: Do NOT skip any step. Always check for conflicts after merge."@
}

/// What an agent is told to merge a worktree and push the result.
fn push_merge_prompt(branch: &str, target: &str, main_path: &str, wt_path: &str) -> (r: String)
    ensures
        r@ == push_merge_text(branch@, target@, main_path@, wt_path@),
{
    let mut s = String::new();
    s.push_str("I'm in a git worktree on branch '");
    s.push_str(branch);
    s.push_str("' at '");
    s.push_str(wt_path);
    s.push_str("'. Merge it into '");
    s.push_str(target);
    s.push_str("' in the main repo at '");
    s.push_str(main_path);
    s.push_str("'.\n\nFollow these steps:\n1. cd ");
    s.push_str(main_path);
    s.push_str("\n2. git fetch --all\n3. git checkout ");
    s.push_str(target);
    s.push_str("\n4. git pull --no-edit\n5. git merge --no-edit ");
    s.push_str(branch);
    s.push_str("\n\n");
    s.push_str(crate::submit::conflict_advice());
    s.push_str(
        "6. If the merge succeeded (or conflicts were resolved):\n- git push\n- git worktree remove ",
    );
    s.push_str(wt_path);
    s.push_str("\n- git branch -D ");
    s.push_str(branch);
    s.push_str("\n\n7. cd ");
    s.push_str(main_path);
    s.push_str(
        " and report completion.\n\nImportant: Do NOT skip any step. Always check for conflicts after merge.",
    );
    assert(s@ =~= push_merge_text(branch@, target@, main_path@, wt_path@));
    s
}

/// What a request does.
pub open spec fn plain_request_steps(req: PlainView) -> Seq<StepView> {
    match req {
        PlainView::Compress(instructions) => seq![
            act(Action::EnsureMcp),
            StepView::Compress { instructions, auto: false, on_error: "compress error: "@ },
            act(Action::SaveSessionQuietly),
        ],
        PlainView::Merge { branch, target, main_path, wt_path } => {
            let prompt = push_merge_text(branch, target, main_path, wt_path);
            seq![
                StepView::AddMessage(MessageRole::User, prompt),
                act(Action::EnsureMcp),
                act(Action::EnsureAgent),
                StepView::Spawn(prompt, plain_run()),
            ]
        },
        PlainView::Exit { main_path } => seq![
            StepView::Tell(Telling::WorkIn, main_path),
            act(Action::ReloadContext),
            act(Action::EnsureMcp),
            act(Action::RebuildAgent),
            act(Action::RenderSession),
            says("returned to main repo at "@ + main_path, C_AGENT),
        ],
        PlainView::Incomplete => Seq::empty(),
        PlainView::Failed(e) => seq![says("error: "@ + e, C_ERROR)],
    }
}

/// Does what a slash command left to be done. Returns where to work again after
/// a merge.
pub fn handle_plain_request(req: &PlainRequest, run: &mut RunState) -> (r: (
    Option<String>,
    Vec<Step>,
))
    ensures
        final(run)@ == (RunView {
            is_running: old(run)@.is_running || req@ is Merge,
            ..old(run)@
        }),
        opt_text(r.0) == match req@ {
            PlainView::Merge { branch: _, target: _, main_path, wt_path: _ } => Some(main_path),
            _ => None,
        },
        step_views(r.1@) == plain_request_steps(req@),
{
    let mut out: Vec<Step> = Vec::new();
    let mut path: Option<String> = None;
    match req {
        PlainRequest::Compress(i) => {
            let instructions = match i {
                Some(t) => Some(copy_text(t.as_str())),
                None => None,
            };
            push_act(&mut out, Action::EnsureMcp);
            push_step(
                &mut out,
                Step::Compress {
                    instructions,
                    auto: false,
                    on_error: copy_text("compress error: "),
                },
            );
            push_act(&mut out, Action::SaveSessionQuietly);
        },
        PlainRequest::Merge { branch, target, main_path, wt_path } => {
            let prompt = push_merge_prompt(
                branch.as_str(),
                target.as_str(),
                main_path.as_str(),
                wt_path.as_str(),
            );
            push_step(&mut out, Step::AddMessage(MessageRole::User, copy_text(prompt.as_str())));
            push_act(&mut out, Action::EnsureMcp);
            push_act(&mut out, Action::EnsureAgent);
            push_step(
                &mut out,
                Step::Spawn(
                    prompt,
                    RunKind { fresh: false, abortable: false, iteration: None },
                ),
            );
            run.is_running = true;
            path = Some(copy_text(main_path.as_str()));
        },
        PlainRequest::Exit { main_path } => {
            let rest = crate::commands::exit_worktree(main_path.as_str());
            push_all(&mut out, rest);
        },
        PlainRequest::Incomplete => {},
        PlainRequest::Failed(e) => {
            push_says(&mut out, cat("error: ", e.as_str()).as_str(), C_ERROR);
        },
    }
    assert(step_views(out@) =~= plain_request_steps(req@));
    (path, out)
}

/// Returns to the prompt that was in use before, once the run is over.
pub fn after_agent_event(
    is_running: bool,
    chain: &mut ChainState,
    context: &mut ContextFiles,
    perm: &mut Option<PermState>,
)
    requires
        old(context).wf(),
    ensures
        final(context).wf(),
        if is_running {
            &&& final(chain)@ == old(chain)@
            &&& final(context)@ == old(context)@
            &&& *final(perm) == *old(perm)
        } else {
            &&& final(chain)@ == (ChainView { dot_prompt_restore: None, ..old(chain)@ })
            &&& final(context)@ == returned(old(context)@, old(chain)@)
            &&& *final(perm) == returned_mode(*old(perm), old(chain)@)
        },
{
    if !is_running {
        crate::flow::return_prompt(chain, context, perm);
    }
}

} // verus!
