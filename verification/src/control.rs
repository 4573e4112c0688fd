//! What keys, the mouse and the wheel do.

use vstd::prelude::*;

use crate::bottom::{click_target, InputView};
use crate::color::{Color, C_HANDOFF};
use crate::draw::TermSize;
use crate::events::{sanitize_output, sanitized};
use crate::feed::selection_text;
use crate::flow::ChainAnswer;
use crate::keys::{Key, KeyCode, UserEvent};
use crate::num::{least, less};
use crate::renderer::{Renderer, RendererView};
use crate::steps::{blank, cat, cat3, push_blank, push_says, says, step_views, Step, StepView};
use crate::text::{char_seqs, chars_of, lines, lines_of, split, string_of};
use crate::turn::{RunState, RunView};
use crate::urls::{url_under, urls};

verus! {

// ---------------------------------------------------------------------------
// The mouse
// ---------------------------------------------------------------------------

impl RendererView {
    /// The line of the chat that a row of the screen shows.
    pub open spec fn line_at(self, row: u16, size: TermSize) -> Option<usize> {
        let pad = self.top_padding(size);
        if self.screen_lines(size).len() == 0 || row < pad {
            None
        } else {
            Some(least((self.first_line(size) + row - pad) as nat, usize::MAX as nat) as usize)
        }
    }

    /// The address in a line of the chat that a column of the screen falls on.
    pub open spec fn link_at(self, line: usize, col: u16, size: TermSize) -> Option<Seq<char>> {
        let ls = self.screen_lines(size);
        if line < ls.len() {
            let text = ls[line as int].text;
            url_under(
                self.feed.widths,
                text,
                urls(text),
                less(col as nat, self.chat_margin as nat),
                0,
            )
        } else {
            None
        }
    }

    /// The text that is marked, where there is one.
    pub open spec fn marked(self, size: TermSize) -> Option<Seq<char>> {
        match (self.selection_start, self.selection_end) {
            (Some(a), Some(b)) => {
                let text = selection_text(self.screen_lines(size), a as nat, b as nat);
                if text.len() > 0 {
                    Some(text)
                } else {
                    None
                }
            },
            _ => None,
        }
    }

    /// With nothing marked.
    pub open spec fn unmarked(self) -> RendererView {
        RendererView {
            chat_dirty: true,
            selection_active: false,
            selection_start: None,
            selection_end: None,
            ..self
        }
    }

    /// With the mark drawn to a row of the screen.
    pub open spec fn mark_to(self, row: u16, size: TermSize) -> RendererView {
        match self.line_at(row, size) {
            Some(i) if self.selection_active => RendererView { selection_end: Some(i), ..self },
            _ => self,
        }
    }
}

/// What is left to be done after an event.
#[derive(Debug, PartialEq)]
pub enum UserReply {
    /// Nothing.
    Nothing,
    /// Put the cursor of the input on a character of one of its lines.
    PlaceCursor(usize, usize),
    /// Open a link.
    OpenUrl(String),
    /// Take a text into the clipboard.
    Copy(String),
    /// Put a text into the input.
    Insert(String),
    /// Interrupt what is going on, or leave.
    Interrupt,
    /// Handle a key.
    Press(Key),
}

/// What a [`UserReply`] holds.
pub enum ReplyView {
    Nothing,
    PlaceCursor(nat, nat),
    OpenUrl(Seq<char>),
    Copy(Seq<char>),
    Insert(Seq<char>),
    Interrupt,
    Press(Key),
}

impl View for UserReply {
    type V = ReplyView;

    open spec fn view(&self) -> ReplyView {
        match *self {
            UserReply::Nothing => ReplyView::Nothing,
            UserReply::PlaceCursor(l, c) => ReplyView::PlaceCursor(l as nat, c as nat),
            UserReply::OpenUrl(s) => ReplyView::OpenUrl(s@),
            UserReply::Copy(s) => ReplyView::Copy(s@),
            UserReply::Insert(s) => ReplyView::Insert(s@),
            UserReply::Interrupt => ReplyView::Interrupt,
            UserReply::Press(k) => ReplyView::Press(k),
        }
    }
}

/// What pressing the mouse does: it places the cursor in the input, opens a
/// link of the chat, or begins to mark lines of the chat.
pub open spec fn mouse_down(
    r: RendererView,
    row: u16,
    col: u16,
    input: Seq<char>,
    size: TermSize,
) -> (RendererView, ReplyView) {
    match click_target(r.feed.widths, r.input, row as nat, col as nat, split(input, '\n')) {
        Some((line, at)) => (r, ReplyView::PlaceCursor(line, at)),
        None => if row < r.visible(size) && r.line_at(row, size) is Some {
            let i = r.line_at(row, size)->0;
            match r.link_at(i, col, size) {
                Some(url) => (r, ReplyView::OpenUrl(url)),
                None => (
                    RendererView {
                        selection_active: true,
                        selection_start: Some(i),
                        selection_end: Some(i),
                        ..r
                    },
                    ReplyView::Nothing,
                ),
            }
        } else {
            (r, ReplyView::Nothing)
        },
    }
}

/// What releasing the mouse does: the marked text is copied.
pub open spec fn mouse_up(r: RendererView, row: u16, size: TermSize) -> (RendererView, ReplyView) {
    if r.selection_active {
        let m = r.mark_to(row, size);
        (
            m.unmarked(),
            match m.marked(size) {
                Some(text) => ReplyView::Copy(text),
                None => ReplyView::Nothing,
            },
        )
    } else {
        (r, ReplyView::Nothing)
    }
}

/// What turning the wheel up does: the input scrolls while it can, then the
/// chat.
pub open spec fn wheel_up(r: RendererView, size: TermSize) -> RendererView {
    if r.input.vscroll > 0 {
        RendererView {
            input: (InputView { vscroll: (r.input.vscroll - 1) as usize, ..r.input }),
            ..r
        }
    } else if r.scroll_offset < r.max_offset(size) {
        r.scrolled((r.scroll_offset + 1) as nat)
    } else {
        r
    }
}

/// What turning the wheel down does: the chat scrolls while it can, then the
/// input.
pub open spec fn wheel_down(r: RendererView) -> RendererView {
    if r.scroll_offset > 0 {
        r.scrolled((r.scroll_offset - 1) as nat)
    } else if r.input.vscroll < r.input.max_vscroll {
        RendererView {
            input: (InputView { vscroll: (r.input.vscroll + 1) as usize, ..r.input }),
            ..r
        }
    } else {
        r
    }
}

/// Whether a key interrupts: C or D, held with the control key.
pub open spec fn interrupts(key: Key) -> bool {
    key.is_control('c') || key.is_control('d')
}

/// What an event does to the screen, and what is left to be done.
pub open spec fn user_event(
    r: RendererView,
    ev: UserEvent,
    input: Seq<char>,
    size: TermSize,
) -> (RendererView, ReplyView) {
    match ev {
        UserEvent::Resize => (
            RendererView {
                chat_dirty: true,
                scroll_offset: least(r.scroll_offset as nat, r.max_offset(size)) as usize,
                ..r
            },
            ReplyView::Nothing,
        ),
        UserEvent::ScrollUp => (wheel_up(r, size), ReplyView::Nothing),
        UserEvent::ScrollDown => (wheel_down(r), ReplyView::Nothing),
        UserEvent::MouseDown { row, col } => mouse_down(r, row, col, input, size),
        UserEvent::MouseDrag { row, col: _ } => (r.mark_to(row, size), ReplyView::Nothing),
        UserEvent::MouseUp { row, col: _ } => mouse_up(r, row, size),
        UserEvent::Paste(s) => (r, ReplyView::Insert(s@)),
        UserEvent::Key(k) => (
            r,
            if interrupts(k) {
                ReplyView::Interrupt
            } else {
                ReplyView::Press(k)
            },
        ),
    }
}

/// Handles the pressing of the mouse.
fn handle_mouse_down(
    renderer: &mut Renderer,
    row: u16,
    col: u16,
    input: &str,
    size: TermSize,
) -> (r: UserReply)
    requires
        old(renderer).wf(),
    ensures
        final(renderer).wf(),
        (final(renderer)@, r@) == mouse_down(old(renderer)@, row, col, input@, size),
{
    if let Some((line, at)) = renderer.input_cursor_for_click(row, col, input) {
        return UserReply::PlaceCursor(line, at);
    }
    if (row as usize) < renderer.visible_lines(size) {
        if let Some(i) = renderer.buffer_line_at_row(row, size) {
            match renderer.link_url_at(i, col, size) {
                Some(url) => {
                    return UserReply::OpenUrl(url);
                },
                None => {
                    renderer.selection_active = true;
                    renderer.selection_start = Some(i);
                    renderer.selection_end = Some(i);
                },
            }
        }
    }
    UserReply::Nothing
}

/// Draws the mark to a row.
fn draw_mark(renderer: &mut Renderer, row: u16, size: TermSize)
    requires
        old(renderer).wf(),
    ensures
        final(renderer).wf(),
        final(renderer)@ == old(renderer)@.mark_to(row, size),
{
    if renderer.selection_active {
        if let Some(i) = renderer.buffer_line_at_row(row, size) {
            renderer.selection_end = Some(i);
        }
    }
}

/// Handles the releasing of the mouse.
fn handle_mouse_up(renderer: &mut Renderer, row: u16, size: TermSize) -> (r: UserReply)
    requires
        old(renderer).wf(),
    ensures
        final(renderer).wf(),
        (final(renderer)@, r@) == mouse_up(old(renderer)@, row, size),
{
    if !renderer.selection_active {
        return UserReply::Nothing;
    }
    draw_mark(renderer, row, size);
    let text = renderer.selected_text(size);
    renderer.clear_selection();
    match text {
        Some(t) => UserReply::Copy(t),
        None => UserReply::Nothing,
    }
}

/// Handles an event of the user, as far as the screen is concerned.
pub fn handle_user_event(
    ev: UserEvent,
    renderer: &mut Renderer,
    input: &str,
    size: TermSize,
) -> (r: UserReply)
    requires
        old(renderer).wf(),
    ensures
        final(renderer).wf(),
        (final(renderer)@, r@) == user_event(old(renderer)@, ev, input@, size),
{
    match ev {
        UserEvent::Resize => {
            renderer.resize(size);
            UserReply::Nothing
        },
        UserEvent::ScrollUp => {
            if !renderer.input_scroll_up() {
                renderer.scroll_line_up(size);
            }
            UserReply::Nothing
        },
        UserEvent::ScrollDown => {
            if renderer.is_scrolling() {
                renderer.scroll_line_down();
            } else {
                renderer.input_scroll_down();
            }
            UserReply::Nothing
        },
        UserEvent::MouseDown { row, col } => handle_mouse_down(renderer, row, col, input, size),
        UserEvent::MouseDrag { row, col: _ } => {
            draw_mark(renderer, row, size);
            UserReply::Nothing
        },
        UserEvent::MouseUp { row, col: _ } => handle_mouse_up(renderer, row, size),
        UserEvent::Paste(s) => UserReply::Insert(s),
        UserEvent::Key(k) => {
            if k.with_control('c') || k.with_control('d') {
                UserReply::Interrupt
            } else {
                UserReply::Press(k)
            }
        },
    }
}

/// What interrupting does.
#[derive(Clone, Copy, Debug, PartialEq, Eq, Structural)]
pub enum Interruption {
    /// Side questions are stopped.
    SideQuestions,
    /// The main run is stopped.
    MainRun,
    /// The program ends.
    Leave,
}

/// What interrupting does: side questions go first, then the main run, and only
/// where nothing is going on the program ends.
pub fn interruption(btw_inflight: usize, is_running: bool) -> (r: Interruption)
    ensures
        r == if btw_inflight > 0 {
            Interruption::SideQuestions
        } else if is_running {
            Interruption::MainRun
        } else {
            Interruption::Leave
        },
{
    if btw_inflight > 0 {
        Interruption::SideQuestions
    } else if is_running {
        Interruption::MainRun
    } else {
        Interruption::Leave
    }
}

// ---------------------------------------------------------------------------
// Keys
// ---------------------------------------------------------------------------

/// What the meaning of a key depends on.
#[derive(Clone, Copy, Debug)]
pub struct KeyContext {
    pub selection_active: bool,
    pub picker_active: bool,
    /// A step of the chain is being offered.
    pub chain_prompt: bool,
    /// Additional instructions for it are being entered.
    pub but_mode: bool,
}

/// What a key means.
#[derive(Clone, Copy, Debug, PartialEq, Eq, Structural)]
pub enum KeyAction {
    CopySelection,
    ClearSelection,
    ToggleReasoning,
    PageUp,
    PageDown,
    ToTop,
    ToBottom,
    /// The open picker takes it, or, where it is none of its keys, see
    /// [`later_action`].
    Picker,
    OpenEditor,
    Lazygit,
    Answer(ChainAnswer),
    /// It means nothing while a step of the chain is being offered.
    Swallow,
    CancelBut,
    /// It edits the input.
    Edit,
}

/// The answer that a character gives to an offered step.
pub open spec fn answer_in(c: char) -> Option<ChainAnswer> {
    if c == 'y' || c == 'Y' {
        Some(ChainAnswer::Yes)
    } else if c == 'n' || c == 'N' {
        Some(ChainAnswer::No)
    } else if c == 'b' || c == 'B' {
        Some(ChainAnswer::But)
    } else {
        None
    }
}

/// What a key means that no picker takes.
pub open spec fn later_meaning(key: Key, ctx: KeyContext) -> KeyAction {
    if key.is_control('g') {
        KeyAction::OpenEditor
    } else if key.is_control('h') {
        KeyAction::Lazygit
    } else if ctx.chain_prompt && !ctx.but_mode {
        match key.code {
            KeyCode::Char(c) if answer_in(c) is Some => KeyAction::Answer(answer_in(c)->0),
            _ => KeyAction::Swallow,
        }
    } else if ctx.but_mode && key.code is Esc {
        KeyAction::CancelBut
    } else {
        KeyAction::Edit
    }
}

/// What a key means.
pub open spec fn meaning(key: Key, ctx: KeyContext) -> KeyAction {
    if ctx.selection_active && key.code == KeyCode::Char('y') {
        KeyAction::CopySelection
    } else if ctx.selection_active && key.code is Esc {
        KeyAction::ClearSelection
    } else if key.is_control('r') {
        KeyAction::ToggleReasoning
    } else {
        match key.code {
            KeyCode::PageUp => KeyAction::PageUp,
            KeyCode::PageDown => KeyAction::PageDown,
            KeyCode::Home => KeyAction::ToTop,
            KeyCode::End => KeyAction::ToBottom,
            _ => if ctx.picker_active {
                KeyAction::Picker
            } else {
                later_meaning(key, ctx)
            },
        }
    }
}

/// What a key means that no picker takes.
pub fn later_action(key: &Key, ctx: KeyContext) -> (r: KeyAction)
    ensures
        r == later_meaning(*key, ctx),
{
    if key.with_control('g') {
        return KeyAction::OpenEditor;
    }
    if key.with_control('h') {
        return KeyAction::Lazygit;
    }
    if ctx.chain_prompt && !ctx.but_mode {
        return match key.code {
            KeyCode::Char(c) => {
                if c == 'y' || c == 'Y' {
                    KeyAction::Answer(ChainAnswer::Yes)
                } else if c == 'n' || c == 'N' {
                    KeyAction::Answer(ChainAnswer::No)
                } else if c == 'b' || c == 'B' {
                    KeyAction::Answer(ChainAnswer::But)
                } else {
                    KeyAction::Swallow
                }
            },
            _ => KeyAction::Swallow,
        };
    }
    if ctx.but_mode && key.code == KeyCode::Esc {
        KeyAction::CancelBut
    } else {
        KeyAction::Edit
    }
}

/// What a key means.
pub fn key_action(key: &Key, ctx: KeyContext) -> (r: KeyAction)
    ensures
        r == meaning(*key, ctx),
{
    if ctx.selection_active && key.code == KeyCode::Char('y') {
        return KeyAction::CopySelection;
    }
    if ctx.selection_active && key.code == KeyCode::Esc {
        return KeyAction::ClearSelection;
    }
    if key.with_control('r') {
        return KeyAction::ToggleReasoning;
    }
    match key.code {
        KeyCode::PageUp => KeyAction::PageUp,
        KeyCode::PageDown => KeyAction::PageDown,
        KeyCode::Home => KeyAction::ToTop,
        KeyCode::End => KeyAction::ToBottom,
        _ => {
            if ctx.picker_active {
                KeyAction::Picker
            } else {
                later_action(key, ctx)
            }
        },
    }
}

/// While a step of the chain is being offered, no key reaches the input.
pub proof fn lemma_offer_guards_input(key: Key, ctx: KeyContext)
    requires
        ctx.chain_prompt,
        !ctx.but_mode,
    ensures
        !(meaning(key, ctx) is Edit),
        !(later_meaning(key, ctx) is Edit),
{
}

/// Takes the marked text, where there is one, and unmarks it.
pub fn copy_selection(renderer: &mut Renderer, size: TermSize) -> (r: (Option<String>, Vec<Step>))
    requires
        old(renderer).wf(),
    ensures
        final(renderer).wf(),
        final(renderer)@ == old(renderer)@.unmarked(),
        crate::steps::opt_text(r.0) == old(renderer)@.marked(size),
        step_views(r.1@) == if old(renderer)@.marked(size) is Some {
            seq![says("copied selection"@, Color::Green)]
        } else {
            Seq::empty()
        },
{
    let text = renderer.selected_text(size);
    let mut out: Vec<Step> = Vec::new();
    assert(step_views(out@) =~= Seq::<StepView>::empty());
    if text.is_some() {
        push_says(&mut out, "copied selection", Color::Green);
        assert(step_views(out@) =~= seq![says("copied selection"@, Color::Green)]);
    }
    renderer.clear_selection();
    (text, out)
}

/// Switches the display of reasoning.
pub fn toggle_reasoning(show: &mut bool) -> (r: Step)
    ensures
        *final(show) == !*old(show),
        r@ == says(
            "reasoning visibility: "@ + if *final(show) {
                "on"@
            } else {
                "off"@
            },
            Color::White,
        ),
{
    *show = !*show;
    let state: &str = if *show {
        "on"
    } else {
        "off"
    };
    Step::WriteLine(cat("reasoning visibility: ", state), Color::White)
}

// ---------------------------------------------------------------------------
// Hand-off to the user
// ---------------------------------------------------------------------------

/// The lines of a question to the user.
pub open spec fn question_lines(ls: Seq<Seq<char>>) -> Seq<StepView> {
    ls.map_values(|l: Seq<char>| says("  | "@ + sanitized(l), C_HANDOFF))
}

/// How the user is asked.
pub open spec fn handoff_steps(run: RunView, question: Seq<char>) -> Seq<StepView> {
    crate::turn::line_end(run) + seq![says("[handoff] Model requests your guidance:"@, C_HANDOFF)]
        + question_lines(lines(question)) + seq![
        says(Seq::empty(), C_HANDOFF),
        says("  Type your response and press Enter (ESC to cancel):"@, C_HANDOFF),
    ]
}

/// Asks the user.
pub fn begin_handoff(question: &str, run: &mut RunState) -> (r: Vec<Step>)
    ensures
        final(run)@ == (RunView {
            was_reasoning: false,
            agent_line_started: false,
            ..old(run)@
        }),
        step_views(r@) == handoff_steps(old(run)@, question@),
{
    let ghost start = run@;
    let mut out: Vec<Step> = Vec::new();
    run.was_reasoning = false;
    if run.agent_line_started {
        push_blank(&mut out);
        run.agent_line_started = false;
    }
    push_says(&mut out, "[handoff] Model requests your guidance:", C_HANDOFF);
    let ls = lines_of(&chars_of(question));
    let ghost ss = char_seqs(ls@);
    let ghost before = step_views(out@);
    let n: usize = ls.len();
    assert(ss.len() == n);
    assert(before + question_lines(ss.take(0)) =~= before);
    for i in 0..n
        invariant
            n == ls@.len(),
            ss == char_seqs(ls@),
            step_views(out@) == before + question_lines(ss.take(i as int)),
    {
        let safe = sanitize_output(string_of(&ls[i]).as_str());
        push_says(&mut out, cat("  | ", safe.text()).as_str(), C_HANDOFF);
        assert((before + question_lines(ss.take(i as int))).push(
            says("  | "@ + sanitized(ss[i as int]), C_HANDOFF),
        ) =~= before + question_lines(ss.take(i + 1)));
    }
    assert(ss.take(n as int) =~= ss);
    let empty = String::new();
    assert(empty@ =~= Seq::<char>::empty());
    push_says(&mut out, empty.as_str(), C_HANDOFF);
    push_says(&mut out, "  Type your response and press Enter (ESC to cancel):", C_HANDOFF);
    assert(step_views(out@) =~= handoff_steps(start, question@));
    out
}

/// What a key makes of an answer that is being typed: the answer itself once it
/// is complete, and what stands there otherwise.
pub open spec fn handoff_typed(buffer: Seq<char>, code: KeyCode) -> (Option<Seq<char>>, Seq<char>) {
    match code {
        KeyCode::Enter => (Some(buffer), buffer),
        KeyCode::Esc => (Some(Seq::empty()), buffer),
        KeyCode::Char(c) => (None, buffer.push(c)),
        KeyCode::Backspace => (
            None,
            if buffer.len() > 0 {
                buffer.drop_last()
            } else {
                buffer
            },
        ),
        _ => (None, buffer),
    }
}

/// What is shown of an answer that is being typed.
pub open spec fn handoff_shown(buffer: Seq<char>, code: KeyCode) -> Seq<StepView> {
    match code {
        KeyCode::Char(_) | KeyCode::Backspace => seq![
            says("  > "@ + handoff_typed(buffer, code).1, C_HANDOFF),
        ],
        _ => Seq::empty(),
    }
}

/// Takes a key of the user's answer.
pub fn handoff_key(buffer: &mut Vec<char>, code: KeyCode) -> (r: (Option<String>, Vec<Step>))
    ensures
        (crate::steps::opt_text(r.0), final(buffer)@) == handoff_typed(old(buffer)@, code),
        step_views(r.1@) == handoff_shown(old(buffer)@, code),
{
    let ghost before = buffer@;
    let mut out: Vec<Step> = Vec::new();
    let mut done: Option<String> = None;
    match code {
        KeyCode::Enter => {
            done = Some(string_of(buffer));
        },
        KeyCode::Esc => {
            let s = String::new();
            assert(s@ =~= Seq::<char>::empty());
            done = Some(s);
        },
        KeyCode::Char(c) => {
            buffer.push(c);
            push_says(&mut out, cat("  > ", string_of(buffer).as_str()).as_str(), C_HANDOFF);
        },
        KeyCode::Backspace => {
            if buffer.len() > 0 {
                buffer.pop();
            }
            push_says(&mut out, cat("  > ", string_of(buffer).as_str()).as_str(), C_HANDOFF);
        },
        _ => {},
    }
    assert(step_views(out@) =~= handoff_shown(before, code));
    (done, out)
}

/// How the end of an answer is shown.
pub fn end_handoff(response: &str) -> (r: Vec<Step>)
    ensures
        step_views(r@) == seq![
            if response@.len() == 0 {
                says("  [cancelled]"@, C_HANDOFF)
            } else {
                says("  [sent: "@ + response@ + "]"@, C_HANDOFF)
            },
            blank(),
        ],
{
    let mut out: Vec<Step> = Vec::new();
    if chars_of(response).len() == 0 {
        push_says(&mut out, "  [cancelled]", C_HANDOFF);
    } else {
        push_says(&mut out, cat3("  [sent: ", response, "]").as_str(), C_HANDOFF);
    }
    push_blank(&mut out);
    assert(step_views(out@) =~= seq![
        if response@.len() == 0 {
            says("  [cancelled]"@, C_HANDOFF)
        } else {
            says("  [sent: "@ + response@ + "]"@, C_HANDOFF)
        },
        blank(),
    ]);
    out
}

} // verus!
