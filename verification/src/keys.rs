//! Keys and other input, and the recognition of pasted text.

use vstd::prelude::*;

verus! {

/// A key.
#[derive(Clone, Copy, Debug, PartialEq, Eq, Structural)]
pub enum KeyCode {
    Backspace,
    Enter,
    Left,
    Right,
    Up,
    Down,
    Home,
    End,
    PageUp,
    PageDown,
    Tab,
    BackTab,
    Delete,
    Insert,
    Esc,
    Char(char),
    Other,
}

/// The modifiers held with a key.
#[derive(Clone, Copy, Debug, PartialEq, Eq, Structural)]
pub struct KeyModifiers {
    pub shift: bool,
    pub control: bool,
    pub alt: bool,
    /// Any further modifier.
    pub other: bool,
}

/// A key with its modifiers.
#[derive(Clone, Copy, Debug, PartialEq, Eq, Structural)]
pub struct Key {
    pub code: KeyCode,
    pub modifiers: KeyModifiers,
}

impl Key {
    /// Whether this is `c` held with the control key.
    pub open spec fn is_control(self, c: char) -> bool {
        self.code == KeyCode::Char(c) && self.modifiers.control
    }

    /// Whether this is `c` held with the control key.
    pub fn with_control(&self, c: char) -> (r: bool)
        ensures
            r == self.is_control(c),
    {
        self.code == KeyCode::Char(c) && self.modifiers.control
    }
}

/// Whether a key may be a pasted line break: Enter alone, or Control and J
/// alone, which is how a line feed arrives.
pub open spec fn paste_newline(code: KeyCode, m: KeyModifiers) -> bool {
    ||| code is Enter && !m.shift && !m.control && !m.alt && !m.other
    ||| code == KeyCode::Char('j') && !m.shift && m.control && !m.alt && !m.other
}

/// Whether a key may be a pasted line break.
pub fn is_paste_newline_key(code: KeyCode, modifiers: KeyModifiers) -> (r: bool)
    ensures
        r == paste_newline(code, modifiers),
{
    let m = modifiers;
    (code == KeyCode::Enter && !m.shift && !m.control && !m.alt && !m.other) || (code
        == KeyCode::Char('j') && !m.shift && m.control && !m.alt && !m.other)
}

/// Milliseconds between two looks at the input while nothing happens.
pub const IDLE_POLL: u64 = 50;

/// Milliseconds within which more input means that a paste is going on. No
/// human presses another key so soon after Enter.
pub const PASTE_BURST_WINDOW: u64 = 10;

/// What Enter means.
#[derive(Clone, Copy, Debug, PartialEq, Eq, Structural)]
pub enum EnterVerdict {
    /// The user submits the input.
    Submit,
    /// A pasted line break.
    Newline,
}

/// Whether a paste is going on, for terminals that do not mark pasted text. A
/// burst starts with a line break that has more input behind it, and ends once
/// the input is quiet. Until then every line break is a pasted one.
#[derive(Clone, Copy, Debug)]
pub struct PasteBurst {
    pub active: bool,
}

impl PasteBurst {
    /// No paste going on.
    pub fn new() -> (r: PasteBurst)
        ensures
            !r.active,
    {
        PasteBurst { active: false }
    }

    /// Milliseconds to wait for the next input: few while a paste is going on,
    /// so that its end is noticed.
    pub fn wait_timeout(&self) -> (r: u64)
        ensures
            r == if self.active {
                PASTE_BURST_WINDOW
            } else {
                IDLE_POLL
            },
    {
        if self.active {
            PASTE_BURST_WINDOW
        } else {
            IDLE_POLL
        }
    }

    /// No input came in time: a paste is over.
    pub fn on_timeout(&mut self)
        ensures
            !final(self).active,
    {
        self.active = false;
    }

    /// A line break came, with or without more input behind it.
    pub fn on_enter(&mut self, more_input_pending: bool) -> (r: EnterVerdict)
        ensures
            final(self).active == (old(self).active || more_input_pending),
            r == if old(self).active || more_input_pending {
                EnterVerdict::Newline
            } else {
                EnterVerdict::Submit
            },
    {
        if self.active || more_input_pending {
            self.active = true;
            EnterVerdict::Newline
        } else {
            EnterVerdict::Submit
        }
    }
}

/// What a line break means, and whether a paste is going on after it.
pub open spec fn burst_step(active: bool, pending: bool) -> (bool, EnterVerdict) {
    if active || pending {
        (true, EnterVerdict::Newline)
    } else {
        (false, EnterVerdict::Submit)
    }
}

/// What the line breaks of a stream mean, each with or without more input
/// behind it, while the input is never quiet.
pub open spec fn burst_verdicts(active: bool, pendings: Seq<bool>) -> Seq<EnterVerdict>
    decreases pendings.len(),
{
    if pendings.len() == 0 {
        Seq::empty()
    } else {
        let (next, verdict) = burst_step(active, pendings[0]);
        seq![verdict] + burst_verdicts(next, pendings.skip(1))
    }
}

proof fn lemma_burst_active(pendings: Seq<bool>)
    ensures
        burst_verdicts(true, pendings).len() == pendings.len(),
        forall|i: int|
            0 <= i < pendings.len() ==> (#[trigger] burst_verdicts(true, pendings)[i]) is Newline,
    decreases pendings.len(),
{
    if pendings.len() > 0 {
        lemma_burst_active(pendings.skip(1));
        let rest = burst_verdicts(true, pendings.skip(1));
        assert forall|i: int| 0 <= i < pendings.len() implies (#[trigger] burst_verdicts(
            true,
            pendings,
        )[i]) is Newline by {
            if i > 0 {
                assert(burst_verdicts(true, pendings)[i] == rest[i - 1]);
            }
        }
    }
}

/// A paste of several lines is never submitted line by line: once a line break
/// has more input behind it, no later one of the same burst is a submission.
pub proof fn lemma_paste_lands_whole(pendings: Seq<bool>)
    requires
        pendings.len() > 0,
        pendings[0],
    ensures
        burst_verdicts(false, pendings).len() == pendings.len(),
        forall|i: int|
            0 <= i < pendings.len() ==> (#[trigger] burst_verdicts(false, pendings)[i]) is Newline,
{
    lemma_burst_active(pendings.skip(1));
    let rest = burst_verdicts(true, pendings.skip(1));
    assert forall|i: int| 0 <= i < pendings.len() implies (#[trigger] burst_verdicts(
        false,
        pendings,
    )[i]) is Newline by {
        if i > 0 {
            assert(burst_verdicts(false, pendings)[i] == rest[i - 1]);
        }
    }
}

// ---------------------------------------------------------------------------
// Input events
// ---------------------------------------------------------------------------

/// What the terminal reports.
pub enum RawInput {
    /// A key, pressed or released.
    Key { key: Key, pressed: bool },
    WheelUp,
    WheelDown,
    LeftDown { row: u16, col: u16 },
    LeftDrag { row: u16, col: u16 },
    LeftUp { row: u16, col: u16 },
    Resize,
    Paste(String),
    Other,
}

/// What the interface acts on.
#[derive(Debug, PartialEq)]
pub enum UserEvent {
    Key(Key),
    Paste(String),
    ScrollUp,
    ScrollDown,
    MouseDown { row: u16, col: u16 },
    MouseDrag { row: u16, col: u16 },
    MouseUp { row: u16, col: u16 },
    Resize,
}

/// What a [`UserEvent`] holds.
pub enum UserView {
    Key(Key),
    Paste(Seq<char>),
    ScrollUp,
    ScrollDown,
    MouseDown { row: u16, col: u16 },
    MouseDrag { row: u16, col: u16 },
    MouseUp { row: u16, col: u16 },
    Resize,
}

impl View for UserEvent {
    type V = UserView;

    open spec fn view(&self) -> UserView {
        match *self {
            UserEvent::Key(k) => UserView::Key(k),
            UserEvent::Paste(s) => UserView::Paste(s@),
            UserEvent::ScrollUp => UserView::ScrollUp,
            UserEvent::ScrollDown => UserView::ScrollDown,
            UserEvent::MouseDown { row, col } => UserView::MouseDown { row, col },
            UserEvent::MouseDrag { row, col } => UserView::MouseDrag { row, col },
            UserEvent::MouseUp { row, col } => UserView::MouseUp { row, col },
            UserEvent::Resize => UserView::Resize,
        }
    }
}

/// The event that an input stands for, given whether a paste is going on and
/// whether more input is behind it.
pub open spec fn event_of(input: RawInput, active: bool, pending: bool) -> Option<UserView> {
    match input {
        RawInput::Key { key, pressed } => if !pressed {
            None
        } else if paste_newline(key.code, key.modifiers) && (active || pending) {
            Some(UserView::Paste("\n"@))
        } else {
            Some(UserView::Key(key))
        },
        RawInput::WheelUp => Some(UserView::ScrollUp),
        RawInput::WheelDown => Some(UserView::ScrollDown),
        RawInput::LeftDown { row, col } => Some(UserView::MouseDown { row, col }),
        RawInput::LeftDrag { row, col } => Some(UserView::MouseDrag { row, col }),
        RawInput::LeftUp { row, col } => Some(UserView::MouseUp { row, col }),
        RawInput::Resize => Some(UserView::Resize),
        RawInput::Paste(s) => Some(UserView::Paste(s@)),
        RawInput::Other => None,
    }
}

/// Whether an input is a pressed key that may be a pasted line break.
pub open spec fn newline_press(input: RawInput) -> bool {
    match input {
        RawInput::Key { key, pressed } => pressed && paste_newline(key.code, key.modifiers),
        _ => false,
    }
}

/// Whether it matters for an input that more is behind it: a line break outside
/// of a paste.
pub fn needs_peek(input: &RawInput, burst: &PasteBurst) -> (r: bool)
    ensures
        r == (newline_press(*input) && !burst.active),
{
    match input {
        RawInput::Key { key, pressed } => *pressed && is_paste_newline_key(key.code, key.modifiers)
            && !burst.active,
        _ => false,
    }
}

/// The event that an input stands for.
pub fn translate(input: RawInput, burst: &mut PasteBurst, pending: bool) -> (r: Option<UserEvent>)
    ensures
        match event_of(input, old(burst).active, pending) {
            Some(e) => r matches Some(u) && u@ == e,
            None => r is None,
        },
        final(burst).active == if newline_press(input) {
            old(burst).active || pending
        } else {
            old(burst).active
        },
{
    match input {
        RawInput::Key { key, pressed } => {
            if !pressed {
                return None;
            }
            if is_paste_newline_key(key.code, key.modifiers) {
                match burst.on_enter(pending) {
                    EnterVerdict::Submit => Some(UserEvent::Key(key)),
                    EnterVerdict::Newline => {
                        let mut s = String::new();
                        s.push_str("\n");
                        assert(s@ =~= "\n"@);
                        Some(UserEvent::Paste(s))
                    },
                }
            } else {
                Some(UserEvent::Key(key))
            }
        },
        RawInput::WheelUp => Some(UserEvent::ScrollUp),
        RawInput::WheelDown => Some(UserEvent::ScrollDown),
        RawInput::LeftDown { row, col } => Some(UserEvent::MouseDown { row, col }),
        RawInput::LeftDrag { row, col } => Some(UserEvent::MouseDrag { row, col }),
        RawInput::LeftUp { row, col } => Some(UserEvent::MouseUp { row, col }),
        RawInput::Resize => Some(UserEvent::Resize),
        RawInput::Paste(s) => Some(UserEvent::Paste(s)),
        RawInput::Other => None,
    }
}

/// Whether the listener ends where an event can no longer be delivered. Mouse
/// buttons, new sizes and pastes are dropped instead.
pub fn ends_on_failure(event: &UserEvent, from_paste_key: bool) -> (r: bool)
    ensures
        r == match event@ {
            UserView::Key(_) | UserView::ScrollUp | UserView::ScrollDown => true,
            UserView::Paste(_) => from_paste_key,
            _ => false,
        },
{
    match event {
        UserEvent::Key(_) | UserEvent::ScrollUp | UserEvent::ScrollDown => true,
        UserEvent::Paste(_) => from_paste_key,
        _ => false,
    }
}

} // verus!
