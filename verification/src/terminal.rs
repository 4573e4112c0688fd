//! Entering and leaving the terminal modes that the interface runs in.

use vstd::prelude::*;

verus! {

/// A change of the terminal's modes.
#[derive(Clone, Copy, Debug, PartialEq, Eq, Structural)]
pub enum TermOp {
    EnterAlternateScreen,
    LeaveAlternateScreen,
    ClearAll,
    /// Moves the cursor to the upper left corner.
    MoveHome,
    EnableMouseCapture,
    DisableMouseCapture,
    EnableBracketedPaste,
    DisableBracketedPaste,
    /// Asks for unambiguous escape codes.
    PushKeyboardFlags,
    PopKeyboardFlags,
    EnableRawMode,
    DisableRawMode,
    NewLine,
    Flush,
}

/// A change, and whether its failure ends what it is part of.
#[derive(Clone, Copy, Debug, PartialEq, Eq, Structural)]
pub struct TermStep {
    pub op: TermOp,
    pub required: bool,
}

/// A change that has to succeed.
pub open spec fn must(op: TermOp) -> TermStep {
    TermStep { op, required: true }
}

/// A change that may fail.
pub open spec fn may(op: TermOp) -> TermStep {
    TermStep { op, required: false }
}

fn must_do(op: TermOp) -> (r: TermStep)
    ensures
        r == must(op),
{
    TermStep { op, required: true }
}

fn may_do(op: TermOp) -> (r: TermStep)
    ensures
        r == may(op),
{
    TermStep { op, required: false }
}

/// The modes that the interface runs in.
#[derive(Clone, Copy, Debug)]
pub struct TerminalGuard {
    pub alternate_screen: bool,
    pub mouse_capture: bool,
}

impl TerminalGuard {
    /// The changes that enter the modes. On the main screen the frame is
    /// painted over what was visible, and the mouse is left to the terminal.
    pub open spec fn entering(self) -> Seq<TermStep> {
        (if self.alternate_screen {
            seq![must(TermOp::EnterAlternateScreen), must(TermOp::ClearAll)]
        } else {
            seq![must(TermOp::ClearAll), must(TermOp::MoveHome)]
        }) + (if self.mouse_capture {
            seq![must(TermOp::EnableMouseCapture)]
        } else {
            Seq::empty()
        }) + seq![
            must(TermOp::EnableBracketedPaste),
            may(TermOp::PushKeyboardFlags),
            must(TermOp::EnableRawMode),
        ]
    }

    /// The changes that leave the modes. On the main screen what was painted
    /// stays, and the shell's prompt comes below it.
    pub open spec fn leaving(self) -> Seq<TermStep> {
        seq![
            may(TermOp::DisableRawMode),
            may(TermOp::PopKeyboardFlags),
            may(TermOp::DisableBracketedPaste),
        ] + (if self.mouse_capture {
            seq![may(TermOp::DisableMouseCapture)]
        } else {
            Seq::empty()
        }) + (if self.alternate_screen {
            seq![may(TermOp::LeaveAlternateScreen)]
        } else {
            seq![may(TermOp::NewLine)]
        }) + seq![may(TermOp::Flush)]
    }

    /// The mouse is captured on the alternate screen only.
    pub fn new(alternate_screen: bool) -> (r: TerminalGuard)
        ensures
            r.alternate_screen == alternate_screen,
            r.mouse_capture == alternate_screen,
    {
        TerminalGuard { alternate_screen, mouse_capture: alternate_screen }
    }

    /// The changes that enter the modes.
    pub fn enter(&self) -> (r: Vec<TermStep>)
        ensures
            r@ == self.entering(),
    {
        let mut out: Vec<TermStep> = Vec::new();
        if self.alternate_screen {
            out.push(must_do(TermOp::EnterAlternateScreen));
            out.push(must_do(TermOp::ClearAll));
        } else {
            out.push(must_do(TermOp::ClearAll));
            out.push(must_do(TermOp::MoveHome));
        }
        if self.mouse_capture {
            out.push(must_do(TermOp::EnableMouseCapture));
        }
        out.push(must_do(TermOp::EnableBracketedPaste));
        out.push(may_do(TermOp::PushKeyboardFlags));
        out.push(must_do(TermOp::EnableRawMode));
        assert(out@ =~= self.entering());
        out
    }

    /// The changes that leave the modes.
    pub fn leave(&self) -> (r: Vec<TermStep>)
        ensures
            r@ == self.leaving(),
    {
        let mut out: Vec<TermStep> = Vec::new();
        out.push(may_do(TermOp::DisableRawMode));
        out.push(may_do(TermOp::PopKeyboardFlags));
        out.push(may_do(TermOp::DisableBracketedPaste));
        if self.mouse_capture {
            out.push(may_do(TermOp::DisableMouseCapture));
        }
        if self.alternate_screen {
            out.push(may_do(TermOp::LeaveAlternateScreen));
        } else {
            out.push(may_do(TermOp::NewLine));
        }
        out.push(may_do(TermOp::Flush));
        assert(out@ =~= self.leaving());
        out
    }
}

/// The changes before another program takes over the terminal.
pub open spec fn suspending(alternate_screen: bool) -> Seq<TermStep> {
    seq![may(TermOp::DisableRawMode)] + (if alternate_screen {
        seq![may(TermOp::DisableMouseCapture), may(TermOp::LeaveAlternateScreen)]
    } else {
        Seq::empty()
    }) + seq![may(TermOp::Flush)]
}

/// The changes once the other program is done.
pub open spec fn resuming(alternate_screen: bool) -> Seq<TermStep> {
    (if alternate_screen {
        seq![
            may(TermOp::EnterAlternateScreen),
            may(TermOp::ClearAll),
            may(TermOp::EnableMouseCapture),
        ]
    } else {
        Seq::empty()
    }) + seq![may(TermOp::EnableRawMode)]
}

/// The changes before another program takes over the terminal.
pub fn suspend(alternate_screen: bool) -> (r: Vec<TermStep>)
    ensures
        r@ == suspending(alternate_screen),
{
    let mut out: Vec<TermStep> = Vec::new();
    out.push(may_do(TermOp::DisableRawMode));
    if alternate_screen {
        out.push(may_do(TermOp::DisableMouseCapture));
        out.push(may_do(TermOp::LeaveAlternateScreen));
    }
    out.push(may_do(TermOp::Flush));
    assert(out@ =~= suspending(alternate_screen));
    out
}

/// The changes once the other program is done.
pub fn resume(alternate_screen: bool) -> (r: Vec<TermStep>)
    ensures
        r@ == resuming(alternate_screen),
{
    let mut out: Vec<TermStep> = Vec::new();
    if alternate_screen {
        out.push(may_do(TermOp::EnterAlternateScreen));
        out.push(may_do(TermOp::ClearAll));
        out.push(may_do(TermOp::EnableMouseCapture));
    }
    out.push(may_do(TermOp::EnableRawMode));
    assert(out@ =~= resuming(alternate_screen));
    out
}

// ---------------------------------------------------------------------------
// Laws
// ---------------------------------------------------------------------------

/// The modes of a terminal.
pub struct Modes {
    pub alternate_screen: bool,
    pub mouse_capture: bool,
    pub bracketed_paste: bool,
    /// Keyboard settings put aside.
    pub keyboard_stack: int,
    pub raw: bool,
}

/// The modes after a change.
pub open spec fn changed(m: Modes, op: TermOp) -> Modes {
    match op {
        TermOp::EnterAlternateScreen => Modes { alternate_screen: true, ..m },
        TermOp::LeaveAlternateScreen => Modes { alternate_screen: false, ..m },
        TermOp::EnableMouseCapture => Modes { mouse_capture: true, ..m },
        TermOp::DisableMouseCapture => Modes { mouse_capture: false, ..m },
        TermOp::EnableBracketedPaste => Modes { bracketed_paste: true, ..m },
        TermOp::DisableBracketedPaste => Modes { bracketed_paste: false, ..m },
        TermOp::PushKeyboardFlags => Modes { keyboard_stack: m.keyboard_stack + 1, ..m },
        TermOp::PopKeyboardFlags => Modes { keyboard_stack: m.keyboard_stack - 1, ..m },
        TermOp::EnableRawMode => Modes { raw: true, ..m },
        TermOp::DisableRawMode => Modes { raw: false, ..m },
        _ => m,
    }
}

/// The modes after all changes.
pub open spec fn after(m: Modes, steps: Seq<TermStep>) -> Modes
    decreases steps.len(),
{
    if steps.len() == 0 {
        m
    } else {
        changed(after(m, steps.drop_last()), steps.last().op)
    }
}

proof fn lemma_after_push(m: Modes, steps: Seq<TermStep>, step: TermStep)
    ensures
        after(m, steps.push(step)) == changed(after(m, steps), step.op),
{
    assert(steps.push(step).drop_last() =~= steps);
}

/// The modes of a shell: none of those above.
pub open spec fn shell_modes(keyboard_stack: int) -> Modes {
    Modes {
        alternate_screen: false,
        mouse_capture: false,
        bracketed_paste: false,
        keyboard_stack,
        raw: false,
    }
}

/// Entering sets exactly the modes that the guard is for.
pub proof fn lemma_entered(guard: TerminalGuard, keyboard_stack: int)
    ensures
        after(shell_modes(keyboard_stack), guard.entering()) == (Modes {
            alternate_screen: guard.alternate_screen,
            mouse_capture: guard.mouse_capture,
            bracketed_paste: true,
            keyboard_stack: keyboard_stack + 1,
            raw: true,
        }),
{
    let m = shell_modes(keyboard_stack);
    let none = Seq::<TermStep>::empty();
    let a = if guard.alternate_screen {
        none.push(must(TermOp::EnterAlternateScreen)).push(must(TermOp::ClearAll))
    } else {
        none.push(must(TermOp::ClearAll)).push(must(TermOp::MoveHome))
    };
    lemma_after_push(m, none, must(TermOp::EnterAlternateScreen));
    lemma_after_push(m, none.push(must(TermOp::EnterAlternateScreen)), must(TermOp::ClearAll));
    lemma_after_push(m, none, must(TermOp::ClearAll));
    lemma_after_push(m, none.push(must(TermOp::ClearAll)), must(TermOp::MoveHome));
    let b = if guard.mouse_capture {
        a.push(must(TermOp::EnableMouseCapture))
    } else {
        a
    };
    lemma_after_push(m, a, must(TermOp::EnableMouseCapture));
    let c = b.push(must(TermOp::EnableBracketedPaste));
    lemma_after_push(m, b, must(TermOp::EnableBracketedPaste));
    let d = c.push(may(TermOp::PushKeyboardFlags));
    lemma_after_push(m, c, may(TermOp::PushKeyboardFlags));
    lemma_after_push(m, d, must(TermOp::EnableRawMode));
    assert(guard.entering() =~= d.push(must(TermOp::EnableRawMode)));
}

/// Leaving gives the shell its modes back.
pub proof fn lemma_left(guard: TerminalGuard, keyboard_stack: int)
    ensures
        after(after(shell_modes(keyboard_stack), guard.entering()), guard.leaving())
            == shell_modes(keyboard_stack),
{
    lemma_entered(guard, keyboard_stack);
    let m = after(shell_modes(keyboard_stack), guard.entering());
    let none = Seq::<TermStep>::empty();
    let a = none.push(may(TermOp::DisableRawMode));
    let b = a.push(may(TermOp::PopKeyboardFlags));
    let c = b.push(may(TermOp::DisableBracketedPaste));
    lemma_after_push(m, none, may(TermOp::DisableRawMode));
    lemma_after_push(m, a, may(TermOp::PopKeyboardFlags));
    lemma_after_push(m, b, may(TermOp::DisableBracketedPaste));
    let d = if guard.mouse_capture {
        c.push(may(TermOp::DisableMouseCapture))
    } else {
        c
    };
    lemma_after_push(m, c, may(TermOp::DisableMouseCapture));
    let e = if guard.alternate_screen {
        d.push(may(TermOp::LeaveAlternateScreen))
    } else {
        d.push(may(TermOp::NewLine))
    };
    lemma_after_push(m, d, may(TermOp::LeaveAlternateScreen));
    lemma_after_push(m, d, may(TermOp::NewLine));
    lemma_after_push(m, e, may(TermOp::Flush));
    assert(guard.leaving() =~= e.push(may(TermOp::Flush)));
}

/// Once the other program is done, the modes are those before it took over.
pub proof fn lemma_resumed(guard: TerminalGuard, keyboard_stack: int)
    requires
        guard.mouse_capture == guard.alternate_screen,
    ensures
        ({
            let entered = after(shell_modes(keyboard_stack), guard.entering());
            let alternate = guard.alternate_screen;
            after(after(entered, suspending(alternate)), resuming(alternate)) == entered
        }),
{
    lemma_entered(guard, keyboard_stack);
    let entered = after(shell_modes(keyboard_stack), guard.entering());
    let none = Seq::<TermStep>::empty();
    let a = none.push(may(TermOp::DisableRawMode));
    lemma_after_push(entered, none, may(TermOp::DisableRawMode));
    let b = a.push(may(TermOp::DisableMouseCapture));
    lemma_after_push(entered, a, may(TermOp::DisableMouseCapture));
    let c = if guard.alternate_screen {
        b.push(may(TermOp::LeaveAlternateScreen))
    } else {
        a
    };
    lemma_after_push(entered, b, may(TermOp::LeaveAlternateScreen));
    lemma_after_push(entered, c, may(TermOp::Flush));
    assert(suspending(guard.alternate_screen) =~= c.push(may(TermOp::Flush)));
    let away = after(entered, suspending(guard.alternate_screen));
    let d = none.push(may(TermOp::EnterAlternateScreen));
    lemma_after_push(away, none, may(TermOp::EnterAlternateScreen));
    let e = d.push(may(TermOp::ClearAll));
    lemma_after_push(away, d, may(TermOp::ClearAll));
    let f = if guard.alternate_screen {
        e.push(may(TermOp::EnableMouseCapture))
    } else {
        none
    };
    lemma_after_push(away, e, may(TermOp::EnableMouseCapture));
    lemma_after_push(away, f, may(TermOp::EnableRawMode));
    assert(resuming(guard.alternate_screen) =~= f.push(may(TermOp::EnableRawMode)));
}

} // verus!
