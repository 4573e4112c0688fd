//! Terminal colors.

use vstd::prelude::*;

verus! {

/// A foreground or background color of a terminal cell.
#[derive(Clone, Copy, Debug, PartialEq, Eq, Structural)]
pub enum Color {
    /// The terminal's own default.
    Reset,
    Black,
    DarkGrey,
    Red,
    DarkRed,
    Green,
    DarkGreen,
    Yellow,
    DarkYellow,
    Blue,
    DarkBlue,
    Magenta,
    DarkMagenta,
    Cyan,
    DarkCyan,
    White,
    Grey,
    /// A 24-bit color.
    Rgb { r: u8, g: u8, b: u8 },
    /// A color of the 256-color palette.
    AnsiValue(u8),
}

/// Text of the assistant.
pub const C_AGENT: Color = Color::White;

/// Errors and warnings.
pub const C_ERROR: Color = Color::Red;

/// Tool calls.
pub const C_TOOL: Color = Color::Yellow;

/// Permission questions.
pub const C_PERM: Color = Color::Magenta;

/// Side questions.
pub const C_BTW: Color = Color::Cyan;

/// Hand-off dialogue.
pub const C_HANDOFF: Color = Color::Green;

/// Output of slash commands.
pub const C_RESULT: Color = Color::DarkGrey;

} // verus!
