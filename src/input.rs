//! Input modes, and the decisions that move between them.
use vstd::prelude::*;

verus! {

/// Whether keys drive the avatar or are typed into a line.
#[derive(Debug, Clone, Copy, PartialEq, Eq, Structural)]
pub enum Mode {
    Normal,
    Chat,
    Command,
}

impl Mode {
    /// Typed characters are taken only while a line is being typed.
    pub fn accepts_characters(&self) -> (r: bool)
        ensures
            r == (*self == Mode::Chat || *self == Mode::Command),
    {
        match *self {
            Mode::Normal => false,
            _ => true,
        }
    }

    /// Escape abandons the line and Enter ends it; both return to normal
    /// mode. Any other character leaves the mode as it is.
    pub fn after_character(&self, ch: char) -> (r: Mode)
        ensures
            r == (if ch == '\u{1b}' || ch == '\r' { Mode::Normal } else { *self }),
    {
        if ch == '\u{1b}' || ch == '\r' {
            Mode::Normal
        } else {
            *self
        }
    }
}

} // verus!
