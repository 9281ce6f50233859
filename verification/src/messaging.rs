//! What the units of the pager tell each other.

use vstd::prelude::*;

verus! {

/// Sent to an ingestion unit.
#[derive(Clone, Copy, Debug, PartialEq, Eq, Structural)]
pub enum ReaderThreadMessage {
    /// Stop reading.
    Exit,
}

/// Sent to the input relay.
#[derive(Clone, Copy, Debug, PartialEq, Eq, Structural)]
pub enum InputThreadMessage {
    /// Stop relaying.
    Exit,
}

/// A key of the keyboard, as far as the pager tells keys apart.
#[derive(Clone, Copy, Debug, PartialEq, Eq, Structural)]
pub enum Key {
    Char(char),
    Up,
    Down,
    Left,
    Right,
    PageUp,
    PageDown,
    Enter,
    Esc,
    Backspace,
    /// Any key that the pager has no use for.
    Other,
}

/// One event of the keyboard.
#[derive(Clone, Copy, Debug, PartialEq, Eq, Structural)]
pub struct KeyPress {
    pub key: Key,
    /// Whether shift was held.
    pub shift: bool,
    /// Whether the key went down; releases and repeats are not acted on.
    pub pressed: bool,
}

/// Sent to the controller.
#[derive(Clone, Copy, Debug, PartialEq, Eq, Structural)]
pub enum TerminalThreadMessage {
    /// The user touched a key.
    KeyEvent(KeyPress),
    /// The terminal now has this many columns and rows.
    Resize(u16, u16),
    /// A line has been appended to the source in this place of the set.
    Read(usize),
}

} // verus!
