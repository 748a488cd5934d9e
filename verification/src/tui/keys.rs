//! The keys that the front end knows.

use vstd::prelude::*;

verus! {

/// A key that was pressed. Keys that the front end has no use for are all
/// `Other`.
#[derive(Debug, Clone, Copy, PartialEq, Eq, Structural)]
pub enum Key {
    Char(char),
    Backspace,
    Enter,
    Tab,
    Esc,
    Up,
    Down,
    Left,
    Right,
    Other,
}

/// What was held down with the key: nothing, shift alone, alt alone, or
/// anything else.
#[derive(Debug, Clone, Copy, PartialEq, Eq, Structural)]
pub enum Modifiers {
    Plain,
    Shift,
    Alt,
    Other,
}

} // verus!
