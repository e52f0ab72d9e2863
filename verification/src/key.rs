//! Keys as the widgets and views read them.

use vstd::prelude::*;

verus! {

/// A key that was pressed.
#[derive(Debug, Clone, Copy, PartialEq, Eq, Structural)]
pub enum Key {
    Enter,
    Backspace,
    Esc,
    Tab,
    Up,
    Down,
    Home,
    End,
    Char(char),
    /// Any key that no widget or view reads.
    Other,
}

} // verus!
