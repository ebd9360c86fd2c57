//! The key events the session core consumes, as plain values. The
//! terminal backend translates its own event type into this one at the
//! process edge.

use vstd::prelude::*;

verus! {

/// One decoded key press.
#[derive(Clone, Copy, PartialEq, Eq, Structural, Debug)]
pub enum Key {
    Char(char),
    Left,
    Right,
    Up,
    Down,
    Home,
    End,
    Backspace,
    Delete,
    Enter,
    Esc,
    Tab,
    /// Any key the core gives no meaning to.
    Other,
}

} // verus!
