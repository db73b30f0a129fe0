//! The platform-neutral key event that drives the application state machine.
//! Each front end maps its own key events into these.
use vstd::prelude::*;

verus! {

/// A key, independent of the terminal or browser that reported it.
#[derive(Debug, Clone, Copy, PartialEq, Eq, Structural)]
pub enum CoreKey {
    Char(char),
    Up,
    Down,
    Left,
    Right,
    PageUp,
    PageDown,
    Home,
    End,
    Tab,
    Enter,
    Esc,
    Backspace,
    Delete,
    Other,
}

/// A key press, with whether Ctrl was held.
#[derive(Debug, Clone, Copy, PartialEq, Eq, Structural)]
pub struct CoreKeyEvent {
    pub code: CoreKey,
    pub ctrl: bool,
}

impl CoreKeyEvent {
    /// A press of `code` without Ctrl.
    pub fn new(code: CoreKey) -> (r: Self)
        ensures
            r.code == code,
            !r.ctrl,
    {
        CoreKeyEvent { code, ctrl: false }
    }

    /// A press of `code`, with Ctrl held if `ctrl`.
    pub fn with_ctrl(code: CoreKey, ctrl: bool) -> (r: Self)
        ensures
            r.code == code,
            r.ctrl == ctrl,
    {
        CoreKeyEvent { code, ctrl }
    }
}

/// What the mouse did.
#[derive(Debug, Clone, Copy, PartialEq, Eq, Structural)]
pub enum CoreMouseKind {
    ScrollUp,
    ScrollDown,
    /// A button went down.
    Down,
    /// The mouse moved with a button held.
    Drag,
}

/// A mouse event at a terminal cell.
#[derive(Debug, Clone, Copy, PartialEq, Eq, Structural)]
pub struct CoreMouseEvent {
    pub kind: CoreMouseKind,
    pub col: u16,
    pub row: u16,
}

} // verus!
