//! Which mouse buttons are held.

use vstd::prelude::*;

verus! {

/// A button of the mouse.
#[derive(Clone, Copy, Debug, PartialEq, Eq, Structural)]
pub enum MouseButton {
    Left,
    Right,
    Middle,
    Back,
    Forward,
    Other(u16),
}

/// The buttons that matter to the timeline, and whether each is held down.
#[allow(non_camel_case_types)]
#[derive(Clone, Copy, Debug, PartialEq, Eq, Structural)]
pub struct Input_State {
    pub left: bool,
    pub right: bool,
}

impl Input_State {
    /// No button held.
    pub fn new() -> (state: Input_State)
        ensures
            state == (Input_State { left: false, right: false }),
    {
        Input_State { left: false, right: false }
    }

    /// Records that `button` went down (`pressed`) or up. Buttons other
    /// than the left and the right one change nothing.
    pub fn click(&mut self, button: MouseButton, pressed: bool)
        ensures
            *final(self) == match button {
                MouseButton::Left => Input_State { left: pressed, ..*old(self) },
                MouseButton::Right => Input_State { right: pressed, ..*old(self) },
                _ => *old(self),
            },
    {
        match button {
            MouseButton::Left => {
                self.left = pressed;
            },
            MouseButton::Right => {
                self.right = pressed;
            },
            _ => {},
        }
    }

    /// Whether moving the cursor drags the timeline along: it does while
    /// the left button is held.
    pub fn dragging(&self) -> (yes: bool)
        ensures
            yes == self.left,
    {
        self.left
    }
}

} // verus!
