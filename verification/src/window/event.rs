use vstd::prelude::*;

verus! {

/// Possible events emitted by the source.
#[derive(Clone, Copy, Debug, PartialEq, Eq, Structural)]
pub enum Event {
    /// The application should be terminated.
    Quit,
    /// The window was resized.
    Resize,
}

/// Keycodes to detect pressed keys
#[derive(Clone, Copy, Debug, PartialEq, Eq, Structural)]
pub enum Keycode {
    Left,
    Right,
    Up,
    Down,
}

} // verus!
