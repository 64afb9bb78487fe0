//! Pointer events decoded by the UI (integers for the kind and the button) and what the engine is
//! told for them. Coordinates and scroll deltas are floating point and are mapped by the caller.

use vstd::prelude::*;

verus! {

/// What a pointer event does.
#[derive(Debug, Clone, Copy, PartialEq, Eq)]
pub enum PointerAction {
    /// A button went down.
    Down,
    /// A button went up.
    Up,
    /// The pointer moved (no button).
    Move,
}

/// A mouse button.
#[derive(Debug, Clone, Copy, PartialEq, Eq)]
pub enum MouseButtonKind {
    Left,
    Right,
    Middle,
}

/// The pointer action for the UI's event kind: 0 is down, 1 is up, anything else a move.
pub fn pointer_action(kind: i32) -> (a: PointerAction)
    ensures
        kind == 0 ==> a == PointerAction::Down,
        kind == 1 ==> a == PointerAction::Up,
        kind != 0 && kind != 1 ==> a == PointerAction::Move,
{
    match kind {
        0 => PointerAction::Down,
        1 => PointerAction::Up,
        _ => PointerAction::Move,
    }
}

/// The mouse button for the UI's button number: 1 is right, 2 is middle, anything else left.
pub fn mouse_button(button: i32) -> (b: MouseButtonKind)
    ensures
        button == 1 ==> b == MouseButtonKind::Right,
        button == 2 ==> b == MouseButtonKind::Middle,
        button != 1 && button != 2 ==> b == MouseButtonKind::Left,
{
    match button {
        1 => MouseButtonKind::Right,
        2 => MouseButtonKind::Middle,
        _ => MouseButtonKind::Left,
    }
}

} // verus!
