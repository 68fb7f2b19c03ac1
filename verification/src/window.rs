//! Window-level decisions. The host window minimizes, maximizes and
//! closes itself; the one decision made here is that maximizing toggles:
//! a maximized window is restored, any other is maximized.

use vstd::prelude::*;

verus! {

/// What the maximize command should do to the main window.
#[derive(Clone, Copy, PartialEq, Eq, Structural, Debug)]
pub enum WindowAction {
    Maximize,
    Unmaximize,
}

/// The maximize command toggles on the window's current state.
pub fn maximize_action(is_maximized: bool) -> (a: WindowAction)
    ensures
        a == if is_maximized {
            WindowAction::Unmaximize
        } else {
            WindowAction::Maximize
        },
{
    if is_maximized {
        WindowAction::Unmaximize
    } else {
        WindowAction::Maximize
    }
}

} // verus!
