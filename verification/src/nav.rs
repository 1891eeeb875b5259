//! Navigation state shared between the driver and the screens: which pane
//! has focus, which view is shown, and which input mode is active.

use vstd::prelude::*;

verus! {

/// The pane that currently receives movement keys on the timer view.
#[derive(Debug, Clone, Copy, PartialEq, Eq, Structural)]
pub enum ActivePane {
    Tasks,
    Timer,
}

impl ActivePane {
    /// The other pane.
    pub fn toggled(&self) -> (r: ActivePane)
        ensures
            r == (match *self {
                ActivePane::Tasks => ActivePane::Timer,
                ActivePane::Timer => ActivePane::Tasks,
            }),
    {
        match self {
            ActivePane::Tasks => ActivePane::Timer,
            ActivePane::Timer => ActivePane::Tasks,
        }
    }
}

/// The screen currently shown.
#[derive(Debug, Clone, Copy, PartialEq, Eq, Structural)]
pub enum CurrentView {
    Timer,
    Dashboard,
    Settings,
}

/// What keystrokes currently mean: ordinary commands, or text entry for a
/// new task, a quick capture, a session note, or the reset confirmation.
#[derive(Debug, Clone, Copy, PartialEq, Eq, Structural)]
pub enum InputMode {
    Normal,
    AddingTask,
    QuickCapture,
    SessionNote,
    ConfirmReset,
}

} // verus!
