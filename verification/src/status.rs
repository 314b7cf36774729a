//! The state shown in the status bar of the terminal client.
use vstd::prelude::*;

verus! {

/// Voice/agent state for the status display.
#[derive(Debug, Clone, Copy, PartialEq, Eq, Structural)]
pub enum AppState {
    Idle,
    Listening,
    Processing,
}

/// The label of each state.
pub open spec fn state_label(s: AppState) -> Seq<char> {
    match s {
        AppState::Idle => "\u{25cf} idle"@,
        AppState::Listening => "\u{1f3a4} listening"@,
        AppState::Processing => "\u{25c9} thinking"@,
    }
}

impl AppState {
    /// The text shown for this state.
    pub fn label(&self) -> (s: &'static str)
        ensures
            s@ == state_label(*self),
    {
        match self {
            AppState::Idle => "\u{25cf} idle",
            AppState::Listening => "\u{1f3a4} listening",
            AppState::Processing => "\u{25c9} thinking",
        }
    }
}

} // verus!
