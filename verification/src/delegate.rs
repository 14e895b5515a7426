//! Command dispatch: the three signals the widgets raise, and the delegate
//! that routes each one to the state operation it names.

use crate::state::filter_rel;
use crate::state::sync_rel;
use crate::state::AppState;
use vstd::prelude::*;

verus! {

/// The closed set of signals the widgets can raise. `Unknown` stands for any
/// signal the dispatcher does not recognize.
#[derive(Clone, Copy, Debug, PartialEq, Eq, Structural)]
pub enum Command {
    Filter,
    SelectSource,
    RemoveSource,
    Unknown,
}

/// Whether the dispatcher consumed the signal.
#[derive(Clone, Copy, Debug, PartialEq, Eq, Structural)]
pub enum Handled {
    Yes,
    No,
}

/// Routes each signal to the state operation it names.
pub struct Delegate;

impl Delegate {
    /// Dispatches one command. A filter request rebuilds the filtered view; a
    /// select or deselect request synchronizes the selection set from the
    /// filtered view; both are consumed. An unknown command leaves the state
    /// untouched and is not consumed.
    pub fn command(&mut self, cmd: &Command, data: &mut AppState) -> (h: Handled)
        ensures
            match *cmd {
                Command::Filter => h == Handled::Yes && filter_rel(*old(data), *final(data)),
                Command::SelectSource => h == Handled::Yes && sync_rel(*old(data), *final(data)),
                Command::RemoveSource => h == Handled::Yes && sync_rel(*old(data), *final(data)),
                Command::Unknown => h == Handled::No && *final(data) == *old(data),
            },
    {
        match cmd {
            Command::Filter => {
                data.filter();
                Handled::Yes
            },
            Command::SelectSource => {
                data.on_toggle_source(true);
                Handled::Yes
            },
            Command::RemoveSource => {
                data.on_toggle_source(false);
                Handled::Yes
            },
            Command::Unknown => Handled::No,
        }
    }
}

} // verus!
