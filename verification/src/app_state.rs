//! The top-level states of the block-building game template.
use vstd::prelude::*;

verus! {

/// Which screen the game shows.
#[derive(Clone, Copy, Debug, PartialEq, Eq, Hash, Structural)]
pub enum AppState {
    /// The start menu.
    Menu,
    /// A level being played.
    InGame,
}

impl Default for AppState {
    /// A game starts at its menu.
    fn default() -> (state: Self)
        ensures
            state == AppState::Menu,
    {
        AppState::Menu
    }
}

} // verus!
