//! The stages a session around the board passes through.

use vstd::prelude::*;

verus! {

/// The stage the surrounding session is in: the opening description, the
/// side-configuration menu, or play itself.
#[derive(Debug, Clone, Copy, PartialEq, Eq, Structural)]
pub enum Phase {
    Start,
    GameSetup,
    GamePlay,
}

impl Phase {
    /// The following stage; play is the last.
    pub fn next(self) -> (r: Self)
        requires
            self != Phase::GamePlay,
        ensures
            self == Phase::Start ==> r == Phase::GameSetup,
            self == Phase::GameSetup ==> r == Phase::GamePlay,
    {
        match self {
            Phase::Start => Phase::GameSetup,
            Phase::GameSetup => Phase::GamePlay,
            Phase::GamePlay => Phase::GamePlay,
        }
    }

    /// The preceding stage; the opening is the first.
    pub fn previous(self) -> (r: Self)
        requires
            self != Phase::Start,
        ensures
            self == Phase::GameSetup ==> r == Phase::Start,
            self == Phase::GamePlay ==> r == Phase::GameSetup,
    {
        match self {
            Phase::Start => Phase::Start,
            Phase::GameSetup => Phase::Start,
            Phase::GamePlay => Phase::GameSetup,
        }
    }
}

} // verus!
