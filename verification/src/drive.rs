//! The three states a controlled channel can be put in.

use vstd::prelude::*;

verus! {

/// What a channel does with its line.
#[derive(Clone, Copy, PartialEq, Eq, Structural, Debug)]
pub enum DriveState {
    /// Driven high.
    High,
    /// Driven low.
    Low,
    /// Not driven (high impedance).
    HiZ,
}

/// The name a reply uses for a state.
pub open spec fn state_label(state: DriveState) -> &'static str {
    match state {
        DriveState::High => "HIGH",
        DriveState::Low => "LOW",
        DriveState::HiZ => "HI-Z",
    }
}

impl DriveState {
    /// The name a reply uses for this state.
    pub fn label(self) -> (r: &'static str)
        ensures
            r == state_label(self),
    {
        match self {
            DriveState::High => "HIGH",
            DriveState::Low => "LOW",
            DriveState::HiZ => "HI-Z",
        }
    }
}

} // verus!
