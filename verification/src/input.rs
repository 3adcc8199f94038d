//! What the player holds down during a frame.

use vstd::prelude::*;

verus! {

/// The keys held during one frame. A key counts for as long as it is down:
/// nothing is remembered from one frame to the next.
#[derive(Clone, Copy, Debug, PartialEq, Eq, Structural)]
pub struct Input {
    pub left: bool,
    pub right: bool,
    pub fire: bool,
}

impl Input {
    /// No key held.
    pub fn idle() -> (input: Input)
        ensures
            input == (Input { left: false, right: false, fire: false }),
    {
        Input { left: false, right: false, fire: false }
    }
}

} // verus!
