//! One player's control sample for one simulation tick.

use vstd::prelude::*;

verus! {

/// A fixed-size, plain-old-data record of one player's controls for one
/// tick: movement flags and action flags. Copied by value everywhere.
#[derive(Clone, Copy, PartialEq, Eq, Structural, Debug)]
pub struct Input {
    pub left: bool,
    pub right: bool,
    pub down: bool,
    pub jump: bool,
    pub throw: bool,
    pub fire: bool,
}

/// The neutral sample: no movement, no action. The first `CONSTANT_DELAY`
/// ticks of every match are pre-filled with it.
pub open spec fn neutral_input() -> Input {
    Input { left: false, right: false, down: false, jump: false, throw: false, fire: false }
}

impl Default for Input {
    fn default() -> (r: Input)
        ensures
            r == neutral_input(),
    {
        Input { left: false, right: false, down: false, jump: false, throw: false, fire: false }
    }
}

} // verus!
