//! The remote control: from the levels of its inputs to the state it sends.

use crate::automaton::{Rule, Wrap};
use crate::bits::{bits_of, pack};
use crate::state::{State, Step};
use vstd::prelude::*;

verus! {

/// Milliseconds between the two readings that must agree before a state
/// counts as settled.
pub const DEBOUNCE_DURATION: u64 = 25;

/// The levels of the eleven inputs at one moment; `true` is high.
#[derive(Clone, Copy, Debug)]
pub struct Levels {
    /// The eight rule inputs, the one for the lowest bit first.
    pub rule: [bool; 8],
    pub wrap_0: bool,
    pub wrap_1: bool,
    pub step: bool,
}

/// The boundary policy that the two wrap inputs select: the first one high
/// selects dead cells beyond the ends, the second one alone live cells, and
/// neither the ring.
pub open spec fn wrap_of(wrap_0: bool, wrap_1: bool) -> Wrap {
    if wrap_0 {
        Wrap::Zero
    } else if wrap_1 {
        Wrap::One
    } else {
        Wrap::Wrap
    }
}

/// The state that the inputs select: each rule input gives one bit of the
/// rule, the wrap inputs the boundary policy, the step input the step mode.
pub fn read_state(levels: &Levels) -> (state: State)
    ensures
        bits_of(state.rule@) == levels.rule@,
        state.wrap == wrap_of(levels.wrap_0, levels.wrap_1),
        state.step@ == levels.step,
{
    let rule = Rule::new(pack(&levels.rule));

    let wrap = if levels.wrap_0 {
        Wrap::Zero
    } else {
        if levels.wrap_1 {
            Wrap::One
        } else {
            Wrap::Wrap
        }
    };

    let step = Step::new(levels.step);

    State { rule, wrap, step }
}

/// What two readings, taken a debounce interval apart, amount to.
#[derive(Clone, Copy, Debug, PartialEq, Eq, Structural)]
pub enum Settled {
    /// The readings differ: the inputs are still moving, read again.
    Bouncing,
    /// The readings agree with each other and with what was last sent.
    Unchanged,
    /// The readings agree and differ from what was last sent: this state is
    /// to be sent, and remembered as the last one sent.
    Changed(State),
}

/// Judges two readings against the state that was last sent.
pub fn settle(last_broadcast: State, before: State, after: State) -> (settled: Settled)
    ensures
        settled == if before != after {
            Settled::Bouncing
        } else if before == last_broadcast {
            Settled::Unchanged
        } else {
            Settled::Changed(before)
        },
{
    if before == after {
        if last_broadcast != before {
            Settled::Changed(before)
        } else {
            Settled::Unchanged
        }
    } else {
        Settled::Bouncing
    }
}

} // verus!
