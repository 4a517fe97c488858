//! The control state that a remote control hands to the display.

use crate::automaton::{Rule, Wrap};
use vstd::prelude::*;

verus! {

/// Whether the display advances one row at a long interval (`true`) or
/// scrolls continuously (`false`).
#[derive(Clone, Copy, Debug, PartialEq, Eq, Structural)]
pub struct Step(bool);

impl View for Step {
    type V = bool;

    closed spec fn view(&self) -> bool {
        self.0
    }
}

impl Step {
    /// A step mode is its flag and nothing more.
    pub proof fn lemma_same_flag_same_step(self, other: Step)
        requires
            self@ == other@,
        ensures
            self == other,
    {
    }

    /// The step mode with the given flag.
    pub fn new(step: bool) -> (s: Self)
        ensures
            s@ == step,
    {
        Self(step)
    }

    /// The flag of the step mode.
    pub fn inner(&self) -> (step: bool)
        ensures
            step == self@,
    {
        self.0
    }
}

/// A full snapshot of what the display is asked to show.
#[derive(Clone, Copy, Debug, PartialEq, Eq, Structural)]
pub struct State {
    pub rule: Rule,
    pub wrap: Wrap,
    pub step: Step,
}

impl State {
    /// Whether this is the state that a display starts in and falls back to:
    /// rule 30 on a ring, scrolling continuously.
    pub open spec fn is_default(self) -> bool {
        self.rule@ == 30 && self.wrap == Wrap::Wrap && self.step@ == false
    }

    /// A state is its rule byte, its boundary policy and its step flag, and
    /// nothing more.
    pub proof fn lemma_same_parts_same_state(self, other: State)
        requires
            self.rule@ == other.rule@,
            self.wrap == other.wrap,
            self.step@ == other.step@,
        ensures
            self == other,
    {
        self.rule.lemma_same_byte_same_rule(other.rule);
        self.step.lemma_same_flag_same_step(other.step);
    }
}

impl Default for State {
    /// Rule 30 on a ring, scrolling continuously.
    fn default() -> (state: Self)
        ensures
            state.is_default(),
    {
        Self { rule: Rule::new(30), wrap: Wrap::Wrap, step: Step::new(false) }
    }
}

} // verus!
