//! The pace of the render loop: how long it waits between frames, and what
//! ends a wait.

use crate::state::{State, Step};
use vstd::prelude::*;

verus! {

/// Milliseconds between frames while the display scrolls.
pub const RUN_TICK_MILLIS: u64 = 10;

/// Milliseconds between frames while the display steps.
pub const STEP_TICK_MILLIS: u64 = 1000;

/// Seconds without a new control state after which the display goes back to
/// the default state.
pub const IDLE_RESET_SECS: u64 = 30;

/// The tick period of a step mode, in milliseconds.
pub open spec fn tick_millis(step: bool) -> u64 {
    if step {
        STEP_TICK_MILLIS
    } else {
        RUN_TICK_MILLIS
    }
}

/// What ended a wait.
#[derive(Clone, Copy, Debug, PartialEq, Eq, Structural)]
pub enum Wake {
    /// The tick period has passed.
    Tick,
    /// A new control state is pending.
    Update,
}

/// The step mode that the running timer was started for.
pub struct RunStepTicker {
    step: Step,
}

impl RunStepTicker {
    /// The step mode of the running timer.
    pub closed spec fn step(&self) -> Step {
        self.step
    }

    /// The pace of a timer that was started for `step`.
    pub fn new(step: Step) -> (ticker: Self)
        ensures
            ticker.step() == step,
    {
        Self { step }
    }

    /// The period of the running timer, in milliseconds.
    pub fn period_millis(&self) -> (millis: u64)
        ensures
            millis == tick_millis(self.step()@),
    {
        if self.step.inner() {
            STEP_TICK_MILLIS
        } else {
            RUN_TICK_MILLIS
        }
    }

    /// Takes note of the step mode of the frame that was just shown, and
    /// says whether the timer has to be started anew because the mode has
    /// changed.
    pub fn next(&mut self, step: Step) -> (restart: bool)
        ensures
            final(self).step() == step,
            restart == (old(self).step() != step),
    {
        if self.step != step {
            *self = Self::new(step);
            true
        } else {
            false
        }
    }

    /// Whether the next frame is due after a wake-up: always once the tick
    /// period has passed, and while stepping also as soon as a new control
    /// state is pending. While scrolling a pending state does not cut the
    /// wait short.
    pub fn due(&self, wake: Wake) -> (due: bool)
        ensures
            due == (wake == Wake::Tick || self.step()@),
    {
        match wake {
            Wake::Tick => true,
            Wake::Update => self.step.inner(),
        }
    }
}

/// What the idle watchdog hands to the display after a wait: the default
/// state where the idle period ended the wait, nothing where a new control
/// state did.
pub fn idle_reset(wake: Wake) -> (reset: Option<State>)
    ensures
        wake == Wake::Tick ==> reset.is_some() && reset.unwrap().is_default(),
        wake == Wake::Update ==> reset.is_none(),
{
    match wake {
        Wake::Tick => Some(State::default()),
        Wake::Update => None,
    }
}

} // verus!
