use mobiumata::automaton::{Rule, Wrap};
use mobiumata::bits::{pack, test_bit, unpack};
use mobiumata::control::{read_state, settle, Levels, Settled, DEBOUNCE_DURATION};
use mobiumata::state::{State, Step};
use mobiumata::ticker::{
    idle_reset, RunStepTicker, Wake, IDLE_RESET_SECS, RUN_TICK_MILLIS, STEP_TICK_MILLIS,
};

fn state(rule: u8, wrap: Wrap, step: bool) -> State {
    State {
        rule: Rule::new(rule),
        wrap,
        step: Step::new(step),
    }
}

#[test]
fn default_state_is_rule_thirty_on_a_ring() {
    let default = State::default();
    assert_eq!(default.rule.inner(), 30);
    assert_eq!(default.wrap, Wrap::Wrap);
    assert!(!default.step.inner());
    assert_eq!(default, state(30, Wrap::Wrap, false));
}

#[test]
fn step_keeps_its_flag() {
    assert!(Step::new(true).inner());
    assert!(!Step::new(false).inner());
}

#[test]
fn rule_inputs_are_the_bits_of_the_rule() {
    let levels = Levels {
        rule: [false, true, true, true, true, false, false, false],
        wrap_0: false,
        wrap_1: false,
        step: false,
    };
    assert_eq!(read_state(&levels), state(30, Wrap::Wrap, false));

    let levels = Levels {
        rule: [true; 8],
        wrap_0: false,
        wrap_1: true,
        step: true,
    };
    assert_eq!(read_state(&levels), state(255, Wrap::One, true));

    let levels = Levels {
        rule: [false, false, false, false, false, false, false, true],
        wrap_0: true,
        wrap_1: false,
        step: false,
    };
    assert_eq!(read_state(&levels), state(128, Wrap::Zero, false));
}

#[test]
fn first_wrap_input_wins() {
    let levels = Levels {
        rule: [false; 8],
        wrap_0: true,
        wrap_1: true,
        step: false,
    };
    assert_eq!(read_state(&levels), state(0, Wrap::Zero, false));
}

#[test]
fn every_rule_can_be_read_from_its_bits() {
    for rule in 0..=255u8 {
        let levels = Levels {
            rule: unpack(rule),
            wrap_0: false,
            wrap_1: false,
            step: false,
        };
        assert_eq!(read_state(&levels).rule.inner(), rule);
    }
}

#[test]
fn bytes_and_cells_convert_both_ways() {
    assert_eq!(
        unpack(0b0000_0101),
        [true, false, true, false, false, false, false, false]
    );
    assert_eq!(
        pack(&[false, false, false, false, true, false, false, true]),
        0b1001_0000
    );
    for value in 0..=255u8 {
        assert_eq!(pack(&unpack(value)), value);
        for n in 0..8u8 {
            assert_eq!(test_bit(value, n), unpack(value)[n as usize]);
            assert_eq!(test_bit(value, n), value & (1 << n) != 0);
        }
    }
}

#[test]
fn readings_that_differ_are_bouncing() {
    let last = state(30, Wrap::Wrap, false);
    let before = state(30, Wrap::Wrap, false);
    let after = state(31, Wrap::Wrap, false);
    assert_eq!(settle(last, before, after), Settled::Bouncing);
    assert_eq!(settle(last, after, before), Settled::Bouncing);
    let stepped = state(30, Wrap::Wrap, true);
    assert_eq!(settle(last, before, stepped), Settled::Bouncing);
    let zero = state(30, Wrap::Zero, false);
    assert_eq!(settle(last, zero, before), Settled::Bouncing);
}

#[test]
fn settled_readings_are_sent_once() {
    let last = state(30, Wrap::Wrap, false);
    let same = state(30, Wrap::Wrap, false);
    assert_eq!(settle(last, same, same), Settled::Unchanged);
    let new = state(110, Wrap::One, true);
    assert_eq!(settle(last, new, new), Settled::Changed(new));
    assert_eq!(settle(new, new, new), Settled::Unchanged);
    assert_eq!(DEBOUNCE_DURATION, 25);
}

#[test]
fn tick_period_follows_the_step_mode() {
    assert_eq!(RUN_TICK_MILLIS, 10);
    assert_eq!(STEP_TICK_MILLIS, 1000);
    assert_eq!(RunStepTicker::new(Step::new(false)).period_millis(), 10);
    assert_eq!(RunStepTicker::new(Step::new(true)).period_millis(), 1000);
}

#[test]
fn timer_restarts_when_the_step_mode_changes() {
    let mut ticker = RunStepTicker::new(Step::new(false));
    assert!(!ticker.next(Step::new(false)));
    assert_eq!(ticker.period_millis(), 10);
    assert!(ticker.next(Step::new(true)));
    assert_eq!(ticker.period_millis(), 1000);
    assert!(!ticker.next(Step::new(true)));
    assert!(ticker.next(Step::new(false)));
    assert_eq!(ticker.period_millis(), 10);
}

#[test]
fn pending_update_cuts_the_wait_short_only_while_stepping() {
    let running = RunStepTicker::new(Step::new(false));
    assert!(running.due(Wake::Tick));
    assert!(!running.due(Wake::Update));
    let stepping = RunStepTicker::new(Step::new(true));
    assert!(stepping.due(Wake::Tick));
    assert!(stepping.due(Wake::Update));
}

#[test]
fn idle_period_brings_back_the_default_state() {
    assert_eq!(IDLE_RESET_SECS, 30);
    assert_eq!(idle_reset(Wake::Tick), Some(State::default()));
    assert_eq!(idle_reset(Wake::Update), None);
}
