//! Automata on rows of eight cells packed into a byte, bit `i` being cell
//! `i`.

use crate::automaton::{next_generation, repeats_at, ElementaryCellularAutomaton, Rule, Wrap};
use crate::bits::{bits_of, pack, unpack};
use vstd::prelude::*;

verus! {

/// Generations that a search for a period simulates.
pub const PERIOD_WINDOW: usize = 192;

/// The automaton of a rule byte and a boundary policy, and the cells of a
/// packed row.
pub fn ecm(rule: u8, wrap: Wrap, state: u8) -> (unpacked: (ElementaryCellularAutomaton, [bool; 8]))
    ensures
        unpacked.0.rule@ == rule,
        unpacked.0.wrap == wrap,
        unpacked.1@ == bits_of(state),
{
    let rule = Rule::new(rule);
    let automaton = ElementaryCellularAutomaton::new(wrap, rule);
    let state: [bool; 8] = unpack(state);
    (automaton, state)
}

/// The packed row that follows a packed row.
pub fn ecm_next(rule: u8, state: u8, wrap: Wrap) -> (next: u8)
    ensures
        bits_of(next) == next_generation(wrap, rule, bits_of(state)),
{
    let (automaton, state) = ecm(rule, wrap, state);
    let mut next_state = [false;8];
    automaton.next(&state, &mut next_state);
    pack(&next_state)
}

/// Whether `period` is what a search over `PERIOD_WINDOW` generations from a
/// packed row yields: the smallest positive offset at which the last
/// generation occurred before, or zero where there is none.
pub open spec fn period_found(wrap: Wrap, rule: u8, state: u8, period: u8) -> bool {
    &&& period < PERIOD_WINDOW
    &&& period != 0 ==> repeats_at(
        wrap,
        rule,
        bits_of(state),
        PERIOD_WINDOW as nat,
        period as nat,
    )
    &&& forall|q: nat|
        1 <= q < (if period == 0 {
            PERIOD_WINDOW as nat
        } else {
            period as nat
        }) ==> !#[trigger] repeats_at(wrap, rule, bits_of(state), PERIOD_WINDOW as nat, q)
}

/// The period that a search over `PERIOD_WINDOW` generations finds from a
/// packed row, or zero where it finds none.
pub fn ecm_period(rule: u8, state: u8, wrap: Wrap) -> (period: u8)
    ensures
        period_found(wrap, rule, state, period),
{
    let (automaton, state) = ecm(rule, wrap, state);
    match automaton.period::<8, 192>(&state) {
        Some(period) => period as u8,
        None => 0,
    }
}

/// The packed row that follows a packed row, with dead cells beyond the
/// ends.
pub fn ecm_next_zero(rule: u8, state: u8) -> (next: u8)
    ensures
        bits_of(next) == next_generation(Wrap::Zero, rule, bits_of(state)),
{
    ecm_next(rule, state, Wrap::Zero)
}

/// The packed row that follows a packed row, with live cells beyond the
/// ends.
pub fn ecm_next_one(rule: u8, state: u8) -> (next: u8)
    ensures
        bits_of(next) == next_generation(Wrap::One, rule, bits_of(state)),
{
    ecm_next(rule, state, Wrap::One)
}

/// The packed row that follows a packed row on a ring.
pub fn ecm_next_wrap(rule: u8, state: u8) -> (next: u8)
    ensures
        bits_of(next) == next_generation(Wrap::Wrap, rule, bits_of(state)),
{
    ecm_next(rule, state, Wrap::Wrap)
}

/// The period found from a packed row, with live cells beyond the ends.
pub fn ecm_one_period(rule: u8, state: u8) -> (period: u8)
    ensures
        period_found(Wrap::One, rule, state, period),
{
    ecm_period(rule, state, Wrap::One)
}

/// The period found from a packed row on a ring.
pub fn ecm_wrap_period(rule: u8, state: u8) -> (period: u8)
    ensures
        period_found(Wrap::Wrap, rule, state, period),
{
    ecm_period(rule, state, Wrap::Wrap)
}

/// The period found from a packed row, with dead cells beyond the ends.
pub fn ecm_zero_period(rule: u8, state: u8) -> (period: u8)
    ensures
        period_found(Wrap::Zero, rule, state, period),
{
    ecm_period(rule, state, Wrap::Zero)
}

} // verus!
