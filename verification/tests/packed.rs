use mobiumata::automaton::Wrap;
use mobiumata::packed::{
    ecm, ecm_next, ecm_next_one, ecm_next_wrap, ecm_next_zero, ecm_one_period, ecm_period,
    ecm_wrap_period, ecm_zero_period, PERIOD_WINDOW,
};

#[test]
fn packed_row_is_unpacked_lowest_bit_first() {
    let (automaton, cells) = ecm(30, Wrap::One, 0b0001_0010);
    assert_eq!(automaton.rule.inner(), 30);
    assert_eq!(automaton.wrap, Wrap::One);
    assert_eq!(
        cells,
        [false, true, false, false, true, false, false, false]
    );
}

#[test]
fn packed_step_under_each_boundary_policy() {
    // Rule 30 spreads a lone cell to both sides.
    assert_eq!(ecm_next_zero(30, 0b0001_0000), 0b0011_1000);
    assert_eq!(ecm_next(30, 0b0001_0000, Wrap::Zero), 0b0011_1000);
    // Rule 2 moves a lone cell one place down; from cell 0 it leaves the
    // row unless the row is a ring.
    assert_eq!(ecm_next_zero(2, 0b0000_0001), 0);
    assert_eq!(ecm_next_wrap(2, 0b0000_0001), 0b1000_0000);
    assert_eq!(ecm_next_wrap(2, 0b1000_0000), 0b0100_0000);
    // With live cells beyond the ends, rule 2 lights the last cell of an
    // empty row.
    assert_eq!(ecm_next_one(2, 0), 0b1000_0000);
    assert_eq!(ecm_next(2, 0, Wrap::One), 0b1000_0000);
}

#[test]
fn packed_period_is_zero_where_none_is_found() {
    assert_eq!(PERIOD_WINDOW, 192);
    assert_eq!(ecm_wrap_period(2, 0b1000_0000), 8);
    assert_eq!(ecm_period(2, 0b1000_0000, Wrap::Wrap), 8);
    assert_eq!(ecm_zero_period(204, 0b1010_0101), 1);
    assert_eq!(ecm_zero_period(51, 0b1010_0101), 2);
    assert_eq!(ecm_one_period(0, 0b1010_0101), 1);
}
