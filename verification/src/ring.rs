//! The universe as a ring of generations: what a sweep over all rows leaves
//! behind.

use crate::automaton::{advance_row, next_generation, row_above, Wrap};
use vstd::prelude::*;

verus! {

/// The universe after rows `0..count` have been advanced in ascending order.
pub open spec fn advance_rows(wrap: Wrap, rule: u8, universe: Seq<Seq<bool>>, count: nat) -> Seq<
    Seq<bool>,
>
    decreases count,
{
    if count == 0 {
        universe
    } else {
        advance_row(
            wrap,
            rule,
            advance_rows(wrap, rule, universe, (count - 1) as nat),
            count - 1,
        )
    }
}

/// The universe after one sweep: every row advanced once, first to last.
pub open spec fn sweep(wrap: Wrap, rule: u8, universe: Seq<Seq<bool>>) -> Seq<Seq<bool>> {
    advance_rows(wrap, rule, universe, universe.len())
}

/// The universe after `count` sweeps.
pub open spec fn sweeps(wrap: Wrap, rule: u8, universe: Seq<Seq<bool>>, count: nat) -> Seq<
    Seq<bool>,
>
    decreases count,
{
    if count == 0 {
        universe
    } else {
        sweep(wrap, rule, sweeps(wrap, rule, universe, (count - 1) as nat))
    }
}

/// Whether row `i` holds the successor of the row above it.
pub open spec fn follows(wrap: Wrap, rule: u8, universe: Seq<Seq<bool>>, i: int) -> bool {
    universe[i] == next_generation(wrap, rule, universe[row_above(universe.len() as int, i)])
}

/// The ring invariant: every row but `seam` holds the successor of the row
/// above it. The seam is the row that will be overwritten next; the row above
/// it is the newest, and the seam still holds the oldest generation.
pub open spec fn chained(wrap: Wrap, rule: u8, universe: Seq<Seq<bool>>, seam: int) -> bool {
    forall|i: int| 0 <= i < universe.len() && i != seam ==> #[trigger] follows(wrap, rule, universe, i)
}

/// Advancing a row keeps the number of rows, changes that row only, and
/// leaves it holding the successor of the row above it.
pub proof fn lemma_advance_row_frame(wrap: Wrap, rule: u8, universe: Seq<Seq<bool>>, index: int)
    requires
        universe.len() >= 2,
        0 <= index < universe.len(),
    ensures
        advance_row(wrap, rule, universe, index).len() == universe.len(),
        forall|i: int|
            0 <= i < universe.len() && i != index ==> advance_row(wrap, rule, universe, index)[i]
                == universe[i],
        follows(wrap, rule, advance_row(wrap, rule, universe, index), index),
{
}

/// Advancing the seam row moves the seam one row on and keeps the ring
/// invariant.
pub proof fn lemma_advance_row_keeps_chain(
    wrap: Wrap,
    rule: u8,
    universe: Seq<Seq<bool>>,
    index: int,
)
    requires
        universe.len() >= 2,
        0 <= index < universe.len(),
        chained(wrap, rule, universe, index),
    ensures
        chained(
            wrap,
            rule,
            advance_row(wrap, rule, universe, index),
            (index + 1) % (universe.len() as int),
        ),
{
    let height = universe.len() as int;
    let after = advance_row(wrap, rule, universe, index);
    let seam = (index + 1) % height;
    assert(seam == if index == height - 1 { 0 } else { index + 1 }) by {
        if index == height - 1 {
            assert(height % height == 0) by (nonlinear_arith)
                requires
                    height > 0,
            ;
        } else {
            assert((index + 1) % height == index + 1) by (nonlinear_arith)
                requires
                    0 <= index + 1 < height,
            ;
        }
    }
    assert forall|i: int| 0 <= i < after.len() && i != seam implies #[trigger] follows(
        wrap,
        rule,
        after,
        i,
    ) by {
        if i != index {
            assert(follows(wrap, rule, universe, i));
            assert(row_above(height, i) != index);
        }
    }
}

/// Sweeping over part of the ring keeps the number of rows.
pub proof fn lemma_advance_rows_len(wrap: Wrap, rule: u8, universe: Seq<Seq<bool>>, count: nat)
    requires
        count <= universe.len(),
    ensures
        advance_rows(wrap, rule, universe, count).len() == universe.len(),
    decreases count,
{
    if count > 0 {
        lemma_advance_rows_len(wrap, rule, universe, (count - 1) as nat);
    }
}

/// While a sweep is under way the ring invariant holds with the seam at the
/// next row to advance, provided it held with the seam at the first row when
/// the sweep began.
pub proof fn lemma_partial_sweep_keeps_chain(
    wrap: Wrap,
    rule: u8,
    universe: Seq<Seq<bool>>,
    count: nat,
)
    requires
        universe.len() >= 2,
        count <= universe.len(),
        chained(wrap, rule, universe, 0),
    ensures
        chained(
            wrap,
            rule,
            advance_rows(wrap, rule, universe, count),
            (count as int) % (universe.len() as int),
        ),
    decreases count,
{
    let height = universe.len() as int;
    if count == 0 {
        assert(0int % height == 0) by (nonlinear_arith)
            requires
                height > 0,
        ;
    } else {
        let before = advance_rows(wrap, rule, universe, (count - 1) as nat);
        lemma_partial_sweep_keeps_chain(wrap, rule, universe, (count - 1) as nat);
        lemma_advance_rows_len(wrap, rule, universe, (count - 1) as nat);
        assert((count - 1) % height == count - 1) by (nonlinear_arith)
            requires
                0 <= count - 1 < height,
        ;
        lemma_advance_row_keeps_chain(wrap, rule, before, count - 1);
    }
}

/// A sweep establishes the ring invariant whatever the universe held before:
/// afterwards every row but the first holds the successor of the row above
/// it.
pub proof fn lemma_sweep_establishes_chain(wrap: Wrap, rule: u8, universe: Seq<Seq<bool>>)
    requires
        universe.len() >= 2,
    ensures
        sweep(wrap, rule, universe).len() == universe.len(),
        chained(wrap, rule, sweep(wrap, rule, universe), 0),
{
    lemma_rows_behind_follow(wrap, rule, universe, universe.len());
    lemma_advance_rows_len(wrap, rule, universe, universe.len());
    let after = sweep(wrap, rule, universe);
    assert forall|i: int| 0 <= i < after.len() && i != 0 implies #[trigger] follows(
        wrap,
        rule,
        after,
        i,
    ) by {}
}

/// After rows `0..count` have been advanced, each of the rows `1..count`
/// holds the successor of the row above it.
proof fn lemma_rows_behind_follow(wrap: Wrap, rule: u8, universe: Seq<Seq<bool>>, count: nat)
    requires
        universe.len() >= 2,
        count <= universe.len(),
    ensures
        forall|i: int|
            1 <= i < count ==> #[trigger] follows(
                wrap,
                rule,
                advance_rows(wrap, rule, universe, count),
                i,
            ),
    decreases count,
{
    if count > 0 {
        let before = advance_rows(wrap, rule, universe, (count - 1) as nat);
        let after = advance_rows(wrap, rule, universe, count);
        lemma_rows_behind_follow(wrap, rule, universe, (count - 1) as nat);
        lemma_advance_rows_len(wrap, rule, universe, (count - 1) as nat);
        assert forall|i: int| 1 <= i < count implies #[trigger] follows(wrap, rule, after, i) by {
            if i < count - 1 {
                assert(follows(wrap, rule, before, i));
            }
        }
    }
}

/// The ring invariant survives any number of sweeps: if every row but the
/// first held the successor of the row above it, the same is true after
/// `count` sweeps, and the number of rows has not changed.
pub proof fn lemma_sweeps_keep_chain(wrap: Wrap, rule: u8, universe: Seq<Seq<bool>>, count: nat)
    requires
        universe.len() >= 2,
        chained(wrap, rule, universe, 0),
    ensures
        sweeps(wrap, rule, universe, count).len() == universe.len(),
        chained(wrap, rule, sweeps(wrap, rule, universe, count), 0),
    decreases count,
{
    if count > 0 {
        lemma_sweeps_keep_chain(wrap, rule, universe, (count - 1) as nat);
        lemma_sweep_establishes_chain(
            wrap,
            rule,
            sweeps(wrap, rule, universe, (count - 1) as nat),
        );
    }
}

} // verus!
