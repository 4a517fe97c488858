//! Elementary cellular automata: the rule table, the boundary policy and the
//! step from one generation to the next.

use crate::bits::{bit, lemma_shift_reads_bit};
use vstd::prelude::*;

verus! {

/// The eight-entry lookup table of an elementary cellular automaton, packed
/// into one byte. Every byte is a rule.
#[derive(Clone, Copy, Debug, PartialEq, Eq, Structural)]
pub struct Rule(u8);

impl View for Rule {
    type V = u8;

    closed spec fn view(&self) -> u8 {
        self.0
    }
}

/// What stands in for the missing neighbour at either end of a generation.
#[derive(Clone, Copy, Debug, PartialEq, Eq, Structural)]
pub enum Wrap {
    /// The generation is a ring: the cell at the opposite end is the neighbour.
    Wrap,
    /// Cells beyond the ends are dead.
    Zero,
    /// Cells beyond the ends are alive.
    One,
}

/// The index `left * 4 + center * 2 + right` of a neighbourhood.
pub open spec fn neighborhood(left: bool, center: bool, right: bool) -> int {
    (if left { 4int } else { 0 }) + (if center { 2int } else { 0 }) + (if right { 1int } else { 0 })
}

/// The left neighbour of cell `i`, or what the boundary policy puts in its
/// place for the first cell.
pub open spec fn left_of(wrap: Wrap, cells: Seq<bool>, i: int) -> bool {
    if i > 0 {
        cells[i - 1]
    } else {
        match wrap {
            Wrap::Wrap => cells[cells.len() - 1],
            Wrap::Zero => false,
            Wrap::One => true,
        }
    }
}

/// The right neighbour of cell `i`, or what the boundary policy puts in its
/// place for the last cell.
pub open spec fn right_of(wrap: Wrap, cells: Seq<bool>, i: int) -> bool {
    if i < cells.len() - 1 {
        cells[i + 1]
    } else {
        match wrap {
            Wrap::Wrap => cells[0],
            Wrap::Zero => false,
            Wrap::One => true,
        }
    }
}

/// The state of cell `i` one generation after `cells`.
pub open spec fn next_cell(wrap: Wrap, rule: u8, cells: Seq<bool>, i: int) -> bool {
    bit(rule, neighborhood(left_of(wrap, cells, i), cells[i], right_of(wrap, cells, i)))
}

/// The generation that follows `cells`.
pub open spec fn next_generation(wrap: Wrap, rule: u8, cells: Seq<bool>) -> Seq<bool> {
    Seq::new(cells.len(), |i: int| next_cell(wrap, rule, cells, i))
}

/// The row that the ring reads when it writes row `index`: the one before
/// it, and the last row for the first.
pub open spec fn row_above(height: int, index: int) -> int {
    if index == 0 {
        height - 1
    } else {
        index - 1
    }
}

/// The universe after row `index` has been overwritten with the successor of
/// the row above it. No other row changes.
pub open spec fn advance_row(wrap: Wrap, rule: u8, universe: Seq<Seq<bool>>, index: int) -> Seq<
    Seq<bool>,
> {
    universe.update(
        index,
        next_generation(wrap, rule, universe[row_above(universe.len() as int, index)]),
    )
}

/// The rows of a universe, each as a sequence of cells.
pub open spec fn generations<const W: usize, const H: usize>(universe: [[bool; W]; H]) -> Seq<
    Seq<bool>,
> {
    Seq::new(H as nat, |i: int| universe@[i]@)
}

/// The generation `steps` steps after `cells`.
pub open spec fn generation_after(wrap: Wrap, rule: u8, cells: Seq<bool>, steps: nat) -> Seq<bool>
    decreases steps,
{
    if steps == 0 {
        cells
    } else {
        next_generation(wrap, rule, generation_after(wrap, rule, cells, (steps - 1) as nat))
    }
}

/// Whether the last of `window` generations, of which `cells` is the first,
/// is the same as the one `offset` steps before it.
pub open spec fn repeats_at(wrap: Wrap, rule: u8, cells: Seq<bool>, window: nat, offset: nat) -> bool {
    generation_after(wrap, rule, cells, (window - 1) as nat) == generation_after(
        wrap,
        rule,
        cells,
        (window - 1 - offset) as nat,
    )
}

impl Rule {
    /// A rule is its byte and nothing more: two rules with the same byte are
    /// the same rule.
    pub proof fn lemma_same_byte_same_rule(self, other: Rule)
        requires
            self@ == other@,
        ensures
            self == other,
    {
    }

    /// The rule with the given byte.
    pub fn new(rule: u8) -> (r: Self)
        ensures
            r@ == rule,
    {
        Self(rule)
    }

    /// The byte of the rule.
    pub fn inner(&self) -> (rule: u8)
        ensures
            rule == self@,
    {
        self.0
    }

    /// The next state of a cell with the given neighbours.
    fn lookup(&self, left: bool, center: bool, right: bool) -> (alive: bool)
        ensures
            alive == bit(self@, neighborhood(left, center, right)),
    {
        let l: u8 = if left { 1 } else { 0 };
        let c: u8 = if center { 1 } else { 0 };
        let r: u8 = if right { 1 } else { 0 };
        let index: u8 = l << 2 | c << 1 | r;
        let value: u8 = self.0;
        proof {
            assert(l <= 1 && c <= 1 && r <= 1 ==> (l << 2 | c << 1 | r) == 4 * l + 2 * c + r)
                by (bit_vector);
            lemma_shift_reads_bit(value, index);
        }
        (value >> index) & 1 == 1
    }
}

/// The three cells whose neighbourhood has index `n`: left, centre, right.
pub open spec fn window(n: int) -> Seq<bool> {
    seq![(n / 4) % 2 == 1, (n / 2) % 2 == 1, n % 2 == 1]
}

/// Under every rule and every boundary policy, one step turns the middle cell
/// of the three-cell window with neighbourhood index `n` into bit `n` of the
/// rule.
pub proof fn lemma_step_reads_bit(wrap: Wrap, rule: u8, n: int)
    requires
        0 <= n < 8,
    ensures
        next_generation(wrap, rule, window(n)).len() == 3,
        next_generation(wrap, rule, window(n))[1] == bit(rule, n),
{
    let cells = window(n);
    assert(left_of(wrap, cells, 1) == cells[0]);
    assert(right_of(wrap, cells, 1) == cells[2]);
    assert(neighborhood(cells[0], cells[1], cells[2]) == n);
}

/// Away from the two ends the boundary policy plays no part: a cell's next
/// state is the rule's bit for the neighbourhood of the cell and the two
/// cells beside it.
pub proof fn lemma_inner_cell_ignores_wrap(wrap: Wrap, rule: u8, cells: Seq<bool>, i: int)
    requires
        0 < i < cells.len() - 1,
    ensures
        next_generation(wrap, rule, cells)[i] == bit(
            rule,
            neighborhood(cells[i - 1], cells[i], cells[i + 1]),
        ),
{
}

impl Wrap {
    fn left(&self, state: &[bool], i: usize) -> (cell: bool)
        requires
            i < state@.len(),
        ensures
            cell == left_of(*self, state@, i as int),
    {
        if i > 0 {
            return state[i - 1];
        }
        match self {
            Wrap::Wrap => state[state.len() - 1],
            Wrap::Zero => false,
            Wrap::One => true,
        }
    }

    fn right(&self, state: &[bool], i: usize) -> (cell: bool)
        requires
            i < state@.len(),
        ensures
            cell == right_of(*self, state@, i as int),
    {
        if i < state.len() - 1 {
            return state[i + 1];
        }
        match self {
            Wrap::Wrap => state[0],
            Wrap::Zero => false,
            Wrap::One => true,
        }
    }
}

/// An elementary cellular automaton: a rule and the boundary policy under
/// which it is applied.
pub struct ElementaryCellularAutomaton {
    pub wrap: Wrap,
    pub rule: Rule,
}

impl ElementaryCellularAutomaton {
    /// The generation that this automaton derives from `cells`.
    pub open spec fn step(&self, cells: Seq<bool>) -> Seq<bool> {
        next_generation(self.wrap, self.rule@, cells)
    }

    /// The automaton that applies `rule` under the boundary policy
    /// `wrapping`.
    pub fn new(wrapping: Wrap, rule: Rule) -> (automaton: Self)
        ensures
            automaton.wrap == wrapping,
            automaton.rule == rule,
    {
        Self { wrap: wrapping, rule }
    }

    /// Writes into `next_state` the generation that follows `state`.
    pub fn next(&self, state: &[bool], next_state: &mut [bool])
        requires
            state@.len() == old(next_state)@.len(),
        ensures
            final(next_state)@ == self.step(state@),
    {
        let len = state.len();
        for i in 0..len
            invariant
                len == state@.len(),
                next_state@.len() == len,
                forall|j: int| 0 <= j < i ==> next_state@[j] == next_cell(self.wrap, self.rule@, state@, j),
        {
            let left = self.wrap.left(state, i);
            let center = state[i];
            let right = self.wrap.right(state, i);
            next_state[i] = self.rule.lookup(left, center, right);
        }
        assert(next_state@ =~= self.step(state@));
    }

    /// Simulates `MAX` generations, of which `initial_state` is the first, and
    /// returns the smallest positive offset at which the last one occurred
    /// before, if there is one.
    pub fn period<const W: usize, const MAX: usize>(&self, initial_state: &[bool]) -> (found:
        Option<usize>)
        requires
            initial_state@.len() == W,
            MAX == 1 || MAX > 2,
        ensures
            match found {
                Some(p) => {
                    &&& 1 <= p < MAX
                    &&& repeats_at(self.wrap, self.rule@, initial_state@, MAX as nat, p as nat)
                    &&& forall|q: nat|
                        1 <= q < p ==> !#[trigger] repeats_at(
                            self.wrap,
                            self.rule@,
                            initial_state@,
                            MAX as nat,
                            q,
                        )
                },
                None => forall|q: nat|
                    1 <= q < MAX ==> !#[trigger] repeats_at(
                        self.wrap,
                        self.rule@,
                        initial_state@,
                        MAX as nat,
                        q,
                    ),
            },
    {
        let mut first = [false;W];
        for j in 0..W
            invariant
                initial_state@.len() == W,
                forall|k: int| 0 <= k < j ==> first@[k] == initial_state@[k],
        {
            first[j] = initial_state[j];
        }
        assert(first@ =~= initial_state@);
        let mut state = [[false;W];MAX];
        state[0] = first;

        for i in 1..MAX
            invariant
                MAX > 2 || i == MAX,
                forall|k: int|
                    0 <= k < i ==> state@[k]@ == generation_after(
                        self.wrap,
                        self.rule@,
                        initial_state@,
                        k as nat,
                    ),
        {
            let ghost before = generations(state);
            self.next_row(&mut state, i);
            proof {
                let after = generations(state);
                assert forall|k: int| 0 <= k <= i implies state@[k]@ == generation_after(
                    self.wrap,
                    self.rule@,
                    initial_state@,
                    k as nat,
                ) by {
                    assert(after[k] == state@[k]@);
                    assert(k < i ==> after[k] == before[k]);
                    assert(after[i as int] == self.step(before[i - 1]));
                }
            }
        }

        let last_index = MAX - 1;
        for i in 1..MAX
            invariant
                last_index == MAX - 1,
                forall|k: int|
                    0 <= k < MAX ==> state@[k]@ == generation_after(
                        self.wrap,
                        self.rule@,
                        initial_state@,
                        k as nat,
                    ),
                forall|q: nat|
                    1 <= q < i ==> !#[trigger] repeats_at(
                        self.wrap,
                        self.rule@,
                        initial_state@,
                        MAX as nat,
                        q,
                    ),
        {
            if same_cells(&state[last_index], &state[last_index - i]) {
                return Some(i);
            }
        }

        None
    }

    /// Overwrites row `index` of the ring with the successor of the row above
    /// it, which for the first row is the last one.
    pub fn next_row<const W: usize, const H: usize>(&self, state: &mut [[bool; W]; H], index: usize)
        requires
            H > 2,
            index < H,
        ensures
            generations(*final(state)) == advance_row(
                self.wrap,
                self.rule@,
                generations(*old(state)),
                index as int,
            ),
    {
        let above = if index == 0 {
            H - 1
        } else {
            index - 1
        };
        let previous_row: [bool; W] = state[above];
        let mut next_row = [false;W];
        self.next(&previous_row, &mut next_row);
        state[index] = next_row;
        assert(generations(*state) =~= advance_row(
            self.wrap,
            self.rule@,
            generations(*old(state)),
            index as int,
        ));
    }
}

/// Whether two rows hold the same cells.
fn same_cells(a: &[bool], b: &[bool]) -> (same: bool)
    ensures
        same == (a@ == b@),
{
    if a.len() != b.len() {
        return false;
    }
    for i in 0..a.len()
        invariant
            a@.len() == b@.len(),
            forall|k: int| 0 <= k < i ==> a@[k] == b@[k],
    {
        if a[i] != b[i] {
            return false;
        }
    }
    assert(a@ =~= b@);
    true
}

} // verus!
