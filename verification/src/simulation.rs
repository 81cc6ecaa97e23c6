//! The simulation engine: a rule, the rows computed so far, and the flat
//! buffer that holds them.
use vstd::prelude::*;
use crate::model::{cell, flat_index, history, row_cells, row_length, row_start};
use crate::model::{lemma_history_index, lemma_history_len, lemma_history_prefix};
use crate::model::{lemma_row_start_monotonic, lemma_row_start_step};
use crate::rule::apply_rule;

verus! {

/// Why a cell could not be read.
#[derive(Debug, Clone, Copy, PartialEq, Eq, Structural)]
pub enum CellError {
    /// The row has not been computed yet.
    RowNotComputed,
    /// The row is computed, but has no such column.
    ColumnOutsideRow,
}

/// An elementary cellular automaton together with every row computed so far.
#[derive(Debug)]
pub struct Simulation {
    ruleset: u8,
    steps_simulated: usize,
    cells: Vec<bool>,
}

/// Whether a buffer of `rows` rows can be allocated at all.
pub open spec fn rows_fit(rows: nat) -> bool {
    row_start(rows) <= isize::MAX
}

/// Number of rows a new simulation holds for a requested initial row count:
/// the request, but never fewer than the seed row.
pub open spec fn initial_rows(steps: Option<usize>) -> nat {
    match steps {
        Some(n) if n > 1 => n as nat,
        _ => 1,
    }
}

/// A number is never larger than its square, squares grow with their
/// roots, and a square exceeds the one before it by an odd number.
proof fn lemma_square_bounds(a: nat, b: nat)
    requires
        a <= b,
    ensures
        a <= a * a <= b * b,
        a > 0 ==> (a - 1) * (a - 1) + 2 * a - 1 == a * a,
{
    assert(a <= a * a <= b * b) by (nonlinear_arith)
        requires
            a <= b,
    ;
    assert(a > 0 ==> (a - 1) * (a - 1) + 2 * a - 1 == a * a) by (nonlinear_arith);
}

/// State of the cell `reach` columns to the left of `column` in the row
/// above `row`, or dead where the row above has no such column.
fn parent_state(cells: &Vec<bool>, row: usize, column: usize, reach: usize) -> (alive: bool)
    requires
        row >= 1,
        row_start(row as nat) <= cells.len(),
        column < row_length(row as nat),
        reach <= 2,
    ensures
        alive == if reach <= column && column - reach < row_length((row - 1) as nat) {
            cells@[flat_index((row - 1) as nat, (column - reach) as nat) as int]
        } else {
            false
        },
{
    proof {
        lemma_square_bounds(row as nat, row as nat);
    }
    let above: usize = row - 1;
    let above_length: usize = 2 * above + 1;
    if column < reach || column - reach >= above_length {
        false
    } else {
        cells[above * above + (column - reach)]
    }
}

impl View for Simulation {
    type V = Seq<bool>;

    /// Every computed cell, row after row.
    closed spec fn view(&self) -> Seq<bool> {
        self.cells@
    }
}

impl Simulation {
    /// The rule table this simulation runs.
    pub closed spec fn spec_ruleset(&self) -> u8 {
        self.ruleset
    }

    /// The number of rows computed so far.
    pub closed spec fn rows(&self) -> nat {
        self.steps_simulated as nat
    }

    /// The seed row exists, and the buffer holds exactly the computed rows of
    /// the automaton, each at its place.
    pub open spec fn wf(&self) -> bool {
        &&& self.rows() >= 1
        &&& rows_fit(self.rows())
        &&& self@ == history(self.spec_ruleset(), self.rows())
    }

    /// `self` is what `before` becomes when it computes `steps` more rows.
    pub open spec fn extends(&self, before: Simulation, steps: nat) -> bool {
        &&& self.wf()
        &&& self.spec_ruleset() == before.spec_ruleset()
        &&& self.rows() == before.rows() + steps
    }

    /// Tells whether a simulation can ever hold `rows` rows.
    pub fn can_hold(rows: usize) -> (fits: bool)
        ensures
            fits == rows_fit(rows as nat),
    {
        match rows.checked_mul(rows) {
            Some(cells) => cells <= isize::MAX as usize,
            None => false,
        }
    }

    /// Creates a simulation of `ruleset` that holds the seed row, and
    /// computes further rows until it holds `steps` of them.
    pub fn from(ruleset: u8, steps: Option<usize>) -> (simulation: Simulation)
        requires
            rows_fit(initial_rows(steps)),
        ensures
            simulation.wf(),
            simulation.spec_ruleset() == ruleset,
            simulation.rows() == initial_rows(steps),
    {
        let mut cells: Vec<bool> = Vec::new();
        cells.push(true);
        let mut simulation = Simulation { ruleset, steps_simulated: 1, cells };
        proof {
            lemma_history_len(ruleset, 0);
            assert(simulation.cells@ =~= history(ruleset, 1));
        }
        let steps: usize = match steps {
            Some(n) => n,
            None => 1,
        };
        if steps > 1 {
            simulation.simulate_steps(steps - 1);
        }
        simulation
    }

    /// Computes `steps` more rows and appends them to the history.
    pub fn simulate_steps(&mut self, steps: usize)
        requires
            old(self).wf(),
            rows_fit(old(self).rows() + steps as nat),
        ensures
            final(self).extends(*old(self), steps as nat),
            final(self)@.len() >= old(self)@.len(),
            final(self)@.subrange(0, old(self)@.len() as int) == old(self)@,
            steps == 0 ==> *final(self) == *old(self),
    {
        if steps == 0 {
            proof {
                assert(self@.subrange(0, self@.len() as int) =~= self@);
            }
            return ;
        }
        let ruleset: u8 = self.ruleset;
        let first: usize = self.steps_simulated;
        proof {
            lemma_square_bounds((first + steps) as nat, (first + steps) as nat);
            lemma_history_prefix(ruleset, first as nat, (first + steps) as nat);
        }
        let total: usize = first + steps;
        self.cells.resize(total * total, false);

        let mut row_index: usize = first;
        while row_index < total
            invariant
                1 <= first <= row_index <= total,
                row_start(total as nat) <= isize::MAX,
                self.ruleset == ruleset,
                self.steps_simulated == first,
                self.cells@.len() == row_start(total as nat),
                self.cells@.subrange(0, row_start(row_index as nat) as int) == history(
                    ruleset,
                    row_index as nat,
                ),
            decreases total - row_index,
        {
            proof {
                lemma_square_bounds(row_index as nat, total as nat);
                lemma_row_start_step(row_index as nat);
                lemma_row_start_monotonic((row_index + 1) as nat, total as nat);
                lemma_history_len(ruleset, row_index as nat);
            }
            let length: usize = (row_index * 2) + 1;
            let start: usize = row_index * row_index;
            let ghost above = (row_index - 1) as nat;
            let ghost earlier = history(ruleset, row_index as nat);
            let ghost row = row_cells(ruleset, row_index as nat);

            let mut index: usize = 0;
            while index < length
                invariant
                    1 <= row_index < total,
                    index <= length,
                    length == row_length(row_index as nat),
                    start == row_start(row_index as nat),
                    start + length <= row_start(total as nat) <= isize::MAX,
                    above == row_index - 1,
                    earlier == history(ruleset, row_index as nat),
                    earlier.len() == start,
                    row == row_cells(ruleset, row_index as nat),
                    self.ruleset == ruleset,
                    self.steps_simulated == first,
                    self.cells@.len() == row_start(total as nat),
                    self.cells@.subrange(0, start + index) == earlier + row.subrange(
                        0,
                        index as int,
                    ),
                decreases length - index,
            {
                let ghost before = self.cells@;
                let left: bool = parent_state(&self.cells, row_index, index, 2);
                let top: bool = parent_state(&self.cells, row_index, index, 1);
                let right: bool = parent_state(&self.cells, row_index, index, 0);
                let alive: bool = apply_rule(ruleset, left, top, right);
                proof {
                    assert forall|column: nat| column < row_length(above) implies before[flat_index(
                        above,
                        column,
                    ) as int] == cell(ruleset, above, column as int) by {
                        lemma_history_index(ruleset, row_index as nat, above, column);
                        let at = flat_index(above, column) as int;
                        assert(before.subrange(0, start + index)[at] == before[at]);
                        assert((earlier + row.subrange(0, index as int))[at] == earlier[at]);
                    }
                    assert(left == cell(ruleset, above, index - 2));
                    assert(top == cell(ruleset, above, index - 1));
                    assert(right == cell(ruleset, above, index as int));
                    assert(alive == cell(ruleset, row_index as nat, index as int));
                }
                self.cells.set(start + index, alive);
                proof {
                    assert(self.cells@.subrange(0, start + index + 1) =~= before.subrange(
                        0,
                        start + index,
                    ).push(alive));
                    assert(row.subrange(0, index + 1) =~= row.subrange(0, index as int).push(
                        alive,
                    ));
                    assert(self.cells@.subrange(0, start + index + 1) =~= earlier + row.subrange(
                        0,
                        index + 1,
                    ));
                }
                index = index + 1;
            }
            proof {
                assert(row.subrange(0, length as int) =~= row);
                assert(history(ruleset, (row_index + 1) as nat) == earlier + row);
            }
            row_index = row_index + 1;
        }
        proof {
            assert(self.cells@.subrange(0, row_start(total as nat) as int) =~= self.cells@);
        }
        self.steps_simulated = total;
    }

    /// Computes whatever rows are missing for the simulation to hold
    /// `rows_needed` of them; does nothing if it already does.
    pub fn simulate_to(&mut self, rows_needed: usize)
        requires
            old(self).wf(),
            rows_needed > old(self).rows() ==> rows_fit(rows_needed as nat),
        ensures
            final(self).wf(),
            final(self).spec_ruleset() == old(self).spec_ruleset(),
            final(self).rows() == if rows_needed > old(self).rows() {
                rows_needed as nat
            } else {
                old(self).rows()
            },
            final(self)@.len() >= old(self)@.len(),
            final(self)@.subrange(0, old(self)@.len() as int) == old(self)@,
            rows_needed <= old(self).rows() ==> *final(self) == *old(self),
    {
        if rows_needed > self.steps_simulated {
            self.simulate_steps(rows_needed - self.steps_simulated);
        } else {
            proof {
                assert(self@.subrange(0, self@.len() as int) =~= self@);
            }
        }
    }

    /// Reads the cell at `column` of `row`, if that row has been computed and
    /// has such a column.
    pub fn read_cell(&self, row: usize, column: usize) -> (state: Result<bool, CellError>)
        requires
            self.wf(),
        ensures
            state == if row >= self.rows() {
                Err(CellError::RowNotComputed)
            } else if column >= row_length(row as nat) {
                Err(CellError::ColumnOutsideRow)
            } else {
                Ok(cell(self.spec_ruleset(), row as nat, column as int))
            },
            state is Ok ==> state == Ok::<bool, CellError>(
                self@[flat_index(row as nat, column as nat) as int],
            ),
    {
        if row >= self.steps_simulated {
            return Err(CellError::RowNotComputed);
        }
        proof {
            lemma_history_len(self.ruleset, self.steps_simulated as nat);
            lemma_row_start_step(row as nat);
            lemma_row_start_monotonic((row + 1) as nat, self.steps_simulated as nat);
        }
        if column > 2 * row {
            return Err(CellError::ColumnOutsideRow);
        }
        proof {
            lemma_history_index(
                self.ruleset,
                self.steps_simulated as nat,
                row as nat,
                column as nat,
            );
        }
        Ok(self.cells[row * row + column])
    }

    /// The rule table this simulation runs.
    #[verifier::when_used_as_spec(spec_ruleset)]
    pub fn ruleset(&self) -> (ruleset: u8)
        ensures
            ruleset == self.spec_ruleset(),
    {
        self.ruleset
    }

    /// The number of rows computed so far.
    pub fn steps_simulated(&self) -> (steps: usize)
        ensures
            steps == self.rows(),
    {
        self.steps_simulated
    }

    /// Every computed cell, row after row.
    pub fn cells(&self) -> (cells: &Vec<bool>)
        ensures
            cells@ == self@,
    {
        &self.cells
    }
}

} // verus!
