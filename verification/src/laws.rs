//! What holds of every simulation, whatever calls produced it.
use vstd::prelude::*;
use crate::model::{cell, flat_index, row_cells, row_length, row_start};
use crate::model::{lemma_history_index, lemma_history_len, lemma_history_prefix};
use crate::model::{lemma_row_start_monotonic, lemma_row_start_step};
use crate::rule::{pattern_of, rule_bit};
use crate::simulation::Simulation;

verus! {

/// Two simulations of the same rule that hold the same number of rows hold
/// the same cells.
pub proof fn law_deterministic(a: Simulation, b: Simulation)
    requires
        a.wf(),
        b.wf(),
        a.spec_ruleset() == b.spec_ruleset(),
        a.rows() == b.rows(),
    ensures
        a@ == b@,
{
}

/// Only the total number of rows computed matters, not the portions in which
/// they were asked for: computing `first` rows and then `second` more gives
/// the simulation that computing `first + second` rows at once gives.
pub proof fn law_granularity_is_irrelevant(
    start: Simulation,
    middle: Simulation,
    stepwise: Simulation,
    at_once: Simulation,
    first: nat,
    second: nat,
)
    requires
        middle.extends(start, first),
        stepwise.extends(middle, second),
        at_once.extends(start, first + second),
    ensures
        stepwise.spec_ruleset() == at_once.spec_ruleset(),
        stepwise.rows() == at_once.rows(),
        stepwise@ == at_once@,
{
}

/// Computing more rows only appends: the buffer as it was is the beginning
/// of the buffer as it is, so every cell that could be read before is still
/// at its place with its value.
pub proof fn law_append_only(before: Simulation, after: Simulation, steps: nat)
    requires
        before.wf(),
        after.extends(before, steps),
    ensures
        before@.len() <= after@.len(),
        after@.subrange(0, before@.len() as int) == before@,
        forall|position: int| 0 <= position < before@.len() ==> after@[position] == before@[position],
{
    lemma_history_prefix(before.spec_ruleset(), before.rows(), after.rows());
    lemma_history_len(before.spec_ruleset(), before.rows());
    let kept = after@.subrange(0, before@.len() as int);
    assert forall|position: int| 0 <= position < before@.len() implies after@[position]
        == before@[position] by {
        assert(kept[position] == after@[position]);
    }
}

/// The buffer of a simulation with `n` rows holds `n * n` cells, and each
/// row `r` below `n` fills the `2r + 1` positions from `r * r` up to, not
/// including, `(r + 1) * (r + 1)`.
pub proof fn law_triangular_layout(simulation: Simulation, row: nat)
    requires
        simulation.wf(),
        row < simulation.rows(),
    ensures
        simulation@.len() == row_start(simulation.rows()),
        row_start(row) + row_length(row) == row_start(row + 1),
        row_start(row + 1) <= simulation@.len(),
        simulation@.subrange(row_start(row) as int, row_start(row + 1) as int) == row_cells(
            simulation.spec_ruleset(),
            row,
        ),
        row_cells(simulation.spec_ruleset(), row).len() == 2 * row + 1,
{
    let ruleset = simulation.spec_ruleset();
    lemma_history_len(ruleset, simulation.rows());
    lemma_row_start_step(row);
    lemma_row_start_monotonic(row + 1, simulation.rows());
    let slice = simulation@.subrange(row_start(row) as int, row_start(row + 1) as int);
    assert forall|column: int| 0 <= column < row_length(row) implies slice[column] == row_cells(
        ruleset,
        row,
    )[column] by {
        lemma_history_index(ruleset, simulation.rows(), row, column as nat);
        assert(flat_index(row, column as nat) == row_start(row) + column);
    }
    assert(slice =~= row_cells(ruleset, row));
}

/// A rule table of all zeros kills everything: below the seed row no cell
/// is alive.
pub proof fn law_rule_zero_is_dead(row: nat, column: int)
    requires
        row >= 1,
    ensures
        !cell(0, row, column),
{
    assert forall|left: bool, top: bool, right: bool| !rule_bit(0, #[trigger] pattern_of(left, top, right)) by {
        let pattern = pattern_of(left, top, right) as u8;
        assert((0u8 >> pattern) & 1u8 != 1u8) by (bit_vector);
    }
}

} // verus!
