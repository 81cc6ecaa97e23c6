//! The mathematical automaton: what every cell is, independent of how and
//! when it is computed or where it is stored.
use vstd::prelude::*;
use crate::rule::rule_output;

verus! {

/// Number of cells in row `row`.
pub open spec fn row_length(row: nat) -> nat {
    2 * row + 1
}

/// Flat position of the first cell of row `row`; also the number of cells
/// in all rows before it.
pub open spec fn row_start(row: nat) -> nat {
    row * row
}

/// Flat position of the cell at `column` of `row`.
pub open spec fn flat_index(row: nat, column: nat) -> nat {
    row_start(row) + column
}

/// State of the cell at `column` of `row`.
///
/// Row 0 is the single live seed. Every position outside the triangle is a
/// permanently dead cell. A cell inside the triangle is decided by the three
/// cells of the row above it at columns `column - 2`, `column - 1` and
/// `column`: the cells diagonally above-left, directly above, and diagonally
/// above-right once the rows are centred on each other.
pub open spec fn cell(ruleset: u8, row: nat, column: int) -> bool
    decreases row,
{
    if column < 0 || column >= row_length(row) {
        false
    } else if row == 0 {
        true
    } else {
        rule_output(
            ruleset,
            cell(ruleset, (row - 1) as nat, column - 2),
            cell(ruleset, (row - 1) as nat, column - 1),
            cell(ruleset, (row - 1) as nat, column),
        )
    }
}

/// The cells of row `row`, left to right.
pub open spec fn row_cells(ruleset: u8, row: nat) -> Seq<bool> {
    Seq::new(row_length(row), |column: int| cell(ruleset, row, column))
}

/// The first `rows` rows laid end to end.
pub open spec fn history(ruleset: u8, rows: nat) -> Seq<bool>
    decreases rows,
{
    if rows == 0 {
        Seq::empty()
    } else {
        history(ruleset, (rows - 1) as nat) + row_cells(ruleset, (rows - 1) as nat)
    }
}

/// Consecutive rows are adjacent: a row ends where the next one starts.
pub proof fn lemma_row_start_step(row: nat)
    ensures
        row_start(row) + row_length(row) == row_start(row + 1),
{
    assert(row * row + (2 * row + 1) == (row + 1) * (row + 1)) by (nonlinear_arith);
}

/// Row starts grow with the row index.
pub proof fn lemma_row_start_monotonic(a: nat, b: nat)
    requires
        a <= b,
    ensures
        row_start(a) <= row_start(b),
{
    assert(a * a <= b * b) by (nonlinear_arith)
        requires
            a <= b,
    ;
}

/// The first `rows` rows hold exactly `rows * rows` cells.
pub proof fn lemma_history_len(ruleset: u8, rows: nat)
    ensures
        history(ruleset, rows).len() == row_start(rows),
    decreases rows,
{
    if rows > 0 {
        let inner = (rows - 1) as nat;
        lemma_history_len(ruleset, inner);
        lemma_row_start_step(inner);
        assert(inner + 1 == rows);
    } else {
        assert(rows * rows == 0) by (nonlinear_arith)
            requires
                rows == 0,
        ;
    }
}

/// A shorter history is the beginning of every longer one.
pub proof fn lemma_history_prefix(ruleset: u8, fewer: nat, more: nat)
    requires
        fewer <= more,
    ensures
        row_start(fewer) <= row_start(more),
        history(ruleset, more).len() == row_start(more),
        history(ruleset, more).subrange(0, row_start(fewer) as int) == history(ruleset, fewer),
    decreases more,
{
    lemma_history_len(ruleset, more);
    lemma_history_len(ruleset, fewer);
    lemma_row_start_monotonic(fewer, more);
    if fewer == more {
        assert(history(ruleset, more).subrange(0, row_start(fewer) as int) =~= history(
            ruleset,
            fewer,
        ));
    } else {
        let inner = (more - 1) as nat;
        lemma_history_prefix(ruleset, fewer, inner);
        assert(history(ruleset, more).subrange(0, row_start(fewer) as int) =~= history(
            ruleset,
            inner,
        ).subrange(0, row_start(fewer) as int));
    }
}

/// Every cell of a computed row sits at its flat position in the history.
pub proof fn lemma_history_index(ruleset: u8, rows: nat, row: nat, column: nat)
    requires
        row < rows,
        column < row_length(row),
    ensures
        flat_index(row, column) < row_start(rows),
        history(ruleset, rows).len() == row_start(rows),
        history(ruleset, rows)[flat_index(row, column) as int] == cell(ruleset, row, column as int),
{
    lemma_history_prefix(ruleset, row + 1, rows);
    lemma_history_len(ruleset, row);
    lemma_row_start_step(row);
    let upto = history(ruleset, row + 1);
    assert(upto == history(ruleset, row) + row_cells(ruleset, row));
    assert(upto[flat_index(row, column) as int] == row_cells(ruleset, row)[column as int]);
    assert(history(ruleset, rows).subrange(0, row_start(row + 1) as int)[flat_index(
        row,
        column,
    ) as int] == history(ruleset, rows)[flat_index(row, column) as int]);
}

} // verus!
