use elementary_automaton::simulation::{CellError, Simulation};

fn row_of(simulation: &Simulation, row: usize) -> Vec<bool> {
    let mut cells = Vec::new();
    for column in 0..(2 * row + 1) {
        cells.push(simulation.read_cell(row, column).unwrap());
    }
    cells
}

fn bits(text: &str) -> Vec<bool> {
    text.chars().map(|c| c == '1').collect()
}

#[test]
fn new_simulation_holds_only_the_seed() {
    let simulation = Simulation::from(235, None);
    assert_eq!(simulation.ruleset(), 235);
    assert_eq!(simulation.steps_simulated(), 1);
    assert_eq!(simulation.cells(), &vec![true]);
    assert_eq!(simulation.read_cell(0, 0), Ok(true));
}

#[test]
fn initial_row_count_is_reached_exactly() {
    assert_eq!(Simulation::from(30, Some(1)).steps_simulated(), 1);
    assert_eq!(Simulation::from(30, Some(2)).steps_simulated(), 2);
    assert_eq!(Simulation::from(30, Some(5)).steps_simulated(), 5);
    assert_eq!(Simulation::from(30, Some(5)).cells().len(), 25);
}

#[test]
fn initial_row_count_of_zero_still_has_the_seed() {
    let simulation = Simulation::from(30, Some(0));
    assert_eq!(simulation.steps_simulated(), 1);
    assert_eq!(simulation.cells(), &vec![true]);
}

#[test]
fn same_rule_and_rows_give_same_history() {
    let a = Simulation::from(110, Some(12));
    let b = Simulation::from(110, Some(12));
    assert_eq!(a.cells(), b.cells());
}

#[test]
fn five_then_three_equals_eight_at_once() {
    for ruleset in [30u8, 90, 110, 235] {
        let mut stepwise = Simulation::from(ruleset, None);
        stepwise.simulate_steps(5);
        stepwise.simulate_steps(3);
        let mut at_once = Simulation::from(ruleset, None);
        at_once.simulate_steps(8);
        assert_eq!(stepwise.steps_simulated(), 9);
        assert_eq!(at_once.steps_simulated(), 9);
        assert_eq!(stepwise.cells(), at_once.cells());
        let built = Simulation::from(ruleset, Some(9));
        assert_eq!(built.cells(), at_once.cells());
    }
}

#[test]
fn extending_never_changes_earlier_cells() {
    let mut simulation = Simulation::from(30, Some(4));
    let mut seen = simulation.cells().clone();
    for steps in [1usize, 0, 3, 2, 7] {
        simulation.simulate_steps(steps);
        let now = simulation.cells();
        assert!(now.len() >= seen.len());
        assert_eq!(&now[..seen.len()], &seen[..]);
        seen = now.clone();
    }
}

#[test]
fn buffer_length_is_the_square_of_the_row_count() {
    let mut simulation = Simulation::from(90, None);
    for steps in [0usize, 1, 2, 5, 10] {
        simulation.simulate_steps(steps);
        let rows = simulation.steps_simulated();
        assert_eq!(simulation.cells().len(), rows * rows);
    }
    assert_eq!(simulation.steps_simulated(), 19);
    assert_eq!(simulation.cells().len(), 361);
}

#[test]
fn every_row_has_twice_its_index_plus_one_cells() {
    let simulation = Simulation::from(90, Some(10));
    for row in 0..10usize {
        for column in 0..(2 * row + 1) {
            assert!(simulation.read_cell(row, column).is_ok());
        }
        assert_eq!(
            simulation.read_cell(row, 2 * row + 1),
            Err(CellError::ColumnOutsideRow)
        );
    }
}

#[test]
fn rule_0_kills_the_first_row_below_the_seed() {
    let simulation = Simulation::from(0, Some(2));
    assert_eq!(row_of(&simulation, 0), vec![true]);
    assert_eq!(row_of(&simulation, 1), vec![false, false, false]);
    assert_eq!(simulation.cells(), &vec![true, false, false, false]);
}

#[test]
fn rule_0_stays_dead() {
    let simulation = Simulation::from(0, Some(6));
    for row in 1..6usize {
        assert_eq!(row_of(&simulation, row), vec![false; 2 * row + 1]);
    }
}

#[test]
fn rule_235_first_rows() {
    let mut simulation = Simulation::from(235, None);
    assert_eq!(row_of(&simulation, 0), vec![true]);
    simulation.simulate_steps(1);
    // Seen from the left end of row 1, the seed is the right parent of
    // column 0, the top parent of column 1 and the left parent of column 2:
    // patterns 1, 2 and 4, of which 235 = 0b1110_1011 has only bit 1 set.
    assert_eq!(simulation.read_cell(1, 0), Ok(true));
    assert_eq!(simulation.read_cell(1, 1), Ok(false));
    assert_eq!(simulation.read_cell(1, 2), Ok(false));
    assert_eq!(simulation.cells(), &vec![true, true, false, false]);
}

#[test]
fn rule_30_first_rows() {
    let simulation = Simulation::from(30, Some(4));
    assert_eq!(row_of(&simulation, 0), bits("1"));
    assert_eq!(row_of(&simulation, 1), bits("111"));
    assert_eq!(row_of(&simulation, 2), bits("11001"));
    assert_eq!(row_of(&simulation, 3), bits("1101111"));
}

#[test]
fn rule_90_draws_the_sierpinski_triangle() {
    let simulation = Simulation::from(90, Some(5));
    assert_eq!(row_of(&simulation, 1), bits("101"));
    assert_eq!(row_of(&simulation, 2), bits("10001"));
    assert_eq!(row_of(&simulation, 3), bits("1010101"));
    assert_eq!(row_of(&simulation, 4), bits("100000001"));
}

#[test]
fn rule_2_walks_the_live_cell_to_the_left_edge() {
    // Only the pattern "right parent alive" gives a live cell, so the single
    // live cell stays in column 0 and everything else is the dead border.
    let simulation = Simulation::from(2, Some(5));
    for row in 1..5usize {
        let mut expected = vec![false; 2 * row + 1];
        expected[0] = true;
        assert_eq!(row_of(&simulation, row), expected);
    }
}

#[test]
fn rule_16_walks_the_live_cell_to_the_right_edge() {
    let simulation = Simulation::from(16, Some(5));
    for row in 1..5usize {
        let mut expected = vec![false; 2 * row + 1];
        expected[2 * row] = true;
        assert_eq!(row_of(&simulation, row), expected);
    }
}

#[test]
fn rule_255_fills_the_triangle() {
    let simulation = Simulation::from(255, Some(4));
    assert_eq!(simulation.cells(), &vec![true; 16]);
}

#[test]
fn cells_sit_at_row_squared_plus_column() {
    let simulation = Simulation::from(110, Some(8));
    let flat = simulation.cells();
    for row in 0..8usize {
        for column in 0..(2 * row + 1) {
            assert_eq!(simulation.read_cell(row, column), Ok(flat[row * row + column]));
        }
    }
}

#[test]
fn extending_by_zero_changes_nothing() {
    let mut simulation = Simulation::from(235, Some(6));
    let before = simulation.cells().clone();
    simulation.simulate_steps(0);
    assert_eq!(simulation.steps_simulated(), 6);
    assert_eq!(simulation.ruleset(), 235);
    assert_eq!(simulation.cells(), &before);
}

#[test]
fn reading_one_row_past_the_last_is_an_error() {
    let mut simulation = Simulation::from(235, None);
    assert_eq!(simulation.read_cell(1, 0), Err(CellError::RowNotComputed));
    simulation.simulate_steps(3);
    assert_eq!(simulation.steps_simulated(), 4);
    assert!(simulation.read_cell(3, 6).is_ok());
    assert_eq!(simulation.read_cell(4, 0), Err(CellError::RowNotComputed));
    assert_eq!(simulation.read_cell(usize::MAX, 0), Err(CellError::RowNotComputed));
}

#[test]
fn reading_past_the_end_of_a_row_is_an_error() {
    let simulation = Simulation::from(235, Some(3));
    assert_eq!(simulation.read_cell(0, 1), Err(CellError::ColumnOutsideRow));
    assert_eq!(simulation.read_cell(2, 5), Err(CellError::ColumnOutsideRow));
    assert_eq!(simulation.read_cell(2, usize::MAX), Err(CellError::ColumnOutsideRow));
    // An uncomputed row is reported as such, whatever the column.
    assert_eq!(simulation.read_cell(3, usize::MAX), Err(CellError::RowNotComputed));
}

#[test]
fn simulate_to_fills_up_to_the_rows_needed() {
    let mut simulation = Simulation::from(30, None);
    simulation.simulate_to(7);
    assert_eq!(simulation.steps_simulated(), 7);
    assert_eq!(simulation.cells(), Simulation::from(30, Some(7)).cells());
}

#[test]
fn simulate_to_does_nothing_when_enough_rows_exist() {
    let mut simulation = Simulation::from(30, Some(7));
    let before = simulation.cells().clone();
    simulation.simulate_to(7);
    simulation.simulate_to(3);
    simulation.simulate_to(0);
    assert_eq!(simulation.steps_simulated(), 7);
    assert_eq!(simulation.cells(), &before);
}

#[test]
fn can_hold_accepts_squares_up_to_the_allocation_limit() {
    assert!(Simulation::can_hold(0));
    assert!(Simulation::can_hold(1));
    assert!(Simulation::can_hold(1000));
    assert!(!Simulation::can_hold(usize::MAX));
    let limit = isize::MAX as usize;
    let mut root = (limit as f64).sqrt() as usize;
    while root.checked_mul(root).map_or(true, |square| square > limit) {
        root -= 1;
    }
    while (root + 1).checked_mul(root + 1).map_or(false, |square| square <= limit) {
        root += 1;
    }
    assert!(Simulation::can_hold(root));
    assert!(!Simulation::can_hold(root + 1));
}
