use kata_threadpool::minesweeper::{Board, OpenResult, Position};

#[test]
fn test_create_board() {
    let ms = Board::new(10, 15, 5);
    assert_eq!(ms.mine_count(), 5);
}

#[test]
fn test_open_mine() {
    let mines = vec![(3, 3)];
    let mut ms = Board::with_mines(4, 5, mines);
    let result = ms.open((3, 3));
    assert_eq!(result, OpenResult::Mine)
}

#[test]
fn test_open_next_to_one_mine() {
    let mines = vec![(0, 0), (3, 3)];
    let mut ms = Board::with_mines(4, 5, mines);
    let result = ms.open((1, 1));
    assert_eq!(result, OpenResult::NoMine(1))
}

#[test]
fn test_open_next_to_two_mines() {
    let mines = vec![(0, 0), (2, 2), (3, 3)];
    let mut ms = Board::with_mines(4, 5, mines);
    let result = ms.open((1, 1));
    assert_eq!(result, OpenResult::NoMine(2))
}

#[test]
fn test_neighbours() {
    let ms = Board::new(4, 5, 0);

    // upper left corner
    let mut result: Vec<Position> = ms.iter_neighbours((0, 0));
    result.sort();
    assert_eq!(result, vec![(0, 1), (1, 0), (1, 1)]);

    // lower right corner
    let mut result: Vec<Position> = ms.iter_neighbours((3, 4));
    result.sort();
    assert_eq!(result, vec![(2, 3), (2, 4), (3, 3)]);

    // mid board
    let mut result: Vec<Position> = ms.iter_neighbours((1, 1));
    result.sort();
    assert_eq!(
        result,
        vec![
            (0, 0),
            (0, 1),
            (0, 2),
            (1, 0),
            (1, 2),
            (2, 0),
            (2, 1),
            (2, 2)
        ]
    );
}

#[test]
fn test_closed_neigbours() {
    let mut ms = Board::new(4, 4, 0);
    ms.open_one((0, 0));
    ms.flag((2, 2));

    // upper left corner
    let mut result: Vec<Position> = ms.iter_openable_neighbours((1, 1));
    result.sort();
    assert_eq!(result, vec![(0, 1), (0, 2), (1, 0), (1, 2), (2, 0), (2, 1)]);
}

#[test]
fn full_board_of_mines_and_duplicate_mines() {
    let ms = Board::new(3, 2, 6);
    assert_eq!(ms.mine_count(), 6);
    let ms = Board::with_mines(4, 4, vec![(1, 1), (1, 1), (2, 0)]);
    assert_eq!(ms.mine_count(), 2);
}

#[test]
fn opening_a_quiet_cell_floods_until_numbers() {
    // One mine in the far corner of a 4 x 4 board.
    let mut ms = Board::with_mines(4, 4, vec![(3, 3)]);
    assert_eq!(ms.open((0, 0)), OpenResult::NoMine(0));
    // Everything but the mine is open now: no closed neighbour is left
    // around any cell next to the mine.
    assert!(ms.iter_openable_neighbours((1, 1)).is_empty());
    assert_eq!(ms.iter_openable_neighbours((2, 2)), vec![(3, 3)]);
    assert_eq!(ms.iter_openable_neighbours((3, 2)), vec![(3, 3)]);
    assert_eq!(ms.neighbour_mines((2, 2)), 1);
    assert_eq!(ms.neighbour_mines((0, 0)), 0);
}

#[test]
fn flood_stops_at_flags() {
    let mut ms = Board::with_mines(3, 1, vec![]);
    ms.flag((1, 0));
    assert_eq!(ms.open((0, 0)), OpenResult::NoMine(0));
    // The flag on (1, 0) holds the flood back from (2, 0).
    assert_eq!(ms.iter_openable_neighbours((1, 0)), vec![(2, 0)]);
}

#[test]
fn flagged_cell_refuses_to_open_and_flag_toggles() {
    let mut ms = Board::with_mines(2, 2, vec![(0, 0)]);
    ms.flag((0, 0));
    assert_eq!(ms.open((0, 0)), OpenResult::Untouched);
    assert_eq!(ms.open_one((0, 0)), OpenResult::Untouched);
    ms.flag((0, 0));
    assert_eq!(ms.open_one((0, 0)), OpenResult::Mine);
}

#[test]
fn open_one_does_not_flood() {
    let mut ms = Board::with_mines(3, 3, vec![]);
    assert_eq!(ms.open_one((1, 1)), OpenResult::NoMine(0));
    assert_eq!(ms.iter_openable_neighbours((1, 1)).len(), 8);
}

#[test]
fn render_shows_counts_flags_mines_and_closed_cells() {
    let mut ms = Board::with_mines(3, 2, vec![(2, 1)]);
    ms.open_one((1, 1));
    ms.open_one((0, 0));
    ms.flag((0, 1));
    assert_eq!(
        ms.render(),
        " 0 \u{1f7e7} \u{1f7e7} \n\u{1f6a9}  1 \u{1f4a5} \n"
    );
}

#[test]
fn get_state_draws_a_fresh_ten_by_ten_board() {
    let state = kata_threadpool::minesweeper::get_state();
    assert_eq!(state.lines().count(), 10);
    assert_eq!(state.matches('\u{1f4a5}').count(), 5);
    assert_eq!(state.matches('\u{1f7e7}').count(), 95);
}
