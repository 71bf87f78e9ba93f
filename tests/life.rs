use kata_threadpool::life::{Cell, Universe};

fn alive(u: &Universe, n: usize) -> Vec<usize> {
    (0..n).filter(|&i| u.cell(i) == Cell::Alive).collect()
}

#[test]
fn new_universe_is_dead() {
    let u = Universe::new(4, 3);
    assert!(alive(&u, 12).is_empty());
    assert_eq!(u.get_index(2, 3), 11);
    assert_eq!(u.live_count(0, 0), 0);
}

#[test]
fn blinker_turns_and_turns_back() {
    let mut u = Universe::new(5, 5);
    u.set_cell(11, Cell::Alive);
    u.set_cell(12, Cell::Alive);
    u.set_cell(13, Cell::Alive);
    assert_eq!(u.live_count(2, 2), 2);
    assert_eq!(u.live_count(1, 2), 3);
    u.tick();
    assert_eq!(alive(&u, 25), vec![7, 12, 17]);
    u.tick();
    assert_eq!(alive(&u, 25), vec![11, 12, 13]);
}

#[test]
fn neighbours_wrap_around_the_edges() {
    let mut u = Universe::new(4, 4);
    // Corners are neighbours of each other on a torus.
    u.set_cell(u.get_index(3, 3), Cell::Alive);
    u.set_cell(u.get_index(0, 3), Cell::Alive);
    u.set_cell(u.get_index(3, 0), Cell::Alive);
    assert_eq!(u.live_count(0, 0), 3);
    u.tick();
    // The dead corner with three live neighbours is born.
    assert_eq!(u.cell(0), Cell::Alive);
}

#[test]
fn lonely_cell_dies() {
    let mut u = Universe::new(3, 3);
    u.set_cell(4, Cell::Alive);
    u.tick();
    assert!(alive(&u, 9).is_empty());
}

#[test]
fn render_draws_one_line_per_row() {
    let mut u = Universe::new(3, 2);
    u.set_cell(1, Cell::Alive);
    u.set_cell(5, Cell::Alive);
    assert_eq!(
        u.render(),
        "\u{25fb}\u{25fc}\u{25fb}\n\u{25fb}\u{25fb}\u{25fc}\n"
    );
    assert_eq!(Universe::new(2, 0).render(), "");
}
