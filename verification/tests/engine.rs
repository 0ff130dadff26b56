use game_of_life::Cell;
use game_of_life::Universe;

/// An all-dead universe of the given dimensions.
fn dead_universe(width: u32, height: u32) -> Universe {
    let mut u = Universe::new();
    u.set_width(width);
    u.set_height(height);
    u
}

fn cell(u: &Universe, row: u32, column: u32) -> Cell {
    u.get_cells()[(row * u.width() + column) as usize]
}

#[test]
fn new_universe_dimensions() {
    let u = Universe::new();
    assert_eq!(u.width(), 64);
    assert_eq!(u.height(), 64);
    assert_eq!(u.get_cells().len(), 64 * 64);
}

#[test]
fn dimension_invariant_through_operations() {
    let mut u = Universe::new();
    assert_eq!(u.get_cells().len(), (u.width() * u.height()) as usize);
    u.set_width(5);
    assert_eq!(u.get_cells().len(), (u.width() * u.height()) as usize);
    u.set_height(7);
    assert_eq!(u.get_cells().len(), (u.width() * u.height()) as usize);
    u.set_cells(&[(0, 0), (6, 4)]);
    assert_eq!(u.get_cells().len(), (u.width() * u.height()) as usize);
    u.tick();
    assert_eq!(u.get_cells().len(), (u.width() * u.height()) as usize);
    u.toggle_cell(3, 3);
    assert_eq!(u.get_cells().len(), (u.width() * u.height()) as usize);
    u.reset();
    assert_eq!(u.get_cells().len(), (u.width() * u.height()) as usize);
    u.start();
    assert_eq!(u.get_cells().len(), (u.width() * u.height()) as usize);
}

#[test]
fn toroidal_corner_birth() {
    // Three alive cells touch (0, 0) only through the wrapped edges:
    // the far corner and the two far edge cells. With three live
    // neighbors, (0, 0) is born.
    let mut u = dead_universe(5, 5);
    u.set_cells(&[(4, 4), (4, 0), (0, 4)]);
    assert_eq!(u.live_neighbor_count(0, 0), 3);
    u.tick();
    assert_eq!(cell(&u, 0, 0), Cell::Alive);
}

#[test]
fn degenerate_single_cell_is_its_own_neighbor() {
    // On a 1 x 1 torus all eight wrapped neighbor positions land on the
    // cell itself.
    let mut u = dead_universe(1, 1);
    u.set_cells(&[(0, 0)]);
    assert_eq!(u.live_neighbor_count(0, 0), 8);
}

#[test]
fn rule_underpopulation_dies() {
    // Two adjacent cells: one live neighbor each; both die.
    let mut u = dead_universe(6, 6);
    u.set_cells(&[(2, 2), (2, 3)]);
    assert_eq!(u.live_neighbor_count(2, 2), 1);
    u.tick();
    assert_eq!(cell(&u, 2, 2), Cell::Dead);
    assert_eq!(cell(&u, 2, 3), Cell::Dead);
}

#[test]
fn rule_two_or_three_survive_and_three_give_birth() {
    // An L of three cells: each has two live neighbors and survives;
    // the dead fourth corner has three and is born.
    let mut u = dead_universe(6, 6);
    u.set_cells(&[(2, 2), (2, 3), (3, 2)]);
    assert_eq!(u.live_neighbor_count(2, 2), 2);
    assert_eq!(u.live_neighbor_count(3, 3), 3);
    u.tick();
    assert_eq!(cell(&u, 2, 2), Cell::Alive);
    assert_eq!(cell(&u, 2, 3), Cell::Alive);
    assert_eq!(cell(&u, 3, 2), Cell::Alive);
    assert_eq!(cell(&u, 3, 3), Cell::Alive);
}

#[test]
fn rule_overpopulation_dies() {
    // A plus shape: the center has four live neighbors and dies.
    let mut u = dead_universe(7, 7);
    u.set_cells(&[(3, 3), (2, 3), (4, 3), (3, 2), (3, 4)]);
    assert_eq!(u.live_neighbor_count(3, 3), 4);
    u.tick();
    assert_eq!(cell(&u, 3, 3), Cell::Dead);
}

#[test]
fn rule_dead_with_five_stays_dead() {
    let mut u = dead_universe(7, 7);
    u.set_cells(&[(2, 2), (2, 3), (2, 4), (3, 2), (3, 4)]);
    assert_eq!(u.live_neighbor_count(3, 3), 5);
    u.tick();
    assert_eq!(cell(&u, 3, 3), Cell::Dead);
}

#[test]
fn block_still_life_is_stable() {
    // A 2 x 2 block far from the edges: every block cell has exactly
    // three live neighbors, every other cell at most two, so a tick
    // changes nothing.
    let mut u = dead_universe(6, 6);
    u.set_cells(&[(2, 2), (2, 3), (3, 2), (3, 3)]);
    let before = u.get_cells().to_vec();
    u.tick();
    assert_eq!(u.get_cells(), before.as_slice());
    u.tick();
    assert_eq!(u.get_cells(), before.as_slice());
}

#[test]
fn blinker_oscillates() {
    // A horizontal blinker becomes vertical after one tick and returns
    // after a second.
    let mut u = dead_universe(5, 5);
    u.set_cells(&[(2, 1), (2, 2), (2, 3)]);
    let horizontal = u.get_cells().to_vec();
    u.tick();
    for row in 0..5u32 {
        for column in 0..5u32 {
            let expected = if column == 2 && (1..=3).contains(&row) {
                Cell::Alive
            } else {
                Cell::Dead
            };
            assert_eq!(cell(&u, row, column), expected);
        }
    }
    u.tick();
    assert_eq!(u.get_cells(), horizontal.as_slice());
}

#[test]
fn reset_renders_only_dead_glyphs_and_is_idempotent() {
    let mut u = Universe::new();
    u.reset();
    let first = u.render();
    assert!(first.chars().all(|ch| ch == '\u{25fb}' || ch == '\n'));
    u.reset();
    let second = u.render();
    assert_eq!(first, second);
}

#[test]
fn render_exact_text() {
    let mut u = dead_universe(3, 2);
    u.set_cells(&[(0, 1), (1, 2)]);
    assert_eq!(u.render(), "\u{25fb}\u{25fc}\u{25fb}\n\u{25fb}\u{25fb}\u{25fc}\n");
}

#[test]
fn set_cells_edits_exactly_the_named_cells() {
    let mut u = dead_universe(6, 6);
    u.set_cells(&[(2, 3)]);
    for row in 0..6u32 {
        for column in 0..6u32 {
            let expected = if row == 2 && column == 3 {
                Cell::Alive
            } else {
                Cell::Dead
            };
            assert_eq!(cell(&u, row, column), expected);
        }
    }
    // Naming a coordinate twice is the same as naming it once.
    let mut v = dead_universe(6, 6);
    v.set_cells(&[(2, 3), (2, 3)]);
    assert_eq!(u.get_cells(), v.get_cells());
}

#[test]
fn toggle_twice_restores_state() {
    let mut u = dead_universe(6, 6);
    u.set_cells(&[(1, 1), (4, 2)]);
    let before = u.get_cells().to_vec();
    u.toggle_cell(4, 2);
    assert_eq!(cell(&u, 4, 2), Cell::Dead);
    u.toggle_cell(4, 2);
    assert_eq!(u.get_cells(), before.as_slice());
}

#[test]
fn reshape_discards_content() {
    let mut u = dead_universe(4, 4);
    u.set_cells(&[(0, 0), (1, 1), (2, 2), (3, 3)]);
    u.set_width(7);
    assert_eq!(u.width(), 7);
    assert_eq!(u.height(), 4);
    assert_eq!(u.get_cells().len(), 28);
    assert!(u.get_cells().iter().all(|&c| c == Cell::Dead));
}

#[test]
fn cells_views_agree() {
    let mut u = dead_universe(3, 3);
    u.set_cells(&[(1, 1)]);
    assert_eq!(u.cells(), u.get_cells());
    assert_eq!(u.cells().len(), 9);
}
