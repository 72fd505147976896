use wasm_game_of_life::universe::{Cell, Universe};
use wasm_game_of_life::GridError;

fn with_live(width: u32, height: u32, live: &[(u32, u32)]) -> Universe {
    let mut u = Universe::new(width, height).unwrap();
    for &(r, c) in live {
        u.toggle_cell(r, c).unwrap();
    }
    u
}

fn live_set(u: &Universe) -> Vec<usize> {
    u.get_cells()
        .iter()
        .enumerate()
        .filter(|(_, c)| c.is_alive())
        .map(|(i, _)| i)
        .collect()
}

#[test]
fn classic_new_is_dead() {
    let u = Universe::new(6, 4).unwrap();
    assert_eq!(u.width(), 6);
    assert_eq!(u.height(), 4);
    assert_eq!(u.get_cells().len(), 24);
    assert!(live_set(&u).is_empty());
    assert_eq!(u.get_cell_buffer_ptr(1).len(), 24);
    assert_eq!(Universe::new(0, 4).err(), Some(GridError::InvalidDimension));
}

#[test]
fn classic_single_cell_dies() {
    let mut u = with_live(5, 5, &[(2, 2)]);
    u.tick();
    assert!(live_set(&u).is_empty());
}

#[test]
fn classic_block_is_still() {
    for (w, h) in [(4, 4), (5, 5), (6, 7)] {
        let mut u = with_live(w, h, &[(1, 1), (1, 2), (2, 1), (2, 2)]);
        let before = live_set(&u);
        for r in 1..3 {
            for c in 1..3 {
                assert_eq!(u.neighbor_count(r, c), 3);
            }
        }
        u.tick();
        assert_eq!(live_set(&u), before);
    }
}

#[test]
fn classic_blinker_period_two() {
    let mut u = with_live(5, 5, &[(2, 1), (2, 2), (2, 3)]);
    let start = live_set(&u);
    u.tick();
    assert_eq!(live_set(&u), vec![7, 12, 17]);
    u.tick();
    assert_eq!(live_set(&u), start);
}

#[test]
fn classic_tick_flips_buffers() {
    let mut u = with_live(5, 5, &[(2, 1), (2, 2), (2, 3)]);
    let first = u.get_cells().to_vec();
    assert_eq!(u.tick(), 1);
    assert_eq!(u.get_cell_buffer_ptr(0), &first[..]);
    assert_eq!(u.get_cell_buffer_ptr(1), u.get_cells());
    assert_eq!(u.tick(), 0);
}

#[test]
fn classic_birth_keeps_red() {
    let mut u = with_live(5, 5, &[(1, 1), (1, 2), (1, 3)]);
    u.tick();
    let idx = u.get_index(2, 2);
    assert_eq!(u.get_cells()[idx], Cell::new([255, 0, 0]));
}

#[test]
fn classic_survivor_keeps_its_colour() {
    let mut u = Universe::new(5, 5).unwrap();
    u.randomise(&[
        false, false, false, false, false, //
        false, true, true, false, false, //
        false, true, true, false, false, //
        false, false, false, false, false, //
        false, false, false, false, false,
    ]);
    u.tick();
    assert_eq!(live_set(&u), vec![6, 7, 11, 12]);
}

#[test]
fn classic_toggle_twice_returns_dead() {
    let mut u = Universe::new(3, 3).unwrap();
    u.toggle_cell(0, 2).unwrap();
    assert!(u.get_cells()[2].is_alive());
    u.toggle_cell(0, 2).unwrap();
    assert_eq!(u.get_cells()[2], Cell::new([0, 0, 0]));
    assert_eq!(u.toggle_cell(3, 0), Err(GridError::IndexOutOfRange));
}

#[test]
fn classic_cell_toggle_and_text() {
    let mut c = Cell::new([0, 7, 0]);
    assert!(c.is_alive());
    assert_eq!(c.to_string(), "Cell(0,7,0)");
    c.toggle();
    assert_eq!(c.to_string(), "Cell(0,0,0)");
    c.toggle();
    assert_eq!(c.to_string(), "Cell(255,0,0)");
}

#[test]
fn classic_clear_is_idempotent() {
    let mut u = with_live(4, 4, &[(0, 0), (3, 3)]);
    u.clear_cells();
    let once = u.get_cells().to_vec();
    u.clear_cells();
    assert_eq!(u.get_cells().to_vec(), once);
    assert!(once.iter().all(|c| *c == Cell::new([0, 0, 0])));
}

#[test]
fn classic_pattern() {
    let mut u = Universe::new(4, 4).unwrap();
    u.set_pattern();
    assert_eq!(live_set(&u), vec![0, 3, 5, 6, 9, 10, 12, 15]);
}

#[test]
fn classic_wraps_rows_and_columns() {
    let u = with_live(4, 4, &[(3, 0)]);
    assert_eq!(u.neighbor_count(0, 0), 1);
    let u = with_live(4, 4, &[(1, 3)]);
    assert_eq!(u.neighbor_count(1, 0), 1);
    assert_eq!(u.get_cell_stats(1, 0), "(1,0) Cell(0,0,0) - Neighbors: 1");
    assert_eq!(u.get_cell_stats(1, 3), "(1,3) Cell(255,0,0) - Neighbors: 0");
}

#[test]
fn classic_tick_is_deterministic() {
    let live = [(0, 0), (0, 1), (1, 1), (2, 0), (3, 3)];
    let mut a = with_live(5, 4, &live);
    let mut b = with_live(5, 4, &live);
    a.tick();
    b.tick();
    assert_eq!(a.get_cells(), b.get_cells());
}

#[test]
fn classic_properties_are_the_channels() {
    assert_eq!(Cell::new([1, 2, 3]).properties(), [1, 2, 3]);
}
