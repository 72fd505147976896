use wasm_game_of_life::{Cell, GridError, Universe};

fn universe_with(width: u32, height: u32, live: &[(u32, u32, Cell)]) -> Universe {
    let mut u = Universe::new(width, height).unwrap();
    for &(r, c, cell) in live {
        let steps = match cell {
            Cell::Dead => 0,
            Cell::Red => 1,
            Cell::Green => 2,
            Cell::Blue => 3,
        };
        for _ in 0..steps {
            u.toggle_cell(r, c).unwrap();
        }
    }
    u
}

fn cell_at(u: &Universe, r: u32, c: u32) -> Cell {
    u.get_cells()[u.get_index(r, c)]
}

#[test]
pub fn test_cell_food() {
    // Red eats Green
    let input_cell = Cell::Red;
    let expected_food = Cell::Green;
    assert_eq!(&input_cell.food(), &expected_food);
    // Green eats Blue
    let input_cell = Cell::Green;
    let expected_food = Cell::Blue;
    assert_eq!(&input_cell.food(), &expected_food);
    // Blue eats Red
    let input_cell = Cell::Blue;
    let expected_food = Cell::Red;
    assert_eq!(&input_cell.food(), &expected_food);
}

#[test]
pub fn test_cell_foe() {
    // Red eats Green
    let input_cell = Cell::Green;
    let expected_food = Cell::Red;
    assert_eq!(&input_cell.foe(), &expected_food);
    // Green eats Blue
    let input_cell = Cell::Blue;
    let expected_food = Cell::Green;
    assert_eq!(&input_cell.foe(), &expected_food);
    // Blue eats Red
    let input_cell = Cell::Red;
    let expected_food = Cell::Blue;
    assert_eq!(&input_cell.foe(), &expected_food);
}

#[test]
fn food_chain_is_a_three_cycle() {
    for x in [Cell::Red, Cell::Green, Cell::Blue] {
        assert_ne!(x.food().foe(), x.food());
        assert_eq!(x.food().foe(), x);
        assert_eq!(x.food().food().food(), x);
        assert_eq!(x.foe().food(), x);
    }
}

#[test]
fn cell_names() {
    assert_eq!(Cell::Dead.to_string(), "Dead");
    assert_eq!(Cell::Red.to_string(), "Red");
    assert_eq!(Cell::Green.to_string(), "Green");
    assert_eq!(Cell::Blue.to_string(), "Blue");
}

#[test]
fn from_index_numbers_states() {
    assert_eq!(Cell::from_index(0), Some(Cell::Dead));
    assert_eq!(Cell::from_index(1), Some(Cell::Red));
    assert_eq!(Cell::from_index(2), Some(Cell::Green));
    assert_eq!(Cell::from_index(3), Some(Cell::Blue));
    assert_eq!(Cell::from_index(4), None);
}

#[test]
fn new_is_all_dead_with_width_times_height_cells() {
    let u = Universe::new(4, 3).unwrap();
    assert_eq!(u.width(), 4);
    assert_eq!(u.height(), 3);
    assert_eq!(u.get_cells().len(), 12);
    assert!(u.get_cells().iter().all(|&c| c == Cell::Dead));
    assert_eq!(u.cells().len(), 12);
}

#[test]
fn new_rejects_bad_dimensions() {
    assert_eq!(Universe::new(0, 5).err(), Some(GridError::InvalidDimension));
    assert_eq!(Universe::new(5, 0).err(), Some(GridError::InvalidDimension));
    assert_eq!(Universe::new(70000, 70000).err(), Some(GridError::InvalidDimension));
    assert!(Universe::new(1, 1).is_ok());
}

#[test]
fn resize_clears_and_changes_dimensions() {
    let mut u = universe_with(3, 3, &[(1, 1, Cell::Green)]);
    assert_eq!(u.resize(5, 2), Ok(()));
    assert_eq!(u.width(), 5);
    assert_eq!(u.height(), 2);
    assert_eq!(u.get_cells().len(), 10);
    assert!(u.get_cells().iter().all(|&c| c == Cell::Dead));
    assert_eq!(u.resize(0, 2), Err(GridError::InvalidDimension));
    assert_eq!(u.width(), 5);
    assert_eq!(u.get_cells().len(), 10);
}

#[test]
fn clear_twice_gives_the_same_dead_grid() {
    let mut u = universe_with(4, 4, &[(0, 0, Cell::Red), (2, 3, Cell::Blue)]);
    u.clear_cells();
    let once = u.get_cells().to_vec();
    u.clear_cells();
    assert_eq!(u.get_cells().to_vec(), once);
    assert_eq!(once.len(), 16);
    assert!(once.iter().all(|&c| c == Cell::Dead));
}

#[test]
fn toggle_cycles_through_four_states() {
    let mut u = Universe::new(3, 3).unwrap();
    let expected = [Cell::Red, Cell::Green, Cell::Blue, Cell::Dead];
    for e in expected {
        u.toggle_cell(1, 2).unwrap();
        assert_eq!(cell_at(&u, 1, 2), e);
    }
    assert!(u.get_cells().iter().all(|&c| c == Cell::Dead));
}

#[test]
fn cell_toggle_steps() {
    let mut c = Cell::Blue;
    c.toggle();
    assert_eq!(c, Cell::Dead);
    c.toggle();
    assert_eq!(c, Cell::Red);
}

#[test]
fn toggle_outside_is_refused() {
    let mut u = Universe::new(3, 2).unwrap();
    assert_eq!(u.toggle_cell(2, 0), Err(GridError::IndexOutOfRange));
    assert_eq!(u.toggle_cell(0, 3), Err(GridError::IndexOutOfRange));
    assert!(u.get_cells().iter().all(|&c| c == Cell::Dead));
}

#[test]
fn set_cells_marks_listed_cells_red() {
    let mut u = universe_with(4, 3, &[(0, 0, Cell::Blue)]);
    assert_eq!(u.set_cells(&[(2, 1)]), Ok(()));
    assert_eq!(u.get_cells()[u.get_index(2, 1)], Cell::Red);
    assert_eq!(u.get_index(2, 1), 9);
    assert_eq!(cell_at(&u, 0, 0), Cell::Blue);
    let reds = u.get_cells().iter().filter(|&&c| c == Cell::Red).count();
    assert_eq!(reds, 1);
}

#[test]
fn set_cells_refuses_outside_without_change() {
    let mut u = Universe::new(4, 3).unwrap();
    assert_eq!(u.set_cells(&[(0, 0), (3, 0)]), Err(GridError::IndexOutOfRange));
    assert!(u.get_cells().iter().all(|&c| c == Cell::Dead));
}

#[test]
fn randomise_follows_draws() {
    let mut u = Universe::new(2, 2).unwrap();
    u.randomise(&[0, 1, 2, 3]);
    assert_eq!(u.get_cells(), &[Cell::Dead, Cell::Red, Cell::Green, Cell::Blue]);
}

#[test]
fn lone_cell_starves() {
    let mut u = universe_with(5, 5, &[(2, 2, Cell::Red)]);
    u.tick();
    assert!(u.get_cells().iter().all(|&c| c == Cell::Dead));
}

#[test]
fn single_species_blinker_oscillates() {
    let mut u = Universe::new(5, 5).unwrap();
    u.set_cells(&[(2, 1), (2, 2), (2, 3)]).unwrap();
    let start = u.get_cells().to_vec();
    u.tick();
    let mut vertical = Universe::new(5, 5).unwrap();
    vertical.set_cells(&[(1, 2), (2, 2), (3, 2)]).unwrap();
    assert_eq!(u.get_cells(), vertical.get_cells());
    u.tick();
    assert_eq!(u.get_cells().to_vec(), start);
}

#[test]
fn fed_neighbours_give_birth() {
    // Two reds and a green around a dead cell: red eats the green and is born.
    let u = universe_with(5, 5, &[(1, 1, Cell::Red), (1, 2, Cell::Red), (1, 3, Cell::Green)]);
    assert_eq!(u.neighbor_friendliness(Cell::Dead, 2, 2), (Cell::Red, 2, 1));
    assert_eq!(
        u.get_cell_stats(2, 2),
        "(2,2) Dead - Candidate: Red, Friendliness: 2, Food: 1"
    );
    let mut u = u;
    u.tick();
    assert_eq!(cell_at(&u, 2, 2), Cell::Red);
}

#[test]
fn fed_cell_survives_with_low_population() {
    // A red with one red and one green neighbour: it eats and survives.
    let u = universe_with(5, 5, &[(2, 2, Cell::Red), (1, 1, Cell::Red), (3, 3, Cell::Green)]);
    assert_eq!(u.neighbor_friendliness(Cell::Red, 2, 2), (Cell::Red, 1, 1));
    let mut u = u;
    u.tick();
    assert_eq!(cell_at(&u, 2, 2), Cell::Red);
}

#[test]
fn isolated_species_reports_nothing() {
    let u = universe_with(5, 5, &[(2, 2, Cell::Green), (1, 1, Cell::Blue)]);
    assert_eq!(u.neighbor_friendliness(Cell::Green, 2, 2), (Cell::Green, 0, 0));
    assert_eq!(u.neighbor_friendliness(Cell::Dead, 0, 0), (Cell::Blue, 1, 0));
    assert_eq!(u.neighbor_friendliness(Cell::Dead, 4, 4), (Cell::Dead, 0, 0));
}

#[test]
fn neighbours_wrap_around_edges() {
    let u = universe_with(4, 4, &[(3, 3, Cell::Blue)]);
    assert_eq!(u.neighbor_friendliness(Cell::Dead, 0, 0), (Cell::Blue, 1, 0));
    assert_eq!(u.get_cell_stats(0, 0), "(0,0) Dead - Candidate: Blue, Friendliness: 1, Food: 0");
}

#[test]
fn tick_is_deterministic() {
    let live = [(0, 0, Cell::Red), (0, 1, Cell::Green), (1, 0, Cell::Blue), (1, 1, Cell::Red), (2, 2, Cell::Green)];
    let mut a = universe_with(4, 4, &live);
    let mut b = universe_with(4, 4, &live);
    a.tick();
    b.tick();
    assert_eq!(a.get_cells(), b.get_cells());
}
