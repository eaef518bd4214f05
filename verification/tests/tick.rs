use quell_machine::cell_data::{GENERATOR, MOVER, PUSH, ROTATOR_CW, TRASH, WALL};
use quell_machine::cells::{Cell, Grid};
use quell_machine::direction::Direction;
use quell_machine::update::update;

fn cell(id: u16, direction: Direction) -> Option<Cell> {
    Some(Cell::new(id, direction))
}

#[test]
fn single_mover_steps_right() {
    let mut grid = Grid::new(3, 1);
    grid.set(0, 0, Cell::new(MOVER, Direction::Right));
    update(&mut grid);
    assert_eq!(grid.get(0, 0), None);
    assert_eq!(grid.get(1, 0), cell(MOVER, Direction::Right));
    assert_eq!(grid.get(2, 0), None);
    assert_eq!(grid.tick_count(), 1);
}

#[test]
fn mover_pushes_push() {
    let mut grid = Grid::new(4, 1);
    grid.set(0, 0, Cell::new(MOVER, Direction::Right));
    grid.set(1, 0, Cell::new(PUSH, Direction::Right));
    update(&mut grid);
    assert_eq!(grid.get(0, 0), None);
    assert_eq!(grid.get(1, 0), cell(MOVER, Direction::Right));
    assert_eq!(grid.get(2, 0), cell(PUSH, Direction::Right));
    assert_eq!(grid.get(3, 0), None);
}

#[test]
fn two_opposing_movers_cancel() {
    let mut grid = Grid::new(3, 1);
    grid.set(0, 0, Cell::new(MOVER, Direction::Right));
    grid.set(1, 0, Cell::new(PUSH, Direction::Right));
    grid.set(2, 0, Cell::new(MOVER, Direction::Left));
    update(&mut grid);
    assert_eq!(grid.get(0, 0), cell(MOVER, Direction::Right));
    assert_eq!(grid.get(1, 0), cell(PUSH, Direction::Right));
    assert_eq!(grid.get(2, 0), cell(MOVER, Direction::Left));
}

#[test]
fn mover_pushes_into_trash() {
    let mut grid = Grid::new(3, 1);
    grid.set(0, 0, Cell::new(MOVER, Direction::Right));
    grid.set(1, 0, Cell::new(PUSH, Direction::Right));
    grid.set(2, 0, Cell::new(TRASH, Direction::Right));
    update(&mut grid);
    assert_eq!(grid.get(0, 0), None);
    assert_eq!(grid.get(1, 0), cell(MOVER, Direction::Right));
    assert_eq!(grid.get(2, 0), cell(TRASH, Direction::Right));
}

#[test]
fn generator_reproduces_behind() {
    let mut grid = Grid::new(3, 1);
    grid.set(0, 0, Cell::new(PUSH, Direction::Right));
    grid.set(1, 0, Cell::new(GENERATOR, Direction::Right));
    update(&mut grid);
    assert_eq!(grid.get(0, 0), cell(PUSH, Direction::Right));
    assert_eq!(grid.get(1, 0), cell(GENERATOR, Direction::Right));
    assert_eq!(grid.get(2, 0), cell(PUSH, Direction::Right));
}

#[test]
fn rotator_cw_rotates_a_mover() {
    let mut grid = Grid::new(3, 3);
    grid.set(1, 1, Cell::new(ROTATOR_CW, Direction::Right));
    grid.set(2, 1, Cell::new(MOVER, Direction::Right));
    update(&mut grid);
    assert_eq!(grid.get(2, 1), None);
    assert_eq!(grid.get(2, 0), cell(MOVER, Direction::Down));
    assert!(grid.get(2, 0).unwrap().updated());
    assert_eq!(grid.get(1, 1), cell(ROTATOR_CW, Direction::Right));
}

#[test]
fn mover_facing_a_wall_stays_and_is_updated() {
    let mut grid = Grid::new(3, 1);
    grid.set(0, 0, Cell::new(MOVER, Direction::Right));
    grid.set(1, 0, Cell::new(WALL, Direction::Right));
    update(&mut grid);
    assert_eq!(grid.get(0, 0), cell(MOVER, Direction::Right));
    assert!(grid.get(0, 0).unwrap().updated());
    assert_eq!(grid.get(1, 0), cell(WALL, Direction::Right));
    assert_eq!(grid.get(2, 0), None);
}

#[test]
fn mover_facing_the_edge_stays_and_is_updated() {
    let mut grid = Grid::new(2, 1);
    grid.set(1, 0, Cell::new(MOVER, Direction::Right));
    update(&mut grid);
    assert_eq!(grid.get(1, 0), cell(MOVER, Direction::Right));
    assert!(grid.get(1, 0).unwrap().updated());
    assert_eq!(grid.get(0, 0), None);
}

#[test]
fn flags_are_cleared_when_the_next_tick_begins() {
    let mut grid = Grid::new(3, 1);
    grid.set(0, 0, Cell::new(MOVER, Direction::Right));
    grid.set(1, 0, Cell::new(WALL, Direction::Right));
    update(&mut grid);
    assert!(grid.get(0, 0).unwrap().updated());
    grid.set(0, 0, Cell::new(PUSH, Direction::Right));
    let mut marked = Cell::new(PUSH, Direction::Up);
    marked.set_updated(true);
    grid.set(2, 0, marked);
    update(&mut grid);
    assert!(!grid.get(0, 0).unwrap().updated());
    assert!(!grid.get(2, 0).unwrap().updated());
    assert_eq!(grid.tick_count(), 2);
}

#[test]
fn tick_on_an_empty_grid_changes_nothing() {
    let mut grid = Grid::new(4, 3);
    update(&mut grid);
    assert!(grid == Grid::new(4, 3));
    assert_eq!(grid.width(), 4);
    assert_eq!(grid.height(), 3);
    assert_eq!(grid.tick_count(), 1);
}
