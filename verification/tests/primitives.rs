use quell_machine::cell_data::{
    cell_data, sides, CELL_TYPE_COUNT, CROSSMIRROR, ENEMY, FIXED_PULLSHER, GHOST, MIRROR, MOVER,
    MOVLER, ONE_DIR, ORIENTATOR, PULLER, PUSH, SLIDE, SLIDE_WALL, SUCKER, TRASH, TRASHMOVER,
    TRASHPULLER, WALL,
};
use quell_machine::cells::{Cell, Grid, DEFAULT_GRID_HEIGHT, DEFAULT_GRID_WIDTH};
use quell_machine::direction::Direction;
use quell_machine::direction::Direction::{Down, Left, Right, Up};
use quell_machine::manipulation::{
    can_generate, can_move, can_rotate, is_pusher, is_trash, pull, push, rotate_by, rotate_to,
    MoveForce, PushResult,
};
use quell_machine::cell_data::MAILBOX;
use quell_machine::tools::{scale_tool, tool_covers, tool_size, tool_to_index, Tool};
use quell_machine::undo::{place_cell, CellUndoStack, UndoAction, UNDO_STACK_SIZE};

const ALL: [Direction; 4] = [Right, Down, Left, Up];

fn cell(id: u16, direction: Direction) -> Option<Cell> {
    Some(Cell::new(id, direction))
}

fn row(cells: &[Option<Cell>]) -> Grid {
    let mut grid = Grid::new(cells.len(), 1);
    for (x, c) in cells.iter().enumerate() {
        grid.set_cell(x as isize, 0, *c);
    }
    grid
}

#[test]
fn direction_arithmetic() {
    assert_eq!(Right.flip(), Left);
    assert_eq!(Down.flip(), Up);
    assert_eq!(Right.rotate_left(), Up);
    assert_eq!(Right.rotate_right(), Down);
    assert_eq!(Up.rotate_right(), Right);
    assert_eq!(Right.to_vector(), (1, 0));
    assert_eq!(Down.to_vector(), (0, -1));
    assert_eq!(Left.to_vector(), (-1, 0));
    assert_eq!(Up.to_vector(), (0, 1));
    assert_eq!(Left.shrink(2), Right);
    assert_eq!(Up.shrink(2), Down);
    assert_eq!(Up.shrink(1), Right);
    assert_eq!(Up.shrink(4), Up);
    assert_eq!(Up.shrink(3), Right);
    for d in ALL {
        assert_eq!(d.flip().flip(), d);
        assert_eq!(d.rotate_left().rotate_right(), d);
        assert_eq!(Direction::from_u8(d.to_u8()), d);
        let mut turned = d;
        for k in 0..12u8 {
            // (-k) mod 4 quarter turns clockwise.
            assert_eq!(turned, d + ((4 - k % 4) % 4));
            assert_eq!(turned, d - k);
            turned = turned.rotate_left();
        }
    }
}

#[test]
fn direction_conversions_and_operators() {
    assert_eq!(Direction::from(0u8), Right);
    assert_eq!(Direction::from(5u8), Down);
    assert_eq!(Direction::from(255u8), Up);
    assert_eq!(Direction::from(-1i32), Up);
    assert_eq!(Direction::from(-2i32), Left);
    assert_eq!(Direction::from(-3i32), Down);
    assert_eq!(Direction::from(-4i32), Right);
    assert_eq!(Direction::from(i32::MIN), Right);
    assert_eq!(Direction::from(6i32), Left);
    assert_eq!(Direction::from(7usize), Up);
    assert_eq!(Direction::from_i32(-5), Up);
    assert_eq!(Direction::from_usize(usize::MAX), Up);
    assert_eq!(u8::from(Left), 2);
    assert_eq!(i32::from(Up), 3);
    assert_eq!(usize::from(Down), 1);
    assert_eq!(Left + Up, Down);
    assert_eq!(Left + 255u8, Down);
    assert_eq!(Right - Down, Up);
    assert_eq!(Right - 200u8, Right);
    assert_eq!(Down - 3u8, Left);
    assert_eq!(Up % 2, Down);
    assert_eq!(Left.plus(Left), Right);
    assert_eq!(Left.minus(Up), Up);
    let mut d = Up;
    d += 2;
    assert_eq!(d, Down);
    d -= 1;
    assert_eq!(d, Right);
    assert_eq!(Right.name(), "Right");
    assert_eq!(Down.name(), "Down");
    assert_eq!(Left.name(), "Left");
    assert_eq!(Up.name(), "Up");
}

#[test]
fn catalog() {
    assert_eq!(CELL_TYPE_COUNT, 33);
    assert_eq!(WALL, 0);
    assert_eq!(MOVER, 1);
    assert_eq!(FIXED_PULLSHER, 32);
    let mover = cell_data(MOVER).unwrap();
    assert_eq!(mover.id, MOVER);
    assert_eq!(mover.name, "Mover");
    assert_eq!(mover.sides, 4);
    assert_eq!(mover.texture_name, "mover");
    assert_eq!(mover.description, "Pushes the cells in front of it.");
    for id in 0..CELL_TYPE_COUNT {
        let data = cell_data(id).unwrap();
        assert_eq!(data.id, id);
        assert!(data.sides == 1 || data.sides == 2 || data.sides == 4);
        assert_eq!(sides(id) as usize, data.sides);
    }
    assert!(cell_data(CELL_TYPE_COUNT).is_none());
    assert!(cell_data(u16::MAX).is_none());
    assert_eq!(sides(1000), 4);
    assert_eq!(sides(WALL), 1);
    assert_eq!(sides(SLIDE), 2);
}

#[test]
fn cells() {
    let mut c = Cell::new(MOVER, Up);
    assert_eq!(c.id(), MOVER);
    assert_eq!(c.direction(), Up);
    assert!(!c.updated());
    assert_eq!(c.contained_cell, None);
    c.set_updated(true);
    assert!(c.updated());
    assert!(c == Cell::new(MOVER, Up));
    assert!(!c.copy().updated());
    c.set_direction(Left);
    assert!(c != Cell::new(MOVER, Up));
    assert!(c == Cell::new(MOVER, Left));
    assert!(Cell::new(MOVER, Up) != Cell::new(PULLER, Up));
    let mut holding = Cell::new(MOVER, Left);
    holding.contained_cell = Some((PUSH, Up));
    assert!(holding != Cell::new(MOVER, Left));
    assert_eq!(holding.copy().contained_cell, Some((PUSH, Up)));
}

#[test]
fn looks_like_goes_by_the_symmetry_of_the_type() {
    assert!(Cell::new(WALL, Up).looks_like(&Cell::new(WALL, Left)));
    assert!(Cell::new(SLIDE, Right).looks_like(&Cell::new(SLIDE, Left)));
    assert!(Cell::new(SLIDE, Up).looks_like(&Cell::new(SLIDE, Down)));
    assert!(!Cell::new(SLIDE, Up).looks_like(&Cell::new(SLIDE, Left)));
    assert!(Cell::new(MOVER, Up).looks_like(&Cell::new(MOVER, Up)));
    assert!(!Cell::new(MOVER, Up).looks_like(&Cell::new(MOVER, Down)));
    assert!(!Cell::new(WALL, Up).looks_like(&Cell::new(GHOST, Up)));
    assert!(Cell::new(1000, Up).looks_like(&Cell::new(1000, Up)));
    assert!(!Cell::new(1000, Up).looks_like(&Cell::new(1000, Down)));
}

#[test]
fn get_after_set() {
    let mut grid = Grid::new(4, 3);
    for y in 0..3 {
        for x in 0..4 {
            for d in ALL {
                let c = Cell::new((x + 4 * y) as u16, d);
                grid.set(x, y, c);
                assert_eq!(grid.get(x, y), Some(c));
                assert_eq!(*grid.get_unchecked(x, y), Some(c));
            }
        }
    }
    assert_eq!(grid.get(3, 2), cell(11, Up));
    assert_eq!(grid.get(0, 0), cell(0, Up));
}

#[test]
fn outside_the_grid_all_is_empty_and_nothing_is_written() {
    let mut grid = Grid::new(2, 2);
    grid.set(0, 0, Cell::new(PUSH, Up));
    let before = grid.snapshot();
    for (x, y) in [(-1, 0), (0, -1), (2, 0), (0, 2), (isize::MAX, 0), (0, isize::MIN)] {
        assert!(!grid.is_in_bounds(x, y));
        assert_eq!(grid.get(x, y), None);
        grid.set(x, y, Cell::new(WALL, Up));
        grid.set_cell(x, y, cell(WALL, Up));
        grid.delete(x, y);
        assert_eq!(grid.take(x, y), None);
        assert!(grid.get_mut(x, y).is_none());
        assert!(grid == before);
    }
    assert!(grid.is_in_bounds(1, 1));
    assert!(!grid.try_set(4, cell(WALL, Up)));
    assert!(grid == before);
}

#[test]
fn grid_operations() {
    assert_eq!(DEFAULT_GRID_WIDTH, 100);
    assert_eq!(DEFAULT_GRID_HEIGHT, 100);
    let mut grid = Grid::new_const(3, 2);
    grid.init();
    assert!(grid == Grid::new(3, 2));
    assert_eq!(grid.width(), 3);
    assert_eq!(grid.height(), 2);
    assert_eq!(grid.tick_count(), 0);
    assert!(grid.try_set(4, cell(PUSH, Up)));
    assert_eq!(grid.get(1, 1), cell(PUSH, Up));
    assert_eq!(grid.take(1, 1), cell(PUSH, Up));
    assert_eq!(grid.get(1, 1), None);
    grid.set(2, 0, Cell::new(MOVER, Left));
    grid.delete(2, 0);
    assert_eq!(grid.get(2, 0), None);
    grid.set(2, 1, Cell::new(MOVER, Left));
    if let Some(found) = grid.get_mut(2, 1) {
        found.set_direction(Down);
        found.set_updated(true);
    }
    assert_eq!(grid.get(2, 1), cell(MOVER, Down));
    assert!(grid.get(2, 1).unwrap().updated());
    assert!(grid.get_mut(0, 0).is_none());
    let squares = grid.to_vec();
    assert_eq!(squares, vec![None, None, None, None, None, cell(MOVER, Down)]);
    assert!(Grid::from_squares(3, 2, squares) == grid);
    let mut seen = Vec::new();
    grid.for_each(|x, y, c| seen.push((x, y, c.copied())));
    assert_eq!(
        seen,
        vec![
            (0, 0, None),
            (1, 0, None),
            (2, 0, None),
            (0, 1, None),
            (1, 1, None),
            (2, 1, cell(MOVER, Down))
        ]
    );
    let present = grid.present_types();
    assert_eq!(present.len(), 33);
    for id in 0..33u16 {
        assert_eq!(present[id as usize], id == MOVER);
    }
    grid.clear_updated();
    assert!(!grid.get(2, 1).unwrap().updated());
    grid.count_tick();
    assert_eq!(grid.tick_count(), 1);
    assert!(grid.snapshot() == grid);
    assert_eq!(grid.snapshot().tick_count(), 1);
}

#[test]
fn grid_equality() {
    let mut a = Grid::new(2, 2);
    let mut b = Grid::new(2, 2);
    assert!(a == b);
    let mut marked = Cell::new(SLIDE, Left);
    marked.set_updated(true);
    a.set(1, 0, marked);
    assert!(a != b);
    assert!(!a.has_same_cells(&b));
    b.set(1, 0, Cell::new(SLIDE, Right));
    assert!(a != b);
    assert!(a.has_same_cells(&b));
    b.set(1, 0, Cell::new(SLIDE, Left));
    b.count_tick();
    assert!(a == b);
    assert!(Grid::new(2, 2) != Grid::new(4, 1));
    assert!(Grid::new(2, 2) != Grid::new(2, 3));
    assert!(Grid::new(1, 1).has_same_cells(&Grid::new(2, 2)));
    assert!(!a.has_same_cells(&Grid::new(1, 1)));
}

#[test]
fn who_yields() {
    for d in ALL {
        for f in [MoveForce::Push, MoveForce::Pull, MoveForce::Swap] {
            for face in ALL {
                assert!(!can_move(&Cell::new(WALL, face), d, f));
                assert!(!can_move(&Cell::new(GHOST, face), d, f));
                assert!(can_move(&Cell::new(PUSH, face), d, f));
                assert!(can_move(&Cell::new(MOVER, face), d, f));
                let same_axis = face.shrink(2) == d.shrink(2);
                assert_eq!(can_move(&Cell::new(SLIDE, face), d, f), same_axis);
                assert_eq!(can_move(&Cell::new(SLIDE_WALL, face), d, f), same_axis);
                assert_eq!(can_move(&Cell::new(ONE_DIR, face), d, f), face == d);
                assert_eq!(
                    can_move(&Cell::new(MIRROR, face), d, f),
                    !(f == MoveForce::Swap && same_axis)
                );
                assert_eq!(can_move(&Cell::new(CROSSMIRROR, face), d, f), f != MoveForce::Swap);
                let mut marked = Cell::new(SLIDE, face);
                marked.set_updated(true);
                marked.contained_cell = Some((PUSH, Up));
                assert_eq!(can_move(&marked, d, f), can_move(&Cell::new(SLIDE, face), d, f));
            }
        }
    }
}

#[test]
fn who_consumes() {
    for d in ALL {
        for face in ALL {
            assert!(is_trash(&Cell::new(TRASH, face), d));
            assert!(is_trash(&Cell::new(ENEMY, face), d));
            assert!(!is_trash(&Cell::new(PUSH, face), d));
            assert!(!is_trash(&Cell::new(MOVER, face), d));
            assert_eq!(is_trash(&Cell::new(TRASHMOVER, face), d), face == d.flip());
            assert_eq!(is_trash(&Cell::new(SUCKER, face), d), face == d.flip());
            assert_eq!(is_trash(&Cell::new(TRASHPULLER, face), d), face == d);
        }
    }
    assert!(can_generate(&Cell::new(PUSH, Up)));
    assert!(can_generate(&Cell::new(WALL, Up)));
    assert!(!can_generate(&Cell::new(GHOST, Up)));
    assert!(is_pusher(MOVER));
    assert!(is_pusher(PULLER));
    assert!(is_pusher(MOVLER));
    assert!(is_pusher(TRASHMOVER));
    assert!(!is_pusher(PUSH));
    assert!(!is_pusher(TRASHPULLER));
}

#[test]
fn who_turns() {
    for side in ALL {
        for face in ALL {
            assert!(!can_rotate(&Cell::new(WALL, face), side));
            assert!(!can_rotate(&Cell::new(GHOST, face), side));
            assert!(!can_rotate(&Cell::new(ORIENTATOR, face), side));
            assert!(can_rotate(&Cell::new(PUSH, face), side));
            assert!(can_rotate(&Cell::new(SLIDE, face), side));
            assert_eq!(
                can_rotate(&Cell::new(SLIDE_WALL, face), side),
                face.shrink(2) == side.shrink(2)
            );
        }
    }
}

#[test]
fn push_results() {
    assert!(PushResult::Moved.did_move());
    assert!(PushResult::Trashed.did_move());
    assert!(!PushResult::NotMoved.did_move());
    assert!(PushResult::Moved.did_move_survive());
    assert!(!PushResult::Trashed.did_move_survive());
    assert!(!PushResult::NotMoved.did_move_survive());
}

#[test]
fn push_moves_a_row() {
    let mut grid = row(&[cell(PUSH, Up), cell(SLIDE, Right), None, cell(PUSH, Down)]);
    assert_eq!(push(&mut grid, 0, 0, Right, 1, None, false), PushResult::Moved);
    assert!(grid == row(&[None, cell(PUSH, Up), cell(SLIDE, Right), cell(PUSH, Down)]));
    assert_eq!(push(&mut grid, 1, 0, Right, 1, cell(WALL, Up), false), PushResult::NotMoved);
    assert!(grid == row(&[None, cell(PUSH, Up), cell(SLIDE, Right), cell(PUSH, Down)]));
    assert_eq!(push(&mut grid, 3, 0, Left, 1, cell(WALL, Up), false), PushResult::Moved);
    assert!(grid == row(&[cell(PUSH, Up), cell(SLIDE, Right), cell(PUSH, Down), cell(WALL, Up)]));
    // On an empty square the replacement is put down.
    let mut grid = row(&[None, None]);
    assert_eq!(push(&mut grid, 0, 0, Right, 1, cell(PUSH, Up), false), PushResult::Moved);
    assert!(grid == row(&[cell(PUSH, Up), None]));
    assert_eq!(push(&mut grid, 5, 0, Right, 1, cell(PUSH, Up), false), PushResult::NotMoved);
    assert_eq!(push(&mut grid, -1, 0, Right, 1, cell(PUSH, Up), false), PushResult::NotMoved);
    assert!(grid == row(&[cell(PUSH, Up), None]));
}

#[test]
fn push_is_blocked() {
    for blocker in [cell(WALL, Up), cell(GHOST, Up), cell(SLIDE, Up), cell(ONE_DIR, Left)] {
        let mut grid = row(&[cell(PUSH, Up), blocker, None]);
        let before = grid.snapshot();
        assert_eq!(push(&mut grid, 0, 0, Right, 1, None, true), PushResult::NotMoved);
        assert!(grid == before);
    }
    // The edge of the grid blocks.
    let mut grid = row(&[cell(PUSH, Up), cell(PUSH, Up)]);
    assert_eq!(push(&mut grid, 0, 0, Right, 5, None, true), PushResult::NotMoved);
    // Without force nothing moves, and a mover against the push uses it up.
    let mut grid = row(&[cell(PUSH, Up), None]);
    assert_eq!(push(&mut grid, 0, 0, Right, 0, None, true), PushResult::NotMoved);
    let mut grid = row(&[cell(PUSH, Up), cell(MOVER, Left), None]);
    assert_eq!(push(&mut grid, 0, 0, Right, 1, None, true), PushResult::NotMoved);
    assert_eq!(push(&mut grid, 0, 0, Right, 2, None, true), PushResult::Moved);
    assert!(grid == row(&[None, cell(PUSH, Up), cell(MOVER, Left)]));
    let mut grid = row(&[cell(MOVER, Left), None]);
    assert_eq!(push(&mut grid, 0, 0, Right, 0, None, true), PushResult::NotMoved);
    // A mover along the push adds to it.
    let mut grid = row(&[cell(MOVER, Right), cell(MOVER, Left), cell(MOVER, Right), None]);
    assert_eq!(push(&mut grid, 0, 0, Right, 0, None, true), PushResult::NotMoved);
    let mut grid = row(&[cell(MOVER, Right), cell(MOVER, Right), cell(MOVER, Left), None]);
    assert_eq!(push(&mut grid, 0, 0, Right, 0, None, true), PushResult::Moved);
    assert!(grid == row(&[None, cell(MOVER, Right), cell(MOVER, Right), cell(MOVER, Left)]));
}

#[test]
fn push_marks_the_pushers_it_carries() {
    let mut grid = row(&[cell(MOVER, Right), cell(MOVER, Up), cell(PULLER, Right), None]);
    assert_eq!(push(&mut grid, 0, 0, Right, 0, None, true), PushResult::Moved);
    assert!(grid.get(1, 0).unwrap().updated());
    assert!(!grid.get(2, 0).unwrap().updated());
    assert!(grid.get(3, 0).unwrap().updated());
    let mut grid = row(&[cell(MOVER, Right), None]);
    assert_eq!(push(&mut grid, 0, 0, Right, 0, None, false), PushResult::Moved);
    assert!(!grid.get(1, 0).unwrap().updated());
}

#[test]
fn push_into_what_consumes() {
    let mut grid = row(&[cell(PUSH, Up), cell(PUSH, Down), cell(TRASH, Up), None]);
    assert_eq!(push(&mut grid, 0, 0, Right, 1, None, false), PushResult::Moved);
    assert!(grid == row(&[None, cell(PUSH, Up), cell(TRASH, Up), None]));
    assert_eq!(push(&mut grid, 2, 0, Right, 1, cell(PUSH, Up), false), PushResult::Trashed);
    assert!(grid == row(&[None, cell(PUSH, Up), cell(TRASH, Up), None]));
    let mut grid = row(&[cell(PUSH, Up), cell(PUSH, Down), cell(ENEMY, Up), None]);
    assert_eq!(push(&mut grid, 0, 0, Right, 1, None, false), PushResult::Trashed);
    assert!(grid == row(&[None, cell(PUSH, Up), None, None]));
    let mut grid = row(&[cell(ENEMY, Up), None]);
    assert_eq!(push(&mut grid, 0, 0, Right, 1, cell(PUSH, Up), false), PushResult::Trashed);
    assert!(grid == row(&[None, None]));
    // A sucker consumes at its mouth, a trash puller at its back.
    let mut grid = row(&[cell(PUSH, Up), cell(SUCKER, Left)]);
    assert_eq!(push(&mut grid, 0, 0, Right, 1, None, false), PushResult::Moved);
    assert!(grid == row(&[None, cell(SUCKER, Left)]));
    let mut grid = row(&[cell(PUSH, Up), cell(SUCKER, Right), None]);
    assert_eq!(push(&mut grid, 0, 0, Right, 1, None, false), PushResult::Moved);
    assert!(grid == row(&[None, cell(PUSH, Up), cell(SUCKER, Right)]));
    let mut grid = row(&[cell(PUSH, Up), cell(TRASHPULLER, Right), None]);
    assert_eq!(push(&mut grid, 0, 0, Right, 1, None, false), PushResult::Moved);
    assert!(grid == row(&[None, cell(TRASHPULLER, Right), None]));
}

#[test]
fn push_up_and_down() {
    let mut grid = Grid::new(1, 3);
    grid.set(0, 0, Cell::new(PUSH, Up));
    assert_eq!(push(&mut grid, 0, 0, Up, 1, None, false), PushResult::Moved);
    assert_eq!(grid.get(0, 1), cell(PUSH, Up));
    assert_eq!(push(&mut grid, 0, 1, Up, 1, None, false), PushResult::Moved);
    assert_eq!(push(&mut grid, 0, 2, Up, 1, None, false), PushResult::NotMoved);
    assert_eq!(push(&mut grid, 0, 2, Down, 1, None, false), PushResult::Moved);
    assert_eq!(grid.get(0, 1), cell(PUSH, Up));
    assert_eq!(grid.get(0, 2), None);
}

#[test]
fn pull_draws_a_row() {
    let mut grid = row(&[cell(PUSH, Up), cell(PUSH, Down), None]);
    pull(&mut grid, 1, 0, Right);
    assert!(grid == row(&[None, cell(PUSH, Up), cell(PUSH, Down)]));
    // What does not yield stays, with all behind it.
    let mut grid = row(&[cell(PUSH, Up), cell(WALL, Up), cell(PUSH, Down), None]);
    pull(&mut grid, 2, 0, Right);
    assert!(grid == row(&[cell(PUSH, Up), cell(WALL, Up), None, cell(PUSH, Down)]));
    // What is ahead is overwritten, unless it consumes.
    let mut grid = row(&[cell(PUSH, Up), cell(PUSH, Down), cell(SLIDE, Up)]);
    pull(&mut grid, 1, 0, Right);
    assert!(grid == row(&[None, cell(PUSH, Up), cell(PUSH, Down)]));
    let mut grid = row(&[cell(PUSH, Up), cell(PUSH, Down), cell(ENEMY, Up)]);
    pull(&mut grid, 1, 0, Right);
    assert!(grid == row(&[None, cell(PUSH, Up), None]));
    let mut grid = row(&[cell(PUSH, Up), cell(PUSH, Down), cell(TRASH, Up)]);
    pull(&mut grid, 1, 0, Right);
    assert!(grid == row(&[None, cell(PUSH, Up), cell(TRASH, Up)]));
    // Over the edge a cell is lost.
    let mut grid = row(&[cell(PUSH, Up), cell(PUSH, Down)]);
    pull(&mut grid, 1, 0, Right);
    assert!(grid == row(&[None, cell(PUSH, Up)]));
    let mut grid = row(&[cell(PUSH, Up), cell(PUSH, Down)]);
    pull(&mut grid, 2, 0, Right);
    pull(&mut grid, -1, 0, Left);
    assert!(grid == row(&[cell(PUSH, Up), cell(PUSH, Down)]));
}

#[test]
fn pull_counts_the_force() {
    // One mover against the pull uses the force up.
    let mut grid = row(&[cell(PUSH, Up), cell(MOVER, Left), cell(PUSH, Down), None]);
    pull(&mut grid, 2, 0, Right);
    assert!(grid == row(&[cell(PUSH, Up), cell(MOVER, Left), None, cell(PUSH, Down)]));
    // A puller along the pull adds to it, and is marked.
    let mut grid = row(&[cell(PUSH, Up), cell(MOVER, Left), cell(PULLER, Right), None]);
    pull(&mut grid, 2, 0, Right);
    assert!(grid == row(&[None, cell(PUSH, Up), cell(MOVER, Left), cell(PULLER, Right)]));
    assert!(grid.get(3, 0).unwrap().updated());
    assert!(!grid.get(2, 0).unwrap().updated());
    // A trash mover along the pull consumes what comes from behind: it stays,
    // but is marked.
    let mut grid = row(&[cell(PUSH, Up), cell(TRASHMOVER, Right), None]);
    pull(&mut grid, 1, 0, Right);
    assert!(grid == row(&[cell(PUSH, Up), cell(TRASHMOVER, Right), None]));
    assert!(grid.get(1, 0).unwrap().updated());
}

#[test]
fn rotation() {
    let mut grid = row(&[cell(PUSH, Up), cell(WALL, Up), None]);
    assert!(rotate_by(&mut grid, 0, 0, Down, Left));
    assert_eq!(grid.get(0, 0), cell(PUSH, Right));
    assert!(rotate_by(&mut grid, 0, 0, Left, Left));
    assert_eq!(grid.get(0, 0), cell(PUSH, Left));
    assert!(rotate_to(&mut grid, 0, 0, Down, Up));
    assert_eq!(grid.get(0, 0), cell(PUSH, Down));
    assert!(!rotate_by(&mut grid, 1, 0, Down, Left));
    assert!(!rotate_to(&mut grid, 1, 0, Down, Left));
    assert_eq!(grid.get(1, 0), cell(WALL, Up));
    assert!(!rotate_by(&mut grid, 2, 0, Down, Left));
    assert!(!rotate_to(&mut grid, 9, 9, Down, Left));
    assert!(grid == row(&[cell(PUSH, Down), cell(WALL, Up), None]));
}

#[test]
fn tools() {
    let mut tool = Tool::Place;
    assert_eq!(tool_to_index(tool), 0);
    scale_tool(&mut tool, 2);
    assert_eq!(tool, Tool::Rect(3));
    assert_eq!(tool_to_index(tool), 1);
    scale_tool(&mut tool, 2);
    assert_eq!(tool, Tool::Rect(5));
    scale_tool(&mut tool, -4);
    assert_eq!(tool, Tool::Place);
    let mut tool = Tool::Circle(5);
    assert_eq!(tool_to_index(tool), 2);
    scale_tool(&mut tool, -2);
    assert_eq!(tool, Tool::Circle(3));
    scale_tool(&mut tool, -7);
    assert_eq!(tool, Tool::Place);
    scale_tool(&mut tool, 0);
    assert_eq!(tool, Tool::Place);
    scale_tool(&mut tool, -1);
    assert_eq!(tool, Tool::Place);
}

#[test]
fn undo() {
    assert_eq!(UNDO_STACK_SIZE, 20);
    let mut grid = row(&[cell(PUSH, Up), None, cell(WALL, Up)]);
    let before = grid.snapshot();
    let mut action = UndoAction::new();
    action.insert((0, 0), grid.get(0, 0));
    grid.set(0, 0, Cell::new(MOVER, Up));
    action.insert((1, 0), grid.get(1, 0));
    grid.set(1, 0, Cell::new(MOVER, Up));
    // A second note for one square replaces the first.
    action.insert((1, 0), None);
    action.insert((7, 7), cell(WALL, Up));
    action.undo_on(&mut grid);
    assert!(grid == before);

    let mut stack = CellUndoStack::new();
    assert_eq!(stack.len(), 0);
    assert!(stack.pop().is_none());
    for i in 0..25 {
        stack.start();
        stack.insert(0, 0, cell(i as u16, Up));
        stack.insert(0, 0, cell(i as u16, Down));
    }
    assert_eq!(stack.len(), 20);
    let mut grid = Grid::new(1, 1);
    for i in (5..25).rev() {
        let action = stack.pop().unwrap();
        action.undo_on(&mut grid);
        assert_eq!(grid.get(0, 0), cell(i as u16, Down));
    }
    assert!(stack.pop().is_none());
}

#[test]
fn what_a_tool_covers() {
    assert_eq!(tool_size(Tool::Place), 1);
    assert_eq!(tool_size(Tool::Rect(4)), 4);
    assert_eq!(tool_size(Tool::Circle(7)), 7);
    assert!(tool_covers(Tool::Place, 0, 0));
    for oy in 0..4 {
        for ox in 0..4 {
            assert!(tool_covers(Tool::Rect(4), ox, oy));
        }
    }
    let disc: Vec<String> = (0..5)
        .map(|oy| {
            (0..5).map(|ox| if tool_covers(Tool::Circle(5), ox, oy) { '#' } else { '.' }).collect()
        })
        .collect();
    assert_eq!(disc, vec![".###.", "#####", "#####", "#####", ".###."]);
    // The same in floating point: the centre of the square lies within half
    // a square more than half the diameter of the centre of the box.
    for d in 1..40isize {
        let real_half = (d / 2) as f32 + 0.5;
        for oy in 0..d {
            for ox in 0..d {
                let x_dist = ox as f32 + 0.5 - real_half;
                let y_dist = oy as f32 + 0.5 - real_half;
                let inside = x_dist * x_dist + y_dist * y_dist <= real_half * real_half;
                assert_eq!(tool_covers(Tool::Circle(d), ox, oy), inside);
            }
        }
    }
    assert!(tool_covers(Tool::Circle(isize::MAX), isize::MAX - 1, isize::MAX / 2));
    assert!(!tool_covers(Tool::Circle(isize::MAX), isize::MAX - 1, isize::MAX - 1));
}

#[test]
fn placing_cells() {
    let mut grid = row(&[cell(PUSH, Up), cell(MAILBOX, Left), None]);
    let mut stack = CellUndoStack::new();
    stack.start();
    // The same cell again changes nothing and is not noted.
    assert!(!place_cell(&mut grid, &mut stack, 0, 0, cell(PUSH, Up)));
    assert!(!place_cell(&mut grid, &mut stack, 2, 0, None));
    assert!(!place_cell(&mut grid, &mut stack, 3, 0, cell(PUSH, Up)));
    assert!(!place_cell(&mut grid, &mut stack, 0, -1, cell(PUSH, Up)));
    assert!(place_cell(&mut grid, &mut stack, 0, 0, cell(MOVER, Up)));
    assert!(place_cell(&mut grid, &mut stack, 2, 0, cell(MOVER, Down)));
    assert!(place_cell(&mut grid, &mut stack, 2, 0, None));
    // A cell on a mailbox goes into the mailbox.
    assert!(place_cell(&mut grid, &mut stack, 1, 0, cell(MOVER, Up)));
    let mailbox = grid.get(1, 0).unwrap();
    assert_eq!(mailbox.id(), MAILBOX);
    assert_eq!(mailbox.direction(), Left);
    assert_eq!(mailbox.contained_cell, Some((MOVER, Down)));
    assert!(!place_cell(&mut grid, &mut stack, 1, 0, cell(MOVER, Up)));
    assert!(place_cell(&mut grid, &mut stack, 1, 0, cell(MAILBOX, Up)));
    assert_eq!(grid.get(1, 0), cell(MAILBOX, Up));
    assert!(grid == row(&[cell(MOVER, Up), cell(MAILBOX, Up), None]));
    let action = stack.pop().unwrap();
    action.undo_on(&mut grid);
    // The latest note for a square is the one that is written back.
    let mut filled = Cell::new(MAILBOX, Left);
    filled.contained_cell = Some((MOVER, Down));
    assert_eq!(grid.get(0, 0), cell(PUSH, Up));
    assert_eq!(grid.get(1, 0), Some(filled));
    assert_eq!(grid.get(2, 0), cell(MOVER, Down));
}
