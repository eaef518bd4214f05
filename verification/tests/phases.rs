use quell_machine::cell_data::{
    CROSSMIRROR, ENEMY, FIXED_PULLSHER, GENERATOR_CCW, GENERATOR_CROSS, GENERATOR_CW, GHOST,
    MAILBOX, MIRROR, MOVER, ORIENTATOR, PHYSICAL_GENERATOR, POSTOFFICE, PULLER, PULLSHER, PUSH,
    REPLICATOR, ROTATOR_180, ROTATOR_CCW, SLIDE, SPEED, STONE, SUCKER, TRASH, TRASHMOVER,
    TRASHPULLER, TUNNEL, WALL,
};
use quell_machine::cells::{Cell, Grid};
use quell_machine::direction::Direction;
use quell_machine::direction::Direction::{Down, Left, Right, Up};
use quell_machine::update::{
    begin_update, directional, do_movers, do_rotators, phase_of, publish, rest_after, run_phase,
    update, Phase, PHASE_COUNT, TICK_MILLIS,
};

fn cell(id: u16, direction: Direction) -> Option<Cell> {
    Some(Cell::new(id, direction))
}

fn row(cells: &[Option<Cell>]) -> Grid {
    let mut grid = Grid::new(cells.len(), 1);
    for (x, c) in cells.iter().enumerate() {
        grid.set_cell(x as isize, 0, *c);
    }
    grid
}

fn ticked(mut grid: Grid) -> Grid {
    update(&mut grid);
    grid
}

#[test]
fn two_movers_in_a_row_both_step() {
    let after = ticked(row(&[cell(MOVER, Right), cell(MOVER, Right), None]));
    assert!(after == row(&[None, cell(MOVER, Right), cell(MOVER, Right)]));
    let after = ticked(row(&[None, cell(MOVER, Left), cell(MOVER, Left)]));
    assert!(after == row(&[cell(MOVER, Left), cell(MOVER, Left), None]));
}

#[test]
fn movers_up_and_down() {
    let mut grid = Grid::new(2, 3);
    grid.set(0, 0, Cell::new(MOVER, Up));
    grid.set(0, 1, Cell::new(MOVER, Up));
    grid.set(1, 2, Cell::new(MOVER, Down));
    grid.set(1, 1, Cell::new(MOVER, Down));
    update(&mut grid);
    let mut expected = Grid::new(2, 3);
    expected.set(0, 1, Cell::new(MOVER, Up));
    expected.set(0, 2, Cell::new(MOVER, Up));
    expected.set(1, 1, Cell::new(MOVER, Down));
    expected.set(1, 0, Cell::new(MOVER, Down));
    assert!(grid == expected);
}

#[test]
fn mover_runs_into_an_enemy() {
    let after = ticked(row(&[cell(MOVER, Right), cell(ENEMY, Right), None]));
    assert!(after == row(&[None, None, None]));
}

#[test]
fn mirror_swaps_its_neighbours() {
    let after = ticked(row(&[cell(PUSH, Up), cell(MIRROR, Right), None]));
    assert!(after == row(&[None, cell(MIRROR, Right), cell(PUSH, Up)]));
    let after = ticked(row(&[cell(PUSH, Up), cell(MIRROR, Left), cell(SLIDE, Right)]));
    assert!(after == row(&[cell(SLIDE, Right), cell(MIRROR, Left), cell(PUSH, Up)]));
    // A wall is not swapped, nor a slide across its axis.
    let blocked = row(&[cell(PUSH, Up), cell(MIRROR, Right), cell(WALL, Right)]);
    assert!(ticked(blocked.snapshot()) == blocked);
    let blocked = row(&[cell(PUSH, Up), cell(MIRROR, Right), cell(SLIDE, Up)]);
    assert!(ticked(blocked.snapshot()) == blocked);
    // A mirror that stands upright swaps nothing in a row.
    let upright = row(&[cell(PUSH, Up), cell(MIRROR, Down), None]);
    assert!(ticked(upright.snapshot()) == upright);
}

#[test]
fn mirror_swaps_vertically() {
    let mut grid = Grid::new(1, 3);
    grid.set(0, 0, Cell::new(PUSH, Right));
    grid.set(0, 1, Cell::new(MIRROR, Up));
    update(&mut grid);
    assert_eq!(grid.get(0, 0), None);
    assert_eq!(grid.get(0, 1), cell(MIRROR, Up));
    assert_eq!(grid.get(0, 2), cell(PUSH, Right));
    assert!(grid.get(0, 1).unwrap().updated());
}

#[test]
fn mirrors_do_not_swap_each_other_along_their_axis() {
    let facing = row(&[None, cell(MIRROR, Right), cell(MIRROR, Right)]);
    let after = ticked(facing.snapshot());
    // The first mirror may not swap the second, the second swaps the first.
    assert!(after == row(&[None, cell(MIRROR, Right), cell(MIRROR, Right)]));
}

#[test]
fn crossmirror_swaps_both_ways() {
    let mut grid = Grid::new(3, 3);
    grid.set(1, 1, Cell::new(CROSSMIRROR, Right));
    grid.set(0, 1, Cell::new(PUSH, Right));
    grid.set(1, 0, Cell::new(SLIDE, Up));
    update(&mut grid);
    let mut expected = Grid::new(3, 3);
    expected.set(1, 1, Cell::new(CROSSMIRROR, Right));
    expected.set(2, 1, Cell::new(PUSH, Right));
    expected.set(1, 2, Cell::new(SLIDE, Up));
    assert!(grid == expected);
}

#[test]
fn tunnel_carries_over() {
    let after = ticked(row(&[cell(PUSH, Up), cell(TUNNEL, Right), None, None]));
    assert!(after == row(&[None, cell(TUNNEL, Right), cell(PUSH, Up), None]));
    let after = ticked(row(&[cell(PUSH, Up), cell(TUNNEL, Right), cell(SLIDE, Right), None]));
    assert!(after == row(&[None, cell(TUNNEL, Right), cell(PUSH, Up), cell(SLIDE, Right)]));
    let blocked = row(&[cell(PUSH, Up), cell(TUNNEL, Right), cell(WALL, Right), None]);
    assert!(ticked(blocked.snapshot()) == blocked);
    let unmoved = row(&[cell(WALL, Up), cell(TUNNEL, Right), None, None]);
    assert!(ticked(unmoved.snapshot()) == unmoved);
}

#[test]
fn fixed_pullsher_carries_over_and_pulls() {
    let after = ticked(
        row(&[cell(SLIDE, Right), cell(PUSH, Up), cell(FIXED_PULLSHER, Right), None, None]),
    );
    assert!(
        after
            == row(&[None, cell(SLIDE, Right), cell(FIXED_PULLSHER, Right), cell(PUSH, Up), None])
    );
}

#[test]
fn sucker_draws_in_and_consumes() {
    let after = ticked(row(&[cell(SUCKER, Right), cell(PUSH, Up), cell(PUSH, Down), None]));
    assert!(after == row(&[cell(SUCKER, Right), cell(PUSH, Down), None, None]));
}

#[test]
fn generator_does_not_copy_a_ghost() {
    let grid = row(&[cell(GHOST, Right), cell(quell_machine::cell_data::GENERATOR, Right), None]);
    assert!(ticked(grid.snapshot()) == grid);
}

#[test]
fn generator_copies_without_the_flag() {
    let mut grid = Grid::new(3, 1);
    let mut marked = Cell::new(PUSH, Left);
    marked.set_updated(true);
    grid.set(0, 0, marked);
    grid.set(1, 0, Cell::new(quell_machine::cell_data::GENERATOR, Right));
    update(&mut grid);
    assert_eq!(grid.get(2, 0), cell(PUSH, Left));
    assert!(!grid.get(2, 0).unwrap().updated());
}

#[test]
fn angled_generators_turn_the_copy() {
    let mut grid = Grid::new(3, 3);
    grid.set(0, 1, Cell::new(PUSH, Right));
    grid.set(1, 1, Cell::new(GENERATOR_CW, Right));
    update(&mut grid);
    let mut expected = Grid::new(3, 3);
    expected.set(0, 1, Cell::new(PUSH, Right));
    expected.set(1, 1, Cell::new(GENERATOR_CW, Right));
    expected.set(1, 0, Cell::new(PUSH, Down));
    assert!(grid == expected);

    let mut grid = Grid::new(3, 3);
    grid.set(0, 1, Cell::new(GHOST, Right));
    grid.set(1, 1, Cell::new(GENERATOR_CCW, Right));
    update(&mut grid);
    let mut expected = Grid::new(3, 3);
    expected.set(0, 1, Cell::new(GHOST, Right));
    expected.set(1, 1, Cell::new(GENERATOR_CCW, Right));
    expected.set(1, 2, Cell::new(GHOST, Up));
    assert!(grid == expected);
}

#[test]
fn cross_generator_copies_twice() {
    let mut grid = Grid::new(3, 3);
    grid.set(0, 1, Cell::new(PUSH, Right));
    grid.set(1, 0, Cell::new(SLIDE, Up));
    grid.set(1, 1, Cell::new(GENERATOR_CROSS, Right));
    update(&mut grid);
    let mut expected = grid.snapshot();
    expected.set(2, 1, Cell::new(PUSH, Right));
    expected.set(1, 2, Cell::new(SLIDE, Up));
    assert!(grid == expected);
    assert_eq!(grid.get(2, 1), cell(PUSH, Right));
    assert_eq!(grid.get(1, 2), cell(SLIDE, Up));
}

#[test]
fn physical_generator_recoils() {
    let open = ticked(row(&[None, cell(PUSH, Up), cell(PHYSICAL_GENERATOR, Right), None]));
    assert!(
        open == row(&[None, cell(PUSH, Up), cell(PHYSICAL_GENERATOR, Right), cell(PUSH, Up)])
    );
    let after = ticked(
        row(&[None, cell(PUSH, Up), cell(PHYSICAL_GENERATOR, Right), cell(WALL, Right)]),
    );
    assert!(
        after
            == row(
                &[cell(PUSH, Up), cell(PHYSICAL_GENERATOR, Right), cell(PUSH, Up), cell(WALL, Right)]
            )
    );
}

#[test]
fn replicator_doubles_what_is_ahead() {
    let after = ticked(row(&[cell(REPLICATOR, Right), cell(PUSH, Up), None]));
    assert!(after == row(&[cell(REPLICATOR, Right), cell(PUSH, Up), cell(PUSH, Up)]));
}

#[test]
fn post_office_fills_the_mailbox_and_the_mailbox_moves() {
    let mut grid = row(&[cell(PUSH, Up), cell(POSTOFFICE, Right), cell(MAILBOX, Right), None]);
    update(&mut grid);
    assert_eq!(grid.get(0, 0), None);
    assert_eq!(grid.get(1, 0), cell(POSTOFFICE, Right));
    assert_eq!(grid.get(2, 0), None);
    let mailbox = grid.get(3, 0).unwrap();
    assert_eq!(mailbox.id(), MAILBOX);
    assert_eq!(mailbox.contained_cell, Some((PUSH, Up)));
    // At the edge it makes way for what it holds.
    update(&mut grid);
    assert_eq!(grid.get(3, 0), cell(PUSH, Up));
    assert_eq!(grid.get(3, 0).unwrap().contained_cell, None);
}

#[test]
fn mailbox_keeps_the_direction_relative_to_the_post_office() {
    let mut grid = Grid::new(1, 3);
    grid.set(0, 0, Cell::new(MOVER, Left));
    grid.set(0, 1, Cell::new(POSTOFFICE, Up));
    grid.set(0, 2, Cell::new(MAILBOX, Right));
    update(&mut grid);
    // The post office faces up: seen from it, left is a quarter turn back.
    // The mailbox, facing right, was not due when the phase of the mailboxes
    // swept up; it acts when that phase sweeps to the right.
    assert_eq!(grid.get(0, 0), None);
    assert_eq!(grid.get(0, 2), cell(MOVER, Up));
}

#[test]
fn an_empty_mailbox_stays() {
    let grid = row(&[cell(MAILBOX, Right), None]);
    assert!(ticked(grid.snapshot()) == grid);
}

#[test]
fn rotators_turn_their_neighbours() {
    let mut grid = Grid::new(3, 3);
    grid.set(1, 1, Cell::new(ROTATOR_CCW, Right));
    grid.set(2, 1, Cell::new(PUSH, Right));
    grid.set(1, 0, Cell::new(PUSH, Right));
    grid.set(0, 1, Cell::new(WALL, Right));
    grid.set(1, 2, Cell::new(ORIENTATOR, Left));
    grid.set(0, 0, Cell::new(PUSH, Right));
    do_rotators(&mut grid);
    assert_eq!(grid.get(2, 1), cell(PUSH, Up));
    assert_eq!(grid.get(1, 0), cell(PUSH, Up));
    assert_eq!(grid.get(0, 1), cell(WALL, Right));
    assert_eq!(grid.get(1, 2), cell(ORIENTATOR, Left));
    assert_eq!(grid.get(0, 0), cell(PUSH, Right));

    let mut grid = Grid::new(3, 3);
    grid.set(1, 1, Cell::new(ROTATOR_180, Right));
    grid.set(1, 2, Cell::new(PUSH, Down));
    update(&mut grid);
    assert_eq!(grid.get(1, 2), cell(PUSH, Up));
}

#[test]
fn orientator_turns_its_neighbours_its_own_way() {
    let mut grid = Grid::new(3, 3);
    grid.set(1, 1, Cell::new(ORIENTATOR, Up));
    grid.set(2, 1, Cell::new(PUSH, Right));
    grid.set(0, 1, Cell::new(SLIDE, Down));
    grid.set(1, 0, Cell::new(GHOST, Left));
    update(&mut grid);
    assert_eq!(grid.get(2, 1), cell(PUSH, Up));
    assert_eq!(grid.get(0, 1), cell(SLIDE, Up));
    assert_eq!(grid.get(1, 0), cell(GHOST, Left));
}

#[test]
fn slide_wall_is_not_turned_from_its_closed_sides() {
    let mut grid = Grid::new(3, 3);
    grid.set(1, 1, Cell::new(ROTATOR_180, Right));
    // The rotator is to the left of this one, on its axis.
    grid.set(2, 1, Cell::new(quell_machine::cell_data::SLIDE_WALL, Right));
    // The rotator is below this one, across its axis.
    grid.set(1, 2, Cell::new(quell_machine::cell_data::SLIDE_WALL, Right));
    update(&mut grid);
    assert_eq!(grid.get(2, 1), cell(quell_machine::cell_data::SLIDE_WALL, Left));
    assert_eq!(grid.get(1, 2), cell(quell_machine::cell_data::SLIDE_WALL, Right));
}

#[test]
fn stone_falls() {
    let mut grid = Grid::new(3, 3);
    grid.set(1, 2, Cell::new(STONE, Right));
    update(&mut grid);
    assert_eq!(grid.get(1, 2), None);
    assert_eq!(grid.get(1, 1), cell(STONE, Right));
    update(&mut grid);
    assert_eq!(grid.get(1, 0), cell(STONE, Right));
    update(&mut grid);
    assert_eq!(grid.get(1, 0), cell(STONE, Right));
}

#[test]
fn stone_settles_to_the_side() {
    // On a wall, both sides open: to the right, and down from there.
    let mut grid = Grid::new(3, 2);
    grid.set(1, 0, Cell::new(WALL, Right));
    grid.set(1, 1, Cell::new(STONE, Right));
    update(&mut grid);
    assert_eq!(grid.get(1, 1), None);
    assert_eq!(grid.get(2, 0), cell(STONE, Right));
    assert_eq!(grid.get(0, 0), None);

    // Only the left square below is free.
    let mut grid = Grid::new(3, 2);
    grid.set(1, 0, Cell::new(WALL, Right));
    grid.set(2, 0, Cell::new(WALL, Right));
    grid.set(1, 1, Cell::new(STONE, Right));
    update(&mut grid);
    assert_eq!(grid.get(0, 0), cell(STONE, Right));
    assert_eq!(grid.get(1, 1), None);

    // Both are free, but a wall stands to the right.
    let mut grid = Grid::new(3, 2);
    grid.set(1, 0, Cell::new(WALL, Right));
    grid.set(2, 1, Cell::new(WALL, Right));
    grid.set(1, 1, Cell::new(STONE, Right));
    update(&mut grid);
    assert_eq!(grid.get(0, 0), cell(STONE, Right));

    // Neither is free.
    let mut grid = Grid::new(3, 2);
    grid.set(0, 0, Cell::new(WALL, Right));
    grid.set(1, 0, Cell::new(WALL, Right));
    grid.set(2, 0, Cell::new(WALL, Right));
    grid.set(1, 1, Cell::new(STONE, Right));
    update(&mut grid);
    assert_eq!(grid.get(1, 1), cell(STONE, Right));
    assert!(grid.get(1, 1).unwrap().updated());

    // Both are free, and walls stand on both sides.
    let mut grid = Grid::new(3, 2);
    grid.set(1, 0, Cell::new(WALL, Right));
    grid.set(0, 1, Cell::new(WALL, Right));
    grid.set(2, 1, Cell::new(WALL, Right));
    grid.set(1, 1, Cell::new(STONE, Right));
    update(&mut grid);
    assert_eq!(grid.get(1, 1), cell(STONE, Right));
}

#[test]
fn stone_falls_the_way_its_direction_says() {
    // A stone that faces up falls to the right.
    let mut grid = Grid::new(3, 1);
    grid.set(0, 0, Cell::new(STONE, Up));
    update(&mut grid);
    assert_eq!(grid.get(1, 0), cell(STONE, Up));
}

#[test]
fn pullsher_pushes_and_pulls() {
    let after = ticked(row(&[cell(PUSH, Up), cell(PULLSHER, Right), cell(SLIDE, Right), None]));
    assert!(after == row(&[None, cell(PUSH, Up), cell(PULLSHER, Right), cell(SLIDE, Right)]));
    let blocked = row(&[cell(PUSH, Up), cell(PULLSHER, Right), cell(WALL, Right), None]);
    assert!(ticked(blocked.snapshot()) == blocked);
}

#[test]
fn trash_puller_eats_what_is_behind_and_moves_on() {
    let after = ticked(row(&[None, cell(PUSH, Up), cell(TRASHPULLER, Right), None]));
    assert!(after == row(&[None, None, None, cell(TRASHPULLER, Right)]));
    let after = ticked(row(&[None, cell(PUSH, Up), cell(TRASHPULLER, Right), cell(WALL, Up)]));
    assert!(after == row(&[None, None, cell(TRASHPULLER, Right), cell(WALL, Up)]));
    let alone = row(&[None, None, cell(TRASHPULLER, Right), None]);
    assert!(ticked(alone.snapshot()) == alone);
    let wall = row(&[None, cell(WALL, Up), cell(TRASHPULLER, Right), None]);
    assert!(ticked(wall.snapshot()) == wall);
}

#[test]
fn puller_pulls_the_row_behind_it() {
    let after = ticked(row(&[cell(SLIDE, Right), cell(PUSH, Up), cell(PULLER, Right), None]));
    assert!(after == row(&[None, cell(SLIDE, Right), cell(PUSH, Up), cell(PULLER, Right)]));
    let after = ticked(row(&[cell(PUSH, Up), cell(SLIDE, Up), cell(PULLER, Right), None]));
    assert!(after == row(&[cell(PUSH, Up), cell(SLIDE, Up), None, cell(PULLER, Right)]));
    let at_edge = row(&[cell(PUSH, Up), cell(PULLER, Right)]);
    assert!(ticked(at_edge.snapshot()) == at_edge);
    let blocked = row(&[cell(PUSH, Up), cell(PULLER, Right), cell(PUSH, Up)]);
    assert!(ticked(blocked.snapshot()) == blocked);
}

#[test]
fn puller_against_a_mover() {
    let after = ticked(row(&[cell(MOVER, Left), cell(PULLER, Right), None]));
    assert!(after == row(&[cell(MOVER, Left), None, cell(PULLER, Right)]));
}

#[test]
fn trash_mover_deletes_what_is_ahead() {
    let after = ticked(row(&[cell(TRASHMOVER, Right), cell(PUSH, Up), None]));
    assert!(after == row(&[None, cell(TRASHMOVER, Right), None]));
    let blocked = row(&[cell(TRASHMOVER, Right), cell(WALL, Up), None]);
    assert!(ticked(blocked.snapshot()) == blocked);
    let after = ticked(row(&[cell(TRASHMOVER, Right), cell(TRASH, Up), None]));
    assert!(after == row(&[None, cell(TRASH, Up), None]));
}

#[test]
fn trash_mover_consumes_from_behind() {
    // The mover runs into the back of the trash mover, which has moved on.
    let after = ticked(row(&[cell(MOVER, Right), cell(TRASHMOVER, Left), None]));
    assert!(after == row(&[cell(TRASHMOVER, Left), None, None]));
    let after = ticked(row(&[None, cell(PUSH, Up), cell(TRASHMOVER, Right), cell(MOVER, Left)]));
    assert!(after == row(&[None, cell(PUSH, Up), None, cell(TRASHMOVER, Right)]));
}

#[test]
fn speed_moves_into_empty_squares_only() {
    let after = ticked(row(&[cell(SPEED, Right), None, None]));
    assert!(after == row(&[None, cell(SPEED, Right), None]));
    let blocked = row(&[cell(SPEED, Right), cell(PUSH, Up), None]);
    assert!(ticked(blocked.snapshot()) == blocked);
}

#[test]
fn a_phase_runs_only_if_its_type_was_there_when_the_tick_began() {
    // The mailbox makes way for a mover, but the phase of the movers does not
    // run: there was no mover when the tick began.
    let mut grid = Grid::new(3, 1);
    let mut mailbox = Cell::new(MAILBOX, Right);
    mailbox.contained_cell = Some((MOVER, Up));
    grid.set(2, 0, mailbox);
    update(&mut grid);
    assert_eq!(grid.get(2, 0), cell(MOVER, Up));
    assert!(!grid.get(2, 0).unwrap().updated());
    // With a mover on the grid the new mover acts in the same tick.
    let mut grid = Grid::new(3, 2);
    grid.set(2, 0, mailbox);
    grid.set(0, 0, Cell::new(MOVER, Left));
    update(&mut grid);
    assert_eq!(grid.get(2, 0), None);
    assert_eq!(grid.get(2, 1), cell(MOVER, Up));
}

#[test]
fn phases_by_name() {
    let mut grid = row(&[cell(MOVER, Right), None, cell(PUSH, Up)]);
    grid.set(0, 0, {
        let mut marked = Cell::new(MOVER, Right);
        marked.set_updated(true);
        marked
    });
    // A cell that has acted does not act again.
    do_movers(&mut grid);
    assert!(grid == row(&[cell(MOVER, Right), None, cell(PUSH, Up)]));
    let mut grid = row(&[cell(MOVER, Right), None, cell(PUSH, Up)]);
    run_phase(&mut grid, Phase::Movers);
    assert!(grid == row(&[None, cell(MOVER, Right), cell(PUSH, Up)]));
    run_phase(&mut grid, Phase::Movers);
    assert!(grid == row(&[None, cell(MOVER, Right), cell(PUSH, Up)]));
    assert_eq!(grid.tick_count(), 0);
    assert_eq!(PHASE_COUNT, 21);
    assert_eq!(phase_of(0), Phase::Mirrors);
    assert_eq!(phase_of(11), Phase::Rotators);
    assert_eq!(phase_of(19), Phase::Movers);
    assert_eq!(phase_of(20), Phase::Speeds);
    assert!(!directional(Phase::Mirrors));
    assert!(!directional(Phase::Rotators));
    assert!(directional(Phase::Stones));
}

#[test]
fn background_updater() {
    assert_eq!(TICK_MILLIS, 200);
    assert_eq!(rest_after(0), 200);
    assert_eq!(rest_after(150), 50);
    assert_eq!(rest_after(200), 0);
    assert_eq!(rest_after(1000), 0);
    let mut grid = row(&[cell(MOVER, Right), None]);
    let mut state = begin_update(&grid);
    assert!(state.running);
    assert_eq!(state.repeat_count, 0);
    assert!(state.snapshot == grid);
    update(&mut grid);
    assert!(publish(&mut state, &grid));
    assert!(state.snapshot == row(&[None, cell(MOVER, Right)]));
    assert_eq!(state.snapshot.tick_count(), 1);
    state.running = false;
    assert!(!publish(&mut state, &grid));
}
