//! The tick: which cells act, in which order, and what each of them does.
//!
//! A tick clears the `updated` flags and then runs the phases in a fixed
//! order, each phase only where a type that it belongs to was on the grid
//! when the tick began. A phase sweeps the grid, once or once per direction,
//! and lets each cell of its type act that has not acted yet.

use vstd::prelude::*;
use crate::cell_data::CELL_TYPE_COUNT;
use crate::cell_data::CROSSMIRROR;
use crate::cell_data::CellType;
use crate::cell_data::FIXED_PULLSHER;
use crate::cell_data::GENERATOR;
use crate::cell_data::GENERATOR_CCW;
use crate::cell_data::GENERATOR_CROSS;
use crate::cell_data::GENERATOR_CW;
use crate::cell_data::MAILBOX;
use crate::cell_data::MIRROR;
use crate::cell_data::MOVER;
use crate::cell_data::ORIENTATOR;
use crate::cell_data::PHYSICAL_GENERATOR;
use crate::cell_data::POSTOFFICE;
use crate::cell_data::PULLER;
use crate::cell_data::PULLSHER;
use crate::cell_data::REPLICATOR;
use crate::cell_data::ROTATOR_180;
use crate::cell_data::ROTATOR_CCW;
use crate::cell_data::ROTATOR_CW;
use crate::cell_data::SPEED;
use crate::cell_data::STONE;
use crate::cell_data::SUCKER;
use crate::cell_data::TRASHMOVER;
use crate::cell_data::TRASHPULLER;
use crate::cell_data::TUNNEL;
use crate::cells::Board;
use crate::cells::Cell;
use crate::cells::Grid;
use crate::cells::lemma_index_square;
use crate::direction::Direction;
use crate::manipulation::MoveForce;
use crate::manipulation::PushResult;
use crate::manipulation::can_generate;
use crate::manipulation::can_move;
use crate::manipulation::is_trash;
use crate::manipulation::pull;
use crate::manipulation::pull_board;
use crate::manipulation::push;
use crate::manipulation::push_board;
use crate::manipulation::push_result;
use crate::manipulation::rotate_by;
use crate::manipulation::rotate_to;
use crate::manipulation::rotated_by;
use crate::manipulation::rotated_to;
use crate::manipulation::spec_can_generate;
use crate::manipulation::spec_can_move;
use crate::manipulation::spec_is_trash;

verus! {

/// The phases of a tick, in the order in which they run.
#[derive(Debug, Clone, Copy, PartialEq, Eq, Structural)]
pub enum Phase {
    Mirrors,
    CrossMirrors,
    Tunnels,
    FixedPullshers,
    Suckers,
    Gens,
    AngledGens,
    PhysicalGens,
    CrossGens,
    Replicators,
    PostOffices,
    Rotators,
    Orientators,
    Stones,
    Mailboxes,
    Pullshers,
    TrashPullers,
    Pullers,
    TrashMovers,
    Movers,
    Speeds,
}

/// The number of phases.
pub const PHASE_COUNT: usize = 21;

/// Whether the square `(x, y)` holds a cell of type `id` that faces `dir`
/// and has not acted in this tick.
pub open spec fn due(b: Board, x: int, y: int, id: CellType, dir: Direction) -> bool {
    match b.get(x, y) {
        Some(c) => c.id == id && c.direction == dir && !c.updated,
        None => false,
    }
}

/// Whether the square `(x, y)` holds a cell of type `id` that has not acted
/// in this tick, whatever its direction.
pub open spec fn idle(b: Board, x: int, y: int, id: CellType) -> bool {
    match b.get(x, y) {
        Some(c) => c.id == id && !c.updated,
        None => false,
    }
}

/// The board with the cell at `(x, y)` marked as updated.
pub open spec fn marked(b: Board, x: int, y: int) -> Board {
    match b.get(x, y) {
        Some(c) => b.put(x, y, Some(c.with_updated(true))),
        None => b,
    }
}

/// Whether a mirror may swap away what the square holds, moving it in `dir`:
/// an empty square may always be swapped.
pub open spec fn swappable(square: Option<Cell>, dir: Direction) -> bool {
    match square {
        Some(c) => spec_can_move(c, dir, MoveForce::Swap),
        None => true,
    }
}

/// The board after a mirror at `(x, y)` has acted along `axis`: its two
/// neighbours on that axis change places if both may be swapped.
pub open spec fn mirror_swap(b: Board, x: int, y: int, axis: Direction) -> Board {
    let fx = x - axis.dx();
    let fy = y - axis.dy();
    let sx = x + axis.dx();
    let sy = y + axis.dy();
    if swappable(b.get(fx, fy), axis) && swappable(b.get(sx, sy), axis.flip()) {
        b.put(fx, fy, b.get(sx, sy)).put(sx, sy, b.get(fx, fy))
    } else {
        b
    }
}

/// A mirror whose own axis is `axis` swaps its two neighbours on that axis.
#[verifier::opaque]
pub open spec fn mirror_step(b: Board, x: int, y: int, axis: Direction) -> Board {
    match b.get(x, y) {
        Some(c) => if c.id == MIRROR && c.direction.shrink(2) == axis && !c.updated {
            mirror_swap(marked(b, x, y), x, y, axis)
        } else {
            b
        },
        None => b,
    }
}

/// A cross-mirror swaps its horizontal neighbours, then its vertical ones.
#[verifier::opaque]
pub open spec fn crossmirror_step(b: Board, x: int, y: int) -> Board {
    if idle(b, x, y, CROSSMIRROR) {
        mirror_swap(mirror_swap(marked(b, x, y), x, y, Direction::Right), x, y, Direction::Down)
    } else {
        b
    }
}

/// A tunnel moves the cell behind it to its front, if that cell yields to a
/// push and the push at the front succeeds.
#[verifier::opaque]
pub open spec fn tunnel_step(b: Board, x: int, y: int, dir: Direction) -> Board {
    if due(b, x, y, TUNNEL, dir) {
        let m = marked(b, x, y);
        let bx = x - dir.dx();
        let by = y - dir.dy();
        let ax = x + dir.dx();
        let ay = y + dir.dy();
        match m.get(bx, by) {
            Some(c) => if spec_can_move(c, dir, MoveForce::Push) {
                let pushed = push_board(m, ax, ay, dir, 1, Some(c.spec_copy()), true);
                if push_result(m, ax, ay, dir, 1).did_move() {
                    pushed.put(bx, by, None)
                } else {
                    pushed
                }
            } else {
                m
            },
            None => m,
        }
    } else {
        b
    }
}

/// A fixed pullsher acts as a tunnel on a cell that does not consume what
/// comes from the front, and then pulls in the row behind that cell.
#[verifier::opaque]
pub open spec fn fixed_pullsher_step(b: Board, x: int, y: int, dir: Direction) -> Board {
    if due(b, x, y, FIXED_PULLSHER, dir) {
        let m = marked(b, x, y);
        let bx = x - dir.dx();
        let by = y - dir.dy();
        let ax = x + dir.dx();
        let ay = y + dir.dy();
        match m.get(bx, by) {
            Some(c) => if spec_can_move(c, dir, MoveForce::Push) && !spec_is_trash(c, dir.flip()) {
                let pushed = push_board(m, ax, ay, dir, 1, Some(c.spec_copy()), true);
                if push_result(m, ax, ay, dir, 1).did_move() {
                    pull_board(pushed.put(bx, by, None), bx - dir.dx(), by - dir.dy(), dir)
                } else {
                    pushed
                }
            } else {
                m
            },
            None => m,
        }
    } else {
        b
    }
}

/// A sucker pulls the cell in front of it, and the row behind that cell,
/// toward itself.
#[verifier::opaque]
pub open spec fn sucker_step(b: Board, x: int, y: int, dir: Direction) -> Board {
    if due(b, x, y, SUCKER, dir) {
        pull_board(marked(b, x, y), x + dir.dx(), y + dir.dy(), dir.flip())
    } else {
        b
    }
}

/// The board after a generator at `(x, y)` has copied the cell that stands
/// one step against `from` and pushed the copy, turned by `turn` quarter
/// turns, one step along `to`. Where `check` is set, a cell that cannot be
/// generated is not copied.
pub open spec fn emitted(
    b: Board,
    x: int,
    y: int,
    from: Direction,
    to: Direction,
    turn: Direction,
    check: bool,
) -> Board {
    match b.get(x - from.dx(), y - from.dy()) {
        Some(c) => if !check || spec_can_generate(c) {
            push_board(
                b,
                x + to.dx(),
                y + to.dy(),
                to,
                1,
                Some(c.spec_copy().with_direction(c.direction.spec_plus(turn))),
                false,
            )
        } else {
            b
        },
        None => b,
    }
}

/// A generator copies the cell behind it to its front.
#[verifier::opaque]
pub open spec fn gen_step(b: Board, x: int, y: int, dir: Direction) -> Board {
    if due(b, x, y, GENERATOR, dir) {
        emitted(marked(b, x, y), x, y, dir, dir, Direction::Right, true)
    } else {
        b
    }
}

/// An angled generator copies the cell behind it, turns the copy a quarter
/// turn, and pushes it out to its side: clockwise and to the right, or
/// counter-clockwise and to the left.
#[verifier::opaque]
pub open spec fn angled_gen_step(b: Board, x: int, y: int, dir: Direction) -> Board {
    if due(b, x, y, GENERATOR_CW, dir) {
        emitted(marked(b, x, y), x, y, dir, dir.rotate_right(), Direction::Down, false)
    } else if due(b, x, y, GENERATOR_CCW, dir) {
        emitted(marked(b, x, y), x, y, dir, dir.rotate_left(), Direction::Up, false)
    } else {
        b
    }
}

/// A physical generator copies the cell behind it to its front; where the
/// front is blocked, the copy takes the generator's place and pushes the
/// generator back.
#[verifier::opaque]
pub open spec fn physical_gen_step(b: Board, x: int, y: int, dir: Direction) -> Board {
    if due(b, x, y, PHYSICAL_GENERATOR, dir) {
        let m = marked(b, x, y);
        match m.get(x - dir.dx(), y - dir.dy()) {
            Some(c) => if spec_can_generate(c) {
                let pushed = push_board(
                    m,
                    x + dir.dx(),
                    y + dir.dy(),
                    dir,
                    1,
                    Some(c.spec_copy()),
                    false,
                );
                if push_result(m, x + dir.dx(), y + dir.dy(), dir, 1).did_move() {
                    pushed
                } else {
                    push_board(pushed, x, y, dir.flip(), 1, Some(c.spec_copy()), false)
                }
            } else {
                m
            },
            None => m,
        }
    } else {
        b
    }
}

/// A cross generator copies the cell behind it to its front, and then the
/// cell on its right to its left.
#[verifier::opaque]
pub open spec fn cross_gen_step(b: Board, x: int, y: int, dir: Direction) -> Board {
    if due(b, x, y, GENERATOR_CROSS, dir) {
        let first = emitted(marked(b, x, y), x, y, dir, dir, Direction::Right, true);
        emitted(first, x, y, dir.rotate_left(), dir.rotate_left(), Direction::Right, true)
    } else {
        b
    }
}

/// A replicator pushes a copy of the cell in front of it onto that cell.
#[verifier::opaque]
pub open spec fn replicator_step(b: Board, x: int, y: int, dir: Direction) -> Board {
    if due(b, x, y, REPLICATOR, dir) {
        emitted(marked(b, x, y), x, y, dir.flip(), dir, Direction::Right, true)
    } else {
        b
    }
}

/// A post office that faces a mailbox puts the cell behind it, if that cell
/// yields to a pull, into the mailbox: the mailbox keeps the type of the cell
/// and its direction relative to the post office, and the cell is deleted.
#[verifier::opaque]
pub open spec fn postoffice_step(b: Board, x: int, y: int, dir: Direction) -> Board {
    if due(b, x, y, POSTOFFICE, dir) {
        let m = marked(b, x, y);
        match (m.get(x + dir.dx(), y + dir.dy()), m.get(x - dir.dx(), y - dir.dy())) {
            (Some(mailbox), Some(mail)) => if mailbox.id == MAILBOX && spec_can_move(
                mail,
                dir,
                MoveForce::Pull,
            ) {
                m.put(
                    x + dir.dx(),
                    y + dir.dy(),
                    Some(
                        Cell {
                            contained_cell: Some((mail.id, mail.direction.spec_minus(dir))),
                            ..mailbox
                        },
                    ),
                ).put(x - dir.dx(), y - dir.dy(), None)
            } else {
                m
            },
            _ => m,
        }
    } else {
        b
    }
}

/// The board after the four neighbours of `(x, y)` were turned by `turn`
/// quarter turns: right, below, left, above, in that order.
pub open spec fn turned_around(b: Board, x: int, y: int, turn: Direction) -> Board {
    let b1 = rotated_by(b, x + 1, y, turn, Direction::Left);
    let b2 = rotated_by(b1, x, y - 1, turn, Direction::Up);
    let b3 = rotated_by(b2, x - 1, y, turn, Direction::Right);
    rotated_by(b3, x, y + 1, turn, Direction::Down)
}

/// A rotator turns its four neighbours: a quarter turn clockwise, a quarter
/// turn counter-clockwise, or a half turn.
#[verifier::opaque]
pub open spec fn rotator_step(b: Board, x: int, y: int) -> Board {
    if idle(b, x, y, ROTATOR_CW) {
        turned_around(marked(b, x, y), x, y, Direction::Down)
    } else if idle(b, x, y, ROTATOR_CCW) {
        turned_around(marked(b, x, y), x, y, Direction::Up)
    } else if idle(b, x, y, ROTATOR_180) {
        turned_around(marked(b, x, y), x, y, Direction::Left)
    } else {
        b
    }
}

/// An orientator turns its four neighbours to face the way it faces.
#[verifier::opaque]
pub open spec fn orientator_step(b: Board, x: int, y: int) -> Board {
    if idle(b, x, y, ORIENTATOR) {
        let dir = b.get(x, y)->0.direction;
        let b1 = rotated_to(marked(b, x, y), x + 1, y, dir, Direction::Left);
        let b2 = rotated_to(b1, x, y - 1, dir, Direction::Up);
        let b3 = rotated_to(b2, x - 1, y, dir, Direction::Right);
        rotated_to(b3, x, y + 1, dir, Direction::Down)
    } else {
        b
    }
}

/// Whether `(x, y)` is an empty square of the board.
pub open spec fn free(b: Board, x: int, y: int) -> bool {
    b.in_bounds(x, y) && b.get(x, y) is None
}

/// Whether a stone can slide over the square: it is empty, or holds a cell
/// that yields to a push in `dir` and does not consume what it is pushed
/// with.
pub open spec fn passable(square: Option<Cell>, dir: Direction) -> bool {
    match square {
        Some(c) => !spec_is_trash(c, dir) && spec_can_move(c, dir, MoveForce::Push),
        None => true,
    }
}

/// To which side a stone at `(x, y)` that cannot fall settles. Its right is
/// `dir`, its down `dir.rotate_right()`. It stays where neither square
/// diagonally below it is free. Where one is free, it takes that side. Where
/// both are, it takes the side it can slide over, the right one first, and
/// stays if it can slide over neither.
pub open spec fn stone_side(b: Board, x: int, y: int, dir: Direction) -> Option<Direction> {
    let down = dir.rotate_right();
    let right_free = free(b, x + dir.dx() + down.dx(), y + dir.dy() + down.dy());
    let left_free = free(b, x - dir.dx() + down.dx(), y - dir.dy() + down.dy());
    if !right_free && !left_free {
        None
    } else if !left_free {
        Some(dir)
    } else if !right_free {
        Some(dir.flip())
    } else if passable(b.get(x + dir.dx(), y + dir.dy()), dir) {
        Some(dir)
    } else if passable(b.get(x - dir.dx(), y - dir.dy()), dir.flip()) {
        Some(dir.flip())
    } else {
        None
    }
}

/// A stone falls one square. Where it cannot, it settles: it moves one
/// square to the side that `stone_side` names and, if it got there, falls
/// from there.
#[verifier::opaque]
pub open spec fn stone_step(b: Board, x: int, y: int, dir: Direction) -> Board {
    if due(b, x, y, STONE, dir) {
        let m = marked(b, x, y);
        let down = dir.rotate_right();
        let fallen = push_board(m, x, y, down, 1, None, false);
        if push_result(m, x, y, down, 1).did_move() {
            fallen
        } else {
            match stone_side(fallen, x, y, dir) {
                Some(side) => {
                    let moved = push_board(fallen, x, y, side, 1, None, false);
                    if push_result(fallen, x, y, side, 1).did_move_survive() {
                        push_board(moved, x + side.dx(), y + side.dy(), down, 1, None, false)
                    } else {
                        moved
                    }
                },
                None => fallen,
            }
        }
    } else {
        b
    }
}

/// A mailbox that holds a cell moves one step; where it cannot, it makes
/// way for the cell it holds, which comes out facing as it faced the post
/// office, seen from the mailbox.
#[verifier::opaque]
pub open spec fn mailbox_step(b: Board, x: int, y: int, dir: Direction) -> Board {
    if due(b, x, y, MAILBOX, dir) {
        let m = marked(b, x, y);
        match b.get(x, y)->0.contained_cell {
            Some(contained) => {
                let pushed = push_board(m, x, y, dir, 1, None, false);
                if push_result(m, x, y, dir, 1).did_move() {
                    pushed
                } else {
                    pushed.put(x, y, Some(Cell::spec_new(contained.0, dir.spec_plus(contained.1))))
                }
            },
            None => m,
        }
    } else {
        b
    }
}

/// A pullsher pushes forward and, if it moved, pulls the row behind it
/// along.
#[verifier::opaque]
pub open spec fn pullsher_step(b: Board, x: int, y: int, dir: Direction) -> Board {
    if due(b, x, y, PULLSHER, dir) {
        let m = marked(b, x, y);
        let pushed = push_board(m, x, y, dir, 1, None, true);
        if push_result(m, x, y, dir, 1).did_move() {
            pull_board(pushed, x - dir.dx(), y - dir.dy(), dir)
        } else {
            pushed
        }
    } else {
        b
    }
}

/// A trash puller deletes the cell behind it, if that cell yields to a pull
/// and does not consume what moves in `dir`; then, where the square ahead is
/// empty, it moves on and pulls what is behind it along.
#[verifier::opaque]
pub open spec fn trashpuller_step(b: Board, x: int, y: int, dir: Direction) -> Board {
    if due(b, x, y, TRASHPULLER, dir) {
        let m = marked(b, x, y);
        match m.get(x - dir.dx(), y - dir.dy()) {
            Some(c) => if spec_can_move(c, dir, MoveForce::Pull) && !spec_is_trash(c, dir) {
                let eaten = m.put(x - dir.dx(), y - dir.dy(), None);
                if eaten.get(x + dir.dx(), y + dir.dy()) is None {
                    pull_board(eaten, x, y, dir)
                } else {
                    eaten
                }
            } else {
                m
            },
            None => m,
        }
    } else {
        b
    }
}

/// A puller moves on, where the square ahead is an empty square of the
/// board, and pulls the row behind it along.
#[verifier::opaque]
pub open spec fn puller_step(b: Board, x: int, y: int, dir: Direction) -> Board {
    if due(b, x, y, PULLER, dir) {
        let m = marked(b, x, y);
        if free(m, x + dir.dx(), y + dir.dy()) {
            pull_board(m, x, y, dir)
        } else {
            m
        }
    } else {
        b
    }
}

/// A trash mover deletes the cell ahead of it, if that cell yields to a push
/// and does not consume what is pushed into it, and then pushes forward.
#[verifier::opaque]
pub open spec fn trashmover_step(b: Board, x: int, y: int, dir: Direction) -> Board {
    if due(b, x, y, TRASHMOVER, dir) {
        let m = marked(b, x, y);
        let cleared = match m.get(x + dir.dx(), y + dir.dy()) {
            Some(c) => if spec_can_move(c, dir, MoveForce::Push) && !spec_is_trash(c, dir) {
                m.put(x + dir.dx(), y + dir.dy(), None)
            } else {
                m
            },
            None => m,
        };
        push_board(cleared, x, y, dir, 0, None, true)
    } else {
        b
    }
}

/// A mover pushes forward.
#[verifier::opaque]
pub open spec fn mover_step(b: Board, x: int, y: int, dir: Direction) -> Board {
    if due(b, x, y, MOVER, dir) {
        push_board(marked(b, x, y), x, y, dir, 0, None, true)
    } else {
        b
    }
}

/// A speed cell moves forward where the square ahead holds nothing.
#[verifier::opaque]
pub open spec fn speed_step(b: Board, x: int, y: int, dir: Direction) -> Board {
    if due(b, x, y, SPEED, dir) {
        let m = marked(b, x, y);
        if m.get(x + dir.dx(), y + dir.dy()) is None {
            push_board(m, x, y, dir, 0, None, true)
        } else {
            m
        }
    } else {
        b
    }
}

/// What the square `(x, y)` does when a sweep of `phase` comes by. In a
/// phase that sweeps once per direction, `dir` is the direction of the
/// sweep; in the mirror phase it is the axis of the sweep.
pub open spec fn step(b: Board, phase: Phase, dir: Direction, x: int, y: int) -> Board {
    match phase {
        Phase::Mirrors => mirror_step(b, x, y, dir),
        Phase::CrossMirrors => crossmirror_step(b, x, y),
        Phase::Tunnels => tunnel_step(b, x, y, dir),
        Phase::FixedPullshers => fixed_pullsher_step(b, x, y, dir),
        Phase::Suckers => sucker_step(b, x, y, dir),
        Phase::Gens => gen_step(b, x, y, dir),
        Phase::AngledGens => angled_gen_step(b, x, y, dir),
        Phase::PhysicalGens => physical_gen_step(b, x, y, dir),
        Phase::CrossGens => cross_gen_step(b, x, y, dir),
        Phase::Replicators => replicator_step(b, x, y, dir),
        Phase::PostOffices => postoffice_step(b, x, y, dir),
        Phase::Rotators => rotator_step(b, x, y),
        Phase::Orientators => orientator_step(b, x, y),
        Phase::Stones => stone_step(b, x, y, dir),
        Phase::Mailboxes => mailbox_step(b, x, y, dir),
        Phase::Pullshers => pullsher_step(b, x, y, dir),
        Phase::TrashPullers => trashpuller_step(b, x, y, dir),
        Phase::Pullers => puller_step(b, x, y, dir),
        Phase::TrashMovers => trashmover_step(b, x, y, dir),
        Phase::Movers => mover_step(b, x, y, dir),
        Phase::Speeds => speed_step(b, x, y, dir),
    }
}

/// The row-major index of the `k`-th square that a sweep visits: a forward
/// sweep goes up from index 0, row by row from the bottom and from left to
/// right in each row; a reverse sweep goes down from the last index.
pub open spec fn scan_index(b: Board, reverse: bool, k: int) -> int {
    if reverse {
        b.width * b.height - 1 - k
    } else {
        k
    }
}

/// The board after a sweep of `phase` has visited its first `k` squares.
pub open spec fn sweep_board(b: Board, phase: Phase, dir: Direction, reverse: bool, k: nat) -> Board
    decreases k,
{
    if k == 0 {
        b
    } else {
        let i = scan_index(b, reverse, k - 1);
        step(sweep_board(b, phase, dir, reverse, (k - 1) as nat), phase, dir, i % b.width, i / b.width)
    }
}

/// The board after a whole sweep.
pub open spec fn swept(b: Board, phase: Phase, dir: Direction, reverse: bool) -> Board {
    sweep_board(b, phase, dir, reverse, (b.width * b.height) as nat)
}

/// Whether the cells of a phase act by direction. Such a phase sweeps four
/// times, for the cells that face right, left, up and down in turn.
pub open spec fn spec_directional(phase: Phase) -> bool {
    phase != Phase::Mirrors && phase != Phase::CrossMirrors && phase != Phase::Rotators && phase
        != Phase::Orientators
}

/// The board after a whole phase. The mirrors sweep twice, forward: first
/// those that lie horizontally, then those that stand vertically. The other
/// phases without direction sweep once, forward. A phase by direction sweeps
/// for right, left, up and down, in reverse for right and up, so that of the
/// cells that face the same way the one furthest along acts first.
pub open spec fn phase_board(b: Board, phase: Phase) -> Board {
    if phase == Phase::Mirrors {
        swept(swept(b, phase, Direction::Right, false), phase, Direction::Down, false)
    } else if !spec_directional(phase) {
        swept(b, phase, Direction::Right, false)
    } else {
        let b1 = swept(b, phase, Direction::Right, true);
        let b2 = swept(b1, phase, Direction::Left, false);
        let b3 = swept(b2, phase, Direction::Up, true);
        swept(b3, phase, Direction::Down, false)
    }
}

/// The phases in the order in which a tick runs them.
pub open spec fn phase_at(i: int) -> Phase {
    if i == 0 {
        Phase::Mirrors
    } else if i == 1 {
        Phase::CrossMirrors
    } else if i == 2 {
        Phase::Tunnels
    } else if i == 3 {
        Phase::FixedPullshers
    } else if i == 4 {
        Phase::Suckers
    } else if i == 5 {
        Phase::Gens
    } else if i == 6 {
        Phase::AngledGens
    } else if i == 7 {
        Phase::PhysicalGens
    } else if i == 8 {
        Phase::CrossGens
    } else if i == 9 {
        Phase::Replicators
    } else if i == 10 {
        Phase::PostOffices
    } else if i == 11 {
        Phase::Rotators
    } else if i == 12 {
        Phase::Orientators
    } else if i == 13 {
        Phase::Stones
    } else if i == 14 {
        Phase::Mailboxes
    } else if i == 15 {
        Phase::Pullshers
    } else if i == 16 {
        Phase::TrashPullers
    } else if i == 17 {
        Phase::Pullers
    } else if i == 18 {
        Phase::TrashMovers
    } else if i == 19 {
        Phase::Movers
    } else {
        Phase::Speeds
    }
}

/// Whether a phase runs in a tick that began on board `b`: it runs where a
/// type that acts in it was on the board then.
pub open spec fn fires(b: Board, phase: Phase) -> bool {
    match phase {
        Phase::Mirrors => b.has(MIRROR),
        Phase::CrossMirrors => b.has(CROSSMIRROR),
        Phase::Tunnels => b.has(TUNNEL),
        Phase::FixedPullshers => b.has(FIXED_PULLSHER),
        Phase::Suckers => b.has(SUCKER),
        Phase::Gens => b.has(GENERATOR),
        Phase::AngledGens => b.has(GENERATOR_CW) || b.has(GENERATOR_CCW),
        Phase::PhysicalGens => b.has(PHYSICAL_GENERATOR),
        Phase::CrossGens => b.has(GENERATOR_CROSS),
        Phase::Replicators => b.has(REPLICATOR),
        Phase::PostOffices => b.has(POSTOFFICE),
        Phase::Rotators => b.has(ROTATOR_CW) || b.has(ROTATOR_CCW) || b.has(ROTATOR_180),
        Phase::Orientators => b.has(ORIENTATOR),
        Phase::Stones => b.has(STONE),
        Phase::Mailboxes => b.has(MAILBOX),
        Phase::Pullshers => b.has(PULLSHER),
        Phase::TrashPullers => b.has(TRASHPULLER),
        Phase::Pullers => b.has(PULLER),
        Phase::TrashMovers => b.has(TRASHMOVER),
        Phase::Movers => b.has(MOVER),
        Phase::Speeds => b.has(SPEED),
    }
}

/// The board after the first `k` phases of a tick that began on board
/// `start`, where `b` is the board with the flags cleared.
pub open spec fn phases_board(start: Board, b: Board, k: nat) -> Board
    decreases k,
{
    if k == 0 {
        b
    } else {
        let before = phases_board(start, b, (k - 1) as nat);
        if fires(start, phase_at(k - 1)) {
            phase_board(before, phase_at(k - 1))
        } else {
            before
        }
    }
}

/// The board after one tick.
pub open spec fn tick(b: Board) -> Board {
    phases_board(b, b.cleared(), PHASE_COUNT as nat)
}

/// As long as no phase runs, the board stays as it is.
proof fn lemma_phases_idle(start: Board, b: Board, k: nat)
    requires
        k <= PHASE_COUNT,
        forall|i: int| 0 <= i < PHASE_COUNT ==> !fires(start, #[trigger] phase_at(i)),
    ensures
        phases_board(start, b, k) == b,
    decreases k,
{
    if k > 0 {
        lemma_phases_idle(start, b, (k - 1) as nat);
        assert(!fires(start, phase_at(k - 1)));
    }
}

/// A tick on a board that holds no cell of a type that acts only clears the
/// `updated` flags.
pub proof fn lemma_tick_idle(b: Board)
    requires
        forall|i: int| 0 <= i < PHASE_COUNT ==> !fires(b, #[trigger] phase_at(i)),
    ensures
        tick(b) == b.cleared(),
{
    lemma_phases_idle(b, b.cleared(), PHASE_COUNT as nat);
}

/// A tick on an empty board changes nothing.
pub proof fn lemma_tick_empty(b: Board)
    requires
        b.wf(),
        b.is_empty(),
    ensures
        tick(b) == b,
{
    assert forall|id: CellType| !b.has(id) by {
        if b.has(id) {
            let (x, y) = choose|x: int, y: int| b.holds(x, y, id);
            assert(b.get(x, y) is None);
        }
    }
    assert forall|i: int| 0 <= i < PHASE_COUNT implies !fires(b, #[trigger] phase_at(i)) by {}
    lemma_tick_idle(b);
    b.lemma_cleared();
    assert forall|x: int, y: int| #[trigger] b.cleared().get(x, y) == b.get(x, y) by {
        assert(b.get(x, y) is None);
    }
    b.cleared().lemma_ext(b);
}

/// A mover that is blocked stays where it is, and is marked as updated.
pub proof fn lemma_mover_blocked(b: Board, x: int, y: int, dir: Direction)
    requires
        b.wf(),
        due(b, x, y, MOVER, dir),
        push_result(marked(b, x, y), x, y, dir, 0) == PushResult::NotMoved,
    ensures
        mover_step(b, x, y, dir) == marked(b, x, y),
        mover_step(b, x, y, dir).get(x, y) == Some(b.get(x, y)->0.with_updated(true)),
        forall|px: int, py: int|
            !(px == x && py == y) ==> #[trigger] mover_step(b, x, y, dir).get(px, py) == b.get(
                px,
                py,
            ),
{
    reveal(mover_step);
    let c = b.get(x, y)->0;
    assert(b.in_bounds(x, y));
    b.lemma_get_put(x, y, Some(c.with_updated(true)), x, y);
    assert forall|px: int, py: int| !(px == x && py == y) implies #[trigger] mover_step(
        b,
        x,
        y,
        dir,
    ).get(px, py) == b.get(px, py) by {
        b.lemma_get_put(x, y, Some(c.with_updated(true)), px, py);
    }
}

/// The least time that a tick of a background updater takes, in
/// milliseconds.
pub const TICK_MILLIS: u64 = 200;

/// How long a background updater rests after a tick that took
/// `elapsed_millis`: what is left of `TICK_MILLIS`.
pub fn rest_after(elapsed_millis: u64) -> (rest: u64)
    ensures
        rest == if elapsed_millis <= TICK_MILLIS {
            TICK_MILLIS - elapsed_millis
        } else {
            0
        },
{
    if elapsed_millis <= TICK_MILLIS {
        TICK_MILLIS - elapsed_millis
    } else {
        0
    }
}

/// What a background updater shares with those who watch it.
pub struct UpdateState {
    /// Whether the updater is to go on. Set to `false` to stop it.
    pub running: bool,
    /// The grid after the latest tick.
    pub snapshot: Grid,
    /// How many ticks are to be skipped between two snapshots.
    pub repeat_count: u32,
}

/// What a background updater shares when it starts: it is running, and the
/// snapshot is the grid it starts with.
pub fn begin_update(grid: &Grid) -> (state: UpdateState)
    ensures
        state.running,
        state.repeat_count == 0,
        state.snapshot@ == grid@,
        state.snapshot.wf() == grid.wf(),
        state.snapshot.tick_count() == grid.tick_count(),
{
    UpdateState { running: true, snapshot: grid.snapshot(), repeat_count: 0 }
}

/// Publishes the grid after a tick as the new snapshot. Returns whether the
/// updater is to go on.
pub fn publish(state: &mut UpdateState, grid: &Grid) -> (go_on: bool)
    ensures
        go_on == old(state).running,
        final(state).running == old(state).running,
        final(state).repeat_count == old(state).repeat_count,
        final(state).snapshot@ == grid@,
        final(state).snapshot.wf() == grid.wf(),
        final(state).snapshot.tick_count() == grid.tick_count(),
{
    state.snapshot = grid.snapshot();
    state.running
}

/// Marks the cell `cell` that stands at `(x, y)` as updated.
fn mark(grid: &mut Grid, x: isize, y: isize, cell: Cell)
    requires
        old(grid).wf(),
        old(grid)@.get(x as int, y as int) == Some(cell),
    ensures
        final(grid).wf(),
        final(grid).tick_count() == old(grid).tick_count(),
        final(grid)@.same_size(old(grid)@),
        final(grid)@ == marked(old(grid)@, x as int, y as int),
        0 <= x < isize::MAX - 1,
        0 <= y < isize::MAX - 1,
{
    proof {
        grid.lemma_view();
        assert(grid@.cells.dom().contains((x as int, y as int)));
    }
    let mut acting = cell;
    acting.updated = true;
    grid.set(x, y, acting);
}

/// Lets the cell at `(x, y)` begin to act, if it is of type `id`, faces
/// `dir` and has not acted in this tick: marks it as updated and says so.
fn act(grid: &mut Grid, x: isize, y: isize, id: CellType, dir: Direction) -> (r: bool)
    requires
        old(grid).wf(),
    ensures
        final(grid).wf(),
        final(grid).tick_count() == old(grid).tick_count(),
        final(grid)@.same_size(old(grid)@),
        r == due(old(grid)@, x as int, y as int, id, dir),
        final(grid)@ == if r {
            marked(old(grid)@, x as int, y as int)
        } else {
            old(grid)@
        },
        r ==> 0 <= x < isize::MAX - 1 && 0 <= y < isize::MAX - 1,
{
    match grid.get(x, y) {
        Some(cell) => {
            if cell.id == id && cell.direction == dir && !cell.updated {
                mark(grid, x, y, cell);
                true
            } else {
                false
            }
        },
        None => false,
    }
}

/// Lets the cell at `(x, y)` begin to act, if it is of type `id` and has not
/// acted in this tick: marks it as updated and says so.
fn act_any(grid: &mut Grid, x: isize, y: isize, id: CellType) -> (r: bool)
    requires
        old(grid).wf(),
    ensures
        final(grid).wf(),
        final(grid).tick_count() == old(grid).tick_count(),
        final(grid)@.same_size(old(grid)@),
        r == idle(old(grid)@, x as int, y as int, id),
        final(grid)@ == if r {
            marked(old(grid)@, x as int, y as int)
        } else {
            old(grid)@
        },
        r ==> 0 <= x < isize::MAX - 1 && 0 <= y < isize::MAX - 1,
{
    match grid.get(x, y) {
        Some(cell) => {
            if cell.id == id && !cell.updated {
                mark(grid, x, y, cell);
                true
            } else {
                false
            }
        },
        None => false,
    }
}

/// Whether a mirror may swap away what the square holds, moving it in `dir`.
fn can_swap(square: &Option<Cell>, dir: Direction) -> (r: bool)
    ensures
        r == swappable(*square, dir),
{
    match square {
        Some(cell) => can_move(cell, dir, MoveForce::Swap),
        None => true,
    }
}

/// Swaps the two neighbours of `(x, y)` on `axis`, if both may be swapped.
fn swap_across(grid: &mut Grid, x: isize, y: isize, axis: Direction)
    requires
        old(grid).wf(),
        0 <= x < isize::MAX - 1,
        0 <= y < isize::MAX - 1,
    ensures
        final(grid).wf(),
        final(grid).tick_count() == old(grid).tick_count(),
        final(grid)@.same_size(old(grid)@),
        final(grid)@ == mirror_swap(old(grid)@, x as int, y as int, axis),
{
    let (ox, oy) = axis.to_vector();
    let first = grid.get(x - ox, y - oy);
    let second = grid.get(x + ox, y + oy);
    if can_swap(&first, axis) && can_swap(&second, axis.flip()) {
        grid.set_cell(x - ox, y - oy, second);
        grid.set_cell(x + ox, y + oy, first);
    }
}

/// Lets a mirror at `(x, y)` whose axis is `dir` act.
fn step_mirror(grid: &mut Grid, x: isize, y: isize, dir: Direction)
    requires
        old(grid).wf(),
    ensures
        final(grid).wf(),
        final(grid).tick_count() == old(grid).tick_count(),
        final(grid)@.same_size(old(grid)@),
        final(grid)@ == mirror_step(old(grid)@, x as int, y as int, dir),
{
    proof {
        reveal(mirror_step);
    }
    match grid.get(x, y) {
        Some(cell) => {
            if cell.id == MIRROR && cell.direction.shrink(2) == dir && !cell.updated {
                mark(grid, x, y, cell);
                swap_across(grid, x, y, dir);
            }
        },
        None => {},
    }
}

/// Lets a cross-mirror at `(x, y)` act.
fn step_crossmirror(grid: &mut Grid, x: isize, y: isize)
    requires
        old(grid).wf(),
    ensures
        final(grid).wf(),
        final(grid).tick_count() == old(grid).tick_count(),
        final(grid)@.same_size(old(grid)@),
        final(grid)@ == crossmirror_step(old(grid)@, x as int, y as int),
{
    proof {
        reveal(crossmirror_step);
    }
    if act_any(grid, x, y, CROSSMIRROR) {
        swap_across(grid, x, y, Direction::Right);
        swap_across(grid, x, y, Direction::Down);
    }
}

/// Lets a tunnel at `(x, y)` that faces `dir` act.
fn step_tunnel(grid: &mut Grid, x: isize, y: isize, dir: Direction)
    requires
        old(grid).wf(),
    ensures
        final(grid).wf(),
        final(grid).tick_count() == old(grid).tick_count(),
        final(grid)@.same_size(old(grid)@),
        final(grid)@ == tunnel_step(old(grid)@, x as int, y as int, dir),
{
    proof {
        reveal(tunnel_step);
    }
    if act(grid, x, y, TUNNEL, dir) {
        let (ox, oy) = dir.to_vector();
        if let Some(cell) = grid.get(x - ox, y - oy) {
            if can_move(&cell, dir, MoveForce::Push) {
                if push(grid, x + ox, y + oy, dir, 1, Some(cell.copy()), true).did_move() {
                    grid.set_cell(x - ox, y - oy, None);
                }
            }
        }
    }
}

/// Lets a fixed pullsher at `(x, y)` that faces `dir` act.
fn step_fixed_pullsher(grid: &mut Grid, x: isize, y: isize, dir: Direction)
    requires
        old(grid).wf(),
    ensures
        final(grid).wf(),
        final(grid).tick_count() == old(grid).tick_count(),
        final(grid)@.same_size(old(grid)@),
        final(grid)@ == fixed_pullsher_step(old(grid)@, x as int, y as int, dir),
{
    proof {
        reveal(fixed_pullsher_step);
    }
    if act(grid, x, y, FIXED_PULLSHER, dir) {
        let (ox, oy) = dir.to_vector();
        if let Some(cell) = grid.get(x - ox, y - oy) {
            if can_move(&cell, dir, MoveForce::Push) && !is_trash(&cell, dir.flip()) {
                if push(grid, x + ox, y + oy, dir, 1, Some(cell.copy()), true).did_move() {
                    grid.set_cell(x - ox, y - oy, None);
                    pull(grid, x - ox - ox, y - oy - oy, dir);
                }
            }
        }
    }
}

/// Lets a sucker at `(x, y)` that faces `dir` act.
fn step_sucker(grid: &mut Grid, x: isize, y: isize, dir: Direction)
    requires
        old(grid).wf(),
    ensures
        final(grid).wf(),
        final(grid).tick_count() == old(grid).tick_count(),
        final(grid)@.same_size(old(grid)@),
        final(grid)@ == sucker_step(old(grid)@, x as int, y as int, dir),
{
    proof {
        reveal(sucker_step);
    }
    if act(grid, x, y, SUCKER, dir) {
        let (ox, oy) = dir.to_vector();
        pull(grid, x + ox, y + oy, dir.flip());
    }
}

/// Copies the cell that stands one step against `from` of `(x, y)` and
/// pushes the copy, turned by `turn`, one step along `to`. Where `check` is
/// set, a cell that cannot be generated is not copied.
fn emit(
    grid: &mut Grid,
    x: isize,
    y: isize,
    from: Direction,
    to: Direction,
    turn: Direction,
    check: bool,
)
    requires
        old(grid).wf(),
        0 <= x < isize::MAX - 1,
        0 <= y < isize::MAX - 1,
    ensures
        final(grid).wf(),
        final(grid).tick_count() == old(grid).tick_count(),
        final(grid)@.same_size(old(grid)@),
        final(grid)@ == emitted(old(grid)@, x as int, y as int, from, to, turn, check),
{
    let (fx, fy) = from.to_vector();
    let (tx, ty) = to.to_vector();
    if let Some(cell) = grid.get(x - fx, y - fy) {
        if !check || can_generate(&cell) {
            let mut copy = cell.copy();
            copy.direction = cell.direction.plus(turn);
            push(grid, x + tx, y + ty, to, 1, Some(copy), false);
        }
    }
}

/// Lets a generator at `(x, y)` that faces `dir` act.
fn step_gen(grid: &mut Grid, x: isize, y: isize, dir: Direction)
    requires
        old(grid).wf(),
    ensures
        final(grid).wf(),
        final(grid).tick_count() == old(grid).tick_count(),
        final(grid)@.same_size(old(grid)@),
        final(grid)@ == gen_step(old(grid)@, x as int, y as int, dir),
{
    proof {
        reveal(gen_step);
    }
    if act(grid, x, y, GENERATOR, dir) {
        emit(grid, x, y, dir, dir, Direction::Right, true);
    }
}

/// Lets an angled generator at `(x, y)` that faces `dir` act.
fn step_angled_gen(grid: &mut Grid, x: isize, y: isize, dir: Direction)
    requires
        old(grid).wf(),
    ensures
        final(grid).wf(),
        final(grid).tick_count() == old(grid).tick_count(),
        final(grid)@.same_size(old(grid)@),
        final(grid)@ == angled_gen_step(old(grid)@, x as int, y as int, dir),
{
    proof {
        reveal(angled_gen_step);
    }
    if act(grid, x, y, GENERATOR_CW, dir) {
        emit(grid, x, y, dir, dir.rotate_right(), Direction::Down, false);
    } else if act(grid, x, y, GENERATOR_CCW, dir) {
        emit(grid, x, y, dir, dir.rotate_left(), Direction::Up, false);
    }
}

/// Lets a physical generator at `(x, y)` that faces `dir` act.
fn step_physical_gen(grid: &mut Grid, x: isize, y: isize, dir: Direction)
    requires
        old(grid).wf(),
    ensures
        final(grid).wf(),
        final(grid).tick_count() == old(grid).tick_count(),
        final(grid)@.same_size(old(grid)@),
        final(grid)@ == physical_gen_step(old(grid)@, x as int, y as int, dir),
{
    proof {
        reveal(physical_gen_step);
    }
    if act(grid, x, y, PHYSICAL_GENERATOR, dir) {
        let (ox, oy) = dir.to_vector();
        if let Some(cell) = grid.get(x - ox, y - oy) {
            if can_generate(&cell) {
                if !push(grid, x + ox, y + oy, dir, 1, Some(cell.copy()), false).did_move() {
                    push(grid, x, y, dir.flip(), 1, Some(cell.copy()), false);
                }
            }
        }
    }
}

/// Lets a cross generator at `(x, y)` that faces `dir` act.
fn step_cross_gen(grid: &mut Grid, x: isize, y: isize, dir: Direction)
    requires
        old(grid).wf(),
    ensures
        final(grid).wf(),
        final(grid).tick_count() == old(grid).tick_count(),
        final(grid)@.same_size(old(grid)@),
        final(grid)@ == cross_gen_step(old(grid)@, x as int, y as int, dir),
{
    proof {
        reveal(cross_gen_step);
    }
    if act(grid, x, y, GENERATOR_CROSS, dir) {
        emit(grid, x, y, dir, dir, Direction::Right, true);
        emit(grid, x, y, dir.rotate_left(), dir.rotate_left(), Direction::Right, true);
    }
}

/// Lets a replicator at `(x, y)` that faces `dir` act.
fn step_replicator(grid: &mut Grid, x: isize, y: isize, dir: Direction)
    requires
        old(grid).wf(),
    ensures
        final(grid).wf(),
        final(grid).tick_count() == old(grid).tick_count(),
        final(grid)@.same_size(old(grid)@),
        final(grid)@ == replicator_step(old(grid)@, x as int, y as int, dir),
{
    proof {
        reveal(replicator_step);
    }
    if act(grid, x, y, REPLICATOR, dir) {
        emit(grid, x, y, dir.flip(), dir, Direction::Right, true);
    }
}

/// Lets a post office at `(x, y)` that faces `dir` act.
fn step_postoffice(grid: &mut Grid, x: isize, y: isize, dir: Direction)
    requires
        old(grid).wf(),
    ensures
        final(grid).wf(),
        final(grid).tick_count() == old(grid).tick_count(),
        final(grid)@.same_size(old(grid)@),
        final(grid)@ == postoffice_step(old(grid)@, x as int, y as int, dir),
{
    proof {
        reveal(postoffice_step);
    }
    if act(grid, x, y, POSTOFFICE, dir) {
        let (ox, oy) = dir.to_vector();
        if let Some(mailbox) = grid.get(x + ox, y + oy) {
            if mailbox.id == MAILBOX {
                if let Some(mail) = grid.get(x - ox, y - oy) {
                    if can_move(&mail, dir, MoveForce::Pull) {
                        let mut filled = mailbox;
                        filled.contained_cell = Some((mail.id, mail.direction.minus(dir)));
                        grid.set(x + ox, y + oy, filled);
                        grid.delete(x - ox, y - oy);
                    }
                }
            }
        }
    }
}

/// Turns the four neighbours of `(x, y)` by `turn`: right, below, left,
/// above.
fn turn_around(grid: &mut Grid, x: isize, y: isize, turn: Direction)
    requires
        old(grid).wf(),
        0 <= x < isize::MAX - 1,
        0 <= y < isize::MAX - 1,
    ensures
        final(grid).wf(),
        final(grid).tick_count() == old(grid).tick_count(),
        final(grid)@.same_size(old(grid)@),
        final(grid)@ == turned_around(old(grid)@, x as int, y as int, turn),
{
    rotate_by(grid, x + 1, y, turn, Direction::Left);
    rotate_by(grid, x, y - 1, turn, Direction::Up);
    rotate_by(grid, x - 1, y, turn, Direction::Right);
    rotate_by(grid, x, y + 1, turn, Direction::Down);
}

/// Lets a rotator at `(x, y)` act.
fn step_rotator(grid: &mut Grid, x: isize, y: isize)
    requires
        old(grid).wf(),
    ensures
        final(grid).wf(),
        final(grid).tick_count() == old(grid).tick_count(),
        final(grid)@.same_size(old(grid)@),
        final(grid)@ == rotator_step(old(grid)@, x as int, y as int),
{
    proof {
        reveal(rotator_step);
    }
    if act_any(grid, x, y, ROTATOR_CW) {
        turn_around(grid, x, y, Direction::Down);
    } else if act_any(grid, x, y, ROTATOR_CCW) {
        turn_around(grid, x, y, Direction::Up);
    } else if act_any(grid, x, y, ROTATOR_180) {
        turn_around(grid, x, y, Direction::Left);
    }
}

/// Lets an orientator at `(x, y)` act.
fn step_orientator(grid: &mut Grid, x: isize, y: isize)
    requires
        old(grid).wf(),
    ensures
        final(grid).wf(),
        final(grid).tick_count() == old(grid).tick_count(),
        final(grid)@.same_size(old(grid)@),
        final(grid)@ == orientator_step(old(grid)@, x as int, y as int),
{
    proof {
        reveal(orientator_step);
    }
    let found = grid.get(x, y);
    if act_any(grid, x, y, ORIENTATOR) {
        if let Some(cell) = found {
            rotate_to(grid, x + 1, y, cell.direction, Direction::Left);
            rotate_to(grid, x, y - 1, cell.direction, Direction::Up);
            rotate_to(grid, x - 1, y, cell.direction, Direction::Right);
            rotate_to(grid, x, y + 1, cell.direction, Direction::Down);
        }
    }
}

/// Whether `(x, y)` is an empty square of the grid.
fn is_free(grid: &Grid, x: isize, y: isize) -> (r: bool)
    requires
        grid.wf(),
    ensures
        r == free(grid@, x as int, y as int),
{
    grid.is_in_bounds(x, y) && grid.get(x, y).is_none()
}

/// Whether a stone can slide over the square in `dir`.
fn is_passable(square: &Option<Cell>, dir: Direction) -> (r: bool)
    ensures
        r == passable(*square, dir),
{
    match square {
        Some(cell) => !is_trash(cell, dir) && can_move(cell, dir, MoveForce::Push),
        None => true,
    }
}

/// To which side a stone at `(x, y)` whose right is `dir` settles, if to
/// any.
fn settle_side(grid: &Grid, x: isize, y: isize, dir: Direction) -> (r: Option<Direction>)
    requires
        grid.wf(),
        0 <= x < isize::MAX - 1,
        0 <= y < isize::MAX - 1,
    ensures
        r == stone_side(grid@, x as int, y as int, dir),
{
    let down = dir.rotate_right();
    let (rx, ry) = dir.to_vector();
    let (dx, dy) = down.to_vector();
    let right_free = is_free(grid, x + rx + dx, y + ry + dy);
    let left_free = is_free(grid, x - rx + dx, y - ry + dy);
    if !right_free && !left_free {
        None
    } else if !left_free {
        Some(dir)
    } else if !right_free {
        Some(dir.flip())
    } else if is_passable(&grid.get(x + rx, y + ry), dir) {
        Some(dir)
    } else if is_passable(&grid.get(x - rx, y - ry), dir.flip()) {
        Some(dir.flip())
    } else {
        None
    }
}

/// Lets a stone at `(x, y)` whose right is `dir` act.
fn step_stone(grid: &mut Grid, x: isize, y: isize, dir: Direction)
    requires
        old(grid).wf(),
    ensures
        final(grid).wf(),
        final(grid).tick_count() == old(grid).tick_count(),
        final(grid)@.same_size(old(grid)@),
        final(grid)@ == stone_step(old(grid)@, x as int, y as int, dir),
{
    proof {
        reveal(stone_step);
    }
    if act(grid, x, y, STONE, dir) {
        let down = dir.rotate_right();
        if !push(grid, x, y, down, 1, None, false).did_move() {
            if let Some(side) = settle_side(grid, x, y, dir) {
                let (sx, sy) = side.to_vector();
                if push(grid, x, y, side, 1, None, false).did_move_survive() {
                    push(grid, x + sx, y + sy, down, 1, None, false);
                }
            }
        }
    }
}

/// Lets a mailbox at `(x, y)` that faces `dir` act.
fn step_mailbox(grid: &mut Grid, x: isize, y: isize, dir: Direction)
    requires
        old(grid).wf(),
    ensures
        final(grid).wf(),
        final(grid).tick_count() == old(grid).tick_count(),
        final(grid)@.same_size(old(grid)@),
        final(grid)@ == mailbox_step(old(grid)@, x as int, y as int, dir),
{
    proof {
        reveal(mailbox_step);
    }
    let found = grid.get(x, y);
    if act(grid, x, y, MAILBOX, dir) {
        if let Some(cell) = found {
            if let Some(contained) = cell.contained_cell {
                if !push(grid, x, y, dir, 1, None, false).did_move() {
                    grid.set(x, y, Cell::new(contained.0, dir.plus(contained.1)));
                }
            }
        }
    }
}

/// Lets a pullsher at `(x, y)` that faces `dir` act.
fn step_pullsher(grid: &mut Grid, x: isize, y: isize, dir: Direction)
    requires
        old(grid).wf(),
    ensures
        final(grid).wf(),
        final(grid).tick_count() == old(grid).tick_count(),
        final(grid)@.same_size(old(grid)@),
        final(grid)@ == pullsher_step(old(grid)@, x as int, y as int, dir),
{
    proof {
        reveal(pullsher_step);
    }
    if act(grid, x, y, PULLSHER, dir) {
        let (ox, oy) = dir.to_vector();
        if push(grid, x, y, dir, 1, None, true).did_move() {
            pull(grid, x - ox, y - oy, dir);
        }
    }
}

/// Lets a trash puller at `(x, y)` that faces `dir` act.
fn step_trashpuller(grid: &mut Grid, x: isize, y: isize, dir: Direction)
    requires
        old(grid).wf(),
    ensures
        final(grid).wf(),
        final(grid).tick_count() == old(grid).tick_count(),
        final(grid)@.same_size(old(grid)@),
        final(grid)@ == trashpuller_step(old(grid)@, x as int, y as int, dir),
{
    proof {
        reveal(trashpuller_step);
    }
    if act(grid, x, y, TRASHPULLER, dir) {
        let (ox, oy) = dir.to_vector();
        if let Some(pulled) = grid.get(x - ox, y - oy) {
            if can_move(&pulled, dir, MoveForce::Pull) && !is_trash(&pulled, dir) {
                grid.delete(x - ox, y - oy);
                if grid.get(x + ox, y + oy).is_none() {
                    pull(grid, x, y, dir);
                }
            }
        }
    }
}

/// Lets a puller at `(x, y)` that faces `dir` act.
fn step_puller(grid: &mut Grid, x: isize, y: isize, dir: Direction)
    requires
        old(grid).wf(),
    ensures
        final(grid).wf(),
        final(grid).tick_count() == old(grid).tick_count(),
        final(grid)@.same_size(old(grid)@),
        final(grid)@ == puller_step(old(grid)@, x as int, y as int, dir),
{
    proof {
        reveal(puller_step);
    }
    if act(grid, x, y, PULLER, dir) {
        let (ox, oy) = dir.to_vector();
        if is_free(grid, x + ox, y + oy) {
            pull(grid, x, y, dir);
        }
    }
}

/// Lets a trash mover at `(x, y)` that faces `dir` act.
fn step_trashmover(grid: &mut Grid, x: isize, y: isize, dir: Direction)
    requires
        old(grid).wf(),
    ensures
        final(grid).wf(),
        final(grid).tick_count() == old(grid).tick_count(),
        final(grid)@.same_size(old(grid)@),
        final(grid)@ == trashmover_step(old(grid)@, x as int, y as int, dir),
{
    proof {
        reveal(trashmover_step);
    }
    if act(grid, x, y, TRASHMOVER, dir) {
        let (ox, oy) = dir.to_vector();
        if let Some(pushed) = grid.get(x + ox, y + oy) {
            if can_move(&pushed, dir, MoveForce::Push) && !is_trash(&pushed, dir) {
                grid.delete(x + ox, y + oy);
            }
        }
        push(grid, x, y, dir, 0, None, true);
    }
}

/// Lets a mover at `(x, y)` that faces `dir` act.
fn step_mover(grid: &mut Grid, x: isize, y: isize, dir: Direction)
    requires
        old(grid).wf(),
    ensures
        final(grid).wf(),
        final(grid).tick_count() == old(grid).tick_count(),
        final(grid)@.same_size(old(grid)@),
        final(grid)@ == mover_step(old(grid)@, x as int, y as int, dir),
{
    proof {
        reveal(mover_step);
    }
    if act(grid, x, y, MOVER, dir) {
        push(grid, x, y, dir, 0, None, true);
    }
}

/// Lets a speed cell at `(x, y)` that faces `dir` act.
fn step_speed(grid: &mut Grid, x: isize, y: isize, dir: Direction)
    requires
        old(grid).wf(),
    ensures
        final(grid).wf(),
        final(grid).tick_count() == old(grid).tick_count(),
        final(grid)@.same_size(old(grid)@),
        final(grid)@ == speed_step(old(grid)@, x as int, y as int, dir),
{
    proof {
        reveal(speed_step);
    }
    if act(grid, x, y, SPEED, dir) {
        let (ox, oy) = dir.to_vector();
        if grid.get(x + ox, y + oy).is_none() {
            push(grid, x, y, dir, 0, None, true);
        }
    }
}

/// Lets the square `(x, y)` do what it does when a sweep of one of the
/// phases without direction comes by.
fn step_plain(grid: &mut Grid, phase: Phase, dir: Direction, x: isize, y: isize)
    requires
        old(grid).wf(),
        !spec_directional(phase),
    ensures
        final(grid).wf(),
        final(grid).tick_count() == old(grid).tick_count(),
        final(grid)@.same_size(old(grid)@),
        final(grid)@ == step(old(grid)@, phase, dir, x as int, y as int),
{
    match phase {
        Phase::Mirrors => step_mirror(grid, x, y, dir),
        Phase::CrossMirrors => step_crossmirror(grid, x, y),
        Phase::Rotators => step_rotator(grid, x, y),
        _ => step_orientator(grid, x, y),
    }
}

/// Whether the phase is one of those in which cells are made or carried
/// over: the tunnels, the fixed pullshers, the suckers, the generators of
/// all kinds, the replicators and the post offices.
pub open spec fn spec_is_maker(phase: Phase) -> bool {
    phase == Phase::Tunnels || phase == Phase::FixedPullshers || phase == Phase::Suckers || phase
        == Phase::Gens || phase == Phase::AngledGens || phase == Phase::PhysicalGens || phase
        == Phase::CrossGens || phase == Phase::Replicators || phase == Phase::PostOffices
}

/// Whether the phase is one of those in which cells are made or carried
/// over.
#[verifier::when_used_as_spec(spec_is_maker)]
pub fn is_maker(phase: Phase) -> (r: bool)
    ensures
        r == spec_is_maker(phase),
{
    match phase {
        Phase::Tunnels
        | Phase::FixedPullshers
        | Phase::Suckers
        | Phase::Gens
        | Phase::AngledGens
        | Phase::PhysicalGens
        | Phase::CrossGens
        | Phase::Replicators
        | Phase::PostOffices => true,
        _ => false,
    }
}

/// Lets the square `(x, y)` do what it does when a sweep of one of the
/// making phases comes by.
fn step_maker(grid: &mut Grid, phase: Phase, dir: Direction, x: isize, y: isize)
    requires
        old(grid).wf(),
        spec_is_maker(phase),
    ensures
        final(grid).wf(),
        final(grid).tick_count() == old(grid).tick_count(),
        final(grid)@.same_size(old(grid)@),
        final(grid)@ == step(old(grid)@, phase, dir, x as int, y as int),
{
    match phase {
        Phase::Tunnels => step_tunnel(grid, x, y, dir),
        Phase::FixedPullshers => step_fixed_pullsher(grid, x, y, dir),
        Phase::Suckers => step_sucker(grid, x, y, dir),
        Phase::Gens => step_gen(grid, x, y, dir),
        Phase::AngledGens => step_angled_gen(grid, x, y, dir),
        Phase::PhysicalGens => step_physical_gen(grid, x, y, dir),
        Phase::CrossGens => step_cross_gen(grid, x, y, dir),
        Phase::Replicators => step_replicator(grid, x, y, dir),
        _ => step_postoffice(grid, x, y, dir),
    }
}

/// Lets the square `(x, y)` do what it does when a sweep of one of the
/// moving phases comes by: those by direction that make no cell.
fn step_walker(grid: &mut Grid, phase: Phase, dir: Direction, x: isize, y: isize)
    requires
        old(grid).wf(),
        spec_directional(phase),
        !spec_is_maker(phase),
    ensures
        final(grid).wf(),
        final(grid).tick_count() == old(grid).tick_count(),
        final(grid)@.same_size(old(grid)@),
        final(grid)@ == step(old(grid)@, phase, dir, x as int, y as int),
{
    match phase {
        Phase::Stones => step_stone(grid, x, y, dir),
        Phase::Mailboxes => step_mailbox(grid, x, y, dir),
        Phase::Pullshers => step_pullsher(grid, x, y, dir),
        Phase::TrashPullers => step_trashpuller(grid, x, y, dir),
        Phase::Pullers => step_puller(grid, x, y, dir),
        Phase::TrashMovers => step_trashmover(grid, x, y, dir),
        Phase::Movers => step_mover(grid, x, y, dir),
        _ => step_speed(grid, x, y, dir),
    }
}

/// Lets the square `(x, y)` do what it does when a sweep of `phase` comes
/// by.
fn step_cell(grid: &mut Grid, phase: Phase, dir: Direction, x: isize, y: isize)
    requires
        old(grid).wf(),
    ensures
        final(grid).wf(),
        final(grid).tick_count() == old(grid).tick_count(),
        final(grid)@.same_size(old(grid)@),
        final(grid)@ == step(old(grid)@, phase, dir, x as int, y as int),
{
    if !directional(phase) {
        step_plain(grid, phase, dir, x, y);
    } else if is_maker(phase) {
        step_maker(grid, phase, dir, x, y);
    } else {
        step_walker(grid, phase, dir, x, y);
    }
}

/// Sweeps the grid once for `phase`: forward from the first square to the
/// last, or in reverse.
fn sweep(grid: &mut Grid, phase: Phase, dir: Direction, reverse: bool)
    requires
        old(grid).wf(),
    ensures
        final(grid).wf(),
        final(grid).tick_count() == old(grid).tick_count(),
        final(grid)@.same_size(old(grid)@),
        final(grid)@ == swept(old(grid)@, phase, dir, reverse),
{
    let ghost b = grid@;
    proof {
        grid.lemma_view();
    }
    let w = grid.width();
    let h = grid.height();
    let n: usize = w * h;
    let mut k: usize = 0;
    while k < n
        invariant
            k <= n,
            n == w * h,
            w == b.width,
            h == b.height,
            b.wf(),
            n < isize::MAX,
            grid.wf(),
            grid.tick_count() == old(grid).tick_count(),
            grid@.same_size(b),
            grid@ == sweep_board(b, phase, dir, reverse, k as nat),
        decreases n - k,
    {
        let i: usize = if reverse {
            n - 1 - k
        } else {
            k
        };
        proof {
            lemma_index_square(w as int, h as int, i as int);
        }
        step_cell(grid, phase, dir, (i % w) as isize, (i / w) as isize);
        k = k + 1;
    }
}

/// Whether the cells of a phase act by direction.
#[verifier::when_used_as_spec(spec_directional)]
pub fn directional(phase: Phase) -> (r: bool)
    ensures
        r == spec_directional(phase),
{
    match phase {
        Phase::Mirrors | Phase::CrossMirrors | Phase::Rotators | Phase::Orientators => false,
        _ => true,
    }
}

/// Runs one phase of a tick on the grid.
pub fn run_phase(grid: &mut Grid, phase: Phase)
    requires
        old(grid).wf(),
    ensures
        final(grid).wf(),
        final(grid).tick_count() == old(grid).tick_count(),
        final(grid)@.same_size(old(grid)@),
        final(grid)@ == phase_board(old(grid)@, phase),
{
    match phase {
        Phase::Mirrors => {
            sweep(grid, phase, Direction::Right, false);
            sweep(grid, phase, Direction::Down, false);
        },
        _ => {
            if directional(phase) {
                sweep(grid, phase, Direction::Right, true);
                sweep(grid, phase, Direction::Left, false);
                sweep(grid, phase, Direction::Up, true);
                sweep(grid, phase, Direction::Down, false);
            } else {
                sweep(grid, phase, Direction::Right, false);
            }
        },
    }
}

/// The phase that runs as the `i`-th of a tick, counted from 0.
pub fn phase_of(i: usize) -> (phase: Phase)
    requires
        i < PHASE_COUNT,
    ensures
        phase == phase_at(i as int),
{
    if i == 0 {
        Phase::Mirrors
    } else if i == 1 {
        Phase::CrossMirrors
    } else if i == 2 {
        Phase::Tunnels
    } else if i == 3 {
        Phase::FixedPullshers
    } else if i == 4 {
        Phase::Suckers
    } else if i == 5 {
        Phase::Gens
    } else if i == 6 {
        Phase::AngledGens
    } else if i == 7 {
        Phase::PhysicalGens
    } else if i == 8 {
        Phase::CrossGens
    } else if i == 9 {
        Phase::Replicators
    } else if i == 10 {
        Phase::PostOffices
    } else if i == 11 {
        Phase::Rotators
    } else if i == 12 {
        Phase::Orientators
    } else if i == 13 {
        Phase::Stones
    } else if i == 14 {
        Phase::Mailboxes
    } else if i == 15 {
        Phase::Pullshers
    } else if i == 16 {
        Phase::TrashPullers
    } else if i == 17 {
        Phase::Pullers
    } else if i == 18 {
        Phase::TrashMovers
    } else if i == 19 {
        Phase::Movers
    } else {
        Phase::Speeds
    }
}

/// Whether a phase runs, given for each type of the catalog whether it was
/// on the grid when the tick began.
fn phase_fires(present: &Vec<bool>, phase: Phase, Ghost(b): Ghost<Board>) -> (r: bool)
    requires
        present@.len() == CELL_TYPE_COUNT,
        forall|id: CellType| id < CELL_TYPE_COUNT ==> present@[id as int] == b.has(id),
    ensures
        r == fires(b, phase),
{
    match phase {
        Phase::Mirrors => present[MIRROR as usize],
        Phase::CrossMirrors => present[CROSSMIRROR as usize],
        Phase::Tunnels => present[TUNNEL as usize],
        Phase::FixedPullshers => present[FIXED_PULLSHER as usize],
        Phase::Suckers => present[SUCKER as usize],
        Phase::Gens => present[GENERATOR as usize],
        Phase::AngledGens => present[GENERATOR_CW as usize] || present[GENERATOR_CCW as usize],
        Phase::PhysicalGens => present[PHYSICAL_GENERATOR as usize],
        Phase::CrossGens => present[GENERATOR_CROSS as usize],
        Phase::Replicators => present[REPLICATOR as usize],
        Phase::PostOffices => present[POSTOFFICE as usize],
        Phase::Rotators => present[ROTATOR_CW as usize] || present[ROTATOR_CCW as usize]
            || present[ROTATOR_180 as usize],
        Phase::Orientators => present[ORIENTATOR as usize],
        Phase::Stones => present[STONE as usize],
        Phase::Mailboxes => present[MAILBOX as usize],
        Phase::Pullshers => present[PULLSHER as usize],
        Phase::TrashPullers => present[TRASHPULLER as usize],
        Phase::Pullers => present[PULLER as usize],
        Phase::TrashMovers => present[TRASHMOVER as usize],
        Phase::Movers => present[MOVER as usize],
        Phase::Speeds => present[SPEED as usize],
    }
}

/// Performs a single update step: one tick.
pub fn update(grid: &mut Grid)
    requires
        old(grid).wf(),
        old(grid).tick_count() < u32::MAX,
    ensures
        final(grid).wf(),
        final(grid).tick_count() == old(grid).tick_count() + 1,
        final(grid)@.same_size(old(grid)@),
        final(grid)@ == tick(old(grid)@),
{
    let ghost start = grid@;
    proof {
        grid.lemma_view();
        Board::lemma_from_fn(
            start.width,
            start.height,
            |x: int, y: int|
                match start.get(x, y) {
                    Some(c) => Some(c.with_updated(false)),
                    None => None,
                },
            0,
            0,
        );
    }
    let present = grid.reset_updated();
    let ghost b = grid@;
    let mut i: usize = 0;
    while i < PHASE_COUNT
        invariant
            i <= PHASE_COUNT,
            grid.wf(),
            grid.tick_count() == old(grid).tick_count(),
            grid@.same_size(start),
            grid@ == phases_board(start, b, i as nat),
            present@.len() == CELL_TYPE_COUNT,
            forall|id: CellType| id < CELL_TYPE_COUNT ==> present@[id as int] == start.has(id),
        decreases PHASE_COUNT - i,
    {
        let phase = phase_of(i);
        if phase_fires(&present, phase, Ghost(start)) {
            run_phase(grid, phase);
        }
        i = i + 1;
    }
    grid.count_tick();
}

/// Lets every mirror act.
pub fn do_mirrors(grid: &mut Grid)
    requires
        old(grid).wf(),
    ensures
        final(grid).wf(),
        final(grid).tick_count() == old(grid).tick_count(),
        final(grid)@.same_size(old(grid)@),
        final(grid)@ == phase_board(old(grid)@, Phase::Mirrors),
{
    run_phase(grid, Phase::Mirrors);
}

/// Lets every cross-mirror act.
pub fn do_crossmirrors(grid: &mut Grid)
    requires
        old(grid).wf(),
    ensures
        final(grid).wf(),
        final(grid).tick_count() == old(grid).tick_count(),
        final(grid)@.same_size(old(grid)@),
        final(grid)@ == phase_board(old(grid)@, Phase::CrossMirrors),
{
    run_phase(grid, Phase::CrossMirrors);
}

/// Lets every tunnel act.
pub fn do_tunnels(grid: &mut Grid)
    requires
        old(grid).wf(),
    ensures
        final(grid).wf(),
        final(grid).tick_count() == old(grid).tick_count(),
        final(grid)@.same_size(old(grid)@),
        final(grid)@ == phase_board(old(grid)@, Phase::Tunnels),
{
    run_phase(grid, Phase::Tunnels);
}

/// Lets every fixed pullsher act.
pub fn do_fixed_pullsher(grid: &mut Grid)
    requires
        old(grid).wf(),
    ensures
        final(grid).wf(),
        final(grid).tick_count() == old(grid).tick_count(),
        final(grid)@.same_size(old(grid)@),
        final(grid)@ == phase_board(old(grid)@, Phase::FixedPullshers),
{
    run_phase(grid, Phase::FixedPullshers);
}

/// Lets every sucker act.
pub fn do_suckers(grid: &mut Grid)
    requires
        old(grid).wf(),
    ensures
        final(grid).wf(),
        final(grid).tick_count() == old(grid).tick_count(),
        final(grid)@.same_size(old(grid)@),
        final(grid)@ == phase_board(old(grid)@, Phase::Suckers),
{
    run_phase(grid, Phase::Suckers);
}

/// Lets every generator act.
pub fn do_gens(grid: &mut Grid)
    requires
        old(grid).wf(),
    ensures
        final(grid).wf(),
        final(grid).tick_count() == old(grid).tick_count(),
        final(grid)@.same_size(old(grid)@),
        final(grid)@ == phase_board(old(grid)@, Phase::Gens),
{
    run_phase(grid, Phase::Gens);
}

/// Lets every angled generator act.
pub fn do_angled_gens(grid: &mut Grid)
    requires
        old(grid).wf(),
    ensures
        final(grid).wf(),
        final(grid).tick_count() == old(grid).tick_count(),
        final(grid)@.same_size(old(grid)@),
        final(grid)@ == phase_board(old(grid)@, Phase::AngledGens),
{
    run_phase(grid, Phase::AngledGens);
}

/// Lets every physical generator act.
pub fn do_physical_gens(grid: &mut Grid)
    requires
        old(grid).wf(),
    ensures
        final(grid).wf(),
        final(grid).tick_count() == old(grid).tick_count(),
        final(grid)@.same_size(old(grid)@),
        final(grid)@ == phase_board(old(grid)@, Phase::PhysicalGens),
{
    run_phase(grid, Phase::PhysicalGens);
}

/// Lets every cross generator act.
pub fn do_cross_gens(grid: &mut Grid)
    requires
        old(grid).wf(),
    ensures
        final(grid).wf(),
        final(grid).tick_count() == old(grid).tick_count(),
        final(grid)@.same_size(old(grid)@),
        final(grid)@ == phase_board(old(grid)@, Phase::CrossGens),
{
    run_phase(grid, Phase::CrossGens);
}

/// Lets every replicator act.
pub fn do_replicators(grid: &mut Grid)
    requires
        old(grid).wf(),
    ensures
        final(grid).wf(),
        final(grid).tick_count() == old(grid).tick_count(),
        final(grid)@.same_size(old(grid)@),
        final(grid)@ == phase_board(old(grid)@, Phase::Replicators),
{
    run_phase(grid, Phase::Replicators);
}

/// Lets every post office act.
pub fn do_postoffices(grid: &mut Grid)
    requires
        old(grid).wf(),
    ensures
        final(grid).wf(),
        final(grid).tick_count() == old(grid).tick_count(),
        final(grid)@.same_size(old(grid)@),
        final(grid)@ == phase_board(old(grid)@, Phase::PostOffices),
{
    run_phase(grid, Phase::PostOffices);
}

/// Lets every rotator act.
pub fn do_rotators(grid: &mut Grid)
    requires
        old(grid).wf(),
    ensures
        final(grid).wf(),
        final(grid).tick_count() == old(grid).tick_count(),
        final(grid)@.same_size(old(grid)@),
        final(grid)@ == phase_board(old(grid)@, Phase::Rotators),
{
    run_phase(grid, Phase::Rotators);
}

/// Lets every orientator act.
pub fn do_orientators(grid: &mut Grid)
    requires
        old(grid).wf(),
    ensures
        final(grid).wf(),
        final(grid).tick_count() == old(grid).tick_count(),
        final(grid)@.same_size(old(grid)@),
        final(grid)@ == phase_board(old(grid)@, Phase::Orientators),
{
    run_phase(grid, Phase::Orientators);
}

/// Lets every stone act.
pub fn do_stones(grid: &mut Grid)
    requires
        old(grid).wf(),
    ensures
        final(grid).wf(),
        final(grid).tick_count() == old(grid).tick_count(),
        final(grid)@.same_size(old(grid)@),
        final(grid)@ == phase_board(old(grid)@, Phase::Stones),
{
    run_phase(grid, Phase::Stones);
}

/// Lets every mailbox act.
pub fn do_mailboxes(grid: &mut Grid)
    requires
        old(grid).wf(),
    ensures
        final(grid).wf(),
        final(grid).tick_count() == old(grid).tick_count(),
        final(grid)@.same_size(old(grid)@),
        final(grid)@ == phase_board(old(grid)@, Phase::Mailboxes),
{
    run_phase(grid, Phase::Mailboxes);
}

/// Lets every pullsher act.
pub fn do_pullshers(grid: &mut Grid)
    requires
        old(grid).wf(),
    ensures
        final(grid).wf(),
        final(grid).tick_count() == old(grid).tick_count(),
        final(grid)@.same_size(old(grid)@),
        final(grid)@ == phase_board(old(grid)@, Phase::Pullshers),
{
    run_phase(grid, Phase::Pullshers);
}

/// Lets every trash puller act.
pub fn do_trashpullers(grid: &mut Grid)
    requires
        old(grid).wf(),
    ensures
        final(grid).wf(),
        final(grid).tick_count() == old(grid).tick_count(),
        final(grid)@.same_size(old(grid)@),
        final(grid)@ == phase_board(old(grid)@, Phase::TrashPullers),
{
    run_phase(grid, Phase::TrashPullers);
}

/// Lets every puller act.
pub fn do_pullers(grid: &mut Grid)
    requires
        old(grid).wf(),
    ensures
        final(grid).wf(),
        final(grid).tick_count() == old(grid).tick_count(),
        final(grid)@.same_size(old(grid)@),
        final(grid)@ == phase_board(old(grid)@, Phase::Pullers),
{
    run_phase(grid, Phase::Pullers);
}

/// Lets every trash mover act.
pub fn do_trashmovers(grid: &mut Grid)
    requires
        old(grid).wf(),
    ensures
        final(grid).wf(),
        final(grid).tick_count() == old(grid).tick_count(),
        final(grid)@.same_size(old(grid)@),
        final(grid)@ == phase_board(old(grid)@, Phase::TrashMovers),
{
    run_phase(grid, Phase::TrashMovers);
}

/// Lets every mover act.
pub fn do_movers(grid: &mut Grid)
    requires
        old(grid).wf(),
    ensures
        final(grid).wf(),
        final(grid).tick_count() == old(grid).tick_count(),
        final(grid)@.same_size(old(grid)@),
        final(grid)@ == phase_board(old(grid)@, Phase::Movers),
{
    run_phase(grid, Phase::Movers);
}

/// Lets every speed cell act.
pub fn do_speeds(grid: &mut Grid)
    requires
        old(grid).wf(),
    ensures
        final(grid).wf(),
        final(grid).tick_count() == old(grid).tick_count(),
        final(grid)@.same_size(old(grid)@),
        final(grid)@ == phase_board(old(grid)@, Phase::Speeds),
{
    run_phase(grid, Phase::Speeds);
}

} // verus!
