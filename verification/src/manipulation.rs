//! The primitives that every acting cell is built from: the policies of the
//! cell types, the push cascade, the pull cascade and rotation.
//!
//! Each cascade is specified in two parts: how far it reaches, found by
//! walking along the line of motion, and the board it leaves, given square by
//! square.

use vstd::prelude::*;
use crate::cell_data::CROSSMIRROR;
use crate::cell_data::CellType;
use crate::cell_data::ENEMY;
use crate::cell_data::GHOST;
use crate::cell_data::MIRROR;
use crate::cell_data::MOVER;
use crate::cell_data::MOVLER;
use crate::cell_data::ONE_DIR;
use crate::cell_data::ORIENTATOR;
use crate::cell_data::PULLER;
use crate::cell_data::PULLSHER;
use crate::cell_data::SLIDE;
use crate::cell_data::SLIDE_WALL;
use crate::cell_data::SPEED;
use crate::cell_data::SUCKER;
use crate::cell_data::TRASH;
use crate::cell_data::TRASHMOVER;
use crate::cell_data::TRASHPULLER;
use crate::cell_data::WALL;
use crate::cells::Board;
use crate::cells::Cell;
use crate::cells::Grid;
use crate::direction::Direction;

verus! {

/// A force a cell is moved with.
#[derive(Debug, Copy, Clone, PartialEq, Eq, Structural)]
pub enum MoveForce {
    Push,
    Pull,
    Swap,
}

/// The result when pushing a cell.
#[derive(Debug, Copy, Clone, PartialEq, Eq, Structural)]
pub enum PushResult {
    Moved,
    NotMoved,
    Trashed,
}

impl PushResult {
    /// Whether the cell was moved, consumed or not.
    pub open spec fn spec_did_move(&self) -> bool {
        *self == PushResult::Moved || *self == PushResult::Trashed
    }

    /// Whether the cell was moved and not consumed.
    pub open spec fn spec_did_move_survive(&self) -> bool {
        *self == PushResult::Moved
    }

    /// Returns whether the cell was moved.
    #[verifier::when_used_as_spec(spec_did_move)]
    pub fn did_move(&self) -> (r: bool)
        ensures
            r == self.spec_did_move(),
    {
        match self {
            PushResult::Moved => true,
            PushResult::NotMoved => false,
            PushResult::Trashed => true,
        }
    }

    /// Returns whether the cell was moved and *not* trashed.
    #[verifier::when_used_as_spec(spec_did_move_survive)]
    pub fn did_move_survive(&self) -> (r: bool)
        ensures
            r == self.spec_did_move_survive(),
    {
        match self {
            PushResult::Moved => true,
            PushResult::NotMoved => false,
            PushResult::Trashed => false,
        }
    }
}

/// The types that add to a push or pull along their own direction, and take
/// from one against it.
pub open spec fn spec_is_pusher(id: CellType) -> bool {
    id == MOVER || id == PULLER || id == PULLSHER || id == TRASHMOVER || id == SPEED || id
        == MOVLER
}

/// What a cell adds to the force of a motion heading in `dir`.
pub open spec fn bias(cell: Cell, dir: Direction) -> int {
    if spec_is_pusher(cell.id) && cell.direction == dir {
        1
    } else if spec_is_pusher(cell.id) && cell.direction == dir.flip() {
        -1
    } else {
        0
    }
}

/// Whether `cell` yields to a motion of force `force` heading in `direction`.
pub open spec fn spec_can_move(cell: Cell, direction: Direction, force: MoveForce) -> bool {
    if cell.id == WALL || cell.id == GHOST {
        false
    } else if cell.id == SLIDE || cell.id == SLIDE_WALL {
        cell.direction.shrink(2) == direction.shrink(2)
    } else if cell.id == ONE_DIR {
        cell.direction == direction
    } else if cell.id == MIRROR {
        !(force == MoveForce::Swap && cell.direction.shrink(2) == direction.shrink(2))
    } else if cell.id == CROSSMIRROR {
        force != MoveForce::Swap
    } else {
        true
    }
}

/// Whether `cell` consumes what arrives at it moving in `direction`.
pub open spec fn spec_is_trash(cell: Cell, direction: Direction) -> bool {
    if cell.id == TRASH || cell.id == ENEMY {
        true
    } else if cell.id == TRASHMOVER || cell.id == SUCKER {
        cell.direction == direction.flip()
    } else if cell.id == TRASHPULLER {
        cell.direction == direction
    } else {
        false
    }
}

/// Whether a generator may copy `cell`.
pub open spec fn spec_can_generate(cell: Cell) -> bool {
    cell.id != GHOST
}

/// Whether `cell` turns when a rotator acts on it from `side`, the direction
/// that points from the cell back to the rotator.
pub open spec fn spec_can_rotate(cell: Cell, side: Direction) -> bool {
    if cell.id == WALL || cell.id == GHOST || cell.id == ORIENTATOR {
        false
    } else if cell.id == SLIDE_WALL {
        cell.direction.spec_minus(side).shrink(2) != Direction::Down
    } else {
        true
    }
}

/// Whether a cell yields to a motion depends on nothing but its type, its
/// direction, the direction of the motion and the force.
pub proof fn lemma_can_move_by_type_and_direction(
    a: Cell,
    b: Cell,
    direction: Direction,
    force: MoveForce,
)
    requires
        a.id == b.id,
        a.direction == b.direction,
    ensures
        spec_can_move(a, direction, force) == spec_can_move(b, direction, force),
{
}

/// Whether a type adds to a push or pull along its own direction.
pub fn is_pusher(id: CellType) -> (r: bool)
    ensures
        r == spec_is_pusher(id),
{
    id == MOVER || id == PULLER || id == PULLSHER || id == TRASHMOVER || id == SPEED || id
        == MOVLER
}

/// Checks if a cell can move in a certain direction with the given force.
pub fn can_move(cell: &Cell, direction: Direction, force: MoveForce) -> (r: bool)
    ensures
        r == spec_can_move(*cell, direction, force),
{
    if cell.id == WALL || cell.id == GHOST {
        false
    } else if cell.id == SLIDE || cell.id == SLIDE_WALL {
        cell.direction.shrink(2) == direction.shrink(2)
    } else if cell.id == ONE_DIR {
        cell.direction == direction
    } else if cell.id == MIRROR {
        !(force == MoveForce::Swap && cell.direction.shrink(2) == direction.shrink(2))
    } else if cell.id == CROSSMIRROR {
        force != MoveForce::Swap
    } else {
        true
    }
}

/// Checks if a cell is a trash in the direction it is being pushed.
pub fn is_trash(cell: &Cell, direction: Direction) -> (r: bool)
    ensures
        r == spec_is_trash(*cell, direction),
{
    if cell.id == TRASH || cell.id == ENEMY {
        true
    } else if cell.id == TRASHMOVER || cell.id == SUCKER {
        cell.direction == direction.flip()
    } else if cell.id == TRASHPULLER {
        cell.direction == direction
    } else {
        false
    }
}

/// Checks if a cell can be generated.
pub fn can_generate(cell: &Cell) -> (r: bool)
    ensures
        r == spec_can_generate(*cell),
{
    cell.id != GHOST
}

/// Checks if a cell can be rotated from a specific direction.
pub fn can_rotate(cell: &Cell, side: Direction) -> (r: bool)
    ensures
        r == spec_can_rotate(*cell, side),
{
    if cell.id == WALL || cell.id == GHOST || cell.id == ORIENTATOR {
        false
    } else if cell.id == SLIDE_WALL {
        cell.direction.minus(side).shrink(2) != Direction::Down
    } else {
        true
    }
}

/// The x coordinate reached from `x` by `k` steps in `dir`.
pub open spec fn step_x(x: int, dir: Direction, k: int) -> int {
    match dir {
        Direction::Right => x + k,
        Direction::Left => x - k,
        _ => x,
    }
}

/// The y coordinate reached from `y` by `k` steps in `dir`.
pub open spec fn step_y(y: int, dir: Direction, k: int) -> int {
    match dir {
        Direction::Up => y + k,
        Direction::Down => y - k,
        _ => y,
    }
}

/// Whether `(px, py)` lies on the line through `(x, y)` along `dir`.
pub open spec fn on_line(x: int, y: int, dir: Direction, px: int, py: int) -> bool {
    match dir {
        Direction::Right | Direction::Left => py == y,
        Direction::Up | Direction::Down => px == x,
    }
}

/// For a point on the line through `(x, y)` along `dir`: the number of steps
/// in `dir` that lead from `(x, y)` to it, negative behind `(x, y)`.
pub open spec fn steps_to(x: int, y: int, dir: Direction, px: int, py: int) -> int {
    match dir {
        Direction::Right => px - x,
        Direction::Left => x - px,
        Direction::Up => py - y,
        Direction::Down => y - py,
    }
}

/// The number of squares of the board from `(x, y)` on in direction `dir`,
/// `(x, y)` included.
pub open spec fn room(b: Board, x: int, y: int, dir: Direction) -> int {
    match dir {
        Direction::Right => b.width - x,
        Direction::Left => x + 1,
        Direction::Up => b.height - y,
        Direction::Down => y + 1,
    }
}

/// The scan of a push. Starting at `(x, y)` and walking in `dir`, it returns
/// how many steps ahead the push comes to rest: on the first empty square, or
/// on the first cell that consumes what arrives from that side. It returns
/// `None` where the push is blocked: by the edge of the board, by a cell that
/// does not yield, or because the force is used up.
pub open spec fn push_reach(b: Board, x: int, y: int, dir: Direction, force: int) -> Option<nat>
    decreases room(b, x, y, dir),
{
    if !b.in_bounds(x, y) {
        None
    } else {
        match b.get(x, y) {
            None => Some(0),
            Some(c) => {
                let f = force + bias(c, dir);
                if spec_is_trash(c, dir) {
                    Some(0)
                } else if !spec_can_move(c, dir, MoveForce::Push) {
                    None
                } else if f <= 0 {
                    None
                } else {
                    match push_reach(b, step_x(x, dir, 1), step_y(y, dir, 1), dir, f) {
                        Some(n) => Some(n + 1),
                        None => None,
                    }
                }
            },
        }
    }
}

/// A cell as a push carries it: a pusher that faces the way of the push is
/// marked updated, if the push marks at all.
pub open spec fn carried(cell: Option<Cell>, dir: Direction, setupdated: bool) -> Option<Cell> {
    match cell {
        Some(c) => if setupdated && spec_is_pusher(c.id) && c.direction == dir {
            Some(c.with_updated(true))
        } else {
            Some(c)
        },
        None => None,
    }
}

/// What the square `(px, py)` holds while a push from `(x, y)` is under way
/// and has so far rewritten the first `done` squares of its line: each of
/// them holds what stood one step behind it, the first the replacement.
pub open spec fn push_square(
    b: Board,
    x: int,
    y: int,
    dir: Direction,
    done: int,
    replacement: Option<Cell>,
    setupdated: bool,
    px: int,
    py: int,
) -> Option<Cell> {
    let k = steps_to(x, y, dir, px, py);
    if on_line(x, y, dir, px, py) && 0 <= k < done {
        if k == 0 {
            carried(replacement, dir, setupdated)
        } else {
            carried(b.get(step_x(x, dir, k - 1), step_y(y, dir, k - 1)), dir, setupdated)
        }
    } else {
        b.get(px, py)
    }
}

/// The board that a push leaves behind. A blocked push changes nothing.
/// Otherwise the line from `(x, y)` to the square where the push comes to
/// rest moves one step on, and the replacement enters at `(x, y)`. Where the
/// push comes to rest on a cell, that cell consumes the last of the line; an
/// enemy is consumed with it.
pub open spec fn push_board(
    b: Board,
    x: int,
    y: int,
    dir: Direction,
    force: int,
    replacement: Option<Cell>,
    setupdated: bool,
) -> Board {
    match push_reach(b, x, y, dir, force) {
        None => b,
        Some(t) => {
            let end = b.get(step_x(x, dir, t as int), step_y(y, dir, t as int));
            match end {
                None => Board::from_fn(
                    b.width,
                    b.height,
                    |px: int, py: int|
                        push_square(b, x, y, dir, t as int + 1, replacement, setupdated, px, py),
                ),
                Some(e) => Board::from_fn(
                    b.width,
                    b.height,
                    |px: int, py: int|
                        if e.id == ENEMY && px == step_x(x, dir, t as int) && py == step_y(
                            y,
                            dir,
                            t as int,
                        ) {
                            None
                        } else {
                            push_square(b, x, y, dir, t as int, replacement, setupdated, px, py)
                        },
                ),
            }
        },
    }
}

/// What a push reports. `NotMoved`: it was blocked. `Trashed`: it came to
/// rest on an enemy, or on a consuming cell at its very first square.
/// `Moved` otherwise.
pub open spec fn push_result(b: Board, x: int, y: int, dir: Direction, force: int) -> PushResult {
    match push_reach(b, x, y, dir, force) {
        None => PushResult::NotMoved,
        Some(t) => {
            match b.get(step_x(x, dir, t as int), step_y(y, dir, t as int)) {
                None => PushResult::Moved,
                Some(e) => if e.id == ENEMY || t == 0 {
                    PushResult::Trashed
                } else {
                    PushResult::Moved
                },
            }
        },
    }
}

/// A push leaves a board of the same dimensions.
pub proof fn lemma_push_board(
    b: Board,
    x: int,
    y: int,
    dir: Direction,
    force: int,
    replacement: Option<Cell>,
    setupdated: bool,
)
    requires
        b.wf(),
    ensures
        push_board(b, x, y, dir, force, replacement, setupdated).wf(),
        push_board(b, x, y, dir, force, replacement, setupdated).same_size(b),
{
    match push_reach(b, x, y, dir, force) {
        None => {},
        Some(t) => {
            let end = b.get(step_x(x, dir, t as int), step_y(y, dir, t as int));
            match end {
                None => {
                    Board::lemma_from_fn(
                        b.width,
                        b.height,
                        |px: int, py: int|
                            push_square(
                                b,
                                x,
                                y,
                                dir,
                                t as int + 1,
                                replacement,
                                setupdated,
                                px,
                                py,
                            ),
                        0,
                        0,
                    );
                },
                Some(e) => {
                    Board::lemma_from_fn(
                        b.width,
                        b.height,
                        |px: int, py: int|
                            if e.id == ENEMY && px == step_x(x, dir, t as int) && py == step_y(
                                y,
                                dir,
                                t as int,
                            ) {
                                None
                            } else {
                                push_square(
                                    b,
                                    x,
                                    y,
                                    dir,
                                    t as int,
                                    replacement,
                                    setupdated,
                                    px,
                                    py,
                                )
                            },
                        0,
                        0,
                    );
                },
            }
        },
    }
}

/// A pull leaves a board of the same dimensions.
pub proof fn lemma_pull_board(b: Board, x: int, y: int, dir: Direction)
    requires
        b.wf(),
    ensures
        pull_board(b, x, y, dir).wf(),
        pull_board(b, x, y, dir).same_size(b),
{
    Board::lemma_from_fn(
        b.width,
        b.height,
        |px: int, py: int| pull_square(b, x, y, dir, pull_reach(b, x, y, dir, 1) as int, px, py),
        0,
        0,
    );
}

/// Where a push reaches `t` steps ahead, the `t` squares before that hold
/// cells that yield and do not consume, and the square it reaches is on the
/// board and holds nothing or a cell that consumes.
pub proof fn lemma_push_reach(b: Board, x: int, y: int, dir: Direction, force: int)
    requires
        push_reach(b, x, y, dir, force) is Some,
    ensures
        ({
            let t = push_reach(b, x, y, dir, force)->0 as int;
            &&& forall|j: int|
                0 <= j < t ==> {
                    let c = #[trigger] b.get(step_x(x, dir, j), step_y(y, dir, j));
                    c is Some && !spec_is_trash(c->0, dir)
                }
            &&& b.in_bounds(step_x(x, dir, t), step_y(y, dir, t))
            &&& match b.get(step_x(x, dir, t), step_y(y, dir, t)) {
                None => true,
                Some(e) => spec_is_trash(e, dir),
            }
        }),
    decreases room(b, x, y, dir),
{
    let t = push_reach(b, x, y, dir, force)->0 as int;
    if t > 0 {
        let c = b.get(x, y)->0;
        let f = force + bias(c, dir);
        let nx = step_x(x, dir, 1);
        let ny = step_y(y, dir, 1);
        lemma_push_reach(b, nx, ny, dir, f);
        assert forall|j: int| 0 <= j < t implies {
            let c = #[trigger] b.get(step_x(x, dir, j), step_y(y, dir, j));
            c is Some && !spec_is_trash(c->0, dir)
        } by {
            if j > 0 {
                assert(step_x(x, dir, j) == step_x(nx, dir, j - 1));
                assert(step_y(y, dir, j) == step_y(ny, dir, j - 1));
            }
        }
        assert(step_x(x, dir, t) == step_x(nx, dir, t - 1));
        assert(step_y(y, dir, t) == step_y(ny, dir, t - 1));
    }
}

/// Whether `g` is the board `b` with the first `done` squares of a push
/// rewritten.
pub open spec fn rewritten(
    g: Board,
    b: Board,
    x: int,
    y: int,
    dir: Direction,
    done: int,
    replacement: Option<Cell>,
    setupdated: bool,
) -> bool {
    &&& g.wf()
    &&& g.width == b.width
    &&& g.height == b.height
    &&& forall|px: int, py: int| #[trigger]
        g.get(px, py) == push_square(b, x, y, dir, done, replacement, setupdated, px, py)
}

/// One step of the second phase of a push: with `k` squares rewritten, on
/// writing the carried cell to the next square of the line `k + 1` squares are
/// rewritten; and that is the board the push leaves, if it was the last.
proof fn lemma_push_step(
    before: Board,
    after: Board,
    b: Board,
    x: int,
    y: int,
    dir: Direction,
    force: int,
    k: int,
    replacement: Option<Cell>,
    setupdated: bool,
)
    requires
        b.wf(),
        push_reach(b, x, y, dir, force) is Some,
        0 <= k <= push_reach(b, x, y, dir, force)->0,
        rewritten(before, b, x, y, dir, k, replacement, setupdated),
        !(before.get(step_x(x, dir, k), step_y(y, dir, k)) is Some && spec_is_trash(
            before.get(step_x(x, dir, k), step_y(y, dir, k))->0,
            dir,
        )),
        after == before.put(
            step_x(x, dir, k),
            step_y(y, dir, k),
            carried(
                if k == 0 {
                    replacement
                } else {
                    b.get(step_x(x, dir, k - 1), step_y(y, dir, k - 1))
                },
                dir,
                setupdated,
            ),
        ),
    ensures
        rewritten(after, b, x, y, dir, k + 1, replacement, setupdated),
        k < push_reach(b, x, y, dir, force)->0 ==> b.in_bounds(
            step_x(x, dir, k + 1),
            step_y(y, dir, k + 1),
        ),
        k == push_reach(b, x, y, dir, force)->0 ==> {
            &&& after == push_board(b, x, y, dir, force, replacement, setupdated)
            &&& push_result(b, x, y, dir, force) == PushResult::Moved
        },
{
    let t = push_reach(b, x, y, dir, force)->0 as int;
    let cx = step_x(x, dir, k);
    let cy = step_y(y, dir, k);
    let c = carried(
        if k == 0 {
            replacement
        } else {
            b.get(step_x(x, dir, k - 1), step_y(y, dir, k - 1))
        },
        dir,
        setupdated,
    );
    lemma_push_reach(b, x, y, dir, force);
    assert(before.get(cx, cy) == b.get(cx, cy));
    assert(b.get(cx, cy) is Some ==> b.in_bounds(cx, cy));
    assert(b.in_bounds(cx, cy));
    assert forall|px: int, py: int| #[trigger]
        after.get(px, py) == push_square(b, x, y, dir, k + 1, replacement, setupdated, px, py) by {
        before.lemma_get_put(cx, cy, c, px, py);
        assert(before.get(px, py) == push_square(
            b,
            x,
            y,
            dir,
            k,
            replacement,
            setupdated,
            px,
            py,
        ));
    }
    before.lemma_get_put(cx, cy, c, 0, 0);
    if k < t {
        let nx = step_x(x, dir, k + 1);
        let ny = step_y(y, dir, k + 1);
        if k + 1 < t {
            assert(b.get(nx, ny) is Some);
        }
    } else {
        let f = |px: int, py: int|
            push_square(b, x, y, dir, t + 1, replacement, setupdated, px, py);
        let goal = Board::from_fn(b.width, b.height, f);
        assert(b.get(cx, cy) is None);
        assert(goal == push_board(b, x, y, dir, force, replacement, setupdated));
        assert forall|px: int, py: int| #[trigger] after.get(px, py) == goal.get(px, py) by {
            Board::lemma_from_fn(b.width, b.height, f, px, py);
            assert(after.get(px, py) is Some ==> after.in_bounds(px, py));
        }
        Board::lemma_from_fn(b.width, b.height, f, 0, 0);
        after.lemma_ext(goal);
    }
}

/// The end of a push that comes to rest on a cell: with `k` squares
/// rewritten and a consuming cell on the next square of the line, the push
/// has reached its end; with an enemy deleted, the board is the one the push
/// leaves.
proof fn lemma_push_rests_on_cell(
    before: Board,
    after: Board,
    b: Board,
    x: int,
    y: int,
    dir: Direction,
    force: int,
    k: int,
    replacement: Option<Cell>,
    setupdated: bool,
)
    requires
        b.wf(),
        push_reach(b, x, y, dir, force) is Some,
        0 <= k <= push_reach(b, x, y, dir, force)->0,
        rewritten(before, b, x, y, dir, k, replacement, setupdated),
        before.get(step_x(x, dir, k), step_y(y, dir, k)) is Some,
        spec_is_trash(before.get(step_x(x, dir, k), step_y(y, dir, k))->0, dir),
        after == if before.get(step_x(x, dir, k), step_y(y, dir, k))->0.id == ENEMY {
            before.put(step_x(x, dir, k), step_y(y, dir, k), None)
        } else {
            before
        },
    ensures
        k == push_reach(b, x, y, dir, force)->0,
        after == push_board(b, x, y, dir, force, replacement, setupdated),
        push_result(b, x, y, dir, force) == if before.get(
            step_x(x, dir, k),
            step_y(y, dir, k),
        )->0.id == ENEMY || k == 0 {
            PushResult::Trashed
        } else {
            PushResult::Moved
        },
{
    let t = push_reach(b, x, y, dir, force)->0 as int;
    let cx = step_x(x, dir, k);
    let cy = step_y(y, dir, k);
    lemma_push_reach(b, x, y, dir, force);
    assert(before.get(cx, cy) == b.get(cx, cy));
    if k < t {
        assert(b.get(step_x(x, dir, k), step_y(y, dir, k)) is Some);
    }
    assert(k == t);
    let e = b.get(cx, cy)->0;
    let f = |px: int, py: int|
        if e.id == ENEMY && px == step_x(x, dir, t) && py == step_y(y, dir, t) {
            None
        } else {
            push_square(b, x, y, dir, t, replacement, setupdated, px, py)
        };
    let goal = Board::from_fn(b.width, b.height, f);
    assert(goal == push_board(b, x, y, dir, force, replacement, setupdated));
    assert forall|px: int, py: int| #[trigger] after.get(px, py) == goal.get(px, py) by {
        Board::lemma_from_fn(b.width, b.height, f, px, py);
        before.lemma_get_put(cx, cy, None, px, py);
        assert(before.get(px, py) is Some ==> before.in_bounds(px, py));
        assert(before.get(px, py) == push_square(
            b,
            x,
            y,
            dir,
            k,
            replacement,
            setupdated,
            px,
            py,
        ));
    }
    Board::lemma_from_fn(b.width, b.height, f, 0, 0);
    before.lemma_get_put(cx, cy, None, 0, 0);
    after.lemma_ext(goal);
}

/// Marks a carried cell as updated if it is a pusher that faces `dir` and
/// the push marks at all.
fn carry(cell: Option<Cell>, dir: Direction, setupdated: bool) -> (r: Option<Cell>)
    ensures
        r == carried(cell, dir, setupdated),
{
    match cell {
        Some(c) => {
            if setupdated && is_pusher(c.id) && c.direction == dir {
                let mut marked = c;
                marked.updated = true;
                Some(marked)
            } else {
                Some(c)
            }
        },
        None => None,
    }
}

/// Pushes the specified cell in a direction, and with it the line of cells
/// ahead of it. Returns whether the cell was moved.
/// `pushing` is the replacement cell that is put where the pushed cell was.
pub fn push(
    grid: &mut Grid,
    x: isize,
    y: isize,
    dir: Direction,
    force: usize,
    pushing: Option<Cell>,
    setupdated: bool,
) -> (r: PushResult)
    requires
        old(grid).wf(),
    ensures
        final(grid).wf(),
        final(grid).tick_count() == old(grid).tick_count(),
        final(grid)@.same_size(old(grid)@),
        r == push_result(old(grid)@, x as int, y as int, dir, force as int),
        final(grid)@ == push_board(
            old(grid)@,
            x as int,
            y as int,
            dir,
            force as int,
            pushing,
            setupdated,
        ),
{
    let ghost b = grid@;
    proof {
        grid.lemma_view();
        lemma_push_board(b, x as int, y as int, dir, force as int, pushing, setupdated);
    }
    let (ox, oy) = dir.to_vector();
    let mut tx: isize = x;
    let mut ty: isize = y;
    let mut f: i128 = force as i128;
    let mut steps: usize = 0;

    // Check if the cell can be pushed.
    loop
        invariant_except_break
            push_reach(b, x as int, y as int, dir, force as int) == match push_reach(
                b,
                tx as int,
                ty as int,
                dir,
                f as int,
            ) {
                Some(n) => Some((n + steps) as nat),
                None => None,
            },
            0 <= f <= force + steps,
        invariant
            grid.wf(),
            grid@ == b,
            b.wf(),
            b.width < isize::MAX,
            b.height < isize::MAX,
            ox == dir.dx(),
            oy == dir.dy(),
            tx == step_x(x as int, dir, steps as int),
            ty == step_y(y as int, dir, steps as int),
            steps > 0 ==> b.in_bounds(x as int, y as int),
            0 <= steps <= b.width + b.height,
            grid.tick_count() == old(grid).tick_count(),
        ensures
            push_reach(b, x as int, y as int, dir, force as int) == Some(steps as nat),
        decreases room(b, tx as int, ty as int, dir),
    {
        if !grid.is_in_bounds(tx, ty) {
            return PushResult::NotMoved;
        }
        match grid.get(tx, ty) {
            Some(cell) => {
                if is_pusher(cell.id) {
                    if cell.direction == dir {
                        f = f + 1;
                    } else if cell.direction == dir.flip() {
                        f = f - 1;
                    }
                }
                if is_trash(&cell, dir) {
                    break ;
                }
                if !can_move(&cell, dir, MoveForce::Push) {
                    return PushResult::NotMoved;
                }
                if f <= 0 {
                    return PushResult::NotMoved;
                }
                tx = tx + ox;
                ty = ty + oy;
                steps = steps + 1;
            },
            None => {
                break ;
            },
        }
    }

    let t: usize = steps;
    let mut cx: isize = x;
    let mut cy: isize = y;
    let mut k: usize = 0;
    let mut next_cell = pushing;
    let mut outcome = PushResult::NotMoved;

    // Move the cell and all following one step on: put what is carried on
    // the square, and carry on what stood there.
    loop
        invariant_except_break
            k <= t,
            next_cell == if k == 0 {
                pushing
            } else {
                b.get(step_x(x as int, dir, k - 1), step_y(y as int, dir, k - 1))
            },
            rewritten(grid@, b, x as int, y as int, dir, k as int, pushing, setupdated),
        invariant
            grid.wf(),
            b.wf(),
            b.width < isize::MAX,
            b.height < isize::MAX,
            ox == dir.dx(),
            oy == dir.dy(),
            push_reach(b, x as int, y as int, dir, force as int) == Some(t as nat),
            cx == step_x(x as int, dir, k as int),
            cy == step_y(y as int, dir, k as int),
            grid.tick_count() == old(grid).tick_count(),
        ensures
            outcome == push_result(b, x as int, y as int, dir, force as int),
            grid@ == push_board(b, x as int, y as int, dir, force as int, pushing, setupdated),
        decreases t - k,
    {
        proof {
            lemma_push_reach(b, x as int, y as int, dir, force as int);
            assert(b.get(cx as int, cy as int) is Some ==> b.in_bounds(cx as int, cy as int));
        }
        let carrying = carry(next_cell, dir, setupdated);
        let here = grid.get(cx, cy);
        let ghost before = grid@;
        if let Some(cell) = here {
            if cell.id == ENEMY || is_trash(&cell, dir) {
                if cell.id == ENEMY {
                    // The carried cell is gone and the enemy destroyed.
                    grid.delete(cx, cy);
                    outcome = PushResult::Trashed;
                } else if k > 0 {
                    outcome = PushResult::Moved;
                } else {
                    outcome = PushResult::Trashed;
                }
                proof {
                    lemma_push_rests_on_cell(
                        before,
                        grid@,
                        b,
                        x as int,
                        y as int,
                        dir,
                        force as int,
                        k as int,
                        pushing,
                        setupdated,
                    );
                }
                break ;
            }
        }
        // Put the carried cell here and carry on what stood here.

        outcome = PushResult::Moved;
        grid.set_cell(cx, cy, carrying);
        next_cell = here;
        proof {
            lemma_push_step(
                before,
                grid@,
                b,
                x as int,
                y as int,
                dir,
                force as int,
                k as int,
                pushing,
                setupdated,
            );
        }
        if k == t {
            break ;
        }
        cx = cx + ox;
        cy = cy + oy;
        k = k + 1;
    }

    outcome
}

/// The scan of a pull. Starting at `(x, y)` and walking against `dir`, it
/// returns how many cells in a row are drawn one step in `dir`: the row ends
/// before the first empty square, the first cell that consumes what comes
/// from behind it, the first that does not yield, and where the force is used
/// up.
pub open spec fn pull_reach(b: Board, x: int, y: int, dir: Direction, force: int) -> nat
    decreases room(b, x, y, dir.flip()),
{
    if !b.in_bounds(x, y) {
        0
    } else {
        match b.get(x, y) {
            None => 0,
            Some(c) => {
                let f = force + bias(c, dir);
                if spec_is_trash(c, dir.flip()) || f <= 0 || !spec_can_move(
                    c,
                    dir,
                    MoveForce::Pull,
                ) {
                    0
                } else {
                    1 + pull_reach(b, step_x(x, dir, -1), step_y(y, dir, -1), dir, f)
                }
            },
        }
    }
}

/// A cell as a pull finds it: a pusher that faces the way of the pull is
/// marked updated.
pub open spec fn drawn(cell: Cell, dir: Direction) -> Cell {
    if spec_is_pusher(cell.id) && cell.direction == dir {
        cell.with_updated(true)
    } else {
        cell
    }
}

/// What the square `(px, py)` holds when a pull at `(x, y)` has drawn its
/// first `n` cells forward. The square ahead of `(x, y)` receives the first
/// cell, unless it holds an enemy, which is destroyed with that cell, or a
/// cell that consumes it. Each later cell stands where the one before it
/// stood, and the square of the last is empty.
pub open spec fn pull_moved(
    b: Board,
    x: int,
    y: int,
    dir: Direction,
    n: int,
    px: int,
    py: int,
) -> Option<Cell> {
    let k = steps_to(x, y, dir, px, py);
    if on_line(x, y, dir, px, py) && n >= 1 && k == 1 && b.in_bounds(px, py) {
        match b.get(px, py) {
            Some(e) => if e.id == ENEMY {
                None
            } else if spec_is_trash(e, dir) {
                Some(e)
            } else {
                Some(drawn(b.get(x, y)->0, dir))
            },
            None => Some(drawn(b.get(x, y)->0, dir)),
        }
    } else if on_line(x, y, dir, px, py) && n >= 1 && 1 - n < k <= 0 {
        Some(drawn(b.get(step_x(x, dir, k - 1), step_y(y, dir, k - 1))->0, dir))
    } else if on_line(x, y, dir, px, py) && n >= 1 && k == 1 - n {
        None
    } else {
        b.get(px, py)
    }
}

/// What the square `(px, py)` holds after a pull at `(x, y)` that draws `n`
/// cells: as `pull_moved` says, but that the cell at which the row ends is
/// marked where it stands, if it is a pusher that faces the way of the pull.
pub open spec fn pull_square(
    b: Board,
    x: int,
    y: int,
    dir: Direction,
    n: int,
    px: int,
    py: int,
) -> Option<Cell> {
    if on_line(x, y, dir, px, py) && steps_to(x, y, dir, px, py) == -n {
        match b.get(px, py) {
            Some(c) => Some(drawn(c, dir)),
            None => None,
        }
    } else {
        pull_moved(b, x, y, dir, n, px, py)
    }
}

/// The board that a pull leaves behind: the cell at `(x, y)` and the row of
/// cells behind it, as far as the pull reaches, one step further in `dir`.
pub open spec fn pull_board(b: Board, x: int, y: int, dir: Direction) -> Board {
    Board::from_fn(
        b.width,
        b.height,
        |px: int, py: int| pull_square(b, x, y, dir, pull_reach(b, x, y, dir, 1) as int, px, py),
    )
}

/// Whether `g` is the board `b` with the first `n` cells of a pull drawn
/// forward.
#[verifier::opaque]
pub open spec fn drawn_so_far(g: Board, b: Board, x: int, y: int, dir: Direction, n: int) -> bool {
    &&& g.wf()
    &&& g.width == b.width
    &&& g.height == b.height
    &&& forall|px: int, py: int| #[trigger] g.get(px, py) == pull_moved(b, x, y, dir, n, px, py)
}

/// The cells that a pull draws are on the board, one behind the other.
pub proof fn lemma_pull_reach(b: Board, x: int, y: int, dir: Direction, force: int)
    ensures
        forall|j: int|
            0 <= j < pull_reach(b, x, y, dir, force) ==> #[trigger] b.in_bounds(
                step_x(x, dir, -j),
                step_y(y, dir, -j),
            ) && b.get(step_x(x, dir, -j), step_y(y, dir, -j)) is Some,
    decreases room(b, x, y, dir.flip()),
{
    let n = pull_reach(b, x, y, dir, force) as int;
    if n > 0 {
        let c = b.get(x, y)->0;
        let f = force + bias(c, dir);
        let nx = step_x(x, dir, -1);
        let ny = step_y(y, dir, -1);
        lemma_pull_reach(b, nx, ny, dir, f);
        assert forall|j: int| 0 <= j < n implies #[trigger] b.in_bounds(
            step_x(x, dir, -j),
            step_y(y, dir, -j),
        ) && b.get(step_x(x, dir, -j), step_y(y, dir, -j)) is Some by {
            if j > 0 {
                assert(step_x(x, dir, -j) == step_x(nx, dir, -(j - 1)));
                assert(step_y(y, dir, -j) == step_y(ny, dir, -(j - 1)));
                assert(b.in_bounds(step_x(nx, dir, -(j - 1)), step_y(ny, dir, -(j - 1))));
            }
        }
    }
}

/// Before a pull has drawn any cell the board is as it was.
proof fn lemma_pull_start(b: Board, x: int, y: int, dir: Direction)
    requires
        b.wf(),
    ensures
        drawn_so_far(b, b, x, y, dir, 0),
{
    reveal(drawn_so_far);
}

/// With `k` cells drawn, the next cell of the row still stands where it
/// stood, and the square ahead of it is free, or is, for the first cell of
/// the row, as it was.
proof fn lemma_pull_look(g: Board, b: Board, x: int, y: int, dir: Direction, k: int)
    requires
        b.wf(),
        0 <= k,
        drawn_so_far(g, b, x, y, dir, k),
    ensures
        g.wf(),
        g.width == b.width,
        g.height == b.height,
        g.get(step_x(x, dir, -k), step_y(y, dir, -k)) == b.get(
            step_x(x, dir, -k),
            step_y(y, dir, -k),
        ),
        g.get(step_x(x, dir, 1 - k), step_y(y, dir, 1 - k)) == if k == 0 {
            b.get(step_x(x, dir, 1), step_y(y, dir, 1))
        } else {
            None
        },
{
    reveal(drawn_so_far);
    let sx = step_x(x, dir, -k);
    let sy = step_y(y, dir, -k);
    let tx = step_x(x, dir, 1 - k);
    let ty = step_y(y, dir, 1 - k);
    assert(g.get(sx, sy) == pull_moved(b, x, y, dir, k, sx, sy));
    assert(g.get(tx, ty) == pull_moved(b, x, y, dir, k, tx, ty));
}

/// One step of a pull: with `k` cells drawn, drawing the next cell of the
/// row forward leaves `k + 1` cells drawn.
proof fn lemma_pull_step(before: Board, after: Board, b: Board, x: int, y: int, dir: Direction, k: int)
    requires
        b.wf(),
        0 <= k,
        drawn_so_far(before, b, x, y, dir, k),
        b.in_bounds(step_x(x, dir, -k), step_y(y, dir, -k)),
        b.get(step_x(x, dir, -k), step_y(y, dir, -k)) is Some,
        k >= 1 ==> b.in_bounds(step_x(x, dir, 1 - k), step_y(y, dir, 1 - k)),
        ({
            let sx = step_x(x, dir, -k);
            let sy = step_y(y, dir, -k);
            let tx = step_x(x, dir, 1 - k);
            let ty = step_y(y, dir, 1 - k);
            let cell = drawn(b.get(sx, sy)->0, dir);
            after == match before.get(tx, ty) {
                Some(e) => if e.id == ENEMY {
                    before.put(tx, ty, None).put(sx, sy, None)
                } else if spec_is_trash(e, dir) {
                    before.put(sx, sy, None)
                } else {
                    before.put(sx, sy, None).put(tx, ty, Some(cell))
                },
                None => before.put(sx, sy, None).put(tx, ty, Some(cell)),
            }
        }),
    ensures
        drawn_so_far(after, b, x, y, dir, k + 1),
{
    reveal(drawn_so_far);
    let sx = step_x(x, dir, -k);
    let sy = step_y(y, dir, -k);
    let tx = step_x(x, dir, 1 - k);
    let ty = step_y(y, dir, 1 - k);
    let cell = drawn(b.get(sx, sy)->0, dir);
    assert(before.get(tx, ty) == pull_moved(b, x, y, dir, k, tx, ty));
    assert(before.get(sx, sy) == pull_moved(b, x, y, dir, k, sx, sy));
    assert forall|px: int, py: int| #[trigger]
        after.get(px, py) == pull_moved(b, x, y, dir, k + 1, px, py) by {
        assert(before.get(px, py) == pull_moved(b, x, y, dir, k, px, py));
        before.lemma_get_put(sx, sy, None, px, py);
        before.lemma_get_put(tx, ty, None, px, py);
        before.put(tx, ty, None).lemma_get_put(sx, sy, None, px, py);
        before.put(sx, sy, None).lemma_get_put(tx, ty, Some(cell), px, py);
    }
    before.lemma_get_put(sx, sy, None, 0, 0);
    before.lemma_get_put(tx, ty, None, 0, 0);
    before.put(tx, ty, None).lemma_get_put(sx, sy, None, 0, 0);
    before.put(sx, sy, None).lemma_get_put(tx, ty, Some(cell), 0, 0);
}

/// The end of a pull: with all `n` cells of the row drawn, and the cell at
/// which the row ends marked where it stands, the board is the one the pull
/// leaves.
proof fn lemma_pull_stop(before: Board, after: Board, b: Board, x: int, y: int, dir: Direction)
    requires
        b.wf(),
        drawn_so_far(before, b, x, y, dir, pull_reach(b, x, y, dir, 1) as int),
        ({
            let n = pull_reach(b, x, y, dir, 1) as int;
            let sx = step_x(x, dir, -n);
            let sy = step_y(y, dir, -n);
            after == match b.get(sx, sy) {
                Some(c) => before.put(sx, sy, Some(drawn(c, dir))),
                None => before,
            }
        }),
    ensures
        after == pull_board(b, x, y, dir),
{
    reveal(drawn_so_far);
    let n = pull_reach(b, x, y, dir, 1) as int;
    let sx = step_x(x, dir, -n);
    let sy = step_y(y, dir, -n);
    let f = |px: int, py: int| pull_square(b, x, y, dir, n, px, py);
    let goal = Board::from_fn(b.width, b.height, f);
    assert(goal == pull_board(b, x, y, dir));
    assert(b.get(sx, sy) is Some ==> b.in_bounds(sx, sy));
    assert forall|px: int, py: int| #[trigger] after.get(px, py) == goal.get(px, py) by {
        Board::lemma_from_fn(b.width, b.height, f, px, py);
        assert(before.get(px, py) == pull_moved(b, x, y, dir, n, px, py));
        assert(before.get(px, py) is Some ==> before.in_bounds(px, py));
        if b.get(sx, sy) is Some {
            before.lemma_get_put(sx, sy, Some(drawn(b.get(sx, sy)->0, dir)), px, py);
        }
    }
    Board::lemma_from_fn(b.width, b.height, f, 0, 0);
    if b.get(sx, sy) is Some {
        before.lemma_get_put(sx, sy, Some(drawn(b.get(sx, sy)->0, dir)), 0, 0);
    }
    after.lemma_ext(goal);
}

/// A cell as a pull finds it, and the force of the pull behind it: a pusher
/// that faces the way of the pull is marked and adds to the force, one that
/// faces against it takes from the force.
fn draw(cell: Cell, dir: Direction, force: usize) -> (r: (Cell, usize))
    requires
        1 <= force < usize::MAX,
    ensures
        r.0 == drawn(cell, dir),
        r.1 == force + bias(cell, dir),
{
    let mut found = cell;
    let mut pulled = force;
    if is_pusher(cell.id) {
        if cell.direction == dir {
            found.updated = true;
            pulled = force + 1;
        } else if cell.direction == dir.flip() {
            pulled = force - 1;
        }
    }
    (found, pulled)
}

/// Pulls the cell at `(x, y)` one step in a specific direction. Also pulls
/// all cells behind it.
pub fn pull(grid: &mut Grid, x: isize, y: isize, dir: Direction)
    requires
        old(grid).wf(),
    ensures
        final(grid).wf(),
        final(grid).tick_count() == old(grid).tick_count(),
        final(grid)@.same_size(old(grid)@),
        final(grid)@ == pull_board(old(grid)@, x as int, y as int, dir),
{
    let ghost b = grid@;
    proof {
        grid.lemma_view();
        lemma_pull_board(b, x as int, y as int, dir);
    }
    let opposite_dir = dir.flip();
    let (ox, oy) = dir.to_vector();
    let mut px: isize = x;
    let mut py: isize = y;
    let mut force: usize = 1;
    let mut k: usize = 0;
    proof {
        lemma_pull_start(b, x as int, y as int, dir);
    }

    // Pull the cells. Doesn't have replacement cells.
    // Works like this:
    // ##>
    // ## >
    // # #>
    //  ##>
    // Done!
    loop
        invariant_except_break
            drawn_so_far(grid@, b, x as int, y as int, dir, k as int),
            pull_reach(b, x as int, y as int, dir, 1) == k + pull_reach(
                b,
                px as int,
                py as int,
                dir,
                force as int,
            ),
            1 <= force <= k + 1,
        invariant
            grid.wf(),
            b.wf(),
            b.width < isize::MAX,
            b.height < isize::MAX,
            ox == dir.dx(),
            oy == dir.dy(),
            opposite_dir == dir.flip(),
            px == step_x(x as int, dir, -k),
            py == step_y(y as int, dir, -k),
            k > 0 ==> b.in_bounds(x as int, y as int),
            0 <= k <= b.width + b.height,
            grid.tick_count() == old(grid).tick_count(),
        ensures
            grid@ == pull_board(b, x as int, y as int, dir),
        decreases room(b, px as int, py as int, dir.flip()),
    {
        let ghost before = grid@;
        proof {
            lemma_pull_look(before, b, x as int, y as int, dir, k as int);
            assert(b.get(px as int, py as int) is Some ==> b.in_bounds(px as int, py as int));
        }
        match grid.get(px, py) {
            Some(found) => {
                let (cell, pulled) = draw(found, dir, force);
                if is_trash(&found, opposite_dir) || pulled == 0 || !can_move(
                    &found,
                    dir,
                    MoveForce::Pull,
                ) {
                    grid.set(px, py, cell);
                    proof {
                        lemma_pull_stop(before, grid@, b, x as int, y as int, dir);
                    }
                    break ;
                }
                force = pulled;
                let tx: isize = px + ox;
                let ty: isize = py + oy;
                let mut do_move = true;
                if let Some(old_cell) = grid.get(tx, ty) {
                    if old_cell.id == ENEMY {
                        // cell is deleted and enemy destroyed
                        grid.delete(tx, ty);
                        do_move = false;
                    } else if is_trash(&old_cell, dir) {
                        // cell is trashed
                        do_move = false;
                    }
                }
                grid.delete(px, py);
                if do_move {
                    grid.set(tx, ty, cell);
                }
                proof {
                    if k >= 1 {
                        lemma_pull_reach(b, x as int, y as int, dir, 1);
                        assert(b.in_bounds(
                            step_x(x as int, dir, -(k - 1)),
                            step_y(y as int, dir, -(k - 1)),
                        ));
                    }
                    lemma_pull_step(before, grid@, b, x as int, y as int, dir, k as int);
                }
                px = px - ox;
                py = py - oy;
                k = k + 1;
            },
            None => {
                proof {
                    lemma_pull_stop(before, grid@, b, x as int, y as int, dir);
                }
                break ;
            },
        }
    }
}

/// The board after the cell at `(x, y)` was turned to face `dir` by a
/// rotator on its `side`: a cell that cannot be rotated from there, and an
/// empty square, stay as they are.
pub open spec fn rotated_to(b: Board, x: int, y: int, dir: Direction, side: Direction) -> Board {
    match b.get(x, y) {
        Some(c) => if spec_can_rotate(c, side) {
            b.put(x, y, Some(c.with_direction(dir)))
        } else {
            b
        },
        None => b,
    }
}

/// The board after the cell at `(x, y)` was turned by as many quarter turns
/// as `dir` counts, by a rotator on its `side`.
pub open spec fn rotated_by(b: Board, x: int, y: int, dir: Direction, side: Direction) -> Board {
    match b.get(x, y) {
        Some(c) => rotated_to(b, x, y, c.direction.spec_plus(dir), side),
        None => b,
    }
}

/// Whether a rotator on the `side` of `(x, y)` finds a cell there that it can
/// turn.
pub open spec fn rotates(b: Board, x: int, y: int, side: Direction) -> bool {
    match b.get(x, y) {
        Some(c) => spec_can_rotate(c, side),
        None => false,
    }
}

/// Rotates a cell by a specific amount. Returns whether it was rotated.
pub fn rotate_by(grid: &mut Grid, x: isize, y: isize, dir: Direction, side: Direction) -> (r: bool)
    requires
        old(grid).wf(),
    ensures
        final(grid).wf(),
        final(grid).tick_count() == old(grid).tick_count(),
        final(grid)@.same_size(old(grid)@),
        r == rotates(old(grid)@, x as int, y as int, side),
        final(grid)@ == rotated_by(old(grid)@, x as int, y as int, dir, side),
{
    match grid.get(x, y) {
        Some(cell) => rotate_to(grid, x, y, cell.direction.plus(dir), side),
        None => false,
    }
}

/// Sets the direction of a cell. Returns whether it was rotated.
pub fn rotate_to(grid: &mut Grid, x: isize, y: isize, dir: Direction, side: Direction) -> (r: bool)
    requires
        old(grid).wf(),
    ensures
        final(grid).wf(),
        final(grid).tick_count() == old(grid).tick_count(),
        final(grid)@.same_size(old(grid)@),
        r == rotates(old(grid)@, x as int, y as int, side),
        final(grid)@ == rotated_to(old(grid)@, x as int, y as int, dir, side),
{
    match grid.get(x, y) {
        Some(cell) => {
            if can_rotate(&cell, side) {
                let mut turned = cell;
                turned.direction = dir;
                grid.set(x, y, turned);
                true
            } else {
                false
            }
        },
        None => false,
    }
}

} // verus!
