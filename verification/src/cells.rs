//! Cells, the board they stand on, and the grid that stores a board.
//!
//! A [`Board`] is the mathematical model: a width, a height and a partial map
//! from coordinates to cells. A [`Grid`] is the executable store; its view is
//! the board it holds. The y axis points up: row 0 is the bottom row.

use vstd::prelude::*;
use vstd::arithmetic::div_mod::lemma_fundamental_div_mod;
use vstd::arithmetic::div_mod::lemma_fundamental_div_mod_converse;
use vstd::arithmetic::mul::lemma_mul_inequality;
use vstd::arithmetic::mul::lemma_mul_is_commutative;
use vstd::arithmetic::mul::lemma_mul_is_distributive_add_other_way;
use vstd::std_specs::cmp::PartialEqSpecImpl;
use crate::cell_data::CELL_TYPE_COUNT;
use crate::cell_data::CellType;
use crate::cell_data::sides;
use crate::cell_data::sides_of;
use crate::direction::Direction;

verus! {

/// The width of the grid that an editor starts with.
pub const DEFAULT_GRID_WIDTH: usize = 100;

/// The height of the grid that an editor starts with.
pub const DEFAULT_GRID_HEIGHT: usize = 100;

/// Represents a cell on a grid.
#[derive(Debug, Clone, Copy)]
pub struct Cell {
    /// The cell type.
    pub id: CellType,
    /// The direction the cell faces.
    pub direction: Direction,
    /// Whether the cell has acted, or has been carried along as a pusher,
    /// during the current tick.
    pub updated: bool,
    /// What a mailbox holds: the type of the stored cell and its direction
    /// relative to the post office that stored it.
    pub contained_cell: Option<(CellType, Direction)>,
}

/// Whether two stored contents are the same.
fn same_contents(a: Option<(CellType, Direction)>, b: Option<(CellType, Direction)>) -> (r: bool)
    ensures
        r == (a == b),
{
    match (a, b) {
        (None, None) => true,
        (Some(p), Some(q)) => p.0 == q.0 && p.1 == q.1,
        _ => false,
    }
}

impl Cell {
    /// Two cells are the same when they agree in everything but the
    /// `updated` flag.
    pub open spec fn same(self, other: Cell) -> bool {
        self.id == other.id && self.direction == other.direction && self.contained_cell
            == other.contained_cell
    }

    /// Two cells look alike when they have the same type and their
    /// directions agree modulo the rotational symmetry of that type.
    pub open spec fn spec_looks_like(self, other: Cell) -> bool {
        self.id == other.id && self.direction.turns() % sides_of(self.id)
            == other.direction.turns() % sides_of(self.id)
    }

    /// The cell with the `updated` flag set to `updated`.
    pub open spec fn with_updated(self, updated: bool) -> Cell {
        Cell { updated, ..self }
    }

    /// The cell facing `direction`.
    pub open spec fn with_direction(self, direction: Direction) -> Cell {
        Cell { direction, ..self }
    }

    /// A new cell of the given type and direction: not updated, holding
    /// nothing.
    pub open spec fn spec_new(id: CellType, direction: Direction) -> Cell {
        Cell { id, direction, updated: false, contained_cell: None }
    }

    /// A fresh duplicate of the cell: the same cell, not updated.
    pub open spec fn spec_copy(self) -> Cell {
        self.with_updated(false)
    }

    /// Creates a new cell: not updated, holding nothing.
    #[verifier::when_used_as_spec(spec_new)]
    pub fn new(id: CellType, direction: Direction) -> (r: Cell)
        ensures
            r == Cell::spec_new(id, direction),
    {
        Cell { id, direction, updated: false, contained_cell: None }
    }

    /// Gets the cell type.
    pub fn id(&self) -> (r: CellType)
        ensures
            r == self.id,
    {
        self.id
    }

    /// Gets the direction.
    pub fn direction(&self) -> (r: Direction)
        ensures
            r == self.direction,
    {
        self.direction
    }

    /// Sets the direction.
    pub fn set_direction(&mut self, direction: Direction)
        ensures
            *final(self) == old(self).with_direction(direction),
    {
        self.direction = direction;
    }

    /// Gets the updated flag.
    pub fn updated(&self) -> (r: bool)
        ensures
            r == self.updated,
    {
        self.updated
    }

    /// Sets the updated flag.
    pub fn set_updated(&mut self, updated: bool)
        ensures
            *final(self) == old(self).with_updated(updated),
    {
        self.updated = updated;
    }

    /// A fresh duplicate of the cell: the same cell, not updated.
    pub fn copy(&self) -> (r: Cell)
        ensures
            r == self.spec_copy(),
    {
        Cell {
            id: self.id,
            direction: self.direction,
            updated: false,
            contained_cell: self.contained_cell,
        }
    }

    /// Whether the two cells cannot be told apart by looking at them: same
    /// type, and directions equal modulo the type's rotational symmetry.
    pub fn looks_like(&self, other: &Cell) -> (r: bool)
        ensures
            r == self.spec_looks_like(*other),
    {
        if self.id != other.id {
            return false;
        }
        let max_rot: u8 = sides(self.id);
        self.direction.to_u8() % max_rot == other.direction.to_u8() % max_rot
    }
}

impl PartialEq for Cell {
    /// Equality of cells ignores the `updated` flag.
    fn eq(&self, other: &Cell) -> (r: bool) {
        self.id == other.id && self.direction == other.direction && same_contents(
            self.contained_cell,
            other.contained_cell,
        )
    }
}

impl PartialEqSpecImpl for Cell {
    open spec fn obeys_eq_spec() -> bool {
        true
    }

    open spec fn eq_spec(&self, other: &Cell) -> bool {
        self.same(*other)
    }
}

impl Eq for Cell {

}

/// Whether two squares hold the same: both nothing, or the same cell.
pub open spec fn same_square(a: Option<Cell>, b: Option<Cell>) -> bool {
    match (a, b) {
        (None, None) => true,
        (Some(c), Some(d)) => c.same(d),
        _ => false,
    }
}

/// Whether two squares look alike: both empty, or cells that look alike.
pub open spec fn like_square(a: Option<Cell>, b: Option<Cell>) -> bool {
    match (a, b) {
        (None, None) => true,
        (Some(c), Some(d)) => c.spec_looks_like(d),
        _ => false,
    }
}

/// The mathematical model of a grid: which cell stands on which square.
/// Used in contracts only.
pub struct Board {
    pub width: int,
    pub height: int,
    /// The occupied squares, keyed by `(x, y)`.
    pub cells: Map<(int, int), Cell>,
}

impl Board {
    /// Whether `(x, y)` is a square of the board.
    pub open spec fn in_bounds(self, x: int, y: int) -> bool {
        0 <= x < self.width && 0 <= y < self.height
    }

    /// A board has positive dimensions and cells on its own squares only.
    pub open spec fn wf(self) -> bool {
        &&& self.width > 0
        &&& self.height > 0
        &&& forall|x: int, y: int| #[trigger]
            self.cells.dom().contains((x, y)) ==> self.in_bounds(x, y)
    }

    /// The cell on `(x, y)`; outside the board every square reads as empty.
    pub open spec fn get(self, x: int, y: int) -> Option<Cell> {
        if self.cells.dom().contains((x, y)) {
            Some(self.cells[(x, y)])
        } else {
            None
        }
    }

    /// The board with `(x, y)` holding `cell`; a write outside the board
    /// changes nothing.
    #[verifier::opaque]
    pub open spec fn put(self, x: int, y: int, cell: Option<Cell>) -> Board {
        if self.in_bounds(x, y) {
            match cell {
                Some(c) => Board {
                    width: self.width,
                    height: self.height,
                    cells: self.cells.insert((x, y), c),
                },
                None => Board {
                    width: self.width,
                    height: self.height,
                    cells: self.cells.remove((x, y)),
                },
            }
        } else {
            self
        }
    }

    /// Whether the two boards have the same dimensions.
    pub open spec fn same_size(self, other: Board) -> bool {
        self.width == other.width && self.height == other.height
    }

    /// Whether some square holds a cell of type `id`.
    pub open spec fn has(self, id: CellType) -> bool {
        exists|x: int, y: int| self.holds(x, y, id)
    }

    /// Whether the square `(x, y)` holds a cell of type `id`.
    pub open spec fn holds(self, x: int, y: int, id: CellType) -> bool {
        self.get(x, y) is Some && self.get(x, y)->0.id == id
    }

    /// The board with the `updated` flag of every cell cleared.
    pub open spec fn cleared(self) -> Board {
        Board::from_fn(
            self.width,
            self.height,
            |x: int, y: int|
                match self.get(x, y) {
                    Some(c) => Some(c.with_updated(false)),
                    None => None,
                },
        )
    }

    /// The squares of the board in row-major order: the bottom row first,
    /// each row from left to right.
    pub open spec fn squares(self) -> Seq<Option<Cell>> {
        Seq::new((self.width * self.height) as nat, |i: int| self.get(i % self.width, i / self.width))
    }

    /// The board of the given dimensions whose squares are, in row-major
    /// order, those of `squares`.
    pub open spec fn of_squares(width: int, height: int, squares: Seq<Option<Cell>>) -> Board {
        Board::from_fn(
            width,
            height,
            |x: int, y: int|
                if 0 <= y * width + x < squares.len() {
                    squares[y * width + x]
                } else {
                    None
                },
        )
    }

    /// The board without any cell.
    pub open spec fn empty(width: int, height: int) -> Board {
        Board { width, height, cells: Map::empty() }
    }

    /// The board on which each square `(x, y)` holds `f(x, y)`.
    #[verifier::opaque]
    pub open spec fn from_fn(width: int, height: int, f: spec_fn(int, int) -> Option<Cell>)
        -> Board {
        Board {
            width,
            height,
            cells: Map::new(
                |p: (int, int)| 0 <= p.0 < width && 0 <= p.1 < height && f(p.0, p.1) is Some,
                |p: (int, int)| f(p.0, p.1)->0,
            ),
        }
    }

    /// Whether no square holds a cell.
    pub open spec fn is_empty(self) -> bool {
        forall|x: int, y: int| #[trigger] self.get(x, y) is None
    }

    /// Two boards are the same when they have the same dimensions and, on
    /// every square, the same cell up to the `updated` flag.
    pub open spec fn same(self, other: Board) -> bool {
        &&& self.width == other.width
        &&& self.height == other.height
        &&& forall|x: int, y: int|
            self.in_bounds(x, y) ==> same_square(#[trigger] self.get(x, y), other.get(x, y))
    }

    /// Whether on every square of `self` the other board shows a cell that
    /// looks like the one `self` shows there.
    pub open spec fn looks_like(self, other: Board) -> bool {
        forall|x: int, y: int|
            self.in_bounds(x, y) ==> like_square(#[trigger] self.get(x, y), other.get(x, y))
    }

    /// What is written and where decides the board: a read after a write
    /// returns what was written on that square, and what was there before on
    /// every other.
    pub proof fn lemma_get_put(self, x: int, y: int, cell: Option<Cell>, px: int, py: int)
        requires
            self.wf(),
        ensures
            self.put(x, y, cell).wf(),
            self.put(x, y, cell).width == self.width,
            self.put(x, y, cell).height == self.height,
            self.put(x, y, cell).get(px, py) == if px == x && py == y && self.in_bounds(x, y) {
                cell
            } else {
                self.get(px, py)
            },
    {
        reveal(Board::put);
        let after = self.put(x, y, cell);
        assert forall|ax: int, ay: int| #[trigger]
            after.cells.dom().contains((ax, ay)) implies after.in_bounds(ax, ay) by {
            if !(ax == x && ay == y) {
                assert(self.cells.dom().contains((ax, ay)));
            }
        }
    }

    /// The squares of `from_fn` hold what the function says.
    pub proof fn lemma_from_fn(
        width: int,
        height: int,
        f: spec_fn(int, int) -> Option<Cell>,
        x: int,
        y: int,
    )
        ensures
            Board::from_fn(width, height, f).width == width,
            Board::from_fn(width, height, f).height == height,
            width > 0 && height > 0 ==> Board::from_fn(width, height, f).wf(),
            Board::from_fn(width, height, f).get(x, y) == if 0 <= x < width && 0 <= y < height {
                f(x, y)
            } else {
                None
            },
    {
        reveal(Board::from_fn);
    }

    /// What is set on a square of the board is what is then read there.
    pub proof fn lemma_get_after_set(self, x: int, y: int, cell: Cell)
        requires
            self.wf(),
            self.in_bounds(x, y),
        ensures
            self.put(x, y, Some(cell)).get(x, y) == Some(cell),
            same_square(self.put(x, y, Some(cell)).get(x, y), Some(cell)),
    {
        self.lemma_get_put(x, y, Some(cell), x, y);
    }

    /// When a tick begins, no cell is marked as updated any more, and
    /// nothing else has changed.
    pub proof fn lemma_cleared(self)
        requires
            self.wf(),
        ensures
            self.cleared().wf(),
            self.cleared().same_size(self),
            forall|x: int, y: int| #[trigger]
                self.cleared().get(x, y) == match self.get(x, y) {
                    Some(c) => Some(c.with_updated(false)),
                    None => None,
                },
            forall|x: int, y: int|
                (#[trigger] self.cleared().get(x, y)) is Some ==> !self.cleared().get(
                    x,
                    y,
                )->0.updated,
    {
        let f = |x: int, y: int|
            match self.get(x, y) {
                Some(c) => Some(c.with_updated(false)),
                None => None,
            };
        assert forall|x: int, y: int| #[trigger]
            self.cleared().get(x, y) == match self.get(x, y) {
                Some(c) => Some(c.with_updated(false)),
                None => None,
            } by {
            Board::lemma_from_fn(self.width, self.height, f, x, y);
            assert(self.get(x, y) is Some ==> self.in_bounds(x, y));
        }
        Board::lemma_from_fn(self.width, self.height, f, 0, 0);
    }

    /// The squares of the board of given squares are those squares.
    pub proof fn lemma_squares_of(width: int, height: int, squares: Seq<Option<Cell>>)
        requires
            width > 0,
            height > 0,
            squares.len() == width * height,
        ensures
            Board::of_squares(width, height, squares).wf(),
            Board::of_squares(width, height, squares).width == width,
            Board::of_squares(width, height, squares).height == height,
            Board::of_squares(width, height, squares).squares() == squares,
    {
        let f = |x: int, y: int|
            if 0 <= y * width + x < squares.len() {
                squares[y * width + x]
            } else {
                None
            };
        let b = Board::of_squares(width, height, squares);
        Board::lemma_from_fn(width, height, f, 0, 0);
        assert forall|i: int| 0 <= i < squares.len() implies #[trigger] b.squares()[i]
            == squares[i] by {
            lemma_index_square(width, height, i);
            Board::lemma_from_fn(width, height, f, i % width, i / width);
        }
        assert(b.squares() =~= squares);
    }

    /// Two boards of the same dimensions that show the same on every square
    /// are one board.
    pub proof fn lemma_ext(self, other: Board)
        requires
            self.width == other.width,
            self.height == other.height,
            forall|x: int, y: int| #[trigger] self.get(x, y) == other.get(x, y),
        ensures
            self == other,
    {
        assert forall|p: (int, int)|
            self.cells.dom().contains(p) == other.cells.dom().contains(p) by {
            assert(self.get(p.0, p.1) == other.get(p.0, p.1));
        }
        assert forall|p: (int, int)| self.cells.dom().contains(p) implies self.cells[p]
            == other.cells[p] by {
            assert(self.get(p.0, p.1) == other.get(p.0, p.1));
        }
        assert(self.cells =~= other.cells);
    }
}

/// The row-major index of an in-bounds square lies in the cell store, and
/// the square can be read back from it.
pub proof fn lemma_square_index(width: int, height: int, x: int, y: int)
    requires
        0 <= x < width,
        0 <= y < height,
    ensures
        0 <= y * width + x < width * height,
        (y * width + x) % width == x,
        (y * width + x) / width == y,
{
    lemma_fundamental_div_mod_converse(y * width + x, width, y, x);
    assert(y * width + x < width * height) by {
        lemma_mul_inequality(y + 1, height, width);
        lemma_mul_is_distributive_add_other_way(width, y, 1);
        lemma_mul_is_commutative(width, height);
    }
    assert(0 <= y * width) by (nonlinear_arith)
        requires
            0 <= y,
            0 < width,
    ;
}

/// Every index of the cell store is the row-major index of one in-bounds
/// square.
pub proof fn lemma_index_square(width: int, height: int, i: int)
    requires
        0 < width,
        0 <= i < width * height,
    ensures
        0 <= i % width < width,
        0 <= i / width < height,
        (i / width) * width + i % width == i,
{
    lemma_fundamental_div_mod(i, width);
    lemma_mul_is_commutative(width, i / width);
    assert(0 <= i / width < height) by (nonlinear_arith)
        requires
            0 < width,
            0 <= i < width * height,
            i == (i / width) * width + i % width,
            0 <= i % width < width,
    ;
}

/// Whether the stored square `j` holds a cell of type `id`.
pub open spec fn stored_type(squares: Seq<Option<Cell>>, j: int, id: CellType) -> bool {
    squares[j] is Some && squares[j]->0.id == id
}

/// Whether one of the first `n` stored squares holds a cell of type `id`.
pub open spec fn seen(squares: Seq<Option<Cell>>, n: int, id: CellType) -> bool {
    exists|j: int| 0 <= j < n && stored_type(squares, j, id)
}

/// What is seen among the first `n + 1` squares is what is seen among the
/// first `n` and on the next.
pub proof fn lemma_seen_step(squares: Seq<Option<Cell>>, n: int, id: CellType)
    requires
        0 <= n < squares.len(),
    ensures
        seen(squares, n + 1, id) == (seen(squares, n, id) || stored_type(squares, n, id)),
{
    if seen(squares, n + 1, id) {
        let j = choose|j: int| 0 <= j < n + 1 && stored_type(squares, j, id);
        if j < n {
            assert(0 <= j < n && stored_type(squares, j, id));
        }
    }
    if seen(squares, n, id) {
        let j = choose|j: int| 0 <= j < n && stored_type(squares, j, id);
        assert(0 <= j < n + 1 && stored_type(squares, j, id));
    }
    if stored_type(squares, n, id) {
        assert(0 <= n < n + 1 && stored_type(squares, n, id));
    }
}

/// A whole grid of cells.
#[derive(Debug, Clone)]
pub struct Grid {
    width: usize,
    height: usize,
    cells: Vec<Option<Cell>>,
    tick_count: u32,
}

impl View for Grid {
    type V = Board;

    closed spec fn view(&self) -> Board {
        Board {
            width: self.width as int,
            height: self.height as int,
            cells: Map::new(
                |p: (int, int)|
                    0 <= p.0 < self.width && 0 <= p.1 < self.height && p.1 * self.width + p.0
                        < self.cells@.len() && self.cells@[p.1 * self.width + p.0] is Some,
                |p: (int, int)| self.cells@[p.1 * self.width + p.0]->0,
            ),
        }
    }
}

impl Grid {
    /// A grid is well formed when its dimensions are positive, it has at
    /// most `isize::MAX / 3` squares, and it stores one square for each
    /// position of its board.
    pub closed spec fn wf(&self) -> bool {
        &&& self.width > 0
        &&& self.height > 0
        &&& self.width * self.height <= isize::MAX / 3
        &&& self.cells@.len() == self.width * self.height
    }

    /// A grid is blank before `init`: it has its dimensions but stores no
    /// square yet.
    pub closed spec fn blank(&self) -> bool {
        self.cells@.len() == 0
    }

    /// What `==` decides: the same dimensions, as many stored squares, and
    /// in each of them the same cell up to the `updated` flag.
    pub closed spec fn equals(&self, other: &Grid) -> bool {
        &&& self.width == other.width
        &&& self.height == other.height
        &&& self.cells@.len() == other.cells@.len()
        &&& forall|j: int|
            0 <= j < self.cells@.len() ==> same_square(self.cells@[j], other.cells@[j])
    }

    /// The squares of the grid in row-major order, bottom row first.
    pub closed spec fn squares(&self) -> Seq<Option<Cell>> {
        self.cells@
    }

    /// The view of a well-formed grid is a board of the grid's dimensions
    /// that shows, on each square, what the grid stores for it.
    pub proof fn lemma_view(&self)
        requires
            self.wf(),
        ensures
            self@.wf(),
            self@.width < isize::MAX,
            self@.height < isize::MAX,
            self@.width * self@.height <= isize::MAX / 3,
            self.squares().len() == self@.width * self@.height,
            self.squares() == self@.squares(),
            forall|x: int, y: int|
                self@.in_bounds(x, y) ==> #[trigger] self@.get(x, y) == self.squares()[y
                    * self@.width + x],
            forall|i: int|
                0 <= i < self.squares().len() ==> #[trigger] self.squares()[i] == self@.get(
                    i % self@.width,
                    i / self@.width,
                ),
    {
        let w = self.width as int;
        let h = self.height as int;
        assert(w <= w * h && h <= w * h) by (nonlinear_arith)
            requires
                w > 0,
                h > 0,
        ;
        assert forall|x: int, y: int| self@.in_bounds(x, y) implies #[trigger] self@.get(x, y)
            == self.squares()[y * self.width + x] by {
            lemma_square_index(w, h, x, y);
        }
        assert forall|i: int| 0 <= i < self.squares().len() implies #[trigger] self.squares()[i]
            == self@.get(i % w, i / w) by {
            lemma_index_square(w, h, i);
        }
        assert(self.squares() =~= self@.squares());
    }

    /// The number of ticks that the grid has gone through.
    pub closed spec fn spec_tick_count(&self) -> u32 {
        self.tick_count
    }

    /// The width of the grid, in squares.
    pub fn width(&self) -> (r: usize)
        ensures
            r == self@.width,
    {
        self.width
    }

    /// The height of the grid, in squares.
    pub fn height(&self) -> (r: usize)
        ensures
            r == self@.height,
    {
        self.height
    }

    /// The number of ticks that the grid has gone through.
    #[verifier::when_used_as_spec(spec_tick_count)]
    pub fn tick_count(&self) -> (r: u32)
        ensures
            r == self.spec_tick_count(),
    {
        self.tick_count
    }

    /// Creates a new blank grid.
    /// You have to call `Grid::init` before using it.
    pub fn new_const(width: usize, height: usize) -> (g: Grid)
        requires
            width > 0,
            height > 0,
        ensures
            g@.width == width,
            g@.height == height,
            g.tick_count() == 0,
            g.blank(),
    {
        Grid { width, height, cells: Vec::new(), tick_count: 0 }
    }

    /// Creates a new initialized grid: every square empty, no tick counted.
    pub fn new(width: usize, height: usize) -> (g: Grid)
        requires
            width > 0,
            height > 0,
            width * height <= isize::MAX / 3,
        ensures
            g.wf(),
            g.tick_count() == 0,
            g@ == Board::empty(width as int, height as int),
    {
        let mut g = Grid { width, height, cells: Vec::new(), tick_count: 0 };
        g.init();
        g
    }

    /// Initializes the grid.
    /// Fills the cell collection with empty squares.
    /// This is called automatically by `Grid::new`.
    pub fn init(&mut self)
        requires
            old(self)@.width > 0,
            old(self)@.height > 0,
            old(self)@.width * old(self)@.height <= isize::MAX / 3,
            old(self).blank(),
        ensures
            final(self).wf(),
            final(self).tick_count() == old(self).tick_count(),
            final(self)@ == Board::empty(old(self)@.width, old(self)@.height),
    {
        let n: usize = self.width * self.height;
        let mut i: usize = 0;
        while i < n
            invariant
                i <= n,
                n == self.width * self.height,
                self.cells@.len() == i,
                self.width == old(self).width,
                self.height == old(self).height,
                self.tick_count == old(self).tick_count,
                forall|j: int| 0 <= j < i ==> self.cells@[j] is None,
            decreases n - i,
        {
            self.cells.push(None);
            i = i + 1;
        }
        assert(self@.cells =~= Map::<(int, int), Cell>::empty());
    }

    /// Checks if a given coordinate is inside the grid bounds.
    pub fn is_in_bounds(&self, x: isize, y: isize) -> (r: bool)
        ensures
            r == self@.in_bounds(x as int, y as int),
    {
        x >= 0 && y >= 0 && (x as usize) < self.width && (y as usize) < self.height
    }

    /// Gets the cell at the coordinate.
    /// Returns `None` if the coordinate is outside the grid bounds.
    pub fn get(&self, x: isize, y: isize) -> (r: Option<Cell>)
        requires
            self.wf(),
        ensures
            r == self@.get(x as int, y as int),
    {
        if self.is_in_bounds(x, y) {
            proof {
                lemma_square_index(self.width as int, self.height as int, x as int, y as int);
            }
            self.cells[y as usize * self.width + x as usize]
        } else {
            None
        }
    }

    /// Gets a reference to the square at the coordinate, which must be
    /// inside the grid bounds.
    pub fn get_unchecked(&self, x: isize, y: isize) -> (r: &Option<Cell>)
        requires
            self.wf(),
            self@.in_bounds(x as int, y as int),
        ensures
            *r == self@.get(x as int, y as int),
    {
        proof {
            lemma_square_index(self.width as int, self.height as int, x as int, y as int);
        }
        &self.cells[y as usize * self.width + x as usize]
    }

    /// What a change of one stored square does to the board.
    proof fn lemma_stored(before: Grid, after: Grid, x: int, y: int, square: Option<Cell>)
        requires
            before.wf(),
            before@.in_bounds(x, y),
            after.width == before.width,
            after.height == before.height,
            after.cells@ == before.cells@.update(y * before.width + x, square),
        ensures
            after.wf(),
            after@ == before@.put(x, y, square),
    {
        reveal(Board::put);
        let w = before.width as int;
        let h = before.height as int;
        let goal = before@.put(x, y, square);
        lemma_square_index(w, h, x, y);
        assert forall|p: (int, int)|
            after@.cells.dom().contains(p) == goal.cells.dom().contains(p) by {
            if 0 <= p.0 < w && 0 <= p.1 < h {
                lemma_square_index(w, h, p.0, p.1);
            }
        }
        assert forall|p: (int, int)| after@.cells.dom().contains(p) implies after@.cells[p]
            == goal.cells[p] by {
            lemma_square_index(w, h, p.0, p.1);
        }
        assert(after@.cells =~= goal.cells);
    }

    /// Gets a mutable reference to the cell at the coordinate.
    /// Returns `None` if the square is empty or outside the grid bounds; what
    /// is written through the reference is written to the grid.
    pub fn get_mut(&mut self, x: isize, y: isize) -> (r: Option<&mut Cell>)
        requires
            old(self).wf(),
        ensures
            match r {
                Some(cell) => {
                    &&& old(self)@.get(x as int, y as int) == Some(*cell)
                    &&& final(self).wf()
                    &&& final(self).tick_count() == old(self).tick_count()
                    &&& final(self)@ == old(self)@.put(x as int, y as int, Some(*final(cell)))
                },
                None => {
                    &&& old(self)@.get(x as int, y as int) is None
                    &&& final(self).wf()
                    &&& final(self).tick_count() == old(self).tick_count()
                    &&& final(self)@ == old(self)@
                },
            },
    {
        if self.is_in_bounds(x, y) {
            proof {
                lemma_square_index(self.width as int, self.height as int, x as int, y as int);
            }
            let ix: usize = y as usize * self.width + x as usize;
            let ghost before = *self;
            proof {
                assert forall|after: Grid, square: Option<Cell>|
                    #![trigger after@, before@.put(x as int, y as int, square)]
                    after.width == before.width && after.height == before.height && after.cells@
                        == before.cells@.update(ix as int, square) implies after.wf() && after@
                        == before@.put(x as int, y as int, square) by {
                    Grid::lemma_stored(before, after, x as int, y as int, square);
                }
            }
            if self.cells[ix].is_none() {
                return None;
            }
            match &mut self.cells[ix] {
                Some(cell) => Some(cell),
                None => None,
            }
        } else {
            None
        }
    }

    /// Overrides the cell at the coordinate.
    pub fn set(&mut self, x: isize, y: isize, cell: Cell)
        requires
            old(self).wf(),
        ensures
            final(self).wf(),
            final(self).tick_count() == old(self).tick_count(),
            final(self)@.same_size(old(self)@),
            final(self)@ == old(self)@.put(x as int, y as int, Some(cell)),
    {
        self.set_cell(x, y, Some(cell));
    }

    /// Overrides the cell at the coordinate.
    /// Can also pass `None` to remove the cell.
    pub fn set_cell(&mut self, x: isize, y: isize, cell: Option<Cell>)
        requires
            old(self).wf(),
        ensures
            final(self).wf(),
            final(self).tick_count() == old(self).tick_count(),
            final(self)@.same_size(old(self)@),
            final(self)@ == old(self)@.put(x as int, y as int, cell),
    {
        proof {
            reveal(Board::put);
        }
        if self.is_in_bounds(x, y) {
            let w = self.width;
            proof {
                lemma_square_index(w as int, self.height as int, x as int, y as int);
            }
            let ix: usize = y as usize * w + x as usize;
            self.cells[ix] = cell;
            proof {
                reveal(Board::put);
                let before = old(self)@.put(x as int, y as int, cell);
                let h = self.height as int;
                assert forall|p: (int, int)|
                    self@.cells.dom().contains(p) == before.cells.dom().contains(p) by {
                    if 0 <= p.0 < w && 0 <= p.1 < h {
                        lemma_square_index(w as int, h, p.0, p.1);
                    }
                }
                assert forall|p: (int, int)| self@.cells.dom().contains(p) implies self@.cells[p]
                    == before.cells[p] by {
                    lemma_square_index(w as int, h, p.0, p.1);
                }
                assert(self@.cells =~= before.cells);
            }
        }
    }

    /// Tries to set the square at the row-major index `ix`; tells whether
    /// the index lies in the grid.
    pub fn try_set(&mut self, ix: usize, cell: Option<Cell>) -> (r: bool)
        requires
            old(self).wf(),
        ensures
            final(self).wf(),
            final(self).tick_count() == old(self).tick_count(),
            final(self)@.same_size(old(self)@),
            r == (ix < old(self)@.width * old(self)@.height),
            r ==> final(self)@ == old(self)@.put(
                ix as int % old(self)@.width,
                ix as int / old(self)@.width,
                cell,
            ),
            !r ==> final(self)@ == old(self)@,
    {
        if ix < self.cells.len() {
            proof {
                lemma_index_square(self.width as int, self.height as int, ix as int);
            }
            let x: usize = ix % self.width;
            let y: usize = ix / self.width;
            self.set_cell(x as isize, y as isize, cell);
            true
        } else {
            false
        }
    }

    /// Replaces the cell at the coordinate with air.
    pub fn delete(&mut self, x: isize, y: isize)
        requires
            old(self).wf(),
        ensures
            final(self).wf(),
            final(self).tick_count() == old(self).tick_count(),
            final(self)@.same_size(old(self)@),
            final(self)@ == old(self)@.put(x as int, y as int, None),
    {
        self.set_cell(x, y, None);
    }

    /// Takes out the cell at the coordinate, leaving air.
    pub fn take(&mut self, x: isize, y: isize) -> (r: Option<Cell>)
        requires
            old(self).wf(),
        ensures
            final(self).wf(),
            final(self).tick_count() == old(self).tick_count(),
            final(self)@.same_size(old(self)@),
            r == old(self)@.get(x as int, y as int),
            final(self)@ == old(self)@.put(x as int, y as int, None),
    {
        let r = self.get(x, y);
        self.set_cell(x, y, None);
        r
    }

    /// Creates a grid from its squares in row-major order, bottom row first.
    pub fn from_squares(width: usize, height: usize, squares: Vec<Option<Cell>>) -> (g: Grid)
        requires
            width > 0,
            height > 0,
            width * height <= isize::MAX / 3,
            squares@.len() == width * height,
        ensures
            g.wf(),
            g.tick_count() == 0,
            g@ == Board::of_squares(width as int, height as int, squares@),
    {
        let g = Grid { width, height, cells: squares, tick_count: 0 };
        proof {
            let w = width as int;
            let h = height as int;
            let f = |x: int, y: int|
                if 0 <= y * w + x < squares@.len() {
                    squares@[y * w + x]
                } else {
                    None
                };
            let b = Board::of_squares(w, h, squares@);
            g.lemma_view();
            assert forall|x: int, y: int| #[trigger] g@.get(x, y) == b.get(x, y) by {
                Board::lemma_from_fn(w, h, f, x, y);
                if 0 <= x < w && 0 <= y < h {
                    lemma_square_index(w, h, x, y);
                } else {
                    assert(g@.get(x, y) is Some ==> g@.in_bounds(x, y));
                }
            }
            Board::lemma_from_fn(w, h, f, 0, 0);
            g@.lemma_ext(b);
        }
        g
    }

    /// The squares of the grid in row-major order, bottom row first.
    pub fn to_vec(&self) -> (squares: Vec<Option<Cell>>)
        requires
            self.wf(),
        ensures
            squares@ == self@.squares(),
    {
        proof {
            self.lemma_view();
        }
        let mut squares: Vec<Option<Cell>> = Vec::new();
        let n = self.cells.len();
        let mut i: usize = 0;
        while i < n
            invariant
                i <= n,
                n == self.cells@.len(),
                squares@ == self.cells@.take(i as int),
            decreases n - i,
        {
            squares.push(self.cells[i]);
            proof {
                assert(self.cells@.take(i + 1) == self.cells@.take(i as int).push(
                    self.cells@[i as int],
                ));
            }
            i = i + 1;
        }
        proof {
            assert(self.cells@.take(n as int) == self.cells@);
        }
        squares
    }

    /// A copy of the grid as it is now.
    pub fn snapshot(&self) -> (copy: Grid)
        ensures
            copy.wf() == self.wf(),
            copy.tick_count() == self.tick_count(),
            copy@ == self@,
            copy.equals(self),
    {
        let mut cells: Vec<Option<Cell>> = Vec::new();
        let n = self.cells.len();
        let mut i: usize = 0;
        while i < n
            invariant
                i <= n,
                n == self.cells@.len(),
                cells@ == self.cells@.take(i as int),
            decreases n - i,
        {
            cells.push(self.cells[i]);
            proof {
                assert(self.cells@.take(i + 1) == self.cells@.take(i as int).push(
                    self.cells@[i as int],
                ));
            }
            i = i + 1;
        }
        proof {
            assert(self.cells@.take(n as int) == self.cells@);
        }
        let copy = Grid { width: self.width, height: self.height, cells, tick_count: self.tick_count };
        proof {
            assert(copy@.cells =~= self@.cells);
        }
        copy
    }

    /// Calls `f` for every square of the grid, with its coordinates and the
    /// cell on it: row by row from the bottom, each row from left to right.
    pub fn for_each<F: FnMut(isize, isize, Option<&Cell>)>(&self, mut f: F)
        requires
            self.wf(),
            forall|x: isize, y: isize, cell: Option<&Cell>| f.requires((x, y, cell)),
    {
        proof {
            self.lemma_view();
        }
        let mut y: usize = 0;
        while y < self.height
            invariant
                self.wf(),
                y <= self.height,
                self.width * self.height <= isize::MAX / 3,
                forall|x: isize, y: isize, cell: Option<&Cell>| f.requires((x, y, cell)),
            decreases self.height - y,
        {
            let mut x: usize = 0;
            while x < self.width
                invariant
                    self.wf(),
                    y < self.height,
                    x <= self.width,
                    self.width * self.height <= isize::MAX / 3,
                    forall|x: isize, y: isize, cell: Option<&Cell>| f.requires((x, y, cell)),
                decreases self.width - x,
            {
                proof {
                    lemma_square_index(self.width as int, self.height as int, x as int, y as int);
                }
                f(x as isize, y as isize, self.cells[y * self.width + x].as_ref());
                x = x + 1;
            }
            y = y + 1;
        }
    }

    /// Counts one more tick.
    pub fn count_tick(&mut self)
        requires
            old(self).tick_count() < u32::MAX,
        ensures
            final(self).wf() == old(self).wf(),
            final(self).tick_count() == old(self).tick_count() + 1,
            final(self)@ == old(self)@,
    {
        self.tick_count = self.tick_count + 1;
    }

    /// Reports, for each type of the catalog, whether the grid holds a cell
    /// of it.
    pub fn present_types(&self) -> (present: Vec<bool>)
        requires
            self.wf(),
        ensures
            present@.len() == CELL_TYPE_COUNT,
            forall|id: CellType| id < CELL_TYPE_COUNT ==> present@[id as int] == self@.has(id),
    {
        let mut present: Vec<bool> = Vec::new();
        let mut t: CellType = 0;
        while t < CELL_TYPE_COUNT
            invariant
                t <= CELL_TYPE_COUNT,
                present@.len() == t,
                forall|j: int| 0 <= j < t ==> !present@[j],
            decreases CELL_TYPE_COUNT - t,
        {
            present.push(false);
            t = t + 1;
        }
        let n = self.cells.len();
        let mut i: usize = 0;
        while i < n
            invariant
                i <= n,
                n == self.cells@.len(),
                present@.len() == CELL_TYPE_COUNT,
                forall|id: CellType|
                    id < CELL_TYPE_COUNT ==> (#[trigger] present@[id as int] <==> seen(
                        self.cells@,
                        i as int,
                        id,
                    )),
            decreases n - i,
        {
            let ghost before = present@;
            match self.cells[i] {
                Some(c) => {
                    if c.id < CELL_TYPE_COUNT {
                        present[c.id as usize] = true;
                    }
                },
                None => {},
            }
            proof {
                assert forall|id: CellType| id < CELL_TYPE_COUNT implies (
                #[trigger] present@[id as int] <==> seen(self.cells@, i + 1, id)) by {
                    lemma_seen_step(self.cells@, i as int, id);
                    assert(before[id as int] <==> seen(self.cells@, i as int, id));
                }
            }
            i = i + 1;
        }
        proof {
            assert forall|id: CellType| id < CELL_TYPE_COUNT implies present@[id as int]
                == self@.has(id) by {
                self.lemma_seen_all(id);
            }
        }
        present
    }

    /// A type has been seen among all stored squares exactly if the board
    /// holds a cell of it.
    proof fn lemma_seen_all(&self, id: CellType)
        requires
            self.wf(),
        ensures
            seen(self.cells@, self.cells@.len() as int, id) == self@.has(id),
    {
        self.lemma_view();
        let b = self@;
        let w = self.width as int;
        let h = self.height as int;
        let n = self.cells@.len() as int;
        if seen(self.cells@, n, id) {
            let j = choose|j: int| 0 <= j < n && stored_type(self.cells@, j, id);
            lemma_index_square(w, h, j);
            assert(self.squares()[j] == b.get(j % w, j / w));
            assert(b.holds(j % w, j / w, id));
        }
        if b.has(id) {
            let (x, y) = choose|x: int, y: int| b.holds(x, y, id);
            assert(b.get(x, y) is Some ==> b.in_bounds(x, y));
            lemma_square_index(w, h, x, y);
            assert(b.get(x, y) == self.squares()[y * w + x]);
            assert(stored_type(self.cells@, y * w + x, id));
        }
    }

    /// Clears the `updated` flag of every cell.
    pub fn clear_updated(&mut self)
        requires
            old(self).wf(),
        ensures
            final(self).wf(),
            final(self).tick_count() == old(self).tick_count(),
            final(self)@ == old(self)@.cleared(),
    {
        let n = self.cells.len();
        let mut i: usize = 0;
        while i < n
            invariant
                i <= n,
                n == self.cells@.len(),
                n == old(self).cells@.len(),
                self.width == old(self).width,
                self.height == old(self).height,
                self.tick_count == old(self).tick_count,
                forall|j: int|
                    0 <= j < i ==> #[trigger] self.cells@[j] == match old(self).cells@[j] {
                        Some(c) => Some(c.with_updated(false)),
                        None => None,
                    },
                forall|j: int| i <= j < n ==> #[trigger] self.cells@[j] == old(self).cells@[j],
            decreases n - i,
        {
            match self.cells[i] {
                Some(c) => {
                    let mut cell = c;
                    cell.updated = false;
                    self.cells[i] = Some(cell);
                },
                None => {},
            }
            i = i + 1;
        }
        proof {
            Grid::lemma_cleared_view(*old(self), *self);
        }
    }

    /// A grid that stores the squares of another with the flags cleared
    /// shows the board of that other with the flags cleared.
    proof fn lemma_cleared_view(before: Grid, after: Grid)
        requires
            before.wf(),
            after.width == before.width,
            after.height == before.height,
            after.cells@.len() == before.cells@.len(),
            forall|j: int|
                0 <= j < before.cells@.len() ==> #[trigger] after.cells@[j] == match before.cells@[j] {
                    Some(c) => Some(c.with_updated(false)),
                    None => None,
                },
        ensures
            after.wf(),
            after@ == before@.cleared(),
    {
        before.lemma_view();
        after.lemma_view();
        before@.lemma_cleared();
        let w = before.width as int;
        let h = before.height as int;
        assert forall|x: int, y: int| #[trigger] after@.get(x, y) == before@.cleared().get(
            x,
            y,
        ) by {
            if before@.in_bounds(x, y) {
                lemma_square_index(w, h, x, y);
                assert(after@.get(x, y) == after.squares()[y * w + x]);
                assert(before@.get(x, y) == before.squares()[y * w + x]);
            } else {
                assert(after@.get(x, y) is Some ==> after@.in_bounds(x, y));
                assert(before@.get(x, y) is Some ==> before@.in_bounds(x, y));
            }
        }
        after@.lemma_ext(before@.cleared());
    }

    /// Begins a tick: clears the `updated` flag of every cell and reports,
    /// for each type of the catalog, whether the grid holds a cell of it.
    pub fn reset_updated(&mut self) -> (present: Vec<bool>)
        requires
            old(self).wf(),
        ensures
            final(self).wf(),
            final(self).tick_count() == old(self).tick_count(),
            final(self)@ == old(self)@.cleared(),
            present@.len() == CELL_TYPE_COUNT,
            forall|id: CellType| id < CELL_TYPE_COUNT ==> present@[id as int] == old(self)@.has(id),
    {
        let present = self.present_types();
        self.clear_updated();
        present
    }

    /// Whether every square of this grid looks like the square at the same
    /// coordinate of the other grid.
    pub fn has_same_cells(&self, other: &Grid) -> (r: bool)
        requires
            self.wf(),
            other.wf(),
        ensures
            r == self@.looks_like(other@),
    {
        proof {
            self.lemma_view();
        }
        let mut y: usize = 0;
        while y < self.height
            invariant
                self.wf(),
                other.wf(),
                y <= self.height,
                self@.width == self.width,
                self@.height == self.height,
                self.width * self.height < isize::MAX,
                forall|px: int, py: int|
                    0 <= px < self.width && 0 <= py < y ==> like_square(
                        #[trigger] self@.get(px, py),
                        other@.get(px, py),
                    ),
            decreases self.height - y,
        {
            let mut x: usize = 0;
            while x < self.width
                invariant
                    self.wf(),
                    other.wf(),
                    y < self.height,
                    x <= self.width,
                    self@.width == self.width,
                    self@.height == self.height,
                    self.width * self.height < isize::MAX,
                    forall|px: int, py: int|
                        0 <= px < self.width && 0 <= py < y ==> like_square(
                            #[trigger] self@.get(px, py),
                            other@.get(px, py),
                        ),
                    forall|px: int|
                        0 <= px < x ==> like_square(
                            #[trigger] self@.get(px, y as int),
                            other@.get(px, y as int),
                        ),
                decreases self.width - x,
            {
                proof {
                    lemma_square_index(self.width as int, self.height as int, x as int, y as int);
                }
                let cell = self.get(x as isize, y as isize);
                let other_cell = other.get(x as isize, y as isize);
                let alike = match (cell, other_cell) {
                    (Some(c), Some(oc)) => c.looks_like(&oc),
                    (None, None) => true,
                    _ => false,
                };
                if !alike {
                    assert(!like_square(self@.get(x as int, y as int), other@.get(x as int, y as int)));
                    return false;
                }
                x = x + 1;
            }
            y = y + 1;
        }
        true
    }
}

/// Whether two stored squares hold the same.
fn same_stored(a: &Option<Cell>, b: &Option<Cell>) -> (r: bool)
    ensures
        r == same_square(*a, *b),
{
    match (a, b) {
        (None, None) => true,
        (Some(c), Some(d)) => c == d,
        _ => false,
    }
}

impl PartialEq for Grid {
    /// Equality of grids compares the dimensions and the cells; it ignores
    /// the tick count and the `updated` flags.
    fn eq(&self, other: &Grid) -> (r: bool) {
        if self.width != other.width || self.height != other.height || self.cells.len()
            != other.cells.len() {
            return false;
        }
        let n = self.cells.len();
        let mut i: usize = 0;
        while i < n
            invariant
                i <= n,
                n == self.cells@.len(),
                n == other.cells@.len(),
                forall|j: int| 0 <= j < i ==> same_square(self.cells@[j], other.cells@[j]),
            decreases n - i,
        {
            if !same_stored(&self.cells[i], &other.cells[i]) {
                return false;
            }
            i = i + 1;
        }
        true
    }
}

impl PartialEqSpecImpl for Grid {
    open spec fn obeys_eq_spec() -> bool {
        true
    }

    open spec fn eq_spec(&self, other: &Grid) -> bool {
        self.equals(other)
    }
}

impl Eq for Grid {

}

/// Two well-formed grids are equal exactly when their boards are the same.
pub proof fn lemma_grid_eq(a: &Grid, b: &Grid)
    requires
        a.wf(),
        b.wf(),
    ensures
        a.equals(b) <==> a@.same(b@),
{
    a.lemma_view();
    b.lemma_view();
    let w = a.width as int;
    let h = a.height as int;
    if a.equals(b) {
        assert forall|x: int, y: int| a@.in_bounds(x, y) implies same_square(
            #[trigger] a@.get(x, y),
            b@.get(x, y),
        ) by {
            lemma_square_index(w, h, x, y);
        }
    }
    if a@.same(b@) {
        assert(a.squares().len() == b.squares().len());
        assert forall|j: int| 0 <= j < a.squares().len() implies same_square(
            a.squares()[j],
            b.squares()[j],
        ) by {
            lemma_index_square(w, h, j);
            assert(a@.in_bounds(j % w, j / w));
        }
    }
}

} // verus!
