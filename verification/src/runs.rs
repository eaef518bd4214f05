//! Squares as numbers, and rows of squares as runs: the model that the text
//! formats share. A square is written as a code, 0 for an empty square and
//! `1 + 4 * id + direction` for a cell; equal codes in a row are written
//! once, with their count.

use vstd::prelude::*;
use crate::cell_data::CELL_TYPE_COUNT;
use crate::cell_data::CellType;
use crate::cell_data::in_catalog;
use crate::cells::Board;
use crate::cells::Cell;
use crate::cells::lemma_square_index;
use crate::cells::same_square;
use crate::direction::Direction;
use crate::direction::lemma_from_turns_of_turns;

verus! {

/// The code of a square: 0 for an empty one, `1 + 4 * id + direction` for a
/// cell.
pub open spec fn code_of(square: Option<Cell>) -> nat {
    match square {
        None => 0,
        Some(c) => (1 + 4 * c.id + c.direction.turns()) as nat,
    }
}

/// The square that a code stands for. Code 0, and a code whose type is not
/// in the catalog, stand for an empty square; any other for a new cell of
/// that type and direction.
pub open spec fn cell_of(code: nat) -> Option<Cell> {
    if code == 0 {
        None
    } else if (code - 1) / 4 < CELL_TYPE_COUNT {
        Some(Cell::spec_new(((code - 1) / 4) as CellType, Direction::from_turns((code - 1) % 4)))
    } else {
        None
    }
}

/// A square as it comes back from its code: a cell of the catalog as a new
/// cell, not updated and holding nothing; anything else as an empty square.
pub open spec fn fresh(square: Option<Cell>) -> Option<Cell> {
    match square {
        Some(c) => if in_catalog(c.id) {
            Some(Cell::spec_new(c.id, c.direction))
        } else {
            None
        },
        None => None,
    }
}

/// A row of squares, each as it comes back from its code.
pub open spec fn fresh_row(squares: Seq<Option<Cell>>) -> Seq<Option<Cell>> {
    Seq::new(squares.len(), |i: int| fresh(squares[i]))
}

/// The board with each square as it comes back from its code.
pub open spec fn fresh_board(b: Board) -> Board {
    Board::of_squares(b.width, b.height, fresh_row(b.squares()))
}

/// Whether every cell of the row is of a type of the catalog and holds
/// nothing.
pub open spec fn plain_row(squares: Seq<Option<Cell>>) -> bool {
    forall|i: int|
        0 <= i < squares.len() ==> match #[trigger] squares[i] {
            Some(c) => in_catalog(c.id) && c.contained_cell is None,
            None => true,
        }
}

/// `cell`, `count` times in a row.
pub open spec fn repeated(cell: Option<Cell>, count: nat) -> Seq<Option<Cell>> {
    Seq::new(count, |i: int| cell)
}

/// The runs of a row of squares: for each stretch of equal codes, as long as
/// it can be made, the code and the length of the stretch.
pub open spec fn runs(squares: Seq<Option<Cell>>) -> Seq<(nat, nat)>
    decreases squares.len(),
{
    if squares.len() == 0 {
        Seq::empty()
    } else {
        let before = runs(squares.drop_last());
        let code = code_of(squares.last());
        if before.len() > 0 && before.last().0 == code {
            before.drop_last().push((code, before.last().1 + 1))
        } else {
            before.push((code, 1))
        }
    }
}

/// The row of squares that a list of runs stands for.
pub open spec fn expand(groups: Seq<(nat, nat)>) -> Seq<Option<Cell>>
    decreases groups.len(),
{
    if groups.len() == 0 {
        Seq::empty()
    } else {
        expand(groups.drop_last()) + repeated(cell_of(groups.last().0), groups.last().1)
    }
}

/// The first `n` squares of a stream of squares; where the stream ends
/// before that, the rest is empty.
pub open spec fn laid_out(stream: Seq<Option<Cell>>, n: nat) -> Seq<Option<Cell>> {
    Seq::new(
        n,
        |i: int|
            if i < stream.len() {
                stream[i]
            } else {
                None
            },
    )
}

/// A square comes back from its code as `fresh` says.
pub proof fn lemma_cell_of_code(square: Option<Cell>)
    ensures
        cell_of(code_of(square)) == fresh(square),
{
    match square {
        Some(c) => {
            lemma_from_turns_of_turns(c.direction);
        },
        None => {},
    }
}

/// The runs of a row stand for the row itself, each square as it comes back
/// from its code; every run has a count of at least 1, the counts add up to
/// the length of the row, and no two neighbours have the same code.
pub proof fn lemma_expand_runs(squares: Seq<Option<Cell>>)
    ensures
        expand(runs(squares)) == fresh_row(squares),
        forall|k: int| 0 <= k < runs(squares).len() ==> (#[trigger] runs(squares)[k]).1 >= 1,
        squares.len() > 0 ==> runs(squares).len() > 0 && runs(squares).last().0 == code_of(
            squares.last(),
        ),
        runs(squares).len() <= squares.len(),
    decreases squares.len(),
{
    if squares.len() > 0 {
        let front = squares.drop_last();
        let before = runs(front);
        let code = code_of(squares.last());
        lemma_expand_runs(front);
        lemma_cell_of_code(squares.last());
        let cell = fresh(squares.last());
        if before.len() > 0 && before.last().0 == code {
            let count = before.last().1;
            let now = before.drop_last().push((code, count + 1));
            assert(now.drop_last() == before.drop_last());
            assert(repeated(cell, count + 1) == repeated(cell, count) + seq![cell]);
            assert(expand(now) == expand(before.drop_last()) + repeated(cell, count + 1));
            assert(expand(before) == expand(before.drop_last()) + repeated(cell, count));
            assert(expand(now) == expand(before) + seq![cell]);
            assert forall|k: int| 0 <= k < now.len() implies (#[trigger] now[k]).1 >= 1 by {
                if k < now.len() - 1 {
                    assert(now[k] == before[k]);
                }
            }
        } else {
            let now = before.push((code, 1));
            assert(now.drop_last() == before);
            assert(repeated(cell, 1) == seq![cell]);
            assert forall|k: int| 0 <= k < now.len() implies (#[trigger] now[k]).1 >= 1 by {
                if k < now.len() - 1 {
                    assert(now[k] == before[k]);
                }
            }
        }
        assert(fresh_row(squares) == fresh_row(front) + seq![cell]);
    } else {
        assert(fresh_row(squares) == Seq::<Option<Cell>>::empty());
    }
}

/// A row of empty squares is one run of the code 0.
pub proof fn lemma_runs_empty(squares: Seq<Option<Cell>>)
    requires
        forall|i: int| 0 <= i < squares.len() ==> (#[trigger] squares[i]) is None,
    ensures
        runs(squares) == if squares.len() == 0 {
            Seq::<(nat, nat)>::empty()
        } else {
            seq![(0nat, squares.len())]
        },
    decreases squares.len(),
{
    if squares.len() > 0 {
        let front = squares.drop_last();
        assert forall|i: int| 0 <= i < front.len() implies (#[trigger] front[i]) is None by {
            assert(front[i] == squares[i]);
        }
        lemma_runs_empty(front);
        assert(squares.last() is None);
        if front.len() > 0 {
            assert(runs(front).drop_last() =~= Seq::<(nat, nat)>::empty());
            assert(runs(squares) =~= seq![(0nat, squares.len())]);
        } else {
            assert(runs(squares) =~= seq![(0nat, squares.len())]);
        }
    }
}

/// A plain row comes back from its codes the same, up to the `updated`
/// flags.
pub proof fn lemma_fresh_plain(squares: Seq<Option<Cell>>)
    requires
        plain_row(squares),
    ensures
        forall|i: int|
            0 <= i < squares.len() ==> same_square(#[trigger] fresh_row(squares)[i], squares[i]),
{
    assert forall|i: int| 0 <= i < squares.len() implies same_square(
        #[trigger] fresh_row(squares)[i],
        squares[i],
    ) by {
        let sq = squares[i];
    }
}

/// A board whose cells are all of types of the catalog and hold nothing
/// comes back from its codes the same, up to the `updated` flags.
pub proof fn lemma_fresh_board_same(b: Board)
    requires
        b.wf(),
        plain_row(b.squares()),
    ensures
        fresh_board(b).wf(),
        fresh_board(b).same(b),
        b.same(fresh_board(b)),
{
    let w = b.width;
    let h = b.height;
    let sq = b.squares();
    let row = fresh_row(sq);
    assert(w * h >= 0) by (nonlinear_arith)
        requires
            w > 0,
            h > 0,
    ;
    Board::lemma_squares_of(w, h, row);
    lemma_fresh_plain(sq);
    let f = |x: int, y: int|
        if 0 <= y * w + x < row.len() {
            row[y * w + x]
        } else {
            None
        };
    assert forall|x: int, y: int| b.in_bounds(x, y) implies same_square(
        #[trigger] fresh_board(b).get(x, y),
        b.get(x, y),
    ) && same_square(b.get(x, y), fresh_board(b).get(x, y)) by {
        Board::lemma_from_fn(w, h, f, x, y);
        lemma_square_index(w, h, x, y);
        assert(sq[y * w + x] == b.get(x, y));
        assert(same_square(row[y * w + x], sq[y * w + x]));
    }
}

/// The code of a square.
pub fn square_code(square: &Option<Cell>) -> (code: usize)
    ensures
        code == code_of(*square),
        code <= 262144,
{
    match square {
        None => 0,
        Some(cell) => 1 + 4 * (cell.id as usize) + (cell.direction.to_u8() as usize),
    }
}

/// The square that a code stands for.
pub fn code_cell(code: usize) -> (square: Option<Cell>)
    ensures
        square == cell_of(code as nat),
{
    if code == 0 {
        None
    } else {
        let id: usize = (code - 1) / 4;
        if id < CELL_TYPE_COUNT as usize {
            Some(Cell::new(id as CellType, Direction::from_u8(((code - 1) % 4) as u8)))
        } else {
            None
        }
    }
}

/// The runs as the executable code holds them.
pub open spec fn runs_view(groups: Seq<(usize, usize)>) -> Seq<(nat, nat)> {
    Seq::new(groups.len(), |k: int| (groups[k].0 as nat, groups[k].1 as nat))
}

/// Groups a row of squares into runs.
pub fn group_runs(squares: &[Option<Cell>]) -> (groups: Vec<(usize, usize)>)
    ensures
        runs_view(groups@) == runs(squares@),
        forall|k: int| 0 <= k < groups@.len() ==> (#[trigger] groups@[k]).0 <= 262144,
{
    let mut groups: Vec<(usize, usize)> = Vec::new();
    let mut i: usize = 0;
    while i < squares.len()
        invariant
            i <= squares@.len(),
            runs_view(groups@) == runs(squares@.take(i as int)),
            forall|k: int| 0 <= k < groups@.len() ==> (#[trigger] groups@[k]).1 <= i,
            forall|k: int| 0 <= k < groups@.len() ==> (#[trigger] groups@[k]).0 <= 262144,
        decreases squares@.len() - i,
    {
        let ghost before = groups@;
        let code = square_code(&squares[i]);
        let n = groups.len();
        proof {
            assert(squares@.take(i + 1).drop_last() == squares@.take(i as int));
            assert(squares@.take(i + 1).last() == squares@[i as int]);
            if n > 0 {
                assert(runs_view(before).last() == (before[n - 1].0 as nat, before[n - 1].1 as nat));
            }
        }
        if n > 0 && groups[n - 1].0 == code {
            let count = groups[n - 1].1;
            groups[n - 1] = (code, count + 1);
            proof {
                assert(runs_view(groups@) == runs_view(before).drop_last().push(
                    (code as nat, (count + 1) as nat),
                ));
            }
        } else {
            groups.push((code, 1));
            proof {
                assert(runs_view(groups@) == runs_view(before).push((code as nat, 1nat)));
            }
        }
        i = i + 1;
    }
    proof {
        assert(squares@.take(squares@.len() as int) == squares@);
    }
    groups
}

/// Lays `count` copies of `cell` into the row from position `pos` on, as
/// far as the row reaches. Returns the position behind them, or the length
/// of the row if they reach that far. `stream` is what has been laid so far,
/// and `length` the true count, of which `count` may be the capped value.
pub(crate) fn lay(
    row: &mut Vec<Option<Cell>>,
    pos: usize,
    cell: Option<Cell>,
    count: usize,
    Ghost(stream): Ghost<Seq<Option<Cell>>>,
    Ghost(length): Ghost<nat>,
) -> (next: usize)
    requires
        old(row)@ == laid_out(stream, old(row)@.len()),
        pos == if stream.len() < old(row)@.len() {
            stream.len()
        } else {
            old(row)@.len()
        },
        count == if length > usize::MAX {
            usize::MAX
        } else {
            length as usize
        },
    ensures
        final(row)@.len() == old(row)@.len(),
        final(row)@ == laid_out(stream + repeated(cell, length), old(row)@.len()),
        next == if stream.len() + length < old(row)@.len() {
            (stream.len() + length) as usize
        } else {
            old(row)@.len() as usize
        },
{
    let n = row.len();
    let room = n - pos;
    let take = if count < room {
        count
    } else {
        room
    };
    let end = pos + take;
    let ghost after = stream + repeated(cell, length);
    let mut i: usize = pos;
    while i < end
        invariant
            pos <= i <= end <= n,
            n == row@.len(),
            n == old(row)@.len(),
            end - pos <= length,
            pos < end ==> pos == stream.len(),
            after == stream + repeated(cell, length),
            forall|j: int| 0 <= j < i ==> #[trigger] row@[j] == laid_out(after, n as nat)[j],
            forall|j: int| i <= j < n ==> #[trigger] row@[j] == laid_out(stream, n as nat)[j],
        decreases end - i,
    {
        row[i] = cell;
        i = i + 1;
    }
    proof {
        assert forall|j: int| 0 <= j < n implies #[trigger] row@[j] == laid_out(after, n as nat)[j] by {
            if j >= end {
                assert(row@[j] == laid_out(stream, n as nat)[j]);
            }
        }
        assert(row@ =~= laid_out(after, n as nat));
    }
    end
}

} // verus!
