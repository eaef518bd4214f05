//! What an editor needs to take changes back: for each action the squares
//! it changed, with what they held before.

use vstd::prelude::*;
use crate::cells::Board;
use crate::cells::Cell;
use crate::cells::Grid;
use crate::cells::same_square;
use crate::cell_data::MAILBOX;

verus! {

/// How many actions the stack keeps.
pub const UNDO_STACK_SIZE: usize = 20;

/// One action that can be undone: what each square that the action changed
/// held before.
pub struct UndoAction {
    entries: Vec<(isize, isize, Option<Cell>)>,
}

/// The place of the first entry from `from` on that is for the square
/// `(x, y)`, or the number of entries if there is none.
pub open spec fn entry_at(
    entries: Seq<(isize, isize, Option<Cell>)>,
    from: int,
    x: isize,
    y: isize,
) -> int
    decreases entries.len() - from,
{
    if from < 0 || from >= entries.len() {
        entries.len() as int
    } else if entries[from].0 == x && entries[from].1 == y {
        from
    } else {
        entry_at(entries, from + 1, x, y)
    }
}

/// The entries with the note that the square `(x, y)` held `cell`: it takes
/// the place of the entry for that square, or that of a new last entry.
pub open spec fn noted(
    entries: Seq<(isize, isize, Option<Cell>)>,
    x: isize,
    y: isize,
    cell: Option<Cell>,
) -> Seq<(isize, isize, Option<Cell>)> {
    let i = entry_at(entries, 0, x, y);
    if i < entries.len() {
        entries.update(i, (x, y, cell))
    } else {
        entries.push((x, y, cell))
    }
}

/// Where the first entry for a square is: no entry before it is for that
/// square.
pub proof fn lemma_entry_at(
    entries: Seq<(isize, isize, Option<Cell>)>,
    from: int,
    x: isize,
    y: isize,
)
    requires
        0 <= from <= entries.len(),
    ensures
        from <= entry_at(entries, from, x, y) <= entries.len(),
        entry_at(entries, from, x, y) < entries.len() ==> entries[entry_at(entries, from, x, y)].0
            == x && entries[entry_at(entries, from, x, y)].1 == y,
        forall|i: int|
            from <= i < entry_at(entries, from, x, y) ==> !((#[trigger] entries[i]).0 == x
                && entries[i].1 == y),
    decreases entries.len() - from,
{
    if from < entries.len() && !(entries[from].0 == x && entries[from].1 == y) {
        lemma_entry_at(entries, from + 1, x, y);
    }
}

/// The board with the first `n` entries written back, in their order.
pub open spec fn restored(b: Board, entries: Seq<(isize, isize, Option<Cell>)>, n: nat) -> Board
    decreases n,
{
    if n == 0 {
        b
    } else {
        restored(b, entries, (n - 1) as nat).put(
            entries[n - 1].0 as int,
            entries[n - 1].1 as int,
            entries[n - 1].2,
        )
    }
}

impl View for UndoAction {
    type V = Seq<(isize, isize, Option<Cell>)>;

    closed spec fn view(&self) -> Seq<(isize, isize, Option<Cell>)> {
        self.entries@
    }
}

impl UndoAction {
    /// An action knows each square once.
    pub open spec fn wf(&self) -> bool {
        forall|i: int, j: int|
            0 <= i < j < self@.len() ==> !((#[trigger] self@[i]).0 == (#[trigger] self@[j]).0
                && self@[i].1 == self@[j].1)
    }

    /// An action that changed nothing.
    pub fn new() -> (action: UndoAction)
        ensures
            action@.len() == 0,
            action.wf(),
    {
        UndoAction { entries: Vec::new() }
    }

    /// Notes what the square `pos` held; a note that there is for this square
    /// is replaced.
    pub fn insert(&mut self, pos: (isize, isize), cell: Option<Cell>)
        requires
            old(self).wf(),
        ensures
            final(self).wf(),
            final(self)@ == noted(old(self)@, pos.0, pos.1, cell),
    {
        let n = self.entries.len();
        let mut i: usize = 0;
        while i < n
            invariant
                i <= n,
                n == self.entries@.len(),
                self.entries@ == old(self).entries@,
                old(self).wf(),
                entry_at(self.entries@, 0, pos.0, pos.1) == entry_at(
                    self.entries@,
                    i as int,
                    pos.0,
                    pos.1,
                ),
            decreases n - i,
        {
            if self.entries[i].0 == pos.0 && self.entries[i].1 == pos.1 {
                self.entries[i] = (pos.0, pos.1, cell);
                proof {
                    assert forall|a: int, b: int| 0 <= a < b < self@.len() implies !((
                    #[trigger] self@[a]).0 == (#[trigger] self@[b]).0 && self@[a].1
                        == self@[b].1) by {
                        assert(self@[a].0 == old(self)@[a].0 && self@[a].1 == old(self)@[a].1);
                        assert(self@[b].0 == old(self)@[b].0 && self@[b].1 == old(self)@[b].1);
                    }
                }
                return ;
            }
            i = i + 1;
        }
        self.entries.push((pos.0, pos.1, cell));
        proof {
            lemma_entry_at(old(self)@, 0, pos.0, pos.1);
            assert forall|a: int, b: int| 0 <= a < b < self@.len() implies !((
            #[trigger] self@[a]).0 == (#[trigger] self@[b]).0 && self@[a].1 == self@[b].1) by {
                if b == n {
                    assert(self@[a] == old(self)@[a]);
                } else {
                    assert(self@[a] == old(self)@[a]);
                    assert(self@[b] == old(self)@[b]);
                }
            }
        }
    }

    /// Writes back to the grid what the squares of this action held.
    pub fn undo_on(&self, action_grid: &mut Grid)
        requires
            old(action_grid).wf(),
        ensures
            final(action_grid).wf(),
            final(action_grid).tick_count() == old(action_grid).tick_count(),
            final(action_grid)@ == restored(old(action_grid)@, self@, self@.len()),
    {
        let n = self.entries.len();
        let mut i: usize = 0;
        while i < n
            invariant
                i <= n,
                n == self.entries@.len(),
                action_grid.wf(),
                action_grid.tick_count() == old(action_grid).tick_count(),
                action_grid@ == restored(old(action_grid)@, self@, i as nat),
            decreases n - i,
        {
            let (x, y, cell) = self.entries[i];
            action_grid.set_cell(x, y, cell);
            i = i + 1;
        }
    }
}

/// The actions that can be undone, the latest last; no more than
/// `UNDO_STACK_SIZE` of them.
pub struct CellUndoStack {
    actions: Vec<UndoAction>,
}

impl CellUndoStack {
    /// The number of actions on the stack.
    pub closed spec fn spec_len(&self) -> nat {
        self.actions@.len()
    }

    /// The entries of the action `k` of the stack, the oldest being action 0.
    pub closed spec fn action(&self, k: int) -> Seq<(isize, isize, Option<Cell>)> {
        self.actions@[k]@
    }

    /// The stack holds no more actions than it keeps, and each action knows
    /// each square once.
    pub closed spec fn wf(&self) -> bool {
        &&& self.actions@.len() <= UNDO_STACK_SIZE
        &&& forall|k: int| 0 <= k < self.actions@.len() ==> (#[trigger] self.actions@[k]).wf()
    }

    /// An empty stack.
    pub fn new() -> (stack: CellUndoStack)
        ensures
            stack.wf(),
            stack.spec_len() == 0,
    {
        CellUndoStack { actions: Vec::new() }
    }

    /// The number of actions on the stack.
    pub fn len(&self) -> (n: usize)
        ensures
            n == self.spec_len(),
    {
        self.actions.len()
    }

    /// Begins a new action. Where the stack is full, the oldest action is
    /// forgotten.
    pub fn start(&mut self)
        requires
            old(self).wf(),
        ensures
            final(self).wf(),
            final(self).spec_len() == if old(self).spec_len() < UNDO_STACK_SIZE {
                old(self).spec_len() + 1
            } else {
                old(self).spec_len()
            },
            final(self).action(final(self).spec_len() - 1).len() == 0,
            forall|k: int|
                0 <= k < final(self).spec_len() - 1 ==> #[trigger] final(self).action(k)
                    == old(self).action(k + old(self).spec_len() + 1 - final(self).spec_len()),
    {
        self.actions.push(UndoAction::new());
        if self.actions.len() > UNDO_STACK_SIZE {
            self.actions.remove(0);
        }
    }

    /// Notes for the latest action what the square `(x, y)` held.
    pub fn insert(&mut self, x: isize, y: isize, cell: Option<Cell>)
        requires
            old(self).wf(),
            old(self).spec_len() > 0,
        ensures
            final(self).wf(),
            final(self).spec_len() == old(self).spec_len(),
            forall|k: int|
                0 <= k < final(self).spec_len() - 1 ==> #[trigger] final(self).action(k) == old(
                    self,
                ).action(k),
            final(self).action(final(self).spec_len() - 1) == noted(
                old(self).action(old(self).spec_len() - 1),
                x,
                y,
                cell,
            ),
    {
        let mut action = self.actions.pop().unwrap();
        action.insert((x, y), cell);
        self.actions.push(action);
    }

    /// Takes the latest action off the stack.
    pub fn pop(&mut self) -> (action: Option<UndoAction>)
        requires
            old(self).wf(),
        ensures
            final(self).wf(),
            match action {
                Some(a) => old(self).spec_len() > 0 && final(self).spec_len() == old(
                    self,
                ).spec_len() - 1 && a@ == old(self).action(old(self).spec_len() - 1) && a.wf(),
                None => old(self).spec_len() == 0 && final(self).spec_len() == 0,
            },
            forall|k: int|
                0 <= k < final(self).spec_len() ==> #[trigger] final(self).action(k) == old(
                    self,
                ).action(k),
    {
        self.actions.pop()
    }
}

/// What comes to stand on a square when `place` is put on what it holds:
/// a cell that is put on a mailbox, and is no mailbox itself, goes into the
/// mailbox, with its direction relative to that of the mailbox; anything
/// else takes the square.
pub open spec fn placed(existing: Option<Cell>, place: Option<Cell>) -> Option<Cell> {
    match (existing, place) {
        (Some(found), Some(put)) => if found.id == MAILBOX && put.id != MAILBOX {
            Some(
                Cell {
                    contained_cell: Some((put.id, put.direction.spec_minus(found.direction))),
                    ..found.spec_copy()
                },
            )
        } else {
            place
        },
        _ => place,
    }
}

/// Puts `place` on the square `(x, y)` of the grid, as `placed` says, and
/// notes for the latest action of the stack what the square held. A square
/// outside the grid, and one that would hold the same as before, is left
/// alone and not noted. Returns whether the square was changed.
pub fn place_cell(
    grid: &mut Grid,
    stack: &mut CellUndoStack,
    x: isize,
    y: isize,
    place: Option<Cell>,
) -> (changed: bool)
    requires
        old(grid).wf(),
        old(stack).wf(),
        old(stack).spec_len() > 0,
    ensures
        final(grid).wf(),
        final(grid).tick_count() == old(grid).tick_count(),
        final(stack).wf(),
        final(stack).spec_len() == old(stack).spec_len(),
        forall|k: int|
            0 <= k < final(stack).spec_len() - 1 ==> #[trigger] final(stack).action(k) == old(
                stack,
            ).action(k),
        changed == (old(grid)@.in_bounds(x as int, y as int) && !same_square(
            placed(old(grid)@.get(x as int, y as int), place),
            old(grid)@.get(x as int, y as int),
        )),
        changed ==> final(grid)@ == old(grid)@.put(
            x as int,
            y as int,
            placed(old(grid)@.get(x as int, y as int), place),
        ) && final(stack).action(final(stack).spec_len() - 1) == noted(
            old(stack).action(old(stack).spec_len() - 1),
            x,
            y,
            old(grid)@.get(x as int, y as int),
        ),
        !changed ==> final(grid)@ == old(grid)@ && final(stack).action(
            final(stack).spec_len() - 1,
        ) == old(stack).action(old(stack).spec_len() - 1),
{
    if !grid.is_in_bounds(x, y) {
        return false;
    }
    let existing = grid.get(x, y);
    let new = match (existing, place) {
        (Some(found), Some(put)) => {
            if found.id == MAILBOX && put.id != MAILBOX {
                let mut filled = found.copy();
                filled.contained_cell = Some((put.id, put.direction.minus(found.direction)));
                Some(filled)
            } else {
                place
            }
        },
        _ => place,
    };
    let same = match (new, existing) {
        (None, None) => true,
        (Some(a), Some(b)) => a == b,
        _ => false,
    };
    if same {
        false
    } else {
        stack.insert(x, y, existing);
        grid.set_cell(x, y, new);
        true
    }
}

} // verus!
