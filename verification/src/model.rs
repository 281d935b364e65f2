//! The mathematical model of a board, over which every contract is stated.

use vstd::prelude::*;
use crate::slot::Slot;

verus! {

/// A board as plain mathematics: its dimensions, the number of moves made so
/// far, and the slots in column-major order. Within a column, row 0 is the
/// open end and the last row is the closed end.
pub struct BoardView {
    pub column_count: nat,
    pub column_capacity: nat,
    pub play_count: nat,
    pub slots: Seq<Slot>,
}

impl BoardView {
    /// Position of a cell in the column-major sequence.
    pub open spec fn index(self, row: int, column: int) -> int {
        column * self.column_capacity + row
    }

    /// Whether `(row, column)` names a cell of the grid.
    pub open spec fn in_grid(self, row: int, column: int) -> bool {
        0 <= row < self.column_capacity && 0 <= column < self.column_count
    }

    /// The slot at a cell of the grid.
    pub open spec fn at(self, row: int, column: int) -> Slot {
        self.slots[self.index(row, column)]
    }

    /// The dimensions are positive and there is one slot per cell.
    pub open spec fn shaped(self) -> bool {
        &&& self.column_count >= 1
        &&& self.column_capacity >= 1
        &&& self.slots.len() == self.column_count * self.column_capacity
    }

    /// Stack discipline in one column: below a token there are only tokens.
    pub open spec fn column_settled(self, column: int) -> bool {
        forall|upper: int, lower: int|
            #![trigger self.at(upper, column), self.at(lower, column)]
            0 <= upper < lower < self.column_capacity && self.at(upper, column).is_ball()
                ==> self.at(lower, column).is_ball()
    }

    /// Stack discipline: below a token there are only tokens, so the free
    /// slots of a column are exactly those next to its open end.
    pub open spec fn settled(self) -> bool {
        forall|column: int| 0 <= column < self.column_count ==> #[trigger] self.column_settled(column)
    }

    /// Well-formedness of a board.
    pub open spec fn wf(self) -> bool {
        self.shaped() && self.settled()
    }

    /// The cell holds the topmost token of its column: it is occupied and
    /// every row nearer the open end is free.
    pub open spec fn is_top(self, row: int, column: int) -> bool {
        &&& self.in_grid(row, column)
        &&& self.at(row, column).is_ball()
        &&& forall|above: int| 0 <= above < row ==> !(#[trigger] self.at(above, column)).is_ball()
    }

    /// The cell is where a token pushed onto its column comes to rest: it is
    /// free and every row nearer the closed end is occupied.
    pub open spec fn is_landing(self, row: int, column: int) -> bool {
        &&& self.in_grid(row, column)
        &&& !self.at(row, column).is_ball()
        &&& forall|below: int|
            row < below < self.column_capacity ==> (#[trigger] self.at(below, column)).is_ball()
    }

    /// Row of the topmost token of a column; `None` for a column without
    /// tokens, and for a column that the grid does not have.
    pub open spec fn first_ball(self, column: int) -> Option<int> {
        if exists|row: int| self.is_top(row, column) {
            Some(choose|row: int| self.is_top(row, column))
        } else {
            None
        }
    }

    /// Row of the landing slot of a column; `None` for a full column, and for
    /// a column that the grid does not have.
    pub open spec fn first_empty(self, column: int) -> Option<int> {
        if exists|row: int| self.is_landing(row, column) {
            Some(choose|row: int| self.is_landing(row, column))
        } else {
            None
        }
    }

    /// All slots of the column hold the same value.
    pub open spec fn column_uniform(self, column: int) -> bool {
        forall|r1: int, r2: int|
            #![trigger self.at(r1, column), self.at(r2, column)]
            0 <= r1 < self.column_capacity && 0 <= r2 < self.column_capacity ==> self.at(
                r1,
                column,
            ) == self.at(r2, column)
    }

    /// The win predicate: every column, taken as a whole, is monochromatic.
    /// A column of free slots counts.
    pub open spec fn winning(self) -> bool {
        forall|column: int| 0 <= column < self.column_count ==> #[trigger] self.column_uniform(column)
    }

    /// How often a value occurs among the slots.
    pub open spec fn count_of(self, slot: Slot) -> nat {
        self.slots.to_multiset().count(slot)
    }

    /// Number of tokens on the board.
    pub open spec fn ball_count(self) -> int {
        self.slots.len() - self.count_of(Slot::Empty)
    }

    /// Whether moving from one column to another changes the board: the
    /// columns differ, the source has a token and the destination has room.
    pub open spec fn can_move(self, from: int, to: int) -> bool {
        from != to && self.first_ball(from) is Some && self.first_empty(to) is Some
    }

    /// The board after the player asks to move the topmost token of `from`
    /// onto `to`. A request that cannot be carried out leaves the board as it
    /// is. Colours play no part.
    pub open spec fn moved(self, from: int, to: int) -> BoardView {
        if self.can_move(from, to) {
            let source = self.index(self.first_ball(from).unwrap(), from);
            let target = self.index(self.first_empty(to).unwrap(), to);
            BoardView {
                play_count: self.play_count + 1,
                slots: self.slots.update(target, self.slots[source]).update(source, Slot::Empty),
                ..self
            }
        } else {
            self
        }
    }
}

/// Cells of the grid have positions inside the slot sequence, and different
/// cells have different positions.
pub proof fn lemma_index_bounds(board: BoardView, row: int, column: int)
    requires
        board.shaped(),
        board.in_grid(row, column),
    ensures
        0 <= board.index(row, column) < board.slots.len(),
        column * board.column_capacity <= board.index(row, column) < (column + 1)
            * board.column_capacity,
{
    let cap = board.column_capacity as int;
    let count = board.column_count as int;
    assert(column * cap + cap == (column + 1) * cap) by (nonlinear_arith);
    assert((column + 1) * cap <= count * cap) by (nonlinear_arith)
        requires
            column + 1 <= count,
            cap >= 0,
    ;
    assert(0 <= column * cap) by (nonlinear_arith)
        requires
            column >= 0,
            cap >= 0,
    ;
}

/// Two cells share a position only if they are the same cell.
pub proof fn lemma_index_injective(board: BoardView, r1: int, c1: int, r2: int, c2: int)
    requires
        board.shaped(),
        board.in_grid(r1, c1),
        board.in_grid(r2, c2),
        board.index(r1, c1) == board.index(r2, c2),
    ensures
        r1 == r2,
        c1 == c2,
{
    lemma_index_bounds(board, r1, c1);
    lemma_index_bounds(board, r2, c2);
    let cap = board.column_capacity as int;
    if c1 < c2 {
        assert((c1 + 1) * cap <= c2 * cap) by (nonlinear_arith)
            requires
                c1 + 1 <= c2,
                cap >= 0,
        ;
    } else if c2 < c1 {
        assert((c2 + 1) * cap <= c1 * cap) by (nonlinear_arith)
            requires
                c2 + 1 <= c1,
                cap >= 0,
        ;
    }
}

/// A column has at most one topmost token.
pub proof fn lemma_top_unique(board: BoardView, r1: int, r2: int, column: int)
    requires
        board.is_top(r1, column),
        board.is_top(r2, column),
    ensures
        r1 == r2,
{
    if r1 < r2 {
        assert(!board.at(r1, column).is_ball());
    } else if r2 < r1 {
        assert(!board.at(r2, column).is_ball());
    }
}

/// A column has at most one landing slot.
pub proof fn lemma_landing_unique(board: BoardView, r1: int, r2: int, column: int)
    requires
        board.is_landing(r1, column),
        board.is_landing(r2, column),
    ensures
        r1 == r2,
{
    if r1 < r2 {
        assert(board.at(r2, column).is_ball());
    } else if r2 < r1 {
        assert(board.at(r1, column).is_ball());
    }
}

/// The topmost token, once found, is what `first_ball` names.
pub proof fn lemma_first_ball_is(board: BoardView, row: int, column: int)
    requires
        board.is_top(row, column),
    ensures
        board.first_ball(column) == Some(row),
{
    let chosen = choose|r: int| board.is_top(r, column);
    lemma_top_unique(board, row, chosen, column);
}

/// The landing slot, once found, is what `first_empty` names.
pub proof fn lemma_first_empty_is(board: BoardView, row: int, column: int)
    requires
        board.is_landing(row, column),
    ensures
        board.first_empty(column) == Some(row),
{
    let chosen = choose|r: int| board.is_landing(r, column);
    lemma_landing_unique(board, row, chosen, column);
}

/// What a move that can be carried out does, cell by cell: the topmost token
/// of the source leaves its cell, lands in the landing slot of the
/// destination, and every other cell keeps its value.
pub proof fn lemma_moved_cells(board: BoardView, from: int, to: int)
    requires
        board.wf(),
        board.can_move(from, to),
    ensures
        ({
            let after = board.moved(from, to);
            let top = board.first_ball(from).unwrap();
            let landing = board.first_empty(to).unwrap();
            &&& board.is_top(top, from)
            &&& board.is_landing(landing, to)
            &&& after.column_count == board.column_count
            &&& after.column_capacity == board.column_capacity
            &&& after.slots.len() == board.slots.len()
            &&& after.at(top, from) == Slot::Empty
            &&& after.at(landing, to) == board.at(top, from)
            &&& forall|row: int, column: int|
                board.in_grid(row, column) && !(row == top && column == from) && !(row == landing
                    && column == to) ==> #[trigger] after.at(row, column) == board.at(row, column)
        }),
{
    let after = board.moved(from, to);
    let top = board.first_ball(from).unwrap();
    let landing = board.first_empty(to).unwrap();
    lemma_index_bounds(board, top, from);
    lemma_index_bounds(board, landing, to);
    if board.index(top, from) == board.index(landing, to) {
        lemma_index_injective(board, top, from, landing, to);
    }
    assert forall|row: int, column: int|
        board.in_grid(row, column) && !(row == top && column == from) && !(row == landing && column
            == to) implies #[trigger] after.at(row, column) == board.at(row, column) by {
        lemma_index_bounds(board, row, column);
        if board.index(row, column) == board.index(top, from) {
            lemma_index_injective(board, row, column, top, from);
        }
        if board.index(row, column) == board.index(landing, to) {
            lemma_index_injective(board, row, column, landing, to);
        }
    }
}

/// A move keeps the board well-formed.
pub proof fn lemma_moved_wf(board: BoardView, from: int, to: int)
    requires
        board.wf(),
    ensures
        board.moved(from, to).wf(),
{
    if board.can_move(from, to) {
        let after = board.moved(from, to);
        let top = board.first_ball(from).unwrap();
        let landing = board.first_empty(to).unwrap();
        lemma_moved_cells(board, from, to);
        assert forall|column: int| 0 <= column < after.column_count implies #[trigger] after.column_settled(
            column,
        ) by {
            assert(board.column_settled(column));
            assert forall|upper: int, lower: int|
                #![trigger after.at(upper, column), after.at(lower, column)]
                0 <= upper < lower < after.column_capacity && after.at(
                    upper,
                    column,
                ).is_ball() implies after.at(lower, column).is_ball() by {
                if column == from {
                    // the source lost its topmost token: what is left lies below it
                    assert(!board.at(upper, column).is_ball() || upper == top || upper > top);
                    assert(board.at(upper, column).is_ball());
                    assert(board.at(lower, column).is_ball());
                } else if column == to {
                    // the destination gained a token right above its other tokens
                    if lower < landing {
                        assert(board.at(upper, column).is_ball());
                        assert(board.at(landing, column).is_ball());
                    } else if lower > landing {
                        assert(board.at(lower, column).is_ball());
                    }
                } else {
                    assert(board.at(upper, column).is_ball());
                    assert(board.at(lower, column).is_ball());
                }
            }
        }
    }
}

} // verus!
