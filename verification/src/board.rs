//! The board: generation, queries and the move primitive.

use vstd::prelude::*;
use rand::seq::SliceRandom;
use crate::layout::{filled_slots, lemma_arranged_is_fresh, run};
use crate::model::{
    lemma_first_ball_is, lemma_first_empty_is, lemma_index_bounds, lemma_moved_cells,
    lemma_moved_wf, BoardView,
};
use crate::slot::Slot;

verus! {

/// The grid of slots together with the number of moves made on it.
#[derive(Debug, PartialEq, Eq)]
pub struct State {
    column_count: usize,
    column_capacity: usize,
    play_count: usize,
    slots: Vec<Slot>,
}

impl View for State {
    type V = BoardView;

    closed spec fn view(&self) -> BoardView {
        BoardView {
            column_count: self.column_count as nat,
            column_capacity: self.column_capacity as nat,
            play_count: self.play_count as nat,
            slots: self.slots@,
        }
    }
}

/// Why a board cannot be made for a pair of dimensions.
#[derive(Clone, Copy, Debug, PartialEq, Eq, Structural)]
pub enum ConfigError {
    /// The board would have no column.
    NoColumns,
    /// The columns would have no row.
    NoRows,
    /// The number of slots does not fit the machine's index type.
    TooLarge,
}

/// Whether a board of these dimensions can be made, and if not, why.
pub open spec fn config_check(column_count: int, column_capacity: int) -> Result<(), ConfigError> {
    if column_count < 1 {
        Err(ConfigError::NoColumns)
    } else if column_capacity < 1 {
        Err(ConfigError::NoRows)
    } else if column_count * column_capacity > usize::MAX {
        Err(ConfigError::TooLarge)
    } else {
        Ok(())
    }
}

/// Permutes the slots in place with `rand::seq::SliceRandom::shuffle`, driven
/// by `rand::thread_rng`. The shuffle is a series of swaps inside the slice,
/// so the slots afterwards are the slots before in some order; which order is
/// left open.
#[verifier::external_body]
fn shuffle(slots: &mut Vec<Slot>)
    ensures
        final(slots)@.len() == old(slots)@.len(),
        final(slots)@.to_multiset() == old(slots)@.to_multiset(),
{
    slots.shuffle(&mut rand::thread_rng());
}

/// The model of a board with the given parts.
pub open spec fn board_of(
    column_count: usize,
    column_capacity: usize,
    play_count: usize,
    slots: Seq<Slot>,
) -> BoardView {
    BoardView {
        column_count: column_count as nat,
        column_capacity: column_capacity as nat,
        play_count: play_count as nat,
        slots,
    }
}

/// A row found by a scan, as a mathematical integer.
pub open spec fn row_of(found: Option<usize>) -> Option<int> {
    match found {
        Some(row) => Some(row as int),
        None => None,
    }
}

impl Clone for State {
    fn clone(&self) -> (copy: Self)
        ensures
            copy@ == self@,
    {
        State {
            column_count: self.column_count,
            column_capacity: self.column_capacity,
            play_count: self.play_count,
            slots: self.slots(),
        }
    }
}

impl State {
    /// Well-formedness: the model is well-formed.
    pub open spec fn wf(&self) -> bool {
        self@.wf()
    }

    /// A board of `column_count` columns with `column_capacity` rows each:
    /// one colour per column but the last, as many tokens of each as a column
    /// has rows, in random order over those columns; the last column is free.
    /// Dimensions without a column or without a row are rejected.
    pub fn new(column_count: usize, column_capacity: usize) -> (made: Result<State, ConfigError>)
        ensures
            config_check(column_count as int, column_capacity as int) matches Err(e) ==> made
                == Err::<State, ConfigError>(e),
            config_check(column_count as int, column_capacity as int) is Ok ==> made is Ok,
            made matches Ok(state) ==> {
                &&& state.wf()
                &&& state@.fresh()
                &&& state@.column_count == column_count
                &&& state@.column_capacity == column_capacity
            },
    {
        if column_count < 1 {
            return Err(ConfigError::NoColumns);
        }
        if column_capacity < 1 {
            return Err(ConfigError::NoRows);
        }
        if column_count.checked_mul(column_capacity).is_none() {
            return Err(ConfigError::TooLarge);
        }
        let color_count = column_count - 1;
        let mut slots: Vec<Slot> = Vec::new();
        let mut col: usize = 0;
        while col < color_count
            invariant
                col <= color_count,
                slots@ == filled_slots(col as nat, column_capacity as nat),
            decreases color_count - col,
        {
            let mut row: usize = 0;
            while row < column_capacity
                invariant
                    row <= column_capacity,
                    col < color_count,
                    slots@ == filled_slots(col as nat, column_capacity as nat) + run(
                        Slot::Ball(col),
                        row as nat,
                    ),
                decreases column_capacity - row,
            {
                slots.push(Slot::Ball(col));
                row += 1;
                assert(slots@ =~= filled_slots(col as nat, column_capacity as nat) + run(
                    Slot::Ball(col),
                    row as nat,
                ));
            }
            col += 1;
        }
        shuffle(&mut slots);
        let ghost arranged = slots@;
        let mut row: usize = 0;
        while row < column_capacity
            invariant
                row <= column_capacity,
                slots@ == arranged + run(Slot::Empty, row as nat),
            decreases column_capacity - row,
        {
            slots.push(Slot::Empty);
            row += 1;
            assert(slots@ =~= arranged + run(Slot::Empty, row as nat));
        }
        let state = State { column_count, column_capacity, play_count: 0, slots };
        proof {
            lemma_arranged_is_fresh(state@, arranged);
        }
        Ok(state)
    }

    /// The slot at `row` of `column`, rows counted from the open end.
    pub fn slot(&self, row: usize, column: usize) -> (slot: Slot)
        requires
            self.wf(),
            self@.in_grid(row as int, column as int),
        ensures
            slot == self@.at(row as int, column as int),
    {
        self.cell(row, column)
    }

    /// Reads a cell of a board that need not be settled.
    fn cell(&self, row: usize, column: usize) -> (slot: Slot)
        requires
            self@.shaped(),
            self@.in_grid(row as int, column as int),
        ensures
            slot == self@.at(row as int, column as int),
    {
        proof {
            lemma_index_bounds(self@, row as int, column as int);
            assert(self.slots@.len() == self.slots.len());
        }
        self.slots[column * self.column_capacity + row]
    }

    fn slot_mut(&mut self, row: usize, column: usize) -> (slot: &mut Slot)
        requires
            old(self)@.shaped(),
            old(self)@.in_grid(row as int, column as int),
        ensures
            *slot == old(self)@.at(row as int, column as int),
            final(self)@ == (BoardView {
                slots: old(self)@.slots.update(
                    old(self)@.index(row as int, column as int),
                    *final(slot),
                ),
                ..old(self)@
            }),
    {
        proof {
            lemma_index_bounds(self@, row as int, column as int);
            assert(self.slots@.len() == self.slots.len());
        }
        &mut self.slots[column * self.column_capacity + row]
    }

    /// Moves the topmost token of `from_column` onto `to_column`. Nothing
    /// happens when the two are the same column, when the source holds no
    /// token or when the destination is full.
    pub fn move_ball(&mut self, from_column: usize, to_column: usize)
        requires
            old(self).wf(),
            old(self)@.play_count < usize::MAX,
        ensures
            final(self).wf(),
            final(self)@ == old(self)@.moved(from_column as int, to_column as int),
    {
        if from_column == to_column {
            return ;
        }
        if let (Some(from_row), Some(to_row)) = (
            self.first_ball(from_column),
            self.first_empty(to_column),
        ) {
            proof {
                lemma_moved_wf(self@, from_column as int, to_column as int);
                lemma_moved_cells(self@, from_column as int, to_column as int);
                lemma_index_bounds(self@, from_row as int, from_column as int);
                lemma_index_bounds(self@, to_row as int, to_column as int);
            }
            let ball = self.slot(from_row, from_column);
            *self.slot_mut(to_row, to_column) = ball;
            *self.slot_mut(from_row, from_column) = Slot::Empty;
            self.play_count += 1;
        }
    }

    /// Whether the tokens of one column lie next to its closed end.
    fn column_settled(&self, column: usize) -> (settled: bool)
        requires
            self@.shaped(),
            column < self.column_count,
        ensures
            settled == self@.column_settled(column as int),
    {
        let mut seen = false;
        let ghost mut first: int = 0;
        let mut row: usize = 0;
        while row < self.column_capacity
            invariant
                self@.shaped(),
                column < self.column_count,
                row <= self.column_capacity,
                seen ==> 0 <= first < row && self@.at(first, column as int).is_ball(),
                !seen ==> forall|r: int|
                    0 <= r < row ==> !(#[trigger] self@.at(r, column as int)).is_ball(),
                forall|upper: int, lower: int|
                    #![trigger self@.at(upper, column as int), self@.at(lower, column as int)]
                    0 <= upper < lower < row && self@.at(upper, column as int).is_ball()
                        ==> self@.at(lower, column as int).is_ball(),
            decreases self.column_capacity - row,
        {
            if self.cell(row, column) == Slot::Empty {
                if seen {
                    assert(self@.at(first, column as int).is_ball() && !self@.at(
                        row as int,
                        column as int,
                    ).is_ball());
                    return false;
                }
            } else if !seen {
                seen = true;
                proof {
                    first = row as int;
                }
            }
            row += 1;
        }
        true
    }

    /// A board from its parts, if they make a well-formed one: positive
    /// dimensions, one slot per cell, and in every column the tokens next to
    /// the closed end.
    pub fn from_parts(
        column_count: usize,
        column_capacity: usize,
        play_count: usize,
        slots: Vec<Slot>,
    ) -> (made: Option<State>)
        ensures
            made is Some <==> board_of(column_count, column_capacity, play_count, slots@).wf(),
            made matches Some(state) ==> state.wf() && state@ == board_of(
                column_count,
                column_capacity,
                play_count,
                slots@,
            ),
    {
        if column_count < 1 || column_capacity < 1 {
            return None;
        }
        match column_count.checked_mul(column_capacity) {
            Some(total) => {
                if total != slots.len() {
                    return None;
                }
            },
            None => {
                assert(slots@.len() == slots.len());
                return None;
            },
        }
        let state = State { column_count, column_capacity, play_count, slots };
        let mut column: usize = 0;
        while column < column_count
            invariant
                column <= column_count,
                state@.shaped(),
                state@ == board_of(column_count, column_capacity, play_count, slots@),
                forall|c: int| 0 <= c < column ==> #[trigger] state@.column_settled(c),
            decreases column_count - column,
        {
            if !state.column_settled(column) {
                return None;
            }
            column += 1;
        }
        Some(state)
    }

    /// Number of columns.
    pub fn column_count(&self) -> (count: usize)
        ensures
            count == self@.column_count,
    {
        self.column_count
    }

    /// Number of rows in a column.
    pub fn column_capacity(&self) -> (capacity: usize)
        ensures
            capacity == self@.column_capacity,
    {
        self.column_capacity
    }

    /// Number of moves made so far.
    pub fn play_count(&self) -> (count: usize)
        ensures
            count == self@.play_count,
    {
        self.play_count
    }

    /// The slots in column-major order, as plain data.
    pub fn slots(&self) -> (copy: Vec<Slot>)
        ensures
            copy@ == self@.slots,
    {
        let mut copy: Vec<Slot> = Vec::new();
        let mut i: usize = 0;
        while i < self.slots.len()
            invariant
                i <= self.slots.len(),
                copy@ == self.slots@.take(i as int),
            decreases self.slots.len() - i,
        {
            copy.push(self.slots[i]);
            i += 1;
            assert(copy@ =~= self.slots@.take(i as int));
        }
        assert(self.slots@.take(self.slots.len() as int) =~= self.slots@);
        copy
    }

    /// Whether the player may pick up the token in this cell: it is the
    /// topmost of its column and the board is not yet solved.
    pub fn is_draggable(&self, row: usize, column: usize) -> (draggable: bool)
        requires
            self.wf(),
        ensures
            draggable == (self@.is_top(row as int, column as int) && !self@.winning()),
    {
        self.is_top(row, column) && self.is_winning().is_none()
    }

    /// Whether the token in this cell is the one being carried, given the
    /// column from which the player is dragging, if any.
    pub fn is_dragged(&self, row: usize, column: usize, dragged_column: Option<usize>) -> (dragged:
        bool)
        requires
            self.wf(),
        ensures
            dragged == (dragged_column == Some(column) && self@.first_ball(column as int) == Some(
                row as int,
            )),
    {
        match dragged_column {
            Some(from) => match self.first_ball(from) {
                Some(top) => row == top && column == from,
                None => false,
            },
            None => false,
        }
    }

    /// The number of moves made, if every column is monochromatic.
    pub fn is_winning(&self) -> (won: Option<usize>)
        requires
            self.wf(),
        ensures
            self@.winning() ==> won == Some(self@.play_count as usize),
            !self@.winning() ==> won is None,
    {
        let mut column: usize = 0;
        while column < self.column_count
            invariant
                self.wf(),
                column <= self.column_count,
                forall|c: int| 0 <= c < column ==> #[trigger] self@.column_uniform(c),
            decreases self.column_count - column,
        {
            let first = self.slot(0, column);
            let mut row: usize = 1;
            while row < self.column_capacity
                invariant
                    self.wf(),
                    column < self.column_count,
                    1 <= row <= self.column_capacity,
                    first == self@.at(0, column as int),
                    forall|r: int| 0 <= r < row ==> #[trigger] self@.at(r, column as int) == first,
                decreases self.column_capacity - row,
            {
                if self.slot(row, column) != first {
                    assert(!self@.column_uniform(column as int));
                    return None;
                }
                row += 1;
            }
            assert(self@.column_uniform(column as int));
            column += 1;
        }
        Some(self.play_count)
    }

    /// Whether the cell holds the topmost token of its column.
    pub fn is_top(&self, row: usize, column: usize) -> (top: bool)
        requires
            self.wf(),
        ensures
            top == self@.is_top(row as int, column as int),
    {
        if row >= self.column_capacity || column >= self.column_count {
            return false;
        }
        let mut above: usize = 0;
        while above < row
            invariant
                self.wf(),
                self@.in_grid(row as int, column as int),
                above <= row,
                forall|r: int| 0 <= r < above ==> !(#[trigger] self@.at(r, column as int)).is_ball(),
            decreases row - above,
        {
            if self.slot(above, column) != Slot::Empty {
                return false;
            }
            above += 1;
        }
        self.slot(row, column) != Slot::Empty
    }

    /// The landing slot of a column: the free row next to its tokens.
    pub fn first_empty(&self, column: usize) -> (found: Option<usize>)
        requires
            self.wf(),
        ensures
            row_of(found) == self@.first_empty(column as int),
            found matches Some(row) ==> self@.is_landing(row as int, column as int),
    {
        if column >= self.column_count {
            return None;
        }
        let mut row: usize = self.column_capacity;
        while row > 0
            invariant
                self.wf(),
                column < self.column_count,
                row <= self.column_capacity,
                forall|r: int|
                    row <= r < self.column_capacity ==> (#[trigger] self@.at(
                        r,
                        column as int,
                    )).is_ball(),
            decreases row,
        {
            row -= 1;
            if self.slot(row, column) == Slot::Empty {
                proof {
                    lemma_first_empty_is(self@, row as int, column as int);
                }
                return Some(row);
            }
        }
        None
    }

    /// The row of the topmost token of a column.
    pub fn first_ball(&self, column: usize) -> (found: Option<usize>)
        requires
            self.wf(),
        ensures
            row_of(found) == self@.first_ball(column as int),
            found matches Some(row) ==> self@.is_top(row as int, column as int),
    {
        if column >= self.column_count {
            return None;
        }
        let mut row: usize = 0;
        while row < self.column_capacity
            invariant
                self.wf(),
                column < self.column_count,
                row <= self.column_capacity,
                forall|r: int| 0 <= r < row ==> !(#[trigger] self@.at(r, column as int)).is_ball(),
            decreases self.column_capacity - row,
        {
            if self.slot(row, column) != Slot::Empty {
                proof {
                    lemma_first_ball_is(self@, row as int, column as int);
                }
                return Some(row);
            }
            row += 1;
        }
        None
    }
}

} // verus!
