//! The layout from which boards are generated, and how often each value
//! occurs in it.

use vstd::prelude::*;
use crate::model::{lemma_index_bounds, BoardView};
use crate::slot::Slot;

verus! {

/// `count` copies of one value.
pub open spec fn run(slot: Slot, count: nat) -> Seq<Slot> {
    Seq::new(count, |i: int| slot)
}

/// Columns `0..colors` in order, column `c` holding `column_capacity` tokens
/// of colour `c`.
pub open spec fn filled_slots(colors: nat, column_capacity: nat) -> Seq<Slot>
    decreases colors,
{
    if colors == 0 {
        Seq::empty()
    } else {
        filled_slots((colors - 1) as nat, column_capacity) + run(
            Slot::Ball((colors - 1) as usize),
            column_capacity,
        )
    }
}

/// The sorted layout of a board: every column but the last filled with its
/// own colour, the last one free.
pub open spec fn solved_slots(column_count: nat, column_capacity: nat) -> Seq<Slot> {
    filled_slots((column_count - 1) as nat, column_capacity) + run(Slot::Empty, column_capacity)
}

impl BoardView {
    /// A board as generation leaves it: no move made, the tokens of the
    /// sorted layout in some order, and the last column free.
    pub open spec fn fresh(self) -> bool {
        &&& self.wf()
        &&& self.play_count == 0
        &&& self.slots.to_multiset() == solved_slots(
            self.column_count,
            self.column_capacity,
        ).to_multiset()
        &&& forall|row: int|
            0 <= row < self.column_capacity ==> #[trigger] self.at(row, self.column_count - 1)
                == Slot::Empty
    }
}

/// A run holds its value as often as it is long, and nothing else.
pub proof fn lemma_run_count(slot: Slot, count: nat, other: Slot)
    ensures
        run(slot, count).to_multiset().count(other) == if other == slot {
            count
        } else {
            0
        },
    decreases count,
{
    broadcast use vstd::seq_lib::group_to_multiset_ensures;

    if count == 0 {
        assert(run(slot, count) =~= Seq::<Slot>::empty());
        assert(run(slot, count).to_multiset().len() == 0);
        vstd::multiset::axiom_count_le_len(run(slot, count).to_multiset(), other);
    } else {
        let shorter = run(slot, (count - 1) as nat);
        lemma_run_count(slot, (count - 1) as nat, other);
        assert(run(slot, count) =~= shorter.push(slot));
        assert(shorter.push(slot).to_multiset() =~= shorter.to_multiset().insert(slot));
    }
}

/// The filled region has one slot per token.
pub proof fn lemma_filled_len(colors: nat, column_capacity: nat)
    ensures
        filled_slots(colors, column_capacity).len() == colors * column_capacity,
    decreases colors,
{
    if colors > 0 {
        lemma_filled_len((colors - 1) as nat, column_capacity);
        assert((colors - 1) * column_capacity + column_capacity == colors * column_capacity)
            by (nonlinear_arith);
    } else {
        assert(0 * column_capacity == 0);
    }
}

/// The filled region holds each of its colours once per row, and nothing
/// else.
pub proof fn lemma_filled_count(colors: nat, column_capacity: nat, slot: Slot)
    requires
        colors <= usize::MAX,
    ensures
        filled_slots(colors, column_capacity).to_multiset().count(slot) == match slot {
            Slot::Ball(color) if color < colors => column_capacity,
            _ => 0,
        },
    decreases colors,
{
    broadcast use vstd::seq_lib::group_to_multiset_ensures;

    if colors == 0 {
        let none = filled_slots(colors, column_capacity);
        assert(none.to_multiset().len() == 0);
        vstd::multiset::axiom_count_le_len(none.to_multiset(), slot);
    } else {
        let before = filled_slots((colors - 1) as nat, column_capacity);
        let last = run(Slot::Ball((colors - 1) as usize), column_capacity);
        lemma_filled_count((colors - 1) as nat, column_capacity, slot);
        lemma_run_count(Slot::Ball((colors - 1) as usize), column_capacity, slot);
        vstd::seq_lib::lemma_multiset_commutative(before, last);
    }
}

/// A permutation of the filled region followed by a free column makes a
/// fresh board.
pub proof fn lemma_arranged_is_fresh(board: BoardView, arranged: Seq<Slot>)
    requires
        1 <= board.column_count <= usize::MAX,
        board.column_capacity >= 1,
        board.play_count == 0,
        arranged.to_multiset() == filled_slots(
            (board.column_count - 1) as nat,
            board.column_capacity,
        ).to_multiset(),
        board.slots == arranged + run(Slot::Empty, board.column_capacity),
    ensures
        board.fresh(),
        arranged.len() == (board.column_count - 1) * board.column_capacity,
{
    broadcast use vstd::seq_lib::group_to_multiset_ensures;

    let cap = board.column_capacity;
    let colors = (board.column_count - 1) as nat;
    let filled = filled_slots(colors, cap);
    let free = run(Slot::Empty, cap);
    lemma_filled_len(colors, cap);
    assert(arranged.len() == filled.len()) by {
        assert(arranged.to_multiset().len() == filled.to_multiset().len());
    }
    assert(colors * cap + cap == board.column_count * cap) by (nonlinear_arith)
        requires
            colors + 1 == board.column_count,
    ;
    vstd::seq_lib::lemma_multiset_commutative(arranged, free);
    vstd::seq_lib::lemma_multiset_commutative(filled, free);
    assert(board.slots.to_multiset() =~= solved_slots(board.column_count, cap).to_multiset());
    lemma_filled_count(colors, cap, Slot::Empty);
    assert(!arranged.contains(Slot::Empty));
    assert forall|row: int, column: int| board.in_grid(row, column) implies (#[trigger] board.at(
        row,
        column,
    )).is_ball() == (column < colors) by {
        lemma_index_bounds(board, row, column);
        let i = board.index(row, column);
        if column < colors {
            assert((column + 1) * cap <= colors * cap) by (nonlinear_arith)
                requires
                    column + 1 <= colors,
            ;
            assert(board.slots[i] == arranged[i]);
            assert(arranged.contains(arranged[i]));
        } else {
            assert(board.slots[i] == free[i - arranged.len()]);
        }
    }
    assert forall|column: int| 0 <= column < board.column_count implies #[trigger] board.column_settled(
        column,
    ) by {
        assert forall|upper: int, lower: int|
            #![trigger board.at(upper, column), board.at(lower, column)]
            0 <= upper < lower < board.column_capacity && board.at(
                upper,
                column,
            ).is_ball() implies board.at(lower, column).is_ball() by {
            assert(board.in_grid(upper, column));
            assert(board.in_grid(lower, column));
        }
    }
    assert forall|row: int| 0 <= row < board.column_capacity implies #[trigger] board.at(
        row,
        board.column_count - 1,
    ) == Slot::Empty by {
        assert(board.in_grid(row, board.column_count - 1));
    }
}

} // verus!
