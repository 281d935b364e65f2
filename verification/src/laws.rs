//! What holds of every board: the population of a fresh board, and what a
//! move request does and does not change.

use vstd::prelude::*;
use crate::layout::{filled_slots, lemma_filled_count, lemma_run_count, run};
use crate::model::{
    lemma_first_empty_is, lemma_index_bounds, lemma_index_injective, lemma_moved_cells,
    lemma_moved_wf, BoardView,
};
use crate::slot::Slot;

verus! {

/// A fresh board holds one colour for each column but the last, every one of
/// them exactly once per row, and no other token; the slots that are left
/// are free, as many as a column has rows, and they are the last column. The
/// number of tokens is therefore the number of colours times the number of
/// rows. Colours are machine integers, so the board has no more columns than
/// such an integer can count.
pub proof fn lemma_fresh_population(board: BoardView)
    requires
        board.fresh(),
        board.column_count <= usize::MAX,
    ensures
        forall|color: usize|
            color < board.column_count - 1 ==> #[trigger] board.count_of(Slot::Ball(color))
                == board.column_capacity,
        forall|color: usize|
            color >= board.column_count - 1 ==> #[trigger] board.count_of(Slot::Ball(color)) == 0,
        board.count_of(Slot::Empty) == board.column_capacity,
        board.ball_count() == (board.column_count - 1) * board.column_capacity,
        forall|row: int, column: int|
            board.in_grid(row, column) ==> (#[trigger] board.at(row, column)).is_ball() == (column
                < board.column_count - 1),
{
    broadcast use vstd::seq_lib::group_to_multiset_ensures;

    let cap = board.column_capacity;
    let colors = (board.column_count - 1) as nat;
    let filled = filled_slots(colors, cap);
    let free = run(Slot::Empty, cap);
    vstd::seq_lib::lemma_multiset_commutative(filled, free);
    assert forall|slot: Slot|
        board.count_of(slot) == filled.to_multiset().count(slot) + free.to_multiset().count(
            slot,
        ) by {}
    assert forall|color: usize| color < board.column_count - 1 implies #[trigger] board.count_of(
        Slot::Ball(color),
    ) == board.column_capacity by {
        lemma_filled_count(colors, cap, Slot::Ball(color));
        lemma_run_count(Slot::Empty, cap, Slot::Ball(color));
    }
    assert forall|color: usize| color >= board.column_count - 1 implies #[trigger] board.count_of(
        Slot::Ball(color),
    ) == 0 by {
        lemma_filled_count(colors, cap, Slot::Ball(color));
        lemma_run_count(Slot::Empty, cap, Slot::Ball(color));
    }
    lemma_filled_count(colors, cap, Slot::Empty);
    lemma_run_count(Slot::Empty, cap, Slot::Empty);
    assert(colors * cap + cap == board.column_count * cap) by (nonlinear_arith)
        requires
            colors + 1 == board.column_count,
    ;
    assert forall|row: int, column: int| board.in_grid(row, column) implies (#[trigger] board.at(
        row,
        column,
    )).is_ball() == (column < board.column_count - 1) by {
        lemma_index_bounds(board, row, column);
        if column < board.column_count - 1 {
            if !board.at(row, column).is_ball() {
                lemma_free_cells_are_last_column(board, row, column);
            }
        }
    }
}

/// On a fresh board a free cell lies in the last column: that column alone
/// accounts for all the free slots there are.
proof fn lemma_free_cells_are_last_column(board: BoardView, row: int, column: int)
    requires
        board.fresh(),
        board.column_count <= usize::MAX,
        board.in_grid(row, column),
        board.at(row, column) == Slot::Empty,
    ensures
        column == board.column_count - 1,
{
    broadcast use vstd::seq_lib::group_to_multiset_ensures;

    let cap = board.column_capacity;
    let colors = (board.column_count - 1) as nat;
    if column < colors {
        let filled = filled_slots(colors, cap);
        let free = run(Slot::Empty, cap);
        vstd::seq_lib::lemma_multiset_commutative(filled, free);
        lemma_filled_count(colors, cap, Slot::Empty);
        lemma_run_count(Slot::Empty, cap, Slot::Empty);
        assert(board.count_of(Slot::Empty) == cap);
        // Split the slots into the cell's column region and the last column.
        let start = colors * cap;
        lemma_index_bounds(board, row, column);
        lemma_index_bounds(board, 0, colors as int);
        assert((column + 1) * cap <= colors * cap) by (nonlinear_arith)
            requires
                column + 1 <= colors,
        ;
        assert(colors * cap + cap == board.column_count * cap) by (nonlinear_arith)
            requires
                colors + 1 == board.column_count,
        ;
        let head = board.slots.subrange(0, start as int);
        let tail = board.slots.subrange(start as int, board.slots.len() as int);
        assert(board.slots =~= head + tail);
        vstd::seq_lib::lemma_multiset_commutative(head, tail);
        assert(tail =~= free) by {
            assert forall|i: int| 0 <= i < cap implies tail[i] == Slot::Empty by {
                assert(board.at(i, colors as int) == Slot::Empty);
            }
        }
        assert(head[board.index(row, column)] == Slot::Empty);
        assert(head.contains(Slot::Empty));
        assert(head.to_multiset().count(Slot::Empty) > 0);
    }
}

/// Above a token there is a topmost one.
proof fn lemma_top_exists(board: BoardView, row: int, column: int)
    requires
        board.in_grid(row, column),
        board.at(row, column).is_ball(),
    ensures
        board.first_ball(column) is Some,
    decreases row,
{
    if exists|above: int| 0 <= above < row && board.at(above, column).is_ball() {
        let above = choose|above: int| 0 <= above < row && board.at(above, column).is_ball();
        lemma_top_exists(board, above, column);
    } else {
        assert(board.is_top(row, column));
    }
}

/// Below a free slot there is a landing slot.
proof fn lemma_landing_exists(board: BoardView, row: int, column: int)
    requires
        board.in_grid(row, column),
        !board.at(row, column).is_ball(),
    ensures
        board.first_empty(column) is Some,
    decreases board.column_capacity - row,
{
    if exists|below: int|
        row < below < board.column_capacity && !board.at(below, column).is_ball() {
        let below = choose|below: int|
            row < below < board.column_capacity && !board.at(below, column).is_ball();
        lemma_landing_exists(board, below, column);
    } else {
        assert(board.is_landing(row, column));
    }
}

/// A column of the grid has no topmost token exactly when all its slots are
/// free, and no landing slot exactly when all its slots hold a token.
pub proof fn lemma_empty_and_full_columns(board: BoardView, column: int)
    requires
        0 <= column < board.column_count,
    ensures
        board.first_ball(column) is None <==> forall|row: int|
            0 <= row < board.column_capacity ==> !(#[trigger] board.at(row, column)).is_ball(),
        board.first_empty(column) is None <==> forall|row: int|
            0 <= row < board.column_capacity ==> (#[trigger] board.at(row, column)).is_ball(),
{
    if board.first_ball(column) is None {
        assert forall|row: int| 0 <= row < board.column_capacity implies !(#[trigger] board.at(
            row,
            column,
        )).is_ball() by {
            if board.at(row, column).is_ball() {
                lemma_top_exists(board, row, column);
            }
        }
    } else {
        let top = board.first_ball(column).unwrap();
        assert(board.is_top(top, column));
    }
    if board.first_empty(column) is None {
        assert forall|row: int| 0 <= row < board.column_capacity implies (#[trigger] board.at(
            row,
            column,
        )).is_ball() by {
            if !board.at(row, column).is_ball() {
                lemma_landing_exists(board, row, column);
            }
        }
    } else {
        let landing = board.first_empty(column).unwrap();
        assert(board.is_landing(landing, column));
    }
}

/// On a well-formed board the landing slot of a column is the row right
/// above its topmost token; the last row where the column has no token, and
/// none where the topmost token is in the first row.
pub proof fn lemma_landing_is_above_top(board: BoardView, column: int)
    requires
        board.wf(),
        0 <= column < board.column_count,
    ensures
        board.first_empty(column) == match board.first_ball(column) {
            Some(top) => if top > 0 {
                Some(top - 1)
            } else {
                None
            },
            None => Some(board.column_capacity - 1),
        },
{
    lemma_empty_and_full_columns(board, column);
    assert(board.column_settled(column));
    match board.first_ball(column) {
        Some(top) => {
            assert(board.is_top(top, column));
            assert forall|row: int| top <= row < board.column_capacity implies (#[trigger] board.at(
                row,
                column,
            )).is_ball() by {
                if top < row {
                    assert(board.at(top, column).is_ball() ==> board.at(row, column).is_ball());
                }
            }
            if top > 0 {
                assert(board.is_landing(top - 1, column));
                lemma_first_empty_is(board, top - 1, column);
            }
        },
        None => {
            assert(board.is_landing(board.column_capacity - 1, column));
            lemma_first_empty_is(board, board.column_capacity - 1, column);
        },
    }
}

/// Asking to move a token onto its own column changes nothing.
pub proof fn lemma_move_same_column(board: BoardView, column: int)
    ensures
        board.moved(column, column) == board,
{
}

/// Asking to move from a column without a token, or onto a full column,
/// changes nothing.
pub proof fn lemma_move_blocked(board: BoardView, from: int, to: int)
    requires
        board.first_ball(from) is None || board.first_empty(to) is None,
    ensures
        board.moved(from, to) == board,
{
}

/// Whatever is asked, the tokens on the board stay the same: each value
/// occurs after the request as often as before it.
pub proof fn lemma_move_conserves_balls(board: BoardView, from: int, to: int)
    requires
        board.wf(),
    ensures
        board.moved(from, to).slots.to_multiset() == board.slots.to_multiset(),
        board.moved(from, to).ball_count() == board.ball_count(),
        forall|slot: Slot| board.moved(from, to).count_of(slot) == board.count_of(slot),
{
    broadcast use vstd::seq_lib::group_to_multiset_ensures;

    if board.can_move(from, to) {
        let top = board.first_ball(from).unwrap();
        let landing = board.first_empty(to).unwrap();
        let source = board.index(top, from);
        let target = board.index(landing, to);
        lemma_moved_cells(board, from, to);
        lemma_index_bounds(board, top, from);
        lemma_index_bounds(board, landing, to);
        if source == target {
            lemma_index_injective(board, top, from, landing, to);
        }
        let ball = board.slots[source];
        let lifted = board.slots.update(target, ball);
        assert(board.slots.contains(board.slots[target]));
        assert(lifted.contains(lifted[source]));
        assert(board.moved(from, to).slots.to_multiset() =~= board.slots.to_multiset());
    }
}

/// A request that can be carried out relocates exactly one token: the
/// topmost token of the source column leaves its cell free and comes to rest
/// in the landing slot of the destination, every other cell keeps its value,
/// the move counter goes up by one, and the number of tokens is unchanged.
pub proof fn lemma_legal_move(board: BoardView, from: int, to: int)
    requires
        board.wf(),
        board.can_move(from, to),
    ensures
        ({
            let after = board.moved(from, to);
            let top = board.first_ball(from).unwrap();
            let landing = board.first_empty(to).unwrap();
            &&& board.is_top(top, from)
            &&& board.is_landing(landing, to)
            &&& after.wf()
            &&& after.column_count == board.column_count
            &&& after.column_capacity == board.column_capacity
            &&& after.play_count == board.play_count + 1
            &&& after.at(top, from) == Slot::Empty
            &&& after.at(landing, to) == board.at(top, from)
            &&& forall|row: int, column: int|
                board.in_grid(row, column) && !(row == top && column == from) && !(row == landing
                    && column == to) ==> #[trigger] after.at(row, column) == board.at(row, column)
            &&& after.ball_count() == board.ball_count()
        }),
{
    lemma_moved_cells(board, from, to);
    lemma_moved_wf(board, from, to);
    lemma_move_conserves_balls(board, from, to);
}

} // verus!
