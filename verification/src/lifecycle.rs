//! The lifecycle of a session as plain mathematics: its phases, the requests
//! it takes, and what each of them does.

use vstd::prelude::*;
use crate::model::{lemma_moved_wf, BoardView};
use crate::scores::recorded;

verus! {

/// Fewest columns a board may have.
pub const MIN_COLUMNS: usize = 1;

/// Most columns a board may have: one per ball style, and the free one.
pub const MAX_COLUMNS: usize = 21;

/// Fewest rows a column may have.
pub const MIN_ROWS: usize = 2;

/// Most rows a column may have.
pub const MAX_ROWS: usize = 20;

/// Columns of a session that was never configured.
pub const DEFAULT_COLUMNS: usize = 7;

/// Rows of a session that was never configured.
pub const DEFAULT_ROWS: usize = 7;

/// Seconds to wait before saving a session without unsaved changes.
pub const IDLE_SAVE_SECS: u64 = 30;

/// Where a session stands in its lifecycle.
#[derive(Clone, Copy, Debug, PartialEq, Eq, Structural)]
pub enum Phase {
    NotStarted,
    Playing,
    Won,
}

/// A request of the player to move a token, in either of the shapes in
/// which an input layer may hand it over. The rules look at columns only.
#[derive(Clone, Copy, Debug, PartialEq, Eq, Structural)]
pub enum MoveIntent {
    /// From the top of one column onto another column.
    Columns { source_column: usize, destination_column: usize },
    /// From one cell to another; the rows are those where the drag began
    /// and ended, and play no part.
    Slots {
        source_row: usize,
        source_column: usize,
        destination_row: usize,
        destination_column: usize,
    },
}

impl MoveIntent {
    /// The column that the token is taken from.
    pub open spec fn source(self) -> usize {
        match self {
            MoveIntent::Columns { source_column, .. } => source_column,
            MoveIntent::Slots { source_column, .. } => source_column,
        }
    }

    /// The column that the token is put onto.
    pub open spec fn destination(self) -> usize {
        match self {
            MoveIntent::Columns { destination_column, .. } => destination_column,
            MoveIntent::Slots { destination_column, .. } => destination_column,
        }
    }

    /// Source and destination column of the request.
    pub fn columns(&self) -> (pair: (usize, usize))
        ensures
            pair == (self.source(), self.destination()),
    {
        match self {
            MoveIntent::Columns { source_column, destination_column } => (
                *source_column,
                *destination_column,
            ),
            MoveIntent::Slots { source_column, destination_column, .. } => (
                *source_column,
                *destination_column,
            ),
        }
    }
}

/// A session as plain mathematics.
pub struct SessionView {
    pub column_count: usize,
    pub column_capacity: usize,
    pub phase: Phase,
    pub board: Option<BoardView>,
    pub history: Map<(usize, usize), Set<usize>>,
    pub dirty: bool,
}

/// The value nearest to `value` between `low` and `high`.
pub open spec fn clamped(value: usize, low: usize, high: usize) -> usize {
    if value < low {
        low
    } else if value > high {
        high
    } else {
        value
    }
}

/// Whether a session may have these dimensions.
pub open spec fn in_bounds(column_count: usize, column_capacity: usize) -> bool {
    MIN_COLUMNS <= column_count <= MAX_COLUMNS && MIN_ROWS <= column_capacity <= MAX_ROWS
}

/// The phase in which a stored board is taken up again: a solved board is
/// won, any other is being played.
pub open spec fn resumed_phase(board: Option<BoardView>) -> Phase {
    match board {
        None => Phase::NotStarted,
        Some(b) => if b.winning() {
            Phase::Won
        } else {
            Phase::Playing
        },
    }
}

impl SessionView {
    /// Well-formedness: the dimensions are within bounds; there is a board
    /// exactly when the session has started; the board is well-formed and
    /// has the session's dimensions; a won session has a solved board.
    pub open spec fn wf(self) -> bool {
        &&& in_bounds(self.column_count, self.column_capacity)
        &&& (self.phase == Phase::NotStarted <==> self.board is None)
        &&& self.board matches Some(b) ==> {
            &&& b.wf()
            &&& b.column_count == self.column_count
            &&& b.column_capacity == self.column_capacity
            &&& (self.phase == Phase::Won ==> b.winning())
        }
    }

    /// The session before anything was done with it.
    pub open spec fn initial() -> SessionView {
        SessionView {
            column_count: DEFAULT_COLUMNS,
            column_capacity: DEFAULT_ROWS,
            phase: Phase::NotStarted,
            board: None,
            history: Map::empty(),
            dirty: false,
        }
    }

    /// The session after new dimensions are chosen. They are brought within
    /// bounds, and are taken only while no board is in play.
    pub open spec fn configured(self, column_count: usize, column_capacity: usize) -> SessionView {
        if self.phase == Phase::NotStarted {
            let count = clamped(column_count, MIN_COLUMNS, MAX_COLUMNS);
            let capacity = clamped(column_capacity, MIN_ROWS, MAX_ROWS);
            SessionView {
                column_count: count,
                column_capacity: capacity,
                dirty: self.dirty || count != self.column_count || capacity != self.column_capacity,
                ..self
            }
        } else {
            self
        }
    }

    /// Whether the session can take up the board: it has not started and
    /// the board has its dimensions.
    pub open spec fn accepts(self, board: BoardView) -> bool {
        &&& self.phase == Phase::NotStarted
        &&& board.column_count == self.column_count
        &&& board.column_capacity == self.column_capacity
    }

    /// The session after a puzzle is started on the given board.
    pub open spec fn started(self, board: BoardView) -> SessionView {
        if self.accepts(board) {
            SessionView { phase: Phase::Playing, board: Some(board), dirty: true, ..self }
        } else {
            self
        }
    }

    /// Whether the move counter of the board in play can still go up.
    pub open spec fn can_count(self) -> bool {
        self.phase == Phase::Playing && self.board is Some ==> self.board.unwrap().play_count
            < usize::MAX
    }

    /// The session after the player asks for a move. Outside play the request
    /// is ignored. In play it goes to the board, and if the board is then
    /// solved the session is won and the move count joins the ledger.
    pub open spec fn after_move(self, from: int, to: int) -> SessionView {
        if self.phase == Phase::Playing && self.board is Some {
            let before = self.board.unwrap();
            let after = before.moved(from, to);
            if after.winning() {
                SessionView {
                    phase: Phase::Won,
                    board: Some(after),
                    history: recorded(
                        self.history,
                        self.column_count,
                        self.column_capacity,
                        after.play_count as usize,
                    ),
                    dirty: true,
                    ..self
                }
            } else {
                SessionView {
                    board: Some(after),
                    dirty: self.dirty || before.can_move(from, to),
                    ..self
                }
            }
        } else {
            self
        }
    }

    /// The session after the puzzle in play is given up.
    pub open spec fn aborted(self) -> SessionView {
        if self.phase == Phase::Playing {
            SessionView { phase: Phase::NotStarted, board: None, dirty: true, ..self }
        } else {
            self
        }
    }

    /// The session after a solved puzzle is put away.
    pub open spec fn restarted(self) -> SessionView {
        if self.phase == Phase::Won {
            SessionView { phase: Phase::NotStarted, board: None, dirty: true, ..self }
        } else {
            self
        }
    }

    /// The session after it was saved.
    pub open spec fn saved(self) -> SessionView {
        SessionView { dirty: false, ..self }
    }

    /// Whether stored parts make a session.
    pub open spec fn restorable(
        column_count: usize,
        column_capacity: usize,
        board: Option<BoardView>,
    ) -> bool {
        &&& in_bounds(column_count, column_capacity)
        &&& board matches Some(b) ==> {
            &&& b.wf()
            &&& b.column_count == column_count
            &&& b.column_capacity == column_capacity
        }
    }

    /// The session that stored parts stand for; the initial session where
    /// they do not make one.
    pub open spec fn restored(
        column_count: usize,
        column_capacity: usize,
        board: Option<BoardView>,
        history: Map<(usize, usize), Set<usize>>,
    ) -> SessionView {
        if Self::restorable(column_count, column_capacity, board) {
            SessionView {
                column_count,
                column_capacity,
                phase: resumed_phase(board),
                board,
                history,
                dirty: false,
            }
        } else {
            Self::initial()
        }
    }
}

/// Storing a session and taking it up again gives back its dimensions, its
/// board with the move count, and its ledger; nothing is unsaved then. The
/// phase comes back too, except that a session in play whose board is
/// solved comes back as won.
pub proof fn lemma_round_trip(session: SessionView)
    requires
        session.wf(),
    ensures
        SessionView::restored(
            session.column_count,
            session.column_capacity,
            session.board,
            session.history,
        ) == (SessionView { phase: resumed_phase(session.board), dirty: false, ..session }),
        !(session.phase == Phase::Playing && session.board.unwrap().winning()) ==> resumed_phase(
            session.board,
        ) == session.phase,
{
}

/// Once won, a session takes no more moves: its board, its move count and
/// its ledger stay as they are, so a win is recorded once.
pub proof fn lemma_won_ignores_moves(session: SessionView, from: int, to: int)
    requires
        session.phase == Phase::Won,
    ensures
        session.after_move(from, to) == session,
{
}

/// A move request keeps a session well-formed, and changes the ledger only
/// when it wins the puzzle: then the move count of the solved board joins
/// the results of the session's dimensions.
pub proof fn lemma_after_move(session: SessionView, from: int, to: int)
    requires
        session.wf(),
    ensures
        session.after_move(from, to).wf(),
        session.after_move(from, to).phase != Phase::Won || session.phase == Phase::Won
            ==> session.after_move(from, to).history == session.history,
        session.phase == Phase::Playing && session.after_move(from, to).phase == Phase::Won
            ==> session.after_move(from, to).history == recorded(
            session.history,
            session.column_count,
            session.column_capacity,
            session.after_move(from, to).board.unwrap().play_count as usize,
        ),
{
    if session.phase == Phase::Playing {
        lemma_moved_wf(session.board.unwrap(), from, to);
    }
}

} // verus!
