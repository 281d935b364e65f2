//! The session: a board with its lifecycle, the chosen dimensions, the
//! ledger of results and the indicator of unsaved changes.

use vstd::prelude::*;
use crate::board::{board_of, State};
use crate::ledger::{HistoryLedger, ScoreEntry, TOP_COUNT};
use crate::lifecycle::{
    clamped, MoveIntent, Phase, SessionView, DEFAULT_COLUMNS, DEFAULT_ROWS, IDLE_SAVE_SECS,
    MAX_COLUMNS, MAX_ROWS, MIN_COLUMNS, MIN_ROWS,
};
use crate::model::BoardView;
use crate::scores::{ledger_from, ranking, scores_in, tidy};
use crate::slot::Slot;

verus! {

/// A stored board, as plain data.
#[derive(Debug, PartialEq, Eq)]
pub struct BoardSnapshot {
    pub column_count: usize,
    pub column_capacity: usize,
    pub play_count: usize,
    pub slots: Vec<Slot>,
}

/// What of a session is kept between runs, as plain data. The indicator of
/// unsaved changes is not part of it.
#[derive(Debug, PartialEq, Eq)]
pub struct Snapshot {
    pub column_count: usize,
    pub column_capacity: usize,
    pub board: Option<BoardSnapshot>,
    pub history: Vec<ScoreEntry>,
}

/// The model of a stored board.
pub open spec fn stored_board(board: Option<BoardSnapshot>) -> Option<BoardView> {
    match board {
        Some(b) => Some(board_of(b.column_count, b.column_capacity, b.play_count, b.slots@)),
        None => None,
    }
}

/// A session of the puzzle.
#[derive(Debug)]
pub struct GameSession {
    column_count: usize,
    column_capacity: usize,
    board: Option<State>,
    won: bool,
    history: HistoryLedger,
    dirty: bool,
}

impl View for GameSession {
    type V = SessionView;

    closed spec fn view(&self) -> SessionView {
        SessionView {
            column_count: self.column_count,
            column_capacity: self.column_capacity,
            phase: match self.board {
                None => Phase::NotStarted,
                Some(_) => if self.won {
                    Phase::Won
                } else {
                    Phase::Playing
                },
            },
            board: match self.board {
                None => None,
                Some(b) => Some(b@),
            },
            history: self.history@,
            dirty: self.dirty,
        }
    }
}

impl Default for GameSession {
    fn default() -> (session: Self)
        ensures
            session.wf(),
            session@ == SessionView::initial(),
    {
        GameSession::new()
    }
}

/// Brings a value within bounds.
fn clamp(value: usize, low: usize, high: usize) -> (within: usize)
    ensures
        within == clamped(value, low, high),
{
    if value < low {
        low
    } else if value > high {
        high
    } else {
        value
    }
}

impl GameSession {
    /// Well-formedness: the model is well-formed, and so are the parts.
    pub closed spec fn wf(&self) -> bool {
        &&& self@.wf()
        &&& self.history.wf()
        &&& self.board is None ==> !self.won
        &&& self.board matches Some(b) ==> b.wf()
    }

    /// A well-formed session has a well-formed model.
    pub proof fn lemma_wf_view(&self)
        requires
            self.wf(),
        ensures
            self@.wf(),
    {
    }

    /// The session before anything was done with it: seven columns of seven
    /// rows, no board, an empty ledger, nothing unsaved.
    pub fn new() -> (session: Self)
        ensures
            session.wf(),
            session@ == SessionView::initial(),
    {
        GameSession {
            column_count: DEFAULT_COLUMNS,
            column_capacity: DEFAULT_ROWS,
            board: None,
            won: false,
            history: HistoryLedger::new(),
            dirty: false,
        }
    }

    /// Chooses the dimensions of the next board. Values out of bounds are
    /// brought to the nearest bound. While a board is there nothing changes.
    pub fn configure(&mut self, column_count: usize, column_capacity: usize)
        requires
            old(self).wf(),
        ensures
            final(self).wf(),
            final(self)@ == old(self)@.configured(column_count, column_capacity),
    {
        if self.board.is_none() {
            let count = clamp(column_count, MIN_COLUMNS, MAX_COLUMNS);
            let capacity = clamp(column_capacity, MIN_ROWS, MAX_ROWS);
            if count != self.column_count || capacity != self.column_capacity {
                self.dirty = true;
            }
            self.column_count = count;
            self.column_capacity = capacity;
        }
    }

    /// Starts a puzzle on the given board, if the session has not started
    /// and the board has the session's dimensions. Otherwise nothing changes.
    pub fn start_with(&mut self, board: State)
        requires
            old(self).wf(),
            board.wf(),
        ensures
            final(self).wf(),
            final(self)@ == old(self)@.started(board@),
    {
        if self.board.is_none() && board.column_count() == self.column_count
            && board.column_capacity() == self.column_capacity {
            self.board = Some(board);
            self.won = false;
            self.dirty = true;
        }
    }

    /// Starts a puzzle on a freshly generated board, if the session has not
    /// started. Otherwise nothing changes.
    pub fn start(&mut self)
        requires
            old(self).wf(),
        ensures
            final(self).wf(),
            old(self)@.phase != Phase::NotStarted ==> final(self)@ == old(self)@,
            old(self)@.phase == Phase::NotStarted ==> {
                &&& final(self)@.board matches Some(board)
                &&& board.fresh()
                &&& final(self)@ == old(self)@.started(board)
                &&& final(self)@.phase == Phase::Playing
            },
    {
        if self.board.is_none() {
            assert(self.column_count * self.column_capacity <= usize::MAX) by (nonlinear_arith)
                requires
                    self.column_count <= MAX_COLUMNS,
                    self.column_capacity <= MAX_ROWS,
            ;
            match State::new(self.column_count, self.column_capacity) {
                Ok(board) => {
                    self.start_with(board);
                },
                Err(_) => {},
            }
        }
    }

    /// Whether the move counter of the board in play can still go up.
    pub fn can_count(&self) -> (room: bool)
        requires
            self.wf(),
        ensures
            room == self@.can_count(),
    {
        match &self.board {
            Some(board) => self.won || board.play_count() < usize::MAX,
            None => true,
        }
    }

    /// Carries out a move request. Outside play it is ignored. In play, the
    /// topmost token of `from_column` goes onto `to_column` if the board
    /// allows it; if the board is solved after that, the session is won and
    /// the move count is recorded for the session's dimensions.
    pub fn attempt_move(&mut self, from_column: usize, to_column: usize)
        requires
            old(self).wf(),
            old(self)@.can_count(),
        ensures
            final(self).wf(),
            final(self)@ == old(self)@.after_move(from_column as int, to_column as int),
    {
        if self.won {
            return ;
        }
        match self.board.take() {
            None => {},
            Some(mut board) => {
                let before = board.play_count();
                board.move_ball(from_column, to_column);
                let changed = board.play_count() != before;
                match board.is_winning() {
                    Some(score) => {
                        self.won = true;
                        self.history.record(self.column_count, self.column_capacity, score);
                        self.dirty = true;
                    },
                    None => {
                        if changed {
                            self.dirty = true;
                        }
                    },
                }
                self.board = Some(board);
            },
        }
    }

    /// Carries out a move request, whatever its shape: as `attempt_move`
    /// from its source column onto its destination column.
    pub fn apply(&mut self, intent: MoveIntent)
        requires
            old(self).wf(),
            old(self)@.can_count(),
        ensures
            final(self).wf(),
            final(self)@ == old(self)@.after_move(
                intent.source() as int,
                intent.destination() as int,
            ),
    {
        let (from_column, to_column) = intent.columns();
        self.attempt_move(from_column, to_column);
    }

    /// Gives up the puzzle in play. Outside play nothing changes.
    pub fn abort(&mut self)
        requires
            old(self).wf(),
        ensures
            final(self).wf(),
            final(self)@ == old(self)@.aborted(),
    {
        if self.board.is_some() && !self.won {
            self.board = None;
            self.dirty = true;
        }
    }

    /// Puts a solved puzzle away, so that a new one can be started. In play
    /// nothing changes.
    pub fn restart(&mut self)
        requires
            old(self).wf(),
        ensures
            final(self).wf(),
            final(self)@ == old(self)@.restarted(),
    {
        if self.won {
            self.board = None;
            self.won = false;
            self.dirty = true;
        }
    }

    /// Notes that the session was saved: nothing is unsaved any more.
    pub fn mark_saved(&mut self)
        requires
            old(self).wf(),
        ensures
            final(self).wf(),
            final(self)@ == old(self)@.saved(),
    {
        self.dirty = false;
    }

    /// Whether anything changed since the session was last saved.
    pub fn is_dirty(&self) -> (dirty: bool)
        ensures
            dirty == self@.dirty,
    {
        self.dirty
    }

    /// Seconds to wait before the next save: none while something is
    /// unsaved.
    pub fn auto_save_interval(&self) -> (seconds: u64)
        ensures
            seconds == if self@.dirty {
                0
            } else {
                IDLE_SAVE_SECS
            },
    {
        if self.dirty {
            0
        } else {
            IDLE_SAVE_SECS
        }
    }

    /// Where the session stands.
    pub fn phase(&self) -> (phase: Phase)
        ensures
            phase == self@.phase,
    {
        if self.board.is_none() {
            Phase::NotStarted
        } else if self.won {
            Phase::Won
        } else {
            Phase::Playing
        }
    }

    /// Chosen number of columns.
    pub fn column_count(&self) -> (count: usize)
        ensures
            count == self@.column_count,
    {
        self.column_count
    }

    /// Chosen number of rows.
    pub fn column_capacity(&self) -> (capacity: usize)
        ensures
            capacity == self@.column_capacity,
    {
        self.column_capacity
    }

    /// The board, once the session has started.
    pub fn board(&self) -> (board: Option<&State>)
        requires
            self.wf(),
        ensures
            board is Some <==> self@.board is Some,
            board matches Some(b) ==> b.wf() && Some(b@) == self@.board,
    {
        self.board.as_ref()
    }

    /// The ledger of results.
    pub fn history(&self) -> (ledger: &HistoryLedger)
        requires
            self.wf(),
        ensures
            ledger.wf(),
            ledger@ == self@.history,
    {
        &self.history
    }

    /// The move count of the solved board, once the session is won.
    pub fn winning_score(&self) -> (score: Option<usize>)
        requires
            self.wf(),
        ensures
            score == if self@.phase == Phase::Won {
                Some(self@.board.unwrap().play_count as usize)
            } else {
                None
            },
    {
        if !self.won {
            return None;
        }
        match &self.board {
            Some(board) => Some(board.play_count()),
            None => None,
        }
    }

    /// The lowest results recorded for the chosen dimensions, ascending, at
    /// most `TOP_COUNT` of them.
    pub fn top_scores(&self) -> (ranked: Vec<usize>)
        requires
            self.wf(),
        ensures
            ({
                let all = ranking(
                    scores_in(self@.history, self@.column_count, self@.column_capacity),
                );
                ranked@ == if TOP_COUNT < all.len() {
                    all.take(TOP_COUNT as int)
                } else {
                    all
                }
            }),
    {
        self.history.best(self.column_count, self.column_capacity, TOP_COUNT)
    }

    /// What is kept of the session between runs.
    pub fn snapshot(&self) -> (stored: Snapshot)
        requires
            self.wf(),
        ensures
            stored.column_count == self@.column_count,
            stored.column_capacity == self@.column_capacity,
            stored_board(stored.board) == self@.board,
            tidy(stored.history@),
            ledger_from(stored.history@) == self@.history,
    {
        let board = match &self.board {
            Some(b) => Some(
                BoardSnapshot {
                    column_count: b.column_count(),
                    column_capacity: b.column_capacity(),
                    play_count: b.play_count(),
                    slots: b.slots(),
                },
            ),
            None => None,
        };
        proof {
            if self.board is Some {
                assert(stored_board(board).unwrap() =~= self.board.unwrap()@);
            }
        }
        Snapshot {
            column_count: self.column_count,
            column_capacity: self.column_capacity,
            board,
            history: self.history.entries(),
        }
    }

    /// Takes up a stored session. Where nothing was stored, or what was
    /// stored does not make a session, the result is the initial session.
    pub fn from_snapshot(stored: Option<Snapshot>) -> (session: Self)
        ensures
            session.wf(),
            session@ == match stored {
                Some(s) => SessionView::restored(
                    s.column_count,
                    s.column_capacity,
                    stored_board(s.board),
                    ledger_from(s.history@),
                ),
                None => SessionView::initial(),
            },
    {
        let Some(parts) = stored else {
            return GameSession::new();
        };
        let Snapshot { column_count, column_capacity, board, history } = parts;
        if column_count < MIN_COLUMNS || column_count > MAX_COLUMNS || column_capacity < MIN_ROWS
            || column_capacity > MAX_ROWS {
            return GameSession::new();
        }
        let board = match board {
            None => None,
            Some(b) => {
                if b.column_count != column_count || b.column_capacity != column_capacity {
                    return GameSession::new();
                }
                match State::from_parts(b.column_count, b.column_capacity, b.play_count, b.slots) {
                    None => {
                        return GameSession::new();
                    },
                    Some(state) => Some(state),
                }
            },
        };
        let won = match &board {
            Some(state) => state.is_winning().is_some(),
            None => false,
        };
        GameSession {
            column_count,
            column_capacity,
            board,
            won,
            history: HistoryLedger::from_entries(&history),
            dirty: false,
        }
    }
}

} // verus!
