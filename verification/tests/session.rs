use boule::board::State;
use boule::ledger::ScoreEntry;
use boule::lifecycle::{
    MoveIntent, Phase, DEFAULT_COLUMNS, DEFAULT_ROWS, IDLE_SAVE_SECS, MAX_COLUMNS, MAX_ROWS,
    MIN_COLUMNS, MIN_ROWS,
};
use boule::session::{BoardSnapshot, GameSession, Snapshot};
use boule::slot::Slot;

const E: Slot = Slot::Empty;

fn b(color: usize) -> Slot {
    Slot::Ball(color)
}

/// A session in play on a three by two board that two moves solve.
fn nearly_solved() -> GameSession {
    let mut session = GameSession::new();
    session.configure(3, 2);
    let board = State::from_parts(3, 2, 0, vec![b(0), b(1), b(1), b(0), E, E]).unwrap();
    session.start_with(board);
    session
}

#[test]
fn new_session_is_the_default() {
    let session = GameSession::new();
    assert_eq!(session.column_count(), 7);
    assert_eq!(session.column_capacity(), 7);
    assert_eq!(DEFAULT_COLUMNS, 7);
    assert_eq!(DEFAULT_ROWS, 7);
    assert_eq!(session.phase(), Phase::NotStarted);
    assert!(session.board().is_none());
    assert!(!session.is_dirty());
    assert_eq!(session.history().entries(), Vec::<ScoreEntry>::new());
    let other = GameSession::default();
    assert_eq!(other.snapshot(), session.snapshot());
}

#[test]
fn configure_brings_dimensions_within_bounds() {
    assert_eq!((MIN_COLUMNS, MAX_COLUMNS, MIN_ROWS, MAX_ROWS), (1, 21, 2, 20));
    let mut session = GameSession::new();
    session.configure(0, 0);
    assert_eq!((session.column_count(), session.column_capacity()), (1, 2));
    session.configure(22, 21);
    assert_eq!((session.column_count(), session.column_capacity()), (21, 20));
    session.configure(4, 5);
    assert_eq!((session.column_count(), session.column_capacity()), (4, 5));
    assert!(session.is_dirty());
}

#[test]
fn configure_with_the_same_dimensions_leaves_nothing_unsaved() {
    let mut session = GameSession::new();
    session.configure(7, 7);
    assert!(!session.is_dirty());
    session.configure(7, 8);
    assert!(session.is_dirty());
}

#[test]
fn configure_is_ignored_once_started() {
    let mut session = nearly_solved();
    session.configure(9, 9);
    assert_eq!((session.column_count(), session.column_capacity()), (3, 2));
}

#[test]
fn start_makes_a_fresh_board_of_the_chosen_dimensions() {
    let mut session = GameSession::new();
    session.configure(4, 5);
    session.mark_saved();
    session.start();
    assert_eq!(session.phase(), Phase::Playing);
    assert!(session.is_dirty());
    let board = session.board().unwrap();
    assert_eq!(board.column_count(), 4);
    assert_eq!(board.column_capacity(), 5);
    assert_eq!(board.play_count(), 0);
    let slots = board.slots();
    assert_eq!(slots.iter().filter(|s| **s == E).count(), 5);
    for color in 0..3 {
        assert_eq!(slots.iter().filter(|s| **s == b(color)).count(), 5);
    }
}

#[test]
fn start_is_ignored_while_a_board_is_there() {
    let mut session = nearly_solved();
    let before = session.snapshot();
    session.start();
    assert_eq!(session.snapshot(), before);
    assert_eq!(session.phase(), Phase::Playing);
}

#[test]
fn start_with_needs_the_chosen_dimensions() {
    let mut session = GameSession::new();
    session.configure(3, 2);
    session.mark_saved();
    session.start_with(State::new(3, 3).unwrap());
    assert_eq!(session.phase(), Phase::NotStarted);
    assert!(!session.is_dirty());
    session.start_with(State::new(3, 2).unwrap());
    assert_eq!(session.phase(), Phase::Playing);
    assert!(session.is_dirty());
}

#[test]
fn moves_outside_play_are_ignored() {
    let mut session = GameSession::new();
    session.attempt_move(0, 1);
    assert_eq!(session.phase(), Phase::NotStarted);
    assert!(!session.is_dirty());
    assert!(session.board().is_none());
}

#[test]
fn move_without_effect_leaves_nothing_unsaved() {
    let mut session = nearly_solved();
    session.mark_saved();
    session.attempt_move(0, 0);
    session.attempt_move(2, 0);
    session.attempt_move(0, 1);
    session.attempt_move(7, 1);
    assert!(!session.is_dirty());
    assert_eq!(session.board().unwrap().play_count(), 0);
    assert_eq!(session.phase(), Phase::Playing);
    session.attempt_move(0, 2);
    assert!(session.is_dirty());
    assert_eq!(session.board().unwrap().play_count(), 1);
}

#[test]
fn win_is_recorded_once() {
    let mut session = nearly_solved();
    assert_eq!(session.winning_score(), None);
    session.attempt_move(0, 2);
    assert_eq!(session.phase(), Phase::Playing);
    assert_eq!(session.history().query(3, 2), Vec::<usize>::new());
    session.attempt_move(1, 0);
    assert_eq!(session.phase(), Phase::Playing);
    session.attempt_move(1, 2);
    assert_eq!(session.phase(), Phase::Won);
    assert_eq!(session.winning_score(), Some(3));
    assert_eq!(session.history().query(3, 2), vec![3]);
    assert_eq!(session.board().unwrap().slots(), vec![b(1), b(1), E, E, b(0), b(0)]);
    // a won session takes no more moves and records nothing more
    session.mark_saved();
    session.attempt_move(0, 1);
    session.attempt_move(2, 1);
    assert_eq!(session.phase(), Phase::Won);
    assert_eq!(session.board().unwrap().play_count(), 3);
    assert_eq!(session.board().unwrap().slots(), vec![b(1), b(1), E, E, b(0), b(0)]);
    assert_eq!(session.history().query(3, 2), vec![3]);
    assert!(!session.is_dirty());
}

#[test]
fn abort_discards_the_board_and_records_nothing() {
    let mut session = nearly_solved();
    session.attempt_move(0, 2);
    session.mark_saved();
    session.abort();
    assert_eq!(session.phase(), Phase::NotStarted);
    assert!(session.board().is_none());
    assert!(session.is_dirty());
    assert_eq!(session.history().entries(), Vec::<ScoreEntry>::new());
}

#[test]
fn abort_is_ignored_outside_play() {
    let mut session = GameSession::new();
    session.abort();
    assert!(!session.is_dirty());
    let mut won = nearly_solved();
    won.attempt_move(0, 2);
    won.attempt_move(1, 0);
    won.attempt_move(1, 2);
    won.mark_saved();
    won.abort();
    assert_eq!(won.phase(), Phase::Won);
    assert!(!won.is_dirty());
}

#[test]
fn restart_puts_a_won_board_away() {
    let mut session = nearly_solved();
    session.restart();
    assert_eq!(session.phase(), Phase::Playing);
    session.attempt_move(0, 2);
    session.attempt_move(1, 0);
    session.attempt_move(1, 2);
    session.mark_saved();
    session.restart();
    assert_eq!(session.phase(), Phase::NotStarted);
    assert!(session.board().is_none());
    assert!(session.is_dirty());
    assert_eq!(session.history().query(3, 2), vec![3]);
    session.mark_saved();
    session.restart();
    assert!(!session.is_dirty());
    session.start();
    assert_eq!(session.phase(), Phase::Playing);
    assert_eq!(session.board().unwrap().play_count(), 0);
}

#[test]
fn saving_clears_the_indicator() {
    let mut session = nearly_solved();
    assert!(session.is_dirty());
    assert_eq!(session.auto_save_interval(), 0);
    let before = session.snapshot();
    session.mark_saved();
    assert!(!session.is_dirty());
    assert_eq!(session.auto_save_interval(), 30);
    assert_eq!(IDLE_SAVE_SECS, 30);
    assert_eq!(session.snapshot(), before);
}

#[test]
fn move_counter_has_room() {
    let mut session = GameSession::new();
    assert!(session.can_count());
    session.configure(3, 2);
    let board = State::from_parts(3, 2, usize::MAX, vec![b(0), b(1), b(1), b(0), E, E]).unwrap();
    session.start_with(board);
    assert!(!session.can_count());
    assert!(nearly_solved().can_count());
}

#[test]
fn top_scores_are_those_of_the_chosen_dimensions() {
    let history = vec![
        ScoreEntry {
            column_count: 4,
            column_capacity: 5,
            scores: vec![90, 20, 30, 40, 50, 60, 70, 80, 10, 100, 110],
        },
        ScoreEntry { column_count: 7, column_capacity: 7, scores: vec![300] },
    ];
    let stored = Snapshot { column_count: 4, column_capacity: 5, board: None, history };
    let mut session = GameSession::from_snapshot(Some(stored));
    assert_eq!(session.top_scores(), vec![10, 20, 30, 40, 50, 60, 70, 80, 90, 100]);
    session.configure(7, 7);
    assert_eq!(session.top_scores(), vec![300]);
    session.configure(7, 8);
    assert_eq!(session.top_scores(), Vec::<usize>::new());
}

#[test]
fn snapshot_round_trip_of_a_session_in_play() {
    let mut session = nearly_solved();
    session.attempt_move(0, 2);
    session.attempt_move(1, 0);
    let stored = session.snapshot();
    assert_eq!(
        stored,
        Snapshot {
            column_count: 3,
            column_capacity: 2,
            board: Some(BoardSnapshot {
                column_count: 3,
                column_capacity: 2,
                play_count: 2,
                slots: vec![b(1), b(1), E, b(0), E, b(0)],
            }),
            history: vec![],
        }
    );
    session.mark_saved();
    assert!(!session.is_dirty());
    let again = GameSession::from_snapshot(Some(stored));
    assert_eq!(again.phase(), Phase::Playing);
    assert!(!again.is_dirty());
    assert_eq!(again.board(), session.board());
    assert_eq!(again.board().unwrap().play_count(), 2);
    assert_eq!(again.history().entries(), session.history().entries());
    assert_eq!(again.snapshot(), session.snapshot());
}

#[test]
fn snapshot_round_trip_keeps_the_ledger_and_the_win() {
    let mut session = nearly_solved();
    session.attempt_move(0, 2);
    session.attempt_move(1, 0);
    session.attempt_move(1, 2);
    session.restart();
    session.start_with(State::from_parts(3, 2, 0, vec![b(0), b(1), b(1), b(0), E, E]).unwrap());
    session.attempt_move(0, 2);
    session.attempt_move(2, 0);
    session.attempt_move(0, 2);
    session.attempt_move(1, 0);
    session.attempt_move(1, 2);
    assert_eq!(session.phase(), Phase::Won);
    assert_eq!(session.history().query(3, 2), vec![3, 5]);
    let mut again = GameSession::from_snapshot(Some(session.snapshot()));
    assert_eq!(again.phase(), Phase::Won);
    assert_eq!(again.winning_score(), Some(5));
    assert_eq!(again.snapshot(), session.snapshot());
    again.attempt_move(0, 1);
    assert_eq!(again.snapshot(), session.snapshot());
}

#[test]
fn nothing_stored_gives_the_initial_session() {
    let session = GameSession::from_snapshot(None);
    assert_eq!(session.snapshot(), GameSession::new().snapshot());
    assert_eq!(session.phase(), Phase::NotStarted);
}

#[test]
fn corrupt_snapshot_gives_the_initial_session() {
    let history = vec![ScoreEntry { column_count: 3, column_capacity: 2, scores: vec![4] }];
    let corrupt = [
        // dimensions out of bounds
        Snapshot { column_count: 0, column_capacity: 5, board: None, history: vec![] },
        Snapshot { column_count: 4, column_capacity: 1, board: None, history: vec![] },
        Snapshot { column_count: 22, column_capacity: 5, board: None, history: vec![] },
        Snapshot { column_count: 4, column_capacity: 21, board: None, history: vec![] },
        // a board of other dimensions
        Snapshot {
            column_count: 3,
            column_capacity: 2,
            board: Some(BoardSnapshot {
                column_count: 2,
                column_capacity: 3,
                play_count: 0,
                slots: vec![b(0), b(0), b(0), E, E, E],
            }),
            history: vec![],
        },
        // a board with too few slots
        Snapshot {
            column_count: 3,
            column_capacity: 2,
            board: Some(BoardSnapshot {
                column_count: 3,
                column_capacity: 2,
                play_count: 0,
                slots: vec![b(0), b(0), b(1)],
            }),
            history: vec![],
        },
        // a token above a free slot
        Snapshot {
            column_count: 3,
            column_capacity: 2,
            board: Some(BoardSnapshot {
                column_count: 3,
                column_capacity: 2,
                play_count: 0,
                slots: vec![b(0), E, b(1), b(1), E, b(0)],
            }),
            history,
        },
    ];
    for stored in corrupt {
        let session = GameSession::from_snapshot(Some(stored));
        assert_eq!(session.snapshot(), GameSession::new().snapshot());
        assert_eq!(session.phase(), Phase::NotStarted);
        assert!(!session.is_dirty());
    }
}

#[test]
fn intents_of_either_shape_move_between_columns() {
    let mut by_columns = nearly_solved();
    by_columns.apply(MoveIntent::Columns { source_column: 0, destination_column: 2 });
    let mut by_slots = nearly_solved();
    by_slots.apply(MoveIntent::Slots {
        source_row: 0,
        source_column: 0,
        destination_row: 0,
        destination_column: 2,
    });
    let mut direct = nearly_solved();
    direct.attempt_move(0, 2);
    assert_eq!(by_columns.snapshot(), direct.snapshot());
    assert_eq!(by_slots.snapshot(), direct.snapshot());
    assert_eq!(direct.board().unwrap().slots(), vec![E, b(1), b(1), b(0), E, b(0)]);
    assert_eq!(
        MoveIntent::Slots {
            source_row: 4,
            source_column: 1,
            destination_row: 3,
            destination_column: 2
        }
        .columns(),
        (1, 2)
    );
}
