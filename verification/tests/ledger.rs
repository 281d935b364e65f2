use boule::ledger::{HistoryLedger, ScoreEntry, TOP_COUNT};

fn entry(column_count: usize, column_capacity: usize, scores: &[usize]) -> ScoreEntry {
    ScoreEntry { column_count, column_capacity, scores: scores.to_vec() }
}

#[test]
fn empty_ledger_has_no_results() {
    let ledger = HistoryLedger::new();
    assert_eq!(ledger.query(6, 7), Vec::<usize>::new());
    assert_eq!(ledger.best(6, 7, 10), Vec::<usize>::new());
    assert_eq!(ledger.entries(), Vec::<ScoreEntry>::new());
}

#[test]
fn record_is_idempotent_on_duplicate_scores() {
    let mut ledger = HistoryLedger::new();
    for score in [40, 25, 25, 30] {
        ledger.record(6, 7, score);
    }
    assert_eq!(ledger.query(6, 7), vec![25, 30, 40]);
}

#[test]
fn recording_twice_is_recording_once() {
    let mut once = HistoryLedger::new();
    once.record(4, 5, 31);
    let mut twice = HistoryLedger::new();
    twice.record(4, 5, 31);
    twice.record(4, 5, 31);
    assert_eq!(twice.query(4, 5), vec![31]);
    assert_eq!(twice.entries(), once.entries());
}

#[test]
fn results_are_kept_by_dimensions() {
    let mut ledger = HistoryLedger::new();
    ledger.record(6, 7, 40);
    ledger.record(7, 6, 12);
    ledger.record(6, 7, 3);
    ledger.record(6, 6, 0);
    assert_eq!(ledger.query(6, 7), vec![3, 40]);
    assert_eq!(ledger.query(7, 6), vec![12]);
    assert_eq!(ledger.query(6, 6), vec![0]);
    assert_eq!(ledger.query(7, 7), Vec::<usize>::new());
}

#[test]
fn ledger_is_not_bounded_but_best_is() {
    let mut ledger = HistoryLedger::new();
    for score in [50, 10, 120, 30, 20, 70, 60, 40, 90, 80, 110, 100] {
        ledger.record(4, 5, score);
    }
    assert_eq!(ledger.query(4, 5), vec![10, 20, 30, 40, 50, 60, 70, 80, 90, 100, 110, 120]);
    assert_eq!(TOP_COUNT, 10);
    assert_eq!(
        ledger.best(4, 5, TOP_COUNT),
        vec![10, 20, 30, 40, 50, 60, 70, 80, 90, 100]
    );
    assert_eq!(ledger.best(4, 5, 3), vec![10, 20, 30]);
    assert_eq!(ledger.best(4, 5, 0), Vec::<usize>::new());
    assert_eq!(ledger.best(4, 5, 12).len(), 12);
    assert_eq!(ledger.best(4, 5, 500).len(), 12);
}

#[test]
fn entries_list_each_pair_once_in_ascending_order() {
    let mut ledger = HistoryLedger::new();
    ledger.record(6, 7, 40);
    ledger.record(4, 5, 9);
    ledger.record(6, 7, 25);
    assert_eq!(ledger.entries(), vec![entry(6, 7, &[25, 40]), entry(4, 5, &[9])]);
}

#[test]
fn from_entries_takes_any_order_and_repetition() {
    let listed = vec![
        entry(6, 7, &[40, 25]),
        entry(4, 5, &[7]),
        entry(6, 7, &[30, 25]),
        entry(9, 9, &[]),
    ];
    let ledger = HistoryLedger::from_entries(&listed);
    assert_eq!(ledger.query(6, 7), vec![25, 30, 40]);
    assert_eq!(ledger.query(4, 5), vec![7]);
    assert_eq!(ledger.query(9, 9), Vec::<usize>::new());
    assert_eq!(ledger.entries(), vec![entry(6, 7, &[25, 30, 40]), entry(4, 5, &[7])]);
}

#[test]
fn entries_round_trip() {
    let mut ledger = HistoryLedger::new();
    for (count, capacity, score) in [(6, 7, 40), (4, 5, 9), (6, 7, 25), (21, 20, 1000)] {
        ledger.record(count, capacity, score);
    }
    let again = HistoryLedger::from_entries(&ledger.entries());
    assert_eq!(again.entries(), ledger.entries());
}
