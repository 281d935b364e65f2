//! The ledger of results: for every pair of dimensions, the move counts with
//! which a board of those dimensions was solved.

use vstd::prelude::*;
use crate::scores::{
    ascending, ledger_from, lemma_absent_is_empty, lemma_copy_is_same, lemma_entry_is_ranking,
    lemma_no_entries, lemma_push_records, lemma_read_end, lemma_read_next, lemma_read_start,
    lemma_read_step, lemma_update_records, ranking, read_up_to, recorded, scores_in, tidy,
};

verus! {

/// How many results the conventional ranking shows.
pub const TOP_COUNT: usize = 10;

/// The results of one pair of dimensions, as plain data.
#[derive(Debug, PartialEq, Eq)]
pub struct ScoreEntry {
    pub column_count: usize,
    pub column_capacity: usize,
    pub scores: Vec<usize>,
}

/// The ledger. Its view maps a pair of dimensions to the set of move counts
/// recorded for it; pairs without a result are not in the map.
#[derive(Debug)]
pub struct HistoryLedger {
    entries: Vec<ScoreEntry>,
}

/// Puts a result into an ascending list at its place, unless it is there.
fn insert_score(scores: &mut Vec<usize>, score: usize)
    requires
        ascending(old(scores)@),
    ensures
        ascending(final(scores)@),
        final(scores)@.to_set() == old(scores)@.to_set().insert(score),
{
    let mut at: usize = 0;
    while at < scores.len() && scores[at] < score
        invariant
            at <= scores.len(),
            scores@ == old(scores)@,
            ascending(scores@),
            forall|i: int| 0 <= i < at ==> scores@[i] < score,
        decreases scores.len() - at,
    {
        at += 1;
    }
    if at < scores.len() && scores[at] == score {
        assert(scores@.to_set() =~= scores@.to_set().insert(score)) by {
            assert(scores@.contains(scores@[at as int]));
        }
        assert(scores@.to_set().contains(score));
    } else {
        scores.insert(at, score);
        let ghost before = old(scores)@;
        let ghost after = scores@;
        assert(after == before.insert(at as int, score));
        assert forall|x: usize| after.to_set().contains(x) <==> before.to_set().insert(
            score,
        ).contains(x) by {
            if before.contains(x) {
                let k = choose|k: int| 0 <= k < before.len() && before[k] == x;
                if k < at {
                    assert(after[k] == x);
                } else {
                    assert(after[k + 1] == x);
                }
            }
            if x == score {
                assert(after[at as int] == x);
            }
            if after.contains(x) {
                let k = choose|k: int| 0 <= k < after.len() && after[k] == x;
                if k < at {
                    assert(before[k] == x);
                } else if k > at {
                    assert(before[k - 1] == x);
                }
            }
        }
        assert(after.to_set() =~= before.to_set().insert(score));
    }
}

/// Copies a list of results.
fn copy_scores(scores: &Vec<usize>) -> (copy: Vec<usize>)
    ensures
        copy@ == scores@,
{
    let mut copy: Vec<usize> = Vec::new();
    let mut i: usize = 0;
    while i < scores.len()
        invariant
            i <= scores.len(),
            copy@ == scores@.take(i as int),
        decreases scores.len() - i,
    {
        copy.push(scores[i]);
        i += 1;
        assert(copy@ =~= scores@.take(i as int));
    }
    assert(scores@.take(scores.len() as int) =~= scores@);
    copy
}

impl View for HistoryLedger {
    type V = Map<(usize, usize), Set<usize>>;

    closed spec fn view(&self) -> Map<(usize, usize), Set<usize>> {
        ledger_from(self.entries@)
    }
}

impl HistoryLedger {
    /// Well-formedness of the stored entries.
    pub closed spec fn wf(&self) -> bool {
        tidy(self.entries@)
    }

    /// A ledger without results.
    pub fn new() -> (ledger: Self)
        ensures
            ledger.wf(),
            ledger@ == Map::<(usize, usize), Set<usize>>::empty(),
    {
        proof {
            lemma_no_entries();
        }
        HistoryLedger { entries: Vec::new() }
    }

    /// Where the entry of a pair of dimensions stands, if there is one.
    fn position(&self, column_count: usize, column_capacity: usize) -> (found: Option<usize>)
        ensures
            found matches Some(at) ==> at < self.entries@.len() && self.entries@[at as int].column_count
                == column_count && self.entries@[at as int].column_capacity == column_capacity,
            found is None ==> forall|i: int|
                0 <= i < self.entries@.len() ==> !(#[trigger] self.entries@[i].column_count
                    == column_count && self.entries@[i].column_capacity == column_capacity),
    {
        let mut at: usize = 0;
        while at < self.entries.len()
            invariant
                at <= self.entries.len(),
                forall|i: int|
                    0 <= i < at ==> !(#[trigger] self.entries@[i].column_count == column_count
                        && self.entries@[i].column_capacity == column_capacity),
            decreases self.entries.len() - at,
        {
            if self.entries[at].column_count == column_count && self.entries[at].column_capacity
                == column_capacity {
                return Some(at);
            }
            at += 1;
        }
        None
    }

    /// Records that a board of the given dimensions was solved in `score`
    /// moves. A result that is already there is not recorded again.
    pub fn record(&mut self, column_count: usize, column_capacity: usize, score: usize)
        requires
            old(self).wf(),
        ensures
            final(self).wf(),
            final(self)@ == recorded(old(self)@, column_count, column_capacity, score),
    {
        let ghost before = self.entries@;
        match self.position(column_count, column_capacity) {
            Some(at) => {
                insert_score(&mut self.entries[at].scores, score);
                proof {
                    assert(self.entries@ == before.update(at as int, self.entries@[at as int]));
                    lemma_update_records(before, at as int, self.entries@[at as int], score);
                }
            },
            None => {
                let mut scores: Vec<usize> = Vec::new();
                scores.push(score);
                let entry = ScoreEntry { column_count, column_capacity, scores };
                proof {
                    assert(entry.scores@ =~= seq![score]);
                    lemma_push_records(before, entry, score);
                }
                self.entries.push(entry);
            },
        }
    }

    /// The results recorded for the given dimensions, in ascending order.
    pub fn query(&self, column_count: usize, column_capacity: usize) -> (ranked: Vec<usize>)
        requires
            self.wf(),
        ensures
            ranked@ == ranking(scores_in(self@, column_count, column_capacity)),
            ascending(ranked@),
            ranked@.to_set() == scores_in(self@, column_count, column_capacity),
    {
        match self.position(column_count, column_capacity) {
            Some(at) => {
                proof {
                    lemma_entry_is_ranking(self.entries@, at as int);
                }
                copy_scores(&self.entries[at].scores)
            },
            None => {
                proof {
                    lemma_absent_is_empty(self.entries@, column_count, column_capacity);
                    assert(Seq::<usize>::empty().to_set() =~= Set::<usize>::empty());
                }
                Vec::new()
            },
        }
    }

    /// The lowest `limit` results recorded for the given dimensions, in
    /// ascending order; all of them where there are no more than `limit`.
    pub fn best(&self, column_count: usize, column_capacity: usize, limit: usize) -> (ranked: Vec<
        usize,
    >)
        requires
            self.wf(),
        ensures
            ({
                let all = ranking(scores_in(self@, column_count, column_capacity));
                ranked@ == if limit < all.len() {
                    all.take(limit as int)
                } else {
                    all
                }
            }),
    {
        let mut ranked = self.query(column_count, column_capacity);
        ranked.truncate(limit);
        proof {
            let all = ranking(scores_in(self@, column_count, column_capacity));
            if limit < all.len() {
                assert(ranked@ =~= all.take(limit as int));
            }
        }
        ranked
    }

    /// The content of the ledger as plain data: one entry for each pair of
    /// dimensions with a result, its results in ascending order.
    pub fn entries(&self) -> (list: Vec<ScoreEntry>)
        requires
            self.wf(),
        ensures
            tidy(list@),
            ledger_from(list@) == self@,
    {
        let mut list: Vec<ScoreEntry> = Vec::new();
        let mut i: usize = 0;
        while i < self.entries.len()
            invariant
                i <= self.entries.len(),
                list@.len() == i,
                forall|k: int|
                    0 <= k < i ==> (#[trigger] list@[k]).column_count
                        == self.entries@[k].column_count && list@[k].column_capacity
                        == self.entries@[k].column_capacity && list@[k].scores@
                        == self.entries@[k].scores@,
            decreases self.entries.len() - i,
        {
            let entry = ScoreEntry {
                column_count: self.entries[i].column_count,
                column_capacity: self.entries[i].column_capacity,
                scores: copy_scores(&self.entries[i].scores),
            };
            list.push(entry);
            i += 1;
        }
        proof {
            lemma_copy_is_same(list@, self.entries@);
        }
        list
    }

    /// The ledger that a list of entries stands for. The list may be in any
    /// order and may repeat dimensions and results.
    pub fn from_entries(entries: &Vec<ScoreEntry>) -> (ledger: Self)
        ensures
            ledger.wf(),
            ledger@ == ledger_from(entries@),
    {
        let mut ledger = HistoryLedger::new();
        proof {
            lemma_read_start(entries@);
        }
        let mut i: usize = 0;
        while i < entries.len()
            invariant
                i <= entries.len(),
                ledger.wf(),
                read_up_to(entries@, i as int, 0, ledger@),
            decreases entries.len() - i,
        {
            let mut j: usize = 0;
            while j < entries[i].scores.len()
                invariant
                    i < entries.len(),
                    j <= entries@[i as int].scores@.len(),
                    ledger.wf(),
                    read_up_to(entries@, i as int, j as int, ledger@),
                decreases entries@[i as int].scores@.len() - j,
            {
                proof {
                    lemma_read_step(entries@, i as int, j as int, ledger@);
                }
                ledger.record(
                    entries[i].column_count,
                    entries[i].column_capacity,
                    entries[i].scores[j],
                );
                j += 1;
            }
            proof {
                lemma_read_next(entries@, i as int, ledger@);
            }
            i += 1;
        }
        proof {
            lemma_read_end(entries@, ledger@);
        }
        ledger
    }
}

} // verus!
