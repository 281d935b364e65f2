//! The model of the ledger: sets of results by dimensions, their ranking,
//! and what recording does to them.

use vstd::prelude::*;
use crate::ledger::ScoreEntry;

verus! {

/// Strictly ascending: every element is smaller than those after it.
pub open spec fn ascending(scores: Seq<usize>) -> bool {
    forall|i: int, j: int| 0 <= i < j < scores.len() ==> scores[i] < scores[j]
}

/// The results of a set in ascending order.
pub open spec fn ranking(scores: Set<usize>) -> Seq<usize> {
    choose|ranked: Seq<usize>| ascending(ranked) && ranked.to_set() == scores
}

/// The results that a ledger holds for a pair of dimensions.
pub open spec fn scores_in(
    ledger: Map<(usize, usize), Set<usize>>,
    column_count: usize,
    column_capacity: usize,
) -> Set<usize> {
    if ledger.dom().contains((column_count, column_capacity)) {
        ledger[(column_count, column_capacity)]
    } else {
        Set::empty()
    }
}

/// The ledger after a result is recorded: the result joins the set of its
/// pair of dimensions, and nothing else changes.
pub open spec fn recorded(
    ledger: Map<(usize, usize), Set<usize>>,
    column_count: usize,
    column_capacity: usize,
    score: usize,
) -> Map<(usize, usize), Set<usize>> {
    ledger.insert(
        (column_count, column_capacity),
        scores_in(ledger, column_count, column_capacity).insert(score),
    )
}

/// The results that a list of entries gives for a pair of dimensions.
pub open spec fn listed(entries: Seq<ScoreEntry>, column_count: usize, column_capacity: usize) -> Set<
    usize,
> {
    Set::new(
        |score: usize|
            exists|i: int, j: int|
                0 <= i < entries.len() && 0 <= j < entries[i].scores@.len()
                    && entries[i].column_count == column_count && entries[i].column_capacity
                    == column_capacity && #[trigger] entries[i].scores@[j] == score,
    )
}

/// The set has an element.
pub open spec fn inhabited(scores: Set<usize>) -> bool {
    exists|score: usize| scores.contains(score)
}

/// The ledger that a list of entries stands for: a pair of dimensions is in
/// it when the list gives it a result, and its set holds every result that
/// the list gives it. Neither the order of the list nor repetitions matter.
pub open spec fn ledger_from(entries: Seq<ScoreEntry>) -> Map<(usize, usize), Set<usize>> {
    Map::new(
        |key: (usize, usize)| inhabited(listed(entries, key.0, key.1)),
        |key: (usize, usize)| listed(entries, key.0, key.1),
    )
}

/// Every entry has a result and is ascending, and no two entries share
/// their dimensions.
pub open spec fn tidy(entries: Seq<ScoreEntry>) -> bool {
    &&& forall|i: int|
        0 <= i < entries.len() ==> (#[trigger] entries[i].scores@).len() > 0 && ascending(
            entries[i].scores@,
        )
    &&& forall|i: int, j: int|
        0 <= i < j < entries.len() ==> !(entries[i].column_count == entries[j].column_count
            && entries[i].column_capacity == entries[j].column_capacity)
}

/// Recording a result a second time changes nothing.
pub proof fn lemma_record_idempotent(
    ledger: Map<(usize, usize), Set<usize>>,
    column_count: usize,
    column_capacity: usize,
    score: usize,
)
    ensures
        recorded(
            recorded(ledger, column_count, column_capacity, score),
            column_count,
            column_capacity,
            score,
        ) == recorded(ledger, column_count, column_capacity, score),
{
    let once = recorded(ledger, column_count, column_capacity, score);
    let twice = recorded(once, column_count, column_capacity, score);
    assert(scores_in(once, column_count, column_capacity).insert(score) =~= scores_in(
        once,
        column_count,
        column_capacity,
    ));
    assert(twice =~= once);
}

/// Recording touches one pair of dimensions only, and never removes a
/// result.
pub proof fn lemma_record_grows(
    ledger: Map<(usize, usize), Set<usize>>,
    column_count: usize,
    column_capacity: usize,
    score: usize,
    other_count: usize,
    other_capacity: usize,
)
    ensures
        scores_in(ledger, other_count, other_capacity).subset_of(
            scores_in(
                recorded(ledger, column_count, column_capacity, score),
                other_count,
                other_capacity,
            ),
        ),
        (other_count, other_capacity) != (column_count, column_capacity) ==> scores_in(
            recorded(ledger, column_count, column_capacity, score),
            other_count,
            other_capacity,
        ) == scores_in(ledger, other_count, other_capacity),
        scores_in(
            recorded(ledger, column_count, column_capacity, score),
            column_count,
            column_capacity,
        ).contains(score),
{
}

/// A set has at most one ascending sequence of its elements.
pub proof fn lemma_ascending_unique(a: Seq<usize>, b: Seq<usize>)
    requires
        ascending(a),
        ascending(b),
        a.to_set() == b.to_set(),
    ensures
        a == b,
    decreases a.len(),
{
    if a.len() == 0 {
        if b.len() > 0 {
            assert(b.to_set().contains(b[0]));
            assert(a.contains(b[0]));
        }
        assert(a =~= b);
    } else {
        assert(a.to_set().contains(a[0]));
        assert(b.contains(a[0]));
        let kb = choose|k: int| 0 <= k < b.len() && b[k] == a[0];
        assert(b.to_set().contains(b[0]));
        assert(a.contains(b[0]));
        let ka = choose|k: int| 0 <= k < a.len() && a[k] == b[0];
        assert(a[0] == b[0]) by {
            if ka > 0 && kb > 0 {
                assert(a[0] < a[ka]);
                assert(b[0] < b[kb]);
            }
        }
        let ta = a.drop_first();
        let tb = b.drop_first();
        assert forall|x: usize| ta.to_set().contains(x) <==> tb.to_set().contains(x) by {
            if ta.contains(x) {
                let k = choose|k: int| 0 <= k < ta.len() && ta[k] == x;
                assert(a[k + 1] == x);
                assert(a[0] < a[k + 1]);
                assert(a.to_set().contains(x));
                assert(b.contains(x));
                let m = choose|m: int| 0 <= m < b.len() && b[m] == x;
                assert(tb[m - 1] == x);
            }
            if tb.contains(x) {
                let k = choose|k: int| 0 <= k < tb.len() && tb[k] == x;
                assert(b[k + 1] == x);
                assert(b[0] < b[k + 1]);
                assert(b.to_set().contains(x));
                assert(a.contains(x));
                let m = choose|m: int| 0 <= m < a.len() && a[m] == x;
                assert(ta[m - 1] == x);
            }
        }
        assert(ta.to_set() =~= tb.to_set());
        assert(ascending(ta)) by {
            assert forall|i: int, j: int| 0 <= i < j < ta.len() implies ta[i] < ta[j] by {
                assert(a[i + 1] < a[j + 1]);
            }
        }
        assert(ascending(tb)) by {
            assert forall|i: int, j: int| 0 <= i < j < tb.len() implies tb[i] < tb[j] by {
                assert(b[i + 1] < b[j + 1]);
            }
        }
        lemma_ascending_unique(ta, tb);
        assert(a =~= seq![a[0]] + ta);
        assert(b =~= seq![b[0]] + tb);
    }
}

/// An ascending sequence is the ranking of its elements.
pub proof fn lemma_ranking_is(ranked: Seq<usize>)
    requires
        ascending(ranked),
    ensures
        ranking(ranked.to_set()) == ranked,
{
    let chosen = ranking(ranked.to_set());
    lemma_ascending_unique(chosen, ranked);
}

/// Every pair of dimensions in a ledger has a result.
spec fn lists_results(ledger: Map<(usize, usize), Set<usize>>) -> bool {
    forall|key: (usize, usize)| ledger.dom().contains(key) ==> inhabited(#[trigger] ledger[key])
}

/// Recording keeps a ledger free of pairs without a result.
proof fn lemma_recorded_lists_results(
    ledger: Map<(usize, usize), Set<usize>>,
    column_count: usize,
    column_capacity: usize,
    score: usize,
)
    requires
        lists_results(ledger),
    ensures
        lists_results(recorded(ledger, column_count, column_capacity, score)),
{
    let after = recorded(ledger, column_count, column_capacity, score);
    assert forall|key: (usize, usize)| after.dom().contains(key) implies inhabited(
        #[trigger] after[key],
    ) by {
        if key == (column_count, column_capacity) {
            assert(after[key].contains(score));
        } else {
            assert(inhabited(ledger[key]));
        }
    }
}

/// A ledger is determined by the results that it gives each pair of
/// dimensions, provided that it lists no pair without a result.
proof fn lemma_same_results(entries: Seq<ScoreEntry>, ledger: Map<(usize, usize), Set<usize>>)
    requires
        forall|key: (usize, usize)|
            listed(entries, key.0, key.1) == scores_in(ledger, key.0, key.1),
        lists_results(ledger),
    ensures
        ledger_from(entries) == ledger,
{
    let made = ledger_from(entries);
    assert forall|key: (usize, usize)| made.dom().contains(key) <==> ledger.dom().contains(
        key,
    ) by {
        assert(listed(entries, key.0, key.1) == scores_in(ledger, key.0, key.1));
        if ledger.dom().contains(key) {
            assert(inhabited(ledger[key]));
        }
    }
    assert forall|key: (usize, usize)| made.dom().contains(key) implies made[key] == ledger[key] by {
        assert(listed(entries, key.0, key.1) == scores_in(ledger, key.0, key.1));
    }
    assert(made =~= ledger);
}

/// Replacing an entry by one of the same dimensions with one more result
/// adds that result to the pair's set and changes no other.
proof fn lemma_listed_update(
    entries: Seq<ScoreEntry>,
    at: int,
    entry: ScoreEntry,
    score: usize,
    column_count: usize,
    column_capacity: usize,
)
    requires
        0 <= at < entries.len(),
        entry.column_count == entries[at].column_count,
        entry.column_capacity == entries[at].column_capacity,
        entry.scores@.to_set() == entries[at].scores@.to_set().insert(score),
    ensures
        listed(entries.update(at, entry), column_count, column_capacity) == if column_count
            == entry.column_count && column_capacity == entry.column_capacity {
            listed(entries, column_count, column_capacity).insert(score)
        } else {
            listed(entries, column_count, column_capacity)
        },
{
    let after = entries.update(at, entry);
    let same = column_count == entry.column_count && column_capacity == entry.column_capacity;
    let before_set = listed(entries, column_count, column_capacity);
    let after_set = listed(after, column_count, column_capacity);
    assert forall|x: usize| after_set.contains(x) <==> (before_set.contains(x) || (same && x
        == score)) by {
        if after_set.contains(x) {
            let (i, j) = choose|i: int, j: int|
                0 <= i < after.len() && 0 <= j < after[i].scores@.len() && after[i].column_count
                    == column_count && after[i].column_capacity == column_capacity
                    && #[trigger] after[i].scores@[j] == x;
            if i == at {
                assert(entry.scores@.contains(x));
                assert(entry.scores@.to_set().contains(x));
                if x != score {
                    assert(entries[at].scores@.contains(x));
                    let m = choose|m: int|
                        0 <= m < entries[at].scores@.len() && entries[at].scores@[m] == x;
                    assert(entries[at].scores@[m] == x);
                }
            } else {
                assert(entries[i].scores@[j] == x);
            }
        }
        if before_set.contains(x) {
            let (i, j) = choose|i: int, j: int|
                0 <= i < entries.len() && 0 <= j < entries[i].scores@.len()
                    && entries[i].column_count == column_count && entries[i].column_capacity
                    == column_capacity && #[trigger] entries[i].scores@[j] == x;
            if i == at {
                assert(entries[at].scores@.contains(x));
                assert(entry.scores@.to_set().contains(x));
                assert(entry.scores@.contains(x));
                let m = choose|m: int| 0 <= m < entry.scores@.len() && entry.scores@[m] == x;
                assert(after[at].scores@[m] == x);
            } else {
                assert(after[i].scores@[j] == x);
            }
        }
        if same && x == score {
            assert(entry.scores@.to_set().contains(x));
            assert(entry.scores@.contains(x));
            let m = choose|m: int| 0 <= m < entry.scores@.len() && entry.scores@[m] == x;
            assert(after[at].scores@[m] == x);
        }
    }
    if same {
        assert(after_set =~= before_set.insert(score));
    } else {
        assert(after_set =~= before_set);
    }
}

/// Appending an entry adds its results to the set of its dimensions and
/// changes no other.
proof fn lemma_listed_push(
    entries: Seq<ScoreEntry>,
    entry: ScoreEntry,
    column_count: usize,
    column_capacity: usize,
)
    ensures
        listed(entries.push(entry), column_count, column_capacity) == if column_count
            == entry.column_count && column_capacity == entry.column_capacity {
            listed(entries, column_count, column_capacity).union(entry.scores@.to_set())
        } else {
            listed(entries, column_count, column_capacity)
        },
{
    let after = entries.push(entry);
    let same = column_count == entry.column_count && column_capacity == entry.column_capacity;
    let before_set = listed(entries, column_count, column_capacity);
    let after_set = listed(after, column_count, column_capacity);
    assert forall|x: usize| after_set.contains(x) <==> (before_set.contains(x) || (same
        && entry.scores@.to_set().contains(x))) by {
        if after_set.contains(x) {
            let (i, j) = choose|i: int, j: int|
                0 <= i < after.len() && 0 <= j < after[i].scores@.len() && after[i].column_count
                    == column_count && after[i].column_capacity == column_capacity
                    && #[trigger] after[i].scores@[j] == x;
            if i == entries.len() {
                assert(entry.scores@.contains(x));
            } else {
                assert(entries[i].scores@[j] == x);
            }
        }
        if before_set.contains(x) {
            let (i, j) = choose|i: int, j: int|
                0 <= i < entries.len() && 0 <= j < entries[i].scores@.len()
                    && entries[i].column_count == column_count && entries[i].column_capacity
                    == column_capacity && #[trigger] entries[i].scores@[j] == x;
            assert(after[i].scores@[j] == x);
        }
        if same && entry.scores@.to_set().contains(x) {
            assert(entry.scores@.contains(x));
            let m = choose|m: int| 0 <= m < entry.scores@.len() && entry.scores@[m] == x;
            assert(after[entries.len() as int].scores@[m] == x);
        }
    }
    if same {
        assert(after_set =~= before_set.union(entry.scores@.to_set()));
    } else {
        assert(after_set =~= before_set);
    }
}

/// In a tidy list, the entry of a pair of dimensions holds all its results.
proof fn lemma_listed_entry(entries: Seq<ScoreEntry>, at: int)
    requires
        tidy(entries),
        0 <= at < entries.len(),
    ensures
        listed(entries, entries[at].column_count, entries[at].column_capacity)
            == entries[at].scores@.to_set(),
{
    let all = listed(entries, entries[at].column_count, entries[at].column_capacity);
    let own = entries[at].scores@;
    assert forall|x: usize| all.contains(x) <==> own.to_set().contains(x) by {
        if all.contains(x) {
            let (i, j) = choose|i: int, j: int|
                0 <= i < entries.len() && 0 <= j < entries[i].scores@.len()
                    && entries[i].column_count == entries[at].column_count
                    && entries[i].column_capacity == entries[at].column_capacity
                    && #[trigger] entries[i].scores@[j] == x;
            assert(i == at);
            assert(own.contains(x));
        }
        if own.contains(x) {
            let m = choose|m: int| 0 <= m < own.len() && own[m] == x;
            assert(entries[at].scores@[m] == x);
        }
    }
    assert(all =~= own.to_set());
}

/// A list without an entry for a pair of dimensions gives it no result.
proof fn lemma_listed_absent(entries: Seq<ScoreEntry>, column_count: usize, column_capacity: usize)
    requires
        forall|i: int|
            0 <= i < entries.len() ==> !(#[trigger] entries[i].column_count == column_count
                && entries[i].column_capacity == column_capacity),
    ensures
        listed(entries, column_count, column_capacity) == Set::<usize>::empty(),
{
    assert(listed(entries, column_count, column_capacity) =~= Set::<usize>::empty());
}

/// The results that the part of a list before position `j` of entry `i`
/// gives for a pair of dimensions.
spec fn listed_before(
    entries: Seq<ScoreEntry>,
    i: int,
    j: int,
    column_count: usize,
    column_capacity: usize,
) -> Set<usize> {
    Set::new(
        |score: usize|
            exists|a: int, b: int|
                0 <= a < entries.len() && 0 <= b < entries[a].scores@.len() && (a < i || (a == i
                    && b < j)) && entries[a].column_count == column_count
                    && entries[a].column_capacity == column_capacity
                    && #[trigger] entries[a].scores@[b] == score,
    )
}

/// Going one result further adds that result to the set of its dimensions.
proof fn lemma_listed_before_step(
    entries: Seq<ScoreEntry>,
    i: int,
    j: int,
    column_count: usize,
    column_capacity: usize,
)
    requires
        0 <= i < entries.len(),
        0 <= j < entries[i].scores@.len(),
    ensures
        listed_before(entries, i, j + 1, column_count, column_capacity) == if entries[i].column_count
            == column_count && entries[i].column_capacity == column_capacity {
            listed_before(entries, i, j, column_count, column_capacity).insert(entries[i].scores@[j])
        } else {
            listed_before(entries, i, j, column_count, column_capacity)
        },
{
    let same = entries[i].column_count == column_count && entries[i].column_capacity
        == column_capacity;
    let now = listed_before(entries, i, j + 1, column_count, column_capacity);
    let was = listed_before(entries, i, j, column_count, column_capacity);
    let added = entries[i].scores@[j];
    assert forall|x: usize| now.contains(x) <==> (was.contains(x) || (same && x == added)) by {
        if was.contains(x) {
            let (a, b) = choose|a: int, b: int|
                0 <= a < entries.len() && 0 <= b < entries[a].scores@.len() && (a < i || (a == i
                    && b < j)) && entries[a].column_count == column_count
                    && entries[a].column_capacity == column_capacity
                    && #[trigger] entries[a].scores@[b] == x;
            assert(entries[a].scores@[b] == x);
        }
        if same && x == added {
            assert(entries[i].scores@[j] == x);
        }
    }
    if same {
        assert(now =~= was.insert(added));
    } else {
        assert(now =~= was);
    }
}

/// Lists that agree entry by entry give the same results.
proof fn lemma_listed_alike(
    a: Seq<ScoreEntry>,
    b: Seq<ScoreEntry>,
    column_count: usize,
    column_capacity: usize,
)
    requires
        a.len() == b.len(),
        forall|k: int|
            0 <= k < a.len() ==> (#[trigger] a[k]).column_count == b[k].column_count
                && a[k].column_capacity == b[k].column_capacity && a[k].scores@ == b[k].scores@,
    ensures
        listed(a, column_count, column_capacity) == listed(b, column_count, column_capacity),
        tidy(b) ==> tidy(a),
{
    let in_a = listed(a, column_count, column_capacity);
    let in_b = listed(b, column_count, column_capacity);
    assert forall|x: usize| in_a.contains(x) <==> in_b.contains(x) by {
        if in_a.contains(x) {
            let (i, j) = choose|i: int, j: int|
                0 <= i < a.len() && 0 <= j < a[i].scores@.len() && a[i].column_count
                    == column_count && a[i].column_capacity == column_capacity
                    && #[trigger] a[i].scores@[j] == x;
            assert(b[i].scores@[j] == x);
        }
        if in_b.contains(x) {
            let (i, j) = choose|i: int, j: int|
                0 <= i < b.len() && 0 <= j < b[i].scores@.len() && b[i].column_count
                    == column_count && b[i].column_capacity == column_capacity
                    && #[trigger] b[i].scores@[j] == x;
            assert(a[i].scores@[j] == x);
        }
    }
    assert(in_a =~= in_b);
    if tidy(b) {
        assert forall|i: int| 0 <= i < a.len() implies ascending(#[trigger] a[i].scores@) by {
            assert(ascending(b[i].scores@));
        }
        assert forall|i: int, j: int| 0 <= i < j < a.len() implies !(a[i].column_count
            == a[j].column_count && a[i].column_capacity == a[j].column_capacity) by {
            assert(a[i].column_count == b[i].column_count);
            assert(a[j].column_count == b[j].column_count);
        }
    }
}

/// A list without entries stands for the empty ledger.
pub proof fn lemma_no_entries()
    ensures
        ledger_from(Seq::<ScoreEntry>::empty()) == Map::<(usize, usize), Set<usize>>::empty(),
{
    let entries = Seq::<ScoreEntry>::empty();
    assert forall|key: (usize, usize)| !ledger_from(entries).dom().contains(key) by {
        lemma_listed_absent(entries, key.0, key.1);
    }
    assert(ledger_from(entries) =~= Map::<(usize, usize), Set<usize>>::empty());
}

/// In a tidy list, the entry of a pair of dimensions is the ranking of the
/// pair's results.
pub proof fn lemma_entry_is_ranking(entries: Seq<ScoreEntry>, at: int)
    requires
        tidy(entries),
        0 <= at < entries.len(),
    ensures
        entries[at].scores@.to_set() == scores_in(
            ledger_from(entries),
            entries[at].column_count,
            entries[at].column_capacity,
        ),
        entries[at].scores@ == ranking(
            scores_in(ledger_from(entries), entries[at].column_count, entries[at].column_capacity),
        ),
{
    let own = entries[at].scores@;
    let all = listed(entries, entries[at].column_count, entries[at].column_capacity);
    lemma_listed_entry(entries, at);
    lemma_ranking_is(own);
    if !inhabited(all) {
        assert(all =~= Set::<usize>::empty());
    }
}

/// A list without an entry for a pair of dimensions gives the pair no
/// result, and the ranking of no results is empty.
pub proof fn lemma_absent_is_empty(
    entries: Seq<ScoreEntry>,
    column_count: usize,
    column_capacity: usize,
)
    requires
        forall|i: int|
            0 <= i < entries.len() ==> !(#[trigger] entries[i].column_count == column_count
                && entries[i].column_capacity == column_capacity),
    ensures
        scores_in(ledger_from(entries), column_count, column_capacity) == Set::<usize>::empty(),
        ranking(Set::<usize>::empty()) == Seq::<usize>::empty(),
{
    lemma_listed_absent(entries, column_count, column_capacity);
    assert(Seq::<usize>::empty().to_set() =~= Set::<usize>::empty());
    lemma_ranking_is(Seq::<usize>::empty());
}

/// Putting a result into the entry of its dimensions records it.
pub proof fn lemma_update_records(
    entries: Seq<ScoreEntry>,
    at: int,
    entry: ScoreEntry,
    score: usize,
)
    requires
        tidy(entries),
        0 <= at < entries.len(),
        entry.column_count == entries[at].column_count,
        entry.column_capacity == entries[at].column_capacity,
        ascending(entry.scores@),
        entry.scores@.to_set() == entries[at].scores@.to_set().insert(score),
    ensures
        tidy(entries.update(at, entry)),
        ledger_from(entries.update(at, entry)) == recorded(
            ledger_from(entries),
            entry.column_count,
            entry.column_capacity,
            score,
        ),
{
    let after = entries.update(at, entry);
    let target = recorded(ledger_from(entries), entry.column_count, entry.column_capacity, score);
    assert(entry.scores@.len() > 0) by {
        assert(entry.scores@.to_set().contains(score));
        assert(entry.scores@.contains(score));
    }
    assert forall|key: (usize, usize)| listed(after, key.0, key.1) == scores_in(
        target,
        key.0,
        key.1,
    ) by {
        lemma_listed_update(entries, at, entry, score, key.0, key.1);
        if !inhabited(listed(entries, key.0, key.1)) {
            assert(listed(entries, key.0, key.1) =~= Set::<usize>::empty());
        }
    }
    lemma_recorded_lists_results(
        ledger_from(entries),
        entry.column_count,
        entry.column_capacity,
        score,
    );
    lemma_same_results(after, target);
}

/// Appending an entry with one result, for dimensions that have no entry
/// yet, records that result.
pub proof fn lemma_push_records(entries: Seq<ScoreEntry>, entry: ScoreEntry, score: usize)
    requires
        tidy(entries),
        forall|i: int|
            0 <= i < entries.len() ==> !(#[trigger] entries[i].column_count == entry.column_count
                && entries[i].column_capacity == entry.column_capacity),
        entry.scores@ == seq![score],
    ensures
        tidy(entries.push(entry)),
        ledger_from(entries.push(entry)) == recorded(
            ledger_from(entries),
            entry.column_count,
            entry.column_capacity,
            score,
        ),
{
    let after = entries.push(entry);
    let target = recorded(ledger_from(entries), entry.column_count, entry.column_capacity, score);
    assert(entry.scores@.to_set() =~= Set::<usize>::empty().insert(score)) by {
        assert(entry.scores@[0] == score);
    }
    assert forall|key: (usize, usize)| listed(after, key.0, key.1) == scores_in(
        target,
        key.0,
        key.1,
    ) by {
        lemma_listed_push(entries, entry, key.0, key.1);
        if key.0 == entry.column_count && key.1 == entry.column_capacity {
            lemma_listed_absent(entries, key.0, key.1);
            assert(Set::<usize>::empty().union(entry.scores@.to_set()) =~= Set::<usize>::empty().insert(
                score,
            ));
        } else if !inhabited(listed(entries, key.0, key.1)) {
            assert(listed(entries, key.0, key.1) =~= Set::<usize>::empty());
        }
    }
    lemma_recorded_lists_results(
        ledger_from(entries),
        entry.column_count,
        entry.column_capacity,
        score,
    );
    lemma_same_results(after, target);
}

/// A copy of a list, entry by entry, stands for the same ledger and is
/// tidy if the list is.
pub proof fn lemma_copy_is_same(copy: Seq<ScoreEntry>, entries: Seq<ScoreEntry>)
    requires
        copy.len() == entries.len(),
        forall|k: int|
            0 <= k < copy.len() ==> (#[trigger] copy[k]).column_count == entries[k].column_count
                && copy[k].column_capacity == entries[k].column_capacity && copy[k].scores@
                == entries[k].scores@,
    ensures
        ledger_from(copy) == ledger_from(entries),
        tidy(entries) ==> tidy(copy),
{
    assert forall|key: (usize, usize)| listed(copy, key.0, key.1) == listed(
        entries,
        key.0,
        key.1,
    ) by {
        lemma_listed_alike(copy, entries, key.0, key.1);
    }
    lemma_listed_alike(copy, entries, 0, 0);
    assert(ledger_from(copy) =~= ledger_from(entries));
}

/// While a list is read result by result into a ledger: the ledger holds
/// what the part of the list before result `j` of entry `i` gives.
pub closed spec fn read_up_to(
    entries: Seq<ScoreEntry>,
    i: int,
    j: int,
    ledger: Map<(usize, usize), Set<usize>>,
) -> bool {
    &&& lists_results(ledger)
    &&& forall|key: (usize, usize)|
        listed_before(entries, i, j, key.0, key.1) == scores_in(ledger, key.0, key.1)
}

/// Before anything is read the ledger is empty.
pub proof fn lemma_read_start(entries: Seq<ScoreEntry>)
    ensures
        read_up_to(entries, 0, 0, Map::<(usize, usize), Set<usize>>::empty()),
{
    assert forall|key: (usize, usize)|
        listed_before(entries, 0, 0, key.0, key.1) == Set::<usize>::empty() by {
        assert(listed_before(entries, 0, 0, key.0, key.1) =~= Set::<usize>::empty());
    }
}

/// Reading one result records it.
pub proof fn lemma_read_step(
    entries: Seq<ScoreEntry>,
    i: int,
    j: int,
    ledger: Map<(usize, usize), Set<usize>>,
)
    requires
        0 <= i < entries.len(),
        0 <= j < entries[i].scores@.len(),
        read_up_to(entries, i, j, ledger),
    ensures
        read_up_to(
            entries,
            i,
            j + 1,
            recorded(
                ledger,
                entries[i].column_count,
                entries[i].column_capacity,
                entries[i].scores@[j],
            ),
        ),
{
    let after = recorded(
        ledger,
        entries[i].column_count,
        entries[i].column_capacity,
        entries[i].scores@[j],
    );
    lemma_recorded_lists_results(
        ledger,
        entries[i].column_count,
        entries[i].column_capacity,
        entries[i].scores@[j],
    );
    assert forall|key: (usize, usize)|
        listed_before(entries, i, j + 1, key.0, key.1) == scores_in(after, key.0, key.1) by {
        lemma_listed_before_step(entries, i, j, key.0, key.1);
        assert(listed_before(entries, i, j, key.0, key.1) == scores_in(ledger, key.0, key.1));
    }
}

/// After the last result of an entry comes the first of the next.
pub proof fn lemma_read_next(
    entries: Seq<ScoreEntry>,
    i: int,
    ledger: Map<(usize, usize), Set<usize>>,
)
    requires
        0 <= i < entries.len(),
        read_up_to(entries, i, entries[i].scores@.len() as int, ledger),
    ensures
        read_up_to(entries, i + 1, 0, ledger),
{
    assert forall|key: (usize, usize)|
        listed_before(entries, i + 1, 0, key.0, key.1) == scores_in(ledger, key.0, key.1) by {
        assert(listed_before(entries, i + 1, 0, key.0, key.1) =~= listed_before(
            entries,
            i,
            entries[i].scores@.len() as int,
            key.0,
            key.1,
        ));
    }
}

/// When all is read, the ledger is the one that the list stands for.
pub proof fn lemma_read_end(entries: Seq<ScoreEntry>, ledger: Map<(usize, usize), Set<usize>>)
    requires
        read_up_to(entries, entries.len() as int, 0, ledger),
    ensures
        ledger_from(entries) == ledger,
{
    assert forall|key: (usize, usize)| listed(entries, key.0, key.1) == scores_in(
        ledger,
        key.0,
        key.1,
    ) by {
        assert(listed(entries, key.0, key.1) =~= listed_before(
            entries,
            entries.len() as int,
            0,
            key.0,
            key.1,
        ));
    }
    lemma_same_results(entries, ledger);
}

} // verus!
