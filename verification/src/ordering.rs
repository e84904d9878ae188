use vstd::prelude::*;
use crate::moves::Move;

verus! {

/// A move with the score that it is ordered by.
#[derive(Clone, Copy, Debug)]
pub struct RootEntry {
    pub mv: Move,
    pub score: i32,
}

/// A list in descending order of score with one more entry, which goes
/// behind the entries that score as much as it does or more.
pub open spec fn insert_sorted(sorted: Seq<RootEntry>, e: RootEntry) -> Seq<RootEntry>
    decreases sorted.len(),
{
    if sorted.len() == 0 {
        seq![e]
    } else if sorted.last().score >= e.score {
        sorted.push(e)
    } else {
        insert_sorted(sorted.drop_last(), e).push(sorted.last())
    }
}

/// The entries in descending order of score; entries of equal score keep
/// the order in which they came.
pub open spec fn stable_sorted(entries: Seq<RootEntry>) -> Seq<RootEntry>
    decreases entries.len(),
{
    if entries.len() == 0 {
        Seq::empty()
    } else {
        insert_sorted(stable_sorted(entries.drop_last()), entries.last())
    }
}

/// Whether the scores of a list never rise.
pub open spec fn descending(entries: Seq<RootEntry>) -> bool {
    forall|i: int, j: int| 0 <= i < j < entries.len() ==> entries[i].score >= entries[j].score
}

/// Whether `entries[i]` scores highest, and is the first entry that does.
pub open spec fn is_first_best(entries: Seq<RootEntry>, i: int) -> bool {
    &&& 0 <= i < entries.len()
    &&& forall|j: int| 0 <= j < entries.len() ==> entries[j].score <= entries[i].score
    &&& forall|j: int| 0 <= j < i ==> entries[j].score < entries[i].score
}

/// Where an entry goes into a sorted list: behind the last entry that
/// scores as much or more.
proof fn lemma_insert_position(sorted: Seq<RootEntry>, e: RootEntry, pos: int)
    requires
        0 <= pos <= sorted.len(),
        pos > 0 ==> sorted[pos - 1].score >= e.score,
        forall|j: int| pos <= j < sorted.len() ==> sorted[j].score < e.score,
    ensures
        sorted.insert(pos, e) == insert_sorted(sorted, e),
    decreases sorted.len() - pos,
{
    if sorted.len() == 0 {
        assert(sorted.insert(pos, e) =~= seq![e]);
    } else if pos == sorted.len() {
        assert(sorted.insert(pos, e) =~= sorted.push(e));
    } else {
        lemma_insert_position(sorted.drop_last(), e, pos);
        assert(sorted.insert(pos, e) =~= sorted.drop_last().insert(pos, e).push(sorted.last()));
    }
}

/// Inserting keeps the entries, adds the new one, and keeps the order descending.
pub proof fn lemma_insert_sorted(sorted: Seq<RootEntry>, e: RootEntry)
    requires
        descending(sorted),
    ensures
        descending(insert_sorted(sorted, e)),
        insert_sorted(sorted, e).len() == sorted.len() + 1,
        forall|x: RootEntry| #[trigger]
            insert_sorted(sorted, e).contains(x) <==> sorted.contains(x) || x == e,
        insert_sorted(sorted, e).to_multiset() == sorted.to_multiset().insert(e),
        insert_sorted(sorted, e)[0] == if sorted.len() > 0 && sorted[0].score >= e.score {
            sorted[0]
        } else {
            e
        },
    decreases sorted.len(),
{
    broadcast use vstd::seq_lib::lemma_seq_contains_after_push;
    broadcast use vstd::seq_lib::group_to_multiset_ensures;

    let r = insert_sorted(sorted, e);
    if sorted.len() == 0 {
        assert(sorted =~= Seq::<RootEntry>::empty());
        assert(r =~= sorted.push(e));
    } else if sorted.last().score >= e.score {
    } else {
        let rest = sorted.drop_last();
        let last = sorted.last();
        lemma_insert_sorted(rest, e);
        let inner = insert_sorted(rest, e);
        assert(sorted =~= rest.push(last));
        assert forall|i: int, j: int| 0 <= i < j < r.len() implies r[i].score >= r[j].score by {
            if j == r.len() - 1 {
                assert(inner.contains(inner[i]));
                if inner[i] != e {
                    assert(rest.contains(inner[i]));
                    let k = choose|k: int| 0 <= k < rest.len() && rest[k] == inner[i];
                    assert(sorted[k].score >= sorted[sorted.len() - 1].score);
                }
            }
        }
        assert forall|x: RootEntry| #[trigger] r.contains(x) <==> sorted.contains(x) || x == e by {
            assert(sorted.contains(x) <==> rest.contains(x) || x == last);
        }
        assert(rest.to_multiset().insert(e).insert(last) =~= rest.to_multiset().insert(
            last,
        ).insert(e));
    }
}

/// Sorting keeps the entries and puts them in descending order.
pub proof fn lemma_stable_sorted(entries: Seq<RootEntry>)
    ensures
        descending(stable_sorted(entries)),
        stable_sorted(entries).len() == entries.len(),
        forall|x: RootEntry| #[trigger] stable_sorted(entries).contains(x) <==> entries.contains(x),
        stable_sorted(entries).to_multiset() == entries.to_multiset(),
    decreases entries.len(),
{
    broadcast use vstd::seq_lib::lemma_seq_contains_after_push;
    broadcast use vstd::seq_lib::group_to_multiset_ensures;

    if entries.len() == 0 {
        assert(entries =~= Seq::<RootEntry>::empty());
    } else {
        let rest = entries.drop_last();
        lemma_stable_sorted(rest);
        lemma_insert_sorted(stable_sorted(rest), entries.last());
        assert(entries =~= rest.push(entries.last()));
    }
}

/// The head of the sorted list is the first of the entries that score
/// highest: among moves that tie for the best score, the one that came first
/// stays first.
pub proof fn lemma_first_best_leads(entries: Seq<RootEntry>) -> (i: int)
    requires
        entries.len() > 0,
    ensures
        is_first_best(entries, i),
        stable_sorted(entries)[0] == entries[i],
    decreases entries.len(),
{
    let rest = entries.drop_last();
    let last = entries.last();
    lemma_stable_sorted(rest);
    lemma_insert_sorted(stable_sorted(rest), last);
    assert(stable_sorted(entries) == insert_sorted(stable_sorted(rest), last));
    if rest.len() == 0 {
        assert(stable_sorted(rest) =~= Seq::<RootEntry>::empty());
        assert(is_first_best(entries, 0));
        0
    } else {
        let k = lemma_first_best_leads(rest);
        assert(forall|j: int| 0 <= j < rest.len() ==> rest[j] == entries[j]);
        if stable_sorted(rest)[0].score >= last.score {
            assert(is_first_best(entries, k));
            k
        } else {
            assert(is_first_best(entries, entries.len() - 1));
            entries.len() - 1
        }
    }
}

/// Sorts entries in descending order of score, keeping the order of
/// entries that score the same.
pub fn sort_entries(entries: &Vec<RootEntry>) -> (sorted: Vec<RootEntry>)
    ensures
        sorted@ == stable_sorted(entries@),
{
    let mut out: Vec<RootEntry> = Vec::new();
    let mut i: usize = 0;
    proof {
        assert(entries@.take(0) =~= Seq::<RootEntry>::empty());
    }
    while i < entries.len()
        invariant
            i <= entries.len(),
            out@ == stable_sorted(entries@.take(i as int)),
            out@.len() == i,
        decreases entries.len() - i,
    {
        let e = entries[i];
        let mut pos: usize = out.len();
        while pos > 0 && out[pos - 1].score < e.score
            invariant
                pos <= out.len(),
                forall|j: int| pos <= j < out@.len() ==> out@[j].score < e.score,
            decreases pos,
        {
            pos -= 1;
        }
        proof {
            lemma_insert_position(out@, e, pos as int);
            assert(entries@.take(i as int + 1).drop_last() =~= entries@.take(i as int));
            out@.insert_ensures(pos as int, e);
        }
        out.insert(pos, e);
        i += 1;
    }
    proof {
        assert(entries@.take(entries@.len() as int) =~= entries@);
    }
    out
}

} // verus!
