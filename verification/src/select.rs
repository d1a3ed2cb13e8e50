//! Choosing the best of a row of ranked candidates.

use vstd::prelude::*;

verus! {

/// The rank of a candidate: a primary measure and a tie-breaker, smaller
/// being better. A slot that holds `None` is no candidate.
pub type Rank = Option<(int, int)>;

/// Rank `a` is strictly better than rank `b`.
pub open spec fn rank_before(a: (int, int), b: (int, int)) -> bool {
    a.0 < b.0 || (a.0 == b.0 && a.1 < b.1)
}

/// Slot `i` holds a candidate that no candidate beats, and it is the first
/// such slot.
pub open spec fn is_best(ranks: Seq<Rank>, i: int) -> bool {
    &&& 0 <= i < ranks.len()
    &&& ranks[i] is Some
    &&& forall|j: int|
        0 <= j < ranks.len() && (#[trigger] ranks[j]) is Some ==> !rank_before(
            ranks[j]->0,
            ranks[i]->0,
        )
    &&& forall|j: int|
        0 <= j < i && (#[trigger] ranks[j]) is Some ==> rank_before(ranks[i]->0, ranks[j]->0)
}

/// The slot of the best candidate; `None` where there is no candidate.
pub open spec fn best(ranks: Seq<Rank>) -> Option<int> {
    if exists|i: int| is_best(ranks, i) {
        Some(choose|i: int| is_best(ranks, i))
    } else {
        None
    }
}

/// The best slot is unique.
pub proof fn lemma_best_unique(ranks: Seq<Rank>, i: int)
    requires
        is_best(ranks, i),
    ensures
        best(ranks) == Some(i),
{
    let c = choose|c: int| is_best(ranks, c);
    assert(is_best(ranks, c));
    if c < i {
        assert(ranks[c] is Some);
        assert(rank_before(ranks[i]->0, ranks[c]->0));
        assert(!rank_before(ranks[i]->0, ranks[c]->0));
    } else if i < c {
        assert(ranks[i] is Some);
        assert(rank_before(ranks[c]->0, ranks[i]->0));
        assert(!rank_before(ranks[c]->0, ranks[i]->0));
    }
}

/// A row without candidates has no best slot.
pub proof fn lemma_best_none(ranks: Seq<Rank>)
    requires
        forall|j: int| 0 <= j < ranks.len() ==> (#[trigger] ranks[j]) is None,
    ensures
        best(ranks) is None,
{
    if exists|i: int| is_best(ranks, i) {
        let c = choose|c: int| is_best(ranks, c);
        assert(ranks[c] is None);
    }
}

/// A row with a candidate has a best slot, and that slot holds a candidate
/// that none beats.
pub proof fn lemma_best_some(ranks: Seq<Rank>, k: int)
    requires
        0 <= k < ranks.len(),
        ranks[k] is Some,
    ensures
        best(ranks) is Some,
        is_best(ranks, best(ranks)->0),
{
    let i = lemma_best_of_prefix(ranks, ranks.len() as int, k);
    assert(ranks.take(ranks.len() as int) =~= ranks);
    lemma_best_unique(ranks, i);
}

/// What the best slot is: there is none exactly when the row holds no
/// candidate; otherwise it is the first slot whose candidate none beats.
pub proof fn lemma_best(ranks: Seq<Rank>)
    ensures
        best(ranks) is None <==> (forall|j: int|
            0 <= j < ranks.len() ==> (#[trigger] ranks[j]) is None),
        best(ranks) matches Some(i) ==> is_best(ranks, i),
{
    if exists|k: int| 0 <= k < ranks.len() && (#[trigger] ranks[k]) is Some {
        let k = choose|k: int| 0 <= k < ranks.len() && (#[trigger] ranks[k]) is Some;
        lemma_best_some(ranks, k);
    } else {
        lemma_best_none(ranks);
    }
}

/// Among the first `n` slots, of which slot `k` holds a candidate, one is
/// best.
proof fn lemma_best_of_prefix(ranks: Seq<Rank>, n: int, k: int) -> (i: int)
    requires
        0 <= k < n <= ranks.len(),
        ranks[k] is Some,
    ensures
        is_best(ranks.take(n), i),
    decreases n,
{
    let row = ranks.take(n);
    let last = n - 1;
    if exists|m: int| 0 <= m < last && (#[trigger] ranks[m]) is Some {
        let m = choose|m: int| 0 <= m < last && (#[trigger] ranks[m]) is Some;
        let p = lemma_best_of_prefix(ranks, last, m);
        let shorter = ranks.take(last);
        assert(forall|j: int| 0 <= j < last ==> shorter[j] == row[j]);
        assert(shorter[p] == row[p]);
        if ranks[last] is Some && rank_before(ranks[last]->0, ranks[p]->0) {
            assert forall|j: int| 0 <= j < row.len() && (#[trigger] row[j]) is Some implies !rank_before(
                row[j]->0,
                row[last]->0,
            ) by {
                if j < last {
                    assert(shorter[j] is Some);
                }
            }
            assert forall|j: int| 0 <= j < last && (#[trigger] row[j]) is Some implies rank_before(
                row[last]->0,
                row[j]->0,
            ) by {
                assert(shorter[j] is Some);
            }
            assert(is_best(row, last));
            last
        } else {
            assert forall|j: int| 0 <= j < row.len() && (#[trigger] row[j]) is Some implies !rank_before(
                row[j]->0,
                row[p]->0,
            ) by {
                if j < last {
                    assert(shorter[j] is Some);
                }
            }
            assert forall|j: int| 0 <= j < p && (#[trigger] row[j]) is Some implies rank_before(
                row[p]->0,
                row[j]->0,
            ) by {
                assert(shorter[j] is Some);
            }
            assert(is_best(row, p));
            p
        }
    } else {
        assert(k == last);
        assert forall|j: int| 0 <= j < row.len() && (#[trigger] row[j]) is Some implies j == last by {
            if j < last {
                assert(ranks[j] is Some);
            }
        }
        assert(is_best(row, last));
        last
    }
}

/// The mathematical value of a machine rank.
pub open spec fn rank_view(r: Option<(i128, i128)>) -> Rank {
    match r {
        Some((a, b)) => Some((a as int, b as int)),
        None => None,
    }
}

/// The mathematical values of a row of machine ranks.
pub open spec fn ranks_view(ranks: Seq<Option<(i128, i128)>>) -> Seq<Rank> {
    Seq::new(ranks.len(), |i: int| rank_view(ranks[i]))
}

/// The slot of the best candidate of the row.
pub fn best_index(ranks: &Vec<Option<(i128, i128)>>) -> (slot: Option<usize>)
    ensures
        slot is Some ==> best(ranks_view(ranks@)) == Some(slot->0 as int),
        slot is None ==> best(ranks_view(ranks@)) is None,
        slot is Some ==> slot->0 < ranks.len() && ranks[slot->0 as int] is Some,
        slot is None ==> forall|j: int| 0 <= j < ranks.len() ==> (#[trigger] ranks[j]) is None,
{
    let ghost row = ranks_view(ranks@);
    let mut slot: Option<usize> = None;
    let mut i: usize = 0;
    while i < ranks.len()
        invariant
            0 <= i <= ranks.len(),
            row == ranks_view(ranks@),
            slot is None ==> forall|j: int| 0 <= j < i ==> (#[trigger] row[j]) is None,
            slot is Some ==> is_best(row.take(i as int), slot->0 as int),
        decreases ranks.len() - i,
    {
        let ghost before = row.take(i as int);
        let ghost after = row.take(i + 1);
        assert(forall|j: int| 0 <= j < i ==> before[j] == after[j]);
        assert(after[i as int] == rank_view(ranks[i as int]));
        match ranks[i] {
            None => {
                proof {
                    if slot is Some {
                        let s = slot->0 as int;
                        assert forall|j: int|
                            0 <= j < after.len() && (#[trigger] after[j]) is Some implies !rank_before(
                            after[j]->0,
                            after[s]->0,
                        ) by {
                            assert(before[j] is Some);
                        }
                        assert forall|j: int|
                            0 <= j < s && (#[trigger] after[j]) is Some implies rank_before(
                            after[s]->0,
                            after[j]->0,
                        ) by {
                            assert(before[j] is Some);
                        }
                    }
                }
            },
            Some((key, tie)) => {
                let better: bool = match slot {
                    None => true,
                    Some(s) => {
                        match ranks[s] {
                            None => true,
                            Some((k0, t0)) => key < k0 || (key == k0 && tie < t0),
                        }
                    },
                };
                proof {
                    if slot is Some {
                        let s = slot->0 as int;
                        assert(before[s] == rank_view(ranks[s]));
                        if better {
                            assert forall|j: int|
                                0 <= j < after.len() && (#[trigger] after[j]) is Some implies !rank_before(
                                after[j]->0,
                                after[i as int]->0,
                            ) by {
                                if j < i {
                                    assert(before[j] is Some);
                                }
                            }
                            assert forall|j: int|
                                0 <= j < i && (#[trigger] after[j]) is Some implies rank_before(
                                after[i as int]->0,
                                after[j]->0,
                            ) by {
                                assert(before[j] is Some);
                            }
                        } else {
                            assert forall|j: int|
                                0 <= j < after.len() && (#[trigger] after[j]) is Some implies !rank_before(
                                after[j]->0,
                                after[s]->0,
                            ) by {
                                if j < i {
                                    assert(before[j] is Some);
                                }
                            }
                            assert forall|j: int|
                                0 <= j < s && (#[trigger] after[j]) is Some implies rank_before(
                                after[s]->0,
                                after[j]->0,
                            ) by {
                                assert(before[j] is Some);
                            }
                        }
                    } else {
                        assert forall|j: int|
                            0 <= j < after.len() && (#[trigger] after[j]) is Some implies j == i by {
                            if j < i {
                                assert(row[j] is None);
                            }
                        }
                    }
                }
                if better {
                    slot = Some(i);
                }
            },
        }
        i += 1;
    }
    proof {
        assert(row.take(ranks.len() as int) =~= row);
        if slot is Some {
            lemma_best_unique(row, slot->0 as int);
            assert(row[slot->0 as int] == rank_view(ranks[slot->0 as int]));
        } else {
            lemma_best_none(row);
            assert forall|j: int| 0 <= j < ranks.len() implies (#[trigger] ranks[j]) is None by {
                assert(row[j] is None);
            }
        }
    }
    slot
}

} // verus!
