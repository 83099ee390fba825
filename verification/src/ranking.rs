use vstd::prelude::*;
use crate::distance::{sq_dist, squared_distance};
use crate::models::{entry_views, EntryView, FileResultView, IndexedEntry};

verus! {

/// Entry `a` ranks before entry `b` for `query`: it is nearer, or as near and
/// of lower id.
pub open spec fn precedes(entries: Seq<EntryView>, query: Seq<i32>, a: int, b: int) -> bool {
    let da = sq_dist(entries[a].embedding, query);
    let db = sq_dist(entries[b].embedding, query);
    da < db || (da == db && entries[a].id < entries[b].id)
}

/// The ids of the first `n` entries are pairwise distinct.
pub open spec fn distinct_ids(entries: Seq<EntryView>, n: int) -> bool {
    forall|i: int, j: int|
        0 <= i < j < n ==> (#[trigger] entries[i]).id != (#[trigger] entries[j]).id
}

/// `picks` lists, best first, the `k` best-ranked positions among the first
/// `n` entries (all `n` of them where `k` exceeds `n`): it is strictly
/// ascending in rank, and every position it leaves out ranks after all of it.
pub open spec fn nearest_among(
    entries: Seq<EntryView>,
    query: Seq<i32>,
    n: int,
    k: nat,
    picks: Seq<usize>,
) -> bool {
    &&& picks.len() == (if k <= n { k as int } else { n })
    &&& forall|j: int| 0 <= j < picks.len() ==> (#[trigger] picks[j]) < n
    &&& forall|i: int, j: int|
        0 <= i < j < picks.len() ==> precedes(
            entries,
            query,
            (#[trigger] picks[i]) as int,
            (#[trigger] picks[j]) as int,
        )
    &&& forall|e: usize|
        0 <= e < n ==> #[trigger] picks.contains(e) || left_out(entries, query, k, picks, e)
}

/// Position `e` has no place in the full list `picks`: each pick ranks before it.
pub open spec fn left_out(
    entries: Seq<EntryView>,
    query: Seq<i32>,
    k: nat,
    picks: Seq<usize>,
    e: usize,
) -> bool {
    &&& picks.len() == k
    &&& forall|j: int|
        0 <= j < picks.len() ==> precedes(entries, query, (#[trigger] picks[j]) as int, e as int)
}

/// `picks` lists, best first, the `k` nearest entries to `query`.
pub open spec fn is_k_nearest(
    entries: Seq<EntryView>,
    query: Seq<i32>,
    k: nat,
    picks: Seq<usize>,
) -> bool {
    nearest_among(entries, query, entries.len() as int, k, picks)
}

/// The list of the `k` nearest entries to `query`, best first.
pub open spec fn nearest(entries: Seq<EntryView>, query: Seq<i32>, k: nat) -> Seq<usize> {
    choose|picks: Seq<usize>| is_k_nearest(entries, query, k, picks)
}

/// Two lists of the `k` nearest entries agree at position `j`.
proof fn lemma_same_pick(
    entries: Seq<EntryView>,
    query: Seq<i32>,
    k: nat,
    p: Seq<usize>,
    r: Seq<usize>,
    j: int,
)
    requires
        is_k_nearest(entries, query, k, p),
        is_k_nearest(entries, query, k, r),
        0 <= j < p.len(),
    ensures
        p[j] == r[j],
    decreases j,
{
    assert forall|i: int| 0 <= i < j implies p[i] == r[i] by {
        lemma_same_pick(entries, query, k, p, r, i);
    }
    let e = p[j];
    let f = r[j];
    assert(e == f || precedes(entries, query, f as int, e as int)) by {
        assert(r.contains(e) || left_out(entries, query, k, r, e));
        if r.contains(e) {
            let w = choose|w: int| 0 <= w < r.len() && r[w] == e;
            if w < j {
                assert(precedes(entries, query, p[w] as int, p[j] as int));
            } else if w > j {
                assert(precedes(entries, query, r[j] as int, r[w] as int));
            }
        }
    }
    assert(e == f || precedes(entries, query, e as int, f as int)) by {
        assert(p.contains(f) || left_out(entries, query, k, p, f));
        if p.contains(f) {
            let w = choose|w: int| 0 <= w < p.len() && p[w] == f;
            if w < j {
                assert(precedes(entries, query, r[w] as int, r[j] as int));
            } else if w > j {
                assert(precedes(entries, query, p[j] as int, p[w] as int));
            }
        }
    }
}

/// The ranking is determined: there is at most one list of the `k` nearest
/// entries to a query.
pub proof fn lemma_nearest_unique(
    entries: Seq<EntryView>,
    query: Seq<i32>,
    k: nat,
    p: Seq<usize>,
    r: Seq<usize>,
)
    requires
        is_k_nearest(entries, query, k, p),
        is_k_nearest(entries, query, k, r),
    ensures
        p == r,
        p == nearest(entries, query, k),
{
    assert forall|j: int| 0 <= j < p.len() implies p[j] == r[j] by {
        lemma_same_pick(entries, query, k, p, r, j);
    }
    assert(p =~= r);
    let c = nearest(entries, query, k);
    assert forall|j: int| 0 <= j < p.len() implies p[j] == c[j] by {
        lemma_same_pick(entries, query, k, p, c, j);
    }
    assert(p =~= c);
}

/// A list of the `k` nearest entries has `k` members, or all entries where
/// there are fewer; distances never fall along it, and of two members at one
/// distance the one of lower id stands first.
pub proof fn lemma_nearest_ordered(
    entries: Seq<EntryView>,
    query: Seq<i32>,
    k: nat,
    picks: Seq<usize>,
)
    requires
        is_k_nearest(entries, query, k, picks),
    ensures
        picks.len() == (if k <= entries.len() { k } else { entries.len() }),
        forall|i: int, j: int|
            0 <= i < j < picks.len() ==> sq_dist(
                entries[(#[trigger] picks[i]) as int].embedding,
                query,
            ) <= sq_dist(entries[(#[trigger] picks[j]) as int].embedding, query),
        forall|i: int, j: int|
            0 <= i < j < picks.len() && sq_dist(
                entries[(#[trigger] picks[i]) as int].embedding,
                query,
            ) == sq_dist(entries[(#[trigger] picks[j]) as int].embedding, query)
                ==> entries[picks[i] as int].id < entries[picks[j] as int].id,
{
    assert forall|i: int, j: int| 0 <= i < j < picks.len() implies sq_dist(
        entries[(#[trigger] picks[i]) as int].embedding,
        query,
    ) <= sq_dist(entries[(#[trigger] picks[j]) as int].embedding, query) && (sq_dist(
        entries[picks[i] as int].embedding,
        query,
    ) == sq_dist(entries[picks[j] as int].embedding, query) ==> entries[picks[i] as int].id
        < entries[picks[j] as int].id) by {
        assert(precedes(entries, query, picks[i] as int, picks[j] as int));
    }
}

/// A query that equals the embedding of entry `e` finds an entry at distance
/// zero first: the one of lowest id among those with this embedding, hence
/// `e` itself where no entry of lower id shares its embedding.
pub proof fn lemma_exact_match_first(
    entries: Seq<EntryView>,
    query: Seq<i32>,
    k: nat,
    picks: Seq<usize>,
    e: usize,
)
    requires
        is_k_nearest(entries, query, k, picks),
        forall|i: int| 0 <= i < entries.len() ==> (#[trigger] entries[i]).embedding.len() == query.len(),
        distinct_ids(entries, entries.len() as int),
        k >= 1,
        e < entries.len(),
        entries[e as int].embedding == query,
    ensures
        picks.len() >= 1,
        sq_dist(entries[picks[0] as int].embedding, query) == 0,
        entries[picks[0] as int].embedding == query,
        entries[picks[0] as int].id <= entries[e as int].id,
        (forall|i: int|
            0 <= i < entries.len() && (#[trigger] entries[i]).embedding == query ==> entries[e as int].id
                <= entries[i].id) ==> picks[0] == e,
{
    crate::distance::lemma_sq_dist_self(query);
    let f = picks[0];
    assert(f < entries.len());
    assert(f == e || precedes(entries, query, f as int, e as int)) by {
        assert(picks.contains(e) || left_out(entries, query, k, picks, e));
        if picks.contains(e) {
            let w = choose|w: int| 0 <= w < picks.len() && picks[w] == e;
            if w > 0 {
                assert(precedes(entries, query, picks[0] as int, picks[w] as int));
            }
        }
    }
    assert(entries[f as int].embedding.len() == query.len());
    crate::distance::lemma_sq_dist_zero(entries[f as int].embedding, query);
    if f != e {
        if f < e {
            assert(entries[f as int].id != entries[e as int].id);
        } else {
            assert(entries[e as int].id != entries[f as int].id);
        }
    }
}

/// The hit that reports `entry` for `query`.
pub open spec fn row_of(entry: EntryView, query: Seq<i32>) -> FileResultView {
    FileResultView {
        file_name: entry.file_name,
        path: entry.path,
        distance: sq_dist(entry.embedding, query),
    }
}

/// The hits that report the entries at `picks`, in that order.
pub open spec fn rows_of(entries: Seq<EntryView>, query: Seq<i32>, picks: Seq<usize>) -> Seq<
    FileResultView,
> {
    Seq::new(picks.len(), |j: int| row_of(entries[picks[j] as int], query))
}

/// Whether entry `a` ranks before entry `b`, given the distances of both.
fn comes_before(
    entries: &Vec<IndexedEntry>,
    dists: &Vec<u128>,
    query: Ghost<Seq<i32>>,
    a: usize,
    b: usize,
) -> (r: bool)
    requires
        a < entries.len(),
        b < entries.len(),
        dists.len() == entries.len(),
        dists[a as int] == sq_dist(entries[a as int]@.embedding, query@),
        dists[b as int] == sq_dist(entries[b as int]@.embedding, query@),
    ensures
        r == precedes(entry_views(entries@), query@, a as int, b as int),
{
    dists[a] < dists[b] || (dists[a] == dists[b] && entries[a].id < entries[b].id)
}

/// The distance of every entry to `query`, position by position.
fn all_distances(entries: &Vec<IndexedEntry>, query: &Vec<i32>) -> (dists: Vec<u128>)
    requires
        forall|i: int| 0 <= i < entries.len() ==> (#[trigger] entries[i]).embedding.len() == query.len(),
    ensures
        dists.len() == entries.len(),
        forall|i: int|
            0 <= i < entries.len() ==> (#[trigger] dists[i]) == sq_dist(
                entries[i]@.embedding,
                query@,
            ),
{
    let mut dists: Vec<u128> = Vec::new();
    let mut i: usize = 0;
    while i < entries.len()
        invariant
            i <= entries.len(),
            dists.len() == i,
            forall|j: int| 0 <= j < entries.len() ==> (#[trigger] entries[j]).embedding.len() == query.len(),
            forall|j: int|
                0 <= j < i ==> (#[trigger] dists[j]) == sq_dist(entries[j]@.embedding, query@),
        decreases entries.len() - i,
    {
        let d: u128 = squared_distance(&entries[i].embedding, query);
        dists.push(d);
        i = i + 1;
    }
    dists
}

/// The positions of the `k` nearest entries to `query`, nearest first; of two
/// entries at one distance the one of lower id comes first.
pub fn rank_nearest(entries: &Vec<IndexedEntry>, query: &Vec<i32>, k: usize) -> (picks: Vec<usize>)
    requires
        forall|i: int| 0 <= i < entries.len() ==> (#[trigger] entries[i]).embedding.len() == query.len(),
        distinct_ids(entry_views(entries@), entries.len() as int),
    ensures
        is_k_nearest(entry_views(entries@), query@, k as nat, picks@),
        picks@ == nearest(entry_views(entries@), query@, k as nat),
{
    let dists: Vec<u128> = all_distances(entries, query);
    let ghost views = entry_views(entries@);
    let ghost q = query@;
    let n: usize = entries.len();
    let mut best: Vec<usize> = Vec::new();
    let mut i: usize = 0;
    while i < n
        invariant
            i <= n,
            n == entries.len(),
            dists.len() == n,
            views == entry_views(entries@),
            q == query@,
            forall|j: int| 0 <= j < n ==> (#[trigger] views[j]).embedding.len() == q.len(),
            forall|j: int| 0 <= j < n ==> (#[trigger] dists[j]) == sq_dist(views[j].embedding, q),
            distinct_ids(views, n as int),
            nearest_among(views, q, i as int, k as nat, best@),
        decreases n - i,
    {
        let ghost old_best = best@;
        let mut pos: usize = best.len();
        while pos > 0 && comes_before(entries, &dists, Ghost(q), i, best[pos - 1])
            invariant
                pos <= best.len(),
                i < n,
                n == entries.len(),
                dists.len() == n,
                best@ == old_best,
                views == entry_views(entries@),
                q == query@,
                forall|j: int| 0 <= j < n ==> (#[trigger] views[j]).embedding.len() == q.len(),
                forall|j: int| 0 <= j < n ==> (#[trigger] dists[j]) == sq_dist(views[j].embedding, q),
                forall|j: int| 0 <= j < best.len() ==> (#[trigger] best[j]) < i,
                forall|j: int|
                    pos <= j < best.len() ==> precedes(views, q, i as int, (#[trigger] best[j]) as int),
            decreases pos,
        {
            pos = pos - 1;
        }
        proof {
            // Every pick before `pos` ranks before the new entry.
            assert forall|j: int| 0 <= j < pos implies precedes(
                views,
                q,
                (#[trigger] old_best[j]) as int,
                i as int,
            ) by {
                let last = old_best[pos - 1];
                assert(last < i);
                assert(views[last as int].id != views[i as int].id);
                assert(precedes(views, q, last as int, i as int));
                if j < pos - 1 {
                    assert(precedes(views, q, old_best[j] as int, last as int));
                }
            }
        }
        if pos < k {
            best.insert(pos, i);
            let ghost grown = best@;
            proof {
                old_best.insert_ensures(pos as int, i);
                assert forall|a: int, b: int| 0 <= a < b < grown.len() implies precedes(
                    views,
                    q,
                    (#[trigger] grown[a]) as int,
                    (#[trigger] grown[b]) as int,
                ) by {
                    if b < pos {
                        assert(grown[a] == old_best[a] && grown[b] == old_best[b]);
                    } else if b == pos {
                        assert(grown[a] == old_best[a]);
                    } else if a < pos {
                        assert(grown[a] == old_best[a] && grown[b] == old_best[b - 1]);
                    } else if a == pos {
                        assert(grown[b] == old_best[b - 1]);
                    } else {
                        assert(grown[a] == old_best[a - 1] && grown[b] == old_best[b - 1]);
                    }
                }
                assert forall|e: usize| 0 <= e < i + 1 implies #[trigger] grown.contains(e) || (
                old_best.len() == k && forall|j: int|
                    0 <= j < grown.len() ==> precedes(views, q, (#[trigger] grown[j]) as int, e as int)) by {
                    if e == i {
                        assert(grown[pos as int] == e);
                    } else if old_best.contains(e) {
                        let w = choose|w: int| 0 <= w < old_best.len() && old_best[w] == e;
                        if w < pos {
                            assert(grown[w] == e);
                        } else {
                            assert(grown[w + 1] == e);
                        }
                    } else {
                        assert(left_out(views, q, k as nat, old_best, e));
                        assert(precedes(views, q, i as int, old_best[pos as int] as int));
                        assert forall|j: int| 0 <= j < grown.len() implies precedes(
                            views,
                            q,
                            (#[trigger] grown[j]) as int,
                            e as int,
                        ) by {
                            if j < pos {
                                assert(grown[j] == old_best[j]);
                            } else if j > pos {
                                assert(grown[j] == old_best[j - 1]);
                            }
                        }
                    }
                }
            }
            if best.len() > k {
                best.pop();
                proof {
                    assert(best@ =~= grown.take(k as int));
                    let gone = grown[k as int];
                    assert forall|e: usize| 0 <= e < i + 1 implies #[trigger] best@.contains(e)
                        || left_out(views, q, k as nat, best@, e) by {
                        if grown.contains(e) {
                            let w = choose|w: int| 0 <= w < grown.len() && grown[w] == e;
                            if w < k {
                                assert(best@[w] == e);
                            } else {
                                assert forall|j: int| 0 <= j < best@.len() implies precedes(
                                    views,
                                    q,
                                    (#[trigger] best@[j]) as int,
                                    e as int,
                                ) by {
                                    assert(best@[j] == grown[j]);
                                }
                            }
                        } else {
                            assert forall|j: int| 0 <= j < best@.len() implies precedes(
                                views,
                                q,
                                (#[trigger] best@[j]) as int,
                                e as int,
                            ) by {
                                assert(best@[j] == grown[j]);
                            }
                        }
                    }
                }
            }
        } else {
            proof {
                assert(pos == k && best@.len() == k);
                assert(left_out(views, q, k as nat, best@, i));
                assert forall|e: usize| 0 <= e < i + 1 implies #[trigger] best@.contains(e)
                    || left_out(views, q, k as nat, best@, e) by {
                    if e < i {
                    }
                }
            }
        }
        i = i + 1;
    }
    proof {
        lemma_nearest_unique(views, q, k as nat, best@, best@);
    }
    best
}

} // verus!
