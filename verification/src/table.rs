//! Association tables with unique keys.
//!
//! Both registration tables of the runtime — the reactor's
//! descriptor-to-waker table and the executor's task table — are vectors
//! of key/value pairs whose keys never repeat.  This module gives such a
//! vector its mathematical reading as a `Map`, together with the lemmas
//! that connect the vector operations (push, update, remove, partition)
//! to the corresponding map operations.

use vstd::prelude::*;

verus! {

/// The keys of a pair sequence, in order.
pub open spec fn key_seq<K, V>(s: Seq<(K, V)>) -> Seq<K> {
    s.map_values(|p: (K, V)| p.0)
}

/// No key occurs twice.
pub open spec fn uniq_keys<K, V>(s: Seq<(K, V)>) -> bool {
    forall|i: int, j: int| 0 <= i < j < s.len() ==> s[i].0 != s[j].0
}

/// The map an association sequence stands for; a later pair for the
/// same key wins, though under `uniq_keys` the case never arises.
pub open spec fn assoc_map<K, V>(s: Seq<(K, V)>) -> Map<K, V>
    decreases s.len(),
{
    if s.len() == 0 {
        Map::empty()
    } else {
        assoc_map(s.drop_last()).insert(s.last().0, s.last().1)
    }
}

/// The pairs whose key is *not* in `hit`, in their original order.
pub open spec fn keep_part<K, V>(s: Seq<(K, V)>, hit: Set<K>) -> Seq<(K, V)>
    decreases s.len(),
{
    if s.len() == 0 {
        s
    } else if hit.contains(s.last().0) {
        keep_part(s.drop_last(), hit)
    } else {
        keep_part(s.drop_last(), hit).push(s.last())
    }
}

/// The pairs whose key *is* in `hit`, in their original order.
pub open spec fn take_part<K, V>(s: Seq<(K, V)>, hit: Set<K>) -> Seq<(K, V)>
    decreases s.len(),
{
    if s.len() == 0 {
        s
    } else if hit.contains(s.last().0) {
        take_part(s.drop_last(), hit).push(s.last())
    } else {
        take_part(s.drop_last(), hit)
    }
}

/// A key is in the map exactly when some pair carries it.
pub proof fn lemma_assoc_map_contains<K, V>(s: Seq<(K, V)>, k: K)
    ensures
        assoc_map(s).contains_key(k) <==> (exists|i: int| 0 <= i < s.len() && s[i].0 == k),
    decreases s.len(),
{
    if s.len() > 0 {
        lemma_assoc_map_contains(s.drop_last(), k);
        if s.last().0 != k {
            assert((exists|i: int| 0 <= i < s.len() - 1 && s.drop_last()[i].0 == k) <==> (
            exists|i: int| 0 <= i < s.len() && s[i].0 == k)) by {
                if exists|i: int| 0 <= i < s.len() && s[i].0 == k {
                    let i = choose|i: int| 0 <= i < s.len() && s[i].0 == k;
                    assert(s.drop_last()[i].0 == k);
                }
            }
        }
    }
}

/// Under unique keys, the pair at any index gives the map's value there.
pub proof fn lemma_assoc_map_index<K, V>(s: Seq<(K, V)>, i: int)
    requires
        uniq_keys(s),
        0 <= i < s.len(),
    ensures
        assoc_map(s).contains_key(s[i].0),
        assoc_map(s)[s[i].0] == s[i].1,
    decreases s.len(),
{
    if i == s.len() - 1 {
    } else {
        assert(uniq_keys(s.drop_last()));
        lemma_assoc_map_index(s.drop_last(), i);
        assert(s.drop_last()[i] == s[i]);
        assert(s.last().0 != s[i].0);
    }
}

/// Appending a pair inserts its key.
pub proof fn lemma_assoc_map_push<K, V>(s: Seq<(K, V)>, p: (K, V))
    ensures
        assoc_map(s.push(p)) == assoc_map(s).insert(p.0, p.1),
        !key_seq(s).contains(p.0) && uniq_keys(s) ==> uniq_keys(s.push(p)),
{
    assert(s.push(p).drop_last() =~= s);
    assert(s.push(p).last() == p);
    if !key_seq(s).contains(p.0) && uniq_keys(s) {
        assert forall|i: int, j: int| 0 <= i < j < s.push(p).len() implies s.push(p)[i].0 != s.push(
            p,
        )[j].0 by {
            if j == s.len() {
                assert(key_seq(s)[i] == s[i].0);
            }
        }
    }
}

/// Replacing the pair at an index with one of the same key updates
/// that key's value and keeps the keys unique.
pub proof fn lemma_assoc_map_update<K, V>(s: Seq<(K, V)>, i: int, p: (K, V))
    requires
        uniq_keys(s),
        0 <= i < s.len(),
        p.0 == s[i].0,
    ensures
        assoc_map(s.update(i, p)) == assoc_map(s).insert(p.0, p.1),
        uniq_keys(s.update(i, p)),
    decreases s.len(),
{
    if i == s.len() - 1 {
        assert(s.update(i, p).drop_last() =~= s.drop_last());
        assert(s.update(i, p).last() == p);
        assert(assoc_map(s.update(i, p)) =~= assoc_map(s).insert(p.0, p.1));
    } else {
        assert(uniq_keys(s.drop_last()));
        lemma_assoc_map_update(s.drop_last(), i, p);
        assert(s.update(i, p).drop_last() =~= s.drop_last().update(i, p));
        assert(s.update(i, p).last() == s.last());
        assert(s.last().0 != p.0);
        assert(assoc_map(s.update(i, p)) =~= assoc_map(s).insert(p.0, p.1));
    }
}

/// Removing the pair at an index removes exactly its key.
pub proof fn lemma_assoc_map_remove<K, V>(s: Seq<(K, V)>, i: int)
    requires
        uniq_keys(s),
        0 <= i < s.len(),
    ensures
        assoc_map(s.remove(i)) == assoc_map(s).remove(s[i].0),
        uniq_keys(s.remove(i)),
    decreases s.len(),
{
    assert forall|a: int, b: int| 0 <= a < b < s.remove(i).len() implies s.remove(i)[a].0
        != s.remove(i)[b].0 by {
        assert(s.remove(i)[a] == (if a < i {
            s[a]
        } else {
            s[a + 1]
        }));
        assert(s.remove(i)[b] == (if b < i {
            s[b]
        } else {
            s[b + 1]
        }));
    }
    if i == s.len() - 1 {
        assert(s.remove(i) =~= s.drop_last());
        lemma_assoc_map_no_key(s.drop_last(), s[i].0);
        assert(assoc_map(s.remove(i)) =~= assoc_map(s).remove(s[i].0));
    } else {
        assert(uniq_keys(s.drop_last()));
        lemma_assoc_map_remove(s.drop_last(), i);
        assert(s.remove(i).drop_last() =~= s.drop_last().remove(i));
        assert(s.remove(i).last() == s.last());
        assert(assoc_map(s.remove(i)) =~= assoc_map(s).remove(s[i].0));
    }
}

/// A key carried by no pair is absent from the map.
pub proof fn lemma_assoc_map_no_key<K, V>(s: Seq<(K, V)>, k: K)
    requires
        forall|i: int| 0 <= i < s.len() ==> s[i].0 != k,
    ensures
        !assoc_map(s).contains_key(k),
{
    lemma_assoc_map_contains(s, k);
}

/// Under unique keys the map has exactly one entry per pair.
pub proof fn lemma_assoc_map_card<K, V>(s: Seq<(K, V)>)
    requires
        uniq_keys(s),
    ensures
        assoc_map(s).dom().finite(),
        assoc_map(s).dom().len() == s.len(),
    decreases s.len(),
{
    if s.len() > 0 {
        let d = s.drop_last();
        assert(uniq_keys(d));
        lemma_assoc_map_card(d);
        lemma_assoc_map_no_key(d, s.last().0);
    }
}

/// What partitioning by a key set does: `keep_part` is the table with
/// the hit keys removed, and `take_part` carries exactly the hit
/// pairs, each once, with its value from the table.
pub proof fn lemma_partition<K, V>(s: Seq<(K, V)>, hit: Set<K>)
    requires
        uniq_keys(s),
    ensures
        uniq_keys(keep_part(s, hit)),
        uniq_keys(take_part(s, hit)),
        keep_part(s, hit).len() + take_part(s, hit).len() == s.len(),
        forall|j: int| 0 <= j < keep_part(s, hit).len() ==> s.contains(#[trigger] keep_part(s, hit)[j])
            && !hit.contains(keep_part(s, hit)[j].0),
        forall|j: int| 0 <= j < take_part(s, hit).len() ==> s.contains(#[trigger] take_part(s, hit)[j])
            && hit.contains(take_part(s, hit)[j].0),
        forall|i: int| 0 <= i < s.len() && !hit.contains(s[i].0) ==> keep_part(s, hit).contains(
            #[trigger] s[i],
        ),
        forall|i: int| 0 <= i < s.len() && hit.contains(s[i].0) ==> take_part(s, hit).contains(
            #[trigger] s[i],
        ),
        assoc_map(keep_part(s, hit)) == assoc_map(s).remove_keys(hit),
    decreases s.len(),
{
    if s.len() == 0 {
        assert(assoc_map(keep_part(s, hit)) =~= assoc_map(s).remove_keys(hit));
    } else {
        let d = s.drop_last();
        assert(uniq_keys(d));
        lemma_partition(d, hit);
        assert forall|i: int| 0 <= i < s.len() implies (!hit.contains(s[i].0) ==> keep_part(
            s,
            hit,
        ).contains(#[trigger] s[i])) && (hit.contains(s[i].0) ==> take_part(s, hit).contains(
            s[i],
        )) by {
            if i < s.len() - 1 {
                assert(d[i] == s[i]);
                if !hit.contains(s[i].0) {
                    let j = choose|j: int|
                        0 <= j < keep_part(d, hit).len() && keep_part(d, hit)[j] == d[i];
                    if hit.contains(s.last().0) {
                        assert(keep_part(s, hit)[j] == s[i]);
                    } else {
                        assert(keep_part(s, hit)[j] == s[i]);
                    }
                } else {
                    let j = choose|j: int|
                        0 <= j < take_part(d, hit).len() && take_part(d, hit)[j] == d[i];
                    assert(take_part(s, hit)[j] == s[i]);
                }
            } else {
                if !hit.contains(s[i].0) {
                    assert(keep_part(s, hit).last() == s[i]);
                } else {
                    assert(take_part(s, hit).last() == s[i]);
                }
            }
        }
        assert forall|j: int| 0 <= j < keep_part(s, hit).len() implies s.contains(
            #[trigger] keep_part(s, hit)[j],
        ) && !hit.contains(keep_part(s, hit)[j].0) by {
            if hit.contains(s.last().0) {
                assert(d.contains(keep_part(d, hit)[j]));
                let m = choose|m: int| 0 <= m < d.len() && d[m] == keep_part(d, hit)[j];
                assert(s[m] == keep_part(s, hit)[j]);
            } else if j < keep_part(s, hit).len() - 1 {
                assert(keep_part(s, hit)[j] == keep_part(d, hit)[j]);
                assert(d.contains(keep_part(d, hit)[j]));
                let m = choose|m: int| 0 <= m < d.len() && d[m] == keep_part(d, hit)[j];
                assert(s[m] == keep_part(s, hit)[j]);
            } else {
                assert(keep_part(s, hit)[j] == s.last());
                assert(s[s.len() - 1] == s.last());
            }
        }
        assert forall|j: int| 0 <= j < take_part(s, hit).len() implies s.contains(
            #[trigger] take_part(s, hit)[j],
        ) && hit.contains(take_part(s, hit)[j].0) by {
            if !hit.contains(s.last().0) {
                assert(d.contains(take_part(d, hit)[j]));
                let m = choose|m: int| 0 <= m < d.len() && d[m] == take_part(d, hit)[j];
                assert(s[m] == take_part(s, hit)[j]);
            } else if j < take_part(s, hit).len() - 1 {
                assert(take_part(s, hit)[j] == take_part(d, hit)[j]);
                assert(d.contains(take_part(d, hit)[j]));
                let m = choose|m: int| 0 <= m < d.len() && d[m] == take_part(d, hit)[j];
                assert(s[m] == take_part(s, hit)[j]);
            } else {
                assert(take_part(s, hit)[j] == s.last());
                assert(s[s.len() - 1] == s.last());
            }
        }
        lemma_partition_uniq(s, hit);
        if hit.contains(s.last().0) {
            assert(assoc_map(keep_part(s, hit)) =~= assoc_map(s).remove_keys(hit)) by {
                lemma_assoc_map_contains(d, s.last().0);
            }
        } else {
            lemma_assoc_map_push(keep_part(d, hit), s.last());
            assert(assoc_map(keep_part(s, hit)) =~= assoc_map(s).remove_keys(hit));
        }
    }
}

/// Key uniqueness survives partitioning.
proof fn lemma_partition_uniq<K, V>(s: Seq<(K, V)>, hit: Set<K>)
    requires
        uniq_keys(s),
    ensures
        uniq_keys(keep_part(s, hit)),
        uniq_keys(take_part(s, hit)),
        keep_part(s, hit).len() + take_part(s, hit).len() == s.len(),
        forall|j: int| 0 <= j < keep_part(s, hit).len() ==> s.contains(
            #[trigger] keep_part(s, hit)[j],
        ),
        forall|j: int| 0 <= j < take_part(s, hit).len() ==> s.contains(
            #[trigger] take_part(s, hit)[j],
        ),
    decreases s.len(),
{
    if s.len() > 0 {
        let d = s.drop_last();
        assert(uniq_keys(d));
        lemma_partition_uniq(d, hit);
        assert forall|j: int| 0 <= j < keep_part(s, hit).len() implies s.contains(
            #[trigger] keep_part(s, hit)[j],
        ) by {
            if !hit.contains(s.last().0) && j == keep_part(s, hit).len() - 1 {
                assert(s[s.len() - 1] == keep_part(s, hit)[j]);
            } else {
                assert(keep_part(s, hit)[j] == keep_part(d, hit)[j]);
                assert(d.contains(keep_part(d, hit)[j]));
                let m = choose|m: int| 0 <= m < d.len() && d[m] == keep_part(d, hit)[j];
                assert(s[m] == keep_part(s, hit)[j]);
            }
        }
        assert forall|j: int| 0 <= j < take_part(s, hit).len() implies s.contains(
            #[trigger] take_part(s, hit)[j],
        ) by {
            if hit.contains(s.last().0) && j == take_part(s, hit).len() - 1 {
                assert(s[s.len() - 1] == take_part(s, hit)[j]);
            } else {
                assert(take_part(s, hit)[j] == take_part(d, hit)[j]);
                assert(d.contains(take_part(d, hit)[j]));
                let m = choose|m: int| 0 <= m < d.len() && d[m] == take_part(d, hit)[j];
                assert(s[m] == take_part(s, hit)[j]);
            }
        }
        assert forall|a: int, b: int|
            0 <= a < b < keep_part(s, hit).len() implies keep_part(s, hit)[a].0 != keep_part(
            s,
            hit,
        )[b].0 by {
            if !hit.contains(s.last().0) && b == keep_part(s, hit).len() - 1 {
                assert(keep_part(s, hit)[a] == keep_part(d, hit)[a]);
                assert(d.contains(keep_part(d, hit)[a]));
                let m = choose|m: int| 0 <= m < d.len() && d[m] == keep_part(d, hit)[a];
                assert(s[m] == d[m]);
                assert(s[m].0 != s[s.len() - 1].0);
                assert(keep_part(s, hit)[b] == s.last());
            } else {
                assert(keep_part(s, hit)[a] == keep_part(d, hit)[a]);
                assert(keep_part(s, hit)[b] == keep_part(d, hit)[b]);
            }
        }
        assert forall|a: int, b: int|
            0 <= a < b < take_part(s, hit).len() implies take_part(s, hit)[a].0 != take_part(
            s,
            hit,
        )[b].0 by {
            if hit.contains(s.last().0) && b == take_part(s, hit).len() - 1 {
                assert(take_part(s, hit)[a] == take_part(d, hit)[a]);
                assert(d.contains(take_part(d, hit)[a]));
                let m = choose|m: int| 0 <= m < d.len() && d[m] == take_part(d, hit)[a];
                assert(s[m] == d[m]);
                assert(s[m].0 != s[s.len() - 1].0);
                assert(take_part(s, hit)[b] == s.last());
            } else {
                assert(take_part(s, hit)[a] == take_part(d, hit)[a]);
                assert(take_part(s, hit)[b] == take_part(d, hit)[b]);
            }
        }
    }
}

} // verus!
