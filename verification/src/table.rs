//! Association sequences: a sequence of `(key, value)` pairs in which no key
//! occurs twice, read as a finite map. The stores of this crate keep their
//! entries in vectors and are specified through these maps.
use vstd::prelude::*;

verus! {

/// No key occurs at two positions.
pub open spec fn keys_unique<K, V>(s: Seq<(K, V)>) -> bool {
    forall|i: int, j: int| 0 <= i < s.len() && 0 <= j < s.len() && i != j ==> s[i].0 != s[j].0
}

/// Some position holds `k`.
pub open spec fn has_key<K, V>(s: Seq<(K, V)>, k: K) -> bool {
    exists|i: int| 0 <= i < s.len() && s[i].0 == k
}

/// A position that holds `k` (the only one when keys are unique).
pub open spec fn key_position<K, V>(s: Seq<(K, V)>, k: K) -> int {
    choose|i: int| 0 <= i < s.len() && s[i].0 == k
}

/// The map that an association sequence stands for.
pub open spec fn assoc_map<K, V>(s: Seq<(K, V)>) -> Map<K, V> {
    Map::new(|k: K| has_key(s, k), |k: K| s[key_position(s, k)].1)
}

/// The entries of `m` whose value satisfies `keep`.
pub open spec fn filter_values<K, V>(m: Map<K, V>, keep: spec_fn(V) -> bool) -> Map<K, V> {
    Map::new(|k: K| m.contains_key(k) && keep(m[k]), |k: K| m[k])
}

pub proof fn lemma_entry<K, V>(s: Seq<(K, V)>, i: int)
    requires
        keys_unique(s),
        0 <= i < s.len(),
    ensures
        assoc_map(s).contains_key(s[i].0),
        assoc_map(s)[s[i].0] == s[i].1,
        key_position(s, s[i].0) == i,
{
    let k = s[i].0;
    assert(has_key(s, k));
    let j = key_position(s, k);
    assert(s[j].0 == k);
}

pub proof fn lemma_absent<K, V>(s: Seq<(K, V)>, k: K)
    requires
        forall|i: int| 0 <= i < s.len() ==> s[i].0 != k,
    ensures
        !assoc_map(s).contains_key(k),
{
}

pub proof fn lemma_update<K, V>(s: Seq<(K, V)>, i: int, v: V)
    requires
        keys_unique(s),
        0 <= i < s.len(),
    ensures
        keys_unique(s.update(i, (s[i].0, v))),
        assoc_map(s.update(i, (s[i].0, v))) =~= assoc_map(s).insert(s[i].0, v),
{
    let t = s.update(i, (s[i].0, v));
    assert(keys_unique(t));
    lemma_entry(t, i);
    assert forall|k: K| #[trigger] has_key(t, k) == has_key(s, k) by {
        if has_key(s, k) {
            let j = key_position(s, k);
            assert(t[j].0 == k);
        }
        if has_key(t, k) {
            let j = key_position(t, k);
            assert(s[j].0 == k);
        }
    }
    assert forall|k: K| has_key(t, k) && k != s[i].0 implies t[key_position(t, k)].1 == s[
        key_position(s, k)
    ].1 by {
        let j = key_position(t, k);
        lemma_entry(t, j);
        lemma_entry(s, j);
    }
}

pub proof fn lemma_push<K, V>(s: Seq<(K, V)>, k: K, v: V)
    requires
        keys_unique(s),
        !has_key(s, k),
    ensures
        keys_unique(s.push((k, v))),
        assoc_map(s.push((k, v))) =~= assoc_map(s).insert(k, v),
{
    let t = s.push((k, v));
    assert(keys_unique(t)) by {
        assert forall|i: int, j: int|
            0 <= i < t.len() && 0 <= j < t.len() && i != j implies t[i].0 != t[j].0 by {
            if i == s.len() {
                assert(s[j].0 == t[j].0);
            } else if j == s.len() {
                assert(s[i].0 == t[i].0);
            }
        }
    }
    lemma_entry(t, s.len() as int);
    assert forall|q: K| #[trigger] has_key(t, q) == (has_key(s, q) || q == k) by {
        if has_key(s, q) {
            let j = key_position(s, q);
            assert(t[j].0 == q);
        }
        if has_key(t, q) && q != k {
            let j = key_position(t, q);
            assert(s[j].0 == q);
        }
    }
    assert forall|q: K| has_key(t, q) && q != k implies t[key_position(t, q)].1 == s[
        key_position(s, q)
    ].1 by {
        let j = key_position(t, q);
        assert(j < s.len());
        lemma_entry(t, j);
        lemma_entry(s, j);
    }
}

pub proof fn lemma_swap_remove<K, V>(s: Seq<(K, V)>, i: int)
    requires
        keys_unique(s),
        0 <= i < s.len(),
    ensures
        keys_unique(s.update(i, s.last()).drop_last()),
        assoc_map(s.update(i, s.last()).drop_last()) =~= assoc_map(s).remove(s[i].0),
{
    let t = s.update(i, s.last()).drop_last();
    let last = s.len() - 1;
    // position p of t came from position src(p) of s
    assert forall|p: int| 0 <= p < t.len() implies #[trigger] t[p] == s[
        if p == i {
            last
        } else {
            p
        }
    ] by {}
    assert(keys_unique(t)) by {
        assert forall|a: int, b: int|
            0 <= a < t.len() && 0 <= b < t.len() && a != b implies t[a].0 != t[b].0 by {
            let sa = if a == i {
                last
            } else {
                a
            };
            let sb = if b == i {
                last
            } else {
                b
            };
            assert(t[a] == s[sa]);
            assert(t[b] == s[sb]);
        }
    }
    let k = s[i].0;
    assert forall|q: K| #[trigger] has_key(t, q) == (has_key(s, q) && q != k) by {
        if has_key(t, q) {
            let p = key_position(t, q);
            let sp = if p == i {
                last
            } else {
                p
            };
            assert(t[p] == s[sp]);
            assert(s[sp].0 == q);
            assert(sp != i);
        }
        if has_key(s, q) && q != k {
            let p = key_position(s, q);
            assert(p != i);
            if p == last {
                assert(t[i] == s[last]);
                assert(t[i].0 == q);
            } else {
                assert(t[p] == s[p]);
                assert(t[p].0 == q);
            }
        }
    }
    assert forall|q: K| has_key(t, q) implies t[key_position(t, q)].1 == s[key_position(
        s,
        q,
    )].1 by {
        let p = key_position(t, q);
        let sp = if p == i {
            last
        } else {
            p
        };
        assert(t[p] == s[sp]);
        lemma_entry(t, p);
        lemma_entry(s, sp);
    }
}

/// Unique keys: the map has exactly as many keys as the sequence has entries.
pub proof fn lemma_len<K, V>(s: Seq<(K, V)>)
    requires
        keys_unique(s),
    ensures
        assoc_map(s).dom().finite(),
        assoc_map(s).dom().len() == s.len(),
{
    let ks = s.map_values(|e: (K, V)| e.0);
    assert(ks.no_duplicates()) by {
        assert forall|a: int, b: int|
            0 <= a < ks.len() && 0 <= b < ks.len() && a != b implies ks[a] != ks[b] by {}
    }
    ks.unique_seq_to_set();
    assert(assoc_map(s).dom() =~= ks.to_set()) by {
        assert forall|q: K| assoc_map(s).dom().contains(q) == ks.to_set().contains(q) by {
            if has_key(s, q) {
                let p = key_position(s, q);
                assert(ks[p] == q);
            }
            if ks.to_set().contains(q) {
                let p = choose|p: int| 0 <= p < ks.len() && ks[p] == q;
                assert(s[p].0 == q);
            }
        }
    }
}


pub proof fn lemma_insert_at<K, V>(s: Seq<(K, V)>, i: int, k: K, v: V)
    requires
        keys_unique(s),
        !has_key(s, k),
        0 <= i <= s.len(),
    ensures
        keys_unique(s.insert(i, (k, v))),
        assoc_map(s.insert(i, (k, v))) =~= assoc_map(s).insert(k, v),
{
    let t = s.insert(i, (k, v));
    assert forall|p: int| 0 <= p < t.len() implies #[trigger] t[p] == (if p < i {
        s[p]
    } else if p == i {
        (k, v)
    } else {
        s[p - 1]
    }) by {}
    assert(keys_unique(t)) by {
        assert forall|a: int, b: int|
            0 <= a < t.len() && 0 <= b < t.len() && a != b implies t[a].0 != t[b].0 by {
            if a != i && b != i {
                let sa = if a < i {
                    a
                } else {
                    a - 1
                };
                let sb = if b < i {
                    b
                } else {
                    b - 1
                };
                assert(t[a] == s[sa]);
                assert(t[b] == s[sb]);
            } else if a == i {
                let sb = if b < i {
                    b
                } else {
                    b - 1
                };
                assert(t[b] == s[sb]);
            } else {
                let sa = if a < i {
                    a
                } else {
                    a - 1
                };
                assert(t[a] == s[sa]);
            }
        }
    }
    lemma_entry(t, i);
    assert forall|q: K| #[trigger] has_key(t, q) == (has_key(s, q) || q == k) by {
        if has_key(s, q) {
            let p = key_position(s, q);
            if p < i {
                assert(t[p] == s[p]);
            } else {
                assert(t[p + 1] == s[p]);
            }
        }
        if has_key(t, q) && q != k {
            let p = key_position(t, q);
            if p < i {
                assert(s[p].0 == q);
            } else {
                assert(p != i);
                assert(s[p - 1].0 == q);
            }
        }
    }
    assert forall|q: K| has_key(t, q) && q != k implies t[key_position(t, q)].1 == s[
        key_position(s, q)
    ].1 by {
        let p = key_position(t, q);
        lemma_entry(t, p);
        let sp = if p < i {
            p
        } else {
            p - 1
        };
        assert(p != i);
        assert(t[p] == s[sp]);
        lemma_entry(s, sp);
    }
}

pub proof fn lemma_remove_at<K, V>(s: Seq<(K, V)>, i: int)
    requires
        keys_unique(s),
        0 <= i < s.len(),
    ensures
        keys_unique(s.remove(i)),
        assoc_map(s.remove(i)) =~= assoc_map(s).remove(s[i].0),
{
    let t = s.remove(i);
    let k = s[i].0;
    assert forall|p: int| 0 <= p < t.len() implies #[trigger] t[p] == s[if p < i {
        p
    } else {
        p + 1
    }] by {}
    assert(keys_unique(t)) by {
        assert forall|a: int, b: int|
            0 <= a < t.len() && 0 <= b < t.len() && a != b implies t[a].0 != t[b].0 by {
            let sa = if a < i {
                a
            } else {
                a + 1
            };
            let sb = if b < i {
                b
            } else {
                b + 1
            };
            assert(t[a] == s[sa]);
            assert(t[b] == s[sb]);
        }
    }
    assert forall|q: K| #[trigger] has_key(t, q) == (has_key(s, q) && q != k) by {
        if has_key(t, q) {
            let p = key_position(t, q);
            let sp = if p < i {
                p
            } else {
                p + 1
            };
            assert(t[p] == s[sp]);
        }
        if has_key(s, q) && q != k {
            let p = key_position(s, q);
            assert(p != i);
            if p < i {
                assert(t[p] == s[p]);
            } else {
                assert(t[p - 1] == s[p]);
            }
        }
    }
    assert forall|q: K| has_key(t, q) implies t[key_position(t, q)].1 == s[key_position(
        s,
        q,
    )].1 by {
        let p = key_position(t, q);
        let sp = if p < i {
            p
        } else {
            p + 1
        };
        assert(t[p] == s[sp]);
        lemma_entry(t, p);
        lemma_entry(s, sp);
    }
}

} // verus!
