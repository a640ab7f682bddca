//! Association lists: sequences of key/value pairs with unique keys.

use vstd::prelude::*;

verus! {

/// No key occurs twice.
pub open spec fn keys_unique<K, V>(s: Seq<(K, V)>) -> bool {
    forall|i: int, j: int| 0 <= i < j < s.len() ==> s[i].0 != s[j].0
}

/// The value bound to `k`, searching from the back.
pub open spec fn assoc<K, V>(s: Seq<(K, V)>, k: K) -> Option<V>
    decreases s.len(),
{
    if s.len() == 0 {
        None
    } else if s.last().0 == k {
        Some(s.last().1)
    } else {
        assoc(s.drop_last(), k)
    }
}

/// True when some pair has key `k`.
pub open spec fn has_key<K, V>(s: Seq<(K, V)>, k: K) -> bool {
    exists|i: int| 0 <= i < s.len() && s[i].0 == k
}

/// With unique keys, a pair's value is the one bound to its key.
pub proof fn lemma_assoc_found<K, V>(s: Seq<(K, V)>, i: int)
    requires
        keys_unique(s),
        0 <= i < s.len(),
    ensures
        assoc(s, s[i].0) == Some(s[i].1),
    decreases s.len(),
{
    if i < s.len() - 1 {
        assert(s.last().0 != s[i].0);
        assert(s.drop_last()[i] == s[i]);
        lemma_assoc_found(s.drop_last(), i);
    }
}

/// A key that occurs nowhere is bound to nothing.
pub proof fn lemma_assoc_absent<K, V>(s: Seq<(K, V)>, k: K)
    requires
        !has_key(s, k),
    ensures
        assoc(s, k) is None,
    decreases s.len(),
{
    if s.len() > 0 {
        assert(s.last() == s[s.len() - 1]);
        assert(!has_key(s.drop_last(), k)) by {
            if has_key(s.drop_last(), k) {
                let i = choose|i: int| 0 <= i < s.drop_last().len() && s.drop_last()[i].0 == k;
                assert(s[i].0 == k);
            }
        }
        lemma_assoc_absent(s.drop_last(), k);
    }
}

/// A bound key occurs in the list.
pub proof fn lemma_assoc_some_has_key<K, V>(s: Seq<(K, V)>, k: K)
    requires
        assoc(s, k) is Some,
    ensures
        has_key(s, k),
    decreases s.len(),
{
    if s.last().0 == k {
        assert(s[s.len() - 1].0 == k);
    } else {
        lemma_assoc_some_has_key(s.drop_last(), k);
        let i = choose|i: int| 0 <= i < s.drop_last().len() && s.drop_last()[i].0 == k;
        assert(s[i].0 == k);
    }
}

/// Replacing the value of one pair rebinds its key and leaves the others.
pub proof fn lemma_assoc_update<K, V>(s: Seq<(K, V)>, i: int, v: V)
    requires
        keys_unique(s),
        0 <= i < s.len(),
    ensures
        keys_unique(s.update(i, (s[i].0, v))),
        forall|k: K| #[trigger]
            assoc(s.update(i, (s[i].0, v)), k) == if k == s[i].0 {
                Some(v)
            } else {
                assoc(s, k)
            },
{
    let t = s.update(i, (s[i].0, v));
    assert forall|k: K| #[trigger] assoc(t, k) == if k == s[i].0 {
        Some(v)
    } else {
        assoc(s, k)
    } by {
        if k == s[i].0 {
            lemma_assoc_found(t, i);
        } else if has_key(s, k) {
            let j = choose|j: int| 0 <= j < s.len() && s[j].0 == k;
            lemma_assoc_found(s, j);
            lemma_assoc_found(t, j);
        } else {
            lemma_assoc_absent(s, k);
            assert(!has_key(t, k)) by {
                if has_key(t, k) {
                    let j = choose|j: int| 0 <= j < t.len() && t[j].0 == k;
                    assert(s[j].0 == k);
                }
            }
            lemma_assoc_absent(t, k);
        }
    }
}

/// Inserting a pair with a fresh key binds it and leaves the others.
pub proof fn lemma_assoc_insert<K, V>(s: Seq<(K, V)>, p: int, k0: K, v: V)
    requires
        keys_unique(s),
        0 <= p <= s.len(),
        !has_key(s, k0),
    ensures
        keys_unique(s.insert(p, (k0, v))),
        forall|k: K| #[trigger]
            assoc(s.insert(p, (k0, v)), k) == if k == k0 {
                Some(v)
            } else {
                assoc(s, k)
            },
{
    let t = s.insert(p, (k0, v));
    assert forall|a: int, b: int| 0 <= a < b < t.len() implies t[a].0 != t[b].0 by {
        if a < p && b > p {
            assert(t[b] == s[b - 1]);
        } else if a == p {
            assert(t[b] == s[b - 1]);
            assert(s[b - 1].0 != k0);
        } else if b == p {
            assert(s[a].0 != k0);
        } else if a > p {
            assert(t[a] == s[a - 1] && t[b] == s[b - 1]);
        }
    }
    assert forall|k: K| #[trigger] assoc(t, k) == if k == k0 {
        Some(v)
    } else {
        assoc(s, k)
    } by {
        if k == k0 {
            assert(t[p].0 == k0);
            lemma_assoc_found(t, p);
        } else if has_key(s, k) {
            let j = choose|j: int| 0 <= j < s.len() && s[j].0 == k;
            lemma_assoc_found(s, j);
            if j < p {
                assert(t[j] == s[j]);
                lemma_assoc_found(t, j);
            } else {
                assert(t[j + 1] == s[j]);
                lemma_assoc_found(t, j + 1);
            }
        } else {
            lemma_assoc_absent(s, k);
            assert(!has_key(t, k)) by {
                if has_key(t, k) {
                    let j = choose|j: int| 0 <= j < t.len() && t[j].0 == k;
                    if j < p {
                        assert(s[j].0 == k);
                    } else if j > p {
                        assert(s[j - 1].0 == k);
                    }
                }
            }
            lemma_assoc_absent(t, k);
        }
    }
}

/// Removing a pair unbinds its key and leaves the others.
pub proof fn lemma_assoc_remove<K, V>(s: Seq<(K, V)>, i: int)
    requires
        keys_unique(s),
        0 <= i < s.len(),
    ensures
        keys_unique(s.remove(i)),
        forall|k: K| #[trigger]
            assoc(s.remove(i), k) == if k == s[i].0 {
                None
            } else {
                assoc(s, k)
            },
{
    let t = s.remove(i);
    assert forall|a: int, b: int| 0 <= a < b < t.len() implies t[a].0 != t[b].0 by {
        if a < i && b >= i {
            assert(t[b] == s[b + 1]);
        } else if a >= i {
            assert(t[a] == s[a + 1] && t[b] == s[b + 1]);
        }
    }
    assert forall|k: K| #[trigger] assoc(t, k) == if k == s[i].0 {
        None
    } else {
        assoc(s, k)
    } by {
        if k == s[i].0 {
            assert(!has_key(t, k)) by {
                if has_key(t, k) {
                    let j = choose|j: int| 0 <= j < t.len() && t[j].0 == k;
                    if j < i {
                        assert(s[j].0 == k);
                    } else {
                        assert(s[j + 1].0 == k);
                    }
                }
            }
            lemma_assoc_absent(t, k);
        } else if has_key(s, k) {
            let j = choose|j: int| 0 <= j < s.len() && s[j].0 == k;
            lemma_assoc_found(s, j);
            if j < i {
                assert(t[j] == s[j]);
                lemma_assoc_found(t, j);
            } else {
                assert(j != i);
                assert(t[j - 1] == s[j]);
                lemma_assoc_found(t, j - 1);
            }
        } else {
            lemma_assoc_absent(s, k);
            assert(!has_key(t, k)) by {
                if has_key(t, k) {
                    let j = choose|j: int| 0 <= j < t.len() && t[j].0 == k;
                    if j < i {
                        assert(s[j].0 == k);
                    } else {
                        assert(s[j + 1].0 == k);
                    }
                }
            }
            lemma_assoc_absent(t, k);
        }
    }
}

/// The map a list of counters denotes.
pub open spec fn map_of<K>(s: Seq<(K, u64)>) -> Map<K, nat> {
    Map::new(|k: K| has_key(s, k), |k: K| assoc(s, k).unwrap() as nat)
}

/// With unique keys, a key occurs exactly when it is bound.
pub proof fn lemma_has_key_iff_assoc<K, V>(s: Seq<(K, V)>, k: K)
    requires
        keys_unique(s),
    ensures
        has_key(s, k) <==> assoc(s, k) is Some,
{
    if has_key(s, k) {
        let i = choose|i: int| 0 <= i < s.len() && s[i].0 == k;
        lemma_assoc_found(s, i);
    } else {
        lemma_assoc_absent(s, k);
    }
}

/// Value of the map at a key of the list.
pub proof fn lemma_map_of_at<K>(s: Seq<(K, u64)>, i: int)
    requires
        keys_unique(s),
        0 <= i < s.len(),
    ensures
        map_of(s).contains_key(s[i].0),
        map_of(s)[s[i].0] == s[i].1 as nat,
{
    lemma_assoc_found(s, i);
}

/// A key absent from the list is absent from the map.
pub proof fn lemma_map_of_absent<K>(s: Seq<(K, u64)>, k: K)
    requires
        !has_key(s, k),
    ensures
        !map_of(s).contains_key(k),
{
}

/// Replacing a counter updates the map.
pub proof fn lemma_map_of_update<K>(s: Seq<(K, u64)>, i: int, v: u64)
    requires
        keys_unique(s),
        0 <= i < s.len(),
    ensures
        keys_unique(s.update(i, (s[i].0, v))),
        map_of(s.update(i, (s[i].0, v))) == map_of(s).insert(s[i].0, v as nat),
{
    let t = s.update(i, (s[i].0, v));
    lemma_assoc_update(s, i, v);
    assert forall|k: K| #[trigger] has_key(t, k) <==> has_key(s, k) by {
        lemma_has_key_iff_assoc(s, k);
        lemma_has_key_iff_assoc(t, k);
        if k == s[i].0 {
            lemma_assoc_found(s, i);
        }
    }
    assert(map_of(t) =~= map_of(s).insert(s[i].0, v as nat)) by {
        assert forall|k: K| map_of(t).contains_key(k) implies map_of(t)[k] == map_of(s).insert(
            s[i].0,
            v as nat,
        )[k] by {
            assert(assoc(t, k) == if k == s[i].0 {
                Some(v)
            } else {
                assoc(s, k)
            });
        }
        assert(has_key(s, s[i].0));
    }
}

/// Inserting a fresh counter extends the map.
pub proof fn lemma_map_of_insert<K>(s: Seq<(K, u64)>, p: int, k0: K, v: u64)
    requires
        keys_unique(s),
        0 <= p <= s.len(),
        !has_key(s, k0),
    ensures
        keys_unique(s.insert(p, (k0, v))),
        map_of(s.insert(p, (k0, v))) == map_of(s).insert(k0, v as nat),
{
    let t = s.insert(p, (k0, v));
    lemma_assoc_insert(s, p, k0, v);
    assert forall|k: K| #[trigger] has_key(t, k) <==> (has_key(s, k) || k == k0) by {
        lemma_has_key_iff_assoc(s, k);
        lemma_has_key_iff_assoc(t, k);
    }
    assert(map_of(t) =~= map_of(s).insert(k0, v as nat)) by {
        assert forall|k: K| map_of(t).contains_key(k) implies map_of(t)[k] == map_of(s).insert(
            k0,
            v as nat,
        )[k] by {
            assert(assoc(t, k) == if k == k0 {
                Some(v)
            } else {
                assoc(s, k)
            });
        }
    }
}

/// Removing a counter removes its key from the map.
pub proof fn lemma_map_of_remove<K>(s: Seq<(K, u64)>, i: int)
    requires
        keys_unique(s),
        0 <= i < s.len(),
    ensures
        keys_unique(s.remove(i)),
        map_of(s.remove(i)) == map_of(s).remove(s[i].0),
{
    let t = s.remove(i);
    lemma_assoc_remove(s, i);
    assert forall|k: K| #[trigger] has_key(t, k) <==> (has_key(s, k) && k != s[i].0) by {
        lemma_has_key_iff_assoc(s, k);
        lemma_has_key_iff_assoc(t, k);
    }
    assert(map_of(t) =~= map_of(s).remove(s[i].0)) by {
        assert forall|k: K| map_of(t).contains_key(k) implies map_of(t)[k] == map_of(s).remove(
            s[i].0,
        )[k] by {
            assert(assoc(t, k) == if k == s[i].0 {
                None
            } else {
                assoc(s, k)
            });
        }
    }
}

/// With unique keys, the map has one entry per pair.
pub proof fn lemma_map_of_len<K>(s: Seq<(K, u64)>)
    requires
        keys_unique(s),
    ensures
        map_of(s).dom().finite(),
        map_of(s).dom().len() == s.len(),
    decreases s.len(),
{
    if s.len() == 0 {
        assert(map_of(s).dom() =~= Set::<K>::empty());
    } else {
        let t = s.drop_last();
        assert(keys_unique(t));
        lemma_map_of_len(t);
        assert(!has_key(t, s.last().0)) by {
            if has_key(t, s.last().0) {
                let j = choose|j: int| 0 <= j < t.len() && t[j].0 == s.last().0;
                assert(s[j].0 == s[s.len() - 1].0);
            }
        }
        assert(map_of(s).dom() =~= map_of(t).dom().insert(s.last().0)) by {
            assert forall|k: K| has_key(s, k) <==> (has_key(t, k) || k == s.last().0) by {
                if has_key(s, k) && k != s.last().0 {
                    let j = choose|j: int| 0 <= j < s.len() && s[j].0 == k;
                    assert(j != s.len() - 1);
                    assert(t[j].0 == k);
                }
                if has_key(t, k) {
                    let j = choose|j: int| 0 <= j < t.len() && t[j].0 == k;
                    assert(s[j].0 == k);
                }
                if k == s.last().0 {
                    assert(s[s.len() - 1].0 == k);
                }
            }
        }
    }
}

} // verus!
