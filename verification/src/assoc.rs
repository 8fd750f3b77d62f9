//! Association lists: sequences of records in which a key function picks out
//! each record's key, no key occurring twice. Such a list stands for the map
//! from each key to the record that carries it. The graph keeps all its stores
//! this way (most are keyed by entity-id strings), and the hub keeps its
//! sessions this way, in the order they connected.

use vstd::prelude::*;

verus! {

/// No two records of `s` carry the same key.
pub open spec fn unique_keys<T, K>(s: Seq<T>, key: spec_fn(T) -> K) -> bool {
    forall|i: int, j: int|
        0 <= i < s.len() && 0 <= j < s.len() && i != j ==> key(#[trigger] s[i]) != key(
            #[trigger] s[j],
        )
}

/// Some record of `s` carries key `k`.
pub open spec fn has_key<T, K>(s: Seq<T>, key: spec_fn(T) -> K, k: K) -> bool {
    exists|i: int| 0 <= i < s.len() && key(#[trigger] s[i]) == k
}

/// The position of a record of `s` that carries key `k`.
pub open spec fn key_index<T, K>(s: Seq<T>, key: spec_fn(T) -> K, k: K) -> int {
    choose|i: int| 0 <= i < s.len() && key(#[trigger] s[i]) == k
}

/// The map from each key of `s` to the record that carries it.
pub open spec fn assoc_map<T, K>(s: Seq<T>, key: spec_fn(T) -> K) -> Map<K, T> {
    Map::new(|k: K| has_key(s, key, k), |k: K| s[key_index(s, key, k)])
}

/// A record of a list with unique keys is what the map holds under its key.
pub proof fn lemma_assoc_index<T, K>(s: Seq<T>, key: spec_fn(T) -> K, i: int)
    requires
        unique_keys(s, key),
        0 <= i < s.len(),
    ensures
        assoc_map(s, key).contains_key(key(s[i])),
        assoc_map(s, key)[key(s[i])] == s[i],
{
    assert(has_key(s, key, key(s[i])));
    let j = key_index(s, key, key(s[i]));
    assert(key(s[j]) == key(s[i]));
}

/// A key that no record carries is not in the map.
pub proof fn lemma_assoc_absent<T, K>(s: Seq<T>, key: spec_fn(T) -> K, k: K)
    requires
        forall|i: int| 0 <= i < s.len() ==> key(#[trigger] s[i]) != k,
    ensures
        !assoc_map(s, key).contains_key(k),
{
}

/// Appending a record under a new key inserts it into the map.
pub proof fn lemma_assoc_push<T, K>(s: Seq<T>, key: spec_fn(T) -> K, t: T)
    requires
        unique_keys(s, key),
        !assoc_map(s, key).contains_key(key(t)),
    ensures
        unique_keys(s.push(t), key),
        assoc_map(s.push(t), key) == assoc_map(s, key).insert(key(t), t),
{
    let s2 = s.push(t);
    assert forall|i: int| 0 <= i < s.len() implies key(#[trigger] s[i]) != key(t) by {
        if key(s[i]) == key(t) {
            assert(has_key(s, key, key(t)));
        }
    }
    assert(unique_keys(s2, key)) by {
        assert forall|i: int, j: int|
            0 <= i < s2.len() && 0 <= j < s2.len() && i != j implies key(#[trigger] s2[i]) != key(
            #[trigger] s2[j],
        ) by {
            if i < s.len() && j < s.len() {
                assert(s2[i] == s[i] && s2[j] == s[j]);
            } else if i < s.len() {
                assert(s2[i] == s[i]);
            } else {
                assert(s2[j] == s[j]);
            }
        }
    }
    let m = assoc_map(s, key);
    let m2 = assoc_map(s2, key);
    assert forall|k: K| #[trigger] m2.contains_key(k) <==> m.insert(key(t), t).contains_key(k) by {
        if m2.contains_key(k) {
            let i = choose|i: int| 0 <= i < s2.len() && key(#[trigger] s2[i]) == k;
            if i < s.len() {
                assert(s2[i] == s[i]);
                assert(has_key(s, key, k));
            }
        }
        if m.contains_key(k) {
            let i = choose|i: int| 0 <= i < s.len() && key(#[trigger] s[i]) == k;
            assert(s2[i] == s[i]);
            assert(has_key(s2, key, k));
        }
        if k == key(t) {
            assert(s2[s.len() as int] == t);
            assert(has_key(s2, key, k));
        }
    }
    assert forall|k: K| #[trigger] m2.contains_key(k) implies m2[k] == m.insert(key(t), t)[k] by {
        let i = choose|i: int| 0 <= i < s2.len() && key(#[trigger] s2[i]) == k;
        lemma_assoc_index(s2, key, i);
        if i < s.len() {
            assert(s2[i] == s[i]);
            lemma_assoc_index(s, key, i);
        } else {
            assert(s2[i] == t);
        }
    }
    assert(m2 =~= m.insert(key(t), t));
}

/// Replacing a record by one with the same key updates the map under that key.
pub proof fn lemma_assoc_update<T, K>(s: Seq<T>, key: spec_fn(T) -> K, i: int, t: T)
    requires
        unique_keys(s, key),
        0 <= i < s.len(),
        key(t) == key(s[i]),
    ensures
        unique_keys(s.update(i, t), key),
        assoc_map(s.update(i, t), key) == assoc_map(s, key).insert(key(t), t),
{
    let s2 = s.update(i, t);
    assert(unique_keys(s2, key)) by {
        assert forall|a: int, b: int|
            0 <= a < s2.len() && 0 <= b < s2.len() && a != b implies key(#[trigger] s2[a]) != key(
            #[trigger] s2[b],
        ) by {
            assert(key(s2[a]) == key(s[a]));
            assert(key(s2[b]) == key(s[b]));
        }
    }
    let m = assoc_map(s, key);
    let m2 = assoc_map(s2, key);
    lemma_assoc_index(s, key, i);
    assert forall|k: K| #[trigger] m2.contains_key(k) <==> m.insert(key(t), t).contains_key(k) by {
        if m2.contains_key(k) {
            let j = choose|j: int| 0 <= j < s2.len() && key(#[trigger] s2[j]) == k;
            assert(key(s2[j]) == key(s[j]));
            assert(has_key(s, key, k));
        }
        if m.contains_key(k) {
            let j = choose|j: int| 0 <= j < s.len() && key(#[trigger] s[j]) == k;
            assert(key(s2[j]) == key(s[j]));
            assert(has_key(s2, key, k));
        }
    }
    assert forall|k: K| #[trigger] m2.contains_key(k) implies m2[k] == m.insert(key(t), t)[k] by {
        let j = choose|j: int| 0 <= j < s2.len() && key(#[trigger] s2[j]) == k;
        lemma_assoc_index(s2, key, j);
        if j != i {
            assert(s2[j] == s[j]);
            lemma_assoc_index(s, key, j);
        }
    }
    assert(m2 =~= m.insert(key(t), t));
}

/// Removing the record at a position removes its key from the map.
pub proof fn lemma_assoc_remove<T, K>(s: Seq<T>, key: spec_fn(T) -> K, i: int)
    requires
        unique_keys(s, key),
        0 <= i < s.len(),
    ensures
        unique_keys(s.remove(i), key),
        assoc_map(s.remove(i), key) == assoc_map(s, key).remove(key(s[i])),
{
    let s2 = s.remove(i);
    assert forall|a: int| 0 <= a < s2.len() implies #[trigger] s2[a] == s[if a < i {
        a
    } else {
        a + 1
    }] by {}
    assert(unique_keys(s2, key)) by {
        assert forall|a: int, b: int|
            0 <= a < s2.len() && 0 <= b < s2.len() && a != b implies key(#[trigger] s2[a]) != key(
            #[trigger] s2[b],
        ) by {
            let a1 = if a < i {
                a
            } else {
                a + 1
            };
            let b1 = if b < i {
                b
            } else {
                b + 1
            };
            assert(s2[a] == s[a1]);
            assert(s2[b] == s[b1]);
        }
    }
    let m = assoc_map(s, key);
    let m2 = assoc_map(s2, key);
    assert forall|k: K| #[trigger] m2.contains_key(k) <==> m.remove(key(s[i])).contains_key(k) by {
        if m2.contains_key(k) {
            let a = choose|a: int| 0 <= a < s2.len() && key(#[trigger] s2[a]) == k;
            let a1 = if a < i {
                a
            } else {
                a + 1
            };
            assert(s2[a] == s[a1]);
            assert(has_key(s, key, k));
        }
        if m.contains_key(k) && k != key(s[i]) {
            let a1 = choose|a: int| 0 <= a < s.len() && key(#[trigger] s[a]) == k;
            assert(a1 != i);
            let a = if a1 < i {
                a1
            } else {
                a1 - 1
            };
            assert(s2[a] == s[a1]);
            assert(has_key(s2, key, k));
        }
    }
    assert forall|k: K| #[trigger] m2.contains_key(k) implies m2[k] == m.remove(key(s[i]))[k] by {
        let a = choose|a: int| 0 <= a < s2.len() && key(#[trigger] s2[a]) == k;
        let a1 = if a < i {
            a
        } else {
            a + 1
        };
        assert(s2[a] == s[a1]);
        lemma_assoc_index(s2, key, a);
        lemma_assoc_index(s, key, a1);
    }
    assert(m2 =~= m.remove(key(s[i])));
}

/// The position of the last record of `s` that carries key `k`, or -1.
pub open spec fn last_index<T, K>(s: Seq<T>, key: spec_fn(T) -> K, k: K) -> int
    decreases s.len(),
{
    if s.len() == 0 {
        -1
    } else if key(s.last()) == k {
        s.len() - 1
    } else {
        last_index(s.drop_last(), key, k)
    }
}

/// What [`last_index`] finds.
pub proof fn lemma_last_index<T, K>(s: Seq<T>, key: spec_fn(T) -> K, k: K)
    ensures
        -1 <= last_index(s, key, k) < s.len(),
        last_index(s, key, k) == -1 <==> forall|i: int| 0 <= i < s.len() ==> key(#[trigger] s[i]) != k,
        last_index(s, key, k) >= 0 ==> key(s[last_index(s, key, k)]) == k,
        forall|j: int| last_index(s, key, k) < j < s.len() ==> key(#[trigger] s[j]) != k,
    decreases s.len(),
{
    if s.len() > 0 {
        lemma_last_index(s.drop_last(), key, k);
        if key(s.last()) != k {
            assert forall|i: int| 0 <= i < s.len() - 1 implies s.drop_last()[i] == s[i] by {}
            if last_index(s.drop_last(), key, k) == -1 {
                assert forall|i: int| 0 <= i < s.len() implies key(#[trigger] s[i]) != k by {
                    if i < s.len() - 1 {
                        assert(key(s.drop_last()[i]) != k);
                    }
                }
            }
            assert forall|j: int| last_index(s, key, k) < j < s.len() implies key(#[trigger] s[j]) != k by {
                if j < s.len() - 1 {
                    assert(key(s.drop_last()[j]) != k);
                }
            }
        }
    }
}

/// A position holding key `k` with no later record holding `k` is what
/// [`last_index`] finds.
pub proof fn lemma_last_index_is<T, K>(s: Seq<T>, key: spec_fn(T) -> K, k: K, j: int)
    requires
        0 <= j < s.len(),
        key(s[j]) == k,
        forall|m: int| j < m < s.len() ==> key(#[trigger] s[m]) != k,
    ensures
        last_index(s, key, k) == j,
    decreases s.len(),
{
    if j < s.len() - 1 {
        assert(key(s[s.len() - 1]) != k);
        assert forall|m: int| j < m < s.len() - 1 implies key(#[trigger] s.drop_last()[m]) != k by {
            assert(s.drop_last()[m] == s[m]);
        }
        lemma_last_index_is(s.drop_last(), key, k, j);
    }
}

/// When no record holds key `k`, [`last_index`] finds nothing.
pub proof fn lemma_last_index_none<T, K>(s: Seq<T>, key: spec_fn(T) -> K, k: K)
    requires
        forall|m: int| 0 <= m < s.len() ==> key(#[trigger] s[m]) != k,
    ensures
        last_index(s, key, k) == -1,
{
    lemma_last_index(s, key, k);
}

} // verus!
