//! Sequences of entities with unique keys, seen as maps from key to entity.
use vstd::prelude::*;

verus! {

/// No two entries of `s` have the same key.
pub open spec fn keys_unique<K, V>(s: Seq<V>, key: spec_fn(V) -> K) -> bool {
    forall|i: int, j: int|
        0 <= i < s.len() && 0 <= j < s.len() && i != j ==> key(#[trigger] s[i]) != key(
            #[trigger] s[j],
        )
}

/// Whether some entry of `s` has key `k`.
pub open spec fn has_entry<K, V>(s: Seq<V>, key: spec_fn(V) -> K, k: K) -> bool {
    exists|i: int| 0 <= i < s.len() && key(#[trigger] s[i]) == k
}

/// The map from each key to the entry of `s` that has it.
pub open spec fn table<K, V>(s: Seq<V>, key: spec_fn(V) -> K) -> Map<K, V> {
    Map::new(
        |k: K| has_entry(s, key, k),
        |k: K| s[choose|i: int| 0 <= i < s.len() && key(#[trigger] s[i]) == k],
    )
}

/// In a sequence of unique keys, the map gives each entry under its key.
pub proof fn lemma_table_index<K, V>(s: Seq<V>, key: spec_fn(V) -> K, i: int)
    requires
        keys_unique(s, key),
        0 <= i < s.len(),
    ensures
        table(s, key).contains_key(key(s[i])),
        table(s, key)[key(s[i])] == s[i],
{
    let k = key(s[i]);
    assert(has_entry(s, key, k));
    let j = choose|j: int| 0 <= j < s.len() && key(#[trigger] s[j]) == k;
    assert(i == j);
}

/// Replacing an entry by one with the same key replaces it in the map.
pub proof fn lemma_table_update<K, V>(s: Seq<V>, key: spec_fn(V) -> K, i: int, v: V)
    requires
        keys_unique(s, key),
        0 <= i < s.len(),
        key(v) == key(s[i]),
    ensures
        keys_unique(s.update(i, v), key),
        table(s.update(i, v), key) == table(s, key).insert(key(v), v),
{
    let t = s.update(i, v);
    assert(keys_unique(t, key)) by {
        assert forall|a: int, b: int|
            0 <= a < t.len() && 0 <= b < t.len() && a != b implies key(#[trigger] t[a]) != key(
            #[trigger] t[b],
        ) by {
            assert(key(t[a]) == key(s[a]));
            assert(key(t[b]) == key(s[b]));
        }
    }
    assert forall|k: K| #[trigger] has_entry(t, key, k) == has_entry(s, key, k) by {
        if has_entry(t, key, k) {
            let j = choose|j: int| 0 <= j < t.len() && key(#[trigger] t[j]) == k;
            assert(key(s[j]) == k);
        }
        if has_entry(s, key, k) {
            let j = choose|j: int| 0 <= j < s.len() && key(#[trigger] s[j]) == k;
            assert(key(t[j]) == k);
        }
    }
    assert forall|k: K| #[trigger] table(t, key).contains_key(k) implies table(t, key)[k] == table(
        s,
        key,
    ).insert(key(v), v)[k] by {
        let j = choose|j: int| 0 <= j < t.len() && key(#[trigger] t[j]) == k;
        lemma_table_index(t, key, j);
        if j != i {
            lemma_table_index(s, key, j);
        }
    }
    assert(table(t, key) =~= table(s, key).insert(key(v), v));
}

/// Appending an entry of a new key adds it to the map.
pub proof fn lemma_table_push<K, V>(s: Seq<V>, key: spec_fn(V) -> K, v: V)
    requires
        keys_unique(s, key),
        !has_entry(s, key, key(v)),
    ensures
        keys_unique(s.push(v), key),
        table(s.push(v), key) == table(s, key).insert(key(v), v),
{
    let t = s.push(v);
    assert(keys_unique(t, key)) by {
        assert forall|a: int, b: int|
            0 <= a < t.len() && 0 <= b < t.len() && a != b implies key(#[trigger] t[a]) != key(
            #[trigger] t[b],
        ) by {
            if a < s.len() && b < s.len() {
                assert(t[a] == s[a] && t[b] == s[b]);
            } else if a < s.len() {
                assert(t[a] == s[a]);
            } else {
                assert(t[b] == s[b]);
            }
        }
    }
    assert forall|k: K| #[trigger] has_entry(t, key, k) == (has_entry(s, key, k) || k == key(v)) by {
        if has_entry(t, key, k) {
            let j = choose|j: int| 0 <= j < t.len() && key(#[trigger] t[j]) == k;
            if j < s.len() {
                assert(key(s[j]) == k);
            }
        }
        if has_entry(s, key, k) {
            let j = choose|j: int| 0 <= j < s.len() && key(#[trigger] s[j]) == k;
            assert(key(t[j]) == k);
        }
        if k == key(v) {
            assert(key(t[s.len() as int]) == k);
        }
    }
    assert forall|k: K| #[trigger] table(t, key).contains_key(k) implies table(t, key)[k] == table(
        s,
        key,
    ).insert(key(v), v)[k] by {
        let j = choose|j: int| 0 <= j < t.len() && key(#[trigger] t[j]) == k;
        lemma_table_index(t, key, j);
        if j < s.len() {
            assert(t[j] == s[j]);
            lemma_table_index(s, key, j);
        }
    }
    assert(table(t, key) =~= table(s, key).insert(key(v), v));
}

} // verus!
