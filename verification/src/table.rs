//! Keyed tables kept as sequences of records with unique keys.

use vstd::prelude::*;

verus! {

/// No two records of `s` share a key.
pub open spec fn keys_unique<K, V>(s: Seq<V>, key: spec_fn(V) -> K) -> bool {
    forall|i: int, j: int| 0 <= i < s.len() && 0 <= j < s.len() && i != j ==> key(s[i]) != key(s[j])
}

/// The map from each key to the last record with that key.
pub open spec fn table_of<K, V>(s: Seq<V>, key: spec_fn(V) -> K) -> Map<K, V>
    decreases s.len(),
{
    if s.len() == 0 {
        Map::empty()
    } else {
        table_of(s.drop_last(), key).insert(key(s.last()), s.last())
    }
}

/// A key is in the table exactly when some record has it.
pub proof fn lemma_table_dom<K, V>(s: Seq<V>, key: spec_fn(V) -> K, k: K)
    ensures
        table_of(s, key).contains_key(k) <==> exists|i: int| 0 <= i < s.len() && key(s[i]) == k,
    decreases s.len(),
{
    if s.len() > 0 {
        let p = s.drop_last();
        lemma_table_dom(p, key, k);
        if table_of(s, key).contains_key(k) {
            if key(s.last()) == k {
                assert(key(s[s.len() - 1]) == k);
            } else {
                let i = choose|i: int| 0 <= i < p.len() && key(p[i]) == k;
                assert(s[i] == p[i]);
            }
        }
        if exists|i: int| 0 <= i < s.len() && key(s[i]) == k {
            let i = choose|i: int| 0 <= i < s.len() && key(s[i]) == k;
            if i < s.len() - 1 {
                assert(p[i] == s[i]);
            }
        }
    }
}

/// With unique keys, the table maps each record's key to that record.
pub proof fn lemma_table_value<K, V>(s: Seq<V>, key: spec_fn(V) -> K, i: int)
    requires
        keys_unique(s, key),
        0 <= i < s.len(),
    ensures
        table_of(s, key).contains_key(key(s[i])),
        table_of(s, key)[key(s[i])] == s[i],
    decreases s.len(),
{
    let p = s.drop_last();
    if i < s.len() - 1 {
        assert(keys_unique(p, key)) by {
            assert forall|a: int, b: int| 0 <= a < p.len() && 0 <= b < p.len() && a != b implies key(p[a]) != key(p[b]) by {
                assert(p[a] == s[a] && p[b] == s[b]);
            }
        }
        lemma_table_value(p, key, i);
        assert(p[i] == s[i]);
        assert(key(s[i]) != key(s[s.len() - 1]));
    }
}

/// Appending a record with a new key adds that key.
pub proof fn lemma_table_push<K, V>(s: Seq<V>, key: spec_fn(V) -> K, v: V)
    requires
        keys_unique(s, key),
        !table_of(s, key).contains_key(key(v)),
    ensures
        keys_unique(s.push(v), key),
        table_of(s.push(v), key) == table_of(s, key).insert(key(v), v),
{
    assert(s.push(v).drop_last() == s);
    assert forall|a: int, b: int| 0 <= a < s.push(v).len() && 0 <= b < s.push(v).len() && a != b
        implies key(s.push(v)[a]) != key(s.push(v)[b]) by {
        if a == s.len() {
            lemma_table_dom(s, key, key(v));
            assert(s.push(v)[b] == s[b]);
        } else if b == s.len() {
            lemma_table_dom(s, key, key(v));
            assert(s.push(v)[a] == s[a]);
        }
    }
}

/// Replacing a record by one with the same key replaces the key's value.
pub proof fn lemma_table_update<K, V>(s: Seq<V>, key: spec_fn(V) -> K, i: int, v: V)
    requires
        keys_unique(s, key),
        0 <= i < s.len(),
        key(v) == key(s[i]),
    ensures
        keys_unique(s.update(i, v), key),
        table_of(s.update(i, v), key) == table_of(s, key).insert(key(v), v),
{
    let t = s.update(i, v);
    assert(keys_unique(t, key)) by {
        assert forall|a: int, b: int| 0 <= a < t.len() && 0 <= b < t.len() && a != b implies key(t[a]) != key(t[b]) by {
            assert(key(t[a]) == key(s[a]) && key(t[b]) == key(s[b]));
        }
    }
    let m1 = table_of(t, key);
    let m2 = table_of(s, key).insert(key(v), v);
    assert forall|k: K| m1.contains_key(k) <==> m2.contains_key(k) by {
        lemma_table_dom(t, key, k);
        lemma_table_dom(s, key, k);
        if exists|j: int| 0 <= j < s.len() && key(s[j]) == k {
            let j = choose|j: int| 0 <= j < s.len() && key(s[j]) == k;
            assert(key(t[j]) == k);
        }
        if exists|j: int| 0 <= j < t.len() && key(t[j]) == k {
            let j = choose|j: int| 0 <= j < t.len() && key(t[j]) == k;
            assert(key(s[j]) == k);
        }
    }
    assert forall|k: K| m1.contains_key(k) implies m1[k] == m2[k] by {
        lemma_table_dom(t, key, k);
        let j = choose|j: int| 0 <= j < t.len() && key(t[j]) == k;
        lemma_table_value(t, key, j);
        if j != i {
            lemma_table_value(s, key, j);
        }
    }
    assert(m1 =~= m2);
}

} // verus!
