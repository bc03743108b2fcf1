//! Sequences of records with distinct keys, read as maps from key to record.
use vstd::prelude::*;

verus! {

/// No two records of `s` share a key.
pub open spec fn keys_unique<T>(s: Seq<T>, key: spec_fn(T) -> Seq<char>) -> bool {
    forall|i: int, j: int| 0 <= i < j < s.len() ==> key(s[i]) != key(s[j])
}

/// The map from key to record that `s` stands for (a later record wins).
pub open spec fn keyed_map<T>(s: Seq<T>, key: spec_fn(T) -> Seq<char>) -> Map<Seq<char>, T>
    decreases s.len(),
{
    if s.len() == 0 {
        Map::empty()
    } else {
        keyed_map(s.drop_last(), key).insert(key(s.last()), s.last())
    }
}

/// A key is in the map exactly when some record has it.
pub proof fn lemma_keyed_dom<T>(s: Seq<T>, key: spec_fn(T) -> Seq<char>, k: Seq<char>)
    ensures
        keyed_map(s, key).dom().contains(k) <==> exists|i: int| 0 <= i < s.len() && key(#[trigger] s[i]) == k,
    decreases s.len(),
{
    if s.len() > 0 {
        lemma_keyed_dom(s.drop_last(), key, k);
        if keyed_map(s.drop_last(), key).dom().contains(k) {
            let i = choose|i: int| 0 <= i < s.drop_last().len() && key(#[trigger] s.drop_last()[i]) == k;
            assert(s[i] == s.drop_last()[i]);
        }
        if exists|i: int| 0 <= i < s.len() && key(#[trigger] s[i]) == k {
            let i = choose|i: int| 0 <= i < s.len() && key(#[trigger] s[i]) == k;
            if i < s.len() - 1 {
                assert(s.drop_last()[i] == s[i]);
            }
        }
    }
}

/// With distinct keys, each record is the map's value at its key.
pub proof fn lemma_keyed_value<T>(s: Seq<T>, key: spec_fn(T) -> Seq<char>, i: int)
    requires
        keys_unique(s, key),
        0 <= i < s.len(),
    ensures
        keyed_map(s, key).dom().contains(key(s[i])),
        keyed_map(s, key)[key(s[i])] == s[i],
    decreases s.len(),
{
    if i < s.len() - 1 {
        assert(s.drop_last()[i] == s[i]);
        lemma_keyed_value(s.drop_last(), key, i);
    }
}

/// Replacing a record by one with the same key keeps keys distinct and
/// updates the map at that key.
pub proof fn lemma_keyed_update<T>(s: Seq<T>, key: spec_fn(T) -> Seq<char>, i: int, x: T)
    requires
        keys_unique(s, key),
        0 <= i < s.len(),
        key(s[i]) == key(x),
    ensures
        keys_unique(s.update(i, x), key),
        keyed_map(s.update(i, x), key) == keyed_map(s, key).insert(key(x), x),
{
    let t = s.update(i, x);
    let k = key(x);
    assert forall|a: int, b: int| 0 <= a < b < t.len() implies key(t[a]) != key(t[b]) by {
        if a != i && b != i {
            assert(t[a] == s[a] && t[b] == s[b]);
        } else if a == i {
            assert(t[b] == s[b]);
        } else {
            assert(t[a] == s[a]);
        }
    }
    assert forall|q: Seq<char>| keyed_map(t, key).dom().contains(q) <==> keyed_map(s, key).insert(k, x).dom().contains(q) by {
        lemma_keyed_dom(t, key, q);
        lemma_keyed_dom(s, key, q);
        if exists|j: int| 0 <= j < s.len() && key(#[trigger] s[j]) == q {
            let j = choose|j: int| 0 <= j < s.len() && key(#[trigger] s[j]) == q;
            if j == i {
                assert(key(t[j]) == q);
            } else {
                assert(t[j] == s[j]);
            }
        }
        if exists|j: int| 0 <= j < t.len() && key(#[trigger] t[j]) == q {
            let j = choose|j: int| 0 <= j < t.len() && key(#[trigger] t[j]) == q;
            if j != i {
                assert(t[j] == s[j]);
            }
        }
    }
    assert forall|q: Seq<char>| #[trigger] keyed_map(t, key).dom().contains(q) implies keyed_map(t, key)[q]
        == keyed_map(s, key).insert(k, x)[q] by {
        lemma_keyed_dom(t, key, q);
        let j = choose|j: int| 0 <= j < t.len() && key(#[trigger] t[j]) == q;
        lemma_keyed_value(t, key, j);
        if j != i {
            assert(t[j] == s[j]);
            lemma_keyed_value(s, key, j);
        }
    }
    assert(keyed_map(t, key) =~= keyed_map(s, key).insert(k, x));
}

/// Appending a record with a new key keeps keys distinct and adds it to the map.
pub proof fn lemma_keyed_push<T>(s: Seq<T>, key: spec_fn(T) -> Seq<char>, x: T)
    requires
        keys_unique(s, key),
        forall|i: int| 0 <= i < s.len() ==> key(#[trigger] s[i]) != key(x),
    ensures
        keys_unique(s.push(x), key),
        keyed_map(s.push(x), key) == keyed_map(s, key).insert(key(x), x),
{
    assert(s.push(x).drop_last() == s);
    assert forall|a: int, b: int| 0 <= a < b < s.push(x).len() implies key(s.push(x)[a]) != key(
        s.push(x)[b],
    ) by {
        if b == s.len() {
            assert(s.push(x)[a] == s[a]);
        } else {
            assert(s.push(x)[a] == s[a] && s.push(x)[b] == s[b]);
        }
    }
}

} // verus!
