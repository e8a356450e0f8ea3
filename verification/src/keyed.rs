//! Vectors used as maps: each element carries its key, and no key occurs twice. The
//! lemmas relate vector edits to map edits.

use vstd::prelude::*;

verus! {

/// No two elements of `s` have the same key.
pub open spec fn unique_keys<T, K>(s: Seq<T>, key: spec_fn(T) -> K) -> bool {
    forall|i: int, j: int| 0 <= i < s.len() && 0 <= j < s.len() && i != j ==> key(s[i]) != key(s[j])
}

/// Whether some element of `s` has key `k`.
pub open spec fn has_key<T, K>(s: Seq<T>, key: spec_fn(T) -> K, k: K) -> bool {
    exists|i: int| 0 <= i < s.len() && key(s[i]) == k
}

/// The map from each key of `s` to the value of its element.
pub open spec fn keyed_map<T, K, V>(s: Seq<T>, key: spec_fn(T) -> K, val: spec_fn(T) -> V) -> Map<K, V> {
    Map::new(
        |k: K| has_key(s, key, k),
        |k: K| val(s[choose|i: int| 0 <= i < s.len() && key(s[i]) == k]),
    )
}

/// The value the map gives to the key of an element is that element's value.
pub proof fn lemma_keyed_get<T, K, V>(s: Seq<T>, key: spec_fn(T) -> K, val: spec_fn(T) -> V, i: int)
    requires
        unique_keys(s, key),
        0 <= i < s.len(),
    ensures
        keyed_map(s, key, val).dom().contains(key(s[i])),
        keyed_map(s, key, val)[key(s[i])] == val(s[i]),
{
    let k = key(s[i]);
    assert(has_key(s, key, k));
    let j = choose|j: int| 0 <= j < s.len() && key(s[j]) == k;
    assert(j == i);
}

/// Appending an element with a new key adds that key.
pub proof fn lemma_keyed_push<T, K, V>(s: Seq<T>, key: spec_fn(T) -> K, val: spec_fn(T) -> V, e: T)
    requires
        unique_keys(s, key),
        !has_key(s, key, key(e)),
    ensures
        unique_keys(s.push(e), key),
        keyed_map(s.push(e), key, val) == keyed_map(s, key, val).insert(key(e), val(e)),
{
    let t = s.push(e);
    assert forall|i: int, j: int| 0 <= i < t.len() && 0 <= j < t.len() && i != j implies key(t[i]) != key(t[j]) by {
        if i < s.len() && j < s.len() {
            assert(t[i] == s[i] && t[j] == s[j]);
        } else if i < s.len() {
            assert(t[i] == s[i]);
            assert(t[j] == e);
        } else {
            assert(t[j] == s[j]);
            assert(t[i] == e);
        }
    }
    let m = keyed_map(t, key, val);
    let n = keyed_map(s, key, val).insert(key(e), val(e));
    assert forall|k: K| #[trigger] m.dom().contains(k) <==> n.dom().contains(k) by {
        if has_key(t, key, k) {
            let i = choose|i: int| 0 <= i < t.len() && key(t[i]) == k;
            if i < s.len() {
                assert(t[i] == s[i]);
                assert(has_key(s, key, k));
            }
        }
        if has_key(s, key, k) {
            let i = choose|i: int| 0 <= i < s.len() && key(s[i]) == k;
            assert(t[i] == s[i]);
            assert(has_key(t, key, k));
        }
        if k == key(e) {
            assert(t[s.len() as int] == e);
            assert(has_key(t, key, k));
        }
    }
    assert forall|k: K| m.dom().contains(k) implies #[trigger] m[k] == n[k] by {
        let i = choose|i: int| 0 <= i < t.len() && key(t[i]) == k;
        lemma_keyed_get(t, key, val, i);
        if i < s.len() {
            assert(t[i] == s[i]);
            lemma_keyed_get(s, key, val, i);
        } else {
            assert(t[i] == e);
        }
    }
    assert(m =~= n);
}

/// Replacing an element by one with the same key changes that key's value.
pub proof fn lemma_keyed_update<T, K, V>(s: Seq<T>, key: spec_fn(T) -> K, val: spec_fn(T) -> V, i: int, e: T)
    requires
        unique_keys(s, key),
        0 <= i < s.len(),
        key(e) == key(s[i]),
    ensures
        unique_keys(s.update(i, e), key),
        keyed_map(s.update(i, e), key, val) == keyed_map(s, key, val).insert(key(e), val(e)),
{
    let t = s.update(i, e);
    assert forall|a: int, b: int| 0 <= a < t.len() && 0 <= b < t.len() && a != b implies key(t[a]) != key(t[b]) by {
        assert(key(t[a]) == key(s[a]));
        assert(key(t[b]) == key(s[b]));
    }
    let m = keyed_map(t, key, val);
    let n = keyed_map(s, key, val).insert(key(e), val(e));
    assert forall|k: K| #[trigger] m.dom().contains(k) <==> n.dom().contains(k) by {
        if has_key(t, key, k) {
            let j = choose|j: int| 0 <= j < t.len() && key(t[j]) == k;
            assert(key(s[j]) == k);
        }
        if has_key(s, key, k) {
            let j = choose|j: int| 0 <= j < s.len() && key(s[j]) == k;
            assert(key(t[j]) == k);
        }
        if k == key(e) {
            assert(key(t[i]) == k);
        }
    }
    assert forall|k: K| m.dom().contains(k) implies #[trigger] m[k] == n[k] by {
        let j = choose|j: int| 0 <= j < t.len() && key(t[j]) == k;
        lemma_keyed_get(t, key, val, j);
        if j != i {
            assert(t[j] == s[j]);
            lemma_keyed_get(s, key, val, j);
        }
    }
    assert(m =~= n);
}

/// Removing an element removes its key.
pub proof fn lemma_keyed_remove<T, K, V>(s: Seq<T>, key: spec_fn(T) -> K, val: spec_fn(T) -> V, i: int)
    requires
        unique_keys(s, key),
        0 <= i < s.len(),
    ensures
        unique_keys(s.remove(i), key),
        keyed_map(s.remove(i), key, val) == keyed_map(s, key, val).remove(key(s[i])),
{
    let t = s.remove(i);
    let idx = |a: int| if a < i { a } else { a + 1 };
    assert forall|a: int| 0 <= a < t.len() implies #[trigger] t[a] == s[idx(a)] by {}
    assert forall|a: int, b: int| 0 <= a < t.len() && 0 <= b < t.len() && a != b implies key(t[a]) != key(t[b]) by {
        assert(t[a] == s[idx(a)]);
        assert(t[b] == s[idx(b)]);
    }
    let m = keyed_map(t, key, val);
    let n = keyed_map(s, key, val).remove(key(s[i]));
    assert forall|k: K| #[trigger] m.dom().contains(k) <==> n.dom().contains(k) by {
        if has_key(t, key, k) {
            let a = choose|a: int| 0 <= a < t.len() && key(t[a]) == k;
            assert(t[a] == s[idx(a)]);
            assert(has_key(s, key, k));
            assert(idx(a) != i);
        }
        if has_key(s, key, k) && k != key(s[i]) {
            let a = choose|a: int| 0 <= a < s.len() && key(s[a]) == k;
            assert(a != i);
            let b = if a < i { a } else { a - 1 };
            assert(t[b] == s[a]);
            assert(has_key(t, key, k));
        }
    }
    assert forall|k: K| m.dom().contains(k) implies #[trigger] m[k] == n[k] by {
        let a = choose|a: int| 0 <= a < t.len() && key(t[a]) == k;
        lemma_keyed_get(t, key, val, a);
        assert(t[a] == s[idx(a)]);
        lemma_keyed_get(s, key, val, idx(a));
    }
    assert(m =~= n);
}

/// Changing the values of elements in place, keeping their keys, changes the map by the
/// same function.
pub proof fn lemma_keyed_map_values<T, K, V>(
    s: Seq<T>,
    t: Seq<T>,
    key: spec_fn(T) -> K,
    val: spec_fn(T) -> V,
    f: spec_fn(V) -> V,
)
    requires
        unique_keys(s, key),
        t.len() == s.len(),
        forall|i: int| 0 <= i < s.len() ==> key(#[trigger] t[i]) == key(s[i]) && val(t[i]) == f(val(s[i])),
    ensures
        unique_keys(t, key),
        keyed_map(t, key, val) == keyed_map(s, key, val).map_values(f),
{
    assert forall|a: int, b: int| 0 <= a < t.len() && 0 <= b < t.len() && a != b implies key(t[a]) != key(t[b]) by {
        assert(key(t[a]) == key(s[a]));
        assert(key(t[b]) == key(s[b]));
    }
    let m = keyed_map(t, key, val);
    let n = keyed_map(s, key, val).map_values(f);
    assert forall|k: K| #[trigger] m.dom().contains(k) <==> n.dom().contains(k) by {
        if has_key(t, key, k) {
            let j = choose|j: int| 0 <= j < t.len() && key(t[j]) == k;
            assert(key(s[j]) == k);
        }
        if has_key(s, key, k) {
            let j = choose|j: int| 0 <= j < s.len() && key(s[j]) == k;
            assert(key(t[j]) == k);
        }
    }
    assert forall|k: K| m.dom().contains(k) implies #[trigger] m[k] == n[k] by {
        let j = choose|j: int| 0 <= j < t.len() && key(t[j]) == k;
        lemma_keyed_get(t, key, val, j);
        lemma_keyed_get(s, key, val, j);
    }
    assert(m =~= n);
}

/// The map of an empty vector is empty, and that of a non-empty one is not.
pub proof fn lemma_keyed_empty<T, K, V>(s: Seq<T>, key: spec_fn(T) -> K, val: spec_fn(T) -> V)
    ensures
        (s.len() == 0) == (keyed_map(s, key, val).dom() =~= Set::<K>::empty()),
{
    if s.len() > 0 {
        assert(keyed_map(s, key, val).dom().contains(key(s[0])));
    }
}

} // verus!
