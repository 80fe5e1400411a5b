//! Sequences of records read as maps (one record per key) and as ordered
//! lists, with the facts about updates that the stores rely on.

use vstd::prelude::*;

verus! {

/// No two records of `s` share a key.
pub open spec fn keys_unique<A, K>(s: Seq<A>, key: spec_fn(A) -> K) -> bool {
    forall|i: int, j: int|
        0 <= i < s.len() && 0 <= j < s.len() && i != j ==> key(#[trigger] s[i]) != key(#[trigger] s[j])
}

/// Some record of `s` has key `k`.
pub open spec fn has_key<A, K>(s: Seq<A>, key: spec_fn(A) -> K, k: K) -> bool {
    exists|i: int| 0 <= i < s.len() && key(#[trigger] s[i]) == k
}

/// The position of a record of `s` with key `k`.
pub open spec fn index_of_key<A, K>(s: Seq<A>, key: spec_fn(A) -> K, k: K) -> int {
    choose|i: int| 0 <= i < s.len() && key(#[trigger] s[i]) == k
}

/// The map from each key of `s` to (the value of) its record.
pub open spec fn keyed_map<A, K, V>(s: Seq<A>, key: spec_fn(A) -> K, val: spec_fn(A) -> V) -> Map<K, V> {
    Map::new(|k: K| has_key(s, key, k), |k: K| val(s[index_of_key(s, key, k)]))
}

/// In a sequence with unique keys, each record is the map's value at its key.
pub proof fn lemma_keyed_map_at<A, K, V>(s: Seq<A>, key: spec_fn(A) -> K, val: spec_fn(A) -> V, i: int)
    requires
        keys_unique(s, key),
        0 <= i < s.len(),
    ensures
        keyed_map(s, key, val).contains_key(key(s[i])),
        keyed_map(s, key, val)[key(s[i])] == val(s[i]),
{
    assert(has_key(s, key, key(s[i])));
    let j = index_of_key(s, key, key(s[i]));
    assert(j == i);
}

/// Replacing a record by one with the same key updates the map at that key.
pub proof fn lemma_keyed_map_update<A, K, V>(s: Seq<A>, key: spec_fn(A) -> K, val: spec_fn(A) -> V, i: int, x: A)
    requires
        keys_unique(s, key),
        0 <= i < s.len(),
        key(x) == key(s[i]),
    ensures
        keys_unique(s.update(i, x), key),
        keyed_map(s.update(i, x), key, val) == keyed_map(s, key, val).insert(key(x), val(x)),
{
    let t = s.update(i, x);
    assert(keys_unique(t, key)) by {
        assert forall|a: int, b: int| 0 <= a < t.len() && 0 <= b < t.len() && a != b implies key(
            #[trigger] t[a],
        ) != key(#[trigger] t[b]) by {
            if a != i && b != i {
                assert(t[a] == s[a] && t[b] == s[b]);
            } else if a == i {
                assert(t[b] == s[b]);
            } else {
                assert(t[a] == s[a]);
            }
        }
    }
    let m1 = keyed_map(t, key, val);
    let m2 = keyed_map(s, key, val).insert(key(x), val(x));
    assert forall|k: K| #[trigger] m1.contains_key(k) <==> m2.contains_key(k) by {
        if has_key(t, key, k) {
            let j = choose|j: int| 0 <= j < t.len() && key(#[trigger] t[j]) == k;
            if j != i {
                assert(s[j] == t[j]);
                assert(has_key(s, key, k));
            }
        }
        if has_key(s, key, k) {
            let j = choose|j: int| 0 <= j < s.len() && key(#[trigger] s[j]) == k;
            if j != i {
                assert(s[j] == t[j]);
            }
            assert(has_key(t, key, k));
        }
        if k == key(x) {
            assert(t[i] == x);
            assert(has_key(t, key, k));
        }
    }
    assert forall|k: K| #[trigger] m1.contains_key(k) implies m1[k] == m2[k] by {
        let j = choose|j: int| 0 <= j < t.len() && key(#[trigger] t[j]) == k;
        lemma_keyed_map_at(t, key, val, j);
        if j == i {
        } else {
            assert(s[j] == t[j]);
            lemma_keyed_map_at(s, key, val, j);
        }
    }
    assert(m1 =~= m2);
}

/// Inserting a record with a new key anywhere adds that key to the map.
pub proof fn lemma_keyed_map_insert<A, K, V>(s: Seq<A>, key: spec_fn(A) -> K, val: spec_fn(A) -> V, p: int, x: A)
    requires
        keys_unique(s, key),
        !has_key(s, key, key(x)),
        0 <= p <= s.len(),
    ensures
        keys_unique(s.insert(p, x), key),
        keyed_map(s.insert(p, x), key, val) == keyed_map(s, key, val).insert(key(x), val(x)),
{
    let t = s.insert(p, x);
    s.insert_ensures(p, x);
    // position in `t` of each old position, and back
    assert forall|j: int| 0 <= j < s.len() implies #[trigger] s[j] == t[if j < p { j } else { j + 1 }] by {}
    assert forall|a: int| 0 <= a < t.len() && a != p implies #[trigger] t[a] == s[if a < p { a } else { a - 1 }] by {}
    assert(keys_unique(t, key)) by {
        assert forall|a: int, b: int| 0 <= a < t.len() && 0 <= b < t.len() && a != b implies key(
            #[trigger] t[a],
        ) != key(#[trigger] t[b]) by {
            let ia = if a < p { a } else { a - 1 };
            let ib = if b < p { b } else { b - 1 };
            if a == p {
                assert(t[b] == s[ib]);
            } else if b == p {
                assert(t[a] == s[ia]);
            } else {
                assert(t[a] == s[ia]);
                assert(t[b] == s[ib]);
            }
        }
    }
    let m1 = keyed_map(t, key, val);
    let m2 = keyed_map(s, key, val).insert(key(x), val(x));
    assert forall|k: K| #[trigger] m1.contains_key(k) <==> m2.contains_key(k) by {
        if has_key(t, key, k) {
            let a = choose|a: int| 0 <= a < t.len() && key(#[trigger] t[a]) == k;
            if a != p {
                let ia = if a < p { a } else { a - 1 };
                assert(t[a] == s[ia]);
                assert(has_key(s, key, k));
            }
        }
        if has_key(s, key, k) {
            let j = choose|j: int| 0 <= j < s.len() && key(#[trigger] s[j]) == k;
            let a = if j < p { j } else { j + 1 };
            assert(t[a] == s[j]);
            assert(has_key(t, key, k));
        }
        if k == key(x) {
            assert(t[p] == x);
            assert(has_key(t, key, k));
        }
    }
    assert forall|k: K| #[trigger] m1.contains_key(k) implies m1[k] == m2[k] by {
        let a = choose|a: int| 0 <= a < t.len() && key(#[trigger] t[a]) == k;
        lemma_keyed_map_at(t, key, val, a);
        if a != p {
            let ia = if a < p { a } else { a - 1 };
            assert(t[a] == s[ia]);
            lemma_keyed_map_at(s, key, val, ia);
        }
    }
    assert(m1 =~= m2);
}

/// Appending a record with a new key adds that key to the map.
pub proof fn lemma_keyed_map_push<A, K, V>(s: Seq<A>, key: spec_fn(A) -> K, val: spec_fn(A) -> V, x: A)
    requires
        keys_unique(s, key),
        !has_key(s, key, key(x)),
    ensures
        keys_unique(s.push(x), key),
        keyed_map(s.push(x), key, val) == keyed_map(s, key, val).insert(key(x), val(x)),
{
    assert(s.insert(s.len() as int, x) =~= s.push(x));
    lemma_keyed_map_insert(s, key, val, s.len() as int, x);
}

/// Removing a record removes its key from the map.
pub proof fn lemma_keyed_map_remove<A, K, V>(s: Seq<A>, key: spec_fn(A) -> K, val: spec_fn(A) -> V, i: int)
    requires
        keys_unique(s, key),
        0 <= i < s.len(),
    ensures
        keys_unique(s.remove(i), key),
        !has_key(s.remove(i), key, key(s[i])),
        keyed_map(s.remove(i), key, val) == keyed_map(s, key, val).remove(key(s[i])),
{
    let t = s.remove(i);
    s.remove_ensures(i);
    assert forall|a: int| 0 <= a < t.len() implies #[trigger] t[a] == s[if a < i { a } else { a + 1 }] by {}
    assert(keys_unique(t, key)) by {
        assert forall|a: int, b: int| 0 <= a < t.len() && 0 <= b < t.len() && a != b implies key(
            #[trigger] t[a],
        ) != key(#[trigger] t[b]) by {
            let ia = if a < i { a } else { a + 1 };
            let ib = if b < i { b } else { b + 1 };
            assert(t[a] == s[ia]);
            assert(t[b] == s[ib]);
        }
    }
    assert(!has_key(t, key, key(s[i]))) by {
        if has_key(t, key, key(s[i])) {
            let a = choose|a: int| 0 <= a < t.len() && key(#[trigger] t[a]) == key(s[i]);
            let ia = if a < i { a } else { a + 1 };
            assert(t[a] == s[ia]);
        }
    }
    let m1 = keyed_map(t, key, val);
    let m2 = keyed_map(s, key, val).remove(key(s[i]));
    assert forall|k: K| #[trigger] m1.contains_key(k) <==> m2.contains_key(k) by {
        if has_key(t, key, k) {
            let a = choose|a: int| 0 <= a < t.len() && key(#[trigger] t[a]) == k;
            let ia = if a < i { a } else { a + 1 };
            assert(t[a] == s[ia]);
            assert(has_key(s, key, k));
        }
        if has_key(s, key, k) && k != key(s[i]) {
            let j = choose|j: int| 0 <= j < s.len() && key(#[trigger] s[j]) == k;
            let a = if j < i { j } else { j - 1 };
            assert(t[a] == s[j]);
            assert(has_key(t, key, k));
        }
    }
    assert forall|k: K| #[trigger] m1.contains_key(k) implies m1[k] == m2[k] by {
        let a = choose|a: int| 0 <= a < t.len() && key(#[trigger] t[a]) == k;
        lemma_keyed_map_at(t, key, val, a);
        let ia = if a < i { a } else { a + 1 };
        assert(t[a] == s[ia]);
        lemma_keyed_map_at(s, key, val, ia);
    }
    assert(m1 =~= m2);
}

/// Every pair of records of `s`, earlier before later, is in order.
pub open spec fn sorted_by<A>(s: Seq<A>, le: spec_fn(A, A) -> bool) -> bool {
    forall|i: int, j: int| 0 <= i < j < s.len() ==> le(#[trigger] s[i], #[trigger] s[j])
}

/// Inserting a record after everything no later than it and before
/// everything it is no later than keeps a sequence in order.
pub proof fn lemma_sorted_insert<A>(s: Seq<A>, le: spec_fn(A, A) -> bool, p: int, x: A)
    requires
        sorted_by(s, le),
        0 <= p <= s.len(),
        forall|i: int| 0 <= i < p ==> le(#[trigger] s[i], x),
        forall|i: int| p <= i < s.len() ==> le(x, #[trigger] s[i]),
    ensures
        sorted_by(s.insert(p, x), le),
{
    let t = s.insert(p, x);
    s.insert_ensures(p, x);
    assert forall|a: int, b: int| 0 <= a < b < t.len() implies le(#[trigger] t[a], #[trigger] t[b]) by {
        let ia = if a < p { a } else { a - 1 };
        let ib = if b < p { b } else { b - 1 };
        if a == p {
            assert(t[b] == s[ib]);
        } else if b == p {
            assert(t[a] == s[ia]);
        } else {
            assert(t[a] == s[ia]);
            assert(t[b] == s[ib]);
        }
    }
}

/// Removing a record keeps a sequence in order.
pub proof fn lemma_sorted_remove<A>(s: Seq<A>, le: spec_fn(A, A) -> bool, i: int)
    requires
        sorted_by(s, le),
        0 <= i < s.len(),
    ensures
        sorted_by(s.remove(i), le),
{
    let t = s.remove(i);
    s.remove_ensures(i);
    assert forall|a: int, b: int| 0 <= a < b < t.len() implies le(#[trigger] t[a], #[trigger] t[b]) by {
        let ia = if a < i { a } else { a + 1 };
        let ib = if b < i { b } else { b + 1 };
        assert(t[a] == s[ia]);
        assert(t[b] == s[ib]);
    }
}

} // verus!
