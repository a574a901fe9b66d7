//! Sequences read as maps: a sequence of records, each carrying a key, stands
//! for the map from each key to the value of the last record with that key.
use vstd::prelude::*;

verus! {

/// Keys of alarm records: (device id, alarm id).
pub type Key = (Seq<char>, Seq<char>);

/// The map a sequence stands for, later records overriding earlier ones.
pub open spec fn keyed_map<T, K, V>(s: Seq<T>, key: spec_fn(T) -> K, val: spec_fn(T) -> V) -> Map<
    K,
    V,
>
    decreases s.len(),
{
    if s.len() == 0 {
        Map::empty()
    } else {
        keyed_map(s.drop_last(), key, val).insert(key(s.last()), val(s.last()))
    }
}

/// No two records of `s` share a key.
pub open spec fn distinct_keys<T, K>(s: Seq<T>, key: spec_fn(T) -> K) -> bool {
    forall|i: int, j: int| 0 <= i < s.len() && 0 <= j < s.len() && i != j ==> key(s[i]) != key(s[j])
}

pub proof fn lemma_keyed_map_push<T, K, V>(
    s: Seq<T>,
    key: spec_fn(T) -> K,
    val: spec_fn(T) -> V,
    x: T,
)
    ensures
        keyed_map(s.push(x), key, val) == keyed_map(s, key, val).insert(key(x), val(x)),
{
    assert(s.push(x).drop_last() =~= s);
}

/// A key is in the map exactly when some record carries it.
pub proof fn lemma_keyed_map_dom<T, K, V>(
    s: Seq<T>,
    key: spec_fn(T) -> K,
    val: spec_fn(T) -> V,
    k: K,
)
    ensures
        keyed_map(s, key, val).dom().contains(k) <==> exists|i: int|
            0 <= i < s.len() && key(s[i]) == k,
    decreases s.len(),
{
    if s.len() > 0 {
        lemma_keyed_map_dom(s.drop_last(), key, val, k);
        if keyed_map(s, key, val).dom().contains(k) {
            if key(s.last()) != k {
                let i = choose|i: int| 0 <= i < s.drop_last().len() && key(s.drop_last()[i]) == k;
                assert(key(s[i]) == k);
            } else {
                assert(key(s[s.len() - 1]) == k);
            }
        }
        if exists|i: int| 0 <= i < s.len() && key(s[i]) == k {
            let i = choose|i: int| 0 <= i < s.len() && key(s[i]) == k;
            if i < s.len() - 1 {
                assert(key(s.drop_last()[i]) == k);
            }
        }
    }
}

/// With distinct keys, a record's key maps to that record's value.
pub proof fn lemma_keyed_map_index<T, K, V>(
    s: Seq<T>,
    key: spec_fn(T) -> K,
    val: spec_fn(T) -> V,
    i: int,
)
    requires
        distinct_keys(s, key),
        0 <= i < s.len(),
    ensures
        keyed_map(s, key, val).dom().contains(key(s[i])),
        keyed_map(s, key, val)[key(s[i])] == val(s[i]),
    decreases s.len(),
{
    if i < s.len() - 1 {
        let t = s.drop_last();
        assert(distinct_keys(t, key)) by {
            assert forall|a: int, b: int|
                0 <= a < t.len() && 0 <= b < t.len() && a != b implies key(t[a]) != key(t[b]) by {
                assert(t[a] == s[a] && t[b] == s[b]);
            }
        }
        lemma_keyed_map_index(t, key, val, i);
        assert(key(s[i]) != key(s[s.len() - 1]));
    }
}

/// Replacing a record by one with the same key updates that key's value.
pub proof fn lemma_keyed_map_update<T, K, V>(
    s: Seq<T>,
    key: spec_fn(T) -> K,
    val: spec_fn(T) -> V,
    i: int,
    x: T,
)
    requires
        distinct_keys(s, key),
        0 <= i < s.len(),
        key(x) == key(s[i]),
    ensures
        keyed_map(s.update(i, x), key, val) == keyed_map(s, key, val).insert(key(x), val(x)),
        distinct_keys(s.update(i, x), key),
    decreases s.len(),
{
    let u = s.update(i, x);
    assert(distinct_keys(u, key)) by {
        assert forall|a: int, b: int|
            0 <= a < u.len() && 0 <= b < u.len() && a != b implies key(u[a]) != key(u[b]) by {
            if a == i {
                assert(key(u[a]) == key(s[i]));
            }
            if b == i {
                assert(key(u[b]) == key(s[i]));
            }
        }
    }
    if i == s.len() - 1 {
        assert(u.drop_last() =~= s.drop_last());
        assert(keyed_map(u, key, val) =~= keyed_map(s, key, val).insert(key(x), val(x)));
    } else {
        let t = s.drop_last();
        assert(distinct_keys(t, key)) by {
            assert forall|a: int, b: int|
                0 <= a < t.len() && 0 <= b < t.len() && a != b implies key(t[a]) != key(t[b]) by {
                assert(t[a] == s[a] && t[b] == s[b]);
            }
        }
        lemma_keyed_map_update(t, key, val, i, x);
        assert(u.drop_last() =~= t.update(i, x));
        assert(key(s.last()) != key(x)) by {
            assert(key(s[s.len() - 1]) != key(s[i]));
        }
        assert(keyed_map(u, key, val) =~= keyed_map(s, key, val).insert(key(x), val(x)));
    }
}

/// Removing a record removes its key.
pub proof fn lemma_keyed_map_remove<T, K, V>(
    s: Seq<T>,
    key: spec_fn(T) -> K,
    val: spec_fn(T) -> V,
    i: int,
)
    requires
        distinct_keys(s, key),
        0 <= i < s.len(),
    ensures
        keyed_map(s.remove(i), key, val) == keyed_map(s, key, val).remove(key(s[i])),
        distinct_keys(s.remove(i), key),
    decreases s.len(),
{
    let r = s.remove(i);
    assert(distinct_keys(r, key)) by {
        assert forall|a: int, b: int|
            0 <= a < r.len() && 0 <= b < r.len() && a != b implies key(r[a]) != key(r[b]) by {
            let sa = if a < i {
                a
            } else {
                a + 1
            };
            let sb = if b < i {
                b
            } else {
                b + 1
            };
            assert(r[a] == s[sa] && r[b] == s[sb]);
        }
    }
    let t = s.drop_last();
    assert(distinct_keys(t, key)) by {
        assert forall|a: int, b: int|
            0 <= a < t.len() && 0 <= b < t.len() && a != b implies key(t[a]) != key(t[b]) by {
            assert(t[a] == s[a] && t[b] == s[b]);
        }
    }
    if i == s.len() - 1 {
        assert(r =~= t);
        assert(!keyed_map(t, key, val).dom().contains(key(s[i]))) by {
            lemma_keyed_map_dom(t, key, val, key(s[i]));
            if exists|j: int| 0 <= j < t.len() && key(t[j]) == key(s[i]) {
                let j = choose|j: int| 0 <= j < t.len() && key(t[j]) == key(s[i]);
                assert(key(s[j]) == key(s[i]));
            }
        }
        assert(keyed_map(r, key, val) =~= keyed_map(s, key, val).remove(key(s[i])));
    } else {
        lemma_keyed_map_remove(t, key, val, i);
        assert(r.drop_last() =~= t.remove(i));
        assert(r.last() == s.last());
        assert(key(s.last()) != key(s[i])) by {
            assert(key(s[s.len() - 1]) != key(s[i]));
        }
        assert(keyed_map(r, key, val) =~= keyed_map(s, key, val).remove(key(s[i])));
    }
}

/// Appending a record with a fresh key keeps the keys distinct.
pub proof fn lemma_distinct_push<T, K, V>(s: Seq<T>, key: spec_fn(T) -> K, val: spec_fn(T) -> V, x: T)
    requires
        distinct_keys(s, key),
        !keyed_map(s, key, val).dom().contains(key(x)),
    ensures
        distinct_keys(s.push(x), key),
{
    lemma_keyed_map_dom(s, key, val, key(x));
    let p = s.push(x);
    assert forall|a: int, b: int|
        0 <= a < p.len() && 0 <= b < p.len() && a != b implies key(p[a]) != key(p[b]) by {
        if a == s.len() {
            assert(key(s[b]) != key(x));
        } else if b == s.len() {
            assert(key(s[a]) != key(x));
        } else {
            assert(p[a] == s[a] && p[b] == s[b]);
        }
    }
}

} // verus!
