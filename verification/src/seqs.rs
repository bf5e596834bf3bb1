//! Facts about searching sequences and about maps built from sequences with
//! distinct keys.
use vstd::prelude::*;

verus! {

/// The index of the first element of `s` that satisfies `p`, if any.
pub open spec fn first_index<T>(s: Seq<T>, p: spec_fn(T) -> bool) -> Option<int>
    decreases s.len(),
{
    if s.len() == 0 {
        None
    } else {
        match first_index(s.drop_last(), p) {
            Some(i) => Some(i),
            None => if p(s.last()) {
                Some(s.len() - 1)
            } else {
                None
            },
        }
    }
}

/// `first_index` is the least index whose element satisfies `p`.
pub proof fn lemma_first_index<T>(s: Seq<T>, p: spec_fn(T) -> bool)
    ensures
        first_index(s, p) is None <==> (forall|j: int| 0 <= j < s.len() ==> !p(#[trigger] s[j])),
        first_index(s, p) matches Some(i) ==> {
            &&& 0 <= i < s.len()
            &&& p(s[i])
            &&& forall|j: int| 0 <= j < i ==> !p(#[trigger] s[j])
        },
    decreases s.len(),
{
    if s.len() > 0 {
        let t = s.drop_last();
        lemma_first_index(t, p);
        assert forall|j: int| 0 <= j < t.len() implies t[j] == s[j] by {}
        if first_index(t, p) is None && !p(s.last()) {
            assert forall|j: int| 0 <= j < s.len() implies !p(#[trigger] s[j]) by {
                if j < t.len() {
                    assert(t[j] == s[j]);
                }
            }
        }
    }
}

/// An index whose element satisfies `p`, preceded only by elements that do
/// not, is the first index.
pub proof fn lemma_first_index_is<T>(s: Seq<T>, p: spec_fn(T) -> bool, i: int)
    requires
        0 <= i < s.len(),
        p(s[i]),
        forall|j: int| 0 <= j < i ==> !p(#[trigger] s[j]),
    ensures
        first_index(s, p) == Some(i),
{
    lemma_first_index(s, p);
    match first_index(s, p) {
        Some(k) => {
            if k < i {
                assert(!p(s[k]));
            } else if k > i {
                assert(!p(s[i]));
            }
        },
        None => {
            assert(!p(s[i]));
        },
    }
}

/// The map from key to element of a sequence; a later element wins a key.
pub open spec fn keyed<V>(s: Seq<V>, key: spec_fn(V) -> Seq<char>) -> Map<Seq<char>, V>
    decreases s.len(),
{
    if s.len() == 0 {
        Map::empty()
    } else {
        keyed(s.drop_last(), key).insert(key(s.last()), s.last())
    }
}

/// No two elements of `s` share a key.
pub open spec fn distinct_keys<V>(s: Seq<V>, key: spec_fn(V) -> Seq<char>) -> bool {
    forall|i: int, j: int|
        0 <= i < s.len() && 0 <= j < s.len() && i != j ==> key(#[trigger] s[i]) != key(
            #[trigger] s[j],
        )
}

pub proof fn lemma_keyed_dom<V>(s: Seq<V>, key: spec_fn(V) -> Seq<char>, k: Seq<char>)
    ensures
        keyed(s, key).dom().contains(k) <==> exists|i: int| 0 <= i < s.len() && key(s[i]) == k,
    decreases s.len(),
{
    if s.len() > 0 {
        let t = s.drop_last();
        lemma_keyed_dom(t, key, k);
        if keyed(s, key).dom().contains(k) {
            if k == key(s.last()) {
                assert(key(s[s.len() - 1]) == k);
            } else {
                let i = choose|i: int| 0 <= i < t.len() && key(t[i]) == k;
                assert(key(s[i]) == k);
            }
        }
        if exists|i: int| 0 <= i < s.len() && key(s[i]) == k {
            let i = choose|i: int| 0 <= i < s.len() && key(s[i]) == k;
            if i < t.len() {
                assert(key(t[i]) == k);
            }
        }
    }
}

pub proof fn lemma_keyed_index<V>(s: Seq<V>, key: spec_fn(V) -> Seq<char>, i: int)
    requires
        distinct_keys(s, key),
        0 <= i < s.len(),
    ensures
        keyed(s, key).dom().contains(key(s[i])),
        keyed(s, key)[key(s[i])] == s[i],
    decreases s.len(),
{
    let t = s.drop_last();
    if i < s.len() - 1 {
        assert(t[i] == s[i]);
        assert(distinct_keys(t, key)) by {
            assert forall|a: int, b: int|
                0 <= a < t.len() && 0 <= b < t.len() && a != b implies key(#[trigger] t[a]) != key(
                #[trigger] t[b],
            ) by {
                assert(t[a] == s[a] && t[b] == s[b]);
            }
        }
        lemma_keyed_index(t, key, i);
        assert(key(s[i]) != key(s[s.len() - 1]));
    }
}

/// Absent keys: no element carries the key.
pub proof fn lemma_keyed_absent<V>(s: Seq<V>, key: spec_fn(V) -> Seq<char>, k: Seq<char>)
    requires
        forall|i: int| 0 <= i < s.len() ==> key(#[trigger] s[i]) != k,
    ensures
        !keyed(s, key).dom().contains(k),
{
    lemma_keyed_dom(s, key, k);
}

pub proof fn lemma_distinct_push<V>(s: Seq<V>, key: spec_fn(V) -> Seq<char>, v: V)
    requires
        distinct_keys(s, key),
        forall|i: int| 0 <= i < s.len() ==> key(#[trigger] s[i]) != key(v),
    ensures
        distinct_keys(s.push(v), key),
{
    let t = s.push(v);
    assert forall|a: int, b: int|
        0 <= a < t.len() && 0 <= b < t.len() && a != b implies key(#[trigger] t[a]) != key(
        #[trigger] t[b],
    ) by {
        if a < s.len() && b < s.len() {
            assert(t[a] == s[a] && t[b] == s[b]);
        } else if a < s.len() {
            assert(t[a] == s[a]);
        } else {
            assert(t[b] == s[b]);
        }
    }
}

pub proof fn lemma_distinct_update<V>(s: Seq<V>, key: spec_fn(V) -> Seq<char>, i: int, v: V)
    requires
        distinct_keys(s, key),
        0 <= i < s.len(),
        key(v) == key(s[i]),
    ensures
        distinct_keys(s.update(i, v), key),
{
    let t = s.update(i, v);
    assert forall|a: int, b: int|
        0 <= a < t.len() && 0 <= b < t.len() && a != b implies key(#[trigger] t[a]) != key(
        #[trigger] t[b],
    ) by {
        assert(key(t[a]) == key(s[a]));
        assert(key(t[b]) == key(s[b]));
    }
}

pub proof fn lemma_distinct_remove<V>(s: Seq<V>, key: spec_fn(V) -> Seq<char>, i: int)
    requires
        distinct_keys(s, key),
        0 <= i < s.len(),
    ensures
        distinct_keys(s.remove(i), key),
{
    let t = s.remove(i);
    assert forall|a: int, b: int|
        0 <= a < t.len() && 0 <= b < t.len() && a != b implies key(#[trigger] t[a]) != key(
        #[trigger] t[b],
    ) by {
        let a2 = if a < i { a } else { a + 1 };
        let b2 = if b < i { b } else { b + 1 };
        assert(t[a] == s[a2] && t[b] == s[b2]);
    }
}

/// Replacing the element that carries a key replaces that key's entry.
pub proof fn lemma_keyed_update<V>(s: Seq<V>, key: spec_fn(V) -> Seq<char>, i: int, v: V)
    requires
        distinct_keys(s, key),
        0 <= i < s.len(),
        key(v) == key(s[i]),
    ensures
        keyed(s.update(i, v), key) == keyed(s, key).insert(key(v), v),
{
    let t = s.update(i, v);
    lemma_distinct_update(s, key, i, v);
    assert forall|k: Seq<char>| #[trigger] keyed(t, key).dom().contains(k) == keyed(s, key).insert(key(v), v).dom().contains(k) by {
        lemma_keyed_dom(t, key, k);
        lemma_keyed_dom(s, key, k);
        if exists|j: int| 0 <= j < t.len() && key(t[j]) == k {
            let j = choose|j: int| 0 <= j < t.len() && key(t[j]) == k;
            assert(key(t[j]) == key(s[j]));
        }
        if exists|j: int| 0 <= j < s.len() && key(s[j]) == k {
            let j = choose|j: int| 0 <= j < s.len() && key(s[j]) == k;
            assert(key(t[j]) == key(s[j]));
        }
    }
    assert forall|k: Seq<char>| #[trigger] keyed(t, key).dom().contains(k) implies keyed(t, key)[k]
        == keyed(s, key).insert(key(v), v)[k] by {
        lemma_keyed_dom(t, key, k);
        let j = choose|j: int| 0 <= j < t.len() && key(t[j]) == k;
        lemma_keyed_index(t, key, j);
        if j != i {
            assert(t[j] == s[j]);
            lemma_keyed_index(s, key, j);
        }
    }
    assert(keyed(t, key) =~= keyed(s, key).insert(key(v), v));
}

/// Removing the element that carries a key removes that key's entry.
pub proof fn lemma_keyed_remove<V>(s: Seq<V>, key: spec_fn(V) -> Seq<char>, i: int)
    requires
        distinct_keys(s, key),
        0 <= i < s.len(),
    ensures
        keyed(s.remove(i), key) == keyed(s, key).remove(key(s[i])),
{
    let t = s.remove(i);
    let ki = key(s[i]);
    lemma_distinct_remove(s, key, i);
    assert forall|k: Seq<char>| #[trigger] keyed(t, key).dom().contains(k) == keyed(s, key).remove(ki).dom().contains(k) by {
        lemma_keyed_dom(t, key, k);
        lemma_keyed_dom(s, key, k);
        if exists|j: int| 0 <= j < t.len() && key(t[j]) == k {
            let j = choose|j: int| 0 <= j < t.len() && key(t[j]) == k;
            let j2 = if j < i { j } else { j + 1 };
            assert(t[j] == s[j2]);
        }
        if exists|j: int| 0 <= j < s.len() && key(s[j]) == k && k != ki {
            let j = choose|j: int| 0 <= j < s.len() && key(s[j]) == k && k != ki;
            let j1 = if j < i { j } else { j - 1 };
            assert(t[j1] == s[j]);
        }
    }
    assert forall|k: Seq<char>| #[trigger] keyed(t, key).dom().contains(k) implies keyed(t, key)[k]
        == keyed(s, key).remove(ki)[k] by {
        lemma_keyed_dom(t, key, k);
        let j = choose|j: int| 0 <= j < t.len() && key(t[j]) == k;
        lemma_keyed_index(t, key, j);
        let j2 = if j < i { j } else { j + 1 };
        assert(t[j] == s[j2]);
        lemma_keyed_index(s, key, j2);
    }
    assert(keyed(t, key) =~= keyed(s, key).remove(ki));
}

} // verus!
