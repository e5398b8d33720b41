//! String-keyed entry vectors with distinct keys: the executable form behind
//! the per-peer message queues and the connection-attempt table, together
//! with the lemmas that connect index-level updates to key-level lookups.

use vstd::prelude::*;

verus! {

/// The key of the entry at index `i`, as a sequence of characters.
pub open spec fn key_at<V>(s: Seq<(String, V)>, i: int) -> Seq<char> {
    s[i].0@
}

/// Whether some entry carries this key.
pub open spec fn has_key<V>(s: Seq<(String, V)>, a: Seq<char>) -> bool {
    exists|i: int| 0 <= i < s.len() && key_at(s, i) == a
}

/// The index of the entry carrying this key; meaningful only when
/// `has_key(s, a)` holds and the keys are distinct.
pub open spec fn key_index<V>(s: Seq<(String, V)>, a: Seq<char>) -> int {
    choose|i: int| 0 <= i < s.len() && key_at(s, i) == a
}

/// No two entries carry the same key.
pub open spec fn keys_unique<V>(s: Seq<(String, V)>) -> bool {
    forall|i: int, j: int| 0 <= i < j < s.len() ==> key_at(s, i) != key_at(s, j)
}

/// Scan for the entry carrying this key.
pub fn find_key<V>(entries: &Vec<(String, V)>, address: &str) -> (r: Option<usize>)
    ensures
        match r {
            Some(i) => i < entries@.len() && key_at(entries@, i as int) == address@,
            None => !has_key(entries@, address@),
        },
{
    let a = address.to_owned();
    let mut i: usize = 0;
    while i < entries.len()
        invariant
            a@ == address@,
            i <= entries@.len(),
            forall|j: int| 0 <= j < i ==> key_at(entries@, j) != address@,
        decreases entries@.len() - i,
    {
        if entries[i].0 == a {
            return Some(i);
        }
        i = i + 1;
    }
    None
}

/// With distinct keys, an entry whose key matches is the entry the lookup
/// finds.
pub proof fn lemma_key_index<V>(s: Seq<(String, V)>, a: Seq<char>, i: int)
    requires
        keys_unique(s),
        0 <= i < s.len(),
        key_at(s, i) == a,
    ensures
        has_key(s, a),
        key_index(s, a) == i,
{
    assert(has_key(s, a));
    let j = key_index(s, a);
    if j != i {
        if j < i {
            assert(key_at(s, j) != key_at(s, i));
        } else {
            assert(key_at(s, i) != key_at(s, j));
        }
    }
}

/// Two entry vectors of equal length and pointwise equal keys agree on every
/// key-level lookup.
pub proof fn lemma_same_keys<V>(s1: Seq<(String, V)>, s2: Seq<(String, V)>)
    requires
        keys_unique(s1),
        s1.len() == s2.len(),
        forall|k: int| 0 <= k < s1.len() ==> key_at(s2, k) == key_at(s1, k),
    ensures
        keys_unique(s2),
        forall|a: Seq<char>| has_key(s2, a) == has_key(s1, a),
        forall|a: Seq<char>| has_key(s1, a) ==> key_index(s2, a) == key_index(s1, a),
{
    assert forall|a: Seq<char>| has_key(s2, a) == has_key(s1, a) by {
        if has_key(s1, a) {
            let i = key_index(s1, a);
            assert(key_at(s2, i) == a);
        }
        if has_key(s2, a) {
            let i = choose|i: int| 0 <= i < s2.len() && key_at(s2, i) == a;
            assert(key_at(s1, i) == a);
        }
    }
    assert forall|a: Seq<char>| has_key(s1, a) implies key_index(s2, a) == key_index(s1, a) by {
        let i = key_index(s1, a);
        assert(0 <= i < s1.len() && key_at(s1, i) == a);
        assert(key_at(s2, i) == a);
        lemma_key_index(s2, a, i);
    }
}

/// Removing the entry at `i` removes exactly its key: every other key still
/// maps to the entry it mapped to before.
pub proof fn lemma_key_remove<V>(s: Seq<(String, V)>, i: int)
    requires
        keys_unique(s),
        0 <= i < s.len(),
    ensures
        keys_unique(s.remove(i)),
        !has_key(s.remove(i), key_at(s, i)),
        forall|a: Seq<char>| a != key_at(s, i) ==> has_key(s.remove(i), a) == has_key(s, a),
        forall|a: Seq<char>| a != key_at(s, i) && has_key(s, a) ==> s.remove(i)[key_index(
            s.remove(i),
            a,
        )] == s[key_index(s, a)],
{
    let t = s.remove(i);
    assert forall|p: int, q: int| 0 <= p < q < t.len() implies key_at(t, p) != key_at(t, q) by {
        let p0 = if p < i { p } else { p + 1 };
        let q0 = if q < i { q } else { q + 1 };
        assert(t[p] == s[p0]);
        assert(t[q] == s[q0]);
        assert(key_at(s, p0) != key_at(s, q0));
    }
    if has_key(t, key_at(s, i)) {
        let j = choose|j: int| 0 <= j < t.len() && key_at(t, j) == key_at(s, i);
        let j0 = if j < i { j } else { j + 1 };
        assert(t[j] == s[j0]);
        assert(key_at(s, j0) == key_at(s, i));
        if j0 < i {
            assert(key_at(s, j0) != key_at(s, i));
        } else {
            assert(key_at(s, i) != key_at(s, j0));
        }
    }
    assert forall|a: Seq<char>| a != key_at(s, i) implies has_key(t, a) == has_key(s, a) by {
        if has_key(s, a) {
            let j = key_index(s, a);
            assert(0 <= j < s.len() && key_at(s, j) == a);
            let j1 = if j < i { j } else { j - 1 };
            assert(t[j1] == s[j]);
            assert(key_at(t, j1) == a);
        }
        if has_key(t, a) {
            let j = choose|j: int| 0 <= j < t.len() && key_at(t, j) == a;
            let j0 = if j < i { j } else { j + 1 };
            assert(t[j] == s[j0]);
            assert(key_at(s, j0) == a);
        }
    }
    assert forall|a: Seq<char>| a != key_at(s, i) && has_key(s, a) implies t[key_index(t, a)]
        == s[key_index(s, a)] by {
        let j = key_index(s, a);
        assert(0 <= j < s.len() && key_at(s, j) == a);
        let j1 = if j < i { j } else { j - 1 };
        assert(t[j1] == s[j]);
        lemma_key_index(t, a, j1);
    }
}

/// Appending an entry with a fresh key adds exactly that key, and leaves
/// every existing key mapped to the entry it mapped to before.
pub proof fn lemma_key_push<V>(s: Seq<(String, V)>, k: String, v: V)
    requires
        keys_unique(s),
        !has_key(s, k@),
    ensures
        keys_unique(s.push((k, v))),
        has_key(s.push((k, v)), k@),
        s.push((k, v))[key_index(s.push((k, v)), k@)] == (k, v),
        forall|a: Seq<char>| a != k@ ==> has_key(s.push((k, v)), a) == has_key(s, a),
        forall|a: Seq<char>| a != k@ && has_key(s, a) ==> s.push((k, v))[key_index(
            s.push((k, v)),
            a,
        )] == s[key_index(s, a)],
{
    let t = s.push((k, v));
    assert(t[s.len() as int] == (k, v));
    assert forall|p: int, q: int| 0 <= p < q < t.len() implies key_at(t, p) != key_at(t, q) by {
        if q < s.len() {
            assert(key_at(s, p) != key_at(s, q));
        } else {
            assert(key_at(t, q) == k@);
            assert(t[p] == s[p]);
            if key_at(s, p) == k@ {
                assert(has_key(s, k@));
            }
        }
    }
    lemma_key_index(t, k@, s.len() as int);
    assert forall|a: Seq<char>| a != k@ implies has_key(t, a) == has_key(s, a) by {
        if has_key(s, a) {
            let j = key_index(s, a);
            assert(t[j] == s[j]);
            assert(key_at(t, j) == a);
        }
        if has_key(t, a) {
            let j = choose|j: int| 0 <= j < t.len() && key_at(t, j) == a;
            if j < s.len() {
                assert(t[j] == s[j]);
                assert(key_at(s, j) == a);
            } else {
                assert(key_at(t, j) == k@);
            }
        }
    }
    assert forall|a: Seq<char>| a != k@ && has_key(s, a) implies t[key_index(t, a)] == s[key_index(
        s,
        a,
    )] by {
        let j = key_index(s, a);
        assert(0 <= j < s.len() && key_at(s, j) == a);
        assert(t[j] == s[j]);
        lemma_key_index(t, a, j);
    }
}

} // verus!
