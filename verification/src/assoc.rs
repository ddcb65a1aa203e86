//! Association lists: sequences of (key, value) entries used as maps, with
//! the insertion behavior of an insertion-ordered map.

use vstd::prelude::*;

verus! {

/// The value of the last entry for key `k`, if any.
pub open spec fn lookup<K, V>(s: Seq<(K, V)>, k: K) -> Option<V>
    decreases s.len(),
{
    if s.len() == 0 {
        None
    } else if s.last().0 == k {
        Some(s.last().1)
    } else {
        lookup(s.drop_last(), k)
    }
}

/// No key occurs twice.
pub open spec fn keys_unique<K, V>(s: Seq<(K, V)>) -> bool {
    forall|i: int, j: int| 0 <= i < j < s.len() ==> (#[trigger] s[i]).0 != (#[trigger] s[j]).0
}

pub proof fn lemma_lookup_at<K, V>(s: Seq<(K, V)>, i: int)
    requires
        keys_unique(s),
        0 <= i < s.len(),
    ensures
        lookup(s, s[i].0) == Some(s[i].1),
    decreases s.len(),
{
    if i < s.len() - 1 {
        assert(s.last() == s[s.len() - 1]);
        assert(s.drop_last()[i] == s[i]);
        assert(keys_unique(s.drop_last())) by {
            assert forall|a: int, b: int| 0 <= a < b < s.drop_last().len() implies (
            #[trigger] s.drop_last()[a]).0 != (#[trigger] s.drop_last()[b]).0 by {
                assert(s.drop_last()[a] == s[a] && s.drop_last()[b] == s[b]);
            }
        }
        lemma_lookup_at(s.drop_last(), i);
    }
}

pub proof fn lemma_lookup_absent<K, V>(s: Seq<(K, V)>, k: K)
    requires
        forall|j: int| 0 <= j < s.len() ==> (#[trigger] s[j]).0 != k,
    ensures
        lookup(s, k) is None,
    decreases s.len(),
{
    if s.len() > 0 {
        assert(s.last() == s[s.len() - 1]);
        assert forall|j: int| 0 <= j < s.drop_last().len() implies (#[trigger] s.drop_last()[j]).0 != k by {
            assert(s.drop_last()[j] == s[j]);
        }
        lemma_lookup_absent(s.drop_last(), k);
    }
}

pub proof fn lemma_lookup_update<K, V>(s: Seq<(K, V)>, i: int, v: V, k: K)
    requires
        keys_unique(s),
        0 <= i < s.len(),
    ensures
        lookup(s.update(i, (s[i].0, v)), k) == if k == s[i].0 {
            Some(v)
        } else {
            lookup(s, k)
        },
    decreases s.len(),
{
    let t = s.update(i, (s[i].0, v));
    assert(t.last() == t[t.len() - 1]);
    assert(s.last() == s[s.len() - 1]);
    if i == s.len() - 1 {
        assert(t.drop_last() =~= s.drop_last());
        if k != s[i].0 {
        }
    } else {
        assert(t.drop_last() =~= s.drop_last().update(i, (s[i].0, v)));
        assert(keys_unique(s.drop_last())) by {
            assert forall|a: int, b: int| 0 <= a < b < s.drop_last().len() implies (
            #[trigger] s.drop_last()[a]).0 != (#[trigger] s.drop_last()[b]).0 by {
                assert(s.drop_last()[a] == s[a] && s.drop_last()[b] == s[b]);
            }
        }
        assert(s.drop_last()[i] == s[i]);
        lemma_lookup_update(s.drop_last(), i, v, k);
        if k == s[i].0 {
            assert(s[s.len() - 1].0 != s[i].0);
        }
    }
}

/// The index of the first entry for key `k`.
pub open spec fn key_index<K, V>(s: Seq<(K, V)>, k: K) -> Option<int>
    decreases s.len(),
{
    if s.len() == 0 {
        None
    } else {
        match key_index(s.drop_last(), k) {
            Some(i) => Some(i),
            None => if s.last().0 == k {
                Some(s.len() - 1)
            } else {
                None
            },
        }
    }
}

/// The entries after inserting `v` for `k`: an existing key keeps its place
/// and takes the new value, a new key goes last.
pub open spec fn assoc_insert<K, V>(s: Seq<(K, V)>, k: K, v: V) -> Seq<(K, V)> {
    match key_index(s, k) {
        Some(i) => s.update(i, (k, v)),
        None => s.push((k, v)),
    }
}

/// The value of the first entry for key `k`.
pub open spec fn key_value<K, V>(s: Seq<(K, V)>, k: K) -> Option<V> {
    match key_index(s, k) {
        Some(i) => Some(s[i].1),
        None => None,
    }
}

/// Sequences with the same keys at the same places find a key at the same
/// place.
proof fn lemma_key_index_same_keys<K, V>(s: Seq<(K, V)>, t: Seq<(K, V)>, q: K)
    requires
        s.len() == t.len(),
        forall|j: int| 0 <= j < s.len() ==> (#[trigger] t[j]).0 == s[j].0,
    ensures
        key_index(t, q) == key_index(s, q),
{
    lemma_key_index(s, q);
    lemma_key_index(t, q);
    match (key_index(s, q), key_index(t, q)) {
        (Some(a), Some(b)) => {
            assert(t[a].0 == s[a].0);
            assert(t[b].0 == s[b].0);
            if a < b {
            } else if b < a {
            }
        },
        (Some(a), None) => {
            assert(t[a].0 == s[a].0);
        },
        (None, Some(b)) => {
            assert(t[b].0 == s[b].0);
        },
        (None, None) => {},
    }
}

/// After inserting `(k, v)`, `k` has value `v` and every other key keeps its
/// value.
pub proof fn lemma_key_value_insert<K, V>(s: Seq<(K, V)>, k: K, v: V, q: K)
    ensures
        key_value(assoc_insert(s, k, v), q) == if q == k {
            Some(v)
        } else {
            key_value(s, q)
        },
{
    let t = assoc_insert(s, k, v);
    lemma_key_index(s, k);
    lemma_key_index(s, q);
    match key_index(s, k) {
        Some(i) => {
            lemma_key_index_same_keys(s, t, q);
            if q != k {
                if let Some(a) = key_index(s, q) {
                    assert(a != i);
                    assert(t[a] == s[a]);
                }
            }
        },
        None => {
            let n = s.len() as int;
            assert(t == s.push((k, v)));
            if q == k {
                lemma_key_index(t, q);
                assert(t[n].0 == k);
                if let Some(b) = key_index(t, q) {
                    if b < n {
                        assert(t[b] == s[b]);
                    }
                }
            } else {
                let s2 = t.drop_last();
                assert(s2 =~= s);
                lemma_key_index(t, q);
                match key_index(s, q) {
                    Some(a) => {
                        assert(t[a] == s[a]);
                        if let Some(b) = key_index(t, q) {
                            if b < n {
                                assert(t[b] == s[b]);
                                if a < b {
                                } else if b < a {
                                }
                            }
                        }
                    },
                    None => {
                        if let Some(b) = key_index(t, q) {
                            if b < n {
                                assert(t[b] == s[b]);
                            }
                        }
                    },
                }
            }
        },
    }
}

pub proof fn lemma_key_index<K, V>(s: Seq<(K, V)>, k: K)
    ensures
        match key_index(s, k) {
            Some(i) => 0 <= i < s.len() && s[i].0 == k && forall|j: int| 0 <= j < i ==> (#[trigger] s[j]).0 != k,
            None => forall|j: int| 0 <= j < s.len() ==> (#[trigger] s[j]).0 != k,
        },
    decreases s.len(),
{
    if s.len() > 0 {
        lemma_key_index(s.drop_last(), k);
        assert forall|j: int| 0 <= j < s.len() - 1 implies (#[trigger] s[j]) == s.drop_last()[j] by {
        }
    }
}

/// Inserting keeps the keys distinct.
pub proof fn lemma_assoc_insert_unique<K, V>(s: Seq<(K, V)>, k: K, v: V)
    requires
        keys_unique(s),
    ensures
        keys_unique(assoc_insert(s, k, v)),
        key_index(assoc_insert(s, k, v), k) matches Some(i) && assoc_insert(s, k, v)[i] == (k, v),
{
    lemma_key_index(s, k);
    let t = assoc_insert(s, k, v);
    assert forall|a: int, b: int| 0 <= a < b < t.len() implies (#[trigger] t[a]).0 != (#[trigger] t[b]).0 by {
        match key_index(s, k) {
            Some(i) => {
                assert(t[a].0 == s[a].0 && t[b].0 == s[b].0);
            },
            None => {
                if b < s.len() {
                    assert(t[a] == s[a] && t[b] == s[b]);
                } else {
                    assert(t[a] == s[a]);
                }
            },
        }
    }
    lemma_key_index(t, k);
    match key_index(s, k) {
        Some(i) => {
            assert(t[i] == (k, v));
        },
        None => {
            assert(t[s.len() as int] == (k, v));
        },
    }
}

pub proof fn lemma_key_index_at<K, V>(s: Seq<(K, V)>, k: K, i: int)
    requires
        0 <= i < s.len(),
        s[i].0 == k,
        forall|j: int| 0 <= j < i ==> (#[trigger] s[j]).0 != k,
    ensures
        key_index(s, k) == Some(i),
{
    lemma_key_index(s, k);
}

pub proof fn lemma_key_index_none<K, V>(s: Seq<(K, V)>, k: K)
    requires
        forall|j: int| 0 <= j < s.len() ==> (#[trigger] s[j]).0 != k,
    ensures
        key_index(s, k) is None,
{
    lemma_key_index(s, k);
}

/// The first entry of `v` for `key`.
pub(crate) fn find_key<X>(v: &Vec<(String, X)>, key: &String) -> (r: Option<usize>)
    ensures
        match r {
            Some(i) => i < v@.len() && v@[i as int].0@ == key@ && forall|j: int| 0 <= j < i ==> (#[trigger] v@[j]).0@ != key@,
            None => forall|j: int| 0 <= j < v@.len() ==> (#[trigger] v@[j]).0@ != key@,
        },
{
    let mut i: usize = 0;
    while i < v.len()
        invariant
            i <= v@.len(),
            forall|j: int| 0 <= j < i ==> (#[trigger] v@[j]).0@ != key@,
        decreases v@.len() - i,
    {
        if v[i].0 == *key {
            return Some(i);
        }
        i += 1;
    }
    None
}

/// Add `(k, v)` to the group of `module`, making the group where there is
/// none yet.
pub open spec fn group_insert<V>(groups: Seq<(Seq<char>, Seq<(Seq<char>, V)>)>, module: Seq<char>, k: Seq<char>, v: V) -> Seq<
    (Seq<char>, Seq<(Seq<char>, V)>),
> {
    match key_index(groups, module) {
        Some(i) => groups.update(i, (module, assoc_insert(groups[i].1, k, v))),
        None => groups.push((module, seq![(k, v)])),
    }
}

/// Insert `(key, x)` into `v` in place of the first entry for `key`, or last.
pub(crate) fn vec_assoc_insert<X>(v: &mut Vec<(String, X)>, key: String, x: X) -> (r: Option<usize>)
    ensures
        match r {
            Some(i) => i < old(v)@.len() && old(v)@[i as int].0@ == key@ && (forall|j: int|
                0 <= j < i ==> (#[trigger] old(v)@[j]).0@ != key@) && final(v)@ == old(v)@.update(i as int, (key, x)),
            None => (forall|j: int| 0 <= j < old(v)@.len() ==> (#[trigger] old(v)@[j]).0@ != key@) && final(v)@
                == old(v)@.push((key, x)),
        },
{
    match find_key(v, &key) {
        Some(i) => {
            v.set(i, (key, x));
            Some(i)
        },
        None => {
            v.push((key, x));
            None
        },
    }
}


/// Every group holds each key once, and each group name occurs once.
pub open spec fn groups_unique<V>(groups: Seq<(Seq<char>, Seq<(Seq<char>, V)>)>) -> bool {
    &&& keys_unique(groups)
    &&& forall|i: int| 0 <= i < groups.len() ==> keys_unique(#[trigger] groups[i].1)
}

/// The value of `k` in the group of `module`.
pub open spec fn group_lookup<V>(groups: Seq<(Seq<char>, Seq<(Seq<char>, V)>)>, module: Seq<char>, k: Seq<char>) -> Option<V> {
    match key_index(groups, module) {
        Some(i) => match key_index(groups[i].1, k) {
            Some(j) => Some(groups[i].1[j].1),
            None => None,
        },
        None => None,
    }
}

/// Inserting into a group keeps names and keys unique, and the group then
/// gives the inserted value for the key.
pub proof fn lemma_group_insert<V>(groups: Seq<(Seq<char>, Seq<(Seq<char>, V)>)>, module: Seq<char>, k: Seq<char>, v: V)
    requires
        groups_unique(groups),
    ensures
        groups_unique(group_insert(groups, module, k, v)),
        group_lookup(group_insert(groups, module, k, v), module, k) == Some(v),
{
    let g2 = group_insert(groups, module, k, v);
    lemma_key_index(groups, module);
    match key_index(groups, module) {
        Some(i) => {
            lemma_assoc_insert_unique(groups[i].1, k, v);
            assert forall|a: int, b: int| 0 <= a < b < g2.len() implies (#[trigger] g2[a]).0 != (#[trigger] g2[b]).0 by {
                assert(g2[a].0 == groups[a].0 && g2[b].0 == groups[b].0);
            }
            assert forall|q: int| 0 <= q < g2.len() implies keys_unique(#[trigger] g2[q].1) by {
                if q != i {
                    assert(g2[q] == groups[q]);
                }
            }
            lemma_key_index_at(g2, module, i);
        },
        None => {
            assert forall|a: int, b: int| 0 <= a < b < g2.len() implies (#[trigger] g2[a]).0 != (#[trigger] g2[b]).0 by {
                assert(g2[a] == groups[a]);
                if b < groups.len() {
                    assert(g2[b] == groups[b]);
                }
            }
            assert forall|q: int| 0 <= q < g2.len() implies keys_unique(#[trigger] g2[q].1) by {
                if q < groups.len() {
                    assert(g2[q] == groups[q]);
                }
            }
            lemma_key_index_at(g2, module, groups.len() as int);
            lemma_key_index_at(seq![(k, v)], k, 0);
        },
    }
}

} // verus!
