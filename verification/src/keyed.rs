//! Sequences of named entries used as small maps: each name occurs at most
//! once, and writing under a name replaces its entry in place or adds one at
//! the end.

use vstd::prelude::*;

verus! {

/// Some entry carries the name `k`.
pub open spec fn has_key<V>(s: Seq<(Seq<char>, V)>, k: Seq<char>) -> bool {
    exists|i: int| 0 <= i < s.len() && #[trigger] s[i].0 == k
}

/// The position of an entry named `k` (meaningful only where `has_key`).
pub open spec fn key_pos<V>(s: Seq<(Seq<char>, V)>, k: Seq<char>) -> int {
    choose|i: int| 0 <= i < s.len() && #[trigger] s[i].0 == k
}

/// The value stored under `k`, if any.
pub open spec fn value_of<V>(s: Seq<(Seq<char>, V)>, k: Seq<char>) -> Option<V> {
    if has_key(s, k) {
        Some(s[key_pos(s, k)].1)
    } else {
        None
    }
}

/// No name occurs twice.
pub open spec fn unique_keys<V>(s: Seq<(Seq<char>, V)>) -> bool {
    forall|i: int, j: int| 0 <= i < j < s.len() ==> #[trigger] s[i].0 != #[trigger] s[j].0
}

/// The entries after writing `v` under `k`.
pub open spec fn put<V>(s: Seq<(Seq<char>, V)>, k: Seq<char>, v: V) -> Seq<(Seq<char>, V)> {
    if has_key(s, k) {
        s.update(key_pos(s, k), (k, v))
    } else {
        s.push((k, v))
    }
}

/// The names, in order.
pub open spec fn keys_of<V>(s: Seq<(Seq<char>, V)>) -> Seq<Seq<char>> {
    s.map_values(|e: (Seq<char>, V)| e.0)
}

/// With unique names, the entry at `i` is the one found under its name.
pub proof fn lemma_key_pos<V>(s: Seq<(Seq<char>, V)>, i: int)
    requires
        unique_keys(s),
        0 <= i < s.len(),
    ensures
        has_key(s, s[i].0),
        key_pos(s, s[i].0) == i,
        value_of(s, s[i].0) == Some(s[i].1),
{
    let k = s[i].0;
    assert(s[i].0 == k);
    let p = key_pos(s, k);
    if p != i {
        if p < i {
            assert(s[p].0 != s[i].0);
        } else {
            assert(s[i].0 != s[p].0);
        }
    }
}

/// Writing keeps names unique, makes `v` the value under `k` and leaves the
/// other names as they were; the names keep their order, `k` last if new.
pub proof fn lemma_put<V>(s: Seq<(Seq<char>, V)>, k: Seq<char>, v: V)
    requires
        unique_keys(s),
    ensures
        unique_keys(put(s, k, v)),
        value_of(put(s, k, v), k) == Some(v),
        forall|k2: Seq<char>| k2 != k ==> value_of(put(s, k, v), k2) == value_of(s, k2),
        has_key(s, k) ==> keys_of(put(s, k, v)) == keys_of(s),
        !has_key(s, k) ==> keys_of(put(s, k, v)) == keys_of(s).push(k),
{
    let s2 = put(s, k, v);
    if has_key(s, k) {
        let c = key_pos(s, k);
        assert forall|i: int, j: int| 0 <= i < j < s2.len() implies #[trigger] s2[i].0
            != #[trigger] s2[j].0 by {
            assert(s2[i].0 == s[i].0);
            assert(s2[j].0 == s[j].0);
        }
        lemma_key_pos(s2, c);
        assert forall|k2: Seq<char>| k2 != k implies value_of(s2, k2) == value_of(s, k2) by {
            if has_key(s, k2) {
                let a = key_pos(s, k2);
                lemma_key_pos(s, a);
                assert(a != c);
                lemma_key_pos(s2, a);
            } else if has_key(s2, k2) {
                let b = key_pos(s2, k2);
                assert(s[b].0 == k2);
            }
        }
        assert(keys_of(s2) =~= keys_of(s));
    } else {
        let n = s.len() as int;
        assert forall|i: int, j: int| 0 <= i < j < s2.len() implies #[trigger] s2[i].0
            != #[trigger] s2[j].0 by {
            if j == n {
                assert(s[i].0 != k);
            } else {
                assert(s[i].0 != s[j].0);
            }
        }
        lemma_key_pos(s2, n);
        assert forall|k2: Seq<char>| k2 != k implies value_of(s2, k2) == value_of(s, k2) by {
            if has_key(s, k2) {
                let a = key_pos(s, k2);
                lemma_key_pos(s, a);
                lemma_key_pos(s2, a);
            } else if has_key(s2, k2) {
                let b = key_pos(s2, k2);
                assert(b != n);
                assert(s[b].0 == k2);
            }
        }
        assert(keys_of(s2) =~= keys_of(s).push(k));
    }
}

/// Writing twice under one name is writing the second value once.
pub proof fn lemma_put_twice<V>(s: Seq<(Seq<char>, V)>, k: Seq<char>, a: V, b: V)
    requires
        unique_keys(s),
    ensures
        put(put(s, k, a), k, b) == put(s, k, b),
{
    lemma_put(s, k, a);
    let s1 = put(s, k, a);
    if has_key(s, k) {
        let c = key_pos(s, k);
        assert(s[c].0 == k);
        lemma_key_pos(s1, c);
        assert(put(s1, k, b) =~= put(s, k, b));
    } else {
        let n = s.len() as int;
        assert(s1[n].0 == k);
        lemma_key_pos(s1, n);
        assert(put(s1, k, b) =~= put(s, k, b));
    }
}

/// The entries after dropping the one named `k`, if there is one.
pub open spec fn drop_key<V>(s: Seq<(Seq<char>, V)>, k: Seq<char>) -> Seq<(Seq<char>, V)> {
    if has_key(s, k) {
        s.remove(key_pos(s, k))
    } else {
        s
    }
}

/// Dropping keeps names unique, leaves nothing under `k` and every other
/// name as it was.
pub proof fn lemma_drop_key<V>(s: Seq<(Seq<char>, V)>, k: Seq<char>)
    requires
        unique_keys(s),
    ensures
        unique_keys(drop_key(s, k)),
        value_of(drop_key(s, k), k) is None,
        forall|k2: Seq<char>| k2 != k ==> value_of(drop_key(s, k), k2) == value_of(s, k2),
{
    let s2 = drop_key(s, k);
    if has_key(s, k) {
        let c = key_pos(s, k);
        assert forall|i: int, j: int| 0 <= i < j < s2.len() implies #[trigger] s2[i].0
            != #[trigger] s2[j].0 by {
            let a = if i < c { i } else { i + 1 };
            let b = if j < c { j } else { j + 1 };
            assert(s2[i] == s[a]);
            assert(s2[j] == s[b]);
            assert(s[a].0 != s[b].0);
        }
        if has_key(s2, k) {
            let b = key_pos(s2, k);
            let a = if b < c { b } else { b + 1 };
            assert(s2[b] == s[a]);
            lemma_key_pos(s, a);
        }
        assert forall|k2: Seq<char>| k2 != k implies value_of(s2, k2) == value_of(s, k2) by {
            if has_key(s, k2) {
                let a = key_pos(s, k2);
                lemma_key_pos(s, a);
                assert(a != c);
                let b = if a < c { a } else { a - 1 };
                assert(s2[b] == s[a]);
                lemma_key_pos(s2, b);
            } else if has_key(s2, k2) {
                let b = key_pos(s2, k2);
                let a = if b < c { b } else { b + 1 };
                assert(s2[b] == s[a]);
            }
        }
    }
}

/// The first position of `k` among the names of `v`.
pub fn position_of<V>(v: &Vec<(String, V)>, k: &String) -> (r: Option<usize>)
    ensures
        match r {
            Some(i) => i < v@.len() && v@[i as int].0@ == k@ && forall|j: int| 0 <= j < i ==> v@[j].0@ != k@,
            None => forall|j: int| 0 <= j < v@.len() ==> v@[j].0@ != k@,
        },
{
    let mut i: usize = 0;
    while i < v.len()
        invariant
            i <= v@.len(),
            forall|j: int| 0 <= j < i ==> v@[j].0@ != k@,
        decreases v@.len() - i,
    {
        if v[i].0 == *k {
            return Some(i);
        }
        i = i + 1;
    }
    None
}


/// The items of `s` whose age in `ages` (one per item, in nanoseconds) is
/// under `max`, in their order.
pub open spec fn fresh_entries<T>(s: Seq<T>, ages: Seq<nat>, max: nat) -> Seq<T>
    decreases s.len(),
{
    if s.len() == 0 || ages.len() == 0 {
        Seq::empty()
    } else {
        let prev = fresh_entries(s.drop_last(), ages.drop_last(), max);
        if ages.last() < max {
            prev.push(s.last())
        } else {
            prev
        }
    }
}

} // verus!
