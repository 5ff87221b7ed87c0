//! Sets of strings and maps keyed by strings, kept in vectors.
//!
//! A set holds each string once; a map holds each key once, and a new value
//! for a key takes the place of the old one, as `HashSet` and `HashMap` do.
//! The vectors keep the order in which keys first arrived.
use vstd::prelude::*;
use crate::paths::views_of;

verus! {

/// No string occurs twice.
pub open spec fn distinct_strings(v: Seq<String>) -> bool {
    forall|i: int, j: int| 0 <= i < v.len() && 0 <= j < v.len() && i != j ==> v[i]@ != v[j]@
}

/// The set of the strings' characters.
pub open spec fn string_set(v: Seq<String>) -> Set<Seq<char>> {
    Set::new(|s: Seq<char>| exists|i: int| 0 <= i < v.len() && v[i]@ == s)
}

/// Whether some string in `v` spells `s`.
pub fn set_contains(v: &Vec<String>, s: &String) -> (res: bool)
    ensures
        res == string_set(v@).contains(s@),
{
    let mut i: usize = 0;
    while i < v.len()
        invariant
            i <= v.len(),
            forall|j: int| 0 <= j < i ==> v@[j]@ != s@,
        decreases v.len() - i,
    {
        if v[i] == *s {
            return true;
        }
        i = i + 1;
    }
    false
}

/// Adds `s` to the set `v`, unless it is already there.
pub fn set_insert(v: &mut Vec<String>, s: String)
    requires
        distinct_strings(old(v)@),
    ensures
        distinct_strings(final(v)@),
        string_set(final(v)@) == string_set(old(v)@).insert(s@),
{
    if set_contains(v, &s) {
        assert(string_set(v@) =~= string_set(v@).insert(s@));
        return;
    }
    let ghost prev = v@;
    v.push(s);
    assert(string_set(v@) =~= string_set(prev).insert(s@)) by {
        assert forall|t: Seq<char>| string_set(prev).insert(s@).contains(t) implies string_set(v@).contains(t) by {
            if t == s@ {
                assert(v@[prev.len() as int]@ == t);
            } else {
                let i = choose|i: int| 0 <= i < prev.len() && prev[i]@ == t;
                assert(v@[i]@ == t);
            }
        }
    }
}

/// Each key occurs once.
pub open spec fn distinct_keys<V>(v: Seq<(String, V)>) -> bool {
    forall|i: int, j: int| 0 <= i < v.len() && 0 <= j < v.len() && i != j ==> v[i].0@ != v[j].0@
}

/// The position of key `k`, if it is there.
pub open spec fn key_index<V>(v: Seq<(String, V)>, k: Seq<char>) -> int {
    choose|i: int| 0 <= i < v.len() && v[i].0@ == k
}

/// The map from keys to values.
pub open spec fn key_map<V>(v: Seq<(String, V)>) -> Map<Seq<char>, V> {
    Map::new(
        |k: Seq<char>| exists|i: int| 0 <= i < v.len() && v[i].0@ == k,
        |k: Seq<char>| v[key_index(v, k)].1,
    )
}

/// With distinct keys, the map gives each key the value stored beside it.
pub proof fn lemma_key_map_at<V>(v: Seq<(String, V)>, i: int)
    requires
        distinct_keys(v),
        0 <= i < v.len(),
    ensures
        key_map(v).contains_key(v[i].0@),
        key_map(v)[v[i].0@] == v[i].1,
{
    let k = v[i].0@;
    assert(exists|j: int| 0 <= j < v.len() && v[j].0@ == k);
    let j = key_index(v, k);
    assert(j == i);
}

/// Where key `k` stands, if it is there.
pub fn find_key<V>(v: &Vec<(String, V)>, k: &str) -> (res: Option<usize>)
    ensures
        res is None ==> !key_map(v@).contains_key(k@),
        res matches Some(i) ==> i < v@.len() && v@[i as int].0@ == k@,
{
    let key = crate::text::owned(k);
    let mut i: usize = 0;
    while i < v.len()
        invariant
            i <= v.len(),
            key@ == k@,
            forall|j: int| 0 <= j < i ==> v@[j].0@ != k@,
        decreases v.len() - i,
    {
        if v[i].0 == key {
            return Some(i);
        }
        i = i + 1;
    }
    None
}

/// The value stored for `k` (`HashMap::get`).
pub fn map_get<'a, V>(v: &'a Vec<(String, V)>, k: &str) -> (res: Option<&'a V>)
    requires
        distinct_keys(v@),
    ensures
        res is Some <==> key_map(v@).contains_key(k@),
        res matches Some(r) ==> *r == key_map(v@)[k@],
{
    match find_key(v, k) {
        Some(i) => {
            proof {
                lemma_key_map_at(v@, i as int);
            }
            Some(&v[i].1)
        },
        None => None,
    }
}

/// Stores `val` for `k`, in place of any value stored before
/// (`HashMap::insert`).
pub fn map_insert<V>(v: &mut Vec<(String, V)>, k: String, val: V)
    requires
        distinct_keys(old(v)@),
    ensures
        distinct_keys(final(v)@),
        key_map(final(v)@) == key_map(old(v)@).insert(k@, val),
        final(v)@.len() >= old(v)@.len(),
        forall|i: int| 0 <= i < old(v)@.len() ==> (#[trigger] final(v)@[i]).0@ == old(v)@[i].0@,
{
    let ghost prev = v@;
    match find_key(v, k.as_str()) {
        Some(i) => {
            v.set(i, (k, val));
            proof {
                assert(v@ == prev.update(i as int, v@[i as int]));
                assert(v@[i as int].0@ == k@);
                assert forall|a: int, b: int| 0 <= a < v@.len() && 0 <= b < v@.len() && a != b
                    implies v@[a].0@ != v@[b].0@ by {
                    assert(prev[a].0@ != prev[b].0@);
                }
                assert forall|key: Seq<char>| #[trigger] key_map(v@).contains_key(key)
                    <==> key_map(prev).insert(k@, val).contains_key(key) by {
                    if key_map(prev).insert(k@, val).contains_key(key) && key != k@ {
                        let j = choose|j: int| 0 <= j < prev.len() && prev[j].0@ == key;
                        assert(v@[j].0@ == key);
                    }
                    if key_map(v@).contains_key(key) && key != k@ {
                        let j = choose|j: int| 0 <= j < v@.len() && v@[j].0@ == key;
                        assert(prev[j].0@ == key);
                    }
                }
                assert forall|key: Seq<char>| #[trigger] key_map(v@).contains_key(key)
                    implies key_map(v@)[key] == key_map(prev).insert(k@, val)[key] by {
                    let j = choose|j: int| 0 <= j < v@.len() && v@[j].0@ == key;
                    lemma_key_map_at(v@, j);
                    if key != k@ {
                        lemma_key_map_at(prev, j);
                    }
                }
                assert(key_map(v@) =~= key_map(prev).insert(k@, val));
            }
        },
        None => {
            v.push((k, val));
            proof {
                let n = prev.len() as int;
                assert forall|a: int, b: int| 0 <= a < v@.len() && 0 <= b < v@.len() && a != b
                    implies v@[a].0@ != v@[b].0@ by {
                    if a < n && b < n {
                        assert(prev[a].0@ != prev[b].0@);
                    } else if a < n {
                        assert(key_map(prev).contains_key(prev[a].0@));
                    } else {
                        assert(key_map(prev).contains_key(prev[b].0@));
                    }
                }
                assert forall|key: Seq<char>| #[trigger] key_map(v@).contains_key(key)
                    <==> key_map(prev).insert(k@, val).contains_key(key) by {
                    if key_map(prev).insert(k@, val).contains_key(key) {
                        if key == k@ {
                            assert(v@[n].0@ == key);
                        } else {
                            let j = choose|j: int| 0 <= j < prev.len() && prev[j].0@ == key;
                            assert(v@[j].0@ == key);
                        }
                    }
                    if key_map(v@).contains_key(key) && key != k@ {
                        let j = choose|j: int| 0 <= j < v@.len() && v@[j].0@ == key;
                        assert(prev[j].0@ == key);
                    }
                }
                assert forall|key: Seq<char>| #[trigger] key_map(v@).contains_key(key)
                    implies key_map(v@)[key] == key_map(prev).insert(k@, val)[key] by {
                    let j = choose|j: int| 0 <= j < v@.len() && v@[j].0@ == key;
                    lemma_key_map_at(v@, j);
                    if key != k@ {
                        lemma_key_map_at(prev, j);
                    }
                }
                assert(key_map(v@) =~= key_map(prev).insert(k@, val));
            }
        },
    }
}


/// Replacing the value at position `i`, under the same key, replaces the
/// key's value in the map.
pub proof fn lemma_key_map_update<V>(v: Seq<(String, V)>, i: int, entry: (String, V))
    requires
        distinct_keys(v),
        0 <= i < v.len(),
        entry.0@ == v[i].0@,
    ensures
        distinct_keys(v.update(i, entry)),
        key_map(v.update(i, entry)) == key_map(v).insert(entry.0@, entry.1),
{
    let w = v.update(i, entry);
    let k = entry.0@;
    assert forall|a: int, b: int| 0 <= a < w.len() && 0 <= b < w.len() && a != b
        implies w[a].0@ != w[b].0@ by {
        assert(v[a].0@ != v[b].0@);
    }
    assert(w[i].0@ == k);
    assert forall|key: Seq<char>| #[trigger] key_map(w).contains_key(key)
        <==> key_map(v).insert(k, entry.1).contains_key(key) by {
        if key_map(v).insert(k, entry.1).contains_key(key) && key != k {
            let j = choose|j: int| 0 <= j < v.len() && v[j].0@ == key;
            assert(w[j].0@ == key);
        }
        if key_map(w).contains_key(key) && key != k {
            let j = choose|j: int| 0 <= j < w.len() && w[j].0@ == key;
            assert(v[j].0@ == key);
        }
    }
    assert forall|key: Seq<char>| #[trigger] key_map(w).contains_key(key)
        implies key_map(w)[key] == key_map(v).insert(k, entry.1)[key] by {
        let j = choose|j: int| 0 <= j < w.len() && w[j].0@ == key;
        lemma_key_map_at(w, j);
        if key != k {
            lemma_key_map_at(v, j);
        }
    }
    assert(key_map(w) =~= key_map(v).insert(k, entry.1));
}

/// Adding a new key at the end adds it to the map.
pub proof fn lemma_key_map_push<V>(v: Seq<(String, V)>, entry: (String, V))
    requires
        distinct_keys(v),
        !key_map(v).contains_key(entry.0@),
    ensures
        distinct_keys(v.push(entry)),
        key_map(v.push(entry)) == key_map(v).insert(entry.0@, entry.1),
{
    let w = v.push(entry);
    let k = entry.0@;
    let n = v.len() as int;
    assert forall|a: int, b: int| 0 <= a < w.len() && 0 <= b < w.len() && a != b
        implies w[a].0@ != w[b].0@ by {
        if a < n && b < n {
            assert(v[a].0@ != v[b].0@);
        } else if a < n {
            assert(key_map(v).contains_key(v[a].0@));
        } else {
            assert(key_map(v).contains_key(v[b].0@));
        }
    }
    assert forall|key: Seq<char>| #[trigger] key_map(w).contains_key(key)
        <==> key_map(v).insert(k, entry.1).contains_key(key) by {
        if key_map(v).insert(k, entry.1).contains_key(key) {
            if key == k {
                assert(w[n].0@ == key);
            } else {
                let j = choose|j: int| 0 <= j < v.len() && v[j].0@ == key;
                assert(w[j].0@ == key);
            }
        }
        if key_map(w).contains_key(key) && key != k {
            let j = choose|j: int| 0 <= j < w.len() && w[j].0@ == key;
            assert(v[j].0@ == key);
        }
    }
    assert forall|key: Seq<char>| #[trigger] key_map(w).contains_key(key)
        implies key_map(w)[key] == key_map(v).insert(k, entry.1)[key] by {
        let j = choose|j: int| 0 <= j < w.len() && w[j].0@ == key;
        lemma_key_map_at(w, j);
        if key != k {
            lemma_key_map_at(v, j);
        }
    }
    assert(key_map(w) =~= key_map(v).insert(k, entry.1));
}

} // verus!
