//! String-keyed association lists with a `Map` view.
//!
//! The frame envelope keeps its stats and buffers in small key/value tables
//! that are assembled dynamically. Each table is a vector of
//! `(String, value)` entries with pairwise distinct keys, and every operation
//! is specified against the mathematical `Map` the table denotes.

use vstd::prelude::*;

verus! {

/// The map denoted by an association list: later entries shadow earlier
/// ones, which is irrelevant once keys are distinct.
pub open spec fn assoc_map<V: View>(s: Seq<(String, V)>) -> Map<Seq<char>, V::V>
    decreases s.len(),
{
    if s.len() == 0 {
        Map::empty()
    } else {
        assoc_map(s.drop_last()).insert(s.last().0@, s.last().1@)
    }
}

/// All keys of the table are pairwise distinct.
pub open spec fn distinct_keys<V: View>(s: Seq<(String, V)>) -> bool {
    forall|i: int, j: int| 0 <= i < j < s.len() ==> s[i].0@ != s[j].0@
}

/// The domain of the denoted map is exactly the set of keys in the table.
pub proof fn lemma_assoc_map_dom<V: View>(s: Seq<(String, V)>, k: Seq<char>)
    ensures
        assoc_map(s).dom().contains(k) <==> exists|i: int| 0 <= i < s.len() && s[i].0@ == k,
    decreases s.len(),
{
    if s.len() > 0 {
        lemma_assoc_map_dom(s.drop_last(), k);
        if s.last().0@ != k && assoc_map(s).dom().contains(k) {
            let i = choose|i: int| 0 <= i < s.drop_last().len() && s.drop_last()[i].0@ == k;
            assert(s[i].0@ == k);
        }
        if exists|i: int| 0 <= i < s.len() && s[i].0@ == k {
            let i = choose|i: int| 0 <= i < s.len() && s[i].0@ == k;
            if i < s.len() - 1 {
                assert(s.drop_last()[i].0@ == k);
            }
        }
    }
}

/// With distinct keys, the denoted map sends each key of the table to the
/// value stored beside it.
pub proof fn lemma_assoc_map_index<V: View>(s: Seq<(String, V)>, i: int)
    requires
        distinct_keys(s),
        0 <= i < s.len(),
    ensures
        assoc_map(s).dom().contains(s[i].0@),
        assoc_map(s)[s[i].0@] == s[i].1@,
    decreases s.len(),
{
    lemma_assoc_map_dom(s, s[i].0@);
    if i < s.len() - 1 {
        assert(s.drop_last()[i] == s[i]);
        lemma_assoc_map_index(s.drop_last(), i);
        assert(s.last().0@ != s[i].0@);
    }
}

/// Replacing the entry at `i` by one with the same key updates the denoted
/// map at that key.
pub proof fn lemma_assoc_map_update<V: View>(s: Seq<(String, V)>, i: int, e: (String, V))
    requires
        distinct_keys(s),
        0 <= i < s.len(),
        e.0@ == s[i].0@,
    ensures
        distinct_keys(s.update(i, e)),
        assoc_map(s.update(i, e)) == assoc_map(s).insert(e.0@, e.1@),
    decreases s.len(),
{
    let s2 = s.update(i, e);
    assert forall|x: int, y: int| 0 <= x < y < s2.len() implies s2[x].0@ != s2[y].0@ by {
        assert(s[x].0@ != s[y].0@);
    }
    if i == s.len() - 1 {
        assert(s2.drop_last() =~= s.drop_last());
        assert(assoc_map(s2) =~= assoc_map(s).insert(e.0@, e.1@));
    } else {
        assert(s2.drop_last() =~= s.drop_last().update(i, e));
        assert(s.drop_last()[i] == s[i]);
        lemma_assoc_map_update(s.drop_last(), i, e);
        assert(s2.last() == s.last());
        assert(s.last().0@ != e.0@);
        assert(assoc_map(s2) =~= assoc_map(s).insert(e.0@, e.1@));
    }
}

/// Appending an entry whose key is absent updates the denoted map at that
/// key and keeps the keys distinct.
pub proof fn lemma_assoc_map_push<V: View>(s: Seq<(String, V)>, e: (String, V))
    requires
        distinct_keys(s),
        forall|i: int| 0 <= i < s.len() ==> s[i].0@ != e.0@,
    ensures
        distinct_keys(s.push(e)),
        assoc_map(s.push(e)) == assoc_map(s).insert(e.0@, e.1@),
{
    assert(s.push(e).drop_last() =~= s);
}

/// Removing the entry at `i` removes its key from the denoted map.
pub proof fn lemma_assoc_map_remove<V: View>(s: Seq<(String, V)>, i: int)
    requires
        distinct_keys(s),
        0 <= i < s.len(),
    ensures
        distinct_keys(s.remove(i)),
        assoc_map(s.remove(i)) == assoc_map(s).remove(s[i].0@),
    decreases s.len(),
{
    let s2 = s.remove(i);
    assert forall|x: int, y: int| 0 <= x < y < s2.len() implies s2[x].0@ != s2[y].0@ by {
        let x0 = if x < i { x } else { x + 1 };
        let y0 = if y < i { y } else { y + 1 };
        assert(s2[x] == s[x0] && s2[y] == s[y0]);
        assert(s[x0].0@ != s[y0].0@);
    }
    lemma_assoc_map_dom(s.drop_last(), s[i].0@);
    if i == s.len() - 1 {
        assert(s2 =~= s.drop_last());
        assert(assoc_map(s2) =~= assoc_map(s).remove(s[i].0@));
    } else {
        assert(s2.drop_last() =~= s.drop_last().remove(i));
        assert(s.drop_last()[i] == s[i]);
        lemma_assoc_map_remove(s.drop_last(), i);
        assert(s2.last() == s.last());
        assert(s.last().0@ != s[i].0@);
        assert(assoc_map(s2) =~= assoc_map(s).remove(s[i].0@));
    }
}

/// Index of the entry holding `key`, if any.
pub fn assoc_find<V: View>(entries: &Vec<(String, V)>, key: &String) -> (r: Option<usize>)
    ensures
        match r {
            Some(i) => i < entries@.len() && entries@[i as int].0@ == key@,
            None => forall|i: int| 0 <= i < entries@.len() ==> entries@[i].0@ != key@,
        },
{
    let n = entries.len();
    let mut i: usize = 0;
    while i < n
        invariant
            i <= n,
            n == entries@.len(),
            forall|j: int| 0 <= j < i ==> entries@[j].0@ != key@,
        decreases n - i,
    {
        if entries[i].0 == *key {
            return Some(i);
        }
        i = i + 1;
    }
    None
}

/// Whether the table holds `key`.
pub fn assoc_contains<V: View>(entries: &Vec<(String, V)>, key: &String) -> (r: bool)
    ensures
        r == assoc_map(entries@).dom().contains(key@),
{
    proof {
        lemma_assoc_map_dom(entries@, key@);
    }
    assoc_find(entries, key).is_some()
}

/// Reference to the value stored under `key`, if any.
pub fn assoc_get<'a, V: View>(entries: &'a Vec<(String, V)>, key: &String) -> (r: Option<&'a V>)
    requires
        distinct_keys(entries@),
    ensures
        match r {
            Some(v) => assoc_map(entries@).dom().contains(key@) && v@ == assoc_map(entries@)[key@],
            None => !assoc_map(entries@).dom().contains(key@),
        },
{
    proof {
        lemma_assoc_map_dom(entries@, key@);
    }
    match assoc_find(entries, key) {
        Some(i) => {
            proof {
                lemma_assoc_map_index(entries@, i as int);
            }
            Some(&entries[i].1)
        },
        None => None,
    }
}

/// Binds `key` to `value`, overwriting any earlier binding.
pub fn assoc_set<V: View>(entries: &mut Vec<(String, V)>, key: &String, value: V)
    requires
        distinct_keys(old(entries)@),
    ensures
        distinct_keys(final(entries)@),
        assoc_map(final(entries)@) == assoc_map(old(entries)@).insert(key@, value@),
{
    let e = (key.clone(), value);
    match assoc_find(entries, key) {
        Some(i) => {
            proof {
                lemma_assoc_map_update(entries@, i as int, e);
            }
            entries.set(i, e);
        },
        None => {
            proof {
                lemma_assoc_map_push(entries@, e);
            }
            entries.push(e);
        },
    }
}

/// Removes and returns the value bound to `key`, if any.
pub fn assoc_remove<V: View>(entries: &mut Vec<(String, V)>, key: &String) -> (r: Option<V>)
    requires
        distinct_keys(old(entries)@),
    ensures
        distinct_keys(final(entries)@),
        match r {
            Some(v) => assoc_map(old(entries)@).dom().contains(key@)
                && v@ == assoc_map(old(entries)@)[key@]
                && assoc_map(final(entries)@) == assoc_map(old(entries)@).remove(key@),
            None => !assoc_map(old(entries)@).dom().contains(key@)
                && final(entries)@ == old(entries)@,
        },
{
    proof {
        lemma_assoc_map_dom(entries@, key@);
    }
    match assoc_find(entries, key) {
        Some(i) => {
            proof {
                lemma_assoc_map_index(entries@, i as int);
                lemma_assoc_map_remove(entries@, i as int);
            }
            let e = entries.remove(i);
            Some(e.1)
        },
        None => None,
    }
}

} // verus!
