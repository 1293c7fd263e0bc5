//! Name-keyed association lists.
//!
//! The parameter store and the layer state machine key their entries by
//! `String` names.  Entries are held in insertion order in a `Vec` of pairs
//! with pairwise-distinct keys, and are viewed in specifications as a
//! `Map` from character sequences to values.

use vstd::prelude::*;

verus! {

/// The map described by an association list: later entries win, though with
/// distinct keys every entry is visible.
pub open spec fn amap<V>(s: Seq<(String, V)>) -> Map<Seq<char>, V>
    decreases s.len(),
{
    if s.len() == 0 {
        Map::empty()
    } else {
        amap(s.drop_last()).insert(s.last().0@, s.last().1)
    }
}

/// Keys are pairwise distinct.
pub open spec fn keys_distinct<V>(s: Seq<(String, V)>) -> bool {
    forall|i: int, j: int| 0 <= i < j < s.len() ==> (#[trigger] s[i]).0@ != (#[trigger] s[j]).0@
}

/// Every entry of a distinct-keyed list is visible in its map.
pub proof fn lemma_amap_index<V>(s: Seq<(String, V)>, i: int)
    requires
        keys_distinct(s),
        0 <= i < s.len(),
    ensures
        amap(s).contains_key(s[i].0@),
        amap(s)[s[i].0@] == s[i].1,
    decreases s.len(),
{
    if i == s.len() - 1 {
    } else {
        assert(keys_distinct(s.drop_last())) by {
            assert(forall|x: int, y: int|
                0 <= x < y < s.drop_last().len() ==> s.drop_last()[x] == s[x] && s.drop_last()[y]
                    == s[y]);
        }
        lemma_amap_index(s.drop_last(), i);
        assert(s.drop_last()[i] == s[i]);
        assert(s.last().0@ != s[i].0@);
    }
}

/// A key matching no entry is absent from the map.
pub proof fn lemma_amap_absent<V>(s: Seq<(String, V)>, k: Seq<char>)
    requires
        forall|i: int| 0 <= i < s.len() ==> (#[trigger] s[i]).0@ != k,
    ensures
        !amap(s).contains_key(k),
    decreases s.len(),
{
    if s.len() > 0 {
        assert(forall|i: int|
            0 <= i < s.drop_last().len() ==> (#[trigger] s.drop_last()[i]) == s[i]);
        lemma_amap_absent(s.drop_last(), k);
    }
}

/// Appending a fresh key inserts it into the map.
pub proof fn lemma_amap_push<V>(s: Seq<(String, V)>, p: (String, V))
    ensures
        amap(s.push(p)) == amap(s).insert(p.0@, p.1),
{
    assert(s.push(p).drop_last() =~= s);
    assert(s.push(p).last() == p);
}

/// Replacing the value at an existing key updates the map in place.
pub proof fn lemma_amap_update<V>(s: Seq<(String, V)>, i: int, v: V)
    requires
        keys_distinct(s),
        0 <= i < s.len(),
    ensures
        amap(s.update(i, (s[i].0, v))) == amap(s).insert(s[i].0@, v),
    decreases s.len(),
{
    let s2 = s.update(i, (s[i].0, v));
    if i == s.len() - 1 {
        assert(s2.drop_last() =~= s.drop_last());
        assert(amap(s2) == amap(s.drop_last()).insert(s[i].0@, v));
        assert(amap(s).insert(s[i].0@, v) == amap(s.drop_last()).insert(s[i].0@, s[i].1).insert(
            s[i].0@,
            v,
        ));
        assert(amap(s.drop_last()).insert(s[i].0@, s[i].1).insert(s[i].0@, v) =~= amap(
            s.drop_last(),
        ).insert(s[i].0@, v));
    } else {
        assert(keys_distinct(s.drop_last())) by {
            assert(forall|x: int, y: int|
                0 <= x < y < s.drop_last().len() ==> s.drop_last()[x] == s[x] && s.drop_last()[y]
                    == s[y]);
        }
        lemma_amap_update(s.drop_last(), i, v);
        assert(s2.drop_last() =~= s.drop_last().update(i, (s[i].0, v)));
        assert(s2.last() == s.last());
        assert(s.drop_last()[i] == s[i]);
        assert(s[i].0@ != s.last().0@);
        assert(amap(s2) == amap(s.drop_last()).insert(s[i].0@, v).insert(s.last().0@, s.last().1));
        assert(amap(s.drop_last()).insert(s[i].0@, v).insert(s.last().0@, s.last().1) =~= amap(
            s.drop_last(),
        ).insert(s.last().0@, s.last().1).insert(s[i].0@, v));
    }
}

/// Every value visible in the map is the value of some entry.
pub proof fn lemma_amap_values<V>(s: Seq<(String, V)>, k: Seq<char>)
    requires
        amap(s).contains_key(k),
    ensures
        exists|i: int| 0 <= i < s.len() && (#[trigger] s[i]).1 == amap(s)[k],
    decreases s.len(),
{
    if s.len() > 0 {
        if s.last().0@ == k {
            assert(s[s.len() - 1].1 == amap(s)[k]);
        } else {
            lemma_amap_values(s.drop_last(), k);
            let i = choose|i: int|
                0 <= i < s.drop_last().len() && (#[trigger] s.drop_last()[i]).1 == amap(
                    s.drop_last(),
                )[k];
            assert(s[i].1 == amap(s)[k]);
        }
    }
}

/// Look a name up in an association list; the result reports whether any
/// entry carries the name, and if so where.
pub fn assoc_find<V>(v: &Vec<(String, V)>, name: &str) -> (r: Option<usize>)
    ensures
        match r {
            Some(i) => i < v@.len() && v@[i as int].0@ == name@,
            None => forall|i: int| 0 <= i < v@.len() ==> (#[trigger] v@[i]).0@ != name@,
        },
{
    let key: String = name.to_owned();
    let mut i: usize = 0;
    while i < v.len()
        invariant
            i <= v@.len(),
            key@ == name@,
            forall|j: int| 0 <= j < i ==> (#[trigger] v@[j]).0@ != name@,
        decreases v@.len() - i,
    {
        if v[i].0 == key {
            return Some(i);
        }
        i = i + 1;
    }
    None
}

/// Fetch the value stored under a name, if any.
pub fn assoc_get<V: Copy>(v: &Vec<(String, V)>, name: &str) -> (r: Option<V>)
    requires
        keys_distinct(v@),
    ensures
        r == (if amap(v@).contains_key(name@) {
            Some(amap(v@)[name@])
        } else {
            None::<V>
        }),
{
    match assoc_find(v, name) {
        Some(i) => {
            proof {
                lemma_amap_index(v@, i as int);
            }
            Some(v[i].1)
        },
        None => {
            proof {
                lemma_amap_absent(v@, name@);
            }
            None
        },
    }
}

/// Store a value under a name, replacing any existing entry for it.
pub fn assoc_set<V>(v: &mut Vec<(String, V)>, name: &str, value: V)
    requires
        keys_distinct(old(v)@),
    ensures
        keys_distinct(final(v)@),
        amap(final(v)@) == amap(old(v)@).insert(name@, value),
        forall|i: int|
            0 <= i < final(v)@.len() ==> (#[trigger] final(v)@[i]).1 == value || exists|j: int|
                0 <= j < old(v)@.len() && final(v)@[i].1 == (#[trigger] old(v)@[j]).1,
{
    match assoc_find(v, name) {
        Some(i) => {
            let key = v[i].0.clone();
            let ghost s = v@;
            v[i] = (key, value);
            proof {
                assert(v@ =~= s.update(i as int, (s[i as int].0, value)));
                lemma_amap_update(s, i as int, value);
                assert forall|x: int, y: int| 0 <= x < y < v@.len() implies (#[trigger] v@[x]).0@
                    != (#[trigger] v@[y]).0@ by {
                    assert(v@[x].0@ == s[x].0@ && v@[y].0@ == s[y].0@);
                }
            }
        },
        None => {
            let key: String = name.to_owned();
            let ghost s = v@;
            v.push((key, value));
            proof {
                lemma_amap_push(s, v@.last());
                assert(v@ == s.push(v@.last()));
                assert forall|x: int, y: int| 0 <= x < y < v@.len() implies (#[trigger] v@[x]).0@
                    != (#[trigger] v@[y]).0@ by {
                    if y == s.len() {
                        assert(v@[x].0@ == s[x].0@ && v@[y].0@ == name@);
                    } else {
                        assert(v@[x].0@ == s[x].0@ && v@[y].0@ == s[y].0@);
                    }
                }
            }
        },
    }
}

} // verus!
