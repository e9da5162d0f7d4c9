//! String-keyed tables held as vectors of pairs whose keys are distinct.
use vstd::prelude::*;

use crate::text::owned;

verus! {

/// No key occurs twice.
pub open spec fn keys_distinct<V>(s: Seq<(Seq<char>, V)>) -> bool {
    forall|i: int, j: int| 0 <= i < j < s.len() ==> #[trigger] s[i].0 != #[trigger] s[j].0
}

/// Some pair of `s` has key `k`.
pub open spec fn has_key<V>(s: Seq<(Seq<char>, V)>, k: Seq<char>) -> bool {
    exists|i: int| 0 <= i < s.len() && #[trigger] s[i].0 == k
}

/// The map that the pairs of `s` describe (a later pair wins over an earlier one).
pub open spec fn to_map<V>(s: Seq<(Seq<char>, V)>) -> Map<Seq<char>, V>
    decreases s.len(),
{
    if s.len() == 0 {
        Map::empty()
    } else {
        to_map(s.drop_last()).insert(s.last().0, s.last().1)
    }
}

/// The pairs of a vector whose keys are strings, each key and value taken by its view.
pub open spec fn view_pairs<V: View>(v: Seq<(String, V)>) -> Seq<(Seq<char>, V::V)> {
    v.map_values(|p: (String, V)| (p.0@, p.1@))
}

/// The map that a vector of string-keyed pairs describes.
pub open spec fn table<V: View>(v: Seq<(String, V)>) -> Map<Seq<char>, V::V> {
    to_map(view_pairs(v))
}

/// The keys of a vector of string-keyed pairs are distinct.
pub open spec fn table_wf<V: View>(v: Seq<(String, V)>) -> bool {
    keys_distinct(view_pairs(v))
}

pub proof fn lemma_to_map_dom<V>(s: Seq<(Seq<char>, V)>, k: Seq<char>)
    ensures
        to_map(s).dom().contains(k) == has_key(s, k),
    decreases s.len(),
{
    if s.len() > 0 {
        lemma_to_map_dom(s.drop_last(), k);
        if has_key(s, k) && s.last().0 != k {
            let i = choose|i: int| 0 <= i < s.len() && #[trigger] s[i].0 == k;
            assert(s.drop_last()[i].0 == k);
        }
        if has_key(s.drop_last(), k) {
            let i = choose|i: int| 0 <= i < s.len() - 1 && #[trigger] s.drop_last()[i].0 == k;
            assert(s[i].0 == k);
        }
        if s.last().0 == k {
            assert(s[s.len() - 1].0 == k);
        }
    }
}

pub proof fn lemma_to_map_index<V>(s: Seq<(Seq<char>, V)>, i: int)
    requires
        keys_distinct(s),
        0 <= i < s.len(),
    ensures
        to_map(s).dom().contains(s[i].0),
        to_map(s)[s[i].0] == s[i].1,
    decreases s.len(),
{
    if i < s.len() - 1 {
        let t = s.drop_last();
        assert(keys_distinct(t));
        assert(t[i] == s[i]);
        lemma_to_map_index(t, i);
        assert(s[i].0 != s[s.len() - 1].0);
    }
}

pub proof fn lemma_to_map_finite<V>(s: Seq<(Seq<char>, V)>)
    ensures
        to_map(s).dom().finite(),
        keys_distinct(s) ==> to_map(s).dom().len() == s.len(),
    decreases s.len(),
{
    if s.len() > 0 {
        let t = s.drop_last();
        lemma_to_map_finite(t);
        if keys_distinct(s) {
            assert(keys_distinct(t));
            lemma_to_map_dom(t, s.last().0);
            if has_key(t, s.last().0) {
                let i = choose|i: int| 0 <= i < t.len() && #[trigger] t[i].0 == s.last().0;
                assert(s[i].0 == s[s.len() - 1].0);
            }
        }
    }
}

/// Pushing a pair whose key is new keeps the keys distinct and adds it to the map.
pub proof fn lemma_to_map_push<V>(s: Seq<(Seq<char>, V)>, k: Seq<char>, v: V)
    requires
        keys_distinct(s),
        !to_map(s).dom().contains(k),
    ensures
        keys_distinct(s.push((k, v))),
        to_map(s.push((k, v))) == to_map(s).insert(k, v),
{
    lemma_to_map_dom(s, k);
    let t = s.push((k, v));
    assert(t.drop_last() =~= s);
    assert forall|i: int, j: int| 0 <= i < j < t.len() implies #[trigger] t[i].0 != #[trigger] t[j].0 by {
        if j == s.len() {
            assert(s[i].0 != k);
        }
    }
}

/// Two pair sequences with the same key set and the same value at each key describe the same map.
pub proof fn lemma_to_map_ext<V>(s: Seq<(Seq<char>, V)>, m: Map<Seq<char>, V>)
    requires
        keys_distinct(s),
        forall|i: int| 0 <= i < s.len() ==> m.dom().contains(#[trigger] s[i].0) && m[s[i].0] == s[i].1,
        forall|k: Seq<char>| m.dom().contains(k) ==> has_key(s, k),
    ensures
        to_map(s) == m,
{
    assert forall|k: Seq<char>| #[trigger] to_map(s).dom().contains(k) == m.dom().contains(k) by {
        lemma_to_map_dom(s, k);
    }
    assert forall|k: Seq<char>| #[trigger] to_map(s).dom().contains(k) implies to_map(s)[k] == m[k] by {
        lemma_to_map_dom(s, k);
        let i = choose|i: int| 0 <= i < s.len() && #[trigger] s[i].0 == k;
        lemma_to_map_index(s, i);
    }
    assert(to_map(s) =~= m);
}

/// Position of the pair whose key is `key`, if there is one.
pub fn find_key<V: View>(entries: &Vec<(String, V)>, key: &str) -> (r: Option<usize>)
    ensures
        match r {
            Some(i) => i < entries.len() && entries@[i as int].0@ == key@,
            None => !has_key(view_pairs(entries@), key@),
        },
{
    let wanted = owned(key);
    let mut i: usize = 0;
    while i < entries.len()
        invariant
            i <= entries.len(),
            wanted@ == key@,
            forall|j: int| 0 <= j < i ==> #[trigger] entries@[j].0@ != key@,
        decreases entries.len() - i,
    {
        if entries[i].0 == wanted {
            return Some(i);
        }
        i = i + 1;
    }
    proof {
        let s = view_pairs(entries@);
        if has_key(s, key@) {
            let j = choose|j: int| 0 <= j < s.len() && #[trigger] s[j].0 == key@;
            assert(entries@[j].0@ == key@);
        }
    }
    None
}

/// Looking a key up in a table whose keys are distinct.
pub proof fn lemma_table_lookup<V: View>(v: Seq<(String, V)>, i: int)
    requires
        table_wf(v),
        0 <= i < v.len(),
    ensures
        table(v).dom().contains(v[i].0@),
        table(v)[v[i].0@] == v[i].1@,
{
    lemma_to_map_index(view_pairs(v), i);
}

/// A key that no pair of a table holds is outside its map.
pub proof fn lemma_table_absent<V: View>(v: Seq<(String, V)>, k: Seq<char>)
    requires
        !has_key(view_pairs(v), k),
    ensures
        !table(v).dom().contains(k),
{
    lemma_to_map_dom(view_pairs(v), k);
}

/// A table's map has as many keys as the table has pairs.
pub proof fn lemma_table_len<V: View>(v: Seq<(String, V)>)
    requires
        table_wf(v),
    ensures
        table(v).dom().finite(),
        table(v).dom().len() == v.len(),
{
    lemma_to_map_finite(view_pairs(v));
}

/// The value stored under `key`, if any.
pub fn table_get<'a, V: View>(entries: &'a Vec<(String, V)>, key: &str) -> (r: Option<&'a V>)
    requires
        table_wf(entries@),
    ensures
        r is Some == table(entries@).dom().contains(key@),
        r is Some ==> r.unwrap()@ == table(entries@)[key@],
{
    match find_key(entries, key) {
        Some(i) => {
            proof {
                lemma_table_lookup(entries@, i as int);
            }
            Some(&entries[i].1)
        },
        None => {
            proof {
                lemma_table_absent(entries@, key@);
            }
            None
        },
    }
}

/// Stores `value` under `key`, replacing what was there.
pub fn table_insert<V: View>(entries: &mut Vec<(String, V)>, key: String, value: V)
    requires
        table_wf(old(entries)@),
    ensures
        table_wf(final(entries)@),
        table(final(entries)@) == table(old(entries)@).insert(key@, value@),
{
    let ghost old_v = entries@;
    let ghost m = table(old_v).insert(key@, value@);
    match find_key(entries, key.as_str()) {
        Some(i) => {
            entries.set(i, (key, value));
            proof {
                let nv = entries@;
                assert(view_pairs(nv) =~= view_pairs(old_v).update(i as int, (key@, value@)));
                assert forall|a: int, b: int| 0 <= a < b < view_pairs(nv).len() implies
                    #[trigger] view_pairs(nv)[a].0 != #[trigger] view_pairs(nv)[b].0 by {
                    assert(view_pairs(old_v)[a].0 != view_pairs(old_v)[b].0);
                }
                assert forall|j: int| 0 <= j < view_pairs(nv).len() implies m.dom().contains(
                    #[trigger] view_pairs(nv)[j].0) && m[view_pairs(nv)[j].0] == view_pairs(nv)[j].1 by {
                    if j != i {
                        lemma_table_lookup(old_v, j);
                        assert(view_pairs(old_v)[j].0 != view_pairs(old_v)[i as int].0);
                    }
                }
                assert forall|k: Seq<char>| m.dom().contains(k) implies has_key(view_pairs(nv), k) by {
                    if k != key@ {
                        lemma_to_map_dom(view_pairs(old_v), k);
                        let j = choose|j: int| 0 <= j < view_pairs(old_v).len() && #[trigger] view_pairs(old_v)[j].0 == k;
                        assert(view_pairs(nv)[j].0 == k);
                    } else {
                        assert(view_pairs(nv)[i as int].0 == k);
                    }
                }
                lemma_to_map_ext(view_pairs(nv), m);
            }
        },
        None => {
            proof {
                lemma_table_absent(old_v, key@);
            }
            let ghost kv = key@;
            let ghost vv = value@;
            entries.push((key, value));
            proof {
                assert(view_pairs(entries@) =~= view_pairs(old_v).push((kv, vv)));
                lemma_to_map_push(view_pairs(old_v), kv, vv);
            }
        },
    }
}

/// Removes the pair stored under `key`; tells whether there was one.
pub fn table_remove<V: View>(entries: &mut Vec<(String, V)>, key: &str) -> (r: bool)
    requires
        table_wf(old(entries)@),
    ensures
        table_wf(final(entries)@),
        table(final(entries)@) == table(old(entries)@).remove(key@),
        r == table(old(entries)@).dom().contains(key@),
{
    table_take(entries, key).is_some()
}

/// Removes the pair stored under `key` and hands it out.
pub fn table_take<V: View>(entries: &mut Vec<(String, V)>, key: &str) -> (r: Option<(String, V)>)
    requires
        table_wf(old(entries)@),
    ensures
        table_wf(final(entries)@),
        table(final(entries)@) == table(old(entries)@).remove(key@),
        r is Some == table(old(entries)@).dom().contains(key@),
        r matches Some(e) ==> e.0@ == key@ && e.1@ == table(old(entries)@)[key@],
{
    let ghost old_v = entries@;
    let ghost m = table(old_v).remove(key@);
    match find_key(entries, key) {
        Some(i) => {
            proof {
                lemma_table_lookup(old_v, i as int);
            }
            let e = entries.remove(i);
            proof {
                let nv = entries@;
                assert(view_pairs(nv) =~= view_pairs(old_v).remove(i as int));
                let p = view_pairs(old_v);
                let q = view_pairs(nv);
                assert forall|a: int| 0 <= a < q.len() implies #[trigger] q[a] == p[if a < i { a } else { a + 1 }] by {}
                assert forall|a: int, b: int| 0 <= a < b < q.len() implies #[trigger] q[a].0 != #[trigger] q[b].0 by {
                    let a2 = if a < i { a } else { a + 1 };
                    let b2 = if b < i { b } else { b + 1 };
                    assert(q[a] == p[a2]);
                    assert(q[b] == p[b2]);
                    assert(p[a2].0 != p[b2].0);
                }
                assert forall|j: int| 0 <= j < q.len() implies m.dom().contains(#[trigger] q[j].0) && m[q[j].0] == q[j].1 by {
                    let j2 = if j < i { j } else { j + 1 };
                    assert(q[j] == p[j2]);
                    lemma_table_lookup(old_v, j2);
                    assert(p[j2].0 != p[i as int].0);
                }
                assert forall|k: Seq<char>| m.dom().contains(k) implies has_key(q, k) by {
                    lemma_to_map_dom(p, k);
                    let j = choose|j: int| 0 <= j < p.len() && #[trigger] p[j].0 == k;
                    assert(j != i);
                    let j2 = if j < i { j } else { j - 1 };
                    assert(q[j2] == p[j]);
                }
                lemma_to_map_ext(q, m);
            }
            Some(e)
        },
        None => {
            proof {
                lemma_table_absent(old_v, key@);
                assert(m =~= table(old_v));
            }
            None
        },
    }
}

/// A copy of a table whose values are plain copies.
pub fn table_copy<V: Copy + View>(entries: &Vec<(String, V)>) -> (r: Vec<(String, V)>)
    ensures
        view_pairs(r@) == view_pairs(entries@),
{
    let mut r: Vec<(String, V)> = Vec::new();
    let mut i: usize = 0;
    while i < entries.len()
        invariant
            i <= entries.len(),
            view_pairs(r@) == view_pairs(entries@.take(i as int)),
        decreases entries.len() - i,
    {
        let e = (entries[i].0.clone(), entries[i].1);
        let ghost old_r = r@;
        r.push(e);
        proof {
            assert(view_pairs(r@) =~= view_pairs(old_r).push((e.0@, e.1@)));
            assert(entries@.take(i + 1) =~= entries@.take(i as int).push(entries@[i as int]));
            assert(view_pairs(entries@.take(i + 1)) =~= view_pairs(entries@.take(i as int)).push(
                (entries@[i as int].0@, entries@[i as int].1@),
            ));
        }
        i = i + 1;
    }
    assert(entries@.take(entries.len() as int) =~= entries@);
    r
}

/// The entries of `m` that `f` keeps, each replaced by what `f` makes of it.
pub open spec fn filter_map_values<A, B>(m: Map<Seq<char>, A>, f: spec_fn(A) -> Option<B>) -> Map<
    Seq<char>,
    B,
> {
    Map::new(|k: Seq<char>| m.dom().contains(k) && f(m[k]) is Some, |k: Seq<char>| f(m[k])->0)
}

/// The table of the first `i + 1` pairs adds pair `i` to the table of the first `i`.
pub proof fn lemma_table_prefix_step<V: View>(v: Seq<(String, V)>, i: int)
    requires
        table_wf(v),
        0 <= i < v.len(),
    ensures
        table_wf(v.take(i)),
        !table(v.take(i)).dom().contains(v[i].0@),
        table(v.take(i + 1)) == table(v.take(i)).insert(v[i].0@, v[i].1@),
{
    let t = v.take(i + 1);
    assert(t.drop_last() =~= v.take(i));
    assert(view_pairs(t).drop_last() =~= view_pairs(v.take(i)));
    assert(view_pairs(t).last() == (v[i].0@, v[i].1@));
    assert forall|a: int, b: int| 0 <= a < b < view_pairs(v.take(i)).len() implies
        #[trigger] view_pairs(v.take(i))[a].0 != #[trigger] view_pairs(v.take(i))[b].0 by {
        assert(view_pairs(v)[a].0 != view_pairs(v)[b].0);
    }
    lemma_to_map_dom(view_pairs(v.take(i)), v[i].0@);
    if has_key(view_pairs(v.take(i)), v[i].0@) {
        let j = choose|j: int| 0 <= j < view_pairs(v.take(i)).len() && #[trigger] view_pairs(v.take(i))[j].0 == v[i].0@;
        assert(view_pairs(v)[j].0 != view_pairs(v)[i].0);
    }
}

/// The table of all pairs is the table of the whole vector.
pub proof fn lemma_table_prefix_full<V: View>(v: Seq<(String, V)>)
    ensures
        table(v.take(v.len() as int)) == table(v),
{
    assert(v.take(v.len() as int) =~= v);
}

/// The table of no pair is empty.
pub proof fn lemma_table_prefix_empty<V: View>(v: Seq<(String, V)>)
    ensures
        table(v.take(0)) == Map::<Seq<char>, V::V>::empty(),
{
    assert(view_pairs(v.take(0)) =~= Seq::<(Seq<char>, V::V)>::empty());
}

/// Pushing a pair whose key is new.
pub proof fn lemma_table_push<V: View>(v: Seq<(String, V)>, e: (String, V))
    requires
        table_wf(v),
        !table(v).dom().contains(e.0@),
    ensures
        table_wf(v.push(e)),
        table(v.push(e)) == table(v).insert(e.0@, e.1@),
{
    assert(view_pairs(v.push(e)) =~= view_pairs(v).push((e.0@, e.1@)));
    lemma_to_map_push(view_pairs(v), e.0@, e.1@);
}

/// Filtering a map that gains a new key.
pub proof fn lemma_filter_map_insert<A, B>(
    m: Map<Seq<char>, A>,
    k: Seq<char>,
    a: A,
    f: spec_fn(A) -> Option<B>,
)
    requires
        !m.dom().contains(k),
    ensures
        !filter_map_values(m, f).dom().contains(k),
        f(a) is Some ==> filter_map_values(m.insert(k, a), f) == filter_map_values(m, f).insert(
            k,
            f(a)->0,
        ),
        f(a) is None ==> filter_map_values(m.insert(k, a), f) == filter_map_values(m, f),
{
    if f(a) is Some {
        assert(filter_map_values(m.insert(k, a), f) =~= filter_map_values(m, f).insert(k, f(a)->0));
    } else {
        assert(filter_map_values(m.insert(k, a), f) =~= filter_map_values(m, f));
    }
}

/// Filtering the empty map.
pub proof fn lemma_filter_map_empty<A, B>(f: spec_fn(A) -> Option<B>)
    ensures
        filter_map_values(Map::<Seq<char>, A>::empty(), f) == Map::<Seq<char>, B>::empty(),
{
    assert(filter_map_values(Map::<Seq<char>, A>::empty(), f) =~= Map::<Seq<char>, B>::empty());
}

} // verus!
