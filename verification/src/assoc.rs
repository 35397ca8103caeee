//! Lists of `(key, value)` pairs with no key twice, read as maps, and lists
//! of names with no name twice, read as sets.

use vstd::prelude::*;

verus! {

/// The map a list of pairs spells, a later pair winning over an earlier one.
pub open spec fn to_map<K, V>(s: Seq<(K, V)>) -> Map<K, V>
    decreases s.len(),
{
    if s.len() == 0 {
        Map::empty()
    } else {
        to_map(s.drop_last()).insert(s.last().0, s.last().1)
    }
}

/// No name occurs twice.
pub open spec fn keys_distinct<K, V>(s: Seq<(K, V)>) -> bool {
    forall|i: int, j: int| 0 <= i < j < s.len() ==> s[i].0 != s[j].0
}

pub proof fn lemma_to_map_dom<K, V>(s: Seq<(K, V)>, k: K)
    ensures
        to_map(s).dom().contains(k) <==> exists|i: int| 0 <= i < s.len() && s[i].0 == k,
    decreases s.len(),
{
    if s.len() > 0 {
        lemma_to_map_dom(s.drop_last(), k);
        if to_map(s.drop_last()).dom().contains(k) {
            let i = choose|i: int| 0 <= i < s.drop_last().len() && s.drop_last()[i].0 == k;
            assert(s[i].0 == k);
        }
        if exists|i: int| 0 <= i < s.len() && s[i].0 == k {
            let i = choose|i: int| 0 <= i < s.len() && s[i].0 == k;
            if i < s.len() - 1 {
                assert(s.drop_last()[i].0 == k);
            }
        }
    }
}

pub proof fn lemma_to_map_at<K, V>(s: Seq<(K, V)>, i: int)
    requires
        keys_distinct(s),
        0 <= i < s.len(),
    ensures
        to_map(s).dom().contains(s[i].0),
        to_map(s)[s[i].0] == s[i].1,
    decreases s.len(),
{
    if i < s.len() - 1 {
        let t = s.drop_last();
        assert(keys_distinct(t));
        assert(t[i] == s[i]);
        lemma_to_map_at(t, i);
    }
}

pub proof fn lemma_to_map_remove<K, V>(s: Seq<(K, V)>, i: int)
    requires
        keys_distinct(s),
        0 <= i < s.len(),
    ensures
        to_map(s.remove(i)) == to_map(s).remove(s[i].0),
        keys_distinct(s.remove(i)),
    decreases s.len(),
{
    let k = s[i].0;
    let t = s.drop_last();
    assert(keys_distinct(t));
    if i == s.len() - 1 {
        assert(s.remove(i) =~= t);
        lemma_to_map_dom(t, k);
        assert(!to_map(t).dom().contains(k));
        assert(to_map(s).remove(k) =~= to_map(t));
    } else {
        lemma_to_map_remove(t, i);
        assert(s.remove(i) =~= t.remove(i).push(s.last()));
        assert(s.remove(i).drop_last() =~= t.remove(i));
        assert(s.last().0 != k);
        assert(to_map(s.remove(i)) =~= to_map(s).remove(k));
    }
}

/// Pushing a pair whose name is not there yet keeps the names distinct.
pub proof fn lemma_push_distinct<K, V>(s: Seq<(K, V)>, k: K, v: V)
    requires
        keys_distinct(s),
        !to_map(s).dom().contains(k),
    ensures
        keys_distinct(s.push((k, v))),
        to_map(s.push((k, v))) == to_map(s).insert(k, v),
{
    lemma_to_map_dom(s, k);
    assert(s.push((k, v)).drop_last() =~= s);
}

/// The set a list of names spells.
pub open spec fn to_set(s: Seq<Seq<char>>) -> Set<Seq<char>> {
    Set::new(|k: Seq<char>| exists|i: int| 0 <= i < s.len() && s[i] == k)
}

/// No name occurs twice.
pub open spec fn names_distinct(s: Seq<Seq<char>>) -> bool {
    forall|i: int, j: int| 0 <= i < j < s.len() ==> s[i] != s[j]
}

pub proof fn lemma_set_remove(s: Seq<Seq<char>>, i: int)
    requires
        names_distinct(s),
        0 <= i < s.len(),
    ensures
        to_set(s.remove(i)) == to_set(s).remove(s[i]),
        names_distinct(s.remove(i)),
{
    let r = s.remove(i);
    assert forall|k: Seq<char>| to_set(r).contains(k) <==> to_set(s).remove(s[i]).contains(k) by {
        if to_set(r).contains(k) {
            let j = choose|j: int| 0 <= j < r.len() && r[j] == k;
            if j < i {
                assert(s[j] == k);
            } else {
                assert(s[j + 1] == k);
            }
        }
        if to_set(s).remove(s[i]).contains(k) {
            let j = choose|j: int| 0 <= j < s.len() && s[j] == k;
            assert(j != i);
            if j < i {
                assert(r[j] == k);
            } else {
                assert(r[j - 1] == k);
            }
        }
    }
    assert(to_set(r) =~= to_set(s).remove(s[i]));
}

pub proof fn lemma_set_push(s: Seq<Seq<char>>, k: Seq<char>)
    requires
        names_distinct(s),
        !to_set(s).contains(k),
    ensures
        to_set(s.push(k)) == to_set(s).insert(k),
        names_distinct(s.push(k)),
{
    let r = s.push(k);
    assert forall|x: Seq<char>| to_set(r).contains(x) <==> to_set(s).insert(k).contains(x) by {
        if to_set(r).contains(x) {
            let j = choose|j: int| 0 <= j < r.len() && r[j] == x;
            if j < s.len() {
                assert(s[j] == x);
            }
        }
        if to_set(s).contains(x) {
            let j = choose|j: int| 0 <= j < s.len() && s[j] == x;
            assert(r[j] == x);
        }
        if x == k {
            assert(r[s.len() as int] == x);
        }
    }
    assert(to_set(r) =~= to_set(s).insert(k));
    assert forall|i: int, j: int| 0 <= i < j < r.len() implies r[i] != r[j] by {
        if j == s.len() {
            assert(r[i] == s[i]);
            assert(to_set(s).contains(s[i]));
        }
    }
}

} // verus!
