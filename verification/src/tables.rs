//! Walks over hash tables, whose order is left open.
use std::collections::{HashMap, HashSet};
use vstd::prelude::*;

verus! {

/// Whether `items` names every element of `set` once and nothing else.
pub open spec fn lists<T>(items: Seq<T>, set: Set<T>) -> bool {
    items.no_duplicates() && items.to_set() == set
}

/// The keys of a map, in any order.
pub(crate) fn map_keys<K: Copy, V>(map: &HashMap<K, V>) -> (r: Vec<K>)
    requires
        vstd::std_specs::hash::obeys_key_model::<K>(),
    ensures
        lists(r@, map@.dom()),
{
    let mut keys: Vec<K> = Vec::new();
    for key in it: map.keys()
        invariant
            it.seq() == vstd::std_specs::iter::IteratorSpec::remaining(&map.keys()),
            keys@ == it.seq().unref().take(it.index()),
    {
        keys.push(*key);
        assert(keys@ =~= it.seq().unref().take(it.index() + 1));
    }
    assert(keys@ =~= vstd::std_specs::iter::IteratorSpec::remaining(&map.keys()).unref());
    keys
}

/// The elements of a set, in any order.
pub(crate) fn set_items<K: Copy>(set: &HashSet<K>) -> (r: Vec<K>)
    requires
        vstd::std_specs::hash::obeys_key_model::<K>(),
    ensures
        lists(r@, set@),
{
    let mut items: Vec<K> = Vec::new();
    for item in it: set.iter()
        invariant
            it.seq() == vstd::std_specs::iter::IteratorSpec::remaining(&set.iter()),
            items@ == it.seq().unref().take(it.index()),
    {
        items.push(*item);
        assert(items@ =~= it.seq().unref().take(it.index() + 1));
    }
    assert(items@ =~= vstd::std_specs::iter::IteratorSpec::remaining(&set.iter()).unref());
    items
}

/// A set with the same elements.
pub(crate) fn copy_set(set: &HashSet<u32>) -> (r: HashSet<u32>)
    ensures
        r@ == set@,
{
    let items = set_items(set);
    let mut copy: HashSet<u32> = HashSet::new();
    for i in 0..items.len()
        invariant
            copy@ == items@.take(i as int).to_set(),
    {
        copy.insert(items[i]);
        proof {
            assert(items@.take(i + 1) =~= items@.take(i as int).push(items@[i as int]));
            lemma_push_to_set(items@.take(i as int), items@[i as int]);
        }
    }
    assert(items@.take(items@.len() as int) =~= items@);
    copy
}

/// To list a set is to name each of its elements once, and nothing else.
pub proof fn law_listing<T>(items: Seq<T>, set: Set<T>, x: T, i: int, j: int)
    requires
        lists(items, set),
        0 <= i < items.len(),
        0 <= j < items.len(),
    ensures
        set.contains(x) <==> items.contains(x),
        i != j ==> items[i] != items[j],
{
    assert(items.to_set().contains(x) <==> items.contains(x));
}

/// An empty listing lists the empty set, and only that is listed by it.
pub proof fn law_empty_listing<T>(items: Seq<T>, set: Set<T>)
    requires
        lists(items, set),
    ensures
        items.len() == 0 <==> set == Set::<T>::empty(),
{
    if items.len() == 0 {
        assert(items =~= Seq::empty());
        assert(set =~= Set::empty());
    } else {
        assert(items.to_set().contains(items[0]));
    }
}

/// A prefix that is longer by one has one more element.
pub(crate) proof fn lemma_take_contains<T>(s: Seq<T>, n: int)
    requires
        0 <= n < s.len(),
    ensures
        forall|x: T| #[trigger]
            s.take(n + 1).contains(x) <==> s.take(n).contains(x) || x == s[n],
{
    assert forall|x: T| #[trigger] s.take(n + 1).contains(x) <==> s.take(n).contains(x) || x == s[n] by {
        if s.take(n + 1).contains(x) {
            let i = choose|i: int| 0 <= i < n + 1 && #[trigger] s.take(n + 1)[i] == x;
            if i < n {
                assert(s.take(n)[i] == x);
            }
        }
        if s.take(n).contains(x) {
            let i = choose|i: int| 0 <= i < n && s.take(n)[i] == x;
            assert(s.take(n + 1)[i] == x);
        }
        if x == s[n] {
            assert(s.take(n + 1)[n] == x);
        }
    }
}

/// What a sequence that has grown by one contains.
pub(crate) proof fn lemma_push_contains<T>(s: Seq<T>, x: T)
    ensures
        forall|y: T| #[trigger] s.push(x).contains(y) <==> s.contains(y) || y == x,
        s.no_duplicates() && !s.contains(x) ==> s.push(x).no_duplicates(),
{
    lemma_push_to_set(s, x);
    assert forall|y: T| #[trigger] s.push(x).contains(y) <==> s.contains(y) || y == x by {
        assert(s.push(x).to_set().contains(y) <==> s.to_set().insert(x).contains(y));
    }
}

/// The elements of a sequence that has grown by one.
pub(crate) proof fn lemma_push_to_set<T>(s: Seq<T>, x: T)
    ensures
        s.push(x).to_set() =~= s.to_set().insert(x),
{
    assert forall|y: T| s.push(x).to_set().contains(y) <==> s.to_set().insert(x).contains(y) by {
        if s.to_set().insert(x).contains(y) {
            if y == x {
                assert(s.push(x)[s.len() as int] == y);
            } else {
                let i = choose|i: int| 0 <= i < s.len() && s[i] == y;
                assert(s.push(x)[i] == y);
            }
        } else if s.push(x).to_set().contains(y) {
            let i = choose|i: int| 0 <= i < s.push(x).len() && s.push(x)[i] == y;
            assert(s[i] == y);
        }
    }
}

} // verus!
