//! Association lists: sequences of keyed entries read as maps, where a later
//! entry for a key replaces an earlier one.

use vstd::prelude::*;

verus! {

/// The map that an association list denotes: the last entry for a key wins.
pub open spec fn pairs_map<V>(s: Seq<(Seq<char>, V)>) -> Map<Seq<char>, V>
    decreases s.len(),
{
    if s.len() == 0 {
        Map::empty()
    } else {
        pairs_map(s.drop_last()).insert(s.last().0, s.last().1)
    }
}

/// The list without the entries for `k`, in order.
pub open spec fn drop_key<V>(s: Seq<(Seq<char>, V)>, k: Seq<char>) -> Seq<(Seq<char>, V)>
    decreases s.len(),
{
    if s.len() == 0 {
        s
    } else if s.last().0 == k {
        drop_key(s.drop_last(), k)
    } else {
        drop_key(s.drop_last(), k).push(s.last())
    }
}

pub proof fn lemma_pairs_map_push<V>(s: Seq<(Seq<char>, V)>, k: Seq<char>, v: V)
    ensures
        pairs_map(s.push((k, v))) == pairs_map(s).insert(k, v),
{
    assert(s.push((k, v)).drop_last() =~= s);
}

/// The value for `k` is that of the last entry with key `k`.
pub proof fn lemma_pairs_map_last<V>(s: Seq<(Seq<char>, V)>, j: int, k: Seq<char>)
    requires
        0 <= j < s.len(),
        s[j].0 == k,
        forall|i: int| j < i < s.len() ==> (#[trigger] s[i]).0 != k,
    ensures
        pairs_map(s).contains_key(k),
        pairs_map(s)[k] == s[j].1,
    decreases s.len(),
{
    if j < s.len() - 1 {
        assert(s.last() == s[s.len() - 1]);
        lemma_pairs_map_last(s.drop_last(), j, k);
    }
}

/// A key with no entry is absent from the map.
pub proof fn lemma_pairs_map_absent<V>(s: Seq<(Seq<char>, V)>, k: Seq<char>)
    requires
        forall|i: int| 0 <= i < s.len() ==> (#[trigger] s[i]).0 != k,
    ensures
        !pairs_map(s).contains_key(k),
    decreases s.len(),
{
    if s.len() > 0 {
        assert(s.last() == s[s.len() - 1]);
        lemma_pairs_map_absent(s.drop_last(), k);
    }
}

/// A non-empty list denotes a non-empty map.
pub proof fn lemma_pairs_map_nonempty<V>(s: Seq<(Seq<char>, V)>)
    requires
        s.len() > 0,
    ensures
        pairs_map(s).contains_key(s.last().0),
{
}

pub proof fn lemma_pairs_map_empty<V>(s: Seq<(Seq<char>, V)>)
    requires
        s.len() == 0,
    ensures
        pairs_map(s) == Map::<Seq<char>, V>::empty(),
{
}

pub proof fn lemma_drop_key_map<V>(s: Seq<(Seq<char>, V)>, k: Seq<char>)
    ensures
        pairs_map(drop_key(s, k)) == pairs_map(s).remove(k),
    decreases s.len(),
{
    if s.len() > 0 {
        lemma_drop_key_map(s.drop_last(), k);
        if s.last().0 != k {
            lemma_pairs_map_push(drop_key(s.drop_last(), k), s.last().0, s.last().1);
        }
        assert(pairs_map(drop_key(s, k)) =~= pairs_map(s).remove(k));
    } else {
        assert(pairs_map(drop_key(s, k)) =~= pairs_map(s).remove(k));
    }
}

pub proof fn lemma_drop_key_concat<V>(a: Seq<(Seq<char>, V)>, b: Seq<(Seq<char>, V)>, k: Seq<char>)
    ensures
        drop_key(a + b, k) == drop_key(a, k) + drop_key(b, k),
    decreases b.len(),
{
    if b.len() == 0 {
        assert(a + b =~= a);
        assert(drop_key(a, k) + drop_key(b, k) =~= drop_key(a, k));
    } else {
        assert((a + b).drop_last() =~= a + b.drop_last());
        assert((a + b).last() == b.last());
        lemma_drop_key_concat(a, b.drop_last(), k);
        if b.last().0 == k {
        } else {
            assert(drop_key(a, k) + drop_key(b.drop_last(), k).push(b.last()) =~= (drop_key(a, k)
                + drop_key(b.drop_last(), k)).push(b.last()));
        }
    }
}

pub proof fn lemma_drop_key_single<V>(x: (Seq<char>, V), k: Seq<char>)
    ensures
        drop_key(seq![x], k) == (if x.0 == k { Seq::<(Seq<char>, V)>::empty() } else { seq![x] }),
{
    let e = Seq::<(Seq<char>, V)>::empty();
    assert(seq![x].drop_last() =~= e);
    assert(drop_key(e, k) == e);
    assert(seq![x].last() == x);
    if x.0 != k {
        assert(Seq::<(Seq<char>, V)>::empty().push(x) =~= seq![x]);
    }
}

/// The index of the last entry whose key is `key`.
pub fn find_last<V>(entries: &Vec<(String, V)>, key: &str) -> (res: Option<usize>)
    ensures
        match res {
            Some(i) => {
                &&& i < entries@.len()
                &&& entries@[i as int].0@ == key@
                &&& forall|j: int| i < j < entries@.len() ==> (#[trigger] entries@[j]).0@ != key@
            },
            None => forall|j: int| 0 <= j < entries@.len() ==> (#[trigger] entries@[j]).0@ != key@,
        },
{
    let mut i: usize = entries.len();
    while i > 0
        invariant
            i <= entries@.len(),
            forall|j: int| i <= j < entries@.len() ==> (#[trigger] entries@[j]).0@ != key@,
        decreases i,
    {
        i -= 1;
        if crate::text::str_eq(entries[i].0.as_str(), key) {
            return Some(i);
        }
    }
    None
}

} // verus!
