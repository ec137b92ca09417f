//! Association lists of string keys, and the finite maps they denote.
//! The store engine and the hash values both keep their pairs this way;
//! the contracts speak about the denoted map.

use vstd::prelude::*;
use crate::text::str_eq;

verus! {

/// The map that an association list denotes; a later pair wins over an
/// earlier one with the same key.
pub open spec fn pairs_map<V: View>(s: Seq<(String, V)>) -> Map<Seq<char>, V::V>
    decreases s.len(),
{
    if s.len() == 0 {
        Map::empty()
    } else {
        pairs_map(s.drop_last()).insert(s.last().0@, s.last().1@)
    }
}

/// No two pairs of the list share a key.
pub open spec fn distinct_keys<V>(s: Seq<(String, V)>) -> bool {
    forall|i: int, j: int| 0 <= i < j < s.len() ==> s[i].0@ != s[j].0@
}

/// A key held by no pair is not in the denoted map.
pub proof fn lemma_pairs_map_absent<V: View>(s: Seq<(String, V)>, k: Seq<char>)
    requires
        forall|i: int| 0 <= i < s.len() ==> s[i].0@ != k,
    ensures
        !pairs_map(s).contains_key(k),
    decreases s.len(),
{
    if s.len() > 0 {
        lemma_pairs_map_absent(s.drop_last(), k);
    }
}

/// Every key of the denoted map is some pair's key.
pub proof fn lemma_pairs_map_key_index<V: View>(s: Seq<(String, V)>, k: Seq<char>)
    requires
        pairs_map(s).contains_key(k),
    ensures
        exists|i: int| 0 <= i < s.len() && #[trigger] s[i].0@ == k,
    decreases s.len(),
{
    if s.len() > 0 {
        if s.last().0@ == k {
            assert(s[s.len() - 1].0@ == k);
        } else {
            lemma_pairs_map_key_index(s.drop_last(), k);
            let i = choose|i: int| 0 <= i < s.drop_last().len() && #[trigger] s.drop_last()[i].0@
                == k;
            assert(s[i].0@ == k);
        }
    }
}

/// With distinct keys, each pair is in the denoted map with its value.
pub proof fn lemma_pairs_map_index<V: View>(s: Seq<(String, V)>, i: int)
    requires
        distinct_keys(s),
        0 <= i < s.len(),
    ensures
        pairs_map(s).contains_key(s[i].0@),
        pairs_map(s)[s[i].0@] == s[i].1@,
    decreases s.len(),
{
    if i < s.len() - 1 {
        assert(distinct_keys(s.drop_last()));
        lemma_pairs_map_index(s.drop_last(), i);
        assert(s.last().0@ != s[i].0@);
    }
}

/// Appending a pair inserts its key.
pub proof fn lemma_pairs_map_push<V: View>(s: Seq<(String, V)>, p: (String, V))
    ensures
        pairs_map(s.push(p)) == pairs_map(s).insert(p.0@, p.1@),
{
    assert(s.push(p).drop_last() =~= s);
    assert(s.push(p).last() == p);
}

/// Removing the pair at `i` removes exactly its key.
pub proof fn lemma_pairs_map_remove<V: View>(s: Seq<(String, V)>, i: int)
    requires
        distinct_keys(s),
        0 <= i < s.len(),
    ensures
        pairs_map(s.remove(i)) == pairs_map(s).remove(s[i].0@),
        distinct_keys(s.remove(i)),
    decreases s.len(),
{
    let k = s[i].0@;
    if i == s.len() - 1 {
        assert(s.remove(i) =~= s.drop_last());
        lemma_pairs_map_absent(s.drop_last(), k);
        assert(pairs_map(s.drop_last()).insert(k, s.last().1@).remove(k) =~= pairs_map(
            s.drop_last(),
        ));
    } else {
        assert(s.remove(i).drop_last() =~= s.drop_last().remove(i));
        assert(distinct_keys(s.drop_last()));
        lemma_pairs_map_remove(s.drop_last(), i);
        let lk = s.last().0@;
        let lv = s.last().1@;
        assert(s.remove(i).last() == s.last());
        assert(lk != k);
        assert(pairs_map(s.drop_last()).remove(k).insert(lk, lv) =~= pairs_map(
            s.drop_last(),
        ).insert(lk, lv).remove(k));
    }
}

/// Replacing the pair at `i` by another pair with the same key updates
/// exactly that key; the replacement goes to the end of the list.
pub proof fn lemma_pairs_map_replace<V: View>(s: Seq<(String, V)>, i: int, p: (String, V))
    requires
        distinct_keys(s),
        0 <= i < s.len(),
        p.0@ == s[i].0@,
    ensures
        pairs_map(s.remove(i).push(p)) == pairs_map(s).insert(p.0@, p.1@),
        distinct_keys(s.remove(i).push(p)),
    decreases s.len(),
{
    lemma_pairs_map_remove(s, i);
    lemma_pairs_map_push(s.remove(i), p);
    assert(pairs_map(s).remove(p.0@).insert(p.0@, p.1@) =~= pairs_map(s).insert(p.0@, p.1@));
    assert forall|a: int, b: int|
        0 <= a < b < s.remove(i).push(p).len() implies s.remove(i).push(p)[a].0@ != s.remove(
        i,
    ).push(p)[b].0@ by {
        if b == s.remove(i).push(p).len() - 1 {
            assert(s.remove(i).push(p)[b] == p);
        }
    }
}

/// Finds the position of a key in an association list.
pub fn find_pair<V>(s: &Vec<(String, V)>, key: &str) -> (r: Option<usize>)
    ensures
        match r {
            Some(i) => i < s@.len() && s@[i as int].0@ == key@,
            None => forall|j: int| 0 <= j < s@.len() ==> s@[j].0@ != key@,
        },
{
    let n = s.len();
    let mut i: usize = 0;
    while i < n
        invariant
            n == s@.len(),
            i <= n,
            forall|j: int| 0 <= j < i ==> s@[j].0@ != key@,
        decreases n - i,
    {
        if str_eq(s[i].0.as_str(), key) {
            return Some(i);
        }
        i += 1;
    }
    None
}

} // verus!
