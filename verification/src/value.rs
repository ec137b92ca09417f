//! The value model: the closed set of value shapes a key can hold.

use vstd::prelude::*;
use crate::assoc::{distinct_keys, pairs_map};

verus! {

/// The mathematical shape of a stored value.
pub ghost enum ValueModel {
    /// A single string.
    Simple(Seq<char>),
    /// An ordered sequence of strings; duplicates allowed; the head is
    /// the most recently pushed element.
    List(Seq<Seq<char>>),
    /// A set of unique strings.
    SetVal(Set<Seq<char>>),
    /// A mapping of field names to strings; field names unique.
    Hash(Map<Seq<char>, Seq<char>>),
}

/// The set of members that a sequence of strings denotes.
pub open spec fn member_set(s: Seq<Seq<char>>) -> Set<Seq<char>>
    decreases s.len(),
{
    if s.len() == 0 {
        Set::empty()
    } else {
        member_set(s.drop_last()).insert(s.last())
    }
}

/// Membership in the denoted set is membership in the sequence.
pub proof fn lemma_member_set_contains(s: Seq<Seq<char>>, x: Seq<char>)
    ensures
        member_set(s).contains(x) <==> s.contains(x),
    decreases s.len(),
{
    if s.len() > 0 {
        lemma_member_set_contains(s.drop_last(), x);
        if s.contains(x) {
            let i = choose|i: int| 0 <= i < s.len() && s[i] == x;
            if i < s.len() - 1 {
                assert(s.drop_last()[i] == x);
            }
        }
        if s.drop_last().contains(x) {
            let i = choose|i: int| 0 <= i < s.drop_last().len() && s.drop_last()[i] == x;
            assert(s[i] == x);
        }
    }
}

/// Appending a member inserts it into the denoted set.
pub proof fn lemma_member_set_push(s: Seq<Seq<char>>, x: Seq<char>)
    ensures
        member_set(s.push(x)) == member_set(s).insert(x),
{
    assert(s.push(x).drop_last() =~= s);
}

/// Finds whether a vector of strings holds `x`.
pub fn vec_has_str(v: &Vec<String>, x: &str) -> (r: bool)
    ensures
        r == v.deep_view().contains(x@),
{
    let n = v.len();
    let mut i: usize = 0;
    while i < n
        invariant
            n == v@.len(),
            i <= n,
            forall|j: int| 0 <= j < i ==> v.deep_view()[j] != x@,
        decreases n - i,
    {
        if crate::text::str_eq(v[i].as_str(), x) {
            proof {
                assert(v.deep_view()[i as int] == x@);
            }
            return true;
        }
        i += 1;
    }
    proof {
        if v.deep_view().contains(x@) {
            let j = choose|j: int| 0 <= j < v.deep_view().len() && v.deep_view()[j] == x@;
            assert(false);
        }
    }
    false
}

/// A storable value: a scalar string, a list, a set or a hash.
pub enum StoreValue {
    /// A simple string value.
    Simple(String),
    /// A list of string values; index zero is the head.
    List(Vec<String>),
    /// A set of unique string values, kept in insertion order.
    SetVal(Vec<String>),
    /// A hash mapping field names to string values.
    Hash(Vec<(String, String)>),
}

impl View for StoreValue {
    type V = ValueModel;

    open spec fn view(&self) -> ValueModel {
        match self {
            StoreValue::Simple(s) => ValueModel::Simple(s@),
            StoreValue::List(l) => ValueModel::List(l.deep_view()),
            StoreValue::SetVal(v) => ValueModel::SetVal(member_set(v.deep_view())),
            StoreValue::Hash(p) => ValueModel::Hash(pairs_map(p@)),
        }
    }
}

impl StoreValue {
    /// The representation invariant: set members and hash fields are
    /// unique.
    pub open spec fn wf(&self) -> bool {
        match self {
            StoreValue::Simple(_) => true,
            StoreValue::List(_) => true,
            StoreValue::SetVal(v) => forall|i: int, j: int|
                0 <= i < j < v@.len() ==> v@[i]@ != v@[j]@,
            StoreValue::Hash(p) => distinct_keys(p@),
        }
    }
}

} // verus!
