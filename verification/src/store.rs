//! The store engine: a mapping from string keys to typed values with
//! lazy per-key expiration.
//!
//! Every operation takes the current time in seconds as an explicit
//! parameter; the engine itself never reads a clock. An entry whose
//! expiry instant is not after the given time is semantically absent,
//! and is physically evicted when its key is next accessed.

use vstd::prelude::*;
use vstd::string::*;
use crate::assoc::{
    distinct_keys, find_pair, lemma_pairs_map_absent, lemma_pairs_map_index,
    lemma_pairs_map_key_index, lemma_pairs_map_push, lemma_pairs_map_remove,
    lemma_pairs_map_replace, pairs_map,
};
use crate::errors::StoreError;
use crate::numbers::{format_i64, i64_in_range, i64_of_text, int_to_dec, parse_i64};
use crate::text::{contains_seq, contains_str, str_eq};
use crate::value::{
    lemma_member_set_contains, lemma_member_set_push, member_set, vec_has_str, StoreValue,
    ValueModel,
};

verus! {

/// The mathematical shape of one entry: a value and an optional absolute
/// expiry instant, in seconds.
pub ghost struct EntryModel {
    pub value: ValueModel,
    pub expires_at: Option<u64>,
}

/// One stored entry.
struct Entry {
    value: StoreValue,
    expires_at: Option<u64>,
}

impl View for Entry {
    type V = EntryModel;

    closed spec fn view(&self) -> EntryModel {
        EntryModel { value: self.value@, expires_at: self.expires_at }
    }
}

impl Entry {
    spec fn wf(&self) -> bool {
        self.value.wf()
    }
}

/// The mathematical shape of the whole store.
pub type StoreModel = Map<Seq<char>, EntryModel>;

/// Whether an entry is still live at time `now`: entries expire the
/// moment their deadline is reached.
pub open spec fn live(e: EntryModel, now: u64) -> bool {
    match e.expires_at {
        None => true,
        Some(t) => t > now,
    }
}

/// The store after the lazy-expiry check on key `k` at time `now`.
pub open spec fn evict(m: StoreModel, k: Seq<char>, now: u64) -> StoreModel {
    if m.contains_key(k) && !live(m[k], now) {
        m.remove(k)
    } else {
        m
    }
}

/// The live entry under `k` at time `now`, if any.
pub open spec fn live_lookup(m: StoreModel, k: Seq<char>, now: u64) -> Option<EntryModel> {
    if m.contains_key(k) && live(m[k], now) {
        Some(m[k])
    } else {
        None
    }
}

/// The absolute expiry instant that a TTL requested at time `now`
/// denotes.
pub open spec fn expiry_of(ttl: Option<u64>, now: u64) -> Option<u64> {
    match ttl {
        None => None,
        Some(d) => Some((now + d) as u64),
    }
}

/// The store after `set(k, v, ttl)` at time `now`.
pub open spec fn set_model(m: StoreModel, k: Seq<char>, v: Seq<char>, expires_at: Option<
    u64,
>) -> StoreModel {
    m.insert(k, EntryModel { value: ValueModel::Simple(v), expires_at })
}

/// What `get(k)` returns at time `now`: the scalar under `k`, absent
/// when the key is missing, expired, or holds another variant.
pub open spec fn get_model(m: StoreModel, k: Seq<char>, now: u64) -> Option<Seq<char>> {
    match live_lookup(m, k, now) {
        Some(e) => match e.value {
            ValueModel::Simple(s) => Some(s),
            _ => None,
        },
        None => None,
    }
}

/// What `ttl(k)` returns at time `now`: the remaining seconds, `-1` for
/// an entry without expiry, absent for a missing or expired key. A
/// remainder beyond the signed 64-bit range is clamped to its maximum.
pub open spec fn ttl_model(m: StoreModel, k: Seq<char>, now: u64) -> Option<int> {
    match live_lookup(m, k, now) {
        None => None,
        Some(e) => match e.expires_at {
            None => Some(-1),
            Some(t) => Some(
                if t - now > i64::MAX {
                    i64::MAX as int
                } else {
                    t - now
                },
            ),
        },
    }
}

/// What a numeric update by `delta` returns on the post-evict store
/// `m1`: the new value as decimal text, or the error. A missing key is
/// seeded with `delta` itself; a non-scalar or non-numeric value is a
/// type error; a result outside the signed 64-bit range is an overflow.
pub open spec fn delta_result(m1: StoreModel, k: Seq<char>, delta: int) -> Result<
    Seq<char>,
    StoreError,
> {
    if !m1.contains_key(k) {
        if i64_in_range(delta) {
            Ok(int_to_dec(delta))
        } else {
            Err(StoreError::Overflow)
        }
    } else {
        match m1[k].value {
            ValueModel::Simple(s) => match i64_of_text(s) {
                Some(v) => if i64_in_range(v + delta) {
                    Ok(int_to_dec(v + delta))
                } else {
                    Err(StoreError::Overflow)
                },
                None => Err(StoreError::InvalidType),
            },
            _ => Err(StoreError::InvalidType),
        }
    }
}

/// The post-evict store after a numeric update by `delta`: on success
/// the new text is stored, the expiry kept (a seeded key has none); on
/// failure nothing changes.
pub open spec fn delta_map(m1: StoreModel, k: Seq<char>, delta: int) -> StoreModel {
    match delta_result(m1, k, delta) {
        Ok(s) => {
            let exp = if m1.contains_key(k) {
                m1[k].expires_at
            } else {
                None
            };
            m1.insert(k, EntryModel { value: ValueModel::Simple(s), expires_at: exp })
        },
        Err(_) => m1,
    }
}

/// What `append` returns on the post-evict store `m1`: the concatenated
/// scalar, or a type error when the key is missing or non-scalar.
pub open spec fn append_result(m1: StoreModel, k: Seq<char>, v: Seq<char>) -> Result<
    Seq<char>,
    StoreError,
> {
    if m1.contains_key(k) {
        match m1[k].value {
            ValueModel::Simple(s) => Ok(s + v),
            _ => Err(StoreError::InvalidType),
        }
    } else {
        Err(StoreError::InvalidType)
    }
}

/// The post-evict store after `append`: the concatenated scalar under
/// the same expiry on success, unchanged on failure.
pub open spec fn append_map(m1: StoreModel, k: Seq<char>, v: Seq<char>) -> StoreModel {
    match append_result(m1, k, v) {
        Ok(s) => m1.insert(k, EntryModel { value: ValueModel::Simple(s), expires_at: m1[k].expires_at }),
        Err(_) => m1,
    }
}

/// Whether a list push is accepted on the post-evict store `m1`: a
/// missing key starts a fresh list; a non-list value is a type error
/// rather than being silently replaced.
pub open spec fn lpush_result(m1: StoreModel, k: Seq<char>) -> Result<(), StoreError> {
    if !m1.contains_key(k) {
        Ok(())
    } else {
        match m1[k].value {
            ValueModel::List(_) => Ok(()),
            _ => Err(StoreError::InvalidType),
        }
    }
}

/// The post-evict store after pushing `v` at the head of the list under
/// `k`.
pub open spec fn lpush_map(m1: StoreModel, k: Seq<char>, v: Seq<char>) -> StoreModel {
    if !m1.contains_key(k) {
        m1.insert(k, EntryModel { value: ValueModel::List(seq![v]), expires_at: None })
    } else {
        match m1[k].value {
            ValueModel::List(l) => m1.insert(
                k,
                EntryModel { value: ValueModel::List(seq![v] + l), expires_at: m1[k].expires_at },
            ),
            _ => m1,
        }
    }
}

/// What a list pop returns on the post-evict store `m1`: the head of
/// the list, or absent when the key is missing, empty or non-list.
pub open spec fn lpop_result(m1: StoreModel, k: Seq<char>) -> Option<Seq<char>> {
    if m1.contains_key(k) {
        match m1[k].value {
            ValueModel::List(l) => if l.len() > 0 {
                Some(l[0])
            } else {
                None
            },
            _ => None,
        }
    } else {
        None
    }
}

/// The post-evict store after a list pop: the head is removed when one
/// was returned, nothing changes otherwise.
pub open spec fn lpop_map(m1: StoreModel, k: Seq<char>) -> StoreModel {
    if m1.contains_key(k) {
        match m1[k].value {
            ValueModel::List(l) => if l.len() > 0 {
                m1.insert(
                    k,
                    EntryModel {
                        value: ValueModel::List(l.skip(1)),
                        expires_at: m1[k].expires_at,
                    },
                )
            } else {
                m1
            },
            _ => m1,
        }
    } else {
        m1
    }
}

/// Whether a set add is accepted on the post-evict store `m1`: the same
/// policy as a list push.
pub open spec fn sadd_result(m1: StoreModel, k: Seq<char>) -> Result<(), StoreError> {
    if !m1.contains_key(k) {
        Ok(())
    } else {
        match m1[k].value {
            ValueModel::SetVal(_) => Ok(()),
            _ => Err(StoreError::InvalidType),
        }
    }
}

/// The post-evict store after adding `x` to the set under `k`; adding a
/// member twice is the same as adding it once.
pub open spec fn sadd_map(m1: StoreModel, k: Seq<char>, x: Seq<char>) -> StoreModel {
    if !m1.contains_key(k) {
        m1.insert(
            k,
            EntryModel {
                value: ValueModel::SetVal(Set::empty().insert(x)),
                expires_at: None,
            },
        )
    } else {
        match m1[k].value {
            ValueModel::SetVal(s) => m1.insert(
                k,
                EntryModel { value: ValueModel::SetVal(s.insert(x)), expires_at: m1[k].expires_at },
            ),
            _ => m1,
        }
    }
}

/// What `s_members(k)` returns at time `now`: the member set, empty for
/// a missing, expired or non-set key.
pub open spec fn smembers_model(m: StoreModel, k: Seq<char>, now: u64) -> Set<Seq<char>> {
    match live_lookup(m, k, now) {
        Some(e) => match e.value {
            ValueModel::SetVal(s) => s,
            _ => Set::empty(),
        },
        None => Set::empty(),
    }
}

/// Whether a hash-field write is accepted on the post-evict store `m1`:
/// the same policy as a list push.
pub open spec fn hset_result(m1: StoreModel, k: Seq<char>) -> Result<(), StoreError> {
    if !m1.contains_key(k) {
        Ok(())
    } else {
        match m1[k].value {
            ValueModel::Hash(_) => Ok(()),
            _ => Err(StoreError::InvalidType),
        }
    }
}

/// The post-evict store after setting field `f` to `v` in the hash
/// under `k`.
pub open spec fn hset_map(m1: StoreModel, k: Seq<char>, f: Seq<char>, v: Seq<char>) -> StoreModel {
    if !m1.contains_key(k) {
        m1.insert(
            k,
            EntryModel {
                value: ValueModel::Hash(Map::empty().insert(f, v)),
                expires_at: None,
            },
        )
    } else {
        match m1[k].value {
            ValueModel::Hash(h) => m1.insert(
                k,
                EntryModel { value: ValueModel::Hash(h.insert(f, v)), expires_at: m1[k].expires_at },
            ),
            _ => m1,
        }
    }
}

/// What `h_get(k, f)` returns at time `now`: the value of field `f`,
/// absent when the key is missing, expired or non-hash, or the field is
/// not set.
pub open spec fn hget_model(m: StoreModel, k: Seq<char>, f: Seq<char>, now: u64) -> Option<
    Seq<char>,
> {
    match live_lookup(m, k, now) {
        Some(e) => match e.value {
            ValueModel::Hash(h) => if h.contains_key(f) {
                Some(h[f])
            } else {
                None
            },
            _ => None,
        },
        None => None,
    }
}

/// Whether key `k` matches `keys`' pattern `p`: `*` matches every key;
/// any other pattern matches by substring containment, not anchored and
/// not as a glob.
pub open spec fn key_matches(k: Seq<char>, p: Seq<char>) -> bool {
    p == seq!['*'] || contains_seq(k, p)
}

/// An in-memory key-value store with per-key TTL expiration and typed
/// values.
pub struct TTLStore {
    entries: Vec<(String, Entry)>,
}

impl View for TTLStore {
    type V = StoreModel;

    closed spec fn view(&self) -> StoreModel {
        pairs_map(self.entries@)
    }
}

impl TTLStore {
    /// The representation invariant: keys are unique and every value is
    /// well formed.
    pub closed spec fn wf(&self) -> bool {
        &&& distinct_keys(self.entries@)
        &&& forall|i: int| 0 <= i < self.entries@.len() ==> (#[trigger] self.entries@[i]).1.wf()
    }

    /// Creates a new, empty store.
    pub fn new() -> (r: Self)
        ensures
            r.wf(),
            r@ == Map::<Seq<char>, EntryModel>::empty(),
    {
        TTLStore { entries: Vec::new() }
    }

    /// Applies the lazy-expiry check to `key` and locates the live entry
    /// that remains, if any.
    fn locate_live(&mut self, key: &str, now: u64) -> (r: Option<usize>)
        requires
            old(self).wf(),
        ensures
            final(self).wf(),
            final(self)@ == evict(old(self)@, key@, now),
            match r {
                Some(i) => {
                    &&& final(self)@ == old(self)@
                    &&& i < final(self).entries@.len()
                    &&& final(self).entries@[i as int].0@ == key@
                    &&& live(final(self).entries@[i as int].1@, now)
                    &&& live_lookup(old(self)@, key@, now) == Some(
                        final(self).entries@[i as int].1@,
                    )
                },
                None => {
                    &&& !final(self)@.contains_key(key@)
                    &&& live_lookup(old(self)@, key@, now) is None
                },
            },
    {
        match find_pair(&self.entries, key) {
            None => {
                proof {
                    lemma_pairs_map_absent(self.entries@, key@);
                    assert(evict(self@, key@, now) =~= self@);
                }
                None
            },
            Some(i) => {
                proof {
                    lemma_pairs_map_index(self.entries@, i as int);
                }
                let expired = match self.entries[i].1.expires_at {
                    Some(t) => t <= now,
                    None => false,
                };
                if expired {
                    let ghost s0 = self.entries@;
                    let _ = self.entries.remove(i);
                    proof {
                        lemma_pairs_map_remove(s0, i as int);
                    }
                    None
                } else {
                    Some(i)
                }
            },
        }
    }

    /// Inserts an entry under a key that is not present.
    fn insert_absent(&mut self, key: &str, e: Entry)
        requires
            old(self).wf(),
            !old(self)@.contains_key(key@),
            e.wf(),
        ensures
            final(self).wf(),
            final(self)@ == old(self)@.insert(key@, e@),
    {
        let ghost s0 = self.entries@;
        let k = String::from_str(key);
        self.entries.push((k, e));
        proof {
            assert forall|j: int| 0 <= j < s0.len() implies s0[j].0@ != key@ by {
                if s0[j].0@ == key@ {
                    lemma_pairs_map_index(s0, j);
                }
            }
            lemma_pairs_map_push(s0, self.entries@.last());
        }
    }

    /// Replaces the entry at position `i` by `e`, keeping the key.
    fn replace_at(&mut self, i: usize, e: Entry)
        requires
            old(self).wf(),
            i < old(self).entries@.len(),
            e.wf(),
        ensures
            final(self).wf(),
            final(self)@ == old(self)@.insert(old(self).entries@[i as int].0@, e@),
    {
        let ghost s0 = self.entries@;
        let pair = self.entries.remove(i);
        self.entries.push((pair.0, e));
        proof {
            lemma_pairs_map_replace(s0, i as int, self.entries@.last());
        }
    }

    /// Sets `key` to a scalar string, overwriting any prior entry, with
    /// an optional TTL in seconds.
    pub fn set(&mut self, key: &str, value: &str, ttl: Option<u64>, now: u64)
        requires
            old(self).wf(),
            ttl matches Some(d) ==> now + d <= u64::MAX,
        ensures
            final(self).wf(),
            final(self)@ == set_model(old(self)@, key@, value@, expiry_of(ttl, now)),
    {
        let expires_at = match ttl {
            None => None,
            Some(d) => Some(now + d),
        };
        let e = Entry { value: StoreValue::Simple(String::from_str(value)), expires_at };
        match find_pair(&self.entries, key) {
            None => {
                proof {
                    lemma_pairs_map_absent(self.entries@, key@);
                }
                self.insert_absent(key, e);
            },
            Some(i) => {
                self.replace_at(i, e);
            },
        }
    }

    /// Lists the keys live at `now` whose name matches the pattern:
    /// `*` for all keys, anything else as a substring test. Expired
    /// entries are skipped; their physical removal is deferred to the
    /// next single-key access.
    pub fn keys(&self, pattern: &str, now: u64) -> (r: Vec<String>)
        requires
            self.wf(),
        ensures
            forall|k: Seq<char>| #[trigger] r.deep_view().contains(k) <==> (live_lookup(
                self@,
                k,
                now,
            ) is Some && key_matches(k, pattern@)),
            forall|a: int, b: int| 0 <= a < b < r@.len() ==> r@[a]@ != r@[b]@,
    {
        let all = str_eq(pattern, "*");
        proof {
            reveal_strlit("*");
            assert("*"@ =~= seq!['*']);
        }
        let n = self.entries.len();
        let mut out: Vec<String> = Vec::new();
        let mut i: usize = 0;
        while i < n
            invariant
                self.wf(),
                n == self.entries@.len(),
                i <= n,
                all == (pattern@ == seq!['*']),
                forall|a: int| 0 <= a < out@.len() ==> exists|j: int|
                    0 <= j < i && #[trigger] out@[a]@ == self.entries@[j].0@,
                forall|a: int, b: int| 0 <= a < b < out@.len() ==> out@[a]@ != out@[b]@,
                forall|k: Seq<char>| #[trigger] out.deep_view().contains(k) <==> exists|j: int|
                    0 <= j < i && #[trigger] self.entries@[j].0@ == k && live(
                        self.entries@[j].1@,
                        now,
                    ) && key_matches(k, pattern@),
            decreases n - i,
        {
            let ghost dv0 = out.deep_view();
            let ghost ki = self.entries@[i as int].0@;
            let is_live = match self.entries[i].1.expires_at {
                None => true,
                Some(t) => t > now,
            };
            let matched = if is_live {
                if all {
                    true
                } else {
                    contains_str(self.entries[i].0.as_str(), pattern)
                }
            } else {
                false
            };
            if matched {
                out.push(self.entries[i].0.clone());
                proof {
                    assert(out.deep_view() =~= dv0.push(ki));
                }
            }
            proof {
                assert(matched == (live(self.entries@[i as int].1@, now) && key_matches(
                    ki,
                    pattern@,
                )));
                assert forall|k: Seq<char>|
                    #[trigger] out.deep_view().contains(k) <==> exists|j: int|
                        0 <= j < i + 1 && #[trigger] self.entries@[j].0@ == k && live(
                            self.entries@[j].1@,
                            now,
                        ) && key_matches(k, pattern@) by {
                    if out.deep_view().contains(k) {
                        if dv0.contains(k) {
                            let j = choose|j: int|
                                0 <= j < i && #[trigger] self.entries@[j].0@ == k && live(
                                    self.entries@[j].1@,
                                    now,
                                ) && key_matches(k, pattern@);
                            assert(0 <= j < i + 1 && self.entries@[j].0@ == k && live(
                                self.entries@[j].1@,
                                now,
                            ) && key_matches(k, pattern@));
                        } else {
                            assert(k == ki);
                            assert(self.entries@[i as int].0@ == k);
                        }
                    }
                    if exists|j: int|
                        0 <= j < i + 1 && #[trigger] self.entries@[j].0@ == k && live(
                            self.entries@[j].1@,
                            now,
                        ) && key_matches(k, pattern@) {
                        let j = choose|j: int|
                            0 <= j < i + 1 && #[trigger] self.entries@[j].0@ == k && live(
                                self.entries@[j].1@,
                                now,
                            ) && key_matches(k, pattern@);
                        if j < i {
                            assert(dv0.contains(k));
                            let a = choose|a: int| 0 <= a < dv0.len() && dv0[a] == k;
                            assert(out.deep_view()[a] == k);
                            assert(out.deep_view().contains(k));
                        } else {
                            assert(matched);
                            assert(out.deep_view()[dv0.len() as int] == ki);
                            assert(out.deep_view().contains(k));
                        }
                    }
                }
            }
            i += 1;
        }
        proof {
            assert forall|k: Seq<char>|
                #[trigger] out.deep_view().contains(k) <==> (live_lookup(self@, k, now) is Some
                    && key_matches(k, pattern@)) by {
                if out.deep_view().contains(k) {
                    let j = choose|j: int|
                        0 <= j < n && #[trigger] self.entries@[j].0@ == k && live(
                            self.entries@[j].1@,
                            now,
                        ) && key_matches(k, pattern@);
                    lemma_pairs_map_index(self.entries@, j);
                }
                if live_lookup(self@, k, now) is Some && key_matches(k, pattern@) {
                    lemma_pairs_map_key_index(self.entries@, k);
                    let j = choose|j: int| 0 <= j < self.entries@.len() && #[trigger] self
                        .entries@[j].0@ == k;
                    lemma_pairs_map_index(self.entries@, j);
                }
            }
        }
        out
    }

    /// Sets a new expiry for `key`, `ttl` seconds after `now`.
    pub fn expire(&mut self, key: &str, ttl: u64, now: u64) -> (r: Result<(), StoreError>)
        requires
            old(self).wf(),
            now + ttl <= u64::MAX,
        ensures
            final(self).wf(),
            match live_lookup(old(self)@, key@, now) {
                Some(e) => {
                    &&& final(self)@ == old(self)@.insert(
                        key@,
                        EntryModel { value: e.value, expires_at: Some((now + ttl) as u64) },
                    )
                    &&& r is Ok
                },
                None => {
                    &&& final(self)@ == evict(old(self)@, key@, now)
                    &&& r == Err::<(), StoreError>(StoreError::NotFound)
                },
            },
    {
        match self.locate_live(key, now) {
            None => Err(StoreError::NotFound),
            Some(i) => {
                let ghost s0 = self.entries@;
                let pair = self.entries.remove(i);
                self.entries.push(
                    (pair.0, Entry { value: pair.1.value, expires_at: Some(now + ttl) }),
                );
                proof {
                    lemma_pairs_map_replace(s0, i as int, self.entries@.last());
                }
                Ok(())
            },
        }
    }

    /// The remaining TTL of `key` in seconds: `-1` when the key has no
    /// expiry, absent when the key is missing or expired.
    pub fn ttl(&mut self, key: &str, now: u64) -> (r: Option<i64>)
        requires
            old(self).wf(),
        ensures
            final(self).wf(),
            final(self)@ == evict(old(self)@, key@, now),
            match r {
                Some(v) => ttl_model(old(self)@, key@, now) == Some(v as int),
                None => ttl_model(old(self)@, key@, now) is None,
            },
    {
        match self.locate_live(key, now) {
            None => None,
            Some(i) => {
                match self.entries[i].1.expires_at {
                    None => Some(-1),
                    Some(t) => {
                        let diff = t - now;
                        if diff > i64::MAX as u64 {
                            Some(i64::MAX)
                        } else {
                            Some(diff as i64)
                        }
                    },
                }
            },
        }
    }

    /// Deletes `key`; reports whether a live entry was removed.
    pub fn del(&mut self, key: &str, now: u64) -> (r: bool)
        requires
            old(self).wf(),
        ensures
            final(self).wf(),
            final(self)@ == old(self)@.remove(key@),
            r == (live_lookup(old(self)@, key@, now) is Some),
    {
        match self.locate_live(key, now) {
            None => {
                proof {
                    if !old(self)@.contains_key(key@) {
                        assert(old(self)@.remove(key@) =~= old(self)@);
                    }
                }
                false
            },
            Some(i) => {
                let ghost s0 = self.entries@;
                let _ = self.entries.remove(i);
                proof {
                    lemma_pairs_map_remove(s0, i as int);
                }
                true
            },
        }
    }

    /// Atomically increments the numeric scalar under `key` by `amount`,
    /// seeding a missing key with `amount` itself; returns the new value
    /// as decimal text.
    pub fn incr(&mut self, key: &str, amount: i64, now: u64) -> (r: Result<String, StoreError>)
        requires
            old(self).wf(),
        ensures
            final(self).wf(),
            final(self)@ == delta_map(evict(old(self)@, key@, now), key@, amount as int),
            match r {
                Ok(s) => delta_result(evict(old(self)@, key@, now), key@, amount as int) == Ok::<
                    Seq<char>,
                    StoreError,
                >(s@),
                Err(e) => delta_result(evict(old(self)@, key@, now), key@, amount as int)
                    == Err::<Seq<char>, StoreError>(e),
            },
    {
        match self.locate_live(key, now) {
            None => {
                let txt = format_i64(amount);
                let e = Entry { value: StoreValue::Simple(txt.clone()), expires_at: None };
                self.insert_absent(key, e);
                Ok(txt)
            },
            Some(i) => {
                let (is_simple, parsed): (bool, Option<i64>) = match &self.entries[i].1.value {
                    StoreValue::Simple(s) => (true, parse_i64(s.as_str())),
                    _ => (false, None),
                };
                if !is_simple {
                    return Err(StoreError::InvalidType);
                }
                match parsed {
                    None => Err(StoreError::InvalidType),
                    Some(v) => match v.checked_add(amount) {
                        None => Err(StoreError::Overflow),
                        Some(w) => {
                            let txt = format_i64(w);
                            let ghost s0 = self.entries@;
                            let pair = self.entries.remove(i);
                            self.entries.push(
                                (
                                    pair.0,
                                    Entry {
                                        value: StoreValue::Simple(txt.clone()),
                                        expires_at: pair.1.expires_at,
                                    },
                                ),
                            );
                            proof {
                                lemma_pairs_map_replace(s0, i as int, self.entries@.last());
                            }
                            Ok(txt)
                        },
                    },
                }
            },
        }
    }

    /// Atomically decrements the numeric scalar under `key` by `amount`,
    /// seeding a missing key with the negated amount: a decrement is an
    /// increment by the negated amount.
    pub fn decr(&mut self, key: &str, amount: i64, now: u64) -> (r: Result<String, StoreError>)
        requires
            old(self).wf(),
        ensures
            final(self).wf(),
            final(self)@ == delta_map(evict(old(self)@, key@, now), key@, -(amount as int)),
            match r {
                Ok(s) => delta_result(evict(old(self)@, key@, now), key@, -(amount as int))
                    == Ok::<Seq<char>, StoreError>(s@),
                Err(e) => delta_result(evict(old(self)@, key@, now), key@, -(amount as int))
                    == Err::<Seq<char>, StoreError>(e),
            },
    {
        match self.locate_live(key, now) {
            None => {
                match (0i64).checked_sub(amount) {
                    None => Err(StoreError::Overflow),
                    Some(w) => {
                        let txt = format_i64(w);
                        let e = Entry { value: StoreValue::Simple(txt.clone()), expires_at: None };
                        self.insert_absent(key, e);
                        Ok(txt)
                    },
                }
            },
            Some(i) => {
                let (is_simple, parsed): (bool, Option<i64>) = match &self.entries[i].1.value {
                    StoreValue::Simple(s) => (true, parse_i64(s.as_str())),
                    _ => (false, None),
                };
                if !is_simple {
                    return Err(StoreError::InvalidType);
                }
                match parsed {
                    None => Err(StoreError::InvalidType),
                    Some(v) => match v.checked_sub(amount) {
                        None => Err(StoreError::Overflow),
                        Some(w) => {
                            let txt = format_i64(w);
                            let ghost s0 = self.entries@;
                            let pair = self.entries.remove(i);
                            self.entries.push(
                                (
                                    pair.0,
                                    Entry {
                                        value: StoreValue::Simple(txt.clone()),
                                        expires_at: pair.1.expires_at,
                                    },
                                ),
                            );
                            proof {
                                lemma_pairs_map_replace(s0, i as int, self.entries@.last());
                            }
                            Ok(txt)
                        },
                    },
                }
            },
        }
    }

    /// Appends `value` to the scalar under `key`; the key must already
    /// hold a scalar.
    pub fn append(&mut self, key: &str, value: &str, now: u64) -> (r: Result<String, StoreError>)
        requires
            old(self).wf(),
        ensures
            final(self).wf(),
            final(self)@ == append_map(evict(old(self)@, key@, now), key@, value@),
            match r {
                Ok(s) => append_result(evict(old(self)@, key@, now), key@, value@) == Ok::<
                    Seq<char>,
                    StoreError,
                >(s@),
                Err(e) => append_result(evict(old(self)@, key@, now), key@, value@) == Err::<
                    Seq<char>,
                    StoreError,
                >(e),
            },
    {
        match self.locate_live(key, now) {
            None => Err(StoreError::InvalidType),
            Some(i) => {
                let is_simple = match &self.entries[i].1.value {
                    StoreValue::Simple(_) => true,
                    _ => false,
                };
                if !is_simple {
                    return Err(StoreError::InvalidType);
                }
                let ghost s0 = self.entries@;
                let pair = self.entries.remove(i);
                let (k0, e0) = pair;
                let Entry { value: v0, expires_at: exp0 } = e0;
                match v0 {
                    StoreValue::Simple(mut s) => {
                        s.append(value);
                        let res = s.clone();
                        self.entries.push(
                            (k0, Entry { value: StoreValue::Simple(s), expires_at: exp0 }),
                        );
                        proof {
                            lemma_pairs_map_replace(s0, i as int, self.entries@.last());
                        }
                        Ok(res)
                    },
                    other => {
                        proof {
                            assert(false);
                        }
                        self.entries.push((k0, Entry { value: other, expires_at: exp0 }));
                        Err(StoreError::InvalidType)
                    },
                }
            },
        }
    }

    /// Pushes `value` at the head of the list under `key`, starting a
    /// fresh list when the key is missing; a non-list value is refused
    /// rather than silently replaced.
    pub fn l_push(&mut self, key: &str, value: &str, now: u64) -> (r: Result<(), StoreError>)
        requires
            old(self).wf(),
        ensures
            final(self).wf(),
            final(self)@ == lpush_map(evict(old(self)@, key@, now), key@, value@),
            r == lpush_result(evict(old(self)@, key@, now), key@),
    {
        match self.locate_live(key, now) {
            None => {
                let mut l: Vec<String> = Vec::new();
                l.push(String::from_str(value));
                proof {
                    assert(l.deep_view() =~= seq![value@]);
                }
                self.insert_absent(key, Entry { value: StoreValue::List(l), expires_at: None });
                Ok(())
            },
            Some(i) => {
                let is_list = match &self.entries[i].1.value {
                    StoreValue::List(_) => true,
                    _ => false,
                };
                if !is_list {
                    return Err(StoreError::InvalidType);
                }
                let ghost s0 = self.entries@;
                let pair = self.entries.remove(i);
                let (k0, e0) = pair;
                let Entry { value: v0, expires_at: exp0 } = e0;
                match v0 {
                    StoreValue::List(mut l) => {
                        let ghost ldv = l.deep_view();
                        l.insert(0, String::from_str(value));
                        proof {
                            assert(l.deep_view() =~= seq![value@] + ldv);
                        }
                        self.entries.push(
                            (k0, Entry { value: StoreValue::List(l), expires_at: exp0 }),
                        );
                        proof {
                            lemma_pairs_map_replace(s0, i as int, self.entries@.last());
                        }
                        Ok(())
                    },
                    _ => {
                        proof {
                            assert(false);
                        }
                        Err(StoreError::InvalidType)
                    },
                }
            },
        }
    }

    /// Pops the head of the list under `key`: absent when the key is
    /// missing, the list is empty, or the value is not a list.
    pub fn l_pop(&mut self, key: &str, now: u64) -> (r: Option<String>)
        requires
            old(self).wf(),
        ensures
            final(self).wf(),
            final(self)@ == lpop_map(evict(old(self)@, key@, now), key@),
            match r {
                Some(s) => lpop_result(evict(old(self)@, key@, now), key@) == Some(s@),
                None => lpop_result(evict(old(self)@, key@, now), key@) is None,
            },
    {
        match self.locate_live(key, now) {
            None => None,
            Some(i) => {
                let (is_list, has_head) = match &self.entries[i].1.value {
                    StoreValue::List(l) => (true, l.len() > 0),
                    _ => (false, false),
                };
                if !is_list || !has_head {
                    return None;
                }
                let ghost s0 = self.entries@;
                let pair = self.entries.remove(i);
                let (k0, e0) = pair;
                let Entry { value: v0, expires_at: exp0 } = e0;
                match v0 {
                    StoreValue::List(mut l) => {
                        let ghost ldv = l.deep_view();
                        let head = l.remove(0);
                        proof {
                            assert(l.deep_view() =~= ldv.skip(1));
                            assert(head@ == ldv[0]);
                        }
                        self.entries.push(
                            (k0, Entry { value: StoreValue::List(l), expires_at: exp0 }),
                        );
                        proof {
                            lemma_pairs_map_replace(s0, i as int, self.entries@.last());
                        }
                        Some(head)
                    },
                    _ => {
                        proof {
                            assert(false);
                        }
                        None
                    },
                }
            },
        }
    }

    /// Adds `member` to the set under `key`, starting a fresh set when
    /// the key is missing; adding a member twice is the same as adding
    /// it once; a non-set value is refused.
    pub fn s_add(&mut self, key: &str, member: &str, now: u64) -> (r: Result<(), StoreError>)
        requires
            old(self).wf(),
        ensures
            final(self).wf(),
            final(self)@ == sadd_map(evict(old(self)@, key@, now), key@, member@),
            r == sadd_result(evict(old(self)@, key@, now), key@),
    {
        match self.locate_live(key, now) {
            None => {
                let mut elems: Vec<String> = Vec::new();
                elems.push(String::from_str(member));
                proof {
                    assert(elems.deep_view() =~= seq![member@]);
                    assert(elems.deep_view().drop_last() =~= Seq::<Seq<char>>::empty());
                    assert(member_set(elems.deep_view().drop_last()) =~= Set::<Seq<char>>::empty());
                    assert(member_set(elems.deep_view()) =~= Set::empty().insert(member@));
                }
                self.insert_absent(
                    key,
                    Entry { value: StoreValue::SetVal(elems), expires_at: None },
                );
                Ok(())
            },
            Some(i) => {
                let (is_set, present) = match &self.entries[i].1.value {
                    StoreValue::SetVal(v) => (true, vec_has_str(v, member)),
                    _ => (false, false),
                };
                if !is_set {
                    return Err(StoreError::InvalidType);
                }
                let ghost m1 = self@;
                if present {
                    proof {
                        let dv = choose|dv: Seq<Seq<char>>|
                            self.entries@[i as int].1@.value == ValueModel::SetVal(member_set(dv))
                                && dv.contains(member@);
                        lemma_member_set_contains(dv, member@);
                        assert(member_set(dv).insert(member@) =~= member_set(dv));
                        assert(m1.insert(key@, m1[key@]) =~= m1);
                    }
                    return Ok(());
                }
                let ghost s0 = self.entries@;
                let pair = self.entries.remove(i);
                let (k0, e0) = pair;
                let Entry { value: v0, expires_at: exp0 } = e0;
                match v0 {
                    StoreValue::SetVal(mut vv) => {
                        let ghost dv = vv.deep_view();
                        proof {
                            assert forall|j: int| 0 <= j < dv.len() implies dv[j] != member@ by {
                                if dv[j] == member@ {
                                    assert(dv.contains(member@));
                                }
                            }
                        }
                        let ghost vs0 = vv@;
                        vv.push(String::from_str(member));
                        proof {
                            assert(vv.deep_view() =~= dv.push(member@));
                            lemma_member_set_push(dv, member@);
                            assert forall|a: int, b: int|
                                0 <= a < b < vv@.len() implies vv@[a]@ != vv@[b]@ by {
                                if b == vv@.len() - 1 {
                                    assert(vv@[a] == vs0[a]);
                                    assert(dv[a] == vs0[a]@);
                                    assert(dv[a] != member@);
                                    assert(vv@[b]@ == member@);
                                } else {
                                    assert(vv@[a] == vs0[a] && vv@[b] == vs0[b]);
                                    assert(dv[a] == vs0[a]@ && dv[b] == vs0[b]@);
                                }
                            }
                        }
                        self.entries.push(
                            (k0, Entry { value: StoreValue::SetVal(vv), expires_at: exp0 }),
                        );
                        proof {
                            lemma_pairs_map_replace(s0, i as int, self.entries@.last());
                        }
                        Ok(())
                    },
                    _ => {
                        proof {
                            assert(false);
                        }
                        Err(StoreError::InvalidType)
                    },
                }
            },
        }
    }

    /// Returns the members of the set under `key`, in insertion order;
    /// empty when the key is missing, expired or non-set.
    pub fn s_members(&mut self, key: &str, now: u64) -> (r: Vec<String>)
        requires
            old(self).wf(),
        ensures
            final(self).wf(),
            final(self)@ == evict(old(self)@, key@, now),
            member_set(r.deep_view()) == smembers_model(old(self)@, key@, now),
            forall|a: int, b: int| 0 <= a < b < r@.len() ==> r@[a]@ != r@[b]@,
    {
        let empty_result: Vec<String> = Vec::new();
        proof {
            assert(empty_result.deep_view() =~= Seq::<Seq<char>>::empty());
        }
        match self.locate_live(key, now) {
            None => empty_result,
            Some(i) => {
                match &self.entries[i].1.value {
                    StoreValue::SetVal(v) => {
                        let c = v.clone();
                        proof {
                            assert forall|a: int| 0 <= a < v@.len() implies c@[a] == v@[a] by {}
                            assert(c@ =~= v@);
                            assert(c.deep_view() =~= v.deep_view());
                        }
                        c
                    },
                    _ => empty_result,
                }
            },
        }
    }

    /// Sets field `field` to `value` in the hash under `key`, starting
    /// a fresh hash when the key is missing; a non-hash value is
    /// refused.
    pub fn h_set(&mut self, key: &str, field: &str, value: &str, now: u64) -> (r: Result<
        (),
        StoreError,
    >)
        requires
            old(self).wf(),
        ensures
            final(self).wf(),
            final(self)@ == hset_map(evict(old(self)@, key@, now), key@, field@, value@),
            r == hset_result(evict(old(self)@, key@, now), key@),
    {
        match self.locate_live(key, now) {
            None => {
                let mut fields: Vec<(String, String)> = Vec::new();
                fields.push((String::from_str(field), String::from_str(value)));
                proof {
                    assert(fields@.drop_last() =~= Seq::<(String, String)>::empty());
                    assert(pairs_map(fields@.drop_last()) =~= Map::<Seq<char>, Seq<char>>::empty());
                    assert(pairs_map(fields@) =~= Map::<Seq<char>, Seq<char>>::empty().insert(
                        field@,
                        value@,
                    ));
                }
                self.insert_absent(
                    key,
                    Entry { value: StoreValue::Hash(fields), expires_at: None },
                );
                Ok(())
            },
            Some(i) => {
                let is_hash = match &self.entries[i].1.value {
                    StoreValue::Hash(_) => true,
                    _ => false,
                };
                if !is_hash {
                    return Err(StoreError::InvalidType);
                }
                let ghost s0 = self.entries@;
                let pair = self.entries.remove(i);
                let (k0, e0) = pair;
                let Entry { value: v0, expires_at: exp0 } = e0;
                match v0 {
                    StoreValue::Hash(mut p) => {
                        let ghost p0 = p@;
                        match find_pair(&p, field) {
                            Some(j) => {
                                let oldpair = p.remove(j);
                                p.push((oldpair.0, String::from_str(value)));
                                proof {
                                    lemma_pairs_map_replace(p0, j as int, p@.last());
                                }
                            },
                            None => {
                                p.push((String::from_str(field), String::from_str(value)));
                                proof {
                                    lemma_pairs_map_push(p0, p@.last());
                                }
                            },
                        }
                        self.entries.push(
                            (k0, Entry { value: StoreValue::Hash(p), expires_at: exp0 }),
                        );
                        proof {
                            lemma_pairs_map_replace(s0, i as int, self.entries@.last());
                        }
                        Ok(())
                    },
                    _ => {
                        proof {
                            assert(false);
                        }
                        Err(StoreError::InvalidType)
                    },
                }
            },
        }
    }

    /// Reads field `field` of the hash under `key`: absent when the key
    /// is missing, expired or non-hash, or the field is not set.
    pub fn h_get(&mut self, key: &str, field: &str, now: u64) -> (r: Option<String>)
        requires
            old(self).wf(),
        ensures
            final(self).wf(),
            final(self)@ == evict(old(self)@, key@, now),
            match r {
                Some(s) => hget_model(old(self)@, key@, field@, now) == Some(s@),
                None => hget_model(old(self)@, key@, field@, now) is None,
            },
    {
        match self.locate_live(key, now) {
            None => None,
            Some(i) => {
                match &self.entries[i].1.value {
                    StoreValue::Hash(p) => {
                        match find_pair(p, field) {
                            Some(j) => {
                                proof {
                                    lemma_pairs_map_index(p@, j as int);
                                }
                                Some(p[j].1.clone())
                            },
                            None => {
                                proof {
                                    lemma_pairs_map_absent(p@, field@);
                                }
                                None
                            },
                        }
                    },
                    _ => None,
                }
            },
        }
    }

    /// Reads the scalar under `key`: absent when the key is missing,
    /// expired, or holds a non-scalar variant.
    pub fn get(&mut self, key: &str, now: u64) -> (r: Option<String>)
        requires
            old(self).wf(),
        ensures
            final(self).wf(),
            final(self)@ == evict(old(self)@, key@, now),
            match r {
                Some(s) => get_model(old(self)@, key@, now) == Some(s@),
                None => get_model(old(self)@, key@, now) is None,
            },
    {
        match self.locate_live(key, now) {
            None => None,
            Some(i) => {
                match &self.entries[i].1.value {
                    StoreValue::Simple(s) => Some(s.clone()),
                    _ => None,
                }
            },
        }
    }
}

} // verus!
