//! The laws of the store and the broadcaster, stated over the same
//! models that the operations' contracts use and proved once for all
//! inputs.

use vstd::prelude::*;
use crate::numbers::{i64_in_range, int_to_dec, lemma_int_to_dec_roundtrip};
use crate::pubsub::{deliver, sub_matches, SubscriberModel};
use crate::store::{
    delta_map, delta_result, evict, expiry_of, get_model, live, lpop_map, lpop_result, lpush_map,
    sadd_map, set_model, EntryModel, StoreModel,
};
use crate::value::ValueModel;

verus! {

/// Evicting a key that is absent or still live leaves the store as it
/// is.
pub proof fn lemma_evict_live(m: StoreModel, k: Seq<char>, now: u64)
    requires
        m.contains_key(k) ==> live(m[k], now),
    ensures
        evict(m, k, now) == m,
{
}

/// A scalar written with no TTL is read back unchanged, at any later
/// time: `set(k, v, none)` then `get(k)` returns `v`.
pub proof fn lemma_set_then_get(m: StoreModel, k: Seq<char>, v: Seq<char>, later: u64)
    ensures
        get_model(set_model(m, k, v, None), k, later) == Some(v),
{
}

/// A scalar written with a TTL is read back until the deadline and
/// absent from the deadline on: `set(k, v, t)` then `get(k)` returns
/// `v` before `now + t` and absent afterwards.
pub proof fn lemma_set_ttl_then_get(
    m: StoreModel,
    k: Seq<char>,
    v: Seq<char>,
    ttl: u64,
    now: u64,
    later: u64,
)
    requires
        now + ttl <= u64::MAX,
    ensures
        later < now + ttl ==> get_model(set_model(m, k, v, expiry_of(Some(ttl), now)), k, later)
            == Some(v),
        later >= now + ttl ==> get_model(set_model(m, k, v, expiry_of(Some(ttl), now)), k, later)
            is None,
{
}

/// A numeric update on a missing key seeds it with the amount, and a
/// second update accumulates: on a fresh key, a delta of `a` then a
/// delta of `b` leaves the decimal text of `a + b`. A decrement is the
/// same law with the amount negated.
pub proof fn lemma_delta_accumulates(m: StoreModel, k: Seq<char>, a: int, b: int)
    requires
        !m.contains_key(k),
        i64_in_range(a),
        i64_in_range(a + b),
    ensures
        delta_result(m, k, a) == Ok::<Seq<char>, crate::errors::StoreError>(int_to_dec(a)),
        delta_result(delta_map(m, k, a), k, b) == Ok::<Seq<char>, crate::errors::StoreError>(
            int_to_dec(a + b),
        ),
        delta_map(delta_map(m, k, a), k, b) == m.insert(
            k,
            EntryModel { value: ValueModel::Simple(int_to_dec(a + b)), expires_at: None },
        ),
{
    lemma_int_to_dec_roundtrip(a);
    let m1 = delta_map(m, k, a);
    assert(m1[k].value == ValueModel::Simple(int_to_dec(a)));
    assert(m1.insert(
        k,
        EntryModel { value: ValueModel::Simple(int_to_dec(a + b)), expires_at: None },
    ) =~= m.insert(
        k,
        EntryModel { value: ValueModel::Simple(int_to_dec(a + b)), expires_at: None },
    ));
}

/// The list under a key is last-in-first-out: after pushing `a` then
/// `b` on a fresh key, pops return `b`, then `a`, then absent.
pub proof fn lemma_list_lifo(m: StoreModel, k: Seq<char>, a: Seq<char>, b: Seq<char>)
    requires
        !m.contains_key(k),
    ensures
        lpop_result(lpush_map(lpush_map(m, k, a), k, b), k) == Some(b),
        lpop_result(lpop_map(lpush_map(lpush_map(m, k, a), k, b), k), k) == Some(a),
        lpop_result(
            lpop_map(lpop_map(lpush_map(lpush_map(m, k, a), k, b), k), k),
            k,
        ) is None,
{
    let m2 = lpush_map(lpush_map(m, k, a), k, b);
    assert(m2[k].value == ValueModel::List(seq![b] + seq![a]));
    assert((seq![b] + seq![a])[0] == b);
    assert((seq![b] + seq![a]).skip(1) =~= seq![a]);
    let m3 = lpop_map(m2, k);
    assert(m3[k].value == ValueModel::List(seq![a]));
    assert(seq![a].skip(1) =~= Seq::<Seq<char>>::empty());
    let m4 = lpop_map(m3, k);
    assert(m4[k].value == ValueModel::List(Seq::empty()));
}

/// Adding the same member to a set twice is the same as adding it
/// once.
pub proof fn lemma_sadd_idempotent(m: StoreModel, k: Seq<char>, x: Seq<char>)
    ensures
        sadd_map(sadd_map(m, k, x), k, x) == sadd_map(m, k, x),
{
    let m1 = sadd_map(m, k, x);
    if !m.contains_key(k) {
        assert(m1[k].value == ValueModel::SetVal(Set::empty().insert(x)));
        assert(Set::empty().insert(x).insert(x) =~= Set::empty().insert(x));
        assert(sadd_map(m1, k, x) =~= m1);
    } else {
        match m[k].value {
            ValueModel::SetVal(s) => {
                assert(m1[k].value == ValueModel::SetVal(s.insert(x)));
                assert(s.insert(x).insert(x) =~= s.insert(x));
                assert(sadd_map(m1, k, x) =~= m1);
            },
            _ => {
                assert(sadd_map(m1, k, x) == m1);
            },
        }
    }
}

/// A publish on a channel reaches a subscriber registered for that
/// channel: with room in the buffer, the message lands at the back of
/// its queue and nothing else about the subscriber changes.
pub proof fn lemma_deliver_to_subscriber(
    s: SubscriberModel,
    c: Seq<char>,
    msg: Seq<char>,
    cap: nat,
)
    requires
        sub_matches(s, c),
        s.queue.len() < cap,
    ensures
        deliver(s, c, msg, cap) == (SubscriberModel { queue: s.queue.push(msg), ..s }),
        deliver(s, c, msg, cap).queue.last() == msg,
{
}

/// A publish on a channel does not touch a subscriber registered for
/// other channels only.
pub proof fn lemma_deliver_passes_by(s: SubscriberModel, c: Seq<char>, msg: Seq<char>, cap: nat)
    requires
        !sub_matches(s, c),
    ensures
        deliver(s, c, msg, cap) == s,
{
}

/// A publish into a full buffer stays bounded: the oldest pending
/// message is dropped for the new one, the queue keeps its length, and
/// the miss count rises so the subscriber's next read reports the lag
/// instead of silently truncating the stream.
pub proof fn lemma_deliver_lag(s: SubscriberModel, c: Seq<char>, msg: Seq<char>, cap: nat)
    requires
        sub_matches(s, c),
        s.queue.len() == cap,
        cap >= 1,
        s.missed < u64::MAX,
    ensures
        deliver(s, c, msg, cap).queue == s.queue.skip(1).push(msg),
        deliver(s, c, msg, cap).queue.len() == cap,
        deliver(s, c, msg, cap).missed == s.missed + 1,
{
}

} // verus!
