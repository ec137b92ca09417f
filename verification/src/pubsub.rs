//! Channel-scoped publish/subscribe broadcast with bounded per-subscriber
//! buffers.
//!
//! A registry holds the live subscribers. Each subscriber names either an
//! explicit list of channels or a glob pattern, and owns a bounded queue
//! of pending messages. Publishing never waits for a slow subscriber:
//! when a queue is full its oldest message is dropped to make room, and
//! the subscriber's next read reports how many messages it missed.

use vstd::prelude::*;
use vstd::string::*;
use crate::text::{glob_match, glob_matches};
use crate::value::vec_has_str;

verus! {

/// The mathematical shape of one subscriber.
pub ghost struct SubscriberModel {
    /// The handle that identifies the subscriber.
    pub id: u64,
    /// The channels subscribed to by exact name.
    pub channels: Seq<Seq<char>>,
    /// A glob pattern matched against channel names, if any.
    pub pattern: Option<Seq<char>>,
    /// The pending messages, oldest first.
    pub queue: Seq<Seq<char>>,
    /// How many messages were dropped since the last read.
    pub missed: u64,
}

struct Subscriber {
    id: u64,
    channels: Vec<String>,
    pattern: Option<String>,
    queue: Vec<String>,
    missed: u64,
}

impl View for Subscriber {
    type V = SubscriberModel;

    closed spec fn view(&self) -> SubscriberModel {
        SubscriberModel {
            id: self.id,
            channels: self.channels.deep_view(),
            pattern: match self.pattern {
                None => None,
                Some(p) => Some(p@),
            },
            queue: self.queue.deep_view(),
            missed: self.missed,
        }
    }
}

/// Whether a publish on `channel` reaches this subscriber: the channel
/// is named exactly, or the subscriber's pattern matches it.
pub open spec fn sub_matches(s: SubscriberModel, channel: Seq<char>) -> bool {
    s.channels.contains(channel) || match s.pattern {
        Some(p) => glob_matches(p, channel),
        None => false,
    }
}

/// One subscriber after a publish of `msg` on `channel`, with buffer
/// capacity `cap`: a non-matching subscriber is untouched; a matching
/// one gains the message at the back of its queue, dropping the oldest
/// pending message and counting it as missed when the queue is full.
pub open spec fn deliver(s: SubscriberModel, channel: Seq<char>, msg: Seq<char>, cap: nat)
    -> SubscriberModel {
    if !sub_matches(s, channel) {
        s
    } else if s.queue.len() < cap {
        SubscriberModel { queue: s.queue.push(msg), ..s }
    } else {
        SubscriberModel {
            queue: s.queue.skip(1).push(msg),
            missed: if s.missed == u64::MAX {
                s.missed
            } else {
                (s.missed + 1) as u64
            },
            ..s
        }
    }
}

/// Whether some subscriber carries the handle `id`.
pub open spec fn has_sub(s: Seq<SubscriberModel>, id: u64) -> bool {
    exists|i: int| 0 <= i < s.len() && s[i].id == id
}

/// The position of the subscriber carrying `id`.
pub open spec fn sub_index(s: Seq<SubscriberModel>, id: u64) -> int {
    choose|i: int| 0 <= i < s.len() && s[i].id == id
}

/// What one read returns to a subscriber.
#[derive(Debug, PartialEq, Eq)]
pub enum RecvOutcome {
    /// The next pending message.
    Message(String),
    /// The subscriber missed this many messages since its last read;
    /// the pending messages are still there for the next read.
    Lagged(u64),
    /// Nothing is pending.
    Empty,
    /// No live subscriber carries the handle.
    Closed,
}

/// A publish/subscribe broadcaster over named channels.
pub struct PubSub {
    subs: Vec<Subscriber>,
    next_id: u64,
    capacity: usize,
}

impl View for PubSub {
    type V = Seq<SubscriberModel>;

    closed spec fn view(&self) -> Seq<SubscriberModel> {
        Seq::new(self.subs@.len(), |i: int| self.subs@[i]@)
    }
}

impl PubSub {
    /// Each subscriber's buffer holds at most this many pending
    /// messages.
    pub closed spec fn buffer_capacity(&self) -> nat {
        self.capacity as nat
    }

    /// Whether the handle space is used up and no further subscriber
    /// can be registered.
    pub closed spec fn ids_exhausted(&self) -> bool {
        self.next_id == u64::MAX
    }

    /// The representation invariant: handles are unique and no queue
    /// overruns the capacity.
    pub closed spec fn wf(&self) -> bool {
        &&& self.capacity >= 1
        &&& forall|i: int, j: int|
            0 <= i < j < self.subs@.len() ==> self.subs@[i].id != self.subs@[j].id
        &&& forall|i: int| 0 <= i < self.subs@.len() ==> (#[trigger] self.subs@[i]).id
            < self.next_id
        &&& forall|i: int| 0 <= i < self.subs@.len() ==> (#[trigger] self.subs@[i]).queue@.len()
            <= self.capacity
    }

    /// Creates a broadcaster whose subscribers buffer up to 100 pending
    /// messages each.
    pub fn new() -> (r: Self)
        ensures
            r.wf(),
            r@ == Seq::<SubscriberModel>::empty(),
            r.buffer_capacity() == 100,
    {
        let r = PubSub { subs: Vec::new(), next_id: 0, capacity: 100 };
        proof {
            assert(r@ =~= Seq::<SubscriberModel>::empty());
        }
        r
    }

    /// Creates a broadcaster with the given per-subscriber buffer
    /// capacity.
    pub fn with_capacity(capacity: usize) -> (r: Self)
        requires
            capacity >= 1,
        ensures
            r.wf(),
            r@ == Seq::<SubscriberModel>::empty(),
            r.buffer_capacity() == capacity,
    {
        let r = PubSub { subs: Vec::new(), next_id: 0, capacity };
        proof {
            assert(r@ =~= Seq::<SubscriberModel>::empty());
        }
        r
    }

    /// Registers a subscriber for an explicit list of channel names and
    /// returns its handle; refused only once the handle space is used
    /// up.
    pub fn subscribe(&mut self, channels: Vec<String>) -> (r: Option<u64>)
        requires
            old(self).wf(),
        ensures
            final(self).wf(),
            final(self).buffer_capacity() == old(self).buffer_capacity(),
            match r {
                Some(id) => {
                    &&& !old(self).ids_exhausted()
                    &&& final(self)@ == old(self)@.push(
                        SubscriberModel {
                            id,
                            channels: channels.deep_view(),
                            pattern: None,
                            queue: Seq::empty(),
                            missed: 0,
                        },
                    )
                    &&& !has_sub(old(self)@, id)
                },
                None => {
                    &&& old(self).ids_exhausted()
                    &&& final(self)@ == old(self)@
                },
            },
    {
        if self.next_id == u64::MAX {
            return None;
        }
        let id = self.next_id;
        self.next_id = self.next_id + 1;
        self.subs.push(
            Subscriber { id, channels, pattern: None, queue: Vec::new(), missed: 0 },
        );
        proof {
            assert(self@ =~= old(self)@.push(self.subs@.last()@));
            assert(self.subs@.last()@.queue =~= Seq::<Seq<char>>::empty());
            if has_sub(old(self)@, id) {
                let i = sub_index(old(self)@, id);
                assert(old(self)@[i].id == id);
            }
        }
        Some(id)
    }

    /// Registers a subscriber for every channel whose name matches a
    /// glob pattern and returns its handle.
    pub fn subscribe_pattern(&mut self, pattern: &str) -> (r: Option<u64>)
        requires
            old(self).wf(),
        ensures
            final(self).wf(),
            final(self).buffer_capacity() == old(self).buffer_capacity(),
            match r {
                Some(id) => {
                    &&& !old(self).ids_exhausted()
                    &&& final(self)@ == old(self)@.push(
                        SubscriberModel {
                            id,
                            channels: Seq::empty(),
                            pattern: Some(pattern@),
                            queue: Seq::empty(),
                            missed: 0,
                        },
                    )
                    &&& !has_sub(old(self)@, id)
                },
                None => {
                    &&& old(self).ids_exhausted()
                    &&& final(self)@ == old(self)@
                },
            },
    {
        if self.next_id == u64::MAX {
            return None;
        }
        let id = self.next_id;
        self.next_id = self.next_id + 1;
        self.subs.push(
            Subscriber {
                id,
                channels: Vec::new(),
                pattern: Some(String::from_str(pattern)),
                queue: Vec::new(),
                missed: 0,
            },
        );
        proof {
            assert(self@ =~= old(self)@.push(self.subs@.last()@));
            assert(self.subs@.last()@.queue =~= Seq::<Seq<char>>::empty());
            assert(self.subs@.last()@.channels =~= Seq::<Seq<char>>::empty());
            if has_sub(old(self)@, id) {
                let i = sub_index(old(self)@, id);
                assert(old(self)@[i].id == id);
            }
        }
        Some(id)
    }

    /// Delivers one message to one subscriber under the drop-oldest lag
    /// policy.
    fn deliver_to(sub: Subscriber, channel: &str, message: &str, cap: usize) -> (r: Subscriber)
        requires
            cap >= 1,
            sub@.queue.len() <= cap,
        ensures
            r@ == deliver(sub@, channel@, message@, cap as nat),
            r@.queue.len() <= cap,
            r@.id == sub@.id,
    {
        let matches_chan = vec_has_str(&sub.channels, channel);
        let matches_pat = match &sub.pattern {
            Some(p) => glob_match(p.as_str(), channel),
            None => false,
        };
        if !(matches_chan || matches_pat) {
            return sub;
        }
        let Subscriber { id, channels, pattern, mut queue, missed } = sub;
        let ghost q0 = queue.deep_view();
        if queue.len() < cap {
            queue.push(String::from_str(message));
            let r = Subscriber { id, channels, pattern, queue, missed };
            proof {
                assert(r@.queue =~= q0.push(message@));
            }
            r
        } else {
            let _ = queue.remove(0);
            queue.push(String::from_str(message));
            let new_missed = if missed == u64::MAX {
                missed
            } else {
                missed + 1
            };
            let r = Subscriber { id, channels, pattern, queue, missed: new_missed };
            proof {
                assert(r@.queue =~= q0.skip(1).push(message@));
            }
            r
        }
    }

    /// Publishes a message on a channel: every subscriber registered
    /// for that channel, by exact name or matching pattern, receives it
    /// under the drop-oldest lag policy; no other subscriber is
    /// touched, and no subscriber's lag affects another.
    pub fn publish(&mut self, channel: &str, message: &str)
        requires
            old(self).wf(),
        ensures
            final(self).wf(),
            final(self).buffer_capacity() == old(self).buffer_capacity(),
            final(self)@.len() == old(self)@.len(),
            forall|i: int| 0 <= i < old(self)@.len() ==> final(self)@[i] == deliver(
                old(self)@[i],
                channel@,
                message@,
                old(self).buffer_capacity(),
            ),
    {
        let cap = self.capacity;
        let n = self.subs.len();
        let mut i: usize = 0;
        while i < n
            invariant
                old(self).wf(),
                n == self.subs@.len(),
                n == old(self).subs@.len(),
                n == old(self)@.len(),
                i <= n,
                self.capacity == cap,
                old(self).capacity == cap,
                cap >= 1,
                self.next_id == old(self).next_id,
                forall|j: int| i <= j < n ==> self.subs@[j] == old(self).subs@[j],
                forall|j: int| 0 <= j < i ==> (#[trigger] self.subs@[j])@ == deliver(
                    old(self)@[j],
                    channel@,
                    message@,
                    cap as nat,
                ),
                forall|j: int| 0 <= j < i ==> (#[trigger] self.subs@[j])@.queue.len() <= cap,
                forall|j: int| 0 <= j < i ==> (#[trigger] self.subs@[j]).id == old(self).subs@[
                    j].id,
            decreases n - i,
        {
            let ghost subs0 = self.subs@;
            let sub = self.subs.remove(i);
            proof {
                assert(sub == old(self).subs@[i as int]);
                assert(sub@.queue.len() == sub.queue@.len());
                assert(old(self).capacity == cap);
            }
            let delivered = Self::deliver_to(sub, channel, message, cap);
            self.subs.insert(i, delivered);
            proof {
                assert(self.subs@ =~= subs0.update(i as int, self.subs@[i as int]));
                assert(old(self)@[i as int] == old(self).subs@[i as int]@);
            }
            i += 1;
        }
        proof {
            assert forall|j: int| 0 <= j < old(self)@.len() implies final(self)@[j] == deliver(
                old(self)@[j],
                channel@,
                message@,
                old(self).buffer_capacity(),
            ) by {
                assert(self.subs@[j]@ == deliver(old(self)@[j], channel@, message@, cap as nat));
            }
        }
    }

    /// Finds the position of the subscriber carrying `id`.
    fn find_sub(&self, id: u64) -> (r: Option<usize>)
        requires
            self.wf(),
        ensures
            match r {
                Some(i) => {
                    &&& i < self@.len()
                    &&& self@[i as int].id == id
                    &&& has_sub(self@, id)
                    &&& sub_index(self@, id) == i as int
                },
                None => !has_sub(self@, id),
            },
    {
        let n = self.subs.len();
        let mut i: usize = 0;
        while i < n
            invariant
                self.wf(),
                n == self.subs@.len(),
                i <= n,
                forall|j: int| 0 <= j < i ==> (#[trigger] self.subs@[j]).id != id,
            decreases n - i,
        {
            if self.subs[i].id == id {
                proof {
                    assert(self@[i as int].id == id);
                    let w = sub_index(self@, id);
                    assert(self@[w].id == id);
                    if w != i as int {
                        assert(self.subs@[w].id != self.subs@[i as int].id);
                    }
                }
                return Some(i);
            }
            i += 1;
        }
        proof {
            if has_sub(self@, id) {
                let w = sub_index(self@, id);
                assert(self@[w].id == id);
                assert(false);
            }
        }
        None
    }

    /// One read by the subscriber carrying `id`: a lag report if it
    /// missed messages since its last read, else the oldest pending
    /// message, else nothing.
    pub fn recv(&mut self, id: u64) -> (r: RecvOutcome)
        requires
            old(self).wf(),
        ensures
            final(self).wf(),
            final(self).buffer_capacity() == old(self).buffer_capacity(),
            !has_sub(old(self)@, id) ==> r == RecvOutcome::Closed && final(self)@ == old(self)@,
            has_sub(old(self)@, id) ==> {
                let i = sub_index(old(self)@, id);
                let s = old(self)@[i];
                if s.missed > 0 {
                    &&& r == RecvOutcome::Lagged(s.missed)
                    &&& final(self)@ == old(self)@.update(
                        i,
                        SubscriberModel { missed: 0, ..s },
                    )
                } else if s.queue.len() > 0 {
                    &&& (r matches RecvOutcome::Message(m) && m@ == s.queue[0])
                    &&& final(self)@ == old(self)@.update(
                        i,
                        SubscriberModel { queue: s.queue.skip(1), ..s },
                    )
                } else {
                    &&& r == RecvOutcome::Empty
                    &&& final(self)@ == old(self)@
                }
            },
    {
        match self.find_sub(id) {
            None => RecvOutcome::Closed,
            Some(i) => {
                let ghost subs0 = self.subs@;
                let sub = self.subs.remove(i);
                let Subscriber { id: sid, channels, pattern, mut queue, missed } = sub;
                if missed > 0 {
                    self.subs.insert(
                        i,
                        Subscriber { id: sid, channels, pattern, queue, missed: 0 },
                    );
                    proof {
                        assert(self.subs@ =~= subs0.update(i as int, self.subs@[i as int]));
                        assert(final(self)@ =~= old(self)@.update(
                            i as int,
                            SubscriberModel { missed: 0, ..old(self)@[i as int] },
                        ));
                    }
                    RecvOutcome::Lagged(missed)
                } else if queue.len() > 0 {
                    let ghost q0 = queue.deep_view();
                    let msg = queue.remove(0);
                    self.subs.insert(
                        i,
                        Subscriber { id: sid, channels, pattern, queue, missed },
                    );
                    proof {
                        assert(self.subs@ =~= subs0.update(i as int, self.subs@[i as int]));
                        assert(self.subs@[i as int]@.queue =~= q0.skip(1));
                        assert(final(self)@ =~= old(self)@.update(
                            i as int,
                            SubscriberModel { queue: q0.skip(1), ..old(self)@[i as int] },
                        ));
                    }
                    RecvOutcome::Message(msg)
                } else {
                    self.subs.insert(
                        i,
                        Subscriber { id: sid, channels, pattern, queue, missed },
                    );
                    proof {
                        assert(self.subs@ =~= subs0.update(i as int, self.subs@[i as int]));
                        assert(final(self)@ =~= old(self)@);
                    }
                    RecvOutcome::Empty
                }
            },
        }
    }

    /// Closes the handle `id`: the subscriber and its buffer leave the
    /// registry at once, and later publishes no longer reach it.
    pub fn unsubscribe(&mut self, id: u64) -> (r: bool)
        requires
            old(self).wf(),
        ensures
            final(self).wf(),
            final(self).buffer_capacity() == old(self).buffer_capacity(),
            r == has_sub(old(self)@, id),
            has_sub(old(self)@, id) ==> final(self)@ == old(self)@.remove(
                sub_index(old(self)@, id),
            ),
            !has_sub(old(self)@, id) ==> final(self)@ == old(self)@,
    {
        match self.find_sub(id) {
            None => false,
            Some(i) => {
                let _ = self.subs.remove(i);
                proof {
                    assert(final(self)@ =~= old(self)@.remove(i as int));
                }
                true
            },
        }
    }
}

} // verus!
