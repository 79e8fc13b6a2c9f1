//! Bounded broadcast fanout.
//!
//! One publish makes a message visible to every currently subscribed
//! receiver, each with its own bounded backlog. Publishing is a total,
//! non-blocking operation: a subscriber that stops draining loses its own
//! oldest entries and delays nobody else. A subscriber that joins later never
//! sees earlier messages, and each backlog holds the most recent published
//! messages in publish order (see [`BroadcastBus::lemma_backlog_suffix`]).
//!
//! The structure itself is single-threaded; callers that share it across
//! tasks put it behind a lock and wake readers after a publish. Every
//! operation here is a bounded in-memory step, so a publisher never waits on
//! a slow consumer.

use vstd::prelude::*;

verus! {

/// `n + 1`, stopping at the largest counter value.
pub open spec fn sat_inc(n: u64) -> u64 {
    if n < u64::MAX {
        (n + 1) as u64
    } else {
        n
    }
}

/// What one publish does to one active subscriber's backlog: the message is
/// appended, and if the backlog was full its oldest entry leaves. The effect
/// depends on that subscriber's own backlog alone.
pub open spec fn publish_effect(backlog: Seq<Seq<char>>, msg: Seq<char>, cap: int) -> Seq<
    Seq<char>,
> {
    if backlog.len() < cap {
        backlog + seq![msg]
    } else {
        backlog.subrange(1, backlog.len() as int) + seq![msg]
    }
}

/// The views of a queue of owned messages.
spec fn queue_view(q: Seq<String>) -> Seq<Seq<char>> {
    q.map_values(|m: String| m@)
}

struct Subscriber {
    active: bool,
    queue: Vec<String>,
    missed: u64,
}

/// Multi-subscriber fanout with an independent bounded backlog per
/// subscriber and drop-on-lag semantics.
pub struct BroadcastBus {
    cap: usize,
    subs: Vec<Subscriber>,
    published: Ghost<Seq<Seq<char>>>,
}

/// What a subscriber sees on one receive.
pub enum RecvOutcome {
    /// The oldest undelivered message.
    Message(String),
    /// This many messages were dropped for this subscriber since it last
    /// drained; the backlog itself is intact and delivered next.
    Lagged(u64),
    /// Nothing is pending.
    Empty,
}

impl BroadcastBus {
    /// The fixed backlog bound each subscriber was created with.
    pub closed spec fn capacity(&self) -> int {
        self.cap as int
    }

    /// Every message ever published, in publish order.
    pub closed spec fn log(&self) -> Seq<Seq<char>> {
        self.published@
    }

    /// How many subscriber slots exist, live or torn down.
    pub closed spec fn sub_count(&self) -> int {
        self.subs@.len() as int
    }

    /// Whether slot `k` is a live subscription.
    pub closed spec fn is_active(&self, k: int) -> bool {
        self.subs@[k].active
    }

    /// The undelivered messages of slot `k`, oldest first.
    pub closed spec fn backlog(&self, k: int) -> Seq<Seq<char>> {
        queue_view(self.subs@[k].queue@)
    }

    /// How many messages slot `k` has lost since it last drained.
    pub closed spec fn missed(&self, k: int) -> u64 {
        self.subs@[k].missed
    }

    /// Established by `new`, preserved by every operation: backlogs respect
    /// the bound, and each live backlog is exactly the tail of the publish
    /// log that the subscriber has not consumed or lost.
    pub closed spec fn wf(&self) -> bool {
        &&& self.cap >= 1
        &&& forall|k: int|
            0 <= k < self.sub_count() ==> (#[trigger] self.backlog(k)).len() <= self.capacity()
        &&& forall|k: int|
            0 <= k < self.sub_count() && self.is_active(k) ==> (#[trigger] self.backlog(k)).len()
                <= self.log().len()
        &&& forall|k: int|
            0 <= k < self.sub_count() && self.is_active(k) ==> #[trigger] self.backlog(k)
                =~= self.log().subrange(
                self.log().len() - self.backlog(k).len(),
                self.log().len() as int,
            )
    }

    /// An empty bus; `capacity` bounds every subscriber's backlog.
    pub fn new(capacity: usize) -> (bus: Self)
        requires
            capacity >= 1,
        ensures
            bus.wf(),
            bus.capacity() == capacity,
            bus.sub_count() == 0,
            bus.log() == Seq::<Seq<char>>::empty(),
    {
        BroadcastBus { cap: capacity, subs: Vec::new(), published: Ghost(Seq::empty()) }
    }

    /// Registers a new subscriber and returns its slot. The new backlog is
    /// empty: no replay of earlier messages.
    pub fn subscribe(&mut self) -> (id: usize)
        requires
            old(self).wf(),
        ensures
            final(self).wf(),
            id as int == old(self).sub_count(),
            final(self).sub_count() == old(self).sub_count() + 1,
            final(self).capacity() == old(self).capacity(),
            final(self).log() == old(self).log(),
            final(self).is_active(id as int),
            final(self).backlog(id as int) == Seq::<Seq<char>>::empty(),
            final(self).missed(id as int) == 0,
            forall|k: int|
                0 <= k < old(self).sub_count() ==> final(self).is_active(k) == old(self).is_active(k) && final(self).backlog(k) == old(self).backlog(k) && final(self).missed(k) == old(self).missed(k),
    {
        let id = self.subs.len();
        self.subs.push(Subscriber { active: true, queue: Vec::new(), missed: 0 });
        proof {
            assert(final(self).backlog(id as int) =~= Seq::<Seq<char>>::empty());
            assert forall|k: int| 0 <= k < old(self).sub_count() implies final(self).is_active(k)
                == old(self).is_active(k) && final(self).backlog(k) == old(self).backlog(k)
                && final(self).missed(k) == old(self).missed(k) by {
                assert(self.subs@[k] == old(self).subs@[k]);
            }
        }
        id
    }

    /// Tears a subscription down; its backlog is discarded and it receives
    /// nothing further. Nobody else is affected.
    pub fn unsubscribe(&mut self, id: usize)
        requires
            old(self).wf(),
            0 <= id < old(self).sub_count(),
        ensures
            final(self).wf(),
            final(self).sub_count() == old(self).sub_count(),
            final(self).capacity() == old(self).capacity(),
            final(self).log() == old(self).log(),
            !final(self).is_active(id as int),
            final(self).backlog(id as int) == Seq::<Seq<char>>::empty(),
            forall|k: int|
                0 <= k < old(self).sub_count() && k != id ==> final(self).is_active(k) == old(self).is_active(k) && final(self).backlog(k) == old(self).backlog(k) && final(self).missed(k) == old(self).missed(k),
    {
        self.subs.remove(id);
        self.subs.insert(id, Subscriber { active: false, queue: Vec::new(), missed: 0 });
        proof {
            assert(final(self).backlog(id as int) =~= Seq::<Seq<char>>::empty());
            assert forall|k: int| 0 <= k < old(self).sub_count() && k != id implies final(self).is_active(k) == old(self).is_active(k) && final(self).backlog(k) == old(self).backlog(k) && final(self).missed(k) == old(self).missed(k) by {
                assert(self.subs@[k] == old(self).subs@[k]);
            }
        }
    }

    /// Publishes one message to every live subscriber. Total and
    /// non-blocking: each live backlog takes [`publish_effect`] of its own
    /// prior contents alone, so one full backlog means loss for that
    /// subscriber only and delay for nobody.
    pub fn publish(&mut self, msg: String)
        requires
            old(self).wf(),
        ensures
            final(self).wf(),
            final(self).sub_count() == old(self).sub_count(),
            final(self).capacity() == old(self).capacity(),
            final(self).log() == old(self).log() + seq![msg@],
            forall|k: int|
                0 <= k < old(self).sub_count() ==> final(self).is_active(k) == old(self).is_active(k),
            forall|k: int|
                0 <= k < old(self).sub_count() && old(self).is_active(k) ==> final(self).backlog(k)
                    == publish_effect(old(self).backlog(k), msg@, old(self).capacity()),
            forall|k: int|
                0 <= k < old(self).sub_count() && old(self).is_active(k) ==> final(self).missed(k)
                    == (if old(self).backlog(k).len() < old(self).capacity() {
                    old(self).missed(k)
                } else {
                    sat_inc(old(self).missed(k))
                }),
            forall|k: int|
                0 <= k < old(self).sub_count() && !old(self).is_active(k) ==> final(self).backlog(
                    k,
                ) == old(self).backlog(k) && final(self).missed(k) == old(self).missed(k),
    {
        let ghost orig = *self;
        let mut k: usize = 0;
        while k < self.subs.len()
            invariant
                orig.wf(),
                k <= self.subs@.len(),
                self.cap == orig.cap,
                self.published == orig.published,
                self.subs@.len() == orig.subs@.len(),
                forall|j: int| k <= j < self.subs@.len() ==> self.subs@[j] == orig.subs@[j],
                forall|j: int|
                    0 <= j < k ==> (#[trigger] self.subs@[j]).active == orig.subs@[j].active,
                forall|j: int|
                    0 <= j < k && orig.subs@[j].active ==> queue_view(
                        (#[trigger] self.subs@[j]).queue@,
                    ) == publish_effect(queue_view(orig.subs@[j].queue@), msg@, orig.cap as int)
                        && self.subs@[j].queue@.len() <= orig.cap,
                forall|j: int|
                    0 <= j < k && orig.subs@[j].active ==> (#[trigger] self.subs@[j]).missed == (
                    if orig.subs@[j].queue@.len() < orig.cap {
                        orig.subs@[j].missed
                    } else {
                        sat_inc(orig.subs@[j].missed)
                    }),
                forall|j: int|
                    0 <= j < k && !orig.subs@[j].active ==> self.subs@[j] == orig.subs@[j],
            decreases self.subs@.len() - k,
        {
            let ghost subs_before = self.subs@;
            let mut sub = self.subs.remove(k);
            proof {
                assert(sub == orig.subs@[k as int]);
                assert(queue_view(orig.subs@[k as int].queue@).len() == orig.subs@[
                    k as int
                ].queue@.len());
                assert(orig.backlog(k as int) == queue_view(orig.subs@[k as int].queue@));
            }
            if sub.active {
                let ghost q_before = sub.queue@;
                if sub.queue.len() >= self.cap {
                    sub.queue.remove(0);
                    sub.missed = sub.missed.saturating_add(1);
                }
                sub.queue.push(msg.clone());
                proof {
                    assert(queue_view(sub.queue@) =~= publish_effect(
                        queue_view(q_before),
                        msg@,
                        orig.cap as int,
                    ));
                }
            }
            self.subs.insert(k, sub);
            proof {
                assert(self.subs@ =~= subs_before.update(k as int, sub));
            }
            k = k + 1;
        }
        proof {
            self.published@ = self.published@ + seq![msg@];
        }
        proof {
            assert(orig == *old(self));
            assert forall|j: int|
                0 <= j < self.sub_count() && self.is_active(j) implies #[trigger] self.backlog(j)
                =~= self.log().subrange(
                self.log().len() - self.backlog(j).len(),
                self.log().len() as int,
            ) by {
                assert(orig.subs@[j].active);
                let oldb = queue_view(orig.subs@[j].queue@);
                let n = oldb.len();
                let oldlog = orig.published@;
                let len = oldlog.len();
                assert(orig.backlog(j) == oldb);
                assert(oldb =~= oldlog.subrange(len - n, len as int));
                let newb = self.backlog(j);
                assert(newb == publish_effect(oldb, msg@, orig.cap as int));
                assert(self.log() =~= oldlog + seq![msg@]);
                if n < orig.cap {
                    assert(newb =~= oldb + seq![msg@]);
                    assert forall|i: int| 0 <= i < n + 1 implies #[trigger] newb[i]
                        == self.log()[len + 1 - (n + 1) + i] by {
                        if i < n {
                            assert(newb[i] == oldb[i]);
                            assert(oldb[i] == oldlog[len - n + i]);
                            assert(self.log()[len - n + i] == oldlog[len - n + i]);
                        } else {
                            assert(newb[i] == msg@);
                            assert(self.log()[len as int] == msg@);
                        }
                    }
                } else {
                    assert(newb =~= oldb.subrange(1, n as int) + seq![msg@]);
                    assert forall|i: int| 0 <= i < n implies #[trigger] newb[i] == self.log()[len
                        + 1 - n + i] by {
                        if i < n - 1 {
                            assert(newb[i] == oldb[i + 1]);
                            assert(oldb[i + 1] == oldlog[len - n + i + 1]);
                            assert(self.log()[len - n + i + 1] == oldlog[len - n + i + 1]);
                        } else {
                            assert(newb[i] == msg@);
                            assert(self.log()[len as int] == msg@);
                        }
                    }
                }
            }
            assert forall|j: int| 0 <= j < self.sub_count() implies (#[trigger] self.backlog(
                j,
            )).len() <= self.capacity() by {
                if orig.subs@[j].active {
                    assert(queue_view(self.subs@[j].queue@).len() == self.subs@[j].queue@.len());
                } else {
                    assert(self.subs@[j] == orig.subs@[j]);
                    assert(orig.backlog(j).len() <= orig.capacity());
                }
            }
            assert forall|j: int|
                0 <= j < old(self).sub_count() && old(self).is_active(j) implies final(self).backlog(j) == publish_effect(old(self).backlog(j), msg@, old(self).capacity()) by {
                assert(old(self).backlog(j) == queue_view(orig.subs@[j].queue@));
            }
            assert forall|j: int|
                0 <= j < old(self).sub_count() && !old(self).is_active(j) implies final(self).backlog(j) == old(self).backlog(j) && final(self).missed(j) == old(self).missed(
                j,
            ) by {
                assert(self.subs@[j] == orig.subs@[j]);
            }
        }
    }

    /// One receive step for subscriber `id`: a lag report if messages were
    /// lost since the last drain, else the oldest pending message, else
    /// nothing.
    pub fn recv(&mut self, id: usize) -> (out: RecvOutcome)
        requires
            old(self).wf(),
            0 <= id < old(self).sub_count(),
        ensures
            final(self).wf(),
            final(self).sub_count() == old(self).sub_count(),
            final(self).capacity() == old(self).capacity(),
            final(self).log() == old(self).log(),
            final(self).is_active(id as int) == old(self).is_active(id as int),
            forall|k: int|
                0 <= k < old(self).sub_count() && k != id ==> final(self).is_active(k) == old(self).is_active(k) && final(self).backlog(k) == old(self).backlog(k) && final(self).missed(k) == old(self).missed(k),
            match out {
                RecvOutcome::Lagged(n) => n == old(self).missed(id as int) && n > 0 && final(self).missed(id as int) == 0 && final(self).backlog(id as int) == old(self).backlog(
                    id as int,
                ),
                RecvOutcome::Message(m) => old(self).missed(id as int) == 0 && old(self).backlog(
                    id as int,
                ).len() > 0 && m@ == old(self).backlog(id as int)[0] && final(self).backlog(
                    id as int,
                ) == old(self).backlog(id as int).drop_first() && final(self).missed(id as int)
                    == 0,
                RecvOutcome::Empty => old(self).missed(id as int) == 0 && old(self).backlog(
                    id as int,
                ).len() == 0 && final(self).backlog(id as int) == old(self).backlog(id as int)
                    && final(self).missed(id as int) == 0,
            },
    {
        let ghost subs_before = self.subs@;
        let mut sub = self.subs.remove(id);
        proof {
            assert(sub == old(self).subs@[id as int]);
        }
        let out: RecvOutcome;
        if sub.missed > 0 {
            let n = sub.missed;
            sub.missed = 0;
            out = RecvOutcome::Lagged(n);
        } else if sub.queue.len() > 0 {
            let ghost q_before = sub.queue@;
            let m = sub.queue.remove(0);
            proof {
                assert(queue_view(q_before) == old(self).backlog(id as int));
                assert(queue_view(sub.queue@) =~= queue_view(q_before).drop_first());
            }
            out = RecvOutcome::Message(m);
        } else {
            out = RecvOutcome::Empty;
        }
        proof {
            assert(queue_view(sub.queue@) == old(self).backlog(id as int) || queue_view(
                sub.queue@,
            ) == old(self).backlog(id as int).drop_first());
        }
        self.subs.insert(id, sub);
        proof {
            assert(self.subs@ =~= subs_before.update(id as int, sub));
            assert(self.backlog(id as int) == queue_view(sub.queue@));
            assert forall|k: int| 0 <= k < self.sub_count() && k != id implies self.backlog(k)
                == old(self).backlog(k) && self.is_active(k) == old(self).is_active(k)
                && self.missed(k) == old(self).missed(k) by {
                assert(self.subs@[k] == old(self).subs@[k]);
            }
            assert forall|k: int| 0 <= k < self.sub_count() implies (#[trigger] self.backlog(
                k,
            )).len() <= self.capacity() by {
                assert(old(self).backlog(k).len() <= old(self).capacity());
            }
            assert forall|k: int| 0 <= k < self.sub_count() && self.is_active(k) implies #[trigger] self.backlog(k)
                =~= self.log().subrange(
                self.log().len() - self.backlog(k).len(),
                self.log().len() as int,
            ) by {
                assert(old(self).is_active(k));
                assert(old(self).backlog(k) =~= old(self).log().subrange(
                    old(self).log().len() - old(self).backlog(k).len(),
                    old(self).log().len() as int,
                ));
                if k == id && self.backlog(k) != old(self).backlog(k) {
                    assert(self.backlog(k) == old(self).backlog(k).drop_first());
                    assert(old(self).backlog(k).len() > 0);
                    let n = old(self).backlog(k).len();
                    let len = old(self).log().len();
                    assert forall|i: int| 0 <= i < n - 1 implies #[trigger] self.backlog(k)[i]
                        == self.log()[len - (n - 1) + i] by {
                        assert(self.backlog(k)[i] == old(self).backlog(k)[i + 1]);
                        assert(old(self).backlog(k)[i + 1] == old(self).log()[len - n + i + 1]);
                    }
                }
            }
        }
        out
    }

    /// Delivery order equals publish order: a live backlog is exactly the
    /// most recent stretch of the publish log that the subscriber has
    /// neither consumed nor lost; in particular it holds no reordering and
    /// no foreign entries.
    pub proof fn lemma_backlog_suffix(&self, k: int)
        requires
            self.wf(),
            0 <= k < self.sub_count(),
            self.is_active(k),
        ensures
            self.backlog(k) =~= self.log().subrange(
                self.log().len() - self.backlog(k).len(),
                self.log().len() as int,
            ),
            self.backlog(k).len() <= self.capacity(),
    {
    }
}

/// Publish never blocks and never skips a live subscriber: whatever any
/// backlog holds, the effect of a publish on one subscriber appends the
/// message for that subscriber, keeps its bound, and is computed from that
/// subscriber's own backlog alone — a subscriber that stopped draining
/// affects nobody but itself.
pub proof fn lemma_publish_delivers(backlog: Seq<Seq<char>>, msg: Seq<char>, cap: int)
    requires
        cap >= 1,
        backlog.len() <= cap,
    ensures
        publish_effect(backlog, msg, cap).len() <= cap,
        publish_effect(backlog, msg, cap).last() == msg,
        backlog.len() < cap ==> publish_effect(backlog, msg, cap).drop_last() == backlog,
        backlog.len() == cap ==> publish_effect(backlog, msg, cap).drop_last()
            == backlog.drop_first(),
{
    if backlog.len() < cap {
        assert(publish_effect(backlog, msg, cap).drop_last() =~= backlog);
    } else {
        assert(publish_effect(backlog, msg, cap).drop_last() =~= backlog.drop_first());
    }
}

} // verus!
