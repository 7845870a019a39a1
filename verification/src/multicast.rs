//! The broadcast hub: a single-owner fan-out actor that delivers every
//! published message to every registered subscriber, in publish order.
//! A subscriber registered after a publish never sees that earlier
//! message: there is no replay. The hub records the publish log and one
//! cursor per subscriber; the connection worker that owns a subscriber
//! drains its pending messages with `peek` / `advance`.

use vstd::prelude::*;

verus! {

/// One registration: where in the publish log the subscriber came in,
/// and how far it has been drained.
#[derive(Clone, Copy, PartialEq, Eq, Structural, Debug)]
struct Subscriber {
    registered_at: usize,
    delivered: usize,
}

/// The fan-out hub. `log` is every message ever published, in publish
/// order; each subscriber receives the suffix of `log` that follows its
/// registration point. The log is unbounded: publishers are never
/// blocked or dropped, at the cost of unbounded growth under sustained
/// overload.
pub struct Multicast<T> {
    log: Vec<T>,
    subs: Vec<Subscriber>,
}

impl<T> Multicast<T> {
    /// Cursors run from the registration point to the end of the log.
    pub closed spec fn wf(&self) -> bool {
        forall|i: int|
            0 <= i < self.subs@.len() ==> (#[trigger] self.subs@[i]).registered_at
                <= self.subs@[i].delivered <= self.log@.len()
    }

    /// Every message published so far, in publish order.
    pub closed spec fn log_seq(&self) -> Seq<T> {
        self.log@
    }

    /// Number of registered subscribers.
    pub closed spec fn sub_count(&self) -> nat {
        self.subs@.len()
    }

    /// Where subscriber `i` registered in the log.
    pub closed spec fn reg(&self, i: int) -> int {
        self.subs@[i].registered_at as int
    }

    /// How far subscriber `i` has been drained.
    pub closed spec fn cur(&self, i: int) -> int {
        self.subs@[i].delivered as int
    }

    /// Everything subscriber `i` receives: exactly the messages
    /// published after it registered, in publish order.
    pub open spec fn stream(&self, i: int) -> Seq<T> {
        self.log_seq().skip(self.reg(i))
    }

    /// The messages subscriber `i` has already been handed.
    pub open spec fn delivered(&self, i: int) -> Seq<T> {
        self.log_seq().subrange(self.reg(i), self.cur(i))
    }

    /// The messages still waiting for subscriber `i`.
    pub open spec fn pending(&self, i: int) -> Seq<T> {
        self.log_seq().skip(self.cur(i))
    }

    pub fn new() -> (r: Multicast<T>)
        ensures
            r.wf(),
            r.log_seq() =~= Seq::<T>::empty(),
            r.sub_count() == 0,
    {
        Multicast { log: Vec::new(), subs: Vec::new() }
    }

    /// Register one subscriber and hand back its handle. Registration
    /// never fails, and the new subscriber's stream starts empty: it
    /// only sees messages published after this call.
    pub fn push(&mut self) -> (id: usize)
        requires
            old(self).wf(),
        ensures
            final(self).wf(),
            subscribe_rel(*old(self), *final(self)),
            id == old(self).sub_count(),
    {
        let at = self.log.len();
        let id = self.subs.len();
        self.subs.push(Subscriber { registered_at: at, delivered: at });
        assert(final(self).log_seq().skip(at as int) =~= Seq::<T>::empty());
        id
    }

    /// Publish one message: it is appended to every current
    /// subscriber's stream, after everything published before it.
    pub fn send(&mut self, msg: T)
        requires
            old(self).wf(),
        ensures
            final(self).wf(),
            publish_rel(*old(self), *final(self), msg),
    {
        self.log.push(msg);
    }

    /// The next message waiting for subscriber `id`, if any.
    pub fn peek(&self, id: usize) -> (r: Option<&T>)
        requires
            self.wf(),
            id < self.sub_count(),
        ensures
            match r {
                Some(m) => self.pending(id as int).len() > 0 && *m == self.pending(id as int)[0],
                None => self.pending(id as int).len() == 0,
            },
    {
        proof {
            assert(self.subs@[id as int].registered_at <= self.subs@[id as int].delivered
                <= self.log@.len());
        }
        let c = self.subs[id].delivered;
        if c < self.log.len() {
            Some(&self.log[c])
        } else {
            None
        }
    }

    /// Mark the next pending message of subscriber `id` as handed over.
    pub fn advance(&mut self, id: usize)
        requires
            old(self).wf(),
            id < old(self).sub_count(),
            old(self).pending(id as int).len() > 0,
        ensures
            final(self).wf(),
            final(self).log_seq() == old(self).log_seq(),
            final(self).sub_count() == old(self).sub_count(),
            forall|j: int|
                0 <= j < old(self).sub_count() ==> final(self).reg(j) == old(self).reg(j),
            forall|j: int|
                0 <= j < old(self).sub_count() && j != id ==> final(self).cur(j) == old(self).cur(
                    j,
                ),
            final(self).cur(id as int) == old(self).cur(id as int) + 1,
            final(self).delivered(id as int) == old(self).delivered(id as int).push(
                old(self).pending(id as int)[0],
            ),
    {
        proof {
            assert(old(self).subs@[id as int].registered_at <= old(self).subs@[id as int].delivered
                <= old(self).log@.len());
        }
        let n = self.log.len();
        let s = self.subs[id];
        assert(s.delivered < n);
        self.subs[id] = Subscriber { registered_at: s.registered_at, delivered: s.delivered + 1 };
        assert(final(self).delivered(id as int) =~= old(self).delivered(id as int).push(
            old(self).pending(id as int)[0],
        ));
    }

    /// How many messages are waiting for subscriber `id`.
    pub fn pending_count(&self, id: usize) -> (n: usize)
        requires
            self.wf(),
            id < self.sub_count(),
        ensures
            n == self.pending(id as int).len(),
    {
        proof {
            assert(self.subs@[id as int].registered_at <= self.subs@[id as int].delivered
                <= self.log@.len());
        }
        self.log.len() - self.subs[id].delivered
    }
}

/// What registering a subscriber does: the log and every existing
/// subscriber are untouched, and one subscriber is added whose stream
/// starts at the current end of the log.
pub open spec fn subscribe_rel<T>(o: Multicast<T>, n: Multicast<T>) -> bool {
    &&& n.log_seq() == o.log_seq()
    &&& n.sub_count() == o.sub_count() + 1
    &&& forall|j: int| 0 <= j < o.sub_count() ==> n.reg(j) == o.reg(j) && n.cur(j) == o.cur(j)
    &&& n.reg(o.sub_count() as int) == o.log_seq().len()
    &&& n.cur(o.sub_count() as int) == o.log_seq().len()
}

/// What publishing does: the message goes on the end of the log and no
/// subscriber state changes, so it lands at the end of the stream of
/// every subscriber registered before it, and in no other stream.
pub open spec fn publish_rel<T>(o: Multicast<T>, n: Multicast<T>, msg: T) -> bool {
    &&& n.log_seq() == o.log_seq().push(msg)
    &&& n.sub_count() == o.sub_count()
    &&& forall|j: int| 0 <= j < o.sub_count() ==> n.reg(j) == o.reg(j) && n.cur(j) == o.cur(j)
}

/// Replay-free ordering: with subscriber `s1` registered before a
/// publish of `p1`, and `s2` registered between that and a publish of
/// `p2`, subscriber `s1`'s stream ends with `p1` then `p2` in publish
/// order, while `s2`'s stream holds `p2` only — it never sees the
/// earlier `p1`.
pub proof fn lemma_broker_replay_free<T>(
    m0: Multicast<T>,
    m1: Multicast<T>,
    m2: Multicast<T>,
    m3: Multicast<T>,
    m4: Multicast<T>,
    p1: T,
    p2: T,
)
    requires
        subscribe_rel(m0, m1),
        publish_rel(m1, m2, p1),
        subscribe_rel(m2, m3),
        publish_rel(m3, m4, p2),
    ensures
        m4.stream(m0.sub_count() as int) == Seq::<T>::empty().push(p1).push(p2),
        m4.stream(m2.sub_count() as int) == Seq::<T>::empty().push(p2),
{
    let s1 = m0.sub_count() as int;
    let s2 = m2.sub_count() as int;
    assert(m4.reg(s1) == m0.log_seq().len());
    assert(m4.reg(s2) == m2.log_seq().len());
    assert(m4.log_seq() == m0.log_seq().push(p1).push(p2));
    assert(m4.stream(s1) =~= Seq::<T>::empty().push(p1).push(p2));
    assert(m4.stream(s2) =~= Seq::<T>::empty().push(p2));
}

} // verus!
