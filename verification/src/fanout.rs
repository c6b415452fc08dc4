//! The audit fan-out: a bounded, lossy publish-subscribe hub. Publishing is
//! total — it never fails, and with no subscribers the entry is silently
//! discarded. Each subscriber has one bounded FIFO buffer; when it is full,
//! the oldest buffered entry is dropped rather than holding the publisher
//! back. A new subscriber observes only entries published strictly after it
//! joined.

use vstd::prelude::*;
use crate::engine::LogEntry;

verus! {

/// One subscriber's buffer after a publish: the entry appended, the oldest
/// one dropped first when the buffer is already at the bound.
pub open spec fn spec_publish_one(q: Seq<LogEntry>, e: LogEntry, cap: nat) -> Seq<LogEntry> {
    if q.len() < cap {
        q.push(e)
    } else {
        q.drop_first().push(e)
    }
}

/// Every subscriber's buffer after one publish.
pub open spec fn spec_publish(qs: Seq<Seq<LogEntry>>, e: LogEntry, cap: nat) -> Seq<
    Seq<LogEntry>,
> {
    qs.map_values(|q: Seq<LogEntry>| spec_publish_one(q, e, cap))
}

/// Every subscriber's buffer after a run of publishes, in order.
pub open spec fn spec_publish_seq(qs: Seq<Seq<LogEntry>>, es: Seq<LogEntry>, cap: nat) -> Seq<
    Seq<LogEntry>,
>
    decreases es.len(),
{
    if es.len() == 0 {
        qs
    } else {
        spec_publish_seq(spec_publish(qs, es.first(), cap), es.drop_first(), cap)
    }
}

/// The hub: one bounded FIFO buffer per subscription, oldest entry first.
pub struct Hub {
    capacity: usize,
    queues: Vec<Vec<LogEntry>>,
}

impl Hub {
    /// The buffered entries of each subscriber, oldest first.
    pub closed spec fn sub_queues(&self) -> Seq<Seq<LogEntry>> {
        Seq::new(self.queues@.len(), |i: int| self.queues@[i]@)
    }

    /// The fixed bound on each subscriber's buffer.
    pub closed spec fn cap(&self) -> nat {
        self.capacity as nat
    }

    /// Well-formed: a positive bound that every buffer respects.
    pub open spec fn wf(&self) -> bool {
        &&& self.cap() >= 1
        &&& forall|i: int|
            0 <= i < self.sub_queues().len() ==> (#[trigger] self.sub_queues()[i]).len()
                <= self.cap()
    }

    /// A hub with the given per-subscriber bound and no subscribers yet.
    pub fn new(capacity: usize) -> (h: Hub)
        requires
            capacity >= 1,
        ensures
            h.wf(),
            h.cap() == capacity,
            h.sub_queues().len() == 0,
    {
        Hub { capacity, queues: Vec::new() }
    }

    /// Opens one more subscription and returns its handle. The new
    /// subscriber's buffer starts empty: no replay of anything published
    /// before this call.
    pub fn subscribe(&mut self) -> (id: usize)
        ensures
            final(self).cap() == old(self).cap(),
            final(self).sub_queues() == old(self).sub_queues().push(Seq::<LogEntry>::empty()),
            id == old(self).sub_queues().len(),
            old(self).wf() ==> final(self).wf(),
    {
        let id = self.queues.len();
        self.queues.push(Vec::new());
        proof {
            assert(self.sub_queues() =~= old(self).sub_queues().push(Seq::<LogEntry>::empty()));
        }
        id
    }

    /// Publishes one entry: appended to every subscriber's buffer, dropping
    /// that subscriber's oldest entry when the buffer is at the bound; with
    /// no subscribers the entry is discarded. Total: no failure to observe.
    pub fn publish(&mut self, e: &LogEntry)
        requires
            old(self).wf(),
        ensures
            final(self).wf(),
            final(self).cap() == old(self).cap(),
            final(self).sub_queues() == spec_publish(old(self).sub_queues(), *e, old(self).cap()),
    {
        let ghost qs0 = self.sub_queues();
        let n = self.queues.len();
        let mut new_queues: Vec<Vec<LogEntry>> = Vec::new();
        let mut j: usize = 0;
        while j < n
            invariant
                j <= n,
                self.capacity == old(self).capacity,
                self.queues == old(self).queues,
                self.wf(),
                qs0 == self.sub_queues(),
                n == self.queues@.len(),
                new_queues@.len() == j,
                forall|k: int|
                    0 <= k < j ==> (#[trigger] new_queues@[k])@ == spec_publish_one(
                        qs0[k],
                        *e,
                        old(self).cap(),
                    ),
            decreases n - j,
        {
            proof {
                assert(self.sub_queues()[j as int] == self.queues@[j as int]@);
            }
            let refreshed = push_bounded(&self.queues[j], e, self.capacity);
            new_queues.push(refreshed);
            j += 1;
        }
        self.queues = new_queues;
        proof {
            assert forall|k: int| 0 <= k < self.sub_queues().len() implies (
            #[trigger] self.sub_queues()[k]).len() <= self.cap() by {
                assert(self.sub_queues()[k] == spec_publish_one(qs0[k], *e, old(self).cap()));
            }
            assert(self.sub_queues() =~= spec_publish(qs0, *e, old(self).cap()));
        }
    }

    /// Takes the oldest buffered entry of subscriber `id`, if there is one.
    pub fn recv(&mut self, id: usize) -> (r: Option<LogEntry>)
        requires
            old(self).wf(),
            id < old(self).sub_queues().len(),
        ensures
            final(self).wf(),
            final(self).cap() == old(self).cap(),
            final(self).sub_queues().len() == old(self).sub_queues().len(),
            old(self).sub_queues()[id as int].len() == 0 ==> (r is None
                && final(self).sub_queues() == old(self).sub_queues()),
            old(self).sub_queues()[id as int].len() > 0 ==> (r == Some(
                old(self).sub_queues()[id as int].first(),
            ) && final(self).sub_queues() == old(self).sub_queues().update(
                id as int,
                old(self).sub_queues()[id as int].drop_first(),
            )),
    {
        let mut q = self.queues.remove(id);
        let r = if q.len() == 0 {
            None
        } else {
            Some(q.remove(0))
        };
        self.queues.insert(id, q);
        proof {
            if old(self).sub_queues()[id as int].len() == 0 {
                assert(self.sub_queues() =~= old(self).sub_queues());
            } else {
                assert(self.sub_queues() =~= old(self).sub_queues().update(
                    id as int,
                    old(self).sub_queues()[id as int].drop_first(),
                ));
            }
        }
        r
    }
}

/// A copy of `q` with `e` appended, the front dropped first when `q` is at
/// the bound.
fn push_bounded(q: &Vec<LogEntry>, e: &LogEntry, cap: usize) -> (r: Vec<LogEntry>)
    requires
        cap >= 1,
        q@.len() <= cap,
    ensures
        r@ == spec_publish_one(q@, *e, cap as nat),
{
    let start: usize = if q.len() == cap {
        1
    } else {
        0
    };
    let mut out: Vec<LogEntry> = Vec::new();
    let mut t: usize = start;
    while t < q.len()
        invariant
            q@.len() <= cap,
            start == if q@.len() < cap as nat {
                0int
            } else {
                1int
            },
            start <= t <= q@.len(),
            out@.len() == t - start,
            forall|k: int| 0 <= k < out@.len() ==> out@[k] == q@[start + k],
        decreases q@.len() - t,
    {
        out.push(q[t].clone());
        t += 1;
    }
    out.push(e.clone());
    proof {
        if q@.len() < cap as nat {
            assert(out@ =~= q@.push(*e));
        } else {
            assert(out@ =~= q@.drop_first().push(*e));
        }
    }
    out
}

/// After a run of publishes, a buffer with room for the whole run holds its
/// old content followed by the run, in publish order.
pub proof fn lemma_publish_run_buffer(qs: Seq<Seq<LogEntry>>, es: Seq<LogEntry>, cap: nat, id: int)
    requires
        0 <= id < qs.len(),
        qs[id].len() + es.len() <= cap,
    ensures
        spec_publish_seq(qs, es, cap).len() == qs.len(),
        spec_publish_seq(qs, es, cap)[id] == qs[id] + es,
    decreases es.len(),
{
    if es.len() == 0 {
        assert(qs[id] + es =~= qs[id]);
    } else {
        let qs1 = spec_publish(qs, es.first(), cap);
        assert(qs1[id] == spec_publish_one(qs[id], es.first(), cap));
        assert(qs1[id] == qs[id].push(es.first()));
        lemma_publish_run_buffer(qs1, es.drop_first(), cap, id);
        assert(qs[id].push(es.first()) + es.drop_first() =~= qs[id] + es);
    }
}

/// Law (no replay, delivery in order): a subscriber that joins after any
/// amount of published history starts with none of it, and after the next
/// run of publishes — up to the bound many — its buffer holds exactly that
/// run, in publish order.
pub proof fn lemma_subscribe_no_replay(qs: Seq<Seq<LogEntry>>, es: Seq<LogEntry>, cap: nat)
    requires
        es.len() <= cap,
    ensures
        spec_publish_seq(qs.push(Seq::<LogEntry>::empty()), es, cap).len() == qs.len() + 1,
        spec_publish_seq(qs.push(Seq::<LogEntry>::empty()), es, cap)[qs.len() as int] == es,
{
    let qs1 = qs.push(Seq::<LogEntry>::empty());
    lemma_publish_run_buffer(qs1, es, cap, qs.len() as int);
    assert(Seq::<LogEntry>::empty() + es =~= es);
}

} // verus!
