//! The bounded, lossy delivery channel between the collector and the
//! display store.
//!
//! The queue itself is crossbeam's bounded FIFO; both of its handles
//! live in one `DeliveryChannel` value, so the contents can be tracked
//! as a sequence. Delivery is best-effort and never blocks: `enqueue`
//! first evicts the oldest pending record when the queue is full, so a
//! long burst retains exactly the most recent `capacity` records.

use vstd::prelude::*;
use crossbeam_channel::{Receiver, Sender};
use crate::record::LogRecord;

verus! {

#[verifier::external_type_specification]
#[verifier::external_body]
#[verifier::reject_recursive_types(T)]
pub struct ExSender<T>(Sender<T>);

#[verifier::external_type_specification]
#[verifier::external_body]
#[verifier::reject_recursive_types(T)]
pub struct ExReceiver<T>(Receiver<T>);

/// Both handles of one bounded queue of records.
pub struct DeliveryChannel {
    tx: Sender<LogRecord>,
    rx: Receiver<LogRecord>,
}

/// The records pending in the queue, oldest first.
pub uninterp spec fn chan_contents(c: DeliveryChannel) -> Seq<LogRecord>;

/// The fixed capacity the queue was created with.
pub uninterp spec fn chan_capacity(c: DeliveryChannel) -> nat;

/// What always holds of a channel made by `DeliveryChannel::new`: the
/// queue never holds more than its capacity, and the capacity is at
/// least one.
pub open spec fn chan_wf(c: DeliveryChannel) -> bool {
    1 <= chan_capacity(c) && chan_contents(c).len() <= chan_capacity(c)
}

/// `q` with `rec` admitted at the back, the oldest record leaving first
/// when the queue already holds `cap` records.
pub open spec fn push_evict(q: Seq<LogRecord>, rec: LogRecord, cap: nat) -> Seq<LogRecord> {
    let q2 = q.push(rec);
    if q2.len() <= cap {
        q2
    } else {
        q2.subrange(q2.len() - cap, q2.len() as int)
    }
}

/// The queue after a whole burst of records was enqueued, first first.
pub open spec fn enqueue_all(q: Seq<LogRecord>, recs: Seq<LogRecord>, cap: nat) -> Seq<LogRecord>
    decreases recs.len(),
{
    if recs.len() == 0 {
        q
    } else {
        enqueue_all(push_evict(q, recs[0], cap), recs.drop_first(), cap)
    }
}

/// The last `n` elements of `s`, or all of `s` when it is shorter.
pub open spec fn last_n(s: Seq<LogRecord>, n: nat) -> Seq<LogRecord> {
    if s.len() <= n {
        s
    } else {
        s.subrange(s.len() - n, s.len() as int)
    }
}

impl DeliveryChannel {
    /// Relies on crossbeam_channel::bounded: a FIFO holding at most
    /// `capacity` messages, empty at first.
    #[verifier::external_body]
    pub fn new(capacity: usize) -> (c: DeliveryChannel)
        requires
            1 <= capacity,
        ensures
            chan_capacity(c) == capacity,
            chan_contents(c) == Seq::<LogRecord>::empty(),
    {
        let (tx, rx) = crossbeam_channel::bounded(capacity);
        DeliveryChannel { tx, rx }
    }

    /// Relies on crossbeam_channel::Receiver::len: the number of
    /// messages pending in the queue.
    #[verifier::external_body]
    pub fn pending(&self) -> (n: usize)
        ensures
            n == chan_contents(*self).len(),
    {
        self.rx.len()
    }

    /// Relies on crossbeam_channel::Receiver::is_full: whether the queue
    /// holds as many messages as its capacity.
    #[verifier::external_body]
    fn is_full(&self) -> (b: bool)
        ensures
            b == (chan_contents(*self).len() == chan_capacity(*self)),
    {
        self.rx.is_full()
    }

    /// Relies on crossbeam_channel::Sender::send: with room in the queue
    /// and the receiver half alive inside `self`, the message is placed
    /// at the back and the call returns at once.
    #[verifier::external_body]
    fn send_record(&mut self, rec: LogRecord)
        requires
            chan_contents(*old(self)).len() < chan_capacity(*old(self)),
        ensures
            chan_contents(*final(self)) == chan_contents(*old(self)).push(rec),
            chan_capacity(*final(self)) == chan_capacity(*old(self)),
    {
        let _ = self.tx.send(rec);
    }

    /// Relies on crossbeam_channel::Receiver::try_recv: takes the oldest
    /// pending message out of the queue, or returns nothing at once when
    /// the queue is empty.
    #[verifier::external_body]
    pub fn try_recv(&mut self) -> (r: Option<LogRecord>)
        ensures
            chan_capacity(*final(self)) == chan_capacity(*old(self)),
            match r {
                Some(rec) => chan_contents(*old(self)).len() > 0 && rec == chan_contents(
                    *old(self),
                )[0] && chan_contents(*final(self)) == chan_contents(*old(self)).drop_first(),
                None => chan_contents(*old(self)).len() == 0 && chan_contents(*final(self))
                    == chan_contents(*old(self)),
            },
    {
        self.rx.try_recv().ok()
    }

    /// Admits `rec`, evicting the oldest pending record first when the
    /// queue is full, and never blocking.
    pub fn enqueue(&mut self, rec: LogRecord)
        requires
            chan_wf(*old(self)),
        ensures
            chan_wf(*final(self)),
            chan_capacity(*final(self)) == chan_capacity(*old(self)),
            chan_contents(*final(self)) == push_evict(
                chan_contents(*old(self)),
                rec,
                chan_capacity(*old(self)),
            ),
    {
        if self.is_full() {
            let _ = self.try_recv();
        }
        self.send_record(rec);
        proof {
            assert(chan_contents(*self) =~= push_evict(
                chan_contents(*old(self)),
                rec,
                chan_capacity(*old(self)),
            ));
        }
    }
}

/// Prefixes that have already been pushed out do not matter: only the
/// last `cap` records fed to the queue decide what it holds.
proof fn lemma_last_n_concat(x: Seq<LogRecord>, y: Seq<LogRecord>, cap: nat)
    ensures
        last_n(last_n(x, cap) + y, cap) == last_n(x + y, cap),
{
    assert(last_n(last_n(x, cap) + y, cap) =~= last_n(x + y, cap));
}

/// A burst leaves the queue holding the last `cap` of what went before
/// plus the burst, in order.
proof fn lemma_enqueue_all_last(q: Seq<LogRecord>, recs: Seq<LogRecord>, cap: nat)
    requires
        q.len() <= cap,
        1 <= cap,
    ensures
        enqueue_all(q, recs, cap) == last_n(q + recs, cap),
    decreases recs.len(),
{
    if recs.len() == 0 {
        assert(q + recs =~= q);
    } else {
        let q1 = push_evict(q, recs[0], cap);
        assert(q1 =~= last_n(q.push(recs[0]), cap));
        lemma_enqueue_all_last(q1, recs.drop_first(), cap);
        lemma_last_n_concat(q.push(recs[0]), recs.drop_first(), cap);
        assert(q.push(recs[0]) + recs.drop_first() =~= q + recs);
    }
}

/// The channel retains exactly the most recent `cap` records: once a
/// burst of enqueues is at least as long as the capacity, the queue
/// afterwards holds exactly the burst's last `cap` records, in order,
/// whatever it held before.
pub proof fn lemma_channel_retains_last(q: Seq<LogRecord>, recs: Seq<LogRecord>, cap: nat)
    requires
        q.len() <= cap,
        1 <= cap,
        recs.len() >= cap,
    ensures
        enqueue_all(q, recs, cap) == recs.subrange(recs.len() - cap, recs.len() as int),
{
    lemma_enqueue_all_last(q, recs, cap);
    assert(last_n(q + recs, cap) =~= recs.subrange(recs.len() - cap, recs.len() as int));
}

} // verus!
