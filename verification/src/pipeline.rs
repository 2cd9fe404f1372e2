//! The migration pipeline: a dispatcher feeding a fixed pool of workers
//! through bounded queues.
//!
//! [`Migration`] is the pipeline's state, advanced one event at a time:
//! [`Migration::enqueue`] hands the next source record to the worker chosen
//! by round robin, [`Migration::worker_write`] lets a worker move its oldest
//! queued record into the destination, [`Migration::record_failure`] notes a
//! fatal store error, and [`Migration::finish`] closes the run. The
//! well-formedness invariant carries the two central guarantees: records in
//! flight never exceed `worker_count * queue_capacity` (backpressure), and
//! the records sent are exactly the records written plus the records still
//! queued (nothing lost, nothing invented). [`run`] drives a whole migration
//! in process; a host that spreads the workers over threads performs the
//! same events and inherits the same bounds.

use vstd::prelude::*;
use vstd::multiset::Multiset;

use crate::errors::HubError;

verus! {

broadcast use vstd::multiset::group_multiset_axioms, vstd::seq_lib::group_to_multiset_ensures;

/// One record of the source store: an opaque key and an opaque value, never
/// mutated, only relocated.
#[derive(Debug)]
pub struct Record {
    pub key: Vec<u8>,
    pub value: Vec<u8>,
}

impl View for Record {
    type V = (Seq<u8>, Seq<u8>);

    open spec fn view(&self) -> (Seq<u8>, Seq<u8>) {
        (self.key@, self.value@)
    }
}

/// The key/value views of a sequence of records.
pub open spec fn rec_views(s: Seq<Record>) -> Seq<(Seq<u8>, Seq<u8>)> {
    s.map_values(|r: Record| r@)
}

/// The records of `s` as a multiset of key/value pairs: the order-free
/// contents of a queue or of the destination.
pub open spec fn rec_ms(s: Seq<Record>) -> Multiset<(Seq<u8>, Seq<u8>)> {
    rec_views(s).to_multiset()
}

/// The contents of all worker queues together.
pub open spec fn queues_ms(qs: Seq<Vec<Record>>) -> Multiset<(Seq<u8>, Seq<u8>)>
    decreases qs.len(),
{
    if qs.len() == 0 {
        Multiset::empty()
    } else {
        queues_ms(qs.drop_last()).add(rec_ms(qs.last()@))
    }
}

proof fn lemma_rec_ms_push(s: Seq<Record>, r: Record)
    ensures
        rec_ms(s.push(r)) == rec_ms(s).insert(r@),
{
    assert(rec_views(s.push(r)) =~= rec_views(s).push(r@));
    assert(rec_ms(s.push(r)) =~= rec_ms(s).insert(r@));
}

proof fn lemma_rec_ms_remove0(s: Seq<Record>)
    requires
        s.len() > 0,
    ensures
        rec_ms(s) == rec_ms(s.remove(0)).insert(s[0]@),
{
    assert(rec_views(s.remove(0)) =~= rec_views(s).remove(0));
    let vs = rec_views(s);
    assert(vs.remove(0).to_multiset() =~= vs.to_multiset().remove(vs[0]));
    assert(vs.to_multiset().count(vs[0]) > 0) by {
        assert(vs.contains(vs[0]));
    }
    assert(rec_ms(s.remove(0)).insert(s[0]@) =~= rec_ms(s));
}

proof fn lemma_rec_ms_len(s: Seq<Record>)
    ensures
        rec_ms(s).len() == s.len(),
{
    assert(rec_views(s).len() == s.len());
}

proof fn lemma_queues_ms_all_empty(qs: Seq<Vec<Record>>)
    requires
        forall|i: int| 0 <= i < qs.len() ==> #[trigger] qs[i]@.len() == 0,
    ensures
        queues_ms(qs) == Multiset::<(Seq<u8>, Seq<u8>)>::empty(),
    decreases qs.len(),
{
    if qs.len() > 0 {
        lemma_queues_ms_all_empty(qs.drop_last());
        assert(qs.last()@.len() == 0);
        assert(rec_views(qs.last()@) =~= Seq::<(Seq<u8>, Seq<u8>)>::empty());
        lemma_rec_ms_len(qs.last()@);
        assert(rec_ms(qs.last()@) =~= Multiset::<(Seq<u8>, Seq<u8>)>::empty());
        assert(queues_ms(qs) =~= Multiset::<(Seq<u8>, Seq<u8>)>::empty());
    }
}

proof fn lemma_queues_ms_update_insert(
    qs: Seq<Vec<Record>>,
    i: int,
    v: Vec<Record>,
    x: (Seq<u8>, Seq<u8>),
)
    requires
        0 <= i < qs.len(),
        rec_ms(v@) == rec_ms(qs[i]@).insert(x),
    ensures
        queues_ms(qs.update(i, v)) == queues_ms(qs).insert(x),
    decreases qs.len(),
{
    let qs2 = qs.update(i, v);
    if i == qs.len() - 1 {
        assert(qs2.drop_last() =~= qs.drop_last());
        assert(qs2.last() == v);
        assert(queues_ms(qs2) =~= queues_ms(qs).insert(x));
    } else {
        assert(qs2.drop_last() =~= qs.drop_last().update(i, v));
        assert(qs2.last() == qs.last());
        lemma_queues_ms_update_insert(qs.drop_last(), i, v, x);
        assert(queues_ms(qs2) =~= queues_ms(qs).insert(x));
    }
}

proof fn lemma_queues_ms_update_remove(
    qs: Seq<Vec<Record>>,
    i: int,
    v: Vec<Record>,
    x: (Seq<u8>, Seq<u8>),
)
    requires
        0 <= i < qs.len(),
        rec_ms(qs[i]@) == rec_ms(v@).insert(x),
    ensures
        queues_ms(qs) == queues_ms(qs.update(i, v)).insert(x),
{
    let qs2 = qs.update(i, v);
    lemma_queues_ms_update_insert(qs2, i, qs[i], x);
    assert(qs2.update(i, qs[i]) =~= qs);
}

proof fn lemma_queues_ms_len_bound(qs: Seq<Vec<Record>>, cap: int)
    requires
        0 <= cap,
        forall|i: int| 0 <= i < qs.len() ==> #[trigger] qs[i]@.len() <= cap,
    ensures
        queues_ms(qs).len() <= qs.len() * cap,
    decreases qs.len(),
{
    if qs.len() == 0 {
        assert(queues_ms(qs).len() == 0);
    } else {
        lemma_queues_ms_len_bound(qs.drop_last(), cap);
        lemma_rec_ms_len(qs.last()@);
        assert((qs.len() - 1) * cap + cap == qs.len() * cap) by (nonlinear_arith);
    }
}

proof fn lemma_queues_ms_nonempty(qs: Seq<Vec<Record>>, i: int)
    requires
        0 <= i < qs.len(),
        qs[i]@.len() > 0,
    ensures
        queues_ms(qs).len() > 0,
    decreases qs.len(),
{
    lemma_rec_ms_len(qs.last()@);
    if i == qs.len() - 1 {
    } else {
        lemma_queues_ms_nonempty(qs.drop_last(), i);
    }
}

/// Default worker pool size.
pub const DEFAULT_WORKER_COUNT: usize = 8;

/// Default bounded capacity of each worker's queue.
pub const DEFAULT_QUEUE_CAPACITY: usize = 2048;

/// Default number of records between two throughput samples.
pub const DEFAULT_PROGRESS_INTERVAL: usize = 500000;

/// The tunables of one migration run.
#[derive(Clone, Copy, Debug, PartialEq, Eq, Structural)]
pub struct PipelineConfig {
    pub worker_count: usize,
    pub queue_capacity: usize,
    pub progress_interval: usize,
}

impl PipelineConfig {
    /// Every knob must be positive: no workers, unbounded queues or a zero
    /// sampling interval make no pipeline.
    pub open spec fn valid(self) -> bool {
        self.worker_count > 0 && self.queue_capacity > 0 && self.progress_interval > 0
    }

    /// A validated configuration; rejected exactly when some knob is zero.
    pub fn new(worker_count: usize, queue_capacity: usize, progress_interval: usize) -> (r: Result<
        Self,
        HubError,
    >)
        ensures
            r matches Ok(c) ==> c.valid() && c.worker_count == worker_count && c.queue_capacity
                == queue_capacity && c.progress_interval == progress_interval,
            r is Ok <==> (worker_count > 0 && queue_capacity > 0 && progress_interval > 0),
            r is Err ==> r == Err::<Self, HubError>(HubError::Validation),
    {
        if worker_count == 0 || queue_capacity == 0 || progress_interval == 0 {
            return Err(HubError::Validation);
        }
        Ok(PipelineConfig { worker_count, queue_capacity, progress_interval })
    }
}

/// The state of one migration run, advanced event by event.
pub struct Migration {
    pub config: PipelineConfig,
    pub queues: Vec<Vec<Record>>,
    pub sink: Vec<Record>,
    pub dispatched: usize,
    pub failed: bool,
    pub sent: Ghost<Multiset<(Seq<u8>, Seq<u8>)>>,
}

impl Migration {
    /// Well-formedness: one bounded queue per worker, and conservation — the
    /// records sent are exactly the records written plus the records queued.
    pub open spec fn wf(self) -> bool {
        &&& self.config.valid()
        &&& self.queues@.len() == self.config.worker_count
        &&& (forall|i: int|
            0 <= i < self.queues@.len() ==> (#[trigger] self.queues@[i]@.len())
                <= self.config.queue_capacity)
        &&& self.sent@ == queues_ms(self.queues@).add(rec_ms(self.sink@))
        &&& self.dispatched == self.sent@.len()
    }

    /// How many records have been dispatched but not yet written.
    pub open spec fn in_flight(self) -> nat {
        queues_ms(self.queues@).len()
    }

    /// A fresh run: empty queues, empty destination, nothing sent.
    pub fn new(config: PipelineConfig) -> (m: Migration)
        requires
            config.valid(),
        ensures
            m.wf(),
            m.config == config,
            m.dispatched == 0,
            m.failed == false,
            m.sink@.len() == 0,
            m.sent@ == Multiset::<(Seq<u8>, Seq<u8>)>::empty(),
            m.in_flight() == 0,
    {
        let mut queues: Vec<Vec<Record>> = Vec::new();
        let mut i: usize = 0;
        while i < config.worker_count
            invariant
                i <= config.worker_count,
                queues@.len() == i,
                forall|j: int| 0 <= j < i ==> #[trigger] queues@[j]@.len() == 0,
            decreases config.worker_count - i,
        {
            queues.push(Vec::new());
            i += 1;
        }
        let sink: Vec<Record> = Vec::new();
        proof {
            lemma_queues_ms_all_empty(queues@);
            lemma_rec_ms_len(sink@);
            assert(rec_ms(sink@) =~= Multiset::<(Seq<u8>, Seq<u8>)>::empty());
            assert(Multiset::<(Seq<u8>, Seq<u8>)>::empty() =~= queues_ms(queues@).add(
                rec_ms(sink@),
            ));
        }
        Migration {
            config,
            queues,
            sink,
            dispatched: 0,
            failed: false,
            sent: Ghost(Multiset::empty()),
        }
    }

    /// The worker the next record goes to: pure round robin over the running
    /// dispatch counter.
    pub fn next_worker(&self) -> (i: usize)
        requires
            self.wf(),
        ensures
            i == self.dispatched % self.config.worker_count,
            i < self.config.worker_count,
    {
        crate::round_robin_worker(self.dispatched, self.config.worker_count)
    }

    /// How many records worker `i` has queued.
    pub fn queue_len(&self, i: usize) -> (n: usize)
        requires
            self.wf(),
            i < self.config.worker_count,
        ensures
            n == self.queues@[i as int]@.len(),
    {
        self.queues[i].len()
    }

    /// Whether worker `i`'s queue is at capacity: a dispatch to it must wait.
    pub fn queue_full(&self, i: usize) -> (full: bool)
        requires
            self.wf(),
            i < self.config.worker_count,
        ensures
            full == (self.queues@[i as int]@.len() == self.config.queue_capacity),
    {
        self.queues[i].len() == self.config.queue_capacity
    }

    /// Hand the next record to the round-robin worker. The target queue must
    /// be below capacity: a host mirrors the blocking send by draining the
    /// queue first. Once a failure is recorded, nothing more is dispatched.
    pub fn enqueue(&mut self, rec: Record) -> (r: Result<usize, HubError>)
        requires
            old(self).wf(),
            old(self).dispatched < usize::MAX,
            old(self).queues@[old(self).dispatched as int % old(self).config.worker_count as int]@.len()
                < old(self).config.queue_capacity,
        ensures
            final(self).wf(),
            final(self).config == old(self).config,
            old(self).failed ==> r == Err::<usize, HubError>(HubError::StoreIo) && *final(self)
                == *old(self),
            !old(self).failed ==> (r matches Ok(i) && ({
                &&& i == old(self).dispatched % old(self).config.worker_count
                &&& final(self).failed == false
                &&& final(self).dispatched == old(self).dispatched + 1
                &&& final(self).sent@ == old(self).sent@.insert(rec@)
                &&& final(self).sink@ == old(self).sink@
                &&& final(self).queues@.len() == old(self).queues@.len()
                &&& final(self).queues@[i as int]@ == old(self).queues@[i as int]@.push(rec)
                &&& forall|j: int|
                    0 <= j < old(self).queues@.len() && j != i ==> final(self).queues@[j] == old(self).queues@[j]
                &&& final(self).in_flight() == old(self).in_flight() + 1
            })),
    {
        if self.failed {
            return Err(HubError::StoreIo);
        }
        let i = crate::round_robin_worker(self.dispatched, self.config.worker_count);
        let ghost grec = rec;
        let mut q: Vec<Record> = Vec::new();
        self.queues.set_and_swap(i, &mut q);
        q.push(rec);
        self.queues.set_and_swap(i, &mut q);
        self.dispatched = self.dispatched + 1;
        proof {
            self.sent@ = old(self).sent@.insert(grec@);
            assert(self.queues@ =~= old(self).queues@.update(
                i as int,
                self.queues@[i as int],
            ));
            lemma_rec_ms_push(old(self).queues@[i as int]@, grec);
            lemma_queues_ms_update_insert(
                old(self).queues@,
                i as int,
                self.queues@[i as int],
                grec@,
            );
            assert(self.sent@ =~= queues_ms(self.queues@).add(rec_ms(self.sink@)));
        }
        Ok(i)
    }

    /// One worker step: move the oldest record queued for worker `i` into
    /// the destination. Returns whether anything was queued to write.
    pub fn worker_write(&mut self, i: usize) -> (wrote: bool)
        requires
            old(self).wf(),
            i < old(self).config.worker_count,
        ensures
            final(self).wf(),
            final(self).config == old(self).config,
            final(self).failed == old(self).failed,
            final(self).dispatched == old(self).dispatched,
            final(self).sent == old(self).sent,
            final(self).queues@.len() == old(self).queues@.len(),
            wrote == (old(self).queues@[i as int]@.len() > 0),
            !wrote ==> final(self).queues@ == old(self).queues@ && final(self).sink@
                == old(self).sink@,
            wrote ==> ({
                &&& final(self).queues@[i as int]@ == old(self).queues@[i as int]@.remove(0)
                &&& forall|j: int|
                    0 <= j < old(self).queues@.len() && j != i ==> final(self).queues@[j] == old(self).queues@[j]
                &&& final(self).sink@ == old(self).sink@.push(old(self).queues@[i as int]@[0])
                &&& final(self).in_flight() + 1 == old(self).in_flight()
            }),
    {
        let mut q: Vec<Record> = Vec::new();
        self.queues.set_and_swap(i, &mut q);
        if q.len() == 0 {
            self.queues.set_and_swap(i, &mut q);
            proof {
                assert(self.queues@ =~= old(self).queues@);
            }
            return false;
        }
        let rec = q.remove(0);
        let ghost grec = rec;
        self.queues.set_and_swap(i, &mut q);
        self.sink.push(rec);
        proof {
            assert(self.queues@ =~= old(self).queues@.update(i as int, self.queues@[i as int]));
            lemma_rec_ms_remove0(old(self).queues@[i as int]@);
            lemma_queues_ms_update_remove(
                old(self).queues@,
                i as int,
                self.queues@[i as int],
                grec@,
            );
            lemma_rec_ms_push(old(self).sink@, grec);
            assert(self.sent@ =~= queues_ms(self.queues@).add(rec_ms(self.sink@)));
        }
        true
    }

    /// Note a fatal write failure reported by a worker: the run is aborted,
    /// nothing is retried.
    pub fn record_failure(&mut self)
        requires
            old(self).wf(),
        ensures
            final(self).wf(),
            final(self).failed,
            final(self).config == old(self).config,
            final(self).dispatched == old(self).dispatched,
            final(self).sent == old(self).sent,
            final(self).queues == old(self).queues,
            final(self).sink == old(self).sink,
            final(self).in_flight() == old(self).in_flight(),
    {
        self.failed = true;
    }

    /// Close the run. Success is declared only when no failure was recorded
    /// and every queue has been drained; the destination then holds exactly
    /// the records sent.
    pub fn finish(self) -> (r: Result<Vec<Record>, HubError>)
        requires
            self.wf(),
        ensures
            self.failed ==> r == Err::<Vec<Record>, HubError>(HubError::StoreIo),
            !self.failed && self.in_flight() > 0 ==> r == Err::<Vec<Record>, HubError>(
                HubError::Pipeline,
            ),
            !self.failed && self.in_flight() == 0 ==> (r matches Ok(d) && d@ == self.sink@
                && rec_ms(d@) == self.sent@ && d@.len() == self.dispatched),
    {
        if self.failed {
            return Err(HubError::StoreIo);
        }
        let mut i: usize = 0;
        while i < self.queues.len()
            invariant
                self.wf(),
                self.failed == false,
                i <= self.queues@.len(),
                forall|j: int| 0 <= j < i ==> #[trigger] self.queues@[j]@.len() == 0,
            decreases self.queues@.len() - i,
        {
            if self.queues[i].len() > 0 {
                proof {
                    lemma_queues_ms_nonempty(self.queues@, i as int);
                }
                return Err(HubError::Pipeline);
            }
            i += 1;
        }
        proof {
            lemma_queues_ms_all_empty(self.queues@);
            lemma_rec_ms_len(self.sink@);
            assert(self.sent@ =~= rec_ms(self.sink@));
        }
        Ok(self.sink)
    }
}

/// Backpressure law: however the run is interleaved, the records in flight
/// never exceed `worker_count * queue_capacity`, and together with the
/// records already written they account for every record dispatched.
pub proof fn lemma_backpressure(m: Migration)
    requires
        m.wf(),
    ensures
        m.in_flight() <= m.config.worker_count * m.config.queue_capacity,
        m.in_flight() + m.sink@.len() == m.dispatched,
{
    lemma_queues_ms_len_bound(m.queues@, m.config.queue_capacity as int);
    lemma_rec_ms_len(m.sink@);
}

/// Completeness law: in any well-formed state whose queues are all drained,
/// the destination holds exactly the records dispatched — whatever
/// interleaving of dispatch and worker steps led there.
pub proof fn lemma_completeness(m: Migration)
    requires
        m.wf(),
        m.in_flight() == 0,
    ensures
        rec_ms(m.sink@) == m.sent@,
        m.sink@.len() == m.dispatched,
{
    lemma_rec_ms_len(m.sink@);
    assert(rec_ms(m.sink@) =~= m.sent@);
}

/// A whole migration, run in process: every source record is dispatched
/// round robin, a full target queue is drained first (the blocking send),
/// then all queues are drained and the run is closed. The destination holds
/// exactly the source records.
pub fn run(config: PipelineConfig, source: Vec<Record>) -> (r: Result<Vec<Record>, HubError>)
    requires
        config.valid(),
    ensures
        r matches Ok(d) && rec_ms(d@) == rec_ms(source@) && d@.len() == source@.len(),
{
    let ghost src0 = source@;
    let mut source = source;
    let total = source.len();
    let mut m = Migration::new(config);
    proof {
        assert(src0.len() == total);
        assert(rec_ms(src0) =~= m.sent@.add(rec_ms(source@)));
    }
    while source.len() > 0
        invariant
            m.wf(),
            !m.failed,
            m.config == config,
            rec_ms(src0) == m.sent@.add(rec_ms(source@)),
            m.dispatched + source@.len() == src0.len(),
            src0.len() <= usize::MAX,
        decreases source@.len(),
    {
        let ghost pre_src = source@;
        let rec = source.remove(0);
        let ghost grec = rec;
        let i = m.next_worker();
        if m.queue_full(i) {
            m.worker_write(i);
        }
        let _sent_to = m.enqueue(rec);
        proof {
            lemma_rec_ms_remove0(pre_src);
            assert(rec_ms(src0) =~= m.sent@.add(rec_ms(source@)));
        }
    }
    proof {
        lemma_rec_ms_len(source@);
        assert(rec_ms(source@) =~= Multiset::<(Seq<u8>, Seq<u8>)>::empty());
        assert(m.sent@ =~= rec_ms(src0));
    }
    let mut w: usize = 0;
    while w < config.worker_count
        invariant
            m.wf(),
            !m.failed,
            m.config == config,
            m.sent@ == rec_ms(src0),
            m.dispatched == src0.len(),
            w <= config.worker_count,
            forall|j: int| 0 <= j < w ==> #[trigger] m.queues@[j]@.len() == 0,
        decreases config.worker_count - w,
    {
        let mut n = m.queue_len(w);
        while n > 0
            invariant
                m.wf(),
                !m.failed,
                m.config == config,
                m.sent@ == rec_ms(src0),
                m.dispatched == src0.len(),
                w < config.worker_count,
                n == m.queues@[w as int]@.len(),
                forall|j: int| 0 <= j < w ==> #[trigger] m.queues@[j]@.len() == 0,
            decreases n,
        {
            m.worker_write(w);
            n = m.queue_len(w);
        }
        w += 1;
    }
    proof {
        lemma_queues_ms_all_empty(m.queues@);
        lemma_rec_ms_len(source@);
        assert(rec_ms(src0) =~= m.sent@);
    }
    m.finish()
}

} // verus!
