use vstd::prelude::*;
use vstd::slice::slice_to_vec;

verus! {

/// Why a record was not queued; the channel is then left unchanged.
#[derive(Debug, Clone, Copy, PartialEq, Eq, Structural)]
pub enum OutputError {
    /// The worker id is not one of the channel's workers.
    NoSuchWorker,
    /// The worker's queue already holds its maximum number of records.
    Full,
}

/// One bounded FIFO queue of fixed-size records per worker, each drained by
/// its own consumer. Order is kept within a queue, never across queues.
pub struct PerfChannel {
    record_size: usize,
    queue_capacity: usize,
    queues: Vec<Vec<Vec<u8>>>,
}

impl PerfChannel {
    pub closed spec fn record_size(&self) -> nat {
        self.record_size as nat
    }

    /// Most records one worker's queue can hold.
    pub closed spec fn queue_capacity(&self) -> nat {
        self.queue_capacity as nat
    }

    /// For each worker, its queued records, oldest first.
    pub closed spec fn queues(&self) -> Seq<Seq<Seq<u8>>> {
        self.queues@.map_values(|q: Vec<Vec<u8>>| q@.map_values(|r: Vec<u8>| r@))
    }

    pub open spec fn workers(&self) -> nat {
        self.queues().len()
    }

    pub open spec fn wf(&self) -> bool {
        &&& forall|w: int| 0 <= w < self.workers() ==> #[trigger] self.queues()[w].len()
            <= self.queue_capacity()
        &&& forall|w: int, i: int|
            0 <= w < self.workers() && 0 <= i < self.queues()[w].len() ==> #[trigger] self.queues()[w][i].len()
                == self.record_size()
    }

    /// Number of workers.
    pub fn workers_count(&self) -> (r: usize)
        ensures
            r == self.workers(),
    {
        self.queues.len()
    }

    /// A channel with an empty queue for each of `workers` workers.
    pub fn new(workers: usize, queue_capacity: usize, record_size: usize) -> (r: PerfChannel)
        ensures
            r.wf(),
            r.workers() == workers,
            r.queue_capacity() == queue_capacity,
            r.record_size() == record_size,
            forall|w: int| 0 <= w < workers ==> #[trigger] r.queues()[w].len() == 0,
    {
        let mut queues: Vec<Vec<Vec<u8>>> = Vec::with_capacity(workers);
        let mut i: usize = 0;
        while i < workers
            invariant
                0 <= i <= workers,
                queues@.len() == i,
                forall|k: int| 0 <= k < i ==> (#[trigger] queues@[k])@.len() == 0,
            decreases workers - i,
        {
            queues.push(Vec::new());
            i = i + 1;
        }
        PerfChannel { record_size, queue_capacity, queues }
    }

    /// Non-blocking send of one record on worker `w`'s queue: it becomes the
    /// newest record there, or, when the queue is full, nothing changes.
    pub fn output(&mut self, w: usize, rec: &[u8]) -> (r: Result<(), OutputError>)
        requires
            old(self).wf(),
            rec@.len() == old(self).record_size(),
        ensures
            final(self).wf(),
            final(self).record_size() == old(self).record_size(),
            final(self).queue_capacity() == old(self).queue_capacity(),
            r == Err::<(), OutputError>(OutputError::NoSuchWorker) <==> w >= old(self).workers(),
            r == Err::<(), OutputError>(OutputError::Full) <==> (w < old(self).workers()
                && old(self).queues()[w as int].len() == old(self).queue_capacity()),
            r is Ok <==> (w < old(self).workers() && old(self).queues()[w as int].len()
                < old(self).queue_capacity()),
            r is Err ==> final(self).queues() == old(self).queues(),
            r is Ok ==> final(self).queues() == old(self).queues().update(
                w as int,
                old(self).queues()[w as int].push(rec@),
            ),
    {
        if w >= self.queues.len() {
            return Err(OutputError::NoSuchWorker);
        }
        assert(self.queues()[w as int] == self.queues@[w as int]@.map_values(|r: Vec<u8>| r@));
        if self.queues[w].len() >= self.queue_capacity {
            return Err(OutputError::Full);
        }
        let item = slice_to_vec(rec);
        self.queues[w].push(item);
        assert(self.queues() =~~= old(self).queues().update(
            w as int,
            old(self).queues()[w as int].push(rec@),
        ));
        Ok(())
    }

    /// Takes up to `max` of the oldest records of worker `w`'s queue, in
    /// order; they leave the queue for good.
    pub fn read_events(&mut self, w: usize, max: usize) -> (r: Vec<Vec<u8>>)
        requires
            old(self).wf(),
            w < old(self).workers(),
        ensures
            final(self).wf(),
            final(self).record_size() == old(self).record_size(),
            final(self).queue_capacity() == old(self).queue_capacity(),
            r@.len() == if max < old(self).queues()[w as int].len() {
                max as int
            } else {
                old(self).queues()[w as int].len() as int
            },
            r@.map_values(|v: Vec<u8>| v@) == old(self).queues()[w as int].take(r@.len() as int),
            final(self).queues() == old(self).queues().update(
                w as int,
                old(self).queues()[w as int].skip(r@.len() as int),
            ),
    {
        let ghost q0 = old(self).queues()[w as int];
        let mut out: Vec<Vec<u8>> = Vec::new();
        assert(q0.skip(0) =~= q0);
        assert(old(self).queues().update(w as int, q0) =~= old(self).queues());
        assert(out@.map_values(|v: Vec<u8>| v@) =~= q0.take(0));
        while out.len() < max && self.queues[w].len() > 0
            invariant
                self.wf(),
                self.record_size() == old(self).record_size(),
                self.queue_capacity() == old(self).queue_capacity(),
                self.workers() == old(self).workers(),
                w < self.workers(),
                out@.len() <= max,
                out@.len() <= q0.len(),
                out@.map_values(|v: Vec<u8>| v@) == q0.take(out@.len() as int),
                self.queues() == old(self).queues().update(w as int, q0.skip(out@.len() as int)),
            decreases q0.len() - out@.len(),
        {
            let ghost k: int = out@.len() as int;
            proof {
                assert(self.queues()[w as int] == self.queues@[w as int]@.map_values(|r: Vec<u8>| r@));
                assert(self.queues()[w as int] == q0.skip(k));
                assert(self.queues()[w as int][0] == self.queues@[w as int]@[0]@);
                assert(q0.skip(k)[0] == q0[k]);
            }
            let ghost prev = self.queues();
            let ghost prev_vecs = self.queues@;
            let rec = self.queues[w].remove(0);
            assert(rec@ == q0[k]);
            proof {
                assert(self.queues@[w as int]@ == prev_vecs[w as int]@.remove(0));
                assert(self.queues()[w as int] =~= prev[w as int].drop_first());
                assert(q0.skip(k).drop_first() =~= q0.skip(k + 1));
                assert forall|j: int| 0 <= j < self.workers() && j != w implies #[trigger] self.queues()[j]
                    == prev[j] by {
                    assert(self.queues@[j] == prev_vecs[j]);
                }
                assert(self.queues() =~= prev.update(w as int, q0.skip(k + 1)));
            }
            let ghost n: int = out@.len() as int + 1;
            out.push(rec);
            assert(out@.map_values(|v: Vec<u8>| v@) =~= q0.take(n));
            assert(self.queues() =~= old(self).queues().update(w as int, q0.skip(n)));
        }
        assert(self.queues()[w as int] == self.queues@[w as int]@.map_values(|r: Vec<u8>| r@));
        out
    }
}

} // verus!
