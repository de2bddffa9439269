use vstd::prelude::*;
use crate::event::FileOpenInfo;

verus! {

/// Why a counter update was refused; the table is then left unchanged.
#[derive(Debug, Clone, Copy, PartialEq, Eq, Structural)]
pub enum TableError {
    /// The worker id is not one of the table's workers.
    NoSuchWorker,
    /// The uid is new and the table already holds its maximum number of keys.
    Full,
    /// The worker's counter for the uid is at its largest value.
    CountOverflow,
}

/// Sum of a sequence of counters.
pub open spec fn sum_counts(s: Seq<u64>) -> int
    decreases s.len(),
{
    if s.len() == 0 {
        0
    } else {
        sum_counts(s.drop_last()) + s.last()
    }
}

/// `after` is `before` with one more invocation for `uid` counted on
/// worker `w`: that counter and the uid's merged total grow by one, and no
/// other counter changes.
pub open spec fn recorded_once(before: AggregationTable, after: AggregationTable, w: int, uid: u32) -> bool {
    &&& after.workers() == before.workers()
    &&& after.has_key(uid)
    &&& after.partial(w, uid) == before.partial(w, uid) + 1
    &&& after.merged(uid) == before.merged(uid) + 1
    &&& forall|w2: int, u2: u32|
        (w2 != w || u2 != uid) && 0 <= w2 < before.workers() ==> after.partial(w2, u2)
            == before.partial(w2, u2)
    &&& forall|u2: u32| u2 != uid ==> after.merged(u2) == before.merged(u2)
    &&& forall|u2: u32| #[trigger] after.has_key(u2) <==> (before.has_key(u2) || u2 == uid)
}

/// Sharded uid -> counter table: one counter per worker for each uid,
/// merged by summation only when read.
pub struct AggregationTable {
    workers: usize,
    max_entries: usize,
    keys: Vec<u32>,
    counts: Vec<Vec<u64>>,
}

impl AggregationTable {
    pub closed spec fn workers(&self) -> nat {
        self.workers as nat
    }

    pub closed spec fn max_entries(&self) -> nat {
        self.max_entries as nat
    }

    /// The uids that have an entry, in order of first observation.
    pub closed spec fn keys(&self) -> Seq<u32> {
        self.keys@
    }

    /// For each key, its per-worker counters.
    pub closed spec fn rows(&self) -> Seq<Seq<u64>> {
        self.counts@.map_values(|r: Vec<u64>| r@)
    }

    pub open spec fn wf(&self) -> bool {
        &&& self.keys().len() == self.rows().len()
        &&& self.keys().len() <= self.max_entries()
        &&& forall|i: int| 0 <= i < self.rows().len() ==> #[trigger] self.rows()[i].len() == self.workers()
        &&& forall|i: int, j: int|
            0 <= i < j < self.keys().len() ==> self.keys()[i] != self.keys()[j]
    }

    pub open spec fn has_key(&self, uid: u32) -> bool {
        exists|i: int| 0 <= i < self.keys().len() && self.keys()[i] == uid
    }

    /// Position of `uid` among the keys.
    pub open spec fn slot_of(&self, uid: u32) -> int {
        choose|i: int| 0 <= i < self.keys().len() && self.keys()[i] == uid
    }

    /// Worker `w`'s counter for `uid` (zero when the uid has no entry).
    pub open spec fn partial(&self, w: int, uid: u32) -> int {
        if self.has_key(uid) {
            self.rows()[self.slot_of(uid)][w] as int
        } else {
            0
        }
    }

    /// The merged total for `uid`: the sum of every worker's counter.
    pub open spec fn merged(&self, uid: u32) -> int {
        if self.has_key(uid) {
            sum_counts(self.rows()[self.slot_of(uid)])
        } else {
            0
        }
    }

    proof fn lemma_slot(&self, i: int)
        requires
            self.wf(),
            0 <= i < self.keys().len(),
        ensures
            self.has_key(self.keys()[i]),
            self.slot_of(self.keys()[i]) == i,
    {
        let uid = self.keys()[i];
        assert(self.has_key(uid));
        let j = self.slot_of(uid);
        assert(self.keys()[j] == uid);
    }

    /// An empty table for `workers` workers holding at most `max_entries` uids.
    pub fn new(workers: usize, max_entries: usize) -> (r: AggregationTable)
        ensures
            r.wf(),
            r.workers() == workers,
            r.max_entries() == max_entries,
            r.keys().len() == 0,
            forall|w: int, uid: u32| r.partial(w, uid) == 0,
    {
        let r = AggregationTable { workers, max_entries, keys: Vec::new(), counts: Vec::new() };
        assert(r.rows().len() == 0);
        r
    }

    /// Counts one invocation for `uid` on worker `w`: creates the entry with
    /// a count of one on first observation, else increments `w`'s counter in
    /// place. Only `w`'s counter for `uid` changes. On failure nothing changes.
    pub fn record(&mut self, w: usize, uid: u32) -> (r: Result<(), TableError>)
        requires
            old(self).wf(),
        ensures
            final(self).wf(),
            final(self).workers() == old(self).workers(),
            final(self).max_entries() == old(self).max_entries(),
            r == Err::<(), TableError>(TableError::NoSuchWorker) <==> w >= old(self).workers(),
            r == Err::<(), TableError>(TableError::Full) <==> (w < old(self).workers()
                && !old(self).has_key(uid) && old(self).keys().len() == old(self).max_entries()),
            r == Err::<(), TableError>(TableError::CountOverflow) <==> (w < old(self).workers()
                && old(self).has_key(uid) && old(self).partial(w as int, uid) == u64::MAX),
            r is Ok <==> (w < old(self).workers() && if old(self).has_key(uid) {
                old(self).partial(w as int, uid) < u64::MAX
            } else {
                old(self).keys().len() < old(self).max_entries()
            }),
            r is Err ==> *final(self) == *old(self),
            r is Ok ==> recorded_once(*old(self), *final(self), w as int, uid),
    {
        if w >= self.workers {
            return Err(TableError::NoSuchWorker);
        }
        let ghost old_self = *self;
        let mut i: usize = 0;
        while i < self.keys.len()
            invariant
                *self == old_self,
                old_self == *old(self),
                w < self.workers,
                self.wf(),
                0 <= i <= self.keys@.len(),
                forall|j: int| 0 <= j < i ==> self.keys@[j] != uid,
            decreases self.keys@.len() - i,
        {
            if self.keys[i] == uid {
                proof {
                    self.lemma_slot(i as int);
                    assert(self.rows()[i as int] == self.counts@[i as int]@);
                }
                let c = self.counts[i][w];
                if c == u64::MAX {
                    return Err(TableError::CountOverflow);
                }
                let mut row = self.counts[i].clone();
                assert(row@ =~= self.counts@[i as int]@);
                let ghost old_row = row@;
                row.set(w, c + 1);
                self.counts.set(i, row);
                proof {
                    assert(self.keys() == old_self.keys());
                    assert(self.rows() =~= old_self.rows().update(i as int, old_row.update(w as int, (c + 1) as u64)));
                    self.lemma_slot(i as int);
                    lemma_sum_update(old_row, w as int, (c + 1) as u64);
                    assert forall|u2: u32| u2 != uid && old_self.has_key(u2) implies
                        self.slot_of(u2) == old_self.slot_of(u2) && self.slot_of(u2) != i by {
                        let k = old_self.slot_of(u2);
                        old_self.lemma_slot(k);
                        self.lemma_slot(k);
                    }
                }
                return Ok(());
            }
            i = i + 1;
        }
        assert(!self.has_key(uid));
        if self.keys.len() >= self.max_entries {
            return Err(TableError::Full);
        }
        let mut row: Vec<u64> = Vec::with_capacity(self.workers);
        let mut k: usize = 0;
        while k < self.workers
            invariant
                *self == old_self,
                old_self == *old(self),
                w < self.workers,
                0 <= k <= self.workers,
                row@.len() == k,
                forall|j: int| 0 <= j < k ==> row@[j] == (if j == w { 1u64 } else { 0u64 }),
            decreases self.workers - k,
        {
            if k == w {
                row.push(1);
            } else {
                row.push(0);
            }
            k = k + 1;
        }
        let ghost new_row = row@;
        let n = self.keys.len();
        self.keys.push(uid);
        self.counts.push(row);
        proof {
            assert(self.rows() =~= old_self.rows().push(new_row));
            self.lemma_slot(n as int);
            lemma_sum_single(new_row, w as int);
            assert forall|u2: u32| u2 != uid && old_self.has_key(u2) implies
                self.slot_of(u2) == old_self.slot_of(u2) by {
                let k = old_self.slot_of(u2);
                old_self.lemma_slot(k);
                self.lemma_slot(k);
            }
            assert forall|u2: u32| #[trigger] self.has_key(u2) implies (old_self.has_key(u2) || u2 == uid) by {
                let k = self.slot_of(u2);
                if k < n {
                    assert(old_self.keys()[k] == u2);
                }
            }
            assert forall|u2: u32| old_self.has_key(u2) implies #[trigger] self.has_key(u2) by {
                let k = old_self.slot_of(u2);
                assert(self.keys()[k] == u2);
            }
        }
        Ok(())
    }

    /// Worker `w`'s counter for `uid`, if the uid has an entry.
    pub fn get(&self, w: usize, uid: u32) -> (r: Option<FileOpenInfo>)
        requires
            self.wf(),
            w < self.workers(),
        ensures
            r is Some <==> self.has_key(uid),
            r matches Some(info) ==> info.count == self.partial(w as int, uid),
    {
        let mut i: usize = 0;
        while i < self.keys.len()
            invariant
                self.wf(),
                w < self.workers(),
                0 <= i <= self.keys@.len(),
                forall|j: int| 0 <= j < i ==> self.keys@[j] != uid,
            decreases self.keys@.len() - i,
        {
            if self.keys[i] == uid {
                proof {
                    self.lemma_slot(i as int);
                    assert(self.rows()[i as int] == self.counts@[i as int]@);
                }
                return Some(FileOpenInfo { count: self.counts[i][w] });
            }
            i = i + 1;
        }
        None
    }

    /// Snapshot for the collector: each key with its merged total, in key
    /// order, the total saturating at `u64::MAX`. Reading resets nothing.
    pub fn snapshot(&self) -> (r: Vec<(u32, u64)>)
        requires
            self.wf(),
        ensures
            r@.len() == self.keys().len(),
            forall|i: int| 0 <= i < r@.len() ==> {
                &&& (#[trigger] r@[i]).0 == self.keys()[i]
                &&& r@[i].1 == min_total(self.merged(self.keys()[i]))
            },
    {
        let mut out: Vec<(u32, u64)> = Vec::new();
        let mut i: usize = 0;
        while i < self.keys.len()
            invariant
                self.wf(),
                0 <= i <= self.keys@.len(),
                out@.len() == i,
                forall|j: int| 0 <= j < i ==> {
                    &&& (#[trigger] out@[j]).0 == self.keys()[j]
                    &&& out@[j].1 == min_total(self.merged(self.keys()[j]))
                },
            decreases self.keys@.len() - i,
        {
            proof {
                self.lemma_slot(i as int);
                assert(self.rows()[i as int] == self.counts@[i as int]@);
            }
            let total = saturating_sum(&self.counts[i]);
            out.push((self.keys[i], total));
            i = i + 1;
        }
        out
    }
}

/// Number of times `w` occurs in `ws`.
pub open spec fn count_of(ws: Seq<int>, w: int) -> int
    decreases ws.len(),
{
    if ws.len() == 0 {
        0
    } else {
        count_of(ws.drop_last(), w) + if ws.last() == w {
            1int
        } else {
            0int
        }
    }
}

/// Sum of the counters of workers `0 .. n` for `uid`.
pub open spec fn sum_partials(t: AggregationTable, uid: u32, n: int) -> int
    decreases n,
{
    if n <= 0 {
        0
    } else {
        sum_partials(t, uid, n - 1) + t.partial(n - 1, uid)
    }
}

/// The collector's merged total for a uid is the sum of every worker's
/// partial count for it.
pub proof fn lemma_merged_is_sum_of_partials(t: AggregationTable, uid: u32)
    requires
        t.wf(),
    ensures
        t.merged(uid) == sum_partials(t, uid, t.workers() as int),
{
    if t.has_key(uid) {
        let row = t.rows()[t.slot_of(uid)];
        assert(row.len() == t.workers());
        lemma_prefix_sum(t, uid, row, t.workers() as int);
        assert(row.subrange(0, t.workers() as int) =~= row);
    } else {
        lemma_sum_partials_zero(t, uid, t.workers() as int);
    }
}

proof fn lemma_prefix_sum(t: AggregationTable, uid: u32, row: Seq<u64>, n: int)
    requires
        t.has_key(uid),
        row == t.rows()[t.slot_of(uid)],
        0 <= n <= row.len(),
    ensures
        sum_counts(row.subrange(0, n)) == sum_partials(t, uid, n),
    decreases n,
{
    if n > 0 {
        lemma_prefix_sum(t, uid, row, n - 1);
        assert(row.subrange(0, n).drop_last() =~= row.subrange(0, n - 1));
    }
}

proof fn lemma_sum_partials_zero(t: AggregationTable, uid: u32, n: int)
    requires
        !t.has_key(uid),
    ensures
        sum_partials(t, uid, n) == 0,
    decreases n,
{
    if n > 0 {
        lemma_sum_partials_zero(t, uid, n - 1);
    }
}

/// After a run of successful invocations for one uid, handled by the workers
/// `ws` in turn (`states[i + 1]` is the table after the `i`-th), each
/// worker's partial count has grown by the number of invocations it handled,
/// and the merged total by the number of invocations, however they were
/// spread over the workers.
pub proof fn lemma_records_accumulate(states: Seq<AggregationTable>, ws: Seq<int>, uid: u32, w: int)
    requires
        states.len() == ws.len() + 1,
        forall|i: int| 0 <= i < ws.len() ==> recorded_once(#[trigger] states[i], states[i + 1], ws[i], uid),
        0 <= w < states[0].workers(),
    ensures
        states.last().partial(w, uid) == states[0].partial(w, uid) + count_of(ws, w),
        states.last().merged(uid) == states[0].merged(uid) + ws.len(),
        states.last().workers() == states[0].workers(),
    decreases ws.len(),
{
    if ws.len() > 0 {
        let n = ws.len() - 1;
        let s2 = states.subrange(0, n + 1);
        let ws2 = ws.subrange(0, n);
        assert forall|i: int| 0 <= i < ws2.len() implies recorded_once(#[trigger] s2[i], s2[i + 1], ws2[i], uid) by {
            assert(s2[i] == states[i] && s2[i + 1] == states[i + 1] && ws2[i] == ws[i]);
            assert(recorded_once(states[i], states[i + 1], ws[i], uid));
        }
        lemma_records_accumulate(s2, ws2, uid, w);
        assert(ws.drop_last() =~= ws2);
        assert(s2.last() == states[n]);
        assert(recorded_once(states[n], states[n + 1], ws[n], uid));
        assert(states.last() == states[n + 1]);
    }
}

/// A total as reported: exact up to `u64::MAX`, and `u64::MAX` beyond.
pub open spec fn min_total(t: int) -> u64 {
    if t > u64::MAX {
        u64::MAX
    } else {
        t as u64
    }
}

pub(crate) proof fn lemma_sum_nonneg(s: Seq<u64>)
    ensures
        sum_counts(s) >= 0,
    decreases s.len(),
{
    if s.len() > 0 {
        lemma_sum_nonneg(s.drop_last());
    }
}

proof fn lemma_sum_update(s: Seq<u64>, i: int, v: u64)
    requires
        0 <= i < s.len(),
    ensures
        sum_counts(s.update(i, v)) == sum_counts(s) - s[i] + v,
    decreases s.len(),
{
    let t = s.update(i, v);
    if i == s.len() - 1 {
        assert(t.drop_last() =~= s.drop_last());
    } else {
        assert(t.drop_last() =~= s.drop_last().update(i, v));
        lemma_sum_update(s.drop_last(), i, v);
    }
}

proof fn lemma_sum_single(s: Seq<u64>, w: int)
    requires
        0 <= w < s.len(),
        forall|j: int| 0 <= j < s.len() ==> s[j] == (if j == w { 1u64 } else { 0u64 }),
    ensures
        sum_counts(s) == 1,
{
    let z = s.update(w, 0u64);
    lemma_sum_update(s, w, 0u64);
    lemma_sum_zero(z);
    assert(sum_counts(z) == sum_counts(s) - 1);
}

proof fn lemma_sum_zero(s: Seq<u64>)
    requires
        forall|j: int| 0 <= j < s.len() ==> s[j] == 0,
    ensures
        sum_counts(s) == 0,
    decreases s.len(),
{
    if s.len() > 0 {
        lemma_sum_zero(s.drop_last());
    }
}

/// Sum of `v`, saturating at `u64::MAX`.
pub(crate) fn saturating_sum(v: &Vec<u64>) -> (r: u64)
    ensures
        r == min_total(sum_counts(v@)),
{
    let mut acc: u64 = 0;
    let mut i: usize = 0;
    while i < v.len()
        invariant
            0 <= i <= v@.len(),
            acc == min_total(sum_counts(v@.subrange(0, i as int))),
        decreases v@.len() - i,
    {
        proof {
            let p = v@.subrange(0, i as int + 1);
            assert(p.drop_last() =~= v@.subrange(0, i as int));
            lemma_sum_nonneg(v@.subrange(0, i as int));
        }
        acc = acc.saturating_add(v[i]);
        i = i + 1;
    }
    assert(v@.subrange(0, v@.len() as int) =~= v@);
    acc
}

} // verus!
