use vstd::prelude::*;

verus! {

/// `n` zero bytes.
pub fn zeroed(n: usize) -> (r: Vec<u8>)
    ensures
        r@ == Seq::new(n as nat, |i: int| 0u8),
{
    let mut r: Vec<u8> = Vec::with_capacity(n);
    let mut i: usize = 0;
    while i < n
        invariant
            0 <= i <= n,
            r@ == Seq::new(i as nat, |k: int| 0u8),
        decreases n - i,
    {
        r.push(0);
        i = i + 1;
        assert(r@ =~= Seq::new(i as nat, |k: int| 0u8));
    }
    r
}

/// Space claimed in a ring channel but not yet submitted or discarded.
/// Its bytes start zeroed and are invisible to the consumer until submitted.
pub struct Reservation {
    data: Vec<u8>,
}

impl Reservation {
    pub closed spec fn bytes(&self) -> Seq<u8> {
        self.data@
    }

    /// Copies `src` into the reservation at `offset` if it fits; otherwise
    /// nothing changes.
    pub fn write(&mut self, offset: usize, src: &[u8]) -> (ok: bool)
        ensures
            ok == (offset as int + src@.len() <= old(self).bytes().len()),
            ok ==> final(self).bytes() == old(self).bytes().subrange(0, offset as int) + src@
                + old(self).bytes().subrange(
                offset + src@.len(),
                old(self).bytes().len() as int,
            ),
            !ok ==> final(self).bytes() == old(self).bytes(),
    {
        if offset > self.data.len() || src.len() > self.data.len() - offset {
            return false;
        }
        let mut i: usize = 0;
        while i < src.len()
            invariant
                offset + src@.len() <= self.data@.len(),
                offset + src@.len() <= usize::MAX,
                self.data@.len() == old(self).data@.len(),
                0 <= i <= src@.len(),
                forall|k: int| 0 <= k < offset ==> self.data@[k] == old(self).data@[k],
                forall|k: int| 0 <= k < i ==> self.data@[offset + k] == src@[k],
                forall|k: int|
                    offset + i <= k < self.data@.len() ==> self.data@[k] == old(self).data@[k],
            decreases src@.len() - i,
        {
            self.data.set(offset + i, src[i]);
            i = i + 1;
        }
        assert(self.data@ =~= old(self).data@.subrange(0, offset as int) + src@
            + old(self).data@.subrange(offset + src@.len(), old(self).data@.len() as int));
        true
    }
}

/// One bounded byte region shared by every producer, holding fixed-size
/// records. Producers reserve, then submit or discard; the single consumer
/// takes submitted records in the order they were submitted.
pub struct RingChannel {
    capacity: usize,
    record_size: usize,
    used: usize,
    pending: usize,
    published: Vec<Vec<u8>>,
}

impl RingChannel {
    /// Size in bytes of the region.
    pub closed spec fn capacity(&self) -> nat {
        self.capacity as nat
    }

    /// Size in bytes of every record.
    pub closed spec fn record_size(&self) -> nat {
        self.record_size as nat
    }

    /// Number of outstanding reservations.
    pub closed spec fn pending(&self) -> nat {
        self.pending as nat
    }

    /// Submitted records not yet consumed, oldest first.
    pub closed spec fn published(&self) -> Seq<Seq<u8>> {
        self.published@.map_values(|r: Vec<u8>| r@)
    }

    /// Bytes held by submitted and reserved records.
    pub open spec fn used(&self) -> int {
        ((self.published().len() + self.pending()) * self.record_size()) as int
    }

    /// The internal count of claimed bytes agrees with `used()`.
    pub closed spec fn counted(&self) -> bool {
        self.used as int == self.used()
    }

    /// Records are at least one byte long, submitted and reserved records fit
    /// in the region, and every submitted record is one record long.
    pub open spec fn wf(&self) -> bool {
        &&& self.counted()
        &&& self.record_size() >= 1
        &&& self.used() <= self.capacity()
        &&& forall|i: int| 0 <= i < self.published().len() ==> #[trigger] self.published()[i].len()
            == self.record_size()
    }

    /// An empty channel of `capacity` bytes for records of `record_size` bytes.
    pub fn new(capacity: usize, record_size: usize) -> (r: RingChannel)
        requires
            record_size >= 1,
        ensures
            r.wf(),
            r.capacity() == capacity,
            r.record_size() == record_size,
            r.pending() == 0,
            r.published() == Seq::<Seq<u8>>::empty(),
    {
        let r = RingChannel { capacity, record_size, used: 0, pending: 0, published: Vec::new() };
        assert(r.published() =~= Seq::<Seq<u8>>::empty());
        assert(0 * r.record_size() == 0) by (nonlinear_arith);
        r
    }

    /// Claims one record's worth of space. Fails, changing nothing, when
    /// the free space is smaller than a record.
    pub fn reserve(&mut self) -> (r: Option<Reservation>)
        requires
            old(self).wf(),
        ensures
            final(self).wf(),
            final(self).capacity() == old(self).capacity(),
            final(self).record_size() == old(self).record_size(),
            final(self).published() == old(self).published(),
            r is None <==> old(self).used() + old(self).record_size() > old(self).capacity(),
            r is None ==> final(self).pending() == old(self).pending(),
            r matches Some(res) ==> {
                &&& final(self).pending() == old(self).pending() + 1
                &&& res.bytes() == Seq::new(old(self).record_size(), |i: int| 0u8)
            },
    {
        if self.used > self.capacity || self.record_size > self.capacity - self.used {
            return None;
        }
        let data = zeroed(self.record_size);
        proof {
            let n = self.published().len() + self.pending();
            assert((n + 1) * self.record_size() == n * self.record_size() + self.record_size())
                by (nonlinear_arith);
            assert(n * self.record_size() >= n) by (nonlinear_arith)
                requires self.record_size() >= 1, n >= 0;
        }
        self.used = self.used + self.record_size;
        self.pending = self.pending + 1;
        Some(Reservation { data })
    }

    /// Publishes a reservation: its bytes become the newest record.
    pub fn submit(&mut self, res: Reservation)
        requires
            old(self).wf(),
            old(self).pending() > 0,
            res.bytes().len() == old(self).record_size(),
        ensures
            final(self).wf(),
            final(self).capacity() == old(self).capacity(),
            final(self).record_size() == old(self).record_size(),
            final(self).pending() == old(self).pending() - 1,
            final(self).published() == old(self).published().push(res.bytes()),
    {
        self.pending = self.pending - 1;
        self.published.push(res.data);
        assert(self.published() =~= old(self).published().push(res.bytes()));
    }

    /// Releases a reservation without publishing anything.
    pub fn discard(&mut self, res: Reservation)
        requires
            old(self).wf(),
            old(self).pending() > 0,
        ensures
            final(self).wf(),
            final(self).capacity() == old(self).capacity(),
            final(self).record_size() == old(self).record_size(),
            final(self).pending() == old(self).pending() - 1,
            final(self).published() == old(self).published(),
    {
        proof {
            let n = self.published().len() + self.pending() - 1;
            assert((n + 1) * self.record_size() == n * self.record_size() + self.record_size())
                by (nonlinear_arith);
        }
        self.pending = self.pending - 1;
        self.used = self.used - self.record_size;
    }

    /// Takes the oldest submitted record, which then leaves the channel for good.
    pub fn next(&mut self) -> (r: Option<Vec<u8>>)
        requires
            old(self).wf(),
        ensures
            final(self).wf(),
            final(self).capacity() == old(self).capacity(),
            final(self).record_size() == old(self).record_size(),
            final(self).pending() == old(self).pending(),
            r is None <==> old(self).published().len() == 0,
            r is None ==> final(self).published() == old(self).published(),
            r matches Some(rec) ==> {
                &&& rec@ == old(self).published()[0]
                &&& rec@.len() == old(self).record_size()
                &&& final(self).published() == old(self).published().drop_first()
            },
    {
        if self.published.len() == 0 {
            return None;
        }
        let rec = self.published.remove(0);
        proof {
            let n = self.published().len() + self.pending();
            assert((n + 1) * self.record_size() == n * self.record_size() + self.record_size())
                by (nonlinear_arith);
            assert(self.published() =~= old(self).published().drop_first());
            assert(rec@ == old(self).published()[0]);
        }
        self.used = self.used - self.record_size;
        Some(rec)
    }
}

/// One operation on a ring channel, as the channel's contracts describe its
/// effect on the submitted records.
pub enum RingOp {
    Reserve,
    Submit(Seq<u8>),
    Discard,
    Consume(Seq<u8>),
}

/// `after` follows from `before` by `op`, as `reserve`, `submit`, `discard`
/// and `next` (returning `Some`) guarantee.
pub open spec fn ring_step(before: RingChannel, after: RingChannel, op: RingOp) -> bool {
    &&& after.record_size() == before.record_size()
    &&& match op {
        RingOp::Reserve => after.published() == before.published(),
        RingOp::Submit(b) => after.published() == before.published().push(b),
        RingOp::Discard => after.published() == before.published(),
        RingOp::Consume(b) => {
            &&& before.published().len() > 0
            &&& b == before.published()[0]
            &&& after.published() == before.published().drop_first()
        },
    }
}

/// The records submitted by `ops`, in order.
pub open spec fn submitted(ops: Seq<RingOp>) -> Seq<Seq<u8>>
    decreases ops.len(),
{
    if ops.len() == 0 {
        Seq::empty()
    } else {
        let rest = submitted(ops.drop_last());
        match ops.last() {
            RingOp::Submit(b) => rest.push(b),
            _ => rest,
        }
    }
}

/// The records taken by the consumer in `ops`, in order.
pub open spec fn consumed(ops: Seq<RingOp>) -> Seq<Seq<u8>>
    decreases ops.len(),
{
    if ops.len() == 0 {
        Seq::empty()
    } else {
        let rest = consumed(ops.drop_last());
        match ops.last() {
            RingOp::Consume(b) => rest.push(b),
            _ => rest,
        }
    }
}

/// Over any run of operations on a ring channel (`states[i + 1]` follows
/// `states[i]` by `ops[i]`), what the consumer took followed by what is
/// still queued is exactly what was queued at the start followed by what
/// was submitted, in submission order: a discarded reservation never shows
/// up, and each submitted record is seen once. Every record taken is one
/// full record long.
pub proof fn lemma_ring_delivers_in_order(states: Seq<RingChannel>, ops: Seq<RingOp>)
    requires
        states.len() == ops.len() + 1,
        forall|i: int| 0 <= i < states.len() ==> (#[trigger] states[i]).wf(),
        forall|i: int| 0 <= i < ops.len() ==> ring_step(#[trigger] states[i], states[i + 1], ops[i]),
    ensures
        consumed(ops) + states.last().published() == states[0].published() + submitted(ops),
        states.last().record_size() == states[0].record_size(),
        forall|k: int| 0 <= k < consumed(ops).len() ==> (#[trigger] consumed(ops)[k]).len()
            == states[0].record_size(),
    decreases ops.len(),
{
    if ops.len() > 0 {
        let n = ops.len() - 1;
        let s2 = states.subrange(0, n + 1);
        let o2 = ops.subrange(0, n);
        assert forall|i: int| 0 <= i < s2.len() implies (#[trigger] s2[i]).wf() by {
            assert(s2[i] == states[i]);
        }
        assert forall|i: int| 0 <= i < o2.len() implies ring_step(#[trigger] s2[i], s2[i + 1], o2[i]) by {
            assert(s2[i] == states[i] && s2[i + 1] == states[i + 1] && o2[i] == ops[i]);
            assert(ring_step(states[i], states[i + 1], ops[i]));
        }
        lemma_ring_delivers_in_order(s2, o2);
        assert(ops.drop_last() =~= o2);
        assert(s2.last() == states[n]);
        assert(states.last() == states[n + 1]);
        assert(ring_step(states[n], states[n + 1], ops[n]));
        let before = states[n];
        let after = states[n + 1];
        let c = consumed(o2);
        let sub = submitted(o2);
        match ops[n] {
            RingOp::Submit(b) => {
                assert(c + after.published() =~= (c + before.published()).push(b));
                assert(states[0].published() + sub.push(b) =~= (states[0].published() + sub).push(b));
            },
            RingOp::Consume(b) => {
                assert(before.published()[0].len() == before.record_size());
                assert(c.push(b) + after.published() =~= c + before.published());
                assert forall|k: int| 0 <= k < c.push(b).len() implies (#[trigger] c.push(b)[k]).len()
                    == states[0].record_size() by {
                    if k < c.len() {
                        assert(c.push(b)[k] == c[k]);
                    }
                }
            },
            _ => {},
        }
    }
}

} // verus!
