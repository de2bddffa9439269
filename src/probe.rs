use vstd::prelude::*;
use crate::aggregation::{recorded_once, AggregationTable, TableError};
use crate::allow_list::{check_valid_user, AllowList};
use crate::codec::{
    encode_event, encode_perf_event, event_bytes, perf_event_bytes, EVENT_SIZE, PERF_EVENT_SIZE,
};
use crate::event::{copy_str_bytes, str_copied, Event, PerfEvent, MAX_PATH_LEN, TASK_NAME_LEN};
use crate::perf::{OutputError, PerfChannel};
use crate::ring::RingChannel;

verus! {

/// Status for a missing argument, a missing per-worker slot or a refused
/// transport operation.
pub const ERR_UNAVAILABLE: i64 = 1;

/// Status for a kernel read that failed (bad address).
pub const ERR_FAULT: i64 = -14;

/// Size of a scratch slot.
pub const SCRATCH_LEN: usize = 1024;

/// Name descriptor of a directory entry; `name` is `None` when the name
/// bytes cannot be read.
pub struct NameRef {
    pub name: Option<Vec<u8>>,
}

/// Directory entry; `d_name` is `None` when its name descriptor cannot be read.
pub struct DentryRef {
    pub d_name: Option<NameRef>,
}

/// Path descriptor; `dentry` is `None` when its entry cannot be read.
pub struct PathRef {
    pub dentry: Option<DentryRef>,
}

/// The opened-file object handed to the probe; each `None` is a copy that fails.
pub struct FileRef {
    pub f_path: Option<PathRef>,
    pub f_flags: Option<u32>,
}

/// What the host hands a probe invocation, and what its helpers return.
pub struct ProbeContext {
    /// First argument of the intercepted call, if present.
    pub target: Option<FileRef>,
    /// Current uid in the low half, gid in the high half.
    pub uid_gid: u64,
    /// Current thread-group id in the high half, thread id in the low half.
    pub pid_tgid: u64,
    /// The current task's command name, `None` when it cannot be read.
    pub comm: Option<[u8; TASK_NAME_LEN]>,
    /// Pid of the current task's parent, read through a copy of the current
    /// task; `None` when that copy fails.
    pub parent_pid: Option<u32>,
    /// Monotonic clock, nanoseconds.
    pub ktime_ns: u64,
}

pub open spec fn uid_of(ctx: &ProbeContext) -> u32 {
    ctx.uid_gid as u32
}

pub open spec fn pid_of(ctx: &ProbeContext) -> u32 {
    (ctx.pid_tgid >> 32u64) as u32
}

/// The name descriptor reached by following file -> path -> entry -> name.
pub open spec fn name_ref_of(t: &FileRef) -> Option<NameRef> {
    match t.f_path {
        Some(p) => match p.dentry {
            Some(d) => d.d_name,
            None => None,
        },
        None => None,
    }
}

/// The name bytes of the target, when every hop can be read.
pub open spec fn name_of(t: &FileRef) -> Option<Seq<u8>> {
    match name_ref_of(t) {
        Some(n) => match n.name {
            Some(v) => Some(v@),
            None => None,
        },
        None => None,
    }
}

/// Follows the descriptor chain of `t` up to the name descriptor.
pub fn resolve_name_ref(t: &FileRef) -> (r: Option<&NameRef>)
    ensures
        r is None <==> name_ref_of(t) is None,
        r matches Some(n) ==> name_ref_of(t) == Some(*n),
{
    match &t.f_path {
        None => None,
        Some(p) => match &p.dentry {
            None => None,
            Some(d) => match &d.d_name {
                None => None,
                Some(n) => Some(n),
            },
        },
    }
}

fn current_uid(ctx: &ProbeContext) -> (r: u32)
    ensures
        r == uid_of(ctx),
{
    ctx.uid_gid as u32
}

fn current_pid(ctx: &ProbeContext) -> (r: u32)
    ensures
        r == pid_of(ctx),
{
    (ctx.pid_tgid >> 32) as u32
}

/// The status code a probe hands back to the host.
pub open spec fn status_code(r: Result<u32, i64>) -> u32 {
    match r {
        Ok(v) => v,
        Err(_) => 1,
    }
}

/// One reusable staging slot per worker.
pub struct ScratchBuffer {
    slots: Vec<[u8; SCRATCH_LEN]>,
}

impl ScratchBuffer {
    /// Each worker's slot contents.
    pub closed spec fn slots(&self) -> Seq<Seq<u8>> {
        self.slots@.map_values(|a: [u8; SCRATCH_LEN]| a@)
    }

    /// Every slot is `SCRATCH_LEN` bytes long.
    pub open spec fn wf(&self) -> bool {
        forall|w: int| 0 <= w < self.slots().len() ==> #[trigger] self.slots()[w].len() == SCRATCH_LEN
    }

    /// Every slot of any scratch buffer is `SCRATCH_LEN` bytes long.
    pub proof fn lemma_wf(&self)
        ensures
            self.wf(),
    {
        assert forall|w: int| 0 <= w < self.slots().len() implies #[trigger] self.slots()[w].len()
            == SCRATCH_LEN by {
            assert(self.slots()[w] == self.slots@[w]@);
        }
    }

    /// `workers` zeroed slots.
    pub fn new(workers: usize) -> (r: ScratchBuffer)
        ensures
            r.wf(),
            r.slots().len() == workers,
            forall|w: int| 0 <= w < workers ==> #[trigger] r.slots()[w] == Seq::new(SCRATCH_LEN as nat, |i: int| 0u8),
    {
        let mut slots: Vec<[u8; SCRATCH_LEN]> = Vec::with_capacity(workers);
        let mut i: usize = 0;
        while i < workers
            invariant
                0 <= i <= workers,
                slots@.len() == i,
                forall|k: int| 0 <= k < i ==> (#[trigger] slots@[k])@ == Seq::new(SCRATCH_LEN as nat, |i: int| 0u8),
            decreases workers - i,
        {
            let z: [u8; SCRATCH_LEN] = [0u8; SCRATCH_LEN];
            assert(z@ =~= Seq::new(SCRATCH_LEN as nat, |i: int| 0u8));
            slots.push(z);
            i = i + 1;
        }
        let r = ScratchBuffer { slots };
        proof {
            r.lemma_wf();
        }
        r
    }

    /// Copy of worker `w`'s slot.
    pub fn slot(&self, w: usize) -> (r: [u8; SCRATCH_LEN])
        requires
            w < self.slots().len(),
        ensures
            r@ == self.slots()[w as int],
    {
        self.slots[w]
    }
}

/// Status of the filtering probe.
pub open spec fn array_status(ctx: &ProbeContext, list: &AllowList, workers: nat, w: usize) -> Result<
    u32,
    i64,
> {
    if !list.uids().contains(uid_of(ctx)) {
        Ok(0)
    } else if ctx.target is None {
        Err(ERR_UNAVAILABLE)
    } else if w >= workers {
        Err(ERR_UNAVAILABLE)
    } else if target_name(ctx) is None {
        Err(ERR_FAULT)
    } else {
        Ok(0)
    }
}

/// Effect of the filtering probe on the scratch slots: the name is staged
/// in worker `w`'s slot when the probe gets that far and succeeds, and
/// nothing changes otherwise.
pub open spec fn array_effect(
    ctx: &ProbeContext,
    list: &AllowList,
    w: usize,
    before: Seq<Seq<u8>>,
    after: Seq<Seq<u8>>,
) -> bool {
    if array_status(ctx, list, before.len(), w) is Ok && list.uids().contains(uid_of(ctx)) {
        let name = target_name(ctx)->Some_0;
        &&& after.len() == before.len()
        &&& exists|n: int| str_copied(name, before[w as int], #[trigger] after[w as int], n)
        &&& forall|k: int| 0 <= k < before.len() && k != w ==> #[trigger] after[k] == before[k]
    } else {
        after == before
    }
}

/// Filtering probe: proceeds only for uids in the allow-list, then stages
/// the target's name in the worker's scratch slot.
pub fn try_array(ctx: &ProbeContext, list: &AllowList, scratch: &mut ScratchBuffer, w: usize) -> (r:
    Result<u32, i64>)
    requires
        list.wf(),
    ensures
        final(scratch).wf(),
        r == array_status(ctx, list, old(scratch).slots().len(), w),
        array_effect(ctx, list, w, old(scratch).slots(), final(scratch).slots()),
{
    proof {
        scratch.lemma_wf();
    }
    let uid = current_uid(ctx);
    if !check_valid_user(list, uid) {
        return Ok(0);
    }
    let file = match &ctx.target {
        Some(f) => f,
        None => return Err(ERR_UNAVAILABLE),
    };
    if w >= scratch.slots.len() {
        return Err(ERR_UNAVAILABLE);
    }
    let name_ref = match resolve_name_ref(file) {
        Some(n) => n,
        None => return Err(ERR_FAULT),
    };
    let name = match &name_ref.name {
        Some(v) => v,
        None => return Err(ERR_FAULT),
    };
    let mut slot = scratch.slots[w];
    assert(slot@ == old(scratch).slots()[w as int]);
    let n = copy_str_bytes(name.as_slice(), &mut slot);
    scratch.slots.set(w, slot);
    proof {
        scratch.lemma_wf();
        assert(final(scratch).slots()[w as int] == slot@);
        assert(target_name(ctx)->Some_0 == name@);
        assert(str_copied(name@, old(scratch).slots()[w as int], final(scratch).slots()[w as int], n as int));
        assert(final(scratch).slots().len() == old(scratch).slots().len());
        assert forall|k: int| 0 <= k < old(scratch).slots().len() && k != w implies #[trigger] final(scratch).slots()[k]
            == old(scratch).slots()[k] by {
            assert(final(scratch).slots@[k] == old(scratch).slots@[k]);
        }
    }
    Ok(0)
}

/// Entry of the filtering probe: `0` on success, `1` on failure.
pub fn array(ctx: &ProbeContext, list: &AllowList, scratch: &mut ScratchBuffer, w: usize) -> (r: u32)
    requires
        list.wf(),
    ensures
        final(scratch).wf(),
        r == status_code(array_status(ctx, list, old(scratch).slots().len(), w)),
        array_effect(ctx, list, w, old(scratch).slots(), final(scratch).slots()),
{
    match try_array(ctx, list, scratch, w) {
        Ok(ret) => ret,
        Err(_) => 1,
    }
}

/// What the logging probe reports: who opened which name.
pub struct OpenNotice {
    pub uid: u32,
    pub name: [u8; TASK_NAME_LEN],
    pub len: usize,
}

/// Logging probe: reads the uid and copies the target's name, truncated,
/// into a small zeroed buffer.
pub fn try_file_open(ctx: &ProbeContext) -> (r: Result<OpenNotice, i64>)
    ensures
        ctx.target is None ==> r == Err::<OpenNotice, i64>(ERR_UNAVAILABLE),
        ctx.target is Some ==> (r is Err <==> target_name(ctx) is None),
        ctx.target is Some && r is Err ==> r == Err::<OpenNotice, i64>(ERR_FAULT),
        r matches Ok(notice) ==> {
            &&& notice.uid == uid_of(ctx)
            &&& str_copied(
                target_name(ctx)->Some_0,
                Seq::new(TASK_NAME_LEN as nat, |i: int| 0u8),
                notice.name@,
                notice.len as int,
            )
        },
{
    let file = match &ctx.target {
        Some(f) => f,
        None => return Err(ERR_UNAVAILABLE),
    };
    let uid = current_uid(ctx);
    let name_ref = match resolve_name_ref(file) {
        Some(n) => n,
        None => return Err(ERR_FAULT),
    };
    let name = match &name_ref.name {
        Some(v) => v,
        None => return Err(ERR_FAULT),
    };
    let mut buf: [u8; TASK_NAME_LEN] = [0u8; TASK_NAME_LEN];
    assert(buf@ =~= Seq::new(TASK_NAME_LEN as nat, |i: int| 0u8));
    let len = copy_str_bytes(name.as_slice(), &mut buf);
    Ok(OpenNotice { uid, name: buf, len })
}

/// Entry of the logging probe: `0` on success, `1` on failure.
pub fn file_open(ctx: &ProbeContext) -> (r: u32)
    ensures
        r == 0 <==> target_name(ctx) is Some,
        r == 0 || r == 1,
{
    match try_file_open(ctx) {
        Ok(_) => 0,
        Err(_) => 1,
    }
}

/// Status of the counting probe.
pub open spec fn hashmap_status(ctx: &ProbeContext, table: &AggregationTable, w: usize) -> Result<
    u32,
    i64,
> {
    let uid = uid_of(ctx);
    if w >= table.workers() || (!table.has_key(uid) && table.keys().len() == table.max_entries()) || (
    table.has_key(uid) && table.partial(w as int, uid) == u64::MAX) {
        Err(ERR_UNAVAILABLE)
    } else {
        Ok(0)
    }
}

/// Counting probe: counts one invocation for the current uid on worker `w`;
/// when the table refuses, the table is left unchanged.
pub fn try_hashmap(ctx: &ProbeContext, table: &mut AggregationTable, w: usize) -> (r: Result<
    u32,
    i64,
>)
    requires
        old(table).wf(),
    ensures
        final(table).wf(),
        r == hashmap_status(ctx, old(table), w),
        r is Ok ==> recorded_once(*old(table), *final(table), w as int, uid_of(ctx)),
        r is Err ==> *final(table) == *old(table),
{
    let uid = current_uid(ctx);
    let res = table.record(w, uid);
    match res {
        Ok(()) => Ok(0),
        Err(e) => {
            assert(res == Err::<(), TableError>(TableError::NoSuchWorker) || res == Err::<
                (),
                TableError,
            >(TableError::Full) || res == Err::<(), TableError>(TableError::CountOverflow));
            Err(ERR_UNAVAILABLE)
        },
    }
}

/// Entry of the counting probe: `0` on success, `1` on failure.
pub fn hashmap(ctx: &ProbeContext, table: &mut AggregationTable, w: usize) -> (r: u32)
    requires
        old(table).wf(),
    ensures
        final(table).wf(),
        r == status_code(hashmap_status(ctx, old(table), w)),
        r == 0 ==> recorded_once(*old(table), *final(table), w as int, uid_of(ctx)),
        r != 0 ==> *final(table) == *old(table),
{
    match try_hashmap(ctx, table, w) {
        Ok(ret) => ret,
        Err(_) => 1,
    }
}

/// `e` is the record the streaming probe builds from `ctx`: the current
/// uid and pid, the task name, and the target's name truncated into a
/// zeroed path field.
pub open spec fn stream_event(ctx: &ProbeContext, e: Event) -> bool {
    &&& e.uid == uid_of(ctx)
    &&& e.pid == pid_of(ctx)
    &&& ctx.comm is Some
    &&& task_name_holds(ctx.comm->Some_0, e.task_name)
    &&& target_name(ctx) is Some
    &&& path_holds(target_name(ctx)->Some_0, e.file_path)
}

/// The name bytes of the invocation's target, when it has one and every
/// hop can be read.
pub open spec fn target_name(ctx: &ProbeContext) -> Option<Seq<u8>> {
    match ctx.target {
        Some(t) => name_of(&t),
        None => None,
    }
}

/// `path` is `name` truncated into a zeroed path field.
pub open spec fn path_holds(name: Seq<u8>, path: [u8; MAX_PATH_LEN]) -> bool {
    exists|n: int| #[trigger] str_copied(name, zero_path(), path@, n)
}

/// A target name with no terminator in its first `MAX_PATH_LEN - 1` bytes
/// is stored as exactly those bytes plus a terminator in the last byte.
pub proof fn lemma_long_path_truncated(name: Seq<u8>, path: [u8; MAX_PATH_LEN])
    requires
        path_holds(name, path),
        name.len() >= MAX_PATH_LEN,
        forall|j: int| 0 <= j < MAX_PATH_LEN - 1 ==> name[j] != 0,
    ensures
        path@.subrange(0, MAX_PATH_LEN - 1) == name.subrange(0, MAX_PATH_LEN - 1),
        path@[MAX_PATH_LEN - 1] == 0,
        path@.len() == MAX_PATH_LEN,
{
    let n = choose|n: int| #[trigger] str_copied(name, zero_path(), path@, n);
    assert(n == MAX_PATH_LEN - 1);
}

/// `name` is the command name `comm` truncated into a zeroed task-name
/// field, so it always holds a terminator.
pub open spec fn task_name_holds(comm: [u8; TASK_NAME_LEN], name: [u8; TASK_NAME_LEN]) -> bool {
    exists|n: int| #[trigger] str_copied(comm@, zero_name(), name@, n)
}

/// A task-name field with every byte zero.
pub open spec fn zero_name() -> Seq<u8> {
    Seq::new(TASK_NAME_LEN as nat, |i: int| 0u8)
}

/// A path field with every byte zero.
pub open spec fn zero_path() -> Seq<u8> {
    Seq::new(MAX_PATH_LEN as nat, |i: int| 0u8)
}

/// Status of the ring-channel probe.
pub open spec fn ringbuf_status(ctx: &ProbeContext, ring: &RingChannel) -> Result<u32, i64> {
    match ctx.target {
        None => Err(ERR_UNAVAILABLE),
        Some(t) => if name_ref_of(&t) is None {
            Err(ERR_FAULT)
        } else if ring.used() + ring.record_size() > ring.capacity() {
            Err(ERR_UNAVAILABLE)
        } else if ctx.comm is None || name_of(&t) is None {
            Err(ERR_UNAVAILABLE)
        } else {
            Ok(0)
        },
    }
}

/// Builds the task-name field: the command name truncated into a zeroed
/// buffer.
fn name_field(comm: &[u8; TASK_NAME_LEN]) -> (r: [u8; TASK_NAME_LEN])
    ensures
        task_name_holds(*comm, r),
{
    let mut field: [u8; TASK_NAME_LEN] = [0u8; TASK_NAME_LEN];
    assert(field@ =~= zero_name());
    let n = copy_str_bytes(comm.as_slice(), &mut field);
    assert(str_copied(comm@, zero_name(), field@, n as int));
    field
}

/// Builds the path field: the name truncated into a zeroed buffer.
fn path_field(name: &Vec<u8>) -> (r: [u8; MAX_PATH_LEN])
    ensures
        path_holds(name@, r),
{
    let mut path: [u8; MAX_PATH_LEN] = [0u8; MAX_PATH_LEN];
    assert(path@ =~= zero_path());
    let n = copy_str_bytes(name.as_slice(), &mut path);
    assert(str_copied(name@, zero_path(), path@, n as int));
    path
}

/// Ring-channel probe: reserves a record, fills it, and submits it; when
/// filling fails partway the reservation is discarded, so the consumer
/// never sees a half-built record.
pub fn try_ringbuf(ctx: &ProbeContext, ring: &mut RingChannel) -> (r: Result<u32, i64>)
    requires
        old(ring).wf(),
        old(ring).record_size() == EVENT_SIZE,
    ensures
        final(ring).wf(),
        final(ring).capacity() == old(ring).capacity(),
        final(ring).record_size() == old(ring).record_size(),
        final(ring).pending() == old(ring).pending(),
        r == ringbuf_status(ctx, old(ring)),
        r is Err ==> final(ring).published() == old(ring).published(),
        r is Ok ==> exists|e: Event| #[trigger] stream_event(ctx, e) && final(ring).published()
            == old(ring).published().push(event_bytes(e)),
{
    let file = match &ctx.target {
        Some(f) => f,
        None => return Err(ERR_UNAVAILABLE),
    };
    let name_ref = match resolve_name_ref(file) {
        Some(n) => n,
        None => return Err(ERR_FAULT),
    };
    let mut res = match ring.reserve() {
        Some(res) => res,
        None => return Err(ERR_UNAVAILABLE),
    };
    let task_name = match ctx.comm {
        Some(c) => c,
        None => {
            ring.discard(res);
            return Err(ERR_UNAVAILABLE);
        },
    };
    let name = match &name_ref.name {
        Some(v) => v,
        None => {
            ring.discard(res);
            return Err(ERR_UNAVAILABLE);
        },
    };
    let e = Event {
        uid: current_uid(ctx),
        pid: current_pid(ctx),
        task_name: name_field(&task_name),
        file_path: path_field(name),
    };
    assert(stream_event(ctx, e));
    let bytes = encode_event(&e);
    let ok = res.write(0, bytes.as_slice());
    assert(ok);
    assert(res.bytes() =~= event_bytes(e));
    ring.submit(res);
    Ok(0)
}

/// Entry of the ring-channel probe: `0` on success, `1` on failure.
pub fn ringbuf(ctx: &ProbeContext, ring: &mut RingChannel) -> (r: u32)
    requires
        old(ring).wf(),
        old(ring).record_size() == EVENT_SIZE,
    ensures
        final(ring).wf(),
        final(ring).capacity() == old(ring).capacity(),
        final(ring).record_size() == old(ring).record_size(),
        final(ring).pending() == old(ring).pending(),
        r == status_code(ringbuf_status(ctx, old(ring))),
        r != 0 ==> final(ring).published() == old(ring).published(),
        r == 0 ==> exists|e: Event| #[trigger] stream_event(ctx, e) && final(ring).published()
            == old(ring).published().push(event_bytes(e)),
{
    match try_ringbuf(ctx, ring) {
        Ok(ret) => ret,
        Err(_) => 1,
    }
}

/// `e` is the record the per-worker streaming probe builds from `ctx`.
pub open spec fn perf_stream_event(ctx: &ProbeContext, e: PerfEvent) -> bool {
    &&& e.uid == uid_of(ctx)
    &&& e.pid == pid_of(ctx)
    &&& ctx.parent_pid == Some(e.ppid)
    &&& e.time == ctx.ktime_ns
    &&& ctx.comm is Some
    &&& task_name_holds(ctx.comm->Some_0, e.task_name)
    &&& ctx.target is Some
    &&& ctx.target->Some_0.f_flags == Some(e.flags)
    &&& target_name(ctx) is Some
    &&& path_holds(target_name(ctx)->Some_0, e.file_path)
}

/// Status of the per-worker streaming probe.
pub open spec fn perf_status(ctx: &ProbeContext, chan: &PerfChannel, w: usize) -> Result<u32, i64> {
    match ctx.target {
        None => Err(ERR_UNAVAILABLE),
        Some(t) => if name_ref_of(&t) is None {
            Err(ERR_FAULT)
        } else if w >= chan.workers() {
            Err(ERR_UNAVAILABLE)
        } else if ctx.parent_pid is None || t.f_flags is None || ctx.comm is None || name_of(&t)
            is None {
            Err(ERR_FAULT)
        } else if chan.queues()[w as int].len() == chan.queue_capacity() {
            Err(ERR_UNAVAILABLE)
        } else {
            Ok(0)
        },
    }
}

/// Per-worker streaming probe: builds the full record and sends it on
/// worker `w`'s queue, dropping it when that queue is full.
pub fn try_perf(ctx: &ProbeContext, chan: &mut PerfChannel, w: usize) -> (r: Result<u32, i64>)
    requires
        old(chan).wf(),
        old(chan).record_size() == PERF_EVENT_SIZE,
    ensures
        final(chan).wf(),
        final(chan).record_size() == old(chan).record_size(),
        final(chan).queue_capacity() == old(chan).queue_capacity(),
        r == perf_status(ctx, old(chan), w),
        r is Err ==> final(chan).queues() == old(chan).queues(),
        r is Ok ==> exists|e: PerfEvent| #[trigger] perf_stream_event(ctx, e) && final(chan).queues()
            == old(chan).queues().update(w as int, old(chan).queues()[w as int].push(perf_event_bytes(e))),
{
    let file = match &ctx.target {
        Some(f) => f,
        None => return Err(ERR_UNAVAILABLE),
    };
    let name_ref = match resolve_name_ref(file) {
        Some(n) => n,
        None => return Err(ERR_FAULT),
    };
    if w >= chan.workers_count() {
        return Err(ERR_UNAVAILABLE);
    }
    let ppid = match ctx.parent_pid {
        Some(p) => p,
        None => return Err(ERR_FAULT),
    };
    let flags = match file.f_flags {
        Some(f) => f,
        None => return Err(ERR_FAULT),
    };
    let task_name = match ctx.comm {
        Some(c) => c,
        None => return Err(ERR_FAULT),
    };
    let name = match &name_ref.name {
        Some(v) => v,
        None => return Err(ERR_FAULT),
    };
    let e = PerfEvent {
        uid: current_uid(ctx),
        pid: current_pid(ctx),
        ppid,
        flags,
        time: ctx.ktime_ns,
        task_name: name_field(&task_name),
        file_path: path_field(name),
    };
    assert(perf_stream_event(ctx, e));
    let bytes = encode_perf_event(&e);
    let res = chan.output(w, bytes.as_slice());
    match res {
        Ok(()) => Ok(0),
        Err(e) => {
            assert(res == Err::<(), OutputError>(OutputError::NoSuchWorker) || res == Err::<
                (),
                OutputError,
            >(OutputError::Full));
            Err(ERR_UNAVAILABLE)
        },
    }
}

/// Entry of the per-worker streaming probe: `0` on success, `1` on failure.
pub fn perf(ctx: &ProbeContext, chan: &mut PerfChannel, w: usize) -> (r: u32)
    requires
        old(chan).wf(),
        old(chan).record_size() == PERF_EVENT_SIZE,
    ensures
        final(chan).wf(),
        final(chan).record_size() == old(chan).record_size(),
        final(chan).queue_capacity() == old(chan).queue_capacity(),
        r == status_code(perf_status(ctx, old(chan), w)),
        r != 0 ==> final(chan).queues() == old(chan).queues(),
        r == 0 ==> exists|e: PerfEvent| #[trigger] perf_stream_event(ctx, e) && final(chan).queues()
            == old(chan).queues().update(w as int, old(chan).queues()[w as int].push(perf_event_bytes(e))),
{
    match try_perf(ctx, chan, w) {
        Ok(ret) => ret,
        Err(_) => 1,
    }
}

} // verus!
