use vstd::prelude::*;
use crate::event::{Event, PerfEvent, MAX_PATH_LEN, TASK_NAME_LEN};

verus! {

/// Size in bytes of an encoded `Event`: uid, pid, task name, file path.
pub const EVENT_SIZE: usize = 280;

/// Byte offset of the task name inside an encoded `Event`.
pub const TASK_NAME_OFFSET: usize = 8;

/// Byte offset of the file path inside an encoded `Event`.
pub const FILE_PATH_OFFSET: usize = 24;

/// Size in bytes of an encoded `PerfEvent`.
pub const PERF_EVENT_SIZE: usize = 296;

/// Byte offset of the task name inside an encoded `PerfEvent`.
pub const PERF_TASK_NAME_OFFSET: usize = 24;

/// Byte offset of the file path inside an encoded `PerfEvent`.
pub const PERF_FILE_PATH_OFFSET: usize = 40;

/// The four little-endian bytes of `x`.
pub open spec fn u32_le(x: u32) -> Seq<u8> {
    seq![x as u8, (x >> 8u32) as u8, (x >> 16u32) as u8, (x >> 24u32) as u8]
}

/// The `u32` stored little-endian at `off` in `b`.
pub open spec fn read_u32_le(b: Seq<u8>, off: int) -> u32 {
    (b[off] as u32) | ((b[off + 1] as u32) << 8u32) | ((b[off + 2] as u32) << 16u32) | ((
    b[off + 3] as u32) << 24u32)
}

/// The eight little-endian bytes of `x`.
pub open spec fn u64_le(x: u64) -> Seq<u8> {
    u32_le(x as u32) + u32_le((x >> 32u64) as u32)
}

/// The `u64` stored little-endian at `off` in `b`.
pub open spec fn read_u64_le(b: Seq<u8>, off: int) -> u64 {
    (read_u32_le(b, off) as u64) | ((read_u32_le(b, off + 4) as u64) << 32u64)
}

/// The wire form of a `PerfEvent`.
pub open spec fn perf_event_bytes(e: PerfEvent) -> Seq<u8> {
    u32_le(e.uid) + u32_le(e.pid) + u32_le(e.ppid) + u32_le(e.flags) + u64_le(e.time)
        + e.task_name@ + e.file_path@
}

/// `e` is what the first `PERF_EVENT_SIZE` bytes of `b` hold.
pub open spec fn perf_decodes_to(b: Seq<u8>, e: PerfEvent) -> bool {
    &&& b.len() >= PERF_EVENT_SIZE
    &&& e.uid == read_u32_le(b, 0)
    &&& e.pid == read_u32_le(b, 4)
    &&& e.ppid == read_u32_le(b, 8)
    &&& e.flags == read_u32_le(b, 12)
    &&& e.time == read_u64_le(b, 16)
    &&& e.task_name@ == b.subrange(PERF_TASK_NAME_OFFSET as int, PERF_FILE_PATH_OFFSET as int)
    &&& e.file_path@ == b.subrange(PERF_FILE_PATH_OFFSET as int, PERF_EVENT_SIZE as int)
}

/// The wire form of an `Event`.
pub open spec fn event_bytes(e: Event) -> Seq<u8> {
    u32_le(e.uid) + u32_le(e.pid) + e.task_name@ + e.file_path@
}

/// `e` is what the first `EVENT_SIZE` bytes of `b` hold.
pub open spec fn decodes_to(b: Seq<u8>, e: Event) -> bool {
    &&& b.len() >= EVENT_SIZE
    &&& e.uid == read_u32_le(b, 0)
    &&& e.pid == read_u32_le(b, 4)
    &&& e.task_name@ == b.subrange(TASK_NAME_OFFSET as int, FILE_PATH_OFFSET as int)
    &&& e.file_path@ == b.subrange(FILE_PATH_OFFSET as int, EVENT_SIZE as int)
}

pub proof fn lemma_u32_le_round_trip(x: u32)
    ensures
        read_u32_le(u32_le(x), 0) == x,
{
    let b = u32_le(x);
    assert(b[0] == x as u8 && b[1] == (x >> 8u32) as u8 && b[2] == (x >> 16u32) as u8 && b[3]
        == (x >> 24u32) as u8);
    assert(((x as u8) as u32) | ((((x >> 8u32) as u8) as u32) << 8u32) | ((((x >> 16u32) as u8)
        as u32) << 16u32) | ((((x >> 24u32) as u8) as u32) << 24u32) == x) by (bit_vector);
}

pub proof fn lemma_u64_le_round_trip(x: u64)
    ensures
        read_u64_le(u64_le(x), 0) == x,
{
    let b = u64_le(x);
    lemma_u32_le_round_trip(x as u32);
    lemma_u32_le_round_trip((x >> 32u64) as u32);
    assert(b.subrange(0, 4) =~= u32_le(x as u32));
    assert(b.subrange(4, 8) =~= u32_le((x >> 32u64) as u32));
    lemma_read_u32_shift(b, 0, u32_le(x as u32));
    lemma_read_u32_shift(b, 4, u32_le((x >> 32u64) as u32));
    assert((((x as u32) as u64) | ((((x >> 32u64) as u32) as u64) << 32u64)) == x) by (bit_vector);
}

/// Reading at `off` only looks at the four bytes there.
pub proof fn lemma_read_u32_shift(b: Seq<u8>, off: int, w: Seq<u8>)
    requires
        0 <= off,
        off + 4 <= b.len(),
        b.subrange(off, off + 4) == w,
    ensures
        read_u32_le(b, off) == read_u32_le(w, 0),
{
    assert(b[off] == w[0]);
    assert(b[off + 1] == w[1]);
    assert(b[off + 2] == w[2]);
    assert(b[off + 3] == w[3]);
}

/// Appends the little-endian bytes of `x`.
pub fn push_u32_le(out: &mut Vec<u8>, x: u32)
    ensures
        final(out)@ == old(out)@ + u32_le(x),
{
    out.push(x as u8);
    out.push((x >> 8) as u8);
    out.push((x >> 16) as u8);
    out.push((x >> 24) as u8);
    assert(final(out)@ =~= old(out)@ + u32_le(x));
}

/// Appends the little-endian bytes of `x`.
pub fn push_u64_le(out: &mut Vec<u8>, x: u64)
    ensures
        final(out)@ == old(out)@ + u64_le(x),
{
    push_u32_le(out, x as u32);
    push_u32_le(out, (x >> 32) as u32);
    assert(final(out)@ =~= old(out)@ + u64_le(x));
}

/// Reads the little-endian `u64` at `off`.
pub fn get_u64_le(b: &[u8], off: usize) -> (r: u64)
    requires
        off + 8 <= b@.len(),
    ensures
        r == read_u64_le(b@, off as int),
{
    let _n = b.len();
    (get_u32_le(b, off) as u64) | ((get_u32_le(b, off + 4) as u64) << 32)
}

/// Appends the bytes of `a`.
pub fn push_bytes<const N: usize>(out: &mut Vec<u8>, a: &[u8; N])
    ensures
        final(out)@ == old(out)@ + a@,
{
    let mut i: usize = 0;
    while i < N
        invariant
            0 <= i <= N,
            a@.len() == N,
            out@ == old(out)@ + a@.subrange(0, i as int),
        decreases N - i,
    {
        out.push(a[i]);
        i = i + 1;
        assert(out@ =~= old(out)@ + a@.subrange(0, i as int));
    }
    assert(a@.subrange(0, N as int) =~= a@);
}

/// The `N` bytes of `b` from `off` on.
pub fn get_bytes<const N: usize>(b: &[u8], off: usize) -> (r: [u8; N])
    requires
        off + N <= b@.len(),
    ensures
        r@ == b@.subrange(off as int, off + N),
{
    let n = b.len();
    let mut r: [u8; N] = [0u8; N];
    let mut i: usize = 0;
    while i < N
        invariant
            0 <= i <= N,
            r@.len() == N,
            n == b@.len(),
            off + N <= b@.len(),
            forall|k: int| 0 <= k < i ==> r@[k] == b@[off + k],
        decreases N - i,
    {
        r[i] = b[off + i];
        i = i + 1;
    }
    assert(r@ =~= b@.subrange(off as int, off + N));
    r
}

/// Reads the little-endian `u32` at `off`.
pub fn get_u32_le(b: &[u8], off: usize) -> (r: u32)
    requires
        off + 4 <= b@.len(),
    ensures
        r == read_u32_le(b@, off as int),
{
    (b[off] as u32) | ((b[off + 1] as u32) << 8) | ((b[off + 2] as u32) << 16) | ((
    b[off + 3] as u32) << 24)
}

/// Encodes `e` in its fixed wire layout.
pub fn encode_event(e: &Event) -> (r: Vec<u8>)
    ensures
        r@ == event_bytes(*e),
        r@.len() == EVENT_SIZE,
{
    let mut out: Vec<u8> = Vec::with_capacity(EVENT_SIZE);
    push_u32_le(&mut out, e.uid);
    push_u32_le(&mut out, e.pid);
    let mut i: usize = 0;
    while i < TASK_NAME_LEN
        invariant
            0 <= i <= TASK_NAME_LEN,
            out@ == u32_le(e.uid) + u32_le(e.pid) + e.task_name@.subrange(0, i as int),
        decreases TASK_NAME_LEN - i,
    {
        out.push(e.task_name[i]);
        i = i + 1;
        assert(out@ =~= u32_le(e.uid) + u32_le(e.pid) + e.task_name@.subrange(0, i as int));
    }
    assert(e.task_name@.subrange(0, TASK_NAME_LEN as int) =~= e.task_name@);
    let mut j: usize = 0;
    while j < MAX_PATH_LEN
        invariant
            0 <= j <= MAX_PATH_LEN,
            out@ == u32_le(e.uid) + u32_le(e.pid) + e.task_name@ + e.file_path@.subrange(
                0,
                j as int,
            ),
        decreases MAX_PATH_LEN - j,
    {
        out.push(e.file_path[j]);
        j = j + 1;
        assert(out@ =~= u32_le(e.uid) + u32_le(e.pid) + e.task_name@ + e.file_path@.subrange(
            0,
            j as int,
        ));
    }
    assert(e.file_path@.subrange(0, MAX_PATH_LEN as int) =~= e.file_path@);
    out
}

/// Decodes an `Event` from the start of `buf`; a buffer shorter than
/// `EVENT_SIZE` is rejected whole.
pub fn parse_event(buf: &[u8]) -> (r: Result<Event, ()>)
    ensures
        r is Err <==> buf@.len() < EVENT_SIZE,
        r matches Ok(e) ==> decodes_to(buf@, e),
{
    if buf.len() < EVENT_SIZE {
        return Err(());
    }
    let uid = get_u32_le(buf, 0);
    let pid = get_u32_le(buf, 4);
    let mut task_name: [u8; TASK_NAME_LEN] = [0u8; TASK_NAME_LEN];
    let mut i: usize = 0;
    while i < TASK_NAME_LEN
        invariant
            0 <= i <= TASK_NAME_LEN,
            buf@.len() >= EVENT_SIZE,
            forall|k: int| 0 <= k < i ==> task_name@[k] == buf@[TASK_NAME_OFFSET + k],
        decreases TASK_NAME_LEN - i,
    {
        task_name[i] = buf[TASK_NAME_OFFSET + i];
        i = i + 1;
    }
    let mut file_path: [u8; MAX_PATH_LEN] = [0u8; MAX_PATH_LEN];
    let mut j: usize = 0;
    while j < MAX_PATH_LEN
        invariant
            0 <= j <= MAX_PATH_LEN,
            buf@.len() >= EVENT_SIZE,
            forall|k: int| 0 <= k < j ==> file_path@[k] == buf@[FILE_PATH_OFFSET + k],
        decreases MAX_PATH_LEN - j,
    {
        file_path[j] = buf[FILE_PATH_OFFSET + j];
        j = j + 1;
    }
    let e = Event { uid, pid, task_name, file_path };
    assert(e.task_name@ =~= buf@.subrange(TASK_NAME_OFFSET as int, FILE_PATH_OFFSET as int));
    assert(e.file_path@ =~= buf@.subrange(FILE_PATH_OFFSET as int, EVENT_SIZE as int));
    Ok(e)
}

/// Decoding the encoding of an event gives back every field, and the
/// encoding is exactly one record long.
pub proof fn lemma_event_round_trip(e: Event, d: Event)
    requires
        decodes_to(event_bytes(e), d),
    ensures
        event_bytes(e).len() == EVENT_SIZE,
        d.uid == e.uid,
        d.pid == e.pid,
        d.task_name@ == e.task_name@,
        d.file_path@ == e.file_path@,
{
    let b = event_bytes(e);
    lemma_u32_le_round_trip(e.uid);
    lemma_u32_le_round_trip(e.pid);
    assert(b.subrange(0, 4) =~= u32_le(e.uid));
    assert(b.subrange(4, 8) =~= u32_le(e.pid));
    assert(read_u32_le(b, 0) == read_u32_le(u32_le(e.uid), 0));
    assert(read_u32_le(b, 4) == read_u32_le(u32_le(e.pid), 0));
    assert(b.subrange(TASK_NAME_OFFSET as int, FILE_PATH_OFFSET as int) =~= e.task_name@);
    assert(b.subrange(FILE_PATH_OFFSET as int, EVENT_SIZE as int) =~= e.file_path@);
}

/// Any buffer that holds an event's encoding is decoded to that event.
pub proof fn lemma_parse_encoded(e: Event)
    ensures
        decodes_to(event_bytes(e), e),
{
    let b = event_bytes(e);
    lemma_u32_le_round_trip(e.uid);
    lemma_u32_le_round_trip(e.pid);
    assert(read_u32_le(b, 0) == read_u32_le(u32_le(e.uid), 0));
    assert(read_u32_le(b, 4) == read_u32_le(u32_le(e.pid), 0));
    assert(b.subrange(TASK_NAME_OFFSET as int, FILE_PATH_OFFSET as int) =~= e.task_name@);
    assert(b.subrange(FILE_PATH_OFFSET as int, EVENT_SIZE as int) =~= e.file_path@);
}

/// Encodes `e` in its fixed wire layout.
pub fn encode_perf_event(e: &PerfEvent) -> (r: Vec<u8>)
    ensures
        r@ == perf_event_bytes(*e),
        r@.len() == PERF_EVENT_SIZE,
{
    let mut out: Vec<u8> = Vec::with_capacity(PERF_EVENT_SIZE);
    push_u32_le(&mut out, e.uid);
    push_u32_le(&mut out, e.pid);
    push_u32_le(&mut out, e.ppid);
    push_u32_le(&mut out, e.flags);
    push_u64_le(&mut out, e.time);
    push_bytes(&mut out, &e.task_name);
    push_bytes(&mut out, &e.file_path);
    out
}

/// Decodes a `PerfEvent` from the start of `buf`; a buffer shorter than
/// `PERF_EVENT_SIZE` is rejected whole.
pub fn parse_perf_event(buf: &[u8]) -> (r: Result<PerfEvent, ()>)
    ensures
        r is Err <==> buf@.len() < PERF_EVENT_SIZE,
        r matches Ok(e) ==> perf_decodes_to(buf@, e),
{
    if buf.len() < PERF_EVENT_SIZE {
        return Err(());
    }
    Ok(
        PerfEvent {
            uid: get_u32_le(buf, 0),
            pid: get_u32_le(buf, 4),
            ppid: get_u32_le(buf, 8),
            flags: get_u32_le(buf, 12),
            time: get_u64_le(buf, 16),
            task_name: get_bytes(buf, PERF_TASK_NAME_OFFSET),
            file_path: get_bytes(buf, PERF_FILE_PATH_OFFSET),
        },
    )
}

/// Decoding the encoding of a `PerfEvent` gives back every field, and the
/// encoding is exactly one record long.
pub proof fn lemma_perf_event_round_trip(e: PerfEvent, d: PerfEvent)
    requires
        perf_decodes_to(perf_event_bytes(e), d),
    ensures
        perf_event_bytes(e).len() == PERF_EVENT_SIZE,
        d.uid == e.uid,
        d.pid == e.pid,
        d.ppid == e.ppid,
        d.flags == e.flags,
        d.time == e.time,
        d.task_name@ == e.task_name@,
        d.file_path@ == e.file_path@,
{
    let b = perf_event_bytes(e);
    lemma_u32_le_round_trip(e.uid);
    lemma_u32_le_round_trip(e.pid);
    lemma_u32_le_round_trip(e.ppid);
    lemma_u32_le_round_trip(e.flags);
    lemma_u64_le_round_trip(e.time);
    let t = u64_le(e.time);
    assert(b.subrange(0, 4) =~= u32_le(e.uid));
    assert(b.subrange(4, 8) =~= u32_le(e.pid));
    assert(b.subrange(8, 12) =~= u32_le(e.ppid));
    assert(b.subrange(12, 16) =~= u32_le(e.flags));
    assert(b.subrange(16, 20) =~= t.subrange(0, 4));
    assert(b.subrange(20, 24) =~= t.subrange(4, 8));
    lemma_read_u32_shift(b, 0, u32_le(e.uid));
    lemma_read_u32_shift(b, 4, u32_le(e.pid));
    lemma_read_u32_shift(b, 8, u32_le(e.ppid));
    lemma_read_u32_shift(b, 12, u32_le(e.flags));
    lemma_read_u32_shift(b, 16, t.subrange(0, 4));
    lemma_read_u32_shift(b, 20, t.subrange(4, 8));
    lemma_read_u32_shift(t, 0, t.subrange(0, 4));
    lemma_read_u32_shift(t, 4, t.subrange(4, 8));
    assert(b.subrange(PERF_TASK_NAME_OFFSET as int, PERF_FILE_PATH_OFFSET as int) =~= e.task_name@);
    assert(b.subrange(PERF_FILE_PATH_OFFSET as int, PERF_EVENT_SIZE as int) =~= e.file_path@);
}

} // verus!
