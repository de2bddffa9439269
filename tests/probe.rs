use kprobe_events::aggregation::AggregationTable;
use kprobe_events::allow_list::AllowList;
use kprobe_events::codec::{parse_event, parse_perf_event, EVENT_SIZE, PERF_EVENT_SIZE};
use kprobe_events::perf::PerfChannel;
use kprobe_events::probe::{
    array, file_open, hashmap, perf, ringbuf, try_array, try_file_open, try_hashmap, try_perf,
    try_ringbuf, DentryRef, FileRef, NameRef, PathRef, ProbeContext, ScratchBuffer, ERR_FAULT,
    ERR_UNAVAILABLE,
};
use kprobe_events::ring::RingChannel;

fn target(name: Option<Vec<u8>>) -> FileRef {
    FileRef {
        f_path: Some(PathRef { dentry: Some(DentryRef { d_name: Some(NameRef { name }) }) }),
        f_flags: Some(0o2),
    }
}

fn ctx(uid: u32, name: &[u8]) -> ProbeContext {
    let mut comm = [0u8; 16];
    comm[..4].copy_from_slice(b"bash");
    ProbeContext {
        target: Some(target(Some(name.to_vec()))),
        uid_gid: (5u64 << 32) | uid as u64,
        pid_tgid: (321u64 << 32) | 322,
        comm: Some(comm),
        parent_pid: Some(322),
        ktime_ns: 99,
    }
}

#[test]
fn filter_skips_unlisted_uid_without_side_effects() {
    let mut list = AllowList::new();
    list.set(0, 1000);
    let mut scratch = ScratchBuffer::new(2);
    let c = ctx(1001, b"secret\0");
    assert_eq!(try_array(&c, &list, &mut scratch, 0), Ok(0));
    assert_eq!(scratch.slot(0), [0u8; 1024]);
    assert_eq!(scratch.slot(1), [0u8; 1024]);
}

#[test]
fn filter_stages_name_for_listed_uid() {
    let mut list = AllowList::new();
    list.set(3, 1000);
    let mut scratch = ScratchBuffer::new(2);
    let c = ctx(1000, b"notes.txt\0");
    assert_eq!(array(&c, &list, &mut scratch, 1), 0);
    assert_eq!(&scratch.slot(1)[..10], b"notes.txt\0");
    assert_eq!(scratch.slot(0), [0u8; 1024]);
}

#[test]
fn filter_fails_on_unreadable_hop() {
    let mut list = AllowList::new();
    list.set(0, 7);
    let mut scratch = ScratchBuffer::new(1);
    let mut c = ctx(7, b"x");
    c.target = Some(FileRef { f_path: Some(PathRef { dentry: None }), f_flags: None });
    assert_eq!(try_array(&c, &list, &mut scratch, 0), Err(ERR_FAULT));
    assert_eq!(array(&c, &list, &mut scratch, 0), 1);
    c.target = None;
    assert_eq!(try_array(&c, &list, &mut scratch, 0), Err(ERR_UNAVAILABLE));
    assert_eq!(scratch.slot(0), [0u8; 1024]);
}

#[test]
fn file_open_reports_uid_and_short_name() {
    let c = ctx(42, b"a_rather_long_file_name.txt");
    let notice = try_file_open(&c).unwrap();
    assert_eq!(notice.uid, 42);
    assert_eq!(notice.len, 15);
    assert_eq!(&notice.name[..15], b"a_rather_long_f");
    assert_eq!(notice.name[15], 0);
    assert_eq!(file_open(&c), 0);
    let mut bad = ctx(42, b"x");
    bad.target = Some(target(None));
    assert_eq!(file_open(&bad), 1);
}

#[test]
fn hashmap_probe_counts_per_worker() {
    let mut t = AggregationTable::new(2, 8);
    let c = ctx(1000, b"f");
    for _ in 0..3 {
        assert_eq!(try_hashmap(&c, &mut t, 0), Ok(0));
    }
    assert_eq!(hashmap(&c, &mut t, 1), 0);
    assert_eq!(hashmap(&c, &mut t, 1), 0);
    assert_eq!(t.snapshot(), vec![(1000, 5)]);
    assert_eq!(hashmap(&c, &mut t, 2), 1);
}

#[test]
fn ringbuf_probe_publishes_decodable_event() {
    let mut ring = RingChannel::new(EVENT_SIZE * 4, EVENT_SIZE);
    let c = ctx(1000, b"hosts\0junk");
    assert_eq!(try_ringbuf(&c, &mut ring), Ok(0));
    let rec = ring.next().unwrap();
    assert_eq!(rec.len(), EVENT_SIZE);
    let e = parse_event(&rec).unwrap();
    assert_eq!(e.uid, 1000);
    assert_eq!(e.pid, 321);
    assert_eq!(&e.task_name[..5], b"bash\0");
    assert_eq!(&e.file_path[..6], b"hosts\0");
    assert!(e.file_path[6..].iter().all(|b| *b == 0));
}

#[test]
fn ringbuf_probe_truncates_long_path() {
    let mut ring = RingChannel::new(EVENT_SIZE, EVENT_SIZE);
    let long = vec![b'p'; 400];
    assert_eq!(ringbuf(&ctx(1, &long), &mut ring), 0);
    let e = parse_event(&ring.next().unwrap()).unwrap();
    assert!(e.file_path[..255].iter().all(|b| *b == b'p'));
    assert_eq!(e.file_path[255], 0);
    assert_eq!(e.uid, 1);
    assert_eq!(&e.task_name[..4], b"bash");
}

#[test]
fn ringbuf_probe_discards_half_built_record() {
    let mut ring = RingChannel::new(EVENT_SIZE * 2, EVENT_SIZE);
    let mut c = ctx(1, b"f");
    c.comm = None;
    assert_eq!(try_ringbuf(&c, &mut ring), Err(ERR_UNAVAILABLE));
    let mut c2 = ctx(1, b"f");
    c2.target = Some(target(None));
    assert_eq!(try_ringbuf(&c2, &mut ring), Err(ERR_UNAVAILABLE));
    assert!(ring.next().is_none());
    assert_eq!(ringbuf(&ctx(2, b"g"), &mut ring), 0);
    assert_eq!(ringbuf(&ctx(3, b"h"), &mut ring), 0);
    assert_eq!(ringbuf(&ctx(4, b"i"), &mut ring), 1);
    assert_eq!(parse_event(&ring.next().unwrap()).unwrap().uid, 2);
    assert_eq!(parse_event(&ring.next().unwrap()).unwrap().uid, 3);
    assert!(ring.next().is_none());
}

#[test]
fn perf_probe_sends_full_record_on_worker_queue() {
    let mut chan = PerfChannel::new(2, 1, PERF_EVENT_SIZE);
    let c = ctx(1000, b"data.bin\0");
    assert_eq!(try_perf(&c, &mut chan, 1), Ok(0));
    assert_eq!(perf(&c, &mut chan, 1), 1);
    assert_eq!(try_perf(&c, &mut chan, 2), Err(ERR_UNAVAILABLE));
    let mut noflags = ctx(1000, b"x");
    noflags.target.as_mut().unwrap().f_flags = None;
    assert_eq!(try_perf(&noflags, &mut chan, 0), Err(ERR_FAULT));
    assert!(chan.read_events(0, 10).is_empty());
    let recs = chan.read_events(1, 10);
    assert_eq!(recs.len(), 1);
    let e = parse_perf_event(&recs[0]).unwrap();
    assert_eq!(e.uid, 1000);
    assert_eq!(e.pid, 321);
    assert_eq!(e.ppid, 322);
    assert_eq!(e.flags, 0o2);
    assert_eq!(e.time, 99);
    assert_eq!(&e.file_path[..9], b"data.bin\0");
}

#[test]
fn filter_succeeds_for_unlisted_uid_without_target() {
    let mut list = AllowList::new();
    list.set(0, 1000);
    let mut scratch = ScratchBuffer::new(1);
    let mut c = ctx(1001, b"x");
    c.target = None;
    assert_eq!(try_array(&c, &list, &mut scratch, 0), Ok(0));
    assert_eq!(array(&c, &list, &mut scratch, 5), 0);
    assert_eq!(scratch.slot(0), [0u8; 1024]);
}

#[test]
fn task_name_without_nul_is_truncated_and_terminated() {
    let mut ring = RingChannel::new(EVENT_SIZE, EVENT_SIZE);
    let mut c = ctx(9, b"f\0");
    c.comm = Some([b'1'; 16]);
    assert_eq!(try_ringbuf(&c, &mut ring), Ok(0));
    let e = parse_event(&ring.next().unwrap()).unwrap();
    assert_eq!(&e.task_name[..15], &[b'1'; 15]);
    assert_eq!(e.task_name[15], 0);

    let mut chan = PerfChannel::new(1, 1, PERF_EVENT_SIZE);
    assert_eq!(try_perf(&c, &mut chan, 0), Ok(0));
    let p = parse_perf_event(&chan.read_events(0, 1)[0]).unwrap();
    assert_eq!(&p.task_name[..15], &[b'1'; 15]);
    assert_eq!(p.task_name[15], 0);
}

#[test]
fn perf_probe_aborts_when_task_copy_fails() {
    let mut chan = PerfChannel::new(1, 4, PERF_EVENT_SIZE);
    let mut c = ctx(1, b"f");
    c.parent_pid = None;
    assert_eq!(try_perf(&c, &mut chan, 0), Err(ERR_FAULT));
    assert_eq!(perf(&c, &mut chan, 0), 1);
    assert!(chan.read_events(0, 4).is_empty());
}
