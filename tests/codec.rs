use kprobe_events::codec::{
    encode_event, encode_perf_event, parse_event, parse_perf_event, EVENT_SIZE, PERF_EVENT_SIZE,
};
use kprobe_events::event::{Event, PerfEvent, MAX_PATH_LEN, TASK_NAME_LEN};

fn sample_event() -> Event {
    let mut task_name = [0u8; TASK_NAME_LEN];
    task_name[..4].copy_from_slice(b"bash");
    let mut file_path = [0u8; MAX_PATH_LEN];
    file_path[..10].copy_from_slice(b"/etc/hosts");
    file_path[255] = 0x7f;
    Event { uid: 0x0102_0304, pid: 4242, task_name, file_path }
}

#[test]
fn event_round_trip() {
    let e = sample_event();
    let bytes = encode_event(&e);
    assert_eq!(bytes.len(), EVENT_SIZE);
    let d = parse_event(&bytes).unwrap();
    assert_eq!(d.uid, e.uid);
    assert_eq!(d.pid, e.pid);
    assert_eq!(d.task_name, e.task_name);
    assert_eq!(d.file_path, e.file_path);
}

#[test]
fn event_layout_is_little_endian_and_fixed() {
    let e = sample_event();
    let bytes = encode_event(&e);
    assert_eq!(&bytes[0..4], &[4, 3, 2, 1]);
    assert_eq!(&bytes[4..8], &4242u32.to_le_bytes());
    assert_eq!(&bytes[8..12], b"bash");
    assert_eq!(bytes[24], b'/');
    assert_eq!(bytes[EVENT_SIZE - 1], 0x7f);
}

#[test]
fn short_buffer_is_rejected() {
    let bytes = encode_event(&sample_event());
    assert!(parse_event(&bytes[..EVENT_SIZE - 1]).is_err());
    assert!(parse_event(&[]).is_err());
}

#[test]
fn longer_buffer_decodes_its_prefix() {
    let e = sample_event();
    let mut bytes = encode_event(&e);
    bytes.extend_from_slice(&[9, 9, 9]);
    let d = parse_event(&bytes).unwrap();
    assert_eq!(d.uid, e.uid);
    assert_eq!(d.file_path, e.file_path);
}

#[test]
fn perf_event_round_trip() {
    let mut task_name = [0u8; TASK_NAME_LEN];
    task_name[..3].copy_from_slice(b"cat");
    let mut file_path = [0u8; MAX_PATH_LEN];
    file_path[..3].copy_from_slice(b"abc");
    let e = PerfEvent {
        uid: 1000,
        pid: 77,
        ppid: 78,
        flags: 0o100002,
        time: 0x0102_0304_0506_0708,
        task_name,
        file_path,
    };
    let bytes = encode_perf_event(&e);
    assert_eq!(bytes.len(), PERF_EVENT_SIZE);
    assert_eq!(&bytes[16..24], &[8, 7, 6, 5, 4, 3, 2, 1]);
    let d = parse_perf_event(&bytes).unwrap();
    assert_eq!(d.uid, 1000);
    assert_eq!(d.pid, 77);
    assert_eq!(d.ppid, 78);
    assert_eq!(d.flags, 0o100002);
    assert_eq!(d.time, 0x0102_0304_0506_0708);
    assert_eq!(d.task_name, task_name);
    assert_eq!(d.file_path, file_path);
    assert!(parse_perf_event(&bytes[..PERF_EVENT_SIZE - 1]).is_err());
}
