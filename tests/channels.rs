use kprobe_events::perf::{OutputError, PerfChannel};
use kprobe_events::ring::RingChannel;

#[test]
fn ring_submit_is_fifo_and_discard_is_invisible() {
    let mut ring = RingChannel::new(12, 4);
    let mut a = ring.reserve().unwrap();
    assert!(a.write(0, &[1, 1, 1, 1]));
    let mut b = ring.reserve().unwrap();
    assert!(b.write(0, &[2, 2, 2, 2]));
    let c = ring.reserve().unwrap();
    ring.discard(c);
    ring.submit(b);
    ring.submit(a);
    assert_eq!(ring.next(), Some(vec![2, 2, 2, 2]));
    assert_eq!(ring.next(), Some(vec![1, 1, 1, 1]));
    assert_eq!(ring.next(), None);
}

#[test]
fn ring_full_refuses_reservation() {
    let mut ring = RingChannel::new(8, 4);
    let mut a = ring.reserve().unwrap();
    assert!(a.write(0, &[9, 9, 9, 9]));
    ring.submit(a);
    let b = ring.reserve().unwrap();
    assert!(ring.reserve().is_none());
    ring.discard(b);
    assert_eq!(ring.next(), Some(vec![9, 9, 9, 9]));
    assert_eq!(ring.next(), None);
    assert!(ring.reserve().is_some());
}

#[test]
fn reservation_write_out_of_bounds_is_refused() {
    let mut ring = RingChannel::new(8, 4);
    let mut a = ring.reserve().unwrap();
    assert!(!a.write(2, &[1, 2, 3]));
    assert!(a.write(2, &[1, 2]));
    ring.submit(a);
    assert_eq!(ring.next(), Some(vec![0, 0, 1, 2]));
}

#[test]
fn perf_queues_are_per_worker_fifo() {
    let mut chan = PerfChannel::new(2, 3, 2);
    chan.output(0, &[1, 0]).unwrap();
    chan.output(1, &[9, 9]).unwrap();
    chan.output(0, &[2, 0]).unwrap();
    chan.output(0, &[3, 0]).unwrap();
    assert_eq!(chan.output(0, &[4, 0]), Err(OutputError::Full));
    assert_eq!(chan.output(2, &[4, 0]), Err(OutputError::NoSuchWorker));
    assert_eq!(chan.read_events(0, 2), vec![vec![1, 0], vec![2, 0]]);
    assert_eq!(chan.read_events(0, 10), vec![vec![3, 0]]);
    assert_eq!(chan.read_events(0, 10), Vec::<Vec<u8>>::new());
    assert_eq!(chan.read_events(1, 10), vec![vec![9, 9]]);
}
