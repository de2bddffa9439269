use kprobe_events::collector::until_nul;
use kprobe_events::event::{copy_str_bytes, str_len};

#[test]
fn str_len_stops_at_nul() {
    assert_eq!(str_len(b"abc\0def"), 3);
    assert_eq!(str_len(b"abc"), 3);
    assert_eq!(str_len(b""), 0);
}

#[test]
fn copy_truncates_long_string_and_terminates() {
    let src = vec![b'x'; 300];
    let mut dest = [7u8; 256];
    let n = copy_str_bytes(&src, &mut dest);
    assert_eq!(n, 255);
    assert!(dest[..255].iter().all(|b| *b == b'x'));
    assert_eq!(dest[255], 0);
}

#[test]
fn copy_short_string_keeps_rest_of_dest() {
    let mut dest = [7u8; 8];
    let n = copy_str_bytes(b"ab\0zz", &mut dest);
    assert_eq!(n, 2);
    assert_eq!(dest, [b'a', b'b', 0, 7, 7, 7, 7, 7]);
}

#[test]
fn copy_into_one_byte_dest_writes_only_terminator() {
    let mut dest = [5u8; 1];
    assert_eq!(copy_str_bytes(b"abc", &mut dest), 0);
    assert_eq!(dest, [0]);
}

#[test]
fn until_nul_finds_terminator() {
    assert_eq!(until_nul(b"bash\0\0\0"), Some(b"bash".to_vec()));
    assert_eq!(until_nul(b"\0"), Some(vec![]));
    assert_eq!(until_nul(b"abc"), None);
}
