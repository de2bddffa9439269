use vstd::prelude::*;

verus! {

/// Capacity of the task-name field, terminator included.
pub const TASK_NAME_LEN: usize = 16;

/// Capacity of the file-path field, terminator included.
pub const MAX_PATH_LEN: usize = 256;

/// Per-uid counter kept by the aggregation table, one instance per worker.
#[derive(Debug, Clone, Copy)]
pub struct FileOpenInfo {
    pub count: u64,
}

/// The fixed-layout record handed from the probe to a streaming transport.
#[derive(Debug, Clone, Copy)]
pub struct Event {
    pub uid: u32,
    pub pid: u32,
    pub task_name: [u8; TASK_NAME_LEN],
    pub file_path: [u8; MAX_PATH_LEN],
}

/// The fixed-layout record of the per-worker streaming variant, which also
/// carries the task's pid as seen by the kernel, the open flags and a
/// monotonic timestamp in nanoseconds.
#[derive(Debug, Clone, Copy)]
pub struct PerfEvent {
    pub uid: u32,
    pub pid: u32,
    pub ppid: u32,
    pub flags: u32,
    pub time: u64,
    pub task_name: [u8; TASK_NAME_LEN],
    pub file_path: [u8; MAX_PATH_LEN],
}

/// `n` is the length of the NUL-terminated string at the start of `s`:
/// no NUL before `n`, and either `s` ends at `n` or holds a NUL there.
pub open spec fn is_str_len(s: Seq<u8>, n: int) -> bool {
    &&& 0 <= n <= s.len()
    &&& forall|j: int| 0 <= j < n ==> s[j] != 0
    &&& (n == s.len() || s[n] == 0)
}

/// Length of the string at the start of `s`, stopping at the first NUL.
pub fn str_len(s: &[u8]) -> (n: usize)
    ensures
        is_str_len(s@, n as int),
{
    let mut i: usize = 0;
    while i < s.len()
        invariant
            0 <= i <= s@.len(),
            forall|j: int| 0 <= j < i ==> s@[j] != 0,
        decreases s@.len() - i,
    {
        if s[i] == 0 {
            return i;
        }
        i = i + 1;
    }
    i
}

/// What a bounded string copy of `src` into `dest` leaves in `after`:
/// the first `n` bytes of `src` (`n` its string length, cut to `dest`'s
/// capacity less one), a terminator, and the rest of `dest` untouched.
pub open spec fn str_copied(src: Seq<u8>, dest: Seq<u8>, after: Seq<u8>, n: int) -> bool {
    &&& dest.len() >= 1
    &&& after.len() == dest.len()
    &&& n < dest.len()
    &&& (is_str_len(src, n) || (n == dest.len() - 1 && n <= src.len() && forall|j: int|
        0 <= j < n ==> src[j] != 0))
    &&& after.subrange(0, n) == src.subrange(0, n)
    &&& after[n] == 0
    &&& after.subrange(n + 1, after.len() as int) == dest.subrange(n + 1, dest.len() as int)
}

/// Copies the NUL-terminated string at the start of `src` into `dest`,
/// truncated to `N - 1` bytes, and always writes the terminator; bytes of
/// `dest` past the terminator are left as they were. Returns the number of
/// string bytes copied.
pub fn copy_str_bytes<const N: usize>(src: &[u8], dest: &mut [u8; N]) -> (n: usize)
    requires
        N >= 1,
    ensures
        str_copied(src@, old(dest)@, final(dest)@, n as int),
{
    let mut i: usize = 0;
    while i < N - 1 && i < src.len() && src[i] != 0
        invariant
            N >= 1,
            0 <= i < N,
            i <= src@.len(),
            dest@.len() == N,
            forall|j: int| 0 <= j < i ==> src@[j] != 0,
            forall|j: int| 0 <= j < i ==> dest@[j] == src@[j],
            forall|j: int| i <= j < N ==> dest@[j] == old(dest)@[j],
        decreases N - i,
    {
        dest[i] = src[i];
        i = i + 1;
    }
    dest[i] = 0;
    assert(dest@.subrange(0, i as int) =~= src@.subrange(0, i as int));
    assert(dest@.subrange(i + 1, N as int) =~= old(dest)@.subrange(i + 1, N as int));
    i
}

} // verus!
