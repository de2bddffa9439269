use vstd::prelude::*;
use crate::aggregation::{lemma_sum_nonneg, min_total, saturating_sum, sum_counts};

verus! {

/// Total of every per-worker counter listed for `uid` in a raw snapshot.
pub open spec fn uid_total(entries: Seq<(u32, Vec<u64>)>, uid: u32) -> int
    decreases entries.len(),
{
    if entries.len() == 0 {
        0
    } else {
        uid_total(entries.drop_last(), uid) + if entries.last().0 == uid {
            sum_counts(entries.last().1@)
        } else {
            0
        }
    }
}

pub open spec fn lists_uid(entries: Seq<(u32, Vec<u64>)>, uid: u32) -> bool {
    exists|j: int| 0 <= j < entries.len() && (#[trigger] entries[j]).0 == uid
}

pub open spec fn has_total_for(out: Seq<(u32, u64)>, uid: u32) -> bool {
    exists|k: int| 0 <= k < out.len() && (#[trigger] out[k]).0 == uid
}

proof fn lemma_total_absent(entries: Seq<(u32, Vec<u64>)>, uid: u32)
    requires
        !lists_uid(entries, uid),
    ensures
        uid_total(entries, uid) == 0,
    decreases entries.len(),
{
    if entries.len() > 0 {
        let p = entries.drop_last();
        assert(!lists_uid(p, uid)) by {
            if lists_uid(p, uid) {
                let j = choose|j: int| 0 <= j < p.len() && (#[trigger] p[j]).0 == uid;
                assert(entries[j] == p[j]);
            }
        }
        lemma_total_absent(p, uid);
        assert(entries[entries.len() - 1] == entries.last());
    }
}

proof fn lemma_total_nonneg(entries: Seq<(u32, Vec<u64>)>, uid: u32)
    ensures
        uid_total(entries, uid) >= 0,
    decreases entries.len(),
{
    if entries.len() > 0 {
        lemma_total_nonneg(entries.drop_last(), uid);
        lemma_sum_nonneg(entries.last().1@);
    }
}

/// Merges a raw snapshot of the aggregation table, one entry per uid
/// occurrence with its per-worker counters, into one total per uid, in
/// order of first occurrence. Totals saturate at `u64::MAX`.
#[verifier::loop_isolation(false)]
pub fn merge_totals(entries: &Vec<(u32, Vec<u64>)>) -> (r: Vec<(u32, u64)>)
    ensures
        forall|i: int, j: int| 0 <= i < j < r@.len() ==> r@[i].0 != r@[j].0,
        forall|uid: u32| has_total_for(r@, uid) <==> lists_uid(entries@, uid),
        forall|i: int| 0 <= i < r@.len() ==> (#[trigger] r@[i]).1 == min_total(
            uid_total(entries@, r@[i].0),
        ),
{
    let mut out: Vec<(u32, u64)> = Vec::new();
    let mut i: usize = 0;
    while i < entries.len()
        invariant
            0 <= i <= entries@.len(),
            forall|a: int, b: int| 0 <= a < b < out@.len() ==> out@[a].0 != out@[b].0,
            forall|uid: u32|
                has_total_for(out@, uid) <==> lists_uid(entries@.subrange(0, i as int), uid),
            forall|k: int| 0 <= k < out@.len() ==> (#[trigger] out@[k]).1 == min_total(
                uid_total(entries@.subrange(0, i as int), out@[k].0),
            ),
        decreases entries@.len() - i,
    {
        let uid = entries[i].0;
        let s = saturating_sum(&entries[i].1);
        let ghost prefix = entries@.subrange(0, i as int);
        let ghost next = entries@.subrange(0, i as int + 1);
        let ghost start = out@;
        assert(forall|u: u32| has_total_for(start, u) <==> lists_uid(prefix, u));
        let mut k: usize = 0;
        let mut found = false;
        while k < out.len() && !found
            invariant
                0 <= k <= out@.len(),
                found ==> k < out@.len() && out@[k as int].0 == uid,
                forall|j: int| 0 <= j < k ==> out@[j].0 != uid,
            decreases out@.len() - k + (if found { 0int } else { 1int }),
        {
            if out[k].0 == uid {
                found = true;
            } else {
                k = k + 1;
            }
        }
        proof {
            assert(next.drop_last() =~= prefix);
            assert(next.last() == entries@[i as int]);
            assert forall|u: u32| lists_uid(next, u) <==> (lists_uid(prefix, u) || u == uid) by {
                if lists_uid(next, u) {
                    let j = choose|j: int| 0 <= j < next.len() && (#[trigger] next[j]).0 == u;
                    if j < i {
                        assert(prefix[j] == next[j]);
                    }
                }
                if lists_uid(prefix, u) {
                    let j = choose|j: int| 0 <= j < prefix.len() && (#[trigger] prefix[j]).0 == u;
                    assert(next[j] == prefix[j]);
                }
                if u == uid {
                    assert(next[i as int] == entries@[i as int]);
                }
            }
            lemma_sum_nonneg(entries@[i as int].1@);
            lemma_total_nonneg(prefix, uid);
        }
        if found {
            let prev = out[k].1;
            let ghost before = out@;
            out.set(k, (uid, prev.saturating_add(s)));
            proof {
                assert(before[k as int].0 == uid);
                assert(has_total_for(before, uid));
                assert forall|u: u32| has_total_for(out@, u) <==> has_total_for(before, u) by {
                    if has_total_for(out@, u) {
                        let j = choose|j: int| 0 <= j < out@.len() && (#[trigger] out@[j]).0 == u;
                        assert(before[j].0 == u);
                    }
                    if has_total_for(before, u) {
                        let j = choose|j: int| 0 <= j < before.len() && (#[trigger] before[j]).0 == u;
                        assert(out@[j].0 == u);
                    }
                }
                assert forall|u: u32| has_total_for(out@, u) <==> lists_uid(next, u) by {
                    assert(has_total_for(start, u) <==> lists_uid(prefix, u));
                    assert(lists_uid(next, u) <==> (lists_uid(prefix, u) || u == uid));
                }
            }
        } else {
            proof {
                assert(!has_total_for(out@, uid));
                lemma_total_absent(prefix, uid);
            }
            let ghost before = out@;
            out.push((uid, s));
            proof {
                assert forall|u: u32| has_total_for(out@, u) <==> (has_total_for(before, u) || u == uid) by {
                    if has_total_for(out@, u) {
                        let j = choose|j: int| 0 <= j < out@.len() && (#[trigger] out@[j]).0 == u;
                        if j < before.len() {
                            assert(before[j].0 == u);
                        }
                    }
                    if has_total_for(before, u) {
                        let j = choose|j: int| 0 <= j < before.len() && (#[trigger] before[j]).0 == u;
                        assert(out@[j].0 == u);
                    }
                    if u == uid {
                        assert(out@[before.len() as int].0 == u);
                    }
                }
                assert forall|u: u32| has_total_for(out@, u) <==> lists_uid(next, u) by {
                    assert(has_total_for(start, u) <==> lists_uid(prefix, u));
                    assert(lists_uid(next, u) <==> (lists_uid(prefix, u) || u == uid));
                }
            }
        }
        i = i + 1;
        proof {
            assert(entries@.subrange(0, i as int) == next);
        }
    }
    assert(entries@.subrange(0, entries@.len() as int) =~= entries@);
    out
}

/// The bytes of a NUL-terminated field before its terminator, or `None`
/// when the field holds no terminator.
pub fn until_nul(field: &[u8]) -> (r: Option<Vec<u8>>)
    ensures
        r is None <==> forall|j: int| 0 <= j < field@.len() ==> field@[j] != 0,
        r matches Some(v) ==> v@.len() < field@.len() && v@ == field@.subrange(0, v@.len() as int)
            && field@[v@.len() as int] == 0 && forall|j: int| 0 <= j < v@.len() ==> v@[j] != 0,
{
    let mut out: Vec<u8> = Vec::new();
    let mut i: usize = 0;
    while i < field.len()
        invariant
            0 <= i <= field@.len(),
            out@ == field@.subrange(0, i as int),
            forall|j: int| 0 <= j < i ==> field@[j] != 0,
        decreases field@.len() - i,
    {
        if field[i] == 0 {
            return Some(out);
        }
        out.push(field[i]);
        i = i + 1;
        assert(out@ =~= field@.subrange(0, i as int));
    }
    None
}

} // verus!
