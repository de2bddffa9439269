use vstd::prelude::*;

verus! {

/// Number of slots of an allow-list.
pub const ALLOW_LIST_CAPACITY: usize = 1024;

/// A fixed-capacity set of uids, filled before traffic starts and only
/// read afterwards. A slot that was never set holds no uid.
pub struct AllowList {
    slots: Vec<Option<u32>>,
}

impl AllowList {
    pub open spec fn wf(&self) -> bool {
        self.slots().len() == ALLOW_LIST_CAPACITY
    }

    pub closed spec fn slots(&self) -> Seq<Option<u32>> {
        self.slots@
    }

    /// The uids held in any slot.
    pub open spec fn uids(&self) -> Set<u32> {
        Set::new(|u: u32| self.slots().contains(Some(u)))
    }

    /// An allow-list with every slot empty.
    pub fn new() -> (r: AllowList)
        ensures
            r.wf(),
            r.uids() == Set::<u32>::empty(),
            forall|i: int| 0 <= i < ALLOW_LIST_CAPACITY ==> r.slots()[i] is None,
    {
        let mut slots: Vec<Option<u32>> = Vec::with_capacity(ALLOW_LIST_CAPACITY);
        let mut i: usize = 0;
        while i < ALLOW_LIST_CAPACITY
            invariant
                0 <= i <= ALLOW_LIST_CAPACITY,
                slots@.len() == i,
                forall|j: int| 0 <= j < i ==> slots@[j] is None,
            decreases ALLOW_LIST_CAPACITY - i,
        {
            slots.push(None);
            i = i + 1;
        }
        let r = AllowList { slots };
        assert(r.uids() =~= Set::<u32>::empty());
        r
    }

    /// Stores `uid` in slot `index`; an index past the capacity is refused
    /// and leaves the list as it was.
    pub fn set(&mut self, index: usize, uid: u32) -> (ok: bool)
        requires
            old(self).wf(),
        ensures
            final(self).wf(),
            ok == (index < ALLOW_LIST_CAPACITY),
            ok ==> final(self).slots() == old(self).slots().update(index as int, Some(uid)),
            !ok ==> final(self).slots() == old(self).slots(),
    {
        if index >= ALLOW_LIST_CAPACITY {
            return false;
        }
        self.slots.set(index, Some(uid));
        true
    }
}

/// Whether `uid` is in the allow-list: a bounded scan of every slot.
pub fn check_valid_user(list: &AllowList, uid: u32) -> (r: bool)
    requires
        list.wf(),
    ensures
        r == list.uids().contains(uid),
{
    let mut i: usize = 0;
    while i < ALLOW_LIST_CAPACITY
        invariant
            list.wf(),
            0 <= i <= ALLOW_LIST_CAPACITY,
            forall|j: int| 0 <= j < i ==> list.slots()[j] != Some(uid),
        decreases ALLOW_LIST_CAPACITY - i,
    {
        match list.slots[i] {
            Some(user_id) => {
                if user_id == uid {
                    assert(list.slots().contains(Some(uid)));
                    return true;
                }
            },
            None => {},
        }
        i = i + 1;
    }
    assert(!list.slots().contains(Some(uid)));
    false
}

} // verus!
