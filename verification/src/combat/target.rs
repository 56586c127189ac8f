//! The lock of the live world: which seated hostile is targeted, and the Tab cycle.

use vstd::prelude::*;

verus! {

/// A target by its index, the candidates it was taken from and its place among them.
#[derive(Clone, Debug)]
pub struct TargetLock {
    pub actor_idx: i32,
    pub cycle: Vec<i32>,
    pub cycle_i: usize,
}

impl TargetLock {
    /// No lock.
    pub fn clear() -> (r: Option<Self>)
        ensures
            r is None,
    {
        None
    }
}

/// What is locked, and the candidates Tab walks over.
#[derive(Clone, Debug)]
pub struct LockState {
    pub lock: Option<i32>,
    pub cycle: Vec<i32>,
}

/// The place of the first `id` from `from` on.
pub open spec fn index_place(ids: Seq<i32>, id: i32, from: int) -> Option<int>
    decreases ids.len() - from,
{
    if from < 0 || from >= ids.len() {
        None
    } else if ids[from] == id {
        Some(from)
    } else {
        index_place(ids, id, from + 1)
    }
}

/// What Tab locks: nothing without candidates, the first of new ones, else the one
/// after the locked one, nothing after the last.
pub open spec fn tabbed(lock: Option<i32>, cycle: Seq<i32>, ids: Seq<i32>) -> Option<i32> {
    if ids.len() == 0 {
        None
    } else if cycle != ids {
        Some(ids[0])
    } else {
        match lock {
            None => Some(ids[0]),
            Some(cur) => match index_place(ids, cur, 0) {
                None => Some(ids[0]),
                Some(i) => if i + 1 < ids.len() {
                    Some(ids[i + 1])
                } else {
                    None
                },
            },
        }
    }
}

/// The candidates without those that left.
pub open spec fn without(ids: Seq<i32>, gone: Seq<i32>) -> Seq<i32>
    decreases ids.len(),
{
    if ids.len() == 0 {
        Seq::empty()
    } else if gone.contains(ids.last()) {
        without(ids.drop_last(), gone)
    } else {
        without(ids.drop_last(), gone).push(ids.last())
    }
}

fn holds(ids: &[i32], id: i32) -> (r: bool)
    ensures
        r == ids@.contains(id),
{
    let mut i: usize = 0;
    while i < ids.len()
        invariant
            i <= ids@.len(),
            forall|j: int| 0 <= j < i ==> ids@[j] != id,
        decreases ids@.len() - i,
    {
        if ids[i] == id {
            assert(ids@[i as int] == id);
            return true;
        }
        i += 1;
    }
    false
}

fn same_ids(a: &[i32], b: &[i32]) -> (r: bool)
    ensures
        r == (a@ == b@),
{
    if a.len() != b.len() {
        return false;
    }
    let mut i: usize = 0;
    while i < a.len()
        invariant
            i <= a@.len(),
            a@.len() == b@.len(),
            forall|j: int| 0 <= j < i ==> a@[j] == b@[j],
        decreases a@.len() - i,
    {
        if a[i] != b[i] {
            assert(a@[i as int] != b@[i as int]);
            return false;
        }
        i += 1;
    }
    assert(a@ =~= b@);
    true
}

fn copied(ids: &[i32]) -> (r: Vec<i32>)
    ensures
        r@ == ids@,
{
    let mut out: Vec<i32> = Vec::new();
    let mut i: usize = 0;
    while i < ids.len()
        invariant
            i <= ids@.len(),
            out@ == ids@.take(i as int),
        decreases ids@.len() - i,
    {
        out.push(ids[i]);
        i += 1;
        assert(out@ =~= ids@.take(i as int));
    }
    assert(out@ =~= ids@);
    out
}

impl LockState {
    pub fn new() -> (r: Self)
        ensures
            r.lock is None,
            r.cycle@.len() == 0,
    {
        LockState { lock: None, cycle: Vec::new() }
    }

    /// Tab, given the hostiles ahead, nearest first.
    pub fn press_tab(&mut self, ids: &[i32])
        ensures
            final(self).lock == tabbed(old(self).lock, old(self).cycle@, ids@),
            final(self).cycle@ == ids@,
    {
        if ids.len() == 0 {
            self.lock = None;
            self.cycle = Vec::new();
            assert(self.cycle@ =~= ids@);
            return;
        }
        if !same_ids(self.cycle.as_slice(), ids) {
            self.cycle = copied(ids);
            self.lock = Some(ids[0]);
            return;
        }
        match self.lock {
            None => {
                self.lock = Some(ids[0]);
            },
            Some(cur) => {
                let mut i: usize = 0;
                while i < ids.len() && ids[i] != cur
                    invariant
                        i <= ids@.len(),
                        index_place(ids@, cur, 0) == index_place(ids@, cur, i as int),
                    decreases ids@.len() - i,
                {
                    i += 1;
                }
                if i == ids.len() {
                    self.lock = Some(ids[0]);
                } else if i + 1 < ids.len() {
                    self.lock = Some(ids[i + 1]);
                } else {
                    self.lock = None;
                }
            },
        }
    }

    /// A click: locks the nearest of the hostiles ahead.
    pub fn click_lock(&mut self, ids: &[i32])
        ensures
            final(self).lock == if ids@.len() > 0 {
                Some(ids@[0])
            } else {
                None
            },
            final(self).cycle@ == ids@,
    {
        self.lock = if ids.len() > 0 {
            Some(ids[0])
        } else {
            None
        };
        self.cycle = copied(ids);
    }

    pub fn set_lock(&mut self, lock: Option<i32>)
        ensures
            final(self).lock == lock,
            final(self).cycle@ == old(self).cycle@,
    {
        self.lock = lock;
    }

    /// Lets go of a hostile that died.
    pub fn release(&mut self, idx: i32)
        ensures
            final(self).lock == if old(self).lock == Some(idx) {
                None
            } else {
                old(self).lock
            },
            final(self).cycle@ == old(self).cycle@,
    {
        match self.lock {
            Some(cur) => {
                if cur == idx {
                    self.lock = None;
                }
            },
            None => {},
        }
    }

    /// Lets go of whatever is no longer seated.
    pub fn retain(&mut self, seated: &[i32])
        ensures
            final(self).lock == match old(self).lock {
                Some(idx) => if seated@.contains(idx) {
                    Some(idx)
                } else {
                    None
                },
                None => None,
            },
            final(self).cycle@ == old(self).cycle@,
    {
        match self.lock {
            Some(idx) => {
                if !holds(seated, idx) {
                    self.lock = None;
                }
            },
            None => {},
        }
    }

    /// Forgets hostiles that left the world.
    pub fn forget(&mut self, gone: &[i32])
        ensures
            final(self).lock == match old(self).lock {
                Some(idx) => if gone@.contains(idx) {
                    None
                } else {
                    Some(idx)
                },
                None => None,
            },
            final(self).cycle@ == without(old(self).cycle@, gone@),
    {
        match self.lock {
            Some(idx) => {
                if holds(gone, idx) {
                    self.lock = None;
                }
            },
            None => {},
        }
        let mut kept: Vec<i32> = Vec::new();
        let ghost was = self.cycle@;
        let mut i: usize = 0;
        while i < self.cycle.len()
            invariant
                i <= self.cycle@.len(),
                self.cycle@ == was,
                kept@ == without(was.take(i as int), gone@),
                self.lock == match old(self).lock {
                    Some(idx) => if gone@.contains(idx) {
                        None
                    } else {
                        Some(idx)
                    },
                    None => None,
                },
            decreases self.cycle@.len() - i,
        {
            proof {
                assert(was.take(i + 1).drop_last() =~= was.take(i as int));
            }
            if !holds(gone, self.cycle[i]) {
                kept.push(self.cycle[i]);
            }
            i += 1;
        }
        assert(was.take(i as int) =~= was);
        self.cycle = kept;
    }

    /// Starts over.
    pub fn reset(&mut self)
        ensures
            final(self).lock is None,
            final(self).cycle@.len() == 0,
    {
        self.lock = None;
        self.cycle = Vec::new();
    }
}

proof fn lemma_without(ids: Seq<i32>, gone: Seq<i32>, id: i32)
    ensures
        without(ids, gone).contains(id) <==> ids.contains(id) && !gone.contains(id),
    decreases ids.len(),
{
    if ids.len() > 0 {
        let rest = ids.drop_last();
        lemma_without(rest, gone, id);
        let kept = without(rest, gone);
        let all = without(ids, gone);
        assert(ids.contains(id) <==> rest.contains(id) || ids.last() == id) by {
            if ids.contains(id) {
                let k = choose|k: int| 0 <= k < ids.len() && ids[k] == id;
                if k < ids.len() - 1 {
                    assert(rest[k] == id);
                }
            }
            if rest.contains(id) {
                let k = choose|k: int| 0 <= k < rest.len() && rest[k] == id;
                assert(ids[k] == id);
            }
            if ids.last() == id {
                assert(ids[ids.len() - 1] == id);
            }
        }
        if !gone.contains(ids.last()) {
            assert(all.contains(id) <==> kept.contains(id) || ids.last() == id) by {
                if all.contains(id) {
                    let k = choose|k: int| 0 <= k < all.len() && all[k] == id;
                    if k < all.len() - 1 {
                        assert(kept[k] == id);
                    }
                }
                if kept.contains(id) {
                    let k = choose|k: int| 0 <= k < kept.len() && kept[k] == id;
                    assert(all[k] == id);
                }
                if ids.last() == id {
                    assert(all[all.len() - 1] == id);
                }
            }
        }
    }
}

/// A hostile that left is neither locked nor a candidate any more; one that stayed is
/// what it was.
pub proof fn law_forgotten_are_gone(ids: Seq<i32>, gone: Seq<i32>, id: i32)
    ensures
        gone.contains(id) ==> !without(ids, gone).contains(id),
        !gone.contains(id) ==> without(ids, gone).contains(id) == ids.contains(id),
{
    lemma_without(ids, gone, id);
}

} // verus!
