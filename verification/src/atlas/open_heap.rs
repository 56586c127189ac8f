//! The open list of a route search: a binary heap that gives out the entry with
//! the lowest estimate, and of equals the one with the highest cell.

use vstd::multiset::Multiset;
use vstd::prelude::*;

verus! {

/// Whether entry `a` (estimate, cell) comes out before entry `b`.
pub open spec fn comes_first(a: (u64, i32), b: (u64, i32)) -> bool {
    a.0 < b.0 || (a.0 == b.0 && a.1 > b.1)
}

fn is_before(a: (u64, i32), b: (u64, i32)) -> (r: bool)
    ensures
        r == comes_first(a, b),
{
    a.0 < b.0 || (a.0 == b.0 && a.1 > b.1)
}

spec fn parent(i: int) -> int {
    (i - 1) / 2
}

/// No entry comes before its parent, leaving out the entry at `hole`.
spec fn heaped_but(s: Seq<(u64, i32)>, hole: int) -> bool {
    forall|i: int|
        #![trigger s[i]]
        0 < i < s.len() && i != hole ==> !comes_first(s[i], s[parent(i)])
}

/// No entry comes before its parent, leaving out the children of `hole`.
spec fn heaped_above(s: Seq<(u64, i32)>, hole: int) -> bool {
    forall|i: int|
        #![trigger s[i]]
        0 < i < s.len() && parent(i) != hole ==> !comes_first(s[i], s[parent(i)])
}

pub struct OpenHeap {
    items: Vec<(u64, i32)>,
}

impl View for OpenHeap {
    type V = Multiset<(u64, i32)>;

    closed spec fn view(&self) -> Multiset<(u64, i32)> {
        self.items@.to_multiset()
    }
}

proof fn lemma_swap_keeps<T>(s: Seq<T>, i: int, j: int)
    requires
        0 <= i < s.len(),
        0 <= j < s.len(),
    ensures
        s.update(i, s[j]).update(j, s[i]).to_multiset() == s.to_multiset(),
{
    let t = s.update(i, s[j]);
    lemma_update_multiset(s, i, s[j]);
    lemma_update_multiset(t, j, s[i]);
    let a = s[i];
    let b = s[j];
    vstd::seq_lib::to_multiset_contains(s, a);
    vstd::seq_lib::to_multiset_contains(s, b);
    assert(s.contains(a) && s.contains(b));
    assert(t[j] == b);
    assert(t.update(j, a).to_multiset() =~= s.to_multiset());
}

proof fn lemma_update_multiset<T>(s: Seq<T>, i: int, v: T)
    requires
        0 <= i < s.len(),
    ensures
        s.update(i, v).to_multiset() == s.to_multiset().remove(s[i]).insert(v),
{
    let r = s.remove(i);
    vstd::seq_lib::to_multiset_remove(s, i);
    vstd::seq_lib::to_multiset_insert(r, i, v);
    assert(r.insert(i, v) =~= s.update(i, v));
}

proof fn lemma_root_first(s: Seq<(u64, i32)>, i: int)
    requires
        heaped_but(s, 0),
        0 <= i < s.len(),
    ensures
        !comes_first(s[i], s[0]),
    decreases i,
{
    if i > 0 {
        lemma_root_first(s, parent(i));
        assert(!comes_first(s[i], s[parent(i)]));
    }
}

impl OpenHeap {
    pub closed spec fn well_formed(&self) -> bool {
        heaped_but(self.items@, 0)
    }

    pub fn new() -> (r: Self)
        ensures
            r.well_formed(),
            r@ == Multiset::<(u64, i32)>::empty(),
    {
        let r = OpenHeap { items: Vec::new() };
        proof {
            vstd::seq_lib::to_multiset_len(r.items@);
            assert(r@ =~= Multiset::<(u64, i32)>::empty());
        }
        r
    }

    pub fn push(&mut self, entry: (u64, i32))
        requires
            old(self).well_formed(),
        ensures
            final(self).well_formed(),
            final(self)@ == old(self)@.insert(entry),
    {
        proof {
            vstd::seq_lib::to_multiset_build(self.items@, entry);
        }
        self.items.push(entry);
        let mut i: usize = self.items.len() - 1;
        while i > 0
            invariant
                i < self.items@.len(),
                self.items@.to_multiset() == old(self)@.insert(entry),
                heaped_but(self.items@, i as int),
                forall|j: int|
                    #![trigger self.items@[j]]
                    0 < j < self.items@.len() && i > 0 && parent(j) == i ==> !comes_first(
                        self.items@[j],
                        self.items@[parent(i as int)],
                    ),
            decreases i,
        {
            let p: usize = (i - 1) / 2;
            let ghost before = self.items@;
            let a: (u64, i32) = self.items[i];
            let b: (u64, i32) = self.items[p];
            if !is_before(a, b) {
                assert(heaped_but(self.items@, 0)) by {
                    assert forall|j: int|
                        #![trigger self.items@[j]]
                        0 < j < self.items@.len() implies !comes_first(
                        self.items@[j],
                        self.items@[parent(j)],
                    ) by {
                        if j == i {
                            assert(self.items@[i as int] == a);
                        }
                    }
                }
                return;
            }
            self.items.set(i, b);
            self.items.set(p, a);
            proof {
                lemma_swap_keeps(before, i as int, p as int);
                let now = self.items@;
                assert(now == before.update(i as int, b).update(p as int, a));
                assert forall|j: int|
                    #![trigger now[j]]
                    0 < j < now.len() && j != p implies !comes_first(now[j], now[parent(j)]) by {
                    if j == i {
                    } else if parent(j) == i {
                        assert(!comes_first(before[j], before[parent(i as int)]));
                    } else if parent(j) == p {
                        assert(!comes_first(before[j], before[parent(j)]));
                    } else {
                        assert(!comes_first(before[j], before[parent(j)]));
                    }
                }
                assert forall|j: int|
                    #![trigger now[j]]
                    0 < j < now.len() && p > 0 && parent(j) == p implies !comes_first(
                    now[j],
                    now[parent(p as int)],
                ) by {
                    assert(!comes_first(before[p as int], before[parent(p as int)]));
                    if j != i {
                        assert(!comes_first(before[j], before[parent(j)]));
                    }
                }
            }
            i = p;
        }
    }

    /// Takes the first entry out.
    pub fn pop(&mut self) -> (r: Option<(u64, i32)>)
        requires
            old(self).well_formed(),
        ensures
            final(self).well_formed(),
            match r {
                Some(entry) => {
                    &&& old(self)@.contains(entry)
                    &&& final(self)@ == old(self)@.remove(entry)
                    &&& forall|other: (u64, i32)|
                        old(self)@.contains(other) ==> !#[trigger] comes_first(other, entry)
                },
                None => old(self)@.len() == 0 && final(self)@ == old(self)@,
            },
    {
        let ghost s0 = self.items@;
        let n: usize = self.items.len();
        if n == 0 {
            proof {
                vstd::seq_lib::to_multiset_len(s0);
            }
            return None;
        }
        let root: (u64, i32) = self.items[0];
        proof {
            vstd::seq_lib::to_multiset_contains(s0, root);
            assert(s0.contains(s0[0]));
            assert forall|other: (u64, i32)| self@.contains(other) implies !#[trigger] comes_first(
                other,
                root,
            ) by {
                vstd::seq_lib::to_multiset_contains(s0, other);
                let i = choose|i: int| 0 <= i < s0.len() && s0[i] == other;
                lemma_root_first(s0, i);
            }
            vstd::seq_lib::to_multiset_remove(s0, n - 1);
            assert(s0.remove(n - 1) =~= s0.drop_last());
        }
        let last: (u64, i32) = self.items.pop().unwrap();
        if n == 1 {
            return Some(root);
        }
        proof {
            let s1 = self.items@;
            lemma_update_multiset(s1, 0, last);
            vstd::seq_lib::to_multiset_contains(s1, s1[0]);
            assert(s1.contains(s1[0]));
            assert(s1.update(0, last).to_multiset() =~= s0.to_multiset().remove(root)) by {
                let m = s0.to_multiset();
                vstd::seq_lib::to_multiset_contains(s0, last);
                assert(s0[n - 1] == last);
                assert(m.remove(last).remove(root).insert(last) =~= m.remove(root)) by {
                    assert(m.remove(last).count(root) > 0);
                }
            }
        }
        self.items.set(0, last);
        let mut i: usize = 0;
        let mut sinking: bool = true;
        proof {
            let s = self.items@;
            assert forall|j: int|
                #![trigger s[j]]
                0 < j < s.len() && parent(j) != 0 implies !comes_first(s[j], s[parent(j)]) by {
                assert(!comes_first(s0[j], s0[parent(j)]));
            }
        }
        while sinking
            invariant
                i < self.items@.len(),
                self.items@.len() < n,
                self.items@.to_multiset() == s0.to_multiset().remove(root),
                sinking ==> heaped_above(self.items@, i as int),
                !sinking ==> heaped_but(self.items@, 0),
                sinking ==> forall|j: int|
                    #![trigger self.items@[j]]
                    0 < j < self.items@.len() && i > 0 && parent(j) == i ==> !comes_first(
                        self.items@[j],
                        self.items@[parent(i as int)],
                    ),
            decreases (self.items@.len() - i) + (if sinking { 1int } else { 0int }),
        {
            let len: usize = self.items.len();
            let ghost before = self.items@;
            if i >= len / 2 {
                sinking = false;
                proof {
                    assert forall|j: int|
                        #![trigger before[j]]
                        0 < j < before.len() implies !comes_first(before[j], before[parent(j)]) by {
                        assert(parent(j) != i);
                    }
                }
            } else {
                let left: usize = 2 * i + 1;
                let mut child: usize = left;
                if left + 1 < len && is_before(self.items[left + 1], self.items[left]) {
                    child = left + 1;
                }
                let a: (u64, i32) = self.items[i];
                let b: (u64, i32) = self.items[child];
                if !is_before(b, a) {
                    sinking = false;
                    proof {
                        assert forall|j: int|
                            #![trigger before[j]]
                            0 < j < before.len() implies !comes_first(
                            before[j],
                            before[parent(j)],
                        ) by {
                            if parent(j) == i {
                                assert(j == left || j == left + 1);
                            }
                        }
                    }
                } else {
                    self.items.set(i, b);
                    self.items.set(child, a);
                    proof {
                        lemma_swap_keeps(before, i as int, child as int);
                        let now = self.items@;
                        assert(parent(child as int) == i);
                        assert forall|j: int|
                            #![trigger now[j]]
                            0 < j < now.len() && parent(j) != child implies !comes_first(
                            now[j],
                            now[parent(j)],
                        ) by {
                            if parent(j) == i {
                                assert(j == left || j == left + 1);
                            } else if j == i {
                                assert(!comes_first(before[child as int], before[parent(i as int)]));
                            } else {
                                assert(!comes_first(before[j], before[parent(j)]));
                            }
                        }
                        assert forall|j: int|
                            #![trigger now[j]]
                            0 < j < now.len() && child > 0 && parent(j)
                                == child implies !comes_first(now[j], now[parent(child as int)]) by {
                            assert(!comes_first(before[j], before[parent(j)]));
                        }
                    }
                    i = child;
                }
            }
        }
        Some(root)
    }
}

} // verus!
