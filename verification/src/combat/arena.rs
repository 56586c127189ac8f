//! The arena: every actor that actions are resolved among, and whether it lives.

use crate::combat::actors::ActorId;
use vstd::prelude::*;

verus! {

/// An actor of the arena.
#[derive(Clone, Copy, Debug, Eq, PartialEq, Structural)]
pub struct Member {
    pub id: ActorId,
    pub alive: bool,
}

/// The actors of the arena, each once.
#[derive(Clone, Debug)]
pub struct Arena {
    pub members: Vec<Member>,
}

/// Whether nobody is listed twice.
pub open spec fn members_differ(m: Seq<Member>) -> bool {
    forall|i: int, j: int|
        0 <= i < j < m.len() ==> (#[trigger] m[i]).id != (#[trigger] m[j]).id
}

/// Whether an actor lives; nothing of an actor that is not there.
pub open spec fn life_of(m: Seq<Member>, id: ActorId) -> Option<bool> {
    if exists|i: int| 0 <= i < m.len() && (#[trigger] m[i]).id == id {
        Some((m[choose|i: int| 0 <= i < m.len() && (#[trigger] m[i]).id == id]).alive)
    } else {
        None
    }
}

proof fn lemma_life_at(m: Seq<Member>, i: int)
    requires
        members_differ(m),
        0 <= i < m.len(),
    ensures
        life_of(m, m[i].id) == Some(m[i].alive),
{
    let k = choose|k: int| 0 <= k < m.len() && (#[trigger] m[k]).id == m[i].id;
    assert(m[i].id == m[i].id);
    if k < i {
        assert(m[k].id != m[i].id);
    } else if i < k {
        assert(m[i].id != m[k].id);
    }
}

impl Arena {
    pub open spec fn wf(&self) -> bool {
        members_differ(self.members@)
    }

    /// Whether an actor lives; nothing of an actor that is not there.
    pub open spec fn life(&self, id: ActorId) -> Option<bool> {
        life_of(self.members@, id)
    }

    pub fn new() -> (r: Self)
        ensures
            r.wf(),
            forall|a: ActorId| #[trigger] r.life(a) is None,
    {
        Arena { members: Vec::new() }
    }

    fn seek(&self, id: ActorId) -> (r: Option<usize>)
        requires
            self.wf(),
        ensures
            r is Some <==> self.life(id) is Some,
            r is Some ==> r->0 < self.members@.len() && self.members@[r->0 as int].id == id
                && self.life(id) == Some(self.members@[r->0 as int].alive),
    {
        let mut i: usize = 0;
        while i < self.members.len()
            invariant
                i <= self.members@.len(),
                self.wf(),
                forall|j: int| 0 <= j < i ==> (#[trigger] self.members@[j]).id != id,
            decreases self.members@.len() - i,
        {
            if self.members[i].id == id {
                proof {
                    lemma_life_at(self.members@, i as int);
                }
                return Some(i);
            }
            i += 1;
        }
        None
    }

    /// Whether an actor lives; nothing of an actor that is not there.
    pub fn is_alive(&self, id: ActorId) -> (r: Option<bool>)
        requires
            self.wf(),
        ensures
            r == self.life(id),
    {
        match self.seek(id) {
            Some(i) => Some(self.members[i].alive),
            None => None,
        }
    }

    /// Seats an actor that is not there yet.
    pub fn insert(&mut self, id: ActorId, alive: bool)
        requires
            old(self).wf(),
            old(self).life(id) is None,
        ensures
            final(self).wf(),
            forall|a: ActorId| #[trigger]
                final(self).life(a) == if a == id {
                    Some(alive)
                } else {
                    old(self).life(a)
                },
    {
        let ghost was = self.members@;
        self.members.push(Member { id, alive });
        proof {
            let now = self.members@;
            assert forall|a: ActorId| #[trigger] life_of(now, a) == if a == id {
                Some(alive)
            } else {
                life_of(was, a)
            } by {
                lemma_life_at(now, was.len() as int);
                if a != id {
                    if life_of(was, a) is Some {
                        let k = choose|k: int| 0 <= k < was.len() && (#[trigger] was[k]).id == a;
                        lemma_life_at(was, k);
                        assert(now[k] == was[k]);
                        lemma_life_at(now, k);
                    } else if life_of(now, a) is Some {
                        let k = choose|k: int| 0 <= k < now.len() && (#[trigger] now[k]).id == a;
                        assert(was[k].id == a);
                    }
                }
            }
        }
    }

    /// Takes an actor out.
    pub fn remove(&mut self, id: ActorId)
        requires
            old(self).wf(),
            old(self).life(id) is Some,
        ensures
            final(self).wf(),
            forall|a: ActorId| #[trigger]
                final(self).life(a) == if a == id {
                    None
                } else {
                    old(self).life(a)
                },
    {
        let ghost was = self.members@;
        match self.seek(id) {
            Some(at) => {
                self.members.remove(at);
                proof {
                    let p = at as int;
                    let now = self.members@;
                    assert(now =~= was.remove(p));
                    assert forall|i: int, j: int| 0 <= i < j < now.len() implies (
                    #[trigger] now[i]).id != (#[trigger] now[j]).id by {
                        let wi = if i < p {
                            i
                        } else {
                            i + 1
                        };
                        let wj = if j < p {
                            j
                        } else {
                            j + 1
                        };
                        assert(was[wi].id != was[wj].id);
                    }
                    assert forall|a: ActorId| #[trigger] life_of(now, a) == if a == id {
                        None
                    } else {
                        life_of(was, a)
                    } by {
                        if life_of(now, a) is Some {
                            let k = choose|k: int|
                                0 <= k < now.len() && (#[trigger] now[k]).id == a;
                            let wk = if k < p {
                                k
                            } else {
                                k + 1
                            };
                            assert(now[k] == was[wk]);
                            if wk < p {
                                assert(was[wk].id != was[p].id);
                            } else {
                                assert(was[p].id != was[wk].id);
                            }
                            lemma_life_at(now, k);
                            lemma_life_at(was, wk);
                        } else if a != id && life_of(was, a) is Some {
                            let k = choose|k: int|
                                0 <= k < was.len() && (#[trigger] was[k]).id == a;
                            let nk = if k < p {
                                k
                            } else {
                                k - 1
                            };
                            assert(now[nk].id == a);
                        }
                    }
                }
            },
            None => {},
        }
    }

    /// Notes whether an actor lives.
    pub fn set_alive(&mut self, id: ActorId, alive: bool)
        requires
            old(self).wf(),
            old(self).life(id) is Some,
        ensures
            final(self).wf(),
            forall|a: ActorId| #[trigger]
                final(self).life(a) == if a == id {
                    Some(alive)
                } else {
                    old(self).life(a)
                },
    {
        let ghost was = self.members@;
        match self.seek(id) {
            Some(at) => {
                self.members.set(at, Member { id, alive });
                proof {
                    let p = at as int;
                    let now = self.members@;
                    assert(forall|i: int| 0 <= i < now.len() ==> (#[trigger] now[i]).id == was[i].id);
                    assert(members_differ(now)) by {
                        assert forall|i: int, j: int| 0 <= i < j < now.len() implies (
                        #[trigger] now[i]).id != (#[trigger] now[j]).id by {
                            assert(was[i].id != was[j].id);
                        }
                    }
                    assert forall|a: ActorId| #[trigger] life_of(now, a) == if a == id {
                        Some(alive)
                    } else {
                        life_of(was, a)
                    } by {
                        lemma_life_at(now, p);
                        if a != id {
                            if life_of(was, a) is Some {
                                let k = choose|k: int|
                                    0 <= k < was.len() && (#[trigger] was[k]).id == a;
                                lemma_life_at(was, k);
                                assert(now[k] == was[k]);
                                lemma_life_at(now, k);
                            } else if life_of(now, a) is Some {
                                let k = choose|k: int|
                                    0 <= k < now.len() && (#[trigger] now[k]).id == a;
                                assert(was[k].id == a);
                            }
                        }
                    }
                }
            },
            None => {},
        }
    }
}

} // verus!
