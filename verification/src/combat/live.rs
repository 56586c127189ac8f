//! The live world as a whole: who is seated in it, who is in its arena, who is locked and
//! who is drawn.
//!
//! Health is measured where actions are resolved; the world is told who lives.

use crate::combat::actors::{
    drawn_by, not_of, player_id, spawn_word, stable_spawn_hash, ActorId, ActorPresentation,
    ActorPresentationRegistry, ActorSequence, HostilePresentationSource, SpawnSeed,
};
use crate::combat::arena::Arena;
use crate::combat::hostile_ai::{
    thought, HostileState, Mind, Senses, Step, FARTHEST_BACK_S,
};
use crate::combat::number::diff_of;
use crate::combat::log::CombatLog;
use crate::combat::math::{SHAKEN_S, SLAIN_HOLD_S};
use crate::combat::player_actions::FailBoard;
use crate::combat::target::{index_place, tabbed, without, LockState};
use crate::combat::world::{IncomingHit, WorldClock};
use crate::gamedata::kinds::MobMode;
use crate::text::owned;
use vstd::prelude::*;

verus! {

/// A hostile seated in the world.
#[derive(Clone, Copy, Debug, PartialEq, Eq, Structural)]
pub struct WorldHostile {
    pub idx: i32,
    pub actor_id: ActorId,
    pub mind: Mind,
}

/// The live world.
#[derive(Clone, Debug)]
pub struct WorldCombat {
    pub clock: WorldClock,
    pub locks: LockState,
    pub hostiles: Vec<WorldHostile>,
    pub sequence: ActorSequence,
    pub arena: Arena,
    pub presentations: ActorPresentationRegistry,
    pub slain_by: Option<String>,
    pub last_incoming: Option<IncomingHit>,
    pub log: CombatLog,
}

/// Whether an identity is seated.
pub open spec fn seats(hs: Seq<WorldHostile>, id: ActorId) -> bool {
    exists|i: int| 0 <= i < hs.len() && (#[trigger] hs[i]).actor_id == id
}

/// Whether an index is in use.
pub open spec fn seats_index(hs: Seq<WorldHostile>, idx: i32) -> bool {
    exists|i: int| 0 <= i < hs.len() && (#[trigger] hs[i]).idx == idx
}

/// Whether no two hostiles share an index or a number.
pub open spec fn hostiles_differ(hs: Seq<WorldHostile>) -> bool {
    forall|i: int, j: int|
        0 <= i < j < hs.len() ==> (#[trigger] hs[i]).idx != (#[trigger] hs[j]).idx
            && hs[i].actor_id.canonical != hs[j].actor_id.canonical
}

/// The hostiles that are among `ids`, or those that are not.
pub open spec fn picked(hs: Seq<WorldHostile>, ids: Seq<ActorId>, among: bool) -> Seq<WorldHostile>
    decreases hs.len(),
{
    if hs.len() == 0 {
        Seq::empty()
    } else if ids.contains(hs.last().actor_id) == among {
        picked(hs.drop_last(), ids, among).push(hs.last())
    } else {
        picked(hs.drop_last(), ids, among)
    }
}

pub open spec fn indices(hs: Seq<WorldHostile>) -> Seq<i32> {
    hs.map_values(|h: WorldHostile| h.idx)
}

pub open spec fn identities(hs: Seq<WorldHostile>) -> Seq<ActorId> {
    hs.map_values(|h: WorldHostile| h.actor_id)
}

/// Everyone an action is resolved among, in order: the player, then the hostiles.
pub open spec fn roll(hs: Seq<WorldHostile>) -> Seq<ActorId> {
    seq![player_id()] + identities(hs)
}

proof fn lemma_picked(hs: Seq<WorldHostile>, ids: Seq<ActorId>, among: bool)
    requires
        hostiles_differ(hs),
    ensures
        hostiles_differ(picked(hs, ids, among)),
        forall|x: WorldHostile| #[trigger]
            picked(hs, ids, among).contains(x) <==> hs.contains(x) && ids.contains(x.actor_id)
                == among,
    decreases hs.len(),
{
    let all = picked(hs, ids, among);
    if hs.len() > 0 {
        let rest = hs.drop_last();
        assert(hostiles_differ(rest)) by {
            assert forall|i: int, j: int| 0 <= i < j < rest.len() implies (#[trigger] rest[i]).idx
                != (#[trigger] rest[j]).idx && rest[i].actor_id.canonical
                != rest[j].actor_id.canonical by {
                assert(hs[i].idx != hs[j].idx);
            }
        }
        lemma_picked(rest, ids, among);
        let kept = picked(rest, ids, among);
        let takes = ids.contains(hs.last().actor_id) == among;
        if takes {
            assert forall|i: int, j: int| 0 <= i < j < all.len() implies (#[trigger] all[i]).idx
                != (#[trigger] all[j]).idx && all[i].actor_id.canonical
                != all[j].actor_id.canonical by {
                if j == all.len() - 1 {
                    assert(kept.contains(kept[i]));
                    assert(rest.contains(kept[i]));
                    let k = choose|k: int| 0 <= k < rest.len() && rest[k] == kept[i];
                    assert(hs[k].idx != hs[hs.len() - 1].idx);
                } else {
                    assert(kept[i].idx != kept[j].idx);
                }
            }
        }
        assert forall|x: WorldHostile| #[trigger] all.contains(x) <==> hs.contains(x)
            && ids.contains(x.actor_id) == among by {
            if all.contains(x) {
                let k = choose|k: int| 0 <= k < all.len() && all[k] == x;
                if takes && k == all.len() - 1 {
                    assert(hs[hs.len() - 1] == x);
                } else {
                    assert(kept[k] == x);
                    assert(kept.contains(x));
                    let m = choose|m: int| 0 <= m < rest.len() && rest[m] == x;
                    assert(hs[m] == x);
                }
            }
            if hs.contains(x) && ids.contains(x.actor_id) == among {
                let k = choose|k: int| 0 <= k < hs.len() && hs[k] == x;
                if k == hs.len() - 1 {
                    assert(all[all.len() - 1] == x);
                } else {
                    assert(rest[k] == x);
                    assert(rest.contains(x));
                    assert(kept.contains(x));
                    let m = choose|m: int| 0 <= m < kept.len() && kept[m] == x;
                    assert(all[m] == x);
                }
            }
        }
    }
}

proof fn lemma_identities(hs: Seq<WorldHostile>)
    requires
        hostiles_differ(hs),
    ensures
        identities(hs).no_duplicates(),
        forall|a: ActorId| #[trigger] identities(hs).contains(a) <==> seats(hs, a),
{
    let ids = identities(hs);
    assert forall|i: int, j: int| 0 <= i < ids.len() && 0 <= j < ids.len() && i != j implies ids[i]
        != ids[j] by {
        if i < j {
            assert(hs[i].idx != hs[j].idx);
        } else {
            assert(hs[j].idx != hs[i].idx);
        }
    }
    assert forall|a: ActorId| #[trigger] ids.contains(a) <==> seats(hs, a) by {
        if ids.contains(a) {
            let k = choose|k: int| 0 <= k < ids.len() && ids[k] == a;
            assert(hs[k].actor_id == a);
        }
        if seats(hs, a) {
            let k = choose|k: int| 0 <= k < hs.len() && (#[trigger] hs[k]).actor_id == a;
            assert(ids[k] == a);
        }
    }
}

proof fn lemma_reseated(was: Seq<WorldHostile>, now: Seq<WorldHostile>, at: int)
    requires
        hostiles_differ(was),
        0 <= at < was.len() == now.len(),
        forall|i: int|
            0 <= i < was.len() && i != at ==> #[trigger] now[i] == was[i],
        now[at].idx == was[at].idx,
        now[at].actor_id == was[at].actor_id,
    ensures
        hostiles_differ(now),
        forall|a: ActorId| #[trigger] seats(now, a) <==> seats(was, a),
        forall|x: i32| #[trigger] seats_index(now, x) <==> seats_index(was, x),
        forall|i: int|
            0 <= i < was.len() && i != at ==> (#[trigger] was[i]).idx != was[at].idx,
{
    assert forall|k: int, m: int| 0 <= k < m < now.len() implies (#[trigger] now[k]).idx != (
    #[trigger] now[m]).idx && now[k].actor_id.canonical != now[m].actor_id.canonical by {
        assert(was[k].idx != was[m].idx);
    }
    assert forall|a: ActorId| #[trigger] seats(now, a) <==> seats(was, a) by {
        if seats(was, a) {
            let k = choose|k: int| 0 <= k < was.len() && (#[trigger] was[k]).actor_id == a;
            assert(now[k].actor_id == a);
        }
        if seats(now, a) {
            let k = choose|k: int| 0 <= k < now.len() && (#[trigger] now[k]).actor_id == a;
            assert(was[k].actor_id == a);
        }
    }
    assert forall|x: i32| #[trigger] seats_index(now, x) <==> seats_index(was, x) by {
        if seats_index(was, x) {
            let k = choose|k: int| 0 <= k < was.len() && (#[trigger] was[k]).idx == x;
            assert(now[k].idx == x);
        }
        if seats_index(now, x) {
            let k = choose|k: int| 0 <= k < now.len() && (#[trigger] now[k]).idx == x;
            assert(was[k].idx == x);
        }
    }
    assert forall|i: int| 0 <= i < was.len() && i != at implies (#[trigger] was[i]).idx
        != was[at].idx by {
        if i < at {
            assert(was[i].idx != was[at].idx);
        } else {
            assert(was[at].idx != was[i].idx);
        }
    }
}

proof fn lemma_place(ids: Seq<i32>, id: i32, from: int)
    requires
        0 <= from,
    ensures
        index_place(ids, id, from) is Some ==> from <= index_place(ids, id, from)->0 < ids.len(),
    decreases ids.len() - from,
{
    if from < ids.len() && ids[from] != id {
        lemma_place(ids, id, from + 1);
    }
}

fn has_id(ids: &[ActorId], id: ActorId) -> (r: bool)
    ensures
        r == ids@.contains(id),
{
    let mut i: usize = 0;
    while i < ids.len()
        invariant
            i <= ids@.len(),
            forall|j: int| 0 <= j < i ==> ids@[j] != id,
        decreases ids@.len() - i,
    {
        if ids[i] == id {
            assert(ids@[i as int] == id);
            return true;
        }
        i += 1;
    }
    false
}

fn pick(hs: &[WorldHostile], ids: &[ActorId], among: bool) -> (r: Vec<WorldHostile>)
    ensures
        r@ == picked(hs@, ids@, among),
{
    let mut out: Vec<WorldHostile> = Vec::new();
    let mut i: usize = 0;
    while i < hs.len()
        invariant
            i <= hs@.len(),
            out@ == picked(hs@.take(i as int), ids@, among),
        decreases hs@.len() - i,
    {
        proof {
            let next = hs@.take(i + 1);
            assert(next.drop_last() =~= hs@.take(i as int));
            assert(next.last() == hs@[i as int]);
        }
        if has_id(ids, hs[i].actor_id) == among {
            out.push(hs[i]);
        }
        i += 1;
    }
    assert(hs@.take(i as int) =~= hs@);
    out
}

fn indices_of(hs: &[WorldHostile]) -> (r: Vec<i32>)
    ensures
        r@ == indices(hs@),
{
    let mut out: Vec<i32> = Vec::new();
    let mut i: usize = 0;
    while i < hs.len()
        invariant
            i <= hs@.len(),
            out@ == indices(hs@.take(i as int)),
        decreases hs@.len() - i,
    {
        out.push(hs[i].idx);
        i += 1;
        assert(out@ =~= indices(hs@.take(i as int)));
    }
    assert(hs@.take(i as int) =~= hs@);
    out
}

impl WorldCombat {
    /// The player and every seated hostile are in the arena, nobody is seated twice, and
    /// no number was handed out that is not used up.
    pub open spec fn wf(&self) -> bool {
        &&& self.arena.wf()
        &&& self.presentations.wf()
        &&& self.sequence.next > 0
        &&& self.arena.life(player_id()) is Some
        &&& hostiles_differ(self.hostiles@)
        &&& forall|i: int| #![trigger self.hostiles@[i]]
            0 <= i < self.hostiles@.len() ==> self.arena.life(self.hostiles@[i].actor_id) is Some
                && self.hostiles@[i].actor_id.canonical > 0
                && self.hostiles@[i].actor_id.runtime_index == self.hostiles@[i].idx
                && self.hostiles@[i].idx >= 0
        &&& forall|a: ActorId| #[trigger]
            self.arena.life(a) is Some ==> a.canonical < self.sequence.next
    }

    /// The arena holds the player and the seated hostiles and nobody else.
    pub open spec fn exact(&self) -> bool {
        forall|a: ActorId| #[trigger]
            self.arena.life(a) is Some ==> a == player_id() || seats(self.hostiles@, a)
    }

    /// Whoever is locked is seated.
    pub open spec fn lock_seated(&self) -> bool {
        self.locks.lock is Some ==> seats_index(self.hostiles@, self.locks.lock->0)
    }

    /// A world with the player alone.
    pub fn new() -> (r: Self)
        ensures
            r.wf(),
            r.exact(),
            r.lock_seated(),
            r.hostiles@.len() == 0,
            r.sequence.next == 1,
            r.arena.life(player_id()) == Some(true),
            !r.clock.dead,
            r.slain_by is None,
            r.last_incoming is None,
            r.log@.len() == 0,
    {
        let mut arena: Arena = Arena::new();
        arena.insert(ActorId::player(), true);
        WorldCombat {
            clock: WorldClock::new(),
            locks: LockState::new(),
            hostiles: Vec::new(),
            sequence: ActorSequence::start(),
            arena,
            presentations: ActorPresentationRegistry::new(),
            slain_by: None,
            last_incoming: None,
            log: CombatLog::new(),
        }
    }

    /// Seats a hostile under an index that is free; its identity is new.
    pub fn register_hostile(
        &mut self,
        idx: i32,
        mode: MobMode,
        endurance_s: i128,
        seed: SpawnSeed,
    ) -> (r: ActorId)
        requires
            old(self).wf(),
            idx >= 0,
            !seats_index(old(self).hostiles@, idx),
            old(self).sequence.next < u32::MAX,
        ensures
            final(self).wf(),
            r == (ActorId { canonical: old(self).sequence.next, runtime_index: idx }),
            old(self).arena.life(r) is None,
            final(self).hostiles@ == old(self).hostiles@.push(
                WorldHostile { idx, actor_id: r, mind: Mind::fresh(mode, seed, endurance_s) },
            ),
            final(self).sequence.next == old(self).sequence.next + 1,
            forall|a: ActorId| #[trigger]
                final(self).arena.life(a) == if a == r {
                    Some(true)
                } else {
                    old(self).arena.life(a)
                },
            old(self).exact() ==> final(self).exact(),
            old(self).lock_seated() ==> final(self).lock_seated(),
            final(self).clock == old(self).clock,
            final(self).locks == old(self).locks,
            final(self).presentations == old(self).presentations,
            final(self).slain_by == old(self).slain_by,
            final(self).last_incoming == old(self).last_incoming,
            final(self).log == old(self).log,
    {
        let ghost was = self.hostiles@;
        let actor_id: ActorId = self.sequence.assigned(idx);
        self.arena.insert(actor_id, true);
        self.hostiles.push(WorldHostile { idx, actor_id, mind: Mind::new(mode, seed, endurance_s) });
        proof {
            let now = self.hostiles@;
            assert(now[was.len() as int].actor_id == actor_id);
            assert forall|i: int, j: int| 0 <= i < j < now.len() implies (#[trigger] now[i]).idx
                != (#[trigger] now[j]).idx && now[i].actor_id.canonical
                != now[j].actor_id.canonical by {
                assert(now[i] == was[i]);
                if j < was.len() {
                    assert(was[i].idx != was[j].idx);
                } else {
                    assert(seats_index(was, was[i].idx));
                    assert(old(self).arena.life(was[i].actor_id) is Some);
                }
            }
            assert forall|a: ActorId| seats(was, a) implies seats(now, a) by {
                let k = choose|k: int| 0 <= k < was.len() && (#[trigger] was[k]).actor_id == a;
                assert(now[k].actor_id == a);
            }
            assert forall|x: i32| seats_index(was, x) implies seats_index(now, x) by {
                let k = choose|k: int| 0 <= k < was.len() && (#[trigger] was[k]).idx == x;
                assert(now[k].idx == x);
            }
            assert(seats(now, actor_id));
        }
        actor_id
    }

    /// Seats a hostile whose seed is made from its index, its mob and the bits of where it
    /// stands.
    pub fn add_hostile(
        &mut self,
        idx: i32,
        mode: MobMode,
        endurance_s: i128,
        mob_id: &[u8],
        x_bits: u64,
        z_bits: u64,
    ) -> (r: ActorId)
        requires
            old(self).wf(),
            idx >= 0,
            !seats_index(old(self).hostiles@, idx),
            old(self).sequence.next < u32::MAX,
        ensures
            final(self).wf(),
            r == (ActorId { canonical: old(self).sequence.next, runtime_index: idx }),
            final(self).hostiles@ == old(self).hostiles@.push(
                WorldHostile {
                    idx,
                    actor_id: r,
                    mind: Mind::fresh(
                        mode,
                        (SpawnSeed { word: spawn_word(idx, mob_id@, x_bits, z_bits) }),
                        endurance_s,
                    ),
                },
            ),
            final(self).sequence.next == old(self).sequence.next + 1,
            forall|a: ActorId| #[trigger]
                final(self).arena.life(a) == if a == r {
                    Some(true)
                } else {
                    old(self).arena.life(a)
                },
            old(self).exact() ==> final(self).exact(),
            old(self).lock_seated() ==> final(self).lock_seated(),
            final(self).clock == old(self).clock,
            final(self).locks == old(self).locks,
            final(self).presentations == old(self).presentations,
            final(self).slain_by == old(self).slain_by,
            final(self).last_incoming == old(self).last_incoming,
            final(self).log == old(self).log,
    {
        let seed: SpawnSeed = SpawnSeed::new(stable_spawn_hash(idx, mob_id, x_bits, z_bits));
        self.register_hostile(idx, mode, endurance_s, seed)
    }

    /// Takes actors out of the arena, their bodies with them.
    fn drop_actors(&mut self, ids: &[ActorId])
        requires
            old(self).arena.wf(),
            old(self).presentations.wf(),
            ids@.no_duplicates(),
            forall|i: int| 0 <= i < ids@.len() ==> old(self).arena.life(#[trigger] ids@[i]) is Some,
        ensures
            final(self).arena.wf(),
            final(self).presentations.wf(),
            forall|a: ActorId| #[trigger]
                final(self).arena.life(a) == if ids@.contains(a) {
                    None
                } else {
                    old(self).arena.life(a)
                },
            forall|a: ActorId| #[trigger]
                final(self).presentations.body_of(a) == if ids@.contains(a) {
                    None
                } else {
                    old(self).presentations.body_of(a)
                },
            final(self).clock == old(self).clock,
            final(self).locks == old(self).locks,
            final(self).hostiles == old(self).hostiles,
            final(self).sequence == old(self).sequence,
            final(self).slain_by == old(self).slain_by,
            final(self).last_incoming == old(self).last_incoming,
            final(self).log == old(self).log,
    {
        let mut k: usize = 0;
        while k < ids.len()
            invariant
                k <= ids@.len(),
                ids@.no_duplicates(),
                self.arena.wf(),
                self.presentations.wf(),
                forall|i: int|
                    0 <= i < ids@.len() ==> old(self).arena.life(#[trigger] ids@[i]) is Some,
                forall|a: ActorId| #[trigger]
                    self.arena.life(a) == if ids@.take(k as int).contains(a) {
                        None
                    } else {
                        old(self).arena.life(a)
                    },
                forall|a: ActorId| #[trigger]
                    self.presentations.body_of(a) == if ids@.take(k as int).contains(a) {
                        None
                    } else {
                        old(self).presentations.body_of(a)
                    },
                self.clock == old(self).clock,
                self.locks == old(self).locks,
                self.hostiles == old(self).hostiles,
                self.sequence == old(self).sequence,
                self.slain_by == old(self).slain_by,
                self.last_incoming == old(self).last_incoming,
                self.log == old(self).log,
            decreases ids@.len() - k,
        {
            let id: ActorId = ids[k];
            proof {
                let done = ids@.take(k as int);
                let more = ids@.take(k + 1);
                assert(!done.contains(id)) by {
                    if done.contains(id) {
                        let j = choose|j: int| 0 <= j < done.len() && done[j] == id;
                        assert(ids@[j] == ids@[k as int]);
                    }
                }
                assert(old(self).arena.life(ids@[k as int]) is Some);
                assert forall|a: ActorId| #[trigger] more.contains(a) <==> done.contains(a) || a
                    == id by {
                    if more.contains(a) {
                        let j = choose|j: int| 0 <= j < more.len() && more[j] == a;
                        if j < k {
                            assert(done[j] == a);
                        }
                    }
                    if done.contains(a) {
                        let j = choose|j: int| 0 <= j < done.len() && done[j] == a;
                        assert(more[j] == a);
                    }
                    assert(more[k as int] == id);
                }
            }
            self.arena.remove(id);
            match self.presentations.get(id) {
                Some(body) => {
                    let _ = self.presentations.unbind(id, body.source);
                },
                None => {},
            }
            k += 1;
        }
        assert(ids@.take(k as int) =~= ids@);
    }

    /// Unseats hostiles without taking them out of the arena; a lock on one of them is let
    /// go.
    pub fn retain_hostiles(&mut self, gone: &[ActorId])
        requires
            old(self).wf(),
        ensures
            final(self).wf(),
            final(self).hostiles@ == picked(old(self).hostiles@, gone@, false),
            final(self).locks.lock == match old(self).locks.lock {
                Some(idx) => if seats_index(final(self).hostiles@, idx) {
                    Some(idx)
                } else {
                    None
                },
                None => None,
            },
            final(self).locks.cycle@ == old(self).locks.cycle@,
            final(self).lock_seated(),
            final(self).arena == old(self).arena,
            final(self).sequence == old(self).sequence,
            final(self).presentations == old(self).presentations,
            final(self).clock == old(self).clock,
            final(self).slain_by == old(self).slain_by,
            final(self).last_incoming == old(self).last_incoming,
            final(self).log == old(self).log,
    {
        let kept: Vec<WorldHostile> = pick(self.hostiles.as_slice(), gone, false);
        let seated: Vec<i32> = indices_of(kept.as_slice());
        self.locks.retain(seated.as_slice());
        proof {
            let was = self.hostiles@;
            lemma_picked(was, gone@, false);
            assert forall|i: int| 0 <= i < kept@.len() implies was.contains(
                #[trigger] kept@[i],
            ) by {
                assert(kept@.contains(kept@[i]));
            }
            assert forall|x: i32| seated@.contains(x) <==> seats_index(kept@, x) by {
                if seated@.contains(x) {
                    let k = choose|k: int| 0 <= k < seated@.len() && seated@[k] == x;
                    assert(kept@[k].idx == x);
                }
                if seats_index(kept@, x) {
                    let k = choose|k: int| 0 <= k < kept@.len() && (#[trigger] kept@[k]).idx == x;
                    assert(seated@[k] == x);
                }
            }
        }
        self.hostiles = kept;
    }

    /// Takes every hostile out of the world.
    pub fn clear_hostiles(&mut self)
        requires
            old(self).wf(),
        ensures
            final(self).wf(),
            final(self).hostiles@.len() == 0,
            final(self).locks.lock is None,
            final(self).locks.cycle@.len() == 0,
            forall|a: ActorId| #[trigger]
                final(self).arena.life(a) == if seats(old(self).hostiles@, a) {
                    None
                } else {
                    old(self).arena.life(a)
                },
            forall|a: ActorId| #[trigger]
                final(self).presentations.body_of(a) == if seats(old(self).hostiles@, a) {
                    None
                } else {
                    old(self).presentations.body_of(a)
                },
            old(self).exact() ==> final(self).exact(),
            final(self).sequence == old(self).sequence,
            final(self).clock == old(self).clock,
            final(self).slain_by == old(self).slain_by,
            final(self).last_incoming == old(self).last_incoming,
            final(self).log == old(self).log,
    {
        let ids: Vec<ActorId> = self.hostile_ids();
        proof {
            let hs = self.hostiles@;
            lemma_identities(hs);
            assert forall|i: int| 0 <= i < ids@.len() implies self.arena.life(
                #[trigger] ids@[i],
            ) is Some by {
                assert(ids@[i] == hs[i].actor_id);
            }
            assert(!seats(hs, player_id()));
        }
        self.drop_actors(ids.as_slice());
        self.hostiles = Vec::new();
        self.locks.reset();
    }

    /// Takes hostiles out of the world: of the seats, the arena, the bodies and the locks.
    pub fn deactivate_actors(&mut self, ids: &[ActorId])
        requires
            old(self).wf(),
            ids@.no_duplicates(),
            !ids@.contains(player_id()),
            forall|i: int| 0 <= i < ids@.len() ==> old(self).arena.life(#[trigger] ids@[i]) is Some,
        ensures
            final(self).wf(),
            final(self).hostiles@ == picked(old(self).hostiles@, ids@, false),
            ({
                let gone = indices(picked(old(self).hostiles@, ids@, true));
                &&& final(self).locks.lock == match old(self).locks.lock {
                    Some(idx) => if gone.contains(idx) {
                        None
                    } else {
                        Some(idx)
                    },
                    None => None,
                }
                &&& final(self).locks.cycle@ == without(old(self).locks.cycle@, gone)
            }),
            forall|a: ActorId| #[trigger]
                final(self).arena.life(a) == if ids@.contains(a) {
                    None
                } else {
                    old(self).arena.life(a)
                },
            forall|a: ActorId| #[trigger]
                final(self).presentations.body_of(a) == if ids@.contains(a) {
                    None
                } else {
                    old(self).presentations.body_of(a)
                },
            old(self).exact() ==> final(self).exact(),
            old(self).lock_seated() ==> final(self).lock_seated(),
            final(self).sequence == old(self).sequence,
            final(self).clock == old(self).clock,
            final(self).slain_by == old(self).slain_by,
            final(self).last_incoming == old(self).last_incoming,
            final(self).log == old(self).log,
    {
        let leaving: Vec<WorldHostile> = pick(self.hostiles.as_slice(), ids, true);
        let gone: Vec<i32> = indices_of(leaving.as_slice());
        let kept: Vec<WorldHostile> = pick(self.hostiles.as_slice(), ids, false);
        self.drop_actors(ids);
        self.locks.forget(gone.as_slice());
        proof {
            let was = self.hostiles@;
            lemma_picked(was, ids@, false);
            lemma_picked(was, ids@, true);
            assert forall|i: int| 0 <= i < kept@.len() implies was.contains(#[trigger] kept@[i])
                && !ids@.contains(kept@[i].actor_id) by {
                assert(kept@.contains(kept@[i]));
            }
            assert forall|a: ActorId| seats(was, a) && !ids@.contains(a) implies seats(
                kept@,
                a,
            ) by {
                let k = choose|k: int| 0 <= k < was.len() && (#[trigger] was[k]).actor_id == a;
                assert(was.contains(was[k]));
                assert(kept@.contains(was[k]));
                let m = choose|m: int| 0 <= m < kept@.len() && kept@[m] == was[k];
                assert(kept@[m].actor_id == a);
            }
            assert forall|x: i32| seats_index(was, x) && !gone@.contains(x) implies seats_index(
                kept@,
                x,
            ) by {
                let k = choose|k: int| 0 <= k < was.len() && (#[trigger] was[k]).idx == x;
                assert(was.contains(was[k]));
                if leaving@.contains(was[k]) {
                    let m = choose|m: int| 0 <= m < leaving@.len() && leaving@[m] == was[k];
                    assert(gone@[m] == x);
                }
                assert(kept@.contains(was[k]));
                let m = choose|m: int| 0 <= m < kept@.len() && kept@[m] == was[k];
                assert(kept@[m].idx == x);
            }
        }
        self.hostiles = kept;
    }

    fn hostile_ids(&self) -> (r: Vec<ActorId>)
        ensures
            r@ == identities(self.hostiles@),
    {
        let mut out: Vec<ActorId> = Vec::new();
        let mut i: usize = 0;
        while i < self.hostiles.len()
            invariant
                i <= self.hostiles@.len(),
                out@ == identities(self.hostiles@.take(i as int)),
            decreases self.hostiles@.len() - i,
        {
            out.push(self.hostiles[i].actor_id);
            i += 1;
            assert(out@ =~= identities(self.hostiles@.take(i as int)));
        }
        assert(self.hostiles@.take(i as int) =~= self.hostiles@);
        out
    }

    /// Everyone an action is resolved among, in order.
    pub fn arena_order(&self) -> (r: Vec<ActorId>)
        ensures
            r@ == roll(self.hostiles@),
    {
        let mut out: Vec<ActorId> = Vec::new();
        out.push(ActorId::player());
        let mut ids: Vec<ActorId> = self.hostile_ids();
        out.append(&mut ids);
        assert(out@ =~= roll(self.hostiles@));
        out
    }

    /// Who has a number: the player or a seated hostile.
    pub open spec fn known(&self, number: u32) -> bool {
        number == 0 || exists|i: int|
            0 <= i < self.hostiles@.len() && (#[trigger] self.hostiles@[i]).actor_id.canonical
                == number
    }

    /// The player under 0, else the hostile seated with that number.
    pub open spec fn numbered(&self, number: u32) -> ActorId {
        if number == 0 {
            player_id()
        } else {
            let i = choose|i: int|
                0 <= i < self.hostiles@.len() && (#[trigger] self.hostiles@[i]).actor_id.canonical
                    == number;
            self.hostiles@[i].actor_id
        }
    }

    /// The identity behind a number.
    pub fn actor_id_from_resolution(&self, number: u32) -> (r: ActorId)
        requires
            self.wf(),
            self.known(number),
        ensures
            r == self.numbered(number),
            r.canonical == number,
            r == player_id() || seats(self.hostiles@, r),
    {
        if number == 0 {
            return ActorId::player();
        }
        let ghost k = choose|k: int|
            0 <= k < self.hostiles@.len() && (#[trigger] self.hostiles@[k]).actor_id.canonical
                == number;
        let total: usize = self.hostiles.len();
        let mut i: usize = 0;
        while self.hostiles[i].actor_id.canonical != number
            invariant
                total == self.hostiles@.len(),
                i <= k < self.hostiles@.len(),
                self.hostiles@[k].actor_id.canonical == number,
            decreases self.hostiles@.len() - i,
        {
            i += 1;
        }
        proof {
            if i < k {
                assert(self.hostiles@[i as int].idx != self.hostiles@[k].idx);
            }
        }
        self.hostiles[i].actor_id
    }

    /// Whether the player is dead in the arena but not yet slain.
    pub open spec fn dying(&self) -> bool {
        self.arena.life(player_id()) == Some(false) && !self.clock.dead
    }

    /// Whether the arena holds a seated hostile with an index as dead.
    pub open spec fn fallen(&self, idx: i32) -> bool {
        exists|i: int|
            0 <= i < self.hostiles@.len() && (#[trigger] self.hostiles@[i]).idx == idx
                && self.arena.life(self.hostiles@[i].actor_id) == Some(false)
    }

    /// After an action of `source`: a dead player is slain, the living turn against the
    /// author, the dead are dead and no longer locked.
    pub fn reduce_actor_state(&mut self, source: ActorId)
        requires
            old(self).wf(),
        ensures
            final(self).wf(),
            final(self).clock == if old(self).dying() {
                WorldClock { dead: true, slain_hold_s: SLAIN_HOLD_S, ..old(self).clock }
            } else {
                old(self).clock
            },
            final(self).hostiles@.len() == old(self).hostiles@.len(),
            forall|i: int|
                0 <= i < old(self).hostiles@.len() ==> #[trigger] final(self).hostiles@[i]
                    == (WorldHostile {
                    mind: old(self).hostiles@[i].mind.reduced(
                        old(self).hostiles@[i].actor_id,
                        source,
                        old(self).arena.life(old(self).hostiles@[i].actor_id) == Some(true),
                    ),
                    ..old(self).hostiles@[i]
                }),
            final(self).locks.lock == match old(self).locks.lock {
                Some(idx) => if old(self).dying() || old(self).fallen(idx) {
                    None
                } else {
                    Some(idx)
                },
                None => None,
            },
            final(self).locks.cycle@ == old(self).locks.cycle@,
            match (old(self).slain_by, final(self).slain_by) {
                (Some(a), Some(b)) => a == b,
                (Some(_), None) => false,
                (None, Some(b)) => old(self).dying() && b@ == "hostile"@,
                (None, None) => !old(self).dying(),
            },
            old(self).exact() ==> final(self).exact(),
            old(self).lock_seated() ==> final(self).lock_seated(),
            final(self).arena == old(self).arena,
            final(self).sequence == old(self).sequence,
            final(self).presentations == old(self).presentations,
            final(self).last_incoming == old(self).last_incoming,
            final(self).log == old(self).log,
    {
        let lives: bool = matches!(self.arena.is_alive(ActorId::player()), Some(true));
        if !lives && self.clock.slay() {
            self.locks.set_lock(None);
            if self.slain_by.is_none() {
                self.slain_by = Some(owned("hostile"));
            }
        }
        let ghost mid = *self;
        let ghost was = self.hostiles@;
        let mut i: usize = 0;
        while i < self.hostiles.len()
            invariant
                i <= self.hostiles@.len() == was.len(),
                was == old(self).hostiles@,
                old(self).wf(),
                self.arena == old(self).arena,
                self.sequence == old(self).sequence,
                self.presentations == old(self).presentations,
                self.last_incoming == old(self).last_incoming,
                self.log == old(self).log,
                self.clock == mid.clock,
                self.slain_by == mid.slain_by,
                self.locks.cycle@ == old(self).locks.cycle@,
                forall|j: int|
                    0 <= j < i ==> #[trigger] self.hostiles@[j] == (WorldHostile {
                        mind: was[j].mind.reduced(
                            was[j].actor_id,
                            source,
                            old(self).arena.life(was[j].actor_id) == Some(true),
                        ),
                        ..was[j]
                    }),
                forall|j: int| i <= j < was.len() ==> #[trigger] self.hostiles@[j] == was[j],
                self.locks.lock == match mid.locks.lock {
                    Some(idx) => if exists|j: int|
                        0 <= j < i && (#[trigger] was[j]).idx == idx && old(self).arena.life(
                            was[j].actor_id,
                        ) == Some(false) {
                        None
                    } else {
                        Some(idx)
                    },
                    None => None,
                },
            decreases self.hostiles@.len() - i,
        {
            let mut h: WorldHostile = self.hostiles[i];
            assert(h == was[i as int]);
            assert(old(self).arena.life(was[i as int].actor_id) is Some);
            let alive: bool = matches!(self.arena.is_alive(h.actor_id), Some(true));
            h.mind.reduce(h.actor_id, source, alive);
            self.hostiles.set(i, h);
            if !alive {
                self.locks.release(h.idx);
            }
            i += 1;
        }
        proof {
            let now = self.hostiles@;
            assert forall|k: int, m: int| 0 <= k < m < now.len() implies (#[trigger] now[k]).idx
                != (#[trigger] now[m]).idx && now[k].actor_id.canonical
                != now[m].actor_id.canonical by {
                assert(was[k].idx != was[m].idx);
            }
            assert forall|a: ActorId| seats(was, a) implies seats(now, a) by {
                let k = choose|k: int| 0 <= k < was.len() && (#[trigger] was[k]).actor_id == a;
                assert(now[k].actor_id == a);
            }
            assert forall|x: i32| seats_index(was, x) implies seats_index(now, x) by {
                let k = choose|k: int| 0 <= k < was.len() && (#[trigger] was[k]).idx == x;
                assert(now[k].idx == x);
            }
        }
    }

    /// Takes in who lives after an action of the actor with a number was resolved; `alive`
    /// follows [`WorldCombat::arena_order`].
    pub fn settle(&mut self, alive: &[bool], number: u32)
        requires
            old(self).wf(),
            old(self).known(number),
            alive@.len() == old(self).hostiles@.len() + 1,
        ensures
            final(self).wf(),
            final(self).arena.life(player_id()) == Some(alive@[0]),
            forall|i: int|
                0 <= i < old(self).hostiles@.len() ==> final(self).arena.life(
                    (#[trigger] old(self).hostiles@[i]).actor_id,
                ) == Some(alive@[i + 1]),
            forall|a: ActorId|
                a != player_id() && !seats(old(self).hostiles@, a)
                    ==> #[trigger] final(self).arena.life(a) == old(self).arena.life(a),
            final(self).hostiles@.len() == old(self).hostiles@.len(),
            forall|i: int|
                0 <= i < old(self).hostiles@.len() ==> #[trigger] final(self).hostiles@[i]
                    == (WorldHostile {
                    mind: old(self).hostiles@[i].mind.reduced(
                        old(self).hostiles@[i].actor_id,
                        old(self).numbered(number),
                        alive@[i + 1],
                    ),
                    ..old(self).hostiles@[i]
                }),
            final(self).clock == if !alive@[0] && !old(self).clock.dead {
                WorldClock { dead: true, slain_hold_s: SLAIN_HOLD_S, ..old(self).clock }
            } else {
                old(self).clock
            },
            final(self).locks.lock == match old(self).locks.lock {
                Some(idx) => if (!alive@[0] && !old(self).clock.dead) || (exists|i: int|
                    0 <= i < old(self).hostiles@.len() && (#[trigger] old(self).hostiles@[i]).idx
                        == idx && !alive@[i + 1]) {
                    None
                } else {
                    Some(idx)
                },
                None => None,
            },
            final(self).locks.cycle@ == old(self).locks.cycle@,
            match (old(self).slain_by, final(self).slain_by) {
                (Some(a), Some(b)) => a == b,
                (Some(_), None) => false,
                (None, Some(b)) => !alive@[0] && !old(self).clock.dead && b@ == "hostile"@,
                (None, None) => alive@[0] || old(self).clock.dead,
            },
            old(self).exact() ==> final(self).exact(),
            old(self).lock_seated() ==> final(self).lock_seated(),
            final(self).sequence == old(self).sequence,
            final(self).presentations == old(self).presentations,
            final(self).last_incoming == old(self).last_incoming,
            final(self).log == old(self).log,
    {
        let source: ActorId = self.actor_id_from_resolution(number);
        let ghost was = *self;
        self.arena.set_alive(ActorId::player(), alive[0]);
        let mut k: usize = 0;
        while k < self.hostiles.len()
            invariant
                k <= self.hostiles@.len(),
                was == *old(self),
                was.wf(),
                alive@.len() == was.hostiles@.len() + 1,
                self.arena.wf(),
                self.hostiles == was.hostiles,
                self.sequence == was.sequence,
                self.presentations == was.presentations,
                self.clock == was.clock,
                self.locks == was.locks,
                self.slain_by == was.slain_by,
                self.last_incoming == was.last_incoming,
                self.log == was.log,
                self.arena.life(player_id()) == Some(alive@[0]),
                forall|i: int|
                    0 <= i < k ==> self.arena.life((#[trigger] was.hostiles@[i]).actor_id) == Some(
                        alive@[i + 1],
                    ),
                forall|i: int|
                    0 <= i < was.hostiles@.len() ==> self.arena.life(
                        (#[trigger] was.hostiles@[i]).actor_id,
                    ) is Some,
                forall|a: ActorId|
                    a != player_id() && !seats(was.hostiles@, a) ==> #[trigger] self.arena.life(a)
                        == was.arena.life(a),
            decreases self.hostiles@.len() - k,
        {
            let id: ActorId = self.hostiles[k].actor_id;
            assert(was.hostiles@[k as int].actor_id == id);
            assert(seats(was.hostiles@, id));
            let ghost before = self.arena;
            self.arena.set_alive(id, alive[k + 1]);
            proof {
                assert forall|i: int| 0 <= i < k implies self.arena.life(
                    (#[trigger] was.hostiles@[i]).actor_id,
                ) == Some(alive@[i + 1]) by {
                    assert(was.hostiles@[i].idx != was.hostiles@[k as int].idx);
                }
            }
            k += 1;
        }
        proof {
            assert forall|a: ActorId| #[trigger] self.arena.life(a) is Some implies was.arena.life(
                a,
            ) is Some by {
                if a != player_id() && seats(was.hostiles@, a) {
                    let i = choose|i: int|
                        0 <= i < was.hostiles@.len() && (#[trigger] was.hostiles@[i]).actor_id
                            == a;
                    assert(was.arena.life(was.hostiles@[i].actor_id) is Some);
                }
            }
        }
        self.reduce_actor_state(source);
    }

    /// A blow to the living player; `killed` says whether it took the last of its health.
    pub fn apply_damage_to_player(&mut self, dealt: i32, by: &str, killed: bool) -> (r: IncomingHit)
        requires
            old(self).wf(),
            dealt >= 0,
            !old(self).clock.dead,
        ensures
            final(self).wf(),
            r.dealt == dealt,
            r.by@ == by@,
            r.killed == killed,
            final(self).last_incoming is Some,
            final(self).last_incoming->0.dealt == dealt,
            final(self).last_incoming->0.by@ == by@,
            final(self).last_incoming->0.killed == killed,
            forall|a: ActorId| #[trigger]
                final(self).arena.life(a) == if a == player_id() {
                    Some(!killed)
                } else {
                    old(self).arena.life(a)
                },
            final(self).clock == if killed {
                WorldClock { dead: true, slain_hold_s: SLAIN_HOLD_S, ..old(self).clock }
            } else {
                old(self).clock
            },
            final(self).locks.lock == if killed {
                None
            } else {
                old(self).locks.lock
            },
            final(self).locks.cycle@ == old(self).locks.cycle@,
            killed ==> final(self).slain_by is Some && final(self).slain_by->0@ == by@,
            !killed ==> final(self).slain_by == old(self).slain_by,
            old(self).exact() ==> final(self).exact(),
            old(self).lock_seated() ==> final(self).lock_seated(),
            final(self).hostiles == old(self).hostiles,
            final(self).sequence == old(self).sequence,
            final(self).presentations == old(self).presentations,
            final(self).log == old(self).log,
    {
        self.arena.set_alive(ActorId::player(), !killed);
        self.last_incoming = Some(IncomingHit { dealt, by: owned(by), killed });
        if killed {
            let _ = self.clock.slay();
            self.locks.set_lock(None);
            self.slain_by = Some(owned(by));
        }
        IncomingHit { dealt, by: owned(by), killed }
    }

    /// Where a living hostile with an index sits.
    pub open spec fn sits_alive(&self, i: int, idx: i32) -> bool {
        &&& 0 <= i < self.hostiles@.len()
        &&& self.hostiles@[i].idx == idx
        &&& self.arena.life(self.hostiles@[i].actor_id) == Some(true)
    }

    fn find_alive(&self, idx: i32) -> (r: usize)
        requires
            self.wf(),
            exists|i: int| #[trigger] self.sits_alive(i, idx),
        ensures
            self.sits_alive(r as int, idx),
    {
        let ghost k = choose|k: int| #[trigger] self.sits_alive(k, idx);
        let total: usize = self.hostiles.len();
        let mut i: usize = 0;
        while self.hostiles[i].idx != idx
            invariant
                total == self.hostiles@.len(),
                i <= k < self.hostiles@.len(),
                self.hostiles@[k].idx == idx,
            decreases self.hostiles@.len() - i,
        {
            i += 1;
        }
        proof {
            if i < k {
                assert(self.hostiles@[i as int].idx != self.hostiles@[k].idx);
            }
        }
        i
    }

    /// A living hostile was hurt by the player and turns against it.
    pub fn hostile_took_damage(&mut self, idx: i32)
        requires
            old(self).wf(),
            exists|i: int| #[trigger] old(self).sits_alive(i, idx),
        ensures
            final(self).wf(),
            final(self).hostiles@.len() == old(self).hostiles@.len(),
            forall|i: int|
                0 <= i < old(self).hostiles@.len() ==> #[trigger] final(self).hostiles@[i]
                    == if old(self).hostiles@[i].idx == idx {
                    WorldHostile {
                        mind: old(self).hostiles@[i].mind.provoked(player_id()),
                        ..old(self).hostiles@[i]
                    }
                } else {
                    old(self).hostiles@[i]
                },
            old(self).exact() ==> final(self).exact(),
            old(self).lock_seated() ==> final(self).lock_seated(),
            final(self).arena == old(self).arena,
            final(self).locks == old(self).locks,
            final(self).clock == old(self).clock,
            final(self).sequence == old(self).sequence,
            final(self).presentations == old(self).presentations,
            final(self).slain_by == old(self).slain_by,
            final(self).last_incoming == old(self).last_incoming,
            final(self).log == old(self).log,
    {
        let at: usize = self.find_alive(idx);
        let ghost was = self.hostiles@;
        let mut h: WorldHostile = self.hostiles[at];
        h.mind.set_retaliation(ActorId::player());
        self.hostiles.set(at, h);
        proof {
            lemma_reseated(was, self.hostiles@, at as int);
        }
    }

    /// Puts an end to a living hostile.
    pub fn administratively_defeat_hostile(&mut self, idx: i32)
        requires
            old(self).wf(),
            exists|i: int| #[trigger] old(self).sits_alive(i, idx),
        ensures
            final(self).wf(),
            final(self).hostiles@.len() == old(self).hostiles@.len(),
            forall|i: int|
                0 <= i < old(self).hostiles@.len() ==> #[trigger] final(self).hostiles@[i]
                    == if old(self).hostiles@[i].idx == idx {
                    WorldHostile {
                        mind: Mind { state: HostileState::Dead, ..old(self).hostiles@[i].mind },
                        ..old(self).hostiles@[i]
                    }
                } else {
                    old(self).hostiles@[i]
                },
            forall|a: ActorId| #[trigger]
                final(self).arena.life(a) == if seats(old(self).hostiles@, a) && a.runtime_index
                    == idx {
                    Some(false)
                } else {
                    old(self).arena.life(a)
                },
            final(self).locks.lock == if old(self).locks.lock == Some(idx) {
                None
            } else {
                old(self).locks.lock
            },
            final(self).locks.cycle@ == old(self).locks.cycle@,
            old(self).exact() ==> final(self).exact(),
            old(self).lock_seated() ==> final(self).lock_seated(),
            final(self).clock == old(self).clock,
            final(self).sequence == old(self).sequence,
            final(self).presentations == old(self).presentations,
            final(self).slain_by == old(self).slain_by,
            final(self).last_incoming == old(self).last_incoming,
            final(self).log == old(self).log,
    {
        let at: usize = self.find_alive(idx);
        let ghost was = self.hostiles@;
        let mut h: WorldHostile = self.hostiles[at];
        h.mind = Mind { state: HostileState::Dead, ..h.mind };
        self.hostiles.set(at, h);
        self.arena.set_alive(h.actor_id, false);
        self.locks.release(idx);
        proof {
            lemma_reseated(was, self.hostiles@, at as int);
            assert(was[at as int].actor_id == h.actor_id);
            assert(seats(was, h.actor_id));
            assert forall|a: ActorId| seats(was, a) && a.runtime_index == idx implies a
                == h.actor_id by {
                let k = choose|k: int| 0 <= k < was.len() && (#[trigger] was[k]).actor_id == a;
                if k < at {
                    assert(was[k].idx != was[at as int].idx);
                } else if at < k {
                    assert(was[at as int].idx != was[k].idx);
                }
            }
        }
    }

    /// Whether a seated hostile lives.
    pub fn hostile_is_alive(&self, id: ActorId) -> (r: bool)
        requires
            self.wf(),
            seats(self.hostiles@, id),
        ensures
            r == (self.arena.life(id) == Some(true)),
    {
        matches!(self.arena.is_alive(id), Some(true))
    }

    /// Tab, given the indices of the hostiles ahead, nearest first.
    pub fn press_tab(&mut self, ids: &[i32])
        requires
            old(self).wf(),
            forall|i: int|
                0 <= i < ids@.len() ==> seats_index(old(self).hostiles@, #[trigger] ids@[i]),
        ensures
            final(self).wf(),
            final(self).lock_seated(),
            final(self).locks.lock == tabbed(old(self).locks.lock, old(self).locks.cycle@, ids@),
            final(self).locks.cycle@ == ids@,
            old(self).exact() ==> final(self).exact(),
            final(self).hostiles == old(self).hostiles,
            final(self).arena == old(self).arena,
            final(self).clock == old(self).clock,
            final(self).sequence == old(self).sequence,
            final(self).presentations == old(self).presentations,
            final(self).slain_by == old(self).slain_by,
            final(self).last_incoming == old(self).last_incoming,
            final(self).log == old(self).log,
    {
        let ghost was = self.locks;
        self.locks.press_tab(ids);
        proof {
            match was.lock {
                Some(cur) => lemma_place(ids@, cur, 0),
                None => {},
            }
        }
    }

    /// A click, given the indices of the hostiles ahead, nearest first.
    pub fn click_lock(&mut self, ids: &[i32])
        requires
            old(self).wf(),
            forall|i: int|
                0 <= i < ids@.len() ==> seats_index(old(self).hostiles@, #[trigger] ids@[i]),
        ensures
            final(self).wf(),
            final(self).lock_seated(),
            final(self).locks.lock == if ids@.len() > 0 {
                Some(ids@[0])
            } else {
                None
            },
            final(self).locks.cycle@ == ids@,
            old(self).exact() ==> final(self).exact(),
            final(self).hostiles == old(self).hostiles,
            final(self).arena == old(self).arena,
            final(self).clock == old(self).clock,
            final(self).sequence == old(self).sequence,
            final(self).presentations == old(self).presentations,
            final(self).slain_by == old(self).slain_by,
            final(self).last_incoming == old(self).last_incoming,
            final(self).log == old(self).log,
    {
        self.locks.click_lock(ids);
    }

    /// After the hold of the slain: the player lives again, shaken, with nothing locked.
    pub fn finish_death_respawn(&mut self)
        requires
            old(self).wf(),
        ensures
            final(self).wf(),
            final(self).lock_seated(),
            final(self).locks.lock is None,
            final(self).locks.cycle@ == old(self).locks.cycle@,
            final(self).slain_by is None,
            final(self).clock == (WorldClock {
                dead: false,
                slain_hold_s: 0,
                shaken_s: Some(SHAKEN_S),
                ..old(self).clock
            }),
            forall|a: ActorId| #[trigger]
                final(self).arena.life(a) == if a == player_id() {
                    Some(true)
                } else {
                    old(self).arena.life(a)
                },
            old(self).exact() ==> final(self).exact(),
            final(self).hostiles == old(self).hostiles,
            final(self).sequence == old(self).sequence,
            final(self).presentations == old(self).presentations,
            final(self).last_incoming == old(self).last_incoming,
            final(self).log == old(self).log,
    {
        self.clock.finish_death_respawn();
        self.arena.set_alive(ActorId::player(), true);
        self.locks.set_lock(None);
        self.slain_by = None;
    }

    /// Forgets who was locked and who was ahead.
    pub fn reset_encounter_state(&mut self)
        requires
            old(self).wf(),
        ensures
            final(self).wf(),
            final(self).lock_seated(),
            final(self).locks.lock is None,
            final(self).locks.cycle@.len() == 0,
            old(self).exact() ==> final(self).exact(),
            final(self).hostiles == old(self).hostiles,
            final(self).arena == old(self).arena,
            final(self).clock == old(self).clock,
            final(self).sequence == old(self).sequence,
            final(self).presentations == old(self).presentations,
            final(self).slain_by == old(self).slain_by,
            final(self).last_incoming == old(self).last_incoming,
            final(self).log == old(self).log,
    {
        self.locks.reset();
    }

    /// Starts over when a fixture is armed: the player lives and nothing is told of before.
    pub fn reset_for_fixture_start(&mut self)
        requires
            old(self).wf(),
        ensures
            final(self).wf(),
            final(self).lock_seated(),
            final(self).locks.lock is None,
            final(self).locks.cycle@.len() == 0,
            final(self).slain_by is None,
            final(self).last_incoming is None,
            final(self).log@.len() == 0,
            final(self).clock == (WorldClock {
                tick: old(self).clock.tick,
                fails: FailBoard { tell: None, left_s: 0 },
                dead: false,
                slain_hold_s: 0,
                shaken_s: None,
            }),
            forall|a: ActorId| #[trigger]
                final(self).arena.life(a) == if a == player_id() {
                    Some(true)
                } else {
                    old(self).arena.life(a)
                },
            old(self).exact() ==> final(self).exact(),
            final(self).hostiles == old(self).hostiles,
            final(self).sequence == old(self).sequence,
            final(self).presentations == old(self).presentations,
    {
        self.reset_encounter_state();
        self.arena.set_alive(ActorId::player(), true);
        self.clock.reset_for_fixture_start();
        self.slain_by = None;
        self.last_incoming = None;
        self.log = CombatLog::new();
    }

    /// Gives the player or a seated hostile without a body one.
    pub fn bind_presentation(
        &mut self,
        actor: ActorId,
        source: HostilePresentationSource,
        entity: u64,
    )
        requires
            old(self).wf(),
            actor == player_id() || seats(old(self).hostiles@, actor),
            source != HostilePresentationSource::Headless,
            old(self).presentations.body_of(actor) is None,
        ensures
            final(self).wf(),
            forall|a: ActorId| #[trigger]
                final(self).presentations.body_of(a) == if a == actor {
                    Some(ActorPresentation { source, entity })
                } else {
                    old(self).presentations.body_of(a)
                },
            old(self).exact() ==> final(self).exact(),
            old(self).lock_seated() ==> final(self).lock_seated(),
            final(self).hostiles == old(self).hostiles,
            final(self).arena == old(self).arena,
            final(self).locks == old(self).locks,
            final(self).clock == old(self).clock,
            final(self).sequence == old(self).sequence,
            final(self).slain_by == old(self).slain_by,
            final(self).last_incoming == old(self).last_incoming,
            final(self).log == old(self).log,
    {
        self.presentations.bind(actor, source, entity);
    }

    /// Takes the body from an actor whose body a source draws.
    pub fn unbind_presentation(&mut self, actor: ActorId, source: HostilePresentationSource) -> (r:
        u64)
        requires
            old(self).wf(),
            old(self).presentations.body_of(actor) is Some,
            old(self).presentations.body_of(actor)->0.source == source,
        ensures
            final(self).wf(),
            r == old(self).presentations.body_of(actor)->0.entity,
            forall|a: ActorId| #[trigger]
                final(self).presentations.body_of(a) == if a == actor {
                    None
                } else {
                    old(self).presentations.body_of(a)
                },
            old(self).exact() ==> final(self).exact(),
            old(self).lock_seated() ==> final(self).lock_seated(),
            final(self).hostiles == old(self).hostiles,
            final(self).arena == old(self).arena,
            final(self).locks == old(self).locks,
            final(self).clock == old(self).clock,
            final(self).sequence == old(self).sequence,
            final(self).slain_by == old(self).slain_by,
            final(self).last_incoming == old(self).last_incoming,
            final(self).log == old(self).log,
    {
        self.presentations.unbind(actor, source)
    }

    /// Takes every body the combat layer draws; gives the entities in the order of the
    /// actors.
    pub fn release_combat_layer_presentations(&mut self) -> (r: Vec<u64>)
        requires
            old(self).wf(),
        ensures
            final(self).wf(),
            r@ == drawn_by(
                old(self).presentations.bindings@,
                HostilePresentationSource::CombatLayer,
            ),
            final(self).presentations.bindings@ == not_of(
                old(self).presentations.bindings@,
                HostilePresentationSource::CombatLayer,
            ),
            old(self).exact() ==> final(self).exact(),
            old(self).lock_seated() ==> final(self).lock_seated(),
            final(self).hostiles == old(self).hostiles,
            final(self).arena == old(self).arena,
            final(self).locks == old(self).locks,
            final(self).clock == old(self).clock,
            final(self).sequence == old(self).sequence,
            final(self).slain_by == old(self).slain_by,
            final(self).last_incoming == old(self).last_incoming,
            final(self).log == old(self).log,
    {
        self.presentations.remove_source(HostilePresentationSource::CombatLayer)
    }

    /// Lets every hostile think for `dt` seconds and tells where each goes; `senses` follows
    /// the seats. Nobody thinks once the player is dead, nor while no time passes.
    pub fn tick_hostile_ai(&mut self, senses: &[Senses], dt: i128) -> (r: Vec<Step>)
        requires
            old(self).wf(),
            senses@.len() == old(self).hostiles@.len(),
            forall|i: int|
                0 <= i < senses@.len() ==> old(self).hostiles@[i].mind.detection_check + (
                #[trigger] senses@[i]).others@.len() + 2 <= u64::MAX,
            forall|i: int|
                0 <= i < old(self).hostiles@.len() ==> diff_of(
                    (#[trigger] old(self).hostiles@[i]).mind.detection_left_s,
                    dt,
                ) >= FARTHEST_BACK_S,
        ensures
            final(self).wf(),
            final(self).hostiles@.len() == old(self).hostiles@.len(),
            old(self).clock.dead || dt <= 0 ==> r@.len() == 0 && final(self).hostiles@
                == old(self).hostiles@,
            !old(self).clock.dead && dt > 0 ==> r@.len() == senses@.len(),
            !old(self).clock.dead && dt > 0 ==> forall|i: int|
                0 <= i < senses@.len() ==> #[trigger] final(self).hostiles@[i] == (WorldHostile {
                    mind: old(self).mind_after(senses@[i], i, dt).0,
                    ..old(self).hostiles@[i]
                }),
            !old(self).clock.dead && dt > 0 ==> forall|i: int|
                0 <= i < senses@.len() ==> #[trigger] r@[i] == old(self).mind_after(
                    senses@[i],
                    i,
                    dt,
                ).1,
            old(self).exact() ==> final(self).exact(),
            old(self).lock_seated() ==> final(self).lock_seated(),
            final(self).arena == old(self).arena,
            final(self).locks == old(self).locks,
            final(self).clock == old(self).clock,
            final(self).sequence == old(self).sequence,
            final(self).presentations == old(self).presentations,
            final(self).slain_by == old(self).slain_by,
            final(self).last_incoming == old(self).last_incoming,
            final(self).log == old(self).log,
    {
        let mut steps: Vec<Step> = Vec::new();
        if self.clock.dead || dt <= 0 {
            return steps;
        }
        let ghost was = self.hostiles@;
        let mut i: usize = 0;
        while i < senses.len()
            invariant
                i <= senses@.len() == was.len() == self.hostiles@.len(),
                was == old(self).hostiles@,
                old(self).wf(),
                    forall|j: int|
                    0 <= j < senses@.len() ==> old(self).hostiles@[j].mind.detection_check + (
                    #[trigger] senses@[j]).others@.len() + 2 <= u64::MAX,
                forall|j: int|
                    0 <= j < old(self).hostiles@.len() ==> diff_of(
                        (#[trigger] old(self).hostiles@[j]).mind.detection_left_s,
                        dt,
                    ) >= FARTHEST_BACK_S,
                steps@.len() == i,
                forall|j: int|
                    0 <= j < i ==> #[trigger] self.hostiles@[j] == (WorldHostile {
                        mind: old(self).mind_after(senses@[j], j, dt).0,
                        ..was[j]
                    }),
                forall|j: int|
                    0 <= j < i ==> #[trigger] steps@[j] == old(self).mind_after(
                        senses@[j],
                        j,
                        dt,
                    ).1,
                forall|j: int| i <= j < was.len() ==> #[trigger] self.hostiles@[j] == was[j],
                self.arena == old(self).arena,
                self.locks == old(self).locks,
                self.clock == old(self).clock,
                self.sequence == old(self).sequence,
                self.presentations == old(self).presentations,
                self.slain_by == old(self).slain_by,
                self.last_incoming == old(self).last_incoming,
                self.log == old(self).log,
            decreases senses@.len() - i,
        {
            let s: &Senses = &senses[i];
            assert(was[i as int].mind.detection_check + senses@[i as int].others@.len() + 2
                <= u64::MAX);
            let mut h: WorldHostile = self.hostiles[i];
            assert(h == was[i as int]);
            let alive: bool = matches!(self.arena.is_alive(h.actor_id), Some(true));
            let now: Senses = Senses {
                alive,
                can_move: s.can_move,
                beyond_leash: s.beyond_leash,
                at_home: s.at_home,
                has_action: s.has_action,
                others: s.others,
            };
            let step: Step = h.mind.think(&now, dt);
            self.hostiles.set(i, h);
            steps.push(step);
            i += 1;
        }
        proof {
            let now = self.hostiles@;
            assert forall|k: int, m: int| 0 <= k < m < now.len() implies (#[trigger] now[k]).idx
                != (#[trigger] now[m]).idx && now[k].actor_id.canonical
                != now[m].actor_id.canonical by {
                assert(was[k].idx != was[m].idx);
            }
            assert forall|a: ActorId| seats(was, a) implies seats(now, a) by {
                let k = choose|k: int| 0 <= k < was.len() && (#[trigger] was[k]).actor_id == a;
                assert(now[k].actor_id == a);
            }
            assert forall|x: i32| seats_index(was, x) implies seats_index(now, x) by {
                let k = choose|k: int| 0 <= k < was.len() && (#[trigger] was[k]).idx == x;
                assert(now[k].idx == x);
            }
        }
        steps
    }

    /// What hostile `i` has in mind after a turn, and where it goes. Whether it lives is for
    /// the arena to say.
    pub open spec fn mind_after(&self, s: Senses, i: int, dt: i128) -> (Mind, Step) {
        thought(
            self.hostiles@[i].mind,
            self.arena.life(self.hostiles@[i].actor_id) == Some(true),
            s.can_move,
            s.beyond_leash,
            s.at_home,
            s.has_action,
            s.others@,
            dt,
        )
    }

    /// Whether any hostile is engaged.
    pub fn in_combat(&self) -> (r: bool)
        ensures
            r == exists|i: int|
                0 <= i < self.hostiles@.len() && (#[trigger] self.hostiles@[i]).mind.state.engaged(),
    {
        let mut i: usize = 0;
        while i < self.hostiles.len()
            invariant
                i <= self.hostiles@.len(),
                forall|j: int| 0 <= j < i ==> !(#[trigger] self.hostiles@[j]).mind.state.engaged(),
            decreases self.hostiles@.len() - i,
        {
            if self.hostiles[i].mind.state.is_engaged() {
                assert(self.hostiles@[i as int].mind.state.engaged());
                return true;
            }
            i += 1;
        }
        false
    }
}

/// In an exact arena the roll lists everyone once: nobody is resolved twice and nobody is
/// left behind.
pub proof fn law_roll_is_the_arena(w: WorldCombat)
    requires
        w.wf(),
        w.exact(),
    ensures
        roll(w.hostiles@).no_duplicates(),
        forall|a: ActorId| #[trigger] roll(w.hostiles@).contains(a) <==> w.arena.life(a) is Some,
{
    let hs = w.hostiles@;
    let ids = identities(hs);
    let all = roll(hs);
    lemma_identities(hs);
    assert(!ids.contains(player_id()));
    assert forall|i: int, j: int| 0 <= i < all.len() && 0 <= j < all.len() && i != j implies all[i]
        != all[j] by {
        if i == 0 {
            assert(ids[j - 1] == all[j]);
        } else if j == 0 {
            assert(ids[i - 1] == all[i]);
        } else {
            assert(ids[i - 1] != ids[j - 1]);
        }
    }
    assert forall|a: ActorId| #[trigger] all.contains(a) <==> w.arena.life(a) is Some by {
        if all.contains(a) {
            let k = choose|k: int| 0 <= k < all.len() && all[k] == a;
            if k > 0 {
                assert(ids[k - 1] == a);
                assert(hs[k - 1].actor_id == a);
            }
        }
        if w.arena.life(a) is Some {
            if a == player_id() {
                assert(all[0] == a);
            } else {
                assert(ids.contains(a));
                let k = choose|k: int| 0 <= k < ids.len() && ids[k] == a;
                assert(all[k + 1] == a);
            }
        }
    }
}

} // verus!
