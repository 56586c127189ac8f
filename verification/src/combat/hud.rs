//! What the player is shown of a fight: a snapshot that later steps of the world leave
//! alone.

use crate::combat::actors::{player_id, ActorId};
use crate::combat::live::{WorldCombat, WorldHostile};
use crate::combat::player_actions::FailTell;
use crate::combat::world::{slain_line, CombatHudProgression};
use crate::gamedata::ids::ActionId;
use crate::measure::{Real, Real32};
use crate::text::owned;
use vstd::prelude::*;

verus! {

/// A place in space.
#[derive(Clone, Copy, Debug, PartialEq, Eq, Structural)]
pub struct HeadPosition {
    pub x: Real,
    pub y: Real,
    pub z: Real,
}

/// Heads are shown 1.55 metres up until their place is known.
pub const HEAD_HEIGHT_BITS: u64 = 0x3ff8_cccc_cccc_cccd;

/// An action of the player.
#[derive(Clone, Debug)]
pub struct CombatHudAction {
    pub id: ActionId,
    pub name: String,
    pub cooldown_fraction: Real32,
}

/// A hostile.
#[derive(Clone, Debug)]
pub struct CombatHudActor {
    pub id: ActorId,
    pub name: String,
    pub hp: Real,
    pub hp_max: Real,
    pub head: HeadPosition,
    pub alive: bool,
}

/// What is shown.
#[derive(Clone, Debug)]
pub struct CombatHudSnapshot {
    pub hp: Real,
    pub hp_max: Real,
    pub mana: Real,
    pub mana_max: Real,
    pub dead: bool,
    pub lock: Option<ActorId>,
    pub actors: Vec<CombatHudActor>,
    pub actions: Vec<CombatHudAction>,
    pub cast_label: Option<String>,
    pub cast_fraction: Option<Real32>,
    pub log_lines: Vec<String>,
    pub fail_tell: Option<FailTell>,
    pub attack_pip: bool,
    pub hurt_flash: bool,
    pub hp_ghost_fraction: Option<Real32>,
    pub shaken: bool,
    pub slain_line: Option<String>,
    pub progression: Vec<CombatHudProgression>,
}

/// What is measured of the player.
#[derive(Clone, Debug)]
pub struct PlayerFacts {
    pub hp: Real,
    pub hp_max: Real,
    pub mana: Real,
    pub mana_max: Real,
    pub actions: Vec<CombatHudAction>,
    pub cast_label: Option<String>,
    pub cast_fraction: Option<Real32>,
    pub progression: Vec<CombatHudProgression>,
}

/// What is measured of a seated hostile.
#[derive(Clone, Debug)]
pub struct HostileFacts {
    pub name: String,
    pub hp: Real,
    pub hp_max: Real,
    pub x: Real,
    pub z: Real,
}

/// The place of an actor's head.
#[derive(Clone, Copy, Debug, PartialEq, Eq, Structural)]
pub struct HeadAnchor {
    pub id: ActorId,
    pub at: HeadPosition,
}

/// The identity of the first hostile with an index, from `from` on.
pub open spec fn identity_at(hs: Seq<WorldHostile>, idx: i32, from: int) -> Option<ActorId>
    decreases hs.len() - from,
{
    if from < 0 || from >= hs.len() {
        None
    } else if hs[from].idx == idx {
        Some(hs[from].actor_id)
    } else {
        identity_at(hs, idx, from + 1)
    }
}

/// The first anchor of an actor, from `from` on.
pub open spec fn anchor_of(anchors: Seq<HeadAnchor>, id: ActorId, from: int) -> Option<HeadPosition>
    decreases anchors.len() - from,
{
    if from < 0 || from >= anchors.len() {
        None
    } else if anchors[from].id == id {
        Some(anchors[from].at)
    } else {
        anchor_of(anchors, id, from + 1)
    }
}

/// The place of the first shown actor with an identity, from `from` on.
pub open spec fn shown_at(actors: Seq<CombatHudActor>, id: ActorId, from: int) -> Option<int>
    decreases actors.len() - from,
{
    if from < 0 || from >= actors.len() {
        None
    } else if actors[from].id == id {
        Some(from)
    } else {
        shown_at(actors, id, from + 1)
    }
}

fn find_anchor(anchors: &[HeadAnchor], id: ActorId) -> (r: Option<HeadPosition>)
    ensures
        r == anchor_of(anchors@, id, 0),
{
    let mut i: usize = 0;
    while i < anchors.len()
        invariant
            i <= anchors@.len(),
            anchor_of(anchors@, id, 0) == anchor_of(anchors@, id, i as int),
        decreases anchors@.len() - i,
    {
        if anchors[i].id == id {
            return Some(anchors[i].at);
        }
        i += 1;
    }
    None
}

impl WorldCombat {
    /// The identity of the locked hostile.
    pub fn lock_identity(&self) -> (r: Option<ActorId>)
        ensures
            r == match self.locks.lock {
                Some(idx) => identity_at(self.hostiles@, idx, 0),
                None => None,
            },
    {
        match self.locks.lock {
            None => None,
            Some(idx) => {
                let mut i: usize = 0;
                while i < self.hostiles.len()
                    invariant
                        i <= self.hostiles@.len(),
                        self.locks.lock == Some(idx),
                        identity_at(self.hostiles@, idx, 0) == identity_at(
                            self.hostiles@,
                            idx,
                            i as int,
                        ),
                    decreases self.hostiles@.len() - i,
                {
                    if self.hostiles[i].idx == idx {
                        return Some(self.hostiles[i].actor_id);
                    }
                    i += 1;
                }
                None
            },
        }
    }

    fn hud_actors(&self, facts: &[HostileFacts]) -> (r: Vec<CombatHudActor>)
        requires
            self.wf(),
            facts@.len() == self.hostiles@.len(),
        ensures
            r@.len() == facts@.len(),
            forall|i: int|
                0 <= i < r@.len() ==> self.shows((#[trigger] r@[i]), facts@[i], i),
    {
        let mut out: Vec<CombatHudActor> = Vec::new();
        let mut i: usize = 0;
        while i < facts.len()
            invariant
                i <= facts@.len(),
                self.wf(),
                facts@.len() == self.hostiles@.len(),
                out@.len() == i,
                forall|j: int|
                    0 <= j < i ==> self.shows((#[trigger] out@[j]), facts@[j], j),
            decreases facts@.len() - i,
        {
            let f: &HostileFacts = &facts[i];
            let id: ActorId = self.hostiles[i].actor_id;
            out.push(
                CombatHudActor {
                    id,
                    name: owned(f.name.as_str()),
                    hp: f.hp,
                    hp_max: f.hp_max,
                    head: HeadPosition { x: f.x, y: Real { bits: HEAD_HEIGHT_BITS }, z: f.z },
                    alive: matches!(self.arena.is_alive(id), Some(true)),
                },
            );
            i += 1;
        }
        out
    }

    /// Whether a shown actor is hostile `i` with what was measured of it.
    pub open spec fn shows(&self, a: CombatHudActor, f: HostileFacts, i: int) -> bool {
        &&& a.id == self.hostiles@[i].actor_id
        &&& a.name@ == f.name@
        &&& a.hp == f.hp
        &&& a.hp_max == f.hp_max
        &&& a.head == (HeadPosition { x: f.x, y: Real { bits: HEAD_HEIGHT_BITS }, z: f.z })
        &&& a.alive == (self.arena.life(self.hostiles@[i].actor_id) == Some(true))
    }

    fn owned_log(&self) -> (r: Vec<String>)
        ensures
            r@.len() == self.log@.len(),
            forall|i: int| 0 <= i < r@.len() ==> (#[trigger] r@[i])@ == self.log@[i],
    {
        let lines: Vec<&str> = self.log.lines();
        let mut out: Vec<String> = Vec::new();
        let mut i: usize = 0;
        while i < lines.len()
            invariant
                i <= lines@.len(),
                lines@.len() == self.log@.len(),
                forall|j: int| 0 <= j < lines@.len() ==> #[trigger] lines@[j]@ == self.log@[j],
                out@.len() == i,
                forall|j: int| 0 <= j < i ==> (#[trigger] out@[j])@ == self.log@[j],
            decreases lines@.len() - i,
        {
            out.push(owned(lines[i]));
            i += 1;
        }
        out
    }

    /// Takes a snapshot; `hostiles` follows the seats.
    pub fn hud_snapshot(&self, player: PlayerFacts, hostiles: &[HostileFacts]) -> (r:
        CombatHudSnapshot)
        requires
            self.wf(),
            hostiles@.len() == self.hostiles@.len(),
        ensures
            r.hp == player.hp,
            r.hp_max == player.hp_max,
            r.mana == player.mana,
            r.mana_max == player.mana_max,
            r.dead == self.clock.dead,
            r.lock == match self.locks.lock {
                Some(idx) => identity_at(self.hostiles@, idx, 0),
                None => None,
            },
            r.actors@.len() == hostiles@.len(),
            forall|i: int|
                0 <= i < r.actors@.len() ==> self.shows(
                    (#[trigger] r.actors@[i]),
                    hostiles@[i],
                    i,
                ),
            r.actions == player.actions,
            r.cast_label == player.cast_label,
            r.cast_fraction == player.cast_fraction,
            r.log_lines@.len() == self.log@.len(),
            forall|i: int|
                0 <= i < r.log_lines@.len() ==> (#[trigger] r.log_lines@[i])@ == self.log@[i],
            r.fail_tell == if self.clock.fails.left_s > 0 {
                self.clock.fails.tell
            } else {
                None
            },
            !r.attack_pip,
            !r.hurt_flash,
            r.hp_ghost_fraction is None,
            r.shaken == (self.clock.shaken_s is Some),
            match self.slain_by {
                Some(by) => r.slain_line is Some && r.slain_line->0@ == "Slain by "@ + by@,
                None => r.slain_line is None,
            },
            r.progression == player.progression,
    {
        let slain: Option<String> = match &self.slain_by {
            Some(by) => Some(slain_line(by.as_str())),
            None => None,
        };
        CombatHudSnapshot {
            hp: player.hp,
            hp_max: player.hp_max,
            mana: player.mana,
            mana_max: player.mana_max,
            dead: self.clock.dead,
            lock: self.lock_identity(),
            actors: self.hud_actors(hostiles),
            actions: player.actions,
            cast_label: player.cast_label,
            cast_fraction: player.cast_fraction,
            log_lines: self.owned_log(),
            fail_tell: self.clock.fails.fail_tell(),
            attack_pip: false,
            hurt_flash: false,
            hp_ghost_fraction: None,
            shaken: self.clock.shaken_s.is_some(),
            slain_line: slain,
            progression: player.progression,
        }
    }
}

impl CombatHudSnapshot {
    /// Whether there is an anchor for every shown actor and none besides. Nobody has two
    /// anchors.
    pub open spec fn anchored(&self, anchors: Seq<HeadAnchor>) -> bool {
        &&& anchors.len() == self.actors@.len()
        &&& forall|i: int|
            0 <= i < self.actors@.len() ==> anchor_of(anchors, (#[trigger] self.actors@[i]).id, 0)
                is Some
    }

    /// Whether the anchors are those of the shown actors, one each.
    pub fn heads_fit(&self, anchors: &[HeadAnchor]) -> (r: bool)
        ensures
            r == self.anchored(anchors@),
    {
        if anchors.len() != self.actors.len() {
            return false;
        }
        let mut i: usize = 0;
        while i < self.actors.len()
            invariant
                i <= self.actors@.len(),
                anchors@.len() == self.actors@.len(),
                forall|j: int|
                    0 <= j < i ==> anchor_of(anchors@, (#[trigger] self.actors@[j]).id, 0) is Some,
            decreases self.actors@.len() - i,
        {
            if find_anchor(anchors, self.actors[i].id).is_none() {
                assert(anchor_of(anchors@, self.actors@[i as int].id, 0) is None);
                return false;
            }
            i += 1;
        }
        true
    }

    /// Puts the heads where they are seen.
    pub fn with_head_positions(&mut self, anchors: &[HeadAnchor])
        requires
            old(self).anchored(anchors@),
        ensures
            final(self).actors@.len() == old(self).actors@.len(),
            forall|i: int|
                0 <= i < old(self).actors@.len() ==> #[trigger] final(self).actors@[i]
                    == (CombatHudActor {
                    head: anchor_of(anchors@, old(self).actors@[i].id, 0)->0,
                    ..old(self).actors@[i]
                }),
            *final(self) == (CombatHudSnapshot { actors: final(self).actors, ..*old(self) }),
    {
        let ghost was = self.actors@;
        let mut i: usize = 0;
        while i < self.actors.len()
            invariant
                i <= self.actors@.len() == was.len(),
                was == old(self).actors@,
                old(self).anchored(anchors@),
                *self == (CombatHudSnapshot { actors: self.actors, ..*old(self) }),
                forall|j: int|
                    0 <= j < i ==> #[trigger] self.actors@[j] == (CombatHudActor {
                        head: anchor_of(anchors@, was[j].id, 0)->0,
                        ..was[j]
                    }),
                forall|j: int| i <= j < was.len() ==> #[trigger] self.actors@[j] == was[j],
            decreases self.actors@.len() - i,
        {
            assert(anchor_of(anchors@, was[i as int].id, 0) is Some);
            match find_anchor(anchors, self.actors[i].id) {
                Some(at) => {
                    self.actors[i].head = at;
                },
                None => {},
            }
            i += 1;
        }
    }

    /// Sets what is shown of blows for a moment.
    pub fn with_presentation(
        &mut self,
        attack_pip: bool,
        hurt_flash: bool,
        hp_ghost_fraction: Option<Real32>,
    )
        ensures
            *final(self) == (CombatHudSnapshot {
                attack_pip,
                hurt_flash,
                hp_ghost_fraction,
                ..*old(self)
            }),
    {
        self.attack_pip = attack_pip;
        self.hurt_flash = hurt_flash;
        self.hp_ghost_fraction = hp_ghost_fraction;
    }

    /// The locked hostile, where it is shown.
    pub fn locked_actor(&self) -> (r: Option<&CombatHudActor>)
        ensures
            match self.lock {
                None => r is None,
                Some(id) => match shown_at(self.actors@, id, 0) {
                    Some(i) => r == Some(&self.actors@[i]),
                    None => r is None,
                },
            },
    {
        match self.lock {
            None => None,
            Some(id) => {
                let mut i: usize = 0;
                while i < self.actors.len()
                    invariant
                        i <= self.actors@.len(),
                        self.lock == Some(id),
                        shown_at(self.actors@, id, 0) == shown_at(self.actors@, id, i as int),
                    decreases self.actors@.len() - i,
                {
                    if self.actors[i].id == id {
                        return Some(&self.actors[i]);
                    }
                    i += 1;
                }
                None
            },
        }
    }
}

proof fn lemma_identity(hs: Seq<WorldHostile>, idx: i32, from: int, at: int)
    requires
        0 <= from <= at < hs.len(),
        hs[at].idx == idx,
        forall|j: int| from <= j < at ==> (#[trigger] hs[j]).idx != idx,
    ensures
        identity_at(hs, idx, from) == Some(hs[at].actor_id),
    decreases at - from,
{
    if from < at {
        assert(hs[from].idx != idx);
        lemma_identity(hs, idx, from + 1, at);
    }
}

/// A locked hostile that is seated is the one that is shown as locked: its own identity and
/// no other, and never the player's.
pub proof fn law_lock_shows_its_own(w: WorldCombat, at: int)
    requires
        w.wf(),
        0 <= at < w.hostiles@.len(),
    ensures
        identity_at(w.hostiles@, w.hostiles@[at].idx, 0) == Some(w.hostiles@[at].actor_id),
        w.hostiles@[at].actor_id != player_id(),
{
    let hs = w.hostiles@;
    assert forall|j: int| 0 <= j < at implies (#[trigger] hs[j]).idx != hs[at].idx by {
        assert(hs[j].idx != hs[at].idx);
    }
    lemma_identity(hs, hs[at].idx, 0, at);
}

} // verus!
