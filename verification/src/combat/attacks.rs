//! The hostiles' attacks of one step: who starts a cast, and who strikes in which order.

use crate::combat::actors::{actor_before, ActorId};
use crate::combat::hostile_ai::HostileState;
use crate::combat::live::WorldCombat;
use crate::combat::player_actions::{hostile_turn, turn_of, Turn, TurnFacts};
use crate::combat::world::IncomingHit;
use crate::text::owned;
use vstd::prelude::*;

verus! {

/// A cast under way: whether it has run out, the number of its target and the action.
#[derive(Clone, Copy, Debug, PartialEq, Eq, Structural)]
pub struct CastNow {
    pub done: bool,
    pub target: u32,
    pub action: usize,
}

/// What is measured of a hostile before it attacks.
#[derive(Clone, Copy, Debug, PartialEq, Eq, Structural)]
pub struct AttackFacts {
    pub cast: Option<CastNow>,
    pub can_act: bool,
    /// The action that reaches its target.
    pub choice: Option<usize>,
    /// The chosen action takes time to cast.
    pub takes_time: bool,
}

/// An action of a hostile against somebody.
#[derive(Clone, Copy, Debug, PartialEq, Eq, Structural)]
pub struct Attack {
    pub caster: ActorId,
    pub target: ActorId,
    pub action: usize,
}

/// What the hostiles do in a step.
#[derive(Clone, Debug)]
pub struct Staged {
    /// The casts that start, in the order of the seats.
    pub starts: Vec<Attack>,
    /// The actions that are carried out, in the order of the identities.
    pub ready: Vec<Attack>,
}

/// A list of attacks after one more took its place behind all that do not come after it.
pub open spec fn placed(order: Seq<Attack>, a: Attack) -> Seq<Attack>
    decreases order.len(),
{
    if order.len() == 0 || !actor_before(a.caster, order.last().caster) {
        order.push(a)
    } else {
        placed(order.drop_last(), a).push(order.last())
    }
}

proof fn lemma_placed(order: Seq<Attack>, a: Attack, at: int)
    requires
        0 <= at <= order.len(),
        at == 0 || !actor_before(a.caster, order[at - 1].caster),
        forall|k: int|
            at <= k < order.len() ==> actor_before(a.caster, (#[trigger] order[k]).caster),
    ensures
        placed(order, a) == order.insert(at, a),
    decreases order.len(),
{
    if at < order.len() {
        let rest = order.drop_last();
        assert forall|k: int| at <= k < rest.len() implies actor_before(
            a.caster,
            (#[trigger] rest[k]).caster,
        ) by {
            assert(rest[k] == order[k]);
        }
        assert(at > 0 ==> rest[at - 1] == order[at - 1]);
        lemma_placed(rest, a, at);
        assert(actor_before(a.caster, order[order.len() - 1].caster));
    }
    assert(placed(order, a) =~= order.insert(at, a));
}

impl WorldCombat {
    /// What is known of hostile `i` on its turn.
    pub open spec fn turn_facts(&self, f: AttackFacts, i: int) -> TurnFacts {
        TurnFacts {
            alive: self.arena.life(self.hostiles@[i].actor_id) == Some(true),
            state: self.hostiles@[i].mind.state,
            cast: match f.cast {
                Some(c) => Some(c.done),
                None => None,
            },
            can_act: f.can_act,
            choice: f.choice,
            takes_time: f.takes_time,
        }
    }

    /// Whether a hostile that attacks has somebody to attack, and a cast that has run out
    /// goes to somebody who is there.
    pub open spec fn aims(&self, f: AttackFacts, i: int) -> bool {
        let t = self.turn_facts(f, i);
        t.alive && t.state == HostileState::Attacking ==> self.hostiles@[i].mind.target is Some && (
        f.cast is Some && f.cast->0.done ==> self.known(f.cast->0.target))
    }

    /// What hostile `i` carries out.
    pub open spec fn carried_out(&self, f: AttackFacts, i: int) -> Option<Attack> {
        match turn_of(self.turn_facts(f, i)) {
            Turn::Complete => Some(
                Attack {
                    caster: self.hostiles@[i].actor_id,
                    target: self.numbered(f.cast->0.target),
                    action: f.cast->0.action,
                },
            ),
            Turn::Strike(action) => Some(
                Attack {
                    caster: self.hostiles@[i].actor_id,
                    target: self.hostiles@[i].mind.target->0,
                    action,
                },
            ),
            _ => None,
        }
    }

    /// The cast hostile `i` starts.
    pub open spec fn started(&self, f: AttackFacts, i: int) -> Option<Attack> {
        match turn_of(self.turn_facts(f, i)) {
            Turn::StartCast(action) => Some(
                Attack {
                    caster: self.hostiles@[i].actor_id,
                    target: self.hostiles@[i].mind.target->0,
                    action,
                },
            ),
            _ => None,
        }
    }

    /// The casts the first `n` hostiles start.
    pub open spec fn starts_of(&self, facts: Seq<AttackFacts>, n: nat) -> Seq<Attack>
        decreases n,
    {
        if n == 0 {
            Seq::empty()
        } else {
            let before = self.starts_of(facts, (n - 1) as nat);
            match self.started(facts[n - 1], n - 1) {
                Some(a) => before.push(a),
                None => before,
            }
        }
    }

    /// What the first `n` hostiles carry out, in the order of their identities.
    pub open spec fn ready_of(&self, facts: Seq<AttackFacts>, n: nat) -> Seq<Attack>
        decreases n,
    {
        if n == 0 {
            Seq::empty()
        } else {
            let before = self.ready_of(facts, (n - 1) as nat);
            match self.carried_out(facts[n - 1], n - 1) {
                Some(a) => placed(before, a),
                None => before,
            }
        }
    }

    /// Whether a step of `dt` seconds stages nothing: the player is dead, or no time passes.
    pub open spec fn stands_still(&self, dt: i128) -> bool {
        self.clock.dead || dt <= 0
    }

    /// Stages the attacks of a step of `dt` seconds; `facts` follows the seats. Nobody
    /// attacks once the player is dead, nor while no time passes.
    pub fn stage_attacks(&self, facts: &[AttackFacts], dt: i128) -> (r: Staged)
        requires
            self.wf(),
            self.stands_still(dt) || facts@.len() == self.hostiles@.len(),
            self.stands_still(dt) || forall|i: int|
                0 <= i < facts@.len() ==> self.aims(#[trigger] facts@[i], i),
        ensures
            self.stands_still(dt) ==> r.starts@.len() == 0 && r.ready@.len() == 0,
            !self.stands_still(dt) ==> r.starts@ == self.starts_of(facts@, facts@.len()) && r.ready@
                == self.ready_of(facts@, facts@.len()),
    {
        let mut starts: Vec<Attack> = Vec::new();
        let mut ready: Vec<Attack> = Vec::new();
        if self.clock.dead || dt <= 0 {
            return Staged { starts, ready };
        }
        let mut i: usize = 0;
        while i < facts.len()
            invariant
                i <= facts@.len() == self.hostiles@.len(),
                self.wf(),
                forall|j: int| 0 <= j < facts@.len() ==> self.aims(#[trigger] facts@[j], j),
                starts@ == self.starts_of(facts@, i as nat),
                ready@ == self.ready_of(facts@, i as nat),
            decreases facts@.len() - i,
        {
            let f: AttackFacts = facts[i];
            assert(self.aims(facts@[i as int], i as int));
            let caster: ActorId = self.hostiles[i].actor_id;
            let turn: Turn = hostile_turn(
                TurnFacts {
                    alive: matches!(self.arena.is_alive(caster), Some(true)),
                    state: self.hostiles[i].mind.state,
                    cast: match f.cast {
                        Some(c) => Some(c.done),
                        None => None,
                    },
                    can_act: f.can_act,
                    choice: f.choice,
                    takes_time: f.takes_time,
                },
            );
            assert(turn == turn_of(self.turn_facts(f, i as int)));
            let mut strike: Option<Attack> = None;
            match (turn, f.cast, self.hostiles[i].mind.target) {
                (Turn::Complete, Some(c), _) => {
                    strike = Some(
                        Attack {
                            caster,
                            target: self.actor_id_from_resolution(c.target),
                            action: c.action,
                        },
                    );
                },
                (Turn::Strike(action), _, Some(target)) => {
                    strike = Some(Attack { caster, target, action });
                },
                (Turn::StartCast(action), _, Some(target)) => {
                    starts.push(Attack { caster, target, action });
                },
                _ => {},
            }
            assert(strike == self.carried_out(f, i as int));
            match strike {
                Some(a) => {
                    let mut at: usize = ready.len();
                    while at > 0 && a.caster.before(ready[at - 1].caster)
                        invariant
                            at <= ready@.len(),
                            forall|k: int|
                                at <= k < ready@.len() ==> actor_before(
                                    a.caster,
                                    (#[trigger] ready@[k]).caster,
                                ),
                        decreases at,
                    {
                        at -= 1;
                    }
                    proof {
                        lemma_placed(ready@, a, at as int);
                    }
                    ready.insert(at, a);
                },
                None => {},
            }
            i += 1;
        }
        Staged { starts, ready }
    }

    /// Tells of an action that was carried out on the player and cost it `dealt`.
    pub fn note_strike(&mut self, by: &str, dealt: i32) -> (r: IncomingHit)
        requires
            old(self).wf(),
        ensures
            final(self).wf(),
            r.dealt == dealt,
            r.by@ == by@,
            r.killed == old(self).clock.dead,
            old(self).clock.dead ==> final(self).slain_by is Some && final(self).slain_by->0@
                == by@,
            !old(self).clock.dead ==> final(self).slain_by == old(self).slain_by,
            old(self).exact() ==> final(self).exact(),
            old(self).lock_seated() ==> final(self).lock_seated(),
            final(self).hostiles == old(self).hostiles,
            final(self).arena == old(self).arena,
            final(self).locks == old(self).locks,
            final(self).clock == old(self).clock,
            final(self).sequence == old(self).sequence,
            final(self).presentations == old(self).presentations,
            final(self).last_incoming == old(self).last_incoming,
            final(self).log == old(self).log,
    {
        if self.clock.dead {
            self.slain_by = Some(owned(by));
        }
        IncomingHit { dealt, by: owned(by), killed: self.clock.dead }
    }
}

proof fn lemma_placed_sorted(order: Seq<Attack>, a: Attack)
    requires
        forall|i: int, j: int|
            0 <= i < j < order.len() ==> actor_before(
                (#[trigger] order[i]).caster,
                (#[trigger] order[j]).caster,
            ),
        forall|i: int| 0 <= i < order.len() ==> (#[trigger] order[i]).caster.canonical
            != a.caster.canonical,
    ensures
        ({
            let now = placed(order, a);
            &&& now.len() == order.len() + 1
            &&& forall|i: int, j: int|
                0 <= i < j < now.len() ==> actor_before(
                    (#[trigger] now[i]).caster,
                    (#[trigger] now[j]).caster,
                )
            &&& forall|k: int|
                0 <= k < now.len() ==> (#[trigger] now[k]) == a || order.contains(now[k])
        }),
    decreases order.len(),
{
    let now = placed(order, a);
    if order.len() == 0 || !actor_before(a.caster, order.last().caster) {
        assert forall|k: int| 0 <= k < now.len() implies (#[trigger] now[k]) == a
            || order.contains(now[k]) by {
            if k < order.len() {
                assert(order[k] == now[k]);
            }
        }
        assert forall|i: int, j: int| 0 <= i < j < now.len() implies actor_before(
            (#[trigger] now[i]).caster,
            (#[trigger] now[j]).caster,
        ) by {
            if j < order.len() {
                assert(actor_before(order[i].caster, order[j].caster));
            } else {
                let last = order[order.len() - 1];
                assert(last.caster.canonical != a.caster.canonical);
                if i < order.len() - 1 {
                    assert(actor_before(order[i].caster, last.caster));
                }
            }
        }
    } else {
        let rest = order.drop_last();
        assert forall|i: int, j: int| 0 <= i < j < rest.len() implies actor_before(
            (#[trigger] rest[i]).caster,
            (#[trigger] rest[j]).caster,
        ) by {
            assert(actor_before(order[i].caster, order[j].caster));
        }
        assert forall|i: int| 0 <= i < rest.len() implies (#[trigger] rest[i]).caster.canonical
            != a.caster.canonical by {
            assert(rest[i] == order[i]);
        }
        lemma_placed_sorted(rest, a);
        let part = placed(rest, a);
        assert forall|k: int| 0 <= k < now.len() implies (#[trigger] now[k]) == a
            || order.contains(now[k]) by {
            if k < part.len() {
                assert(now[k] == part[k]);
                if part[k] != a {
                    let m = choose|m: int| 0 <= m < rest.len() && rest[m] == part[k];
                    assert(order[m] == now[k]);
                }
            } else {
                assert(order[order.len() - 1] == now[k]);
            }
        }
        assert forall|i: int, j: int| 0 <= i < j < now.len() implies actor_before(
            (#[trigger] now[i]).caster,
            (#[trigger] now[j]).caster,
        ) by {
            if j < part.len() {
                assert(actor_before(part[i].caster, part[j].caster));
            } else {
                assert(now[i] == part[i]);
                if part[i] != a {
                    let m = choose|m: int| 0 <= m < rest.len() && rest[m] == part[i];
                    assert(actor_before(order[m].caster, order[order.len() - 1].caster));
                }
            }
        }
    }
}

/// Attackers of one step strike in the order of their identities, each once, and only
/// hostiles that live and attack.
pub proof fn law_attackers_strike_in_order(w: WorldCombat, facts: Seq<AttackFacts>, n: nat)
    requires
        w.wf(),
        n <= facts.len(),
        facts.len() == w.hostiles@.len(),
    ensures
        forall|i: int, j: int|
            0 <= i < j < w.ready_of(facts, n).len() ==> actor_before(
                (#[trigger] w.ready_of(facts, n)[i]).caster,
                (#[trigger] w.ready_of(facts, n)[j]).caster,
            ),
        forall|i: int|
            0 <= i < w.ready_of(facts, n).len() ==> w.attacks(
                (#[trigger] w.ready_of(facts, n)[i]).caster,
                n,
            ),
    decreases n,
{
    if n > 0 {
        let m = (n - 1) as nat;
        law_attackers_strike_in_order(w, facts, m);
        let before = w.ready_of(facts, m);
        let now = w.ready_of(facts, n);
        assert forall|i: int| 0 <= i < before.len() implies w.attacks(
            (#[trigger] before[i]).caster,
            n,
        ) && before[i].caster.canonical != w.hostiles@[m as int].actor_id.canonical by {
            assert(w.attacks(before[i].caster, m));
            let k = choose|k: int| #[trigger] w.attacker(k, before[i].caster) && 0 <= k < m;
            assert(w.attacker(k, before[i].caster));
            assert(w.hostiles@[k].idx != w.hostiles@[m as int].idx);
        }
        match w.carried_out(facts[m as int], m as int) {
            Some(a) => {
                lemma_placed_sorted(before, a);
                assert(w.attacker(m as int, a.caster));
                assert forall|i: int| 0 <= i < now.len() implies w.attacks(
                    (#[trigger] now[i]).caster,
                    n,
                ) by {
                    if now[i] != a {
                        assert(before.contains(now[i]));
                        let k = choose|k: int| 0 <= k < before.len() && before[k] == now[i];
                        assert(w.attacks(before[k].caster, n));
                    }
                }
            },
            None => {},
        }
    }
}

impl WorldCombat {
    /// Whether hostile `k` has an identity, lives and attacks.
    pub open spec fn attacker(&self, k: int, id: ActorId) -> bool {
        &&& self.hostiles@[k].actor_id == id
        &&& self.arena.life(id) == Some(true)
        &&& self.hostiles@[k].mind.state == HostileState::Attacking
    }

    /// Whether one of the first `n` hostiles has an identity, lives and attacks.
    pub open spec fn attacks(&self, id: ActorId, n: nat) -> bool {
        exists|k: int| #[trigger] self.attacker(k, id) && 0 <= k < n
    }
}

} // verus!
