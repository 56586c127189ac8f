//! What presses, turns, locks and the choice of an action are for.

use crate::combat::attacks::{placed, Attack, AttackFacts};
use crate::combat::consideration::{band_of, ConBand};
use crate::combat::live::WorldCombat;
use crate::combat::lock::{next_lock, place_of};
use crate::combat::hostile_ai::HostileState;
use crate::combat::player_actions::{
    farthest, living_seat, longest, press_of, reaching, settled_of, total_place, turn_of,
    usable_of, FailTell, Outcome, Press, PressFacts, Seat, Settled, Turn, TurnFacts,
};
use crate::combat::target::{index_place, tabbed};
use crate::gamedata::kinds::ActionTarget;
use crate::gamedata::model::{Action, ActionEffect};
use crate::measure::Real;
use vstd::prelude::*;

verus! {

/// A press starts an action only for a living player who can act, casts nothing, has cooled
/// down and can pay; one at a hostile or anybody goes to the living lock, one at the player
/// itself to nobody. An action that takes time is cast, any other is carried out at once.
pub proof fn law_started_presses(target: ActionTarget, f: PressFacts)
    ensures
        press_of(target, f) is Ignored <==> f.dead || !f.can_act || f.casting || f.cooling,
        press_of(target, f) is Cast || press_of(target, f) is Finish ==> f.mana_suffices && (
        press_of(target, f) is Cast <==> f.takes_time),
        (target == ActionTarget::Hostile || target == ActionTarget::Any) && !f.lock_alive
            && !(press_of(target, f) is Ignored) ==> press_of(target, f) == Press::Failed(
            FailTell::NoTarget,
        ),
        press_of(target, f) == Press::Failed(FailTell::NotEnoughMana) ==> !f.mana_suffices,
        press_of(target, f) matches Press::Failed(tell) ==> tell != FailTell::OutOfRange,
        press_of(target, f) matches Press::Cast(at) ==> at == if target == ActionTarget::Hostile
            || target == ActionTarget::Any {
            f.lock
        } else {
            None
        },
        press_of(target, f) matches Press::Finish(at) ==> at == if target == ActionTarget::Hostile
            || target == ActionTarget::Any {
            f.lock
        } else {
            None
        },
{
}

/// An action counts exactly where it was done, and then cools down where it has a cooldown;
/// each failure says what it was.
pub proof fn law_only_done_actions_count(outcome: Outcome, has_cooldown: bool)
    ensures
        settled_of(outcome, has_cooldown) is Counts <==> outcome == Outcome::Done,
        settled_of(outcome, has_cooldown) is Counts ==> settled_of(outcome, has_cooldown)->cools
            == has_cooldown,
        settled_of(outcome, has_cooldown) == Settled::Failed(FailTell::OutOfRange) <==> outcome
            == Outcome::OutOfRange,
        settled_of(outcome, has_cooldown) == Settled::Failed(FailTell::NoTarget) <==> outcome
            == Outcome::NoTarget,
        settled_of(outcome, has_cooldown) == Settled::Failed(FailTell::NotEnoughMana) <==> outcome
            == Outcome::InsufficientMana,
{
}

/// The seat found is a living hostile's with the index, the first such; none is found only
/// where there is none.
pub proof fn law_found_seats_are_living(seats: Seq<Seat>, idx: i32, from: int)
    requires
        0 <= from <= seats.len(),
    ensures
        match living_seat(seats, idx, from) {
            Some(at) => from <= at < seats.len() && seats[at].idx == idx && seats[at].alive
                && forall|k: int|
                from <= k < at ==> !((#[trigger] seats[k]).idx == idx && seats[k].alive),
            None => forall|k: int|
                from <= k < seats.len() ==> !((#[trigger] seats[k]).idx == idx && seats[k].alive),
        },
    decreases seats.len() - from,
{
    if from < seats.len() && !(seats[from].idx == idx && seats[from].alive) {
        law_found_seats_are_living(seats, idx, from + 1);
    }
}

/// The range of an action is the farthest of its effects.
pub proof fn law_range_is_the_farthest(effects: Seq<ActionEffect>, n: nat)
    requires
        0 < n <= effects.len(),
    ensures
        exists|i: int| 0 <= i < n && farthest(effects, n) == (#[trigger] effects[i]).range_m,
        forall|i: int|
            0 <= i < n ==> total_place((#[trigger] effects[i]).range_m) <= total_place(
                farthest(effects, n),
            ),
    decreases n,
{
    if n > 1 {
        law_range_is_the_farthest(effects, (n - 1) as nat);
        let k = choose|i: int|
            0 <= i < n - 1 && farthest(effects, (n - 1) as nat) == (
            #[trigger] effects[i]).range_m;
        assert(farthest(effects, n) == effects[n - 1].range_m || farthest(effects, n)
            == effects[k].range_m);
    } else {
        assert(farthest(effects, n) == effects[0].range_m);
    }
}

/// A hostile may use an action exactly where it is aimed at others, has cooled down and is
/// affordable.
pub proof fn law_usable_actions(action: Action, cooling: bool, affordable: bool)
    ensures
        usable_of(action, cooling, affordable) is Some <==> (action.target == ActionTarget::Hostile
            || action.target == ActionTarget::Any) && !cooling && affordable,
{
}

/// The action chosen reaches its target, and none before it does; none is chosen only where
/// none reaches.
pub proof fn law_chosen_actions_reach(ranges: Seq<Option<Real>>, distance: int, from: int)
    requires
        0 <= from <= ranges.len(),
    ensures
        match reaching(ranges, distance, from) {
            Some(at) => from <= at < ranges.len() && ranges[at] is Some && distance
                <= ranges[at]->0.place() && forall|k: int|
                from <= k < at && (#[trigger] ranges[k]) is Some ==> ranges[k]->0.place()
                    < distance,
            None => forall|k: int|
                from <= k < ranges.len() && (#[trigger] ranges[k]) is Some ==> ranges[k]->0.place()
                    < distance,
        },
    decreases ranges.len() - from,
{
    if from < ranges.len() && !(ranges[from] is Some && distance <= ranges[from]->0.place()) {
        law_chosen_actions_reach(ranges, distance, from + 1);
    }
}

/// A hostile closes in for the usable action that reaches farthest.
pub proof fn law_pursuit_takes_the_longest(ranges: Seq<Option<Real>>, n: nat)
    requires
        n <= ranges.len(),
    ensures
        match longest(ranges, n) {
            Some(at) => 0 <= at < n && ranges[at] is Some && forall|k: int|
                0 <= k < n && (#[trigger] ranges[k]) is Some ==> total_place(ranges[k]->0)
                    <= total_place(ranges[at]->0),
            None => forall|k: int| 0 <= k < n ==> (#[trigger] ranges[k]) is None,
        },
    decreases n,
{
    if n > 0 {
        law_pursuit_takes_the_longest(ranges, (n - 1) as nat);
    }
}

/// A hostile uses its turn only alive and attacking. A cast under way is carried out exactly
/// when it has run out; nothing else is begun beside it. Without one, a hostile that can act
/// and has an action that reaches begins it, as a cast where it takes time.
pub proof fn law_turns_are_earned(f: TurnFacts)
    ensures
        !f.alive || f.state != HostileState::Attacking ==> turn_of(f) is Wait,
        f.cast is Some ==> (turn_of(f) is Complete || turn_of(f) is Wait),
        turn_of(f) is Complete ==> f.cast == Some(true),
        f.alive && f.state == HostileState::Attacking && f.cast == Some(true) ==> turn_of(
            f,
        ) is Complete,
        turn_of(f) matches Turn::StartCast(i) ==> f.cast is None && f.can_act && f.takes_time
            && f.choice == Some(i),
        turn_of(f) matches Turn::Strike(i) ==> f.cast is None && f.can_act && !f.takes_time
            && f.choice == Some(i),
        f.alive && f.state == HostileState::Attacking && f.cast is None && f.can_act && f.choice
            is Some ==> turn_of(f) is StartCast || turn_of(f) is Strike,
{
}

proof fn lemma_index_place(ids: Seq<i32>, id: i32, from: int)
    requires
        0 <= from <= ids.len(),
    ensures
        match index_place(ids, id, from) {
            Some(at) => from <= at < ids.len() && ids[at] == id && forall|k: int|
                from <= k < at ==> ids[k] != id,
            None => forall|k: int| from <= k < ids.len() ==> ids[k] != id,
        },
    decreases ids.len() - from,
{
    if from < ids.len() && ids[from] != id {
        lemma_index_place(ids, id, from + 1);
    }
}

/// Tab locks a candidate or nothing. Over candidates that are as they were and differ, it
/// moves from each to the next, from the last to nothing and from nothing to the first; new
/// candidates are begun at the first.
pub proof fn law_tab_goes_on(lock: Option<i32>, cycle: Seq<i32>, ids: Seq<i32>, i: int)
    requires
        ids.no_duplicates(),
    ensures
        ids.len() == 0 ==> tabbed(lock, cycle, ids) is None,
        tabbed(lock, cycle, ids) is Some ==> ids.contains(tabbed(lock, cycle, ids)->0),
        ids.len() > 0 && (cycle != ids || lock is None || !ids.contains(lock->0)) ==> tabbed(
            lock,
            cycle,
            ids,
        ) == Some(ids[0]),
        cycle == ids && 0 <= i && i + 1 < ids.len() && lock == Some(ids[i]) ==> tabbed(
            lock,
            cycle,
            ids,
        ) == Some(ids[i + 1]),
        cycle == ids && ids.len() > 0 && lock == Some(ids[ids.len() - 1]) ==> tabbed(
            lock,
            cycle,
            ids,
        ) is None,
{
    if lock is Some {
        lemma_index_place(ids, lock->0, 0);
    }
}

proof fn lemma_place_of(ids: Seq<u64>, id: u64, from: int)
    requires
        0 <= from <= ids.len(),
    ensures
        match place_of(ids, id, from) {
            Some(at) => from <= at < ids.len() && ids[at] == id && forall|k: int|
                from <= k < at ==> ids[k] != id,
            None => forall|k: int| from <= k < ids.len() ==> ids[k] != id,
        },
    decreases ids.len() - from,
{
    if from < ids.len() && ids[from] != id {
        lemma_place_of(ids, id, from + 1);
    }
}

/// The lock moves along the candidates in their order: from nothing, or from one that is no
/// candidate, to the first, from each to the next, from the last to nothing.
pub proof fn law_locks_move_along(ids: Seq<u64>, current: Option<u64>, i: int)
    requires
        ids.no_duplicates(),
    ensures
        ids.len() == 0 ==> next_lock(ids, current) is None,
        ids.len() > 0 && (current is None || !ids.contains(current->0)) ==> next_lock(ids, current)
            == Some(ids[0]),
        0 <= i && i + 1 < ids.len() && current == Some(ids[i]) ==> next_lock(ids, current) == Some(
            ids[i + 1],
        ),
        ids.len() > 0 && current == Some(ids[ids.len() - 1]) ==> next_lock(ids, current) is None,
{
    if current is Some {
        lemma_place_of(ids, current->0, 0);
    }
}

/// A mob is grey from six levels below the player, green from three, blue from one, white
/// level with the player, yellow up to two above, orange up to four and red beyond.
pub proof fn law_bands_have_their_levels(delta: int)
    ensures
        band_of(delta) == ConBand::Grey <==> delta <= -6,
        band_of(delta) == ConBand::Green <==> -5 <= delta <= -3,
        band_of(delta) == ConBand::Blue <==> delta == -2 || delta == -1,
        band_of(delta) == ConBand::White <==> delta == 0,
        band_of(delta) == ConBand::Yellow <==> delta == 1 || delta == 2,
        band_of(delta) == ConBand::Orange <==> delta == 3 || delta == 4,
        band_of(delta) == ConBand::Red <==> delta >= 5,
{
}

proof fn lemma_placed_holds(order: Seq<Attack>, a: Attack)
    ensures
        placed(order, a).len() == order.len() + 1,
        placed(order, a).contains(a),
        forall|b: Attack| order.contains(b) ==> #[trigger] placed(order, a).contains(b),
        forall|b: Attack| #[trigger]
            placed(order, a).contains(b) ==> order.contains(b) || b == a,
    decreases order.len(),
{
    let out = placed(order, a);
    if order.len() == 0 || !crate::combat::actors::actor_before(a.caster, order.last().caster) {
        assert(out[order.len() as int] == a);
        assert forall|b: Attack| order.contains(b) implies #[trigger] out.contains(b) by {
            let k = choose|k: int| 0 <= k < order.len() && order[k] == b;
            assert(out[k] == b);
        }
    } else {
        let rest = order.drop_last();
        lemma_placed_holds(rest, a);
        let inner = placed(rest, a);
        assert(out == inner.push(order.last()));
        assert(out[inner.len() as int] == order.last());
        assert forall|b: Attack| inner.contains(b) implies #[trigger] out.contains(b) by {
            let k = choose|k: int| 0 <= k < inner.len() && inner[k] == b;
            assert(out[k] == b);
        }
        assert(inner.contains(a));
        assert forall|b: Attack| order.contains(b) implies #[trigger] out.contains(b) by {
            let k = choose|k: int| 0 <= k < order.len() && order[k] == b;
            if k < rest.len() {
                assert(rest[k] == b);
                assert(rest.contains(b));
            }
        }
        assert forall|b: Attack| #[trigger] out.contains(b) implies order.contains(b) || b == a by {
            let k = choose|k: int| 0 <= k < out.len() && out[k] == b;
            if k < inner.len() {
                assert(inner.contains(b));
                if rest.contains(b) {
                    let j = choose|j: int| 0 <= j < rest.len() && rest[j] == b;
                    assert(order[j] == b);
                }
            } else {
                assert(order[order.len() - 1] == b);
            }
        }
    }
}

/// What is carried out in a step is what some hostile carries out: a living, attacking one,
/// by itself, at what its cast was aimed at or at its target. Nothing that a hostile carries
/// out is left out.
pub proof fn law_attacks_have_their_attacker(w: WorldCombat, facts: Seq<AttackFacts>, n: nat)
    requires
        n <= w.hostiles@.len(),
        n <= facts.len(),
    ensures
        forall|i: int|
            0 <= i < n ==> match #[trigger] w.carried_out(facts[i], i) {
                Some(a) => w.ready_of(facts, n).contains(a) && a.caster == w.hostiles@[i].actor_id
                    && w.arena.life(a.caster) == Some(true) && w.hostiles@[i].mind.state
                    == HostileState::Attacking,
                None => true,
            },
        w.ready_of(facts, n).len() <= n,
    decreases n,
{
    if n > 0 {
        law_attacks_have_their_attacker(w, facts, (n - 1) as nat);
        match w.carried_out(facts[n - 1], n - 1) {
            Some(a) => {
                lemma_placed_holds(w.ready_of(facts, (n - 1) as nat), a);
            },
            None => {},
        }
    }
}

} // verus!
