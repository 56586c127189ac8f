//! What every hostile does: prey flees and never hunts, hunters go after the nearest they
//! notice, the struck strike back, and what is out of sight is forgotten.

use crate::combat::actors::ActorId;
use crate::combat::hostile_ai::{
    located, looked_at_first, next_look, noticed, row_of, row_with, thought, watched, HostileState,
    Mind, Sighting, Step,
};
use crate::combat::number::diff_of;
use crate::gamedata::kinds::MobMode;
use vstd::prelude::*;

verus! {

/// A passive hostile that nobody provoked and that is after nobody does not begin to hunt:
/// whatever it sees, it gets no target, never chases and is never on the attack.
pub proof fn law_prey_never_hunts(
    m: Mind,
    alive: bool,
    can_move: bool,
    beyond_leash: bool,
    at_home: bool,
    has_action: bool,
    others: Seq<Sighting>,
    dt: i128,
)
    requires
        m.mode == MobMode::Passive,
        m.provoked_by is None,
        m.target is None,
    ensures
        ({
            let out = thought(
                m,
                alive,
                can_move,
                beyond_leash,
                at_home,
                has_action,
                others,
                dt,
            );
            &&& out.0.target is None
            &&& out.0.provoked_by is None
            &&& !(out.1 is Chase)
            &&& out.0.state != HostileState::Alerted
            &&& out.0.state != HostileState::Pursuing
            &&& out.0.state != HostileState::Attacking
        }),
{
}

/// A row holds those that were put in it, and nobody else.
proof fn lemma_row_with_holds(row: Seq<Sighting>, s: Sighting)
    ensures
        row_with(row, s).contains(s),
        forall|x: Sighting| #[trigger] row.contains(x) ==> row_with(row, s).contains(x),
        forall|x: Sighting| #[trigger]
            row_with(row, s).contains(x) ==> x == s || row.contains(x),
    decreases row.len(),
{
    let now = row_with(row, s);
    if row.len() == 0 || !looked_at_first(s, row.last()) {
        assert(now[row.len() as int] == s);
        assert forall|x: Sighting| #[trigger] row.contains(x) implies now.contains(x) by {
            let i = choose|i: int| 0 <= i < row.len() && row[i] == x;
            assert(now[i] == x);
        }
        assert forall|x: Sighting| #[trigger] now.contains(x) implies x == s || row.contains(x) by {
            let i = choose|i: int| 0 <= i < now.len() && now[i] == x;
            if i < row.len() {
                assert(row[i] == x);
            }
        }
    } else {
        let rest = row.drop_last();
        let inner = row_with(rest, s);
        lemma_row_with_holds(rest, s);
        let at = choose|i: int| 0 <= i < inner.len() && inner[i] == s;
        assert(now[at] == s);
        assert(now[inner.len() as int] == row.last());
        assert forall|x: Sighting| #[trigger] row.contains(x) implies now.contains(x) by {
            let i = choose|i: int| 0 <= i < row.len() && row[i] == x;
            if i < rest.len() {
                assert(rest[i] == x);
                assert(rest.contains(x));
                let j = choose|j: int| 0 <= j < inner.len() && inner[j] == x;
                assert(now[j] == x);
            }
        }
        assert forall|x: Sighting| #[trigger] now.contains(x) implies x == s || row.contains(x) by {
            let i = choose|i: int| 0 <= i < now.len() && now[i] == x;
            if i < inner.len() {
                assert(inner[i] == x);
                assert(inner.contains(x));
                if x != s {
                    let j = choose|j: int| 0 <= j < rest.len() && rest[j] == x;
                    assert(row[j] == x);
                }
            } else {
                assert(row[row.len() - 1] == x);
            }
        }
    }
}

/// From the nearest to the farthest.
pub open spec fn nearest_first(row: Seq<Sighting>) -> bool {
    forall|i: int, j: int|
        #![trigger row[i], row[j]]
        0 <= i <= j < row.len() ==> row[i].distance_rank <= row[j].distance_rank
}

proof fn lemma_row_with_sorted(row: Seq<Sighting>, s: Sighting)
    requires
        nearest_first(row),
    ensures
        nearest_first(row_with(row, s)),
    decreases row.len(),
{
    let now = row_with(row, s);
    if row.len() == 0 || !looked_at_first(s, row.last()) {
        assert forall|i: int, j: int|
            #![trigger now[i], now[j]]
            0 <= i <= j < now.len() implies now[i].distance_rank <= now[j].distance_rank by {
            if i < row.len() && j == row.len() {
                assert(row[i].distance_rank <= row[row.len() - 1].distance_rank);
            }
        }
    } else {
        let rest = row.drop_last();
        assert(nearest_first(rest)) by {
            assert forall|i: int, j: int|
                #![trigger rest[i], rest[j]]
                0 <= i <= j < rest.len() implies rest[i].distance_rank <= rest[j].distance_rank by {
                assert(row[i].distance_rank <= row[j].distance_rank);
            }
        }
        lemma_row_with_sorted(rest, s);
        lemma_row_with_holds(rest, s);
        let inner = row_with(rest, s);
        assert forall|i: int, j: int|
            #![trigger now[i], now[j]]
            0 <= i <= j < now.len() implies now[i].distance_rank <= now[j].distance_rank by {
            if i < inner.len() && j == inner.len() {
                assert(inner.contains(inner[i]));
                if inner[i] != s {
                    assert(rest.contains(inner[i]));
                    let k = choose|k: int| 0 <= k < rest.len() && rest[k] == inner[i];
                    assert(row[k].distance_rank <= row[row.len() - 1].distance_rank);
                }
            }
        }
    }
}

/// Who is looked at: those of the first `n` that are alive and hostile, where the observer
/// or they are active; the nearest first.
pub proof fn law_row_holds_the_heeded(mode: MobMode, others: Seq<Sighting>, n: nat)
    requires
        n <= others.len(),
    ensures
        nearest_first(row_of(mode, others, n)),
        forall|i: int|
            0 <= i < n && (#[trigger] others[i]).alive && others[i].hostile && (mode
                == MobMode::Active || others[i].mode == MobMode::Active) ==> row_of(
                mode,
                others,
                n,
            ).contains(others[i]),
        forall|s: Sighting| #[trigger]
            row_of(mode, others, n).contains(s) ==> s.alive && s.hostile && (mode == MobMode::Active
                || s.mode == MobMode::Active) && others.contains(s),
    decreases n,
{
    if n > 0 {
        let rest = row_of(mode, others, (n - 1) as nat);
        law_row_holds_the_heeded(mode, others, (n - 1) as nat);
        lemma_row_with_holds(rest, others[n - 1]);
        lemma_row_with_sorted(rest, others[n - 1]);
        assert(others.contains(others[n - 1]));
    }
}

proof fn lemma_noticed(m: Mind, row: Seq<Sighting>, from: int, sure: int)
    requires
        0 <= from <= sure < row.len(),
        row[sure].chance >= 0x20_0000_0000_0000,
    ensures
        noticed(m.spawn_seed, m.detection_check, row, from) is Some,
        from <= noticed(m.spawn_seed, m.detection_check, row, from)->0 <= sure,
    decreases sure - from,
{
    crate::combat::actors::law_draws_are_shares(m.spawn_seed, (2 + m.detection_check + from) as u64);
    if from < sure {
        lemma_noticed(m, row, from + 1, sure);
    }
}

/// Someone a hostile is sure to notice: alive, hostile, active, and in plain sight.
pub open spec fn plain(s: Sighting) -> bool {
    s.alive && s.hostile && s.mode == MobMode::Active && s.chance >= 0x20_0000_0000_0000
}

proof fn lemma_look(m: Mind, others: Seq<Sighting>, i: int)
    requires
        0 <= i < others.len(),
        plain(others[i]),
    ensures
        ({
            let row = row_of(m.mode, others, others.len());
            let seen = noticed(m.spawn_seed, m.detection_check, row, 0);
            &&& seen is Some
            &&& 0 <= seen->0 < row.len()
            &&& others.contains(row[seen->0])
            &&& row[seen->0].alive
            &&& row[seen->0].hostile
            &&& m.mode == MobMode::Passive ==> row[seen->0].mode == MobMode::Active
            &&& row[seen->0].distance_rank <= others[i].distance_rank
        }),
{
    let row = row_of(m.mode, others, others.len());
    law_row_holds_the_heeded(m.mode, others, others.len());
    assert(row.contains(others[i]));
    let k = choose|k: int| 0 <= k < row.len() && row[k] == others[i];
    lemma_noticed(m, row, 0, k);
    let at = noticed(m.spawn_seed, m.detection_check, row, 0)->0;
    assert(row.contains(row[at]));
    assert(row[at].distance_rank <= row[k].distance_rank);
}

proof fn lemma_located(others: Seq<Sighting>, s: Sighting, from: int, at: int)
    requires
        0 <= from <= at < others.len(),
        others[at] == s,
        s.alive,
        s.hostile,
    ensures
        located(others, s.id, from) is Some,
        located(others, s.id, from)->0.id == s.id,
        others.contains(located(others, s.id, from)->0),
    decreases at - from,
{
    if others[from].id == s.id && others[from].alive && others[from].hostile {
        assert(others.contains(others[from]));
    } else {
        lemma_located(others, s, from + 1, at);
    }
}

/// Prey flees what it notices. A passive hostile that nobody provoked, alive and within its
/// leash, looks around when its look is due; if an active enemy stands in plain sight, it
/// is in flight after its turn, from an active living enemy no farther off than that one.
/// It runs if it can move and does not stand on that one's spot.
pub proof fn law_prey_flees_the_hunter(
    m: Mind,
    can_move: bool,
    at_home: bool,
    has_action: bool,
    others: Seq<Sighting>,
    dt: i128,
    i: int,
)
    requires
        m.mode == MobMode::Passive,
        m.provoked_by is None,
        m.state != HostileState::Leashing,
        diff_of(m.detection_left_s, dt) <= 0,
        0 <= i < others.len(),
        plain(others[i]),
        forall|a: int, b: int|
            #![trigger others[a], others[b]]
            0 <= a < b < others.len() ==> others[a].id != others[b].id,
    ensures
        ({
            let out = thought(m, true, can_move, false, at_home, has_action, others, dt);
            &&& out.0.state == HostileState::Fleeing
            &&& out.0.target is None
            &&& out.0.flee_threat is Some
            &&& exists|k: int|
                {
                    &&& 0 <= k < others.len()
                    &&& (#[trigger] others[k]).id == out.0.flee_threat->0
                    &&& others[k].alive && others[k].hostile
                    &&& others[k].mode == MobMode::Active
                    &&& others[k].distance_rank <= others[i].distance_rank
                    &&& out.1 == if can_move && others[k].apart {
                        Step::Flee(others[k].id)
                    } else {
                        Step::Hold
                    }
                }
        }),
{
    let left = diff_of(m.detection_left_s, dt);
    let w = watched(m, others, dt);
    let waited = Mind {
        awareness_s: crate::combat::number::greater(diff_of(m.awareness_s, dt), 0),
        detection_left_s: next_look(left),
        ..m
    };
    lemma_look(waited, others, i);
    let row = row_of(m.mode, others, others.len());
    let at = noticed(waited.spawn_seed, waited.detection_check, row, 0)->0;
    let s = row[at];
    let k = choose|k: int| 0 <= k < others.len() && others[k] == s;
    assert(w.state == HostileState::Fleeing && w.flee_threat == Some(s.id) && w.target is None);
    lemma_located(others, s, 0, k);
    let t = located(others, s.id, 0)->0;
    let j = choose|j: int| 0 <= j < others.len() && others[j] == t;
    assert(j == k) by {
        if j < k {
            assert(others[j].id != others[k].id);
        }
        if k < j {
            assert(others[k].id != others[j].id);
        }
    }
    assert(others[k].id == s.id);
}

/// Hunters go after what they notice. An active hostile, alive and within its leash, whose
/// look is due, has after its turn a living enemy for its target if an active one stands in
/// plain sight, one no farther off; it attacks whom it can reach, or if it has nothing to
/// close in for, and gives chase if it can move.
pub proof fn law_hunters_go_after_the_nearest(
    m: Mind,
    can_move: bool,
    at_home: bool,
    has_action: bool,
    others: Seq<Sighting>,
    dt: i128,
    i: int,
)
    requires
        m.mode == MobMode::Active,
        m.state != HostileState::Leashing,
        diff_of(m.detection_left_s, dt) <= 0,
        0 <= i < others.len(),
        plain(others[i]),
        forall|a: int, b: int|
            #![trigger others[a], others[b]]
            0 <= a < b < others.len() ==> others[a].id != others[b].id,
    ensures
        ({
            let out = thought(m, true, can_move, false, at_home, has_action, others, dt);
            &&& out.0.flee_threat is None
            &&& out.0.target is Some
            &&& exists|k: int|
                {
                    &&& 0 <= k < others.len()
                    &&& (#[trigger] others[k]).id == out.0.target->0
                    &&& others[k].alive && others[k].hostile
                    &&& others[k].distance_rank <= others[i].distance_rank
                    &&& out.0.state == HostileState::Attacking <==> !has_action
                        || others[k].in_reach
                    &&& has_action && !others[k].in_reach && can_move ==> out.1 == Step::Chase(
                        others[k].id,
                    ) && out.0.state == HostileState::Pursuing
                    &&& has_action && (others[k].in_reach || !can_move) ==> out.1 == Step::Hold
                    &&& !has_action ==> out.1 == Step::Rest
                }
        }),
{
    let left = diff_of(m.detection_left_s, dt);
    let w = watched(m, others, dt);
    let waited = Mind {
        awareness_s: crate::combat::number::greater(diff_of(m.awareness_s, dt), 0),
        detection_left_s: next_look(left),
        ..m
    };
    lemma_look(waited, others, i);
    let row = row_of(m.mode, others, others.len());
    let at = noticed(waited.spawn_seed, waited.detection_check, row, 0)->0;
    let s = row[at];
    let k = choose|k: int| 0 <= k < others.len() && others[k] == s;
    assert(w.state == HostileState::Alerted && w.target == Some(s.id) && w.flee_threat is None);
    lemma_located(others, s, 0, k);
    let t = located(others, s.id, 0)->0;
    let j = choose|j: int| 0 <= j < others.len() && others[j] == t;
    assert(j == k) by {
        if j < k {
            assert(others[j].id != others[k].id);
        }
        if k < j {
            assert(others[k].id != others[j].id);
        }
    }
    assert(others[k].id == s.id);
}

/// The struck strike back. Whoever is struck turns on the striker, active or passive: on
/// its next turn before its next look, alive and within its leash, it has the striker for
/// its target, attacks it in reach and chases it out of reach.
pub proof fn law_the_struck_strike_back(
    m: Mind,
    source: ActorId,
    can_move: bool,
    at_home: bool,
    others: Seq<Sighting>,
    dt: i128,
    k: int,
)
    requires
        diff_of(m.detection_left_s, dt) > 0,
        0 <= k < others.len(),
        others[k].id == source,
        others[k].alive,
        others[k].hostile,
        forall|a: int, b: int|
            #![trigger others[a], others[b]]
            0 <= a < b < others.len() ==> others[a].id != others[b].id,
    ensures
        ({
            let out = thought(m.provoked(source), true, can_move, false, at_home, true, others, dt);
            &&& out.0.target == Some(source)
            &&& out.0.flee_threat is None
            &&& out.0.provoked_by == Some(source)
            &&& out.0.state == HostileState::Attacking <==> others[k].in_reach
            &&& !others[k].in_reach && can_move ==> out.1 == Step::Chase(source)
            &&& others[k].in_reach || !can_move ==> out.1 == Step::Hold
        }),
{
    lemma_located(others, others[k], 0, k);
    let t = located(others, source, 0)->0;
    let j = choose|j: int| 0 <= j < others.len() && others[j] == t;
    assert(j == k) by {
        if j < k {
            assert(others[j].id != others[k].id);
        }
        if k < j {
            assert(others[k].id != others[j].id);
        }
    }
}

/// Whoever is struck is alerted, aware for three seconds, and of one mind about it; the
/// dead only are dead, and nobody turns on itself.
pub proof fn law_blows_provoke(m: Mind, me: ActorId, source: ActorId)
    ensures
        m.reduced(me, source, false).state == HostileState::Dead,
        m.reduced(me, me, true) == m,
        source != me ==> m.reduced(me, source, true).target == Some(source) && m.reduced(
            me,
            source,
            true,
        ).provoked_by == Some(source) && m.reduced(me, source, true).flee_threat is None
            && m.reduced(me, source, true).state == HostileState::Alerted && m.reduced(
            me,
            source,
            true,
        ).awareness_s == 3 * 0x1000_0000_0000_0000,
{
}

/// Out of sight is out of mind: a living hostile within its leash that nobody provoked,
/// whose awareness has run out and that sees no enemy, goes idle and stays where it is.
pub proof fn law_the_unseen_are_forgotten(
    m: Mind,
    can_move: bool,
    at_home: bool,
    has_action: bool,
    others: Seq<Sighting>,
    dt: i128,
)
    requires
        m.provoked_by is None,
        m.state != HostileState::Leashing,
        diff_of(m.awareness_s, dt) <= 0,
        forall|i: int|
            0 <= i < others.len() ==> !(#[trigger] others[i]).alive || !others[i].hostile,
    ensures
        ({
            let out = thought(m, true, can_move, false, at_home, has_action, others, dt);
            &&& out.0.state == HostileState::Idle
            &&& out.0.target is None
            &&& out.0.flee_threat is None
            &&& out.1 == Step::Hold
        }),
{
    law_row_holds_the_heeded(m.mode, others, others.len());
    let row = row_of(m.mode, others, others.len());
    if row.len() > 0 {
        assert(row.contains(row[0]));
        let i = choose|i: int| 0 <= i < others.len() && others[i] == row[0];
        assert(false);
    }
}

/// Nobody is chased or fled from but living enemies that are among those about.
pub proof fn law_steps_have_their_cause(
    m: Mind,
    alive: bool,
    can_move: bool,
    beyond_leash: bool,
    at_home: bool,
    has_action: bool,
    others: Seq<Sighting>,
    dt: i128,
)
    ensures
        ({
            let out = thought(
                m,
                alive,
                can_move,
                beyond_leash,
                at_home,
                has_action,
                others,
                dt,
            );
            &&& out.1 is Chase ==> alive && can_move && !beyond_leash && has_action
                && out.0.target is Some && out.0.state == HostileState::Pursuing && exists|k: int|
                0 <= k < others.len() && (#[trigger] others[k]).id == out.0.target->0
                    && others[k].alive && others[k].hostile && !others[k].in_reach
                    && out.1->Chase_0 == others[k].id
            &&& out.1 is Flee ==> alive && can_move && !beyond_leash && out.0.flee_threat is Some
                && out.0.state == HostileState::Fleeing && exists|k: int|
                0 <= k < others.len() && (#[trigger] others[k]).id == out.0.flee_threat->0
                    && others[k].alive && others[k].hostile && others[k].apart && out.1->Flee_0
                    == others[k].id
            &&& out.1 == Step::SnapHome ==> alive && at_home && out.0.state == HostileState::Idle
                && out.0.provoked_by is None
            &&& out.1 == Step::ReturnHome ==> alive && can_move && !at_home && out.0.state
                == HostileState::Leashing
        }),
{
    let w = watched(m, others, dt);
    if w.target is Some {
        lemma_located_is_other(others, w.target->0, 0);
    }
    if w.flee_threat is Some {
        lemma_located_is_other(others, w.flee_threat->0, 0);
    }
}

proof fn lemma_located_is_other(others: Seq<Sighting>, id: ActorId, from: int)
    requires
        from >= 0,
    ensures
        located(others, id, from) is Some ==> exists|k: int|
            0 <= k < others.len() && #[trigger] others[k] == located(others, id, from)->0
                && others[k].id == id && others[k].alive && others[k].hostile,
    decreases others.len() - from,
{
    if from < others.len() && !(others[from].id == id && others[from].alive
        && others[from].hostile) {
        lemma_located_is_other(others, id, from + 1);
    }
}

/// Running tires and rest restores: endurance stays between nothing and its maximum, a run
/// turn never raises it and any other never lowers it.
pub proof fn law_endurance_stays_in_bounds(m: Mind, ran: bool, dt: i128)
    requires
        0 <= m.endurance_s <= m.endurance_max_s,
        dt >= 0,
        crate::combat::number::rounded(m.endurance_s as int) == m.endurance_s,
    ensures
        0 <= m.breathed(ran, dt).endurance_s <= m.endurance_max_s,
        ran ==> m.breathed(ran, dt).endurance_s <= m.endurance_s,
        !ran ==> m.breathed(ran, dt).endurance_s >= m.endurance_s,
        ran && dt >= m.endurance_s ==> m.breathed(ran, dt).endurance_s == 0,
        m.breathed(ran, dt).state == m.state,
        m.breathed(ran, dt).target == m.target,
{
    crate::combat::number::law_sums_keep_side(m.endurance_s, dt);
}

} // verus!
