//! What holds through every fight.

use crate::combat::fight::{
    arcane_attack, arcane_choice, arrow_flown, auto_runs, bashed, binding, bitten, burning, burnt,
    cast_lands, cast_on, cast_runs, cleaved, closed_in, decided, drunk, finished, first_from,
    healed, hunt_choice, live_mask, lock_mask, martial_choice, marking, mending, mob_acts,
    mob_ticked, mobs_act, mobs_ticked, moved, numbered, other_mask, poisoned, refreshed, rooted,
    shot, slammed, stepped, swing_lands, swing_target, swiped, swung, ticked, timers_run, warding,
    winded,
};
use crate::combat::fighters::{Ability, CastKind, Mob, Player};
use crate::combat::number::{
    diff_of, gap_of, law_rounding_is_close, law_sums_keep_side, rounded, sum_of, units_of, ONE,
};
use crate::combat::sheets::MobKind;
use crate::combat::sim::{fought, Winner};
use crate::rounding::{law_rounding_keeps_side, lemma_rounded_grains, DOUBLE};
use vstd::prelude::*;

verus! {

/// The kit only shrinks, and never below nothing.
pub open spec fn kit_kept(a: Player, b: Player) -> bool {
    &&& b.potions <= a.potions
    &&& b.arrows <= a.arrows
    &&& a.potions >= 0 ==> b.potions >= 0
    &&& a.arrows >= 0 ==> b.arrows >= 0
    &&& b.max_hp == a.max_hp
    &&& b.max_mana == a.max_mana
    &&& b.stats.discipline == a.stats.discipline
}

/// The same mobs, and the dead among them still dead.
pub open spec fn dead_stay(a: Seq<Mob>, b: Seq<Mob>) -> bool {
    &&& b.len() == a.len()
    &&& forall|i: int|
        0 <= i < a.len() ==> (#[trigger] b[i]).idx == a[i].idx && (!a[i].alive ==> !b[i].alive)
}

/// The same mob, and dead if it was.
pub open spec fn dead_stays(a: Mob, b: Mob) -> bool {
    b.idx == a.idx && (!a.alive ==> !b.alive)
}

/// What the player's own choices, casts and swings leave alone: the kit as it only shrinks,
/// where the player stands, its poison and the damage it has taken.
pub open spec fn own_part(a: Player, b: Player) -> bool {
    &&& kit_kept(a, b)
    &&& b.x == a.x
    &&& b.poison_t == a.poison_t
    &&& b.poison_acc == a.poison_acc
    &&& b.damage_taken == a.damage_taken
    &&& b.alive == a.alive
}

/// What the player's choices, casts and swings leave alone of a mob: who it is, where it
/// stands and how it strikes; none wakes from a stun by it.
pub open spec fn stands_as(a: Mob, b: Mob) -> bool {
    &&& dead_stays(a, b)
    &&& b.sheet == a.sheet
    &&& b.x == a.x
    &&& b.reach == a.reach
    &&& b.auto_cd == a.auto_cd
    &&& b.base_dmg == a.base_dmg
    &&& b.swing == a.swing
    &&& b.enraged == a.enraged
    &&& b.stun >= a.stun
}

/// The same mobs on the same ground, and the dead among them still dead.
pub open spec fn ground_held(a: Seq<Mob>, b: Seq<Mob>) -> bool {
    &&& dead_stay(a, b)
    &&& forall|i: int| 0 <= i < a.len() ==> stands_as(a[i], #[trigger] b[i])
}

proof fn lemma_small_steps(p: Player, a: Ability)
    ensures
        kit_kept(p, p.having_used(a)),
        kit_kept(p, p.practised()),
        kit_kept(p, timers_run(p)),
        kit_kept(p, refreshed(p)),
{
    reveal(Player::having_used);
    reveal(Player::practised);
    reveal(timers_run);
    reveal(refreshed);
}

proof fn lemma_poisoned(p: Player)
    ensures
        kit_kept(p, poisoned(p)),
{
    reveal(poisoned);
    reveal(Player::struck);
}

proof fn lemma_casting(p: Player, a: Ability, d: i128, mana: int, k: CastKind, t: Option<i32>)
    ensures
        own_part(p, p.casting(a, d, mana, k, t)),
{
    reveal(Player::casting);
    reveal(Player::having_used);
}

proof fn lemma_cast_on(p: Player, t: i32, a: Ability, d: i128, mana: int, k: CastKind)
    ensures
        own_part(p, cast_on(p, t, a, d, mana, k)),
{
    reveal(cast_on);
    lemma_casting(Player { lock: Some(t), ..p }, a, d, mana, k, Some(t));
}

proof fn lemma_hunt(p: Player, mobs: Seq<Mob>)
    ensures
        own_part(p, hunt_choice(p, mobs)),
{
    reveal(hunt_choice);
    reveal(marking);
    reveal(Player::having_used);
    assert forall|t: i32, a: Ability, d: i128, k: CastKind| own_part(
        marking(p),
        #[trigger] cast_on(marking(p), t, a, d, 0, k),
    ) by {
        lemma_cast_on(marking(p), t, a, d, 0, k);
    }
}

proof fn lemma_attack(p: Player, mobs: Seq<Mob>)
    ensures
        own_part(p, arcane_attack(p, mobs)),
{
    reveal(arcane_attack);
    reveal(burning);
    reveal(binding);
    assert forall|q: Player, t: i32, a: Ability, d: i128, m: int, k: CastKind| own_part(
        q,
        #[trigger] cast_on(q, t, a, d, m, k),
    ) by {
        lemma_cast_on(q, t, a, d, m, k);
    }
}

proof fn lemma_arcane(p: Player, mobs: Seq<Mob>)
    ensures
        own_part(p, arcane_choice(p, mobs)),
{
    reveal(arcane_choice);
    reveal(mending);
    reveal(warding);
    assert forall|q: Player, a: Ability, d: i128, m: int, k: CastKind, t: Option<i32>| own_part(
        q,
        #[trigger] q.casting(a, d, m, k, t),
    ) by {
        lemma_casting(q, a, d, m, k, t);
    }
    assert forall|q: Player| own_part(q, #[trigger] arcane_attack(q, mobs)) by {
        lemma_attack(q, mobs);
    }
}

proof fn lemma_martial(p: Player, mobs: Seq<Mob>)
    ensures
        own_part(p, martial_choice(p, mobs)),
{
    reveal(martial_choice);
    reveal(Player::having_used);
    assert forall|q: Player, a: Ability, d: i128, m: int, k: CastKind, t: Option<i32>| own_part(
        q,
        #[trigger] q.casting(a, d, m, k, t),
    ) by {
        lemma_casting(q, a, d, m, k, t);
    }
}

proof fn lemma_decided(p: Player, mobs: Seq<Mob>)
    ensures
        own_part(p, decided(p, mobs)),
{
    reveal(decided);
    reveal(drunk);
    reveal(winded);
    reveal(Player::having_used);
    lemma_martial(p, mobs);
    lemma_hunt(p, mobs);
    lemma_arcane(p, mobs);
}

pub proof fn lemma_first(mask: Seq<bool>, i: int)
    requires
        i >= 0,
    ensures
        first_from(mask, i) is Some ==> i <= first_from(mask, i)->0 < mask.len()
            && mask[first_from(mask, i)->0],
        first_from(mask, i) is None ==> forall|k: int| i <= k < mask.len() ==> !#[trigger] mask[k],
    decreases mask.len() - i,
{
    if i < mask.len() && !mask[i] {
        lemma_first(mask, i + 1);
    }
}

proof fn lemma_numbered(mobs: Seq<Mob>, idx: i32, i: int)
    requires
        i >= 0,
    ensures
        numbered(mobs, idx, i) is Some ==> i <= numbered(mobs, idx, i)->0 < mobs.len(),
    decreases mobs.len() - i,
{
    if i < mobs.len() && mobs[i].idx != idx {
        lemma_numbered(mobs, idx, i + 1);
    }
}

proof fn lemma_healed(p: Player, mobs: Seq<Mob>)
    ensures
        own_part(p, healed(p, mobs).0),
        ground_held(mobs, healed(p, mobs).1),
{
    reveal(healed);
    if p.lock is Some {
        lemma_first(lock_mask(mobs, p.lock->0), 0);
    }
}

proof fn lemma_shot(p: Player, mobs: Seq<Mob>, at: Option<int>, kind: CastKind)
    requires
        at is Some ==> 0 <= at->0 < mobs.len(),
    ensures
        own_part(p, shot(p, mobs, at, kind).0),
        ground_held(mobs, shot(p, mobs, at, kind).1),
{
    reveal(shot);
    reveal(arrow_flown);
    reveal(Player::practised);
    reveal(Mob::wounded);
}

proof fn lemma_lands(p: Player, mobs: Seq<Mob>, kind: CastKind, at: Option<int>)
    requires
        at is Some ==> 0 <= at->0 < mobs.len(),
    ensures
        own_part(p, cast_lands(p, mobs, kind, at).0),
        ground_held(mobs, cast_lands(p, mobs, kind, at).1),
{
    reveal(cast_lands);
    lemma_healed(p, mobs);
    lemma_shot(p, mobs, at, kind);
    if at is Some {
        reveal(bashed);
        reveal(rooted);
        reveal(burnt);
        reveal(Player::practised);
        reveal(Mob::wounded);
    }
}

proof fn lemma_cast_runs(p: Player, mobs: Seq<Mob>)
    ensures
        own_part(p, cast_runs(p, mobs).0),
        ground_held(mobs, cast_runs(p, mobs).1),
{
    reveal(cast_runs);
    reveal(finished);
    let busy = crate::combat::fight::run_down(p.busy);
    if p.cast is Some {
        let cast = p.cast->0;
        let at = if cast.target is Some {
            numbered(mobs, cast.target->0, 0)
        } else {
            None
        };
        if cast.target is Some {
            lemma_numbered(mobs, cast.target->0, 0);
        }
        lemma_lands(Player { cast: None, ..Player { busy, ..p } }, mobs, cast.kind, at);
    }
}

proof fn lemma_auto_runs(p: Player, mobs: Seq<Mob>)
    ensures
        own_part(p, auto_runs(p, mobs).0),
        ground_held(mobs, auto_runs(p, mobs).1),
{
    reveal(auto_runs);
    let q = Player { auto_cd: diff_of(p.auto_cd, crate::combat::math::TICK), ..p };
    lemma_swung(q, mobs);
}

proof fn lemma_swung(p: Player, mobs: Seq<Mob>)
    ensures
        own_part(p, swung(p, mobs).0),
        ground_held(mobs, swung(p, mobs).1),
{
    reveal(swung);
    let target = swing_target(p, mobs);
    if target is Some {
        let q = Player { lock: target, ..p };
        let at = first_from(lock_mask(mobs, target->0), 0);
        lemma_first(lock_mask(mobs, target->0), 0);
        if at is Some {
            lemma_swing_lands(q, mobs, at->0);
        }
    }
}

proof fn lemma_swing_lands(p: Player, mobs: Seq<Mob>, at: int)
    requires
        0 <= at < mobs.len(),
    ensures
        own_part(p, swing_lands(p, mobs, at).0),
        ground_held(mobs, swing_lands(p, mobs, at).1),
{
    reveal(swing_lands);
    reveal(cleaved);
    reveal(Player::practised);
    reveal(Mob::wounded);
    let m = mobs[at];
    let raw = crate::combat::math::melee_damage(
        p.stats.attrs.might as int,
        p.stats.weapon_skill as int,
        p.stats.ranks.martial as int,
        p.strike_armed,
    );
    let r = Player {
        strike_armed: false,
        swings: crate::combat::fighters::tally(p.swings, 1),
        ..p
    };
    let next = mobs.update(at, m.wounded(crate::combat::fighters::dealt_to(r, m, raw)));
    lemma_first(
        other_mask(next, r.practised().x, crate::combat::math::CLEAVE_RANGE_M, m.idx, false),
        0,
    );
}

proof fn lemma_mob_acts(p: Player, m: Mob)
    ensures
        kit_kept(p, mob_acts(p, m).0),
        dead_stays(m, mob_acts(p, m).1),
{
    reveal(slammed);
    reveal(swiped);
    reveal(bitten);
    reveal(Player::struck);
}

proof fn lemma_mobs_act(p: Player, mobs: Seq<Mob>, n: nat)
    requires
        n <= mobs.len(),
    ensures
        kit_kept(p, mobs_act(p, mobs, n).0),
        dead_stay(mobs, mobs_act(p, mobs, n).1),
    decreases n,
{
    if n > 0 {
        lemma_mobs_act(p, mobs, (n - 1) as nat);
        lemma_mob_acts(mobs_act(p, mobs, (n - 1) as nat).0, mobs[n - 1]);
    }
}

proof fn lemma_moved(p: Player, mobs: Seq<Mob>, desired: i128)
    ensures
        kit_kept(p, moved(p, mobs, desired).0),
        dead_stay(mobs, moved(p, mobs, desired).1),
{
    reveal(stepped);
    reveal(closed_in);
}

proof fn lemma_mobs_ticked(mobs: Seq<Mob>)
    ensures
        dead_stay(mobs, mobs_ticked(mobs)),
{
    reveal(mob_ticked);
}

/// In a tick of a fight nobody comes back from the dead, no potion and no arrow
/// appears or goes missing below none, and the fighters stay who they are.
pub proof fn law_tick_keeps_kit_and_dead(p: Player, mobs: Seq<Mob>, desired: i128)
    ensures
        kit_kept(p, ticked(p, mobs, desired).0),
        dead_stay(mobs, ticked(p, mobs, desired).1),
{
    reveal(ticked);
    let a = timers_run(p);
    let b = poisoned(a);
    let p1 = refreshed(b);
    lemma_small_steps(p, Ability::Fire);
    lemma_poisoned(a);
    lemma_small_steps(b, Ability::Fire);
    let mobs1 = mobs_ticked(mobs);
    lemma_mobs_ticked(mobs);
    let d = decided(p1, mobs1);
    lemma_decided(p1, mobs1);
    let cast = cast_runs(d, mobs1);
    lemma_cast_runs(d, mobs1);
    let auto = auto_runs(cast.0, cast.1);
    lemma_auto_runs(cast.0, cast.1);
    let turns = mobs_act(auto.0, auto.1, auto.1.len());
    lemma_mobs_act(auto.0, auto.1, auto.1.len());
    lemma_moved(turns.0, turns.1, desired);
}

/// In a whole fight the kit only shrinks and the dead stay dead; the player has won
/// exactly where it lives and no mob does, and lost exactly where it died.
pub proof fn law_fight_ends_as_told(p: Player, mobs: Seq<Mob>, hold: i128, left: nat)
    ensures
        kit_kept(p, fought(p, mobs, hold, left).0),
        dead_stay(mobs, fought(p, mobs, hold, left).1),
        0 <= fought(p, mobs, hold, left).3 <= left,
        fought(p, mobs, hold, left).2 == Winner::Player ==> fought(p, mobs, hold, left).0.alive
            && first_from(live_mask(fought(p, mobs, hold, left).1), 0) is None,
        fought(p, mobs, hold, left).2 == Winner::Mobs ==> !fought(p, mobs, hold, left).0.alive,
        fought(p, mobs, hold, left).2 == Winner::Timeout ==> fought(p, mobs, hold, left).3 == left,
    decreases left,
{
    if left > 0 {
        law_tick_keeps_kit_and_dead(p, mobs, hold);
        let out = ticked(p, mobs, hold);
        law_fight_ends_as_told(out.0, out.1, hold, (left - 1) as nat);
    }
}

/// A blow never heals, never takes health below none, kills exactly where it takes
/// the last of it, and leaves the dead alone. Health is a number of 53 bits.
pub proof fn law_blow_only_hurts(p: Player, amount: int, interrupt: bool)
    requires
        0 <= p.hp,
        rounded(p.hp as int) == p.hp,
        amount <= i32::MAX,
    ensures
        0 <= p.struck(amount, interrupt).hp <= p.hp,
        p.struck(amount, interrupt).alive ==> p.alive,
        p.alive && !p.struck(amount, interrupt).alive ==> p.struck(amount, interrupt).hp == 0,
        !p.alive ==> p.struck(amount, interrupt) == p,
{
    reveal(Player::struck);
    if amount > 0 && p.alive {
        let left = p.blow_left(amount);
        if left > 0 {
            crate::combat::fighters::lemma_absorbed(p, amount);
            let x = p.hp - left * ONE;
            assert(units_of(left) == left * ONE);
            law_rounding_is_close(x);
            if x > 0 {
                let g = lemma_rounded_grains(p.hp as int, DOUBLE as int);
                vstd::arithmetic::power2::lemma_pow2_pos(g.1);
                assert(g.0 >= 0) by (nonlinear_arith)
                    requires
                        g.0 * vstd::arithmetic::power2::pow2(g.1) >= 0,
                        vstd::arithmetic::power2::pow2(g.1) > 0,
                ;
                law_rounding_keeps_side(x, g.0, g.1, DOUBLE as int);
            }
        }
    }
}

/// What a mob's turn leaves alone of it: who it is, where it stands, and whether it lives
/// or is stunned.
proof fn lemma_turn_frame(p: Player, m: Mob)
    ensures
        ({
            let out = mob_acts(p, m);
            &&& out.1.sheet == m.sheet
            &&& out.1.x == m.x
            &&& out.1.stun == m.stun
            &&& out.1.alive == m.alive
            &&& out.1.reach == m.reach
            &&& out.0.x == p.x
            &&& out.0.alive ==> p.alive
            &&& out.0.poison_acc == p.poison_acc
            &&& out.0.poison_t == p.poison_t || out.0.poison_t == 4 * 1_152_921_504_606_846_976
            &&& m.sheet.kind != MobKind::Scorpion ==> out.0.poison_t == p.poison_t
            &&& out.0.damage_taken >= p.damage_taken
        }),
{
    reveal(slammed);
    reveal(swiped);
    reveal(bitten);
    reveal(Player::struck);
}

/// A scorpion that strikes poisons whom it does not kill.
proof fn lemma_sting(p: Player, m: Mob)
    requires
        m.sheet.kind == MobKind::Scorpion,
        m.alive,
        m.stun <= 0,
        gap_of(m.x, p.x) <= m.reach,
        m.auto_cd <= 115_292_150_460_684_704,
        mob_acts(p, m).0.alive,
    ensures
        mob_acts(p, m).0.poison_t == 4 * 1_152_921_504_606_846_976,
{
    reveal(slammed);
    reveal(swiped);
    reveal(bitten);
    reveal(Player::struck);
    law_rounding_is_close(m.auto_cd - 115_292_150_460_684_704);
}

proof fn lemma_turns(p: Player, mobs: Seq<Mob>, n: nat, i: int)
    requires
        n <= mobs.len(),
        0 <= i < mobs.len(),
    ensures
        ({
            let out = mobs_act(p, mobs, n);
            &&& out.1.len() == mobs.len()
            &&& out.1[i].sheet == mobs[i].sheet
            &&& out.1[i].stun == mobs[i].stun
            &&& out.1[i].alive == mobs[i].alive
            &&& out.1[i].x == mobs[i].x
            &&& i >= n ==> out.1[i] == mobs[i]
            &&& out.0.x == p.x
            &&& out.0.alive ==> p.alive
            &&& out.0.poison_acc == p.poison_acc
            &&& out.0.damage_taken >= p.damage_taken
            &&& i < n && out.0.alive && mobs[i].sheet.kind == MobKind::Scorpion && mobs[i].alive
                && mobs[i].stun <= 0 && gap_of(mobs[i].x, p.x) <= mobs[i].reach && mobs[i].auto_cd
                <= 115_292_150_460_684_704 ==> out.0.poison_t == 4 * 1_152_921_504_606_846_976
        }),
    decreases n,
{
    if n > 0 {
        lemma_turns(p, mobs, (n - 1) as nat, i);
        let before = mobs_act(p, mobs, (n - 1) as nat);
        lemma_turn_frame(before.0, mobs[n - 1]);
        if i == n - 1 && mobs[i].sheet.kind == MobKind::Scorpion && mobs[i].alive && mobs[i].stun
            <= 0 && gap_of(mobs[i].x, p.x) <= mobs[i].reach && mobs[i].auto_cd
            <= 115_292_150_460_684_704 && mobs_act(p, mobs, n).0.alive {
            lemma_sting(before.0, mobs[i]);
        }
    }
}

proof fn lemma_no_sting(p: Player, mobs: Seq<Mob>, n: nat)
    requires
        n <= mobs.len(),
        forall|i: int| 0 <= i < mobs.len() ==> (#[trigger] mobs[i]).sheet.kind != MobKind::Scorpion,
    ensures
        mobs_act(p, mobs, n).0.poison_t == p.poison_t,
    decreases n,
{
    if n > 0 {
        lemma_no_sting(p, mobs, (n - 1) as nat);
        lemma_turn_frame(mobs_act(p, mobs, (n - 1) as nat).0, mobs[n - 1]);
    }
}

/// What happens in a tick before the mobs' turns: the fight as they find it.
proof fn lemma_before_turns(p: Player, mobs: Seq<Mob>)
    ensures
        ({
            let a = refreshed(poisoned(timers_run(p)));
            let mobs1 = mobs_ticked(mobs);
            let cast = cast_runs(decided(a, mobs1), mobs1);
            let auto = auto_runs(cast.0, cast.1);
            &&& own_part(a, auto.0)
            &&& auto.1.len() == mobs.len()
            &&& a.x == p.x
            &&& forall|i: int|
                0 <= i < mobs.len() ==> {
                    &&& (#[trigger] auto.1[i]).sheet == mobs[i].sheet
                    &&& auto.1[i].x == mobs[i].x
                    &&& auto.1[i].reach == mobs[i].reach
                    &&& auto.1[i].auto_cd == mobs[i].auto_cd
                }
        }),
{
    let a = refreshed(poisoned(timers_run(p)));
    assert(a.x == p.x) by {
        reveal(timers_run);
        reveal(poisoned);
        reveal(refreshed);
        reveal(Player::struck);
    }
    let mobs1 = mobs_ticked(mobs);
    let d = decided(a, mobs1);
    lemma_decided(a, mobs1);
    let cast = cast_runs(d, mobs1);
    lemma_cast_runs(d, mobs1);
    let auto = auto_runs(cast.0, cast.1);
    lemma_auto_runs(cast.0, cast.1);
    assert forall|i: int| 0 <= i < mobs.len() implies (#[trigger] auto.1[i]).sheet
        == mobs[i].sheet && auto.1[i].x == mobs[i].x && auto.1[i].reach == mobs[i].reach
        && auto.1[i].auto_cd == mobs[i].auto_cd by {
        reveal(mob_ticked);
        assert(stands_as(mobs1[i], cast.1[i]));
        assert(stands_as(cast.1[i], auto.1[i]));
    }
}

/// A scorpion's sting poisons. If a scorpion has the player in its reach when a tick
/// begins, its next swing no more than a tenth of a second off, and lives unstunned through
/// the tick, then a player that lives through it too is poisoned for four seconds.
pub proof fn law_scorpions_poison(p: Player, mobs: Seq<Mob>, desired: i128, i: int)
    requires
        0 <= i < mobs.len(),
        mobs[i].sheet.kind == MobKind::Scorpion,
        gap_of(mobs[i].x, p.x) <= mobs[i].reach,
        mobs[i].auto_cd <= 115_292_150_460_684_704,
        ticked(p, mobs, desired).0.alive,
        ticked(p, mobs, desired).1[i].alive,
        ticked(p, mobs, desired).1[i].stun <= 0,
    ensures
        ticked(p, mobs, desired).0.poison_t == 4 * 1_152_921_504_606_846_976,
{
    reveal(ticked);
    lemma_before_turns(p, mobs);
    let a = refreshed(poisoned(timers_run(p)));
    let mobs1 = mobs_ticked(mobs);
    let cast = cast_runs(decided(a, mobs1), mobs1);
    let auto = auto_runs(cast.0, cast.1);
    let turns = mobs_act(auto.0, auto.1, auto.1.len());
    lemma_turns(auto.0, auto.1, auto.1.len(), i);
    assert(turns.0.alive && turns.1[i].alive && turns.1[i].stun <= 0 && moved(
        turns.0,
        turns.1,
        desired,
    ).0.poison_t == turns.0.poison_t) by {
        reveal(stepped);
        reveal(closed_in);
    }
    assert(auto.1[i].sheet == mobs[i].sheet);
}

/// Nothing but a scorpion poisons: among other mobs the poison only runs out.
pub proof fn law_only_scorpions_poison(p: Player, mobs: Seq<Mob>, desired: i128)
    requires
        forall|i: int| 0 <= i < mobs.len() ==> (#[trigger] mobs[i]).sheet.kind != MobKind::Scorpion,
        p.poison_t >= 0,
        rounded(p.poison_t as int) == p.poison_t,
    ensures
        0 <= ticked(p, mobs, desired).0.poison_t <= p.poison_t,
        p.poison_t <= 115_292_150_460_684_704 ==> ticked(p, mobs, desired).0.poison_t == 0,
{
    reveal(ticked);
    lemma_before_turns(p, mobs);
    let a = refreshed(poisoned(timers_run(p)));
    assert(a.poison_t == crate::combat::fight::run_down(p.poison_t)) by {
        reveal(timers_run);
        reveal(poisoned);
        reveal(refreshed);
        reveal(Player::struck);
    }
    law_sums_keep_side(p.poison_t, 115_292_150_460_684_704);
    let mobs1 = mobs_ticked(mobs);
    let cast = cast_runs(decided(a, mobs1), mobs1);
    let auto = auto_runs(cast.0, cast.1);
    assert forall|i: int| 0 <= i < auto.1.len() implies (#[trigger] auto.1[i]).sheet.kind
        != MobKind::Scorpion by {
        assert(auto.1[i].sheet == mobs[i].sheet);
    }
    lemma_no_sting(auto.0, auto.1, auto.1.len());
    reveal(stepped);
}

/// A tick of poison: 0.3 points gather, and a whole one is taken from the player as damage
/// where no ward stands before it. What is left gathered is less than a point again.
proof fn lemma_poison_tick(p: Player)
    requires
        p.alive,
        p.poison_t > 0,
        0 <= p.poison_acc < 1_152_921_504_606_846_976,
        p.ward <= 0,
        p.damage_taken < i64::MAX,
    ensures
        ({
            let q = poisoned(p);
            &&& 0 <= q.poison_acc < 1_152_921_504_606_846_976
            &&& q.damage_taken == p.damage_taken || q.damage_taken == p.damage_taken + 1
            &&& -256 <= (q.damage_taken - p.damage_taken) * 1_152_921_504_606_846_976
                + q.poison_acc - p.poison_acc - 345_876_451_382_054_092 <= 256
            &&& q.damage_taken == p.damage_taken ==> q.hp == p.hp && q.alive
            &&& q.damage_taken == p.damage_taken + 1 ==> q.hp == {
                let hp = diff_of(p.hp, 1_152_921_504_606_846_976);
                if hp <= 0 {
                    0
                } else {
                    hp
                }
            }
        }),
{
    reveal(poisoned);
    reveal(Player::struck);
    let sum = p.poison_acc + crate::combat::math::POISON_TICK;
    law_rounding_is_close(sum);
    law_rounding_is_close(sum_of(p.poison_acc, crate::combat::math::POISON_TICK) - ONE);
    law_rounding_is_close(sum_of(p.poison_acc, crate::combat::math::POISON_TICK) as int);
}

/// A tick under poison. A living player without a ward gathers 0.3 points of it and takes
/// every whole one as damage, whatever else the tick brings; with nobody about, that is all
/// the damage there is, and where no cast is under way it comes off the health point by point.
pub proof fn law_poison_hurts(p: Player, mobs: Seq<Mob>, desired: i128)
    requires
        p.alive,
        p.poison_t > 0,
        0 <= p.poison_acc < 1_152_921_504_606_846_976,
        p.ward <= 0,
        p.damage_taken < i64::MAX,
    ensures
        ({
            let q = ticked(p, mobs, desired).0;
            let points = q.damage_taken - p.damage_taken;
            &&& 0 <= q.poison_acc < 1_152_921_504_606_846_976
            &&& points >= 0
            &&& points * 1_152_921_504_606_846_976 + q.poison_acc >= p.poison_acc
                + 345_876_451_382_054_092 - 256
            &&& mobs.len() == 0 ==> points <= 1 && points * 1_152_921_504_606_846_976
                + q.poison_acc <= p.poison_acc + 345_876_451_382_054_092 + 256
            &&& mobs.len() == 0 && p.cast is None && points == 0 ==> q.hp == p.hp && q.alive
            &&& mobs.len() == 0 && p.cast is None && points == 1 ==> q.hp == {
                let hp = diff_of(p.hp, 1_152_921_504_606_846_976);
                if hp <= 0 {
                    0
                } else {
                    hp
                }
            }
        }),
{
    reveal(ticked);
    let t = timers_run(p);
    assert(t.alive && t.poison_t == p.poison_t && t.poison_acc == p.poison_acc && t.ward <= 0
        && t.damage_taken == p.damage_taken && t.hp == p.hp) by {
        reveal(timers_run);
    }
    lemma_poison_tick(t);
    let b = poisoned(t);
    let a = refreshed(b);
    assert(a.alive == b.alive && a.poison_acc == b.poison_acc && a.damage_taken == b.damage_taken
        && a.hp == b.hp) by {
        reveal(refreshed);
    }
    lemma_before_turns(p, mobs);
    let mobs1 = mobs_ticked(mobs);
    let cast = cast_runs(decided(a, mobs1), mobs1);
    let auto = auto_runs(cast.0, cast.1);
    let turns = mobs_act(auto.0, auto.1, auto.1.len());
    lemma_turns_hurt(auto.0, auto.1, auto.1.len());
    assert(moved(turns.0, turns.1, desired).0.poison_acc == turns.0.poison_acc && moved(
        turns.0,
        turns.1,
        desired,
    ).0.damage_taken == turns.0.damage_taken && moved(turns.0, turns.1, desired).0.hp
        == turns.0.hp && moved(turns.0, turns.1, desired).0.alive == turns.0.alive) by {
        reveal(stepped);
    }
    if mobs.len() == 0 {
        assert(decided(a, mobs1) == a) by {
            reveal(decided);
            reveal_with_fuel(first_from, 1);
        }
        assert(p.cast is None ==> auto.0.hp == a.hp) by {
            assert(p.cast is None ==> a.cast is None) by {
                reveal(timers_run);
                reveal(poisoned);
                reveal(refreshed);
                reveal(Player::struck);
            }
            lemma_alone(a, mobs1);
        }
    }
}

/// Nobody about is hurt, and nobody heals unless a cast was under way.
proof fn lemma_alone(p: Player, mobs: Seq<Mob>)
    requires
        mobs.len() == 0,
    ensures
        p.cast is None ==> auto_runs(cast_runs(p, mobs).0, cast_runs(p, mobs).1).0.hp == p.hp,
{
    reveal(auto_runs);
    reveal(cast_runs);
    reveal(finished);
    reveal(swung);
    reveal_with_fuel(first_from, 1);
}

proof fn lemma_turns_hurt(p: Player, mobs: Seq<Mob>, n: nat)
    requires
        n <= mobs.len(),
    ensures
        mobs_act(p, mobs, n).0.damage_taken >= p.damage_taken,
        mobs_act(p, mobs, n).0.poison_acc == p.poison_acc,
    decreases n,
{
    if n > 0 {
        lemma_turns_hurt(p, mobs, (n - 1) as nat);
        lemma_turn_frame(mobs_act(p, mobs, (n - 1) as nat).0, mobs[n - 1]);
    }
}

/// The fight after `n` ticks.
pub open spec fn after_ticks(p: Player, mobs: Seq<Mob>, desired: i128, n: nat) -> (
    Player,
    Seq<Mob>,
)
    decreases n,
{
    if n == 0 {
        (p, mobs)
    } else {
        let before = after_ticks(p, mobs, desired, (n - 1) as nat);
        ticked(before.0, before.1, desired)
    }
}

/// Poisoned, alive and without a ward.
pub open spec fn poison_works(p: Player) -> bool {
    p.alive && p.poison_t > 0 && p.ward <= 0 && p.damage_taken < i64::MAX
}

proof fn lemma_poison_run(p: Player, mobs: Seq<Mob>, desired: i128, n: nat)
    requires
        0 <= p.poison_acc < 1_152_921_504_606_846_976,
        forall|k: int|
            0 <= k < n ==> poison_works((#[trigger] after_ticks(p, mobs, desired, k as nat)).0),
    ensures
        ({
            let out = after_ticks(p, mobs, desired, n);
            let points = out.0.damage_taken - p.damage_taken;
            &&& 0 <= out.0.poison_acc < 1_152_921_504_606_846_976
            &&& points * 1_152_921_504_606_846_976 + out.0.poison_acc >= p.poison_acc + n
                * 345_876_451_382_053_836
            &&& mobs.len() == 0 ==> out.1.len() == 0 && points * 1_152_921_504_606_846_976
                + out.0.poison_acc <= p.poison_acc + n * 345_876_451_382_054_348
        }),
    decreases n,
{
    if n > 0 {
        let m = (n - 1) as nat;
        lemma_poison_run(p, mobs, desired, m);
        let before = after_ticks(p, mobs, desired, m);
        assert(poison_works(after_ticks(p, mobs, desired, m as int as nat).0));
        law_poison_hurts(before.0, before.1, desired);
        law_tick_keeps_kit_and_dead(before.0, before.1, desired);
    }
}

/// Poison costs three points a second: as long as it works on a living player without a
/// ward, `n` ticks of a tenth of a second do at least three points of damage in ten, but for
/// the one that is still gathering, and with nobody about no more than that and the one that
/// had gathered.
pub proof fn law_poison_costs_three_a_second(p: Player, mobs: Seq<Mob>, desired: i128, n: nat)
    requires
        0 <= p.poison_acc < 1_152_921_504_606_846_976,
        n <= 1_000_000,
        forall|k: int|
            0 <= k < n ==> poison_works((#[trigger] after_ticks(p, mobs, desired, k as nat)).0),
    ensures
        10 * (after_ticks(p, mobs, desired, n).0.damage_taken - p.damage_taken) >= 3 * n - 10,
        mobs.len() == 0 ==> 10 * (after_ticks(p, mobs, desired, n).0.damage_taken
            - p.damage_taken) <= 3 * n + 10,
{
    lemma_poison_run(p, mobs, desired, n);
}

} // verus!
