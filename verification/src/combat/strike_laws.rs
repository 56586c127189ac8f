//! What blows come to in a fight: wards before health, swings at what is in reach, and what
//! a fighter of each discipline starts.

use crate::combat::fight::{
    arcane_attack, auto_runs, binding, burning, cast_on, cast_runs, cleaved, first_from, live_mask,
    lock_mask, marking, mob_blow, near_mask, other_mask, swing_lands, swing_target, swung, warding,
};
use crate::combat::fight_laws::lemma_first;
use crate::combat::fighters::{CastKind, Mob, Player};
use crate::combat::formula_laws::{law_mends_and_wards_grow, law_shares_are_close};
use crate::combat::math::Discipline;
use crate::combat::number::{
    diff_of, gap_of, law_rounding_is_close, law_sums_keep_side, rounded, units_of, ONE,
};
use vstd::prelude::*;

verus! {

/// A ward takes a blow before health does. One that holds the whole blow keeps health and
/// cast as they are; without a ward the blow comes off the health, and kills where it takes
/// all of it. Only a blow that gets through and interrupts ends a cast.
pub proof fn law_wards_take_the_blow(p: Player, amount: int, interrupt: bool)
    requires
        p.alive,
        0 < amount <= i32::MAX,
        0 < p.hp,
        rounded(p.hp as int) == p.hp,
        0 <= p.ward,
        rounded(p.ward as int) == p.ward,
    ensures
        ({
            let q = p.struck(amount, interrupt);
            &&& q.max_hit_taken >= amount
            &&& q.hp <= p.hp
            &&& q.x == p.x && q.mana == p.mana && q.stats == p.stats && q.poison_t == p.poison_t
            &&& p.ward >= amount * ONE ==> q.hp == p.hp && q.alive && q.cast == p.cast && q.busy
                == p.busy && q.damage_taken == p.damage_taken && q.ward <= p.ward
            &&& p.ward == 0 && amount * ONE >= p.hp ==> q.hp == 0 && !q.alive
            &&& p.ward == 0 && amount * ONE < p.hp && p.hp <= 1_000_000_000 * ONE ==> q.alive && q.hp
                == diff_of(p.hp, (amount * ONE) as i128)
            &&& p.ward == 0 && interrupt ==> q.cast is None
            &&& !interrupt ==> q.cast == p.cast && q.busy == p.busy
        }),
{
    reveal(Player::struck);
    law_sums_keep_side(p.hp, (amount * ONE) as i128);
    law_rounding_is_close(p.hp - amount * ONE);
    law_rounding_is_close(0);
    let absorbed = p.absorbed(amount);
    assert(units_of(amount) == amount * ONE);
    assert(0 <= absorbed <= amount * ONE);
    vstd::arithmetic::div_mod::lemma_fundamental_div_mod(absorbed as int, ONE as int);
    let left = p.blow_left(amount);
    assert(0 <= left <= amount);
    if p.ward >= amount * ONE {
        vstd::arithmetic::div_mod::lemma_div_multiples_vanish(amount, ONE as int);
        assert(absorbed == ONE * amount);
        assert(left == 0);
        law_sums_keep_side(p.ward, absorbed);
    }
    law_sums_keep_side(p.hp, (left * ONE) as i128);
}

/// A raging mob strikes with thirteen tenths of its blow, give or take a point.
pub proof fn law_rage_sharpens_blows(m: Mob, base: int)
    requires
        0 <= base <= 1_000_000_000,
    ensures
        !m.enraged ==> mob_blow(m, base) == base,
        m.enraged ==> 13 * base - 10 <= 10 * mob_blow(m, base) <= 13 * base,
{
    law_shares_are_close(1_498_797_955_988_901_120, base);
}

/// A fighter that is shaken strikes with nine tenths of a blow; the mark adds three twentieths.
pub proof fn law_blows_of_fighters(p: Player, raw: int)
    requires
        0 <= raw <= 1_000_000_000,
    ensures
        !p.shaken && p.mark_t <= 0 ==> p.blow(raw) == raw,
        p.shaken && p.mark_t <= 0 ==> 9 * raw - 10 <= 10 * p.blow(raw) <= 9 * raw,
        !p.shaken && p.mark_t > 0 ==> 23 * raw - 20 <= 20 * p.blow(raw) <= 23 * raw,
{
    law_shares_are_close(1_037_629_354_146_162_304, raw);
    law_shares_are_close(1_325_859_730_297_873_920, raw);
}

/// Only Martial fighters swing, and only while they live and something else does. They swing
/// at the mob they locked on while it lives, else at the first that lives; one that stands
/// more than 2.8 metres away stays unhurt.
pub proof fn law_swings_are_in_reach(p: Player, mobs: Seq<Mob>)
    ensures
        p.stats.discipline != Discipline::Martial || !p.alive ==> swung(p, mobs) == (p, mobs),
        (forall|i: int| 0 <= i < mobs.len() ==> !(#[trigger] mobs[i]).alive) ==> swung(p, mobs) == (
            p,
            mobs,
        ),
        (forall|i: int|
            0 <= i < mobs.len() ==> 10 * gap_of((#[trigger] mobs[i]).x, p.x) > 28 * ONE + 100_000)
            ==> swung(p, mobs).1 == mobs,
{
    reveal(swung);
    lemma_first(live_mask(mobs), 0);
    let target = swing_target(p, mobs);
    if target is Some {
        lemma_first(lock_mask(mobs, target->0), 0);
        let at = first_from(lock_mask(mobs, target->0), 0);
        if at is Some {
            assert(lock_mask(mobs, target->0)[at->0]);
        }
    }
    if forall|i: int| 0 <= i < mobs.len() ==> !(#[trigger] mobs[i]).alive {
        let live = first_from(live_mask(mobs), 0);
        if live is Some {
            assert(live_mask(mobs)[live->0]);
            assert(!mobs[live->0].alive);
        }
    }
}

/// A swing that lands wounds the mob it was aimed at and spends an armed strike. A second mob
/// is wounded only by a fighter of rank seven, and then one that lives within 2.2 metres.
pub proof fn law_swings_wound_their_target(p: Player, mobs: Seq<Mob>, at: int)
    requires
        0 <= at < mobs.len(),
        p.stats.ranks.martial < 7,
    ensures
        ({
            let out = swing_lands(p, mobs, at);
            &&& out.1.len() == mobs.len()
            &&& !out.0.strike_armed
            &&& out.0.hp == p.hp && out.0.x == p.x && out.0.lock == p.lock
            &&& forall|i: int| 0 <= i < mobs.len() && i != at ==> #[trigger] out.1[i] == mobs[i]
            &&& out.1[at].x == mobs[at].x && out.1[at].idx == mobs[at].idx
        }),
{
    reveal(swing_lands);
    reveal(cleaved);
    reveal(Player::practised);
    reveal(Mob::wounded);
}

/// A cleave wounds one other mob: the first that lives, is not the target and stands within
/// 2.2 metres. It takes rank seven.
pub proof fn law_cleaves_wound_one_more(
    p: Player,
    mobs: Seq<Mob>,
    raw: int,
    target: i32,
    i: int,
)
    requires
        0 <= i < mobs.len(),
    ensures
        ({
            let out = cleaved(p, mobs, raw, target).1;
            &&& out.len() == mobs.len()
            &&& p.stats.ranks.martial < 7 ==> out == mobs
            &&& out[i] != mobs[i] ==> p.stats.ranks.martial >= 7 && mobs[i].alive && mobs[i].idx
                != target && 10 * gap_of(mobs[i].x, p.x) <= 22 * ONE + 100_000
            &&& out[i] != mobs[i] ==> forall|j: int|
                0 <= j < mobs.len() && j != i ==> #[trigger] out[j] == mobs[j]
        }),
{
    reveal(cleaved);
    let mask = other_mask(mobs, p.x, 2_536_427_310_135_063_552, target, false);
    lemma_first(mask, 0);
    let other = first_from(mask, 0);
    if other is Some {
        assert(mask[other->0]);
    }
}

/// A Martial fighter's own swing runs only with something in reach, and comes back 1.8
/// seconds after it fell.
pub proof fn law_swings_run_in_reach(p: Player, mobs: Seq<Mob>)
    ensures
        p.stats.discipline != Discipline::Martial ==> auto_runs(p, mobs) == (p, mobs),
        (forall|i: int|
            0 <= i < mobs.len() ==> !(#[trigger] mobs[i]).alive || 10 * gap_of(mobs[i].x, p.x) > 28
                * ONE + 100_000) ==> auto_runs(p, mobs) == (p, mobs),
        p.auto_cd >= ONE && p.auto_cd <= 1000 * ONE ==> auto_runs(p, mobs).1 == mobs,
{
    reveal(auto_runs);
    let mask = near_mask(mobs, p.x, 3_228_180_212_899_171_328);
    lemma_first(mask, 0);
    let any = first_from(mask, 0);
    if any is Some {
        assert(mask[any->0]);
    }
    law_rounding_is_close(p.auto_cd - crate::combat::math::TICK);
}

/// A hunter's mark takes rank ten and lasts twelve seconds; it comes back after twenty.
pub proof fn law_marks_take_rank_ten(p: Player)
    ensures
        p.stats.ranks.hunt < 10 || p.cds.mark > 0 ==> marking(p) == p,
        p.stats.ranks.hunt >= 10 && p.cds.mark <= 0 ==> marking(p).mark_t == 12 * ONE && marking(
            p,
        ).cds.mark == 20 * ONE,
        marking(p).hp == p.hp && marking(p).mana == p.mana && marking(p).arrows == p.arrows,
{
    reveal(marking);
    reveal(Player::having_used);
}

/// A ward costs eighteen mana and holds for eight seconds; it comes back after sixteen, and
/// leaves a pause of one second. It takes twenty points at the least.
pub proof fn law_wards_are_raised(p: Player)
    requires
        p.can_cast(18),
        0 <= p.stats.attrs.will,
    ensures
        ({
            let q = warding(p);
            &&& q.ward >= 20 * ONE
            &&& q.ward_t == 8 * ONE
            &&& q.cds.ward == 16 * ONE
            &&& q.gcd == ONE
            &&& q.cast is None
            &&& q.busy == 0
            &&& q.hp == p.hp
            &&& q.mana == 0 || q.mana == diff_of(p.mana, (18 * ONE) as i128)
        }),
{
    reveal(warding);
    reveal(Player::casting);
    reveal(Player::having_used);
    law_mends_and_wards_grow(
        p.stats.attrs.will as int,
        p.stats.ranks.arcane as int,
        p.stats.attrs.will as int,
        p.stats.ranks.arcane as int,
    );
}

/// A caster burns only with three mana for it and the spell ready; a caster without the mana
/// notes that it went without.
pub proof fn law_embers_are_afforded(p: Player, target: i32)
    ensures
        p.cds.ember > 0 ==> burning(p, target) == p,
        p.cds.ember <= 0 && p.mana < 3 * ONE ==> burning(p, target).skipped_spell_for_mana
            && burning(p, target).cast == p.cast && burning(p, target).mana == p.mana,
        p.cds.ember <= 0 && p.mana >= 3 * ONE && p.busy <= 0 && p.gcd <= 0 ==> burning(
            p,
            target,
        ).cast is Some && burning(p, target).cast->0.kind == CastKind::Ember && burning(
            p,
            target,
        ).cast->0.target == Some(target) && burning(p, target).lock == Some(target),
{
    reveal(burning);
    reveal(cast_on);
    reveal(Player::casting);
    reveal(Player::having_used);
}

/// A bind keeps the caster one and a half seconds and comes back after twelve.
pub proof fn law_binds_take_their_time(p: Player, held: i32)
    requires
        p.can_cast(16),
    ensures
        ({
            let q = binding(p, held);
            &&& q.cast is Some
            &&& q.cast->0.kind == CastKind::Bind
            &&& q.cast->0.target == Some(held)
            &&& 2 * q.busy == 3 * ONE
            &&& q.cds.bind == 12 * ONE
            &&& q.hp == p.hp
        }),
{
    reveal(binding);
    reveal(cast_on);
    reveal(Player::casting);
    reveal(Player::having_used);
}

/// A caster attacks only what lives: with nobody left nothing is started. Without a mob within
/// twenty-eight metres nothing is burned, and below rank five nothing is bound.
pub proof fn law_casters_attack_the_living(p: Player, mobs: Seq<Mob>)
    requires
        p.cast is None,
    ensures
        p.stats.ranks.arcane < 5 && (forall|i: int|
            0 <= i < mobs.len() ==> !(#[trigger] mobs[i]).alive || gap_of(mobs[i].x, p.x) > 28 * ONE)
            ==> arcane_attack(p, mobs).cast is None && arcane_attack(p, mobs).mana == p.mana,
        p.stats.ranks.arcane < 5 && arcane_attack(p, mobs).cast is Some ==> arcane_attack(
            p,
            mobs,
        ).cast->0.kind == CastKind::Ember,
{
    reveal(arcane_attack);
    reveal(burning);
    reveal(cast_on);
    reveal(Player::casting);
    reveal(Player::having_used);
    let reach = near_mask(mobs, p.x, 32_281_802_128_991_715_328);
    lemma_first(reach, 0);
    let any = first_from(reach, 0);
    if any is Some {
        assert(reach[any->0]);
    }
}

/// Skill grows with use, never past its cap, and never at once by more than a point; other
/// numbers of the fighter stay as they are.
pub proof fn law_practice_makes_skilled(p: Player)
    ensures
        ({
            let q = p.practised();
            &&& p.stats.weapon_skill <= q.stats.weapon_skill <= p.stats.weapon_skill + 1
            &&& p.stats.weapon_skill >= p.stats.skill_cap ==> q == p
            &&& p.stats.weapon_skill < p.stats.skill_cap ==> q.stats.weapon_skill
                <= p.stats.skill_cap
            &&& q.stats.weapon_skill > p.stats.weapon_skill ==> p.stats.skill_xp + 1 >= 8
                * p.stats.weapon_skill
            &&& p.stats.weapon_skill < p.stats.skill_cap && p.stats.skill_xp + 1 >= 8
                * p.stats.weapon_skill && p.stats.skill_xp < i32::MAX ==> q.stats.weapon_skill
                == p.stats.weapon_skill + 1
            &&& q.hp == p.hp && q.mana == p.mana && q.stats.ranks == p.stats.ranks && q.stats.attrs
                == p.stats.attrs
        }),
{
    reveal(Player::practised);
}

/// A cast runs a tenth of a second nearer to its end and lands only when its time is over.
pub proof fn law_casts_land_in_time(p: Player, mobs: Seq<Mob>)
    ensures
        p.busy <= 0 ==> cast_runs(p, mobs) == (p, mobs),
        ONE <= p.busy <= 1000 * ONE ==> cast_runs(p, mobs).1 == mobs && cast_runs(p, mobs).0.cast
            == p.cast && cast_runs(p, mobs).0.busy < p.busy,
{
    reveal(cast_runs);
    law_rounding_is_close(p.busy - crate::combat::math::TICK);
}

} // verus!
