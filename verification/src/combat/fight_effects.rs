//! What each thing that a fighter or a mob can do comes to, in numbers. A second, a metre and
//! a point are 1_152_921_504_606_846_976 parts each.

use crate::combat::fight::{
    bashed, binding, bitten, burning, burnt, cast_lands, cast_on, closed_in, decided, drunk,
    finished, first_from, hunt_choice, live_mask, martial_choice, marking, mending, mob_acts,
    mob_ticked, nearest_upto, numbered, refreshed, rooted, run_down, shot, slammed, stepped, swiped,
    warding, weakest, weakest_upto, winded, winding_mask, arrow_flown, arcane_choice, arcane_attack,
    healed, lock_mask, loose_mask,
};
use crate::combat::fight_laws::lemma_first;
use crate::combat::fighters::{Ability, Cast, CastKind, Mob, Player};
use crate::combat::formula_laws::law_mends_and_wards_grow;
use crate::combat::math::{mend_heal, mitigated, Discipline};
use crate::combat::number::{
    diff_of, gap_of, greater, law_rounding_is_close, law_sums_grow, law_sums_keep_side, lesser, rounded, sum_of,
    times_of, units_of, ONE,
};
use crate::combat::sheets::MobKind;
use vstd::prelude::*;

verus! {

/// A timer that runs loses a tenth of a second and stops at nothing; one that does not run
/// is left alone.
pub proof fn law_timers_lose_a_tenth(t: i128)
    requires
        rounded(t as int) == t,
    ensures
        t <= 0 ==> run_down(t) == t,
        0 < t <= 115_292_150_460_684_704 ==> run_down(t) == 0,
        t > 115_292_150_460_684_704 ==> 0 <= run_down(t) <= t,
        115_292_150_460_684_704 < t <= 0x1000_0000_0000_0000_0000 ==> t - 115_292_150_460_684_704
            - 0x100_0000 <= run_down(t) <= t - 115_292_150_460_684_704 + 0x100_0000,
{
    law_rounding_is_close(t - 115_292_150_460_684_704);
    if t > 0 {
        law_sums_keep_side(t, 115_292_150_460_684_704);
    }
}

/// Mana comes back at 0.4 a second, up to its maximum.
pub proof fn law_mana_comes_back(p: Player)
    requires
        0 <= p.mana <= p.max_mana * ONE,
        0 <= p.max_mana <= 1_000_000,
        rounded(p.mana as int) == p.mana,
    ensures
        p.mana <= refreshed(p).mana <= p.max_mana * ONE,
        refreshed(p).mana == p.max_mana * ONE || refreshed(p).mana - p.mana
            >= 46_116_860_184_273_880 - 0x1_0000_0000,
        refreshed(p).mana - p.mana <= 46_116_860_184_273_880 + 0x1_0000_0000,
        refreshed(p).hp == p.hp,
        refreshed(p).min_mana <= refreshed(p).mana,
{
    reveal(refreshed);
    law_rounding_is_close(p.mana + crate::combat::math::MANA_TICK);
    law_sums_keep_side(p.mana, crate::combat::math::MANA_TICK);
    assert(units_of(p.max_mana as int) == p.max_mana * ONE);
}

/// Only the Line-Mother flies into a rage: at three tenths of her health or less, and not
/// before. Her rage does not end.
pub proof fn law_only_the_mother_rages(m: Mob)
    requires
        m.alive,
        0 < m.max_hp <= 1_000_000,
    ensures
        m.enraged ==> mob_ticked(m).enraged && mob_ticked(m).swing == m.swing,
        !m.enraged && m.sheet.kind != MobKind::LineMother ==> !mob_ticked(m).enraged
            && mob_ticked(m).swing == m.swing,
        !m.enraged && m.sheet.kind == MobKind::LineMother && 1000 * m.hp <= 299 * m.max_hp * ONE
            ==> mob_ticked(m).enraged,
        !m.enraged && 1000 * m.hp >= 301 * m.max_hp * ONE ==> !mob_ticked(m).enraged,
        !m.enraged && mob_ticked(m).enraged ==> 169 * ONE <= 100 * mob_ticked(m).swing <= 170 * ONE,
        mob_ticked(m).hp == m.hp,
        mob_ticked(m).alive,
{
    reveal(mob_ticked);
    let x = 345_876_451_382_054_080 * m.max_hp;
    law_rounding_is_close(x);
    assert(times_of(crate::combat::math::MOTHER_ENRAGE_HP, m.max_hp as int) == rounded(x));
}

proof fn lemma_share_line(share: i128, max_hp: int)
    requires
        0 < max_hp <= 1_000_000,
        0 <= share <= ONE,
    ensures
        share * max_hp - 0x1_0000_0000 <= times_of(share, max_hp) <= share * max_hp + 0x1_0000_0000,
{
    assert(0 <= share * max_hp <= 1_152_921_504_606_846_976 * 1_000_000) by (nonlinear_arith)
        requires
            0 <= share <= 1_152_921_504_606_846_976,
            0 < max_hp <= 1_000_000,
    ;
    law_rounding_is_close(share * max_hp);
}

/// Free to act: alive, neither busy nor pausing, and some mob lives.
pub open spec fn free_to_act(p: Player, mobs: Seq<Mob>) -> bool {
    p.alive && p.busy <= 0 && p.gcd <= 0 && exists|i: int|
        0 <= i < mobs.len() && (#[trigger] mobs[i]).alive
}

proof fn lemma_someone_lives(mobs: Seq<Mob>, i: int, from: int)
    requires
        0 <= from <= i < mobs.len(),
        mobs[i].alive,
    ensures
        first_from(live_mask(mobs), from) is Some,
        from <= first_from(live_mask(mobs), from)->0 <= i,
        mobs[first_from(live_mask(mobs), from)->0].alive,
    decreases i - from,
{
    assert(live_mask(mobs)[from] == mobs[from].alive);
    if !mobs[from].alive {
        lemma_someone_lives(mobs, i, from + 1);
    }
}

proof fn lemma_nobody_lives(mobs: Seq<Mob>, from: int)
    requires
        0 <= from,
        first_from(live_mask(mobs), from) is Some,
    ensures
        exists|i: int| 0 <= i < mobs.len() && (#[trigger] mobs[i]).alive,
    decreases mobs.len() - from,
{
    if from < mobs.len() {
        if live_mask(mobs)[from] {
            assert(mobs[from].alive);
        } else {
            lemma_nobody_lives(mobs, from + 1);
        }
    }
}

/// Nobody who is busy, pausing, dead or alone starts anything.
pub proof fn law_only_the_free_act(p: Player, mobs: Seq<Mob>)
    requires
        !free_to_act(p, mobs),
    ensures
        decided(p, mobs) == p,
{
    reveal(decided);
    if first_from(live_mask(mobs), 0) is Some {
        lemma_nobody_lives(mobs, 0);
    }
}

/// A fighter drinks in need. Free to act, with a potion that has cooled, it drinks below
/// three tenths of its health: one potion fewer, 40 points more up to full health, and none
/// for a minute. Above 35 in a hundred it never drinks, nor without a potion.
pub proof fn law_fighters_drink_in_need(p: Player, mobs: Seq<Mob>)
    requires
        free_to_act(p, mobs),
        0 < p.max_hp <= 1_000_000,
        i32::MIN < p.potions,
    ensures
        p.potions > 0 && p.cds.potion <= 0 && 1000 * p.hp < 299 * p.max_hp * ONE ==> {
            let q = decided(p, mobs);
            &&& q.potions == p.potions - 1
            &&& q.hp == lesser(sum_of(p.hp, (40 * ONE) as i128), (p.max_hp * ONE) as i128)
            &&& q.cds.potion == 60 * ONE
            &&& q.cast == p.cast
        },
        1000 * p.hp > 351 * p.max_hp * ONE || p.potions <= 0 || p.cds.potion > 0 ==> decided(
            p,
            mobs,
        ).potions == p.potions,
{
    reveal(decided);
    reveal(drunk);
    reveal(winded);
    reveal(Player::having_used);
    let i = choose|i: int| 0 <= i < mobs.len() && (#[trigger] mobs[i]).alive;
    lemma_someone_lives(mobs, i, 0);
    lemma_share_line(345_876_451_382_054_080, p.max_hp as int);
    lemma_share_line(403_522_526_612_396_416, p.max_hp as int);
    assert(units_of(40) == 40 * ONE);
    lemma_choices_keep_potions(p, mobs);
}

proof fn lemma_choices_keep_potions(p: Player, mobs: Seq<Mob>)
    ensures
        martial_choice(p, mobs).potions == p.potions,
        hunt_choice(p, mobs).potions == p.potions,
        arcane_choice(p, mobs).potions == p.potions,
        martial_choice(p, mobs).hp == p.hp,
        hunt_choice(p, mobs).hp == p.hp,
        arcane_choice(p, mobs).hp == p.hp,
{
    reveal(martial_choice);
    reveal(hunt_choice);
    reveal(arcane_choice);
    reveal(arcane_attack);
    reveal(marking);
    reveal(mending);
    reveal(warding);
    reveal(burning);
    reveal(binding);
    reveal(cast_on);
    reveal(Player::casting);
    reveal(Player::having_used);
}

/// The second wind: a Martial fighter of rank ten or more, free to act, that cannot drink
/// and has less than a quarter of its health, gets a fifth of it back, once. Nobody else
/// does.
pub proof fn law_second_wind_comes_once(p: Player, mobs: Seq<Mob>)
    requires
        free_to_act(p, mobs),
        0 < p.max_hp <= 1_000_000,
        p.potions <= 0 || p.cds.potion > 0,
    ensures
        p.stats.discipline == Discipline::Martial && p.stats.ranks.martial >= 10
            && !p.second_wind_used && 1000 * p.hp < 249 * p.max_hp * ONE ==> {
            let q = decided(p, mobs);
            &&& q.second_wind_used
            &&& q.hp == lesser(
                sum_of(p.hp, times_of(230_584_300_921_369_408, p.max_hp as int)),
                (p.max_hp * ONE) as i128,
            )
        },
        p.stats.discipline != Discipline::Martial || p.stats.ranks.martial < 10
            || p.second_wind_used || 1000 * p.hp > 251 * p.max_hp * ONE ==> decided(p, mobs).hp
            == p.hp,
{
    reveal(decided);
    reveal(winded);
    reveal(Player::having_used);
    let i = choose|i: int| 0 <= i < mobs.len() && (#[trigger] mobs[i]).alive;
    lemma_someone_lives(mobs, i, 0);
    lemma_share_line(288_230_376_151_711_744, p.max_hp as int);
    assert(crate::combat::fight::HEALTH_25 * p.max_hp == 288_230_376_151_711_744 * p.max_hp);
    lemma_choices_keep_potions(p, mobs);
}

/// The weakest of the marked mobs is marked, and none marked has less health.
pub proof fn law_weakest_has_least_health(mobs: Seq<Mob>, mask: Seq<bool>, n: nat)
    requires
        n <= mobs.len(),
        mask.len() == mobs.len(),
    ensures
        weakest_upto(mobs, mask, n) is Some ==> {
            let w = weakest_upto(mobs, mask, n)->0;
            0 <= w < n && mask[w] && forall|i: int|
                0 <= i < n && mask[i] ==> mobs[w].hp <= (#[trigger] mobs[i]).hp
        },
        weakest_upto(mobs, mask, n) is None ==> forall|i: int|
            0 <= i < n ==> !(#[trigger] mask[i]),
    decreases n,
{
    if n > 0 {
        law_weakest_has_least_health(mobs, mask, (n - 1) as nat);
    }
}

/// A hunter that is free to act and has arrows shoots at the weakest living mob: it locks
/// on it, and the cast it starts is meant for it.
pub proof fn law_hunters_shoot_the_weakest(p: Player, mobs: Seq<Mob>)
    requires
        p.stats.discipline == Discipline::Hunt,
        free_to_act(p, mobs),
        p.arrows > 0,
        p.potions <= 0,
    ensures
        ({
            let q = decided(p, mobs);
            &&& q.cast is Some
            &&& q.cast->0.target is Some
            &&& q.lock == q.cast->0.target
            &&& exists|w: int|
                0 <= w < mobs.len() && (#[trigger] mobs[w]).alive && q.lock == Some(mobs[w].idx)
                    && forall|i: int|
                    0 <= i < mobs.len() && mobs[i].alive ==> mobs[w].hp <= (#[trigger] mobs[i]).hp
            &&& q.cast->0.kind == CastKind::Aimed <==> p.stats.ranks.hunt >= 1 && p.cds.aimed <= 0
            &&& q.cast->0.kind == CastKind::Pin ==> p.stats.ranks.hunt >= 3 && p.cds.pin <= 0
            &&& q.cast->0.kind == CastKind::Aimed ==> q.busy == 2 * ONE && q.cds.aimed == 10 * ONE
            &&& q.cast->0.kind == CastKind::Pin ==> q.cds.pin == 12 * ONE
            &&& q.cast->0.kind != CastKind::Aimed ==> 119 * ONE <= 100 * q.busy <= 121 * ONE
            &&& q.cast->0.kind == CastKind::Aimed || q.cast->0.kind == CastKind::Pin
                || q.cast->0.kind == CastKind::Fire
            &&& q.arrows == p.arrows
            &&& q.mana == p.mana
        }),
{
    reveal(decided);
    reveal(hunt_choice);
    reveal(marking);
    reveal(cast_on);
    reveal(Player::casting);
    reveal(Player::having_used);
    let i = choose|i: int| 0 <= i < mobs.len() && (#[trigger] mobs[i]).alive;
    lemma_someone_lives(mobs, i, 0);
    law_weakest_has_least_health(mobs, live_mask(mobs), mobs.len());
    assert(live_mask(mobs)[i]);
    let w = weakest(mobs, live_mask(mobs))->0;
    assert(mobs[w].alive);
    assert forall|k: int| 0 <= k < mobs.len() && mobs[k].alive implies mobs[w].hp
        <= (#[trigger] mobs[k]).hp by {
        assert(live_mask(mobs)[k]);
    }
}

/// What a Martial fighter starts: against a mob that winds up a slam, from rank three on, a
/// bash of 0.4 s that is ready again after eight seconds; else, from rank one on, its next
/// swing is armed, every six seconds.
pub proof fn law_martial_fighters_bash_slams(p: Player, mobs: Seq<Mob>, i: int)
    requires
        p.stats.discipline == Discipline::Martial,
        free_to_act(p, mobs),
        p.potions <= 0,
        p.second_wind_used,
        0 <= i < mobs.len(),
    ensures
        mobs[i].alive && mobs[i].tele > 0 && p.stats.ranks.martial >= 3 && p.cds.bash <= 0 ==> {
            let q = decided(p, mobs);
            &&& q.cast is Some
            &&& q.cast->0.kind == CastKind::Bash
            &&& q.cds.bash == 8 * ONE
            &&& 39 * ONE <= 100 * q.busy <= 41 * ONE
            &&& exists|k: int|
                0 <= k < mobs.len() && (#[trigger] mobs[k]).alive && mobs[k].tele > 0
                    && q.cast->0.target == Some(mobs[k].idx)
        },
        p.stats.ranks.martial < 3 ==> decided(p, mobs).cast == p.cast,
        p.stats.ranks.martial < 3 && p.stats.ranks.martial >= 1 && p.cds.strike <= 0
            && !p.strike_armed ==> decided(p, mobs).strike_armed && decided(p, mobs).cds.strike
            == 6 * ONE,
        p.stats.ranks.martial < 1 ==> decided(p, mobs) == p,
{
    reveal(decided);
    reveal(martial_choice);
    reveal(Player::casting);
    reveal(Player::having_used);
    let j = choose|j: int| 0 <= j < mobs.len() && (#[trigger] mobs[j]).alive;
    lemma_someone_lives(mobs, j, 0);
    if mobs[i].alive && mobs[i].tele > 0 {
        lemma_someone_winds(mobs, i, 0);
    }
}

proof fn lemma_someone_winds(mobs: Seq<Mob>, i: int, from: int)
    requires
        0 <= from <= i < mobs.len(),
        mobs[i].alive,
        mobs[i].tele > 0,
    ensures
        first_from(winding_mask(mobs), from) is Some,
        from <= first_from(winding_mask(mobs), from)->0 < mobs.len(),
        mobs[first_from(winding_mask(mobs), from)->0].alive,
        mobs[first_from(winding_mask(mobs), from)->0].tele > 0,
    decreases i - from,
{
    assert(winding_mask(mobs)[from] == (mobs[from].alive && mobs[from].tele > 0));
    if !(mobs[from].alive && mobs[from].tele > 0) {
        lemma_someone_winds(mobs, i, from + 1);
    }
}

/// A caster mends itself below half its health: from rank three on, with 20 mana, it starts
/// a mend of 2.5 s before anything else.
pub proof fn law_casters_mend_when_hurt(p: Player, mobs: Seq<Mob>)
    requires
        p.stats.discipline == Discipline::Arcane,
        free_to_act(p, mobs),
        p.potions <= 0,
        0 < p.max_hp <= 1_000_000,
        p.stats.ranks.arcane >= 3,
        p.cds.mend <= 0,
        1000 * p.hp < 499 * p.max_hp * ONE,
        p.mana >= 20 * ONE,
    ensures
        decided(p, mobs).cast == Some(Cast { kind: CastKind::Mend, target: None }),
        2 * decided(p, mobs).busy == 5 * ONE,
        decided(p, mobs).mana <= greater(diff_of(p.mana, (20 * ONE) as i128), 0),
{
    reveal(decided);
    reveal(arcane_choice);
    reveal(mending);
    reveal(Player::casting);
    reveal(Player::having_used);
    let j = choose|j: int| 0 <= j < mobs.len() && (#[trigger] mobs[j]).alive;
    lemma_someone_lives(mobs, j, 0);
    lemma_share_line(576_460_752_303_423_488, p.max_hp as int);
    assert(units_of(20) == 20 * ONE);
}

/// A caster never starts a spell it has no mana for, and never has less than none.
pub proof fn law_casts_are_paid_for(
    p: Player,
    a: Ability,
    duration: i128,
    mana: int,
    kind: CastKind,
    target: Option<i32>,
)
    requires
        0 <= mana <= 1000,
        0 <= p.mana,
        rounded(p.mana as int) == p.mana,
    ensures
        p.busy > 0 || p.gcd > 0 || (mana > 0 && p.mana < mana * ONE) ==> p.casting(
            a,
            duration,
            mana,
            kind,
            target,
        ) == p,
        p.busy <= 0 && p.gcd <= 0 && p.mana >= mana * ONE ==> {
            let q = p.casting(a, duration, mana, kind, target);
            &&& q.cast == Some(Cast { kind, target })
            &&& q.busy == duration
            &&& 0 <= q.mana <= p.mana
            &&& mana == 0 ==> q.mana == p.mana
            &&& mana > 0 && diff_of(p.mana, (mana * ONE) as i128) > 1_152_921_505 ==> q.mana
                == diff_of(p.mana, (mana * ONE) as i128)
            &&& q.hp == p.hp
        },
{
    reveal(Player::casting);
    reveal(Player::having_used);
    assert(units_of(mana) == mana * ONE);
    law_sums_keep_side(p.mana, (mana * ONE) as i128);
}

proof fn lemma_numbered_at(mobs: Seq<Mob>, idx: i32, at: int, from: int)
    requires
        0 <= from <= at < mobs.len(),
        mobs[at].idx == idx,
        forall|k: int| 0 <= k < at ==> (#[trigger] mobs[k]).idx != idx,
    ensures
        numbered(mobs, idx, from) == Some(at),
    decreases at - from,
{
    if from < at {
        lemma_numbered_at(mobs, idx, at, from + 1);
    }
}

/// What a finished cast at a living mob does to it. A bash breaks its slam and stuns it for
/// at least 1.5 s, a bind roots it for four seconds within 24 m, a pin that it survives
/// slows it for four; neither a bash nor a bind wounds. A shot costs an arrow.
pub proof fn law_casts_do_their_work(p: Player, mobs: Seq<Mob>, at: int)
    requires
        0 <= at < mobs.len(),
        mobs[at].alive,
        p.cast is Some,
        p.cast->0.kind != CastKind::Mend,
        p.cast->0.target == Some(mobs[at].idx),
        forall|k: int| 0 <= k < at ==> (#[trigger] mobs[k]).idx != mobs[at].idx,
    ensures
        ({
            let out = finished(p, mobs);
            let m = out.1[at];
            let kind = p.cast->0.kind;
            &&& out.1.len() == mobs.len()
            &&& out.0.cast is None
            &&& kind == CastKind::Bash ==> m.tele == 0 && 2 * m.stun >= 3 * ONE && m.hp
                == mobs[at].hp && m.alive && out.0.arrows == p.arrows
            &&& kind == CastKind::Bind && gap_of(mobs[at].x, p.x) <= 24 * ONE ==> m.root == 4 * ONE
                && m.root_grace == ONE && m.hp == mobs[at].hp
            &&& kind == CastKind::Bind && gap_of(mobs[at].x, p.x) > 24 * ONE ==> m == mobs[at]
            &&& kind == CastKind::Pin && p.arrows > 0 && m.alive ==> m.slow == 4 * ONE
            &&& (kind == CastKind::Pin || kind == CastKind::Aimed || kind == CastKind::Fire)
                && p.arrows > 0 ==> out.0.arrows == p.arrows - 1
            &&& (kind == CastKind::Pin || kind == CastKind::Aimed || kind == CastKind::Fire)
                && p.arrows <= 0 ==> m == mobs[at] && out.0.arrows == p.arrows
            &&& kind == CastKind::Ember && gap_of(mobs[at].x, p.x) > 28 * ONE ==> m == mobs[at]
            &&& kind == CastKind::Ember ==> out.0.arrows == p.arrows
        }),
{
    reveal(finished);
    reveal(cast_lands);
    reveal(bashed);
    reveal(rooted);
    reveal(shot);
    reveal(arrow_flown);
    reveal(burnt);
    reveal(Mob::wounded);
    reveal(Player::practised);
    lemma_numbered_at(mobs, mobs[at].idx, at, 0);
}

/// What a wound does: it takes what it deals off the health and kills exactly at none left;
/// a root past its grace breaks.
pub proof fn law_wounds_take_health(m: Mob, dealt: int)
    requires
        0 <= dealt <= i32::MAX,
        0 <= m.hp,
        rounded(m.hp as int) == m.hp,
    ensures
        0 <= m.wounded(dealt).hp <= m.hp,
        dealt * ONE >= m.hp ==> m.wounded(dealt).hp == 0 && !m.wounded(dealt).alive,
        m.wounded(dealt).alive ==> m.alive && m.wounded(dealt).hp == diff_of(
            m.hp,
            (dealt * ONE) as i128,
        ),
        m.alive && !m.wounded(dealt).alive ==> m.wounded(dealt).hp == 0,
        m.root > 0 && m.root_grace <= 0 ==> m.wounded(dealt).root == 0,
        m.root_grace > 0 ==> m.wounded(dealt).root == m.root,
        m.wounded(dealt).x == m.x,
        m.wounded(dealt).stun == m.stun,
{
    reveal(Mob::wounded);
    assert(units_of(dealt) == dealt * ONE);
    law_sums_keep_side(m.hp, (dealt * ONE) as i128);
}

/// A mob strikes whom it can reach when its swing is due, and nobody else: in reach, the
/// player is struck with the mob's damage against its grit; out of reach, the swing waits.
pub proof fn law_mobs_strike_in_reach(p: Player, m: Mob)
    requires
        m.alive,
        m.stun <= 0,
        !m.has_slam,
        m.sheet.kind != MobKind::Scorpion,
        !m.enraged,
    ensures
        gap_of(m.x, p.x) > m.reach ==> mob_acts(p, m) == (p, m),
        gap_of(m.x, p.x) <= m.reach && m.auto_cd <= 115_292_150_460_684_704 ==> mob_acts(p, m).0
            == p.struck(mitigated(m.base_dmg as int, p.stats.attrs.grit as int), true)
            && mob_acts(p, m).1.auto_cd == sum_of(
            diff_of(m.auto_cd, 115_292_150_460_684_704),
            m.swing,
        ),
        gap_of(m.x, p.x) <= m.reach && diff_of(m.auto_cd, 115_292_150_460_684_704) > 0 ==> mob_acts(
            p,
            m,
        ).0 == p,
{
    reveal(slammed);
    reveal(swiped);
    reveal(bitten);
    law_rounding_is_close(m.auto_cd - 115_292_150_460_684_704);
}

/// The dead and the stunned lose their turn.
pub proof fn law_the_stunned_do_nothing(p: Player, m: Mob)
    requires
        !m.alive || m.stun > 0,
    ensures
        mob_acts(p, m) == (p, m),
{
}

/// A slam falls when its wind-up ends, on a living player in reach and on no other; while it
/// winds up nobody is hurt by it.
pub proof fn law_slams_fall_when_wound_up(p: Player, m: Mob)
    requires
        m.has_slam,
        m.tele > 0,
        !m.enraged,
    ensures
        m.tele <= 115_292_150_460_684_704 && p.alive && gap_of(m.x, p.x) <= m.reach ==> slammed(
            p,
            m,
        ).0 == p.struck(mitigated(m.slam_dmg as int, p.stats.attrs.grit as int), true),
        gap_of(m.x, p.x) > m.reach || !p.alive || diff_of(m.tele, 115_292_150_460_684_704) > 0
            ==> slammed(p, m).0 == p,
        slammed(p, m).1.tele == run_down(m.tele),
{
    reveal(slammed);
    law_rounding_is_close(m.tele - 115_292_150_460_684_704);
}

/// Mobs come closer and never run past: a living one that is free steps towards the player,
/// ends on the same side of it, and the dead, the stunned and the rooted stay.
pub proof fn law_mobs_close_in(m: Mob, x: i128)
    requires
        m.sheet.step_m >= 0,
        m.sheet.slow_step_m >= 0,
    ensures
        !m.alive || m.stun > 0 || m.root > 0 ==> closed_in(m, x) == m,
        m.x > x ==> x <= closed_in(m, x).x,
        m.x <= x ==> closed_in(m, x).x <= x,
        m.alive && m.stun <= 0 && m.root <= 0 && m.x > x && m.slow <= 0 ==> closed_in(m, x).x
            == greater(x, diff_of(m.x, m.sheet.step_m)),
        m.alive && m.stun <= 0 && m.root <= 0 && m.x > x && m.slow > 0 ==> closed_in(m, x).x
            == greater(x, diff_of(m.x, m.sheet.slow_step_m)),
        m.alive && m.stun <= 0 && m.root <= 0 && m.x <= x && m.slow <= 0 ==> closed_in(m, x).x
            == lesser(x, sum_of(m.x, m.sheet.step_m)),
        closed_in(m, x).hp == m.hp,
        closed_in(m, x).alive == m.alive,
{
    reveal(closed_in);
}

proof fn lemma_lone_distance(mobs: Seq<Mob>, mask: Seq<bool>, x: i128)
    requires
        mobs.len() == 1,
        mask.len() == 1,
        mask[0],
    ensures
        nearest_upto(mobs, mask, x, 1) == Some(gap_of(mobs[0].x, x)),
        first_from(mask, 0) == Some(0int),
{
    reveal_with_fuel(nearest_upto, 2);
}

/// The distance to the nearest marked mob is some marked mob's, and no marked mob is nearer.
pub proof fn law_nearest_is_nearest(mobs: Seq<Mob>, mask: Seq<bool>, x: i128, n: nat)
    requires
        n <= mobs.len(),
        mask.len() == mobs.len(),
    ensures
        nearest_upto(mobs, mask, x, n) is Some ==> (exists|i: int|
            0 <= i < n && mask[i] && gap_of((#[trigger] mobs[i]).x, x) == nearest_upto(
                mobs,
                mask,
                x,
                n,
            )->0) && (forall|i: int|
            0 <= i < n && mask[i] ==> nearest_upto(mobs, mask, x, n)->0 <= gap_of(
                (#[trigger] mobs[i]).x,
                x,
            )),
        nearest_upto(mobs, mask, x, n) is None ==> forall|i: int|
            0 <= i < n ==> !(#[trigger] mask[i]),
    decreases n,
{
    if n > 0 {
        law_nearest_is_nearest(mobs, mask, x, (n - 1) as nat);
        let best = nearest_upto(mobs, mask, x, (n - 1) as nat);
        let now = nearest_upto(mobs, mask, x, n);
        if best is Some {
            let i = choose|i: int|
                0 <= i < n - 1 && mask[i] && gap_of((#[trigger] mobs[i]).x, x) == best->0;
            assert(mask[i] && gap_of(mobs[i].x, x) == best->0);
        }
        if now is Some && now != best {
            assert(mask[n - 1] && gap_of(mobs[n - 1].x, x) == now->0);
        }
    }
}

/// How a fighter keeps its distance from a lone mob that is free to come on: closer than it
/// likes by more than 5 cm, it backs off, walking 0.45 m as a Martial fighter and sprinting
/// 0.7 m as any other; farther off by more than that, it walks up; in between it stands.
pub proof fn law_fighters_keep_their_distance(p: Player, m: Mob, desired: i128)
    requires
        m.alive,
        m.root <= 0,
    ensures
        ({
            let q = stepped(p, seq![m], desired);
            let d = gap_of(m.x, p.x);
            &&& d < diff_of(desired, 57_646_075_230_342_352) ==> if p.stats.discipline
                == Discipline::Martial {
                q.x == diff_of(p.x, 518_814_677_073_081_152) && q.sprinted == p.sprinted
            } else {
                q.x == diff_of(p.x, 807_045_053_224_792_960) && q.sprinted
            }
            &&& d >= diff_of(desired, 57_646_075_230_342_352) && d > sum_of(
                desired,
                57_646_075_230_342_352,
            ) ==> q.x == sum_of(p.x, 518_814_677_073_081_152)
            &&& d >= diff_of(desired, 57_646_075_230_342_352) && d <= sum_of(
                desired,
                57_646_075_230_342_352,
            ) ==> q == p
            &&& q.hp == p.hp
        }),
{
    reveal(stepped);
    let mobs = seq![m];
    let chasing = loose_mask(mobs);
    assert(chasing[0]);
    lemma_lone_distance(mobs, chasing, p.x);
}

/// A finished mend heals: never past full health, never downwards, by at least 25 points
/// where there is room, and nobody else is hurt or healed by it.
pub proof fn law_mending_heals(p: Player, mobs: Seq<Mob>, i: int)
    requires
        p.cast == Some(Cast { kind: CastKind::Mend, target: None }),
        0 <= p.hp <= p.max_hp * ONE,
        rounded(p.hp as int) == p.hp,
        0 <= i < mobs.len(),
        p.stats.attrs.will >= 0,
    ensures
        ({
            let out = finished(p, mobs);
            &&& p.hp <= out.0.hp <= p.max_hp * ONE
            &&& out.0.hp == p.max_hp * ONE || out.0.hp >= sum_of(p.hp, (25 * ONE) as i128)
            &&& out.1[i].hp == mobs[i].hp && out.1[i].alive == mobs[i].alive
            &&& out.0.mana == p.mana
        }),
{
    reveal(finished);
    reveal(cast_lands);
    reveal(healed);
    let heal = mend_heal(p.stats.attrs.will as int, p.stats.ranks.arcane as int);
    let (will, arcane) = (p.stats.attrs.will as int, p.stats.ranks.arcane as int);
    law_mends_and_wards_grow(will, arcane, will, arcane);
    if p.lock is Some {
        lemma_first(lock_mask(mobs, p.lock->0), 0);
    }
    assert(units_of(heal) == heal * ONE);
    assert(units_of(p.max_hp as int) == p.max_hp * ONE);
    law_sums_keep_side(p.hp, (heal * ONE) as i128);
    law_sums_grow(p.hp as int, 25 * ONE as int, heal * ONE);
}

} // verus!
