//! What the verbs of live combat are for: when a press takes hold, what it costs, how long it
//! keeps the player busy, and what its cast does to the hostile it goes to.

use crate::combat::formula_laws::law_shares_are_close;
use crate::combat::math::mitigated;
use crate::combat::number::{
    diff_of, law_rounding_is_close, law_rounding_keeps_order, law_sums_keep_side, rounded, sum_of,
    times_of, ONE,
};
use crate::combat::player_actions::FailTell;
use crate::combat::verb_effects::{VerbPlayer, VerbTarget};
use crate::combat::verbs::{
    cast_effect, run_down, verb_pressed, CastEffect, CastFacts, CombatVerb, VerbCast, VerbFacts,
    VerbPress, VerbTimers,
};
use crate::rounding::{law_grains_stay, DOUBLE};
use vstd::prelude::*;

verus! {

/// Whether a press takes hold: it is neither held back nor fails.
pub open spec fn takes_hold(press: VerbPress) -> bool {
    !(press is RankBlocked) && !(press is Ignored) && !(press is Failed)
}

/// Whether a verb is one that goes to the locked hostile.
pub open spec fn needs_lock(verb: CombatVerb) -> bool {
    verb == CombatVerb::Strike || verb == CombatVerb::Bash || verb == CombatVerb::AimedShot || verb
        == CombatVerb::Pin || verb == CombatVerb::Ember || verb == CombatVerb::Bind
}

/// A press takes hold only for a player whose ranks allow it, who is not cooling down from
/// the verb, and who is free unless it is a potion. It takes the mana, arrows and potions
/// that the verb needs, and a living hostile within reach where it goes to one.
pub proof fn law_presses_need_their_means(verb: CombatVerb, f: VerbFacts)
    requires
        takes_hold(verb_pressed(verb, f)),
    ensures
        f.rank_ok,
        !f.cooling,
        verb != CombatVerb::Potion ==> !f.casting && !f.pausing,
        verb == CombatVerb::Ember ==> f.mana >= 3 * ONE,
        verb == CombatVerb::Bind ==> f.mana >= 16 * ONE,
        verb == CombatVerb::Mend ==> f.mana >= 20 * ONE,
        verb == CombatVerb::Ward ==> f.mana >= 18 * ONE,
        verb == CombatVerb::AimedShot || verb == CombatVerb::Pin ==> f.arrows >= 1,
        verb == CombatVerb::Potion ==> f.potions >= 1,
        verb == CombatVerb::SecondWind ==> !f.second_wind_used,
        needs_lock(verb) ==> f.lock is Some && f.lock_alive && f.in_reach,
{
}

/// A press with all its means takes hold, as the verb it is: what goes to a hostile goes to
/// the locked one.
pub proof fn law_presses_with_their_means_take_hold(verb: CombatVerb, f: VerbFacts, idx: i32)
    requires
        f.rank_ok,
        !f.casting,
        !f.pausing,
        !f.cooling,
        f.mana >= 20 * ONE,
        f.arrows >= 1,
        f.potions >= 1,
        !f.second_wind_used,
        f.lock == Some(idx),
        f.lock_alive,
        f.in_reach,
    ensures
        ({
            let press = verb_pressed(verb, f);
            &&& takes_hold(press)
            &&& verb == CombatVerb::Strike <==> press is Arm
            &&& verb == CombatVerb::Ward <==> press is Ward
            &&& verb == CombatVerb::Mark <==> press is Mark
            &&& verb == CombatVerb::SecondWind <==> press is SecondWind
            &&& verb == CombatVerb::Potion <==> press is Drink
            &&& verb == CombatVerb::Bash <==> press is Cast && press->kind == VerbCast::Bash
            &&& verb == CombatVerb::AimedShot <==> press is Cast && press->kind == VerbCast::Aimed
            &&& verb == CombatVerb::Pin <==> press is Cast && press->kind == VerbCast::Pin
            &&& verb == CombatVerb::Ember <==> press is Cast && press->kind == VerbCast::Ember
            &&& verb == CombatVerb::Bind <==> press is Cast && press->kind == VerbCast::Bind
            &&& verb == CombatVerb::Mend <==> press is Cast && press->kind == VerbCast::Mend
            &&& press is Cast && verb != CombatVerb::Mend ==> press->target == Some(idx)
            &&& verb == CombatVerb::Mend ==> press->target is None
        }),
{
}

/// A press fails aloud only at its lock: there is no living hostile, or it is too far off.
pub proof fn law_presses_fail_at_the_lock(verb: CombatVerb, f: VerbFacts)
    requires
        verb_pressed(verb, f) is Failed,
    ensures
        needs_lock(verb),
        f.lock is None || !f.lock_alive ==> verb_pressed(verb, f) == VerbPress::Failed(
            FailTell::NoTarget,
        ),
        f.lock is Some && f.lock_alive ==> !f.in_reach && verb_pressed(verb, f)
            == VerbPress::Failed(FailTell::OutOfRange),
{
}

/// A press that takes hold is paid for: ember costs three mana, bind sixteen, mend twenty
/// and ward eighteen, a potion is one potion, and nothing else costs anything.
pub proof fn law_presses_are_paid_for(p: VerbPlayer, verb: CombatVerb, f: VerbFacts)
    requires
        takes_hold(verb_pressed(verb, f)),
        p.potions == f.potions,
    ensures
        ({
            let q = p.after(verb_pressed(verb, f));
            &&& q.mana == match verb {
                CombatVerb::Ember => diff_of(p.mana, (3 * ONE) as i128),
                CombatVerb::Bind => diff_of(p.mana, (16 * ONE) as i128),
                CombatVerb::Mend => diff_of(p.mana, (20 * ONE) as i128),
                CombatVerb::Ward => diff_of(p.mana, (18 * ONE) as i128),
                _ => p.mana,
            }
            &&& q.potions == if verb == CombatVerb::Potion {
                p.potions - 1
            } else {
                p.potions as int
            }
            &&& q.arrows == p.arrows
            &&& q.lock == p.lock
            &&& q.second_wind_used == (p.second_wind_used || verb == CombatVerb::SecondWind)
            &&& verb != CombatVerb::SecondWind && verb != CombatVerb::Potion ==> q.hp == p.hp
        }),
{
}

/// A verb that took hold cools down, and no other does: six seconds for a strike, eight for
/// a bash, ten for an aimed shot, twelve for a pin and a bind, sixteen for a ward, twenty for
/// a mark and sixty for a potion.
pub proof fn law_presses_cool_down(p: VerbPlayer, verb: CombatVerb, f: VerbFacts)
    requires
        takes_hold(verb_pressed(verb, f)),
    ensures
        ({
            let was = p.timers.cds;
            let cds = p.after(verb_pressed(verb, f)).timers.cds;
            &&& cds.strike == if verb == CombatVerb::Strike { 6 * ONE } else { was.strike as int }
            &&& cds.bash == if verb == CombatVerb::Bash { 8 * ONE } else { was.bash as int }
            &&& cds.aimed == if verb == CombatVerb::AimedShot { 10 * ONE } else { was.aimed as int }
            &&& cds.pin == if verb == CombatVerb::Pin { 12 * ONE } else { was.pin as int }
            &&& cds.bind == if verb == CombatVerb::Bind { 12 * ONE } else { was.bind as int }
            &&& cds.ward == if verb == CombatVerb::Ward { 16 * ONE } else { was.ward as int }
            &&& cds.mark == if verb == CombatVerb::Mark { 20 * ONE } else { was.mark as int }
            &&& cds.potion == if verb == CombatVerb::Potion { 60 * ONE } else { was.potion as int }
            &&& verb != CombatVerb::Ember ==> cds.ember == was.ember
            &&& verb != CombatVerb::Mend ==> cds.mend == was.mend
            &&& verb == CombatVerb::Ember ==> cds.ember == 0
            &&& verb == CombatVerb::Mend ==> cds.mend == 0
        }),
{
}

/// A cast that began keeps the player busy for its time: a bash four tenths of a second, a
/// pin and an ember six fifths, a bind one and a half, an aimed shot two, a mend two and a
/// half. Ward and mark stand at once, for eight and twelve seconds.
pub proof fn law_casts_take_their_time(p: VerbPlayer, verb: CombatVerb, f: VerbFacts)
    requires
        takes_hold(verb_pressed(verb, f)),
    ensures
        ({
            let t = p.after(verb_pressed(verb, f)).timers;
            &&& t.cast is Some && p.timers.cast is None ==> t.busy_s == t.cast_s
            &&& verb == CombatVerb::Bash ==> t.cast == Some(VerbCast::Bash) && t.cast_s
                == 461_168_601_842_738_816
            &&& verb == CombatVerb::AimedShot ==> t.cast == Some(VerbCast::Aimed) && t.cast_s == 2
                * ONE
            &&& verb == CombatVerb::Pin ==> t.cast == Some(VerbCast::Pin) && t.cast_s
                == 1_383_505_805_528_216_320
            &&& verb == CombatVerb::Ember ==> t.cast == Some(VerbCast::Ember) && t.cast_s
                == 1_383_505_805_528_216_320
            &&& verb == CombatVerb::Bind ==> t.cast == Some(VerbCast::Bind) && 2 * t.cast_s == 3
                * ONE
            &&& verb == CombatVerb::Mend ==> t.cast == Some(VerbCast::Mend) && 2 * t.cast_s == 5
                * ONE
            &&& verb == CombatVerb::Ward ==> t.ward_s == 8 * ONE && t.gcd_s == ONE
            &&& verb != CombatVerb::Ward ==> t.ward_s == p.timers.ward_s && t.ward == p.timers.ward
                && t.gcd_s == p.timers.gcd_s
            &&& verb == CombatVerb::Mark ==> t.mark_s == 12 * ONE
            &&& verb != CombatVerb::Mark ==> t.mark_s == p.timers.mark_s
            &&& verb == CombatVerb::Strike || verb == CombatVerb::Ward || verb == CombatVerb::Mark
                || verb == CombatVerb::SecondWind || verb == CombatVerb::Potion ==> t.cast
                == p.timers.cast && t.cast_s == p.timers.cast_s && t.busy_s == p.timers.busy_s
        }),
{
}

/// A cast is done once its time has passed and not before, and leaves the player free.
pub proof fn law_casts_end_in_time(t: VerbTimers, dt: i128)
    requires
        dt > 0,
        t.cast is Some,
    ensures
        t.cast_s <= dt ==> t.cast_done(dt) && t.later(dt).cast is None && t.later(dt).busy_s == 0,
        t.cast_s > dt && t.cast_s <= 1000 * ONE ==> !t.cast_done(dt) && t.later(dt).cast == t.cast,
{
    law_rounding_is_close(t.cast_s - dt);
}

/// A ward holds nothing once its time has passed; while time is left it holds what it held.
pub proof fn law_wards_run_out(t: VerbTimers, dt: i128)
    requires
        dt > 0,
        t.ward_s > 0,
    ensures
        t.ward_s <= dt ==> t.later(dt).ward == 0 && t.later(dt).ward_s == 0,
        t.ward_s > dt && t.ward_s <= 1000 * ONE ==> t.later(dt).ward == t.ward && t.later(dt).ward_s
            > 0,
{
    law_rounding_is_close(t.ward_s - dt);
}

/// Every cooldown, the pause between verbs and the mark are over once their time has passed.
pub proof fn law_later_is_no_longer(t: VerbTimers, dt: i128)
    requires
        dt > 0,
    ensures
        t.cds.strike <= dt ==> t.later(dt).cds.strike == 0,
        t.cds.bash <= dt ==> t.later(dt).cds.bash == 0,
        t.cds.aimed <= dt ==> t.later(dt).cds.aimed == 0,
        t.cds.pin <= dt ==> t.later(dt).cds.pin == 0,
        t.cds.ember <= dt ==> t.later(dt).cds.ember == 0,
        t.cds.mend <= dt ==> t.later(dt).cds.mend == 0,
        t.cds.bind <= dt ==> t.later(dt).cds.bind == 0,
        t.cds.ward <= dt ==> t.later(dt).cds.ward == 0,
        t.cds.potion <= dt ==> t.later(dt).cds.potion == 0,
        t.cds.mark <= dt ==> t.later(dt).cds.mark == 0,
        t.gcd_s <= dt ==> t.later(dt).gcd_s == 0,
        0 < t.mark_s <= dt ==> t.later(dt).mark_s == 0,
{
    law_rounding_is_close(t.cds.strike - dt);
    law_rounding_is_close(t.cds.bash - dt);
    law_rounding_is_close(t.cds.aimed - dt);
    law_rounding_is_close(t.cds.pin - dt);
    law_rounding_is_close(t.cds.ember - dt);
    law_rounding_is_close(t.cds.mend - dt);
    law_rounding_is_close(t.cds.bind - dt);
    law_rounding_is_close(t.cds.ward - dt);
    law_rounding_is_close(t.cds.potion - dt);
    law_rounding_is_close(t.cds.mark - dt);
    law_rounding_is_close(t.gcd_s - dt);
    law_rounding_is_close(t.mark_s - dt);
}

/// A done cast does nothing to the dead, and nothing without a hostile to go to; only a mend
/// needs none. Ember and bind reach only what is in range; a shot takes an arrow.
pub proof fn law_done_casts_need_their_hostile(kind: VerbCast, f: CastFacts)
    ensures
        kind == VerbCast::Mend <==> cast_effect(kind, f) is Heal,
        kind != VerbCast::Mend && (f.target is None && f.lock is None || !f.alive) ==> cast_effect(
            kind,
            f,
        ) is Nothing,
        (kind == VerbCast::Ember || kind == VerbCast::Bind) && !f.in_range ==> cast_effect(
            kind,
            f,
        ) is Nothing,
        (kind == VerbCast::Aimed || kind == VerbCast::Pin) && f.arrows <= 0 ==> cast_effect(
            kind,
            f,
        ) is Nothing,
{
}

/// A done cast with a living hostile in range goes to the one it was aimed at, and to the
/// locked one where it was aimed at none.
pub proof fn law_done_casts_go_where_aimed(kind: VerbCast, f: CastFacts, idx: i32)
    requires
        f.alive,
        f.in_range,
        f.arrows > 0,
        f.target == Some(idx) || (f.target is None && f.lock == Some(idx)),
    ensures
        kind == VerbCast::Bash ==> cast_effect(kind, f) == CastEffect::Stun(idx),
        kind == VerbCast::Bind ==> cast_effect(kind, f) == CastEffect::Root(idx),
        kind == VerbCast::Ember ==> cast_effect(kind, f) == CastEffect::Burn(idx),
        kind == VerbCast::Aimed ==> cast_effect(kind, f) == (CastEffect::Shoot {
            idx,
            aimed: true,
            slows: false,
        }),
        kind == VerbCast::Pin ==> cast_effect(kind, f) == (CastEffect::Shoot {
            idx,
            aimed: false,
            slows: true,
        }),
{
}

/// What a done cast does: a bash stuns for a second and a half at least, a bind roots for
/// four seconds and a pin slows for four. Shots and embers touch nothing but health and, for
/// a pin, the slowing; nothing but a mend heals the player; only a shot spends an arrow.
pub proof fn law_done_casts_do_their_work(
    p: VerbPlayer,
    effect: CastEffect,
    h: VerbTarget,
    distance: i128,
)
    requires
        effect is Shoot ==> p.arrows > 0,
    ensures
        ({
            let out = p.after_cast(effect, h, distance);
            let (q, g) = (out.0, out.1);
            &&& q.cast_target is None
            &&& q.mana == p.mana
            &&& q.potions == p.potions
            &&& q.timers == p.timers
            &&& q.arrows == if effect is Shoot {
                p.arrows - 1
            } else {
                p.arrows as int
            }
            &&& effect is Heal || q.hp == p.hp
            &&& g.armor == h.armor
            &&& effect is Shoot || effect is Burn || (g.hp == h.hp && g.alive == h.alive)
            &&& effect is Stun ==> 2 * g.holds.stun_s >= 3 * ONE && g.holds.stun_s
                >= h.holds.stun_s && (2 * h.holds.stun_s <= 3 * ONE ==> 2 * g.holds.stun_s == 3
                * ONE)
            &&& !(effect is Stun) ==> g.holds.stun_s == h.holds.stun_s
            &&& g.holds.root_s == if effect is Root {
                4 * ONE
            } else {
                h.holds.root_s as int
            }
            &&& g.holds.slow_s == if effect is Shoot && effect->slows {
                4 * ONE
            } else {
                h.holds.slow_s as int
            }
            &&& q.used_pin_or_bind == (p.used_pin_or_bind || effect is Root || (effect is Shoot
                && effect->slows))
        }),
{
}

/// Every hold of a hostile ends in its own time, and time that has not passed ends nothing.
pub proof fn law_holds_end_in_time(left: i128, dt: i128)
    requires
        dt > 0,
        0 <= left <= 1000 * ONE,
    ensures
        run_down(left, dt) == 0 <==> left <= dt,
{
    law_rounding_is_close(left - dt);
}

/// A shaken player strikes with nine tenths of a blow, give or take a point; one with a mark
/// up strikes with twenty-three twentieths of it.
pub proof fn law_shaken_soften_and_marks_sharpen(p: VerbPlayer, raw: int)
    requires
        0 <= raw <= 1_000_000_000,
    ensures
        !p.shaken && p.timers.mark_s <= 0 ==> p.outgoing(raw) == raw,
        p.shaken && p.timers.mark_s <= 0 ==> 9 * raw - 10 <= 10 * p.outgoing(raw) <= 9 * raw,
        !p.shaken && p.timers.mark_s > 0 ==> 23 * raw - 20 <= 20 * p.outgoing(raw) <= 23 * raw,
{
    law_shares_are_close(1_037_629_354_146_162_304, raw);
    law_shares_are_close(1_325_859_730_297_873_920, raw);
}

/// A hit takes what passes the armor, never gives health back, and kills where nothing is
/// left; a stronger blow leaves no more.
pub proof fn law_hits_take_health(p: VerbPlayer, h: VerbTarget, raw: int, dealt: int)
    requires
        0 <= h.hp,
        rounded(h.hp as int) == h.hp,
        h.alive,
        dealt == mitigated(p.outgoing(raw), h.armor as int),
        0 <= dealt <= i32::MAX,
    ensures
        0 <= p.hurt_by(h, raw).hp <= h.hp,
        dealt * ONE >= h.hp ==> !p.hurt_by(h, raw).alive && p.hurt_by(h, raw).hp == 0,
        p.hurt_by(h, raw).alive ==> p.hurt_by(h, raw).hp == diff_of(
            h.hp,
            (dealt * ONE) as i128,
        ) && p.hurt_by(h, raw).hp > 0,
        p.hurt_by(h, raw).holds == h.holds,
{
    law_sums_keep_side(h.hp, (dealt * ONE) as i128);
}

/// A potion closes wounds by forty points and a second wind by a fifth of full health, each
/// up to full health and no further; neither opens one.
pub proof fn law_remedies_heal(p: VerbPlayer)
    requires
        0 <= p.hp <= p.hp_max * ONE,
        0 <= p.hp_max <= 1_000_000,
        p.potions > 0,
        rounded(p.hp as int) == p.hp,
    ensures
        ({
            let drunk = p.after(VerbPress::Drink);
            let winded = p.after(VerbPress::SecondWind);
            &&& p.hp <= drunk.hp <= p.hp_max * ONE
            &&& drunk.hp == p.hp_max * ONE || drunk.hp == sum_of(p.hp, (40 * ONE) as i128)
            &&& p.hp + 40 * ONE >= p.hp_max * ONE ==> drunk.hp == p.hp_max * ONE
            &&& p.hp <= winded.hp <= p.hp_max * ONE
            &&& winded.hp == p.hp_max * ONE || 5 * winded.hp <= 5 * p.hp + p.hp_max * ONE + ONE
            &&& winded.hp == p.hp_max * ONE || 5 * winded.hp >= 5 * p.hp + p.hp_max * ONE - ONE
        }),
{
    let full = p.hp_max as int;
    let wind = times_of(230_584_300_921_369_408, full);
    vstd::arithmetic::power2::lemma2_to64();
    vstd::arithmetic::power2::lemma2_to64_rest();
    law_grains_stay(full, 60, DOUBLE as int);
    law_rounding_is_close(230_584_300_921_369_408 * full);
    law_sums_keep_side(p.hp, (40 * ONE) as i128);
    law_sums_keep_side(p.hp, wind);
    law_rounding_is_close(p.hp + 40 * ONE);
    law_rounding_is_close(p.hp + wind);
    if p.hp + 40 * ONE >= full * ONE {
        law_rounding_keeps_order(full * ONE, p.hp + 40 * ONE);
    }
}

} // verus!
