//! What a pressed verb and a done cast do to the player and to whom they go to.

use crate::combat::fighters::{share_of, take_share, Cooldowns};
use crate::combat::log::{last_of, CombatLog, CAP};
use crate::combat::math::{
    as_small, bow_damage, ember_damage, mend_heal, mitigated, mitigation, ward_absorb,
    BASH_STUN_S, BIND_ROOT_S, MARK_DUR_S, MARK_MULT, PIN_DUR_S, POTION_HEAL, SECOND_WIND_PCT,
    SHAKEN_DMG, WARD_DUR_S, WARD_GCD_S,
};
use crate::combat::number::{
    diff_of, greater, least, lesser, minus, most, plus, sum_of, times, times_of, units, units_of,
    whole, whole_of,
};
use crate::combat::player_actions::{fail_text, FailBoard, FAIL_TELL_S};
use crate::combat::sheets::PlayerStats;
use crate::combat::verbs::{
    cast_duration_s, cd_max, cooldown_of, duration_of, CastEffect, CombatVerb, HoldTimers,
    VerbCast, VerbPress, VerbTimers,
};
use vstd::prelude::*;

verus! {

/// The player as verbs see it.
#[derive(Clone, Copy, Debug, PartialEq, Eq, Structural)]
pub struct VerbPlayer {
    pub stats: PlayerStats,
    pub timers: VerbTimers,
    pub hp: i128,
    pub hp_max: i32,
    pub mana: i128,
    pub arrows: i32,
    pub potions: i32,
    pub shaken: bool,
    pub strike_armed: bool,
    pub ember_started: bool,
    pub second_wind_used: bool,
    pub used_pin_or_bind: bool,
    pub cast_target: Option<i32>,
    pub lock: Option<i32>,
    pub fails: FailBoard,
    pub last_potion_heal: i32,
}

/// The hostile that a done cast goes to.
#[derive(Clone, Copy, Debug, PartialEq, Eq, Structural)]
pub struct VerbTarget {
    pub hp: i128,
    pub armor: i32,
    pub alive: bool,
    pub holds: HoldTimers,
}

/// The verb whose cast it is.
pub open spec fn verb_of(kind: VerbCast) -> CombatVerb {
    match kind {
        VerbCast::Bash => CombatVerb::Bash,
        VerbCast::Aimed => CombatVerb::AimedShot,
        VerbCast::Pin => CombatVerb::Pin,
        VerbCast::Ember => CombatVerb::Ember,
        VerbCast::Bind => CombatVerb::Bind,
        VerbCast::Mend => CombatVerb::Mend,
    }
}

/// The cooldowns once a cast of that kind began.
pub open spec fn cds_casting(c: Cooldowns, kind: VerbCast) -> Cooldowns {
    let cd = cooldown_of(verb_of(kind));
    match kind {
        VerbCast::Bash => Cooldowns { bash: cd, ..c },
        VerbCast::Aimed => Cooldowns { aimed: cd, ..c },
        VerbCast::Pin => Cooldowns { pin: cd, ..c },
        VerbCast::Ember => Cooldowns { ember: cd, ..c },
        VerbCast::Bind => Cooldowns { bind: cd, ..c },
        VerbCast::Mend => Cooldowns { mend: cd, ..c },
    }
}

fn start_cooldown(c: Cooldowns, kind: VerbCast) -> (r: Cooldowns)
    ensures
        r == cds_casting(c, kind),
{
    match kind {
        VerbCast::Bash => Cooldowns { bash: cd_max(CombatVerb::Bash), ..c },
        VerbCast::Aimed => Cooldowns { aimed: cd_max(CombatVerb::AimedShot), ..c },
        VerbCast::Pin => Cooldowns { pin: cd_max(CombatVerb::Pin), ..c },
        VerbCast::Ember => Cooldowns { ember: cd_max(CombatVerb::Ember), ..c },
        VerbCast::Bind => Cooldowns { bind: cd_max(CombatVerb::Bind), ..c },
        VerbCast::Mend => Cooldowns { mend: cd_max(CombatVerb::Mend), ..c },
    }
}

impl VerbPlayer {
    /// The health after being healed: never above the most there can be.
    pub open spec fn healed_to(self, heal: i128) -> i128 {
        lesser(units_of(self.hp_max as int), sum_of(self.hp, heal))
    }

    fn heal_to(&self, heal: i128) -> (r: i128)
        ensures
            r == self.healed_to(heal),
    {
        least(units(self.hp_max), plus(self.hp, heal))
    }

    /// What is left of mana after a cost.
    pub open spec fn mana_after(self, cost: i32) -> i128 {
        if cost > 0 {
            diff_of(self.mana, units_of(cost as int))
        } else {
            self.mana
        }
    }

    fn pay(&self, cost: i32) -> (r: i128)
        ensures
            r == self.mana_after(cost),
    {
        if cost > 0 {
            minus(self.mana, units(cost))
        } else {
            self.mana
        }
    }

    /// What a blow comes to before armor: less while shaken, more while a mark lasts.
    pub open spec fn outgoing(self, raw: int) -> int {
        let shaken = if self.shaken {
            share_of(SHAKEN_DMG, raw)
        } else {
            raw
        };
        if self.timers.mark_s > 0 {
            share_of(MARK_MULT, shaken)
        } else {
            shaken
        }
    }

    fn outgoing_raw(&self, raw: i32) -> (r: i32)
        ensures
            r == self.outgoing(raw as int),
    {
        let mut blow: i32 = raw;
        if self.shaken {
            blow = take_share(SHAKEN_DMG, blow);
        }
        if self.timers.mark_s > 0 {
            blow = take_share(MARK_MULT, blow);
        }
        blow
    }

    /// The player after a press was carried out. Mana is spent, the cooldown starts, a
    /// cast begins, a ward or a mark stands, wounds close; a press that came to nothing
    /// changes nothing, and one that failed says why.
    pub open spec fn after(self, press: VerbPress) -> VerbPlayer {
        match press {
            VerbPress::RankBlocked => self,
            VerbPress::Ignored => self,
            VerbPress::Failed(tell) => VerbPlayer {
                fails: FailBoard { tell: Some(tell), left_s: FAIL_TELL_S },
                ..self
            },
            VerbPress::Arm => VerbPlayer {
                strike_armed: true,
                timers: VerbTimers {
                    cds: Cooldowns {
                        strike: cooldown_of(CombatVerb::Strike),
                        ..self.timers.cds
                    },
                    ..self.timers
                },
                ..self
            },
            VerbPress::Cast { kind, target, mana } => VerbPlayer {
                mana: self.mana_after(mana),
                cast_target: target,
                ember_started: self.ember_started || kind == VerbCast::Ember,
                timers: VerbTimers {
                    cds: cds_casting(self.timers.cds, kind),
                    cast: Some(kind),
                    cast_s: duration_of(kind),
                    busy_s: duration_of(kind),
                    ..self.timers
                },
                ..self
            },
            VerbPress::Ward { mana } => VerbPlayer {
                mana: self.mana_after(mana),
                timers: VerbTimers {
                    cds: Cooldowns { ward: cooldown_of(CombatVerb::Ward), ..self.timers.cds },
                    ward: units_of(
                        ward_absorb(self.stats.attrs.will as int, self.stats.ranks.arcane as int),
                    ),
                    ward_s: WARD_DUR_S,
                    gcd_s: WARD_GCD_S,
                    ..self.timers
                },
                ..self
            },
            VerbPress::Mark => VerbPlayer {
                timers: VerbTimers {
                    cds: Cooldowns { mark: cooldown_of(CombatVerb::Mark), ..self.timers.cds },
                    mark_s: MARK_DUR_S,
                    ..self.timers
                },
                ..self
            },
            VerbPress::SecondWind => VerbPlayer {
                hp: self.healed_to(times_of(SECOND_WIND_PCT, self.hp_max as int)),
                second_wind_used: true,
                ..self
            },
            VerbPress::Drink => {
                let hp = self.healed_to(units_of(POTION_HEAL as int));
                VerbPlayer {
                    hp,
                    potions: (self.potions - 1) as i32,
                    last_potion_heal: as_small(whole_of(diff_of(hp, self.hp))) as i32,
                    timers: VerbTimers {
                        cds: Cooldowns {
                            potion: cooldown_of(CombatVerb::Potion),
                            ..self.timers.cds
                        },
                        ..self.timers
                    },
                    ..self
                }
            },
        }
    }

    /// Carries a press out; one that failed is written to the log. A potion is only drunk
    /// where there is one.
    pub fn carry_out(&mut self, press: VerbPress, log: &mut CombatLog)
        requires
            press is Drink ==> old(self).potions > 0,
            old(log).wf(),
        ensures
            *final(self) == old(self).after(press),
            final(log).wf(),
            final(log)@ == match press {
                VerbPress::Failed(tell) => last_of(old(log)@.push(fail_text(tell)), CAP as int),
                _ => old(log)@,
            },
    {
        let was: VerbPlayer = *self;
        let timers: VerbTimers = was.timers;
        match press {
            VerbPress::RankBlocked => {},
            VerbPress::Ignored => {},
            VerbPress::Failed(tell) => {
                let mut fails: FailBoard = was.fails;
                fails.note_fail(log, tell);
                *self = VerbPlayer { fails, ..was };
            },
            VerbPress::Arm => {
                let cds: Cooldowns = Cooldowns { strike: cd_max(CombatVerb::Strike), ..timers.cds };
                *self = VerbPlayer {
                    strike_armed: true,
                    timers: VerbTimers { cds, ..timers },
                    ..was
                };
            },
            VerbPress::Cast { kind, target, mana } => {
                let time: i128 = cast_duration_s(kind);
                *self = VerbPlayer {
                    mana: was.pay(mana),
                    cast_target: target,
                    ember_started: was.ember_started || kind == VerbCast::Ember,
                    timers: VerbTimers {
                        cds: start_cooldown(timers.cds, kind),
                        cast: Some(kind),
                        cast_s: time,
                        busy_s: time,
                        ..timers
                    },
                    ..was
                };
            },
            VerbPress::Ward { mana } => {
                let cds: Cooldowns = Cooldowns { ward: cd_max(CombatVerb::Ward), ..timers.cds };
                *self = VerbPlayer {
                    mana: was.pay(mana),
                    timers: VerbTimers {
                        cds,
                        ward: units(was.stats.ward()),
                        ward_s: WARD_DUR_S,
                        gcd_s: WARD_GCD_S,
                        ..timers
                    },
                    ..was
                };
            },
            VerbPress::Mark => {
                let cds: Cooldowns = Cooldowns { mark: cd_max(CombatVerb::Mark), ..timers.cds };
                *self = VerbPlayer {
                    timers: VerbTimers { cds, mark_s: MARK_DUR_S, ..timers },
                    ..was
                };
            },
            VerbPress::SecondWind => {
                *self = VerbPlayer {
                    hp: was.heal_to(times(SECOND_WIND_PCT, was.hp_max)),
                    second_wind_used: true,
                    ..was
                };
            },
            VerbPress::Drink => {
                let hp: i128 = was.heal_to(units(POTION_HEAL));
                let cds: Cooldowns = Cooldowns { potion: cd_max(CombatVerb::Potion), ..timers.cds };
                *self = VerbPlayer {
                    hp,
                    potions: was.potions - 1,
                    last_potion_heal: small_part(minus(hp, was.hp)),
                    timers: VerbTimers { cds, ..timers },
                    ..was
                };
            },
        }
    }

    /// A hostile after a raw blow of the player's.
    pub open spec fn hurt_by(self, h: VerbTarget, raw: int) -> VerbTarget {
        let hp = diff_of(h.hp, units_of(mitigated(self.outgoing(raw), h.armor as int)));
        if hp <= 0 {
            VerbTarget { hp: 0, alive: false, ..h }
        } else {
            VerbTarget { hp, ..h }
        }
    }

    fn hurt(&self, h: VerbTarget, raw: i32) -> (r: VerbTarget)
        ensures
            r == self.hurt_by(h, raw as int),
    {
        let dealt: i32 = mitigation(units(self.outgoing_raw(raw)), h.armor);
        let hp: i128 = minus(h.hp, units(dealt));
        if hp <= 0 {
            VerbTarget { hp: 0, alive: false, ..h }
        } else {
            VerbTarget { hp, ..h }
        }
    }

    /// The player without the lock on what has just died.
    pub open spec fn lock_released(self, idx: i32, alive: bool) -> VerbPlayer {
        if !alive && self.lock == Some(idx) {
            VerbPlayer { lock: None, ..self }
        } else {
            self
        }
    }

    fn release_lock(&mut self, idx: i32, alive: bool)
        ensures
            *final(self) == old(self).lock_released(idx, alive),
    {
        match self.lock {
            Some(locked) => {
                if !alive && locked == idx {
                    self.lock = None;
                }
            },
            None => {},
        }
    }

    /// The player and the hostile after a done cast did what it does. An arrow leaves the
    /// quiver; what is hit loses health after its armor, and dies at nothing left.
    pub open spec fn after_cast(
        self,
        effect: CastEffect,
        h: VerbTarget,
        distance: i128,
    ) -> (VerbPlayer, VerbTarget) {
        let p = VerbPlayer { cast_target: None, ..self };
        match effect {
            CastEffect::Nothing => (p, h),
            CastEffect::Stun(_) => (
                p,
                VerbTarget {
                    holds: HoldTimers { stun_s: greater(h.holds.stun_s, BASH_STUN_S), ..h.holds },
                    ..h
                },
            ),
            CastEffect::Heal => (
                VerbPlayer {
                    hp: self.healed_to(
                        units_of(
                            mend_heal(self.stats.attrs.will as int, self.stats.ranks.arcane as int),
                        ),
                    ),
                    ..p
                },
                h,
            ),
            CastEffect::Root(_) => (
                VerbPlayer { used_pin_or_bind: true, ..p },
                VerbTarget { holds: HoldTimers { root_s: BIND_ROOT_S, ..h.holds }, ..h },
            ),
            CastEffect::Shoot { idx, aimed, slows } => {
                let hit = self.hurt_by(
                    h,
                    bow_damage(
                        self.stats.attrs.swift as int,
                        self.stats.weapon_skill as int,
                        self.stats.ranks.hunt as int,
                        aimed,
                        distance,
                    ),
                );
                let q = VerbPlayer {
                    arrows: (self.arrows - 1) as i32,
                    used_pin_or_bind: self.used_pin_or_bind || slows,
                    ..p
                };
                (
                    q.lock_released(idx, hit.alive),
                    if slows {
                        VerbTarget { holds: HoldTimers { slow_s: PIN_DUR_S, ..hit.holds }, ..hit }
                    } else {
                        hit
                    },
                )
            },
            CastEffect::Burn(idx) => {
                let hit = self.hurt_by(
                    h,
                    ember_damage(
                        self.stats.attrs.will as int,
                        self.stats.weapon_skill as int,
                        self.stats.ranks.arcane as int,
                    ),
                );
                (p.lock_released(idx, hit.alive), hit)
            },
        }
    }

    /// Carries out what a done cast does, `h` the hostile it goes to and at what distance
    /// from the player. Where it goes to nobody, `h` stays as it is.
    pub fn carry_out_cast(&mut self, effect: CastEffect, h: &mut VerbTarget, distance: i128)
        requires
            effect is Shoot ==> old(self).arrows > 0,
        ensures
            (*final(self), *final(h)) == old(self).after_cast(effect, *old(h), distance),
    {
        let was: VerbPlayer = *self;
        let before: VerbTarget = *h;
        self.cast_target = None;
        match effect {
            CastEffect::Nothing => {},
            CastEffect::Stun(_) => {
                h.holds = HoldTimers {
                    stun_s: most(before.holds.stun_s, BASH_STUN_S),
                    ..before.holds
                };
            },
            CastEffect::Heal => {
                self.hp = was.heal_to(units(was.stats.mend()));
            },
            CastEffect::Root(_) => {
                h.holds = HoldTimers { root_s: BIND_ROOT_S, ..before.holds };
                self.used_pin_or_bind = true;
            },
            CastEffect::Shoot { idx, aimed, slows } => {
                self.arrows = was.arrows - 1;
                *h = was.hurt(before, was.stats.bow_hit(aimed, distance));
                if slows {
                    let holds: HoldTimers = HoldTimers { slow_s: PIN_DUR_S, ..h.holds };
                    h.holds = holds;
                    self.used_pin_or_bind = true;
                }
                self.release_lock(idx, h.alive);
            },
            CastEffect::Burn(idx) => {
                *h = was.hurt(before, was.stats.ember());
                self.release_lock(idx, h.alive);
            },
        }
    }
}

/// The whole part of a quantity, held to the range of `i32`.
fn small_part(a: i128) -> (r: i32)
    requires
        a > i128::MIN,
    ensures
        r == as_small(whole_of(a)),
{
    let w: i128 = whole(a);
    if w > i32::MAX as i128 {
        i32::MAX
    } else if w < i32::MIN as i128 {
        i32::MIN
    } else {
        w as i32
    }
}

/// A wound never closes past full health.
pub proof fn law_healing_stops_at_full(p: VerbPlayer, heal: i128)
    ensures
        p.healed_to(heal) <= units_of(p.hp_max as int),
{
}

/// A press that came to nothing changes nothing.
pub proof fn law_blocked_presses_change_nothing(p: VerbPlayer, press: VerbPress)
    requires
        press is RankBlocked || press is Ignored,
    ensures
        p.after(press) == p,
{
}

/// A hostile that was burned or shot is dead exactly where no health is left, and then no
/// lock stays on it.
pub proof fn law_the_dead_are_let_go(
    p: VerbPlayer,
    effect: CastEffect,
    h: VerbTarget,
    distance: i128,
    idx: i32,
)
    requires
        h.alive,
        h.hp > 0,
        effect == CastEffect::Burn(idx) || effect == (CastEffect::Shoot {
            idx,
            aimed: effect->aimed,
            slows: effect->slows,
        }),
    ensures
        ({
            let out = p.after_cast(effect, h, distance);
            &&& out.1.alive <==> out.1.hp > 0
            &&& !out.1.alive ==> out.1.hp == 0 && out.0.lock != Some(idx)
            &&& out.1.alive ==> out.0.lock == p.lock
        }),
{
}

} // verus!
