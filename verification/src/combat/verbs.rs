//! Live combat verbs: what pressing one comes to and what its cast does when it is done.

use crate::combat::fighters::Cooldowns;
use crate::combat::math::{
    AIMED_CD_S, AIMED_DRAW_S, BASH_ANIM_S, BASH_CD_S, BIND_CAST_S, BIND_CD_S, BIND_MANA,
    BOW_DRAW_S, EMBER_CAST_S, EMBER_CD_S, EMBER_MANA, MARK_CD_S, MEND_CAST_S, MEND_CD_S,
    MEND_MANA, PIN_CD_S, POTION_CD_S, STRIKE_CD_S, WARD_CD_S, WARD_MANA,
};
use crate::combat::number::{
    diff_of, greater, law_rounding_is_close, minus, most, units, units_of,
};
use crate::combat::player_actions::FailTell;
use vstd::prelude::*;

verus! {

#[derive(Clone, Copy, Debug, PartialEq, Eq, Structural)]
pub enum CombatVerb {
    Strike,
    Bash,
    AimedShot,
    Pin,
    Ember,
    Bind,
    Mend,
    Ward,
    Mark,
    SecondWind,
    Potion,
}

/// The verbs that take time.
#[derive(Clone, Copy, Debug, PartialEq, Eq, Structural)]
pub enum VerbCast {
    Bash,
    Aimed,
    Pin,
    Ember,
    Bind,
    Mend,
}

/// How long a verb cools down.
pub open spec fn cooldown_of(verb: CombatVerb) -> i128 {
    match verb {
        CombatVerb::Strike => STRIKE_CD_S,
        CombatVerb::Bash => BASH_CD_S,
        CombatVerb::AimedShot => AIMED_CD_S,
        CombatVerb::Pin => PIN_CD_S,
        CombatVerb::Ember => EMBER_CD_S,
        CombatVerb::Bind => BIND_CD_S,
        CombatVerb::Mend => MEND_CD_S,
        CombatVerb::Ward => WARD_CD_S,
        CombatVerb::Mark => MARK_CD_S,
        CombatVerb::SecondWind => 0,
        CombatVerb::Potion => POTION_CD_S,
    }
}

pub fn cd_max(verb: CombatVerb) -> (r: i128)
    ensures
        r == cooldown_of(verb),
{
    match verb {
        CombatVerb::Strike => STRIKE_CD_S,
        CombatVerb::Bash => BASH_CD_S,
        CombatVerb::AimedShot => AIMED_CD_S,
        CombatVerb::Pin => PIN_CD_S,
        CombatVerb::Ember => EMBER_CD_S,
        CombatVerb::Bind => BIND_CD_S,
        CombatVerb::Mend => MEND_CD_S,
        CombatVerb::Ward => WARD_CD_S,
        CombatVerb::Mark => MARK_CD_S,
        CombatVerb::SecondWind => 0,
        CombatVerb::Potion => POTION_CD_S,
    }
}

/// How long a cast takes.
pub open spec fn duration_of(kind: VerbCast) -> i128 {
    match kind {
        VerbCast::Bash => BASH_ANIM_S,
        VerbCast::Aimed => AIMED_DRAW_S,
        VerbCast::Pin => BOW_DRAW_S,
        VerbCast::Ember => EMBER_CAST_S,
        VerbCast::Bind => BIND_CAST_S,
        VerbCast::Mend => MEND_CAST_S,
    }
}

pub fn cast_duration_s(kind: VerbCast) -> (r: i128)
    ensures
        r == duration_of(kind),
{
    match kind {
        VerbCast::Bash => BASH_ANIM_S,
        VerbCast::Aimed => AIMED_DRAW_S,
        VerbCast::Pin => BOW_DRAW_S,
        VerbCast::Ember => EMBER_CAST_S,
        VerbCast::Bind => BIND_CAST_S,
        VerbCast::Mend => MEND_CAST_S,
    }
}

pub open spec fn cast_name(kind: VerbCast) -> Seq<char> {
    match kind {
        VerbCast::Bash => "Bash"@,
        VerbCast::Aimed => "Aimed Shot"@,
        VerbCast::Pin => "Pin"@,
        VerbCast::Ember => "Ember"@,
        VerbCast::Bind => "Bind"@,
        VerbCast::Mend => "Mend"@,
    }
}

/// What a cast is shown as.
pub fn cast_label(kind: VerbCast) -> (r: &'static str)
    ensures
        r@ == cast_name(kind),
{
    match kind {
        VerbCast::Bash => "Bash",
        VerbCast::Aimed => "Aimed Shot",
        VerbCast::Pin => "Pin",
        VerbCast::Ember => "Ember",
        VerbCast::Bind => "Bind",
        VerbCast::Mend => "Mend",
    }
}

/// What a verb costs in mana.
pub open spec fn mana_of(verb: CombatVerb) -> i32 {
    match verb {
        CombatVerb::Ember => EMBER_MANA,
        CombatVerb::Bind => BIND_MANA,
        CombatVerb::Mend => MEND_MANA,
        CombatVerb::Ward => WARD_MANA,
        _ => 0,
    }
}

/// What is known when a verb is pressed.
#[derive(Clone, Copy, Debug, PartialEq, Eq, Structural)]
pub struct VerbFacts {
    /// The player's ranks allow the verb.
    pub rank_ok: bool,
    pub casting: bool,
    /// The pause between verbs is still running.
    pub pausing: bool,
    /// The verb is still cooling down.
    pub cooling: bool,
    pub arrows: i32,
    pub potions: i32,
    pub mana: i128,
    pub second_wind_used: bool,
    pub lock: Option<i32>,
    /// The locked hostile is seated and alive.
    pub lock_alive: bool,
    /// The locked hostile stands where the verb reaches it.
    pub in_reach: bool,
}

/// What a press comes to. Whatever starts also starts the verb's cooldown.
#[derive(Clone, Copy, Debug, PartialEq, Eq, Structural)]
pub enum VerbPress {
    RankBlocked,
    Ignored,
    Failed(FailTell),
    /// The next swing is a strike.
    Arm,
    Cast { kind: VerbCast, target: Option<i32>, mana: i32 },
    Ward { mana: i32 },
    Mark,
    SecondWind,
    Drink,
}

/// The lock, where it is alive and within reach.
pub open spec fn lock_of(f: VerbFacts) -> Result<i32, FailTell> {
    match f.lock {
        None => Err(FailTell::NoTarget),
        Some(idx) => if !f.lock_alive {
            Err(FailTell::NoTarget)
        } else if !f.in_reach {
            Err(FailTell::OutOfRange)
        } else {
            Ok(idx)
        },
    }
}

fn lock_in_range(f: &VerbFacts) -> (r: Result<i32, FailTell>)
    ensures
        r == lock_of(*f),
{
    match f.lock {
        None => Err(FailTell::NoTarget),
        Some(idx) => if !f.lock_alive {
            Err(FailTell::NoTarget)
        } else if !f.in_reach {
            Err(FailTell::OutOfRange)
        } else {
            Ok(idx)
        },
    }
}

/// A cast at the lock.
pub open spec fn aimed_cast(f: VerbFacts, kind: VerbCast, mana: i32) -> VerbPress {
    match lock_of(f) {
        Ok(idx) => VerbPress::Cast { kind, target: Some(idx), mana },
        Err(tell) => VerbPress::Failed(tell),
    }
}

fn cast_at_lock(f: &VerbFacts, kind: VerbCast, mana: i32) -> (r: VerbPress)
    ensures
        r == aimed_cast(*f, kind, mana),
{
    match lock_in_range(f) {
        Ok(idx) => VerbPress::Cast { kind, target: Some(idx), mana },
        Err(tell) => VerbPress::Failed(tell),
    }
}

/// What pressing a verb comes to.
pub open spec fn verb_pressed(verb: CombatVerb, f: VerbFacts) -> VerbPress {
    if !f.rank_ok {
        VerbPress::RankBlocked
    } else if verb != CombatVerb::Potion && (f.casting || f.pausing) {
        VerbPress::Ignored
    } else if f.cooling {
        VerbPress::Ignored
    } else if mana_of(verb) > 0 && f.mana < units_of(mana_of(verb) as int) {
        VerbPress::Ignored
    } else {
        match verb {
            CombatVerb::Strike => match lock_of(f) {
                Ok(_) => VerbPress::Arm,
                Err(tell) => VerbPress::Failed(tell),
            },
            CombatVerb::Bash => aimed_cast(f, VerbCast::Bash, 0),
            CombatVerb::AimedShot => if f.arrows <= 0 {
                VerbPress::Ignored
            } else {
                aimed_cast(f, VerbCast::Aimed, 0)
            },
            CombatVerb::Pin => if f.arrows <= 0 {
                VerbPress::Ignored
            } else {
                aimed_cast(f, VerbCast::Pin, 0)
            },
            CombatVerb::Ember => aimed_cast(f, VerbCast::Ember, EMBER_MANA),
            CombatVerb::Bind => aimed_cast(f, VerbCast::Bind, BIND_MANA),
            CombatVerb::Mend => VerbPress::Cast {
                kind: VerbCast::Mend,
                target: None,
                mana: MEND_MANA,
            },
            CombatVerb::Ward => VerbPress::Ward { mana: WARD_MANA },
            CombatVerb::Mark => VerbPress::Mark,
            CombatVerb::SecondWind => if f.second_wind_used {
                VerbPress::Ignored
            } else {
                VerbPress::SecondWind
            },
            CombatVerb::Potion => if f.potions <= 0 {
                VerbPress::Ignored
            } else {
                VerbPress::Drink
            },
        }
    }
}

/// Presses a verb. Mana is looked at only where the verb costs some.
pub fn press_verb(verb: CombatVerb, f: VerbFacts) -> (r: VerbPress)
    ensures
        r == verb_pressed(verb, f),
{
    if !f.rank_ok {
        return VerbPress::RankBlocked;
    }
    if verb != CombatVerb::Potion && (f.casting || f.pausing) {
        return VerbPress::Ignored;
    }
    if f.cooling {
        return VerbPress::Ignored;
    }
    let cost: i32 = match verb {
        CombatVerb::Ember => EMBER_MANA,
        CombatVerb::Bind => BIND_MANA,
        CombatVerb::Mend => MEND_MANA,
        CombatVerb::Ward => WARD_MANA,
        _ => 0,
    };
    if cost > 0 && f.mana < units(cost) {
        return VerbPress::Ignored;
    }
    match verb {
        CombatVerb::Strike => match lock_in_range(&f) {
            Ok(_) => VerbPress::Arm,
            Err(tell) => VerbPress::Failed(tell),
        },
        CombatVerb::Bash => cast_at_lock(&f, VerbCast::Bash, 0),
        CombatVerb::AimedShot => if f.arrows <= 0 {
            VerbPress::Ignored
        } else {
            cast_at_lock(&f, VerbCast::Aimed, 0)
        },
        CombatVerb::Pin => if f.arrows <= 0 {
            VerbPress::Ignored
        } else {
            cast_at_lock(&f, VerbCast::Pin, 0)
        },
        CombatVerb::Ember => cast_at_lock(&f, VerbCast::Ember, EMBER_MANA),
        CombatVerb::Bind => cast_at_lock(&f, VerbCast::Bind, BIND_MANA),
        CombatVerb::Mend => VerbPress::Cast {
            kind: VerbCast::Mend,
            target: None,
            mana: MEND_MANA,
        },
        CombatVerb::Ward => VerbPress::Ward { mana: WARD_MANA },
        CombatVerb::Mark => VerbPress::Mark,
        CombatVerb::SecondWind => if f.second_wind_used {
            VerbPress::Ignored
        } else {
            VerbPress::SecondWind
        },
        CombatVerb::Potion => if f.potions <= 0 {
            VerbPress::Ignored
        } else {
            VerbPress::Drink
        },
    }
}

/// What is known when a cast is done.
#[derive(Clone, Copy, Debug, PartialEq, Eq, Structural)]
pub struct CastFacts {
    /// What the cast was aimed at; else what is locked now.
    pub target: Option<i32>,
    pub lock: Option<i32>,
    /// The hostile it goes to is seated and alive.
    pub alive: bool,
    /// That hostile stands within the range of the cast.
    pub in_range: bool,
    pub arrows: i32,
}

/// What a done cast does.
#[derive(Clone, Copy, Debug, PartialEq, Eq, Structural)]
pub enum CastEffect {
    Nothing,
    Stun(i32),
    Heal,
    Root(i32),
    /// An arrow leaves the quiver; a pinning one slows what it hits.
    Shoot { idx: i32, aimed: bool, slows: bool },
    Burn(i32),
}

/// Whom a done cast goes to.
pub open spec fn goes_to(f: CastFacts) -> Option<i32> {
    match f.target {
        Some(idx) => Some(idx),
        None => f.lock,
    }
}

pub open spec fn cast_effect(kind: VerbCast, f: CastFacts) -> CastEffect {
    match kind {
        VerbCast::Mend => CastEffect::Heal,
        _ => match goes_to(f) {
            None => CastEffect::Nothing,
            Some(idx) => if !f.alive {
                CastEffect::Nothing
            } else {
                match kind {
                    VerbCast::Bash => CastEffect::Stun(idx),
                    VerbCast::Bind => if f.in_range {
                        CastEffect::Root(idx)
                    } else {
                        CastEffect::Nothing
                    },
                    VerbCast::Aimed => if f.arrows > 0 {
                        CastEffect::Shoot { idx, aimed: true, slows: false }
                    } else {
                        CastEffect::Nothing
                    },
                    VerbCast::Pin => if f.arrows > 0 {
                        CastEffect::Shoot { idx, aimed: false, slows: true }
                    } else {
                        CastEffect::Nothing
                    },
                    VerbCast::Ember => if f.in_range {
                        CastEffect::Burn(idx)
                    } else {
                        CastEffect::Nothing
                    },
                    VerbCast::Mend => CastEffect::Heal,
                }
            },
        },
    }
}

/// What a done cast does.
pub fn finish_cast(kind: VerbCast, f: CastFacts) -> (r: CastEffect)
    ensures
        r == cast_effect(kind, f),
{
    if kind == VerbCast::Mend {
        return CastEffect::Heal;
    }
    let at: Option<i32> = match f.target {
        Some(idx) => Some(idx),
        None => f.lock,
    };
    match at {
        None => CastEffect::Nothing,
        Some(idx) => {
            if !f.alive {
                return CastEffect::Nothing;
            }
            match kind {
                VerbCast::Bash => CastEffect::Stun(idx),
                VerbCast::Bind => if f.in_range {
                    CastEffect::Root(idx)
                } else {
                    CastEffect::Nothing
                },
                VerbCast::Aimed => if f.arrows > 0 {
                    CastEffect::Shoot { idx, aimed: true, slows: false }
                } else {
                    CastEffect::Nothing
                },
                VerbCast::Pin => if f.arrows > 0 {
                    CastEffect::Shoot { idx, aimed: false, slows: true }
                } else {
                    CastEffect::Nothing
                },
                VerbCast::Ember => if f.in_range {
                    CastEffect::Burn(idx)
                } else {
                    CastEffect::Nothing
                },
                VerbCast::Mend => CastEffect::Heal,
            }
        },
    }
}

/// A potion can be drunk in the middle of a cast; nothing else starts during one.
pub proof fn law_only_potions_interleave(verb: CombatVerb, f: VerbFacts)
    requires
        f.casting,
        f.rank_ok,
        verb_pressed(verb, f) != VerbPress::Ignored,
    ensures
        verb == CombatVerb::Potion,
        verb_pressed(verb, f) == VerbPress::Drink,
        f.potions > 0,
{
}

/// A timer `dt` later: it stops at zero.
pub open spec fn run_down(left: i128, dt: i128) -> i128 {
    greater(diff_of(left, dt), 0)
}

fn run(left: i128, dt: i128) -> (r: i128)
    ensures
        r == run_down(left, dt),
        r >= 0,
{
    most(minus(left, dt), 0)
}

/// What holds a hostile: how long it is stunned, slowed and rooted.
#[derive(Clone, Copy, Debug, PartialEq, Eq, Structural)]
pub struct HoldTimers {
    pub stun_s: i128,
    pub slow_s: i128,
    pub root_s: i128,
}

impl HoldTimers {
    pub fn tick(&mut self, dt: i128)
        ensures
            *final(self) == if dt <= 0 {
                *old(self)
            } else {
                HoldTimers {
                    stun_s: run_down(old(self).stun_s, dt),
                    slow_s: run_down(old(self).slow_s, dt),
                    root_s: run_down(old(self).root_s, dt),
                }
            },
    {
        if dt > 0 {
            *self = HoldTimers {
                stun_s: run(self.stun_s, dt),
                slow_s: run(self.slow_s, dt),
                root_s: run(self.root_s, dt),
            };
        }
    }
}

/// The player's running verbs: cooldowns, the pause between verbs, the ward, the mark and
/// the cast under way.
#[derive(Clone, Copy, Debug, PartialEq, Eq, Structural)]
pub struct VerbTimers {
    pub cds: Cooldowns,
    pub gcd_s: i128,
    pub busy_s: i128,
    pub ward: i128,
    pub ward_s: i128,
    pub mark_s: i128,
    pub cast: Option<VerbCast>,
    pub cast_s: i128,
}

/// The cooldowns `dt` later.
pub open spec fn cds_later(c: Cooldowns, dt: i128) -> Cooldowns {
    Cooldowns {
        strike: run_down(c.strike, dt),
        bash: run_down(c.bash, dt),
        aimed: run_down(c.aimed, dt),
        pin: run_down(c.pin, dt),
        ember: run_down(c.ember, dt),
        mend: run_down(c.mend, dt),
        bind: run_down(c.bind, dt),
        ward: run_down(c.ward, dt),
        potion: run_down(c.potion, dt),
        mark: run_down(c.mark, dt),
    }
}

impl VerbTimers {
    /// Whether the cast under way is done `dt` later.
    pub open spec fn cast_done(self, dt: i128) -> bool {
        dt > 0 && self.cast is Some && diff_of(self.cast_s, dt) <= 0
    }

    /// The verbs `dt` later. A ward that runs out holds nothing any more; a cast that is
    /// done leaves the player free.
    pub open spec fn later(self, dt: i128) -> VerbTimers {
        if dt <= 0 {
            self
        } else {
            let done = self.cast_done(dt);
            let ward_s = if self.ward_s > 0 {
                run_down(self.ward_s, dt)
            } else {
                self.ward_s
            };
            VerbTimers {
                cds: cds_later(self.cds, dt),
                gcd_s: run_down(self.gcd_s, dt),
                busy_s: if done {
                    0
                } else {
                    run_down(self.busy_s, dt)
                },
                ward: if self.ward_s > 0 && ward_s <= 0 {
                    0
                } else {
                    self.ward
                },
                ward_s,
                mark_s: if self.mark_s > 0 {
                    run_down(self.mark_s, dt)
                } else {
                    self.mark_s
                },
                cast: if done {
                    None
                } else {
                    self.cast
                },
                cast_s: if done {
                    0
                } else if self.cast is Some {
                    diff_of(self.cast_s, dt)
                } else {
                    self.cast_s
                },
            }
        }
    }

    /// Runs the verbs; gives the cast that is done.
    pub fn tick_verbs(&mut self, dt: i128) -> (r: Option<VerbCast>)
        ensures
            *final(self) == old(self).later(dt),
            r == if old(self).cast_done(dt) {
                old(self).cast
            } else {
                None
            },
    {
        if dt <= 0 {
            return None;
        }
        let was: VerbTimers = *self;
        let cds: Cooldowns = Cooldowns {
            strike: run(was.cds.strike, dt),
            bash: run(was.cds.bash, dt),
            aimed: run(was.cds.aimed, dt),
            pin: run(was.cds.pin, dt),
            ember: run(was.cds.ember, dt),
            mend: run(was.cds.mend, dt),
            bind: run(was.cds.bind, dt),
            ward: run(was.cds.ward, dt),
            potion: run(was.cds.potion, dt),
            mark: run(was.cds.mark, dt),
        };
        let ward_s: i128 = if was.ward_s > 0 {
            run(was.ward_s, dt)
        } else {
            was.ward_s
        };
        let ward: i128 = if was.ward_s > 0 && ward_s <= 0 {
            0
        } else {
            was.ward
        };
        let mark_s: i128 = if was.mark_s > 0 {
            run(was.mark_s, dt)
        } else {
            was.mark_s
        };
        let cast_s: i128 = if was.cast.is_some() {
            minus(was.cast_s, dt)
        } else {
            was.cast_s
        };
        let gcd_s: i128 = run(was.gcd_s, dt);
        if was.cast.is_some() && cast_s <= 0 {
            *self = VerbTimers {
                cds,
                gcd_s,
                busy_s: 0,
                ward,
                ward_s,
                mark_s,
                cast: None,
                cast_s: 0,
            };
            return was.cast;
        }
        *self = VerbTimers {
            cds,
            gcd_s,
            busy_s: run(was.busy_s, dt),
            ward,
            ward_s,
            mark_s,
            cast: was.cast,
            cast_s,
        };
        None
    }
}

/// A timer never falls below zero; once its time has passed it is over, and it stays over.
pub proof fn law_timers_run_out(left: i128, dt: i128)
    requires
        dt > 0,
    ensures
        run_down(left, dt) >= 0,
        left <= dt ==> run_down(left, dt) == 0,
        run_down(0, dt) == 0,
{
    law_rounding_is_close(left - dt);
    law_rounding_is_close(0 - dt);
}

} // verus!
