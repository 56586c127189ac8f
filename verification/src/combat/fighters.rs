//! The two sides of a fight and what blows do to them.

use crate::combat::math::{
    as_small, mitigated, mitigation, Discipline, MARK_MULT, SHAKEN_DMG, SKILL_UP_COST_MULT,
};
use crate::combat::number::{
    diff_of, least, lesser, minus, times, times_of, units, units_of, whole, whole_of, ONE,
};
use crate::combat::sheets::{MobSheet, PlayerStats};
use vstd::prelude::*;

verus! {

/// Mana this small counts as none: a billionth.
pub const TINY: i128 = 1_152_921_504;

#[derive(Clone, Copy, Debug, PartialEq, Eq, Structural)]
pub enum CastKind {
    Bash,
    Mend,
    Bind,
    Ward,
    Aimed,
    Pin,
    Fire,
    Ember,
}

/// A cast under way and the mob it is meant for.
#[derive(Clone, Copy, Debug, PartialEq, Eq, Structural)]
pub struct Cast {
    pub kind: CastKind,
    pub target: Option<i32>,
}

/// What a fighter can use, as counted at the end of a fight.
#[derive(Clone, Copy, Debug, PartialEq, Eq, Structural)]
pub enum Ability {
    Potion,
    SecondWind,
    Bash,
    Strike,
    Mark,
    AimedShot,
    Pin,
    Fire,
    Mend,
    Ward,
    Bind,
    Ember,
}

/// How often each ability was used.
#[derive(Clone, Copy, Debug, PartialEq, Eq, Structural)]
pub struct AbilityCounts {
    pub potion: i64,
    pub second_wind: i64,
    pub bash: i64,
    pub strike: i64,
    pub mark: i64,
    pub aimed_shot: i64,
    pub pin: i64,
    pub fire: i64,
    pub mend: i64,
    pub ward: i64,
    pub bind: i64,
    pub ember: i64,
}

/// The time until each ability is ready.
#[derive(Clone, Copy, Debug, PartialEq, Eq, Structural)]
pub struct Cooldowns {
    pub strike: i128,
    pub bash: i128,
    pub aimed: i128,
    pub pin: i128,
    pub ember: i128,
    pub mend: i128,
    pub bind: i128,
    pub ward: i128,
    pub potion: i128,
    pub mark: i128,
}

#[derive(Clone, Copy, Debug, PartialEq, Eq, Structural)]
pub struct Mob {
    pub sheet: MobSheet,
    pub idx: i32,
    pub x: i128,
    pub hp: i128,
    pub max_hp: i32,
    pub armor: i32,
    pub base_dmg: i32,
    pub base_swing: i128,
    pub swing: i128,
    pub reach: i128,
    pub auto_cd: i128,
    pub stun: i128,
    pub root: i128,
    pub root_grace: i128,
    pub slow: i128,
    pub tele: i128,
    pub slam_cd: i128,
    pub slam_dmg: i32,
    pub tele_len: i128,
    pub has_slam: bool,
    pub enraged: bool,
    pub alive: bool,
    /// Twice the threat: a healed point counts half.
    pub threat_halves: i64,
    pub dmg_taken: i64,
}

#[derive(Clone, Copy, Debug, PartialEq, Eq, Structural)]
pub struct Player {
    pub stats: PlayerStats,
    pub x: i128,
    pub hp: i128,
    pub max_hp: i32,
    pub mana: i128,
    pub max_mana: i32,
    pub potions: i32,
    pub arrows: i32,
    pub alive: bool,
    pub auto_cd: i128,
    pub busy: i128,
    pub cast: Option<Cast>,
    pub gcd: i128,
    pub cds: Cooldowns,
    pub strike_armed: bool,
    pub ward: i128,
    pub ward_t: i128,
    pub mark_t: i128,
    pub second_wind_used: bool,
    pub poison_t: i128,
    pub poison_acc: i128,
    pub lock: Option<i32>,
    pub mana_spent: i64,
    pub swings: i64,
    pub used: AbilityCounts,
    pub max_hit_taken: i32,
    pub shaken: bool,
    pub sprinted: bool,
    pub used_pin_or_bind: bool,
    pub damage_taken: i64,
    pub mana_hit_zero: bool,
    pub skipped_spell_for_mana: bool,
    pub min_mana: i128,
}

/// A tally with `b` more, held to the range of `i64`.
pub open spec fn tally(a: i64, b: int) -> i64 {
    if a + b > i64::MAX {
        i64::MAX
    } else if a + b < i64::MIN {
        i64::MIN
    } else {
        (a + b) as i64
    }
}

pub fn count_up(a: i64, b: i64) -> (r: i64)
    ensures
        r == tally(a, b as int),
{
    let sum: i128 = a as i128 + b as i128;
    if sum > i64::MAX as i128 {
        i64::MAX
    } else if sum < i64::MIN as i128 {
        i64::MIN
    } else {
        sum as i64
    }
}

impl Mob {
    /// A mob of a sheet that has not been touched yet.
    pub open spec fn fresh(sheet: MobSheet, x: i128, idx: i32) -> Mob {
        let every = match sheet.slam_every_s {
            Some(s) => s,
            None => 0,
        };
        let slam = match sheet.slam_damage {
            Some(d) => d,
            None => 0,
        };
        Mob {
            sheet,
            idx,
            x,
            hp: units_of(sheet.hp as int),
            max_hp: sheet.hp,
            armor: sheet.armor,
            base_dmg: sheet.damage,
            base_swing: sheet.swing_s,
            swing: sheet.swing_s,
            reach: sheet.reach_m,
            auto_cd: sheet.swing_s,
            stun: 0,
            root: 0,
            root_grace: 0,
            slow: 0,
            tele: 0,
            slam_cd: every,
            slam_dmg: slam,
            tele_len: match sheet.telegraph_s {
                Some(s) => s,
                None => 0,
            },
            has_slam: every > 0 && slam > 0,
            enraged: false,
            alive: true,
            threat_halves: 0,
            dmg_taken: 0,
        }
    }

    pub fn from_sheet(sheet: MobSheet, x: i128, idx: i32) -> (r: Self)
        ensures
            r == Mob::fresh(sheet, x, idx),
    {
        let slam_cd: i128 = match sheet.slam_every_s {
            Some(s) => s,
            None => 0,
        };
        let slam_dmg: i32 = match sheet.slam_damage {
            Some(d) => d,
            None => 0,
        };
        let tele_len: i128 = match sheet.telegraph_s {
            Some(s) => s,
            None => 0,
        };
        Mob {
            sheet,
            idx,
            x,
            hp: units(sheet.hp),
            max_hp: sheet.hp,
            armor: sheet.armor,
            base_dmg: sheet.damage,
            base_swing: sheet.swing_s,
            swing: sheet.swing_s,
            reach: sheet.reach_m,
            auto_cd: sheet.swing_s,
            stun: 0,
            root: 0,
            root_grace: 0,
            slow: 0,
            tele: 0,
            slam_cd,
            slam_dmg,
            tele_len,
            has_slam: slam_cd > 0 && slam_dmg > 0,
            enraged: false,
            alive: true,
            threat_halves: 0,
            dmg_taken: 0,
        }
    }
}

impl Player {
    /// A player at the start of a fight.
    pub open spec fn fresh(stats: PlayerStats, potions: i32, arrows: i32) -> Player {
        Player {
            stats,
            x: 0,
            hp: units_of(stats.hp as int),
            max_hp: stats.hp,
            mana: units_of(stats.mana as int),
            max_mana: stats.mana,
            potions,
            arrows,
            alive: true,
            auto_cd: 0,
            busy: 0,
            cast: None,
            gcd: 0,
            cds: Cooldowns {
                strike: 0,
                bash: 0,
                aimed: 0,
                pin: 0,
                ember: 0,
                mend: 0,
                bind: 0,
                ward: 0,
                potion: 0,
                mark: 0,
            },
            strike_armed: false,
            ward: 0,
            ward_t: 0,
            mark_t: 0,
            second_wind_used: false,
            poison_t: 0,
            poison_acc: 0,
            lock: None,
            mana_spent: 0,
            swings: 0,
            used: AbilityCounts {
                potion: 0,
                second_wind: 0,
                bash: 0,
                strike: 0,
                mark: 0,
                aimed_shot: 0,
                pin: 0,
                fire: 0,
                mend: 0,
                ward: 0,
                bind: 0,
                ember: 0,
            },
            max_hit_taken: 0,
            shaken: false,
            sprinted: false,
            used_pin_or_bind: false,
            damage_taken: 0,
            mana_hit_zero: false,
            skipped_spell_for_mana: false,
            min_mana: units_of(stats.mana as int),
        }
    }

    pub fn new(stats: PlayerStats, potions: i32, arrows: i32) -> (r: Self)
        ensures
            r == Player::fresh(stats, potions, arrows),
    {
        let hp: i128 = units(stats.hp);
        let mana: i128 = units(stats.mana);
        Player {
            stats,
            x: 0,
            hp,
            max_hp: stats.hp,
            mana,
            max_mana: stats.mana,
            potions,
            arrows,
            alive: true,
            auto_cd: 0,
            busy: 0,
            cast: None,
            gcd: 0,
            cds: Cooldowns {
                strike: 0,
                bash: 0,
                aimed: 0,
                pin: 0,
                ember: 0,
                mend: 0,
                bind: 0,
                ward: 0,
                potion: 0,
                mark: 0,
            },
            strike_armed: false,
            ward: 0,
            ward_t: 0,
            mark_t: 0,
            second_wind_used: false,
            poison_t: 0,
            poison_acc: 0,
            lock: None,
            mana_spent: 0,
            swings: 0,
            used: AbilityCounts {
                potion: 0,
                second_wind: 0,
                bash: 0,
                strike: 0,
                mark: 0,
                aimed_shot: 0,
                pin: 0,
                fire: 0,
                mend: 0,
                ward: 0,
                bind: 0,
                ember: 0,
            },
            max_hit_taken: 0,
            shaken: false,
            sprinted: false,
            used_pin_or_bind: false,
            damage_taken: 0,
            mana_hit_zero: false,
            skipped_spell_for_mana: false,
            min_mana: mana,
        }
    }

    /// The rank in a discipline.
    pub open spec fn rank_of(self, d: Discipline) -> i32 {
        match d {
            Discipline::Martial => self.stats.ranks.martial,
            Discipline::Hunt => self.stats.ranks.hunt,
            Discipline::Arcane => self.stats.ranks.arcane,
        }
    }

    pub fn rank(&self, d: Discipline) -> (r: i32)
        ensures
            r == self.rank_of(d),
    {
        match d {
            Discipline::Martial => self.stats.ranks.martial,
            Discipline::Hunt => self.stats.ranks.hunt,
            Discipline::Arcane => self.stats.ranks.arcane,
        }
    }

    /// The player with one more use of an ability counted.
    #[verifier::opaque]
    pub open spec fn having_used(self, a: Ability) -> Player {
        let u = self.used;
        Player {
            used: match a {
                Ability::Potion => AbilityCounts { potion: tally(u.potion, 1), ..u },
                Ability::SecondWind => AbilityCounts { second_wind: tally(u.second_wind, 1), ..u },
                Ability::Bash => AbilityCounts { bash: tally(u.bash, 1), ..u },
                Ability::Strike => AbilityCounts { strike: tally(u.strike, 1), ..u },
                Ability::Mark => AbilityCounts { mark: tally(u.mark, 1), ..u },
                Ability::AimedShot => AbilityCounts { aimed_shot: tally(u.aimed_shot, 1), ..u },
                Ability::Pin => AbilityCounts { pin: tally(u.pin, 1), ..u },
                Ability::Fire => AbilityCounts { fire: tally(u.fire, 1), ..u },
                Ability::Mend => AbilityCounts { mend: tally(u.mend, 1), ..u },
                Ability::Ward => AbilityCounts { ward: tally(u.ward, 1), ..u },
                Ability::Bind => AbilityCounts { bind: tally(u.bind, 1), ..u },
                Ability::Ember => AbilityCounts { ember: tally(u.ember, 1), ..u },
            },
            ..self
        }
    }

    pub fn bump_spell(&mut self, a: Ability)
        ensures
            *final(self) == old(self).having_used(a),
            final(self).stats == old(self).stats,
    {
        proof {
            reveal(Player::having_used);
        }
        match a {
            Ability::Potion => {
                self.used.potion = count_up(self.used.potion, 1);
            },
            Ability::SecondWind => {
                self.used.second_wind = count_up(self.used.second_wind, 1);
            },
            Ability::Bash => {
                self.used.bash = count_up(self.used.bash, 1);
            },
            Ability::Strike => {
                self.used.strike = count_up(self.used.strike, 1);
            },
            Ability::Mark => {
                self.used.mark = count_up(self.used.mark, 1);
            },
            Ability::AimedShot => {
                self.used.aimed_shot = count_up(self.used.aimed_shot, 1);
            },
            Ability::Pin => {
                self.used.pin = count_up(self.used.pin, 1);
            },
            Ability::Fire => {
                self.used.fire = count_up(self.used.fire, 1);
            },
            Ability::Mend => {
                self.used.mend = count_up(self.used.mend, 1);
            },
            Ability::Ward => {
                self.used.ward = count_up(self.used.ward, 1);
            },
            Ability::Bind => {
                self.used.bind = count_up(self.used.bind, 1);
            },
            Ability::Ember => {
                self.used.ember = count_up(self.used.ember, 1);
            },
        }
    }

    /// The player after a hit that teaches: one point of practice below the cap,
    /// and the next point of skill once eight times the skill is reached.
    #[verifier::opaque]
    pub open spec fn practised(self) -> Player {
        if self.stats.weapon_skill >= self.stats.skill_cap {
            self
        } else {
            let xp = if self.stats.skill_xp < i32::MAX {
                (self.stats.skill_xp + 1) as i32
            } else {
                i32::MAX
            };
            if xp >= SKILL_UP_COST_MULT * self.stats.weapon_skill {
                Player {
                    stats: PlayerStats {
                        weapon_skill: (self.stats.weapon_skill + 1) as i32,
                        skill_xp: 0,
                        ..self.stats
                    },
                    ..self
                }
            } else {
                Player { stats: PlayerStats { skill_xp: xp, ..self.stats }, ..self }
            }
        }
    }

    pub fn bump_skill(&mut self)
        ensures
            *final(self) == old(self).practised(),
    {
        proof {
            reveal(Player::practised);
        }
        let stats: PlayerStats = self.stats;
        if stats.weapon_skill >= stats.skill_cap {
            return;
        }
        let xp: i32 = if stats.skill_xp < i32::MAX {
            stats.skill_xp + 1
        } else {
            i32::MAX
        };
        if xp as i64 >= SKILL_UP_COST_MULT as i64 * stats.weapon_skill as i64 {
            self.stats = PlayerStats {
                weapon_skill: stats.weapon_skill + 1,
                skill_xp: 0,
                ..stats
            };
        } else {
            self.stats = PlayerStats { skill_xp: xp, ..stats };
        }
    }

    /// What a ward takes of a blow.
    pub open spec fn absorbed(self, amount: int) -> i128 {
        if self.ward > 0 {
            lesser(self.ward, units_of(amount))
        } else {
            0
        }
    }

    /// What is left of a blow after the ward.
    pub open spec fn blow_left(self, amount: int) -> int {
        amount - whole_of(self.absorbed(amount))
    }

    /// The player after a blow. The ward takes what it can; what is left comes off
    /// the health and, where it interrupts, ends a cast.
    #[verifier::opaque]
    pub open spec fn struck(self, amount: int, interrupt: bool) -> Player {
        if amount <= 0 || !self.alive {
            self
        } else {
            let noted = Player {
                max_hit_taken: if amount > self.max_hit_taken {
                    amount as i32
                } else {
                    self.max_hit_taken
                },
                ..self
            };
            let rest = diff_of(self.ward, self.absorbed(amount));
            let warded = if self.ward > 0 {
                if rest <= 0 {
                    Player { ward: 0, ward_t: 0, ..noted }
                } else {
                    Player { ward: rest, ..noted }
                }
            } else {
                noted
            };
            let left = self.blow_left(amount);
            if left <= 0 {
                warded
            } else {
                let hp = diff_of(self.hp, units_of(left));
                let broken = interrupt && self.cast is Some;
                Player {
                    hp: if hp <= 0 {
                        0
                    } else {
                        hp
                    },
                    alive: hp > 0,
                    damage_taken: tally(self.damage_taken, left),
                    cast: if broken {
                        None
                    } else {
                        self.cast
                    },
                    busy: if broken {
                        0
                    } else {
                        self.busy
                    },
                    ..warded
                }
            }
        }
    }
}

pub proof fn lemma_absorbed(p: Player, amount: int)
    requires
        0 < amount <= i32::MAX,
    ensures
        0 <= p.absorbed(amount) <= amount * ONE,
        0 <= whole_of(p.absorbed(amount)) <= amount,
        0 <= p.blow_left(amount) <= amount,
{
    let a = p.absorbed(amount) as int;
    assert(units_of(amount) == amount * ONE);
    assert(0 <= a / 1_152_921_504_606_846_976 <= amount) by (nonlinear_arith)
        requires
            0 <= a <= amount * 1_152_921_504_606_846_976,
    ;
}

pub fn apply_player_damage(p: &mut Player, amount: i32, interrupt: bool) -> (r: i32)
    ensures
        *final(p) == old(p).struck(amount as int, interrupt),
        r == if amount <= 0 || !old(p).alive || old(p).blow_left(amount as int) <= 0 {
            0
        } else {
            old(p).blow_left(amount as int)
        },
        final(p).stats == old(p).stats,
{
    proof {
        reveal(Player::struck);
    }
    if amount <= 0 || !p.alive {
        return 0;
    }
    proof {
        lemma_absorbed(*p, amount as int);
    }
    let before: Player = *p;
    let max_hit_taken: i32 = if amount > before.max_hit_taken {
        amount
    } else {
        before.max_hit_taken
    };
    let mut left: i32 = amount;
    let mut ward: i128 = before.ward;
    let mut ward_t: i128 = before.ward_t;
    if before.ward > 0 {
        let absorb: i128 = least(before.ward, units(left));
        ward = minus(before.ward, absorb);
        left = left - whole(absorb) as i32;
        if ward <= 0 {
            ward = 0;
            ward_t = 0;
        }
    }
    if left <= 0 {
        *p = Player { max_hit_taken, ward, ward_t, ..before };
        return 0;
    }
    let hp: i128 = minus(before.hp, units(left));
    let broken: bool = interrupt && before.cast.is_some();
    *p = Player {
        max_hit_taken,
        ward,
        ward_t,
        hp: if hp <= 0 {
            0
        } else {
            hp
        },
        alive: hp > 0,
        damage_taken: count_up(before.damage_taken, left as i64),
        cast: if broken {
            None
        } else {
            before.cast
        },
        busy: if broken {
            0
        } else {
            before.busy
        },
        ..before
    };
    left
}

/// A share of a whole number, cut towards zero.
pub open spec fn share_of(share: i128, n: int) -> int {
    as_small(whole_of(times_of(share, n)))
}

pub fn take_share(share: i128, n: i32) -> (r: i32)
    requires
        0 <= share <= 2 * ONE,
    ensures
        r == share_of(share, n as int),
{
    let w: i128 = whole(times(share, n));
    if w > i32::MAX as i128 {
        i32::MAX
    } else if w < i32::MIN as i128 {
        i32::MIN
    } else {
        w as i32
    }
}

impl Player {
    /// A blow of the player's, weaker while shaken, stronger while the mark lasts.
    pub open spec fn blow(self, raw: int) -> int {
        let shaken = if self.shaken {
            share_of(SHAKEN_DMG, raw)
        } else {
            raw
        };
        if self.mark_t > 0 {
            share_of(MARK_MULT, shaken)
        } else {
            shaken
        }
    }
}

impl Mob {
    /// The mob after a blow that deals `dealt`: a root past its grace breaks.
    #[verifier::opaque]
    pub open spec fn wounded(self, dealt: int) -> Mob {
        let hp = diff_of(self.hp, units_of(dealt));
        Mob {
            hp: if hp <= 0 {
                0
            } else {
                hp
            },
            alive: self.alive && hp > 0,
            dmg_taken: tally(self.dmg_taken, dealt),
            threat_halves: tally(self.threat_halves, 2 * dealt),
            root: if self.root > 0 && self.root_grace <= 0 {
                0
            } else {
                self.root
            },
            ..self
        }
    }
}

/// What a raw blow of the player's deals to a mob.
pub open spec fn dealt_to(p: Player, m: Mob, raw: int) -> int {
    mitigated(p.blow(raw), m.armor as int)
}

pub fn hit_mob(p: &mut Player, m: &mut Mob, raw: i32) -> (r: i32)
    ensures
        *final(p) == old(p).practised(),
        *final(m) == old(m).wounded(dealt_to(*old(p), *old(m), raw as int)),
        r == dealt_to(*old(p), *old(m), raw as int),
{
    proof {
        reveal(Mob::wounded);
    }
    let mut blow: i32 = raw;
    if p.shaken {
        blow = take_share(SHAKEN_DMG, blow);
    }
    if p.mark_t > 0 {
        blow = take_share(MARK_MULT, blow);
    }
    let dealt: i32 = mitigation(units(blow), m.armor);
    m.hp = minus(m.hp, units(dealt));
    m.dmg_taken = count_up(m.dmg_taken, dealt as i64);
    m.threat_halves = count_up(m.threat_halves, 2 * dealt as i64);
    if m.root > 0 && m.root_grace <= 0 {
        m.root = 0;
    }
    if m.hp <= 0 {
        m.hp = 0;
        m.alive = false;
    }
    p.bump_skill();
    dealt
}

/// Mana enough for a cost, which may be none.
pub open spec fn affords(mana: i128, cost: int) -> bool {
    cost <= 0 || mana >= units_of(cost)
}

impl Player {
    /// A cast can be started: nothing under way, and mana enough.
    pub open spec fn can_cast(self, mana: int) -> bool {
        self.busy <= 0 && self.gcd <= 0 && affords(self.mana, mana)
    }

    /// The player after starting a cast, where that is possible.
    #[verifier::opaque]
    pub open spec fn casting(
        self,
        a: Ability,
        duration: i128,
        mana: int,
        kind: CastKind,
        target: Option<i32>,
    ) -> Player {
        if !self.can_cast(mana) {
            self
        } else {
            let rest = diff_of(self.mana, units_of(mana));
            let spent = if mana > 0 {
                Player {
                    mana: if rest <= TINY {
                        0
                    } else {
                        rest
                    },
                    mana_spent: tally(self.mana_spent, mana),
                    mana_hit_zero: self.mana_hit_zero || rest <= TINY,
                    ..self
                }
            } else {
                self
            };
            Player {
                used_pin_or_bind: spent.used_pin_or_bind || kind == CastKind::Pin || kind
                    == CastKind::Bind,
                cast: Some(Cast { kind, target }),
                busy: duration,
                ..spent
            }.having_used(a)
        }
    }
}

pub fn start_cast(
    p: &mut Player,
    a: Ability,
    duration: i128,
    mana: i32,
    kind: CastKind,
    target: Option<i32>,
) -> (r: bool)
    ensures
        r == old(p).can_cast(mana as int),
        *final(p) == old(p).casting(a, duration, mana as int, kind, target),
        final(p).stats == old(p).stats,
{
    proof {
        reveal(Player::casting);
    }
    let before: Player = *p;
    if before.busy > 0 || before.gcd > 0 {
        return false;
    }
    if mana > 0 && before.mana < units(mana) {
        return false;
    }
    let mut left: i128 = before.mana;
    let mut mana_spent: i64 = before.mana_spent;
    let mut mana_hit_zero: bool = before.mana_hit_zero;
    if mana > 0 {
        left = minus(before.mana, units(mana));
        mana_spent = count_up(before.mana_spent, mana as i64);
        if left <= TINY {
            left = 0;
            mana_hit_zero = true;
        }
    }
    *p = Player {
        mana: left,
        mana_spent,
        mana_hit_zero,
        used_pin_or_bind: before.used_pin_or_bind || kind == CastKind::Pin || kind
            == CastKind::Bind,
        cast: Some(Cast { kind, target }),
        busy: duration,
        ..before
    };
    p.bump_spell(a);
    true
}

} // verus!
