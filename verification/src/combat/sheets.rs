//! Player specialists, mob sheets and experience tables.

use crate::combat::math::{
    bow_damage, bow_hit, ember, ember_damage, melee_damage, melee_hit, mend, mend_heal,
    ward, ward_absorb, Attrs, Discipline, Ranks,
};
use crate::combat::math::{
    ATTR_BASE, ATTR_PER_LEVEL, BANDIT_ARMOR, BANDIT_DMG, BANDIT_HP, BANDIT_LEVEL, BANDIT_REACH_M,
    BANDIT_SPEED, BANDIT_SWING_S, BANDIT_XP, BLOB_ARMOR, BLOB_DMG, BLOB_HP, BLOB_REACH_M,
    BLOB_SPEED, BLOB_SWING_S, BLOB_XP, BLUE_DEMON_ARMOR, BLUE_DEMON_DMG, BLUE_DEMON_HP,
    BLUE_DEMON_REACH_M, BLUE_DEMON_SPEED, BLUE_DEMON_SWING_S, BLUE_DEMON_XP, BONE_LEVEL,
    DEMON_ARMOR, DEMON_DMG, DEMON_HP, DEMON_REACH_M, DEMON_SPEED, DEMON_SWING_S, DEMON_XP,
    HEAR_AGGRO_M, HP_L1, HP_PER_LEVEL, LEASH_M, MAGE_BOLT_DMG, MAGE_HP, MAGE_TELE_S, MANA_L1,
    MANA_PER_LEVEL, MINION_HP, MOTHER_ARMOR, MOTHER_DMG, MOTHER_HP, MOTHER_REACH_M, MOTHER_SLAM,
    MOTHER_SLAM_EVERY_S, MOTHER_SPEED, MOTHER_SWING_S, MOTHER_TELE_S, MOTHER_TOKEN, MOTHER_XP,
    ORC_ARMOR, ORC_DMG, ORC_HP, ORC_REACH_M, ORC_SPEED, ORC_SWING_S, ORC_XP, SIGHT_AGGRO_M,
    SKILL_CAP_PER_LEVEL, SKULL_ARMOR, SKULL_BOLT_DMG, SKULL_DMG, SKULL_HP, SKULL_LEVEL,
    SKULL_REACH_M, SKULL_SPEED, SKULL_SWING_S, SKULL_TELE_S, SKULL_XP, SOCIAL_M, TRIBAL_ARMOR,
    TRIBAL_DMG, TRIBAL_HP, TRIBAL_LEVEL, TRIBAL_REACH_M, TRIBAL_SPEED, TRIBAL_SWING_S, TRIBAL_XP,
    WARRIOR_ARMOR, WARRIOR_DMG, WARRIOR_HP, WARRIOR_REACH_M, WARRIOR_SPEED, WARRIOR_SWING_S,
    WARRIOR_XP, WOLF_ARMOR, WOLF_DMG_BASE, WOLF_DMG_PER, WOLF_HP_BASE, WOLF_HP_PER, WOLF_REACH_M,
    WOLF_SPEED, WOLF_SWING_S, WOLF_XP_BASE, WOLF_XP_PER, YETI_ARMOR, YETI_DMG, YETI_HP,
    YETI_REACH_M, YETI_SLAM, YETI_SLAM_EVERY_S, YETI_SPEED, YETI_SWING_S, YETI_TELE_S, YETI_XP,
};
use crate::text::{owned, str_eq};
use vstd::prelude::*;

verus! {

#[derive(Clone, Copy, Debug, PartialEq, Eq, Structural)]
pub struct PlayerStats {
    pub level: i32,
    pub discipline: Discipline,
    pub hp: i32,
    pub mana: i32,
    pub attrs: Attrs,
    pub ranks: Ranks,
    pub weapon_skill: i32,
    pub skill_cap: i32,
    pub skill_xp: i32,
}

/// A number that an `i32` can hold.
pub open spec fn fits(n: int) -> bool {
    i32::MIN <= n <= i32::MAX
}

/// Levels whose health, the largest number of a player, can be held.
pub open spec fn player_fits(level: int) -> bool {
    fits(HP_PER_LEVEL * (level - 1)) && fits(HP_L1 + HP_PER_LEVEL * (level - 1))
}

/// Levels whose health, the largest number of a wolf-spider, can be held.
pub open spec fn wolf_fits(level: int) -> bool {
    fits(WOLF_HP_PER * (level - 1)) && fits(WOLF_HP_BASE + WOLF_HP_PER * (level - 1))
}

/// A specialist: all attribute points in one attribute, all ranks in one
/// discipline.
pub open spec fn specialist(level: i32, discipline: Discipline) -> PlayerStats {
    let gained = level - 1;
    let spent = (ATTR_BASE + gained * ATTR_PER_LEVEL) as i32;
    PlayerStats {
        level,
        discipline,
        hp: (HP_L1 + HP_PER_LEVEL * gained) as i32,
        mana: (MANA_L1 + MANA_PER_LEVEL * gained) as i32,
        attrs: Attrs {
            might: if discipline == Discipline::Martial {
                spent
            } else {
                ATTR_BASE
            },
            swift: if discipline == Discipline::Hunt {
                spent
            } else {
                ATTR_BASE
            },
            will: if discipline == Discipline::Arcane {
                spent
            } else {
                ATTR_BASE
            },
            grit: ATTR_BASE,
        },
        ranks: Ranks {
            martial: if discipline == Discipline::Martial {
                level
            } else {
                0
            },
            hunt: if discipline == Discipline::Hunt {
                level
            } else {
                0
            },
            arcane: if discipline == Discipline::Arcane {
                level
            } else {
                0
            },
        },
        weapon_skill: (level * SKILL_CAP_PER_LEVEL) as i32,
        skill_cap: (level * SKILL_CAP_PER_LEVEL) as i32,
        skill_xp: 0,
    }
}

pub fn player_stats(level: i32, discipline: Discipline) -> (r: PlayerStats)
    requires
        player_fits(level as int),
    ensures
        r == specialist(level, discipline),
{
    let gained: i32 = level - 1;
    let points: i32 = gained * ATTR_PER_LEVEL;
    let mut attrs: Attrs = Attrs {
        might: ATTR_BASE,
        swift: ATTR_BASE,
        will: ATTR_BASE,
        grit: ATTR_BASE,
    };
    let ranks: Ranks = match discipline {
        Discipline::Martial => {
            attrs.might = attrs.might + points;
            Ranks { martial: level, hunt: 0, arcane: 0 }
        },
        Discipline::Hunt => {
            attrs.swift = attrs.swift + points;
            Ranks { martial: 0, hunt: level, arcane: 0 }
        },
        Discipline::Arcane => {
            attrs.will = attrs.will + points;
            Ranks { martial: 0, hunt: 0, arcane: level }
        },
    };
    let skill_cap: i32 = level * SKILL_CAP_PER_LEVEL;
    PlayerStats {
        level,
        discipline,
        hp: HP_L1 + HP_PER_LEVEL * gained,
        mana: MANA_L1 + MANA_PER_LEVEL * gained,
        attrs,
        ranks,
        weapon_skill: skill_cap,
        skill_cap,
        skill_xp: 0,
    }
}

impl PlayerStats {
    pub fn melee_hit(&self, strike: bool) -> (r: i32)
        ensures
            r == melee_damage(
                self.attrs.might as int,
                self.weapon_skill as int,
                self.ranks.martial as int,
                strike,
            ),
    {
        melee_hit(self.attrs.might, self.weapon_skill, self.ranks.martial, strike)
    }

    pub fn bow_hit(&self, aimed: bool, distance: i128) -> (r: i32)
        ensures
            r == bow_damage(
                self.attrs.swift as int,
                self.weapon_skill as int,
                self.ranks.hunt as int,
                aimed,
                distance,
            ),
    {
        bow_hit(self.attrs.swift, self.weapon_skill, self.ranks.hunt, aimed, distance)
    }

    pub fn ember(&self) -> (r: i32)
        ensures
            r == ember_damage(
                self.attrs.will as int,
                self.weapon_skill as int,
                self.ranks.arcane as int,
            ),
    {
        ember(self.attrs.will, self.weapon_skill, self.ranks.arcane)
    }

    pub fn mend(&self) -> (r: i32)
        ensures
            r == mend_heal(self.attrs.will as int, self.ranks.arcane as int),
    {
        mend(self.attrs.will, self.ranks.arcane)
    }

    pub fn ward(&self) -> (r: i32)
        ensures
            r == ward_absorb(self.attrs.will as int, self.ranks.arcane as int),
    {
        ward(self.attrs.will, self.ranks.arcane)
    }
}

pub fn melee_raw(p: &PlayerStats, strike: bool) -> (r: i32)
    ensures
        r == melee_damage(
            p.attrs.might as int,
            p.weapon_skill as int,
            p.ranks.martial as int,
            strike,
        ),
{
    p.melee_hit(strike)
}

pub fn bow_raw(p: &PlayerStats, aimed: bool, distance: i128) -> (r: i32)
    ensures
        r == bow_damage(
            p.attrs.swift as int,
            p.weapon_skill as int,
            p.ranks.hunt as int,
            aimed,
            distance,
        ),
{
    p.bow_hit(aimed, distance)
}

pub fn ember_raw(p: &PlayerStats) -> (r: i32)
    ensures
        r == ember_damage(p.attrs.will as int, p.weapon_skill as int, p.ranks.arcane as int),
{
    p.ember()
}

pub fn mend_raw(p: &PlayerStats) -> (r: i32)
    ensures
        r == mend_heal(p.attrs.will as int, p.ranks.arcane as int),
{
    p.mend()
}

pub fn ward_raw(p: &PlayerStats) -> (r: i32)
    ensures
        r == ward_absorb(p.attrs.will as int, p.ranks.arcane as int),
{
    p.ward()
}

#[derive(Clone, Copy, Debug, PartialEq, Eq, Structural)]
pub enum MobKind {
    Wolf,
    Scorpion,
    LineMother,
    GreenBlob,
    Orc,
    Tribal,
    OrcSkull,
    SkeletonWarrior,
    SkeletonMinion,
    SkeletonMage,
    Yeti,
    Demon,
    BlueDemon,
    Bandit,
}

/// The id a mob is stored under.
pub open spec fn mob_id_of(kind: MobKind) -> Seq<char> {
    match kind {
        MobKind::Wolf => "crawler_spider_wolf"@,
        MobKind::Scorpion => "crawler_scorpion"@,
        MobKind::LineMother => "line_mother"@,
        MobKind::GreenBlob => "green_blob"@,
        MobKind::Orc => "orc"@,
        MobKind::Tribal => "tribal"@,
        MobKind::OrcSkull => "orc_skull"@,
        MobKind::SkeletonWarrior => "skeleton_warrior"@,
        MobKind::SkeletonMinion => "skeleton_minion"@,
        MobKind::SkeletonMage => "skeleton_mage"@,
        MobKind::Yeti => "yeti"@,
        MobKind::Demon => "demon"@,
        MobKind::BlueDemon => "blue_demon"@,
        MobKind::Bandit => "bandit"@,
    }
}

/// The name a mob is shown under.
pub open spec fn mob_name_of(kind: MobKind) -> Seq<char> {
    match kind {
        MobKind::Wolf => "wolf-spider"@,
        MobKind::Scorpion => "scorpion"@,
        MobKind::LineMother => "Line-Mother"@,
        MobKind::GreenBlob => "GreenBlob"@,
        MobKind::Orc => "orc"@,
        MobKind::Tribal => "tribal"@,
        MobKind::OrcSkull => "orc-skull"@,
        MobKind::SkeletonWarrior => "Warrior"@,
        MobKind::SkeletonMinion => "Minion"@,
        MobKind::SkeletonMage => "Mage"@,
        MobKind::Yeti => "yeti"@,
        MobKind::Demon => "demon"@,
        MobKind::BlueDemon => "blue_demon"@,
        MobKind::Bandit => "bandit"@,
    }
}

impl MobKind {
    pub fn id(self) -> (r: &'static str)
        ensures
            r@ == mob_id_of(self),
    {
        match self {
            MobKind::Wolf => "crawler_spider_wolf",
            MobKind::Scorpion => "crawler_scorpion",
            MobKind::LineMother => "line_mother",
            MobKind::GreenBlob => "green_blob",
            MobKind::Orc => "orc",
            MobKind::Tribal => "tribal",
            MobKind::OrcSkull => "orc_skull",
            MobKind::SkeletonWarrior => "skeleton_warrior",
            MobKind::SkeletonMinion => "skeleton_minion",
            MobKind::SkeletonMage => "skeleton_mage",
            MobKind::Yeti => "yeti",
            MobKind::Demon => "demon",
            MobKind::BlueDemon => "blue_demon",
            MobKind::Bandit => "bandit",
        }
    }

    pub fn name(self) -> (r: &'static str)
        ensures
            r@ == mob_name_of(self),
    {
        match self {
            MobKind::Wolf => "wolf-spider",
            MobKind::Scorpion => "scorpion",
            MobKind::LineMother => "Line-Mother",
            MobKind::GreenBlob => "GreenBlob",
            MobKind::Orc => "orc",
            MobKind::Tribal => "tribal",
            MobKind::OrcSkull => "orc-skull",
            MobKind::SkeletonWarrior => "Warrior",
            MobKind::SkeletonMinion => "Minion",
            MobKind::SkeletonMage => "Mage",
            MobKind::Yeti => "yeti",
            MobKind::Demon => "demon",
            MobKind::BlueDemon => "blue_demon",
            MobKind::Bandit => "bandit",
        }
    }

    /// What sets the mob apart, in words.
    pub fn specials(self) -> (r: Vec<&'static str>)
        ensures
            r@ == mob_specials(self),
    {
        let mut r: Vec<&'static str> = Vec::new();
        match self {
            MobKind::Scorpion => {
                r.push("poison_3hps_4s_refresh_not_stack");
            },
            MobKind::LineMother => {
                r.push("slam_every_8s_1.2s_telegraph_interruptible");
                r.push("enrage_30pct_dmg*1.3_swing*0.77");
            },
            MobKind::GreenBlob => {
                r.push("slow");
                r.push("no_poison");
            },
            MobKind::Tribal => {
                r.push("punch");
            },
            MobKind::OrcSkull => {
                r.push("punch");
                r.push("weapon_bolt_24m_1.2s_telegraph_interruptible");
            },
            MobKind::SkeletonMage => {
                r.push("punch_a");
                r.push("staff_bolt_24m_1.2s_telegraph_interruptible");
            },
            MobKind::Yeti => {
                r.push("slam_every_8s_1.0s_telegraph_interruptible");
            },
            _ => {},
        }
        assert(r@ =~= mob_specials(self));
        r
    }
}

/// What sets the mob apart, in words.
pub open spec fn mob_specials(kind: MobKind) -> Seq<&'static str> {
    match kind {
        MobKind::Scorpion => seq!["poison_3hps_4s_refresh_not_stack"],
        MobKind::LineMother => seq!["slam_every_8s_1.2s_telegraph_interruptible", "enrage_30pct_dmg*1.3_swing*0.77"],
        MobKind::GreenBlob => seq!["slow", "no_poison"],
        MobKind::Tribal => seq!["punch"],
        MobKind::OrcSkull => seq!["punch", "weapon_bolt_24m_1.2s_telegraph_interruptible"],
        MobKind::SkeletonMage => seq!["punch_a", "staff_bolt_24m_1.2s_telegraph_interruptible"],
        MobKind::Yeti => seq!["slam_every_8s_1.0s_telegraph_interruptible"],
        _ => Seq::empty(),
    }
}

/// The mob that a word names: its id, its name or a short form.
pub open spec fn mob_named(name: Seq<char>) -> Option<MobKind> {
    if name == "crawler_spider_wolf"@ || name == "wolf"@ || name == "wolf-spider"@ || name == "wolf_spider"@ {
        Some(MobKind::Wolf)
    } else if name == "crawler_scorpion"@ || name == "scorpion"@ {
        Some(MobKind::Scorpion)
    } else if name == "line_mother"@ || name == "line-mother"@ || name == "Line-Mother"@ {
        Some(MobKind::LineMother)
    } else if name == "green_blob"@ || name == "GreenBlob"@ || name == "greenblob"@ {
        Some(MobKind::GreenBlob)
    } else if name == "orc"@ {
        Some(MobKind::Orc)
    } else if name == "tribal"@ {
        Some(MobKind::Tribal)
    } else if name == "orc_skull"@ || name == "orc-skull"@ || name == "skull"@ {
        Some(MobKind::OrcSkull)
    } else if name == "skeleton_warrior"@ || name == "Warrior"@ || name == "warrior"@ {
        Some(MobKind::SkeletonWarrior)
    } else if name == "skeleton_minion"@ || name == "Minion"@ || name == "minion"@ {
        Some(MobKind::SkeletonMinion)
    } else if name == "skeleton_mage"@ || name == "Mage"@ || name == "mage"@ {
        Some(MobKind::SkeletonMage)
    } else if name == "yeti"@ {
        Some(MobKind::Yeti)
    } else if name == "demon"@ {
        Some(MobKind::Demon)
    } else if name == "blue_demon"@ || name == "BlueDemon"@ {
        Some(MobKind::BlueDemon)
    } else if name == "bandit"@ || name == "male_bandit"@ {
        Some(MobKind::Bandit)
    } else {
        None
    }
}

/// The mob that a word names; nothing where no mob has that name.
pub fn mob_kind(name: &str) -> (r: Option<MobKind>)
    ensures
        r == mob_named(name@),
{
    if str_eq(name, "crawler_spider_wolf") || str_eq(name, "wolf") || str_eq(name, "wolf-spider") || str_eq(name, "wolf_spider") {
        Some(MobKind::Wolf)
    } else if str_eq(name, "crawler_scorpion") || str_eq(name, "scorpion") {
        Some(MobKind::Scorpion)
    } else if str_eq(name, "line_mother") || str_eq(name, "line-mother") || str_eq(name, "Line-Mother") {
        Some(MobKind::LineMother)
    } else if str_eq(name, "green_blob") || str_eq(name, "GreenBlob") || str_eq(name, "greenblob") {
        Some(MobKind::GreenBlob)
    } else if str_eq(name, "orc") {
        Some(MobKind::Orc)
    } else if str_eq(name, "tribal") {
        Some(MobKind::Tribal)
    } else if str_eq(name, "orc_skull") || str_eq(name, "orc-skull") || str_eq(name, "skull") {
        Some(MobKind::OrcSkull)
    } else if str_eq(name, "skeleton_warrior") || str_eq(name, "Warrior") || str_eq(name, "warrior") {
        Some(MobKind::SkeletonWarrior)
    } else if str_eq(name, "skeleton_minion") || str_eq(name, "Minion") || str_eq(name, "minion") {
        Some(MobKind::SkeletonMinion)
    } else if str_eq(name, "skeleton_mage") || str_eq(name, "Mage") || str_eq(name, "mage") {
        Some(MobKind::SkeletonMage)
    } else if str_eq(name, "yeti") {
        Some(MobKind::Yeti)
    } else if str_eq(name, "demon") {
        Some(MobKind::Demon)
    } else if str_eq(name, "blue_demon") || str_eq(name, "BlueDemon") {
        Some(MobKind::BlueDemon)
    } else if str_eq(name, "bandit") || str_eq(name, "male_bandit") {
        Some(MobKind::Bandit)
    } else {
        None
    }
}

/// What is told of a word that names no mob.
pub open spec fn unknown_mob(name: Seq<char>) -> Seq<char> {
    "unknown mob: "@ + name
}

pub(crate) fn unknown_mob_text(name: &str) -> (r: String)
    ensures
        r@ == unknown_mob(name@),
{
    let mut out: String = owned("unknown mob: ");
    out.append(name);
    out
}

/// The id of the mob that a word names.
pub fn resolve_mob_id(name: &str) -> (r: Result<String, String>)
    ensures
        match mob_named(name@) {
            Some(kind) => r matches Ok(id) && id@ == mob_id_of(kind),
            None => r matches Err(text) && text@ == unknown_mob(name@),
        },
{
    match mob_kind(name) {
        Some(kind) => Ok(owned(kind.id())),
        None => Err(unknown_mob_text(name)),
    }
}

/// The id of a mob names that mob.
pub proof fn law_ids_name_their_mobs(kind: MobKind)
    ensures
        mob_named(mob_id_of(kind)) == Some(kind),
{
    reveal_strlit("crawler_spider_wolf");
    reveal_strlit("wolf");
    reveal_strlit("wolf-spider");
    reveal_strlit("wolf_spider");
    reveal_strlit("crawler_scorpion");
    reveal_strlit("scorpion");
    reveal_strlit("line_mother");
    reveal_strlit("line-mother");
    reveal_strlit("Line-Mother");
    reveal_strlit("green_blob");
    reveal_strlit("GreenBlob");
    reveal_strlit("greenblob");
    reveal_strlit("orc");
    reveal_strlit("tribal");
    reveal_strlit("orc_skull");
    reveal_strlit("orc-skull");
    reveal_strlit("skull");
    reveal_strlit("skeleton_warrior");
    reveal_strlit("Warrior");
    reveal_strlit("warrior");
    reveal_strlit("skeleton_minion");
    reveal_strlit("Minion");
    reveal_strlit("minion");
    reveal_strlit("skeleton_mage");
    reveal_strlit("Mage");
    reveal_strlit("mage");
    reveal_strlit("yeti");
    reveal_strlit("demon");
    reveal_strlit("blue_demon");
    reveal_strlit("BlueDemon");
    reveal_strlit("bandit");
    reveal_strlit("male_bandit");
    assert("GreenBlob"@[0] == 'G');
    assert("Mage"@[0] == 'M');
    assert("Minion"@[0] == 'M');
    assert("bandit"@[0] == 'b');
    assert("blue_demon"@[0] == 'b');
    assert("crawler_scorpion"@[0] == 'c');
    assert("demon"@[0] == 'd');
    assert("green_blob"@[0] == 'g');
    assert("greenblob"@[0] == 'g');
    assert("line_mother"@[0] == 'l');
    assert("mage"@[0] == 'm');
    assert("minion"@[0] == 'm');
    assert("orc_skull"@[0] == 'o');
    assert("skeleton_warrior"@[0] == 's');
    assert("skull"@[0] == 's');
    assert("tribal"@[0] == 't');
    assert("wolf"@[0] == 'w');
    assert("wolf-spider"@[0] == 'w');
    assert("wolf_spider"@[0] == 'w');
    assert("yeti"@[0] == 'y');
    assert("crawler_spider_wolf"@.len() == 19);
    assert("wolf"@.len() == 4);
    assert("wolf-spider"@.len() == 11);
    assert("wolf_spider"@.len() == 11);
    assert("crawler_scorpion"@.len() == 16);
    assert("scorpion"@.len() == 8);
    assert("line_mother"@.len() == 11);
    assert("line-mother"@.len() == 11);
    assert("Line-Mother"@.len() == 11);
    assert("green_blob"@.len() == 10);
    assert("GreenBlob"@.len() == 9);
    assert("greenblob"@.len() == 9);
    assert("orc"@.len() == 3);
    assert("tribal"@.len() == 6);
    assert("orc_skull"@.len() == 9);
    assert("orc-skull"@.len() == 9);
    assert("skull"@.len() == 5);
    assert("skeleton_warrior"@.len() == 16);
    assert("Warrior"@.len() == 7);
    assert("warrior"@.len() == 7);
    assert("skeleton_minion"@.len() == 15);
    assert("Minion"@.len() == 6);
    assert("minion"@.len() == 6);
    assert("skeleton_mage"@.len() == 13);
    assert("Mage"@.len() == 4);
    assert("mage"@.len() == 4);
    assert("yeti"@.len() == 4);
    assert("demon"@.len() == 5);
    assert("blue_demon"@.len() == 10);
    assert("BlueDemon"@.len() == 9);
    assert("bandit"@.len() == 6);
    assert("male_bandit"@.len() == 11);
}

/// A mob's numbers. Times and distances are quantities.
#[derive(Clone, Copy, Debug, PartialEq, Eq, Structural)]
pub struct MobSheet {
    pub kind: MobKind,
    pub level: i32,
    pub hp: i32,
    pub armor: i32,
    pub damage: i32,
    pub swing_s: i128,
    pub slam_damage: Option<i32>,
    pub slam_every_s: Option<i128>,
    pub telegraph_s: Option<i128>,
    pub reach_m: i128,
    pub speed_mps: i128,
    /// The way made in a tick, and in a tick while slowed.
    pub step_m: i128,
    pub slow_step_m: i128,
    pub sight_m: i128,
    pub hear_m: i128,
    pub leash_m: i128,
    pub social_m: i128,
    pub xp: i32,
    pub token_brood: i32,
}

/// The wolf-spider's numbers, which grow with its level.
pub open spec fn wolf_of(level: i32) -> MobSheet {
    MobSheet {
        kind: MobKind::Wolf,
        level,
        hp: (WOLF_HP_BASE + WOLF_HP_PER * (level - 1)) as i32,
        armor: WOLF_ARMOR,
        damage: (WOLF_DMG_BASE + WOLF_DMG_PER * (level - 1)) as i32,
        swing_s: WOLF_SWING_S,
        slam_damage: None,
        slam_every_s: None,
        telegraph_s: None,
        reach_m: WOLF_REACH_M,
        speed_mps: WOLF_SPEED,
        step_m: 599_519_182_395_560_448,
        slow_step_m: 359_711_509_437_336_320,
        sight_m: SIGHT_AGGRO_M,
        hear_m: HEAR_AGGRO_M,
        leash_m: LEASH_M,
        social_m: SOCIAL_M,
        xp: (WOLF_XP_BASE + WOLF_XP_PER * (level - 1)) as i32,
        token_brood: 1,
    }
}

/// The numbers of a mob. Wolf-spiders and mobs without a level of their own stand
/// at `level`.
pub open spec fn sheet_of(kind: MobKind, level: i32) -> MobSheet {
    match kind {
        MobKind::Wolf => wolf_of(level),
        MobKind::Scorpion => MobSheet { kind: MobKind::Scorpion, ..wolf_of(3) },
        MobKind::LineMother => MobSheet {
            kind: MobKind::LineMother,
            level: 9,
            hp: MOTHER_HP,
            armor: MOTHER_ARMOR,
            damage: MOTHER_DMG,
            swing_s: MOTHER_SWING_S,
            slam_damage: Some(MOTHER_SLAM),
            slam_every_s: Some(MOTHER_SLAM_EVERY_S),
            telegraph_s: Some(MOTHER_TELE_S),
            reach_m: MOTHER_REACH_M,
            speed_mps: MOTHER_SPEED,
            step_m: 368_934_881_474_191_104,
            slow_step_m: 221_360_928_884_514_624,
            sight_m: SIGHT_AGGRO_M,
            hear_m: HEAR_AGGRO_M,
            leash_m: LEASH_M,
            social_m: SOCIAL_M,
            xp: MOTHER_XP,
            token_brood: MOTHER_TOKEN,
        },
        MobKind::GreenBlob => MobSheet {
            kind: MobKind::GreenBlob,
            level: 2,
            hp: BLOB_HP,
            armor: BLOB_ARMOR,
            damage: BLOB_DMG,
            swing_s: BLOB_SWING_S,
            slam_damage: None,
            slam_every_s: None,
            telegraph_s: None,
            reach_m: BLOB_REACH_M,
            speed_mps: BLOB_SPEED,
            step_m: 599_519_182_395_560_448,
            slow_step_m: 359_711_509_437_336_320,
            sight_m: SIGHT_AGGRO_M,
            hear_m: HEAR_AGGRO_M,
            leash_m: LEASH_M,
            social_m: SOCIAL_M,
            xp: BLOB_XP,
            token_brood: 0,
        },
        MobKind::Orc => MobSheet {
            kind: MobKind::Orc,
            level: level,
            hp: ORC_HP,
            armor: ORC_ARMOR,
            damage: ORC_DMG,
            swing_s: ORC_SWING_S,
            slam_damage: None,
            slam_every_s: None,
            telegraph_s: None,
            reach_m: ORC_REACH_M,
            speed_mps: ORC_SPEED,
            step_m: 403_522_526_612_396_480,
            slow_step_m: 242_113_515_967_437_888,
            sight_m: SIGHT_AGGRO_M,
            hear_m: HEAR_AGGRO_M,
            leash_m: LEASH_M,
            social_m: SOCIAL_M,
            xp: ORC_XP,
            token_brood: 0,
        },
        MobKind::Tribal => MobSheet {
            kind: MobKind::Tribal,
            level: TRIBAL_LEVEL,
            hp: TRIBAL_HP,
            armor: TRIBAL_ARMOR,
            damage: TRIBAL_DMG,
            swing_s: TRIBAL_SWING_S,
            slam_damage: None,
            slam_every_s: None,
            telegraph_s: None,
            reach_m: TRIBAL_REACH_M,
            speed_mps: TRIBAL_SPEED,
            step_m: 576_460_752_303_423_488,
            slow_step_m: 345_876_451_382_054_144,
            sight_m: SIGHT_AGGRO_M,
            hear_m: HEAR_AGGRO_M,
            leash_m: LEASH_M,
            social_m: SOCIAL_M,
            xp: TRIBAL_XP,
            token_brood: 0,
        },
        MobKind::OrcSkull => MobSheet {
            kind: MobKind::OrcSkull,
            level: SKULL_LEVEL,
            hp: SKULL_HP,
            armor: SKULL_ARMOR,
            damage: SKULL_DMG,
            swing_s: SKULL_SWING_S,
            slam_damage: Some(SKULL_BOLT_DMG),
            slam_every_s: Some(0),
            telegraph_s: Some(SKULL_TELE_S),
            reach_m: SKULL_REACH_M,
            speed_mps: SKULL_SPEED,
            step_m: 553_402_322_211_286_528,
            slow_step_m: 332_041_393_326_771_904,
            sight_m: SIGHT_AGGRO_M,
            hear_m: HEAR_AGGRO_M,
            leash_m: LEASH_M,
            social_m: SOCIAL_M,
            xp: SKULL_XP,
            token_brood: 0,
        },
        MobKind::SkeletonWarrior => MobSheet {
            kind: MobKind::SkeletonWarrior,
            level: BONE_LEVEL,
            hp: WARRIOR_HP,
            armor: WARRIOR_ARMOR,
            damage: WARRIOR_DMG,
            swing_s: WARRIOR_SWING_S,
            slam_damage: None,
            slam_every_s: None,
            telegraph_s: None,
            reach_m: WARRIOR_REACH_M,
            speed_mps: WARRIOR_SPEED,
            step_m: 599_519_182_395_560_448,
            slow_step_m: 359_711_509_437_336_320,
            sight_m: SIGHT_AGGRO_M,
            hear_m: HEAR_AGGRO_M,
            leash_m: LEASH_M,
            social_m: SOCIAL_M,
            xp: WARRIOR_XP,
            token_brood: 0,
        },
        MobKind::SkeletonMinion => MobSheet {
            kind: MobKind::SkeletonMinion,
            level: BONE_LEVEL,
            hp: MINION_HP,
            armor: WARRIOR_ARMOR,
            damage: WARRIOR_DMG,
            swing_s: WARRIOR_SWING_S,
            slam_damage: None,
            slam_every_s: None,
            telegraph_s: None,
            reach_m: WARRIOR_REACH_M,
            speed_mps: WARRIOR_SPEED,
            step_m: 599_519_182_395_560_448,
            slow_step_m: 359_711_509_437_336_320,
            sight_m: SIGHT_AGGRO_M,
            hear_m: HEAR_AGGRO_M,
            leash_m: LEASH_M,
            social_m: SOCIAL_M,
            xp: WARRIOR_XP,
            token_brood: 0,
        },
        MobKind::SkeletonMage => MobSheet {
            kind: MobKind::SkeletonMage,
            level: BONE_LEVEL,
            hp: MAGE_HP,
            armor: WARRIOR_ARMOR,
            damage: WARRIOR_DMG,
            swing_s: WARRIOR_SWING_S,
            slam_damage: Some(MAGE_BOLT_DMG),
            slam_every_s: Some(0),
            telegraph_s: Some(MAGE_TELE_S),
            reach_m: WARRIOR_REACH_M,
            speed_mps: WARRIOR_SPEED,
            step_m: 599_519_182_395_560_448,
            slow_step_m: 359_711_509_437_336_320,
            sight_m: SIGHT_AGGRO_M,
            hear_m: HEAR_AGGRO_M,
            leash_m: LEASH_M,
            social_m: SOCIAL_M,
            xp: WARRIOR_XP,
            token_brood: 0,
        },
        MobKind::Yeti => MobSheet {
            kind: MobKind::Yeti,
            level: level,
            hp: YETI_HP,
            armor: YETI_ARMOR,
            damage: YETI_DMG,
            swing_s: YETI_SWING_S,
            slam_damage: Some(YETI_SLAM),
            slam_every_s: Some(YETI_SLAM_EVERY_S),
            telegraph_s: Some(YETI_TELE_S),
            reach_m: YETI_REACH_M,
            speed_mps: YETI_SPEED,
            step_m: 345_876_451_382_054_144,
            slow_step_m: 207_525_870_829_232_448,
            sight_m: SIGHT_AGGRO_M,
            hear_m: HEAR_AGGRO_M,
            leash_m: LEASH_M,
            social_m: SOCIAL_M,
            xp: YETI_XP,
            token_brood: 0,
        },
        MobKind::Demon => MobSheet {
            kind: MobKind::Demon,
            level: level,
            hp: DEMON_HP,
            armor: DEMON_ARMOR,
            damage: DEMON_DMG,
            swing_s: DEMON_SWING_S,
            slam_damage: None,
            slam_every_s: None,
            telegraph_s: None,
            reach_m: DEMON_REACH_M,
            speed_mps: DEMON_SPEED,
            step_m: 368_934_881_474_191_104,
            slow_step_m: 221_360_928_884_514_624,
            sight_m: SIGHT_AGGRO_M,
            hear_m: HEAR_AGGRO_M,
            leash_m: LEASH_M,
            social_m: SOCIAL_M,
            xp: DEMON_XP,
            token_brood: 0,
        },
        MobKind::BlueDemon => MobSheet {
            kind: MobKind::BlueDemon,
            level: level,
            hp: BLUE_DEMON_HP,
            armor: BLUE_DEMON_ARMOR,
            damage: BLUE_DEMON_DMG,
            swing_s: BLUE_DEMON_SWING_S,
            slam_damage: None,
            slam_every_s: None,
            telegraph_s: None,
            reach_m: BLUE_DEMON_REACH_M,
            speed_mps: BLUE_DEMON_SPEED,
            step_m: 415_051_741_658_464_960,
            slow_step_m: 249_031_044_995_078_976,
            sight_m: SIGHT_AGGRO_M,
            hear_m: HEAR_AGGRO_M,
            leash_m: LEASH_M,
            social_m: SOCIAL_M,
            xp: BLUE_DEMON_XP,
            token_brood: 0,
        },
        MobKind::Bandit => MobSheet {
            kind: MobKind::Bandit,
            level: BANDIT_LEVEL,
            hp: BANDIT_HP,
            armor: BANDIT_ARMOR,
            damage: BANDIT_DMG,
            swing_s: BANDIT_SWING_S,
            slam_damage: None,
            slam_every_s: None,
            telegraph_s: None,
            reach_m: BANDIT_REACH_M,
            speed_mps: BANDIT_SPEED,
            step_m: 576_460_752_303_423_488,
            slow_step_m: 345_876_451_382_054_144,
            sight_m: SIGHT_AGGRO_M,
            hear_m: HEAR_AGGRO_M,
            leash_m: LEASH_M,
            social_m: SOCIAL_M,
            xp: BANDIT_XP,
            token_brood: 0,
        },
    }
}

pub fn wolf_sheet(level: i32) -> (r: MobSheet)
    requires
        wolf_fits(level as int),
    ensures
        r == wolf_of(level),
{
    MobSheet {
        kind: MobKind::Wolf,
        level,
        hp: WOLF_HP_BASE + WOLF_HP_PER * (level - 1),
        armor: WOLF_ARMOR,
        damage: WOLF_DMG_BASE + WOLF_DMG_PER * (level - 1),
        swing_s: WOLF_SWING_S,
        slam_damage: None,
        slam_every_s: None,
        telegraph_s: None,
        reach_m: WOLF_REACH_M,
        speed_mps: WOLF_SPEED,
        step_m: 599_519_182_395_560_448,
        slow_step_m: 359_711_509_437_336_320,
        sight_m: SIGHT_AGGRO_M,
        hear_m: HEAR_AGGRO_M,
        leash_m: LEASH_M,
        social_m: SOCIAL_M,
        xp: WOLF_XP_BASE + WOLF_XP_PER * (level - 1),
        token_brood: 1,
    }
}

pub fn scorpion_sheet() -> (r: MobSheet)
    ensures
        r == sheet_of(MobKind::Scorpion, 0),
{
    let mut r: MobSheet = wolf_sheet(3);
    r.kind = MobKind::Scorpion;
    r
}

pub fn mother_sheet() -> (r: MobSheet)
    ensures
        r == sheet_of(MobKind::LineMother, 0),
{
    MobSheet {
        kind: MobKind::LineMother,
        level: 9,
        hp: MOTHER_HP,
        armor: MOTHER_ARMOR,
        damage: MOTHER_DMG,
        swing_s: MOTHER_SWING_S,
        slam_damage: Some(MOTHER_SLAM),
        slam_every_s: Some(MOTHER_SLAM_EVERY_S),
        telegraph_s: Some(MOTHER_TELE_S),
        reach_m: MOTHER_REACH_M,
        speed_mps: MOTHER_SPEED,
        step_m: 368_934_881_474_191_104,
        slow_step_m: 221_360_928_884_514_624,
        sight_m: SIGHT_AGGRO_M,
        hear_m: HEAR_AGGRO_M,
        leash_m: LEASH_M,
        social_m: SOCIAL_M,
        xp: MOTHER_XP,
        token_brood: MOTHER_TOKEN,
    }
}

pub fn blob_sheet() -> (r: MobSheet)
    ensures
        r == sheet_of(MobKind::GreenBlob, 0),
{
    MobSheet {
        kind: MobKind::GreenBlob,
        level: 2,
        hp: BLOB_HP,
        armor: BLOB_ARMOR,
        damage: BLOB_DMG,
        swing_s: BLOB_SWING_S,
        slam_damage: None,
        slam_every_s: None,
        telegraph_s: None,
        reach_m: BLOB_REACH_M,
        speed_mps: BLOB_SPEED,
        step_m: 599_519_182_395_560_448,
        slow_step_m: 359_711_509_437_336_320,
        sight_m: SIGHT_AGGRO_M,
        hear_m: HEAR_AGGRO_M,
        leash_m: LEASH_M,
        social_m: SOCIAL_M,
        xp: BLOB_XP,
        token_brood: 0,
    }
}

pub fn orc_sheet(level: i32) -> (r: MobSheet)
    ensures
        r == sheet_of(MobKind::Orc, level),
{
    MobSheet {
        kind: MobKind::Orc,
        level: level,
        hp: ORC_HP,
        armor: ORC_ARMOR,
        damage: ORC_DMG,
        swing_s: ORC_SWING_S,
        slam_damage: None,
        slam_every_s: None,
        telegraph_s: None,
        reach_m: ORC_REACH_M,
        speed_mps: ORC_SPEED,
        step_m: 403_522_526_612_396_480,
        slow_step_m: 242_113_515_967_437_888,
        sight_m: SIGHT_AGGRO_M,
        hear_m: HEAR_AGGRO_M,
        leash_m: LEASH_M,
        social_m: SOCIAL_M,
        xp: ORC_XP,
        token_brood: 0,
    }
}

pub fn tribal_sheet() -> (r: MobSheet)
    ensures
        r == sheet_of(MobKind::Tribal, 0),
{
    MobSheet {
        kind: MobKind::Tribal,
        level: TRIBAL_LEVEL,
        hp: TRIBAL_HP,
        armor: TRIBAL_ARMOR,
        damage: TRIBAL_DMG,
        swing_s: TRIBAL_SWING_S,
        slam_damage: None,
        slam_every_s: None,
        telegraph_s: None,
        reach_m: TRIBAL_REACH_M,
        speed_mps: TRIBAL_SPEED,
        step_m: 576_460_752_303_423_488,
        slow_step_m: 345_876_451_382_054_144,
        sight_m: SIGHT_AGGRO_M,
        hear_m: HEAR_AGGRO_M,
        leash_m: LEASH_M,
        social_m: SOCIAL_M,
        xp: TRIBAL_XP,
        token_brood: 0,
    }
}

pub fn orc_skull_sheet() -> (r: MobSheet)
    ensures
        r == sheet_of(MobKind::OrcSkull, 0),
{
    MobSheet {
        kind: MobKind::OrcSkull,
        level: SKULL_LEVEL,
        hp: SKULL_HP,
        armor: SKULL_ARMOR,
        damage: SKULL_DMG,
        swing_s: SKULL_SWING_S,
        slam_damage: Some(SKULL_BOLT_DMG),
        slam_every_s: Some(0),
        telegraph_s: Some(SKULL_TELE_S),
        reach_m: SKULL_REACH_M,
        speed_mps: SKULL_SPEED,
        step_m: 553_402_322_211_286_528,
        slow_step_m: 332_041_393_326_771_904,
        sight_m: SIGHT_AGGRO_M,
        hear_m: HEAR_AGGRO_M,
        leash_m: LEASH_M,
        social_m: SOCIAL_M,
        xp: SKULL_XP,
        token_brood: 0,
    }
}

pub fn skeleton_warrior_sheet() -> (r: MobSheet)
    ensures
        r == sheet_of(MobKind::SkeletonWarrior, 0),
{
    MobSheet {
        kind: MobKind::SkeletonWarrior,
        level: BONE_LEVEL,
        hp: WARRIOR_HP,
        armor: WARRIOR_ARMOR,
        damage: WARRIOR_DMG,
        swing_s: WARRIOR_SWING_S,
        slam_damage: None,
        slam_every_s: None,
        telegraph_s: None,
        reach_m: WARRIOR_REACH_M,
        speed_mps: WARRIOR_SPEED,
        step_m: 599_519_182_395_560_448,
        slow_step_m: 359_711_509_437_336_320,
        sight_m: SIGHT_AGGRO_M,
        hear_m: HEAR_AGGRO_M,
        leash_m: LEASH_M,
        social_m: SOCIAL_M,
        xp: WARRIOR_XP,
        token_brood: 0,
    }
}

pub fn skeleton_minion_sheet() -> (r: MobSheet)
    ensures
        r == sheet_of(MobKind::SkeletonMinion, 0),
{
    MobSheet {
        kind: MobKind::SkeletonMinion,
        level: BONE_LEVEL,
        hp: MINION_HP,
        armor: WARRIOR_ARMOR,
        damage: WARRIOR_DMG,
        swing_s: WARRIOR_SWING_S,
        slam_damage: None,
        slam_every_s: None,
        telegraph_s: None,
        reach_m: WARRIOR_REACH_M,
        speed_mps: WARRIOR_SPEED,
        step_m: 599_519_182_395_560_448,
        slow_step_m: 359_711_509_437_336_320,
        sight_m: SIGHT_AGGRO_M,
        hear_m: HEAR_AGGRO_M,
        leash_m: LEASH_M,
        social_m: SOCIAL_M,
        xp: WARRIOR_XP,
        token_brood: 0,
    }
}

pub fn skeleton_mage_sheet() -> (r: MobSheet)
    ensures
        r == sheet_of(MobKind::SkeletonMage, 0),
{
    MobSheet {
        kind: MobKind::SkeletonMage,
        level: BONE_LEVEL,
        hp: MAGE_HP,
        armor: WARRIOR_ARMOR,
        damage: WARRIOR_DMG,
        swing_s: WARRIOR_SWING_S,
        slam_damage: Some(MAGE_BOLT_DMG),
        slam_every_s: Some(0),
        telegraph_s: Some(MAGE_TELE_S),
        reach_m: WARRIOR_REACH_M,
        speed_mps: WARRIOR_SPEED,
        step_m: 599_519_182_395_560_448,
        slow_step_m: 359_711_509_437_336_320,
        sight_m: SIGHT_AGGRO_M,
        hear_m: HEAR_AGGRO_M,
        leash_m: LEASH_M,
        social_m: SOCIAL_M,
        xp: WARRIOR_XP,
        token_brood: 0,
    }
}

pub fn yeti_sheet(level: i32) -> (r: MobSheet)
    ensures
        r == sheet_of(MobKind::Yeti, level),
{
    MobSheet {
        kind: MobKind::Yeti,
        level: level,
        hp: YETI_HP,
        armor: YETI_ARMOR,
        damage: YETI_DMG,
        swing_s: YETI_SWING_S,
        slam_damage: Some(YETI_SLAM),
        slam_every_s: Some(YETI_SLAM_EVERY_S),
        telegraph_s: Some(YETI_TELE_S),
        reach_m: YETI_REACH_M,
        speed_mps: YETI_SPEED,
        step_m: 345_876_451_382_054_144,
        slow_step_m: 207_525_870_829_232_448,
        sight_m: SIGHT_AGGRO_M,
        hear_m: HEAR_AGGRO_M,
        leash_m: LEASH_M,
        social_m: SOCIAL_M,
        xp: YETI_XP,
        token_brood: 0,
    }
}

pub fn demon_sheet(level: i32) -> (r: MobSheet)
    ensures
        r == sheet_of(MobKind::Demon, level),
{
    MobSheet {
        kind: MobKind::Demon,
        level: level,
        hp: DEMON_HP,
        armor: DEMON_ARMOR,
        damage: DEMON_DMG,
        swing_s: DEMON_SWING_S,
        slam_damage: None,
        slam_every_s: None,
        telegraph_s: None,
        reach_m: DEMON_REACH_M,
        speed_mps: DEMON_SPEED,
        step_m: 368_934_881_474_191_104,
        slow_step_m: 221_360_928_884_514_624,
        sight_m: SIGHT_AGGRO_M,
        hear_m: HEAR_AGGRO_M,
        leash_m: LEASH_M,
        social_m: SOCIAL_M,
        xp: DEMON_XP,
        token_brood: 0,
    }
}

pub fn blue_demon_sheet(level: i32) -> (r: MobSheet)
    ensures
        r == sheet_of(MobKind::BlueDemon, level),
{
    MobSheet {
        kind: MobKind::BlueDemon,
        level: level,
        hp: BLUE_DEMON_HP,
        armor: BLUE_DEMON_ARMOR,
        damage: BLUE_DEMON_DMG,
        swing_s: BLUE_DEMON_SWING_S,
        slam_damage: None,
        slam_every_s: None,
        telegraph_s: None,
        reach_m: BLUE_DEMON_REACH_M,
        speed_mps: BLUE_DEMON_SPEED,
        step_m: 415_051_741_658_464_960,
        slow_step_m: 249_031_044_995_078_976,
        sight_m: SIGHT_AGGRO_M,
        hear_m: HEAR_AGGRO_M,
        leash_m: LEASH_M,
        social_m: SOCIAL_M,
        xp: BLUE_DEMON_XP,
        token_brood: 0,
    }
}

pub fn bandit_sheet() -> (r: MobSheet)
    ensures
        r == sheet_of(MobKind::Bandit, 0),
{
    MobSheet {
        kind: MobKind::Bandit,
        level: BANDIT_LEVEL,
        hp: BANDIT_HP,
        armor: BANDIT_ARMOR,
        damage: BANDIT_DMG,
        swing_s: BANDIT_SWING_S,
        slam_damage: None,
        slam_every_s: None,
        telegraph_s: None,
        reach_m: BANDIT_REACH_M,
        speed_mps: BANDIT_SPEED,
        step_m: 576_460_752_303_423_488,
        slow_step_m: 345_876_451_382_054_144,
        sight_m: SIGHT_AGGRO_M,
        hear_m: HEAR_AGGRO_M,
        leash_m: LEASH_M,
        social_m: SOCIAL_M,
        xp: BANDIT_XP,
        token_brood: 0,
    }
}

/// The sheet of the mob that a word names. `level` is the level of a wolf-spider
/// or of a mob without a level of its own, 1 where it is not given.
pub fn mob_sheet(id: &str, level: Option<i32>) -> (r: Result<MobSheet, String>)
    requires
        level is Some && mob_named(id@) == Some(MobKind::Wolf) ==> wolf_fits(level->0 as int),
    ensures
        match mob_named(id@) {
            Some(kind) => r == Ok::<MobSheet, String>(
                sheet_of(
                    kind,
                    match level {
                        Some(l) => l,
                        None => 1,
                    },
                ),
            ),
            None => r matches Err(text) && text@ == unknown_mob(id@),
        },
{
    let at: i32 = match level {
        Some(l) => l,
        None => 1,
    };
    match mob_kind(id) {
        Some(kind) => Ok(sheet_for(kind, at)),
        None => Err(unknown_mob_text(id)),
    }
}

/// The sheet of a mob.
pub fn sheet_for(kind: MobKind, level: i32) -> (r: MobSheet)
    requires
        kind == MobKind::Wolf ==> wolf_fits(level as int),
    ensures
        r == sheet_of(kind, level),
{
    match kind {
        MobKind::Wolf => wolf_sheet(level),
        MobKind::Scorpion => scorpion_sheet(),
        MobKind::LineMother => mother_sheet(),
        MobKind::GreenBlob => blob_sheet(),
        MobKind::Orc => orc_sheet(level),
        MobKind::Tribal => tribal_sheet(),
        MobKind::OrcSkull => orc_skull_sheet(),
        MobKind::SkeletonWarrior => skeleton_warrior_sheet(),
        MobKind::SkeletonMinion => skeleton_minion_sheet(),
        MobKind::SkeletonMage => skeleton_mage_sheet(),
        MobKind::Yeti => yeti_sheet(level),
        MobKind::Demon => demon_sheet(level),
        MobKind::BlueDemon => blue_demon_sheet(level),
        MobKind::Bandit => bandit_sheet(),
    }
}

/// The experience from a level to the next.
pub open spec fn xp_step(from_level: int) -> Option<int> {
    if from_level == 1 {
        Some(200)
    } else if from_level == 2 {
        Some(250)
    } else if from_level == 3 {
        Some(300)
    } else if from_level == 4 {
        Some(550)
    } else if from_level == 5 {
        Some(700)
    } else if from_level == 6 {
        Some(850)
    } else if from_level == 7 {
        Some(1000)
    } else if from_level == 8 {
        Some(1200)
    } else if from_level == 9 {
        Some(1500)
    } else {
        None
    }
}

pub fn xp_to_next(from_level: i32) -> (r: Option<i32>)
    ensures
        match r {
            Some(xp) => xp_step(from_level as int) == Some(xp as int) && 200 <= xp <= 1500,
            None => xp_step(from_level as int) is None,
        },
{
    match from_level {
        1 => Some(200),
        2 => Some(250),
        3 => Some(300),
        4 => Some(550),
        5 => Some(700),
        6 => Some(850),
        7 => Some(1000),
        8 => Some(1200),
        9 => Some(1500),
        _ => None,
    }
}

/// The value of a dungeon tier out of three, `other` for any other tier.
pub open spec fn by_tier(tier: int, d1: int, d2: int, t2: int, other: int) -> int {
    if tier == 0 {
        d1
    } else if tier == 1 {
        d2
    } else if tier == 2 {
        t2
    } else {
        other
    }
}

pub fn heart_bonus(tier: i32) -> (r: i32)
    ensures
        r == by_tier(tier as int, 40, 70, 120, 0),
{
    match tier {
        0 => 40,
        1 => 70,
        2 => 120,
        _ => 0,
    }
}

pub fn first_clear(tier: i32) -> (r: i32)
    ensures
        r == by_tier(tier as int, 80, 140, 200, 0),
{
    match tier {
        0 => 80,
        1 => 140,
        2 => 200,
        _ => 0,
    }
}

pub fn min_per_dungeon(tier: i32) -> (r: i32)
    ensures
        r == by_tier(tier as int, 4, 7, 12, 0),
{
    match tier {
        0 => 4,
        1 => 7,
        2 => 12,
        _ => 0,
    }
}

pub fn dungeon_wolves(tier: i32) -> (r: i32)
    ensures
        r == by_tier(tier as int, 2, 4, 6, 0),
{
    match tier {
        0 => 2,
        1 => 4,
        2 => 6,
        _ => 0,
    }
}

pub fn dungeon_wolf_level(tier: i32) -> (r: i32)
    ensures
        r == by_tier(tier as int, 1, 4, 6, 1),
{
    match tier {
        0 => 1,
        1 => 4,
        2 => 6,
        _ => 1,
    }
}

/// What clearing a dungeon gives.
#[derive(Clone, Copy, Debug, PartialEq, Eq, Structural)]
pub struct DungeonXp {
    pub tier: i32,
    pub first: bool,
    pub trash_xp: i32,
    pub elite_xp: i32,
    pub heart_bonus: i32,
    pub first_clear: i32,
    pub total: i32,
    pub minutes: i32,
}

/// The experience of the wolves, the elite, the heart and the first clear.
pub open spec fn dungeon_xp_of(tier: i32, first: bool) -> DungeonXp {
    let trash = by_tier(tier as int, 70, 284, 570, 0);
    let elite: int = if tier == 2 {
        280
    } else {
        0
    };
    let heart = by_tier(tier as int, 40, 70, 120, 0);
    let bonus = if first {
        by_tier(tier as int, 80, 140, 200, 0)
    } else {
        0
    };
    DungeonXp {
        tier,
        first,
        trash_xp: trash as i32,
        elite_xp: elite as i32,
        heart_bonus: heart as i32,
        first_clear: bonus as i32,
        total: (trash + elite + heart + bonus) as i32,
        minutes: by_tier(tier as int, 4, 7, 12, 0) as i32,
    }
}

pub fn dungeon_xp(tier: i32, first: bool) -> (r: DungeonXp)
    ensures
        r == dungeon_xp_of(tier, first),
{
    let n: i32 = dungeon_wolves(tier);
    let wolf: MobSheet = wolf_sheet(dungeon_wolf_level(tier));
    assert(0 <= n <= 6);
    assert(wolf.xp == by_tier(tier as int, 35, 71, 95, 35));
    let trash: i32 = n * wolf.xp;
    let elite: i32 = if tier == 2 {
        MOTHER_XP
    } else {
        0
    };
    let heart: i32 = heart_bonus(tier);
    let bonus: i32 = if first {
        first_clear(tier)
    } else {
        0
    };
    DungeonXp {
        tier,
        first,
        trash_xp: trash,
        elite_xp: elite,
        heart_bonus: heart,
        first_clear: bonus,
        total: trash + elite + heart + bonus,
        minutes: min_per_dungeon(tier),
    }
}

/// A fighter of a higher level has more health and mana, and is at home in one discipline: its
/// attribute is above the others, and no other has a rank.
pub proof fn law_specialists_rise(level: i32, higher: i32, d: Discipline)
    requires
        1 <= level < higher,
        player_fits(higher as int),
        player_fits(level as int),
    ensures
        specialist(level, d).hp == 100 + 12 * (level - 1),
        specialist(level, d).mana == 50 + 6 * (level - 1),
        specialist(level, d).hp < specialist(higher, d).hp,
        specialist(level, d).mana < specialist(higher, d).mana,
        specialist(level, d).weapon_skill < specialist(higher, d).weapon_skill,
        d == Discipline::Martial ==> specialist(higher, d).attrs.might > specialist(
            level,
            d,
        ).attrs.might && specialist(level, d).ranks.martial == level && specialist(
            level,
            d,
        ).ranks.hunt == 0 && specialist(level, d).ranks.arcane == 0,
        d == Discipline::Hunt ==> specialist(higher, d).attrs.swift > specialist(
            level,
            d,
        ).attrs.swift && specialist(level, d).ranks.hunt == level && specialist(
            level,
            d,
        ).ranks.martial == 0 && specialist(level, d).ranks.arcane == 0,
        d == Discipline::Arcane ==> specialist(higher, d).attrs.will > specialist(
            level,
            d,
        ).attrs.will && specialist(level, d).ranks.arcane == level && specialist(
            level,
            d,
        ).ranks.martial == 0 && specialist(level, d).ranks.hunt == 0,
{
}

/// A wolf-spider of a higher level has more health, bites harder and is worth more.
pub proof fn law_wolves_rise(level: i32, higher: i32)
    requires
        1 <= level < higher,
        wolf_fits(level as int),
        wolf_fits(higher as int),
    ensures
        wolf_of(level).hp == 70 + 18 * (level - 1),
        wolf_of(level).damage == 10 + 2 * (level - 1),
        wolf_of(level).xp == 35 + 12 * (level - 1),
        wolf_of(level).hp < wolf_of(higher).hp,
        wolf_of(level).damage < wolf_of(higher).damage,
        wolf_of(level).xp < wolf_of(higher).xp,
{
}

/// Every level takes more experience than the one before it, up to the tenth.
pub proof fn law_levels_take_ever_more(level: int)
    requires
        1 <= level <= 9,
    ensures
        xp_step(level) is Some,
        level < 9 ==> xp_step(level)->0 < xp_step(level + 1)->0,
        xp_step(10) is None,
        xp_step(0) is None,
{
}

/// A deeper dungeon gives more experience and takes longer; the first clear gives more than a
/// later one, by its bonus.
pub proof fn law_deeper_dungeons_give_more(tier: i32)
    requires
        0 <= tier <= 2,
    ensures
        dungeon_xp_of(tier, true).total == dungeon_xp_of(tier, false).total + dungeon_xp_of(
            tier,
            true,
        ).first_clear,
        dungeon_xp_of(tier, true).first_clear > 0,
        dungeon_xp_of(tier, false).first_clear == 0,
        tier < 2 ==> dungeon_xp_of(tier, false).total < dungeon_xp_of((tier + 1) as i32, false).total,
        tier < 2 ==> dungeon_xp_of(tier, false).minutes < dungeon_xp_of(
            (tier + 1) as i32,
            false,
        ).minutes,
        dungeon_xp_of(tier, false).total == dungeon_xp_of(tier, false).trash_xp + dungeon_xp_of(
            tier,
            false,
        ).elite_xp + dungeon_xp_of(tier, false).heart_bonus,
{
}

} // verus!
