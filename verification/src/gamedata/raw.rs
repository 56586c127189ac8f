//! The data as it was authored: plain records, their kinds still words.

use crate::measure::Real;
use vstd::prelude::*;

verus! {

/// A trainable proficiency.
#[derive(Clone, Debug)]
pub struct RawSkill {
    pub id: String,
    pub name: String,
    pub description: String,
    pub level_scale: Real,
}

/// A faction.
#[derive(Clone, Debug)]
pub struct RawFaction {
    pub id: String,
    pub name: String,
    pub neutral: bool,
}

/// An effect of the catalog.
#[derive(Clone, Debug)]
pub struct RawEffect {
    pub id: String,
    pub name: String,
    pub operation: String,
    pub skill_id: String,
    pub progression: String,
}

/// An effect as an action applies it.
#[derive(Clone, Debug)]
pub struct RawActionEffect {
    pub effect_id: String,
    pub magnitude: Real,
    pub application: String,
    pub range_m: Real,
    pub radius_m: Real,
    pub angle_deg: Real,
    pub duration_s: Real,
    pub movement_multiplier: Real,
}

/// An action.
#[derive(Clone, Debug)]
pub struct RawAction {
    pub id: String,
    pub name: String,
    pub description: String,
    pub target: String,
    pub mana_cost: Real,
    pub cast_s: Real,
    pub cooldown_s: Real,
    pub interruptible: bool,
    pub reveals: bool,
    pub effects: Vec<RawActionEffect>,
}

/// A skill an actor starts with.
#[derive(Clone, Debug)]
pub struct RawProfileSkill {
    pub id: String,
    pub level: i32,
}

/// A player profile.
#[derive(Clone, Debug)]
pub struct RawPlayerProfile {
    pub id: String,
    pub name: String,
    pub faction: String,
    pub skills: Vec<RawProfileSkill>,
    pub actions: Vec<String>,
}

/// A mob.
#[derive(Clone, Debug)]
pub struct RawMobDefinition {
    pub id: String,
    pub name: String,
    pub faction: String,
    pub mode: String,
    pub movement_id: String,
    pub species_id: String,
    pub hp: i32,
    pub armor: i32,
    pub speed_variance_ratio: Real,
    pub endurance_s: Real,
    pub skills: Vec<RawProfileSkill>,
    pub actions: Vec<String>,
}

/// A way to move.
#[derive(Clone, Debug)]
pub struct RawMovementSpec {
    pub id: String,
    pub speed_mps: Real,
}

/// The hamlet.
#[derive(Clone, Debug)]
pub struct RawHamlet {
    pub enabled: bool,
    pub width: i32,
    pub depth: i32,
    pub kit_catalog: String,
    pub layers: Vec<String>,
}

/// A named default.
#[derive(Clone, Debug)]
pub struct RawDefaultValue {
    pub key: String,
    pub value: String,
}

/// All authored data.
#[derive(Clone, Debug)]
pub struct RawGameData {
    pub schema_version: u32,
    pub skills: Vec<RawSkill>,
    pub factions: Vec<RawFaction>,
    pub effects: Vec<RawEffect>,
    pub actions: Vec<RawAction>,
    pub players: Vec<RawPlayerProfile>,
    pub mobs: Vec<RawMobDefinition>,
    pub movement: Vec<RawMovementSpec>,
    pub hamlet: RawHamlet,
    pub defaults: Vec<RawDefaultValue>,
}

} // verus!
