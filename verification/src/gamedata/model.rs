//! The typed data, and how it is read off the authored records.

use crate::gamedata::ids::{
    ActionId, EffectId, FactionId, MobId, MovementId, ProfileId, SkillId, SpeciesId,
};
use crate::gamedata::kinds::{ActionTarget, Application, EffectOperation, MobMode, Progression};
use crate::measure::Real;
use vstd::prelude::*;

verus! {

/// A trainable proficiency.
#[derive(Clone, Debug)]
pub struct Skill {
    pub id: SkillId,
    pub name: String,
    pub description: String,
    pub level_scale: Real,
}

impl Skill {
    pub fn id(&self) -> (r: &SkillId)
        ensures
            *r == self.id,
    {
        &self.id
    }

    pub fn name(&self) -> (r: &str)
        ensures
            r@ == self.name@,
    {
        self.name.as_str()
    }

    pub fn description(&self) -> (r: &str)
        ensures
            r@ == self.description@,
    {
        self.description.as_str()
    }

    pub fn level_scale(&self) -> (r: Real)
        ensures
            r == self.level_scale,
    {
        self.level_scale
    }
}

/// A faction.
#[derive(Clone, Debug)]
pub struct Faction {
    pub id: FactionId,
    pub name: String,
    pub neutral: bool,
}

impl Faction {
    pub fn id(&self) -> (r: &FactionId)
        ensures
            *r == self.id,
    {
        &self.id
    }

    pub fn name(&self) -> (r: &str)
        ensures
            r@ == self.name@,
    {
        self.name.as_str()
    }

    pub fn is_neutral(&self) -> (r: bool)
        ensures
            r == self.neutral,
    {
        self.neutral
    }
}

/// An effect of the catalog.
#[derive(Clone, Debug)]
pub struct Effect {
    pub id: EffectId,
    pub name: String,
    pub operation: EffectOperation,
    pub skill_id: SkillId,
    pub progression: Progression,
}

impl Effect {
    pub fn id(&self) -> (r: &EffectId)
        ensures
            *r == self.id,
    {
        &self.id
    }

    pub fn name(&self) -> (r: &str)
        ensures
            r@ == self.name@,
    {
        self.name.as_str()
    }

    pub fn operation(&self) -> (r: EffectOperation)
        ensures
            r == self.operation,
    {
        self.operation
    }

    pub fn skill_id(&self) -> (r: &SkillId)
        ensures
            *r == self.skill_id,
    {
        &self.skill_id
    }

    pub fn progression(&self) -> (r: Progression)
        ensures
            r == self.progression,
    {
        self.progression
    }
}

/// An effect as an action applies it.
#[derive(Clone, Debug)]
pub struct ActionEffect {
    pub effect_id: EffectId,
    pub magnitude: Real,
    pub application: Application,
    pub range_m: Real,
    pub radius_m: Real,
    pub angle_deg: Real,
    pub duration_s: Real,
    pub movement_multiplier: Real,
}

impl ActionEffect {
    pub fn effect_id(&self) -> (r: &EffectId)
        ensures
            *r == self.effect_id,
    {
        &self.effect_id
    }

    pub fn magnitude(&self) -> (r: Real)
        ensures
            r == self.magnitude,
    {
        self.magnitude
    }

    pub fn application(&self) -> (r: Application)
        ensures
            r == self.application,
    {
        self.application
    }

    pub fn range_m(&self) -> (r: Real)
        ensures
            r == self.range_m,
    {
        self.range_m
    }

    pub fn radius_m(&self) -> (r: Real)
        ensures
            r == self.radius_m,
    {
        self.radius_m
    }

    pub fn angle_deg(&self) -> (r: Real)
        ensures
            r == self.angle_deg,
    {
        self.angle_deg
    }

    pub fn duration_s(&self) -> (r: Real)
        ensures
            r == self.duration_s,
    {
        self.duration_s
    }

    pub fn movement_multiplier(&self) -> (r: Real)
        ensures
            r == self.movement_multiplier,
    {
        self.movement_multiplier
    }
}

/// An action.
#[derive(Clone, Debug)]
pub struct Action {
    pub id: ActionId,
    pub name: String,
    pub description: String,
    pub target: ActionTarget,
    pub mana_cost: Real,
    pub cast_s: Real,
    pub cooldown_s: Real,
    pub interruptible: bool,
    pub reveals: bool,
    pub effects: Vec<ActionEffect>,
}

impl Action {
    pub fn id(&self) -> (r: &ActionId)
        ensures
            *r == self.id,
    {
        &self.id
    }

    pub fn name(&self) -> (r: &str)
        ensures
            r@ == self.name@,
    {
        self.name.as_str()
    }

    pub fn description(&self) -> (r: &str)
        ensures
            r@ == self.description@,
    {
        self.description.as_str()
    }

    pub fn target(&self) -> (r: ActionTarget)
        ensures
            r == self.target,
    {
        self.target
    }

    pub fn mana_cost(&self) -> (r: Real)
        ensures
            r == self.mana_cost,
    {
        self.mana_cost
    }

    pub fn cast_s(&self) -> (r: Real)
        ensures
            r == self.cast_s,
    {
        self.cast_s
    }

    pub fn cooldown_s(&self) -> (r: Real)
        ensures
            r == self.cooldown_s,
    {
        self.cooldown_s
    }

    pub fn interruptible(&self) -> (r: bool)
        ensures
            r == self.interruptible,
    {
        self.interruptible
    }

    pub fn reveals(&self) -> (r: bool)
        ensures
            r == self.reveals,
    {
        self.reveals
    }

    pub fn effects(&self) -> (r: &[ActionEffect])
        ensures
            r@ == self.effects@,
    {
        self.effects.as_slice()
    }
}

/// A skill an actor starts with, and its level.
#[derive(Clone, Debug)]
pub struct ProfileSkill {
    pub id: SkillId,
    pub level: i32,
}

impl ProfileSkill {
    pub fn id(&self) -> (r: &SkillId)
        ensures
            *r == self.id,
    {
        &self.id
    }

    pub fn level(&self) -> (r: i32)
        ensures
            r == self.level,
    {
        self.level
    }
}

/// A player profile.
#[derive(Clone, Debug)]
pub struct PlayerProfile {
    pub id: ProfileId,
    pub name: String,
    pub faction: FactionId,
    pub skills: Vec<ProfileSkill>,
    pub actions: Vec<ActionId>,
}

impl PlayerProfile {
    pub fn id(&self) -> (r: &ProfileId)
        ensures
            *r == self.id,
    {
        &self.id
    }

    pub fn name(&self) -> (r: &str)
        ensures
            r@ == self.name@,
    {
        self.name.as_str()
    }

    pub fn faction(&self) -> (r: &FactionId)
        ensures
            *r == self.faction,
    {
        &self.faction
    }

    pub fn skills(&self) -> (r: &[ProfileSkill])
        ensures
            r@ == self.skills@,
    {
        self.skills.as_slice()
    }

    pub fn actions(&self) -> (r: &[ActionId])
        ensures
            r@ == self.actions@,
    {
        self.actions.as_slice()
    }
}

/// The share by which a mob's speed may differ from its base speed.
#[derive(Clone, Copy, Debug, PartialEq, Eq, Structural)]
pub struct SpeedVarianceRatio {
    pub ratio: Real,
}

impl SpeedVarianceRatio {
    pub fn as_ratio(self) -> (r: Real)
        ensures
            r == self.ratio,
    {
        self.ratio
    }
}

/// How long a mob keeps running, in seconds.
#[derive(Clone, Copy, Debug, PartialEq, Eq, Structural)]
pub struct EnduranceSeconds {
    pub endurance: Real,
}

impl EnduranceSeconds {
    pub fn seconds(self) -> (r: Real)
        ensures
            r == self.endurance,
    {
        self.endurance
    }
}

/// A mob.
#[derive(Clone, Debug)]
pub struct MobDefinition {
    pub id: MobId,
    pub name: String,
    pub faction: FactionId,
    pub mode: MobMode,
    pub movement_id: MovementId,
    pub species_id: Option<SpeciesId>,
    pub hp: i32,
    pub armor: i32,
    pub speed_variance_ratio: SpeedVarianceRatio,
    pub endurance_s: EnduranceSeconds,
    pub skills: Vec<ProfileSkill>,
    pub actions: Vec<ActionId>,
}

impl MobDefinition {
    pub fn id(&self) -> (r: &MobId)
        ensures
            *r == self.id,
    {
        &self.id
    }

    pub fn name(&self) -> (r: &str)
        ensures
            r@ == self.name@,
    {
        self.name.as_str()
    }

    pub fn faction(&self) -> (r: &FactionId)
        ensures
            *r == self.faction,
    {
        &self.faction
    }

    pub fn mode(&self) -> (r: MobMode)
        ensures
            r == self.mode,
    {
        self.mode
    }

    pub fn movement_id(&self) -> (r: &MovementId)
        ensures
            *r == self.movement_id,
    {
        &self.movement_id
    }

    pub fn species_id(&self) -> (r: Option<&SpeciesId>)
        ensures
            match (r, self.species_id) {
                (Some(a), Some(b)) => *a == b,
                (None, None) => true,
                _ => false,
            },
    {
        match &self.species_id {
            Some(a) => Some(a),
            None => None,
        }
    }

    pub fn hp(&self) -> (r: i32)
        ensures
            r == self.hp,
    {
        self.hp
    }

    pub fn armor(&self) -> (r: i32)
        ensures
            r == self.armor,
    {
        self.armor
    }

    pub fn speed_variance_ratio(&self) -> (r: SpeedVarianceRatio)
        ensures
            r == self.speed_variance_ratio,
    {
        self.speed_variance_ratio
    }

    pub fn endurance_s(&self) -> (r: EnduranceSeconds)
        ensures
            r == self.endurance_s,
    {
        self.endurance_s
    }

    pub fn skills(&self) -> (r: &[ProfileSkill])
        ensures
            r@ == self.skills@,
    {
        self.skills.as_slice()
    }

    pub fn actions(&self) -> (r: &[ActionId])
        ensures
            r@ == self.actions@,
    {
        self.actions.as_slice()
    }
}

/// A way to move.
#[derive(Clone, Debug)]
pub struct MovementSpec {
    pub id: MovementId,
    pub speed_mps: Real,
}

impl MovementSpec {
    pub fn id(&self) -> (r: &MovementId)
        ensures
            *r == self.id,
    {
        &self.id
    }

    pub fn speed_mps(&self) -> (r: Real)
        ensures
            r == self.speed_mps,
    {
        self.speed_mps
    }
}

/// A named default.
#[derive(Clone, Debug)]
pub struct DefaultValue {
    pub key: String,
    pub value: String,
}

impl DefaultValue {
    pub fn key(&self) -> (r: &str)
        ensures
            r@ == self.key@,
    {
        self.key.as_str()
    }

    pub fn value(&self) -> (r: &str)
        ensures
            r@ == self.value@,
    {
        self.value.as_str()
    }
}

/// The hamlet.
#[derive(Clone, Debug)]
pub struct Hamlet {
    pub enabled: bool,
    pub width: i32,
    pub depth: i32,
    pub kit_catalog: String,
    pub layers: Vec<String>,
}

impl Hamlet {
    pub fn enabled(&self) -> (r: bool)
        ensures
            r == self.enabled,
    {
        self.enabled
    }

    pub fn width(&self) -> (r: i32)
        ensures
            r == self.width,
    {
        self.width
    }

    pub fn depth(&self) -> (r: i32)
        ensures
            r == self.depth,
    {
        self.depth
    }

    pub fn kit_catalog(&self) -> (r: &str)
        ensures
            r@ == self.kit_catalog@,
    {
        self.kit_catalog.as_str()
    }

    pub fn layers(&self) -> (r: &[String])
        ensures
            r@ == self.layers@,
    {
        self.layers.as_slice()
    }
}

} // verus!
