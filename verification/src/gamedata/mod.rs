//! Canonical authored game data: typed records, validated once and then only read.

pub mod check;
pub mod faults;
pub mod ids;
pub mod kinds;
pub mod laws;
pub mod load;
pub mod messages;
pub mod model;
pub mod raw;

pub use ids::{ActionId, EffectId, FactionId, MobId, MovementId, ProfileId, SkillId, SpeciesId};
pub use kinds::{ActionTarget, Application, EffectOperation, MobMode, Progression};
pub use faults::GameDataFault;
pub use load::{GameData, ProfileFault};
pub use model::{
    Action, ActionEffect, DefaultValue, Effect, EnduranceSeconds, Faction, Hamlet, MobDefinition,
    MovementSpec, PlayerProfile, ProfileSkill, Skill, SpeedVarianceRatio,
};
