//! What a fault is told as.

use crate::gamedata::faults::{
    actions_of, actor_fits, count_of, faction_of, fault_fits, id_at, skills_of, Actor,
    GameDataFault, Label, NumberField, ReachFault,
};
use crate::gamedata::raw::{RawGameData, RawProfileSkill};
use crate::text::{decimal, owned, push_decimal};
use vstd::prelude::*;

verus! {

/// A string as Rust's debug format writes it: in quotes, with what needs it escaped.
pub uninterp spec fn debug_text(s: Seq<char>) -> Seq<char>;

/// `format!("{:?}", s)`: the debug form of a string is a function of its characters
/// alone.
#[verifier::external_body]
pub(crate) fn quoted(s: &str) -> (r: String)
    ensures
        r@ == debug_text(s@),
{
    format!("{:?}", s)
}

pub open spec fn label_name(label: Label) -> Seq<char> {
    match label {
        Label::Skill => "skill"@,
        Label::Faction => "faction"@,
        Label::Effect => "effect"@,
        Label::Action => "action"@,
        Label::Profile => "profile"@,
        Label::Mob => "mob"@,
        Label::Movement => "movement"@,
    }
}

fn label_str(label: Label) -> (r: &'static str)
    ensures
        r@ == label_name(label),
{
    match label {
        Label::Skill => "skill",
        Label::Faction => "faction",
        Label::Effect => "effect",
        Label::Action => "action",
        Label::Profile => "profile",
        Label::Mob => "mob",
        Label::Movement => "movement",
    }
}

pub open spec fn actor_label(actor: Actor) -> Seq<char> {
    match actor {
        Actor::Profile(_) => "profile"@,
        Actor::Mob(_) => "mob"@,
    }
}

fn actor_str(actor: Actor) -> (r: &'static str)
    ensures
        r@ == actor_label(actor),
{
    match actor {
        Actor::Profile(_) => "profile",
        Actor::Mob(_) => "mob",
    }
}

pub open spec fn field_name(field: NumberField) -> Seq<char> {
    match field {
        NumberField::Magnitude => "magnitude"@,
        NumberField::Range => "range_m"@,
        NumberField::Radius => "radius_m"@,
        NumberField::Angle => "angle_deg"@,
        NumberField::Duration => "duration_s"@,
        NumberField::MovementMultiplier => "movement_multiplier"@,
    }
}

fn field_str(field: NumberField) -> (r: &'static str)
    ensures
        r@ == field_name(field),
{
    match field {
        NumberField::Magnitude => "magnitude",
        NumberField::Range => "range_m",
        NumberField::Radius => "radius_m",
        NumberField::Angle => "angle_deg",
        NumberField::Duration => "duration_s",
        NumberField::MovementMultiplier => "movement_multiplier",
    }
}

pub open spec fn reach_head(fault: ReachFault) -> Seq<char> {
    match fault {
        ReachFault::Negative => " effect "@,
        ReachFault::SingleTargetRange => " single_target effect "@,
        ReachFault::ConeRange => " cone effect "@,
        ReachFault::ConeAngle => " cone effect "@,
        ReachFault::AoeRange => " aoe effect "@,
        ReachFault::AoeRadius => " aoe effect "@,
        ReachFault::PbaoeRange => " pbaoe effect "@,
        ReachFault::PbaoeRadius => " pbaoe effect "@,
    }
}

fn reach_head_str(fault: ReachFault) -> (r: &'static str)
    ensures
        r@ == reach_head(fault),
{
    match fault {
        ReachFault::Negative => " effect ",
        ReachFault::SingleTargetRange => " single_target effect ",
        ReachFault::ConeRange => " cone effect ",
        ReachFault::ConeAngle => " cone effect ",
        ReachFault::AoeRange => " aoe effect ",
        ReachFault::AoeRadius => " aoe effect ",
        ReachFault::PbaoeRange => " pbaoe effect ",
        ReachFault::PbaoeRadius => " pbaoe effect ",
    }
}

pub open spec fn reach_tail(fault: ReachFault) -> Seq<char> {
    match fault {
        ReachFault::Negative => " range and radius must be non-negative"@,
        ReachFault::SingleTargetRange => " requires positive range"@,
        ReachFault::ConeRange => " requires positive range"@,
        ReachFault::ConeAngle => " angle must be between 0 and 360 degrees"@,
        ReachFault::AoeRange => " requires positive range"@,
        ReachFault::AoeRadius => " requires positive radius"@,
        ReachFault::PbaoeRange => " range must be zero"@,
        ReachFault::PbaoeRadius => " requires positive radius"@,
    }
}

fn reach_tail_str(fault: ReachFault) -> (r: &'static str)
    ensures
        r@ == reach_tail(fault),
{
    match fault {
        ReachFault::Negative => " range and radius must be non-negative",
        ReachFault::SingleTargetRange => " requires positive range",
        ReachFault::ConeRange => " requires positive range",
        ReachFault::ConeAngle => " angle must be between 0 and 360 degrees",
        ReachFault::AoeRange => " requires positive range",
        ReachFault::AoeRadius => " requires positive radius",
        ReachFault::PbaoeRange => " range must be zero",
        ReachFault::PbaoeRadius => " requires positive radius",
    }
}

pub open spec fn actor_id(raw: RawGameData, actor: Actor) -> Seq<char> {
    match actor {
        Actor::Profile(i) => raw.players@[i as int].id@,
        Actor::Mob(i) => raw.mobs@[i as int].id@,
    }
}

fn actor_id_str<'a>(raw: &'a RawGameData, actor: Actor) -> (r: &'a str)
    requires
        actor_fits(*raw, actor),
    ensures
        r@ == actor_id(*raw, actor),
{
    match actor {
        Actor::Profile(i) => raw.players[i].id.as_str(),
        Actor::Mob(i) => raw.mobs[i].id.as_str(),
    }
}

fn faction_str<'a>(raw: &'a RawGameData, actor: Actor) -> (r: &'a str)
    requires
        actor_fits(*raw, actor),
    ensures
        r@ == faction_of(*raw, actor),
{
    match actor {
        Actor::Profile(i) => raw.players[i].faction.as_str(),
        Actor::Mob(i) => raw.mobs[i].faction.as_str(),
    }
}

fn skills_ref<'a>(raw: &'a RawGameData, actor: Actor) -> (r: &'a Vec<RawProfileSkill>)
    requires
        actor_fits(*raw, actor),
    ensures
        r@ == skills_of(*raw, actor),
{
    match actor {
        Actor::Profile(i) => &raw.players[i].skills,
        Actor::Mob(i) => &raw.mobs[i].skills,
    }
}

fn actions_ref<'a>(raw: &'a RawGameData, actor: Actor) -> (r: &'a Vec<String>)
    requires
        actor_fits(*raw, actor),
    ensures
        r@ == actions_of(*raw, actor),
{
    match actor {
        Actor::Profile(i) => &raw.players[i].actions,
        Actor::Mob(i) => &raw.mobs[i].actions,
    }
}

fn id_str<'a>(raw: &'a RawGameData, label: Label, i: usize) -> (r: &'a str)
    requires
        i < count_of(*raw, label),
    ensures
        r@ == id_at(*raw, label, i as int),
{
    match label {
        Label::Skill => raw.skills[i].id.as_str(),
        Label::Faction => raw.factions[i].id.as_str(),
        Label::Effect => raw.effects[i].id.as_str(),
        Label::Action => raw.actions[i].id.as_str(),
        Label::Profile => raw.players[i].id.as_str(),
        Label::Mob => raw.mobs[i].id.as_str(),
        Label::Movement => raw.movement[i].id.as_str(),
    }
}

/// What a fault of the data is told as.
pub open spec fn fault_text(raw: RawGameData, fault: GameDataFault) -> Seq<char> {
    match fault {
        GameDataFault::Schema => {
            "schema_version must be 3"@
        },
        GameDataFault::InvalidId { label, at } => {
            label_name(label) + " id "@ + debug_text(id_at(raw, label, at as int)) + " is invalid"@
        },
        GameDataFault::DuplicateId { label, at } => {
            "duplicate "@ + label_name(label) + " id "@ + debug_text(id_at(raw, label, at as int))
        },
        GameDataFault::UnknownOperation { effect } => {
            "unknown effect operation "@ + debug_text(raw.effects@[effect as int].operation@)
        },
        GameDataFault::UnknownProgression { effect } => {
            "unknown progression "@ + debug_text(raw.effects@[effect as int].progression@)
        },
        GameDataFault::UnknownTarget { action } => {
            "unknown action target "@ + debug_text(raw.actions@[action as int].target@)
        },
        GameDataFault::UnknownApplication { action, assignment } => {
            "unknown application "@ + debug_text(raw.actions@[action as int].effects@[assignment as int].application@)
        },
        GameDataFault::SpeedVariance { mob } => {
            "mob "@ + raw.mobs@[mob as int].id@ + " speed_variance_ratio must be finite and in 0..=0.20"@
        },
        GameDataFault::Endurance { mob } => {
            "mob "@ + raw.mobs@[mob as int].id@ + " endurance_s must be finite and positive"@
        },
        GameDataFault::UnknownMode { mob } => {
            "unknown mob mode "@ + debug_text(raw.mobs@[mob as int].mode@)
        },
        GameDataFault::NeutralFaction => {
            "exactly one neutral faction is required"@
        },
        GameDataFault::UnknownFaction { actor } => {
            actor_label(actor) + " "@ + actor_id(raw, actor) + " references unknown faction "@ + faction_of(raw, actor)
        },
        GameDataFault::EmptyRoster { actor } => {
            actor_label(actor) + " "@ + actor_id(raw, actor) + " action roster must not be empty"@
        },
        GameDataFault::DuplicateSkill { actor, skill } => {
            actor_label(actor) + " "@ + actor_id(raw, actor) + " has duplicate skill "@ + skills_of(raw, actor)[skill as int].id@
        },
        GameDataFault::InvalidSkill { actor, skill } => {
            actor_label(actor) + " "@ + actor_id(raw, actor) + " has invalid skill "@ + skills_of(raw, actor)[skill as int].id@ + " level "@ + decimal(skills_of(raw, actor)[skill as int].level as int)
        },
        GameDataFault::DuplicateAction { actor, action } => {
            actor_label(actor) + " "@ + actor_id(raw, actor) + " has duplicate action "@ + actions_of(raw, actor)[action as int]@
        },
        GameDataFault::UnknownAction { actor, action } => {
            actor_label(actor) + " "@ + actor_id(raw, actor) + " references unknown action "@ + actions_of(raw, actor)[action as int]@
        },
        GameDataFault::UnassignedSkill { actor, action, effect } => {
            actor_label(actor) + " "@ + actor_id(raw, actor) + " action "@ + actions_of(raw, actor)[action as int]@ + " requires unassigned skill "@ + raw.effects@[effect as int].skill_id@
        },
        GameDataFault::UnknownSkill { effect } => {
            "effect "@ + raw.effects@[effect as int].id@ + " references unknown skill_id "@ + raw.effects@[effect as int].skill_id@
        },
        GameDataFault::ActionNotFinite { action } => {
            "action "@ + raw.actions@[action as int].id@ + " timing and mana values must be finite"@
        },
        GameDataFault::NegativeMana { action } => {
            "action "@ + raw.actions@[action as int].id@ + " mana_cost must be non-negative"@
        },
        GameDataFault::NegativeTiming { action } => {
            "action "@ + raw.actions@[action as int].id@ + " cast_s and cooldown_s must be non-negative"@
        },
        GameDataFault::UnknownEffect { action, assignment } => {
            "action "@ + raw.actions@[action as int].id@ + " references unknown effect "@ + raw.actions@[action as int].effects@[assignment as int].effect_id@
        },
        GameDataFault::NumberNotFinite { action, assignment, field } => {
            "action "@ + raw.actions@[action as int].id@ + " effect "@ + raw.actions@[action as int].effects@[assignment as int].effect_id@ + " "@ + field_name(field) + " must be finite"@
        },
        GameDataFault::DirectDomain { action, assignment } => {
            "action "@ + raw.actions@[action as int].id@ + " effect "@ + raw.actions@[action as int].effects@[assignment as int].effect_id@ + " direct operations require positive magnitude, zero duration_s, and movement_multiplier 1"@
        },
        GameDataFault::ControlDomain { action, assignment } => {
            "action "@ + raw.actions@[action as int].id@ + " effect "@ + raw.actions@[action as int].effects@[assignment as int].effect_id@ + " control operation requires magnitude 1, positive duration_s, and movement_multiplier 1"@
        },
        GameDataFault::SnareDomain { action, assignment } => {
            "action "@ + raw.actions@[action as int].id@ + " effect "@ + raw.actions@[action as int].effects@[assignment as int].effect_id@ + " snare requires magnitude 1, positive duration_s, and movement_multiplier in 0..1"@
        },
        GameDataFault::Reach { action, assignment, fault } => {
            "action "@ + raw.actions@[action as int].id@ + reach_head(fault) + raw.actions@[action as int].effects@[assignment as int].effect_id@ + reach_tail(fault)
        },
        GameDataFault::SharedSpecies { mob } => {
            "species "@ + raw.mobs@[mob as int].species_id@ + " is linked by more than one mob"@
        },
        GameDataFault::UnknownMovement { mob } => {
            "mob "@ + raw.mobs@[mob as int].id@ + " references unknown movement "@ + raw.mobs@[mob as int].movement_id@
        },
        GameDataFault::NonPositiveHp { mob } => {
            "mob "@ + raw.mobs@[mob as int].id@ + " has non-positive combat value"@
        },
        GameDataFault::MovementSpeed { movement } => {
            "movement "@ + raw.movement@[movement as int].id@ + " speed_mps must be finite and positive"@
        },
    }
}

impl GameDataFault {
    /// What the fault is told as.
    pub fn message(self, raw: &RawGameData) -> (r: String)
        requires
            fault_fits(*raw, self),
        ensures
            r@ == fault_text(*raw, self),
    {
        match self {
            GameDataFault::Schema => {
                let s: String = owned("schema_version must be 3");
                s
            },
            GameDataFault::InvalidId { label, at } => {
                let mut s: String = owned(label_str(label));
                s.append(" id ");
                let quoted_word: String = quoted(id_str(raw, label, at));
                s.append(quoted_word.as_str());
                s.append(" is invalid");
                s
            },
            GameDataFault::DuplicateId { label, at } => {
                let mut s: String = owned("duplicate ");
                s.append(label_str(label));
                s.append(" id ");
                let quoted_word: String = quoted(id_str(raw, label, at));
                s.append(quoted_word.as_str());
                s
            },
            GameDataFault::UnknownOperation { effect } => {
                let mut s: String = owned("unknown effect operation ");
                let quoted_word: String = quoted(raw.effects[effect].operation.as_str());
                s.append(quoted_word.as_str());
                s
            },
            GameDataFault::UnknownProgression { effect } => {
                let mut s: String = owned("unknown progression ");
                let quoted_word: String = quoted(raw.effects[effect].progression.as_str());
                s.append(quoted_word.as_str());
                s
            },
            GameDataFault::UnknownTarget { action } => {
                let mut s: String = owned("unknown action target ");
                let quoted_word: String = quoted(raw.actions[action].target.as_str());
                s.append(quoted_word.as_str());
                s
            },
            GameDataFault::UnknownApplication { action, assignment } => {
                let mut s: String = owned("unknown application ");
                let quoted_word: String = quoted(raw.actions[action].effects[assignment].application.as_str());
                s.append(quoted_word.as_str());
                s
            },
            GameDataFault::SpeedVariance { mob } => {
                let mut s: String = owned("mob ");
                s.append(raw.mobs[mob].id.as_str());
                s.append(" speed_variance_ratio must be finite and in 0..=0.20");
                s
            },
            GameDataFault::Endurance { mob } => {
                let mut s: String = owned("mob ");
                s.append(raw.mobs[mob].id.as_str());
                s.append(" endurance_s must be finite and positive");
                s
            },
            GameDataFault::UnknownMode { mob } => {
                let mut s: String = owned("unknown mob mode ");
                let quoted_word: String = quoted(raw.mobs[mob].mode.as_str());
                s.append(quoted_word.as_str());
                s
            },
            GameDataFault::NeutralFaction => {
                let s: String = owned("exactly one neutral faction is required");
                s
            },
            GameDataFault::UnknownFaction { actor } => {
                let mut s: String = owned(actor_str(actor));
                s.append(" ");
                s.append(actor_id_str(raw, actor));
                s.append(" references unknown faction ");
                s.append(faction_str(raw, actor));
                s
            },
            GameDataFault::EmptyRoster { actor } => {
                let mut s: String = owned(actor_str(actor));
                s.append(" ");
                s.append(actor_id_str(raw, actor));
                s.append(" action roster must not be empty");
                s
            },
            GameDataFault::DuplicateSkill { actor, skill } => {
                let mut s: String = owned(actor_str(actor));
                s.append(" ");
                s.append(actor_id_str(raw, actor));
                s.append(" has duplicate skill ");
                s.append(skills_ref(raw, actor)[skill].id.as_str());
                s
            },
            GameDataFault::InvalidSkill { actor, skill } => {
                let mut s: String = owned(actor_str(actor));
                s.append(" ");
                s.append(actor_id_str(raw, actor));
                s.append(" has invalid skill ");
                s.append(skills_ref(raw, actor)[skill].id.as_str());
                s.append(" level ");
                push_decimal(&mut s, skills_ref(raw, actor)[skill].level as i64);
                s
            },
            GameDataFault::DuplicateAction { actor, action } => {
                let mut s: String = owned(actor_str(actor));
                s.append(" ");
                s.append(actor_id_str(raw, actor));
                s.append(" has duplicate action ");
                s.append(actions_ref(raw, actor)[action].as_str());
                s
            },
            GameDataFault::UnknownAction { actor, action } => {
                let mut s: String = owned(actor_str(actor));
                s.append(" ");
                s.append(actor_id_str(raw, actor));
                s.append(" references unknown action ");
                s.append(actions_ref(raw, actor)[action].as_str());
                s
            },
            GameDataFault::UnassignedSkill { actor, action, effect } => {
                let mut s: String = owned(actor_str(actor));
                s.append(" ");
                s.append(actor_id_str(raw, actor));
                s.append(" action ");
                s.append(actions_ref(raw, actor)[action].as_str());
                s.append(" requires unassigned skill ");
                s.append(raw.effects[effect].skill_id.as_str());
                s
            },
            GameDataFault::UnknownSkill { effect } => {
                let mut s: String = owned("effect ");
                s.append(raw.effects[effect].id.as_str());
                s.append(" references unknown skill_id ");
                s.append(raw.effects[effect].skill_id.as_str());
                s
            },
            GameDataFault::ActionNotFinite { action } => {
                let mut s: String = owned("action ");
                s.append(raw.actions[action].id.as_str());
                s.append(" timing and mana values must be finite");
                s
            },
            GameDataFault::NegativeMana { action } => {
                let mut s: String = owned("action ");
                s.append(raw.actions[action].id.as_str());
                s.append(" mana_cost must be non-negative");
                s
            },
            GameDataFault::NegativeTiming { action } => {
                let mut s: String = owned("action ");
                s.append(raw.actions[action].id.as_str());
                s.append(" cast_s and cooldown_s must be non-negative");
                s
            },
            GameDataFault::UnknownEffect { action, assignment } => {
                let mut s: String = owned("action ");
                s.append(raw.actions[action].id.as_str());
                s.append(" references unknown effect ");
                s.append(raw.actions[action].effects[assignment].effect_id.as_str());
                s
            },
            GameDataFault::NumberNotFinite { action, assignment, field } => {
                let mut s: String = owned("action ");
                s.append(raw.actions[action].id.as_str());
                s.append(" effect ");
                s.append(raw.actions[action].effects[assignment].effect_id.as_str());
                s.append(" ");
                s.append(field_str(field));
                s.append(" must be finite");
                s
            },
            GameDataFault::DirectDomain { action, assignment } => {
                let mut s: String = owned("action ");
                s.append(raw.actions[action].id.as_str());
                s.append(" effect ");
                s.append(raw.actions[action].effects[assignment].effect_id.as_str());
                s.append(" direct operations require positive magnitude, zero duration_s, and movement_multiplier 1");
                s
            },
            GameDataFault::ControlDomain { action, assignment } => {
                let mut s: String = owned("action ");
                s.append(raw.actions[action].id.as_str());
                s.append(" effect ");
                s.append(raw.actions[action].effects[assignment].effect_id.as_str());
                s.append(" control operation requires magnitude 1, positive duration_s, and movement_multiplier 1");
                s
            },
            GameDataFault::SnareDomain { action, assignment } => {
                let mut s: String = owned("action ");
                s.append(raw.actions[action].id.as_str());
                s.append(" effect ");
                s.append(raw.actions[action].effects[assignment].effect_id.as_str());
                s.append(" snare requires magnitude 1, positive duration_s, and movement_multiplier in 0..1");
                s
            },
            GameDataFault::Reach { action, assignment, fault } => {
                let mut s: String = owned("action ");
                s.append(raw.actions[action].id.as_str());
                s.append(reach_head_str(fault));
                s.append(raw.actions[action].effects[assignment].effect_id.as_str());
                s.append(reach_tail_str(fault));
                s
            },
            GameDataFault::SharedSpecies { mob } => {
                let mut s: String = owned("species ");
                s.append(raw.mobs[mob].species_id.as_str());
                s.append(" is linked by more than one mob");
                s
            },
            GameDataFault::UnknownMovement { mob } => {
                let mut s: String = owned("mob ");
                s.append(raw.mobs[mob].id.as_str());
                s.append(" references unknown movement ");
                s.append(raw.mobs[mob].movement_id.as_str());
                s
            },
            GameDataFault::NonPositiveHp { mob } => {
                let mut s: String = owned("mob ");
                s.append(raw.mobs[mob].id.as_str());
                s.append(" has non-positive combat value");
                s
            },
            GameDataFault::MovementSpeed { movement } => {
                let mut s: String = owned("movement ");
                s.append(raw.movement[movement].id.as_str());
                s.append(" speed_mps must be finite and positive");
                s
            },
        }
    }
}

} // verus!
