//! The finite kinds that authored words stand for.

use crate::text::str_eq;
use vstd::prelude::*;

verus! {

/// What an effect does.
#[derive(Clone, Copy, Debug, PartialEq, Eq, Structural)]
pub enum EffectOperation {
    DirectDamage,
    Heal,
    Root,
    Hold,
    Snare,
    Charm,
}

pub open spec fn operation_of(word: Seq<char>) -> Option<EffectOperation> {
    if word == "direct_damage"@ {
        Some(EffectOperation::DirectDamage)
    } else if word == "heal"@ {
        Some(EffectOperation::Heal)
    } else if word == "root"@ {
        Some(EffectOperation::Root)
    } else if word == "hold"@ {
        Some(EffectOperation::Hold)
    } else if word == "snare"@ {
        Some(EffectOperation::Snare)
    } else if word == "charm"@ {
        Some(EffectOperation::Charm)
    } else {
        None
    }
}

impl EffectOperation {
    /// The kind a word stands for.
    pub fn from_str(word: &str) -> (r: Option<Self>)
        ensures
            r == operation_of(word@),
    {
        if str_eq(word, "direct_damage") {
            Some(EffectOperation::DirectDamage)
        } else if str_eq(word, "heal") {
            Some(EffectOperation::Heal)
        } else if str_eq(word, "root") {
            Some(EffectOperation::Root)
        } else if str_eq(word, "hold") {
            Some(EffectOperation::Hold)
        } else if str_eq(word, "snare") {
            Some(EffectOperation::Snare)
        } else if str_eq(word, "charm") {
            Some(EffectOperation::Charm)
        } else {
            None
        }
    }
}

/// How the output of an effect scales.
#[derive(Clone, Copy, Debug, PartialEq, Eq, Structural)]
pub enum Progression {
    SkillLevel,
    Flat,
}

pub open spec fn progression_of(word: Seq<char>) -> Option<Progression> {
    if word == "skill_level"@ {
        Some(Progression::SkillLevel)
    } else if word == "flat"@ {
        Some(Progression::Flat)
    } else {
        None
    }
}

impl Progression {
    /// The kind a word stands for.
    pub fn from_str(word: &str) -> (r: Option<Self>)
        ensures
            r == progression_of(word@),
    {
        if str_eq(word, "skill_level") {
            Some(Progression::SkillLevel)
        } else if str_eq(word, "flat") {
            Some(Progression::Flat)
        } else {
            None
        }
    }
}

/// What an action may be aimed at.
#[derive(Clone, Copy, Debug, PartialEq, Eq, Structural)]
pub enum ActionTarget {
    Hostile,
    Friendly,
    ActorSelf,
    Any,
    Nothing,
}

pub open spec fn target_of(word: Seq<char>) -> Option<ActionTarget> {
    if word == "hostile"@ {
        Some(ActionTarget::Hostile)
    } else if word == "friendly"@ {
        Some(ActionTarget::Friendly)
    } else if word == "self"@ {
        Some(ActionTarget::ActorSelf)
    } else if word == "any"@ {
        Some(ActionTarget::Any)
    } else if word == "none"@ {
        Some(ActionTarget::Nothing)
    } else {
        None
    }
}

impl ActionTarget {
    /// The kind a word stands for.
    pub fn from_str(word: &str) -> (r: Option<Self>)
        ensures
            r == target_of(word@),
    {
        if str_eq(word, "hostile") {
            Some(ActionTarget::Hostile)
        } else if str_eq(word, "friendly") {
            Some(ActionTarget::Friendly)
        } else if str_eq(word, "self") {
            Some(ActionTarget::ActorSelf)
        } else if str_eq(word, "any") {
            Some(ActionTarget::Any)
        } else if str_eq(word, "none") {
            Some(ActionTarget::Nothing)
        } else {
            None
        }
    }
}

/// How an effect spreads from the selected target.
#[derive(Clone, Copy, Debug, PartialEq, Eq, Structural)]
pub enum Application {
    SingleTarget,
    Cone,
    Aoe,
    Pbaoe,
}

pub open spec fn application_of(word: Seq<char>) -> Option<Application> {
    if word == "single_target"@ {
        Some(Application::SingleTarget)
    } else if word == "cone"@ {
        Some(Application::Cone)
    } else if word == "aoe"@ {
        Some(Application::Aoe)
    } else if word == "pbaoe"@ {
        Some(Application::Pbaoe)
    } else {
        None
    }
}

impl Application {
    /// The kind a word stands for.
    pub fn from_str(word: &str) -> (r: Option<Self>)
        ensures
            r == application_of(word@),
    {
        if str_eq(word, "single_target") {
            Some(Application::SingleTarget)
        } else if str_eq(word, "cone") {
            Some(Application::Cone)
        } else if str_eq(word, "aoe") {
            Some(Application::Aoe)
        } else if str_eq(word, "pbaoe") {
            Some(Application::Pbaoe)
        } else {
            None
        }
    }
}

/// Whether a mob starts fights or only answers them.
#[derive(Clone, Copy, Debug, PartialEq, Eq, Structural)]
pub enum MobMode {
    Active,
    Passive,
}

pub open spec fn mode_of(word: Seq<char>) -> Option<MobMode> {
    if word == "active"@ {
        Some(MobMode::Active)
    } else if word == "passive"@ {
        Some(MobMode::Passive)
    } else {
        None
    }
}

impl MobMode {
    /// The kind a word stands for.
    pub fn from_str(word: &str) -> (r: Option<Self>)
        ensures
            r == mode_of(word@),
    {
        if str_eq(word, "active") {
            Some(MobMode::Active)
        } else if str_eq(word, "passive") {
            Some(MobMode::Passive)
        } else {
            None
        }
    }
}

} // verus!
