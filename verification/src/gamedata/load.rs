//! Loading: typed data off authored records, or the first fault; lookups by id.

use crate::gamedata::check::{ids_fault, is_positive, is_variance, validate};
use crate::gamedata::faults::{
    action_words_fault, assignment_words_fault, effect_words_fault, fault_fits, load_fault,
    mob_words_fault, GameDataFault, SCHEMA_VERSION,
};
use crate::gamedata::ids::{
    ActionId, EffectId, FactionId, MobId, MovementId, ProfileId, SkillId, SpeciesId,
};
use crate::gamedata::kinds::{
    application_of, mode_of, operation_of, progression_of, target_of, ActionTarget, Application,
    EffectOperation, MobMode, Progression,
};
use crate::gamedata::model::{
    Action, ActionEffect, DefaultValue, Effect, EnduranceSeconds, Faction, Hamlet, MobDefinition,
    MovementSpec, PlayerProfile, ProfileSkill, Skill, SpeedVarianceRatio,
};
use crate::gamedata::raw::{
    RawAction, RawActionEffect, RawDefaultValue, RawEffect, RawFaction, RawGameData, RawHamlet,
    RawMobDefinition, RawMovementSpec, RawPlayerProfile, RawProfileSkill, RawSkill,
};
use crate::text::{owned, str_eq};
use vstd::prelude::*;

verus! {

/// All game data.
#[derive(Debug)]
pub struct GameData {
    pub skills: Vec<Skill>,
    pub factions: Vec<Faction>,
    pub effects: Vec<Effect>,
    pub actions: Vec<Action>,
    pub player_profiles: Vec<PlayerProfile>,
    pub mobs: Vec<MobDefinition>,
    pub movement: Vec<MovementSpec>,
    pub hamlet: Hamlet,
    pub defaults: Vec<DefaultValue>,
}

pub open spec fn skill_read(x: Skill, r: RawSkill) -> bool {
    x.id@ == r.id@ && x.name@ == r.name@ && x.description@ == r.description@ && x.level_scale
        == r.level_scale
}

pub open spec fn faction_read(x: Faction, r: RawFaction) -> bool {
    x.id@ == r.id@ && x.name@ == r.name@ && x.neutral == r.neutral
}

pub open spec fn effect_read(x: Effect, r: RawEffect) -> bool {
    &&& x.id@ == r.id@
    &&& x.name@ == r.name@
    &&& operation_of(r.operation@) == Some(x.operation)
    &&& x.skill_id@ == r.skill_id@
    &&& progression_of(r.progression@) == Some(x.progression)
}

pub open spec fn assignment_read(x: ActionEffect, r: RawActionEffect) -> bool {
    &&& x.effect_id@ == r.effect_id@
    &&& x.magnitude == r.magnitude
    &&& application_of(r.application@) == Some(x.application)
    &&& x.range_m == r.range_m
    &&& x.radius_m == r.radius_m
    &&& x.angle_deg == r.angle_deg
    &&& x.duration_s == r.duration_s
    &&& x.movement_multiplier == r.movement_multiplier
}

pub open spec fn assignments_read(xs: Seq<ActionEffect>, rs: Seq<RawActionEffect>) -> bool {
    xs.len() == rs.len() && forall|i: int|
        0 <= i < xs.len() ==> assignment_read(#[trigger] xs[i], rs[i])
}

pub open spec fn action_read(x: Action, r: RawAction) -> bool {
    &&& x.id@ == r.id@
    &&& x.name@ == r.name@
    &&& x.description@ == r.description@
    &&& target_of(r.target@) == Some(x.target)
    &&& x.mana_cost == r.mana_cost
    &&& x.cast_s == r.cast_s
    &&& x.cooldown_s == r.cooldown_s
    &&& x.interruptible == r.interruptible
    &&& x.reveals == r.reveals
    &&& assignments_read(x.effects@, r.effects@)
}

pub open spec fn roster_skills_read(xs: Seq<ProfileSkill>, rs: Seq<RawProfileSkill>) -> bool {
    xs.len() == rs.len() && forall|i: int|
        0 <= i < xs.len() ==> (#[trigger] xs[i]).id@ == rs[i].id@ && xs[i].level == rs[i].level
}

pub open spec fn roster_actions_read(xs: Seq<ActionId>, rs: Seq<String>) -> bool {
    xs.len() == rs.len() && forall|i: int| 0 <= i < xs.len() ==> (#[trigger] xs[i])@ == rs[i]@
}

pub open spec fn profile_read(x: PlayerProfile, r: RawPlayerProfile) -> bool {
    &&& x.id@ == r.id@
    &&& x.name@ == r.name@
    &&& x.faction@ == r.faction@
    &&& roster_skills_read(x.skills@, r.skills@)
    &&& roster_actions_read(x.actions@, r.actions@)
}

pub open spec fn species_read(x: Option<SpeciesId>, r: Seq<char>) -> bool {
    match x {
        Some(s) => s@ == r && r.len() > 0,
        None => r.len() == 0,
    }
}

pub open spec fn mob_read(x: MobDefinition, r: RawMobDefinition) -> bool {
    &&& x.id@ == r.id@
    &&& x.name@ == r.name@
    &&& x.faction@ == r.faction@
    &&& mode_of(r.mode@) == Some(x.mode)
    &&& x.movement_id@ == r.movement_id@
    &&& species_read(x.species_id, r.species_id@)
    &&& x.hp == r.hp
    &&& x.armor == r.armor
    &&& x.speed_variance_ratio.ratio == r.speed_variance_ratio
    &&& x.endurance_s.endurance == r.endurance_s
    &&& roster_skills_read(x.skills@, r.skills@)
    &&& roster_actions_read(x.actions@, r.actions@)
}

pub open spec fn movement_read(x: MovementSpec, r: RawMovementSpec) -> bool {
    x.id@ == r.id@ && x.speed_mps == r.speed_mps
}

pub open spec fn default_read(x: DefaultValue, r: RawDefaultValue) -> bool {
    x.key@ == r.key@ && x.value@ == r.value@
}

pub open spec fn hamlet_read(x: Hamlet, r: RawHamlet) -> bool {
    &&& x.enabled == r.enabled
    &&& x.width == r.width
    &&& x.depth == r.depth
    &&& x.kit_catalog@ == r.kit_catalog@
    &&& x.layers@.len() == r.layers@.len()
    &&& forall|i: int| 0 <= i < x.layers@.len() ==> (#[trigger] x.layers@[i])@ == r.layers@[i]@
}

impl GameData {
    /// Whether the data is what the authored records say, record by record.
    pub open spec fn reads(&self, raw: RawGameData) -> bool {
        &&& self.skills@.len() == raw.skills@.len()
        &&& forall|i: int|
            0 <= i < raw.skills@.len() ==> skill_read(#[trigger] self.skills@[i], raw.skills@[i])
        &&& self.factions@.len() == raw.factions@.len()
        &&& forall|i: int|
            0 <= i < raw.factions@.len() ==> faction_read(
                #[trigger] self.factions@[i],
                raw.factions@[i],
            )
        &&& self.effects@.len() == raw.effects@.len()
        &&& forall|i: int|
            0 <= i < raw.effects@.len() ==> effect_read(
                #[trigger] self.effects@[i],
                raw.effects@[i],
            )
        &&& self.actions@.len() == raw.actions@.len()
        &&& forall|i: int|
            0 <= i < raw.actions@.len() ==> action_read(
                #[trigger] self.actions@[i],
                raw.actions@[i],
            )
        &&& self.player_profiles@.len() == raw.players@.len()
        &&& forall|i: int|
            0 <= i < raw.players@.len() ==> profile_read(
                #[trigger] self.player_profiles@[i],
                raw.players@[i],
            )
        &&& self.mobs@.len() == raw.mobs@.len()
        &&& forall|i: int|
            0 <= i < raw.mobs@.len() ==> mob_read(#[trigger] self.mobs@[i], raw.mobs@[i])
        &&& self.movement@.len() == raw.movement@.len()
        &&& forall|i: int|
            0 <= i < raw.movement@.len() ==> movement_read(
                #[trigger] self.movement@[i],
                raw.movement@[i],
            )
        &&& hamlet_read(self.hamlet, raw.hamlet)
        &&& self.defaults@.len() == raw.defaults@.len()
        &&& forall|i: int|
            0 <= i < raw.defaults@.len() ==> default_read(
                #[trigger] self.defaults@[i],
                raw.defaults@[i],
            )
    }
}

fn read_effects(raw: &RawGameData) -> (r: Result<Vec<Effect>, GameDataFault>)
    ensures
        match r {
            Ok(xs) => effect_words_fault(raw.effects@, 0) is None && xs@.len()
                == raw.effects@.len() && forall|i: int|
                0 <= i < xs@.len() ==> effect_read(#[trigger] xs@[i], raw.effects@[i]),
            Err(f) => effect_words_fault(raw.effects@, 0) == Some(f) && fault_fits(*raw, f),
        },
{
    let mut out: Vec<Effect> = Vec::new();
    let mut i: usize = 0;
    while i < raw.effects.len()
        invariant
            i <= raw.effects@.len(),
            out@.len() == i,
            effect_words_fault(raw.effects@, 0) == effect_words_fault(raw.effects@, i as int),
            forall|j: int| 0 <= j < i ==> effect_read(#[trigger] out@[j], raw.effects@[j]),
        decreases raw.effects@.len() - i,
    {
        let e: &RawEffect = &raw.effects[i];
        let operation: EffectOperation = match EffectOperation::from_str(e.operation.as_str()) {
            Some(operation) => operation,
            None => {
                return Err(GameDataFault::UnknownOperation { effect: i });
            },
        };
        let progression: Progression = match Progression::from_str(e.progression.as_str()) {
            Some(progression) => progression,
            None => {
                return Err(GameDataFault::UnknownProgression { effect: i });
            },
        };
        out.push(
            Effect {
                id: EffectId::new(e.id.as_str()),
                name: owned(e.name.as_str()),
                operation,
                skill_id: SkillId::new(e.skill_id.as_str()),
                progression,
            },
        );
        i += 1;
    }
    Ok(out)
}

fn read_assignments(raw: &RawGameData, action: usize) -> (r: Result<
    Vec<ActionEffect>,
    GameDataFault,
>)
    requires
        action < raw.actions@.len(),
    ensures
        match r {
            Ok(xs) => assignment_words_fault(raw.actions@[action as int].effects@, action, 0)
                is None && assignments_read(xs@, raw.actions@[action as int].effects@),
            Err(f) => assignment_words_fault(raw.actions@[action as int].effects@, action, 0)
                == Some(f) && fault_fits(*raw, f),
        },
{
    let rs: &Vec<RawActionEffect> = &raw.actions[action].effects;
    let mut out: Vec<ActionEffect> = Vec::new();
    let mut i: usize = 0;
    while i < rs.len()
        invariant
            i <= rs@.len(),
            action < raw.actions@.len(),
            rs@ == raw.actions@[action as int].effects@,
            out@.len() == i,
            assignment_words_fault(rs@, action, 0) == assignment_words_fault(rs@, action, i as int),
            forall|j: int| 0 <= j < i ==> assignment_read(#[trigger] out@[j], rs@[j]),
        decreases rs@.len() - i,
    {
        let x: &RawActionEffect = &rs[i];
        let application: Application = match Application::from_str(x.application.as_str()) {
            Some(application) => application,
            None => {
                return Err(GameDataFault::UnknownApplication { action, assignment: i });
            },
        };
        out.push(
            ActionEffect {
                effect_id: EffectId::new(x.effect_id.as_str()),
                magnitude: x.magnitude,
                application,
                range_m: x.range_m,
                radius_m: x.radius_m,
                angle_deg: x.angle_deg,
                duration_s: x.duration_s,
                movement_multiplier: x.movement_multiplier,
            },
        );
        i += 1;
    }
    Ok(out)
}

fn read_actions(raw: &RawGameData) -> (r: Result<Vec<Action>, GameDataFault>)
    ensures
        match r {
            Ok(xs) => action_words_fault(raw.actions@, 0) is None && xs@.len()
                == raw.actions@.len() && forall|i: int|
                0 <= i < xs@.len() ==> action_read(#[trigger] xs@[i], raw.actions@[i]),
            Err(f) => action_words_fault(raw.actions@, 0) == Some(f) && fault_fits(*raw, f),
        },
{
    let mut out: Vec<Action> = Vec::new();
    let mut i: usize = 0;
    while i < raw.actions.len()
        invariant
            i <= raw.actions@.len(),
            out@.len() == i,
            action_words_fault(raw.actions@, 0) == action_words_fault(raw.actions@, i as int),
            forall|j: int| 0 <= j < i ==> action_read(#[trigger] out@[j], raw.actions@[j]),
        decreases raw.actions@.len() - i,
    {
        let a: &RawAction = &raw.actions[i];
        let target: ActionTarget = match ActionTarget::from_str(a.target.as_str()) {
            Some(target) => target,
            None => {
                return Err(GameDataFault::UnknownTarget { action: i });
            },
        };
        let effects: Vec<ActionEffect> = match read_assignments(raw, i) {
            Ok(effects) => effects,
            Err(f) => {
                return Err(f);
            },
        };
        let x: Action = Action {
            id: ActionId::new(a.id.as_str()),
            name: owned(a.name.as_str()),
            description: owned(a.description.as_str()),
            target,
            mana_cost: a.mana_cost,
            cast_s: a.cast_s,
            cooldown_s: a.cooldown_s,
            interruptible: a.interruptible,
            reveals: a.reveals,
            effects,
        };
        assert(action_read(x, raw.actions@[i as int]));
        out.push(x);
        i += 1;
    }
    Ok(out)
}

fn read_skills_of(rs: &Vec<RawProfileSkill>) -> (xs: Vec<ProfileSkill>)
    ensures
        roster_skills_read(xs@, rs@),
{
    let mut out: Vec<ProfileSkill> = Vec::new();
    let mut i: usize = 0;
    while i < rs.len()
        invariant
            i <= rs@.len(),
            out@.len() == i,
            forall|j: int|
                0 <= j < i ==> (#[trigger] out@[j]).id@ == rs@[j].id@ && out@[j].level
                    == rs@[j].level,
        decreases rs@.len() - i,
    {
        out.push(ProfileSkill { id: SkillId::new(rs[i].id.as_str()), level: rs[i].level });
        i += 1;
    }
    out
}

fn read_actions_of(rs: &Vec<String>) -> (xs: Vec<ActionId>)
    ensures
        roster_actions_read(xs@, rs@),
{
    let mut out: Vec<ActionId> = Vec::new();
    let mut i: usize = 0;
    while i < rs.len()
        invariant
            i <= rs@.len(),
            out@.len() == i,
            forall|j: int| 0 <= j < i ==> (#[trigger] out@[j])@ == rs@[j]@,
        decreases rs@.len() - i,
    {
        out.push(ActionId::new(rs[i].as_str()));
        i += 1;
    }
    out
}

fn read_profiles(raw: &RawGameData) -> (xs: Vec<PlayerProfile>)
    ensures
        xs@.len() == raw.players@.len(),
        forall|i: int| 0 <= i < xs@.len() ==> profile_read(#[trigger] xs@[i], raw.players@[i]),
{
    let mut out: Vec<PlayerProfile> = Vec::new();
    let mut i: usize = 0;
    while i < raw.players.len()
        invariant
            i <= raw.players@.len(),
            out@.len() == i,
            forall|j: int| 0 <= j < i ==> profile_read(#[trigger] out@[j], raw.players@[j]),
        decreases raw.players@.len() - i,
    {
        let p: &RawPlayerProfile = &raw.players[i];
        out.push(
            PlayerProfile {
                id: ProfileId::new(p.id.as_str()),
                name: owned(p.name.as_str()),
                faction: FactionId::new(p.faction.as_str()),
                skills: read_skills_of(&p.skills),
                actions: read_actions_of(&p.actions),
            },
        );
        i += 1;
    }
    out
}

fn read_mobs(raw: &RawGameData) -> (r: Result<Vec<MobDefinition>, GameDataFault>)
    ensures
        match r {
            Ok(xs) => mob_words_fault(raw.mobs@, 0) is None && xs@.len() == raw.mobs@.len()
                && forall|i: int|
                0 <= i < xs@.len() ==> mob_read(#[trigger] xs@[i], raw.mobs@[i]),
            Err(f) => mob_words_fault(raw.mobs@, 0) == Some(f) && fault_fits(*raw, f),
        },
{
    let mut out: Vec<MobDefinition> = Vec::new();
    let mut i: usize = 0;
    while i < raw.mobs.len()
        invariant
            i <= raw.mobs@.len(),
            out@.len() == i,
            mob_words_fault(raw.mobs@, 0) == mob_words_fault(raw.mobs@, i as int),
            forall|j: int| 0 <= j < i ==> mob_read(#[trigger] out@[j], raw.mobs@[j]),
        decreases raw.mobs@.len() - i,
    {
        let m: &RawMobDefinition = &raw.mobs[i];
        if !is_variance(m.speed_variance_ratio) {
            return Err(GameDataFault::SpeedVariance { mob: i });
        }
        if !is_positive(m.endurance_s) {
            return Err(GameDataFault::Endurance { mob: i });
        }
        let mode: MobMode = match MobMode::from_str(m.mode.as_str()) {
            Some(mode) => mode,
            None => {
                return Err(GameDataFault::UnknownMode { mob: i });
            },
        };
        let species_id: Option<SpeciesId> = if m.species_id.as_str().unicode_len() == 0 {
            None
        } else {
            Some(SpeciesId::new(m.species_id.as_str()))
        };
        out.push(
            MobDefinition {
                id: MobId::new(m.id.as_str()),
                name: owned(m.name.as_str()),
                faction: FactionId::new(m.faction.as_str()),
                mode,
                movement_id: MovementId::new(m.movement_id.as_str()),
                species_id,
                hp: m.hp,
                armor: m.armor,
                speed_variance_ratio: SpeedVarianceRatio { ratio: m.speed_variance_ratio },
                endurance_s: EnduranceSeconds { endurance: m.endurance_s },
                skills: read_skills_of(&m.skills),
                actions: read_actions_of(&m.actions),
            },
        );
        i += 1;
    }
    Ok(out)
}

fn read_skills(raw: &RawGameData) -> (xs: Vec<Skill>)
    ensures
        xs@.len() == raw.skills@.len(),
        forall|i: int| 0 <= i < xs@.len() ==> skill_read(#[trigger] xs@[i], raw.skills@[i]),
{
    let mut out: Vec<Skill> = Vec::new();
    let mut i: usize = 0;
    while i < raw.skills.len()
        invariant
            i <= raw.skills@.len(),
            out@.len() == i,
            forall|j: int| 0 <= j < i ==> skill_read(#[trigger] out@[j], raw.skills@[j]),
        decreases raw.skills@.len() - i,
    {
        let s: &RawSkill = &raw.skills[i];
        out.push(
            Skill {
                id: SkillId::new(s.id.as_str()),
                name: owned(s.name.as_str()),
                description: owned(s.description.as_str()),
                level_scale: s.level_scale,
            },
        );
        i += 1;
    }
    out
}

fn read_factions(raw: &RawGameData) -> (xs: Vec<Faction>)
    ensures
        xs@.len() == raw.factions@.len(),
        forall|i: int| 0 <= i < xs@.len() ==> faction_read(#[trigger] xs@[i], raw.factions@[i]),
{
    let mut out: Vec<Faction> = Vec::new();
    let mut i: usize = 0;
    while i < raw.factions.len()
        invariant
            i <= raw.factions@.len(),
            out@.len() == i,
            forall|j: int| 0 <= j < i ==> faction_read(#[trigger] out@[j], raw.factions@[j]),
        decreases raw.factions@.len() - i,
    {
        let f: &RawFaction = &raw.factions[i];
        out.push(
            Faction {
                id: FactionId::new(f.id.as_str()),
                name: owned(f.name.as_str()),
                neutral: f.neutral,
            },
        );
        i += 1;
    }
    out
}

fn read_movement(raw: &RawGameData) -> (xs: Vec<MovementSpec>)
    ensures
        xs@.len() == raw.movement@.len(),
        forall|i: int| 0 <= i < xs@.len() ==> movement_read(#[trigger] xs@[i], raw.movement@[i]),
{
    let mut out: Vec<MovementSpec> = Vec::new();
    let mut i: usize = 0;
    while i < raw.movement.len()
        invariant
            i <= raw.movement@.len(),
            out@.len() == i,
            forall|j: int| 0 <= j < i ==> movement_read(#[trigger] out@[j], raw.movement@[j]),
        decreases raw.movement@.len() - i,
    {
        let m: &RawMovementSpec = &raw.movement[i];
        out.push(MovementSpec { id: MovementId::new(m.id.as_str()), speed_mps: m.speed_mps });
        i += 1;
    }
    out
}

fn read_defaults(raw: &RawGameData) -> (xs: Vec<DefaultValue>)
    ensures
        xs@.len() == raw.defaults@.len(),
        forall|i: int| 0 <= i < xs@.len() ==> default_read(#[trigger] xs@[i], raw.defaults@[i]),
{
    let mut out: Vec<DefaultValue> = Vec::new();
    let mut i: usize = 0;
    while i < raw.defaults.len()
        invariant
            i <= raw.defaults@.len(),
            out@.len() == i,
            forall|j: int| 0 <= j < i ==> default_read(#[trigger] out@[j], raw.defaults@[j]),
        decreases raw.defaults@.len() - i,
    {
        let d: &RawDefaultValue = &raw.defaults[i];
        out.push(DefaultValue { key: owned(d.key.as_str()), value: owned(d.value.as_str()) });
        i += 1;
    }
    out
}

fn read_hamlet(r: &RawHamlet) -> (x: Hamlet)
    ensures
        hamlet_read(x, *r),
{
    let mut layers: Vec<String> = Vec::new();
    let mut i: usize = 0;
    while i < r.layers.len()
        invariant
            i <= r.layers@.len(),
            layers@.len() == i,
            forall|j: int| 0 <= j < i ==> (#[trigger] layers@[j])@ == r.layers@[j]@,
        decreases r.layers@.len() - i,
    {
        layers.push(owned(r.layers[i].as_str()));
        i += 1;
    }
    Hamlet {
        enabled: r.enabled,
        width: r.width,
        depth: r.depth,
        kit_catalog: owned(r.kit_catalog.as_str()),
        layers,
    }
}

impl GameData {
    /// Reads authored data: the typed data where nothing is wrong with it, else the
    /// first fault.
    pub fn from_raw(raw: &RawGameData) -> (r: Result<GameData, GameDataFault>)
        ensures
            match r {
                Ok(data) => load_fault(*raw) is None && data.reads(*raw),
                Err(f) => load_fault(*raw) == Some(f) && fault_fits(*raw, f),
            },
    {
        if raw.schema_version != SCHEMA_VERSION {
            return Err(GameDataFault::Schema);
        }
        match ids_fault(raw) {
            Some(f) => {
                return Err(f);
            },
            None => {},
        }
        let effects: Vec<Effect> = match read_effects(raw) {
            Ok(xs) => xs,
            Err(f) => {
                return Err(f);
            },
        };
        let actions: Vec<Action> = match read_actions(raw) {
            Ok(xs) => xs,
            Err(f) => {
                return Err(f);
            },
        };
        let mobs: Vec<MobDefinition> = match read_mobs(raw) {
            Ok(xs) => xs,
            Err(f) => {
                return Err(f);
            },
        };
        match validate(raw) {
            Some(f) => {
                return Err(f);
            },
            None => {},
        }
        Ok(
            GameData {
                skills: read_skills(raw),
                factions: read_factions(raw),
                effects,
                actions,
                player_profiles: read_profiles(raw),
                mobs,
                movement: read_movement(raw),
                hamlet: read_hamlet(&raw.hamlet),
                defaults: read_defaults(raw),
            },
        )
    }
}

impl GameData {
    pub fn skills(&self) -> (r: &[Skill])
        ensures
            r@ == self.skills@,
    {
        self.skills.as_slice()
    }

    pub fn factions(&self) -> (r: &[Faction])
        ensures
            r@ == self.factions@,
    {
        self.factions.as_slice()
    }

    pub fn effects(&self) -> (r: &[Effect])
        ensures
            r@ == self.effects@,
    {
        self.effects.as_slice()
    }

    pub fn actions(&self) -> (r: &[Action])
        ensures
            r@ == self.actions@,
    {
        self.actions.as_slice()
    }

    pub fn player_profiles(&self) -> (r: &[PlayerProfile])
        ensures
            r@ == self.player_profiles@,
    {
        self.player_profiles.as_slice()
    }

    pub fn mobs(&self) -> (r: &[MobDefinition])
        ensures
            r@ == self.mobs@,
    {
        self.mobs.as_slice()
    }

    pub fn movement(&self) -> (r: &[MovementSpec])
        ensures
            r@ == self.movement@,
    {
        self.movement.as_slice()
    }

    pub fn defaults(&self) -> (r: &[DefaultValue])
        ensures
            r@ == self.defaults@,
    {
        self.defaults.as_slice()
    }

    pub fn hamlet(&self) -> (r: &Hamlet)
        ensures
            *r == self.hamlet,
    {
        &self.hamlet
    }

    pub fn hamlet_enabled(&self) -> (r: bool)
        ensures
            r == self.hamlet.enabled,
    {
        self.hamlet.enabled
    }
}

impl GameData {
    /// The first of the skills with an id.
    pub fn skill(&self, id: &SkillId) -> (r: Option<&Skill>)
        ensures
            match r {
                Some(x) => exists|i: int|
                    0 <= i < self.skills@.len() && #[trigger] self.skills@[i] == *x && x.id@ == id@
                        && forall|j: int| 0 <= j < i ==> (#[trigger] self.skills@[j]).id@ != id@,
                None => forall|i: int|
                    0 <= i < self.skills@.len() ==> (#[trigger] self.skills@[i]).id@ != id@,
            },
    {
        let mut i: usize = 0;
        while i < self.skills.len()
            invariant
                i <= self.skills@.len(),
                forall|j: int| 0 <= j < i ==> (#[trigger] self.skills@[j]).id@ != id@,
            decreases self.skills@.len() - i,
        {
            if self.skills[i].id.same(id) {
                assert(self.skills@[i as int].id@ == id@);
                return Some(&self.skills[i]);
            }
            i += 1;
        }
        None
    }
}

impl GameData {
    /// The first of the factions with an id.
    pub fn faction(&self, id: &FactionId) -> (r: Option<&Faction>)
        ensures
            match r {
                Some(x) => exists|i: int|
                    0 <= i < self.factions@.len() && #[trigger] self.factions@[i] == *x && x.id@ == id@
                        && forall|j: int| 0 <= j < i ==> (#[trigger] self.factions@[j]).id@ != id@,
                None => forall|i: int|
                    0 <= i < self.factions@.len() ==> (#[trigger] self.factions@[i]).id@ != id@,
            },
    {
        let mut i: usize = 0;
        while i < self.factions.len()
            invariant
                i <= self.factions@.len(),
                forall|j: int| 0 <= j < i ==> (#[trigger] self.factions@[j]).id@ != id@,
            decreases self.factions@.len() - i,
        {
            if self.factions[i].id.same(id) {
                assert(self.factions@[i as int].id@ == id@);
                return Some(&self.factions[i]);
            }
            i += 1;
        }
        None
    }
}

impl GameData {
    /// The first of the effects with an id.
    pub fn effect(&self, id: &EffectId) -> (r: Option<&Effect>)
        ensures
            match r {
                Some(x) => exists|i: int|
                    0 <= i < self.effects@.len() && #[trigger] self.effects@[i] == *x && x.id@ == id@
                        && forall|j: int| 0 <= j < i ==> (#[trigger] self.effects@[j]).id@ != id@,
                None => forall|i: int|
                    0 <= i < self.effects@.len() ==> (#[trigger] self.effects@[i]).id@ != id@,
            },
    {
        let mut i: usize = 0;
        while i < self.effects.len()
            invariant
                i <= self.effects@.len(),
                forall|j: int| 0 <= j < i ==> (#[trigger] self.effects@[j]).id@ != id@,
            decreases self.effects@.len() - i,
        {
            if self.effects[i].id.same(id) {
                assert(self.effects@[i as int].id@ == id@);
                return Some(&self.effects[i]);
            }
            i += 1;
        }
        None
    }
}

impl GameData {
    /// The first of the actions with an id.
    pub fn action(&self, id: &ActionId) -> (r: Option<&Action>)
        ensures
            match r {
                Some(x) => exists|i: int|
                    0 <= i < self.actions@.len() && #[trigger] self.actions@[i] == *x && x.id@ == id@
                        && forall|j: int| 0 <= j < i ==> (#[trigger] self.actions@[j]).id@ != id@,
                None => forall|i: int|
                    0 <= i < self.actions@.len() ==> (#[trigger] self.actions@[i]).id@ != id@,
            },
    {
        let mut i: usize = 0;
        while i < self.actions.len()
            invariant
                i <= self.actions@.len(),
                forall|j: int| 0 <= j < i ==> (#[trigger] self.actions@[j]).id@ != id@,
            decreases self.actions@.len() - i,
        {
            if self.actions[i].id.same(id) {
                assert(self.actions@[i as int].id@ == id@);
                return Some(&self.actions[i]);
            }
            i += 1;
        }
        None
    }
}

impl GameData {
    /// The first of the player profiles with an id.
    pub fn profile(&self, id: &ProfileId) -> (r: Option<&PlayerProfile>)
        ensures
            match r {
                Some(x) => exists|i: int|
                    0 <= i < self.player_profiles@.len() && #[trigger] self.player_profiles@[i] == *x && x.id@ == id@
                        && forall|j: int| 0 <= j < i ==> (#[trigger] self.player_profiles@[j]).id@ != id@,
                None => forall|i: int|
                    0 <= i < self.player_profiles@.len() ==> (#[trigger] self.player_profiles@[i]).id@ != id@,
            },
    {
        let mut i: usize = 0;
        while i < self.player_profiles.len()
            invariant
                i <= self.player_profiles@.len(),
                forall|j: int| 0 <= j < i ==> (#[trigger] self.player_profiles@[j]).id@ != id@,
            decreases self.player_profiles@.len() - i,
        {
            if self.player_profiles[i].id.same(id) {
                assert(self.player_profiles@[i as int].id@ == id@);
                return Some(&self.player_profiles[i]);
            }
            i += 1;
        }
        None
    }
}

impl GameData {
    /// The first of the mobs with an id.
    pub fn mob(&self, id: &MobId) -> (r: Option<&MobDefinition>)
        ensures
            match r {
                Some(x) => exists|i: int|
                    0 <= i < self.mobs@.len() && #[trigger] self.mobs@[i] == *x && x.id@ == id@
                        && forall|j: int| 0 <= j < i ==> (#[trigger] self.mobs@[j]).id@ != id@,
                None => forall|i: int|
                    0 <= i < self.mobs@.len() ==> (#[trigger] self.mobs@[i]).id@ != id@,
            },
    {
        let mut i: usize = 0;
        while i < self.mobs.len()
            invariant
                i <= self.mobs@.len(),
                forall|j: int| 0 <= j < i ==> (#[trigger] self.mobs@[j]).id@ != id@,
            decreases self.mobs@.len() - i,
        {
            if self.mobs[i].id.same(id) {
                assert(self.mobs@[i as int].id@ == id@);
                return Some(&self.mobs[i]);
            }
            i += 1;
        }
        None
    }
}

impl GameData {
    /// The first of the movement with an id.
    pub fn movement_by_id(&self, id: &MovementId) -> (r: Option<&MovementSpec>)
        ensures
            match r {
                Some(x) => exists|i: int|
                    0 <= i < self.movement@.len() && #[trigger] self.movement@[i] == *x && x.id@ == id@
                        && forall|j: int| 0 <= j < i ==> (#[trigger] self.movement@[j]).id@ != id@,
                None => forall|i: int|
                    0 <= i < self.movement@.len() ==> (#[trigger] self.movement@[i]).id@ != id@,
            },
    {
        let mut i: usize = 0;
        while i < self.movement.len()
            invariant
                i <= self.movement@.len(),
                forall|j: int| 0 <= j < i ==> (#[trigger] self.movement@[j]).id@ != id@,
            decreases self.movement@.len() - i,
        {
            if self.movement[i].id.same(id) {
                assert(self.movement@[i as int].id@ == id@);
                return Some(&self.movement[i]);
            }
            i += 1;
        }
        None
    }
}

/// The value of the first default with a key, from `from` on.
pub open spec fn default_for(defaults: Seq<DefaultValue>, key: Seq<char>, from: int) -> Option<
    Seq<char>,
>
    decreases defaults.len() - from,
{
    if from < 0 || from >= defaults.len() {
        None
    } else if defaults[from].key@ == key {
        Some(defaults[from].value@)
    } else {
        default_for(defaults, key, from + 1)
    }
}

/// Why there is no default player profile.
#[derive(Clone, Copy, Debug, PartialEq, Eq, Structural)]
pub enum ProfileFault {
    Missing,
    Unknown,
}

impl GameData {
    pub open spec fn has_faction(&self, id: Seq<char>) -> bool {
        exists|i: int| 0 <= i < self.factions@.len() && (#[trigger] self.factions@[i]).id@ == id
    }

    pub open spec fn has_profile(&self, id: Seq<char>) -> bool {
        exists|i: int|
            0 <= i < self.player_profiles@.len() && (#[trigger] self.player_profiles@[i]).id@ == id
    }

    /// Two factions are hostile when they are not the same.
    pub fn factions_are_hostile(&self, first: &FactionId, second: &FactionId) -> (r: bool)
        requires
            self.has_faction(first@),
            self.has_faction(second@),
        ensures
            r == (first@ != second@),
    {
        !first.same(second)
    }

    /// The value of a default.
    pub fn default_value(&self, key: &str) -> (r: Option<&str>)
        ensures
            match r {
                Some(v) => default_for(self.defaults@, key@, 0) == Some(v@),
                None => default_for(self.defaults@, key@, 0) is None,
            },
    {
        let mut i: usize = 0;
        while i < self.defaults.len()
            invariant
                i <= self.defaults@.len(),
                default_for(self.defaults@, key@, 0) == default_for(
                    self.defaults@,
                    key@,
                    i as int,
                ),
            decreases self.defaults@.len() - i,
        {
            if str_eq(self.defaults[i].key.as_str(), key) {
                return Some(self.defaults[i].value.as_str());
            }
            i += 1;
        }
        None
    }

    /// The profile a player starts with; it must be named and known.
    pub fn default_player_profile_id(&self) -> (r: Result<ProfileId, ProfileFault>)
        ensures
            match default_for(self.defaults@, "default_player_profile"@, 0) {
                None => r == Err::<ProfileId, ProfileFault>(ProfileFault::Missing),
                Some(key) => if self.has_profile(key) {
                    r is Ok && r->Ok_0@ == key
                } else {
                    r == Err::<ProfileId, ProfileFault>(ProfileFault::Unknown)
                },
            },
    {
        match self.default_value("default_player_profile") {
            None => Err(ProfileFault::Missing),
            Some(key) => {
                let id: ProfileId = ProfileId::new(key);
                match self.profile(&id) {
                    Some(_) => Ok(id),
                    None => Err(ProfileFault::Unknown),
                }
            },
        }
    }
}

} // verus!
