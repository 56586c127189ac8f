//! What authored data may be refused for, and the order in which it is found.

use crate::gamedata::kinds::{
    application_of, mode_of, operation_of, progression_of, target_of, Application, EffectOperation,
};
use crate::gamedata::raw::{
    RawAction, RawActionEffect, RawEffect, RawGameData, RawMobDefinition, RawProfileSkill,
};
use crate::measure::{Real, FIFTH_RANK, FULL_TURN_RANK, ONE_RANK};
use vstd::prelude::*;

verus! {

/// The schema that is read.
pub const SCHEMA_VERSION: u32 = 3;

/// The lists whose records are found by id.
#[derive(Clone, Copy, Debug, PartialEq, Eq, Structural)]
pub enum Label {
    Skill,
    Faction,
    Effect,
    Action,
    Profile,
    Mob,
    Movement,
}

/// Who a roster of skills and actions belongs to.
#[derive(Clone, Copy, Debug, PartialEq, Eq, Structural)]
pub enum Actor {
    Profile(usize),
    Mob(usize),
}

/// The numbers of an assignment that must be finite.
#[derive(Clone, Copy, Debug, PartialEq, Eq, Structural)]
pub enum NumberField {
    Magnitude,
    Range,
    Radius,
    Angle,
    Duration,
    MovementMultiplier,
}

/// What an assignment's reach may be refused for.
#[derive(Clone, Copy, Debug, PartialEq, Eq, Structural)]
pub enum ReachFault {
    Negative,
    SingleTargetRange,
    ConeRange,
    ConeAngle,
    AoeRange,
    AoeRadius,
    PbaoeRange,
    PbaoeRadius,
}

/// What authored data is refused for. Records are named by their place in their list.
#[derive(Clone, Copy, Debug, PartialEq, Eq, Structural)]
pub enum GameDataFault {
    Schema,
    InvalidId { label: Label, at: usize },
    DuplicateId { label: Label, at: usize },
    UnknownOperation { effect: usize },
    UnknownProgression { effect: usize },
    UnknownTarget { action: usize },
    UnknownApplication { action: usize, assignment: usize },
    SpeedVariance { mob: usize },
    Endurance { mob: usize },
    UnknownMode { mob: usize },
    NeutralFaction,
    UnknownFaction { actor: Actor },
    EmptyRoster { actor: Actor },
    DuplicateSkill { actor: Actor, skill: usize },
    InvalidSkill { actor: Actor, skill: usize },
    DuplicateAction { actor: Actor, action: usize },
    UnknownAction { actor: Actor, action: usize },
    UnassignedSkill { actor: Actor, action: usize, effect: usize },
    UnknownSkill { effect: usize },
    ActionNotFinite { action: usize },
    NegativeMana { action: usize },
    NegativeTiming { action: usize },
    UnknownEffect { action: usize, assignment: usize },
    NumberNotFinite { action: usize, assignment: usize, field: NumberField },
    DirectDomain { action: usize, assignment: usize },
    ControlDomain { action: usize, assignment: usize },
    SnareDomain { action: usize, assignment: usize },
    Reach { action: usize, assignment: usize, fault: ReachFault },
    SharedSpecies { mob: usize },
    UnknownMovement { mob: usize },
    NonPositiveHp { mob: usize },
    MovementSpeed { movement: usize },
}

/// How many records a list holds.
pub open spec fn count_of(raw: RawGameData, label: Label) -> nat {
    match label {
        Label::Skill => raw.skills@.len(),
        Label::Faction => raw.factions@.len(),
        Label::Effect => raw.effects@.len(),
        Label::Action => raw.actions@.len(),
        Label::Profile => raw.players@.len(),
        Label::Mob => raw.mobs@.len(),
        Label::Movement => raw.movement@.len(),
    }
}

/// The id of a record.
pub open spec fn id_at(raw: RawGameData, label: Label, i: int) -> Seq<char> {
    match label {
        Label::Skill => raw.skills@[i].id@,
        Label::Faction => raw.factions@[i].id@,
        Label::Effect => raw.effects@[i].id@,
        Label::Action => raw.actions@[i].id@,
        Label::Profile => raw.players@[i].id@,
        Label::Mob => raw.mobs@[i].id@,
        Label::Movement => raw.movement@[i].id@,
    }
}

/// The ids of a list, in order.
pub open spec fn ids_of(raw: RawGameData, label: Label) -> Seq<Seq<char>> {
    Seq::new(count_of(raw, label), |i: int| id_at(raw, label, i))
}

/// A letter, a digit, an underscore or a hyphen.
pub open spec fn id_char(c: char) -> bool {
    ||| 'a' <= c <= 'z'
    ||| 'A' <= c <= 'Z'
    ||| '0' <= c <= '9'
    ||| c == '_'
    ||| c == '-'
}

pub open spec fn id_valid(id: Seq<char>) -> bool {
    id.len() > 0 && forall|i: int| 0 <= i < id.len() ==> id_char(#[trigger] id[i])
}

/// Whether the id at `i` stands earlier in the list too.
pub open spec fn seen_before(ids: Seq<Seq<char>>, i: int) -> bool {
    exists|j: int| 0 <= j < i && #[trigger] ids[j] == ids[i]
}

/// The first fault of a list of ids from `from` on.
pub open spec fn id_fault(ids: Seq<Seq<char>>, label: Label, from: int) -> Option<GameDataFault>
    decreases ids.len() - from,
{
    if from < 0 || from >= ids.len() {
        None
    } else if !id_valid(ids[from]) {
        Some(GameDataFault::InvalidId { label, at: from as usize })
    } else if seen_before(ids, from) {
        Some(GameDataFault::DuplicateId { label, at: from as usize })
    } else {
        id_fault(ids, label, from + 1)
    }
}

/// The place of the first `id` from `from` on.
pub open spec fn place_in(ids: Seq<Seq<char>>, id: Seq<char>, from: int) -> Option<int>
    decreases ids.len() - from,
{
    if from < 0 || from >= ids.len() {
        None
    } else if ids[from] == id {
        Some(from)
    } else {
        place_in(ids, id, from + 1)
    }
}

/// The record of a list that has an id.
pub open spec fn found(raw: RawGameData, label: Label, id: Seq<char>) -> Option<int> {
    place_in(ids_of(raw, label), id, 0)
}

/// The first of two faults.
pub open spec fn either(a: Option<GameDataFault>, b: Option<GameDataFault>) -> Option<
    GameDataFault,
> {
    if a is Some {
        a
    } else {
        b
    }
}

pub open spec fn all_ids_fault(raw: RawGameData) -> Option<GameDataFault> {
    either(
        id_fault(ids_of(raw, Label::Skill), Label::Skill, 0),
        either(
            id_fault(ids_of(raw, Label::Faction), Label::Faction, 0),
            either(
                id_fault(ids_of(raw, Label::Effect), Label::Effect, 0),
                either(
                    id_fault(ids_of(raw, Label::Action), Label::Action, 0),
                    either(
                        id_fault(ids_of(raw, Label::Profile), Label::Profile, 0),
                        either(
                            id_fault(ids_of(raw, Label::Mob), Label::Mob, 0),
                            id_fault(ids_of(raw, Label::Movement), Label::Movement, 0),
                        ),
                    ),
                ),
            ),
        ),
    )
}

/// The first effect from `from` on whose words stand for nothing.
pub open spec fn effect_words_fault(effects: Seq<RawEffect>, from: int) -> Option<GameDataFault>
    decreases effects.len() - from,
{
    if from < 0 || from >= effects.len() {
        None
    } else if operation_of(effects[from].operation@) is None {
        Some(GameDataFault::UnknownOperation { effect: from as usize })
    } else if progression_of(effects[from].progression@) is None {
        Some(GameDataFault::UnknownProgression { effect: from as usize })
    } else {
        effect_words_fault(effects, from + 1)
    }
}

pub open spec fn assignment_words_fault(
    assignments: Seq<RawActionEffect>,
    action: usize,
    from: int,
) -> Option<GameDataFault>
    decreases assignments.len() - from,
{
    if from < 0 || from >= assignments.len() {
        None
    } else if application_of(assignments[from].application@) is None {
        Some(GameDataFault::UnknownApplication { action, assignment: from as usize })
    } else {
        assignment_words_fault(assignments, action, from + 1)
    }
}

/// The first action from `from` on whose words stand for nothing.
pub open spec fn action_words_fault(actions: Seq<RawAction>, from: int) -> Option<GameDataFault>
    decreases actions.len() - from,
{
    if from < 0 || from >= actions.len() {
        None
    } else if target_of(actions[from].target@) is None {
        Some(GameDataFault::UnknownTarget { action: from as usize })
    } else {
        either(
            assignment_words_fault(actions[from].effects@, from as usize, 0),
            action_words_fault(actions, from + 1),
        )
    }
}

/// A variance of a finite share, from nothing to a fifth.
pub open spec fn variance_ok(r: Real) -> bool {
    r.finite() && 0 <= r.place() <= FIFTH_RANK
}

pub open spec fn positive(r: Real) -> bool {
    r.finite() && r.place() > 0
}

/// The first mob from `from` on whose mode or own numbers are refused.
pub open spec fn mob_words_fault(mobs: Seq<RawMobDefinition>, from: int) -> Option<GameDataFault>
    decreases mobs.len() - from,
{
    if from < 0 || from >= mobs.len() {
        None
    } else if !variance_ok(mobs[from].speed_variance_ratio) {
        Some(GameDataFault::SpeedVariance { mob: from as usize })
    } else if !positive(mobs[from].endurance_s) {
        Some(GameDataFault::Endurance { mob: from as usize })
    } else if mode_of(mobs[from].mode@) is None {
        Some(GameDataFault::UnknownMode { mob: from as usize })
    } else {
        mob_words_fault(mobs, from + 1)
    }
}

/// How many of the first `n` factions are neutral.
pub open spec fn neutral_count(raw: RawGameData, n: nat) -> nat
    decreases n,
{
    if n == 0 {
        0
    } else {
        neutral_count(raw, (n - 1) as nat) + if raw.factions@[n - 1].neutral {
            1nat
        } else {
            0nat
        }
    }
}

pub open spec fn skills_of(raw: RawGameData, actor: Actor) -> Seq<RawProfileSkill> {
    match actor {
        Actor::Profile(i) => raw.players@[i as int].skills@,
        Actor::Mob(i) => raw.mobs@[i as int].skills@,
    }
}

pub open spec fn actions_of(raw: RawGameData, actor: Actor) -> Seq<String> {
    match actor {
        Actor::Profile(i) => raw.players@[i as int].actions@,
        Actor::Mob(i) => raw.mobs@[i as int].actions@,
    }
}

pub open spec fn faction_of(raw: RawGameData, actor: Actor) -> Seq<char> {
    match actor {
        Actor::Profile(i) => raw.players@[i as int].faction@,
        Actor::Mob(i) => raw.mobs@[i as int].faction@,
    }
}

pub open spec fn actor_fits(raw: RawGameData, actor: Actor) -> bool {
    match actor {
        Actor::Profile(i) => i < raw.players@.len(),
        Actor::Mob(i) => i < raw.mobs@.len(),
    }
}

/// Whether one of the first `n` skills has an id.
pub open spec fn has_skill(skills: Seq<RawProfileSkill>, id: Seq<char>, n: int) -> bool {
    exists|j: int| 0 <= j < n && (#[trigger] skills[j]).id@ == id
}

/// The first fault of an actor's skills from `from` on.
pub open spec fn skill_roster_fault(raw: RawGameData, actor: Actor, from: int) -> Option<
    GameDataFault,
>
    decreases skills_of(raw, actor).len() - from,
{
    let skills = skills_of(raw, actor);
    if from < 0 || from >= skills.len() {
        None
    } else if has_skill(skills, skills[from].id@, from) {
        Some(GameDataFault::DuplicateSkill { actor, skill: from as usize })
    } else if found(raw, Label::Skill, skills[from].id@) is None || skills[from].level <= 0 {
        Some(GameDataFault::InvalidSkill { actor, skill: from as usize })
    } else {
        skill_roster_fault(raw, actor, from + 1)
    }
}

/// The first assignment of an action from `from` on that needs a skill the actor has
/// not.
pub open spec fn needs_fault(
    raw: RawGameData,
    actor: Actor,
    place: usize,
    action: int,
    from: int,
) -> Option<GameDataFault>
    decreases raw.actions@[action].effects@.len() - from,
{
    let assignments = raw.actions@[action].effects@;
    if from < 0 || from >= assignments.len() {
        None
    } else {
        match found(raw, Label::Effect, assignments[from].effect_id@) {
            None => Some(
                GameDataFault::UnknownEffect { action: action as usize, assignment: from as usize },
            ),
            Some(e) => if !has_skill(
                skills_of(raw, actor),
                raw.effects@[e].skill_id@,
                skills_of(raw, actor).len() as int,
            ) {
                Some(GameDataFault::UnassignedSkill { actor, action: place, effect: e as usize })
            } else {
                needs_fault(raw, actor, place, action, from + 1)
            },
        }
    }
}

/// Whether one of the first `n` actions has an id.
pub open spec fn has_action(actions: Seq<String>, id: Seq<char>, n: int) -> bool {
    exists|j: int| 0 <= j < n && (#[trigger] actions[j])@ == id
}

/// The first fault of an actor's actions from `from` on.
pub open spec fn action_roster_fault(raw: RawGameData, actor: Actor, from: int) -> Option<
    GameDataFault,
>
    decreases actions_of(raw, actor).len() - from,
{
    let actions = actions_of(raw, actor);
    if from < 0 || from >= actions.len() {
        None
    } else if has_action(actions, actions[from]@, from) {
        Some(GameDataFault::DuplicateAction { actor, action: from as usize })
    } else {
        match found(raw, Label::Action, actions[from]@) {
            None => Some(GameDataFault::UnknownAction { actor, action: from as usize }),
            Some(a) => either(
                needs_fault(raw, actor, from as usize, a, 0),
                action_roster_fault(raw, actor, from + 1),
            ),
        }
    }
}

pub open spec fn roster_fault(raw: RawGameData, actor: Actor) -> Option<GameDataFault> {
    either(skill_roster_fault(raw, actor, 0), action_roster_fault(raw, actor, 0))
}

/// The first fault of the profiles from `from` on.
pub open spec fn profiles_fault(raw: RawGameData, from: int) -> Option<GameDataFault>
    decreases raw.players@.len() - from,
{
    if from < 0 || from >= raw.players@.len() {
        None
    } else {
        let actor = Actor::Profile(from as usize);
        if found(raw, Label::Faction, raw.players@[from].faction@) is None {
            Some(GameDataFault::UnknownFaction { actor })
        } else if raw.players@[from].actions@.len() == 0 {
            Some(GameDataFault::EmptyRoster { actor })
        } else {
            either(roster_fault(raw, actor), profiles_fault(raw, from + 1))
        }
    }
}

/// The first effect from `from` on whose skill is unknown.
pub open spec fn effects_fault(raw: RawGameData, from: int) -> Option<GameDataFault>
    decreases raw.effects@.len() - from,
{
    if from < 0 || from >= raw.effects@.len() {
        None
    } else if found(raw, Label::Skill, raw.effects@[from].skill_id@) is None {
        Some(GameDataFault::UnknownSkill { effect: from as usize })
    } else {
        effects_fault(raw, from + 1)
    }
}

pub open spec fn number_fault(x: RawActionEffect) -> Option<NumberField> {
    if !x.magnitude.finite() {
        Some(NumberField::Magnitude)
    } else if !x.range_m.finite() {
        Some(NumberField::Range)
    } else if !x.radius_m.finite() {
        Some(NumberField::Radius)
    } else if !x.angle_deg.finite() {
        Some(NumberField::Angle)
    } else if !x.duration_s.finite() {
        Some(NumberField::Duration)
    } else if !x.movement_multiplier.finite() {
        Some(NumberField::MovementMultiplier)
    } else {
        None
    }
}

/// Damage and healing: a positive magnitude, at once, with no effect on movement.
pub open spec fn direct_ok(x: RawActionEffect) -> bool {
    x.magnitude.place() > 0 && x.duration_s.place() == 0 && x.movement_multiplier.place()
        == ONE_RANK
}

/// Root, hold and charm: magnitude one, for a while, with no effect on movement.
pub open spec fn control_ok(x: RawActionEffect) -> bool {
    x.magnitude.place() == ONE_RANK && x.duration_s.place() > 0 && x.movement_multiplier.place()
        == ONE_RANK
}

/// Snare: magnitude one, for a while, at a part of the speed.
pub open spec fn snare_ok(x: RawActionEffect) -> bool {
    x.magnitude.place() == ONE_RANK && x.duration_s.place() > 0 && 0
        < x.movement_multiplier.place() < ONE_RANK
}

pub open spec fn reach_fault(x: RawActionEffect, application: Application) -> Option<ReachFault> {
    if x.range_m.place() < 0 || x.radius_m.place() < 0 {
        Some(ReachFault::Negative)
    } else {
        match application {
            Application::SingleTarget => if x.range_m.place() <= 0 {
                Some(ReachFault::SingleTargetRange)
            } else {
                None
            },
            Application::Cone => if x.range_m.place() <= 0 {
                Some(ReachFault::ConeRange)
            } else if !(0 < x.angle_deg.place() <= FULL_TURN_RANK) {
                Some(ReachFault::ConeAngle)
            } else {
                None
            },
            Application::Aoe => if x.range_m.place() <= 0 {
                Some(ReachFault::AoeRange)
            } else if x.radius_m.place() <= 0 {
                Some(ReachFault::AoeRadius)
            } else {
                None
            },
            Application::Pbaoe => if x.range_m.place() != 0 {
                Some(ReachFault::PbaoeRange)
            } else if x.radius_m.place() <= 0 {
                Some(ReachFault::PbaoeRadius)
            } else {
                None
            },
        }
    }
}

/// What one assignment is refused for, given what its effect does and how it spreads.
pub open spec fn domain_fault(
    x: RawActionEffect,
    operation: EffectOperation,
    application: Application,
    action: usize,
    assignment: usize,
) -> Option<GameDataFault> {
    match number_fault(x) {
        Some(field) => Some(GameDataFault::NumberNotFinite { action, assignment, field }),
        None => {
            let direct = operation == EffectOperation::DirectDamage || operation
                == EffectOperation::Heal;
            let snare = operation == EffectOperation::Snare;
            if direct && !direct_ok(x) {
                Some(GameDataFault::DirectDomain { action, assignment })
            } else if snare && !snare_ok(x) {
                Some(GameDataFault::SnareDomain { action, assignment })
            } else if !direct && !snare && !control_ok(x) {
                Some(GameDataFault::ControlDomain { action, assignment })
            } else {
                match reach_fault(x, application) {
                    Some(fault) => Some(GameDataFault::Reach { action, assignment, fault }),
                    None => None,
                }
            }
        },
    }
}

/// The first fault of an action's assignments from `from` on.
pub open spec fn assignments_fault(raw: RawGameData, action: usize, from: int) -> Option<
    GameDataFault,
>
    decreases raw.actions@[action as int].effects@.len() - from,
{
    let assignments = raw.actions@[action as int].effects@;
    if from < 0 || from >= assignments.len() {
        None
    } else {
        let x = assignments[from];
        match found(raw, Label::Effect, x.effect_id@) {
            None => Some(GameDataFault::UnknownEffect { action, assignment: from as usize }),
            Some(e) => either(
                domain_fault(
                    x,
                    operation_of(raw.effects@[e].operation@)->0,
                    application_of(x.application@)->0,
                    action,
                    from as usize,
                ),
                assignments_fault(raw, action, from + 1),
            ),
        }
    }
}

/// The first fault of the actions from `from` on.
pub open spec fn actions_fault(raw: RawGameData, from: int) -> Option<GameDataFault>
    decreases raw.actions@.len() - from,
{
    if from < 0 || from >= raw.actions@.len() {
        None
    } else {
        let a = raw.actions@[from];
        let action = from as usize;
        if !a.mana_cost.finite() || !a.cast_s.finite() || !a.cooldown_s.finite() {
            Some(GameDataFault::ActionNotFinite { action })
        } else if a.mana_cost.place() < 0 {
            Some(GameDataFault::NegativeMana { action })
        } else if a.cast_s.place() < 0 || a.cooldown_s.place() < 0 {
            Some(GameDataFault::NegativeTiming { action })
        } else {
            either(assignments_fault(raw, action, 0), actions_fault(raw, from + 1))
        }
    }
}

/// Whether an earlier mob than `i` names the same species.
pub open spec fn species_taken(mobs: Seq<RawMobDefinition>, i: int) -> bool {
    mobs[i].species_id@.len() > 0 && exists|j: int|
        0 <= j < i && (#[trigger] mobs[j]).species_id@ == mobs[i].species_id@
}

/// The first fault of the mobs from `from` on.
pub open spec fn mobs_fault(raw: RawGameData, from: int) -> Option<GameDataFault>
    decreases raw.mobs@.len() - from,
{
    if from < 0 || from >= raw.mobs@.len() {
        None
    } else {
        let m = raw.mobs@[from];
        let actor = Actor::Mob(from as usize);
        if species_taken(raw.mobs@, from) {
            Some(GameDataFault::SharedSpecies { mob: from as usize })
        } else if found(raw, Label::Faction, m.faction@) is None {
            Some(GameDataFault::UnknownFaction { actor })
        } else if found(raw, Label::Movement, m.movement_id@) is None {
            Some(GameDataFault::UnknownMovement { mob: from as usize })
        } else if m.actions@.len() == 0 {
            Some(GameDataFault::EmptyRoster { actor })
        } else if roster_fault(raw, actor) is Some {
            roster_fault(raw, actor)
        } else if m.hp <= 0 {
            Some(GameDataFault::NonPositiveHp { mob: from as usize })
        } else {
            mobs_fault(raw, from + 1)
        }
    }
}

/// The first way to move from `from` on whose speed is refused.
pub open spec fn movement_fault(raw: RawGameData, from: int) -> Option<GameDataFault>
    decreases raw.movement@.len() - from,
{
    if from < 0 || from >= raw.movement@.len() {
        None
    } else if !positive(raw.movement@[from].speed_mps) {
        Some(GameDataFault::MovementSpeed { movement: from as usize })
    } else {
        movement_fault(raw, from + 1)
    }
}

/// What the references and numbers of the data are refused for, once every word is
/// known to stand for something.
pub open spec fn reference_fault(raw: RawGameData) -> Option<GameDataFault> {
    if neutral_count(raw, raw.factions@.len()) != 1 {
        Some(GameDataFault::NeutralFaction)
    } else {
        either(
            profiles_fault(raw, 0),
            either(
                effects_fault(raw, 0),
                either(actions_fault(raw, 0), either(mobs_fault(raw, 0), movement_fault(raw, 0))),
            ),
        )
    }
}

/// What the words of the data are refused for.
pub open spec fn words_fault(raw: RawGameData) -> Option<GameDataFault> {
    either(
        effect_words_fault(raw.effects@, 0),
        either(action_words_fault(raw.actions@, 0), mob_words_fault(raw.mobs@, 0)),
    )
}

/// What authored data is refused for: the first fault, schema before ids before words
/// before references and numbers.
pub open spec fn load_fault(raw: RawGameData) -> Option<GameDataFault> {
    if raw.schema_version != SCHEMA_VERSION {
        Some(GameDataFault::Schema)
    } else {
        either(all_ids_fault(raw), either(words_fault(raw), reference_fault(raw)))
    }
}

/// Whether every place a fault names is a place of the data.
pub open spec fn fault_fits(raw: RawGameData, fault: GameDataFault) -> bool {
    match fault {
        GameDataFault::Schema => true,
        GameDataFault::InvalidId { label, at } => at < count_of(raw, label),
        GameDataFault::DuplicateId { label, at } => at < count_of(raw, label),
        GameDataFault::UnknownOperation { effect } => effect < raw.effects@.len(),
        GameDataFault::UnknownProgression { effect } => effect < raw.effects@.len(),
        GameDataFault::UnknownTarget { action } => action < raw.actions@.len(),
        GameDataFault::UnknownApplication { action, assignment } => assignment_fits(
            raw,
            action,
            assignment,
        ),
        GameDataFault::SpeedVariance { mob } => mob < raw.mobs@.len(),
        GameDataFault::Endurance { mob } => mob < raw.mobs@.len(),
        GameDataFault::UnknownMode { mob } => mob < raw.mobs@.len(),
        GameDataFault::NeutralFaction => true,
        GameDataFault::UnknownFaction { actor } => actor_fits(raw, actor),
        GameDataFault::EmptyRoster { actor } => actor_fits(raw, actor),
        GameDataFault::DuplicateSkill { actor, skill } => actor_fits(raw, actor) && skill
            < skills_of(raw, actor).len(),
        GameDataFault::InvalidSkill { actor, skill } => actor_fits(raw, actor) && skill
            < skills_of(raw, actor).len(),
        GameDataFault::DuplicateAction { actor, action } => actor_fits(raw, actor) && action
            < actions_of(raw, actor).len(),
        GameDataFault::UnknownAction { actor, action } => actor_fits(raw, actor) && action
            < actions_of(raw, actor).len(),
        GameDataFault::UnassignedSkill { actor, action, effect } => actor_fits(raw, actor)
            && action < actions_of(raw, actor).len() && effect < raw.effects@.len(),
        GameDataFault::UnknownSkill { effect } => effect < raw.effects@.len(),
        GameDataFault::ActionNotFinite { action } => action < raw.actions@.len(),
        GameDataFault::NegativeMana { action } => action < raw.actions@.len(),
        GameDataFault::NegativeTiming { action } => action < raw.actions@.len(),
        GameDataFault::UnknownEffect { action, assignment } => assignment_fits(
            raw,
            action,
            assignment,
        ),
        GameDataFault::NumberNotFinite { action, assignment, field } => assignment_fits(
            raw,
            action,
            assignment,
        ),
        GameDataFault::DirectDomain { action, assignment } => assignment_fits(
            raw,
            action,
            assignment,
        ),
        GameDataFault::ControlDomain { action, assignment } => assignment_fits(
            raw,
            action,
            assignment,
        ),
        GameDataFault::SnareDomain { action, assignment } => assignment_fits(
            raw,
            action,
            assignment,
        ),
        GameDataFault::Reach { action, assignment, fault } => assignment_fits(
            raw,
            action,
            assignment,
        ),
        GameDataFault::SharedSpecies { mob } => mob < raw.mobs@.len(),
        GameDataFault::UnknownMovement { mob } => mob < raw.mobs@.len(),
        GameDataFault::NonPositiveHp { mob } => mob < raw.mobs@.len(),
        GameDataFault::MovementSpeed { movement } => movement < raw.movement@.len(),
    }
}

pub open spec fn assignment_fits(raw: RawGameData, action: usize, assignment: usize) -> bool {
    action < raw.actions@.len() && assignment < raw.actions@[action as int].effects@.len()
}

} // verus!
