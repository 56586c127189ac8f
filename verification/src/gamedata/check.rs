//! Validation: finds the first fault of authored data.

use crate::gamedata::faults::{
    actions_fault, actions_of, actor_fits, action_roster_fault, all_ids_fault, assignments_fault,
    count_of, domain_fault, effects_fault, fault_fits, has_action, has_skill, id_at, id_char,
    id_fault, id_valid, ids_of, mobs_fault, movement_fault, needs_fault, neutral_count,
    number_fault, place_in, positive, profiles_fault, reach_fault, reference_fault, roster_fault,
    seen_before, skill_roster_fault, skills_of, species_taken, variance_ok, words_fault, Actor,
    GameDataFault, Label, NumberField, ReachFault,
};
use crate::gamedata::kinds::{application_of, operation_of, Application, EffectOperation};
use crate::gamedata::raw::{
    RawAction, RawActionEffect, RawGameData, RawMobDefinition, RawPlayerProfile, RawProfileSkill,
};
use crate::measure::{Real, FIFTH_RANK, FULL_TURN_RANK, ONE_RANK};
use crate::text::str_eq;
use vstd::prelude::*;

verus! {

/// The characters of each string.
pub open spec fn chars_of(ids: Seq<&str>) -> Seq<Seq<char>> {
    Seq::new(ids.len(), |i: int| ids[i]@)
}

/// The ids of a list.
pub(crate) fn collect_ids<'a>(raw: &'a RawGameData, label: Label) -> (ids: Vec<&'a str>)
    ensures
        chars_of(ids@) == ids_of(*raw, label),
{
    let n: usize = match label {
        Label::Skill => raw.skills.len(),
        Label::Faction => raw.factions.len(),
        Label::Effect => raw.effects.len(),
        Label::Action => raw.actions.len(),
        Label::Profile => raw.players.len(),
        Label::Mob => raw.mobs.len(),
        Label::Movement => raw.movement.len(),
    };
    let mut ids: Vec<&'a str> = Vec::new();
    let mut i: usize = 0;
    while i < n
        invariant
            i <= n,
            n == count_of(*raw, label),
            ids@.len() == i,
            forall|j: int| 0 <= j < i ==> (#[trigger] ids@[j])@ == id_at(*raw, label, j),
        decreases n - i,
    {
        let id: &'a str = match label {
            Label::Skill => raw.skills[i].id.as_str(),
            Label::Faction => raw.factions[i].id.as_str(),
            Label::Effect => raw.effects[i].id.as_str(),
            Label::Action => raw.actions[i].id.as_str(),
            Label::Profile => raw.players[i].id.as_str(),
            Label::Mob => raw.mobs[i].id.as_str(),
            Label::Movement => raw.movement[i].id.as_str(),
        };
        ids.push(id);
        i += 1;
    }
    assert(chars_of(ids@) =~= ids_of(*raw, label));
    ids
}

fn id_is_valid(id: &str) -> (r: bool)
    ensures
        r == id_valid(id@),
{
    let n: usize = id.unicode_len();
    if n == 0 {
        return false;
    }
    let mut i: usize = 0;
    while i < n
        invariant
            i <= n,
            n == id@.len(),
            forall|j: int| 0 <= j < i ==> id_char(#[trigger] id@[j]),
        decreases n - i,
    {
        let c: char = id.get_char(i);
        let good: bool = ('a' <= c && c <= 'z') || ('A' <= c && c <= 'Z') || ('0' <= c && c <= '9')
            || c == '_' || c == '-';
        if !good {
            assert(!id_char(id@[i as int]));
            return false;
        }
        i += 1;
    }
    true
}

fn stands_before(ids: &Vec<&str>, at: usize) -> (r: bool)
    requires
        at < ids@.len(),
    ensures
        r == seen_before(chars_of(ids@), at as int),
{
    let ghost all = chars_of(ids@);
    let mut j: usize = 0;
    while j < at
        invariant
            j <= at < ids@.len(),
            all == chars_of(ids@),
            forall|k: int| 0 <= k < j ==> #[trigger] all[k] != all[at as int],
        decreases at - j,
    {
        if str_eq(ids[j], ids[at]) {
            assert(all[j as int] == all[at as int]);
            return true;
        }
        j += 1;
    }
    false
}

/// The first fault of a list of ids: one that is no id, or one that was there before.
pub fn validate_ids(label: Label, ids: &Vec<&str>) -> (r: Option<GameDataFault>)
    ensures
        r == id_fault(chars_of(ids@), label, 0),
{
    let ghost all = chars_of(ids@);
    let mut i: usize = 0;
    while i < ids.len()
        invariant
            i <= ids@.len(),
            all == chars_of(ids@),
            id_fault(all, label, 0) == id_fault(all, label, i as int),
        decreases ids@.len() - i,
    {
        assert(all[i as int] == ids@[i as int]@);
        if !id_is_valid(ids[i]) {
            return Some(GameDataFault::InvalidId { label, at: i });
        }
        if stands_before(ids, i) {
            return Some(GameDataFault::DuplicateId { label, at: i });
        }
        i += 1;
    }
    None
}

proof fn lemma_id_fault_fits(raw: RawGameData, label: Label, from: int)
    requires
        from >= 0,
        count_of(raw, label) <= usize::MAX,
    ensures
        id_fault(ids_of(raw, label), label, from) is Some ==> fault_fits(
            raw,
            id_fault(ids_of(raw, label), label, from)->0,
        ),
    decreases count_of(raw, label) - from,
{
    if from < count_of(raw, label) {
        lemma_id_fault_fits(raw, label, from + 1);
    }
}

/// The first fault of one list's ids.
fn list_fault(raw: &RawGameData, label: Label) -> (r: Option<GameDataFault>)
    ensures
        r == id_fault(ids_of(*raw, label), label, 0),
        r is Some ==> fault_fits(*raw, r->0),
{
    let ids: Vec<&str> = collect_ids(raw, label);
    let n: usize = ids.len();
    proof {
        assert(n == count_of(*raw, label)) by {
            assert(chars_of(ids@).len() == ids_of(*raw, label).len());
        }
        lemma_id_fault_fits(*raw, label, 0);
    }
    validate_ids(label, &ids)
}

/// The first fault of all ids.
pub(crate) fn ids_fault(raw: &RawGameData) -> (r: Option<GameDataFault>)
    ensures
        r == all_ids_fault(*raw),
        r is Some ==> fault_fits(*raw, r->0),
{
    let a: Option<GameDataFault> = list_fault(raw, Label::Skill);
    if a.is_some() {
        return a;
    }
    let b: Option<GameDataFault> = list_fault(raw, Label::Faction);
    if b.is_some() {
        return b;
    }
    let c: Option<GameDataFault> = list_fault(raw, Label::Effect);
    if c.is_some() {
        return c;
    }
    let d: Option<GameDataFault> = list_fault(raw, Label::Action);
    if d.is_some() {
        return d;
    }
    let e: Option<GameDataFault> = list_fault(raw, Label::Profile);
    if e.is_some() {
        return e;
    }
    let f: Option<GameDataFault> = list_fault(raw, Label::Mob);
    if f.is_some() {
        return f;
    }
    list_fault(raw, Label::Movement)
}

/// The ids that references are looked up in.
pub(crate) struct Index<'a> {
    pub(crate) skills: Vec<&'a str>,
    pub(crate) factions: Vec<&'a str>,
    pub(crate) effects: Vec<&'a str>,
    pub(crate) actions: Vec<&'a str>,
    pub(crate) movement: Vec<&'a str>,
}

impl<'a> Index<'a> {
    pub(crate) open spec fn of(&self, raw: RawGameData) -> bool {
        &&& chars_of(self.skills@) == ids_of(raw, Label::Skill)
        &&& chars_of(self.factions@) == ids_of(raw, Label::Faction)
        &&& chars_of(self.effects@) == ids_of(raw, Label::Effect)
        &&& chars_of(self.actions@) == ids_of(raw, Label::Action)
        &&& chars_of(self.movement@) == ids_of(raw, Label::Movement)
    }

    pub(crate) fn new(raw: &'a RawGameData) -> (r: Self)
        ensures
            r.of(*raw),
    {
        Index {
            skills: collect_ids(raw, Label::Skill),
            factions: collect_ids(raw, Label::Faction),
            effects: collect_ids(raw, Label::Effect),
            actions: collect_ids(raw, Label::Action),
            movement: collect_ids(raw, Label::Movement),
        }
    }
}

/// The place of an id in a list.
pub(crate) fn find_id(ids: &Vec<&str>, id: &str) -> (r: Option<usize>)
    ensures
        match r {
            Some(i) => place_in(chars_of(ids@), id@, 0) == Some(i as int) && i < ids@.len()
                && ids@[i as int]@ == id@,
            None => place_in(chars_of(ids@), id@, 0) is None,
        },
{
    let ghost all = chars_of(ids@);
    let mut i: usize = 0;
    while i < ids.len()
        invariant
            i <= ids@.len(),
            all == chars_of(ids@),
            place_in(all, id@, 0) == place_in(all, id@, i as int),
        decreases ids@.len() - i,
    {
        assert(all[i as int] == ids@[i as int]@);
        if str_eq(ids[i], id) {
            return Some(i);
        }
        i += 1;
    }
    None
}

fn skill_among(skills: &Vec<RawProfileSkill>, id: &str, n: usize) -> (r: bool)
    requires
        n <= skills@.len(),
    ensures
        r == has_skill(skills@, id@, n as int),
{
    let mut i: usize = 0;
    while i < n
        invariant
            i <= n <= skills@.len(),
            forall|j: int| 0 <= j < i ==> (#[trigger] skills@[j]).id@ != id@,
        decreases n - i,
    {
        if str_eq(skills[i].id.as_str(), id) {
            assert(skills@[i as int].id@ == id@);
            return true;
        }
        i += 1;
    }
    false
}

fn action_among(actions: &Vec<String>, id: &str, n: usize) -> (r: bool)
    requires
        n <= actions@.len(),
    ensures
        r == has_action(actions@, id@, n as int),
{
    let mut i: usize = 0;
    while i < n
        invariant
            i <= n <= actions@.len(),
            forall|j: int| 0 <= j < i ==> (#[trigger] actions@[j])@ != id@,
        decreases n - i,
    {
        if str_eq(actions[i].as_str(), id) {
            assert(actions@[i as int]@ == id@);
            return true;
        }
        i += 1;
    }
    false
}

proof fn lemma_lens(raw: RawGameData, index: &Index)
    requires
        index.of(raw),
    ensures
        index.skills@.len() == raw.skills@.len(),
        index.factions@.len() == raw.factions@.len(),
        index.effects@.len() == raw.effects@.len(),
        index.actions@.len() == raw.actions@.len(),
        index.movement@.len() == raw.movement@.len(),
{
    assert(chars_of(index.skills@).len() == ids_of(raw, Label::Skill).len());
    assert(chars_of(index.factions@).len() == ids_of(raw, Label::Faction).len());
    assert(chars_of(index.effects@).len() == ids_of(raw, Label::Effect).len());
    assert(chars_of(index.actions@).len() == ids_of(raw, Label::Action).len());
    assert(chars_of(index.movement@).len() == ids_of(raw, Label::Movement).len());
}

fn check_needs(
    raw: &RawGameData,
    index: &Index,
    actor: Actor,
    skills: &Vec<RawProfileSkill>,
    place: usize,
    action: usize,
) -> (r: Option<GameDataFault>)
    requires
        index.of(*raw),
        actor_fits(*raw, actor),
        skills@ == skills_of(*raw, actor),
        place < actions_of(*raw, actor).len(),
        action < raw.actions@.len(),
    ensures
        r == needs_fault(*raw, actor, place, action as int, 0),
        r is Some ==> fault_fits(*raw, r->0),
{
    proof {
        lemma_lens(*raw, index);
    }
    let assignments: &Vec<RawActionEffect> = &raw.actions[action].effects;
    let mut i: usize = 0;
    while i < assignments.len()
        invariant
            i <= assignments@.len(),
            index.of(*raw),
            index.effects@.len() == raw.effects@.len(),
            actor_fits(*raw, actor),
            skills@ == skills_of(*raw, actor),
            place < actions_of(*raw, actor).len(),
            action < raw.actions@.len(),
            assignments@ == raw.actions@[action as int].effects@,
            needs_fault(*raw, actor, place, action as int, 0) == needs_fault(
                *raw,
                actor,
                place,
                action as int,
                i as int,
            ),
        decreases assignments@.len() - i,
    {
        match find_id(&index.effects, assignments[i].effect_id.as_str()) {
            None => {
                return Some(GameDataFault::UnknownEffect { action, assignment: i });
            },
            Some(e) => {
                if !skill_among(skills, raw.effects[e].skill_id.as_str(), skills.len()) {
                    return Some(GameDataFault::UnassignedSkill { actor, action: place, effect: e });
                }
            },
        }
        i += 1;
    }
    None
}

/// The first fault of an actor's skills and actions.
pub(crate) fn validate_actor_roster(
    raw: &RawGameData,
    index: &Index,
    actor: Actor,
    skills: &Vec<RawProfileSkill>,
    actions: &Vec<String>,
) -> (r: Option<GameDataFault>)
    requires
        index.of(*raw),
        actor_fits(*raw, actor),
        skills@ == skills_of(*raw, actor),
        actions@ == actions_of(*raw, actor),
    ensures
        r == roster_fault(*raw, actor),
        r is Some ==> fault_fits(*raw, r->0),
{
    proof {
        lemma_lens(*raw, index);
    }
    let mut i: usize = 0;
    while i < skills.len()
        invariant
            i <= skills@.len(),
            index.of(*raw),
            actor_fits(*raw, actor),
            skills@ == skills_of(*raw, actor),
            skill_roster_fault(*raw, actor, 0) == skill_roster_fault(*raw, actor, i as int),
        decreases skills@.len() - i,
    {
        let id: &str = skills[i].id.as_str();
        if skill_among(skills, id, i) {
            return Some(GameDataFault::DuplicateSkill { actor, skill: i });
        }
        if find_id(&index.skills, id).is_none() || skills[i].level <= 0 {
            return Some(GameDataFault::InvalidSkill { actor, skill: i });
        }
        i += 1;
    }
    let mut k: usize = 0;
    while k < actions.len()
        invariant
            k <= actions@.len(),
            index.of(*raw),
            index.actions@.len() == raw.actions@.len(),
            actor_fits(*raw, actor),
            skills@ == skills_of(*raw, actor),
            actions@ == actions_of(*raw, actor),
            skill_roster_fault(*raw, actor, 0) is None,
            action_roster_fault(*raw, actor, 0) == action_roster_fault(*raw, actor, k as int),
        decreases actions@.len() - k,
    {
        let id: &str = actions[k].as_str();
        if action_among(actions, id, k) {
            return Some(GameDataFault::DuplicateAction { actor, action: k });
        }
        match find_id(&index.actions, id) {
            None => {
                return Some(GameDataFault::UnknownAction { actor, action: k });
            },
            Some(a) => {
                let needs: Option<GameDataFault> = check_needs(raw, index, actor, skills, k, a);
                if needs.is_some() {
                    return needs;
                }
            },
        }
        k += 1;
    }
    None
}

fn neutral_factions(raw: &RawGameData) -> (r: usize)
    ensures
        r == neutral_count(*raw, raw.factions@.len()),
{
    let mut n: usize = 0;
    let mut i: usize = 0;
    while i < raw.factions.len()
        invariant
            i <= raw.factions@.len(),
            n <= i,
            n == neutral_count(*raw, i as nat),
        decreases raw.factions@.len() - i,
    {
        if raw.factions[i].neutral {
            n += 1;
        }
        i += 1;
    }
    n
}

fn check_profiles(raw: &RawGameData, index: &Index) -> (r: Option<GameDataFault>)
    requires
        index.of(*raw),
    ensures
        r == profiles_fault(*raw, 0),
        r is Some ==> fault_fits(*raw, r->0),
{
    let mut i: usize = 0;
    while i < raw.players.len()
        invariant
            i <= raw.players@.len(),
            index.of(*raw),
            profiles_fault(*raw, 0) == profiles_fault(*raw, i as int),
        decreases raw.players@.len() - i,
    {
        let p: &RawPlayerProfile = &raw.players[i];
        let actor: Actor = Actor::Profile(i);
        if find_id(&index.factions, p.faction.as_str()).is_none() {
            return Some(GameDataFault::UnknownFaction { actor });
        }
        if p.actions.len() == 0 {
            return Some(GameDataFault::EmptyRoster { actor });
        }
        let roster: Option<GameDataFault> = validate_actor_roster(
            raw,
            index,
            actor,
            &p.skills,
            &p.actions,
        );
        if roster.is_some() {
            return roster;
        }
        i += 1;
    }
    None
}

fn check_effects(raw: &RawGameData, index: &Index) -> (r: Option<GameDataFault>)
    requires
        index.of(*raw),
    ensures
        r == effects_fault(*raw, 0),
        r is Some ==> fault_fits(*raw, r->0),
{
    let mut i: usize = 0;
    while i < raw.effects.len()
        invariant
            i <= raw.effects@.len(),
            index.of(*raw),
            effects_fault(*raw, 0) == effects_fault(*raw, i as int),
        decreases raw.effects@.len() - i,
    {
        if find_id(&index.skills, raw.effects[i].skill_id.as_str()).is_none() {
            return Some(GameDataFault::UnknownSkill { effect: i });
        }
        i += 1;
    }
    None
}

/// The first number of an assignment that is not finite.
pub fn validate_finite_action_numbers(x: &RawActionEffect) -> (r: Option<NumberField>)
    ensures
        r == number_fault(*x),
{
    if !x.magnitude.is_finite() {
        Some(NumberField::Magnitude)
    } else if !x.range_m.is_finite() {
        Some(NumberField::Range)
    } else if !x.radius_m.is_finite() {
        Some(NumberField::Radius)
    } else if !x.angle_deg.is_finite() {
        Some(NumberField::Angle)
    } else if !x.duration_s.is_finite() {
        Some(NumberField::Duration)
    } else if !x.movement_multiplier.is_finite() {
        Some(NumberField::MovementMultiplier)
    } else {
        None
    }
}

/// What the reach of an assignment is refused for, by the way it spreads.
pub fn validate_application(x: &RawActionEffect, application: Application) -> (r: Option<
    ReachFault,
>)
    ensures
        r == reach_fault(*x, application),
{
    let range: i64 = x.range_m.rank();
    let radius: i64 = x.radius_m.rank();
    let angle: i64 = x.angle_deg.rank();
    if range < 0 || radius < 0 {
        return Some(ReachFault::Negative);
    }
    match application {
        Application::SingleTarget => if range <= 0 {
            Some(ReachFault::SingleTargetRange)
        } else {
            None
        },
        Application::Cone => if range <= 0 {
            Some(ReachFault::ConeRange)
        } else if !(0 < angle && angle <= FULL_TURN_RANK) {
            Some(ReachFault::ConeAngle)
        } else {
            None
        },
        Application::Aoe => if range <= 0 {
            Some(ReachFault::AoeRange)
        } else if radius <= 0 {
            Some(ReachFault::AoeRadius)
        } else {
            None
        },
        Application::Pbaoe => if range != 0 {
            Some(ReachFault::PbaoeRange)
        } else if radius <= 0 {
            Some(ReachFault::PbaoeRadius)
        } else {
            None
        },
    }
}

fn check_domain(
    x: &RawActionEffect,
    operation: EffectOperation,
    application: Application,
    action: usize,
    assignment: usize,
) -> (r: Option<GameDataFault>)
    ensures
        r == domain_fault(*x, operation, application, action, assignment),
{
    match validate_finite_action_numbers(x) {
        Some(field) => {
            return Some(GameDataFault::NumberNotFinite { action, assignment, field });
        },
        None => {},
    }
    let magnitude: i64 = x.magnitude.rank();
    let duration: i64 = x.duration_s.rank();
    let movement: i64 = x.movement_multiplier.rank();
    match operation {
        EffectOperation::DirectDamage | EffectOperation::Heal => {
            if magnitude <= 0 || duration != 0 || movement != ONE_RANK {
                return Some(GameDataFault::DirectDomain { action, assignment });
            }
        },
        EffectOperation::Root | EffectOperation::Hold | EffectOperation::Charm => {
            if magnitude != ONE_RANK || duration <= 0 || movement != ONE_RANK {
                return Some(GameDataFault::ControlDomain { action, assignment });
            }
        },
        EffectOperation::Snare => {
            if magnitude != ONE_RANK || duration <= 0 || !(0 < movement && movement < ONE_RANK) {
                return Some(GameDataFault::SnareDomain { action, assignment });
            }
        },
    }
    match validate_application(x, application) {
        Some(fault) => Some(GameDataFault::Reach { action, assignment, fault }),
        None => None,
    }
}

fn check_assignments(
    raw: &RawGameData,
    index: &Index,
    action: usize,
) -> (r: Option<GameDataFault>)
    requires
        index.of(*raw),
        words_fault(*raw) is None,
        action < raw.actions@.len(),
    ensures
        r == assignments_fault(*raw, action, 0),
        r is Some ==> fault_fits(*raw, r->0),
{
    proof {
        lemma_lens(*raw, index);
    }
    let assignments: &Vec<RawActionEffect> = &raw.actions[action].effects;
    let mut i: usize = 0;
    while i < assignments.len()
        invariant
            i <= assignments@.len(),
            index.of(*raw),
            index.effects@.len() == raw.effects@.len(),
            words_fault(*raw) is None,
            action < raw.actions@.len(),
            assignments@ == raw.actions@[action as int].effects@,
            assignments_fault(*raw, action, 0) == assignments_fault(*raw, action, i as int),
        decreases assignments@.len() - i,
    {
        let x: &RawActionEffect = &assignments[i];
        match find_id(&index.effects, x.effect_id.as_str()) {
            None => {
                return Some(GameDataFault::UnknownEffect { action, assignment: i });
            },
            Some(e) => {
                proof {
                    lemma_words_known(*raw, e as int, action as int, i as int);
                }
                match (
                    EffectOperation::from_str(raw.effects[e].operation.as_str()),
                    Application::from_str(x.application.as_str()),
                ) {
                    (Some(operation), Some(application)) => {
                        let domain: Option<GameDataFault> = check_domain(
                            x,
                            operation,
                            application,
                            action,
                            i,
                        );
                        if domain.is_some() {
                            return domain;
                        }
                    },
                    _ => {},
                }
            },
        }
        i += 1;
    }
    None
}

pub(crate) proof fn lemma_effect_words(raw: RawGameData, from: int, e: int)
    requires
        0 <= from <= e < raw.effects@.len(),
        crate::gamedata::faults::effect_words_fault(raw.effects@, from) is None,
    ensures
        operation_of(raw.effects@[e].operation@) is Some,
        crate::gamedata::kinds::progression_of(raw.effects@[e].progression@) is Some,
    decreases e - from,
{
    if from < e {
        lemma_effect_words(raw, from + 1, e);
    }
}

pub(crate) proof fn lemma_assignment_words(xs: Seq<RawActionEffect>, action: usize, from: int, i: int)
    requires
        0 <= from <= i < xs.len(),
        crate::gamedata::faults::assignment_words_fault(xs, action, from) is None,
    ensures
        application_of(xs[i].application@) is Some,
    decreases i - from,
{
    if from < i {
        lemma_assignment_words(xs, action, from + 1, i);
    }
}

pub(crate) proof fn lemma_action_words(raw: RawGameData, from: int, a: int)
    requires
        0 <= from <= a < raw.actions@.len(),
        crate::gamedata::faults::action_words_fault(raw.actions@, from) is None,
    ensures
        crate::gamedata::kinds::target_of(raw.actions@[a].target@) is Some,
        crate::gamedata::faults::assignment_words_fault(
            raw.actions@[a].effects@,
            a as usize,
            0,
        ) is None,
    decreases a - from,
{
    if from < a {
        lemma_action_words(raw, from + 1, a);
    }
}

/// Once no word is refused, every effect has an operation and every assignment a way
/// to spread.
proof fn lemma_words_known(raw: RawGameData, e: int, a: int, i: int)
    requires
        words_fault(raw) is None,
        0 <= e < raw.effects@.len(),
        0 <= a < raw.actions@.len(),
        0 <= i < raw.actions@[a].effects@.len(),
    ensures
        operation_of(raw.effects@[e].operation@) is Some,
        application_of(raw.actions@[a].effects@[i].application@) is Some,
{
    lemma_effect_words(raw, 0, e);
    lemma_action_words(raw, 0, a);
    lemma_assignment_words(raw.actions@[a].effects@, a as usize, 0, i);
}

fn check_actions(raw: &RawGameData, index: &Index) -> (r: Option<GameDataFault>)
    requires
        index.of(*raw),
        words_fault(*raw) is None,
    ensures
        r == actions_fault(*raw, 0),
        r is Some ==> fault_fits(*raw, r->0),
{
    let mut i: usize = 0;
    while i < raw.actions.len()
        invariant
            i <= raw.actions@.len(),
            index.of(*raw),
            words_fault(*raw) is None,
            actions_fault(*raw, 0) == actions_fault(*raw, i as int),
        decreases raw.actions@.len() - i,
    {
        let a: &RawAction = &raw.actions[i];
        if !a.mana_cost.is_finite() || !a.cast_s.is_finite() || !a.cooldown_s.is_finite() {
            return Some(GameDataFault::ActionNotFinite { action: i });
        }
        if a.mana_cost.rank() < 0 {
            return Some(GameDataFault::NegativeMana { action: i });
        }
        if a.cast_s.rank() < 0 || a.cooldown_s.rank() < 0 {
            return Some(GameDataFault::NegativeTiming { action: i });
        }
        let inner: Option<GameDataFault> = check_assignments(raw, index, i);
        if inner.is_some() {
            return inner;
        }
        i += 1;
    }
    None
}

fn species_is_taken(raw: &RawGameData, at: usize) -> (r: bool)
    requires
        at < raw.mobs@.len(),
    ensures
        r == species_taken(raw.mobs@, at as int),
{
    let species: &str = raw.mobs[at].species_id.as_str();
    if species.unicode_len() == 0 {
        return false;
    }
    let mut j: usize = 0;
    while j < at
        invariant
            j <= at < raw.mobs@.len(),
            species@ == raw.mobs@[at as int].species_id@,
            species@.len() > 0,
            forall|k: int|
                0 <= k < j ==> (#[trigger] raw.mobs@[k]).species_id@
                    != raw.mobs@[at as int].species_id@,
        decreases at - j,
    {
        if str_eq(raw.mobs[j].species_id.as_str(), species) {
            assert(raw.mobs@[j as int].species_id@ == raw.mobs@[at as int].species_id@);
            return true;
        }
        j += 1;
    }
    false
}

fn check_mobs(raw: &RawGameData, index: &Index) -> (r: Option<GameDataFault>)
    requires
        index.of(*raw),
    ensures
        r == mobs_fault(*raw, 0),
        r is Some ==> fault_fits(*raw, r->0),
{
    let mut i: usize = 0;
    while i < raw.mobs.len()
        invariant
            i <= raw.mobs@.len(),
            index.of(*raw),
            mobs_fault(*raw, 0) == mobs_fault(*raw, i as int),
        decreases raw.mobs@.len() - i,
    {
        let m: &RawMobDefinition = &raw.mobs[i];
        let actor: Actor = Actor::Mob(i);
        if species_is_taken(raw, i) {
            return Some(GameDataFault::SharedSpecies { mob: i });
        }
        if find_id(&index.factions, m.faction.as_str()).is_none() {
            return Some(GameDataFault::UnknownFaction { actor });
        }
        if find_id(&index.movement, m.movement_id.as_str()).is_none() {
            return Some(GameDataFault::UnknownMovement { mob: i });
        }
        if m.actions.len() == 0 {
            return Some(GameDataFault::EmptyRoster { actor });
        }
        let roster: Option<GameDataFault> = validate_actor_roster(
            raw,
            index,
            actor,
            &m.skills,
            &m.actions,
        );
        if roster.is_some() {
            return roster;
        }
        if m.hp <= 0 {
            return Some(GameDataFault::NonPositiveHp { mob: i });
        }
        i += 1;
    }
    None
}

pub(crate) fn is_positive(x: Real) -> (r: bool)
    ensures
        r == positive(x),
{
    x.is_finite() && x.rank() > 0
}

pub(crate) fn is_variance(x: Real) -> (r: bool)
    ensures
        r == variance_ok(x),
{
    x.is_finite() && 0 <= x.rank() && x.rank() <= FIFTH_RANK
}

fn check_movement(raw: &RawGameData) -> (r: Option<GameDataFault>)
    ensures
        r == movement_fault(*raw, 0),
        r is Some ==> fault_fits(*raw, r->0),
{
    let mut i: usize = 0;
    while i < raw.movement.len()
        invariant
            i <= raw.movement@.len(),
            movement_fault(*raw, 0) == movement_fault(*raw, i as int),
        decreases raw.movement@.len() - i,
    {
        if !is_positive(raw.movement[i].speed_mps) {
            return Some(GameDataFault::MovementSpeed { movement: i });
        }
        i += 1;
    }
    None
}

/// The first fault of the references and numbers.
pub fn validate(raw: &RawGameData) -> (r: Option<GameDataFault>)
    requires
        words_fault(*raw) is None,
    ensures
        r == reference_fault(*raw),
        r is Some ==> fault_fits(*raw, r->0),
{
    if neutral_factions(raw) != 1 {
        return Some(GameDataFault::NeutralFaction);
    }
    let index: Index = Index::new(raw);
    let profiles: Option<GameDataFault> = check_profiles(raw, &index);
    if profiles.is_some() {
        return profiles;
    }
    let effects: Option<GameDataFault> = check_effects(raw, &index);
    if effects.is_some() {
        return effects;
    }
    let actions: Option<GameDataFault> = check_actions(raw, &index);
    if actions.is_some() {
        return actions;
    }
    let mobs: Option<GameDataFault> = check_mobs(raw, &index);
    if mobs.is_some() {
        return mobs;
    }
    check_movement(raw)
}

} // verus!
